use vstd::prelude::*;

use crate::emitter::FromObserver;
use crate::observer::Observer;
use crate::signal::Signal;

verus! {

/// How one downstream emitter of a subject changes when an item is
/// broadcast: a live, uncancelled emitter observes the item; any other is
/// left exactly as it was.
pub open spec fn broadcast_item<O: Observer<T, E>, T, E>(
    before: FromObserver<O, T, E>,
    after: FromObserver<O, T, E>,
    x: T,
) -> bool {
    if !before.done && !before.observer.cancelled() {
        &&& after.observer.trace() == before.observer.trace().push(Signal::Item(x))
        &&& after.done == before.done
        &&& !after.observer.cancelled()
    } else {
        after == before
    }
}

/// How one downstream emitter changes when an error is broadcast: a live
/// emitter observes it, whether or not it cancelled, and ends; an ended one
/// is left as it was.
pub open spec fn broadcast_error<O: Observer<T, E>, T, E>(
    before: FromObserver<O, T, E>,
    after: FromObserver<O, T, E>,
    e: E,
) -> bool {
    if !before.done {
        &&& after.observer.trace() == before.observer.trace().push(Signal::Error(e))
        &&& after.done
        &&& after.observer.cancelled() == before.observer.cancelled()
    } else {
        after == before
    }
}

/// How one downstream emitter changes when completion is broadcast.
pub open spec fn broadcast_completed<O: Observer<T, E>, T, E>(
    before: FromObserver<O, T, E>,
    after: FromObserver<O, T, E>,
) -> bool {
    if !before.done {
        &&& after.observer.trace() == before.observer.trace().push(Signal::<T, E>::Completed)
        &&& after.done
        &&& after.observer.cancelled() == before.observer.cancelled()
    } else {
        after == before
    }
}

/// The multicast source: a sink that is also a source. As a sink it
/// broadcasts every event it observes to all attached emitters, in
/// attachment order; as a source it converts each new observer to an emitter
/// and appends it. A late subscriber after a terminal observes nothing
/// further: it stays subscribed, and the terminal is not replayed.
///
/// Broadcasting hands each attached emitter its own copy of the payload, so
/// the subject carries plain-value payloads: `Copy` items (and, as a sink,
/// `Copy` errors).
pub struct PublishSubject<O, T, E> {
    pub emitters: Vec<FromObserver<O, T, E>>,
    pub subscribed: bool,
    pub received: Ghost<Seq<Signal<T, E>>>,
}

impl<O, T, E> PublishSubject<O, T, E> where O: Observer<T, E>, T: Copy {
    pub open spec fn wf(&self) -> bool {
        forall|i: int| 0 <= i < self.emitters@.len() ==> (#[trigger] self.emitters@[i]).wf()
    }

    pub fn new() -> (r: Self)
        ensures
            r.wf(),
            r.emitters@.len() == 0,
            r.received@ == Seq::<Signal<T, E>>::empty(),
            !r.subscribed,
    {
        PublishSubject { emitters: Vec::new(), subscribed: false, received: Ghost(Seq::empty()) }
    }

    /// Attach one more downstream observer; it observes its subscription at
    /// once, past events are not replayed.
    pub fn subscribe(&mut self, observer: O)
        requires
            old(self).wf(),
            observer.inv(),
            observer.trace() == Seq::<Signal<T, E>>::empty(),
            !observer.cancelled(),
        ensures
            final(self).wf(),
            final(self).received@ == old(self).received@,
            final(self).subscribed == old(self).subscribed,
            final(self).emitters@.len() == old(self).emitters@.len() + 1,
            forall|i: int|
                0 <= i < old(self).emitters@.len() ==> final(self).emitters@[i] == old(
                    self,
                ).emitters@[i],
            final(self).emitters@.last().observer.trace() == seq![Signal::<T, E>::Subscribe],
            !final(self).emitters@.last().done,
            !final(self).emitters@.last().observer.cancelled(),
    {
        let em = FromObserver::new(observer);
        self.emitters.push(em);
    }

    /// The folded view of the emitter list: whether every attached observer
    /// has cancelled. An empty list folds to true, as the conjunction does.
    pub fn all_cancelled(&self) -> (r: bool)
        requires
            self.wf(),
        ensures
            r == (forall|i: int|
                0 <= i < self.emitters@.len() ==> (#[trigger] self.emitters@[i]).observer.cancelled()),
    {
        let mut i: usize = 0;
        let n = self.emitters.len();
        let mut all = true;
        while i < n
            invariant
                0 <= i <= n,
                n == self.emitters@.len(),
                self.wf(),
                all == (forall|j: int|
                    0 <= j < i ==> (#[trigger] self.emitters@[j]).observer.cancelled()),
            decreases n - i,
        {
            let c = self.emitters[i].is_cancelled();
            all = all && c;
            i = i + 1;
        }
        all
    }

    /// Take the emitters out, in attachment order, with everything their
    /// observers observed.
    pub fn into_emitters(self) -> (r: Vec<FromObserver<O, T, E>>)
        ensures
            r == self.emitters,
    {
        self.emitters
    }
}

impl<O, T, E> Default for PublishSubject<O, T, E> where O: Observer<T, E>, T: Copy {
    fn default() -> (r: Self)
        ensures
            r.wf(),
            r.emitters@.len() == 0,
            r.received@ == Seq::<Signal<T, E>>::empty(),
            !r.subscribed,
    {
        PublishSubject::new()
    }
}

impl<O, T, E> Observer<T, E> for PublishSubject<O, T, E> where
    O: Observer<T, E>,
    T: Copy,
    E: Copy,
 {
    open spec fn trace(&self) -> Seq<Signal<T, E>> {
        self.received@
    }

    open spec fn inv(&self) -> bool {
        self.wf()
    }

    /// A subject does not itself cancel; each downstream emitter skips
    /// items on its own once its observer has cancelled.
    open spec fn cancelled(&self) -> bool {
        false
    }

    fn on_subscribe(&mut self) {
        self.subscribed = true;
        proof {
            self.received@ = self.received@.push(Signal::Subscribe);
        }
    }

    fn on_next(&mut self, item: T)
        ensures
            final(self).emitters@.len() == old(self).emitters@.len(),
            forall|i: int|
                0 <= i < old(self).emitters@.len() ==> broadcast_item(
                    #[trigger] old(self).emitters@[i],
                    final(self).emitters@[i],
                    item,
                ),
            final(self).subscribed == old(self).subscribed,
    {
        let ghost orig = self.emitters@;
        let mut pending: Vec<FromObserver<O, T, E>> = Vec::new();
        core::mem::swap(&mut pending, &mut self.emitters);
        let mut out: Vec<FromObserver<O, T, E>> = Vec::new();
        while pending.len() > 0
            invariant
                out@.len() + pending@.len() == orig.len(),
                pending@ == orig.skip(out@.len() as int),
                forall|j: int|
                    0 <= j < out@.len() ==> broadcast_item(orig[j], #[trigger] out@[j], item)
                        && out@[j].wf(),
                forall|j: int| 0 <= j < orig.len() ==> (#[trigger] orig[j]).wf(),
            decreases pending.len(),
        {
            let ghost k = out@.len() as int;
            let mut em = pending.remove(0);
            proof {
                assert(orig.skip(k)[0] == orig[k]);
                assert(em == orig[k]);
                assert(pending@ =~= orig.skip(k + 1));
            }
            em.on_next(item);
            out.push(em);
        }
        core::mem::swap(&mut out, &mut self.emitters);
        proof {
            self.received@ = self.received@.push(Signal::Item(item));
        }
    }

    fn on_error(&mut self, error: E)
        ensures
            final(self).emitters@.len() == old(self).emitters@.len(),
            forall|i: int|
                0 <= i < old(self).emitters@.len() ==> broadcast_error(
                    #[trigger] old(self).emitters@[i],
                    final(self).emitters@[i],
                    error,
                ),
            final(self).subscribed == old(self).subscribed,
    {
        let ghost orig = self.emitters@;
        let mut pending: Vec<FromObserver<O, T, E>> = Vec::new();
        core::mem::swap(&mut pending, &mut self.emitters);
        let mut out: Vec<FromObserver<O, T, E>> = Vec::new();
        while pending.len() > 0
            invariant
                out@.len() + pending@.len() == orig.len(),
                pending@ == orig.skip(out@.len() as int),
                forall|j: int|
                    0 <= j < out@.len() ==> broadcast_error(orig[j], #[trigger] out@[j], error)
                        && out@[j].wf(),
                forall|j: int| 0 <= j < orig.len() ==> (#[trigger] orig[j]).wf(),
            decreases pending.len(),
        {
            let ghost k = out@.len() as int;
            let mut em = pending.remove(0);
            proof {
                assert(orig.skip(k)[0] == orig[k]);
                assert(em == orig[k]);
                assert(pending@ =~= orig.skip(k + 1));
            }
            em.on_error(error);
            out.push(em);
        }
        core::mem::swap(&mut out, &mut self.emitters);
        proof {
            self.received@ = self.received@.push(Signal::Error(error));
        }
    }

    fn on_completed(&mut self)
        ensures
            final(self).emitters@.len() == old(self).emitters@.len(),
            forall|i: int|
                0 <= i < old(self).emitters@.len() ==> broadcast_completed(
                    #[trigger] old(self).emitters@[i],
                    final(self).emitters@[i],
                ),
            final(self).subscribed == old(self).subscribed,
    {
        let ghost orig = self.emitters@;
        let mut pending: Vec<FromObserver<O, T, E>> = Vec::new();
        core::mem::swap(&mut pending, &mut self.emitters);
        let mut out: Vec<FromObserver<O, T, E>> = Vec::new();
        while pending.len() > 0
            invariant
                out@.len() + pending@.len() == orig.len(),
                pending@ == orig.skip(out@.len() as int),
                forall|j: int|
                    0 <= j < out@.len() ==> broadcast_completed(orig[j], #[trigger] out@[j])
                        && out@[j].wf(),
                forall|j: int| 0 <= j < orig.len() ==> (#[trigger] orig[j]).wf(),
            decreases pending.len(),
        {
            let ghost k = out@.len() as int;
            let mut em = pending.remove(0);
            proof {
                assert(orig.skip(k)[0] == orig[k]);
                assert(em == orig[k]);
                assert(pending@ =~= orig.skip(k + 1));
            }
            em.on_completed();
            out.push(em);
        }
        core::mem::swap(&mut out, &mut self.emitters);
        proof {
            self.received@ = self.received@.push(Signal::Completed);
        }
    }

    fn is_cancelled(&self) -> (r: bool) {
        false
    }
}

} // verus!
