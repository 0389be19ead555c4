use vstd::prelude::*;

use crate::cancellable::Cancellable;
use crate::cancellable::LazyCancellable;
use crate::cancellable::lazy_cancel;
use crate::observable::ObservableSource;
use crate::observer::Observer;
use crate::signal::Signal;
use crate::signal::live_trace;
use crate::signal::valid_trace;
use crate::signal::lemma_valid_prefix_live;

verus! {

/// The deliver-time scheduler hand-off. Each event this stage receives is
/// scheduled as one task on a single worker, modelled as the FIFO `pending`
/// queue; `run_pending` plays the worker, delivering the scheduled events to
/// the downstream sink in submission order. Because the worker is FIFO, the
/// downstream observes exactly the received trace: item order is preserved.
/// Errors are routed through the same queue, so even they keep their place.
/// A cancellation observed while running drops the scheduled deliveries.
pub struct ObserveOn<O, T, E> {
    pub observer: O,
    pub pending: Vec<Signal<T, E>>,
    pub stopped: bool,
    pub delivered: Ghost<Seq<Signal<T, E>>>,
    pub received: Ghost<Seq<Signal<T, E>>>,
}

impl<O, T, E> ObserveOn<O, T, E> where O: Observer<T, E> {
    pub fn new(observer: O) -> (r: Self)
        requires
            observer.inv(),
            observer.trace() == Seq::<Signal<T, E>>::empty(),
        ensures
            r.inv(),
            r.trace() == Seq::<Signal<T, E>>::empty(),
            r.observer == observer,
            r.cancelled() == observer.cancelled(),
            !r.stopped,
    {
        let r = ObserveOn {
            observer,
            pending: Vec::new(),
            stopped: false,
            delivered: Ghost(Seq::empty()),
            received: Ghost(Seq::empty()),
        };
        proof {
            assert(r.received@ =~= r.delivered@ + r.pending@);
        }
        r
    }

    /// Take the downstream sink back out, with everything it observed.
    pub fn into_observer(self) -> (r: O)
        ensures
            r == self.observer,
    {
        self.observer
    }

    /// Play the worker: deliver every scheduled event, in submission order.
    /// If the downstream has cancelled, the scheduled deliveries are dropped
    /// instead and the downstream observes nothing further.
    pub fn run_pending(&mut self)
        requires
            old(self).inv(),
        ensures
            final(self).inv(),
            final(self).received@ == old(self).received@,
            final(self).pending@.len() == 0,
            !old(self).stopped && !old(self).observer.cancelled() ==> !final(self).stopped
                && final(self).observer.trace() == old(self).received@,
            old(self).stopped || old(self).observer.cancelled() ==> final(self).observer.trace()
                == old(self).observer.trace(),
    {
        if self.stopped || self.observer.is_cancelled() {
            proof {
                if !self.stopped {
                    let k = self.delivered@.len() as int;
                    assert(self.delivered@ =~= self.received@.take(k));
                    if k == 0 {
                        assert(self.delivered@ =~= Seq::<Signal<T, E>>::empty());
                    } else if k == self.received@.len() {
                        assert(self.delivered@ =~= self.received@);
                    } else {
                        lemma_valid_prefix_live(self.received@, k);
                    }
                    assert(valid_trace(self.observer.trace()));
                }
            }
            self.pending = Vec::new();
            self.stopped = true;
            return ;
        }
        while self.pending.len() > 0
            invariant
                self.observer.inv(),
                !self.observer.cancelled(),
                !self.stopped,
                valid_trace(self.received@),
                self.received@ == old(self).received@,
                self.observer.trace() == self.delivered@,
                self.received@ == self.delivered@ + self.pending@,
            decreases self.pending.len(),
        {
            let ghost k = self.delivered@.len() as int;
            let ghost pre = self.delivered@;
            let sig = self.pending.remove(0);
            proof {
                assert(self.received@[k] == sig);
                assert(self.pending@ =~= self.received@.skip(k + 1));
                assert(pre =~= self.received@.take(k));
                if !(sig is Subscribe) {
                    assert(self.received@[0] is Subscribe);
                    assert(k > 0);
                    lemma_valid_prefix_live(self.received@, k);
                }
            }
            match sig {
                Signal::Subscribe => {
                    proof {
                        assert(k == 0);
                        assert(self.observer.trace() =~= Seq::<Signal<T, E>>::empty());
                    }
                    self.observer.on_subscribe();
                },
                Signal::Item(x) => {
                    self.observer.on_next(x);
                },
                Signal::Error(e) => {
                    self.observer.on_error(e);
                },
                Signal::Completed => {
                    self.observer.on_completed();
                },
            }
            proof {
                self.delivered@ = self.delivered@.push(sig);
                assert(self.received@ =~= self.delivered@ + self.pending@);
            }
        }
        proof {
            assert(self.pending@.len() == 0);
            assert(self.delivered@ =~= self.received@);
        }
    }
}

impl<O, T, E> Observer<T, E> for ObserveOn<O, T, E> where O: Observer<T, E> {
    open spec fn trace(&self) -> Seq<Signal<T, E>> {
        self.received@
    }

    open spec fn inv(&self) -> bool {
        &&& self.observer.inv()
        &&& valid_trace(self.received@)
        &&& !self.stopped ==> self.observer.trace() == self.delivered@ && self.received@
            == self.delivered@ + self.pending@
        &&& self.stopped ==> valid_trace(self.observer.trace())
    }

    open spec fn cancelled(&self) -> bool {
        self.observer.cancelled()
    }

    fn on_subscribe(&mut self)
        ensures
            final(self).observer == old(self).observer,
            final(self).stopped == old(self).stopped,
            final(self).delivered@ == old(self).delivered@,
            final(self).pending@ == old(self).pending@.push(Signal::Subscribe),
    {
        self.pending.push(Signal::Subscribe);
        proof {
            self.received@ = self.received@.push(Signal::Subscribe);
            crate::signal::lemma_subscribe_live::<T, E>();
            assert(self.received@ =~= seq![Signal::<T, E>::Subscribe]);
            if !self.stopped {
                assert(self.received@ =~= self.delivered@ + self.pending@);
            }
        }
    }

    fn on_next(&mut self, item: T)
        ensures
            final(self).observer == old(self).observer,
            final(self).stopped == old(self).stopped,
            final(self).delivered@ == old(self).delivered@,
            final(self).pending@ == old(self).pending@.push(Signal::Item(item)),
    {
        self.pending.push(Signal::Item(item));
        proof {
            crate::signal::lemma_push_item_live(old(self).received@, item);
            self.received@ = self.received@.push(Signal::Item(item));
            if !self.stopped {
                assert(self.received@ =~= self.delivered@ + self.pending@);
            }
        }
    }

    fn on_error(&mut self, error: E)
        ensures
            final(self).observer == old(self).observer,
            final(self).stopped == old(self).stopped,
            final(self).delivered@ == old(self).delivered@,
            final(self).pending@ == old(self).pending@.push(Signal::Error(error)),
    {
        self.pending.push(Signal::Error(error));
        proof {
            crate::signal::lemma_push_terminal_valid(
                old(self).received@,
                Signal::<T, E>::Error(error),
            );
            self.received@ = self.received@.push(Signal::Error(error));
            if !self.stopped {
                assert(self.received@ =~= self.delivered@ + self.pending@);
            }
        }
    }

    fn on_completed(&mut self)
        ensures
            final(self).observer == old(self).observer,
            final(self).stopped == old(self).stopped,
            final(self).delivered@ == old(self).delivered@,
            final(self).pending@ == old(self).pending@.push(Signal::Completed),
    {
        self.pending.push(Signal::Completed);
        proof {
            crate::signal::lemma_push_terminal_valid(
                old(self).received@,
                Signal::<T, E>::Completed,
            );
            self.received@ = self.received@.push(Signal::Completed);
            if !self.stopped {
                assert(self.received@ =~= self.delivered@ + self.pending@);
            }
        }
    }

    fn is_cancelled(&self) -> (r: bool) {
        self.observer.is_cancelled()
    }
}

/// The subscribe-time scheduler hand-off: subscribing yields at once a
/// pending task together with a two-phase token, and the worker performs the
/// upstream subscription when it runs the task.
pub struct ObservableSubscribeOn<Observable> {
    pub observable: Observable,
}

impl<Observable> ObservableSubscribeOn<Observable> {
    pub fn new(observable: Observable) -> (r: Self)
        ensures
            r.observable == observable,
    {
        ObservableSubscribeOn { observable }
    }

    /// Defer the subscription: the caller gets the task to hand to a worker
    /// and can cancel it through the task's token before the worker runs.
    pub fn actual_subscribe<O, T, E>(self, observer: O) -> (r: PendingSubscribe<
        Observable,
        O,
    >) where Observable: ObservableSource<T, E>, O: Observer<T, E>
        ensures
            r.source == self.observable,
            r.observer == observer,
            !r.token.latched,
            r.token.upstream is None,
    {
        PendingSubscribe { source: self.observable, observer, token: LazyCancellable::new() }
    }
}

/// A deferred subscription: the moved-in source and sink, waiting for a
/// worker, with the token the caller holds in the meantime.
pub struct PendingSubscribe<Src, O> {
    pub source: Src,
    pub observer: O,
    pub token: LazyCancellable,
}

impl<Src, O> PendingSubscribe<Src, O> {
    /// Cancel through the token before the worker has run.
    pub fn cancel(&mut self)
        ensures
            final(self).token == lazy_cancel(old(self).token),
            final(self).token.cancelled(),
            final(self).source == old(self).source,
            final(self).observer == old(self).observer,
    {
        self.token.cancel();
    }

    /// Play the worker. Cancelling the token before the worker runs prevents
    /// the upstream subscription observably: the sink comes back having
    /// observed nothing, not even `on_subscribe`. Otherwise the upstream
    /// subscription happens here, on the worker, and the sink observes
    /// exactly what the source emits.
    pub fn run<T, E>(self) -> (r: O) where Src: ObservableSource<T, E>, O: Observer<T, E>
        requires
            self.observer.inv(),
            self.observer.trace() == Seq::<Signal<T, E>>::empty(),
            !self.observer.cancelled(),
        ensures
            self.token.cancelled() ==> r == self.observer && r.trace() == Seq::<
                Signal<T, E>,
            >::empty(),
            !self.token.cancelled() ==> r.inv() && r.trace() == self.source.emitted()
                && valid_trace(r.trace()) && !r.cancelled(),
    {
        if self.token.is_cancelled() {
            self.observer
        } else {
            self.source.actual_subscribe(self.observer)
        }
    }
}

} // verus!
