use vstd::prelude::*;

use crate::observer::Observer;
use crate::signal::FlowError;
use crate::signal::Signal;
use crate::signal::is_terminal;
use crate::signal::live_trace;
use crate::signal::valid_trace;
use crate::signal::lemma_push_item_live;
use crate::subscriber::Subscriber;

verus! {

/// What one received event becomes on the far side of materialize: every
/// event turns into an `Item` carrying it as a `Signal`; a subscription is
/// preceded by the downstream's own subscription, and a completion is
/// followed by the downstream's own completion. Errors only travel inside
/// items: the materialized stream itself never errors.
pub open spec fn mat_chunk<T, F>(s: Signal<T, F>) -> Seq<Signal<Signal<T, F>, F>> {
    match s {
        Signal::Subscribe => seq![
            Signal::Subscribe,
            Signal::Item(Signal::<T, F>::Subscribe),
        ],
        Signal::Item(x) => seq![Signal::Item(Signal::<T, F>::Item(x))],
        Signal::Error(e) => seq![Signal::Item(Signal::<T, F>::Error(e))],
        Signal::Completed => seq![
            Signal::Item(Signal::<T, F>::Completed),
            Signal::Completed,
        ],
    }
}

/// The whole materialized trace of an event trace.
pub open spec fn mat_trace<T, F>(t: Seq<Signal<T, F>>) -> Seq<Signal<Signal<T, F>, F>>
    decreases t.len(),
{
    if t.len() == 0 {
        Seq::empty()
    } else {
        mat_chunk(t.first()) + mat_trace(t.drop_first())
    }
}

/// Materializing one more event appends its chunk.
pub proof fn lemma_mat_snoc<T, F>(t: Seq<Signal<T, F>>, s: Signal<T, F>)
    ensures
        mat_trace(t.push(s)) == mat_trace(t) + mat_chunk(s),
    decreases t.len(),
{
    let t2 = t.push(s);
    if t.len() == 0 {
        assert(t2.first() == s);
        assert(t2.drop_first() =~= Seq::<Signal<T, F>>::empty());
        assert(mat_trace(Seq::<Signal<T, F>>::empty()) == Seq::<
            Signal<Signal<T, F>, F>,
        >::empty());
        assert(mat_trace(t2) =~= mat_trace(t) + mat_chunk(s));
    } else {
        assert(t2.first() == t.first());
        assert(t2.drop_first() =~= t.drop_first().push(s));
        lemma_mat_snoc(t.drop_first(), s);
        assert(mat_trace(t2) =~= mat_trace(t) + mat_chunk(s));
    }
}

/// What dematerialize delivers downstream for one received event, given
/// whether the downstream has been subscribed and whether it has seen a
/// terminal. A `Subscribe` carried inside an item subscribes the downstream;
/// items, errors and completions carried inside items are replayed; a bare
/// terminal of the upstream passes through. Anything the downstream's state
/// no longer allows is dropped.
pub open spec fn demat_step_out<T, F>(sub: bool, done: bool, s: Signal<Signal<T, F>, F>) -> Seq<
    Signal<T, F>,
> {
    match s {
        Signal::Subscribe => Seq::empty(),
        Signal::Item(sig) => match sig {
            Signal::Subscribe => if !sub && !done {
                seq![Signal::<T, F>::Subscribe]
            } else {
                Seq::empty()
            },
            Signal::Item(x) => if sub && !done {
                seq![Signal::<T, F>::Item(x)]
            } else {
                Seq::empty()
            },
            Signal::Error(e) => if sub && !done {
                seq![Signal::<T, F>::Error(e)]
            } else {
                Seq::empty()
            },
            Signal::Completed => if sub && !done {
                seq![Signal::<T, F>::Completed]
            } else {
                Seq::empty()
            },
        },
        Signal::Error(e) => if sub && !done {
            seq![Signal::<T, F>::Error(e)]
        } else {
            Seq::empty()
        },
        Signal::Completed => if sub && !done {
            seq![Signal::<T, F>::Completed]
        } else {
            Seq::empty()
        },
    }
}

/// The downstream-subscribed flag after one received event.
pub open spec fn demat_step_sub<T, F>(sub: bool, done: bool, s: Signal<Signal<T, F>, F>) -> bool {
    match s {
        Signal::Item(sig) => match sig {
            Signal::Subscribe => if !sub && !done {
                true
            } else {
                sub
            },
            _ => sub,
        },
        _ => sub,
    }
}

/// The downstream-terminated flag after one received event.
pub open spec fn demat_step_done<T, F>(sub: bool, done: bool, s: Signal<Signal<T, F>, F>) -> bool {
    match s {
        Signal::Subscribe => done,
        Signal::Item(sig) => match sig {
            Signal::Error(e) => if sub && !done {
                true
            } else {
                done
            },
            Signal::Completed => if sub && !done {
                true
            } else {
                done
            },
            _ => done,
        },
        Signal::Error(e) => if sub && !done {
            true
        } else {
            done
        },
        Signal::Completed => if sub && !done {
            true
        } else {
            done
        },
    }
}

/// Everything dematerialize delivers downstream over a received trace.
pub open spec fn demat_out<T, F>(sub: bool, done: bool, t: Seq<Signal<Signal<T, F>, F>>) -> Seq<
    Signal<T, F>,
>
    decreases t.len(),
{
    if t.len() == 0 {
        Seq::empty()
    } else {
        demat_step_out(sub, done, t.first()) + demat_out(
            demat_step_sub(sub, done, t.first()),
            demat_step_done(sub, done, t.first()),
            t.drop_first(),
        )
    }
}

/// The downstream-subscribed flag after a received trace.
pub open spec fn demat_sub_after<T, F>(sub: bool, done: bool, t: Seq<Signal<Signal<T, F>, F>>) -> bool
    decreases t.len(),
{
    if t.len() == 0 {
        sub
    } else {
        demat_sub_after(
            demat_step_sub(sub, done, t.first()),
            demat_step_done(sub, done, t.first()),
            t.drop_first(),
        )
    }
}

/// The downstream-terminated flag after a received trace.
pub open spec fn demat_done_after<T, F>(sub: bool, done: bool, t: Seq<Signal<Signal<T, F>, F>>) -> bool
    decreases t.len(),
{
    if t.len() == 0 {
        done
    } else {
        demat_done_after(
            demat_step_sub(sub, done, t.first()),
            demat_step_done(sub, done, t.first()),
            t.drop_first(),
        )
    }
}

/// Receiving one more event appends its step and advances the state.
pub proof fn lemma_demat_snoc<T, F>(
    sub: bool,
    done: bool,
    t: Seq<Signal<Signal<T, F>, F>>,
    s: Signal<Signal<T, F>, F>,
)
    ensures
        demat_out(sub, done, t.push(s)) == demat_out(sub, done, t) + demat_step_out(
            demat_sub_after(sub, done, t),
            demat_done_after(sub, done, t),
            s,
        ),
        demat_sub_after(sub, done, t.push(s)) == demat_step_sub(
            demat_sub_after(sub, done, t),
            demat_done_after(sub, done, t),
            s,
        ),
        demat_done_after(sub, done, t.push(s)) == demat_step_done(
            demat_sub_after(sub, done, t),
            demat_done_after(sub, done, t),
            s,
        ),
    decreases t.len(),
{
    let t2 = t.push(s);
    if t.len() == 0 {
        assert(t2.first() == s);
        assert(t2.drop_first() =~= Seq::<Signal<Signal<T, F>, F>>::empty());
        let s1 = demat_step_sub(sub, done, s);
        let d1 = demat_step_done(sub, done, s);
        let e = Seq::<Signal<Signal<T, F>, F>>::empty();
        assert(demat_out(s1, d1, e) == Seq::<Signal<T, F>>::empty());
        assert(demat_sub_after(s1, d1, e) == s1);
        assert(demat_done_after(s1, d1, e) == d1);
        assert(demat_out(sub, done, t2) =~= demat_out(sub, done, t) + demat_step_out(
            sub,
            done,
            s,
        ));
    } else {
        assert(t2.first() == t.first());
        assert(t2.drop_first() =~= t.drop_first().push(s));
        let sub1 = demat_step_sub(sub, done, t.first());
        let done1 = demat_step_done(sub, done, t.first());
        lemma_demat_snoc(sub1, done1, t.drop_first(), s);
        assert(demat_out(sub, done, t2) =~= demat_out(sub, done, t) + demat_step_out(
            demat_sub_after(sub, done, t),
            demat_done_after(sub, done, t),
            s,
        ));
    }
}

/// Over a stretch with no `Subscribe` and a terminal only at the end,
/// dematerializing the materialized form, starting from a subscribed and
/// unterminated downstream, returns the stretch unchanged.
pub proof fn lemma_demat_mat_mid<T, F>(t: Seq<Signal<T, F>>)
    requires
        forall|i: int| 0 <= i < t.len() ==> !((#[trigger] t[i]) is Subscribe),
        forall|i: int| 0 <= i < t.len() && is_terminal(#[trigger] t[i]) ==> i == t.len() - 1,
    ensures
        demat_out(true, false, mat_trace(t)) == t,
    decreases t.len(),
{
    if t.len() == 0 {
        assert(demat_out(true, false, mat_trace(t)) =~= t);
    } else {
        let rest = t.drop_first();
        assert(t[0] == t.first());
        assert forall|i: int| 0 <= i < rest.len() implies !((#[trigger] rest[i]) is Subscribe) by {
            assert(rest[i] == t[i + 1]);
        }
        assert forall|i: int| 0 <= i < rest.len() && is_terminal(#[trigger] rest[i]) implies i
            == rest.len() - 1 by {
            assert(rest[i] == t[i + 1]);
        }
        match t.first() {
            Signal::Subscribe => {
                assert(false);
            },
            Signal::Item(x) => {
                lemma_demat_mat_mid(rest);
                let m = mat_trace(t);
                assert(m =~= seq![Signal::Item(Signal::<T, F>::Item(x))] + mat_trace(rest));
                assert(m.first() == Signal::<Signal<T, F>, F>::Item(Signal::<T, F>::Item(x)));
                assert(m.drop_first() =~= mat_trace(rest));
                assert(demat_step_sub(true, false, m.first()) == true);
                assert(demat_step_done(true, false, m.first()) == false);
                assert(demat_step_out(true, false, m.first()) =~= seq![
                    Signal::<T, F>::Item(x),
                ]);
                assert(demat_out(true, false, m) =~= seq![Signal::<T, F>::Item(x)] + demat_out(
                    true,
                    false,
                    mat_trace(rest),
                ));
                assert(demat_out(true, false, m) =~= t);
            },
            Signal::Error(e) => {
                assert(is_terminal(t[0]));
                assert(t.len() == 1);
                assert(rest =~= Seq::<Signal<T, F>>::empty());
                let m = mat_trace(t);
                assert(m =~= seq![Signal::Item(Signal::<T, F>::Error(e))]);
                assert(m.first() == Signal::<Signal<T, F>, F>::Item(Signal::<T, F>::Error(e)));
                assert(m.drop_first() =~= Seq::<Signal<Signal<T, F>, F>>::empty());
                assert(demat_out(true, true, Seq::<Signal<Signal<T, F>, F>>::empty()) == Seq::<
                    Signal<T, F>,
                >::empty());
                assert(demat_out(true, false, m) =~= t);
            },
            Signal::Completed => {
                assert(is_terminal(t[0]));
                assert(t.len() == 1);
                assert(rest =~= Seq::<Signal<T, F>>::empty());
                let m = mat_trace(t);
                assert(m =~= seq![
                    Signal::Item(Signal::<T, F>::Completed),
                    Signal::<Signal<T, F>, F>::Completed,
                ]);
                assert(m.first() == Signal::<Signal<T, F>, F>::Item(Signal::<T, F>::Completed));
                let m1 = m.drop_first();
                assert(m1 =~= seq![Signal::<Signal<T, F>, F>::Completed]);
                assert(m1.first() == Signal::<Signal<T, F>, F>::Completed);
                assert(m1.drop_first() =~= Seq::<Signal<Signal<T, F>, F>>::empty());
                assert(demat_out(true, true, Seq::<Signal<Signal<T, F>, F>>::empty()) == Seq::<
                    Signal<T, F>,
                >::empty());
                assert(demat_step_out(true, true, m1.first()) =~= Seq::<Signal<T, F>>::empty());
                assert(demat_out(true, true, m1) =~= Seq::<Signal<T, F>>::empty());
                assert(demat_step_out(true, false, m.first()) =~= seq![
                    Signal::<T, F>::Completed,
                ]);
                assert(demat_out(true, false, m) =~= t);
            },
        }
    }
}

/// Dematerialize undoes materialize: funneling any valid event trace through
/// its materialized single-item form and back yields the trace unchanged.
/// In particular an error, which materialize suppresses into an error-signal
/// item, becomes an `on_error` again on dematerialization.
pub proof fn lemma_dematerialize_materialize<T, F>(t: Seq<Signal<T, F>>)
    requires
        valid_trace(t),
    ensures
        demat_out(false, false, mat_trace(t)) == t,
{
    if t.len() == 0 {
        assert(demat_out(false, false, mat_trace(t)) =~= t);
    } else {
        assert(t[0] == t.first());
        assert(t.first() is Subscribe);
        let rest = t.drop_first();
        assert forall|i: int| 0 <= i < rest.len() implies !((#[trigger] rest[i]) is Subscribe) by {
            assert(rest[i] == t[i + 1]);
        }
        assert forall|i: int| 0 <= i < rest.len() && is_terminal(#[trigger] rest[i]) implies i
            == rest.len() - 1 by {
            assert(rest[i] == t[i + 1]);
        }
        lemma_demat_mat_mid(rest);
        let m = mat_trace(t);
        assert(m =~= seq![
            Signal::<Signal<T, F>, F>::Subscribe,
            Signal::Item(Signal::<T, F>::Subscribe),
        ] + mat_trace(rest));
        assert(m.first() == Signal::<Signal<T, F>, F>::Subscribe);
        let m1 = m.drop_first();
        assert(m1 =~= seq![Signal::Item(Signal::<T, F>::Subscribe)] + mat_trace(rest));
        assert(m1.first() == Signal::<Signal<T, F>, F>::Item(Signal::<T, F>::Subscribe));
        assert(m1.drop_first() =~= mat_trace(rest));
        assert(demat_step_out(false, false, m.first()) =~= Seq::<Signal<T, F>>::empty());
        assert(demat_step_sub(false, false, m.first()) == false);
        assert(demat_step_done(false, false, m.first()) == false);
        assert(demat_step_out(false, false, m1.first()) =~= seq![Signal::<T, F>::Subscribe]);
        assert(demat_step_sub(false, false, m1.first()) == true);
        assert(demat_step_done(false, false, m1.first()) == false);
        assert(demat_out(false, false, m1) =~= seq![Signal::<T, F>::Subscribe] + demat_out(
            true,
            false,
            mat_trace(rest),
        ));
        assert(demat_out(false, false, m) =~= seq![Signal::<T, F>::Subscribe] + demat_out(
            true,
            false,
            mat_trace(rest),
        ));
        assert(demat_out(false, false, m) =~= t);
    }
}

/// The operator turning the event stream into a stream of `Signal` items:
/// its downstream never sees an error, and sees completion only after the
/// completion signal item. When the downstream cancels, terminal events are
/// no longer re-emitted and the downstream trace freezes.
pub struct Materialize<S, T, E> {
    pub subscriber: S,
    pub stopped: bool,
    pub received: Ghost<Seq<Signal<T, FlowError<E>>>>,
    pub frozen: Ghost<Seq<Signal<Signal<T, FlowError<E>>, FlowError<E>>>>,
}

impl<S, T, E> Materialize<S, T, E> where S: Subscriber<Signal<T, FlowError<E>>, E> {
    pub fn new(subscriber: S) -> (r: Self)
        requires
            subscriber.inv(),
            subscriber.trace() == Seq::<Signal<Signal<T, FlowError<E>>, FlowError<E>>>::empty(),
        ensures
            r.inv(),
            r.trace() == Seq::<Signal<T, FlowError<E>>>::empty(),
            r.subscriber == subscriber,
            r.cancelled() == subscriber.cancelled(),
            r.pending_demand() == subscriber.pending_demand(),
            r.announced() == subscriber.announced(),
    {
        let r = Materialize {
            subscriber,
            stopped: false,
            received: Ghost(Seq::empty()),
            frozen: Ghost(Seq::empty()),
        };
        proof {
            assert(mat_trace(r.received@) =~= Seq::<
                Signal<Signal<T, FlowError<E>>, FlowError<E>>,
            >::empty());
        }
        r
    }

    /// Take the downstream sink back out, with everything it observed.
    pub fn into_subscriber(self) -> (r: S)
        ensures
            r == self.subscriber,
    {
        self.subscriber
    }
}

impl<S, T, E> Subscriber<T, E> for Materialize<S, T, E> where
    S: Subscriber<Signal<T, FlowError<E>>, E>,
 {
    open spec fn trace(&self) -> Seq<Signal<T, FlowError<E>>> {
        self.received@
    }

    open spec fn inv(&self) -> bool {
        &&& self.subscriber.inv()
        &&& !self.stopped ==> self.subscriber.trace() == mat_trace(self.received@)
        &&& self.stopped ==> self.subscriber.trace() == self.frozen@
        &&& self.stopped ==> self.received@.len() >= 1 && is_terminal(self.received@.last())
        &&& !self.stopped && live_trace(self.received@) ==> live_trace(self.subscriber.trace())
        &&& !self.stopped && self.received@.len() == 0 ==> self.subscriber.trace() == Seq::<
            Signal<Signal<T, FlowError<E>>, FlowError<E>>,
        >::empty()
    }

    open spec fn cancelled(&self) -> bool {
        self.subscriber.cancelled()
    }

    open spec fn pending_demand(&self) -> usize {
        self.subscriber.pending_demand()
    }

    open spec fn announced(&self) -> nat {
        self.subscriber.announced()
    }

    fn on_subscribe(&mut self)
        ensures
            !final(self).stopped,
            final(self).subscriber.trace() == old(self).subscriber.trace().push(
                Signal::Subscribe,
            ).push(Signal::Item(Signal::<T, FlowError<E>>::Subscribe)),
    {
        proof {
            assert(!self.stopped);
        }
        self.subscriber.on_subscribe();
        proof {
            crate::signal::lemma_subscribe_live::<Signal<T, FlowError<E>>, FlowError<E>>();
            assert(self.subscriber.trace() =~= seq![
                Signal::<Signal<T, FlowError<E>>, FlowError<E>>::Subscribe,
            ]);
            lemma_push_item_live(self.subscriber.trace(), Signal::<T, FlowError<E>>::Subscribe);
        }
        self.subscriber.on_next(Signal::Subscribe);
        proof {
            self.received@ = self.received@.push(Signal::Subscribe);
            assert(self.received@ =~= seq![Signal::<T, FlowError<E>>::Subscribe]);
            crate::signal::lemma_subscribe_live::<T, FlowError<E>>();
            assert(self.subscriber.trace() =~= mat_trace(self.received@)) by {
                assert(self.received@.first() == Signal::<T, FlowError<E>>::Subscribe);
                assert(self.received@.drop_first() =~= Seq::<Signal<T, FlowError<E>>>::empty());
                assert(mat_trace(self.received@) =~= mat_chunk(
                    Signal::<T, FlowError<E>>::Subscribe,
                ));
                assert(self.subscriber.trace() =~= seq![
                    Signal::<Signal<T, FlowError<E>>, FlowError<E>>::Subscribe,
                ].push(Signal::Item(Signal::<T, FlowError<E>>::Subscribe)));
            }
        }
    }

    fn on_next(&mut self, item: T)
        ensures
            !final(self).stopped,
            final(self).subscriber.trace() == old(self).subscriber.trace().push(
                Signal::Item(Signal::<T, FlowError<E>>::Item(item)),
            ),
            final(self).subscriber.cancelled() == old(self).subscriber.cancelled(),
    {
        proof {
            assert(!self.stopped);
            lemma_push_item_live(
                self.subscriber.trace(),
                Signal::<T, FlowError<E>>::Item(item),
            );
        }
        self.subscriber.on_next(Signal::Item(item));
        proof {
            lemma_mat_snoc(old(self).received@, Signal::<T, FlowError<E>>::Item(item));
            self.received@ = self.received@.push(Signal::Item(item));
            lemma_push_item_live(old(self).received@, item);
            assert(self.subscriber.trace() =~= mat_trace(self.received@));
        }
    }

    fn on_error(&mut self, error: FlowError<E>)
        ensures
            !old(self).subscriber.cancelled() ==> !final(self).stopped && final(self).subscriber.trace() == old(self).subscriber.trace().push(
                Signal::Item(Signal::<T, FlowError<E>>::Error(error)),
            ),
            old(self).subscriber.cancelled() ==> final(self).stopped && final(self).subscriber.trace() == old(self).subscriber.trace(),
            final(self).subscriber.cancelled() == old(self).subscriber.cancelled(),
    {
        proof {
            assert(!self.stopped);
        }
        if self.subscriber.is_cancelled() {
            self.frozen = Ghost(self.subscriber.trace());
            self.stopped = true;
            proof {
                self.received@ = self.received@.push(Signal::Error(error));
            }
        } else {
            proof {
                lemma_push_item_live(
                    self.subscriber.trace(),
                    Signal::<T, FlowError<E>>::Error(error),
                );
            }
            self.subscriber.on_next(Signal::Error(error));
            proof {
                lemma_mat_snoc(old(self).received@, Signal::<T, FlowError<E>>::Error(error));
                self.received@ = self.received@.push(Signal::Error(error));
                assert(self.subscriber.trace() =~= mat_trace(self.received@));
            }
        }
    }

    fn on_completed(&mut self)
        ensures
            !old(self).subscriber.cancelled() ==> !final(self).stopped && final(self).subscriber.trace() == old(self).subscriber.trace().push(
                Signal::Item(Signal::<T, FlowError<E>>::Completed),
            ).push(Signal::Completed),
            old(self).subscriber.cancelled() ==> final(self).stopped && final(self).subscriber.trace() == old(self).subscriber.trace(),
            final(self).subscriber.cancelled() == old(self).subscriber.cancelled(),
    {
        proof {
            assert(!self.stopped);
        }
        if self.subscriber.is_cancelled() {
            self.frozen = Ghost(self.subscriber.trace());
            self.stopped = true;
            proof {
                self.received@ = self.received@.push(Signal::Completed);
            }
        } else {
            proof {
                lemma_push_item_live(
                    self.subscriber.trace(),
                    Signal::<T, FlowError<E>>::Completed,
                );
            }
            self.subscriber.on_next(Signal::Completed);
            proof {
                crate::signal::lemma_push_terminal_valid(
                    old(self).subscriber.trace(),
                    Signal::<Signal<T, FlowError<E>>, FlowError<E>>::Completed,
                );
                lemma_push_item_live(
                    old(self).subscriber.trace(),
                    Signal::<T, FlowError<E>>::Completed,
                );
            }
            self.subscriber.on_completed();
            proof {
                lemma_mat_snoc(old(self).received@, Signal::<T, FlowError<E>>::Completed);
                self.received@ = self.received@.push(Signal::Completed);
                assert(self.subscriber.trace() =~= mat_trace(self.received@));
            }
        }
    }

    fn is_cancelled(&self) -> (r: bool) {
        self.subscriber.is_cancelled()
    }

    fn take_demand(&mut self) -> (n: usize) {
        self.subscriber.take_demand()
    }
}

/// The inverse operator: it receives `Signal` items and replays each as the
/// sink call it stands for. A `Completed` or `Error` signal drives the
/// downstream terminal even before the upstream itself completes; whatever
/// the downstream's state no longer allows is dropped.
pub struct Dematerialize<O, T, E2> {
    pub observer: O,
    pub subscribed_down: bool,
    pub done_down: bool,
    pub received: Ghost<Seq<Signal<Signal<T, E2>, E2>>>,
}

impl<O, T, E2> Dematerialize<O, T, E2> where O: Observer<T, E2> {
    pub fn new(observer: O) -> (r: Self)
        requires
            observer.inv(),
            observer.trace() == Seq::<Signal<T, E2>>::empty(),
        ensures
            r.inv(),
            r.trace() == Seq::<Signal<Signal<T, E2>, E2>>::empty(),
            r.observer == observer,
            r.cancelled() == observer.cancelled(),
    {
        let r = Dematerialize {
            observer,
            subscribed_down: false,
            done_down: false,
            received: Ghost(Seq::empty()),
        };
        proof {
            assert(demat_out(false, false, r.received@) =~= Seq::<Signal<T, E2>>::empty());
        }
        r
    }

    /// Take the downstream sink back out, with everything it observed.
    pub fn into_observer(self) -> (r: O)
        ensures
            r == self.observer,
    {
        self.observer
    }
}

impl<O, T, E2> Observer<Signal<T, E2>, E2> for Dematerialize<O, T, E2> where O: Observer<T, E2> {
    open spec fn trace(&self) -> Seq<Signal<Signal<T, E2>, E2>> {
        self.received@
    }

    open spec fn inv(&self) -> bool {
        &&& self.observer.inv()
        &&& self.observer.trace() == demat_out(false, false, self.received@)
        &&& self.subscribed_down == demat_sub_after(false, false, self.received@)
        &&& self.done_down == demat_done_after(false, false, self.received@)
        &&& !self.subscribed_down ==> self.observer.trace() == Seq::<Signal<T, E2>>::empty()
            && !self.done_down
        &&& self.subscribed_down && !self.done_down ==> live_trace(self.observer.trace())
    }

    open spec fn cancelled(&self) -> bool {
        self.observer.cancelled()
    }

    fn on_subscribe(&mut self) {
        proof {
            lemma_demat_snoc(
                false,
                false,
                self.received@,
                Signal::<Signal<T, E2>, E2>::Subscribe,
            );
            self.received@ = self.received@.push(Signal::Subscribe);
            assert(self.observer.trace() =~= demat_out(false, false, self.received@));
            crate::signal::lemma_subscribe_live::<Signal<T, E2>, E2>();
            assert(self.received@ =~= seq![Signal::<Signal<T, E2>, E2>::Subscribe]);
        }
    }

    fn on_next(&mut self, item: Signal<T, E2>) {
        let ghost evt = Signal::<Signal<T, E2>, E2>::Item(item);
        proof {
            lemma_demat_snoc(false, false, self.received@, evt);
        }
        match item {
            Signal::Subscribe => {
                if !self.subscribed_down && !self.done_down {
                    proof {
                        assert(self.observer.trace() =~= Seq::<Signal<T, E2>>::empty());
                    }
                    self.observer.on_subscribe();
                    self.subscribed_down = true;
                    proof {
                        self.received@ = self.received@.push(evt);
                        assert(self.observer.trace() =~= demat_out(false, false, self.received@));
                        crate::signal::lemma_subscribe_live::<T, E2>();
                        assert(self.observer.trace() =~= seq![Signal::<T, E2>::Subscribe]);
                    }
                } else {
                    proof {
                        self.received@ = self.received@.push(evt);
                        assert(self.observer.trace() =~= demat_out(false, false, self.received@));
                    }
                }
            },
            Signal::Item(x) => {
                if self.subscribed_down && !self.done_down {
                    proof {
                        lemma_push_item_live(self.observer.trace(), x);
                    }
                    self.observer.on_next(x);
                    proof {
                        self.received@ = self.received@.push(evt);
                        assert(self.observer.trace() =~= demat_out(false, false, self.received@));
                        lemma_push_item_live(old(self).observer.trace(), x);
                    }
                } else {
                    proof {
                        self.received@ = self.received@.push(evt);
                        assert(self.observer.trace() =~= demat_out(false, false, self.received@));
                    }
                }
            },
            Signal::Error(e) => {
                if self.subscribed_down && !self.done_down {
                    self.observer.on_error(e);
                    self.done_down = true;
                    proof {
                        self.received@ = self.received@.push(evt);
                        assert(self.observer.trace() =~= demat_out(false, false, self.received@));
                    }
                } else {
                    proof {
                        self.received@ = self.received@.push(evt);
                        assert(self.observer.trace() =~= demat_out(false, false, self.received@));
                    }
                }
            },
            Signal::Completed => {
                if self.subscribed_down && !self.done_down {
                    self.observer.on_completed();
                    self.done_down = true;
                    proof {
                        self.received@ = self.received@.push(evt);
                        assert(self.observer.trace() =~= demat_out(false, false, self.received@));
                    }
                } else {
                    proof {
                        self.received@ = self.received@.push(evt);
                        assert(self.observer.trace() =~= demat_out(false, false, self.received@));
                    }
                }
            },
        }
    }

    fn on_error(&mut self, error: E2) {
        let ghost evt = Signal::<Signal<T, E2>, E2>::Error(error);
        proof {
            lemma_demat_snoc(false, false, self.received@, evt);
        }
        if self.subscribed_down && !self.done_down {
            self.observer.on_error(error);
            self.done_down = true;
            proof {
                self.received@ = self.received@.push(evt);
                assert(self.observer.trace() =~= demat_out(false, false, self.received@));
            }
        } else {
            proof {
                self.received@ = self.received@.push(evt);
                assert(self.observer.trace() =~= demat_out(false, false, self.received@));
            }
        }
    }

    fn on_completed(&mut self) {
        let ghost evt = Signal::<Signal<T, E2>, E2>::Completed;
        proof {
            lemma_demat_snoc(false, false, self.received@, evt);
        }
        if self.subscribed_down && !self.done_down {
            self.observer.on_completed();
            self.done_down = true;
            proof {
                self.received@ = self.received@.push(evt);
                assert(self.observer.trace() =~= demat_out(false, false, self.received@));
            }
        } else {
            proof {
                self.received@ = self.received@.push(evt);
                assert(self.observer.trace() =~= demat_out(false, false, self.received@));
            }
        }
    }

    fn is_cancelled(&self) -> (r: bool) {
        self.observer.is_cancelled()
    }
}

} // verus!
