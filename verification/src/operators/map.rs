use core::marker::PhantomData;
use vstd::prelude::*;

use crate::observer::Observer;
use crate::subscriber::Subscriber;
use crate::signal::Signal;
use crate::signal::live_trace;

verus! {

/// Pointwise correspondence of one event under a mapping closure: items are
/// related by the closure's postcondition, the other events are equal.
pub open spec fn signal_maps_via<F: Fn(T) -> U, T, U, E>(
    op: F,
    a: Signal<T, E>,
    b: Signal<U, E>,
) -> bool {
    match a {
        Signal::Subscribe => b is Subscribe,
        Signal::Item(x) => match b {
            Signal::Item(y) => call_ensures(op, (x,), y),
            _ => false,
        },
        Signal::Error(e) => b == Signal::<U, E>::Error(e),
        Signal::Completed => b is Completed,
    }
}

/// The downstream trace is the received trace with every item sent through
/// the closure, event for event.
pub open spec fn trace_maps_via<F: Fn(T) -> U, T, U, E>(
    op: F,
    tin: Seq<Signal<T, E>>,
    tout: Seq<Signal<U, E>>,
) -> bool {
    &&& tout.len() == tin.len()
    &&& forall|i: int|
        0 <= i < tin.len() ==> signal_maps_via(op, #[trigger] tin[i], #[trigger] tout[i])
}

/// One event mapped by a specification-level function.
pub open spec fn map_signal<T, U, E>(g: spec_fn(T) -> U, s: Signal<T, E>) -> Signal<U, E> {
    match s {
        Signal::Subscribe => Signal::Subscribe,
        Signal::Item(x) => Signal::Item(g(x)),
        Signal::Error(e) => Signal::Error(e),
        Signal::Completed => Signal::Completed,
    }
}

/// A trace mapped by a specification-level function.
pub open spec fn map_trace<T, U, E>(g: spec_fn(T) -> U, t: Seq<Signal<T, E>>) -> Seq<
    Signal<U, E>,
> {
    t.map_values(|s: Signal<T, E>| map_signal(g, s))
}

/// Mapping by `f` and then by `g` is observationally the same as mapping
/// once by their composition: the two pipelines produce equal traces.
pub proof fn lemma_map_fusion<T, U, V, E>(
    f: spec_fn(T) -> U,
    g: spec_fn(U) -> V,
    t: Seq<Signal<T, E>>,
)
    ensures
        map_trace(g, map_trace(f, t)) == map_trace((|x: T| g(f(x))), t),
{
    assert(map_trace(g, map_trace(f, t)) =~= map_trace((|x: T| g(f(x))), t));
}

/// When the closure computes the function `g`, the relational contract of
/// the operator pins the downstream trace to `map_trace(g, ..)` exactly.
pub proof fn lemma_maps_via_functional<F: Fn(T) -> U, T, U, E>(
    op: F,
    g: spec_fn(T) -> U,
    tin: Seq<Signal<T, E>>,
    tout: Seq<Signal<U, E>>,
)
    requires
        trace_maps_via(op, tin, tout),
        forall|x: T, y: U| call_ensures(op, (x,), y) ==> y == g(x),
    ensures
        tout == map_trace(g, tin),
{
    assert forall|i: int| 0 <= i < tin.len() implies #[trigger] tout[i] == map_signal(
        g,
        tin[i],
    ) by {
        assert(signal_maps_via(op, tin[i], tout[i]));
    }
    assert(tout =~= map_trace(g, tin));
}

/// The one-to-one transform: forwards subscription, error and completion
/// unchanged and sends every item through the closure.
pub struct MapObserver<O, F, T, U, E> {
    pub downstream: O,
    pub op: F,
    pub received: Ghost<Seq<Signal<T, E>>>,
    pub phantom: PhantomData<U>,
}

impl<O, F, T, U, E> MapObserver<O, F, T, U, E> where O: Observer<U, E>, F: Fn(T) -> U {
    pub fn new(downstream: O, op: F) -> (r: Self)
        requires
            downstream.inv(),
            downstream.trace() == Seq::<Signal<U, E>>::empty(),
            forall|x: T| call_requires(op, (x,)),
        ensures
            r.inv(),
            r.trace() == Seq::<Signal<T, E>>::empty(),
            r.cancelled() == downstream.cancelled(),
            r.downstream == downstream,
            r.op == op,
    {
        let r = MapObserver {
            downstream,
            op,
            received: Ghost(Seq::empty()),
            phantom: PhantomData,
        };
        proof {
            assert(trace_maps_via(r.op, r.received@, r.downstream.trace()));
        }
        r
    }

    /// Take the downstream sink back out, with everything it observed.
    pub fn into_observer(self) -> (r: O)
        ensures
            r == self.downstream,
    {
        self.downstream
    }
}

impl<O, F, T, U, E> Observer<T, E> for MapObserver<O, F, T, U, E> where
    O: Observer<U, E>,
    F: Fn(T) -> U,
 {
    open spec fn trace(&self) -> Seq<Signal<T, E>> {
        self.received@
    }

    open spec fn inv(&self) -> bool {
        &&& self.downstream.inv()
        &&& trace_maps_via(self.op, self.received@, self.downstream.trace())
        &&& forall|x: T| call_requires(self.op, (x,))
        &&& live_trace(self.received@) ==> live_trace(self.downstream.trace())
        &&& self.received@.len() == 0 ==> self.downstream.trace().len() == 0
    }

    open spec fn cancelled(&self) -> bool {
        self.downstream.cancelled()
    }

    fn on_subscribe(&mut self)
        ensures
            final(self).op == old(self).op,
            final(self).downstream.trace() == old(self).downstream.trace().push(
                Signal::Subscribe,
            ),
    {
        proof {
            assert(self.downstream.trace() =~= Seq::<Signal<U, E>>::empty());
        }
        self.downstream.on_subscribe();
        proof {
            self.received@ = self.received@.push(Signal::Subscribe);
            crate::signal::lemma_subscribe_live::<U, E>();
            assert(self.downstream.trace() =~= seq![Signal::<U, E>::Subscribe]);
            assert(self.received@ =~= seq![Signal::<T, E>::Subscribe]);
            assert(trace_maps_via(self.op, self.received@, self.downstream.trace()));
            crate::signal::lemma_subscribe_live::<T, E>();
        }
    }

    fn on_next(&mut self, item: T)
        ensures
            final(self).op == old(self).op,
            exists|y: U|
                #[trigger] call_ensures(old(self).op, (item,), y) && final(self).downstream.trace() == old(self).downstream.trace().push(Signal::Item(y)),
    {
        let y = (self.op)(item);
        self.downstream.on_next(y);
        proof {
            self.received@ = self.received@.push(Signal::Item(item));
            crate::signal::lemma_push_item_live(old(self).received@, item);
            crate::signal::lemma_push_item_live(old(self).downstream.trace(), y);
            assert forall|i: int| 0 <= i < self.received@.len() implies signal_maps_via(
                self.op,
                #[trigger] self.received@[i],
                #[trigger] self.downstream.trace()[i],
            ) by {
                if i < old(self).received@.len() {
                    assert(self.received@[i] == old(self).received@[i]);
                    assert(self.downstream.trace()[i] == old(self).downstream.trace()[i]);
                }
            }
        }
    }

    fn on_error(&mut self, error: E)
        ensures
            final(self).op == old(self).op,
            final(self).downstream.trace() == old(self).downstream.trace().push(
                Signal::Error(error),
            ),
    {
        self.downstream.on_error(error);
        proof {
            self.received@ = self.received@.push(Signal::Error(error));
            assert forall|i: int| 0 <= i < self.received@.len() implies signal_maps_via(
                self.op,
                #[trigger] self.received@[i],
                #[trigger] self.downstream.trace()[i],
            ) by {
                if i < old(self).received@.len() {
                    assert(self.received@[i] == old(self).received@[i]);
                    assert(self.downstream.trace()[i] == old(self).downstream.trace()[i]);
                }
            }
        }
    }

    fn on_completed(&mut self)
        ensures
            final(self).op == old(self).op,
            final(self).downstream.trace() == old(self).downstream.trace().push(
                Signal::Completed,
            ),
    {
        self.downstream.on_completed();
        proof {
            self.received@ = self.received@.push(Signal::Completed);
            assert forall|i: int| 0 <= i < self.received@.len() implies signal_maps_via(
                self.op,
                #[trigger] self.received@[i],
                #[trigger] self.downstream.trace()[i],
            ) by {
                if i < old(self).received@.len() {
                    assert(self.received@[i] == old(self).received@[i]);
                    assert(self.downstream.trace()[i] == old(self).downstream.trace()[i]);
                }
            }
        }
    }

    fn is_cancelled(&self) -> (r: bool) {
        self.downstream.is_cancelled()
    }
}

/// The one-to-one transform on the backpressured side: like `MapObserver`,
/// and it passes the downstream's demand through unchanged.
pub struct MapSubscriber<S, F, T, U, E> {
    pub subscriber: S,
    pub op: F,
    pub received: Ghost<Seq<Signal<T, crate::signal::FlowError<E>>>>,
    pub phantom: PhantomData<U>,
}

impl<S, F, T, U, E> MapSubscriber<S, F, T, U, E> where
    S: crate::subscriber::Subscriber<U, E>,
    F: Fn(T) -> U,
 {
    pub fn new(subscriber: S, op: F) -> (r: Self)
        requires
            subscriber.inv(),
            subscriber.trace() == Seq::<Signal<U, crate::signal::FlowError<E>>>::empty(),
            forall|x: T| call_requires(op, (x,)),
        ensures
            r.inv(),
            r.trace() == Seq::<Signal<T, crate::signal::FlowError<E>>>::empty(),
            r.cancelled() == subscriber.cancelled(),
            r.pending_demand() == subscriber.pending_demand(),
            r.announced() == subscriber.announced(),
            r.subscriber == subscriber,
            r.op == op,
    {
        let r = MapSubscriber {
            subscriber,
            op,
            received: Ghost(Seq::empty()),
            phantom: PhantomData,
        };
        proof {
            assert(trace_maps_via(r.op, r.received@, r.subscriber.trace()));
        }
        r
    }

    /// Take the downstream sink back out, with everything it observed.
    pub fn into_subscriber(self) -> (r: S)
        ensures
            r == self.subscriber,
    {
        self.subscriber
    }
}

impl<S, F, T, U, E> crate::subscriber::Subscriber<T, E> for MapSubscriber<S, F, T, U, E> where
    S: crate::subscriber::Subscriber<U, E>,
    F: Fn(T) -> U,
 {
    open spec fn trace(&self) -> Seq<Signal<T, crate::signal::FlowError<E>>> {
        self.received@
    }

    open spec fn inv(&self) -> bool {
        &&& self.subscriber.inv()
        &&& trace_maps_via(self.op, self.received@, self.subscriber.trace())
        &&& forall|x: T| call_requires(self.op, (x,))
        &&& live_trace(self.received@) ==> live_trace(self.subscriber.trace())
        &&& self.received@.len() == 0 ==> self.subscriber.trace().len() == 0
    }

    open spec fn cancelled(&self) -> bool {
        self.subscriber.cancelled()
    }

    open spec fn pending_demand(&self) -> usize {
        self.subscriber.pending_demand()
    }

    open spec fn announced(&self) -> nat {
        self.subscriber.announced()
    }

    fn on_subscribe(&mut self)
        ensures
            final(self).op == old(self).op,
            final(self).subscriber.trace() == old(self).subscriber.trace().push(
                Signal::Subscribe,
            ),
    {
        proof {
            assert(self.subscriber.trace() =~= Seq::<
                Signal<U, crate::signal::FlowError<E>>,
            >::empty());
        }
        self.subscriber.on_subscribe();
        proof {
            self.received@ = self.received@.push(Signal::Subscribe);
            crate::signal::lemma_subscribe_live::<U, crate::signal::FlowError<E>>();
            assert(self.subscriber.trace() =~= seq![
                Signal::<U, crate::signal::FlowError<E>>::Subscribe,
            ]);
            assert(self.received@ =~= seq![Signal::<T, crate::signal::FlowError<E>>::Subscribe]);
            assert(trace_maps_via(self.op, self.received@, self.subscriber.trace()));
            crate::signal::lemma_subscribe_live::<T, crate::signal::FlowError<E>>();
        }
    }

    fn on_next(&mut self, item: T)
        ensures
            final(self).op == old(self).op,
            exists|y: U|
                #[trigger] call_ensures(old(self).op, (item,), y) && final(self).subscriber.trace() == old(self).subscriber.trace().push(Signal::Item(y)),
    {
        let y = (self.op)(item);
        self.subscriber.on_next(y);
        proof {
            self.received@ = self.received@.push(Signal::Item(item));
            crate::signal::lemma_push_item_live(old(self).received@, item);
            crate::signal::lemma_push_item_live(old(self).subscriber.trace(), y);
            assert forall|i: int| 0 <= i < self.received@.len() implies signal_maps_via(
                self.op,
                #[trigger] self.received@[i],
                #[trigger] self.subscriber.trace()[i],
            ) by {
                if i < old(self).received@.len() {
                    assert(self.received@[i] == old(self).received@[i]);
                    assert(self.subscriber.trace()[i] == old(self).subscriber.trace()[i]);
                }
            }
        }
    }

    fn on_error(&mut self, error: crate::signal::FlowError<E>)
        ensures
            final(self).op == old(self).op,
            final(self).subscriber.trace() == old(self).subscriber.trace().push(
                Signal::Error(error),
            ),
    {
        self.subscriber.on_error(error);
        proof {
            self.received@ = self.received@.push(Signal::Error(error));
            assert forall|i: int| 0 <= i < self.received@.len() implies signal_maps_via(
                self.op,
                #[trigger] self.received@[i],
                #[trigger] self.subscriber.trace()[i],
            ) by {
                if i < old(self).received@.len() {
                    assert(self.received@[i] == old(self).received@[i]);
                    assert(self.subscriber.trace()[i] == old(self).subscriber.trace()[i]);
                }
            }
        }
    }

    fn on_completed(&mut self)
        ensures
            final(self).op == old(self).op,
            final(self).subscriber.trace() == old(self).subscriber.trace().push(
                Signal::Completed,
            ),
    {
        self.subscriber.on_completed();
        proof {
            self.received@ = self.received@.push(Signal::Completed);
            assert forall|i: int| 0 <= i < self.received@.len() implies signal_maps_via(
                self.op,
                #[trigger] self.received@[i],
                #[trigger] self.subscriber.trace()[i],
            ) by {
                if i < old(self).received@.len() {
                    assert(self.received@[i] == old(self).received@[i]);
                    assert(self.subscriber.trace()[i] == old(self).subscriber.trace()[i]);
                }
            }
        }
    }

    fn is_cancelled(&self) -> (r: bool) {
        self.subscriber.is_cancelled()
    }

    fn take_demand(&mut self) -> (n: usize) {
        self.subscriber.take_demand()
    }
}

} // verus!
