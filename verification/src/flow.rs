use core::marker::PhantomData;
use vstd::prelude::*;

use crate::emitter::FlowEmitter;
use crate::emitter::MissingEmitter;
use crate::signal::FlowError;
use crate::signal::Signal;
use crate::signal::valid_trace;
use crate::subscriber::Subscriber;

verus! {

/// The trace a flow source emitting the items of a sequence produces after
/// delivering the subscription and the first `k` items.
pub open spec fn flow_emitted_prefix<T, E>(items: Seq<T>, k: int) -> Seq<
    Signal<T, FlowError<E>>,
> {
    seq![Signal::<T, FlowError<E>>::Subscribe] + items.take(k).map_values(
        |x: T| Signal::<T, FlowError<E>>::Item(x),
    )
}

/// A backpressured push source: subscribing moves the sink in and returns it
/// with everything it observed. `emitted` names the events the sink will
/// observe; the outcome is deterministic because a sink cannot cancel in the
/// middle of a delivery — cancellation happens between top-level calls.
pub trait FlowSource<T, E>: Sized {
    /// The events a sink subscribed to this source observes.
    spec fn emitted(&self) -> Seq<Signal<T, FlowError<E>>>;

    fn actual_subscribe<S: Subscriber<T, E>>(self, subscriber: S) -> (r: S)
        requires
            subscriber.inv(),
            subscriber.trace() == Seq::<Signal<T, FlowError<E>>>::empty(),
            !subscriber.cancelled(),
        ensures
            r.inv(),
            r.trace() == self.emitted(),
            valid_trace(r.trace()),
            r.trace().len() >= 1,
            !r.cancelled(),
    ;
}

/// A backpressured source whose sinks may be handed across threads. In the
/// verified model any flow source qualifies: the thread-safety of the hand
/// over itself is the runtime's business, not the pipeline logic's.
pub trait SharedFlow<T, E>: FlowSource<T, E> {

}

impl<T, E, A> SharedFlow<T, E> for A where A: FlowSource<T, E> {

}

/// Marker wrapping the stage of a flow pipeline.
pub struct Flow<Actual> {
    pub actual: Actual,
}

/// Marker for a stage whose sinks may be handed across threads. The verified
/// pipeline logic is the same; the sharing itself is the runtime's business.
pub struct Shared<Actual> {
    pub actual: Actual,
}

impl<Actual> Shared<Actual> {
    pub fn new(actual: Actual) -> (r: Self)
        ensures
            r.actual == actual,
    {
        Shared { actual }
    }
}

impl<Actual> Flow<Actual> {
    pub fn new(actual: Actual) -> (r: Self)
        ensures
            r.actual == actual,
    {
        Flow { actual }
    }

    pub fn into_shared(self) -> (r: Shared<Self>)
        ensures
            r.actual == self,
    {
        Shared::new(self)
    }
}

impl<T, E, Actual: Subscriber<T, E>> Subscriber<T, E> for Flow<Actual> {
    open spec fn trace(&self) -> Seq<Signal<T, FlowError<E>>> {
        self.actual.trace()
    }

    open spec fn inv(&self) -> bool {
        self.actual.inv()
    }

    open spec fn cancelled(&self) -> bool {
        self.actual.cancelled()
    }

    open spec fn pending_demand(&self) -> usize {
        self.actual.pending_demand()
    }

    open spec fn announced(&self) -> nat {
        self.actual.announced()
    }

    fn on_subscribe(&mut self) {
        self.actual.on_subscribe();
    }

    fn on_next(&mut self, item: T) {
        self.actual.on_next(item);
    }

    fn on_error(&mut self, error: FlowError<E>) {
        self.actual.on_error(error);
    }

    fn on_completed(&mut self) {
        self.actual.on_completed();
    }

    fn is_cancelled(&self) -> (r: bool) {
        self.actual.is_cancelled()
    }

    fn take_demand(&mut self) -> (n: usize) {
        self.actual.take_demand()
    }
}

impl<T, E, Actual: FlowSource<T, E>> FlowSource<T, E> for Flow<Actual> {
    open spec fn emitted(&self) -> Seq<Signal<T, FlowError<E>>> {
        self.actual.emitted()
    }

    fn actual_subscribe<S: Subscriber<T, E>>(self, subscriber: S) -> (r: S) {
        self.actual.actual_subscribe(subscriber)
    }
}

impl<Actual> Flow<Actual> {
    /// Subscribe a sink to this pipeline and hand it back afterwards.
    pub fn subscribe<T, E, S: Subscriber<T, E>>(self, subscriber: S) -> (r: S) where
        Actual: FlowSource<T, E>,

        requires
            subscriber.inv(),
            subscriber.trace() == Seq::<Signal<T, FlowError<E>>>::empty(),
            !subscriber.cancelled(),
        ensures
            r.inv(),
            r.trace() == self.actual.emitted(),
            valid_trace(r.trace()),
            r.trace().len() >= 1,
            !r.cancelled(),
    {
        self.actual.actual_subscribe(subscriber)
    }
}

/// A flow seeded from a vector: it emits each item in order, then
/// completes. It never errors and, having no backpressure operator
/// interposed, it ignores demand.
pub struct IntoIterFlow<T> {
    pub iterable: Vec<T>,
}

impl<T> IntoIterFlow<T> {
    pub fn new(iterable: Vec<T>) -> (r: Self)
        ensures
            r.iterable == iterable,
    {
        IntoIterFlow { iterable }
    }
}

impl<T, E> FlowSource<T, E> for IntoIterFlow<T> {
    /// The subscription, each item of the vector in order, then completion.
    open spec fn emitted(&self) -> Seq<Signal<T, FlowError<E>>> {
        flow_emitted_prefix::<T, E>(self.iterable@, self.iterable@.len() as int).push(
            Signal::Completed,
        )
    }

    fn actual_subscribe<S: Subscriber<T, E>>(self, subscriber: S) -> (r: S) {
        let ghost orig = self.iterable@;
        let mut items = self.iterable;
        let mut em = MissingEmitter::<S, T, E>::new(subscriber);
        proof {
            assert(orig.take(0) =~= Seq::<T>::empty());
            assert(em.trace() =~= flow_emitted_prefix::<T, E>(orig, 0));
        }
        while items.len() > 0
            invariant
                em.wf(),
                !em.ended(),
                !em.sink_cancelled(),
                items@ == orig.skip(orig.len() - items@.len()),
                0 <= orig.len() - items@.len() <= orig.len(),
                em.trace() == flow_emitted_prefix::<T, E>(orig, orig.len() - items@.len()),
            decreases items.len(),
        {
            let ghost k = orig.len() - items@.len();
            let x = items.remove(0);
            proof {
                assert(orig.skip(k)[0] == orig[k]);
                assert(x == orig[k]);
                assert(items@ =~= orig.skip(k + 1));
                assert(orig.take(k + 1) =~= orig.take(k).push(orig[k]));
                assert(orig.take(k + 1).map_values(|v: T| Signal::<T, FlowError<E>>::Item(v))
                    =~= orig.take(k).map_values(|v: T| Signal::<T, FlowError<E>>::Item(v)).push(
                    Signal::Item(x),
                ));
                assert(flow_emitted_prefix::<T, E>(orig, k + 1) =~= flow_emitted_prefix::<T, E>(
                    orig,
                    k,
                ).push(Signal::Item(x)));
            }
            em.on_next(x);
        }
        proof {
            assert(items@.len() == 0);
            assert(orig.len() - items@.len() == orig.len());
        }
        em.on_completed();
        em.into_subscriber()
    }
}

/// Conversion of a plain value into a backpressured source.
pub trait IntoFlow: Sized {
    type Flow;

    fn into_flow(self) -> Flow<Self::Flow>;
}

impl<T> IntoFlow for Vec<T> {
    type Flow = IntoIterFlow<T>;

    fn into_flow(self) -> (r: Flow<IntoIterFlow<T>>)
        ensures
            r.actual.iterable == self,
    {
        Flow::new(IntoIterFlow::new(self))
    }
}

/// A flow driven by a user closure: each subscription wraps the sink as an
/// emitter, whose subscription has already been delivered, and hands the
/// emitter to the closure. The closure is responsible for the rest of the
/// protocol; the emitter keeps whatever it does within it.
pub struct FlowCreate<F, T, E> {
    pub emitter_consumer: F,
    pub phantom: PhantomData<(T, E)>,
}

impl<F, T, E> FlowCreate<F, T, E> {
    pub fn actual_subscribe<S>(self, subscriber: S) -> (r: S) where
        S: Subscriber<T, E>,
        F: FnOnce(MissingEmitter<S, T, E>) -> MissingEmitter<S, T, E>,

        requires
            subscriber.inv(),
            subscriber.trace() == Seq::<Signal<T, FlowError<E>>>::empty(),
            !subscriber.cancelled(),
            forall|em: MissingEmitter<S, T, E>| em.wf() ==> call_requires(
                self.emitter_consumer,
                (em,),
            ),
            forall|em: MissingEmitter<S, T, E>, em2: MissingEmitter<S, T, E>|
                em.wf() && #[trigger] call_ensures(self.emitter_consumer, (em,), em2) ==> em2.wf(),
        ensures
            r.inv(),
            valid_trace(r.trace()),
            exists|em: MissingEmitter<S, T, E>, em2: MissingEmitter<S, T, E>|
                em.wf() && #[trigger] call_ensures(self.emitter_consumer, (em,), em2) && r
                    == em2.subscriber,
    {
        let em = MissingEmitter::<S, T, E>::new(subscriber);
        let em2 = (self.emitter_consumer)(em);
        em2.into_subscriber()
    }
}

/// Seed a flow pipeline from a closure over an emitter.
pub fn create<F, T, E>(emitter_consumer: F) -> (r: Flow<FlowCreate<F, T, E>>)
    ensures
        r.actual.emitter_consumer == emitter_consumer,
{
    Flow::new(FlowCreate { emitter_consumer, phantom: PhantomData })
}

} // verus!
