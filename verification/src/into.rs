use vstd::prelude::*;

use crate::emitter::FromObserver;
use crate::emitter::MissingEmitter;
use crate::flow::Flow;
use crate::flow::IntoFlow;
use crate::flow::Shared;
use crate::observable::IntoObservable;
use crate::observer::Observer;
use crate::signal::FlowError;
use crate::signal::Signal;
use crate::subscriber::Subscriber;

verus! {

/// Conversion of a plain value into an unbounded source whose sinks may be
/// handed across threads. The verified pipeline logic is the same either
/// way; the marker records the intent for the runtime.
pub trait IntoSharedObservable: Sized {
    type Observable;

    fn into_shared_observable(self) -> Shared<Self::Observable>;
}

impl<C> IntoSharedObservable for C where C: IntoObservable {
    type Observable = C::Observable;

    fn into_shared_observable(self) -> Shared<C::Observable> {
        Shared::new(self.into_observable())
    }
}

/// Conversion of a plain value into a backpressured source whose sinks may
/// be handed across threads.
pub trait IntoSharedFlow: Sized {
    type Flow;

    fn into_shared_flow(self) -> Shared<Flow<Self::Flow>>;
}

impl<C> IntoSharedFlow for C where C: IntoFlow {
    type Flow = C::Flow;

    fn into_shared_flow(self) -> Shared<Flow<C::Flow>> {
        self.into_flow().into_shared()
    }
}

/// Wrapping a sink as the push target a source operator writes to. The
/// conversion delivers `on_subscribe` as a side effect.
pub trait IntoObservableEmitter<T, E>: Observer<T, E> {
    type Emitter;

    fn into_emitter(self) -> Self::Emitter
        requires
            self.inv(),
            self.trace() == Seq::<Signal<T, E>>::empty(),
            !self.cancelled(),
    ;
}

impl<O, T, E> IntoObservableEmitter<T, E> for O where O: Observer<T, E> {
    type Emitter = FromObserver<O, T, E>;

    fn into_emitter(self) -> (r: FromObserver<O, T, E>)
        ensures
            r.wf(),
            r.observer.trace() == seq![Signal::<T, E>::Subscribe],
            !r.done,
    {
        FromObserver::new(self)
    }
}

/// Wrapping a backpressured sink as the push target a flow source operator
/// writes to. The conversion delivers `on_subscribe` as a side effect; the
/// emitter ignores demand, as a flow without a backpressure operator does.
pub trait IntoFlowEmitter<T, E>: Subscriber<T, E> {
    type Emitter;

    fn into_emitter(self) -> Self::Emitter
        requires
            self.inv(),
            self.trace() == Seq::<Signal<T, FlowError<E>>>::empty(),
            !self.cancelled(),
    ;
}

impl<S, T, E> IntoFlowEmitter<T, E> for S where S: Subscriber<T, E> {
    type Emitter = MissingEmitter<S, T, E>;

    fn into_emitter(self) -> (r: MissingEmitter<S, T, E>)
        ensures
            crate::emitter::FlowEmitter::wf(&r),
            crate::emitter::FlowEmitter::trace(&r) == seq![
                Signal::<T, FlowError<E>>::Subscribe,
            ],
            !crate::emitter::FlowEmitter::ended(&r),
    {
        MissingEmitter::new(self)
    }
}

/// The shared counterpart of `IntoObservableEmitter`: wrapping a sink that
/// may be handed across threads. The wrap itself is the same; whether the
/// emitter may cross a thread is the runtime's business.
pub trait IntoSharedObservableEmitter<T, E>: Observer<T, E> {
    type Emitter;

    fn into_shared_emitter(self) -> Self::Emitter
        requires
            self.inv(),
            self.trace() == Seq::<Signal<T, E>>::empty(),
            !self.cancelled(),
    ;
}

impl<O, T, E> IntoSharedObservableEmitter<T, E> for O where O: Observer<T, E> {
    type Emitter = FromObserver<O, T, E>;

    fn into_shared_emitter(self) -> (r: FromObserver<O, T, E>)
        ensures
            r.wf(),
            r.observer.trace() == seq![Signal::<T, E>::Subscribe],
            !r.done,
    {
        FromObserver::new(self)
    }
}

/// The shared counterpart of `IntoFlowEmitter`.
pub trait IntoSharedFlowEmitter<T, E>: Subscriber<T, E> {
    type Emitter;

    fn into_shared_emitter(self) -> Self::Emitter
        requires
            self.inv(),
            self.trace() == Seq::<Signal<T, FlowError<E>>>::empty(),
            !self.cancelled(),
    ;
}

impl<S, T, E> IntoSharedFlowEmitter<T, E> for S where S: Subscriber<T, E> {
    type Emitter = MissingEmitter<S, T, E>;

    fn into_shared_emitter(self) -> (r: MissingEmitter<S, T, E>)
        ensures
            crate::emitter::FlowEmitter::wf(&r),
            crate::emitter::FlowEmitter::trace(&r) == seq![
                Signal::<T, FlowError<E>>::Subscribe,
            ],
            !crate::emitter::FlowEmitter::ended(&r),
    {
        MissingEmitter::new(self)
    }
}

} // verus!
