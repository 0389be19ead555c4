use core::marker::PhantomData;
use vstd::prelude::*;

use crate::observer::Observer;
use crate::signal::FlowError;
use crate::signal::Signal;
use crate::signal::is_terminal;
use crate::signal::valid_trace;
use crate::signal::lemma_push_item_live;
use crate::signal::lemma_push_terminal_valid;
use crate::subscriber::Subscriber;

verus! {

/// A producer-side adapter over an observer. Constructing it delivers
/// `on_subscribe`; afterwards every push operation is total: an event that
/// the protocol no longer allows (after a terminal) or that the sink no
/// longer wants (items after cancellation) is simply dropped. Source
/// operators write to emitters and never see the protocol bookkeeping.
pub struct FromObserver<O, T, E> {
    pub observer: O,
    pub done: bool,
    pub phantom: PhantomData<(T, E)>,
}

impl<O, T, E> FromObserver<O, T, E> where O: Observer<T, E> {
    pub open spec fn wf(&self) -> bool {
        &&& self.observer.inv()
        &&& valid_trace(self.observer.trace())
        &&& self.observer.trace().len() >= 1
        &&& self.done == is_terminal(self.observer.trace().last())
    }

    /// Wrap an observer, delivering `on_subscribe` to it as a side effect.
    pub fn new(observer: O) -> (r: Self)
        requires
            observer.inv(),
            observer.trace() == Seq::<Signal<T, E>>::empty(),
            !observer.cancelled(),
        ensures
            r.wf(),
            r.observer.trace() == seq![Signal::<T, E>::Subscribe],
            !r.done,
            !r.observer.cancelled(),
    {
        let mut observer = observer;
        observer.on_subscribe();
        proof {
            assert(observer.trace() =~= seq![Signal::<T, E>::Subscribe]);
        }
        FromObserver { observer, done: false, phantom: PhantomData }
    }

    /// Push an item. Dropped if the stream has ended or the sink cancelled.
    pub fn on_next(&mut self, item: T)
        requires
            old(self).wf(),
        ensures
            final(self).wf(),
            final(self).done == old(self).done,
            !old(self).done && !old(self).observer.cancelled() ==> final(self).observer.trace()
                == old(self).observer.trace().push(Signal::Item(item)) && !final(self).observer.cancelled(),
            old(self).done || old(self).observer.cancelled() ==> *final(self) == *old(self),
    {
        if !self.done && !self.observer.is_cancelled() {
            proof {
                lemma_push_item_live(self.observer.trace(), item);
            }
            self.observer.on_next(item);
        }
    }

    /// Push an error, ending the stream. Dropped if it already ended.
    pub fn on_error(&mut self, error: E)
        requires
            old(self).wf(),
        ensures
            final(self).wf(),
            !old(self).done ==> final(self).observer.trace() == old(self).observer.trace().push(
                Signal::Error(error),
            ) && final(self).done,
            old(self).done ==> *final(self) == *old(self),
            final(self).observer.cancelled() == old(self).observer.cancelled(),
    {
        if !self.done {
            proof {
                lemma_push_terminal_valid(self.observer.trace(), Signal::<T, E>::Error(error));
            }
            self.observer.on_error(error);
            self.done = true;
        }
    }

    /// Push completion, ending the stream. Dropped if it already ended.
    pub fn on_completed(&mut self)
        requires
            old(self).wf(),
        ensures
            final(self).wf(),
            !old(self).done ==> final(self).observer.trace() == old(self).observer.trace().push(
                Signal::<T, E>::Completed,
            ) && final(self).done,
            old(self).done ==> *final(self) == *old(self),
            final(self).observer.cancelled() == old(self).observer.cancelled(),
    {
        if !self.done {
            proof {
                lemma_push_terminal_valid(self.observer.trace(), Signal::<T, E>::Completed);
            }
            self.observer.on_completed();
            self.done = true;
        }
    }

    /// Whether the sink has asked its source to stop producing.
    pub fn is_cancelled(&self) -> (r: bool)
        requires
            self.wf(),
        ensures
            r == self.observer.cancelled(),
    {
        self.observer.is_cancelled()
    }

    /// Take the observer back out, with everything it observed.
    pub fn into_observer(self) -> (r: O)
        ensures
            r == self.observer,
    {
        self.observer
    }
}

/// The push interface a flow source operator writes to. Compared to a plain
/// observer it reports the outstanding downstream credit, and it takes the
/// upstream's own error type, wrapping it for the sink.
pub trait FlowEmitter<T, E>: Sized {
    /// The events the wrapped sink has observed.
    spec fn trace(&self) -> Seq<Signal<T, FlowError<E>>>;

    spec fn wf(&self) -> bool;

    /// Whether a terminal event has been delivered.
    spec fn ended(&self) -> bool;

    spec fn sink_cancelled(&self) -> bool;

    /// The credit this emitter reports to its producer.
    spec fn demand(&self) -> usize;

    fn on_next(&mut self, item: T)
        requires
            old(self).wf(),
        ensures
            final(self).wf(),
            final(self).ended() == old(self).ended(),
            !old(self).ended() && !old(self).sink_cancelled() ==> final(self).trace() == old(self).trace().push(Signal::Item(item)) && !final(self).sink_cancelled(),
            old(self).ended() || old(self).sink_cancelled() ==> final(self).trace() == old(self).trace() && final(self).sink_cancelled() == old(self).sink_cancelled(),
    ;

    fn on_error(&mut self, error: E)
        requires
            old(self).wf(),
        ensures
            final(self).wf(),
            !old(self).ended() ==> final(self).trace() == old(self).trace().push(
                Signal::Error(FlowError::Upstream(error)),
            ) && final(self).ended(),
            old(self).ended() ==> final(self).trace() == old(self).trace() && final(self).ended(),
            final(self).sink_cancelled() == old(self).sink_cancelled(),
    ;

    fn on_completed(&mut self)
        requires
            old(self).wf(),
        ensures
            final(self).wf(),
            !old(self).ended() ==> final(self).trace() == old(self).trace().push(
                Signal::<T, FlowError<E>>::Completed,
            ) && final(self).ended(),
            old(self).ended() ==> final(self).trace() == old(self).trace() && final(self).ended(),
            final(self).sink_cancelled() == old(self).sink_cancelled(),
    ;

    fn is_cancelled(&self) -> (r: bool)
        requires
            self.wf(),
        ensures
            r == self.sink_cancelled(),
    ;

    fn requested(&self) -> (r: usize)
        requires
            self.wf(),
        ensures
            r == self.demand(),
    ;
}

/// The emitter of a flow without a backpressure operator: it forwards every
/// item regardless of credit and reports unbounded demand. A downstream that
/// needs its demand honored interposes the backpressure buffer.
pub struct MissingEmitter<S, T, E> {
    pub subscriber: S,
    pub done: bool,
    pub phantom: PhantomData<(T, E)>,
}

impl<S, T, E> MissingEmitter<S, T, E> where S: Subscriber<T, E> {
    /// Wrap a subscriber, delivering `on_subscribe` to it as a side effect.
    pub fn new(subscriber: S) -> (r: Self)
        requires
            subscriber.inv(),
            subscriber.trace() == Seq::<Signal<T, FlowError<E>>>::empty(),
            !subscriber.cancelled(),
        ensures
            r.wf(),
            r.trace() == seq![Signal::<T, FlowError<E>>::Subscribe],
            !r.ended(),
            !r.subscriber.cancelled(),
    {
        let mut subscriber = subscriber;
        subscriber.on_subscribe();
        proof {
            assert(subscriber.trace() =~= seq![Signal::<T, FlowError<E>>::Subscribe]);
        }
        MissingEmitter { subscriber, done: false, phantom: PhantomData }
    }

    /// Take the subscriber back out, with everything it observed.
    pub fn into_subscriber(self) -> (r: S)
        ensures
            r == self.subscriber,
    {
        self.subscriber
    }
}

impl<S, T, E> FlowEmitter<T, E> for MissingEmitter<S, T, E> where S: Subscriber<T, E> {
    open spec fn trace(&self) -> Seq<Signal<T, FlowError<E>>> {
        self.subscriber.trace()
    }

    open spec fn wf(&self) -> bool {
        &&& self.subscriber.inv()
        &&& valid_trace(self.subscriber.trace())
        &&& self.subscriber.trace().len() >= 1
        &&& self.done == is_terminal(self.subscriber.trace().last())
    }

    open spec fn ended(&self) -> bool {
        self.done
    }

    open spec fn sink_cancelled(&self) -> bool {
        self.subscriber.cancelled()
    }

    open spec fn demand(&self) -> usize {
        usize::MAX
    }

    fn on_next(&mut self, item: T) {
        if !self.done && !self.subscriber.is_cancelled() {
            proof {
                lemma_push_item_live(self.subscriber.trace(), item);
            }
            self.subscriber.on_next(item);
        }
    }

    fn on_error(&mut self, error: E) {
        if !self.done {
            proof {
                lemma_push_terminal_valid(
                    self.subscriber.trace(),
                    Signal::<T, FlowError<E>>::Error(FlowError::Upstream(error)),
                );
            }
            self.subscriber.on_error(FlowError::Upstream(error));
            self.done = true;
        }
    }

    fn on_completed(&mut self) {
        if !self.done {
            proof {
                lemma_push_terminal_valid(
                    self.subscriber.trace(),
                    Signal::<T, FlowError<E>>::Completed,
                );
            }
            self.subscriber.on_completed();
            self.done = true;
        }
    }

    fn is_cancelled(&self) -> (r: bool) {
        self.subscriber.is_cancelled()
    }

    fn requested(&self) -> (r: usize) {
        usize::MAX
    }
}

} // verus!
