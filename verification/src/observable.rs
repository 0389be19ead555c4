use core::marker::PhantomData;
use vstd::prelude::*;

use crate::emitter::FromObserver;
use crate::observer::Observer;
use crate::signal::Signal;
use crate::signal::valid_trace;

verus! {

/// The trace a source emitting the items of a sequence produces after
/// delivering the subscription and the first `k` items.
pub open spec fn emitted_prefix<T, E>(items: Seq<T>, k: int) -> Seq<Signal<T, E>> {
    seq![Signal::<T, E>::Subscribe] + items.take(k).map_values(|x: T| Signal::<T, E>::Item(x))
}

/// An unbounded push source: subscribing moves the sink in and returns it
/// with everything it observed. `emitted` names the events the sink will
/// observe; the outcome is deterministic because a sink cannot cancel in the
/// middle of a delivery — cancellation happens between top-level calls.
pub trait ObservableSource<T, E>: Sized {
    /// The events a sink subscribed to this source observes.
    spec fn emitted(&self) -> Seq<Signal<T, E>>;

    fn actual_subscribe<O: Observer<T, E>>(self, observer: O) -> (r: O)
        requires
            observer.inv(),
            observer.trace() == Seq::<Signal<T, E>>::empty(),
            !observer.cancelled(),
        ensures
            r.inv(),
            r.trace() == self.emitted(),
            valid_trace(r.trace()),
            r.trace().len() >= 1,
            !r.cancelled(),
    ;
}

/// A source seeded from a vector: it emits each item in order, then
/// completes. It never produces an error.
pub struct IntoIterObservable<T> {
    pub iterable: Vec<T>,
}

impl<T> IntoIterObservable<T> {
    pub fn new(iterable: Vec<T>) -> (r: Self)
        ensures
            r.iterable == iterable,
    {
        IntoIterObservable { iterable }
    }
}

impl<T, E> ObservableSource<T, E> for IntoIterObservable<T> {
    /// The subscription, each item of the vector in order, then completion.
    open spec fn emitted(&self) -> Seq<Signal<T, E>> {
        emitted_prefix::<T, E>(self.iterable@, self.iterable@.len() as int).push(Signal::Completed)
    }

    fn actual_subscribe<O: Observer<T, E>>(self, observer: O) -> (r: O) {
        let ghost orig = self.iterable@;
        let mut items = self.iterable;
        let mut em = FromObserver::<O, T, E>::new(observer);
        proof {
            assert(orig.take(0) =~= Seq::<T>::empty());
            assert(em.observer.trace() =~= emitted_prefix::<T, E>(orig, 0));
        }
        while items.len() > 0
            invariant
                em.wf(),
                !em.done,
                !em.observer.cancelled(),
                items@ == orig.skip(orig.len() - items@.len()),
                0 <= orig.len() - items@.len() <= orig.len(),
                em.observer.trace() == emitted_prefix::<T, E>(orig, orig.len() - items@.len()),
            decreases items.len(),
        {
            let ghost k = orig.len() - items@.len();
            let x = items.remove(0);
            proof {
                assert(orig.skip(k)[0] == orig[k]);
                assert(x == orig[k]);
                assert(items@ =~= orig.skip(k + 1));
                assert(orig.take(k + 1) =~= orig.take(k).push(orig[k]));
                assert(orig.take(k + 1).map_values(|v: T| Signal::<T, E>::Item(v)) =~= orig.take(
                    k,
                ).map_values(|v: T| Signal::<T, E>::Item(v)).push(Signal::Item(x)));
                assert(emitted_prefix::<T, E>(orig, k + 1) =~= emitted_prefix::<T, E>(
                    orig,
                    k,
                ).push(Signal::Item(x)));
            }
            em.on_next(x);
        }
        proof {
            assert(items@.len() == 0);
            assert(orig.len() - items@.len() == orig.len());
        }
        em.on_completed();
        em.into_observer()
    }
}

/// Conversion of a plain value into an unbounded source.
pub trait IntoObservable: Sized {
    type Observable;

    fn into_observable(self) -> Self::Observable;
}

impl<T> IntoObservable for Vec<T> {
    type Observable = IntoIterObservable<T>;

    fn into_observable(self) -> (r: IntoIterObservable<T>)
        ensures
            r.iterable == self,
    {
        IntoIterObservable::new(self)
    }
}

} // verus!
