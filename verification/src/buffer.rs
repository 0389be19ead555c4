use vstd::prelude::*;

use crate::signal::BufferStrategy;
use crate::signal::FlowError;
use crate::signal::Signal;
use crate::signal::is_terminal;
use crate::signal::items_of;
use crate::signal::live_trace;
use crate::signal::valid_trace;
use crate::signal::lemma_items_of_push;
use crate::signal::lemma_push_item_live;
use crate::signal::lemma_push_terminal_valid;
use crate::subscriber::Subscriber;

verus! {

/// One arriving item against a bounded queue: pushed if there is room, else
/// resolved by the overflow strategy. The second component says whether the
/// `Error` strategy fired, refusing to buffer.
pub open spec fn enqueue_step<T>(strategy: BufferStrategy, cap: nat, q: Seq<T>, x: T) -> (
    Seq<T>,
    bool,
) {
    if q.len() < cap {
        (q.push(x), false)
    } else {
        match strategy {
            BufferStrategy::Error => (q, true),
            BufferStrategy::DropOldest => (q.drop_first().push(x), false),
            BufferStrategy::DropLatest => (q, false),
        }
    }
}

/// The queue after a burst of items arrives while the downstream has zero
/// credit: each item is resolved by `enqueue_step`, nothing is drained.
pub open spec fn queue_after_burst<T>(strategy: BufferStrategy, cap: nat, items: Seq<T>) -> Seq<
    T,
>
    decreases items.len(),
{
    if items.len() == 0 {
        Seq::empty()
    } else {
        enqueue_step(strategy, cap, queue_after_burst(strategy, cap, items.drop_last()), items.last()).0
    }
}

/// The events the downstream observes during such a burst, past `base`: with
/// the `Error` strategy the emission just beyond the capacity terminalizes
/// the downstream with `MissingBackpressure`; the two dropping strategies
/// deliver nothing.
pub open spec fn burst_out<T, E>(
    strategy: BufferStrategy,
    cap: nat,
    base: Seq<Signal<T, FlowError<E>>>,
    items: Seq<T>,
) -> Seq<Signal<T, FlowError<E>>>
    decreases items.len(),
{
    if items.len() == 0 {
        base
    } else {
        let prev = burst_out(strategy, cap, base, items.drop_last());
        if strategy is Error && items.len() == cap + 1 {
            prev.push(Signal::Error(FlowError::MissingBackpressure))
        } else {
            prev
        }
    }
}

/// A burst against `DropOldest` evicts from the head: the queue holds
/// exactly the last `cap` items, in order, once more than `cap` arrived.
pub proof fn lemma_drop_oldest_keeps_last<T>(cap: nat, items: Seq<T>)
    requires
        cap >= 1,
    ensures
        queue_after_burst(BufferStrategy::DropOldest, cap, items) == if items.len() <= cap {
            items
        } else {
            items.skip(items.len() - cap)
        },
    decreases items.len(),
{
    if items.len() == 0 {
        assert(queue_after_burst(BufferStrategy::DropOldest, cap, items) =~= items);
    } else {
        let prev = items.drop_last();
        lemma_drop_oldest_keeps_last(cap, prev);
        let pq = queue_after_burst(BufferStrategy::DropOldest, cap, prev);
        if items.len() <= cap {
            assert(pq == prev);
            assert(pq.len() < cap);
            assert(pq.push(items.last()) =~= items);
        } else if items.len() == cap + 1 {
            assert(pq == prev);
            assert(pq.len() == cap);
            assert(pq.drop_first().push(items.last()) =~= items.skip(1));
        } else {
            assert(pq == prev.skip(prev.len() - cap));
            assert(pq.len() == cap);
            assert(pq.drop_first().push(items.last()) =~= items.skip(items.len() - cap));
        }
    }
}

/// A burst against `DropLatest` discards arrivals once full: the queue holds
/// exactly the first `cap` items, in order.
pub proof fn lemma_drop_latest_keeps_first<T>(cap: nat, items: Seq<T>)
    ensures
        queue_after_burst(BufferStrategy::DropLatest, cap, items) == if items.len() <= cap {
            items
        } else {
            items.take(cap as int)
        },
    decreases items.len(),
{
    if items.len() == 0 {
        assert(queue_after_burst(BufferStrategy::DropLatest, cap, items) =~= items);
    } else {
        let prev = items.drop_last();
        lemma_drop_latest_keeps_first(cap, prev);
        let pq = queue_after_burst(BufferStrategy::DropLatest, cap, prev);
        if items.len() <= cap {
            assert(pq == prev);
            assert(pq.push(items.last()) =~= items);
        } else if items.len() == cap + 1 {
            assert(pq =~= items.take(cap as int));
        } else {
            assert(pq == prev.take(cap as int));
            assert(pq =~= items.take(cap as int));
        }
    }
}

/// A burst against the `Error` strategy buffers the first `cap` items and
/// drives the downstream to `Error(MissingBackpressure)` at the emission
/// just past the capacity; before that point nothing is delivered.
pub proof fn lemma_error_strategy_fires<T, E>(
    cap: nat,
    base: Seq<Signal<T, FlowError<E>>>,
    items: Seq<T>,
)
    ensures
        queue_after_burst(BufferStrategy::Error, cap, items) == if items.len() <= cap {
            items
        } else {
            items.take(cap as int)
        },
        burst_out(BufferStrategy::Error, cap, base, items) == if items.len() > cap {
            base.push(Signal::Error(FlowError::MissingBackpressure))
        } else {
            base
        },
    decreases items.len(),
{
    if items.len() == 0 {
        assert(queue_after_burst(BufferStrategy::Error, cap, items) =~= items);
    } else {
        let prev = items.drop_last();
        lemma_error_strategy_fires(cap, base, prev);
        let pq = queue_after_burst(BufferStrategy::Error, cap, prev);
        if items.len() <= cap {
            assert(pq == prev);
            assert(pq.push(items.last()) =~= items);
        } else if items.len() == cap + 1 {
            assert(pq =~= items.take(cap as int));
        } else {
            assert(pq == prev.take(cap as int));
            assert(pq =~= items.take(cap as int));
        }
    }
}

/// The backpressure buffer: it bridges an unthrottled upstream to a
/// demand-driven downstream through a bounded queue with an overflow
/// strategy. Credit arrives through `request` and through demand the
/// downstream announces while being drained; a drain delivers queued items
/// in order, never beyond the credit, and stops only when credit or queue is
/// exhausted. Two ghost counters account for every unit of credit:
/// `granted` is the total requested from the downstream side, `collected`
/// the total the sink announced and a drain collected — and `collected`
/// provably never outgrows what the sink's own `announced` counter shows,
/// so a sink that announces nothing is served from `granted` alone.
pub struct FlowOnBackpressureBuffer<S, T, E> {
    pub subscriber: S,
    pub queue: Vec<T>,
    pub capacity: usize,
    pub strategy: BufferStrategy,
    pub requested: usize,
    pub done: bool,
    pub received: Ghost<Seq<Signal<T, FlowError<E>>>>,
    pub granted: Ghost<nat>,
    pub collected: Ghost<nat>,
}

impl<S, T, E> FlowOnBackpressureBuffer<S, T, E> where S: Subscriber<T, E> {
    pub open spec fn inv_spec(&self) -> bool {
        &&& self.subscriber.inv()
        &&& valid_trace(self.subscriber.trace())
        &&& self.queue@.len() <= self.capacity
        &&& self.capacity >= 1
        &&& self.received@.len() == 0 ==> self.subscriber.trace() == Seq::<
            Signal<T, FlowError<E>>,
        >::empty() && self.queue@.len() == 0 && !self.done
        &&& !self.done && live_trace(self.received@) ==> live_trace(self.subscriber.trace())
        &&& !self.done && self.queue@.len() > 0 ==> live_trace(self.subscriber.trace())
        &&& self.done ==> self.subscriber.trace().len() >= 1 && is_terminal(
            self.subscriber.trace().last(),
        )
        &&& items_of(self.subscriber.trace()).len() + self.requested <= self.granted@
            + self.collected@
    }

    /// A capacity of at least one is required: with a zero-capacity queue
    /// the evicting strategy would have nothing to evict and every arrival
    /// would overflow, so such a buffer is not constructible here.
    pub fn new(subscriber: S, buffer_strategy: BufferStrategy, buffer_capacity: usize) -> (r:
        Self)
        requires
            subscriber.inv(),
            subscriber.trace() == Seq::<Signal<T, FlowError<E>>>::empty(),
            buffer_capacity >= 1,
        ensures
            r.inv(),
            r.trace() == Seq::<Signal<T, FlowError<E>>>::empty(),
            r.subscriber == subscriber,
            r.strategy == buffer_strategy,
            r.capacity == buffer_capacity,
            r.requested == 0,
            r.granted@ == 0,
            r.collected@ == 0,
            !r.done,
            r.queue@ == Seq::<T>::empty(),
    {
        FlowOnBackpressureBuffer {
            subscriber,
            queue: Vec::new(),
            capacity: buffer_capacity,
            strategy: buffer_strategy,
            requested: 0,
            done: false,
            received: Ghost(Seq::empty()),
            granted: Ghost(0),
            collected: Ghost(0),
        }
    }

    /// Take the downstream sink back out, with everything it observed.
    pub fn into_subscriber(self) -> (r: S)
        ensures
            r == self.subscriber,
    {
        self.subscriber
    }

    /// Deliver queued items in order while credit lasts, collecting demand
    /// the downstream announces from within its own `on_next`, so that such
    /// credit is consumed in the same drain. Stops only with the credit or
    /// the queue exhausted. Returns how many items were delivered.
    fn drain(&mut self) -> (d: Ghost<int>)
        requires
            old(self).inv_spec(),
            !old(self).done,
            live_trace(old(self).subscriber.trace()),
            !old(self).subscriber.cancelled(),
        ensures
            final(self).inv_spec(),
            final(self).done == old(self).done,
            final(self).received@ == old(self).received@,
            final(self).strategy == old(self).strategy,
            final(self).capacity == old(self).capacity,
            final(self).granted@ == old(self).granted@,
            final(self).subscriber.announced() >= old(self).subscriber.announced(),
            final(self).collected@ >= old(self).collected@,
            final(self).collected@ + final(self).subscriber.pending_demand() + old(self).subscriber.announced() == old(self).collected@ + old(self).subscriber.pending_demand() + final(self).subscriber.announced(),
            old(self).subscriber.pending_demand() <= old(self).subscriber.announced() ==> final(self).subscriber.pending_demand() <= final(self).subscriber.announced(),
            old(self).requested + final(self).collected@ - old(self).collected@ <= usize::MAX ==> final(self).requested + d@ + old(self).collected@ == old(self).requested + final(self).collected@,
            old(self).requested > 0 && final(self).queue@.len() > 0 ==> final(self).subscriber.pending_demand() == 0,
            !final(self).subscriber.cancelled(),
            live_trace(final(self).subscriber.trace()),
            0 <= d@ <= old(self).queue@.len(),
            final(self).queue@ == old(self).queue@.skip(d@),
            final(self).subscriber.trace() == old(self).subscriber.trace() + old(self).queue@.take(d@).map_values(|x: T| Signal::<T, FlowError<E>>::Item(x)),
            final(self).requested == 0 || final(self).queue@.len() == 0,
            final(self).requested + d@ + old(self).collected@ <= old(self).requested + final(self).collected@,
            old(self).requested == 0 ==> d@ == 0 && final(self).requested == 0,
            old(self).requested <= old(self).queue@.len() ==> d@ >= old(self).requested,
            old(self).queue@.len() <= old(self).requested ==> d@ == old(self).queue@.len(),
    {
        let ghost q0 = self.queue@;
        let ghost t0 = self.subscriber.trace();
        proof {
            assert(self.queue@ =~= q0.skip(0));
            assert(q0.take(0).map_values(|x: T| Signal::<T, FlowError<E>>::Item(x)) =~= Seq::<
                Signal<T, FlowError<E>>,
            >::empty());
            assert(self.subscriber.trace() =~= t0 + q0.take(0).map_values(
                |x: T| Signal::<T, FlowError<E>>::Item(x),
            ));
        }
        while self.requested > 0 && self.queue.len() > 0
            invariant
                self.subscriber.inv(),
                live_trace(self.subscriber.trace()),
                valid_trace(self.subscriber.trace()),
                !self.subscriber.cancelled(),
                !self.done,
                self.capacity == old(self).capacity,
                self.strategy == old(self).strategy,
                self.received@ == old(self).received@,
                self.granted@ == old(self).granted@,
                self.subscriber.announced() >= old(self).subscriber.announced(),
                self.collected@ + self.subscriber.pending_demand() + old(
                    self,
                ).subscriber.announced() <= old(self).collected@ + old(
                    self,
                ).subscriber.pending_demand() + self.subscriber.announced(),
                old(self).subscriber.pending_demand() <= old(self).subscriber.announced()
                    ==> self.subscriber.pending_demand() <= self.subscriber.announced(),
                self.done == old(self).done,
                self.received@.len() >= 1,
                0 <= q0.len() - self.queue@.len() <= q0.len(),
                self.queue@ == q0.skip(q0.len() - self.queue@.len()),
                self.subscriber.trace() == t0 + q0.take(q0.len() - self.queue@.len()).map_values(
                    |x: T| Signal::<T, FlowError<E>>::Item(x),
                ),
                items_of(self.subscriber.trace()).len() + self.requested <= self.granted@
                    + self.collected@,
                self.queue@.len() <= self.capacity,
                old(self).requested == 0 ==> self.queue@.len() == q0.len() && self.requested == 0,
                self.requested + (q0.len() - self.queue@.len()) >= old(self).requested,
                self.requested + (q0.len() - self.queue@.len()) + old(self).collected@ <= old(
                    self,
                ).requested + self.collected@,
                self.collected@ >= old(self).collected@,
                self.collected@ + self.subscriber.pending_demand() + old(
                    self,
                ).subscriber.announced() == old(self).collected@ + old(
                    self,
                ).subscriber.pending_demand() + self.subscriber.announced(),
                old(self).requested + self.collected@ - old(self).collected@ <= usize::MAX
                    ==> self.requested + (q0.len() - self.queue@.len()) + old(self).collected@
                    == old(self).requested + self.collected@,
                q0.len() != self.queue@.len() ==> self.subscriber.pending_demand() == 0,
            decreases self.queue.len(),
        {
            let ghost d = q0.len() - self.queue@.len();
            let ghost pre_trace = self.subscriber.trace();
            let ghost pre_items = items_of(pre_trace).len();
            let item = self.queue.remove(0);
            proof {
                assert(q0.skip(d)[0] == q0[d]);
                assert(item == q0[d]);
                assert(self.queue@ =~= q0.skip(d + 1));
                lemma_push_item_live(self.subscriber.trace(), item);
            }
            self.subscriber.on_next(item);
            proof {
                assert(self.subscriber.trace() == pre_trace.push(Signal::Item(item)));
                lemma_items_of_push(pre_trace, Signal::<T, FlowError<E>>::Item(item));
                assert(items_of(self.subscriber.trace()).len() == pre_items + 1);
                assert(q0.take(d + 1) =~= q0.take(d).push(q0[d]));
                assert(q0.take(d + 1).map_values(|x: T| Signal::<T, FlowError<E>>::Item(x))
                    =~= q0.take(d).map_values(|x: T| Signal::<T, FlowError<E>>::Item(x)).push(
                    Signal::Item(item),
                ));
                assert(self.subscriber.trace() =~= t0 + q0.take(d + 1).map_values(
                    |x: T| Signal::<T, FlowError<E>>::Item(x),
                ));
            }
            let ghost mid_items = items_of(self.subscriber.trace()).len();
            let extra = self.subscriber.take_demand();
            proof {
                assert(items_of(self.subscriber.trace()).len() == mid_items);
            }
            self.requested = self.requested - 1;
            self.requested = match self.requested.checked_add(extra) {
                Some(v) => v,
                None => usize::MAX,
            };
            proof {
                self.collected@ = self.collected@ + extra as nat;
                assert(items_of(self.subscriber.trace()).len() + self.requested <= self.granted@
                    + self.collected@);
            }
        }
        let ghost dfin = q0.len() - self.queue@.len();
        proof {
            assert(0 <= dfin <= q0.len());
            assert(self.queue@ == q0.skip(dfin));
        }
        Ghost(dfin)
    }

    /// Grant credit from the downstream side: adds to the outstanding
    /// request with saturation, then drains if anything can be delivered.
    pub fn request(&mut self, n: usize)
        requires
            old(self).inv_spec(),
        ensures
            final(self).inv_spec(),
            final(self).received@ == old(self).received@,
            final(self).done == old(self).done,
            final(self).strategy == old(self).strategy,
            final(self).capacity == old(self).capacity,
            final(self).granted@ == old(self).granted@ + n,
            final(self).subscriber.cancelled() == old(self).subscriber.cancelled(),
            final(self).subscriber.announced() >= old(self).subscriber.announced(),
            final(self).collected@ >= old(self).collected@,
            final(self).collected@ + final(self).subscriber.pending_demand() + old(self).subscriber.announced() == old(self).collected@ + old(self).subscriber.pending_demand() + final(self).subscriber.announced(),
            old(self).subscriber.pending_demand() <= old(self).subscriber.announced() ==> final(self).subscriber.pending_demand() <= final(self).subscriber.announced(),
            !old(self).done && !old(self).subscriber.cancelled() && old(self).queue@.len() > 0
                && old(self).requested + n > 0 && final(self).queue@.len() > 0 ==> final(self).subscriber.pending_demand() == 0,
            old(self).done || old(self).subscriber.cancelled() || old(self).queue@.len() == 0
                ==> final(self).queue@ == old(self).queue@ && final(self).subscriber.trace() == old(self).subscriber.trace() && final(self).requested == (
            if old(self).requested + n <= usize::MAX {
                (old(self).requested + n) as usize
            } else {
                usize::MAX
            }) && final(self).collected@ == old(self).collected@,
            !old(self).done && !old(self).subscriber.cancelled() && old(self).queue@.len() > 0
                ==> (exists|d: int|
                0 <= d <= old(self).queue@.len() && final(self).queue@ == old(self).queue@.skip(d)
                    && final(self).subscriber.trace() == old(self).subscriber.trace() + old(self).queue@.take(d).map_values(|x: T| Signal::<T, FlowError<E>>::Item(x)) && (old(self).queue@.len() <= old(self).requested + n ==> d == old(self).queue@.len()) && (old(self).requested + n <= old(self).queue@.len() ==> d >= old(self).requested + n) && final(self).requested + d + old(self).collected@ <= old(self).requested + n + final(self).collected@ && (old(self).requested + n + final(self).collected@ - old(self).collected@ <= usize::MAX ==> final(self).requested + d + old(self).collected@ == old(self).requested + n + final(self).collected@)) && (final(self).requested == 0 || final(self).queue@.len() == 0),
    {
        self.requested = match self.requested.checked_add(n) {
            Some(v) => v,
            None => usize::MAX,
        };
        proof {
            self.granted@ = self.granted@ + n as nat;
        }
        if !self.done && self.queue.len() > 0 {
            if !self.subscriber.is_cancelled() {
                let d = self.drain();
                proof {
                    assert(self.queue@ == old(self).queue@.skip(d@));
                    assert(self.subscriber.trace() == old(self).subscriber.trace() + old(self).queue@.take(d@).map_values(|x: T| Signal::<T, FlowError<E>>::Item(x)));
                }
            }
        }
    }
}

impl<S, T, E> Subscriber<T, E> for FlowOnBackpressureBuffer<S, T, E> where S: Subscriber<T, E> {
    open spec fn trace(&self) -> Seq<Signal<T, FlowError<E>>> {
        self.received@
    }

    open spec fn inv(&self) -> bool {
        self.inv_spec()
    }

    open spec fn cancelled(&self) -> bool {
        self.subscriber.cancelled()
    }

    open spec fn pending_demand(&self) -> usize {
        0
    }

    open spec fn announced(&self) -> nat {
        0
    }

    fn on_subscribe(&mut self)
        ensures
            final(self).subscriber.trace() == old(self).subscriber.trace().push(
                Signal::<T, FlowError<E>>::Subscribe,
            ),
            final(self).queue@ == old(self).queue@,
            final(self).requested == old(self).requested,
            final(self).done == old(self).done,
            final(self).granted@ == old(self).granted@,
            final(self).collected@ == old(self).collected@,
            final(self).subscriber.announced() >= old(self).subscriber.announced(),
            final(self).subscriber.announced() + old(self).subscriber.pending_demand() == old(self).subscriber.announced() + final(self).subscriber.pending_demand(),
            old(self).subscriber.pending_demand() <= old(self).subscriber.announced() ==> final(self).subscriber.pending_demand() <= final(self).subscriber.announced(),
            final(self).strategy == old(self).strategy,
            final(self).capacity == old(self).capacity,
    {
        proof {
            assert(self.subscriber.trace() =~= Seq::<Signal<T, FlowError<E>>>::empty());
        }
        self.subscriber.on_subscribe();
        proof {
            self.received@ = self.received@.push(Signal::Subscribe);
            crate::signal::lemma_subscribe_live::<T, FlowError<E>>();
            assert(self.received@ =~= seq![Signal::<T, FlowError<E>>::Subscribe]);
            assert(self.subscriber.trace() =~= seq![Signal::<T, FlowError<E>>::Subscribe]);
            assert(items_of(self.subscriber.trace()).len() == 0) by {
                assert(self.subscriber.trace().drop_first() =~= Seq::<
                    Signal<T, FlowError<E>>,
                >::empty());
            }
        }
    }

    /// An arriving item is queued or resolved by the strategy, then a drain
    /// runs if credit is outstanding. After the `Error` strategy has fired,
    /// or after an upstream terminal, further items are dropped entirely.
    fn on_next(&mut self, item: T)
        ensures
            final(self).strategy == old(self).strategy,
            final(self).capacity == old(self).capacity,
            final(self).granted@ == old(self).granted@,
            final(self).subscriber.cancelled() == old(self).subscriber.cancelled(),
            final(self).subscriber.announced() >= old(self).subscriber.announced(),
            final(self).collected@ >= old(self).collected@,
            final(self).collected@ + final(self).subscriber.pending_demand() + old(self).subscriber.announced() == old(self).collected@ + old(self).subscriber.pending_demand() + final(self).subscriber.announced(),
            old(self).subscriber.pending_demand() <= old(self).subscriber.announced() ==> final(self).subscriber.pending_demand() <= final(self).subscriber.announced(),
            !old(self).done && !enqueue_step(
                old(self).strategy,
                old(self).capacity as nat,
                old(self).queue@,
                item,
            ).1 && old(self).requested > 0 && final(self).queue@.len() > 0 ==> final(self).subscriber.pending_demand() == 0,
            old(self).done ==> final(self).queue@ == old(self).queue@ && final(self).subscriber.trace() == old(self).subscriber.trace() && final(self).requested == old(self).requested && final(self).done,
            !old(self).done && enqueue_step(
                old(self).strategy,
                old(self).capacity as nat,
                old(self).queue@,
                item,
            ).1 ==> final(self).done && final(self).queue@ == old(self).queue@ && final(self).subscriber.trace() == old(self).subscriber.trace().push(
                Signal::Error(FlowError::MissingBackpressure),
            ) && final(self).requested == old(self).requested,
            !old(self).done && !enqueue_step(
                old(self).strategy,
                old(self).capacity as nat,
                old(self).queue@,
                item,
            ).1 ==> !final(self).done && (exists|d: int|
                0 <= d <= enqueue_step(
                    old(self).strategy,
                    old(self).capacity as nat,
                    old(self).queue@,
                    item,
                ).0.len() && final(self).queue@ == enqueue_step(
                    old(self).strategy,
                    old(self).capacity as nat,
                    old(self).queue@,
                    item,
                ).0.skip(d) && final(self).subscriber.trace() == old(self).subscriber.trace()
                    + enqueue_step(
                    old(self).strategy,
                    old(self).capacity as nat,
                    old(self).queue@,
                    item,
                ).0.take(d).map_values(|x: T| Signal::<T, FlowError<E>>::Item(x)) && (old(self).requested == 0 ==> d == 0 && final(self).requested == 0) && final(self).requested + d + old(self).collected@ <= old(self).requested + final(self).collected@ && (old(self).requested + final(self).collected@ - old(self).collected@ <= usize::MAX ==> final(self).requested + d + old(self).collected@ == old(self).requested + final(self).collected@)) && (final(self).requested == 0 || final(self).queue@.len() == 0 || old(self).requested == 0),
    {
        let ghost estep = enqueue_step(
            old(self).strategy,
            old(self).capacity as nat,
            old(self).queue@,
            item,
        );
        if self.done {
            proof {
                self.received@ = self.received@.push(Signal::Item(item));
                lemma_push_item_live(old(self).received@, item);
            }
            return ;
        }
        if self.queue.len() < self.capacity {
            self.queue.push(item);
        } else {
            match self.strategy {
                BufferStrategy::Error => {
                    self.subscriber.on_error(FlowError::MissingBackpressure);
                    self.done = true;
                    proof {
                        lemma_push_terminal_valid(
                            old(self).subscriber.trace(),
                            Signal::<T, FlowError<E>>::Error(FlowError::MissingBackpressure),
                        );
                        lemma_items_of_push(
                            old(self).subscriber.trace(),
                            Signal::<T, FlowError<E>>::Error(FlowError::MissingBackpressure),
                        );
                        self.received@ = self.received@.push(Signal::Item(item));
                        lemma_push_item_live(old(self).received@, item);
                    }
                    return ;
                },
                BufferStrategy::DropOldest => {
                    self.queue.remove(0);
                    self.queue.push(item);
                },
                BufferStrategy::DropLatest => {},
            }
        }
        proof {
            assert(self.queue@ =~= estep.0);
            assert(self.subscriber.trace() == old(self).subscriber.trace());
        }
        let ghost q1 = self.queue@;
        let ghost t1 = self.subscriber.trace();
        if self.requested > 0 {
            let d = self.drain();
            proof {
                assert(self.queue@ == q1.skip(d@));
                assert(self.subscriber.trace() == t1 + q1.take(d@).map_values(
                    |x: T| Signal::<T, FlowError<E>>::Item(x),
                ));
            }
        } else {
            proof {
                assert(self.queue@ =~= q1.skip(0));
                assert(q1.take(0).map_values(|x: T| Signal::<T, FlowError<E>>::Item(x)) =~= Seq::<
                    Signal<T, FlowError<E>>,
                >::empty());
                assert(self.subscriber.trace() =~= t1 + q1.take(0).map_values(
                    |x: T| Signal::<T, FlowError<E>>::Item(x),
                ));
            }
        }
        proof {
            self.received@ = self.received@.push(Signal::Item(item));
            lemma_push_item_live(old(self).received@, item);
        }
    }

    /// An upstream error is forwarded at once; queued items are lost.
    fn on_error(&mut self, error: FlowError<E>)
        ensures
            final(self).queue@ == old(self).queue@,
            final(self).requested == old(self).requested,
            final(self).granted@ == old(self).granted@,
            final(self).collected@ == old(self).collected@,
            final(self).subscriber.cancelled() == old(self).subscriber.cancelled(),
            final(self).subscriber.announced() >= old(self).subscriber.announced(),
            final(self).subscriber.announced() + old(self).subscriber.pending_demand() == old(self).subscriber.announced() + final(self).subscriber.pending_demand(),
            old(self).subscriber.pending_demand() <= old(self).subscriber.announced() ==> final(self).subscriber.pending_demand() <= final(self).subscriber.announced(),
            !old(self).done ==> final(self).subscriber.trace() == old(self).subscriber.trace().push(
                Signal::Error(error),
            ) && final(self).done,
            old(self).done ==> final(self).subscriber.trace() == old(self).subscriber.trace()
                && final(self).done,
    {
        if !self.done {
            self.subscriber.on_error(error);
            self.done = true;
            proof {
                lemma_push_terminal_valid(
                    old(self).subscriber.trace(),
                    Signal::<T, FlowError<E>>::Error(error),
                );
                lemma_items_of_push(
                    old(self).subscriber.trace(),
                    Signal::<T, FlowError<E>>::Error(error),
                );
            }
        }
        proof {
            self.received@ = self.received@.push(Signal::Error(error));
        }
    }

    /// Upstream completion is forwarded at once; queued items are lost.
    fn on_completed(&mut self)
        ensures
            final(self).queue@ == old(self).queue@,
            final(self).requested == old(self).requested,
            final(self).granted@ == old(self).granted@,
            final(self).collected@ == old(self).collected@,
            final(self).subscriber.cancelled() == old(self).subscriber.cancelled(),
            final(self).subscriber.announced() >= old(self).subscriber.announced(),
            final(self).subscriber.announced() + old(self).subscriber.pending_demand() == old(self).subscriber.announced() + final(self).subscriber.pending_demand(),
            old(self).subscriber.pending_demand() <= old(self).subscriber.announced() ==> final(self).subscriber.pending_demand() <= final(self).subscriber.announced(),
            !old(self).done ==> final(self).subscriber.trace() == old(self).subscriber.trace().push(
                Signal::<T, FlowError<E>>::Completed,
            ) && final(self).done,
            old(self).done ==> final(self).subscriber.trace() == old(self).subscriber.trace()
                && final(self).done,
    {
        if !self.done {
            self.subscriber.on_completed();
            self.done = true;
            proof {
                lemma_push_terminal_valid(
                    old(self).subscriber.trace(),
                    Signal::<T, FlowError<E>>::Completed,
                );
                lemma_items_of_push(
                    old(self).subscriber.trace(),
                    Signal::<T, FlowError<E>>::Completed,
                );
            }
        }
        proof {
            self.received@ = self.received@.push(Signal::Completed);
        }
    }

    fn is_cancelled(&self) -> (r: bool) {
        self.subscriber.is_cancelled()
    }

    fn take_demand(&mut self) -> (n: usize) {
        0
    }
}

/// Backpressure is honored: the downstream has never observed more items
/// than the total credit — what `request` granted plus what the sink itself
/// announced and a drain collected. For a pipeline whose sink announces no
/// demand of its own, `collected` stays zero by the contracts of `request`
/// and `on_next`, so with total credit C requested the downstream observes
/// at most C items.
pub proof fn lemma_credit_bounds_items<S, T, E>(b: &FlowOnBackpressureBuffer<S, T, E>) where
    S: Subscriber<T, E>,

    requires
        b.inv_spec(),
    ensures
        items_of(b.subscriber.trace()).len() <= b.granted@ + b.collected@,
{
}

} // verus!
