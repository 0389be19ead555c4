use vstd::prelude::*;

use crate::signal::FlowError;
use crate::signal::Signal;
use crate::signal::items_of;
use crate::signal::live_trace;
use crate::signal::valid_trace;
use crate::subscriber::Subscriber;

verus! {

/// The running accumulations of a fold, without the seed: for items
/// `x1, x2, ...` and accumulator `a` this is `g(a,x1), g(g(a,x1),x2), ...`.
pub open spec fn scan_folds<T, U>(acc: U, g: spec_fn(U, T) -> U, xs: Seq<T>) -> Seq<U>
    decreases xs.len(),
{
    if xs.len() == 0 {
        Seq::empty()
    } else {
        seq![g(acc, xs.first())] + scan_folds(g(acc, xs.first()), g, xs.drop_first())
    }
}

/// Everything a scan with seed `s` emits on items `xs`: the seed first, then
/// each accumulation in order.
pub open spec fn scan_outputs<T, U>(seed: U, g: spec_fn(U, T) -> U, xs: Seq<T>) -> Seq<U> {
    seq![seed] + scan_folds(seed, g, xs)
}

/// `scan(s, g)` on input `x1, x2, ...` emits `s, g(s,x1), g(g(s,x1),x2), ...`
/// in order: the outputs are one longer than the inputs, start with the
/// seed, and each next output folds the previous one with the next input.
pub proof fn lemma_scan_outputs_form<T, U>(seed: U, g: spec_fn(U, T) -> U, xs: Seq<T>)
    ensures
        scan_outputs(seed, g, xs).len() == xs.len() + 1,
        scan_outputs(seed, g, xs)[0] == seed,
        forall|k: int|
            0 <= k < xs.len() ==> scan_outputs(seed, g, xs)[k + 1] == g(
                #[trigger] scan_outputs(seed, g, xs)[k],
                xs[k],
            ),
    decreases xs.len(),
{
    if xs.len() == 0 {
    } else {
        let a1 = g(seed, xs.first());
        lemma_scan_outputs_form(a1, g, xs.drop_first());
        assert(scan_outputs(seed, g, xs) =~= seq![seed] + scan_outputs(a1, g, xs.drop_first()));
        assert forall|k: int|
            0 <= k < xs.len() implies scan_outputs(seed, g, xs)[k + 1] == g(
            #[trigger] scan_outputs(seed, g, xs)[k],
            xs[k],
        ) by {
            if k == 0 {
                assert(scan_outputs(seed, g, xs)[1] == scan_outputs(a1, g, xs.drop_first())[0]);
            } else {
                let rest = scan_outputs(a1, g, xs.drop_first());
                assert(scan_outputs(seed, g, xs)[k + 1] == rest[k]);
                assert(scan_outputs(seed, g, xs)[k] == rest[k - 1]);
                assert(xs[k] == xs.drop_first()[k - 1]);
            }
        }
    }
}

/// The relation between what a scan stage received and what its downstream
/// observed, threading the accumulator: a `Subscribe` is forwarded and at
/// once followed by the seed as the first item; every received item `x`
/// becomes one emitted item `y` allowed by the closure's postcondition on
/// `(acc, x)`, which is also the next accumulator; errors and completion
/// pass through. `acc_out` is the accumulator after the whole exchange.
pub open spec fn scan_rel<F: Fn(U, T) -> U, T, U, E>(
    op: F,
    acc: U,
    tin: Seq<Signal<T, FlowError<E>>>,
    tout: Seq<Signal<U, FlowError<E>>>,
    acc_out: U,
) -> bool
    decreases tin.len(),
{
    if tin.len() == 0 {
        tout.len() == 0 && acc_out == acc
    } else {
        match tin.first() {
            Signal::Subscribe => tout.len() >= 2 && tout[0] == Signal::<U, FlowError<E>>::Subscribe
                && tout[1] == Signal::<U, FlowError<E>>::Item(acc) && scan_rel(
                op,
                acc,
                tin.drop_first(),
                tout.skip(2),
                acc_out,
            ),
            Signal::Item(x) => tout.len() >= 1 && match tout.first() {
                Signal::Item(y) => call_ensures(op, (acc, x), y) && scan_rel(
                    op,
                    y,
                    tin.drop_first(),
                    tout.drop_first(),
                    acc_out,
                ),
                _ => false,
            },
            Signal::Error(e) => tout.len() >= 1 && tout.first() == Signal::<U, FlowError<
                E,
            >>::Error(e) && scan_rel(op, acc, tin.drop_first(), tout.drop_first(), acc_out),
            Signal::Completed => tout.len() >= 1 && tout.first() == Signal::<U, FlowError<
                E,
            >>::Completed && scan_rel(op, acc, tin.drop_first(), tout.drop_first(), acc_out),
        }
    }
}

/// Extending an exchange by one received item extends the relation.
pub proof fn lemma_scan_rel_snoc_item<F: Fn(U, T) -> U, T, U, E>(
    op: F,
    acc: U,
    tin: Seq<Signal<T, FlowError<E>>>,
    tout: Seq<Signal<U, FlowError<E>>>,
    acc_out: U,
    x: T,
    y: U,
)
    requires
        scan_rel(op, acc, tin, tout, acc_out),
        call_ensures(op, (acc_out, x), y),
    ensures
        scan_rel(op, acc, tin.push(Signal::Item(x)), tout.push(Signal::Item(y)), y),
    decreases tin.len(),
{
    let tin2 = tin.push(Signal::<T, FlowError<E>>::Item(x));
    let tout2 = tout.push(Signal::<U, FlowError<E>>::Item(y));
    if tin.len() == 0 {
        assert(tin2.first() == Signal::<T, FlowError<E>>::Item(x));
        assert(tout2.first() == Signal::<U, FlowError<E>>::Item(y));
        assert(tin2.drop_first() =~= Seq::<Signal<T, FlowError<E>>>::empty());
        assert(tout2.drop_first() =~= Seq::<Signal<U, FlowError<E>>>::empty());
        assert(scan_rel(
            op,
            y,
            Seq::<Signal<T, FlowError<E>>>::empty(),
            Seq::<Signal<U, FlowError<E>>>::empty(),
            y,
        ));
    } else {
        assert(tin2.first() == tin.first());
        match tin.first() {
            Signal::Subscribe => {
                assert(tout2[0] == tout[0]);
                assert(tout2[1] == tout[1]);
                assert(tin2.drop_first() =~= tin.drop_first().push(Signal::Item(x)));
                assert(tout2.skip(2) =~= tout.skip(2).push(Signal::Item(y)));
                lemma_scan_rel_snoc_item(op, acc, tin.drop_first(), tout.skip(2), acc_out, x, y);
            },
            Signal::Item(x0) => {
                assert(tout2.first() == tout.first());
                match tout.first() {
                    Signal::Item(y0) => {
                        assert(tin2.drop_first() =~= tin.drop_first().push(Signal::Item(x)));
                        assert(tout2.drop_first() =~= tout.drop_first().push(Signal::Item(y)));
                        lemma_scan_rel_snoc_item(
                            op,
                            y0,
                            tin.drop_first(),
                            tout.drop_first(),
                            acc_out,
                            x,
                            y,
                        );
                    },
                    _ => {
                        assert(false);
                    },
                }
            },
            Signal::Error(e) => {
                assert(tout2.first() == tout.first());
                assert(tin2.drop_first() =~= tin.drop_first().push(Signal::Item(x)));
                assert(tout2.drop_first() =~= tout.drop_first().push(Signal::Item(y)));
                lemma_scan_rel_snoc_item(op, acc, tin.drop_first(), tout.drop_first(), acc_out, x, y);
            },
            Signal::Completed => {
                assert(tout2.first() == tout.first());
                assert(tin2.drop_first() =~= tin.drop_first().push(Signal::Item(x)));
                assert(tout2.drop_first() =~= tout.drop_first().push(Signal::Item(y)));
                lemma_scan_rel_snoc_item(op, acc, tin.drop_first(), tout.drop_first(), acc_out, x, y);
            },
        }
    }
}

/// Extending an exchange by a passed-through event extends the relation.
/// The event must be an error or a completion, which scan forwards as it is.
pub proof fn lemma_scan_rel_snoc_through<F: Fn(U, T) -> U, T, U, E>(
    op: F,
    acc: U,
    tin: Seq<Signal<T, FlowError<E>>>,
    tout: Seq<Signal<U, FlowError<E>>>,
    acc_out: U,
    e: Signal<T, FlowError<E>>,
    e2: Signal<U, FlowError<E>>,
)
    requires
        scan_rel(op, acc, tin, tout, acc_out),
        match e {
            Signal::Error(err) => e2 == Signal::<U, FlowError<E>>::Error(err),
            Signal::Completed => e2 is Completed,
            _ => false,
        },
    ensures
        scan_rel(op, acc, tin.push(e), tout.push(e2), acc_out),
    decreases tin.len(),
{
    let tin2 = tin.push(e);
    let tout2 = tout.push(e2);
    if tin.len() == 0 {
        assert(tin2.first() == e);
        assert(tout2.first() == e2);
        assert(tin2.drop_first() =~= Seq::<Signal<T, FlowError<E>>>::empty());
        assert(tout2.drop_first() =~= Seq::<Signal<U, FlowError<E>>>::empty());
        assert(scan_rel(
            op,
            acc,
            Seq::<Signal<T, FlowError<E>>>::empty(),
            Seq::<Signal<U, FlowError<E>>>::empty(),
            acc_out,
        ));
    } else {
        assert(tin2.first() == tin.first());
        match tin.first() {
            Signal::Subscribe => {
                assert(tout2[0] == tout[0]);
                assert(tout2[1] == tout[1]);
                assert(tin2.drop_first() =~= tin.drop_first().push(e));
                assert(tout2.skip(2) =~= tout.skip(2).push(e2));
                lemma_scan_rel_snoc_through(op, acc, tin.drop_first(), tout.skip(2), acc_out, e, e2);
            },
            Signal::Item(x0) => {
                assert(tout2.first() == tout.first());
                match tout.first() {
                    Signal::Item(y0) => {
                        assert(tin2.drop_first() =~= tin.drop_first().push(e));
                        assert(tout2.drop_first() =~= tout.drop_first().push(e2));
                        lemma_scan_rel_snoc_through(
                            op,
                            y0,
                            tin.drop_first(),
                            tout.drop_first(),
                            acc_out,
                            e,
                            e2,
                        );
                    },
                    _ => {
                        assert(false);
                    },
                }
            },
            Signal::Error(err) => {
                assert(tout2.first() == tout.first());
                assert(tin2.drop_first() =~= tin.drop_first().push(e));
                assert(tout2.drop_first() =~= tout.drop_first().push(e2));
                lemma_scan_rel_snoc_through(
                    op,
                    acc,
                    tin.drop_first(),
                    tout.drop_first(),
                    acc_out,
                    e,
                    e2,
                );
            },
            Signal::Completed => {
                assert(tout2.first() == tout.first());
                assert(tin2.drop_first() =~= tin.drop_first().push(e));
                assert(tout2.drop_first() =~= tout.drop_first().push(e2));
                lemma_scan_rel_snoc_through(
                    op,
                    acc,
                    tin.drop_first(),
                    tout.drop_first(),
                    acc_out,
                    e,
                    e2,
                );
            },
        }
    }
}

/// Over a stretch with no `Subscribe`, when the closure computes `g`, the
/// items a scan emits are exactly the running folds of the items it got.
pub proof fn lemma_scan_rel_items_mid<F: Fn(U, T) -> U, T, U, E>(
    op: F,
    g: spec_fn(U, T) -> U,
    acc: U,
    tin: Seq<Signal<T, FlowError<E>>>,
    tout: Seq<Signal<U, FlowError<E>>>,
    acc_out: U,
)
    requires
        scan_rel(op, acc, tin, tout, acc_out),
        forall|a: U, x: T, y: U| call_ensures(op, (a, x), y) ==> y == g(a, x),
        forall|i: int| 0 <= i < tin.len() ==> !((#[trigger] tin[i]) is Subscribe),
    ensures
        items_of(tout) == scan_folds(acc, g, items_of(tin)),
    decreases tin.len(),
{
    if tin.len() == 0 {
        assert(items_of(tout) =~= scan_folds(acc, g, items_of(tin)));
    } else {
        assert(tin[0] == tin.first());
        assert forall|i: int|
            0 <= i < tin.drop_first().len() implies !((#[trigger] tin.drop_first()[i])
            is Subscribe) by {
            assert(tin.drop_first()[i] == tin[i + 1]);
        }
        match tin.first() {
            Signal::Subscribe => {
                assert(false);
            },
            Signal::Item(x) => {
                match tout.first() {
                    Signal::Item(y) => {
                        assert(y == g(acc, x));
                        lemma_scan_rel_items_mid(
                            op,
                            g,
                            y,
                            tin.drop_first(),
                            tout.drop_first(),
                            acc_out,
                        );
                        assert(items_of(tin) =~= seq![x] + items_of(tin.drop_first()));
                        assert(items_of(tout) =~= seq![y] + items_of(tout.drop_first()));
                        assert(items_of(tin).first() == x);
                        assert(items_of(tin).drop_first() =~= items_of(tin.drop_first()));
                        assert(items_of(tout) =~= scan_folds(acc, g, items_of(tin)));
                    },
                    _ => {
                        assert(false);
                    },
                }
            },
            Signal::Error(e) => {
                lemma_scan_rel_items_mid(op, g, acc, tin.drop_first(), tout.drop_first(), acc_out);
                assert(items_of(tin) =~= items_of(tin.drop_first()));
                assert(items_of(tout) =~= items_of(tout.drop_first()));
            },
            Signal::Completed => {
                lemma_scan_rel_items_mid(op, g, acc, tin.drop_first(), tout.drop_first(), acc_out);
                assert(items_of(tin) =~= items_of(tin.drop_first()));
                assert(items_of(tout) =~= items_of(tout.drop_first()));
            },
        }
    }
}

/// Over a whole valid exchange, when the closure computes `g`, the items the
/// downstream of a scan observes are exactly `scan_outputs` of the items the
/// scan received: the seed first, then each fold, in order.
pub proof fn lemma_scan_rel_items<F: Fn(U, T) -> U, T, U, E>(
    op: F,
    g: spec_fn(U, T) -> U,
    seed: U,
    tin: Seq<Signal<T, FlowError<E>>>,
    tout: Seq<Signal<U, FlowError<E>>>,
    acc_out: U,
)
    requires
        scan_rel(op, seed, tin, tout, acc_out),
        forall|a: U, x: T, y: U| call_ensures(op, (a, x), y) ==> y == g(a, x),
        valid_trace(tin),
        tin.len() >= 1,
    ensures
        items_of(tout) == scan_outputs(seed, g, items_of(tin)),
{
    assert(tin[0] == tin.first());
    assert(tin.first() is Subscribe);
    assert forall|i: int|
        0 <= i < tin.drop_first().len() implies !((#[trigger] tin.drop_first()[i])
        is Subscribe) by {
        assert(tin.drop_first()[i] == tin[i + 1]);
    }
    lemma_scan_rel_items_mid(op, g, seed, tin.drop_first(), tout.skip(2), acc_out);
    assert(items_of(tin) =~= items_of(tin.drop_first()));
    let t1 = tout.drop_first();
    assert(t1.first() == tout[1]);
    assert(t1.drop_first() =~= tout.skip(2));
    assert(items_of(tout) =~= items_of(t1));
    assert(items_of(t1) =~= seq![seed] + items_of(tout.skip(2)));
    assert(items_of(tout) =~= scan_outputs(seed, g, items_of(tin)));
}

/// The running-fold transform: on subscription it forwards the subscription
/// and at once emits the seed; each received item folds into the
/// accumulator, which is emitted; errors and completion pass through.
pub struct Scan<S, F, T, U, E> {
    pub subscriber: S,
    pub previous_value: U,
    pub binary_op: F,
    pub seed: Ghost<U>,
    pub received: Ghost<Seq<Signal<T, FlowError<E>>>>,
}

impl<S, F, T, U, E> Scan<S, F, T, U, E> where S: Subscriber<U, E>, F: Fn(U, T) -> U, U: Copy {
    pub fn new(subscriber: S, initial_value: U, binary_op: F) -> (r: Self)
        requires
            subscriber.inv(),
            subscriber.trace() == Seq::<Signal<U, FlowError<E>>>::empty(),
            forall|a: U, x: T| call_requires(binary_op, (a, x)),
        ensures
            r.inv(),
            r.trace() == Seq::<Signal<T, FlowError<E>>>::empty(),
            r.cancelled() == subscriber.cancelled(),
            r.pending_demand() == subscriber.pending_demand(),
            r.announced() == subscriber.announced(),
            r.subscriber == subscriber,
            r.binary_op == binary_op,
            r.seed@ == initial_value,
            r.previous_value == initial_value,
    {
        let r = Scan {
            subscriber,
            previous_value: initial_value,
            binary_op,
            seed: Ghost(initial_value),
            received: Ghost(Seq::empty()),
        };
        r
    }

    /// Take the downstream sink back out, with everything it observed.
    pub fn into_subscriber(self) -> (r: S)
        ensures
            r == self.subscriber,
    {
        self.subscriber
    }
}

impl<S, F, T, U, E> Subscriber<T, E> for Scan<S, F, T, U, E> where
    S: Subscriber<U, E>,
    F: Fn(U, T) -> U,
    U: Copy,
 {
    open spec fn trace(&self) -> Seq<Signal<T, FlowError<E>>> {
        self.received@
    }

    open spec fn inv(&self) -> bool {
        &&& self.subscriber.inv()
        &&& scan_rel(
            self.binary_op,
            self.seed@,
            self.received@,
            self.subscriber.trace(),
            self.previous_value,
        )
        &&& forall|a: U, x: T| call_requires(self.binary_op, (a, x))
        &&& live_trace(self.received@) ==> live_trace(self.subscriber.trace())
        &&& self.received@.len() == 0 ==> self.subscriber.trace() == Seq::<Signal<U, FlowError<E>>>::empty()
    }

    open spec fn cancelled(&self) -> bool {
        self.subscriber.cancelled()
    }

    open spec fn pending_demand(&self) -> usize {
        self.subscriber.pending_demand()
    }

    open spec fn announced(&self) -> nat {
        self.subscriber.announced()
    }

    fn on_subscribe(&mut self)
        ensures
            final(self).seed@ == old(self).seed@,
            final(self).binary_op == old(self).binary_op,
            final(self).previous_value == old(self).previous_value,
            final(self).subscriber.trace() == old(self).subscriber.trace().push(
                Signal::Subscribe,
            ).push(Signal::Item(old(self).previous_value)),
    {
        self.subscriber.on_subscribe();
        proof {
            crate::signal::lemma_subscribe_live::<U, E>();
            assert(self.subscriber.trace() =~= seq![Signal::<U, FlowError<E>>::Subscribe]);
        }
        proof {
            crate::signal::lemma_push_item_live(self.subscriber.trace(), self.previous_value);
        }
        self.subscriber.on_next(self.previous_value);
        proof {
            self.received@ = self.received@.push(Signal::Subscribe);
            assert(self.received@ =~= seq![Signal::<T, FlowError<E>>::Subscribe]);
            crate::signal::lemma_subscribe_live::<T, FlowError<E>>();
            let tout = self.subscriber.trace();
            assert(tout.len() == 2);
            assert(tout[0] == Signal::<U, FlowError<E>>::Subscribe);
            assert(tout[1] == Signal::<U, FlowError<E>>::Item(self.previous_value));
            assert(self.received@.drop_first() =~= Seq::<Signal<T, FlowError<E>>>::empty());
            assert(tout.skip(2) =~= Seq::<Signal<U, FlowError<E>>>::empty());
            assert(live_trace(tout)) by {
                crate::signal::lemma_push_item_live(
                    seq![Signal::<U, FlowError<E>>::Subscribe],
                    self.previous_value,
                );
                assert(tout =~= seq![Signal::<U, FlowError<E>>::Subscribe].push(
                    Signal::Item(self.previous_value),
                ));
            }
        }
    }

    fn on_next(&mut self, item: T)
        ensures
            final(self).seed@ == old(self).seed@,
            final(self).binary_op == old(self).binary_op,
            call_ensures(
                old(self).binary_op,
                (old(self).previous_value, item),
                final(self).previous_value,
            ),
            final(self).subscriber.trace() == old(self).subscriber.trace().push(
                Signal::Item(final(self).previous_value),
            ),
    {
        let next_value = (self.binary_op)(self.previous_value, item);
        self.previous_value = next_value;
        proof {
            crate::signal::lemma_push_item_live(self.subscriber.trace(), next_value);
        }
        self.subscriber.on_next(next_value);
        proof {
            lemma_scan_rel_snoc_item(
                self.binary_op,
                self.seed@,
                old(self).received@,
                old(self).subscriber.trace(),
                old(self).previous_value,
                item,
                next_value,
            );
            self.received@ = self.received@.push(Signal::Item(item));
            crate::signal::lemma_push_item_live(old(self).received@, item);
        }
    }

    fn on_error(&mut self, error: FlowError<E>)
        ensures
            final(self).seed@ == old(self).seed@,
            final(self).binary_op == old(self).binary_op,
            final(self).previous_value == old(self).previous_value,
            final(self).subscriber.trace() == old(self).subscriber.trace().push(
                Signal::Error(error),
            ),
    {
        self.subscriber.on_error(error);
        proof {
            lemma_scan_rel_snoc_through(
                self.binary_op,
                self.seed@,
                old(self).received@,
                old(self).subscriber.trace(),
                old(self).previous_value,
                Signal::<T, FlowError<E>>::Error(error),
                Signal::<U, FlowError<E>>::Error(error),
            );
            self.received@ = self.received@.push(Signal::Error(error));
        }
    }

    fn on_completed(&mut self)
        ensures
            final(self).seed@ == old(self).seed@,
            final(self).binary_op == old(self).binary_op,
            final(self).previous_value == old(self).previous_value,
            final(self).subscriber.trace() == old(self).subscriber.trace().push(
                Signal::Completed,
            ),
    {
        self.subscriber.on_completed();
        proof {
            lemma_scan_rel_snoc_through(
                self.binary_op,
                self.seed@,
                old(self).received@,
                old(self).subscriber.trace(),
                old(self).previous_value,
                Signal::<T, FlowError<E>>::Completed,
                Signal::<U, FlowError<E>>::Completed,
            );
            self.received@ = self.received@.push(Signal::Completed);
        }
    }

    fn is_cancelled(&self) -> (r: bool) {
        self.subscriber.is_cancelled()
    }

    fn take_demand(&mut self) -> (n: usize) {
        self.subscriber.take_demand()
    }
}

} // verus!
