use vstd::prelude::*;

verus! {

/// One event of the sink protocol. A sink observes a sequence of these;
/// the sequence must be a prefix of `Subscribe · Item* · (Error | Completed)`.
/// `Signal` is also the materialized form of an event, shuttled through a
/// single item channel by the materialize and dematerialize operators.
#[derive(Clone, Copy, PartialEq, Eq, Debug)]
pub enum Signal<T, E> {
    Subscribe,
    Item(T),
    Error(E),
    Completed,
}

/// The error type seen by a backpressured sink: either an error of the
/// upstream source, or the buffer's refusal to absorb an emission that
/// exceeded the downstream credit.
#[derive(Clone, Copy, PartialEq, Eq, Debug)]
pub enum FlowError<E> {
    Upstream(E),
    MissingBackpressure,
}

/// Overflow policy of the backpressure buffer when an item arrives and the
/// queue is full.
#[derive(Clone, Copy, PartialEq, Eq, Structural, Debug)]
pub enum BufferStrategy {
    Error,
    DropOldest,
    DropLatest,
}

/// A terminal event ends the stream: nothing may be observed after it.
pub open spec fn is_terminal<T, E>(s: Signal<T, E>) -> bool {
    s is Error || s is Completed
}

/// The protocol every sink is owed: `Subscribe` comes first and only first,
/// and a terminal event can only stand at the end. Every prefix of a valid
/// trace is again valid.
pub open spec fn valid_trace<T, E>(t: Seq<Signal<T, E>>) -> bool {
    &&& forall|i: int| 0 <= i < t.len() ==> ((#[trigger] t[i]) is Subscribe <==> i == 0)
    &&& forall|i: int| 0 <= i < t.len() && is_terminal(#[trigger] t[i]) ==> i == t.len() - 1
}

/// A sink in this state may still receive items: it has been subscribed and
/// has not seen a terminal event.
pub open spec fn live_trace<T, E>(t: Seq<Signal<T, E>>) -> bool {
    &&& valid_trace(t)
    &&& t.len() >= 1
    &&& !is_terminal(t.last())
}

/// The items of a trace, in order of observation.
pub open spec fn items_of<T, E>(t: Seq<Signal<T, E>>) -> Seq<T>
    decreases t.len(),
{
    if t.len() == 0 {
        Seq::empty()
    } else {
        match t.first() {
            Signal::Item(x) => seq![x] + items_of(t.drop_first()),
            _ => items_of(t.drop_first()),
        }
    }
}

/// Any sink observes `Subscribe` before any other call: in a valid trace the
/// first event is `Subscribe` and no later event is.
pub proof fn lemma_subscribe_first<T, E>(t: Seq<Signal<T, E>>)
    requires
        valid_trace(t),
        t.len() > 0,
    ensures
        t[0] is Subscribe,
        forall|i: int| 1 <= i < t.len() ==> !((#[trigger] t[i]) is Subscribe),
{
}

/// Any sink observes at most one terminal event: no two distinct positions of
/// a valid trace both hold one.
pub proof fn lemma_at_most_one_terminal<T, E>(t: Seq<Signal<T, E>>)
    requires
        valid_trace(t),
    ensures
        forall|i: int, j: int|
            0 <= i < t.len() && 0 <= j < t.len() && i != j ==> !(is_terminal(#[trigger] t[i])
                && is_terminal(#[trigger] t[j])),
{
}

/// Appending an item to a live trace keeps it live.
pub proof fn lemma_push_item_live<T, E>(t: Seq<Signal<T, E>>, x: T)
    requires
        live_trace(t),
    ensures
        live_trace(t.push(Signal::Item(x))),
{
    let t2 = t.push(Signal::Item(x));
    assert forall|i: int| 0 <= i < t2.len() implies ((#[trigger] t2[i]) is Subscribe <==> i
        == 0) by {
        if i < t.len() {
            assert(t2[i] == t[i]);
        }
    }
    assert forall|i: int| 0 <= i < t2.len() && is_terminal(#[trigger] t2[i]) implies i == t2.len()
        - 1 by {
        if i < t.len() {
            assert(t2[i] == t[i]);
        }
    }
}

/// Appending a terminal event to a live trace yields a valid, ended trace.
pub proof fn lemma_push_terminal_valid<T, E>(t: Seq<Signal<T, E>>, s: Signal<T, E>)
    requires
        live_trace(t),
        is_terminal(s),
    ensures
        valid_trace(t.push(s)),
        is_terminal(t.push(s).last()),
{
    let t2 = t.push(s);
    assert forall|i: int| 0 <= i < t2.len() implies ((#[trigger] t2[i]) is Subscribe <==> i
        == 0) by {
        if i < t.len() {
            assert(t2[i] == t[i]);
        }
    }
    assert forall|i: int| 0 <= i < t2.len() && is_terminal(#[trigger] t2[i]) implies i == t2.len()
        - 1 by {
        if i < t.len() {
            assert(t2[i] == t[i]);
        }
    }
}

/// The singleton trace `[Subscribe]` is live.
pub proof fn lemma_subscribe_live<T, E>()
    ensures
        live_trace(seq![Signal::<T, E>::Subscribe]),
{
}

/// A proper prefix of a valid trace that already holds the subscription is
/// live: its last event cannot be terminal, or the trace would go on past a
/// terminal.
pub proof fn lemma_valid_prefix_live<T, E>(t: Seq<Signal<T, E>>, k: int)
    requires
        valid_trace(t),
        0 < k < t.len(),
    ensures
        live_trace(t.take(k)),
{
    let p = t.take(k);
    assert(p.last() == t[k - 1]);
    assert(!is_terminal(t[k - 1]));
    assert forall|i: int| 0 <= i < p.len() implies ((#[trigger] p[i]) is Subscribe <==> i
        == 0) by {
        assert(p[i] == t[i]);
    }
    assert forall|i: int| 0 <= i < p.len() && is_terminal(#[trigger] p[i]) implies i == p.len()
        - 1 by {
        assert(p[i] == t[i]);
    }
}

/// Items distribute over appending one event at the end.
pub proof fn lemma_items_of_push<T, E>(t: Seq<Signal<T, E>>, s: Signal<T, E>)
    ensures
        items_of(t.push(s)) == match s {
            Signal::Item(x) => items_of(t).push(x),
            _ => items_of(t),
        },
    decreases t.len(),
{
    let t2 = t.push(s);
    if t.len() == 0 {
        assert(t2.first() == s);
        assert(t2.drop_first() =~= Seq::<Signal<T, E>>::empty());
        assert(items_of(Seq::<Signal<T, E>>::empty()) == Seq::<T>::empty());
        match s {
            Signal::Item(x) => {
                assert(items_of(t2) == seq![x] + items_of(t2.drop_first()));
                assert(items_of(t2) =~= Seq::<T>::empty().push(x));
            },
            _ => {},
        }
    } else {
        assert(t2.first() == t.first());
        assert(t2.drop_first() =~= t.drop_first().push(s));
        lemma_items_of_push(t.drop_first(), s);
        match t.first() {
            Signal::Item(y) => {
                match s {
                    Signal::Item(x) => {
                        assert(items_of(t2) =~= items_of(t).push(x));
                    },
                    _ => {
                        assert(items_of(t2) =~= items_of(t));
                    },
                }
            },
            _ => {},
        }
    }
}

} // verus!
