use vstd::prelude::*;

use crate::signal::FlowError;
use crate::signal::Signal;
use crate::signal::live_trace;

verus! {

/// The state a recording flow sink reports; same ranking as for observers.
#[derive(Clone, Copy, PartialEq, Eq, Structural, Debug)]
pub enum SubscriberStatus {
    Cancelled,
    Unsubscribed,
    Subscribed,
    Error,
    Completed,
}

/// A sink of a backpressured source. Like an observer it carries the ghost
/// trace of observed events, but its errors are `FlowError`s and it signals
/// demand: `pending_demand` is credit the sink has announced and the upstream
/// operator has not yet collected. The upstream collects it with
/// `take_demand`, typically right after delivering an item, so credit a sink
/// grants from within `on_next` is consumed in the same drain.
///
/// As for observers, cancellation is an action of the sink's owner between
/// deliveries: a delivery itself never cancels, and once a sink is
/// cancelled, no `on_next` can be delivered to it at all.
pub trait Subscriber<T, E>: Sized {
    /// The events this sink has observed so far.
    spec fn trace(&self) -> Seq<Signal<T, FlowError<E>>>;

    /// Well-formedness of the sink's state.
    spec fn inv(&self) -> bool;

    /// Whether this sink has asked its source to stop producing.
    spec fn cancelled(&self) -> bool;

    /// Credit announced by the sink and not yet collected upstream.
    spec fn pending_demand(&self) -> usize;

    /// Total credit this sink has ever announced, collected or still
    /// pending. Deliveries may only raise it by exactly what they make
    /// pending, so `announced - pending` — the collected credit — never
    /// changes except through `take_demand`.
    spec fn announced(&self) -> nat;

    fn on_subscribe(&mut self)
        requires
            old(self).inv(),
            old(self).trace() == Seq::<Signal<T, FlowError<E>>>::empty(),
            !old(self).cancelled(),
        ensures
            final(self).inv(),
            final(self).trace() == old(self).trace().push(Signal::<T, FlowError<E>>::Subscribe),
            !final(self).cancelled(),
            final(self).announced() >= old(self).announced(),
            final(self).announced() + old(self).pending_demand() == old(self).announced() + final(self).pending_demand(),
            old(self).pending_demand() <= old(self).announced() ==> final(self).pending_demand()
                <= final(self).announced(),
    ;

    fn on_next(&mut self, item: T)
        requires
            old(self).inv(),
            live_trace(old(self).trace()),
            !old(self).cancelled(),
        ensures
            final(self).inv(),
            final(self).trace() == old(self).trace().push(Signal::Item(item)),
            !final(self).cancelled(),
            final(self).announced() >= old(self).announced(),
            final(self).announced() + old(self).pending_demand() == old(self).announced() + final(self).pending_demand(),
            old(self).pending_demand() <= old(self).announced() ==> final(self).pending_demand()
                <= final(self).announced(),
    ;

    fn on_error(&mut self, error: FlowError<E>)
        requires
            old(self).inv(),
            live_trace(old(self).trace()),
        ensures
            final(self).inv(),
            final(self).trace() == old(self).trace().push(Signal::Error(error)),
            final(self).cancelled() == old(self).cancelled(),
            final(self).announced() >= old(self).announced(),
            final(self).announced() + old(self).pending_demand() == old(self).announced() + final(self).pending_demand(),
            old(self).pending_demand() <= old(self).announced() ==> final(self).pending_demand()
                <= final(self).announced(),
    ;

    fn on_completed(&mut self)
        requires
            old(self).inv(),
            live_trace(old(self).trace()),
        ensures
            final(self).inv(),
            final(self).trace() == old(self).trace().push(Signal::<T, FlowError<E>>::Completed),
            final(self).cancelled() == old(self).cancelled(),
            final(self).announced() >= old(self).announced(),
            final(self).announced() + old(self).pending_demand() == old(self).announced() + final(self).pending_demand(),
            old(self).pending_demand() <= old(self).announced() ==> final(self).pending_demand()
                <= final(self).announced(),
    ;

    fn is_cancelled(&self) -> (r: bool)
        requires
            self.inv(),
        ensures
            r == self.cancelled(),
    ;

    /// Collect the credit the sink has announced since the last collection.
    fn take_demand(&mut self) -> (n: usize)
        requires
            old(self).inv(),
        ensures
            final(self).inv(),
            n == old(self).pending_demand(),
            final(self).pending_demand() == 0,
            final(self).trace() == old(self).trace(),
            final(self).cancelled() == old(self).cancelled(),
            final(self).announced() == old(self).announced(),
    ;
}

/// A recording flow sink. Besides recording, it can arm credit: an armed
/// amount becomes pending demand the moment the next item is delivered,
/// which models a subscriber that requests more from within `on_next`.
pub struct TestSubscriber<T, E> {
    pub subscribed: bool,
    pub has_token: bool,
    pub items: Vec<T>,
    pub error: Option<FlowError<E>>,
    pub is_completed: bool,
    pub is_cancelled: bool,
    pub pending: usize,
    pub armed: usize,
    pub total_announced: Ghost<nat>,
}

impl<T, E> TestSubscriber<T, E> {
    pub open spec fn trace_spec(&self) -> Seq<Signal<T, FlowError<E>>> {
        if !self.subscribed {
            Seq::empty()
        } else {
            let base = seq![Signal::<T, FlowError<E>>::Subscribe] + self.items@.map_values(
                |x: T| Signal::<T, FlowError<E>>::Item(x),
            );
            match self.error {
                Some(e) => base.push(Signal::Error(e)),
                None => if self.is_completed {
                    base.push(Signal::Completed)
                } else {
                    base
                },
            }
        }
    }

    pub open spec fn inv_spec(&self) -> bool {
        &&& !(self.error is Some && self.is_completed)
        &&& !self.subscribed ==> self.items@ == Seq::<T>::empty() && self.error is None
            && !self.is_completed
        &&& self.has_token <==> self.subscribed && !self.is_cancelled
    }

    pub fn new() -> (r: Self)
        ensures
            r.inv_spec(),
            r.trace_spec() == Seq::<Signal<T, FlowError<E>>>::empty(),
            !r.cancelled(),
            r.pending == 0,
            r.armed == 0,
            r.total_announced@ == 0,
            !r.has_token,
    {
        TestSubscriber {
            subscribed: false,
            has_token: false,
            items: Vec::new(),
            error: None,
            is_completed: false,
            is_cancelled: false,
            pending: 0,
            armed: 0,
            total_announced: Ghost(0),
        }
    }

    /// Announce credit at once; the upstream operator will collect it at its
    /// next opportunity.
    pub fn request_now(&mut self, n: usize)
        ensures
            *final(self) == (TestSubscriber {
                pending: old(self).pending.checked_add(n).unwrap_or(usize::MAX),
                total_announced: Ghost(
                    (old(self).total_announced@ + old(self).pending.checked_add(n).unwrap_or(
                        usize::MAX,
                    ) - old(self).pending) as nat,
                ),
                ..*old(self)
            }),
    {
        let before = self.pending;
        self.pending = match self.pending.checked_add(n) {
            Some(v) => v,
            None => usize::MAX,
        };
        proof {
            self.total_announced@ = (self.total_announced@ + self.pending - before) as nat;
        }
    }

    /// Arm credit that becomes pending when the next item arrives.
    pub fn request_on_next(&mut self, n: usize)
        ensures
            *final(self) == (TestSubscriber {
                armed: old(self).armed.checked_add(n).unwrap_or(usize::MAX),
                ..*old(self)
            }),
    {
        self.armed = match self.armed.checked_add(n) {
            Some(v) => v,
            None => usize::MAX,
        };
    }

    pub fn status(&self) -> (r: SubscriberStatus)
        ensures
            r == (if self.is_cancelled {
                SubscriberStatus::Cancelled
            } else if !self.has_token {
                SubscriberStatus::Unsubscribed
            } else if self.error is Some {
                SubscriberStatus::Error
            } else if self.is_completed {
                SubscriberStatus::Completed
            } else {
                SubscriberStatus::Subscribed
            }),
    {
        if self.is_cancelled {
            SubscriberStatus::Cancelled
        } else if !self.has_token {
            SubscriberStatus::Unsubscribed
        } else if self.error.is_some() {
            SubscriberStatus::Error
        } else if self.is_completed {
            SubscriberStatus::Completed
        } else {
            SubscriberStatus::Subscribed
        }
    }

    /// Whether this sink still holds its connection token: true from
    /// `on_subscribe` until `cancel` takes the token away.
    pub fn is_subscribed(&self) -> (r: bool)
        ensures
            r == self.has_token,
    {
        self.has_token
    }

    /// Ask the source to stop, giving up the connection token: afterwards
    /// `is_subscribed` is false and the status reads `Cancelled`. The
    /// recorded events stay as they are.
    pub fn cancel(&mut self)
        requires
            old(self).has_token,
        ensures
            *final(self) == (TestSubscriber {
                is_cancelled: true,
                has_token: false,
                ..*old(self)
            }),
    {
        self.is_cancelled = true;
        self.has_token = false;
    }

    pub fn has_error(&self) -> (r: bool)
        ensures
            r == (self.error is Some),
    {
        self.error.is_some()
    }

    pub fn is_completed(&self) -> (r: bool)
        ensures
            r == self.is_completed,
    {
        self.is_completed
    }
}

/// Whatever a recording flow sink holds, the event sequence it reads back
/// obeys the protocol: the subscription stands first and alone, and at most
/// one terminal event stands, at the end.
pub proof fn lemma_recorded_flow_trace_valid<T, E>(s: &TestSubscriber<T, E>)
    requires
        s.inv_spec(),
    ensures
        crate::signal::valid_trace(s.trace_spec()),
{
    let t = s.trace_spec();
    if s.subscribed {
        let base = seq![Signal::<T, FlowError<E>>::Subscribe] + s.items@.map_values(
            |x: T| Signal::<T, FlowError<E>>::Item(x),
        );
        assert forall|i: int| 0 <= i < t.len() implies ((#[trigger] t[i]) is Subscribe <==> i
            == 0) by {
            if i < base.len() {
                assert(t[i] == base[i]);
                if i >= 1 {
                    assert(base[i] == s.items@.map_values(
                        |x: T| Signal::<T, FlowError<E>>::Item(x),
                    )[i - 1]);
                }
            }
        }
        assert forall|i: int| 0 <= i < t.len() && crate::signal::is_terminal(
            #[trigger] t[i],
        ) implies i == t.len() - 1 by {
            if i < base.len() {
                assert(t[i] == base[i]);
                if i >= 1 {
                    assert(base[i] == s.items@.map_values(
                        |x: T| Signal::<T, FlowError<E>>::Item(x),
                    )[i - 1]);
                }
            }
        }
    }
}

impl<T, E> Default for TestSubscriber<T, E> {
    fn default() -> (r: Self)
        ensures
            r.inv_spec(),
            r.trace_spec() == Seq::<Signal<T, FlowError<E>>>::empty(),
            !r.is_cancelled,
            r.pending == 0,
            r.armed == 0,
    {
        TestSubscriber::new()
    }
}

impl<T: Copy, E> TestSubscriber<T, E> {
    pub fn items(&self) -> (r: Vec<T>)
        ensures
            r@ == self.items@,
    {
        let mut out: Vec<T> = Vec::new();
        let mut i: usize = 0;
        while i < self.items.len()
            invariant
                0 <= i <= self.items.len(),
                out@ == self.items@.take(i as int),
            decreases self.items.len() - i,
        {
            out.push(self.items[i]);
            proof {
                assert(self.items@.take(i + 1 as int) =~= self.items@.take(i as int).push(
                    self.items@[i as int],
                ));
            }
            i = i + 1;
        }
        proof {
            assert(self.items@.take(self.items@.len() as int) =~= self.items@);
        }
        out
    }
}

impl<T, E> Subscriber<T, E> for TestSubscriber<T, E> {
    open spec fn trace(&self) -> Seq<Signal<T, FlowError<E>>> {
        self.trace_spec()
    }

    open spec fn inv(&self) -> bool {
        self.inv_spec()
    }

    open spec fn cancelled(&self) -> bool {
        self.is_cancelled
    }

    open spec fn pending_demand(&self) -> usize {
        self.pending
    }

    open spec fn announced(&self) -> nat {
        self.total_announced@
    }

    fn on_subscribe(&mut self)
        ensures
            *final(self) == (TestSubscriber { subscribed: true, has_token: true, ..*old(self) }),
    {
        self.subscribed = true;
        self.has_token = true;
        proof {
            assert(self.trace_spec() =~= old(self).trace_spec().push(
                Signal::<T, FlowError<E>>::Subscribe,
            ));
        }
    }

    fn on_next(&mut self, item: T)
        ensures
            final(self).items@ == old(self).items@.push(item),
            final(self).subscribed == old(self).subscribed,
            final(self).has_token == old(self).has_token,
            final(self).error == old(self).error,
            final(self).is_completed == old(self).is_completed,
            final(self).is_cancelled == old(self).is_cancelled,
            final(self).pending == (if old(self).pending + old(self).armed <= usize::MAX {
                (old(self).pending + old(self).armed) as usize
            } else {
                usize::MAX
            }),
            final(self).armed == 0,
            final(self).total_announced@ + old(self).pending == old(self).total_announced@
                + final(self).pending,
    {
        proof {
            if self.error is Some || self.is_completed {
                assert(crate::signal::is_terminal(old(self).trace_spec().last()));
            }
        }
        self.items.push(item);
        let before = self.pending;
        self.pending = match self.pending.checked_add(self.armed) {
            Some(v) => v,
            None => usize::MAX,
        };
        self.armed = 0;
        proof {
            self.total_announced@ = (self.total_announced@ + self.pending - before) as nat;
        }
        proof {
            assert(self.items@ == old(self).items@.push(item));
            assert(self.items@.map_values(|x: T| Signal::<T, FlowError<E>>::Item(x))
                =~= old(self).items@.map_values(|x: T| Signal::<T, FlowError<E>>::Item(x)).push(
                Signal::Item(item),
            ));
            assert(self.trace_spec() =~= old(self).trace_spec().push(Signal::Item(item)));
        }
    }

    fn on_error(&mut self, error: FlowError<E>)
        ensures
            *final(self) == (TestSubscriber { error: Some(error), ..*old(self) }),
    {
        proof {
            if self.error is Some || self.is_completed {
                assert(crate::signal::is_terminal(old(self).trace_spec().last()));
            }
        }
        self.error = Some(error);
        proof {
            assert(self.trace_spec() =~= old(self).trace_spec().push(Signal::Error(error)));
        }
    }

    fn on_completed(&mut self)
        ensures
            *final(self) == (TestSubscriber { is_completed: true, ..*old(self) }),
    {
        proof {
            if self.error is Some || self.is_completed {
                assert(crate::signal::is_terminal(old(self).trace_spec().last()));
            }
        }
        self.is_completed = true;
        proof {
            assert(self.trace_spec() =~= old(self).trace_spec().push(
                Signal::<T, FlowError<E>>::Completed,
            ));
        }
    }

    fn is_cancelled(&self) -> (r: bool) {
        self.is_cancelled
    }

    fn take_demand(&mut self) -> (n: usize)
        ensures
            *final(self) == (TestSubscriber { pending: 0, ..*old(self) }),
    {
        let n = self.pending;
        self.pending = 0;
        n
    }
}

} // verus!
