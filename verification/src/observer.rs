use vstd::prelude::*;

use crate::signal::Signal;
use crate::signal::live_trace;

verus! {

/// The state a recording sink reports, in the order the protocol
/// ranks these: cancellation first, then subscription, then the terminals.
#[derive(Clone, Copy, PartialEq, Eq, Structural, Debug)]
pub enum ObserverStatus {
    Cancelled,
    Unsubscribed,
    Subscribed,
    Error,
    Completed,
}

/// A sink of an observable source. `trace` is the ghost sequence of events
/// the sink has observed; every method extends it by exactly the event
/// delivered, so the protocol `Subscribe · Item* · (Error | Completed)?` is a
/// theorem about any verified caller: `on_subscribe` only ever comes first,
/// `on_next` never after cancellation, and nothing after a terminal.
///
/// Cancellation is an action of the sink's owner between deliveries, not of
/// a delivery itself: every delivery leaves `cancelled` as it found it, and
/// once a sink is cancelled, no `on_next` can be delivered to it at all —
/// terminal events may still be, but need not be.
pub trait Observer<T, E>: Sized {
    /// The events this sink has observed so far.
    spec fn trace(&self) -> Seq<Signal<T, E>>;

    /// Well-formedness of the sink's state.
    spec fn inv(&self) -> bool;

    /// Whether this sink has asked its source to stop producing.
    spec fn cancelled(&self) -> bool;

    fn on_subscribe(&mut self)
        requires
            old(self).inv(),
            old(self).trace() == Seq::<Signal<T, E>>::empty(),
            !old(self).cancelled(),
        ensures
            final(self).inv(),
            final(self).trace() == old(self).trace().push(Signal::<T, E>::Subscribe),
            !final(self).cancelled(),
    ;

    fn on_next(&mut self, item: T)
        requires
            old(self).inv(),
            live_trace(old(self).trace()),
            !old(self).cancelled(),
        ensures
            final(self).inv(),
            final(self).trace() == old(self).trace().push(Signal::Item(item)),
            !final(self).cancelled(),
    ;

    fn on_error(&mut self, error: E)
        requires
            old(self).inv(),
            live_trace(old(self).trace()),
        ensures
            final(self).inv(),
            final(self).trace() == old(self).trace().push(Signal::Error(error)),
            final(self).cancelled() == old(self).cancelled(),
    ;

    fn on_completed(&mut self)
        requires
            old(self).inv(),
            live_trace(old(self).trace()),
        ensures
            final(self).inv(),
            final(self).trace() == old(self).trace().push(Signal::<T, E>::Completed),
            final(self).cancelled() == old(self).cancelled(),
    ;

    fn is_cancelled(&self) -> (r: bool)
        requires
            self.inv(),
        ensures
            r == self.cancelled(),
    ;
}

/// A recording sink: it keeps every item, the error or the completion it
/// observed, and can cancel. Used by the tests of every operator.
pub struct TestObserver<T, E> {
    pub subscribed: bool,
    pub has_token: bool,
    pub items: Vec<T>,
    pub error: Option<E>,
    pub is_completed: bool,
    pub is_cancelled: bool,
}

impl<T, E> TestObserver<T, E> {
    /// The recorded fields read back as the observed event sequence.
    pub open spec fn trace_spec(&self) -> Seq<Signal<T, E>> {
        if !self.subscribed {
            Seq::empty()
        } else {
            let base = seq![Signal::<T, E>::Subscribe] + self.items@.map_values(
                |x: T| Signal::<T, E>::Item(x),
            );
            match self.error {
                Some(e) => base.push(Signal::Error(e)),
                None => if self.is_completed {
                    base.push(Signal::Completed)
                } else {
                    base
                },
            }
        }
    }

    pub open spec fn inv_spec(&self) -> bool {
        &&& !(self.error is Some && self.is_completed)
        &&& !self.subscribed ==> self.items@ == Seq::<T>::empty() && self.error is None
            && !self.is_completed
        &&& self.has_token <==> self.subscribed && !self.is_cancelled
    }

    pub fn new() -> (r: Self)
        ensures
            r.inv_spec(),
            r.trace_spec() == Seq::<Signal<T, E>>::empty(),
            !r.cancelled(),
            !r.subscribed,
            !r.has_token,
    {
        TestObserver {
            subscribed: false,
            has_token: false,
            items: Vec::new(),
            error: None,
            is_completed: false,
            is_cancelled: false,
        }
    }

    pub fn status(&self) -> (r: ObserverStatus)
        ensures
            r == (if self.is_cancelled {
                ObserverStatus::Cancelled
            } else if !self.has_token {
                ObserverStatus::Unsubscribed
            } else if self.error is Some {
                ObserverStatus::Error
            } else if self.is_completed {
                ObserverStatus::Completed
            } else {
                ObserverStatus::Subscribed
            }),
    {
        if self.is_cancelled {
            ObserverStatus::Cancelled
        } else if !self.has_token {
            ObserverStatus::Unsubscribed
        } else if self.error.is_some() {
            ObserverStatus::Error
        } else if self.is_completed {
            ObserverStatus::Completed
        } else {
            ObserverStatus::Subscribed
        }
    }

    /// Whether this sink still holds its connection token: true from
    /// `on_subscribe` until `cancel` takes the token away.
    pub fn is_subscribed(&self) -> (r: bool)
        ensures
            r == self.has_token,
    {
        self.has_token
    }

    /// Ask the source to stop, giving up the connection token: afterwards
    /// `is_subscribed` is false and the status reads `Cancelled`. The
    /// recorded events stay as they are.
    pub fn cancel(&mut self)
        requires
            old(self).has_token,
        ensures
            *final(self) == (TestObserver {
                is_cancelled: true,
                has_token: false,
                ..*old(self)
            }),
    {
        self.is_cancelled = true;
        self.has_token = false;
    }

    pub fn has_error(&self) -> (r: bool)
        ensures
            r == (self.error is Some),
    {
        self.error.is_some()
    }

    pub fn is_completed(&self) -> (r: bool)
        ensures
            r == self.is_completed,
    {
        self.is_completed
    }
}

/// Whatever a recorder holds, the event sequence it reads back obeys the
/// protocol: the subscription stands first and alone, and at most one
/// terminal event stands, at the end.
pub proof fn lemma_recorded_trace_valid<T, E>(o: &TestObserver<T, E>)
    requires
        o.inv_spec(),
    ensures
        crate::signal::valid_trace(o.trace_spec()),
{
    let t = o.trace_spec();
    if o.subscribed {
        let base = seq![Signal::<T, E>::Subscribe] + o.items@.map_values(
            |x: T| Signal::<T, E>::Item(x),
        );
        assert forall|i: int| 0 <= i < t.len() implies ((#[trigger] t[i]) is Subscribe <==> i
            == 0) by {
            if i < base.len() {
                assert(t[i] == base[i]);
                if i >= 1 {
                    assert(base[i] == o.items@.map_values(|x: T| Signal::<T, E>::Item(x))[i - 1]);
                }
            }
        }
        assert forall|i: int| 0 <= i < t.len() && crate::signal::is_terminal(
            #[trigger] t[i],
        ) implies i == t.len() - 1 by {
            if i < base.len() {
                assert(t[i] == base[i]);
                if i >= 1 {
                    assert(base[i] == o.items@.map_values(|x: T| Signal::<T, E>::Item(x))[i - 1]);
                }
            }
        }
    }
}

impl<T, E> Default for TestObserver<T, E> {
    fn default() -> (r: Self)
        ensures
            r.inv_spec(),
            r.trace_spec() == Seq::<Signal<T, E>>::empty(),
            !r.is_cancelled,
            !r.subscribed,
            !r.has_token,
    {
        TestObserver::new()
    }
}

impl<T: Copy, E> TestObserver<T, E> {
    pub fn items(&self) -> (r: Vec<T>)
        ensures
            r@ == self.items@,
    {
        let mut out: Vec<T> = Vec::new();
        let mut i: usize = 0;
        while i < self.items.len()
            invariant
                0 <= i <= self.items.len(),
                out@ == self.items@.take(i as int),
            decreases self.items.len() - i,
        {
            out.push(self.items[i]);
            proof {
                assert(self.items@.take(i + 1 as int) =~= self.items@.take(i as int).push(
                    self.items@[i as int],
                ));
            }
            i = i + 1;
        }
        proof {
            assert(self.items@.take(self.items@.len() as int) =~= self.items@);
        }
        out
    }
}

impl<T, E: Copy> TestObserver<T, E> {
    pub fn error(&self) -> (r: Option<E>)
        ensures
            r == self.error,
    {
        match self.error {
            Some(e) => Some(e),
            None => None,
        }
    }
}

impl<T, E> Observer<T, E> for TestObserver<T, E> {
    open spec fn trace(&self) -> Seq<Signal<T, E>> {
        self.trace_spec()
    }

    open spec fn inv(&self) -> bool {
        self.inv_spec()
    }

    open spec fn cancelled(&self) -> bool {
        self.is_cancelled
    }

    fn on_subscribe(&mut self)
        ensures
            *final(self) == (TestObserver { subscribed: true, has_token: true, ..*old(self) }),
    {
        self.subscribed = true;
        self.has_token = true;
        proof {
            assert(self.trace_spec() =~= old(self).trace_spec().push(
                Signal::<T, E>::Subscribe,
            ));
        }
    }

    fn on_next(&mut self, item: T)
        ensures
            final(self).items@ == old(self).items@.push(item),
            final(self).subscribed == old(self).subscribed,
            final(self).has_token == old(self).has_token,
            final(self).error == old(self).error,
            final(self).is_completed == old(self).is_completed,
            final(self).is_cancelled == old(self).is_cancelled,
    {
        proof {
            if self.error is Some || self.is_completed {
                assert(crate::signal::is_terminal(old(self).trace_spec().last()));
            }
        }
        self.items.push(item);
        proof {
            assert(self.items@ == old(self).items@.push(item));
            assert(self.items@.map_values(|x: T| Signal::<T, E>::Item(x))
                =~= old(self).items@.map_values(|x: T| Signal::<T, E>::Item(x)).push(
                Signal::Item(item),
            ));
            assert(self.trace_spec() =~= old(self).trace_spec().push(Signal::Item(item)));
        }
    }

    fn on_error(&mut self, error: E)
        ensures
            *final(self) == (TestObserver { error: Some(error), ..*old(self) }),
    {
        proof {
            if self.error is Some || self.is_completed {
                assert(crate::signal::is_terminal(old(self).trace_spec().last()));
            }
        }
        self.error = Some(error);
        proof {
            assert(self.trace_spec() =~= old(self).trace_spec().push(Signal::Error(error)));
        }
    }

    fn on_completed(&mut self)
        ensures
            *final(self) == (TestObserver { is_completed: true, ..*old(self) }),
    {
        proof {
            if self.error is Some || self.is_completed {
                assert(crate::signal::is_terminal(old(self).trace_spec().last()));
            }
        }
        self.is_completed = true;
        proof {
            assert(self.trace_spec() =~= old(self).trace_spec().push(
                Signal::<T, E>::Completed,
            ));
        }
    }

    fn is_cancelled(&self) -> (r: bool) {
        self.is_cancelled
    }
}

} // verus!
