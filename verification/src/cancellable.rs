use vstd::prelude::*;

verus! {

/// A connection token: its one capability is a monotonic, idempotent cancel.
pub trait Cancellable: Sized {
    spec fn cancelled(&self) -> bool;

    fn cancel(&mut self)
        ensures
            final(self).cancelled(),
            old(self).cancelled() ==> *final(self) == *old(self),
    ;

    fn is_cancelled(&self) -> (r: bool)
        ensures
            r == self.cancelled(),
    ;
}

/// The plain token: a single flag, false until cancelled, then true forever.
#[derive(Clone, Copy, PartialEq, Eq, Structural, Debug)]
pub struct BoolCancellable {
    pub flag: bool,
}

impl BoolCancellable {
    pub fn new() -> (r: Self)
        ensures
            !r.cancelled(),
    {
        BoolCancellable { flag: false }
    }
}

impl Cancellable for BoolCancellable {
    open spec fn cancelled(&self) -> bool {
        self.flag
    }

    fn cancel(&mut self) {
        self.flag = true;
    }

    fn is_cancelled(&self) -> (r: bool) {
        self.flag
    }
}

/// A two-phase token, used when the upstream token is not yet available at
/// the moment the downstream needs one. Cancelling before the upstream is
/// set latches a flag; setting the upstream then applies the latched cancel
/// at once. Once the upstream is set, cancel forwards to it directly. No
/// cancel is lost across the handover.
pub struct LazyCancellable {
    pub latched: bool,
    pub upstream: Option<BoolCancellable>,
}

/// What `LazyCancellable::cancel` does, as a pure function of the state.
pub open spec fn lazy_cancel(s: LazyCancellable) -> LazyCancellable {
    match s.upstream {
        Some(u) => LazyCancellable {
            latched: s.latched,
            upstream: Some(BoolCancellable { flag: true }),
        },
        None => LazyCancellable { latched: true, upstream: None },
    }
}

/// What `LazyCancellable::set_cancellable` does, as a pure function.
pub open spec fn lazy_set(s: LazyCancellable, c: BoolCancellable) -> LazyCancellable {
    LazyCancellable {
        latched: s.latched,
        upstream: Some(
            if s.latched {
                BoolCancellable { flag: true }
            } else {
                c
            },
        ),
    }
}

impl LazyCancellable {
    pub fn new() -> (r: Self)
        ensures
            !r.latched,
            r.upstream is None,
    {
        LazyCancellable { latched: false, upstream: None }
    }

    /// Hand over the upstream token. A cancel latched before the handover is
    /// applied to the token the instant it arrives.
    pub fn set_cancellable(&mut self, cancellable: BoolCancellable)
        ensures
            *final(self) == lazy_set(*old(self), cancellable),
    {
        let cancellable = if self.latched {
            let mut c = cancellable;
            c.cancel();
            c
        } else {
            cancellable
        };
        self.upstream = Some(cancellable);
    }

    pub fn cancel(&mut self)
        ensures
            *final(self) == lazy_cancel(*old(self)),
            final(self).cancelled(),
    {
        match &mut self.upstream {
            Some(u) => {
                u.cancel();
            },
            None => {
                self.latched = true;
            },
        }
    }
}

impl Cancellable for LazyCancellable {
    /// Before the handover the latch speaks; after it, the upstream token.
    open spec fn cancelled(&self) -> bool {
        match self.upstream {
            Some(u) => u.cancelled(),
            None => self.latched,
        }
    }

    fn cancel(&mut self) {
        match &mut self.upstream {
            Some(u) => {
                u.cancel();
            },
            None => {
                self.latched = true;
            },
        }
    }

    fn is_cancelled(&self) -> (r: bool) {
        match &self.upstream {
            Some(u) => u.is_cancelled(),
            None => self.latched,
        }
    }
}

/// Cancellation survives the deferred handover, whichever side comes first:
/// a cancel latched before the upstream token arrives cancels that token the
/// moment it is set, and a cancel after the handover reaches the token
/// directly. Either order leaves the upstream token cancelled.
pub proof fn lemma_lazy_cancel_preserved(s: LazyCancellable, c: BoolCancellable)
    requires
        s.upstream is None,
    ensures
        lazy_set(lazy_cancel(s), c).upstream == Some(BoolCancellable { flag: true }),
        lazy_cancel(lazy_set(s, c)).upstream == Some(BoolCancellable { flag: true }),
{
}

} // verus!
