//! The client's decisions: when to reconnect, and how long to wait before.

use vstd::prelude::*;

use crate::error::{Error, ErrorView};

verus! {

/// The wait before the first attempt to reconnect, in milliseconds.
pub const BACKOFF_START_MS: u64 = 500;

/// The longest wait between two attempts to reconnect, in milliseconds.
pub const BACKOFF_MAX_MS: u64 = 30_000;

/// Whether the error means that the tunnel is gone.
pub open spec fn transport_error(e: ErrorView) -> bool {
    e is StreamClosed || e is Io
}

/// Whether the error means that the tunnel is gone; an error of the protocol, such as a
/// target that refuses, does not.
pub fn is_transport_error(e: &Error) -> (r: bool)
    ensures
        r == transport_error(e@),
{
    match e {
        Error::StreamClosed => true,
        Error::Io(_) => true,
        _ => false,
    }
}

/// What comes after an attempt to open a stream has failed.
#[derive(Debug)]
pub enum OpenNext {
    /// Reconnect, and try once more.
    Retry,
    /// Give up.
    Fail(Error),
}

/// What comes after the attempt number `attempt`, counted from zero, has failed: a lost
/// tunnel is worth one more attempt, anything else is final.
pub fn after_open_failure(attempt: u32, e: Error) -> (r: OpenNext)
    ensures
        attempt == 0 && transport_error(e@) ==> r is Retry,
        !(attempt == 0 && transport_error(e@)) ==> (r matches OpenNext::Fail(f) && f@ == e@),
{
    if attempt == 0 && is_transport_error(&e) {
        OpenNext::Retry
    } else {
        OpenNext::Fail(e)
    }
}

/// Whether whoever saw the tunnel number `seen` fail still has to reconnect: not if somebody
/// else has done so since.
pub fn must_reconnect(seen: u64, current: u64) -> (r: bool)
    ensures
        r == (seen == current),
{
    seen == current
}

/// The waits between attempts to reconnect.
#[derive(Debug)]
pub struct Backoff {
    ms: u64,
}

impl View for Backoff {
    type V = nat;

    /// The next wait in milliseconds.
    closed spec fn view(&self) -> nat {
        self.ms as nat
    }
}

/// The wait after a wait of `ms`.
pub open spec fn next_backoff(ms: nat) -> nat {
    if 2 * ms <= BACKOFF_MAX_MS {
        2 * ms
    } else {
        BACKOFF_MAX_MS as nat
    }
}

/// The wait after `n` failed attempts in a row.
pub open spec fn backoff_after(n: nat) -> nat
    decreases n,
{
    if n == 0 {
        BACKOFF_START_MS as nat
    } else {
        next_backoff(backoff_after((n - 1) as nat))
    }
}

/// However many attempts fail, a wait is never shorter than the first nor longer than the
/// longest, and it never gets shorter from one attempt to the next.
pub proof fn law_backoff_bounds(n: nat)
    ensures
        BACKOFF_START_MS <= backoff_after(n) <= BACKOFF_MAX_MS,
        backoff_after(n) <= backoff_after(n + 1),
    decreases n,
{
    if n > 0 {
        law_backoff_bounds((n - 1) as nat);
    }
}

/// A wait is twice the one before, and at most 30 seconds; the first is half a second.
pub proof fn law_backoff_doubles(ms: nat, n: nat)
    ensures
        next_backoff(ms) == 2 * ms || (next_backoff(ms) == 30_000 && 2 * ms > 30_000),
        backoff_after(0) == 500,
        backoff_after(n + 1) == 2 * backoff_after(n) || (backoff_after(n + 1) == 30_000 && 2
            * backoff_after(n) > 30_000),
        next_backoff(ms) <= 30_000,
{
}

/// The tunnel is gone exactly if a stream was closed or the transport failed; what a peer or a
/// message got wrong, and what was refused, does not mean that.
pub proof fn law_transport_errors(text: Seq<char>)
    ensures
        transport_error(ErrorView::Io(text)),
        transport_error(ErrorView::StreamClosed),
        !transport_error(ErrorView::UnexpectedEof),
        !transport_error(ErrorView::InvalidData(text)),
        !transport_error(ErrorView::Message(text)),
        !transport_error(ErrorView::AuthFailed),
        !transport_error(ErrorView::Unsupported),
{
}

impl Backoff {
    #[verifier::type_invariant]
    spec fn in_range(self) -> bool {
        BACKOFF_START_MS <= self.ms <= BACKOFF_MAX_MS
    }

    /// No attempt has failed.
    pub fn new() -> (b: Self)
        ensures
            b@ == BACKOFF_START_MS,
            b@ == 500,
    {
        Backoff { ms: BACKOFF_START_MS }
    }

    /// The wait before the next attempt, in milliseconds; the one after it will be longer.
    pub fn next_wait(&mut self) -> (ms: u64)
        ensures
            ms == old(self)@,
            final(self)@ == next_backoff(old(self)@),
            BACKOFF_START_MS <= ms <= BACKOFF_MAX_MS,
    {
        proof {
            use_type_invariant(&*self);
        }
        let ms: u64 = self.ms;
        self.ms = if 2 * ms <= BACKOFF_MAX_MS {
            2 * ms
        } else {
            BACKOFF_MAX_MS
        };
        ms
    }

    /// An attempt has succeeded.
    pub fn reset(&mut self)
        ensures
            final(self)@ == BACKOFF_START_MS,
            final(self)@ == 500,
    {
        self.ms = BACKOFF_START_MS;
    }
}

} // verus!
