//! The rules of the accept loop: how many connections are served at once
//! and how long to wait after a failed accept.

use vstd::prelude::*;

verus! {

/// The number of connections that are served at the same time.
pub const MAX_CONNECTION: usize = 250;

/// The first wait after a failed accept, in seconds.
pub const FIRST_BACKOFF: u64 = 1;

/// The longest wait after which accepting is tried once more, in seconds.
pub const BACKOFF_CEILING: u64 = 64;

/// What to do after an accept failed.
#[derive(Debug, PartialEq, Eq, Structural)]
pub enum AcceptStep {
    /// Wait `wait_secs` seconds and try again; should that fail too, the
    /// backoff is `next_backoff`.
    Retry { wait_secs: u64, next_backoff: u64 },
    /// Give up and report the error.
    GiveUp,
}

/// The step after an accept failed with the backoff at `backoff` seconds:
/// the wait doubles from one failure to the next, and past the ceiling the
/// loop gives up.
pub fn on_accept_error(backoff: u64) -> (step: AcceptStep)
    ensures
        step == if backoff > BACKOFF_CEILING {
            AcceptStep::GiveUp
        } else {
            (AcceptStep::Retry { wait_secs: backoff, next_backoff: (2 * backoff) as u64 })
        },
{
    if backoff > BACKOFF_CEILING {
        AcceptStep::GiveUp
    } else {
        AcceptStep::Retry { wait_secs: backoff, next_backoff: 2 * backoff }
    }
}

/// The backoff after `failures` accepts failed in a row.
pub open spec fn backoff_after(failures: nat) -> nat
    decreases failures,
{
    if failures == 0 {
        1
    } else {
        2 * backoff_after((failures - 1) as nat)
    }
}

/// Seven failures in a row are retried, after waits of 1, 2, 4 and so on up
/// to 64 seconds; the eighth ends the loop.
pub proof fn accept_gives_up_at_eighth_failure()
    ensures
        forall|n: nat| n < 7 ==> #[trigger] backoff_after(n) <= BACKOFF_CEILING,
        backoff_after(6) == 64,
        backoff_after(7) > BACKOFF_CEILING,
{
    reveal_with_fuel(backoff_after, 8);
    assert forall|n: nat| n < 7 implies #[trigger] backoff_after(n) <= BACKOFF_CEILING by {
        if n == 0 {
        } else if n == 1 {
        } else if n == 2 {
        } else if n == 3 {
        } else if n == 4 {
        } else if n == 5 {
        } else {
            assert(n == 6);
        }
    }
}

} // verus!
