//! The unmount retry policy: a fixed delay between attempts, a fixed cap on
//! their number, and the proof that the total sleeping time is bounded.

use vstd::prelude::*;

verus! {

/// How many unmount attempts are made before giving up.
pub const UMOUNT_RETRY_LIMIT: u64 = 20;

/// The fixed delay between unmount attempts, in milliseconds.
pub const UMOUNT_RETRY_DELAY_MS: u64 = 500;

/// What the caller does after one unmount attempt.
#[derive(Clone, Copy, PartialEq, Eq, Structural, Debug)]
pub enum UmountDecision {
    /// The unmount succeeded: stop.
    Done,
    /// Sleep this many milliseconds and try again.
    RetryAfterMs(u64),
    /// The attempt budget is spent: give up and report the failure.
    GiveUp,
}

/// Decide what follows the unmount attempt with 0-based index `attempt`,
/// which succeeded iff `unmounted`.
pub fn umount_retry_step(attempt: u64, unmounted: bool) -> (r: UmountDecision)
    requires
        attempt < UMOUNT_RETRY_LIMIT,
    ensures
        unmounted ==> r == UmountDecision::Done,
        !unmounted && attempt + 1 < UMOUNT_RETRY_LIMIT
            ==> r == UmountDecision::RetryAfterMs(UMOUNT_RETRY_DELAY_MS),
        !unmounted && attempt + 1 >= UMOUNT_RETRY_LIMIT ==> r == UmountDecision::GiveUp,
{
    if unmounted {
        UmountDecision::Done
    } else if attempt + 1 < UMOUNT_RETRY_LIMIT {
        UmountDecision::RetryAfterMs(UMOUNT_RETRY_DELAY_MS)
    } else {
        UmountDecision::GiveUp
    }
}

/// The delay the policy orders after the attempt with this index: the fixed
/// delay while attempts remain, none after the last.
pub open spec fn retry_delay(attempt: nat) -> nat {
    if attempt + 1 < UMOUNT_RETRY_LIMIT { UMOUNT_RETRY_DELAY_MS as nat } else { 0 }
}

/// The total delay ordered over the first `k` attempts.
pub open spec fn total_retry_delay(k: nat) -> nat
    decreases k,
{
    if k == 0 {
        0
    } else {
        total_retry_delay((k - 1) as nat) + retry_delay((k - 1) as nat)
    }
}

/// However many attempts an unmount takes, the policy never orders more than
/// the fixed budget of sleeping: one delay fewer than the attempt limit.
pub proof fn lemma_unmount_retry_budget(k: nat)
    ensures
        total_retry_delay(k)
            <= (UMOUNT_RETRY_LIMIT - 1) as nat * UMOUNT_RETRY_DELAY_MS as nat,
        total_retry_delay(k) <= if k < (UMOUNT_RETRY_LIMIT - 1) as nat {
            k * UMOUNT_RETRY_DELAY_MS as nat
        } else {
            (UMOUNT_RETRY_LIMIT - 1) as nat * UMOUNT_RETRY_DELAY_MS as nat
        },
    decreases k,
{
    if k > 0 {
        lemma_unmount_retry_budget((k - 1) as nat);
    }
}

} // verus!
