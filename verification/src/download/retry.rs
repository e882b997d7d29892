//! Downloads that are tried again.

use vstd::prelude::*;

use crate::error::{Failure, MgetError};

verus! {

/// How often a download is tried again.
pub const MAX_RETRIES: u32 = 3;

/// What to do after a download failed.
#[derive(Debug)]
pub enum RetryStep {
    /// Wait so many milliseconds and try again.
    Wait { millis: u64 },
    /// Give up.
    GiveUp(MgetError),
}

/// What to do after a download failed, with the failure as a value of its own.
pub ghost enum RetryView {
    Wait { millis: u64 },
    GiveUp(Failure),
}

impl View for RetryStep {
    type V = RetryView;

    open spec fn view(&self) -> RetryView {
        match *self {
            RetryStep::Wait { millis } => RetryView::Wait { millis },
            RetryStep::GiveUp(error) => RetryView::GiveUp(error@),
        }
    }
}

/// How long to wait after the attempt with the number `attempt`, which counts from 0:
/// 300 milliseconds, and twice as long after each further attempt.
pub open spec fn delay_after(attempt: nat) -> nat {
    300 * vstd::arithmetic::power2::pow2(attempt)
}

/// What to do after the attempt with the number `attempt` failed: the last failure is the
/// one that is reported.
pub open spec fn retry_after(attempt: u32, failure: Failure) -> RetryView {
    if attempt < MAX_RETRIES {
        RetryView::Wait { millis: delay_after(attempt as nat) as u64 }
    } else {
        RetryView::GiveUp(Failure::DownloadFailed(failure.text()))
    }
}

/// Decides what to do after the attempt with the number `attempt` failed.
pub fn after_failure(attempt: u32, error: &MgetError) -> (r: RetryStep)
    ensures
        r@ == retry_after(attempt, error@),
{
    if attempt < MAX_RETRIES {
        proof {
            vstd::arithmetic::power2::lemma2_to64();
        }
        let millis: u64 = if attempt == 0 {
            300
        } else if attempt == 1 {
            600
        } else {
            1200
        };
        RetryStep::Wait { millis }
    } else {
        RetryStep::GiveUp(MgetError::DownloadFailed(error.message()))
    }
}

/// A download that always fails is tried four times, and the failure of the last attempt
/// is reported.
pub proof fn four_attempts(attempt: u32, failure: Failure)
    ensures
        retry_after(attempt, failure) is Wait <==> attempt < 3,
        attempt >= 3 ==> retry_after(attempt, failure) == RetryView::GiveUp(
            Failure::DownloadFailed(failure.text()),
        ),
{
}

/// Each wait is twice as long as the one before it.
pub proof fn waits_double(attempt: nat)
    ensures
        delay_after(0) == 300,
        delay_after(attempt + 1) == 2 * delay_after(attempt),
{
    vstd::arithmetic::power2::lemma2_to64();
    vstd::arithmetic::power2::lemma_pow2_unfold(attempt + 1);
}

/// After the first failure there is a wait of 300 milliseconds, and after each further one a
/// wait twice as long as before, as long as there is one.
pub proof fn waits_are_said(attempt: u32, failure: Failure, other: Failure)
    ensures
        retry_after(0, failure) == (RetryView::Wait { millis: 300 }),
        attempt < u32::MAX ==> (retry_after((attempt + 1) as u32, failure) matches RetryView::Wait {
            millis,
        } ==> (retry_after(attempt, other) matches RetryView::Wait { millis: before } && millis == 2
            * before)),
{
    vstd::arithmetic::power2::lemma2_to64();
    if attempt < MAX_RETRIES {
        waits_double(attempt as nat);
    }
}

} // verus!
