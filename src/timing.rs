//! The request timeout: a fixed value, or one calibrated from the response
//! times of a few warm-up requests.

use vstd::prelude::*;

verus! {

/// The timeout, in milliseconds, used when none is given.
pub const DEFAULT_TIMEOUT_MS: u64 = 3000;

/// The margin, in milliseconds, added to the slowest warm-up response.
pub const SAFETY_MARGIN_MS: u64 = 1000;

/// The largest of the samples; 0 for none.
pub open spec fn slowest(samples: Seq<u64>) -> int
    decreases samples.len(),
{
    if samples.len() == 0 {
        0
    } else {
        let rest = slowest(samples.drop_last());
        if samples.last() > rest {
            samples.last() as int
        } else {
            rest
        }
    }
}

/// The slowest of the successful warm-up response times plus the safety
/// margin, in milliseconds, capped at the largest `u64`.
pub fn calibrated_timeout(samples: &Vec<u64>) -> (r: u64)
    ensures
        r == if slowest(samples@) + SAFETY_MARGIN_MS <= u64::MAX {
            slowest(samples@) + SAFETY_MARGIN_MS
        } else {
            u64::MAX as int
        },
{
    let mut most: u64 = 0;
    let mut i: usize = 0;
    while i < samples.len()
        invariant
            i <= samples@.len(),
            most == slowest(samples@.subrange(0, i as int)),
        decreases samples.len() - i,
    {
        assert(samples@.subrange(0, i + 1).drop_last() =~= samples@.subrange(0, i as int));
        if samples[i] > most {
            most = samples[i];
        }
        i = i + 1;
    }
    assert(samples@.subrange(0, samples@.len() as int) =~= samples@);
    most.saturating_add(SAFETY_MARGIN_MS)
}

/// The timeout of the crawl's requests: the calibrated one where warm-up
/// was asked for, else the one given, else the default.
pub fn request_timeout(calibrated: Option<u64>, given: Option<u64>) -> (r: u64)
    ensures
        r == match (calibrated, given) {
            (Some(c), _) => c,
            (None, Some(g)) => g,
            (None, None) => DEFAULT_TIMEOUT_MS,
        },
{
    match (calibrated, given) {
        (Some(c), _) => c,
        (None, Some(g)) => g,
        (None, None) => DEFAULT_TIMEOUT_MS,
    }
}

} // verus!
