//! Retry policy shared by the catalog fetch and the artifact download:
//! a fixed number of attempts, with an exponential backoff of
//! `2^attempt` seconds (base one second, no jitter) after each failure.

use vstd::prelude::*;
use vstd::arithmetic::power2::{pow2, lemma_pow2_strictly_increases, lemma2_to64, lemma2_to64_rest};

verus! {

/// Seconds to wait after the failure of attempt number `attempt`
/// (counted from zero): one second doubled per attempt already made.
pub fn backoff_seconds(attempt: u32) -> (s: u64)
    requires
        attempt < 64,
    ensures
        s == pow2(attempt as nat),
{
    proof {
        lemma2_to64();
        lemma2_to64_rest();
        if attempt < 63 {
            lemma_pow2_strictly_increases(attempt as nat, 63);
        }
    }
    let mut s: u64 = 1;
    let mut i: u32 = 0;
    while i < attempt
        invariant
            i <= attempt < 64,
            s == pow2(i as nat),
            pow2(attempt as nat) <= pow2(63),
        decreases attempt - i,
    {
        proof {
            lemma2_to64();
            lemma2_to64_rest();
            if ((i + 1) as nat) < (attempt as nat) {
                lemma_pow2_strictly_increases((i + 1) as nat, attempt as nat);
            }
            assert(pow2((i + 1) as nat) == 2 * pow2(i as nat)) by {
                vstd::arithmetic::power2::lemma_pow2_unfold((i + 1) as nat);
            }
            assert(2 * pow2(i as nat) <= pow2(63));
        }
        s = s * 2;
        i = i + 1;
    }
    s
}

/// The whole backoff schedule for a policy of `max_attempts` tries:
/// the delay to sleep after each failed attempt, in attempt order.
pub fn retry_delays(max_attempts: u32) -> (r: Vec<u64>)
    requires
        max_attempts <= 64,
    ensures
        r@.len() == max_attempts,
        forall|i: int| 0 <= i < r@.len() ==> r@[i] == pow2(i as nat),
{
    let mut r: Vec<u64> = Vec::new();
    let mut a: u32 = 0;
    while a < max_attempts
        invariant
            a <= max_attempts <= 64,
            r@.len() == a,
            forall|i: int| 0 <= i < r@.len() ==> r@[i] == pow2(i as nat),
        decreases max_attempts - a,
    {
        let d = backoff_seconds(a);
        r.push(d);
        a = a + 1;
    }
    r
}

} // verus!
