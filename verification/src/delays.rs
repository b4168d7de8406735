//! Random delays for the demo tasks.

use rand::Rng;
use vstd::prelude::*;

verus! {

/// A number drawn by `rand`'s thread-local generator, uniformly from
/// `lo..=hi` (`Rng::gen_range` with an inclusive range, which panics on an
/// empty range, hence `lo <= hi`).  Only the range is promised: the value
/// itself is chance.
#[verifier::external_body]
fn random_between(lo: u64, hi: u64) -> (r: u64)
    requires
        lo <= hi,
    ensures
        lo <= r <= hi,
{
    rand::thread_rng().gen_range(lo..=hi)
}

/// Draws one random delay from `lo..=hi`.
pub fn random_delay(lo: u64, hi: u64) -> (r: u64)
    requires
        lo <= hi,
    ensures
        lo <= r <= hi,
{
    random_between(lo, hi)
}

/// Draws `count` independent random delays, each from `lo..=hi`.
pub fn draw_delays(count: usize, lo: u64, hi: u64) -> (r: Vec<u64>)
    requires
        lo <= hi,
    ensures
        r@.len() == count,
        forall|i: int| 0 <= i < count ==> lo <= #[trigger] r@[i] <= hi,
{
    let mut r: Vec<u64> = Vec::new();
    let mut i: usize = 0;
    while i < count
        invariant
            i <= count,
            lo <= hi,
            r@.len() == i,
            forall|j: int| 0 <= j < i ==> lo <= #[trigger] r@[j] <= hi,
        decreases count - i,
    {
        let d = random_between(lo, hi);
        r.push(d);
        i = i + 1;
    }
    r
}

} // verus!
