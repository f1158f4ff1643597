use vstd::prelude::*;

verus! {

/// Relies on `rand::Rng::gen_range` on `rand::thread_rng()` (rand 0.7): a
/// uniform value in `[low, high)`; it panics when `low >= high`.
#[verifier::external_body]
fn gen_range(low: u64, high: u64) -> (r: u64)
    requires
        low < high,
    ensures
        low <= r < high,
{
    rand::Rng::gen_range(&mut rand::thread_rng(), low, high)
}

/// A uniform draw from `[min, max]`, both ends included.
pub fn roll(min: u32, max: u32) -> (r: u32)
    requires
        min <= max,
    ensures
        min <= r <= max,
{
    gen_range(min as u64, max as u64 + 1) as u32
}

/// A uniform draw from `[min, max)`.
pub fn roll_below(min: u32, max: u32) -> (r: u32)
    requires
        min < max,
    ensures
        min <= r < max,
{
    gen_range(min as u64, max as u64) as u32
}

/// A uniform draw of an index below `n`.
pub fn roll_index(n: usize) -> (r: usize)
    requires
        0 < n,
    ensures
        r < n,
{
    gen_range(0, n as u64) as usize
}

} // verus!
