use vstd::prelude::*;

verus! {

/// Relies on fastrand::usize: draws a value from the given half-open
/// range; it panics only on an empty range, which the bound rules out.
#[verifier::external_body]
pub(crate) fn rand_usize_below(n: usize) -> (r: usize)
    requires
        n > 0,
    ensures
        r < n,
{
    fastrand::usize(0..n)
}

/// Relies on fastrand::u64: draws a value from the given inclusive range;
/// it panics only on an empty range, which the bound rules out.
#[verifier::external_body]
pub(crate) fn rand_u64_between(lo: u64, hi: u64) -> (r: u64)
    requires
        lo <= hi,
    ensures
        lo <= r <= hi,
{
    fastrand::u64(lo..=hi)
}

/// The randomized pause a pool worker takes between batches, drawn
/// uniformly from three to five quarters of the nominal sleep value.
pub fn next_sleep_micros(batch_sleep_micros: u64) -> (r: u64)
    requires
        batch_sleep_micros / 4 <= u64::MAX / 5,
    ensures
        (batch_sleep_micros / 4) * 3 <= r <= (batch_sleep_micros / 4) * 5,
{
    let quarter = batch_sleep_micros / 4;
    rand_u64_between(quarter * 3, quarter * 5)
}

} // verus!
