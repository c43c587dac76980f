use vstd::prelude::*;

verus! {

/// Relies on `fastrand::u8`: a value of the inclusive range, which is not empty.
#[verifier::external_body]
pub(crate) fn random_u8(lo: u8, hi: u8) -> (r: u8)
    requires
        lo <= hi,
    ensures
        lo <= r <= hi,
{
    fastrand::u8(lo..=hi)
}

/// Relies on `fastrand::u32`: a value of the inclusive range, which is not empty.
#[verifier::external_body]
pub(crate) fn random_u32(lo: u32, hi: u32) -> (r: u32)
    requires
        lo <= hi,
    ensures
        lo <= r <= hi,
{
    fastrand::u32(lo..=hi)
}

/// Relies on `fastrand::u64`: a value of the inclusive range, which is not empty.
#[verifier::external_body]
pub(crate) fn random_u64(lo: u64, hi: u64) -> (r: u64)
    requires
        lo <= hi,
    ensures
        lo <= r <= hi,
{
    fastrand::u64(lo..=hi)
}

/// Relies on `fastrand::usize`: a value below the bound, which is positive.
#[verifier::external_body]
pub(crate) fn random_index(n: usize) -> (r: usize)
    requires
        n > 0,
    ensures
        r < n,
{
    fastrand::usize(..n)
}

/// Relies on `fastrand::bool`: a fair coin.
#[verifier::external_body]
pub(crate) fn random_bool() -> bool {
    fastrand::bool()
}

/// Relies on `fastrand::i32`: a value of the inclusive range, which is not empty.
#[verifier::external_body]
pub(crate) fn random_i32(lo: i32, hi: i32) -> (r: i32)
    requires
        lo <= hi,
    ensures
        lo <= r <= hi,
{
    fastrand::i32(lo..=hi)
}

} // verus!
