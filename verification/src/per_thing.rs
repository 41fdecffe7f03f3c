//! Fractions of an amount, through `sp-arithmetic`'s `Perquintill`.
use vstd::prelude::*;

verus! {

/// The parts per quintillion of `Perquintill::from_percent(percent)`:
/// the percentage, capped at 100, times 10^16.
pub open spec fn percent_parts(percent: u64) -> int {
    (if percent > 100 {
        100
    } else {
        percent as int
    }) * 1_000_000_000_000_000_000 / 100
}

/// `amount * parts / 10^18`, rounded to the nearest integer, halves down.
pub open spec fn parts_of(parts: int, amount: u128) -> int {
    let product = amount * parts;
    let accuracy = 1_000_000_000_000_000_000int;
    product / accuracy + (if product % accuracy > accuracy / 2 {
        1int
    } else {
        0int
    })
}

/// `Perquintill::from_percent(percent) * amount` of sp-arithmetic: `amount`
/// times the percentage (capped at 100), over a hundred, rounded to the
/// nearest integer with halves rounded down.
#[verifier::external_body]
pub(crate) fn percent_of(percent: u64, amount: u128) -> (r: u128)
    ensures
        r == parts_of(percent_parts(percent), amount),
{
    sp_arithmetic::Perquintill::from_percent(percent) * amount
}

} // verus!
