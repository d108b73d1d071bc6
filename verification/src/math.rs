use vstd::prelude::*;
use crate::errors::ContractError;

verus! {

/// The number of basis points in one whole (100%).
pub const BPS_DENOMINATOR: u32 = 10_000;

/// `bps` basis points of `amount`, rounded toward zero.
pub open spec fn spec_bps_of(amount: int, bps: int) -> int {
    if amount >= 0 {
        (amount * bps) / 10_000
    } else {
        -(((-amount) * bps) / 10_000)
    }
}

/// Basis points of a magnitude, computed without ever forming `mag * bps`.
fn bps_of_magnitude(mag: u128, bps: u32) -> (r: u128)
    requires
        bps <= 10_000,
    ensures
        r as int == (mag as int * bps as int) / 10_000,
        r <= mag,
{
    let q = mag / 10_000;
    let rem = mag % 10_000;
    proof {
        let m = mag as int;
        let b = bps as int;
        assert(m == q as int * 10_000 + rem as int);
        assert(q as int * b <= q as int * 10_000) by (nonlinear_arith)
            requires
                b <= 10_000,
                q >= 0,
        ;
        assert(rem as int * b <= rem as int * 10_000) by (nonlinear_arith)
            requires
                b <= 10_000,
                rem >= 0,
        ;
        assert((m * b) / 10_000 == q as int * b + (rem as int * b) / 10_000) by (nonlinear_arith)
            requires
                m == q as int * 10_000 + rem as int,
                0 <= rem < 10_000,
                b >= 0,
        {
            let a = q as int * b;
            let c = rem as int * b;
            assert(m * b == a * 10_000 + c);
            vstd::arithmetic::div_mod::lemma_fundamental_div_mod(c, 10_000);
            assert(c % 10_000 >= 0 && c % 10_000 < 10_000);
            assert(a * 10_000 + c == 10_000 * (a + c / 10_000) + c % 10_000);
            vstd::arithmetic::div_mod::lemma_div_multiples_vanish_fancy(a + c / 10_000, c % 10_000, 10_000);
        }
        assert((rem as int * b) / 10_000 <= rem as int) by (nonlinear_arith)
            requires
                rem as int * b <= rem as int * 10_000,
                rem >= 0,
        ;
    }
    let hi = q * (bps as u128);
    let lo = rem * (bps as u128) / 10_000;
    hi + lo
}

/// `bps` basis points of `amount`, rounded toward zero.
///
/// Fails with `InvalidInput` when `bps` exceeds 10 000 (more than the whole).
/// Never overflows: the result's magnitude is at most that of `amount`.
pub fn basis_points_of(amount: i128, bps: u32) -> (result: Result<i128, ContractError>)
    ensures
        bps > 10_000 ==> result == Err::<i128, ContractError>(ContractError::InvalidInput),
        bps <= 10_000 ==> result == Ok::<i128, ContractError>(
            spec_bps_of(amount as int, bps as int) as i128,
        ),
        bps <= 10_000 && amount >= 0 ==> 0 <= spec_bps_of(amount as int, bps as int) <= amount,
{
    if bps > BPS_DENOMINATOR {
        return Err(ContractError::InvalidInput);
    }
    if amount >= 0 {
        let r = bps_of_magnitude(amount as u128, bps);
        Ok(r as i128)
    } else {
        let mag: u128 = ((-(amount + 1)) as u128) + 1;
        let r = bps_of_magnitude(mag, bps);
        if r == 0 {
            Ok(0)
        } else {
            Ok(-(((r - 1) as i128)) - 1)
        }
    }
}

} // verus!
