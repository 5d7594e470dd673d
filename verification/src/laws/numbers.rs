//! How numbers are rounded and added up.

use crate::helpers::{amount_of, quotient, share_of};
use crate::ledger::{in_token, stake_sum, stakes_fit, vouchers_of};
use crate::types::{Address, Stop, VouchRecord};
use vstd::prelude::*;

verus! {

/// Whether `q` is `a / b` rounded toward zero, for a positive `b`.
pub open spec fn rounds_to(a: int, b: int, q: int) -> bool {
    if a >= 0 {
        b * q <= a < b * q + b
    } else {
        b * q - b < a <= b * q
    }
}

/// Whether a number can be held in 128 bits with a sign.
pub open spec fn holds(x: int) -> bool {
    -0x8000_0000_0000_0000_0000_0000_0000_0000 <= x
        <= 0x7fff_ffff_ffff_ffff_ffff_ffff_ffff_ffff
}

/// The sum of the stakes.
pub open spec fn staked(vouches: Seq<VouchRecord>) -> int {
    vouches.fold_left(0int, |sum: int, v: VouchRecord| sum + v.stake)
}

/// Whether every part of the stakes, counted from the first, has a sum that can
/// be held.
pub open spec fn stakes_hold(vouches: Seq<VouchRecord>) -> bool {
    forall|k: int| 0 <= k <= vouches.len() ==> holds(staked(#[trigger] vouches.take(k)))
}

/// Division rounds toward zero: the quotient is the one number that fits.
pub proof fn division_rounds_toward_zero(a: int, b: int, q: int)
    requires
        b > 0,
    ensures
        q == quotient(a, b) <==> rounds_to(a, b, q),
{
    let n = if a >= 0 {
        a
    } else {
        -a
    };
    let p = if a >= 0 {
        q
    } else {
        -q
    };
    assert(p == n / b <==> b * p <= n < b * p + b) by (nonlinear_arith)
        requires
            n >= 0,
            b > 0,
    ;
    assert(b * (-q) == -(b * q)) by (nonlinear_arith);
}

/// A number that can be held is an amount; any other overflows.
pub proof fn amounts_are_what_can_be_held(x: int)
    ensures
        holds(x) ==> (amount_of(x) matches Ok(a) && a == x),
        !holds(x) ==> amount_of(x) == Err::<i128, Stop>(Stop::Overflow),
{
}

/// Basis points are ten-thousandths, rounded toward zero; their product with the
/// amount has to be one that can be held.
pub proof fn basis_points_are_ten_thousandths(amount: int, bps: int)
    ensures
        holds(amount * bps) ==> (share_of(amount, bps) matches Ok(share) && rounds_to(
            amount * bps,
            10_000,
            share as int,
        )),
        !holds(amount * bps) ==> share_of(amount, bps) == Err::<i128, Stop>(Stop::Overflow),
{
    if holds(amount * bps) {
        let q = quotient(amount * bps, 10_000);
        division_rounds_toward_zero(amount * bps, 10_000, q);
    }
}

/// The vouches in a token are those that name it, in order; stakes are added up
/// one by one; and a list of vouchers names who made each vouch.
pub proof fn stakes_are_added_up(vouches: Seq<VouchRecord>, token: Address)
    ensures
        in_token(vouches, token) == vouches.filter(|v: VouchRecord| v.token == token),
        stake_sum(vouches) == staked(vouches),
        stakes_fit(vouches) <==> stakes_hold(vouches),
        vouchers_of(vouches).len() == vouches.len(),
        forall|i: int|
            0 <= i < vouches.len() ==> #[trigger] vouchers_of(vouches)[i] == vouches[i].voucher,
{
    lemma_staked(vouches);
    assert forall|k: int| 0 <= k <= vouches.len() implies stake_sum(#[trigger] vouches.take(k))
        == staked(vouches.take(k)) by {
        lemma_staked(vouches.take(k));
    }
    if stakes_fit(vouches) {
        assert forall|k: int| 0 <= k <= vouches.len() implies holds(
            staked(#[trigger] vouches.take(k)),
        ) by {
            assert(stake_sum(vouches.take(k)) == staked(vouches.take(k)));
        }
    }
}

proof fn lemma_staked(vouches: Seq<VouchRecord>)
    ensures
        stake_sum(vouches) == staked(vouches),
    decreases vouches.len(),
{
    reveal(Seq::fold_left);
    if vouches.len() > 0 {
        lemma_staked(vouches.drop_last());
    }
}

} // verus!
