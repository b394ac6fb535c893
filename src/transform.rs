use vstd::prelude::*;
use crate::amount::{valid_amount, MAX_AMOUNT};
use rayon::iter::{IndexedParallelIterator, IntoParallelRefIterator, ParallelIterator};

verus! {

/// The factor, in basis points, that leaves every amount as it is.
pub const IDENTITY_FACTOR: i64 = 10_000;

/// `x / d` rounded toward zero, for a positive `d`.
pub open spec fn div_toward_zero(x: int, d: int) -> int {
    if x >= 0 {
        x / d
    } else {
        -((-x) / d)
    }
}

/// `a` scaled by `factor` basis points, rounded toward zero.
pub open spec fn scaled_amount(a: int, factor: int) -> int {
    div_toward_zero(a * factor, IDENTITY_FACTOR as int)
}

/// Scaling `a` by `factor` gives a valid amount.
pub open spec fn scale_ok(a: int, factor: int) -> bool {
    valid_amount(scaled_amount(a, factor))
}

/// `r` is what scaling `a` by `factor` yields: the scaled amount when it is
/// valid, `None` otherwise.
pub open spec fn scale_outcome(a: int, factor: int, r: Option<i64>) -> bool {
    if scale_ok(a, factor) {
        r == Some(scaled_amount(a, factor) as i64)
    } else {
        r is None
    }
}

/// Scales `a` by `factor` basis points, rounding toward zero; `None` when
/// the result is not a valid amount.
pub fn scale_amount(a: i64, factor: i64) -> (r: Option<i64>)
    ensures
        scale_outcome(a as int, factor as int, r),
{
    proof {
        let (ai, fi) = (a as int, factor as int);
        assert(-0x8000_0000_0000_0000 * 0x8000_0000_0000_0000 <= ai * fi <= 0x8000_0000_0000_0000 * 0x8000_0000_0000_0000) by (nonlinear_arith)
            requires
                -0x8000_0000_0000_0000 <= ai <= 0x7FFF_FFFF_FFFF_FFFF,
                -0x8000_0000_0000_0000 <= fi <= 0x7FFF_FFFF_FFFF_FFFF,
        ;
    }
    let x: i128 = (a as i128) * (factor as i128);
    let d: i128 = IDENTITY_FACTOR as i128;
    let q: i128 = if x >= 0 {
        x / d
    } else {
        -((-x) / d)
    };
    if -(MAX_AMOUNT as i128) <= q && q <= MAX_AMOUNT as i128 {
        Some(q as i64)
    } else {
        None
    }
}

/// How many entries a bulk transform left unchanged because their scaled
/// amount was not valid.
#[derive(Debug, Clone, Copy, PartialEq, Eq, Structural)]
pub struct TransformReport {
    pub failed_incomes: usize,
    pub failed_expenses: usize,
}

/// The identity factor leaves every amount unchanged.
pub proof fn lemma_identity_scale(a: int)
    ensures
        scaled_amount(a, IDENTITY_FACTOR as int) == a,
{
    assert((a * 10_000) / 10_000 == a) by (nonlinear_arith);
    assert(((-a) * 10_000) / 10_000 == -a) by (nonlinear_arith);
    assert(-a * 10_000 == (-a) * 10_000) by (nonlinear_arith);
}

/// Relies on rayon's `par_iter`, `map` and `collect_into_vec`: an indexed
/// parallel map stores the result for each item at that item's position,
/// so the output has one element per input, in the same order.
#[verifier::external_body]
pub(crate) fn par_scale(amounts: &Vec<i64>, factor: i64) -> (r: Vec<Option<i64>>)
    ensures
        r@.len() == amounts@.len(),
        forall|i: int| 0 <= i < amounts@.len() ==> scale_outcome(amounts@[i] as int, factor as int, #[trigger] r@[i]),
{
    let mut out: Vec<Option<i64>> = Vec::new();
    amounts.par_iter().map(|a| scale_amount(*a, factor)).collect_into_vec(&mut out);
    out
}

} // verus!
