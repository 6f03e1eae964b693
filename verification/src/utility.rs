use vstd::arithmetic::div_mod::{
    lemma_div_is_ordered, lemma_div_multiples_vanish, lemma_fundamental_div_mod,
    lemma_mod_multiples_basic,
};
use vstd::arithmetic::mul::lemma_mul_inequality;
use vstd::prelude::*;

verus! {

// Resampling a series of `len` points to `fit` points places output point
// `i` at the virtual source position `i * (len - 1) / (fit - 1)`, a rational
// between two source indices. The plan below carries that rational exactly:
// the floor index, the ceiling index, and the remainder of the division,
// so that the value interpolation between the two neighboring samples is
// the only step left.

/// The failure of a range scan over no values: a chart needs at least one
/// sample in the combined series set, and the violation is surfaced to the
/// caller instead of aborting.
#[derive(Clone, Copy, Debug, PartialEq, Eq, Structural)]
pub struct EmptyInputError;

/// Floor source index for output point `i`.
pub open spec fn sample_before(i: int, len: int, fit: int) -> int {
    (i * (len - 1)) / (fit - 1)
}

/// Remainder of the virtual position over the common denominator
/// `fit - 1`: the position is `sample_before + sample_rem / (fit - 1)`.
pub open spec fn sample_rem(i: int, len: int, fit: int) -> int {
    (i * (len - 1)) % (fit - 1)
}

/// Ceiling source index for output point `i`.
pub open spec fn sample_after(i: int, len: int, fit: int) -> int {
    if sample_rem(i, len, fit) == 0 {
        sample_before(i, len, fit)
    } else {
        sample_before(i, len, fit) + 1
    }
}

/// One interior point of a resampling plan: interpolate between source
/// indices `before` and `after` at fraction `remainder / (fit - 1)`.
pub struct ResamplePoint {
    pub before: usize,
    pub after: usize,
    pub remainder: usize,
}

/// Both neighboring source indices of an interior output point lie inside
/// the source series, and they are equal or adjacent.
pub proof fn lemma_sample_bounds(i: int, len: int, fit: int)
    requires
        2 <= len,
        2 <= fit,
        1 <= i <= fit - 2,
    ensures
        0 <= sample_before(i, len, fit),
        sample_before(i, len, fit) <= sample_after(i, len, fit),
        sample_after(i, len, fit) <= len - 1,
        sample_after(i, len, fit) <= sample_before(i, len, fit) + 1,
        0 <= sample_rem(i, len, fit) < fit - 1,
{
    let num = i * (len - 1);
    let den = fit - 1;
    assert(num >= 0) by (nonlinear_arith)
        requires
            num == i * (len - 1),
            i >= 1,
            len >= 2,
    ;
    lemma_fundamental_div_mod(num, den);
    assert(0 <= num % den < den);
    assert(num / den >= 0) by {
        lemma_div_is_ordered(0, num, den);
    }
    // num <= (fit - 2) * (len - 1) < den * (len - 1), so the quotient is
    // at most len - 2.
    lemma_mul_inequality(i, fit - 2, len - 1);
    assert(num < den * (len - 1)) by (nonlinear_arith)
        requires
            num <= (fit - 2) * (len - 1),
            den == fit - 1,
            len >= 2,
            fit >= 2,
    ;
    let q = num / den;
    if q > len - 2 {
        assert(den * q >= den * (len - 1)) by (nonlinear_arith)
            requires
                q >= len - 1,
                den >= 1,
        ;
        assert(false);
    }
}

/// Resampling a series to its own length is the identity plan: output
/// point `i` sits exactly on source index `i`, with no fractional part.
pub proof fn lemma_resample_identity(i: int, len: int)
    requires
        2 <= len,
        0 <= i,
    ensures
        sample_before(i, len, len) == i,
        sample_rem(i, len, len) == 0,
        sample_after(i, len, len) == i,
{
    assert(i * (len - 1) == (len - 1) * i) by (nonlinear_arith);
    lemma_div_multiples_vanish(i, len - 1);
    lemma_mod_multiples_basic(i, len - 1);
}

/// The first and last output points of a resampling sit exactly on the
/// first and last source indices, whatever the two lengths are.
pub proof fn lemma_resample_endpoints(len: int, fit: int)
    requires
        2 <= len,
        2 <= fit,
    ensures
        sample_before(0, len, fit) == 0,
        sample_rem(0, len, fit) == 0,
        sample_after(0, len, fit) == 0,
        sample_before(fit - 1, len, fit) == len - 1,
        sample_rem(fit - 1, len, fit) == 0,
        sample_after(fit - 1, len, fit) == len - 1,
{
    assert(0int * (len - 1) == 0) by (nonlinear_arith);
    assert((fit - 1) * (len - 1) == (len - 1) * (fit - 1)) by (nonlinear_arith);
    lemma_div_multiples_vanish(len - 1, fit - 1);
    lemma_mod_multiples_basic(len - 1, fit - 1);
}

/// The virtual positions of a plan are ordered with the output indices:
/// both the floor indices and the exact rational positions (compared over
/// the common denominator) are monotone.
pub proof fn lemma_sample_monotone(i1: int, i2: int, len: int, fit: int)
    requires
        2 <= len,
        2 <= fit,
        0 <= i1 <= i2,
    ensures
        sample_before(i1, len, fit) <= sample_before(i2, len, fit),
        sample_before(i1, len, fit) * (fit - 1) + sample_rem(i1, len, fit) <= sample_before(
            i2,
            len,
            fit,
        ) * (fit - 1) + sample_rem(i2, len, fit),
{
    let den = fit - 1;
    lemma_mul_inequality(i1, i2, len - 1);
    lemma_div_is_ordered(i1 * (len - 1), i2 * (len - 1), den);
    lemma_fundamental_div_mod(i1 * (len - 1), den);
    lemma_fundamental_div_mod(i2 * (len - 1), den);
    assert(den * (i1 * (len - 1) / den) == (i1 * (len - 1) / den) * den) by (nonlinear_arith);
    assert(den * (i2 * (len - 1) / den) == (i2 * (len - 1) / den) * den) by (nonlinear_arith);
}

/// Computes the interior points of the plan for resampling `len` source
/// points to `fit_count` output points: entry `k` describes output point
/// `k + 1`, since the first and last output points are copied verbatim
/// from the ends of the source and need no plan.
pub fn resample_positions(len: usize, fit_count: usize) -> (r: Vec<ResamplePoint>)
    requires
        2 <= len,
        2 <= fit_count,
        (fit_count - 2) * (len - 1) <= usize::MAX,
    ensures
        r@.len() == fit_count - 2,
        forall|k: int| #![trigger r@[k]]
            0 <= k < r@.len() ==> {
                &&& r@[k].before == sample_before(k + 1, len as int, fit_count as int)
                &&& r@[k].remainder == sample_rem(k + 1, len as int, fit_count as int)
                &&& r@[k].after == sample_after(k + 1, len as int, fit_count as int)
                &&& r@[k].after < len
            },
{
    let mut r: Vec<ResamplePoint> = Vec::new();
    let mut i: usize = 1;
    while i < fit_count - 1
        invariant
            1 <= i <= fit_count - 1,
            2 <= len,
            2 <= fit_count,
            (fit_count - 2) * (len - 1) <= usize::MAX,
            r@.len() == i - 1,
            forall|k: int| #![trigger r@[k]]
                0 <= k < r@.len() ==> {
                    &&& r@[k].before == sample_before(k + 1, len as int, fit_count as int)
                    &&& r@[k].remainder == sample_rem(k + 1, len as int, fit_count as int)
                    &&& r@[k].after == sample_after(k + 1, len as int, fit_count as int)
                    &&& r@[k].after < len
                },
        decreases fit_count - 1 - i,
    {
        proof {
            lemma_mul_inequality(i as int, fit_count - 2, len - 1);
            lemma_sample_bounds(i as int, len as int, fit_count as int);
        }
        let num = i * (len - 1);
        let den = fit_count - 1;
        let before = num / den;
        let remainder = num % den;
        let after = if remainder == 0 {
            before
        } else {
            before + 1
        };
        r.push(ResamplePoint { before, after, remainder });
        i += 1;
    }
    r
}

} // verus!
