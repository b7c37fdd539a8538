//! Sums of integer sequences: plain sums, sums of squares and cross sums,
//! with the bounds and the Cauchy-Schwarz inequality that the similarity
//! scores build on.

use vstd::prelude::*;

verus! {

/// Sum of the elements of `s`.
pub open spec fn isum(s: Seq<int>) -> int
    decreases s.len(),
{
    if s.len() == 0 {
        0
    } else {
        isum(s.drop_last()) + s.last()
    }
}

/// Sum of the squared elements of `s`.
pub open spec fn isumsq(s: Seq<int>) -> int
    decreases s.len(),
{
    if s.len() == 0 {
        0
    } else {
        isumsq(s.drop_last()) + s.last() * s.last()
    }
}

/// Sum of the pointwise products of `x` and `y` (over `x`'s length).
pub open spec fn icross(x: Seq<int>, y: Seq<int>) -> int
    decreases x.len(),
{
    if x.len() == 0 {
        0
    } else {
        icross(x.drop_last(), y.drop_last()) + x.last() * y.last()
    }
}

/// Every element of `s` lies in `lo..=hi`.
pub open spec fn all_in(s: Seq<int>, lo: int, hi: int) -> bool {
    forall|i: int| 0 <= i < s.len() ==> lo <= #[trigger] s[i] <= hi
}

/// Bounds of a sum of elements from `0..=hi`.
pub proof fn lemma_isum_bounds(s: Seq<int>, hi: int)
    requires
        all_in(s, 0, hi),
        0 <= hi,
    ensures
        0 <= isum(s) <= s.len() * hi,
    decreases s.len(),
{
    if s.len() == 0 {
    } else {
        lemma_isum_bounds(s.drop_last(), hi);
        assert((s.len() - 1) * hi + hi == s.len() * hi) by (nonlinear_arith);
    }
}

/// Bounds of a sum of squares of elements from `0..=hi`.
pub proof fn lemma_isumsq_bounds(s: Seq<int>, hi: int)
    requires
        all_in(s, 0, hi),
        0 <= hi,
    ensures
        0 <= isumsq(s) <= s.len() * (hi * hi),
    decreases s.len(),
{
    if s.len() == 0 {
    } else {
        lemma_isumsq_bounds(s.drop_last(), hi);
        assert(s.last() * s.last() <= hi * hi) by (nonlinear_arith)
            requires
                0 <= s.last() <= hi,
        ;
        assert((s.len() - 1) * (hi * hi) + hi * hi == s.len() * (hi * hi)) by (nonlinear_arith);
    }
}

/// Bounds of a cross sum of elements from `0..=hi`.
pub proof fn lemma_icross_bounds(x: Seq<int>, y: Seq<int>, hi: int)
    requires
        x.len() == y.len(),
        all_in(x, 0, hi),
        all_in(y, 0, hi),
        0 <= hi,
    ensures
        0 <= icross(x, y) <= x.len() * (hi * hi),
    decreases x.len(),
{
    if x.len() == 0 {
    } else {
        assert(all_in(x.drop_last(), 0, hi) && all_in(y.drop_last(), 0, hi));
        lemma_icross_bounds(x.drop_last(), y.drop_last(), hi);
        assert(0 <= x.last() * y.last() <= hi * hi) by (nonlinear_arith)
            requires
                0 <= x.last() <= hi,
                0 <= y.last() <= hi,
        ;
        assert((x.len() - 1) * (hi * hi) + hi * hi == x.len() * (hi * hi)) by (nonlinear_arith);
    }
}

/// A sum of squares is never negative.
pub proof fn lemma_isumsq_nonneg(s: Seq<int>)
    ensures
        isumsq(s) >= 0,
    decreases s.len(),
{
    if s.len() > 0 {
        lemma_isumsq_nonneg(s.drop_last());
        assert(s.last() * s.last() >= 0) by (nonlinear_arith);
    }
}

/// A sum of squares with one nonzero element is strictly positive.
pub proof fn lemma_isumsq_pos(s: Seq<int>, i: int)
    requires
        0 <= i < s.len(),
        s[i] != 0,
    ensures
        isumsq(s) > 0,
    decreases s.len(),
{
    lemma_isumsq_nonneg(s.drop_last());
    assert(s.last() * s.last() >= 0) by (nonlinear_arith);
    if i == s.len() - 1 {
        assert(s.last() * s.last() > 0) by (nonlinear_arith)
            requires
                s.last() != 0,
        ;
    } else {
        lemma_isumsq_pos(s.drop_last(), i);
    }
}

/// The cross sum of a sequence with itself is its sum of squares.
pub proof fn lemma_icross_self(x: Seq<int>)
    ensures
        icross(x, x) == isumsq(x),
    decreases x.len(),
{
    if x.len() > 0 {
        lemma_icross_self(x.drop_last());
    }
}

/// The cross sum does not depend on the order of its two arguments.
pub proof fn lemma_icross_comm(x: Seq<int>, y: Seq<int>)
    requires
        x.len() == y.len(),
    ensures
        icross(x, y) == icross(y, x),
    decreases x.len(),
{
    if x.len() == 0 {
    } else {
        lemma_icross_comm(x.drop_last(), y.drop_last());
        assert(x.last() * y.last() == y.last() * x.last()) by (nonlinear_arith);
    }
}

/// Shifting every element by a constant keeps the sum of squares
/// nonnegative: `sum((s[i] - x)^2) >= 0`, expanded.
proof fn lemma_shift_sq_nonneg(s: Seq<int>, x: int)
    ensures
        isumsq(s) + s.len() * (x * x) - 2 * x * isum(s) >= 0,
    decreases s.len(),
{
    if s.len() == 0 {
    } else {
        lemma_shift_sq_nonneg(s.drop_last(), x);
        let y = s.last();
        assert(y * y + x * x - 2 * x * y >= 0) by (nonlinear_arith);
        assert(s.len() * (x * x) == (s.len() - 1) * (x * x) + x * x) by (nonlinear_arith);
        assert(2 * x * (isum(s.drop_last()) + y) == 2 * x * isum(s.drop_last()) + 2 * x * y)
            by (nonlinear_arith);
    }
}

/// Cauchy-Schwarz for a sum against the constant sequence:
/// `n * sum(s^2) >= sum(s)^2`.
pub proof fn lemma_cauchy(s: Seq<int>)
    ensures
        s.len() * isumsq(s) >= isum(s) * isum(s),
    decreases s.len(),
{
    if s.len() == 0 {
    } else {
        let t = s.drop_last();
        let x = s.last();
        let n = t.len() as int;
        lemma_cauchy(t);
        lemma_shift_sq_nonneg(t, x);
        // (n+1)(S2 + x^2) - (S1 + x)^2
        //   == (n*S2 - S1^2) + (S2 + n*x^2 - 2*x*S1)
        assert((n + 1) * (isumsq(t) + x * x) - (isum(t) + x) * (isum(t) + x) == (n * isumsq(t)
            - isum(t) * isum(t)) + (isumsq(t) + n * (x * x) - 2 * x * isum(t)))
            by (nonlinear_arith);
    }
}

/// The pointwise combination `x[i] + sign * y[i]` of two sequences.
pub open spec fn comb(x: Seq<int>, y: Seq<int>, sign: int) -> Seq<int> {
    Seq::new(x.len(), |i: int| x[i] + sign * y[i])
}

/// Sums of a pointwise combination, expanded into the sums of its parts.
proof fn lemma_comb_sums(x: Seq<int>, y: Seq<int>, sign: int)
    requires
        x.len() == y.len(),
    ensures
        isum(comb(x, y, sign)) == isum(x) + sign * isum(y),
        isumsq(comb(x, y, sign)) == isumsq(x) + 2 * sign * icross(x, y) + (sign * sign) * isumsq(
            y,
        ),
    decreases x.len(),
{
    if x.len() == 0 {
        assert(comb(x, y, sign) =~= Seq::<int>::empty());
    } else {
        lemma_comb_sums(x.drop_last(), y.drop_last(), sign);
        assert(comb(x, y, sign).drop_last() =~= comb(x.drop_last(), y.drop_last(), sign));
        let a = x.last();
        let b = y.last();
        assert(comb(x, y, sign).last() == a + sign * b);
        assert(sign * (isum(y.drop_last()) + b) == sign * isum(y.drop_last()) + sign * b)
            by (nonlinear_arith);
        assert((a + sign * b) * (a + sign * b) == a * a + 2 * sign * (a * b) + (sign * sign) * (b
            * b)) by (nonlinear_arith);
        assert(2 * sign * (icross(x.drop_last(), y.drop_last()) + a * b) == 2 * sign * icross(
            x.drop_last(),
            y.drop_last(),
        ) + 2 * sign * (a * b)) by (nonlinear_arith);
        assert((sign * sign) * (isumsq(y.drop_last()) + b * b) == (sign * sign) * isumsq(
            y.drop_last(),
        ) + (sign * sign) * (b * b)) by (nonlinear_arith);
    }
}

/// Cauchy-Schwarz for a pair, in the variance/covariance form the
/// similarity score needs: with `n = x.len()`,
/// `n * (sum(x^2) - 2*cross + sum(y^2)) >= (sum(x) - sum(y))^2` and the
/// same with every sign flipped on the cross terms.
pub proof fn lemma_cauchy_pair(x: Seq<int>, y: Seq<int>)
    requires
        x.len() == y.len(),
    ensures
        x.len() * (isumsq(x) - 2 * icross(x, y) + isumsq(y)) >= (isum(x) - isum(y)) * (isum(x)
            - isum(y)),
        x.len() * (isumsq(x) + 2 * icross(x, y) + isumsq(y)) >= (isum(x) + isum(y)) * (isum(x)
            + isum(y)),
{
    let n = x.len() as int;
    let d = comb(x, y, -1);
    lemma_comb_sums(x, y, -1);
    lemma_cauchy(d);
    assert(isumsq(d) == isumsq(x) - 2 * icross(x, y) + isumsq(y));
    assert(isum(d) == isum(x) - isum(y));
    let s = comb(x, y, 1);
    lemma_comb_sums(x, y, 1);
    lemma_cauchy(s);
    assert(isumsq(s) == isumsq(x) + 2 * icross(x, y) + isumsq(y));
    assert(isum(s) == isum(x) + isum(y));
}

} // verus!
