//! Exact comparison of nonnegative rationals of the shape `a^2 / b`, done
//! by cross-multiplication. Both the Otsu threshold search and the
//! template-match peak search rank candidates with it, so no floating
//! point and no rounding enter either search.

use vstd::prelude::*;

verus! {

/// `a1^2/b1 >= a2^2/b2` on nonnegative rationals, with an empty
/// denominator (`b == 0`) scoring zero.
pub open spec fn score_ge(a1: int, b1: int, a2: int, b2: int) -> bool {
    if b1 == 0 {
        b2 == 0 || a2 == 0
    } else if b2 == 0 {
        true
    } else {
        a1 * a1 * b2 >= a2 * a2 * b1
    }
}

/// The comparison is transitive over nonnegative denominators.
pub(crate) proof fn lemma_score_ge_trans(a1: int, b1: int, a2: int, b2: int, a3: int, b3: int)
    requires
        b1 >= 0,
        b2 >= 0,
        b3 >= 0,
        score_ge(a1, b1, a2, b2),
        score_ge(a2, b2, a3, b3),
    ensures
        score_ge(a1, b1, a3, b3),
{
    if b1 == 0 {
        if b2 == 0 {
        } else {
            // a2 == 0, so a3^2 * b2 <= 0 forces a3 == 0 unless b3 == 0
            if b3 != 0 {
                assert(a3 == 0) by (nonlinear_arith)
                    requires
                        b2 > 0,
                        0 * 0 * b3 >= a3 * a3 * b2,
                ;
            }
        }
    } else if b3 == 0 {
    } else if b2 == 0 {
        assert(a1 * a1 * b3 >= a3 * a3 * b1) by (nonlinear_arith)
            requires
                a3 == 0,
                b3 >= 0,
        ;
    } else {
        assert(a1 * a1 * b3 >= a3 * a3 * b1) by (nonlinear_arith)
            requires
                b1 > 0,
                b2 > 0,
                b3 > 0,
                a1 * a1 * b2 >= a2 * a2 * b1,
                a2 * a2 * b3 >= a3 * a3 * b2,
        ;
    }
}

/// Any two scores are comparable.
pub(crate) proof fn lemma_score_ge_total(a1: int, b1: int, a2: int, b2: int)
    requires
        b1 >= 0,
        b2 >= 0,
    ensures
        score_ge(a1, b1, a2, b2) || score_ge(a2, b2, a1, b1),
{
}

/// Exact comparison of two scores: `a1^2/b1 >= a2^2/b2`.
pub(crate) fn score_ge_exec(a1: i64, b1: u64, a2: i64, b2: u64) -> (r: bool)
    requires
        -0x2000_0000_0000i64 <= a1 <= 0x2000_0000_0000i64,
        -0x2000_0000_0000i64 <= a2 <= 0x2000_0000_0000i64,
        b1 <= 0x20_0000_0000u64,
        b2 <= 0x20_0000_0000u64,
    ensures
        r == score_ge(a1 as int, b1 as int, a2 as int, b2 as int),
{
    if b1 == 0 {
        b2 == 0 || a2 == 0
    } else if b2 == 0 {
        true
    } else {
        let m1: u128 = if a1 < 0 {
            (-a1) as u128
        } else {
            a1 as u128
        };
        let m2: u128 = if a2 < 0 {
            (-a2) as u128
        } else {
            a2 as u128
        };
        proof {
            assert(m1 * m1 == a1 as int * a1 as int && m2 * m2 == a2 as int * a2 as int)
                by (nonlinear_arith)
                requires
                    m1 == if a1 < 0 {
                        -(a1 as int)
                    } else {
                        a1 as int
                    },
                    m2 == if a2 < 0 {
                        -(a2 as int)
                    } else {
                        a2 as int
                    },
            ;
            assert(m1 * m1 <= 0x2000_0000_0000u128 * 0x2000_0000_0000u128 && m2 * m2
                <= 0x2000_0000_0000u128 * 0x2000_0000_0000u128) by (nonlinear_arith)
                requires
                    m1 <= 0x2000_0000_0000u128,
                    m2 <= 0x2000_0000_0000u128,
            ;
            assert(m1 * m1 * (b2 as u128) <= 0x2000_0000_0000u128 * 0x2000_0000_0000u128
                * 0x20_0000_0000u128 && m2 * m2 * (b1 as u128) <= 0x2000_0000_0000u128
                * 0x2000_0000_0000u128 * 0x20_0000_0000u128) by (nonlinear_arith)
                requires
                    m1 * m1 <= 0x2000_0000_0000u128 * 0x2000_0000_0000u128,
                    m2 * m2 <= 0x2000_0000_0000u128 * 0x2000_0000_0000u128,
                    b1 <= 0x20_0000_0000u64,
                    b2 <= 0x20_0000_0000u64,
            ;
        }
        m1 * m1 * (b2 as u128) >= m2 * m2 * (b1 as u128)
    }
}

} // verus!
