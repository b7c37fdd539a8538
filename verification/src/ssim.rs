//! Structural similarity (SSIM) in exact fixed-point arithmetic.
//!
//! Local means, variances and covariance come from a 7x7 box filter with
//! mirrored borders. The classic stabilized quotient
//! `((2*u1*u2 + C1)*(2*cov + C2)) / ((u1^2 + u2^2 + C1)*(var1 + var2 + C2))`
//! with `C1 = 6.5025` and `C2 = 58.5225` is computed as a ratio of exact
//! integers: every mean carries denominator 49 and every variance 49^2, and
//! both constants are the rationals `2601/400` and `23409/400`, so numerator
//! and denominator can be scaled by `400 * 49^2` and compared exactly. Each
//! pixel contributes its quotient truncated at `SIM_SCALE`; the score is the
//! truncated mean of those contributions (averaged again over the first
//! three channels for color frames).

use vstd::prelude::*;
use crate::frame::Frame;
use crate::frame::FrameView;
use crate::frame::lemma_flat_index_bounds;
use crate::frame::lemma_row_major_unique;
use crate::sums::all_in;
use crate::sums::icross;
use crate::sums::isum;
use crate::sums::isumsq;
use crate::sums::lemma_cauchy;
use crate::sums::lemma_cauchy_pair;
use crate::sums::lemma_icross_bounds;
use crate::sums::lemma_icross_comm;
use crate::sums::lemma_isum_bounds;
use crate::sums::lemma_isumsq_bounds;
use vstd::arithmetic::div_mod::lemma_div_is_ordered;
use vstd::arithmetic::div_mod::lemma_div_multiples_vanish;

verus! {

/// Fixed-point scale of similarity scores: `SIM_SCALE` stands for 1.0.
pub const SIM_SCALE: i64 = 1_000_000;

/// Why a similarity score could not be computed.
#[derive(Clone, Copy, Debug, PartialEq, Eq, Structural)]
pub enum ComparisonError {
    /// The two images differ in width, height or channel count.
    DimensionMismatch,
}

/// Truncating division (rounds toward zero), as machine division does.
pub open spec fn tdiv(a: int, b: int) -> int {
    if a >= 0 {
        a / b
    } else {
        -((-a) / b)
    }
}

/// Mirror an index into `0..n` without repeating the border pixel.
pub open spec fn reflect(i: int, n: int) -> int {
    if i < 0 {
        -i
    } else if i >= n {
        2 * n - 2 - i
    } else {
        i
    }
}

/// The 49 samples of channel `ch` in the 7x7 window centered at `(r, c)`,
/// row-major, borders mirrored.
pub open spec fn win(f: FrameView, ch: int, r: int, c: int) -> Seq<int> {
    Seq::new(
        49,
        |k: int|
            f.px(reflect(r + k / 7 - 3, f.height), reflect(c + k % 7 - 3, f.width), ch),
    )
}

/// Window variance, scaled by `49^2`: `49 * sum(x^2) - sum(x)^2`.
pub open spec fn pix_var(x: Seq<int>) -> int {
    49 * isumsq(x) - isum(x) * isum(x)
}

/// Window covariance, scaled by `49^2`.
pub open spec fn pix_cov(x: Seq<int>, y: Seq<int>) -> int {
    49 * icross(x, y) - isum(x) * isum(y)
}

/// Luminance numerator `2*u1*u2 + C1`, scaled by `400 * 49^2`
/// (`6245001 == 2601 * 2401`).
pub open spec fn pix_n1(x: Seq<int>, y: Seq<int>) -> int {
    800 * (isum(x) * isum(y)) + 6245001
}

/// Luminance denominator `u1^2 + u2^2 + C1`, scaled by `400 * 49^2`.
pub open spec fn pix_d1(x: Seq<int>, y: Seq<int>) -> int {
    400 * (isum(x) * isum(x) + isum(y) * isum(y)) + 6245001
}

/// Contrast numerator `2*cov + C2`, scaled by `400 * 49^2`
/// (`56205009 == 23409 * 2401`).
pub open spec fn pix_n2(x: Seq<int>, y: Seq<int>) -> int {
    800 * pix_cov(x, y) + 56205009
}

/// Contrast denominator `var1 + var2 + C2`, scaled by `400 * 49^2`.
pub open spec fn pix_d2(x: Seq<int>, y: Seq<int>) -> int {
    400 * (pix_var(x) + pix_var(y)) + 56205009
}

/// The per-pixel similarity in fixed point: the stabilized quotient,
/// truncated at scale `SIM_SCALE`.
pub open spec fn ssim_pixel(a: FrameView, b: FrameView, ch: int, r: int, c: int) -> int {
    let x = win(a, ch, r, c);
    let y = win(b, ch, r, c);
    tdiv(1000000 * (pix_n1(x, y) * pix_n2(x, y)), pix_d1(x, y) * pix_d2(x, y))
}

/// Sum of the per-pixel similarities over the first `k` pixels, row-major.
pub open spec fn ssim_sum(a: FrameView, b: FrameView, ch: int, k: int) -> int
    decreases k,
{
    if k <= 0 {
        0
    } else {
        ssim_sum(a, b, ch, k - 1) + ssim_pixel(a, b, ch, (k - 1) / a.width, (k - 1) % a.width)
    }
}

/// Mean of the per-pixel map for one channel, truncated.
pub open spec fn ssim_channel(a: FrameView, b: FrameView, ch: int) -> int {
    tdiv(ssim_sum(a, b, ch, a.height * a.width), a.height * a.width)
}

/// The similarity score: the single channel's mean for grayscale frames,
/// the mean of the first three channel means otherwise.
pub open spec fn ssim_of(a: FrameView, b: FrameView, single: bool) -> int {
    if single {
        ssim_channel(a, b, 0)
    } else {
        tdiv(ssim_channel(a, b, 0) + ssim_channel(a, b, 1) + ssim_channel(a, b, 2), 3)
    }
}

/// Sign, bound and ordering facts for one pixel's quotient parts. The
/// Cauchy-Schwarz inequality keeps both variances nonnegative and the
/// covariance between them, which pins the quotient into `[-1, 1]`.
proof fn lemma_pixel_core(x: Seq<int>, y: Seq<int>)
    requires
        x.len() == 49,
        y.len() == 49,
        all_in(x, 0, 255),
        all_in(y, 0, 255),
    ensures
        0 <= isum(x) <= 12495,
        0 <= isum(y) <= 12495,
        0 <= isumsq(x) <= 3186225,
        0 <= isumsq(y) <= 3186225,
        0 <= icross(x, y) <= 3186225,
        0 <= pix_var(x),
        0 <= pix_var(y),
        0 < pix_n1(x, y) <= 130000000000,
        0 < pix_d1(x, y) <= 130000000000,
        -250000000000 <= pix_n2(x, y) <= 250000000000,
        0 < pix_d2(x, y) <= 130000000000,
        pix_n1(x, y) <= pix_d1(x, y),
        -pix_d2(x, y) < pix_n2(x, y) <= pix_d2(x, y),
        0 < pix_d1(x, y) * pix_d2(x, y),
        -(pix_d1(x, y) * pix_d2(x, y)) <= pix_n1(x, y) * pix_n2(x, y) <= pix_d1(x, y) * pix_d2(
            x,
            y,
        ),
{
    let m1 = isum(x);
    let m2 = isum(y);
    let s1 = isumsq(x);
    let s2 = isumsq(y);
    let s12 = icross(x, y);
    lemma_isum_bounds(x, 255);
    lemma_isum_bounds(y, 255);
    lemma_isumsq_bounds(x, 255);
    lemma_isumsq_bounds(y, 255);
    lemma_icross_bounds(x, y, 255);
    lemma_cauchy(x);
    lemma_cauchy(y);
    lemma_cauchy_pair(x, y);
    assert(0 <= m1 * m2 <= 12495 * 12495 && m1 * m1 <= 12495 * 12495 && m2 * m2 <= 12495 * 12495)
        by (nonlinear_arith)
        requires
            0 <= m1 <= 12495,
            0 <= m2 <= 12495,
    ;
    // luminance: 2*m1*m2 <= m1^2 + m2^2
    assert(800 * (m1 * m2) <= 400 * (m1 * m1 + m2 * m2)) by (nonlinear_arith);
    // contrast: the expanded squares give the two covariance bounds
    assert((m1 - m2) * (m1 - m2) == m1 * m1 - 2 * (m1 * m2) + m2 * m2 && (m1 + m2) * (m1 + m2)
        == m1 * m1 + 2 * (m1 * m2) + m2 * m2) by (nonlinear_arith);
    assert(pix_var(x) + pix_var(y) - 2 * pix_cov(x, y) >= 0);
    assert(pix_var(x) + pix_var(y) + 2 * pix_cov(x, y) >= 0);
    let n1 = pix_n1(x, y);
    let d1 = pix_d1(x, y);
    let n2 = pix_n2(x, y);
    let d2 = pix_d2(x, y);
    assert(0 < d1 * d2) by (nonlinear_arith)
        requires
            0 < d1,
            0 < d2,
    ;
    assert(-(d1 * d2) <= n1 * n2 <= d1 * d2) by (nonlinear_arith)
        requires
            0 < n1 <= d1,
            -d2 < n2 <= d2,
            0 < d2,
    ;
}

/// `tdiv(s * x, x) == s` for positive `x` and nonnegative `s`.
proof fn lemma_tdiv_exact(s: int, x: int)
    requires
        0 < x,
        0 <= s,
    ensures
        tdiv(s * x, x) == s,
{
    assert(s * x == x * s) by (nonlinear_arith);
    assert(s * x >= 0) by (nonlinear_arith)
        requires
            0 < x,
            0 <= s,
    ;
    lemma_div_multiples_vanish(s, x);
}

/// A quotient with `|numerator| <= s * denominator` truncates into `[-s, s]`.
proof fn lemma_tdiv_bound(a: int, b: int, s: int)
    requires
        0 < b,
        0 <= s,
        -(s * b) <= a <= s * b,
    ensures
        -s <= tdiv(a, b) <= s,
{
    assert(s * b == b * s) by (nonlinear_arith);
    lemma_div_multiples_vanish(s, b);
    if a >= 0 {
        lemma_div_is_ordered(0, a, b);
        lemma_div_is_ordered(a, s * b, b);
    } else {
        lemma_div_is_ordered(0, -a, b);
        lemma_div_is_ordered(-a, s * b, b);
    }
}

/// Mirror an index into `0..n`.
fn reflect_exec(i: i64, n: usize) -> (r: usize)
    requires
        4 <= n <= 262144,
        -3 <= i <= n + 2,
    ensures
        r as int == reflect(i as int, n as int),
        r < n,
{
    if i < 0 {
        (-i) as usize
    } else if i >= n as i64 {
        (2 * (n as i64) - 2 - i) as usize
    } else {
        i as usize
    }
}

/// One pixel's fixed-point similarity contribution.
fn ssim_pixel_exec(a: &Frame, b: &Frame, ch: usize, r: usize, c: usize) -> (v: i64)
    requires
        a.wf(),
        b.wf(),
        a.width == b.width,
        a.height == b.height,
        a.channels == b.channels,
        4 <= a.width,
        4 <= a.height,
        ch < a.channels,
        r < a.height,
        c < a.width,
    ensures
        v as int == ssim_pixel(a@, b@, ch as int, r as int, c as int),
        -1000000 <= v <= 1000000,
{
    let ghost wx = win(a@, ch as int, r as int, c as int);
    let ghost wy = win(b@, ch as int, r as int, c as int);
    let w = a.width;
    let h = a.height;
    let chs = a.channels;
    proof {
        assert(w <= 262144 && h <= 262144) by (nonlinear_arith)
            requires
                1 <= w,
                1 <= h,
                w * h <= 262144,
        ;
    }
    let mut ma: u32 = 0;
    let mut mb: u32 = 0;
    let mut sa: u32 = 0;
    let mut sb: u32 = 0;
    let mut sab: u32 = 0;
    let mut k: usize = 0;
    while k < 49
        invariant
            a.wf(),
            b.wf(),
            w == a.width && h == a.height && chs == a.channels,
            b.width == w && b.height == h && b.channels == chs,
            4 <= w <= 262144,
            4 <= h <= 262144,
            ch < chs,
            r < h,
            c < w,
            k <= 49,
            wx == win(a@, ch as int, r as int, c as int),
            wy == win(b@, ch as int, r as int, c as int),
            ma as int == isum(wx.take(k as int)),
            mb as int == isum(wy.take(k as int)),
            sa as int == isumsq(wx.take(k as int)),
            sb as int == isumsq(wy.take(k as int)),
            sab as int == icross(wx.take(k as int), wy.take(k as int)),
            ma <= k * 255,
            mb <= k * 255,
            sa <= k * 65025,
            sb <= k * 65025,
            sab <= k * 65025,
        decreases 49 - k,
    {
        let dr = (k / 7) as i64 - 3;
        let dc = (k % 7) as i64 - 3;
        proof {
            assert(h <= 262144 && w <= 262144);
        }
        let rr = reflect_exec(r as i64 + dr, h);
        let cc = reflect_exec(c as i64 + dc, w);
        proof {
            lemma_flat_index_bounds(rr as int, cc as int, w as int, h as int, chs as int);
            assert(a.data.len() == w * h * chs && b.data.len() == w * h * chs);
        }
        let base = (rr * w + cc) * chs + ch;
        let pa = a.data[base] as u32;
        let pb = b.data[base] as u32;
        proof {
            assert(wx[k as int] == pa as int && wy[k as int] == pb as int);
            assert(wx.take(k as int + 1).drop_last() =~= wx.take(k as int));
            assert(wy.take(k as int + 1).drop_last() =~= wy.take(k as int));
            assert(wx.take(k as int + 1).last() == wx[k as int]);
            assert(wy.take(k as int + 1).last() == wy[k as int]);
            assert(pa * pa <= 65025 && pb * pb <= 65025 && pa * pb <= 65025) by (nonlinear_arith)
                requires
                    pa <= 255,
                    pb <= 255,
            ;
            assert((k + 1) * 255 == k * 255 + 255 && (k + 1) * 65025 == k * 65025 + 65025);
        }
        ma = ma + pa;
        mb = mb + pb;
        sa = sa + pa * pa;
        sb = sb + pb * pb;
        sab = sab + pa * pb;
        k += 1;
    }
    proof {
        assert(wx.take(49) =~= wx);
        assert(wy.take(49) =~= wy);
        assert(all_in(wx, 0, 255) && all_in(wy, 0, 255)) by {
            assert(forall|i: int| 0 <= i < 49 ==> 0 <= #[trigger] wx[i] <= 255);
            assert(forall|i: int| 0 <= i < 49 ==> 0 <= #[trigger] wy[i] <= 255);
        }
        lemma_pixel_core(wx, wy);
    }
    let m1 = ma as i64;
    let m2 = mb as i64;
    proof {
        assert(m1 * m1 <= 12495 * 12495 && m1 * m2 <= 12495 * 12495 && m2 * m2 <= 12495 * 12495
            && 0 <= m1 * m1 && 0 <= m1 * m2 && 0 <= m2 * m2) by (nonlinear_arith)
            requires
                0 <= m1 <= 12495,
                0 <= m2 <= 12495,
        ;
    }
    let v1 = 49 * (sa as i64) - m1 * m1;
    let v2 = 49 * (sb as i64) - m2 * m2;
    let v12 = 49 * (sab as i64) - m1 * m2;
    let n1 = 800 * (m1 * m2) + 6245001;
    let d1 = 400 * (m1 * m1 + m2 * m2) + 6245001;
    let n2 = 800 * v12 + 56205009;
    let d2 = 400 * (v1 + v2) + 56205009;
    proof {
        assert(n1 as int == pix_n1(wx, wy) && d1 as int == pix_d1(wx, wy) && n2 as int == pix_n2(
            wx,
            wy,
        ) && d2 as int == pix_d2(wx, wy));
    }
    let n2_mag: u128 = if n2 >= 0 {
        n2 as u128
    } else {
        (-n2) as u128
    };
    proof {
        assert((n1 as u128) * n2_mag <= 130000000000 * 250000000000) by (nonlinear_arith)
            requires
                n1 as u128 <= 130000000000,
                n2_mag <= 250000000000,
        ;
        assert(1000000u128 * ((n1 as u128) * n2_mag) <= 1000000 * (130000000000
            * 250000000000)) by (nonlinear_arith)
            requires
                (n1 as u128) * n2_mag <= 130000000000 * 250000000000,
        ;
        assert((d1 as u128) * (d2 as u128) <= 130000000000 * 130000000000 && (d1 as u128) * (
        d2 as u128) > 0) by (nonlinear_arith)
            requires
                0 < d1 as u128 <= 130000000000,
                0 < d2 as u128 <= 130000000000,
        ;
    }
    let num_mag: u128 = 1000000u128 * ((n1 as u128) * n2_mag);
    let den: u128 = (d1 as u128) * (d2 as u128);
    let q: u128 = num_mag / den;
    proof {
        let ni = n1 as int * n2_mag as int;
        assert(num_mag as int == 1000000 * ni && ni <= pix_d1(wx, wy) * pix_d2(wx, wy))
            by (nonlinear_arith)
            requires
                num_mag as int == 1000000int * (n1 as int * n2_mag as int),
                ni == n1 as int * n2_mag as int,
                n1 as int == pix_n1(wx, wy),
                n2_mag as int == if pix_n2(wx, wy) >= 0 {
                    pix_n2(wx, wy)
                } else {
                    -pix_n2(wx, wy)
                },
                0 < pix_n1(wx, wy) <= pix_d1(wx, wy),
                -pix_d2(wx, wy) < pix_n2(wx, wy) <= pix_d2(wx, wy),
                0 < pix_d2(wx, wy),
        ;
        assert(1000000 * ni <= 1000000 * (pix_d1(wx, wy) * pix_d2(wx, wy))) by (nonlinear_arith)
            requires
                ni <= pix_d1(wx, wy) * pix_d2(wx, wy),
        ;
        assert(den as int == pix_d1(wx, wy) * pix_d2(wx, wy));
        lemma_div_is_ordered(1000000 * ni, 1000000 * (den as int), den as int);
        lemma_div_multiples_vanish(1000000, den as int);
        assert((den as int) * 1000000 == 1000000 * (den as int)) by (nonlinear_arith);
        assert(q <= 1000000);
    }
    let v: i64 = if n2 >= 0 {
        q as i64
    } else {
        -(q as i64)
    };
    proof {
        let x = wx;
        let y = wy;
        let sn = 1000000 * (pix_n1(x, y) * pix_n2(x, y));
        let sd = pix_d1(x, y) * pix_d2(x, y);
        if n2 >= 0 {
            assert(sn == num_mag as int && sn >= 0) by (nonlinear_arith)
                requires
                    num_mag as int == 1000000int * (n1 as int * n2_mag as int),
                    sn == 1000000 * (pix_n1(x, y) * pix_n2(x, y)),
                    n1 as int == pix_n1(x, y),
                    n2_mag as int == pix_n2(x, y),
                    pix_n2(x, y) >= 0,
                    pix_n1(x, y) > 0,
            ;
            assert(v as int == tdiv(sn, sd));
        } else {
            assert(-sn == num_mag as int && sn < 0) by (nonlinear_arith)
                requires
                    num_mag as int == 1000000int * (n1 as int * n2_mag as int),
                    sn == 1000000 * (pix_n1(x, y) * pix_n2(x, y)),
                    n1 as int == pix_n1(x, y),
                    n2_mag as int == -pix_n2(x, y),
                    pix_n2(x, y) < 0,
                    pix_n1(x, y) > 0,
            ;
            assert(v as int == tdiv(sn, sd));
        }
    }
    v
}

/// One channel's similarity score: the truncated mean of the per-pixel map.
fn ssim_channel_exec(a: &Frame, b: &Frame, ch: usize) -> (v: i64)
    requires
        a.wf(),
        b.wf(),
        a.width == b.width,
        a.height == b.height,
        a.channels == b.channels,
        4 <= a.width,
        4 <= a.height,
        ch < a.channels,
    ensures
        v as int == ssim_channel(a@, b@, ch as int),
        -1000000 <= v <= 1000000,
{
    let w = a.width;
    let h = a.height;
    let mut acc: i64 = 0;
    let mut r: usize = 0;
    while r < h
        invariant
            a.wf(),
            b.wf(),
            w == a.width && h == a.height,
            b.width == w && b.height == h && b.channels == a.channels,
            4 <= w,
            4 <= h,
            w * h <= 262144,
            ch < a.channels,
            r <= h,
            acc as int == ssim_sum(a@, b@, ch as int, r as int * w as int),
            -(r * w * 1000000) <= acc as int <= r * w * 1000000,
        decreases h - r,
    {
        let mut c: usize = 0;
        while c < w
            invariant
                a.wf(),
                b.wf(),
                w == a.width && h == a.height,
                b.width == w && b.height == h && b.channels == a.channels,
                4 <= w,
                4 <= h,
                w * h <= 262144,
                ch < a.channels,
                r < h,
                c <= w,
                acc as int == ssim_sum(a@, b@, ch as int, r as int * w as int + c as int),
                -((r * w + c) * 1000000) <= acc as int <= (r * w + c) * 1000000,
            decreases w - c,
        {
            proof {
                lemma_flat_index_bounds(r as int, c as int, w as int, h as int, 1);
                assert((r * w + c) * 1000000 < 262144 * 1000000 && ((r * w + c) + 1) * 1000000 == (
                r * w + c) * 1000000 + 1000000) by (nonlinear_arith)
                    requires
                        0 <= r * w + c < w * h,
                        w * h <= 262144,
                ;
            }
            let p = ssim_pixel_exec(a, b, ch, r, c);
            proof {
                lemma_row_major_unique(r as int, c as int, w as int);
                assert(ssim_sum(a@, b@, ch as int, r as int * w as int + c as int + 1) == ssim_sum(
                    a@,
                    b@,
                    ch as int,
                    r as int * w as int + c as int,
                ) + ssim_pixel(a@, b@, ch as int, r as int, c as int));
            }
            acc = acc + p;
            c += 1;
        }
        r += 1;
        proof {
            assert(r as int * w as int == (r - 1) as int * w as int + w as int)
                by (nonlinear_arith);
        }
    }
    let k = h * w;
    proof {
        assert(h * w == w * h) by (nonlinear_arith);
        assert(k >= 16) by (nonlinear_arith)
            requires
                k == h * w,
                h >= 4,
                w >= 4,
        ;
        assert(h as int * w as int == (h * w) as int);
        assert(acc as int == ssim_sum(a@, b@, ch as int, k as int));
        assert(-(k * 1000000) <= acc as int <= k * 1000000);
    }
    let v: i64 = if acc >= 0 {
        ((acc as u64) / (k as u64)) as i64
    } else {
        -((((-acc) as u64) / (k as u64)) as i64)
    };
    proof {
        lemma_tdiv_bound(acc as int, k as int, 1000000);
        assert(v as int == tdiv(acc as int, k as int));
    }
    v
}

/// The structural similarity score of two frames, in fixed point at scale
/// `SIM_SCALE`. Equal frames score exactly `SIM_SCALE`; every score lies in
/// `[-SIM_SCALE, SIM_SCALE]`. Frames of different geometry cannot be
/// compared and yield `DimensionMismatch` (and only they do).
pub fn get_ssim(img1: &Frame, img2: &Frame, is_single_channel: bool) -> (r: Result<
    i64,
    ComparisonError,
>)
    requires
        img1.wf(),
        img2.wf(),
        4 <= img1.width,
        4 <= img1.height,
        is_single_channel <==> img1.channels == 1,
    ensures
        r is Ok <==> (img1.width == img2.width && img1.height == img2.height && img1.channels
            == img2.channels),
        r matches Ok(s) ==> s as int == ssim_of(img1@, img2@, is_single_channel) && -1000000 <= s
            <= 1000000,
        r matches Err(e) ==> e == ComparisonError::DimensionMismatch,
{
    if img1.width != img2.width || img1.height != img2.height || img1.channels != img2.channels {
        return Err(ComparisonError::DimensionMismatch);
    }
    if is_single_channel {
        Ok(ssim_channel_exec(img1, img2, 0))
    } else {
        let s0 = ssim_channel_exec(img1, img2, 0);
        let s1 = ssim_channel_exec(img1, img2, 1);
        let s2 = ssim_channel_exec(img1, img2, 2);
        let total = s0 + s1 + s2;
        let v: i64 = if total >= 0 {
            ((total as u64) / 3) as i64
        } else {
            -((((-total) as u64) / 3) as i64)
        };
        proof {
            lemma_tdiv_bound(total as int, 3, 1000000);
            assert(v as int == tdiv(total as int, 3));
        }
        Ok(v)
    }
}

/// Every window of a frame holds byte values.
proof fn lemma_win_in_range(f: FrameView, ch: int, r: int, c: int)
    ensures
        all_in(win(f, ch, r, c), 0, 255),
        win(f, ch, r, c).len() == 49,
{
    assert(forall|i: int| 0 <= i < 49 ==> 0 <= #[trigger] win(f, ch, r, c)[i] <= 255);
}

/// A frame compared against itself scores exactly `SIM_SCALE` at every
/// pixel: both windows coincide, so numerator and denominator of the
/// stabilized quotient are equal and positive.
proof fn lemma_ssim_pixel_self(a: FrameView, ch: int, r: int, c: int)
    ensures
        ssim_pixel(a, a, ch, r, c) == 1000000,
{
    let x = win(a, ch, r, c);
    lemma_win_in_range(a, ch, r, c);
    lemma_pixel_core(x, x);
    assert(pix_n1(x, x) == pix_d1(x, x));
    crate::sums::lemma_icross_self(x);
    assert(pix_cov(x, x) == pix_var(x));
    assert(pix_n2(x, x) == pix_d2(x, x));
    assert(0 < pix_n1(x, x) * pix_n2(x, x)) by (nonlinear_arith)
        requires
            0 < pix_n1(x, x),
            0 < pix_n2(x, x),
    ;
    lemma_tdiv_exact(1000000, pix_n1(x, x) * pix_n2(x, x));
}

proof fn lemma_ssim_sum_self(a: FrameView, ch: int, k: int)
    ensures
        ssim_sum(a, a, ch, k) == if k <= 0 {
            0int
        } else {
            k * 1000000
        },
    decreases k,
{
    if k > 0 {
        lemma_ssim_sum_self(a, ch, k - 1);
        lemma_ssim_pixel_self(a, ch, (k - 1) / a.width, (k - 1) % a.width);
        if k == 1 {
        } else {
            assert(k * 1000000 == (k - 1) * 1000000 + 1000000);
        }
    }
}

/// Reflexivity: any frame compared against itself scores exactly
/// `SIM_SCALE`, that is 1.0, in every channel mode.
pub proof fn lemma_ssim_self(a: FrameView, single: bool)
    requires
        1 <= a.width,
        1 <= a.height,
    ensures
        ssim_of(a, a, single) == SIM_SCALE,
{
    let k = a.height * a.width;
    assert(k >= 1) by (nonlinear_arith)
        requires
            a.height >= 1,
            a.width >= 1,
            k == a.height * a.width,
    ;
    assert forall|ch: int| 0 <= ch < 3 implies ssim_channel(a, a, ch) == 1000000 by {
        lemma_ssim_sum_self(a, ch, k);
        lemma_tdiv_exact(1000000, k);
        assert(k * 1000000 == 1000000 * k) by (nonlinear_arith);
    }
    if single {
    } else {
        lemma_tdiv_exact(1000000, 3);
    }
}

proof fn lemma_ssim_pixel_sym(a: FrameView, b: FrameView, ch: int, r: int, c: int)
    ensures
        ssim_pixel(a, b, ch, r, c) == ssim_pixel(b, a, ch, r, c),
{
    let x = win(a, ch, r, c);
    let y = win(b, ch, r, c);
    lemma_icross_comm(x, y);
    assert(isum(x) * isum(y) == isum(y) * isum(x)) by (nonlinear_arith);
    assert(pix_n1(x, y) == pix_n1(y, x) && pix_d1(x, y) == pix_d1(y, x) && pix_n2(x, y) == pix_n2(
        y,
        x,
    ) && pix_d2(x, y) == pix_d2(y, x));
}

proof fn lemma_ssim_sum_sym(a: FrameView, b: FrameView, ch: int, k: int)
    requires
        a.width == b.width,
    ensures
        ssim_sum(a, b, ch, k) == ssim_sum(b, a, ch, k),
    decreases k,
{
    if k > 0 {
        lemma_ssim_sum_sym(a, b, ch, k - 1);
        lemma_ssim_pixel_sym(a, b, ch, (k - 1) / a.width, (k - 1) % a.width);
    }
}

/// Symmetry: the similarity score does not depend on the order of its two
/// frames.
pub proof fn lemma_ssim_symmetric(a: FrameView, b: FrameView, single: bool)
    requires
        a.width == b.width,
        a.height == b.height,
    ensures
        ssim_of(a, b, single) == ssim_of(b, a, single),
{
    assert forall|ch: int| 0 <= ch < 3 implies ssim_channel(a, b, ch) == ssim_channel(b, a, ch) by {
        lemma_ssim_sum_sym(a, b, ch, a.height * a.width);
    }
}

} // verus!
