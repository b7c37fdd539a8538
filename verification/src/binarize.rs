//! Black/white preprocessing for the similarity checks: grayscale
//! histogram, an exact Otsu threshold (the cut maximizing between-class
//! variance, compared by cross-multiplication so no rounding is involved),
//! and the binarization step built on it.

use vstd::prelude::*;
use crate::frame::Frame;
use crate::ratio::lemma_score_ge_total;
use crate::ratio::lemma_score_ge_trans;
use crate::ratio::score_ge;
use crate::ratio::score_ge_exec;

verus! {

/// Threshold argument the capture pipeline passes to `get_threshold_mat`.
/// The automatic Otsu choice supersedes it; see `get_threshold_mat`.
pub const IMG_THRESH: u8 = 190;

/// How many bytes of `s` equal `v`.
pub open spec fn count_val(s: Seq<u8>, v: int) -> int
    decreases s.len(),
{
    if s.len() == 0 {
        0
    } else {
        count_val(s.drop_last(), v) + if s.last() == v {
            1int
        } else {
            0int
        }
    }
}

/// The 256-bucket histogram of a grayscale plane.
pub open spec fn hist_of(s: Seq<u8>) -> Seq<int> {
    Seq::new(256, |v: int| count_val(s, v))
}

/// Pixels with value at most `t` (the below-threshold class weight).
pub open spec fn wsum(h: Seq<int>, t: int) -> int
    decreases t + 1,
{
    if t < 0 {
        0
    } else {
        wsum(h, t - 1) + h[t]
    }
}

/// Total intensity of pixels with value at most `t`.
pub open spec fn msum(h: Seq<int>, t: int) -> int
    decreases t + 1,
{
    if t < 0 {
        0
    } else {
        msum(h, t - 1) + t * h[t]
    }
}

/// Numerator part of the between-class variance at cut `t`: with
/// `n` pixels in all, total intensity `S`, class weight `w0 = wsum(h, t)`
/// and class intensity `m0 = msum(h, t)`, the between-class variance is
/// proportional to `(n*m0 - S*w0)^2 / (w0*(n - w0))`.
pub open spec fn bcv_num(h: Seq<int>, t: int) -> int {
    wsum(h, 255) * msum(h, t) - msum(h, 255) * wsum(h, t)
}

/// Denominator part of the between-class variance at cut `t`.
pub open spec fn bcv_den(h: Seq<int>, t: int) -> int {
    wsum(h, t) * (wsum(h, 255) - wsum(h, t))
}

/// Cut `t1` separates the histogram at least as well as cut `t2`.
pub open spec fn bcv_ge(h: Seq<int>, t1: int, t2: int) -> bool {
    score_ge(bcv_num(h, t1), bcv_den(h, t1), bcv_num(h, t2), bcv_den(h, t2))
}

/// The first cut in `0..=t` with maximal between-class variance.
pub open spec fn otsu_rec(h: Seq<int>, t: int) -> int
    decreases t,
{
    if t <= 0 {
        0
    } else {
        let p = otsu_rec(h, t - 1);
        if bcv_ge(h, p, t) {
            p
        } else {
            t
        }
    }
}

/// The Otsu threshold of a grayscale plane.
pub open spec fn otsu_of(s: Seq<u8>) -> int {
    otsu_rec(hist_of(s), 254)
}

/// `s` cut at threshold `t`: strictly brighter pixels become 255, the rest 0.
pub open spec fn bin_map(s: Seq<u8>, t: int) -> Seq<u8> {
    s.map_values(
        |p: u8|
            if p > t {
                255u8
            } else {
                0u8
            },
    )
}

/// `s` binarized at its own Otsu threshold.
pub open spec fn bin_of(s: Seq<u8>) -> Seq<u8> {
    bin_map(s, otsu_of(s))
}

proof fn lemma_count_nonneg(s: Seq<u8>, v: int)
    ensures
        0 <= count_val(s, v) <= s.len(),
    decreases s.len(),
{
    if s.len() > 0 {
        lemma_count_nonneg(s.drop_last(), v);
    }
}

/// Adding one to a single bucket adds one to every prefix weight from that
/// bucket on.
proof fn lemma_wsum_bump(h0: Seq<int>, h1: Seq<int>, x: int, t: int)
    requires
        0 <= x < 256,
        forall|v: int|
            0 <= v < 256 ==> #[trigger] h1[v] == h0[v] + if v == x {
                1int
            } else {
                0int
            },
        -1 <= t <= 255,
    ensures
        wsum(h1, t) == wsum(h0, t) + if x <= t {
            1int
        } else {
            0int
        },
    decreases t + 1,
{
    if t >= 0 {
        lemma_wsum_bump(h0, h1, x, t - 1);
    }
}

/// A histogram's total weight is the length of the plane it counts.
proof fn lemma_hist_total(s: Seq<u8>)
    ensures
        wsum(hist_of(s), 255) == s.len(),
    decreases s.len(),
{
    if s.len() == 0 {
        lemma_wsum_zero(hist_of(s), 255);
    } else {
        let t = s.drop_last();
        lemma_hist_total(t);
        assert forall|v: int|
            0 <= v < 256 implies #[trigger] hist_of(s)[v] == hist_of(t)[v] + if v
            == s.last() as int {
            1int
        } else {
            0int
        } by {
            assert(s.drop_last() == t);
        }
        lemma_wsum_bump(hist_of(t), hist_of(s), s.last() as int, 255);
    }
}

/// An all-zero histogram has zero weight.
proof fn lemma_wsum_zero(h: Seq<int>, t: int)
    requires
        forall|v: int| 0 <= v < 256 ==> #[trigger] h[v] == 0,
        t <= 255,
    ensures
        wsum(h, t) == 0,
    decreases t + 1,
{
    if t >= 0 {
        lemma_wsum_zero(h, t - 1);
    }
}

/// Class weights only grow with the cut.
proof fn lemma_wsum_mono(h: Seq<int>, t1: int, t2: int)
    requires
        forall|v: int| 0 <= v < 256 ==> 0 <= #[trigger] h[v],
        -1 <= t1 <= t2 <= 255,
    ensures
        0 <= wsum(h, t1) <= wsum(h, t2),
        0 <= msum(h, t1) <= msum(h, t2),
    decreases t2 + 1,
{
    if t2 < 0 {
    } else if t1 == t2 {
        lemma_wsum_mono(h, t1 - 1, t2 - 1);
        assert(0 <= t2 * h[t2]) by (nonlinear_arith)
            requires
                0 <= t2,
                0 <= h[t2],
        ;
    } else {
        lemma_wsum_mono(h, t1, t2 - 1);
        assert(0 <= t2 * h[t2]) by (nonlinear_arith)
            requires
                0 <= t2,
                0 <= h[t2],
        ;
    }
}

/// Between-class denominators are never negative.
proof fn lemma_bcv_den_nonneg(h: Seq<int>, t: int)
    requires
        forall|v: int| 0 <= v < 256 ==> 0 <= #[trigger] h[v],
        -1 <= t <= 255,
    ensures
        bcv_den(h, t) >= 0,
{
    lemma_wsum_mono(h, t, 255);
    assert(wsum(h, t) * (wsum(h, 255) - wsum(h, t)) >= 0) by (nonlinear_arith)
        requires
            0 <= wsum(h, t) <= wsum(h, 255),
    ;
}

/// The chosen cut lies in `0..=max(t, 0)`.
proof fn lemma_otsu_rec_range(h: Seq<int>, t: int)
    ensures
        0 <= otsu_rec(h, t),
        otsu_rec(h, t) <= t || otsu_rec(h, t) == 0,
    decreases t,
{
    if t > 0 {
        lemma_otsu_rec_range(h, t - 1);
    }
}

/// The chosen cut scores at least as well as every cut up to `t`.
proof fn lemma_otsu_rec_best(h: Seq<int>, t: int)
    requires
        forall|v: int| 0 <= v < 256 ==> 0 <= #[trigger] h[v],
        0 <= t <= 254,
    ensures
        forall|t2: int| 0 <= t2 <= t ==> bcv_ge(h, otsu_rec(h, t), t2),
    decreases t,
{
    lemma_otsu_rec_range(h, t);
    if t == 0 {
        lemma_bcv_den_nonneg(h, 0);
        lemma_score_ge_total(bcv_num(h, 0), bcv_den(h, 0), bcv_num(h, 0), bcv_den(h, 0));
    } else {
        lemma_otsu_rec_best(h, t - 1);
        let p = otsu_rec(h, t - 1);
        lemma_otsu_rec_range(h, t - 1);
        lemma_bcv_den_nonneg(h, p);
        lemma_bcv_den_nonneg(h, t);
        if bcv_ge(h, p, t) {
            assert(forall|t2: int| 0 <= t2 <= t ==> bcv_ge(h, otsu_rec(h, t), t2));
        } else {
            lemma_score_ge_total(bcv_num(h, p), bcv_den(h, p), bcv_num(h, t), bcv_den(h, t));
            assert(bcv_ge(h, t, p));
            assert forall|t2: int| 0 <= t2 <= t implies bcv_ge(h, otsu_rec(h, t), t2) by {
                if t2 < t {
                    lemma_bcv_den_nonneg(h, t2);
                    assert(bcv_ge(h, p, t2));
                    lemma_score_ge_trans(
                        bcv_num(h, t),
                        bcv_den(h, t),
                        bcv_num(h, p),
                        bcv_den(h, p),
                        bcv_num(h, t2),
                        bcv_den(h, t2),
                    );
                } else {
                    lemma_score_ge_total(bcv_num(h, t), bcv_den(h, t), bcv_num(h, t), bcv_den(h, t));
                }
            }
        }
    }
}

/// The Otsu threshold maximizes between-class variance over all cuts, and
/// always lies in `0..=254`, so a fully bright pixel is never cut away.
pub proof fn lemma_otsu_maximizes(s: Seq<u8>)
    ensures
        0 <= otsu_of(s) <= 254,
        forall|t2: int| 0 <= t2 <= 254 ==> bcv_ge(hist_of(s), otsu_of(s), t2),
{
    let h = hist_of(s);
    assert forall|v: int| 0 <= v < 256 implies 0 <= #[trigger] h[v] by {
        lemma_count_nonneg(s, v);
    }
    lemma_otsu_rec_range(h, 254);
    lemma_otsu_rec_best(h, 254);
}

/// Binarization is idempotent: cutting an already black/white plane at its
/// own Otsu threshold returns it unchanged.
pub proof fn lemma_binarize_idempotent(s: Seq<u8>)
    ensures
        bin_of(bin_of(s)) == bin_of(s),
{
    let b = bin_of(s);
    let t2 = otsu_of(b);
    lemma_otsu_maximizes(b);
    assert(bin_map(b, t2) =~= b) by {
        assert(forall|i: int| 0 <= i < b.len() ==> b[i] == 255u8 || b[i] == 0u8);
    }
}

/// Histogram of a grayscale plane, as 256 counters.
fn histogram(data: &Vec<u8>) -> (h: Vec<u32>)
    requires
        data.len() <= 262144,
    ensures
        h.len() == 256,
        forall|v: int| 0 <= v < 256 ==> #[trigger] h[v] as int == hist_of(data@)[v],
        forall|v: int| 0 <= v < 256 ==> #[trigger] h[v] <= data.len(),
{
    let mut h: Vec<u32> = Vec::new();
    let mut v: usize = 0;
    while v < 256
        invariant
            h.len() == v,
            v <= 256,
            forall|u: int| 0 <= u < v ==> #[trigger] h[u] == 0,
        decreases 256 - v,
    {
        h.push(0);
        v += 1;
    }
    let mut i: usize = 0;
    while i < data.len()
        invariant
            h.len() == 256,
            i <= data.len(),
            data.len() <= 262144,
            forall|u: int| 0 <= u < 256 ==> #[trigger] h[u] as int == count_val(data@.take(i as int), u),
            forall|u: int| 0 <= u < 256 ==> #[trigger] h[u] <= i,
        decreases data.len() - i,
    {
        let b = data[i] as usize;
        let c = h[b];
        h.set(b, c + 1);
        proof {
            assert forall|u: int| 0 <= u < 256 implies #[trigger] h[u] as int == count_val(
                data@.take(i as int + 1),
                u,
            ) by {
                assert(data@.take(i as int + 1).drop_last() =~= data@.take(i as int));
                assert(data@.take(i as int + 1).last() == data@[i as int]);
                lemma_count_nonneg(data@.take(i as int), u);
            }
        }
        i += 1;
    }
    proof {
        assert(data@.take(data.len() as int) =~= data@);
    }
    h
}

/// The Otsu threshold of a grayscale plane: the first cut maximizing
/// between-class variance, compared exactly.
pub fn otsu_threshold(data: &Vec<u8>) -> (t: u8)
    requires
        1 <= data.len() <= 262144,
    ensures
        t as int == otsu_of(data@),
        t <= 254,
{
    let h = histogram(data);
    let ghost hs = hist_of(data@);
    proof {
        assert forall|v: int| 0 <= v < 256 implies 0 <= #[trigger] hs[v] by {
            lemma_count_nonneg(data@, v);
        }
        lemma_hist_total(data@);
    }
    // total pixel count and total intensity
    let mut n: u64 = 0;
    let mut s: u64 = 0;
    let mut v: usize = 0;
    while v < 256
        invariant
            h.len() == 256,
            v <= 256,
            data.len() <= 262144,
            forall|u: int| 0 <= u < 256 ==> #[trigger] h[u] as int == hs[u],
            forall|u: int| 0 <= u < 256 ==> #[trigger] h[u] <= data.len(),
            n as int == wsum(hs, v as int - 1),
            s as int == msum(hs, v as int - 1),
            n <= v * 262144,
            s <= 255 * n,
        decreases 256 - v,
    {
        let c = h[v] as u64;
        proof {
            assert((v as u64) * c <= 255 * 262144) by (nonlinear_arith)
                requires
                    v < 256,
                    c <= 262144,
            ;
            assert((v + 1) * 262144 == v * 262144 + 262144);
            assert((v as u64) * c <= 255 * c) by (nonlinear_arith)
                requires
                    v < 256,
                    0 <= c,
            ;
            assert((v as u64) * c as int == (v as int) * hs[v as int]);
        }
        n = n + c;
        s = s + (v as u64) * c;
        v += 1;
    }
    proof {
        assert(n as int == wsum(hs, 255) == data.len() as int);
        assert(s <= 255 * 262144);
    }
    let n_i = n as i64;
    let s_i = s as i64;
    // scan every cut, keeping the first best
    let cw0 = h[0] as u64;
    proof {
        assert(wsum(hs, -1) == 0 && msum(hs, -1) == 0);
        assert(h[0] as int == hs[0]);
        assert(cw0 as int == wsum(hs, 0));
        lemma_wsum_mono(hs, 0, 255);
        assert(s as int * cw0 as int <= (255 * 262144) * 262144) by (nonlinear_arith)
            requires
                s <= 255 * 262144,
                cw0 <= 262144,
        ;
        assert(cw0 * (n - cw0) <= 262144 * 262144) by (nonlinear_arith)
            requires
                cw0 <= n,
                n <= 262144,
        ;
    }
    let mut cw: u64 = cw0;
    let mut cm: u64 = 0;
    let mut best_t: usize = 0;
    let mut best_a: i64 = 0i64 - s_i * cw0 as i64;
    let mut best_b: u64 = cw0 * (n - cw0);
    proof {
        assert(msum(hs, -1) == 0);
        assert(msum(hs, 0) == 0);
        assert(best_a as int == bcv_num(hs, 0));
        assert(best_b as int == bcv_den(hs, 0));
    }
    let mut t: usize = 1;
    while t < 255
        invariant
            h.len() == 256,
            1 <= t <= 255,
            forall|u: int| 0 <= u < 256 ==> #[trigger] h[u] as int == hs[u],
            forall|u: int| 0 <= u < 256 ==> 0 <= #[trigger] hs[u],
            forall|u: int| 0 <= u < 256 ==> #[trigger] h[u] <= 262144,
            n as int == wsum(hs, 255),
            s as int == msum(hs, 255),
            n <= 262144,
            s <= 255 * 262144,
            n_i == n,
            s_i == s,
            cw as int == wsum(hs, t as int - 1),
            cm as int == msum(hs, t as int - 1),
            best_t as int == otsu_rec(hs, t as int - 1),
            best_t <= 254,
            best_a as int == bcv_num(hs, best_t as int),
            best_b as int == bcv_den(hs, best_t as int),
            best_b <= 0x20_0000_0000u64,
            -0x2000_0000_0000i64 <= best_a <= 0x2000_0000_0000i64,
        decreases 255 - t,
    {
        let c = h[t] as u64;
        proof {
            lemma_wsum_mono(hs, t as int - 1, 255);
            lemma_wsum_mono(hs, t as int, 255);
            lemma_wsum_mono(hs, t as int - 1, t as int);
            assert((t as u64) * c as int == (t as int) * hs[t as int]);
            assert((t as u64) * c <= 255 * 262144) by (nonlinear_arith)
                requires
                    t < 256,
                    c <= 262144,
            ;
        }
        cw = cw + c;
        cm = cm + (t as u64) * c;
        proof {
            assert(cw as int == wsum(hs, t as int) && cm as int == msum(hs, t as int));
            assert(cw <= n && cm <= s);
            assert(n as int * cm as int <= 262144 * (255 * 262144) && s as int * cw as int <= (255
                * 262144) * 262144) by (nonlinear_arith)
                requires
                    n <= 262144,
                    cm <= 255 * 262144,
                    s <= 255 * 262144,
                    cw <= 262144,
            ;
        }
        let a = n_i * cm as i64 - s_i * cw as i64;
        proof {
            assert(cw * (n - cw) <= 262144 * 262144) by (nonlinear_arith)
                requires
                    cw <= n,
                    n <= 262144,
            ;
        }
        let b = cw * (n - cw);
        proof {
            assert(a as int == bcv_num(hs, t as int) && b as int == bcv_den(hs, t as int));
        }
        let ghost prev = best_t as int;
        let keep = score_ge_exec(best_a, best_b, a, b);
        proof {
            assert(keep == bcv_ge(hs, prev, t as int));
        }
        if !keep {
            best_t = t;
            best_a = a;
            best_b = b;
        }
        proof {
            assert(best_t as int == otsu_rec(hs, t as int));
        }
        t += 1;
    }
    best_t as u8
}

/// Binarized copy of a frame: grayscale conversion followed by the cut at
/// the automatically chosen Otsu threshold. The `_thresh` argument is
/// accepted for callers that carry a fixed fallback threshold around, but
/// the automatic choice always supersedes it.
pub fn get_threshold_mat(mat: &Frame, _thresh: u8) -> (r: Frame)
    requires
        mat.wf(),
    ensures
        r.wf(),
        r.width == mat.width,
        r.height == mat.height,
        r.channels == 1,
        r.data@ == bin_of(mat@.gray_plane()),
{
    let gray = mat.to_gray();
    proof {
        assert(1 <= mat.height * mat.width <= 262144) by (nonlinear_arith)
            requires
                1 <= mat.width,
                1 <= mat.height,
                mat.width * mat.height <= 262144,
        ;
    }
    let t = otsu_threshold(&gray.data);
    let mut out: Vec<u8> = Vec::new();
    let mut i: usize = 0;
    while i < gray.data.len()
        invariant
            i <= gray.data.len(),
            out.len() == i,
            forall|k: int|
                0 <= k < i ==> out[k] == (if gray.data[k] > t {
                    255u8
                } else {
                    0u8
                }),
        decreases gray.data.len() - i,
    {
        let p = gray.data[i];
        if p > t {
            out.push(255);
        } else {
            out.push(0);
        }
        i += 1;
    }
    proof {
        assert(out@ =~= bin_map(gray.data@, t as int));
        assert(gray.width * gray.height * 1 == gray.data.len()) by (nonlinear_arith)
            requires
                gray.data.len() == gray.width * gray.height * 1,
        ;
    }
    Frame { width: gray.width, height: gray.height, channels: 1, data: out }
}

} // verus!
