//! Template localization by normalized cross-correlation, plus the fixed
//! half-scale downscaling that precedes it on the fast detection path.
//!
//! The NCC score at offset `(x, y)` is
//! `cross / sqrt(tpl_energy * win_energy)`; instead of taking the square
//! root, searches and threshold checks compare squared scores as exact
//! integer ratios, so the peak offset and every threshold decision are
//! bit-exact.

use vstd::prelude::*;
use crate::frame::Frame;
use crate::frame::FrameView;
use crate::frame::lemma_flat_index_bounds;
use crate::ratio::lemma_score_ge_total;
use crate::ratio::lemma_score_ge_trans;
use crate::ratio::score_ge;
use crate::ratio::score_ge_exec;
use crate::sums::all_in;
use crate::sums::icross;
use crate::sums::isumsq;
use crate::sums::lemma_icross_self;
use crate::sums::lemma_isumsq_bounds;
use crate::sums::lemma_isumsq_pos;
use vstd::arithmetic::div_mod::lemma_div_is_ordered;
use vstd::arithmetic::div_mod::lemma_fundamental_div_mod;
use vstd::arithmetic::div_mod::lemma_fundamental_div_mod_converse;

verus! {

/// The template's pixels as one row-major sample sequence.
pub open spec fn tplseq(t: FrameView) -> Seq<int> {
    Seq::new(
        (t.height * t.width) as nat,
        |k: int| t.px(k / t.width, k % t.width, 0),
    )
}

/// The scene pixels under the template placed at offset `(x, y)`.
pub open spec fn patch(s: FrameView, t: FrameView, x: int, y: int) -> Seq<int> {
    Seq::new(
        (t.height * t.width) as nat,
        |k: int| s.px(y + k / t.width, x + k % t.width, 0),
    )
}

/// The template's own energy `sum(T^2)`.
pub open spec fn tpl_energy(t: FrameView) -> int {
    isumsq(tplseq(t))
}

/// The correlation `sum(T * S)` at offset `(x, y)`.
pub open spec fn cross_at(s: FrameView, t: FrameView, x: int, y: int) -> int {
    icross(tplseq(t), patch(s, t, x, y))
}

/// The scene energy `sum(S^2)` under the window at `(x, y)`.
pub open spec fn win_energy_at(s: FrameView, t: FrameView, x: int, y: int) -> int {
    isumsq(patch(s, t, x, y))
}

/// Width of the result map: one column per valid horizontal offset.
pub open spec fn map_w(s: FrameView, t: FrameView) -> int {
    s.width - t.width + 1
}

/// Height of the result map.
pub open spec fn map_h(s: FrameView, t: FrameView) -> int {
    s.height - t.height + 1
}

/// Offset `k1` (flat, row-major over the result map) scores at least as
/// well as offset `k2`: squared NCC scores compared exactly. The common
/// template energy cancels.
pub open spec fn ncc_ge(s: FrameView, t: FrameView, k1: int, k2: int) -> bool {
    score_ge(
        cross_at(s, t, k1 % map_w(s, t), k1 / map_w(s, t)),
        win_energy_at(s, t, k1 % map_w(s, t), k1 / map_w(s, t)),
        cross_at(s, t, k2 % map_w(s, t), k2 / map_w(s, t)),
        win_energy_at(s, t, k2 % map_w(s, t), k2 / map_w(s, t)),
    )
}

/// The first offset among `0..=k` with maximal squared score.
pub open spec fn best_rec(s: FrameView, t: FrameView, k: int) -> int
    decreases k,
{
    if k <= 0 {
        0
    } else {
        let p = best_rec(s, t, k - 1);
        if ncc_ge(s, t, p, k) {
            p
        } else {
            k
        }
    }
}

/// The peak offset of the whole result map, first maximum in row-major
/// order.
pub open spec fn best_of(s: FrameView, t: FrameView) -> int {
    best_rec(s, t, map_h(s, t) * map_w(s, t) - 1)
}

/// The squared score `cross^2 / (tt * ss)` strictly exceeds `(num/den)^2`.
pub open spec fn ncc_exceeds(cross: int, tt: int, ss: int, num: int, den: int) -> bool {
    cross * cross * (den * den) > num * num * (tt * ss)
}

/// A located template: the peak offset and the exact quantities whose
/// ratio is the squared peak score.
#[derive(Clone, Copy, Debug)]
pub struct TemplateMatch {
    /// Horizontal offset of the peak.
    pub x: usize,
    /// Vertical offset of the peak.
    pub y: usize,
    /// Correlation `sum(T * S)` at the peak.
    pub cross: u64,
    /// Scene energy `sum(S^2)` under the peak window.
    pub win_energy: u64,
    /// Template energy `sum(T^2)`.
    pub tpl_energy: u64,
}

impl TemplateMatch {
    /// Whether the peak score strictly exceeds `num / den`, decided on the
    /// squared exact integers.
    pub fn exceeds(&self, num: u64, den: u64) -> (r: bool)
        requires
            1 <= den <= 1000,
            num <= 1000,
            self.cross <= 262144 * 65025,
            self.win_energy <= 262144 * 65025,
            self.tpl_energy <= 262144 * 65025,
        ensures
            r == ncc_exceeds(
                self.cross as int,
                self.tpl_energy as int,
                self.win_energy as int,
                num as int,
                den as int,
            ),
    {
        let c = self.cross as u128;
        let tt = self.tpl_energy as u128;
        let ss = self.win_energy as u128;
        let n = num as u128;
        let d = den as u128;
        proof {
            assert(c * c <= 17046430104128 * 17046430104128 && tt * ss <= 17046430104128
                * 17046430104128) by (nonlinear_arith)
                requires
                    c <= 17046430104128u128,
                    tt <= 17046430104128u128,
                    ss <= 17046430104128u128,
            ;
            assert(d * d <= 1000000 && n * n <= 1000000) by (nonlinear_arith)
                requires
                    d <= 1000,
                    n <= 1000,
            ;
            assert(c * c * (d * d) <= (17046430104128u128 * 17046430104128) * 1000000 && n * n * (
            tt * ss) <= 1000000 * (17046430104128u128 * 17046430104128)) by (nonlinear_arith)
                requires
                    c * c <= 17046430104128u128 * 17046430104128,
                    tt * ss <= 17046430104128u128 * 17046430104128,
                    d * d <= 1000000,
                    n * n <= 1000000,
            ;
        }
        c * c * (d * d) > n * n * (tt * ss)
    }
}

/// Correlation and window energy of one candidate offset.
fn patch_stats(s: &Frame, t: &Frame, x: usize, y: usize) -> (r: (u64, u64))
    requires
        s.wf(),
        t.wf(),
        s.channels == 1,
        t.channels == 1,
        x + t.width <= s.width,
        y + t.height <= s.height,
    ensures
        r.0 as int == cross_at(s@, t@, x as int, y as int),
        r.1 as int == win_energy_at(s@, t@, x as int, y as int),
        r.0 <= 262144 * 65025,
        r.1 <= 262144 * 65025,
{
    let ghost ts = tplseq(t@);
    let ghost ps = patch(s@, t@, x as int, y as int);
    let tw = t.width;
    let th = t.height;
    let sw = s.width;
    let sh = s.height;
    let tn = th * tw;
    proof {
        assert(th * tw <= 262144 && th * tw >= 1) by (nonlinear_arith)
            requires
                1 <= t.width,
                1 <= t.height,
                t.width * t.height <= 262144,
                th == t.height,
                tw == t.width,
        ;
        assert(ts.len() == tn && ps.len() == tn);
    }
    let mut c: u64 = 0;
    let mut e: u64 = 0;
    let mut j: usize = 0;
    while j < tn
        invariant
            s.wf(),
            t.wf(),
            s.channels == 1,
            t.channels == 1,
            tw == t.width && th == t.height && sw == s.width && sh == s.height,
            tn == th * tw <= 262144,
            x + tw <= sw,
            y + th <= sh,
            ts == tplseq(t@),
            ps == patch(s@, t@, x as int, y as int),
            j <= tn,
            c as int == icross(ts.take(j as int), ps.take(j as int)),
            e as int == isumsq(ps.take(j as int)),
            c <= j * 65025,
            e <= j * 65025,
        decreases tn - j,
    {
        let tr = j / tw;
        let tc = j % tw;
        proof {
            lemma_fundamental_div_mod(j as int, tw as int);
            assert(tn as int - 1 == (th as int - 1) * (tw as int) + (tw as int - 1))
                by (nonlinear_arith)
                requires
                    tn as int == (th as int) * (tw as int),
                    1 <= tw,
                    1 <= th,
            ;
            lemma_fundamental_div_mod_converse(
                tn as int - 1,
                tw as int,
                th as int - 1,
                tw as int - 1,
            );
            lemma_div_is_ordered(j as int, tn as int - 1, tw as int);
            assert(tr < th && tc < tw);
            assert(tr * tw == tw * tr) by (nonlinear_arith);
            lemma_flat_index_bounds(tr as int, tc as int, tw as int, th as int, 1);
            assert((tr * tw + tc) * 1 == tr * tw + tc);
            assert(tr * tw + tc == j);
            lemma_flat_index_bounds((y + tr) as int, (x + tc) as int, sw as int, sh as int, 1);
        }
        let tv = t.data[j] as u64;
        let sv = s.data[(y + tr) * sw + (x + tc)] as u64;
        proof {
            assert(ts[j as int] == tv as int && ps[j as int] == sv as int);
            assert(ts.take(j as int + 1).drop_last() =~= ts.take(j as int));
            assert(ps.take(j as int + 1).drop_last() =~= ps.take(j as int));
            assert(ts.take(j as int + 1).last() == ts[j as int]);
            assert(ps.take(j as int + 1).last() == ps[j as int]);
            assert(tv * sv <= 65025 && sv * sv <= 65025) by (nonlinear_arith)
                requires
                    tv <= 255,
                    sv <= 255,
            ;
            assert((j + 1) * 65025 == j * 65025 + 65025);
        }
        c = c + tv * sv;
        e = e + sv * sv;
        j += 1;
    }
    proof {
        assert(ts.take(tn as int) =~= ts);
        assert(ps.take(tn as int) =~= ps);
        assert(tn * 65025 <= 262144 * 65025) by (nonlinear_arith)
            requires
                tn <= 262144,
        ;
    }
    (c, e)
}

/// Every window energy in the result map is nonnegative.
proof fn lemma_energy_nonneg(s: FrameView, t: FrameView, k: int)
    ensures
        win_energy_at(s, t, k % map_w(s, t), k / map_w(s, t)) >= 0,
{
    let ps = patch(s, t, k % map_w(s, t), k / map_w(s, t));
    assert(all_in(ps, 0, 255)) by {
        assert(forall|i: int| 0 <= i < ps.len() ==> 0 <= #[trigger] ps[i] <= 255);
    }
    lemma_isumsq_bounds(ps, 255);
}

proof fn lemma_best_rec_range(s: FrameView, t: FrameView, k: int)
    ensures
        0 <= best_rec(s, t, k),
        best_rec(s, t, k) <= k || best_rec(s, t, k) == 0,
    decreases k,
{
    if k > 0 {
        lemma_best_rec_range(s, t, k - 1);
    }
}

proof fn lemma_best_rec_best(s: FrameView, t: FrameView, k: int)
    requires
        0 <= k,
    ensures
        forall|k2: int| 0 <= k2 <= k ==> ncc_ge(s, t, best_rec(s, t, k), k2),
    decreases k,
{
    lemma_best_rec_range(s, t, k);
    let w1 = best_rec(s, t, k);
    if k == 0 {
        lemma_energy_nonneg(s, t, 0);
        lemma_score_ge_total(
            cross_at(s, t, 0int % map_w(s, t), 0int / map_w(s, t)),
            win_energy_at(s, t, 0int % map_w(s, t), 0int / map_w(s, t)),
            cross_at(s, t, 0int % map_w(s, t), 0int / map_w(s, t)),
            win_energy_at(s, t, 0int % map_w(s, t), 0int / map_w(s, t)),
        );
    } else {
        lemma_best_rec_best(s, t, k - 1);
        let p = best_rec(s, t, k - 1);
        lemma_best_rec_range(s, t, k - 1);
        lemma_energy_nonneg(s, t, p);
        lemma_energy_nonneg(s, t, k);
        if ncc_ge(s, t, p, k) {
        } else {
            lemma_score_ge_total(
                cross_at(s, t, p % map_w(s, t), p / map_w(s, t)),
                win_energy_at(s, t, p % map_w(s, t), p / map_w(s, t)),
                cross_at(s, t, k % map_w(s, t), k / map_w(s, t)),
                win_energy_at(s, t, k % map_w(s, t), k / map_w(s, t)),
            );
            assert(ncc_ge(s, t, k, p));
            assert forall|k2: int| 0 <= k2 <= k implies ncc_ge(s, t, best_rec(s, t, k), k2) by {
                if k2 < k {
                    lemma_energy_nonneg(s, t, k2);
                    assert(ncc_ge(s, t, p, k2));
                    lemma_score_ge_trans(
                        cross_at(s, t, k % map_w(s, t), k / map_w(s, t)),
                        win_energy_at(s, t, k % map_w(s, t), k / map_w(s, t)),
                        cross_at(s, t, p % map_w(s, t), p / map_w(s, t)),
                        win_energy_at(s, t, p % map_w(s, t), p / map_w(s, t)),
                        cross_at(s, t, k2 % map_w(s, t), k2 / map_w(s, t)),
                        win_energy_at(s, t, k2 % map_w(s, t), k2 / map_w(s, t)),
                    );
                } else {
                    lemma_score_ge_total(
                        cross_at(s, t, k % map_w(s, t), k / map_w(s, t)),
                        win_energy_at(s, t, k % map_w(s, t), k / map_w(s, t)),
                        cross_at(s, t, k % map_w(s, t), k / map_w(s, t)),
                        win_energy_at(s, t, k % map_w(s, t), k / map_w(s, t)),
                    );
                }
            }
        }
    }
}

/// The returned offset maximizes the squared NCC score over the whole
/// result map.
pub proof fn lemma_match_maximizes(s: FrameView, t: FrameView)
    requires
        t.width <= s.width,
        t.height <= s.height,
        1 <= map_h(s, t) * map_w(s, t),
    ensures
        0 <= best_of(s, t) < map_h(s, t) * map_w(s, t),
        forall|k2: int|
            0 <= k2 < map_h(s, t) * map_w(s, t) ==> ncc_ge(s, t, best_of(s, t), k2),
{
    lemma_best_rec_range(s, t, map_h(s, t) * map_w(s, t) - 1);
    lemma_best_rec_best(s, t, map_h(s, t) * map_w(s, t) - 1);
}

/// Locates `tpl` inside `scene` (both grayscale) by normalized
/// cross-correlation: the result is the first offset, row-major, whose
/// squared score is maximal, together with the exact score quantities.
/// `None` exactly when the template does not fit into the scene.
pub fn match_template(scene: &Frame, tpl: &Frame) -> (r: Option<TemplateMatch>)
    requires
        scene.wf(),
        tpl.wf(),
        scene.channels == 1,
        tpl.channels == 1,
    ensures
        r is Some <==> (tpl.width <= scene.width && tpl.height <= scene.height),
        r matches Some(m) ==> {
            &&& m.x as int == best_of(scene@, tpl@) % map_w(scene@, tpl@)
            &&& m.y as int == best_of(scene@, tpl@) / map_w(scene@, tpl@)
            &&& m.x as int + tpl.width <= scene.width
            &&& m.y as int + tpl.height <= scene.height
            &&& m.cross as int == cross_at(scene@, tpl@, m.x as int, m.y as int)
            &&& m.win_energy as int == win_energy_at(scene@, tpl@, m.x as int, m.y as int)
            &&& m.tpl_energy as int == tpl_energy(tpl@)
            &&& m.cross <= 262144 * 65025
            &&& m.win_energy <= 262144 * 65025
            &&& m.tpl_energy <= 262144 * 65025
        },
{
    if tpl.width > scene.width || tpl.height > scene.height {
        return None;
    }
    let sw = scene.width;
    let sh = scene.height;
    let tw = tpl.width;
    let th = tpl.height;
    let mw = sw - tw + 1;
    let mh = sh - th + 1;
    let ghost gmw = map_w(scene@, tpl@);
    proof {
        assert(mh * mw >= 1 && mh * mw <= 262144) by (nonlinear_arith)
            requires
                1 <= mw,
                mw <= sw,
                1 <= mh,
                mh <= sh,
                sw * sh <= 262144,
        ;
    }
    let mcount = mh * mw;
    // the template's own energy: the window over itself at the origin
    let (_self_cross, tt) = patch_stats(tpl, tpl, 0, 0);
    proof {
        assert(patch(tpl@, tpl@, 0, 0) =~= tplseq(tpl@));
        assert(tt as int == tpl_energy(tpl@));
    }
    let (c0, e0) = patch_stats(scene, tpl, 0, 0);
    let mut bk: usize = 0;
    let mut bx: usize = 0;
    let mut by: usize = 0;
    let mut bc: u64 = c0;
    let mut be: u64 = e0;
    proof {
        assert(0int % gmw == 0 && 0int / gmw == 0) by (nonlinear_arith)
            requires
                gmw >= 1,
        ;
    }
    let mut k: usize = 1;
    while k < mcount
        invariant
            scene.wf(),
            tpl.wf(),
            scene.channels == 1,
            tpl.channels == 1,
            sw == scene.width && sh == scene.height && tw == tpl.width && th == tpl.height,
            tw <= sw && th <= sh,
            mw == sw - tw + 1 && mh == sh - th + 1,
            gmw == map_w(scene@, tpl@),
            gmw == mw,
            mcount == mh * mw <= 262144,
            1 <= k <= mcount,
            bk < k,
            bk as int == best_rec(scene@, tpl@, k as int - 1),
            bx as int == bk as int % gmw,
            by as int == bk as int / gmw,
            bc as int == cross_at(scene@, tpl@, bx as int, by as int),
            be as int == win_energy_at(scene@, tpl@, bx as int, by as int),
            bc <= 262144 * 65025,
            be <= 262144 * 65025,
        decreases mcount - k,
    {
        let x = k % mw;
        let y = k / mw;
        proof {
            lemma_fundamental_div_mod(k as int, mw as int);
            assert(mcount as int - 1 == (mh as int - 1) * (mw as int) + (mw as int - 1))
                by (nonlinear_arith)
                requires
                    mcount as int == (mh as int) * (mw as int),
                    1 <= mw,
                    1 <= mh,
            ;
            lemma_fundamental_div_mod_converse(
                mcount as int - 1,
                mw as int,
                mh as int - 1,
                mw as int - 1,
            );
            lemma_div_is_ordered(k as int, mcount as int - 1, mw as int);
            assert(y < mh && x < mw);
        }
        let (c, e) = patch_stats(scene, tpl, x, y);
        let ghost prev = bk as int;
        let keep = score_ge_exec(bc as i64, be, c as i64, e);
        proof {
            assert(keep == ncc_ge(scene@, tpl@, prev, k as int));
        }
        if !keep {
            bk = k;
            bx = x;
            by = y;
            bc = c;
            be = e;
        }
        proof {
            assert(bk as int == best_rec(scene@, tpl@, k as int));
        }
        k += 1;
    }
    proof {
        lemma_best_rec_range(scene@, tpl@, mcount as int - 1);
        assert(bx as int + tw <= sw && by as int + th <= sh) by (nonlinear_arith)
            requires
                bx as int == bk as int % gmw,
                by as int == bk as int / gmw,
                0 <= bk as int,
                (bk as int) < (mh as int) * gmw,
                gmw == mw,
                mw as int == sw - tw + 1,
                mh as int == sh - th + 1,
                gmw >= 1,
        ;
    }
    Some(TemplateMatch { x: bx, y: by, cross: bc, win_energy: be, tpl_energy: tt })
}

/// Matching a frame inside itself: the result map is a single cell at the
/// origin whose correlation, window energy and template energy coincide,
/// so the squared score is exactly 1 whenever the frame has any nonzero
/// pixel.
pub proof fn lemma_match_self(t: FrameView)
    requires
        1 <= t.width,
        1 <= t.height,
    ensures
        map_w(t, t) == 1,
        map_h(t, t) == 1,
        best_of(t, t) == 0,
        cross_at(t, t, 0, 0) == tpl_energy(t),
        win_energy_at(t, t, 0, 0) == tpl_energy(t),
        (exists|i: int| 0 <= i < tplseq(t).len() && tplseq(t)[i] != 0) ==> cross_at(t, t, 0, 0)
            > 0,
{
    assert(patch(t, t, 0, 0) =~= tplseq(t));
    lemma_icross_self(tplseq(t));
    if exists|i: int| 0 <= i < tplseq(t).len() && tplseq(t)[i] != 0 {
        let i = choose|i: int| 0 <= i < tplseq(t).len() && tplseq(t)[i] != 0;
        lemma_isumsq_pos(tplseq(t), i);
    }
}

/// One downscaled pixel: the rounded mean of the 2x2 source block.
pub open spec fn half_px(f: FrameView, r: int, c: int) -> int {
    (f.px(2 * r, 2 * c, 0) + f.px(2 * r, 2 * c + 1, 0) + f.px(2 * r + 1, 2 * c, 0) + f.px(
        2 * r + 1,
        2 * c + 1,
        0,
    ) + 2) / 4
}

/// The half-scale plane, row-major; odd trailing rows and columns fall
/// away.
pub open spec fn half_plane(f: FrameView) -> Seq<u8> {
    Seq::new(
        ((f.height / 2) * (f.width / 2)) as nat,
        |k: int| half_px(f, k / (f.width / 2), k % (f.width / 2)) as u8,
    )
}

/// Downscale a grayscale frame by exactly 2 in each direction, each output
/// pixel the rounded mean of its 2x2 source block (the linear
/// interpolation kernel at half scale).
pub fn downscale_half(f: &Frame) -> (g: Frame)
    requires
        f.wf(),
        f.channels == 1,
        2 <= f.width,
        2 <= f.height,
    ensures
        g.wf(),
        g.channels == 1,
        g.width == f.width / 2,
        g.height == f.height / 2,
        g.data@ == half_plane(f@),
{
    let w = f.width;
    let h = f.height;
    let w2 = w / 2;
    let h2 = h / 2;
    proof {
        lemma_fundamental_div_mod(w as int, 2);
        lemma_fundamental_div_mod(h as int, 2);
        assert(w2 * h2 <= w * h && 1 <= w2 * h2) by (nonlinear_arith)
            requires
                1 <= w2 as int <= w as int,
                1 <= h2 as int <= h as int,
        ;
    }
    let mut out: Vec<u8> = Vec::new();
    let mut r: usize = 0;
    while r < h2
        invariant
            f.wf(),
            f.channels == 1,
            w == f.width && h == f.height,
            w2 == w / 2 && h2 == h / 2,
            1 <= w2 && 1 <= h2,
            r <= h2,
            out.len() == r * w2,
            forall|k: int|
                0 <= k < r * w2 ==> out[k] == half_px(f@, k / w2 as int, k % w2 as int) as u8,
        decreases h2 - r,
    {
        let mut c: usize = 0;
        while c < w2
            invariant
                f.wf(),
                f.channels == 1,
                w == f.width && h == f.height,
                w2 == w / 2 && h2 == h / 2,
                1 <= w2 && 1 <= h2,
                r < h2,
                c <= w2,
                out.len() == r * w2 + c,
                forall|k: int|
                    0 <= k < r * w2 + c ==> out[k] == half_px(f@, k / w2 as int, k % w2 as int) as u8,
            decreases w2 - c,
        {
            proof {
                lemma_fundamental_div_mod(w as int, 2);
                lemma_fundamental_div_mod(h as int, 2);
                assert(2 * r + 1 < h && 2 * c + 1 < w) by (nonlinear_arith)
                    requires
                        r < h2,
                        c < w2,
                        2 * (h2 as int) <= h as int,
                        2 * (w2 as int) <= w as int,
                ;
                lemma_flat_index_bounds(2 * r as int, 2 * c as int, w as int, h as int, 1);
                lemma_flat_index_bounds(
                    2 * r as int + 1,
                    2 * c as int + 1,
                    w as int,
                    h as int,
                    1,
                );
                lemma_flat_index_bounds(2 * r as int, 2 * c as int + 1, w as int, h as int, 1);
                lemma_flat_index_bounds(2 * r as int + 1, 2 * c as int, w as int, h as int, 1);
            }
            let p00 = f.data[(2 * r) * w + 2 * c] as u32;
            let p01 = f.data[(2 * r) * w + 2 * c + 1] as u32;
            let p10 = f.data[(2 * r + 1) * w + 2 * c] as u32;
            let p11 = f.data[(2 * r + 1) * w + 2 * c + 1] as u32;
            let v = (p00 + p01 + p10 + p11 + 2) / 4;
            proof {
                assert(v <= 255);
                assert(v as int == half_px(f@, r as int, c as int));
                crate::frame::lemma_row_major_unique(r as int, c as int, w2 as int);
            }
            out.push(v as u8);
            c += 1;
        }
        r += 1;
        proof {
            assert(r * w2 == (r - 1) * w2 + w2) by (nonlinear_arith);
        }
    }
    proof {
        assert(out@ =~= half_plane(f@));
        assert((h2 * w2) * 1 == w2 * h2 && w2 * h2 <= 262144) by (nonlinear_arith)
            requires
                h2 as int * w2 as int >= 1,
                w2 as int <= w as int,
                h2 as int <= h as int,
                w as int * h as int <= 262144,
                1 <= w as int,
                1 <= h as int,
        ;
    }
    Frame { width: w2, height: h2, channels: 1, data: out }
}

/// The quick-time-event detection step: downscale the captured region to
/// half size, locate the icon template, and accept only a peak whose NCC
/// score strictly exceeds 99/100. Returns the downscaled frame (the caller
/// persists it on a confirmed detection) and the accepted match, if any.
pub fn detect_qte(scene: &Frame, tpl: &Frame) -> (r: (Frame, Option<TemplateMatch>))
    requires
        scene.wf(),
        tpl.wf(),
        scene.channels == 1,
        tpl.channels == 1,
        2 <= scene.width,
        2 <= scene.height,
    ensures
        r.0.wf(),
        r.0.channels == 1,
        r.0.width == scene.width / 2,
        r.0.height == scene.height / 2,
        r.0.data@ == half_plane(scene@),
        r.1 is Some <==> (tpl.width <= scene.width / 2 && tpl.height <= scene.height / 2
            && ncc_exceeds(
            cross_at(
                r.0@,
                tpl@,
                best_of(r.0@, tpl@) % map_w(r.0@, tpl@),
                best_of(r.0@, tpl@) / map_w(r.0@, tpl@),
            ),
            tpl_energy(tpl@),
            win_energy_at(
                r.0@,
                tpl@,
                best_of(r.0@, tpl@) % map_w(r.0@, tpl@),
                best_of(r.0@, tpl@) / map_w(r.0@, tpl@),
            ),
            99,
            100,
        )),
        r.1 matches Some(m) ==> {
            &&& m.x as int == best_of(r.0@, tpl@) % map_w(r.0@, tpl@)
            &&& m.y as int == best_of(r.0@, tpl@) / map_w(r.0@, tpl@)
            &&& m.cross as int == cross_at(r.0@, tpl@, m.x as int, m.y as int)
            &&& m.win_energy as int == win_energy_at(r.0@, tpl@, m.x as int, m.y as int)
            &&& m.tpl_energy as int == tpl_energy(tpl@)
        },
{
    let half = downscale_half(scene);
    let found = match_template(&half, tpl);
    match found {
        None => (half, None),
        Some(m) => {
            if m.exceeds(99, 100) {
                (half, Some(m))
            } else {
                (half, None)
            }
        },
    }
}

} // verus!
