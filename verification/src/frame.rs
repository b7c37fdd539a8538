//! Pixel buffers as the similarity engine sees them: a flat byte vector with
//! explicit dimensions and channel count (1 = grayscale, 3 = BGR, 4 = BGRA),
//! plus the fixed-point grayscale conversion every comparison starts from.

use vstd::prelude::*;

verus! {

/// Largest pixel count (width times height) a frame may hold. Keeps every
/// intermediate of the similarity algorithms inside 128-bit arithmetic; the
/// fixed capture regions are far below it.
pub const MAX_PIXELS: usize = 262144;

/// A 2-D pixel buffer in row-major order, `channels` bytes per pixel.
pub struct Frame {
    pub width: usize,
    pub height: usize,
    pub channels: usize,
    pub data: Vec<u8>,
}

/// The mathematical model of a frame: its geometry and its bytes.
pub struct FrameView {
    pub width: int,
    pub height: int,
    pub channels: int,
    pub data: Seq<u8>,
}

impl View for Frame {
    type V = FrameView;

    open spec fn view(&self) -> FrameView {
        FrameView {
            width: self.width as int,
            height: self.height as int,
            channels: self.channels as int,
            data: self.data@,
        }
    }
}

impl FrameView {
    /// Well-formed frames: a supported channel count, nonempty dimensions
    /// within `MAX_PIXELS`, and a buffer of exactly the advertised size.
    pub open spec fn wf(self) -> bool {
        &&& (self.channels == 1 || self.channels == 3 || self.channels == 4)
        &&& 1 <= self.width
        &&& 1 <= self.height
        &&& self.width * self.height <= MAX_PIXELS
        &&& self.data.len() == self.width * self.height * self.channels
    }

    /// Channel `ch` of the pixel at row `r`, column `c`.
    pub open spec fn px(self, r: int, c: int, ch: int) -> int {
        self.data[(r * self.width + c) * self.channels + ch] as int
    }

    /// Grayscale value of the pixel at row `r`, column `c`: the stored byte
    /// for single-channel frames, the BT.601 luminance otherwise.
    pub open spec fn gray_at(self, r: int, c: int) -> int {
        if self.channels == 1 {
            self.px(r, c, 0)
        } else {
            luma(self.px(r, c, 0), self.px(r, c, 1), self.px(r, c, 2))
        }
    }

    /// The whole grayscale plane, row-major.
    pub open spec fn gray_plane(self) -> Seq<u8> {
        Seq::new(
            (self.height * self.width) as nat,
            |k: int| self.gray_at(k / self.width, k % self.width) as u8,
        )
    }
}

/// Integer luminance of one BGR pixel: the usual BT.601 weights in 14-bit
/// fixed point, so the result is exact, deterministic and in `0..=255`.
pub open spec fn luma(b: int, g: int, r: int) -> int {
    (1868 * b + 9617 * g + 4899 * r + 8192) / 16384
}

impl Frame {
    /// Well-formedness, stated on the view.
    pub open spec fn wf(self) -> bool {
        self@.wf()
    }

    /// Builds a frame after checking every well-formedness condition, so
    /// callers outside the library can only obtain well-formed frames.
    pub fn from_data(width: usize, height: usize, channels: usize, data: Vec<u8>) -> (r: Option<
        Frame,
    >)
        ensures
            match r {
                Some(f) => {
                    &&& f.wf()
                    &&& f.width == width
                    &&& f.height == height
                    &&& f.channels == channels
                    &&& f.data == data
                },
                None => !(Frame {
                    width,
                    height,
                    channels,
                    data,
                }).wf(),
            },
    {
        if !(channels == 1 || channels == 3 || channels == 4) {
            return None;
        }
        if width < 1 || height < 1 || width > MAX_PIXELS || height > MAX_PIXELS {
            proof {
                if 1 <= width && 1 <= height {
                    assert(width <= width * height && height <= width * height)
                        by (nonlinear_arith)
                        requires
                            1 <= width,
                            1 <= height,
                    ;
                }
            }
            return None;
        }
        proof {
            assert((width as u64) * (height as u64) <= 262144 * 262144) by (nonlinear_arith)
                requires
                    width <= 262144,
                    height <= 262144,
            ;
        }
        let pixels: u64 = (width as u64) * (height as u64);
        if pixels > MAX_PIXELS as u64 {
            return None;
        }
        proof {
            assert(pixels * (channels as u64) <= 262144 * 4) by (nonlinear_arith)
                requires
                    pixels <= 262144,
                    channels <= 4,
            ;
        }
        if (data.len() as u64) != pixels * (channels as u64) {
            return None;
        }
        Some(Frame { width, height, channels, data })
    }

    /// Grayscale copy of this frame: single-channel, same dimensions, each
    /// pixel the exact `gray_at` value.
    pub fn to_gray(&self) -> (g: Frame)
        requires
            self.wf(),
        ensures
            g.wf(),
            g.channels == 1,
            g.width == self.width,
            g.height == self.height,
            g.data@ == self@.gray_plane(),
    {
        let w = self.width;
        let h = self.height;
        let ch = self.channels;
        let mut out: Vec<u8> = Vec::new();
        let mut r: usize = 0;
        while r < h
            invariant
                self.wf(),
                w == self.width,
                h == self.height,
                ch == self.channels,
                r <= h,
                out.len() == r * w,
                forall|k: int|
                    0 <= k < r * w ==> out[k] == self@.gray_at(
                        k / w as int,
                        k % w as int,
                    ) as u8,
            decreases h - r,
        {
            let mut c: usize = 0;
            while c < w
                invariant
                    self.wf(),
                    w == self.width,
                    h == self.height,
                    ch == self.channels,
                    r < h,
                    c <= w,
                    out.len() == r * w + c,
                    forall|k: int|
                        0 <= k < r * w + c ==> out[k] == self@.gray_at(
                            k / w as int,
                            k % w as int,
                        ) as u8,
                decreases w - c,
            {
                proof {
                    lemma_flat_index_bounds(r as int, c as int, w as int, h as int, ch as int);
                    assert(self.data.len() == w * h * ch);
                }
                let base = (r * w + c) * ch;
                let v: u8 = if ch == 1 {
                    self.data[base]
                } else {
                    let b = self.data[base] as u32;
                    let gg = self.data[base + 1] as u32;
                    let rr = self.data[base + 2] as u32;
                    let num: u32 = 1868 * b + 9617 * gg + 4899 * rr + 8192;
                    let q: u32 = num / 16384;
                    proof {
                        assert(num <= 16384 * 255 + 8192);
                        assert(q <= 255) by (nonlinear_arith)
                            requires
                                q == num / 16384,
                                num <= 16384 * 255 + 8192,
                        ;
                    }
                    q as u8
                };
                proof {
                    assert(v == self@.gray_at(r as int, c as int) as u8);
                    lemma_row_major_unique(r as int, c as int, w as int);
                }
                out.push(v);
                c += 1;
            }
            r += 1;
            proof {
                assert(r * w == (r - 1) * w + w) by (nonlinear_arith);
            }
        }
        proof {
            assert(out@ =~= self@.gray_plane());
            assert(w * h * 1 == h * w) by (nonlinear_arith);
        }
        Frame { width: w, height: h, channels: 1, data: out }
    }
}

/// A single-channel frame's grayscale plane is its own byte buffer.
pub proof fn lemma_gray_plane_identity(f: FrameView)
    requires
        f.channels == 1,
        1 <= f.width,
        f.data.len() == f.height * f.width,
    ensures
        f.gray_plane() == f.data,
{
    assert forall|k: int| 0 <= k < f.data.len() implies f.gray_plane()[k] == f.data[k] by {
        vstd::arithmetic::div_mod::lemma_fundamental_div_mod(k, f.width);
        assert((k / f.width) * f.width == f.width * (k / f.width)) by (nonlinear_arith);
        assert(((k / f.width) * f.width + k % f.width) * 1 + 0 == k);
    }
    assert(f.gray_plane() =~= f.data);
}

/// The flat index of channel `ch` at `(r, c)` lies inside the data buffer.
pub(crate) proof fn lemma_flat_index_bounds(r: int, c: int, w: int, h: int, ch: int)
    requires
        0 <= r < h,
        0 <= c < w,
        1 <= ch,
    ensures
        0 <= r * w + c < w * h,
        0 <= (r * w + c) * ch,
        (r * w + c) * ch + (ch - 1) < w * h * ch,
{
    assert(0 <= r * w + c < w * h && 0 <= (r * w + c) * ch && (r * w + c) * ch + (ch - 1) < w * h
        * ch) by (nonlinear_arith)
        requires
            0 <= r < h,
            0 <= c < w,
            1 <= ch,
    ;
}

/// Row-major flattening is invertible: `k = r * w + c` decomposes back into
/// row `r` and column `c`.
pub(crate) proof fn lemma_row_major_unique(r: int, c: int, w: int)
    requires
        0 <= r,
        0 <= c < w,
    ensures
        (r * w + c) / w == r,
        (r * w + c) % w == c,
{
    vstd::arithmetic::div_mod::lemma_fundamental_div_mod_converse(r * w + c, w, r, c);
}

} // verus!
