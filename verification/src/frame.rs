//! Raster frames as plain pixel buffers, and the pixel operations the
//! compositor is built from.
//!
//! A frame is a row-major buffer of 32-bit pixels in ARGB order (alpha
//! in the top byte), the layout the image engine hands out. Scaling is
//! deterministic nearest-neighbor — chosen for speed and pixel-art
//! fidelity over smoothing — and layering is straight-alpha "source
//! over" in exact integer arithmetic.

use vstd::arithmetic::div_mod::lemma_div_multiples_vanish;
use vstd::arithmetic::mul::{
    lemma_mul_inequality, lemma_mul_strict_inequality, lemma_mul_upper_bound,
};
use vstd::prelude::*;

verus! {

/// A raster image: `width * height` pixels, row-major, ARGB.
#[derive(Clone, Debug)]
pub struct FrameBuffer {
    pub width: usize,
    pub height: usize,
    pub data: Vec<u32>,
}

/// The alpha channel of an ARGB pixel.
pub open spec fn alpha_of(p: u32) -> u32 {
    (p >> 24) & 0xff
}

/// The red channel of an ARGB pixel.
pub open spec fn red_of(p: u32) -> u32 {
    (p >> 16) & 0xff
}

/// The green channel of an ARGB pixel.
pub open spec fn green_of(p: u32) -> u32 {
    (p >> 8) & 0xff
}

/// The blue channel of an ARGB pixel.
pub open spec fn blue_of(p: u32) -> u32 {
    p & 0xff
}

/// A pixel is opaque when its alpha channel is at full scale.
pub open spec fn is_opaque(p: u32) -> bool {
    alpha_of(p) == 255
}

/// A pixel is fully transparent when its alpha channel is zero.
pub open spec fn is_transparent(p: u32) -> bool {
    alpha_of(p) == 0
}

/// An ARGB pixel assembled from channel values below 256.
pub open spec fn pack_argb(a: int, r: int, g: int, b: int) -> u32 {
    (a * 0x100_0000 + r * 0x1_0000 + g * 0x100 + b) as u32
}

/// Every channel is a byte.
pub proof fn lemma_channels_are_bytes(p: u32)
    ensures
        alpha_of(p) < 256,
        red_of(p) < 256,
        green_of(p) < 256,
        blue_of(p) < 256,
{
    assert((p >> 24) & 0xff < 256 && (p >> 16) & 0xff < 256 && (p >> 8) & 0xff < 256 && p & 0xff
        < 256) by (bit_vector);
}

/// A pixel equals its channels reassembled.
pub proof fn lemma_pack_unpack(p: u32)
    ensures
        pack_argb(
            alpha_of(p) as int,
            red_of(p) as int,
            green_of(p) as int,
            blue_of(p) as int,
        ) == p,
{
    assert(((p >> 24) & 0xff) * 0x100_0000 + ((p >> 16) & 0xff) * 0x1_0000 + ((p >> 8) & 0xff)
        * 0x100 + (p & 0xff) == p) by (bit_vector);
    assert(((p >> 24) & 0xff) < 256 && ((p >> 16) & 0xff) < 256 && ((p >> 8) & 0xff) < 256 && (p
        & 0xff) < 256) by (bit_vector);
}

/// Straight-alpha "source over" of `top` onto `bottom`, per channel, in
/// exact integer arithmetic. A fully transparent top pixel leaves the
/// bottom pixel unchanged; an opaque top pixel replaces it.
pub open spec fn spec_blend(bottom: u32, top: u32) -> u32 {
    let at = alpha_of(top) as int;
    let ab = alpha_of(bottom) as int;
    if at == 0 {
        bottom
    } else {
        let wt = at * 255;
        let wb = ab * (255 - at);
        let ws = wt + wb;
        pack_argb(
            ws / 255,
            (red_of(top) * wt + red_of(bottom) * wb) / ws,
            (green_of(top) * wt + green_of(bottom) * wb) / ws,
            (blue_of(top) * wt + blue_of(bottom) * wb) / ws,
        )
    }
}

/// An opaque top pixel wins outright.
pub proof fn lemma_blend_opaque(bottom: u32, top: u32)
    requires
        is_opaque(top),
    ensures
        spec_blend(bottom, top) == top,
{
    lemma_channels_are_bytes(top);
    let at = alpha_of(top) as int;
    assert(at == 255);
    assert((alpha_of(bottom) as int) * (255 - at) == 0);
    assert(at * 255 == 65025);
    assert((65025int) / 255 == 255);
    assert((red_of(top) * (255 * 255int)) / (255 * 255int) == red_of(top)) by {
        lemma_div_multiples_vanish(red_of(top) as int, 255 * 255int);
    }
    assert((green_of(top) * (255 * 255int)) / (255 * 255int) == green_of(top)) by {
        lemma_div_multiples_vanish(green_of(top) as int, 255 * 255int);
    }
    assert((blue_of(top) * (255 * 255int)) / (255 * 255int) == blue_of(top)) by {
        lemma_div_multiples_vanish(blue_of(top) as int, 255 * 255int);
    }
    lemma_pack_unpack(top);
    assert(spec_blend(bottom, top) == pack_argb(
        255,
        red_of(top) as int,
        green_of(top) as int,
        blue_of(top) as int,
    ));
}

/// A fully transparent top pixel changes nothing.
pub proof fn lemma_blend_transparent(bottom: u32, top: u32)
    requires
        is_transparent(top),
    ensures
        spec_blend(bottom, top) == bottom,
{
}

/// Blend `top` over `bottom`.
pub fn blend(bottom: u32, top: u32) -> (r: u32)
    ensures
        r == spec_blend(bottom, top),
{
    proof {
        lemma_channels_are_bytes(bottom);
        lemma_channels_are_bytes(top);
    }
    let at: u32 = (top >> 24) & 0xff;
    if at == 0 {
        return bottom;
    }
    let ab: u32 = (bottom >> 24) & 0xff;
    let wt: u32 = at * 255;
    proof {
        lemma_mul_upper_bound(ab as int, 255, (255 - at) as int, 255);
        lemma_mul_inequality(ab as int, 255, (255 - at) as int);
    }
    let wb: u32 = ab * (255 - at);
    let ws: u32 = wt + wb;
    assert(255 <= ws <= 65025);
    let rt: u32 = (top >> 16) & 0xff;
    let rb: u32 = (bottom >> 16) & 0xff;
    let gt: u32 = (top >> 8) & 0xff;
    let gb: u32 = (bottom >> 8) & 0xff;
    let bt: u32 = top & 0xff;
    let bb: u32 = bottom & 0xff;
    proof {
        lemma_mul_upper_bound(rt as int, 255, wt as int, 65025);
        lemma_mul_upper_bound(rb as int, 255, wb as int, 65025);
        lemma_mul_upper_bound(gt as int, 255, wt as int, 65025);
        lemma_mul_upper_bound(gb as int, 255, wb as int, 65025);
        lemma_mul_upper_bound(bt as int, 255, wt as int, 65025);
        lemma_mul_upper_bound(bb as int, 255, wb as int, 65025);
    }
    let a: u32 = ws / 255;
    let r: u32 = (rt * wt + rb * wb) / ws;
    let g: u32 = (gt * wt + gb * wb) / ws;
    let b: u32 = (bt * wt + bb * wb) / ws;
    proof {
        lemma_blend_channel_bound(rt as int, rb as int, wt as int, wb as int);
        lemma_blend_channel_bound(gt as int, gb as int, wt as int, wb as int);
        lemma_blend_channel_bound(bt as int, bb as int, wt as int, wb as int);
    }
    a * 0x100_0000 + r * 0x1_0000 + g * 0x100 + b
}

/// The blended channel value is again a byte.
proof fn lemma_blend_channel_bound(ct: int, cb: int, wt: int, wb: int)
    requires
        0 <= ct < 256,
        0 <= cb < 256,
        1 <= wt,
        0 <= wb,
    ensures
        0 <= (ct * wt + cb * wb) / (wt + wb) < 256,
{
    let ws = wt + wb;
    lemma_mul_inequality(ct, 255, wt);
    lemma_mul_inequality(cb, 255, wb);
    vstd::arithmetic::mul::lemma_mul_nonnegative(ct, wt);
    vstd::arithmetic::mul::lemma_mul_nonnegative(cb, wb);
    vstd::arithmetic::mul::lemma_mul_is_distributive_add(255, wt, wb);
    vstd::arithmetic::div_mod::lemma_div_is_ordered(ct * wt + cb * wb, 255 * ws, ws);
    assert((255 * ws) / ws == 255) by {
        lemma_div_multiples_vanish(255, ws);
        assert(255 * ws == ws * 255) by (nonlinear_arith);
    }
    vstd::arithmetic::div_mod::lemma_div_pos_is_pos(ct * wt + cb * wb, ws);
}

/// Row-major index of a grid cell.
pub proof fn lemma_grid_index(x: int, y: int, w: int, h: int)
    requires
        0 <= x < w,
        0 <= y < h,
    ensures
        0 <= y * w + x < w * h,
{
    lemma_mul_inequality(y, h - 1, w);
    assert((h - 1) * w + x < h * w) by (nonlinear_arith)
        requires
            x < w,
    ;
    assert(h * w == w * h) by (nonlinear_arith);
    assert(y * w >= 0) by (nonlinear_arith)
        requires
            y >= 0,
            w > 0,
    ;
}

impl FrameBuffer {
    /// A buffer is well formed when it holds exactly one pixel per cell.
    pub open spec fn wf(self) -> bool {
        self.data@.len() == self.width * self.height
    }

    /// The pixel at column `x`, row `y`.
    pub open spec fn pix(self, x: int, y: int) -> u32 {
        self.data@[y * self.width + x]
    }

    /// Whether `(x, y)` lies inside the buffer.
    pub open spec fn in_bounds(self, x: int, y: int) -> bool {
        0 <= x < self.width && 0 <= y < self.height
    }

    /// A fully transparent canvas.
    pub fn blank(width: usize, height: usize) -> (r: FrameBuffer)
        requires
            width * height <= usize::MAX,
        ensures
            r.wf(),
            r.width == width,
            r.height == height,
            forall|x: int, y: int| r.in_bounds(x, y) ==> #[trigger] r.pix(x, y) == 0u32,
    {
        let count = width * height;
        let mut data: Vec<u32> = Vec::new();
        let mut i: usize = 0;
        while i < count
            invariant
                i <= count,
                data@.len() == i,
                forall|j: int| 0 <= j < i ==> data@[j] == 0u32,
            decreases count - i,
        {
            data.push(0);
            i += 1;
        }
        let r = FrameBuffer { width, height, data };
        proof {
            assert forall|x: int, y: int| r.in_bounds(x, y) implies #[trigger] r.pix(x, y)
                == 0u32 by {
                lemma_grid_index(x, y, width as int, height as int);
            }
        }
        r
    }

    /// The source column shown in destination column `x`.
    pub open spec fn scale_src(x: int, src_dim: int, dst_dim: int) -> int {
        x * src_dim / dst_dim
    }

    /// A copy scaled to `width` by `height` with deterministic
    /// nearest-neighbor sampling: destination cell `(x, y)` shows source
    /// cell `(x * sw / width, y * sh / height)`.
    pub fn scale_nearest(&self, width: usize, height: usize) -> (r: FrameBuffer)
        requires
            self.wf(),
            self.width >= 1,
            self.height >= 1,
            self.width * self.height <= usize::MAX,
            width >= 1,
            height >= 1,
            width * height <= usize::MAX,
        ensures
            r.wf(),
            r.width == width,
            r.height == height,
            forall|x: int, y: int|
                r.in_bounds(x, y) ==> #[trigger] r.pix(x, y) == self.pix(
                    Self::scale_src(x, self.width as int, width as int),
                    Self::scale_src(y, self.height as int, height as int),
                ),
    {
        let sw = self.width;
        let sh = self.height;
        let mut data: Vec<u32> = Vec::new();
        let mut y: usize = 0;
        while y < height
            invariant
                y <= height,
                data@.len() == y * width,
                self.wf(),
                sw == self.width >= 1,
                sh == self.height >= 1,
                sw * sh <= usize::MAX,
                width >= 1,
                height >= 1,
                width * height <= usize::MAX,
                forall|px: int, py: int|
                    0 <= px < width && 0 <= py < y ==> data@[py * width + px] == self.pix(
                        Self::scale_src(px, sw as int, width as int),
                        Self::scale_src(py, sh as int, height as int),
                    ),
            decreases height - y,
        {
            let sy = scale_index(y, sh, height);
            let mut x: usize = 0;
            while x < width
                invariant
                    x <= width,
                    y < height,
                    data@.len() == y * width + x,
                    self.wf(),
                    sw == self.width >= 1,
                    sh == self.height >= 1,
                    sw * sh <= usize::MAX,
                    width >= 1,
                    height >= 1,
                    width * height <= usize::MAX,
                    sy == Self::scale_src(y as int, sh as int, height as int),
                    sy < sh,
                    forall|px: int, py: int|
                        0 <= px < width && 0 <= py < y ==> data@[py * width + px] == self.pix(
                            Self::scale_src(px, sw as int, width as int),
                            Self::scale_src(py, sh as int, height as int),
                        ),
                    forall|px: int|
                        0 <= px < x ==> data@[y * width + px] == self.pix(
                            Self::scale_src(px, sw as int, width as int),
                            Self::scale_src(y as int, sh as int, height as int),
                        ),
                decreases width - x,
            {
                let sx = scale_index(x, sw, width);
                proof {
                    lemma_grid_index(sx as int, sy as int, sw as int, sh as int);
                    lemma_grid_index(x as int, y as int, width as int, height as int);
                }
                let p = self.data[sy * sw + sx];
                data.push(p);
                proof {
                    assert forall|px: int, py: int|
                        0 <= px < width && 0 <= py < y implies data@[py * width + px]
                        == self.pix(
                        Self::scale_src(px, sw as int, width as int),
                        Self::scale_src(py, sh as int, height as int),
                    ) by {
                        lemma_row_index_lt(px, py, width as int, y as int);
                    }
                }
                x += 1;
            }
            y += 1;
            proof {
                assert(y * width == (y - 1) * width + width) by (nonlinear_arith);
            }
        }
        let r = FrameBuffer { width, height, data };
        proof {
            assert(r.wf()) by {
                assert(height * width == width * height) by (nonlinear_arith);
            }
            assert forall|x: int, y2: int| r.in_bounds(x, y2) implies #[trigger] r.pix(x, y2)
                == self.pix(
                Self::scale_src(x, sw as int, width as int),
                Self::scale_src(y2, sh as int, height as int),
            ) by {}
        }
        r
    }

    /// Layer `layer` onto this canvas with its top-left corner at
    /// `(ox, oy)`: each covered canvas pixel becomes the blend of the
    /// old pixel under the layer pixel, and pixels outside the layer's
    /// rectangle — including any part of the layer that falls outside
    /// the canvas — are clipped, not an error.
    pub fn overlay(&mut self, layer: &FrameBuffer, ox: i32, oy: i32)
        requires
            old(self).wf(),
            old(self).width < 0x8000_0000,
            old(self).height < 0x8000_0000,
            old(self).width * old(self).height <= usize::MAX,
            layer.wf(),
            layer.width < 0x8000_0000,
            layer.height < 0x8000_0000,
            layer.width * layer.height <= usize::MAX,
        ensures
            final(self).wf(),
            final(self).width == old(self).width,
            final(self).height == old(self).height,
            forall|cx: int, cy: int|
                old(self).in_bounds(cx, cy) ==> #[trigger] final(self).pix(cx, cy) == {
                    if layer.in_bounds(cx - ox, cy - oy) {
                        spec_blend(old(self).pix(cx, cy), layer.pix(cx - ox, cy - oy))
                    } else {
                        old(self).pix(cx, cy)
                    }
                },
    {
        let ghost orig = *self;
        let w = self.width;
        let h = self.height;
        let mut ly: usize = 0;
        while ly < layer.height
            invariant
                ly <= layer.height,
                self.wf(),
                orig == *old(self),
                self.width == orig.width == w < 0x8000_0000,
                self.height == orig.height == h < 0x8000_0000,
                w * h <= usize::MAX,
                layer.wf(),
                layer.width < 0x8000_0000,
                layer.height < 0x8000_0000,
                layer.width * layer.height <= usize::MAX,
                forall|cx: int, cy: int|
                    orig.in_bounds(cx, cy) ==> #[trigger] self.pix(cx, cy) == {
                        if layer.in_bounds(cx - ox, cy - oy) && cy - oy < ly {
                            spec_blend(orig.pix(cx, cy), layer.pix(cx - ox, cy - oy))
                        } else {
                            orig.pix(cx, cy)
                        }
                    },
            decreases layer.height - ly,
        {
            let cy = (oy as i64) + (ly as i64);
            if 0 <= cy && cy < h as i64 {
                let cyu = cy as usize;
                let mut lx: usize = 0;
                while lx < layer.width
                    invariant
                        lx <= layer.width,
                        ly < layer.height,
                        self.wf(),
                        orig == *old(self),
                        self.width == orig.width == w < 0x8000_0000,
                        self.height == orig.height == h < 0x8000_0000,
                        w * h <= usize::MAX,
                        layer.wf(),
                        layer.width < 0x8000_0000,
                        layer.height < 0x8000_0000,
                        layer.width * layer.height <= usize::MAX,
                        cy == oy + ly,
                        0 <= cy < h,
                        cyu == cy,
                        forall|cx: int, cy2: int|
                            orig.in_bounds(cx, cy2) ==> #[trigger] self.pix(cx, cy2) == {
                                if layer.in_bounds(cx - ox, cy2 - oy) && (cy2 - oy < ly || (cy2
                                    - oy == ly && cx - ox < lx)) {
                                    spec_blend(orig.pix(cx, cy2), layer.pix(cx - ox, cy2 - oy))
                                } else {
                                    orig.pix(cx, cy2)
                                }
                            },
                    decreases layer.width - lx,
                {
                    let cx = (ox as i64) + (lx as i64);
                    if 0 <= cx && cx < w as i64 {
                        let cxu = cx as usize;
                        proof {
                            lemma_grid_index(cx as int, cy as int, w as int, h as int);
                            lemma_grid_index(
                                lx as int,
                                ly as int,
                                layer.width as int,
                                layer.height as int,
                            );
                        }
                        let idx = cyu * w + cxu;
                        let under = self.data[idx];
                        let over = layer.data[ly * layer.width + lx];
                        let blended = blend(under, over);
                        let ghost prev = *self;
                        self.data[idx] = blended;
                        proof {
                            lemma_row_major_distinct(w as int, h as int, cx as int, cy as int);
                            assert forall|cx2: int, cy2: int|
                                orig.in_bounds(cx2, cy2) implies #[trigger] self.pix(cx2, cy2)
                                == {
                                if layer.in_bounds(cx2 - ox, cy2 - oy) && (cy2 - oy < ly || (cy2
                                    - oy == ly && cx2 - ox < lx + 1)) {
                                    spec_blend(orig.pix(cx2, cy2), layer.pix(cx2 - ox, cy2 - oy))
                                } else {
                                    orig.pix(cx2, cy2)
                                }
                            } by {
                                lemma_grid_index(cx2, cy2, w as int, h as int);
                                if cx2 == cx && cy2 == cy {
                                    assert(cy2 * w + cx2 == idx);
                                    assert(under == prev.pix(cx2, cy2));
                                    assert(prev.pix(cx2, cy2) == orig.pix(cx2, cy2));
                                    assert(self.pix(cx2, cy2) == blended);
                                    assert(layer.pix(cx2 - ox, cy2 - oy) == over);
                                } else {
                                    assert(cy2 * w + cx2 != cy * w + cx);
                                    assert(self.pix(cx2, cy2) == prev.pix(cx2, cy2));
                                }
                            }
                        }
                    }
                    lx += 1;
                }
            } else {
                // The whole row lies outside the canvas: clipped.
            }
            ly += 1;
        }
    }

    /// The pixels as RGBA bytes, four per pixel, row-major.
    pub fn to_rgba_bytes(&self) -> (r: Vec<u8>)
        ensures
            r@.len() == 4 * self.data@.len(),
            forall|i: int|
                0 <= i < self.data@.len() ==> {
                    &&& r@[4 * i] == red_of(#[trigger] self.data@[i]) as u8
                    &&& r@[4 * i + 1] == green_of(self.data@[i]) as u8
                    &&& r@[4 * i + 2] == blue_of(self.data@[i]) as u8
                    &&& r@[4 * i + 3] == alpha_of(self.data@[i]) as u8
                },
    {
        let n = self.data.len();
        let mut out: Vec<u8> = Vec::new();
        let mut i: usize = 0;
        while i < n
            invariant
                i <= n,
                n == self.data@.len(),
                out@.len() == 4 * i,
                forall|j: int|
                    0 <= j < i ==> {
                        &&& out@[4 * j] == red_of(#[trigger] self.data@[j]) as u8
                        &&& out@[4 * j + 1] == green_of(self.data@[j]) as u8
                        &&& out@[4 * j + 2] == blue_of(self.data@[j]) as u8
                        &&& out@[4 * j + 3] == alpha_of(self.data@[j]) as u8
                    },
            decreases n - i,
        {
            let p = self.data[i];
            out.push(((p >> 16) & 0xff) as u8);
            out.push(((p >> 8) & 0xff) as u8);
            out.push((p & 0xff) as u8);
            out.push(((p >> 24) & 0xff) as u8);
            proof {
                lemma_channels_are_bytes(p);
            }
            i += 1;
        }
        out
    }

    /// A frame assembled from RGBA bytes, four per pixel, row-major;
    /// nothing when the byte count does not match the dimensions.
    pub fn from_rgba_bytes(width: usize, height: usize, bytes: &Vec<u8>) -> (r: Option<
        FrameBuffer,
    >)
        requires
            width * height <= usize::MAX,
        ensures
            match r {
                Some(fb) => {
                    &&& fb.wf()
                    &&& fb.width == width
                    &&& fb.height == height
                    &&& bytes@.len() == 4 * (width * height)
                    &&& forall|i: int|
                        0 <= i < fb.data@.len() ==> #[trigger] fb.data@[i] == pack_argb(
                            bytes@[4 * i + 3] as int,
                            bytes@[4 * i] as int,
                            bytes@[4 * i + 1] as int,
                            bytes@[4 * i + 2] as int,
                        )
                },
                None => bytes@.len() != 4 * (width * height),
            },
    {
        let count = width * height;
        let blen = bytes.len();
        if count > usize::MAX / 4 {
            // More pixels than four bytes each can index: no byte count
            // can match.
            proof {
                vstd::arithmetic::div_mod::lemma_fundamental_div_mod(usize::MAX as int, 4);
                assert(4 * (count as int) > usize::MAX);
            }
            return None;
        }
        proof {
            vstd::arithmetic::div_mod::lemma_fundamental_div_mod(usize::MAX as int, 4);
            assert(4 * (count as int) <= usize::MAX);
        }
        if blen != 4 * count {
            return None;
        }
        let mut data: Vec<u32> = Vec::new();
        let mut i: usize = 0;
        while i < count
            invariant
                i <= count,
                count == width * height,
                4 * count == bytes@.len(),
                4 * count <= usize::MAX,
                data@.len() == i,
                forall|j: int|
                    0 <= j < i ==> #[trigger] data@[j] == pack_argb(
                        bytes@[4 * j + 3] as int,
                        bytes@[4 * j] as int,
                        bytes@[4 * j + 1] as int,
                        bytes@[4 * j + 2] as int,
                    ),
            decreases count - i,
        {
            let r = bytes[4 * i];
            let g = bytes[4 * i + 1];
            let b = bytes[4 * i + 2];
            let a = bytes[4 * i + 3];
            let p: u32 = (a as u32) * 0x100_0000 + (r as u32) * 0x1_0000 + (g as u32) * 0x100 + (
            b as u32);
            data.push(p);
            i += 1;
        }
        Some(FrameBuffer { width, height, data })
    }
}

/// Nearest-neighbor source index: `x * src_dim / dst_dim`.
fn scale_index(x: usize, src_dim: usize, dst_dim: usize) -> (r: usize)
    requires
        x < dst_dim,
        src_dim >= 1,
    ensures
        r == FrameBuffer::scale_src(x as int, src_dim as int, dst_dim as int),
        r < src_dim,
{
    proof {
        lemma_mul_strict_inequality(x as int, dst_dim as int, src_dim as int);
        assert(dst_dim * src_dim == src_dim * dst_dim) by (nonlinear_arith);
        vstd::arithmetic::div_mod::lemma_multiply_divide_lt(
            x as int * src_dim as int,
            dst_dim as int,
            src_dim as int,
        );
        vstd::arithmetic::mul::lemma_mul_upper_bound(
            x as int,
            u64::MAX as int,
            src_dim as int,
            u64::MAX as int,
        );
    }
    let wide: u128 = (x as u128) * (src_dim as u128) / (dst_dim as u128);
    wide as usize
}

/// A cell of an earlier row sits below the current row's start.
proof fn lemma_row_index_lt(px: int, py: int, w: int, y: int)
    requires
        0 <= px < w,
        0 <= py < y,
    ensures
        0 <= py * w + px < y * w,
{
    lemma_mul_inequality(py + 1, y, w);
    assert((py + 1) * w == py * w + w) by (nonlinear_arith);
    assert(py * w >= 0) by (nonlinear_arith)
        requires
            py >= 0,
            w > 0,
    ;
}

/// Two distinct cells of one row-major grid have distinct indices.
proof fn lemma_row_major_distinct(w: int, h: int, x: int, y: int)
    requires
        0 <= x < w,
        0 <= y < h,
    ensures
        forall|x2: int, y2: int|
            0 <= x2 < w && 0 <= y2 < h && (x2 != x || y2 != y) ==> #[trigger] (y2 * w + x2) != y
                * w + x,
{
    assert forall|x2: int, y2: int|
        0 <= x2 < w && 0 <= y2 < h && (x2 != x || y2 != y) implies #[trigger] (y2 * w + x2) != y
        * w + x by {
        if y2 == y {
        } else {
            assert(y2 * w + x2 != y * w + x) by (nonlinear_arith)
                requires
                    0 <= x < w,
                    0 <= x2 < w,
                    y2 != y,
            ;
        }
    }
}

} // verus!
