//! The pixel buffer: a per-pixel write target for the renderer, with the
//! normalized-coordinate mapping and the byte export.

use crate::fixed::{
    fx_div, fx_mul, lemma_fx_div_le_one, lemma_fx_div_mag, lemma_fx_mul_bound, mag, Fx, SCALE,
};
use crate::linalg::{v3_bounded, Vector3D, V3, B_DOT_ARG};
use crate::rng::draw_in;
use vstd::arithmetic::div_mod::{
    lemma_div_is_ordered, lemma_div_multiples_vanish, lemma_div_pos_is_pos,
};
use vstd::arithmetic::mul::{lemma_mul_nonnegative, lemma_mul_upper_bound};
use vstd::prelude::*;

verus! {

/// A pixel color: a vector read as RGB.
pub type ColorRGB = Vector3D;

/// Raw scaling factor of the byte quantization (255.999).
pub const BYTE_GAIN_RAW: i64 = 16776949;

/// Container for the image buffer, row-major from the bottom row.
pub struct Image {
    pub width: u32,
    pub height: u32,
    buffer: Vec<ColorRGB>,
}

/// Spec view of an image: its dimensions and its pixels.
pub struct ImgV {
    pub width: int,
    pub height: int,
    pub pixels: Seq<Vector3D>,
}

impl View for Image {
    type V = ImgV;

    closed spec fn view(&self) -> ImgV {
        ImgV { width: self.width as int, height: self.height as int, pixels: self.buffer@ }
    }
}

/// The buffer holds exactly one bounded color per pixel, and the dimensions
/// stay within the representable band.
pub open spec fn img_wf(im: ImgV) -> bool {
    &&& im.pixels.len() == im.width * im.height
    &&& 0 <= im.width <= 0x1_0000
    &&& 0 <= im.height <= 0x1_0000
    &&& im.width * im.height <= 0x4000_0000
    &&& forall|k: int| 0 <= k < im.pixels.len() ==> v3_bounded(#[trigger] im.pixels[k]@, B_DOT_ARG as int)
}

/// Normalized coordinate of pixel column (or row) `i` out of `n`.
pub open spec fn uv_s(i: int, n: int) -> int {
    fx_div(i * (SCALE as int), (n - 1) * (SCALE as int))
}

/// One channel quantized to a byte: scaled by just under 256, truncated,
/// and saturated at the ends of the byte range.
pub open spec fn channel_byte_s(c: int) -> int {
    let v = fx_mul(BYTE_GAIN_RAW as int, c);
    if v < 0 {
        0
    } else if v / (SCALE as int) > 255 {
        255
    } else {
        v / (SCALE as int)
    }
}

impl Image {
    /// A buffer of the given dimensions, filled with black.
    pub fn new(width: u32, height: u32) -> (r: Image)
        requires
            width <= 0x1_0000,
            height <= 0x1_0000,
            (width as int) * (height as int) <= 0x4000_0000,
        ensures
            r@.width == width,
            r@.height == height,
            img_wf(r@),
            forall|k: int|
                0 <= k < r@.pixels.len() ==> #[trigger] r@.pixels[k]@ == (V3 {
                    x: 0int,
                    y: 0int,
                    z: 0int,
                }),
    {
        let n: usize = (width as usize) * (height as usize);
        let mut buffer: Vec<ColorRGB> = Vec::new();
        let mut k: usize = 0;
        while k < n
            invariant
                k <= n,
                buffer@.len() == k,
                forall|j: int|
                    0 <= j < k ==> #[trigger] buffer@[j]@ == (V3 { x: 0int, y: 0int, z: 0int }),
            decreases n - k,
        {
            buffer.push(Vector3D::zero());
            k = k + 1;
        }
        Image { width, height, buffer }
    }

    /// The image dimensions.
    pub fn dims(&self) -> (r: (u32, u32))
        ensures
            r.0 as int == self@.width,
            r.1 as int == self@.height,
    {
        (self.width, self.height)
    }

    /// The color at pixel location `(i, j)`; out-of-range locations are a
    /// usage error ruled out by precondition.
    pub fn at(&self, i: u32, j: u32) -> (r: ColorRGB)
        requires
            img_wf(self@),
            i < self@.width,
            j < self@.height,
        ensures
            r == self@.pixels[j * self@.width + i],
    {
        proof {
            lemma_pix_index(self@, i as int, j as int);
        }
        let idx: usize = (j as usize) * (self.width as usize) + (i as usize);
        self.buffer[idx]
    }

    /// Write the color at pixel location `(i, j)`.
    pub fn set_at(&mut self, i: u32, j: u32, color: ColorRGB)
        requires
            img_wf(old(self)@),
            i < old(self)@.width,
            j < old(self)@.height,
            v3_bounded(color@, B_DOT_ARG as int),
        ensures
            final(self)@.width == old(self)@.width,
            final(self)@.height == old(self)@.height,
            final(self)@.pixels == old(self)@.pixels.update(
                old(self)@.width * j + i,
                color,
            ),
            img_wf(final(self)@),
    {
        proof {
            lemma_pix_index(self@, i as int, j as int);
            assert(self@.width * (j as int) + i == (j as int) * self@.width + i) by (
            nonlinear_arith);
        }
        let idx: usize = (j as usize) * (self.width as usize) + (i as usize);
        self.buffer.set(idx, color);
    }

    /// Normalized coordinates of the pixel: `i / (width - 1)`,
    /// `j / (height - 1)`.
    pub fn pixel_to_uv(&self, i: u32, j: u32) -> (r: (Fx, Fx))
        requires
            img_wf(self@),
            2 <= self@.width,
            2 <= self@.height,
            i < self@.width,
            j < self@.height,
        ensures
            r.0@ == uv_s(i as int, self@.width),
            r.1@ == uv_s(j as int, self@.height),
            0 <= r.0@ <= SCALE as int,
            0 <= r.1@ <= SCALE as int,
    {
        proof {
            lemma_uv_bound(i as int, self@.width);
            lemma_uv_bound(j as int, self@.height);
        }
        let u = Fx::from_int(i as i64).div(Fx::from_int((self.width - 1) as i64));
        let v = Fx::from_int(j as i64).div(Fx::from_int((self.height - 1) as i64));
        (u, v)
    }

    /// Normalized coordinates of the pixel with a uniform jitter within the
    /// pixel cell: every outcome lies between this pixel's coordinate and
    /// the next one's (and so within twice the nominal frame).
    pub fn pixel_to_uv_noisy(&self, i: u32, j: u32, rng: &mut rand::rngs::ThreadRng) -> (r: (
        Fx,
        Fx,
    ))
        requires
            img_wf(self@),
            2 <= self@.width,
            2 <= self@.height,
            i < self@.width,
            j < self@.height,
        ensures
            uv_s(i as int, self@.width) <= r.0@ <= uv_s(i + 1, self@.width),
            uv_s(j as int, self@.height) <= r.1@ <= uv_s(j + 1, self@.height),
            0 <= r.0@ <= 2 * (SCALE as int),
            0 <= r.1@ <= 2 * (SCALE as int),
    {
        let du = draw_in(rng, 0, SCALE);
        let dv = draw_in(rng, 0, SCALE);
        let nu = Fx::from_int(i as i64).add(Fx { raw: du });
        let nv = Fx::from_int(j as i64).add(Fx { raw: dv });
        proof {
            lemma_uv_noisy_bound(nu@, i as int, self@.width);
            lemma_uv_noisy_bound(nv@, j as int, self@.height);
            lemma_uv_cell(nu@, i as int, self@.width);
            lemma_uv_cell(nv@, j as int, self@.height);
        }
        let u = nu.div(Fx::from_int((self.width - 1) as i64));
        let v = nv.div(Fx::from_int((self.height - 1) as i64));
        (u, v)
    }

    /// Export the buffer as bytes, three channels per pixel, in reverse
    /// pixel order (bottom-up storage emitted top-down).
    pub fn as_bytes(&self) -> (r: Vec<u8>)
        requires
            img_wf(self@),
        ensures
            r@.len() == 3 * self@.pixels.len(),
            forall|k: int|
                0 <= k < self@.pixels.len() ==> {
                    let p = #[trigger] self@.pixels[self@.pixels.len() - 1 - k];
                    &&& r@[3 * k] == channel_byte_s(p@.x)
                    &&& r@[3 * k + 1] == channel_byte_s(p@.y)
                    &&& r@[3 * k + 2] == channel_byte_s(p@.z)
                },
    {
        let n = self.buffer.len();
        let mut out: Vec<u8> = Vec::new();
        let mut k: usize = 0;
        while k < n
            invariant
                k <= n,
                n == self@.pixels.len(),
                img_wf(self@),
                out@.len() == 3 * k,
                forall|m: int|
                    0 <= m < k ==> {
                        let p = #[trigger] self@.pixels[n - 1 - m];
                        &&& out@[3 * m] == channel_byte_s(p@.x)
                        &&& out@[3 * m + 1] == channel_byte_s(p@.y)
                        &&& out@[3 * m + 2] == channel_byte_s(p@.z)
                    },
            decreases n - k,
        {
            let px = self.buffer[n - 1 - k];
            proof {
                assert(v3_bounded(self@.pixels[n - 1 - k as int]@, B_DOT_ARG as int));
            }
            out.push(channel_byte(px.x));
            out.push(channel_byte(px.y));
            out.push(channel_byte(px.z));
            k = k + 1;
        }
        out
    }
}

/// Row-major pixel index stays within the buffer.
proof fn lemma_pix_index(im: ImgV, i: int, j: int)
    requires
        img_wf(im),
        0 <= i < im.width,
        0 <= j < im.height,
    ensures
        0 <= j * im.width + i < im.pixels.len(),
{
    assert(j * im.width + i < im.width * im.height && j * im.width >= 0) by (nonlinear_arith)
        requires
            0 <= i < im.width,
            0 <= j < im.height,
    ;
}

/// The normalized coordinate of an in-range pixel lies in `[0, 1]`.
proof fn lemma_uv_bound(i: int, n: int)
    requires
        2 <= n <= 0x1_0000,
        0 <= i < n,
    ensures
        0 <= uv_s(i, n) <= SCALE as int,
{
    let s = SCALE as int;
    lemma_fx_div_mag(i * s, (n - 1) * s);
    lemma_fx_div_le_one(i * s, (n - 1) * s);
    lemma_mul_nonnegative(i, s);
    lemma_div_pos_is_pos(mag(i * s) * s, (n - 1) * s);
    assert(mag(i * s) == i * s);
    assert(i * s <= (n - 1) * s) by (nonlinear_arith)
        requires
            i <= n - 1,
            s > 0,
    ;
}

/// A jittered numerator keeps the coordinate within twice the frame.
proof fn lemma_uv_noisy_bound(num: int, i: int, n: int)
    requires
        2 <= n <= 0x1_0000,
        0 <= i < n,
        i * (SCALE as int) <= num < (i + 1) * (SCALE as int),
    ensures
        0 <= fx_div(num, (n - 1) * (SCALE as int)) <= 2 * (SCALE as int),
        mag(num) <= 0x2_0000_0000,
{
    let s = SCALE as int;
    lemma_fx_div_mag(num, (n - 1) * s);
    assert(0 <= num) by (nonlinear_arith)
        requires
            0 <= i,
            i * s <= num,
            s > 0,
    ;
    assert(num <= 2 * ((n - 1) * s)) by (nonlinear_arith)
        requires
            num < (i + 1) * s,
            i + 1 <= n,
            2 <= n,
            s > 0,
    ;
    lemma_mul_nonnegative(num, s);
    lemma_div_pos_is_pos(num * s, (n - 1) * s);
    assert(num * s <= (2 * ((n - 1) * s)) * s) by (nonlinear_arith)
        requires
            num <= 2 * ((n - 1) * s),
            s > 0,
    ;
    lemma_div_is_ordered(num * s, (2 * ((n - 1) * s)) * s, (n - 1) * s);
    assert((2 * ((n - 1) * s)) * s == ((n - 1) * s) * (2 * s)) by (nonlinear_arith);
    lemma_div_multiples_vanish(2 * s, (n - 1) * s);
    assert(num <= 0x1_0001_0000) by (nonlinear_arith)
        requires
            num < (i + 1) * s,
            i + 1 <= 0x1_0000,
            s == 65536,
    ;
}

/// A jittered numerator maps between its own pixel's coordinate and the
/// next one's.
proof fn lemma_uv_cell(num: int, i: int, n: int)
    requires
        2 <= n <= 0x1_0000,
        0 <= i < n,
        i * (SCALE as int) <= num < (i + 1) * (SCALE as int),
    ensures
        uv_s(i, n) <= fx_div(num, (n - 1) * (SCALE as int)) <= uv_s(i + 1, n),
{
    let s = SCALE as int;
    crate::fixed::lemma_fx_div_monotone(i * s, num, (n - 1) * s);
    crate::fixed::lemma_fx_div_monotone(num, (i + 1) * s, (n - 1) * s);
}

/// One channel to a byte.
fn channel_byte(c: Fx) -> (r: u8)
    requires
        -(B_DOT_ARG as int) <= c@ <= B_DOT_ARG as int,
    ensures
        r as int == channel_byte_s(c@),
{
    proof {
        lemma_mul_upper_bound(mag(BYTE_GAIN_RAW as int), 0x100_0000, mag(c@), B_DOT_ARG as int);
        assert(0x100_0000int * (B_DOT_ARG as int) <= crate::fixed::lim_prod()) by (nonlinear_arith);
    }
    let v = Fx { raw: BYTE_GAIN_RAW }.mul(c);
    if v.raw < 0 {
        0
    } else {
        let q: u64 = (v.raw as u64) / 65536;
        if q > 255 {
            255
        } else {
            q as u8
        }
    }
}

} // verus!
