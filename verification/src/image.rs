//! The image buffer, the gamma tonemap, and the plain-text pixel dump.
//!
//! `tonemap` maps a linear fixed-point channel to a display value in
//! `[0, 255]`: values outside `[0, 1]` clamp, and inside it applies the
//! gamma `5/11` (that is, `1/2.2`) exactly, by finding the greatest level
//! whose eleventh power fits under the channel's fifth power.  `to_ppm`
//! serializes the buffer: a fixed header, the dimensions, the maximum
//! channel value, then every pixel's tonemapped triple in row-major order.

use vstd::prelude::*;
use crate::fixed::{SCALE, div_trunc, div_trunc_i128, lemma_div_trunc_bound};
use crate::vec3::{Vec3, V3};

verus! {

/// `255^11`, the comparison constant of the gamma search.
pub const GAMMA_K: i128 = 0xf5365c4833ccb6a4c90aff;

/// `SCALE^4`, the divisor that brings a fifth power back to scale.
pub const SCALE4: i128 = 0x1_0000_0000_0000;

pub open spec fn pow5(x: int) -> int {
    x * x * x * x * x
}

pub open spec fn pow11(t: int) -> int {
    t * t * t * t * t * t * t * t * t * t * t
}

/// The greatest level `0 <= r <= t` with `r^11 * SCALE <= GAMMA_K * y`,
/// or zero.
pub open spec fn spec_gamma_level(y: int, t: int) -> int
    decreases t,
{
    if t <= 0 {
        0
    } else if pow11(t) * SCALE <= GAMMA_K * y {
        t
    } else {
        spec_gamma_level(y, t - 1)
    }
}

/// The tonemap: clamp to `[0, 1]`, then `floor(255 * x^(5/11))`, the exact
/// gamma `1/2.2` over the fixed-point fifth power `y = x^5 / SCALE^4`.
pub open spec fn spec_tonemap(x: int) -> int {
    if x <= 0 {
        0
    } else if x >= SCALE as int {
        255
    } else {
        spec_gamma_level(div_trunc(pow5(x), SCALE4 as int), 255)
    }
}

/// The search level never exceeds its starting point and never goes
/// negative.
pub proof fn lemma_gamma_level_range(y: int, t: int)
    requires
        t >= 0,
    ensures
        0 <= spec_gamma_level(y, t) <= t,
    decreases t,
{
    if t > 0 {
        lemma_gamma_level_range(y, t - 1);
    }
}

proof fn lemma_gamma_level_step(y: int, t: int)
    requires
        t >= 0,
    ensures
        spec_gamma_level(y, t) <= spec_gamma_level(y, t + 1),
{
    lemma_gamma_level_range(y, t);
}

/// The search is monotone in the channel value.
proof fn lemma_gamma_level_monotone(y1: int, y2: int, t: int)
    requires
        y1 <= y2,
        t >= 0,
    ensures
        spec_gamma_level(y1, t) <= spec_gamma_level(y2, t),
    decreases t,
{
    if t > 0 {
        lemma_gamma_level_monotone(y1, y2, t - 1);
        if pow11(t) * SCALE <= GAMMA_K * y1 {
            assert(GAMMA_K * y1 <= GAMMA_K * y2) by (nonlinear_arith)
                requires
                    y1 <= y2,
                    GAMMA_K > 0,
            ;
        } else {
            lemma_gamma_level_range(y2, t - 1);
            lemma_gamma_level_step(y1, t - 1);
        }
    }
}

/// The tonemap is total, stays in `[0, 255]`, fixes the endpoints, clamps
/// outside `[0, 1]`, and is monotone non-decreasing.
pub proof fn lemma_tonemap_properties(x1: int, x2: int)
    requires
        x1 <= x2,
    ensures
        spec_tonemap(0) == 0,
        spec_tonemap(SCALE as int) == 255,
        x1 <= 0 ==> spec_tonemap(x1) == 0,
        x1 >= SCALE as int ==> spec_tonemap(x1) == 255,
        0 <= spec_tonemap(x1) <= 255,
        spec_tonemap(x1) <= spec_tonemap(x2),
{
    lemma_gamma_level_range(div_trunc(pow5(x1), SCALE4 as int), 255);
    lemma_gamma_level_range(div_trunc(pow5(x2), SCALE4 as int), 255);
    if 0 < x1 && x2 < SCALE as int {
        let y1 = div_trunc(pow5(x1), SCALE4 as int);
        let y2 = div_trunc(pow5(x2), SCALE4 as int);
        assert(0 <= pow5(x1) <= pow5(x2)) by (nonlinear_arith)
            requires
                0 < x1 <= x2,
        ;
        lemma_div_trunc_bound(pow5(x1), SCALE4 as int);
        lemma_div_trunc_bound(pow5(x2), SCALE4 as int);
        vstd::arithmetic::div_mod::lemma_div_is_ordered(pow5(x1), pow5(x2), SCALE4 as int);
        lemma_gamma_level_monotone(y1, y2, 255);
    }
}

/// The eleventh power of a display level, by squaring.
fn pow11_exec(t: i128) -> (r: i128)
    requires
        0 <= t <= 255,
    ensures
        r == pow11(t as int),
        0 <= r <= GAMMA_K,
{
    proof {
        assert(0 <= t * t <= 65025) by (nonlinear_arith)
            requires
                0 <= t <= 255,
        ;
    }
    let t2 = t * t;
    proof {
        assert(0 <= t2 * t2 <= 65025int * 65025) by (nonlinear_arith)
            requires
                0 <= t2 <= 65025,
        ;
    }
    let t4 = t2 * t2;
    proof {
        assert(0 <= t4 * t4 <= (65025int * 65025) * (65025int * 65025)) by (nonlinear_arith)
            requires
                0 <= t4 <= 65025int * 65025,
        ;
    }
    let t8 = t4 * t4;
    proof {
        assert(0 <= t8 * t2 <= (65025int * 65025) * (65025int * 65025) * 65025 && 0 <= t8 * t2
            * t <= GAMMA_K) by (nonlinear_arith)
            requires
                0 <= t8 <= (65025int * 65025) * (65025int * 65025),
                0 <= t2 <= 65025,
                0 <= t <= 255,
                GAMMA_K == 0xf5365c4833ccb6a4c90aff,
        ;
    }
    let r = t8 * t2 * t;
    proof {
        assert(r == pow11(t as int) && r >= 0) by (nonlinear_arith)
            requires
                0 <= t <= 255,
                t2 == t * t,
                t4 == t2 * t2,
                t8 == t4 * t4,
                r == t8 * t2 * t,
        ;
    }
    r
}

fn gamma_level(y: i128, t: i128) -> (r: i128)
    requires
        0 <= y <= SCALE,
        0 <= t <= 255,
    ensures
        r == spec_gamma_level(y as int, t as int),
        0 <= r <= 255,
    decreases t,
{
    proof {
        lemma_gamma_level_range(y as int, t as int);
    }
    if t <= 0 {
        0
    } else {
        let p = pow11_exec(t);
        proof {
            assert(p * SCALE <= GAMMA_K * 4096 && 0 <= GAMMA_K * y <= GAMMA_K * 4096)
                by (nonlinear_arith)
                requires
                    0 <= p <= GAMMA_K,
                    0 <= y <= 4096,
                    SCALE == 4096,
                    GAMMA_K == 0xf5365c4833ccb6a4c90aff,
            ;
        }
        if p * SCALE <= GAMMA_K * y {
            t
        } else {
            gamma_level(y, t - 1)
        }
    }
}

/// Gamma tonemap of one channel, exactly as `spec_tonemap` states it:
/// clamps to `{0, 255}` outside `[0, 1]` and applies the exact `5/11`
/// power law inside.
pub fn tonemap(x: i128) -> (r: i32)
    ensures
        r == spec_tonemap(x as int),
        0 <= r <= 255,
{
    proof {
        lemma_tonemap_properties(x as int, x as int);
    }
    if x <= 0 {
        0
    } else if x >= SCALE {
        255
    } else {
        proof {
            assert(0 <= x * x <= 4096int * 4096) by (nonlinear_arith)
                requires
                    0 < x < 4096,
            ;
        }
        let x2 = x * x;
        proof {
            assert(0 <= x2 * x2 <= (4096int * 4096) * (4096int * 4096)) by (nonlinear_arith)
                requires
                    0 <= x2 <= 4096int * 4096,
            ;
        }
        let x4 = x2 * x2;
        proof {
            assert(0 <= x4 * x <= 0x1000_0000_0000_0000int) by (nonlinear_arith)
                requires
                    0 <= x4 <= (4096int * 4096) * (4096int * 4096),
                    0 < x < 4096,
            ;
        }
        let x5 = x4 * x;
        proof {
            assert(x5 == pow5(x as int) && 0 <= x5 <= 0x1000_0000_0000_0000int * 4096)
                by (nonlinear_arith)
                requires
                    0 < x < 4096,
                    x2 == x * x,
                    x4 == x2 * x2,
                    x5 == x4 * x,
            ;
            lemma_div_trunc_bound(x5 as int, SCALE4 as int);
            crate::vec3::lemma_div_trunc_nonneg(x5 as int, SCALE4 as int);
            vstd::arithmetic::div_mod::lemma_div_is_ordered(
                x5 as int,
                0x1000_0000_0000_0000int,
                SCALE4 as int,
            );
            assert(0x1000_0000_0000_0000int / (SCALE4 as int) == 4096);
        }
        let y = div_trunc_i128(x5, SCALE4);
        gamma_level(y, 255) as i32
    }
}

/// A width by height grid of accumulated colors, row-major.
pub struct Image {
    pub width: i32,
    pub height: i32,
    pub pixels: Vec<Vec3>,
}

/// The buffer holds exactly one color per pixel.
pub open spec fn image_wf(im: Image) -> bool {
    im.width >= 0 && im.height >= 0 && im.width * im.height <= i32::MAX
        && im.pixels@.len() == im.width * im.height
}

impl Image {
    /// A buffer of the given size with every pixel set to `default`.
    pub fn new(width: i32, height: i32, default: Vec3) -> (r: Image)
        requires
            0 <= width,
            0 <= height,
            width * height <= i32::MAX,
        ensures
            image_wf(r),
            r.width == width,
            r.height == height,
            forall|i: int| 0 <= i < r.pixels@.len() ==> r.pixels@[i] == default,
    {
        let n = (width as usize) * (height as usize);
        let mut v: Vec<Vec3> = Vec::new();
        let mut i: usize = 0;
        while i < n
            invariant
                0 <= i <= n,
                v@.len() == i,
                forall|j: int| 0 <= j < i ==> v@[j] == default,
            decreases n - i,
        {
            v.push(default);
            i = i + 1;
        }
        Image { width, height, pixels: v }
    }

    /// Stores a color at `(x, y)`; the slot is `x + y * width`.
    pub fn set_pixel(&mut self, x: i32, y: i32, v: Vec3)
        requires
            image_wf(*old(self)),
            0 <= x < old(self).width,
            0 <= y < old(self).height,
        ensures
            image_wf(*final(self)),
            final(self).width == old(self).width,
            final(self).height == old(self).height,
            final(self).pixels@ == old(self).pixels@.update(x + y * old(self).width, v),
    {
        proof {
            lemma_pixel_index(x as int, y as int, self.width as int, self.height as int);
            assert(y * self.width <= self.width * self.height) by (nonlinear_arith)
                requires
                    0 <= y < self.height,
                    0 <= self.width,
            ;
        }
        let idx = (x + y * self.width) as usize;
        self.pixels.set(idx, v);
    }

    /// Reads the color at `(x, y)`, the same slot `set_pixel` writes.
    pub fn get_pixel(&self, x: i32, y: i32) -> (r: Vec3)
        requires
            image_wf(*self),
            0 <= x < self.width,
            0 <= y < self.height,
        ensures
            r == self.pixels@[x + y * self.width],
    {
        proof {
            lemma_pixel_index(x as int, y as int, self.width as int, self.height as int);
            assert(y * self.width <= self.width * self.height) by (nonlinear_arith)
                requires
                    0 <= y < self.height,
                    0 <= self.width,
            ;
        }
        self.pixels[(x + y * self.width) as usize]
    }
}

/// The row-major slot of a pixel is inside the buffer.
proof fn lemma_pixel_index(x: int, y: int, w: int, h: int)
    by (nonlinear_arith)
    requires
        0 <= x < w,
        0 <= y < h,
    ensures
        0 <= x + y * w < w * h,
{
}

/// Writes at two different pixel positions commute: the buffer after them
/// does not depend on their order, which is what lets every pixel be
/// computed independently.
pub proof fn lemma_set_pixel_commutes(s: Seq<Vec3>, i: int, j: int, a: Vec3, b: Vec3)
    requires
        0 <= i < s.len(),
        0 <= j < s.len(),
        i != j,
    ensures
        s.update(i, a).update(j, b) == s.update(j, b).update(i, a),
{
    assert(s.update(i, a).update(j, b) =~= s.update(j, b).update(i, a));
}

/// The decimal digits of a number, most significant first, as bytes.
pub open spec fn spec_dec(n: nat) -> Seq<u8>
    decreases n,
{
    if n < 10 {
        seq![(48 + n) as u8]
    } else {
        spec_dec(n / 10) + seq![(48 + n % 10) as u8]
    }
}

/// Appends the decimal digits of `n`.
fn push_dec(out: &mut Vec<u8>, n: u32)
    ensures
        final(out)@ == old(out)@ + spec_dec(n as nat),
    decreases n,
{
    if n < 10 {
        out.push(48 + n as u8);
        assert(final(out)@ =~= old(out)@ + spec_dec(n as nat));
    } else {
        push_dec(out, n / 10);
        out.push(48 + (n % 10) as u8);
        assert(final(out)@ =~= old(out)@ + spec_dec(n as nat));
    }
}

/// One pixel's tonemapped triple: three decimal values, each followed by a
/// space.
pub open spec fn spec_ppm_pixel(v: V3) -> Seq<u8> {
    spec_dec(spec_tonemap(v.x) as nat) + seq![32u8] + spec_dec(spec_tonemap(v.y) as nat) + seq![
        32u8,
    ] + spec_dec(spec_tonemap(v.z) as nat) + seq![32u8]
}

/// The first `k` pixels' triples, concatenated.
pub open spec fn spec_ppm_pixels(pixels: Seq<Vec3>, k: int) -> Seq<u8>
    decreases k,
{
    if k <= 0 {
        Seq::empty()
    } else {
        spec_ppm_pixels(pixels, k - 1) + spec_ppm_pixel(pixels[k - 1]@)
    }
}

/// The whole file: the format token line, the dimensions line, the maximum
/// channel value line, then every pixel triple in buffer order.
pub open spec fn spec_ppm(im: Image) -> Seq<u8> {
    seq![80u8, 51u8, 10u8] + spec_dec(im.width as nat) + seq![32u8] + spec_dec(im.height as nat)
        + seq![10u8, 50u8, 53u8, 53u8, 10u8] + spec_ppm_pixels(
        im.pixels@,
        im.pixels@.len() as int,
    )
}

impl Image {
    /// Serializes the image as plain text, exactly as `spec_ppm` states it.
    /// Writing these bytes to a file is the caller's concern.
    pub fn to_ppm(&self) -> (r: Vec<u8>)
        requires
            image_wf(*self),
        ensures
            r@ == spec_ppm(*self),
    {
        let mut out: Vec<u8> = Vec::new();
        out.push(80);
        out.push(51);
        out.push(10);
        push_dec(&mut out, self.width as u32);
        out.push(32);
        push_dec(&mut out, self.height as u32);
        out.push(10);
        out.push(50);
        out.push(53);
        out.push(53);
        out.push(10);
        let ghost header = out@;
        proof {
            assert(header =~= seq![80u8, 51u8, 10u8] + spec_dec(self.width as nat) + seq![32u8]
                + spec_dec(self.height as nat) + seq![10u8, 50u8, 53u8, 53u8, 10u8]);
        }
        let n = self.pixels.len();
        let mut k: usize = 0;
        while k < n
            invariant
                0 <= k <= n,
                n == self.pixels@.len(),
                out@ == header + spec_ppm_pixels(self.pixels@, k as int),
            decreases n - k,
        {
            let px = self.pixels[k];
            let r = tonemap(px.x);
            let g = tonemap(px.y);
            let b = tonemap(px.z);
            push_dec(&mut out, r as u32);
            out.push(32);
            push_dec(&mut out, g as u32);
            out.push(32);
            push_dec(&mut out, b as u32);
            out.push(32);
            proof {
                assert(out@ =~= header + spec_ppm_pixels(self.pixels@, k + 1));
            }
            k = k + 1;
        }
        proof {
            assert(out@ =~= spec_ppm(*self));
        }
        out
    }
}

} // verus!
