//! Colors: the displayable byte triple and the fixed-point accumulation
//! triple, with gamma correction and byte quantization.

use vstd::prelude::*;
use crate::fixed::{
    SCALE, tdiv, fmul, fsqrt, mul_fixed, sqrt_fixed, div_trunc, lemma_fmul_bound,
};
use crate::vector::{fits_i64, lemma_pmul_fits};

verus! {

/// A displayable color: one byte per channel.
#[derive(Clone, Copy, Debug, PartialEq, Eq, Structural)]
pub struct Color {
    pub r: u8,
    pub g: u8,
    pub b: u8,
}

/// A normalized color on the fixed-point scale: `SCALE` is full intensity.
#[derive(Clone, Copy, Debug, PartialEq, Eq, Structural)]
pub struct Color01 {
    pub r: i64,
    pub g: i64,
    pub b: i64,
}

/// The mathematical image of a `Color01`: unbounded channels.
pub struct ColorModel {
    pub r: int,
    pub g: int,
    pub b: int,
}

impl View for Color01 {
    type V = ColorModel;

    open spec fn view(&self) -> ColorModel {
        ColorModel { r: self.r as int, g: self.g as int, b: self.b as int }
    }
}

/// Square-root gamma correction of one linear channel.
pub open spec fn gamma_channel(v: int) -> int {
    if v > 0 {
        fsqrt(v)
    } else {
        0
    }
}

/// Quantization of one gamma-corrected channel to a byte:
/// multiply by 255.999, truncate, and saturate into `[0, 255]`.
pub open spec fn quantize_channel(v: int) -> int {
    let q = tdiv(v * 255999, 65536000);
    if q < 0 {
        0
    } else if q > 255 {
        255
    } else {
        q
    }
}

/// The byte a linear channel is displayed as: gamma, then quantization.
pub open spec fn display_channel(v: int) -> int {
    quantize_channel(gamma_channel(v))
}

/// The displayed byte triple of a linear color, as one value.
pub open spec fn display_triple(c: ColorModel) -> Color {
    Color {
        r: display_channel(c.r) as u8,
        g: display_channel(c.g) as u8,
        b: display_channel(c.b) as u8,
    }
}

/// A channel within `cap` in magnitude on every channel.
pub open spec fn channels_in_range(c: Color01, cap: int) -> bool {
    &&& -cap <= c.r <= cap
    &&& -cap <= c.g <= cap
    &&& -cap <= c.b <= cap
}

impl Color01 {
    pub fn new(r: i64, g: i64, b: i64) -> (c: Color01)
        ensures
            c == (Color01 { r, g, b }),
    {
        Color01 { r, g, b }
    }

    /// Componentwise sum.
    pub fn add(&self, rhs: &Color01) -> (c: Color01)
        requires
            fits_i64(self.r + rhs.r),
            fits_i64(self.g + rhs.g),
            fits_i64(self.b + rhs.b),
        ensures
            c.r == self.r + rhs.r,
            c.g == self.g + rhs.g,
            c.b == self.b + rhs.b,
    {
        Color01 { r: self.r + rhs.r, g: self.g + rhs.g, b: self.b + rhs.b }
    }

    /// Componentwise fixed-point product, the attenuation step.
    pub fn mul(&self, rhs: &Color01) -> (c: Color01)
        requires
            channels_in_range(*self, 0x40_0000_0000),
            channels_in_range(*rhs, 0x40_0000_0000),
        ensures
            c.r == fmul(self.r as int, rhs.r as int),
            c.g == fmul(self.g as int, rhs.g as int),
            c.b == fmul(self.b as int, rhs.b as int),
            channels_in_range(c, 0x1000_0000_0000_0000),
    {
        proof {
            lemma_pmul_fits(self.r as int, rhs.r as int, 0x40_0000_0000, 0x40_0000_0000);
            lemma_pmul_fits(self.g as int, rhs.g as int, 0x40_0000_0000, 0x40_0000_0000);
            lemma_pmul_fits(self.b as int, rhs.b as int, 0x40_0000_0000, 0x40_0000_0000);
            lemma_fmul_bound(self.r as int, rhs.r as int, 0x40_0000_0000, 0x40_0000_0000);
            lemma_fmul_bound(self.g as int, rhs.g as int, 0x40_0000_0000, 0x40_0000_0000);
            lemma_fmul_bound(self.b as int, rhs.b as int, 0x40_0000_0000, 0x40_0000_0000);
        }
        Color01 {
            r: mul_fixed(self.r, rhs.r),
            g: mul_fixed(self.g, rhs.g),
            b: mul_fixed(self.b, rhs.b),
        }
    }

    /// Scale every channel by one fixed-point factor.
    pub fn scale(&self, s: i64) -> (c: Color01)
        requires
            channels_in_range(*self, 0x40_0000_0000),
            -0x40_0000_0000 <= s as int <= 0x40_0000_0000,
        ensures
            c.r == fmul(self.r as int, s as int),
            c.g == fmul(self.g as int, s as int),
            c.b == fmul(self.b as int, s as int),
            channels_in_range(c, 0x1000_0000_0000_0000),
    {
        proof {
            lemma_pmul_fits(self.r as int, s as int, 0x40_0000_0000, 0x40_0000_0000);
            lemma_pmul_fits(self.g as int, s as int, 0x40_0000_0000, 0x40_0000_0000);
            lemma_pmul_fits(self.b as int, s as int, 0x40_0000_0000, 0x40_0000_0000);
            lemma_fmul_bound(self.r as int, s as int, 0x40_0000_0000, 0x40_0000_0000);
            lemma_fmul_bound(self.g as int, s as int, 0x40_0000_0000, 0x40_0000_0000);
            lemma_fmul_bound(self.b as int, s as int, 0x40_0000_0000, 0x40_0000_0000);
        }
        Color01 { r: mul_fixed(self.r, s), g: mul_fixed(self.g, s), b: mul_fixed(self.b, s) }
    }

    /// Square-root gamma correction, channel by channel.
    pub fn linear_to_gamma(&self) -> (c: Color01)
        ensures
            c.r == gamma_channel(self.r as int),
            c.g == gamma_channel(self.g as int),
            c.b == gamma_channel(self.b as int),
    {
        let mut ret = Color01 { r: 0, g: 0, b: 0 };
        if self.r > 0 {
            ret.r = sqrt_fixed(self.r);
        }
        if self.g > 0 {
            ret.g = sqrt_fixed(self.g);
        }
        if self.b > 0 {
            ret.b = sqrt_fixed(self.b);
        }
        ret
    }

    /// Quantize each (already gamma-corrected) channel to a byte.
    pub fn quantize(&self) -> (c: Color)
        requires
            channels_in_range(*self, 0x1000_0000_0000),
        ensures
            c.r == quantize_channel(self.r as int),
            c.g == quantize_channel(self.g as int),
            c.b == quantize_channel(self.b as int),
    {
        Color {
            r: quantize_one(self.r),
            g: quantize_one(self.g),
            b: quantize_one(self.b),
        }
    }

    /// The displayable byte triple of a linear color: gamma, then bytes.
    pub fn to_display(&self) -> (c: Color)
        requires
            channels_in_range(*self, 0x1000_0000_0000),
        ensures
            c.r == display_channel(self.r as int),
            c.g == display_channel(self.g as int),
            c.b == display_channel(self.b as int),
            c == display_triple(self@),
    {
        proof {
            lemma_gamma_channel_bound(self.r as int, 0x1000_0000_0000);
            lemma_gamma_channel_bound(self.g as int, 0x1000_0000_0000);
            lemma_gamma_channel_bound(self.b as int, 0x1000_0000_0000);
        }
        self.linear_to_gamma().quantize()
    }
}

impl Color01 {
    /// The normalized color a displayed byte triple stands for:
    /// each channel divided by 255.999.
    pub fn from_color(c: Color) -> (r: Color01)
        ensures
            r.r == tdiv((c.r as int) * 65536000, 255999),
            r.g == tdiv((c.g as int) * 65536000, 255999),
            r.b == tdiv((c.b as int) * 65536000, 255999),
    {
        Color01 {
            r: div_trunc((c.r as i64) * 65536000, 255999),
            g: div_trunc((c.g as i64) * 65536000, 255999),
            b: div_trunc((c.b as i64) * 65536000, 255999),
        }
    }
}

impl Default for Color01 {
    /// Black: every channel zero.
    fn default() -> (c: Color01)
        ensures
            c == (Color01 { r: 0i64, g: 0i64, b: 0i64 }),
    {
        Color01 { r: 0, g: 0, b: 0 }
    }
}

/// A gamma-corrected channel is nonnegative and, for a cap of at least
/// one unit, stays within the cap of its input.
pub proof fn lemma_gamma_channel_bound(v: int, cap: int)
    requires
        -cap <= v <= cap,
        SCALE as int <= cap,
    ensures
        0 <= gamma_channel(v) <= cap,
{
    if v > 0 {
        crate::fixed::lemma_isqrt_bounds(v * (SCALE as int));
        assert(gamma_channel(v) <= cap) by (nonlinear_arith)
            requires
                gamma_channel(v) >= 0,
                gamma_channel(v) * gamma_channel(v) <= v * (SCALE as int),
                0 < v <= cap,
                SCALE as int <= cap,
        ;
    }
}

/// Quantize one channel; the body mirrors `quantize_channel` exactly.
fn quantize_one(v: i64) -> (b: u8)
    requires
        -0x1000_0000_0000 <= v as int <= 0x1000_0000_0000,
    ensures
        b == quantize_channel(v as int),
{
    let p: i64 = v * 255999;
    let q: i64 = div_trunc(p, 65536000);
    if q < 0 {
        0
    } else if q > 255 {
        255
    } else {
        q as u8
    }
}

} // verus!
