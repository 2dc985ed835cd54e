//! Utilities: angle conversion, fixed-point trigonometry, random
//! sampling helpers, and the image header byte format.

use vstd::prelude::*;
use crate::fixed::{
    SCALE, tdiv, fmul, fdiv, mul_fixed, div_fixed, div_trunc, lemma_isqrt_ge, lemma_fmul_bound,
};
use crate::vector::{
    Vec3, Vec3Model, in_range, vlen_sqr, vnormalized, vneg, vdot, dot, lemma_pmul_fits,
    lemma_vdot_neg_right,
};

verus! {

/// Pi on the fixed-point scale.
pub const PI_FIXED: i64 = 205887;

/// 180 degrees on the fixed-point scale.
pub const DEG_180: i64 = 11796480;

pub open spec fn deg_to_rad_spec(d: int) -> int {
    fdiv(fmul(d, PI_FIXED as int), DEG_180 as int)
}

pub open spec fn rad_to_deg_spec(r: int) -> int {
    fdiv(fmul(r, DEG_180 as int), PI_FIXED as int)
}

pub fn deg_to_rad(deg: i64) -> (r: i64)
    requires
        -0x40_0000_0000 <= deg as int <= 0x40_0000_0000,
    ensures
        r == deg_to_rad_spec(deg as int),
{
    proof {
        lemma_pmul_fits(deg as int, PI_FIXED as int, 0x40_0000_0000, 0x4_0000);
        lemma_fmul_bound(deg as int, PI_FIXED as int, 0x40_0000_0000, 0x4_0000);
    }
    let m = mul_fixed(deg, PI_FIXED);
    div_fixed(m, DEG_180)
}

pub fn rad_to_deg(rad: i64) -> (r: i64)
    requires
        -0x4000_0000 <= rad as int <= 0x4000_0000,
    ensures
        r == rad_to_deg_spec(rad as int),
{
    proof {
        lemma_pmul_fits(rad as int, DEG_180 as int, 0x4000_0000, 0x100_0000);
        lemma_fmul_bound(rad as int, DEG_180 as int, 0x4000_0000, 0x100_0000);
    }
    let m = mul_fixed(rad, DEG_180);
    div_fixed(m, PI_FIXED)
}

/// Taylor approximation of the sine of a fixed-point angle (radians).
pub open spec fn sin_spec(x: int) -> int {
    let x2 = fmul(x, x);
    let x3 = fmul(x2, x);
    let x5 = fmul(x3, x2);
    let x7 = fmul(x5, x2);
    x - tdiv(x3, 6) + tdiv(x5, 120) - tdiv(x7, 5040)
}

/// Taylor approximation of the cosine of a fixed-point angle (radians).
pub open spec fn cos_spec(x: int) -> int {
    let x2 = fmul(x, x);
    let x4 = fmul(x2, x2);
    let x6 = fmul(x4, x2);
    (SCALE as int) - tdiv(x2, 2) + tdiv(x4, 24) - tdiv(x6, 720)
}

/// Tangent as the ratio of the two approximations above.
pub open spec fn tan_spec(x: int) -> int
    recommends
        cos_spec(x) >= 1,
{
    fdiv(sin_spec(x), cos_spec(x))
}

pub fn sin_fixed(x: i64) -> (r: i64)
    requires
        -(PI_FIXED as int) <= x as int <= PI_FIXED as int,
    ensures
        r == sin_spec(x as int),
        -0x1_0000_0000 <= r as int <= 0x1_0000_0000,
{
    proof {
        lemma_pmul_fits(x as int, x as int, 0x4_0000, 0x4_0000);
        lemma_fmul_bound(x as int, x as int, 0x4_0000, 0x4_0000);
    }
    let x2 = mul_fixed(x, x);
    proof {
        lemma_pmul_fits(x2 as int, x as int, 0x10_0000, 0x4_0000);
        lemma_fmul_bound(x2 as int, x as int, 0x10_0000, 0x4_0000);
        lemma_pmul_fits(fmul(x2 as int, x as int), x2 as int, 0x40_0000, 0x10_0000);
        lemma_fmul_bound(fmul(x2 as int, x as int), x2 as int, 0x40_0000, 0x10_0000);
    }
    let x3 = mul_fixed(x2, x);
    let x5 = mul_fixed(x3, x2);
    proof {
        lemma_pmul_fits(x5 as int, x2 as int, 0x400_0000, 0x10_0000);
        lemma_fmul_bound(x5 as int, x2 as int, 0x400_0000, 0x10_0000);
    }
    let x7 = mul_fixed(x5, x2);
    let t3 = div_trunc(x3, 6);
    let t5 = div_trunc(x5, 120);
    let t7 = div_trunc(x7, 5040);
    proof {
        crate::fixed::lemma_tdiv_abs(x3 as int, 6);
        crate::fixed::lemma_tdiv_abs(x5 as int, 120);
        crate::fixed::lemma_tdiv_abs(x7 as int, 5040);
    }
    x - t3 + t5 - t7
}

pub fn cos_fixed(x: i64) -> (r: i64)
    requires
        -(PI_FIXED as int) <= x as int <= PI_FIXED as int,
    ensures
        r == cos_spec(x as int),
        -0x1_0000_0000 <= r as int <= 0x1_0000_0000,
{
    proof {
        lemma_pmul_fits(x as int, x as int, 0x4_0000, 0x4_0000);
        lemma_fmul_bound(x as int, x as int, 0x4_0000, 0x4_0000);
    }
    let x2 = mul_fixed(x, x);
    proof {
        lemma_pmul_fits(x2 as int, x2 as int, 0x10_0000, 0x10_0000);
        lemma_fmul_bound(x2 as int, x2 as int, 0x10_0000, 0x10_0000);
        lemma_pmul_fits(fmul(x2 as int, x2 as int), x2 as int, 0x100_0000, 0x10_0000);
        lemma_fmul_bound(fmul(x2 as int, x2 as int), x2 as int, 0x100_0000, 0x10_0000);
    }
    let x4 = mul_fixed(x2, x2);
    let x6 = mul_fixed(x4, x2);
    let t2 = div_trunc(x2, 2);
    let t4 = div_trunc(x4, 24);
    let t6 = div_trunc(x6, 720);
    proof {
        crate::fixed::lemma_tdiv_abs(x2 as int, 2);
        crate::fixed::lemma_tdiv_abs(x4 as int, 24);
        crate::fixed::lemma_tdiv_abs(x6 as int, 720);
    }
    65536 - t2 + t4 - t6
}

/// Tangent of a fixed-point angle whose cosine is positive.
pub fn tan_fixed(x: i64) -> (r: i64)
    requires
        -(PI_FIXED as int) <= x as int <= PI_FIXED as int,
        cos_spec(x as int) >= 1,
    ensures
        r == tan_spec(x as int),
{
    let s = sin_fixed(x);
    let c = cos_fixed(x);
    div_fixed(s, c)
}

/// Relies on `rand::random`: one raw draw from the thread-local
/// generator. Nothing is assumed about the value returned.
#[verifier::external_body]
fn random_raw() -> u64 {
    rand::random::<u64>()
}

/// A uniform fixed-point draw from `[0, 1)`.
pub fn random() -> (r: i64)
    ensures
        0 <= r < SCALE,
{
    let raw = random_raw();
    (raw % 65536) as i64
}

/// A point inside the unit disk (`z == 0`), by rejection sampling.
/// After too many rejections the center is returned; the result is
/// always strictly inside the disk.
pub fn random_in_unit_disk() -> (v: Vec3)
    ensures
        in_range(v@, SCALE as int),
        vlen_sqr(v@) < SCALE as int,
        v@.z == 0,
{
    let mut i: u8 = 0;
    while i < 64
        invariant
            i <= 64,
        decreases 64 - i,
    {
        let p3 = Vec3::random_range(-65536, 65536);
        let point = Vec3::new(p3.x, p3.y, 0);
        let ls = point.len_sqr();
        if ls < 65536 {
            return point;
        }
        i = i + 1;
    }
    let center = Vec3::new(0, 0, 0);
    proof {
        assert(vlen_sqr(center@) == 0);
    }
    center
}

/// A point inside the unit ball, by rejection sampling. Points too
/// close to the origin are also rejected, so the result is always safe
/// to normalize; after too many rejections a fixed interior point is
/// returned.
pub fn random_in_unit_sphere() -> (v: Vec3)
    ensures
        in_range(v@, SCALE as int),
        64 <= vlen_sqr(v@) < SCALE as int,
{
    let mut i: u8 = 0;
    while i < 64
        invariant
            i <= 64,
        decreases 64 - i,
    {
        let point = Vec3::random_range(-65536, 65536);
        let ls = point.len_sqr();
        if 64 <= ls && ls < 65536 {
            return point;
        }
        i = i + 1;
    }
    let fallback = Vec3::new(32768, 0, 0);
    proof {
        assert(fmul(32768, 32768) == 16384);
        assert(fmul(0, 0) == 0);
    }
    fallback
}

/// What a unit-direction sample is: a bounded vector that is the
/// normalization of some not-too-small point of the closed unit ball.
pub open spec fn unit_sample_shape(u: Vec3Model) -> bool {
    &&& in_range(u, 2 * SCALE as int)
    &&& exists|p: Vec3Model|
        in_range(p, SCALE as int) && 64 <= vlen_sqr(p) <= SCALE as int && u == vnormalized(p)
}

/// A direction of (approximately) unit length, uniformly distributed.
pub fn random_unit_vector() -> (v: Vec3)
    ensures
        in_range(v@, 2 * SCALE as int),
        unit_sample_shape(v@),
{
    let p = random_in_unit_sphere();
    proof {
        lemma_isqrt_ge(vlen_sqr(p@) * (SCALE as int), 2048);
    }
    let u = p.normalized();
    if -131072 <= u.x && u.x <= 131072 && -131072 <= u.y && u.y <= 131072 && -131072 <= u.z
        && u.z <= 131072 {
        proof {
            assert(in_range(p@, SCALE as int) && 64 <= vlen_sqr(p@) <= SCALE as int && u@
                == vnormalized(p@));
        }
        u
    } else {
        let fallback = Vec3::new(65536, 0, 0);
        proof {
            lemma_unit_fallback_shape(fallback@);
        }
        fallback
    }
}

/// The fixed fallback direction is itself the normalization of a unit
/// ball boundary point, so it satisfies the sample shape.
proof fn lemma_unit_fallback_shape(f: Vec3Model)
    requires
        f == (Vec3Model { x: 65536int, y: 0int, z: 0int }),
    ensures
        unit_sample_shape(f),
{
    let p = Vec3Model { x: 65536int, y: 0int, z: 0int };
    vstd::arithmetic::div_mod::lemma_div_pos_is_pos(0, 65536);
    vstd::arithmetic::div_mod::lemma_div_nonincreasing(0, 65536);
    assert((65536int * 65536) / 65536 == 65536) by (nonlinear_arith);
    assert(fmul(0, 0) == 0);
    assert(fmul(65536, 65536) == 65536);
    assert(vlen_sqr(p) == 65536);
    crate::fixed::lemma_isqrt_unique(65536int * 65536, 65536);
    assert(crate::fixed::fsqrt(65536) == 65536);
    assert(fdiv(65536, 65536) == 65536);
    assert(fdiv(0, 65536) == 0);
    assert(vnormalized(p) =~= f) by {
        assert(vnormalized(p).x == fdiv(65536, 65536));
    }
    assert(in_range(p, SCALE as int) && 64 <= vlen_sqr(p) <= SCALE as int && f == vnormalized(p));
}

/// A unit-length direction in the hemisphere around `normal`.
pub fn random_on_unit_hemisphere(normal: &Vec3) -> (v: Vec3)
    requires
        in_range(normal@, 0x40_0000_0000),
    ensures
        in_range(v@, 2 * SCALE as int),
        vdot(normal@, v@) >= 0,
        exists|u: Vec3Model| unit_sample_shape(u) && (v@ == u || v@ == vneg(u)),
{
    let point = random_unit_vector();
    let d = dot(normal, &point);
    let is_correct_hs = d > 0;
    if is_correct_hs {
        proof {
            assert(unit_sample_shape(point@) && (point@ == point@ || point@ == vneg(point@)));
        }
        point
    } else {
        proof {
            lemma_vdot_neg_right(normal@, point@);
        }
        let ghost flipped = vneg(point@);
        proof {
            assert(unit_sample_shape(point@) && (flipped == point@ || flipped == vneg(point@)));
        }
        point.neg()
    }
}

/// Decimal digits of a nonnegative number, as ASCII bytes.
pub open spec fn dec_bytes(n: int) -> Seq<u8>
    recommends
        n >= 0,
    decreases n,
{
    if n < 10 {
        seq![(48 + n) as u8]
    } else {
        dec_bytes(n / 10).push((48 + n % 10) as u8)
    }
}

/// Append the decimal digits of `n`.
pub fn push_decimal(out: &mut Vec<u8>, n: u64)
    ensures
        final(out)@ == old(out)@ + dec_bytes(n as int),
    decreases n,
{
    if n >= 10 {
        proof {
            vstd::arithmetic::div_mod::lemma_div_nonincreasing(n as int, 10);
            assert((n as int) / 10 < n as int) by (nonlinear_arith)
                requires
                    n >= 10,
            ;
        }
        push_decimal(out, n / 10);
    }
    let d: u8 = 48 + (n % 10) as u8;
    out.push(d);
    proof {
        assert(out@ =~= old(out)@ + dec_bytes(n as int));
    }
}

/// The image header: `P3`, the dimensions, and the channel maximum.
pub open spec fn header_bytes(w: int, h: int) -> Seq<u8>
    recommends
        w >= 0,
        h >= 0,
{
    seq![80u8, 51u8, 10u8] + dec_bytes(w) + seq![32u8] + dec_bytes(h) + seq![
        10u8,
        50u8,
        53u8,
        53u8,
        10u8,
    ]
}

/// One pixel's line in the image body: the three channels separated by
/// spaces, closed by a newline.
pub open spec fn color_line_bytes(c: crate::color::Color) -> Seq<u8> {
    dec_bytes(c.r as int) + seq![32u8] + dec_bytes(c.g as int) + seq![32u8] + dec_bytes(
        c.b as int,
    ) + seq![10u8]
}

/// The image body: one line per pixel, in sequence order.
pub open spec fn image_lines(pixels: Seq<crate::color::Color>) -> Seq<u8>
    decreases pixels.len(),
{
    if pixels.len() == 0 {
        Seq::empty()
    } else {
        image_lines(pixels.drop_last()) + color_line_bytes(pixels.last())
    }
}

/// The whole image stream: header, then the pixel lines.
pub open spec fn image_bytes(w: int, h: int, pixels: Seq<crate::color::Color>) -> Seq<u8> {
    header_bytes(w, h) + image_lines(pixels)
}

/// Append one pixel's line.
pub fn push_color_line(out: &mut Vec<u8>, c: crate::color::Color)
    ensures
        final(out)@ == old(out)@ + color_line_bytes(c),
{
    push_decimal(out, c.r as u64);
    out.push(32);
    push_decimal(out, c.g as u64);
    out.push(32);
    push_decimal(out, c.b as u64);
    out.push(10);
    proof {
        assert(out@ =~= old(out)@ + color_line_bytes(c));
    }
}

/// Serialize a rendered frame into the text byte stream of the image
/// format: a header and `width * height` pixel lines, row-major.
pub fn ppm_image(width: u32, height: u32, pixels: &Vec<crate::color::Color>) -> (out: Vec<u8>)
    requires
        pixels@.len() == (width as int) * (height as int),
    ensures
        out@ == image_bytes(width as int, height as int, pixels@),
{
    let mut out = image_header(width, height);
    let n = pixels.len();
    proof {
        assert(pixels@.take(0) =~= Seq::<crate::color::Color>::empty());
    }
    let mut i: usize = 0;
    while i < n
        invariant
            i <= n,
            n == pixels@.len(),
            out@ == header_bytes(width as int, height as int) + image_lines(
                pixels@.take(i as int),
            ),
        decreases n - i,
    {
        push_color_line(&mut out, pixels[i]);
        proof {
            assert(pixels@.take(i as int + 1).drop_last() =~= pixels@.take(i as int));
            assert(pixels@.take(i as int + 1).last() == pixels@[i as int]);
            assert(out@ =~= header_bytes(width as int, height as int) + image_lines(
                pixels@.take(i as int + 1),
            ));
        }
        i = i + 1;
    }
    proof {
        assert(pixels@.take(n as int) =~= pixels@);
    }
    out
}

/// Build the image header bytes for a `w` by `h` frame.
pub fn image_header(width: u32, height: u32) -> (out: Vec<u8>)
    ensures
        out@ == header_bytes(width as int, height as int),
{
    let mut out: Vec<u8> = Vec::new();
    out.push(80);
    out.push(51);
    out.push(10);
    push_decimal(&mut out, width as u64);
    out.push(32);
    push_decimal(&mut out, height as u64);
    out.push(10);
    out.push(50);
    out.push(53);
    out.push(53);
    out.push(10);
    proof {
        assert(out@ =~= header_bytes(width as int, height as int));
    }
    out
}

} // verus!
