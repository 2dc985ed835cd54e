//! Three-component vectors over fixed-point scalars.
//!
//! Every executable operation is described exactly by a spec-level
//! counterpart on `Vec3Model`, whose coordinates are unbounded integers
//! on the fixed-point scale.

use vstd::prelude::*;
use crate::fixed::{
    SCALE, tdiv, fmul, fdiv, fsqrt, mul_fixed, div_fixed, sqrt_fixed, lemma_fmul_bound,
    lemma_tdiv_abs,
};

verus! {

/// Components with magnitude below this (about 3e-5 in real units)
/// count as near zero; such vectors are unsafe to normalize.
pub const NEAR_ZERO_EPS: i64 = 2;

/// The mathematical image of a `Vec3`: unbounded fixed-point coordinates.
pub struct Vec3Model {
    pub x: int,
    pub y: int,
    pub z: int,
}

#[derive(Clone, Copy, Debug, PartialEq, Eq, Structural)]
pub struct Vec3 {
    pub x: i64,
    pub y: i64,
    pub z: i64,
}

impl View for Vec3 {
    type V = Vec3Model;

    open spec fn view(&self) -> Vec3Model {
        Vec3Model { x: self.x as int, y: self.y as int, z: self.z as int }
    }
}

/// All three coordinates lie within `cap` in magnitude.
pub open spec fn in_range(a: Vec3Model, cap: int) -> bool {
    &&& -cap <= a.x <= cap
    &&& -cap <= a.y <= cap
    &&& -cap <= a.z <= cap
}

pub open spec fn fits_i64(x: int) -> bool {
    i64::MIN <= x <= i64::MAX
}

pub open spec fn vadd(a: Vec3Model, b: Vec3Model) -> Vec3Model {
    Vec3Model { x: a.x + b.x, y: a.y + b.y, z: a.z + b.z }
}

pub open spec fn vsub(a: Vec3Model, b: Vec3Model) -> Vec3Model {
    Vec3Model { x: a.x - b.x, y: a.y - b.y, z: a.z - b.z }
}

pub open spec fn vneg(a: Vec3Model) -> Vec3Model {
    Vec3Model { x: -a.x, y: -a.y, z: -a.z }
}

/// Componentwise fixed-point scaling.
pub open spec fn vscale(a: Vec3Model, s: int) -> Vec3Model {
    Vec3Model { x: fmul(a.x, s), y: fmul(a.y, s), z: fmul(a.z, s) }
}

/// Componentwise fixed-point division by a positive scalar.
pub open spec fn vdiv(a: Vec3Model, s: int) -> Vec3Model
    recommends
        s >= 1,
{
    Vec3Model { x: fdiv(a.x, s), y: fdiv(a.y, s), z: fdiv(a.z, s) }
}

/// Fixed-point dot product.
pub open spec fn vdot(a: Vec3Model, b: Vec3Model) -> int {
    fmul(a.x, b.x) + fmul(a.y, b.y) + fmul(a.z, b.z)
}

/// Fixed-point cross product, the standard component formula.
pub open spec fn vcross(a: Vec3Model, b: Vec3Model) -> Vec3Model {
    Vec3Model {
        x: fmul(a.y, b.z) - fmul(b.y, a.z),
        y: fmul(b.x, a.z) - fmul(a.x, b.z),
        z: fmul(a.x, b.y) - fmul(b.x, a.y),
    }
}

pub open spec fn vlen_sqr(a: Vec3Model) -> int {
    vdot(a, a)
}

pub open spec fn vlen(a: Vec3Model) -> int {
    fsqrt(vlen_sqr(a))
}

/// Normalization: each coordinate divided by the length.
pub open spec fn vnormalized(a: Vec3Model) -> Vec3Model
    recommends
        vlen(a) >= 1,
{
    vdiv(a, vlen(a))
}

/// Mirror reflection about a surface normal: `v - 2 * dot(v, n) * n`.
pub open spec fn vreflect(v: Vec3Model, n: Vec3Model) -> Vec3Model {
    Vec3Model {
        x: v.x - 2 * fmul(n.x, vdot(v, n)),
        y: v.y - 2 * fmul(n.y, vdot(v, n)),
        z: v.z - 2 * fmul(n.z, vdot(v, n)),
    }
}

/// Snell's-law refraction of a (near unit) direction `uv` about the
/// normal `n`, with the given ratio of refractive indices:
/// `r_perp = ratio * (uv + cos_theta * n)` and
/// `r_par = -sqrt(1 - |r_perp|^2) * n` (the radicand clamped at zero).
pub open spec fn vrefract(uv: Vec3Model, n: Vec3Model, ratio: int) -> Vec3Model
    recommends
        ratio >= 1,
{
    let c0 = vdot(vneg(uv), n);
    let cos_theta = if c0 < SCALE as int {
        c0
    } else {
        SCALE as int
    };
    let r_perp = vscale(vadd(uv, vscale(n, cos_theta)), ratio);
    let k = (SCALE as int) - vlen_sqr(r_perp);
    let kpos = if k >= 0 {
        k
    } else {
        0
    };
    let r_par = vscale(n, -fsqrt(kpos));
    vadd(r_perp, r_par)
}

pub open spec fn vnear_zero(a: Vec3Model) -> bool {
    &&& -(NEAR_ZERO_EPS as int) < a.x < NEAR_ZERO_EPS as int
    &&& -(NEAR_ZERO_EPS as int) < a.y < NEAR_ZERO_EPS as int
    &&& -(NEAR_ZERO_EPS as int) < a.z < NEAR_ZERO_EPS as int
}

/// Factors within `ca` and `cb` give a product that `mul_fixed` accepts,
/// provided `ca * cb` stays below the fixed-point overflow line.
pub proof fn lemma_pmul_fits(a: int, b: int, ca: int, cb: int)
    requires
        -ca <= a <= ca,
        -cb <= b <= cb,
        0 <= ca,
        0 <= cb,
        ca * cb < (i64::MAX as int + 1) * (SCALE as int),
    ensures
        -(i64::MAX as int + 1) * (SCALE as int) < a * b,
        a * b < (i64::MAX as int + 1) * (SCALE as int),
{
    assert(-(ca * cb) <= a * b <= ca * cb) by (nonlinear_arith)
        requires
            -ca <= a <= ca,
            -cb <= b <= cb,
            0 <= ca,
            0 <= cb,
    ;
}

/// A fixed-point square is never negative.
pub proof fn lemma_fmul_sq_nonneg(x: int)
    ensures
        fmul(x, x) >= 0,
{
    assert(x * x >= 0) by (nonlinear_arith);
    lemma_tdiv_abs(x * x, SCALE as int);
}

/// A squared length is never negative.
pub proof fn lemma_vlen_sqr_nonneg(a: Vec3Model)
    ensures
        vlen_sqr(a) >= 0,
{
    lemma_fmul_sq_nonneg(a.x);
    lemma_fmul_sq_nonneg(a.y);
    lemma_fmul_sq_nonneg(a.z);
}

/// Negating one argument negates a fixed-point dot product exactly.
pub proof fn lemma_vdot_neg_right(a: Vec3Model, b: Vec3Model)
    ensures
        vdot(a, vneg(b)) == -vdot(a, b),
{
    crate::fixed::lemma_fmul_neg(a.x, b.x);
    crate::fixed::lemma_fmul_neg(a.y, b.y);
    crate::fixed::lemma_fmul_neg(a.z, b.z);
}

/// Each component of a normalized vector stays within twice the unit,
/// provided the vector's length is at least 256 (1/256 real units):
/// the component is at most the length plus the square-root slack, and
/// dividing by the length leaves at most one unit plus a small excess.
proof fn lemma_normalized_component_bound(x: int, ls: int, len: int)
    requires
        fmul(x, x) <= ls,
        0 <= ls,
        len == crate::fixed::isqrt(ls * (SCALE as int)),
        len >= 256,
    ensures
        -2 * (SCALE as int) <= fdiv(x, len) <= 2 * (SCALE as int),
{
    let s = SCALE as int;
    assert(x * x >= 0) by (nonlinear_arith);
    vstd::arithmetic::div_mod::lemma_fundamental_div_mod(x * x, s);
    vstd::arithmetic::div_mod::lemma_mod_bound(x * x, s);
    assert(x * x <= s * ls + s - 1) by (nonlinear_arith)
        requires
            x * x == s * ((x * x) / s) + (x * x) % s,
            (x * x) / s <= ls,
            0 <= (x * x) % s < s,
            s == 65536,
    ;
    crate::fixed::lemma_isqrt_bounds(ls * s);
    assert(x * x < (len + 256) * (len + 256)) by (nonlinear_arith)
        requires
            x * x <= s * ls + s - 1,
            ls * s < (len + 1) * (len + 1),
            len >= 1,
            s == 65536,
    ;
    assert(-(len + 255) <= x <= len + 255) by (nonlinear_arith)
        requires
            x * x < (len + 256) * (len + 256),
            len >= 0,
    ;
    let cap = (len + 255) * s;
    assert(x * s <= cap && -cap <= x * s) by (nonlinear_arith)
        requires
            -(len + 255) <= x <= len + 255,
            s > 0,
            cap == (len + 255) * s,
    ;
    crate::fixed::lemma_tdiv_monotone(x * s, cap, len);
    crate::fixed::lemma_tdiv_monotone(-cap, x * s, len);
    vstd::arithmetic::div_mod::lemma_fundamental_div_mod(255 * s, len);
    vstd::arithmetic::div_mod::lemma_mod_bound(255 * s, len);
    let q = (255 * s) / len;
    let rm = (255 * s) % len;
    assert(cap == len * (s + q) + rm) by (nonlinear_arith)
        requires
            cap == (len + 255) * s,
            255 * s == len * q + rm,
            s == 65536,
    ;
    vstd::arithmetic::div_mod::lemma_fundamental_div_mod_converse(cap, len, s + q, rm);
    vstd::arithmetic::div_mod::lemma_div_is_ordered_by_denominator(255 * s, 256, len);
    assert((255int * 65536) / 256 == 65280) by (nonlinear_arith);
    assert(tdiv(cap, len) == s + q);
    assert(tdiv(-cap, len) == -(s + q));
}

impl Vec3 {
    pub fn new(x: i64, y: i64, z: i64) -> (v: Vec3)
        ensures
            v@ == (Vec3Model { x: x as int, y: y as int, z: z as int }),
    {
        Vec3 { x, y, z }
    }

    pub fn add(&self, rhs: &Vec3) -> (r: Vec3)
        requires
            fits_i64(self@.x + rhs@.x),
            fits_i64(self@.y + rhs@.y),
            fits_i64(self@.z + rhs@.z),
        ensures
            r@ == vadd(self@, rhs@),
    {
        Vec3 { x: self.x + rhs.x, y: self.y + rhs.y, z: self.z + rhs.z }
    }

    pub fn sub(&self, rhs: &Vec3) -> (r: Vec3)
        requires
            fits_i64(self@.x - rhs@.x),
            fits_i64(self@.y - rhs@.y),
            fits_i64(self@.z - rhs@.z),
        ensures
            r@ == vsub(self@, rhs@),
    {
        Vec3 { x: self.x - rhs.x, y: self.y - rhs.y, z: self.z - rhs.z }
    }

    pub fn neg(&self) -> (r: Vec3)
        requires
            self@.x > i64::MIN,
            self@.y > i64::MIN,
            self@.z > i64::MIN,
        ensures
            r@ == vneg(self@),
    {
        Vec3 { x: -self.x, y: -self.y, z: -self.z }
    }

    /// Scale by a fixed-point factor.
    pub fn scale(&self, s: i64) -> (r: Vec3)
        requires
            in_range(self@, 0x40_0000_0000),
            -0x40_0000_0000 <= s as int <= 0x40_0000_0000,
        ensures
            r@ == vscale(self@, s as int),
            in_range(r@, 0x1000_0000_0000_0000),
    {
        proof {
            lemma_pmul_fits(self@.x, s as int, 0x40_0000_0000, 0x40_0000_0000);
            lemma_pmul_fits(self@.y, s as int, 0x40_0000_0000, 0x40_0000_0000);
            lemma_pmul_fits(self@.z, s as int, 0x40_0000_0000, 0x40_0000_0000);
            lemma_fmul_bound(self@.x, s as int, 0x40_0000_0000, 0x40_0000_0000);
            lemma_fmul_bound(self@.y, s as int, 0x40_0000_0000, 0x40_0000_0000);
            lemma_fmul_bound(self@.z, s as int, 0x40_0000_0000, 0x40_0000_0000);
        }
        Vec3 {
            x: mul_fixed(self.x, s),
            y: mul_fixed(self.y, s),
            z: mul_fixed(self.z, s),
        }
    }

    /// Divide by a positive fixed-point scalar.
    pub fn div(&self, s: i64) -> (r: Vec3)
        requires
            s >= 1,
            in_range(self@, 0x4000_0000_0000),
        ensures
            r@ == vdiv(self@, s as int),
    {
        Vec3 {
            x: div_fixed(self.x, s),
            y: div_fixed(self.y, s),
            z: div_fixed(self.z, s),
        }
    }

    pub fn len_sqr(&self) -> (r: i64)
        requires
            in_range(self@, 0x40_0000_0000),
        ensures
            r == vlen_sqr(self@),
            r >= 0,
    {
        proof {
            lemma_vlen_sqr_nonneg(self@);
        }
        dot(self, self)
    }

    pub fn len(&self) -> (r: i64)
        requires
            in_range(self@, 0x40_0000_0000),
        ensures
            r == vlen(self@),
            r >= 0,
    {
        let squared = self.len_sqr();
        sqrt_fixed(squared)
    }

    pub fn near_zero(&self) -> (r: bool)
        ensures
            r == vnear_zero(self@),
    {
        let small_num: i64 = NEAR_ZERO_EPS;
        -small_num < self.x && self.x < small_num && -small_num < self.y && self.y < small_num
            && -small_num < self.z && self.z < small_num
    }

    /// Mirror reflection about `normal`.
    pub fn reflect(&self, normal: &Vec3) -> (r: Vec3)
        requires
            in_range(self@, 0x800_0000),
            in_range(normal@, 0x4_0000),
        ensures
            r@ == vreflect(self@, normal@),
            in_range(r@, 0x8_0000_0000),
    {
        let d = dot(self, normal);
        proof {
            lemma_fmul_bound(self@.x, normal@.x, 0x800_0000, 0x4_0000);
            lemma_fmul_bound(self@.y, normal@.y, 0x800_0000, 0x4_0000);
            lemma_fmul_bound(self@.z, normal@.z, 0x800_0000, 0x4_0000);
            lemma_pmul_fits(normal@.x, d as int, 0x4_0000, 0x8000_0000);
            lemma_pmul_fits(normal@.y, d as int, 0x4_0000, 0x8000_0000);
            lemma_pmul_fits(normal@.z, d as int, 0x4_0000, 0x8000_0000);
            lemma_fmul_bound(normal@.x, d as int, 0x4_0000, 0x8000_0000);
            lemma_fmul_bound(normal@.y, d as int, 0x4_0000, 0x8000_0000);
            lemma_fmul_bound(normal@.z, d as int, 0x4_0000, 0x8000_0000);
        }
        let px = mul_fixed(normal.x, d);
        let py = mul_fixed(normal.y, d);
        let pz = mul_fixed(normal.z, d);
        Vec3 { x: self.x - 2 * px, y: self.y - 2 * py, z: self.z - 2 * pz }
    }

    /// Refract this (near unit) direction about `normal` with the
    /// given ratio of refractive indices.
    pub fn refract(&self, normal: &Vec3, ratio: i64) -> (r: Vec3)
        requires
            in_range(self@, 0x2_0000),
            in_range(normal@, 0x4_0000),
            1 <= ratio as int <= 0x100_0000,
        ensures
            r@ == vrefract(self@, normal@, ratio as int),
            in_range(r@, 0x2_0000_0000),
    {
        let nself = self.neg();
        let c0 = dot(&nself, normal);
        proof {
            lemma_fmul_bound(-self@.x, normal@.x, 0x2_0000, 0x4_0000);
            lemma_fmul_bound(-self@.y, normal@.y, 0x2_0000, 0x4_0000);
            lemma_fmul_bound(-self@.z, normal@.z, 0x2_0000, 0x4_0000);
        }
        let cos_theta = if c0 < 65536 {
            c0
        } else {
            65536
        };
        proof {
            lemma_fmul_bound(normal@.x, cos_theta as int, 0x4_0000, 0x20_0000);
            lemma_fmul_bound(normal@.y, cos_theta as int, 0x4_0000, 0x20_0000);
            lemma_fmul_bound(normal@.z, cos_theta as int, 0x4_0000, 0x20_0000);
        }
        let scaled_n = normal.scale(cos_theta);
        let sum = self.add(&scaled_n);
        proof {
            lemma_fmul_bound(sum@.x, ratio as int, 0x100_0000, 0x100_0000);
            lemma_fmul_bound(sum@.y, ratio as int, 0x100_0000, 0x100_0000);
            lemma_fmul_bound(sum@.z, ratio as int, 0x100_0000, 0x100_0000);
        }
        let r_perp = sum.scale(ratio);
        let ls = r_perp.len_sqr();
        let k = 65536 - ls;
        let kpos = if k >= 0 {
            k
        } else {
            0
        };
        let sq = sqrt_fixed(kpos);
        proof {
            crate::fixed::lemma_isqrt_bounds((kpos as int) * (SCALE as int));
            assert(sq as int <= SCALE as int) by (nonlinear_arith)
                requires
                    sq as int >= 0,
                    (sq as int) * (sq as int) <= (kpos as int) * (SCALE as int),
                    0 <= kpos as int <= SCALE as int,
            ;
            lemma_fmul_bound(normal@.x, -(sq as int), 0x4_0000, 0x1_0000);
            lemma_fmul_bound(normal@.y, -(sq as int), 0x4_0000, 0x1_0000);
            lemma_fmul_bound(normal@.z, -(sq as int), 0x4_0000, 0x1_0000);
        }
        let r_par = normal.scale(-sq);
        r_perp.add(&r_par)
    }

    /// A vector with each component drawn uniformly from `[0, 1)`.
    pub fn random() -> (v: Vec3)
        ensures
            0 <= v@.x < SCALE as int,
            0 <= v@.y < SCALE as int,
            0 <= v@.z < SCALE as int,
    {
        Vec3::new(crate::rt_util::random(), crate::rt_util::random(), crate::rt_util::random())
    }

    /// A vector with each component drawn uniformly from `[lo, hi)`.
    pub fn random_range(lo: i64, hi: i64) -> (v: Vec3)
        requires
            -0x40_0000_0000 <= lo as int,
            (lo as int) < hi as int,
            hi as int <= 0x40_0000_0000,
        ensures
            lo as int <= v@.x < hi as int,
            lo as int <= v@.y < hi as int,
            lo as int <= v@.z < hi as int,
    {
        Vec3::new(
            random_component(lo, hi),
            random_component(lo, hi),
            random_component(lo, hi),
        )
    }

    /// Direction of `self` with (approximately) unit length.
    ///
    /// Zero-length input is ruled out by `requires`: presenting a
    /// degenerate vector here is a caller bug, as the geometry layer
    /// guards against it explicitly.
    pub fn normalized(&self) -> (r: Vec3)
        requires
            in_range(self@, 0x40_0000_0000),
            vlen(self@) >= 1,
        ensures
            r@ == vnormalized(self@),
            in_range(r@, 0x40_0000_0000_0000),
            vlen(self@) >= 256 ==> in_range(r@, 2 * SCALE as int),
    {
        let l = self.len();
        proof {
            lemma_tdiv_abs(self@.x * (SCALE as int), vlen(self@));
            lemma_tdiv_abs(self@.y * (SCALE as int), vlen(self@));
            lemma_tdiv_abs(self@.z * (SCALE as int), vlen(self@));
            if l >= 256 {
                lemma_fmul_sq_nonneg(self@.x);
                lemma_fmul_sq_nonneg(self@.y);
                lemma_fmul_sq_nonneg(self@.z);
                lemma_normalized_component_bound(self@.x, vlen_sqr(self@), vlen(self@));
                lemma_normalized_component_bound(self@.y, vlen_sqr(self@), vlen(self@));
                lemma_normalized_component_bound(self@.z, vlen_sqr(self@), vlen(self@));
            }
        }
        self.div(l)
    }
}

/// One uniform draw from `[lo, hi)`, on the fixed-point scale.
fn random_component(lo: i64, hi: i64) -> (c: i64)
    requires
        -0x40_0000_0000 <= lo as int,
        (lo as int) < hi as int,
        hi as int <= 0x40_0000_0000,
    ensures
        lo as int <= c < hi as int,
{
    let u = crate::rt_util::random();
    let d = hi - lo;
    proof {
        lemma_pmul_fits(u as int, d as int, 0x1_0000, 0x80_0000_0000);
        let ud = (u as int) * (d as int);
        assert(0 <= ud && ud <= ((SCALE as int) - 1) * (d as int)) by (nonlinear_arith)
            requires
                0 <= u as int <= (SCALE as int) - 1,
                1 <= d as int,
                ud == (u as int) * (d as int),
        ;
        vstd::arithmetic::div_mod::lemma_fundamental_div_mod(ud, SCALE as int);
        vstd::arithmetic::div_mod::lemma_mod_bound(ud, SCALE as int);
        assert(0 <= ud / (SCALE as int) && ud / (SCALE as int) < d as int) by (nonlinear_arith)
            requires
                0 <= ud,
                ud <= ((SCALE as int) - 1) * (d as int),
                1 <= d as int,
                ud == (SCALE as int) * (ud / (SCALE as int)) + ud % (SCALE as int),
                0 <= ud % (SCALE as int) < SCALE as int,
        ;
    }
    let off = mul_fixed(u, d);
    lo + off
}

pub fn dot(a: &Vec3, b: &Vec3) -> (r: i64)
    requires
        in_range(a@, 0x40_0000_0000),
        in_range(b@, 0x40_0000_0000),
    ensures
        r == vdot(a@, b@),
{
    proof {
        lemma_pmul_fits(a@.x, b@.x, 0x40_0000_0000, 0x40_0000_0000);
        lemma_pmul_fits(a@.y, b@.y, 0x40_0000_0000, 0x40_0000_0000);
        lemma_pmul_fits(a@.z, b@.z, 0x40_0000_0000, 0x40_0000_0000);
        lemma_fmul_bound(a@.x, b@.x, 0x40_0000_0000, 0x40_0000_0000);
        lemma_fmul_bound(a@.y, b@.y, 0x40_0000_0000, 0x40_0000_0000);
        lemma_fmul_bound(a@.z, b@.z, 0x40_0000_0000, 0x40_0000_0000);
    }
    let fx = mul_fixed(a.x, b.x);
    let fy = mul_fixed(a.y, b.y);
    let fz = mul_fixed(a.z, b.z);
    let sum: i128 = fx as i128 + fy as i128 + fz as i128;
    sum as i64
}

pub fn cross(a: &Vec3, b: &Vec3) -> (r: Vec3)
    requires
        in_range(a@, 0x40_0000_0000),
        in_range(b@, 0x40_0000_0000),
    ensures
        r@ == vcross(a@, b@),
{
    proof {
        lemma_pmul_fits(a@.y, b@.z, 0x40_0000_0000, 0x40_0000_0000);
        lemma_pmul_fits(b@.y, a@.z, 0x40_0000_0000, 0x40_0000_0000);
        lemma_pmul_fits(a@.x, b@.z, 0x40_0000_0000, 0x40_0000_0000);
        lemma_pmul_fits(b@.x, a@.z, 0x40_0000_0000, 0x40_0000_0000);
        lemma_pmul_fits(a@.x, b@.y, 0x40_0000_0000, 0x40_0000_0000);
        lemma_pmul_fits(b@.x, a@.y, 0x40_0000_0000, 0x40_0000_0000);
        lemma_fmul_bound(a@.y, b@.z, 0x40_0000_0000, 0x40_0000_0000);
        lemma_fmul_bound(b@.y, a@.z, 0x40_0000_0000, 0x40_0000_0000);
        lemma_fmul_bound(a@.x, b@.z, 0x40_0000_0000, 0x40_0000_0000);
        lemma_fmul_bound(b@.x, a@.z, 0x40_0000_0000, 0x40_0000_0000);
        lemma_fmul_bound(a@.x, b@.y, 0x40_0000_0000, 0x40_0000_0000);
        lemma_fmul_bound(b@.x, a@.y, 0x40_0000_0000, 0x40_0000_0000);
    }
    Vec3 {
        x: mul_fixed(a.y, b.z) - mul_fixed(b.y, a.z),
        y: mul_fixed(b.x, a.z) - mul_fixed(a.x, b.z),
        z: mul_fixed(a.x, b.y) - mul_fixed(b.x, a.y),
    }
}

} // verus!
