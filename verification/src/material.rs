//! Materials: a closed set of three scattering families.

use vstd::prelude::*;
use crate::color::{Color01, ColorModel};
use crate::fixed::{
    SCALE, fmul, fdiv, mul_fixed, div_fixed, sqrt_fixed, lemma_tdiv_abs, lemma_fmul_bound,
};
use crate::vector::{
    Vec3, Vec3Model, vadd, vneg, vdot, vscale, vreflect, vrefract, vnormalized, vlen_sqr,
    vnear_zero, in_range, dot, lemma_pmul_fits,
};
use crate::rt_util::unit_sample_shape;
use crate::ray::Ray;
use crate::primitive::{RayHitResult, NORMAL_LIMIT, DIR_LIMIT};

verus! {

#[derive(Clone, Copy, Debug, PartialEq, Eq, Structural)]
pub enum MaterialType {
    Lambert,
    Metal,
    Dielectric,
}

#[derive(Clone, Copy, Debug, PartialEq, Eq, Structural)]
pub struct Material {
    pub type_info: MaterialType,
    pub albedo: Color01,
    pub fuzziness: i64,
    pub refraction_idx: i64,
}

/// Parameter ranges every material placed in a scene must satisfy:
/// albedo and fuzz within `[0, 1]`, refraction index within `[1/16, 256]`.
pub open spec fn material_wf(m: Material) -> bool {
    &&& 0 <= m.albedo.r <= SCALE as int
    &&& 0 <= m.albedo.g <= SCALE as int
    &&& 0 <= m.albedo.b <= SCALE as int
    &&& 0 <= m.fuzziness <= SCALE as int
    &&& 4096 <= m.refraction_idx <= 0x100_0000
}

impl Default for Material {
    /// A plain diffuse black material.
    fn default() -> (m: Material)
        ensures
            m == (Material {
                type_info: MaterialType::Lambert,
                albedo: Color01 { r: 0i64, g: 0i64, b: 0i64 },
                fuzziness: 0i64,
                refraction_idx: SCALE,
            }),
            material_wf(m),
    {
        Material {
            type_info: MaterialType::Lambert,
            albedo: Color01 { r: 0, g: 0, b: 0 },
            fuzziness: 0,
            refraction_idx: SCALE,
        }
    }
}

/// Schlick's reflectance approximation, on the fixed-point scale:
/// `r0 + (1 - r0) * (1 - cosine)^5` with `r0 = ((1 - n) / (1 + n))^2`.
pub open spec fn schlick_r0(refr_idx: int) -> int
    recommends
        refr_idx >= 1,
{
    let q = fdiv((SCALE as int) - refr_idx, (SCALE as int) + refr_idx);
    fmul(q, q)
}

pub open spec fn schlick_spec(cosine: int, refr_idx: int) -> int
    recommends
        refr_idx >= 1,
{
    let r0 = schlick_r0(refr_idx);
    let omc = (SCALE as int) - cosine;
    let p5 = fmul(fmul(fmul(fmul(omc, omc), omc), omc), omc);
    r0 + fmul((SCALE as int) - r0, p5)
}

/// At normal incidence the Schlick term reduces to `r0` exactly.
pub proof fn lemma_schlick_normal_incidence(refr_idx: int)
    requires
        refr_idx >= 1,
    ensures
        schlick_spec(SCALE as int, refr_idx) == schlick_r0(refr_idx),
{
    assert(fmul(0, 0) == 0);
    assert(fmul((SCALE as int) - schlick_r0(refr_idx), 0) == 0);
}

/// `r0` lies within `[0, 1]` for any admissible refraction index.
pub proof fn lemma_schlick_r0_range(refr_idx: int)
    requires
        refr_idx >= 1,
    ensures
        0 <= schlick_r0(refr_idx) <= SCALE as int,
        -(SCALE as int) <= fdiv((SCALE as int) - refr_idx, (SCALE as int) + refr_idx)
            <= SCALE as int,
{
    let s = SCALE as int;
    let num = (s - refr_idx) * s;
    let den = s + refr_idx;
    let q = fdiv(s - refr_idx, den);
    assert(-(den * s) <= num <= den * s) by (nonlinear_arith)
        requires
            refr_idx >= 1,
            s == 65536,
            num == (s - refr_idx) * s,
            den == s + refr_idx,
    ;
    assert((den * s) / den == s) by (nonlinear_arith)
        requires
            den >= 1,
    ;
    if num >= 0 {
        vstd::arithmetic::div_mod::lemma_div_is_ordered(num, den * s, den);
        vstd::arithmetic::div_mod::lemma_div_pos_is_pos(num, den);
    } else {
        vstd::arithmetic::div_mod::lemma_div_is_ordered(-num, den * s, den);
        vstd::arithmetic::div_mod::lemma_div_pos_is_pos(-num, den);
    }
    crate::vector::lemma_fmul_sq_nonneg(q);
    lemma_fmul_bound(q, q, s, s);
    assert((s * s) / s == s) by (nonlinear_arith)
        requires
            s == 65536,
    ;
}

/// Schlick reflectance. The result is nonnegative; for cosines within
/// `[0, 1]` it stays within `[0, 1]`.
pub fn schlick_reflectance(cosine: i64, refr_idx: i64) -> (r: i64)
    requires
        -0x40_0000 <= cosine as int <= SCALE as int,
        1 <= refr_idx as int <= 0x100_0000,
    ensures
        r == schlick_spec(cosine as int, refr_idx as int),
        r >= 0,
{
    let mut r0 = div_fixed(65536 - refr_idx, 65536 + refr_idx);
    proof {
        lemma_schlick_r0_range(refr_idx as int);
        lemma_pmul_fits(r0 as int, r0 as int, 0x1_0000, 0x1_0000);
    }
    r0 = mul_fixed(r0, r0);
    let omc: i64 = 65536 - cosine;
    proof {
        lemma_pmul_fits(omc as int, omc as int, 0x80_0000, 0x80_0000);
        lemma_fmul_bound(omc as int, omc as int, 0x80_0000, 0x80_0000);
        lemma_pmul_fits(
            fmul(omc as int, omc as int),
            omc as int,
            0x4000_0000,
            0x80_0000,
        );
        lemma_fmul_bound(fmul(omc as int, omc as int), omc as int, 0x4000_0000, 0x80_0000);
        lemma_pmul_fits(
            fmul(fmul(omc as int, omc as int), omc as int),
            omc as int,
            0x20_0000_0000,
            0x80_0000,
        );
        lemma_fmul_bound(
            fmul(fmul(omc as int, omc as int), omc as int),
            omc as int,
            0x20_0000_0000,
            0x80_0000,
        );
        lemma_pmul_fits(
            fmul(fmul(fmul(omc as int, omc as int), omc as int), omc as int),
            omc as int,
            0x1000_0000_0000,
            0x80_0000,
        );
    }
    let p2 = mul_fixed(omc, omc);
    let p3 = mul_fixed(p2, omc);
    let p4 = mul_fixed(p3, omc);
    let p5 = mul_fixed(p4, omc);
    proof {
        lemma_fmul_bound(
            fmul(fmul(fmul(omc as int, omc as int), omc as int), omc as int),
            omc as int,
            0x1000_0000_0000,
            0x80_0000,
        );
        lemma_pmul_fits(65536 - r0 as int, p5 as int, 0x2_0000, 0x8_0000_0000_0000);
        lemma_fmul_bound(65536 - r0 as int, p5 as int, 0x2_0000, 0x8_0000_0000_0000);
        lemma_fmul_nonneg_helper(65536 - r0 as int, p5 as int);
    }
    let tail = mul_fixed(65536 - r0, p5);
    r0 + tail
}

/// The effective ratio of refractive indices a dielectric uses:
/// inverted when the ray arrives from outside the surface.
pub open spec fn dielectric_ratio(m: Material, front_face: bool) -> int {
    if front_face {
        fdiv(SCALE as int, m.refraction_idx as int)
    } else {
        m.refraction_idx as int
    }
}

/// Total internal reflection, decided from the raw cosine between the
/// reversed unit direction and the normal: `ratio * sin_theta > 1`.
pub open spec fn dielectric_tir(cos0: int, ratio: int) -> bool {
    let cos_theta = if cos0 < SCALE as int {
        cos0
    } else {
        SCALE as int
    };
    let k = (SCALE as int) - fmul(cos_theta, cos_theta);
    let kpos = if k >= 0 {
        k
    } else {
        0
    };
    fmul(crate::fixed::fsqrt(kpos), ratio) > SCALE as int
}

/// At normal incidence (`cos0 == 1`) total internal reflection never
/// triggers, whatever the ratio.
pub proof fn lemma_tir_normal_incidence(ratio: int)
    ensures
        !dielectric_tir(SCALE as int, ratio),
{
    let s = SCALE as int;
    assert((s * s) / s == s) by (nonlinear_arith)
        requires
            s == 65536,
    ;
    assert(fmul(s, s) == s);
    assert(crate::fixed::isqrt(0) == 0);
    assert(0 * ratio == 0) by (nonlinear_arith);
    vstd::arithmetic::div_mod::lemma_div_pos_is_pos(0, s);
    vstd::arithmetic::div_mod::lemma_div_nonincreasing(0, s);
    assert(fmul(0, ratio) == 0);
}

/// The attenuation each material family applies: its albedo, or pure
/// white for the non-absorbing dielectric.
pub open spec fn scatter_attenuation(m: Material) -> ColorModel {
    match m.type_info {
        MaterialType::Dielectric => ColorModel {
            r: SCALE as int,
            g: SCALE as int,
            b: SCALE as int,
        },
        _ => ColorModel { r: m.albedo.r as int, g: m.albedo.g as int, b: m.albedo.b as int },
    }
}

/// The diffuse direction before degeneracy guards: the normal plus the
/// unit sample, or the normal alone when the sum is near zero.
pub open spec fn lambertian_pick(n: Vec3Model, u: Vec3Model) -> Vec3Model {
    if vnear_zero(vadd(n, u)) {
        n
    } else {
        vadd(n, u)
    }
}

/// Exactly what a Lambertian scatter does, given the drawn unit sample:
/// pick the diffuse direction, fall back to the normal if the pick is
/// degenerate, and absorb only when even the normal is degenerate.
pub open spec fn lambert_outcome(n: Vec3Model, u: Vec3Model, dir: Vec3Model, continues: bool) -> bool {
    let d0 = lambertian_pick(n, u);
    let d = if 1 <= vlen_sqr(d0) {
        d0
    } else {
        n
    };
    &&& continues == (1 <= vlen_sqr(d))
    &&& (continues ==> dir == d)
}

/// Exactly what a metal scatter does, given the drawn unit sample: the
/// fuzzed reflection is normalized and kept iff it leaves the surface
/// and survives the numeric guards.
pub open spec fn metal_outcome(
    d_in: Vec3Model,
    n: Vec3Model,
    fuzz: int,
    u: Vec3Model,
    dir: Vec3Model,
    continues: bool,
) -> bool {
    let refl = vadd(vreflect(d_in, n), vscale(u, fuzz));
    let out = vnormalized(refl);
    let ok = vdot(refl, n) > 0 && 1 <= vlen_sqr(refl) && in_range(out, DIR_LIMIT as int) && 1
        <= vlen_sqr(out);
    &&& continues == ok
    &&& (continues ==> dir == out)
}

/// Exactly what a dielectric scatter does, given the uniform draw: the
/// unit incoming direction is reflected on total internal reflection or
/// when the draw falls below the Schlick reflectance, refracted
/// otherwise, and kept iff it survives the numeric guards.
pub open spec fn dielectric_outcome(
    u: Vec3Model,
    n: Vec3Model,
    ratio: int,
    draw: int,
    dir: Vec3Model,
    continues: bool,
) -> bool {
    let cos0 = vdot(vneg(u), n);
    let cos_theta = if cos0 < SCALE as int {
        cos0
    } else {
        SCALE as int
    };
    let reflecting = dielectric_tir(cos0, ratio) || schlick_spec(cos_theta, ratio) > draw;
    let out = if reflecting {
        vreflect(u, n)
    } else {
        vrefract(u, n, ratio)
    };
    let ok = in_range(u, 2 * SCALE as int) && in_range(out, DIR_LIMIT as int) && 1 <= vlen_sqr(
        out,
    );
    &&& continues == ok
    &&& (continues ==> dir == out)
}

/// The continuation test a fuzz-free metal applies to the exact mirror
/// direction: the reflection must leave the surface and survive the
/// numeric guards on scattered rays.
pub open spec fn metal_mirror_continues(d: Vec3Model, n: Vec3Model) -> bool {
    &&& vdot(vreflect(d, n), n) > 0
    &&& 1 <= vlen_sqr(vreflect(d, n))
    &&& in_range(vnormalized(vreflect(d, n)), DIR_LIMIT as int)
    &&& 1 <= vlen_sqr(vnormalized(vreflect(d, n)))
}

/// The diffuse scatter direction: the normal plus a unit sample, with
/// the near-zero sum replaced by the normal alone.
pub fn lambertian_direction(normal: &Vec3, unit: &Vec3) -> (d: Vec3)
    requires
        in_range(normal@, NORMAL_LIMIT as int),
        in_range(unit@, 2 * SCALE as int),
    ensures
        d@ == lambertian_pick(normal@, unit@),
        in_range(d@, 0x80_0000),
    {
    let s = normal.add(unit);
    if s.near_zero() {
        *normal
    } else {
        s
    }
}

impl Material {
    /// One scattering event: an outgoing ray, an attenuation color,
    /// and whether the light path continues. Directions that come out
    /// degenerate or out of numeric range absorb the path instead.
    pub fn scatter(&self, ray: &Ray, hit: &RayHitResult) -> (res: (Ray, Color01, bool))
        requires
            material_wf(*self),
            hit.is_hit,
            in_range(hit.data@.normal, NORMAL_LIMIT as int),
            in_range(ray@.direction, DIR_LIMIT as int),
            1 <= vlen_sqr(ray@.direction),
        ensures
            res.0@.origin == hit.data@.point,
            res.1@ == scatter_attenuation(*self),
            res.2 ==> in_range(res.0@.direction, DIR_LIMIT as int) && 1 <= vlen_sqr(
                res.0@.direction,
            ),
            self.type_info == MaterialType::Lambert ==> exists|u: Vec3Model|
                unit_sample_shape(u) && lambert_outcome(
                    hit.data@.normal,
                    u,
                    res.0@.direction,
                    res.2,
                ),
            self.type_info == MaterialType::Metal ==> exists|u: Vec3Model|
                unit_sample_shape(u) && metal_outcome(
                    ray@.direction,
                    hit.data@.normal,
                    self.fuzziness as int,
                    u,
                    res.0@.direction,
                    res.2,
                ),
            self.type_info == MaterialType::Dielectric ==> exists|draw: int|
                0 <= draw < SCALE as int && dielectric_outcome(
                    vnormalized(ray@.direction),
                    hit.data@.normal,
                    dielectric_ratio(*self, hit.data.front_face),
                    draw,
                    res.0@.direction,
                    res.2,
                ),
            self.type_info == MaterialType::Metal && self.fuzziness == 0 ==> res.2
                == metal_mirror_continues(ray@.direction, hit.data@.normal),
            self.type_info == MaterialType::Metal && self.fuzziness == 0 && res.2
                ==> res.0@.direction == vnormalized(vreflect(ray@.direction, hit.data@.normal)),
            self.type_info == MaterialType::Dielectric && res.2 ==> res.0@.direction == vreflect(
                vnormalized(ray@.direction),
                hit.data@.normal,
            ) || res.0@.direction == crate::vector::vrefract(
                vnormalized(ray@.direction),
                hit.data@.normal,
                dielectric_ratio(*self, hit.data.front_face),
            ),
            self.type_info == MaterialType::Dielectric && res.2 && dielectric_tir(
                vdot(vneg(vnormalized(ray@.direction)), hit.data@.normal),
                dielectric_ratio(*self, hit.data.front_face),
            ) ==> res.0@.direction == vreflect(vnormalized(ray@.direction), hit.data@.normal),
    {
        match self.type_info {
            MaterialType::Lambert => {
                let unit = crate::rt_util::random_unit_vector();
                let picked = lambertian_direction(&hit.data.normal, &unit);
                let pls = picked.len_sqr();
                let scatter_dir = if pls >= 1 {
                    picked
                } else {
                    hit.data.normal
                };
                let ls = scatter_dir.len_sqr();
                if ls < 1 {
                    proof {
                        assert(unit_sample_shape(unit@) && lambert_outcome(
                            hit.data@.normal,
                            unit@,
                            hit.data@.normal,
                            false,
                        ));
                    }
                    return (Ray::new(hit.data.point, hit.data.normal), self.albedo, false);
                }
                proof {
                    assert(unit_sample_shape(unit@) && lambert_outcome(
                        hit.data@.normal,
                        unit@,
                        scatter_dir@,
                        true,
                    ));
                }
                (Ray::new(hit.data.point, scatter_dir), self.albedo, true)
            },
            MaterialType::Metal => {
                let unit = crate::rt_util::random_unit_vector();
                proof {
                    lemma_fmul_bound(unit@.x, self.fuzziness as int, 0x2_0000, 0x1_0000);
                    lemma_fmul_bound(unit@.y, self.fuzziness as int, 0x2_0000, 0x1_0000);
                    lemma_fmul_bound(unit@.z, self.fuzziness as int, 0x2_0000, 0x1_0000);
                }
                let fuzz_vec = unit.scale(self.fuzziness);
                let mirror = ray.direction.reflect(&hit.data.normal);
                let reflection_dir = mirror.add(&fuzz_vec);
                proof {
                    if self.fuzziness == 0 {
                        lemma_vscale_zero(unit@);
                        assert(reflection_dir@ == vreflect(ray@.direction, hit.data@.normal));
                    }
                }
                let rl = reflection_dir.len_sqr();
                let keeps = dot(&reflection_dir, &hit.data.normal) > 0;
                if !keeps || rl < 1 {
                    proof {
                        assert(unit_sample_shape(unit@) && metal_outcome(
                            ray@.direction,
                            hit.data@.normal,
                            self.fuzziness as int,
                            unit@,
                            hit.data@.normal,
                            false,
                        ));
                    }
                    return (Ray::new(hit.data.point, hit.data.normal), self.albedo, false);
                }
                proof {
                    crate::fixed::lemma_isqrt_ge((rl as int) * (SCALE as int), 1);
                }
                let out = reflection_dir.normalized();
                if !(-DIR_LIMIT <= out.x && out.x <= DIR_LIMIT && -DIR_LIMIT <= out.y && out.y
                    <= DIR_LIMIT && -DIR_LIMIT <= out.z && out.z <= DIR_LIMIT) {
                    proof {
                        assert(unit_sample_shape(unit@) && metal_outcome(
                            ray@.direction,
                            hit.data@.normal,
                            self.fuzziness as int,
                            unit@,
                            hit.data@.normal,
                            false,
                        ));
                    }
                    return (Ray::new(hit.data.point, hit.data.normal), self.albedo, false);
                }
                let out_ls = out.len_sqr();
                if out_ls < 1 {
                    proof {
                        assert(unit_sample_shape(unit@) && metal_outcome(
                            ray@.direction,
                            hit.data@.normal,
                            self.fuzziness as int,
                            unit@,
                            hit.data@.normal,
                            false,
                        ));
                    }
                    return (Ray::new(hit.data.point, hit.data.normal), self.albedo, false);
                }
                proof {
                    assert(unit_sample_shape(unit@) && metal_outcome(
                        ray@.direction,
                        hit.data@.normal,
                        self.fuzziness as int,
                        unit@,
                        out@,
                        true,
                    ));
                }
                (Ray::new(hit.data.point, out), self.albedo, true)
            },
            MaterialType::Dielectric => {
                let white = Color01 { r: 65536, g: 65536, b: 65536 };
                let refr_factor = if hit.data.front_face {
                    proof {
                        vstd::arithmetic::div_mod::lemma_div_is_ordered_by_denominator(
                            65536int * 65536,
                            self.refraction_idx as int,
                            0x100_0000,
                        );
                        assert((65536 * 65536) / 0x100_0000 == 256) by (nonlinear_arith);
                        vstd::arithmetic::div_mod::lemma_div_is_ordered_by_denominator(
                            65536int * 65536,
                            4096,
                            self.refraction_idx as int,
                        );
                        assert((65536 * 65536) / 4096 == 0x10_0000) by (nonlinear_arith);
                    }
                    div_fixed(65536, self.refraction_idx)
                } else {
                    self.refraction_idx
                };
                proof {
                    crate::fixed::lemma_isqrt_ge(
                        vlen_sqr(ray@.direction) * (SCALE as int),
                        1,
                    );
                }
                let ray_dir_norm = ray.direction.normalized();
                if !(-131072 <= ray_dir_norm.x && ray_dir_norm.x <= 131072 && -131072
                    <= ray_dir_norm.y && ray_dir_norm.y <= 131072 && -131072 <= ray_dir_norm.z
                    && ray_dir_norm.z <= 131072) {
                    let absorbed = (Ray::new(hit.data.point, hit.data.normal), white, false);
                    proof {
                        assert(exists|draw: int|
                            0 <= draw < SCALE as int && dielectric_outcome(
                                vnormalized(ray@.direction),
                                hit.data@.normal,
                                dielectric_ratio(*self, hit.data.front_face),
                                draw,
                                absorbed.0@.direction,
                                absorbed.2,
                            )) by {
                            assert(0 <= 0 < SCALE as int && dielectric_outcome(
                                vnormalized(ray@.direction),
                                hit.data@.normal,
                                dielectric_ratio(*self, hit.data.front_face),
                                0,
                                absorbed.0@.direction,
                                absorbed.2,
                            ));
                        }
                    }
                    return absorbed;
                }
                let neg_rdn = ray_dir_norm.neg();
                let cos0 = dot(&neg_rdn, &hit.data.normal);
                proof {
                    lemma_fmul_bound(-ray_dir_norm@.x, hit.data@.normal.x, 0x2_0000, 0x4_0000);
                    lemma_fmul_bound(-ray_dir_norm@.y, hit.data@.normal.y, 0x2_0000, 0x4_0000);
                    lemma_fmul_bound(-ray_dir_norm@.z, hit.data@.normal.z, 0x2_0000, 0x4_0000);
                }
                let cos_theta = if cos0 < 65536 {
                    cos0
                } else {
                    65536
                };
                proof {
                    lemma_pmul_fits(cos_theta as int, cos_theta as int, 0x20_0000, 0x20_0000);
                    crate::vector::lemma_fmul_sq_nonneg(cos_theta as int);
                    lemma_fmul_bound(cos_theta as int, cos_theta as int, 0x20_0000, 0x20_0000);
                }
                let cs = mul_fixed(cos_theta, cos_theta);
                let k = 65536 - cs;
                let kpos = if k >= 0 {
                    k
                } else {
                    0
                };
                let sin_theta = sqrt_fixed(kpos);
                proof {
                    crate::fixed::lemma_isqrt_bounds((kpos as int) * (SCALE as int));
                    assert(sin_theta as int <= SCALE as int) by (nonlinear_arith)
                        requires
                            sin_theta as int >= 0,
                            (sin_theta as int) * (sin_theta as int) <= (kpos as int) * (
                            SCALE as int),
                            0 <= kpos as int <= SCALE as int,
                    ;
                    lemma_pmul_fits(sin_theta as int, refr_factor as int, 0x1_0000, 0x100_0000);
                }
                let tir = mul_fixed(sin_theta, refr_factor) > 65536;
                let reflectance = schlick_reflectance(cos_theta, refr_factor);
                let draw = crate::rt_util::random();
                let out_dir: Vec3 = if tir || reflectance > draw {
                    ray_dir_norm.reflect(&hit.data.normal)
                } else {
                    ray_dir_norm.refract(&hit.data.normal, refr_factor)
                };
                let out_ls_ok = {
                    let tmp = out_dir.len_sqr();
                    tmp >= 1
                };
                if !(-DIR_LIMIT <= out_dir.x && out_dir.x <= DIR_LIMIT && -DIR_LIMIT <= out_dir.y
                    && out_dir.y <= DIR_LIMIT && -DIR_LIMIT <= out_dir.z && out_dir.z
                    <= DIR_LIMIT) || !out_ls_ok {
                    let absorbed = (Ray::new(hit.data.point, hit.data.normal), white, false);
                    proof {
                        assert(exists|d2: int|
                            0 <= d2 < SCALE as int && dielectric_outcome(
                                vnormalized(ray@.direction),
                                hit.data@.normal,
                                dielectric_ratio(*self, hit.data.front_face),
                                d2,
                                absorbed.0@.direction,
                                absorbed.2,
                            )) by {
                            assert(0 <= (draw as int) < SCALE as int && dielectric_outcome(
                                vnormalized(ray@.direction),
                                hit.data@.normal,
                                dielectric_ratio(*self, hit.data.front_face),
                                draw as int,
                                absorbed.0@.direction,
                                absorbed.2,
                            ));
                        }
                    }
                    return absorbed;
                }
                let kept = (Ray::new(hit.data.point, out_dir), white, true);
                proof {
                    assert(exists|d2: int|
                        0 <= d2 < SCALE as int && dielectric_outcome(
                            vnormalized(ray@.direction),
                            hit.data@.normal,
                            dielectric_ratio(*self, hit.data.front_face),
                            d2,
                            kept.0@.direction,
                            kept.2,
                        )) by {
                        assert(0 <= (draw as int) < SCALE as int && dielectric_outcome(
                            vnormalized(ray@.direction),
                            hit.data@.normal,
                            dielectric_ratio(*self, hit.data.front_face),
                            draw as int,
                            kept.0@.direction,
                            kept.2,
                        ));
                    }
                }
                kept
            },
        }
    }
}

/// Scaling a vector by a zero factor gives the zero vector.
pub proof fn lemma_vscale_zero(a: Vec3Model)
    ensures
        vscale(a, 0) == (Vec3Model { x: 0, y: 0, z: 0 }),
{
    let s = SCALE as int;
    assert(a.x * 0 == 0) by (nonlinear_arith);
    assert(a.y * 0 == 0) by (nonlinear_arith);
    assert(a.z * 0 == 0) by (nonlinear_arith);
    vstd::arithmetic::div_mod::lemma_div_pos_is_pos(0, s);
    vstd::arithmetic::div_mod::lemma_div_nonincreasing(0, s);
}

/// A fixed-point product of nonnegative factors is nonnegative.
pub proof fn lemma_fmul_nonneg_helper(a: int, b: int)
    requires
        a >= 0,
        b >= 0,
    ensures
        fmul(a, b) >= 0,
{
    assert(a * b >= 0) by (nonlinear_arith)
        requires
            a >= 0,
            b >= 0,
    ;
    lemma_tdiv_abs(a * b, SCALE as int);
}

} // verus!
