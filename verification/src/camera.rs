//! The camera: viewport setup, per-pixel ray generation with jitter and
//! defocus sampling, the bounded light-transport driver, and the render
//! loop.

use vstd::prelude::*;
use crate::fixed::{
    SCALE, tdiv, fmul, fdiv, mul_fixed, div_fixed, div_trunc, clamp_i64, lemma_tdiv_abs,
    lemma_fmul_bound, lemma_fmul_one, lemma_fmul_unit, lemma_fdiv_le, lemma_isqrt_ge,
};
use crate::vector::{
    Vec3, Vec3Model, vadd, vsub, vneg, vcross, vscale, vdiv, vlen, vlen_sqr, vnormalized,
    in_range, cross, lemma_pmul_fits,
};
use crate::ray::{Ray, RayModel};
use crate::color::{Color, Color01, ColorModel};
use crate::material::{material_wf, scatter_attenuation};
use crate::primitive::{
    HittableList, RayHitDataModel, Sphere, scene_best, scene_wf, sphere_wf, sphere_hit_model,
    ray_wf, lemma_scene_best_nearest, POS_LIMIT, DIR_LIMIT, T_LIMIT,
};
use crate::rt_util::{
    deg_to_rad, deg_to_rad_spec, cos_fixed, cos_spec, tan_fixed, tan_spec, random,
    random_in_unit_disk,
};

verus! {

/// Lower end of every hit search (about 0.001), keeping bounced rays
/// off the surface they just left.
pub const T_EPSILON: i64 = 66;

/// The sky-blue the background blends toward.
pub const SKY_R: i64 = 32768;

pub const SKY_G: i64 = 45875;

pub const SKY_B: i64 = 65536;

#[derive(Clone, Copy, Debug)]
pub struct Camera {
    pub position: Vec3,
    pub look_at: Vec3,
    pub up_vector: Vec3,
    pub fov_vertical: i64,
    pub defocus_angle: i64,
    pub focus_distance: i64,
    pub aspect_ratio: i64,
    pub frame_width: u32,
    pub samples_per_pixel: u16,
    pub ray_bounces_max: u16,
    pub pixel_zero: Vec3,
    pub pixel_delta_u: Vec3,
    pub pixel_delta_v: Vec3,
    pub pixel_samples_scale: i64,
    pub frame_height: u32,
    pub frame_res: u32,
    pub u: Vec3,
    pub v: Vec3,
    pub w: Vec3,
    pub defocus_disk_u: Vec3,
    pub defocus_disk_v: Vec3,
}

/// A configuration the camera rejects before rendering.
#[derive(Clone, Copy, Debug, PartialEq, Eq, Structural)]
pub enum RenderError {
    InvalidConfiguration,
}

pub open spec fn frame_height_spec(c: Camera) -> int {
    tdiv(fdiv((c.frame_width as int) * 65536, c.aspect_ratio as int), 65536)
}

pub open spec fn half_fov_rad_spec(c: Camera) -> int {
    tdiv(deg_to_rad_spec(c.fov_vertical as int), 2)
}

pub open spec fn frustum_spec(c: Camera) -> int {
    tan_spec(half_fov_rad_spec(c))
}

pub open spec fn view_height_spec(c: Camera) -> int {
    2 * fmul(frustum_spec(c), c.focus_distance as int)
}

pub open spec fn wh_ratio_spec(c: Camera) -> int {
    fdiv((c.frame_width as int) * 65536, frame_height_spec(c) * 65536)
}

pub open spec fn view_width_spec(c: Camera) -> int {
    fmul(view_height_spec(c), wh_ratio_spec(c))
}

pub open spec fn w_axis_spec(c: Camera) -> Vec3Model {
    vnormalized(vsub(c.position@, c.look_at@))
}

pub open spec fn u_axis_spec(c: Camera) -> Vec3Model {
    vnormalized(vcross(c.up_vector@, w_axis_spec(c)))
}

pub open spec fn v_axis_spec(c: Camera) -> Vec3Model {
    vcross(w_axis_spec(c), u_axis_spec(c))
}

pub open spec fn view_u_spec(c: Camera) -> Vec3Model {
    vscale(u_axis_spec(c), view_width_spec(c))
}

pub open spec fn view_v_spec(c: Camera) -> Vec3Model {
    vscale(vneg(v_axis_spec(c)), view_height_spec(c))
}

pub open spec fn pixel_delta_u_spec(c: Camera) -> Vec3Model {
    vdiv(view_u_spec(c), (c.frame_width as int) * 65536)
}

pub open spec fn pixel_delta_v_spec(c: Camera) -> Vec3Model {
    vdiv(view_v_spec(c), frame_height_spec(c) * 65536)
}

pub open spec fn pixel_zero_spec(c: Camera) -> Vec3Model {
    let upper_left = vsub(
        vsub(c.position@, vscale(w_axis_spec(c), c.focus_distance as int)),
        vscale(vadd(view_u_spec(c), view_v_spec(c)), 32768),
    );
    vadd(upper_left, vscale(vadd(pixel_delta_u_spec(c), pixel_delta_v_spec(c)), 32768))
}

pub open spec fn half_defocus_rad_spec(c: Camera) -> int {
    deg_to_rad_spec(tdiv(c.defocus_angle as int, 2))
}

pub open spec fn defocus_radius_spec(c: Camera) -> int {
    fmul(c.focus_distance as int, tan_spec(half_defocus_rad_spec(c)))
}

pub open spec fn defocus_disk_u_spec(c: Camera) -> Vec3Model {
    vscale(u_axis_spec(c), defocus_radius_spec(c))
}

pub open spec fn defocus_disk_v_spec(c: Camera) -> Vec3Model {
    vscale(v_axis_spec(c), defocus_radius_spec(c))
}

/// Every validation `initialize` performs, over the same fixed-point
/// values the executable code computes.
pub open spec fn camera_init_ok(c: Camera) -> bool {
    &&& 1 <= c.frame_width <= 8192
    &&& 655 <= c.aspect_ratio <= 0x640_0000
    &&& 1 <= c.samples_per_pixel
    &&& 1 <= frame_height_spec(c) <= 8192
    &&& in_range(c.position@, POS_LIMIT as int)
    &&& in_range(c.look_at@, POS_LIMIT as int)
    &&& in_range(c.up_vector@, POS_LIMIT as int)
    &&& 1 <= c.focus_distance <= POS_LIMIT
    &&& 6553 <= c.fov_vertical <= 0x96_0000
    &&& 0 <= c.defocus_angle <= 0x96_0000
    &&& -(crate::rt_util::PI_FIXED as int) <= half_fov_rad_spec(c) <= crate::rt_util::PI_FIXED as int
    &&& cos_spec(half_fov_rad_spec(c)) >= 655
    &&& 0 <= frustum_spec(c) <= 0x40_0000
    &&& -(crate::rt_util::PI_FIXED as int) <= half_defocus_rad_spec(c) <= crate::rt_util::PI_FIXED as int
    &&& cos_spec(half_defocus_rad_spec(c)) >= 655
    &&& 0 <= tan_spec(half_defocus_rad_spec(c)) <= 0x40_0000
    &&& 1 <= vlen_sqr(vsub(c.position@, c.look_at@))
    &&& in_range(w_axis_spec(c), 131072)
    &&& 1 <= vlen_sqr(vcross(c.up_vector@, w_axis_spec(c)))
    &&& in_range(u_axis_spec(c), 131072)
    &&& 0 <= view_width_spec(c) <= 0x10_0000_0000
}

/// Bounds the derived fields satisfy after a successful `initialize`;
/// everything ray generation relies on.
pub open spec fn camera_derived_wf(c: Camera) -> bool {
    &&& in_range(c.pixel_zero@, 0x80_0000_0000)
    &&& in_range(c.pixel_delta_u@, 0x40_0000_0000)
    &&& in_range(c.pixel_delta_v@, 0x40_0000_0000)
    &&& in_range(c.defocus_disk_u@, 0x10_0000_0000)
    &&& in_range(c.defocus_disk_v@, 0x10_0000_0000)
    &&& in_range(c.position@, POS_LIMIT as int)
    &&& 1 <= c.frame_width <= 8192
    &&& 1 <= c.frame_height <= 8192
    &&& c.frame_res == c.frame_width * c.frame_height
    &&& 1 <= c.samples_per_pixel
    &&& 1 <= c.pixel_samples_scale <= SCALE
    &&& c.pixel_samples_scale == tdiv(65536, c.samples_per_pixel as int)
}

/// An origin on the camera's defocus disk: the position offset along
/// the two disk basis vectors by a point inside the unit disk.
pub open spec fn defocus_origin_shape(c: Camera, o: Vec3Model) -> bool {
    exists|p: Vec3Model|
        vlen_sqr(p) < SCALE as int && p.z == 0 && o == vadd(
            vadd(c.position@, vscale(c.defocus_disk_u@, p.x)),
            vscale(c.defocus_disk_v@, p.y),
        )
}

/// The shape of a camera ray for pixel `(i, j)`: the origin is the
/// camera position (or a defocus-disk point when a positive defocus
/// angle is set), and the direction runs from the origin to the pixel's
/// viewport position, jittered by up to half a pixel each way.
pub open spec fn jittered_ray_shape(c: Camera, i: int, j: int, r: RayModel) -> bool {
    &&& if c.defocus_angle <= 0 {
        r.origin == c.position@
    } else {
        defocus_origin_shape(c, r.origin)
    }
    &&& exists|dx: int, dy: int|
        #![trigger vscale(c.pixel_delta_u@, j * 65536 + dx), vscale(c.pixel_delta_v@, i * 65536 + dy)]
        -32768 <= dx < 32768 && -32768 <= dy < 32768 && r.direction == vsub(
            vadd(
                vadd(c.pixel_zero@, vscale(c.pixel_delta_u@, j * 65536 + dx)),
                vscale(c.pixel_delta_v@, i * 65536 + dy),
            ),
            r.origin,
        )
}

/// The background gradient: white blended toward sky blue by the
/// (clamped) vertical component of the unit ray direction.
pub open spec fn background_spec(r: RayModel) -> ColorModel {
    let unit = vnormalized(r.direction);
    let t0 = tdiv(unit.y + SCALE as int, 2);
    let t = if t0 < 0 {
        0
    } else if t0 > SCALE as int {
        SCALE as int
    } else {
        t0
    };
    let omt = (SCALE as int) - t;
    ColorModel {
        r: fmul(omt, SCALE as int) + fmul(t, SKY_R as int),
        g: fmul(omt, SCALE as int) + fmul(t, SKY_G as int),
        b: fmul(omt, SCALE as int) + fmul(t, SKY_B as int),
    }
}

/// The background color of a ray that escapes the scene.
pub fn background(ray: &Ray) -> (c: Color01)
    requires
        ray_wf(ray@),
    ensures
        c@ == background_spec(ray@),
        0 <= c.r <= SCALE,
        0 <= c.g <= SCALE,
        0 <= c.b <= SCALE,
{
    proof {
        lemma_isqrt_ge(vlen_sqr(ray@.direction) * (SCALE as int), 1);
    }
    let unit = ray.direction.normalized();
    let t0 = div_trunc(unit.y + 65536, 2);
    proof {
        lemma_tdiv_abs(unit@.y + 65536, 2);
    }
    let t = clamp_i64(t0, 0, 65536);
    let omt = 65536 - t;
    proof {
        lemma_fmul_one(omt as int);
        lemma_fmul_unit(t as int, SKY_R as int);
        lemma_fmul_unit(t as int, SKY_G as int);
        lemma_fmul_unit(t as int, SKY_B as int);
        lemma_pmul_fits(omt as int, 65536, 0x1_0000, 0x1_0000);
        lemma_pmul_fits(t as int, SKY_R as int, 0x1_0000, 0x1_0000);
        lemma_pmul_fits(t as int, SKY_G as int, 0x1_0000, 0x1_0000);
        lemma_pmul_fits(t as int, SKY_B as int, 0x1_0000, 0x1_0000);
        lemma_fmul_unit(omt as int, 65536);
    }
    Color01 {
        r: mul_fixed(omt, 65536) + mul_fixed(t, SKY_R),
        g: mul_fixed(omt, 65536) + mul_fixed(t, SKY_G),
        b: mul_fixed(omt, 65536) + mul_fixed(t, SKY_B),
    }
}

/// Componentwise fixed-point product of two colors.
pub open spec fn cmul(a: ColorModel, b: ColorModel) -> ColorModel {
    ColorModel { r: fmul(a.r, b.r), g: fmul(a.g, b.g), b: fmul(a.b, b.b) }
}

/// Channels within the unit interval.
pub open spec fn channels01(c: ColorModel) -> bool {
    &&& 0 <= c.r <= SCALE as int
    &&& 0 <= c.g <= SCALE as int
    &&& 0 <= c.b <= SCALE as int
}

/// Attenuations multiplied in left to right starting from white, as
/// the transport loop accumulates them.
pub open spec fn attens_fold(attens: Seq<ColorModel>) -> ColorModel
    decreases attens.len(),
{
    if attens.len() == 0 {
        ColorModel { r: SCALE as int, g: SCALE as int, b: SCALE as int }
    } else {
        cmul(attens_fold(attens.drop_last()), attens.last())
    }
}

/// A fold of unit-interval attenuations stays within the unit interval.
pub proof fn lemma_attens_fold_channels01(attens: Seq<ColorModel>)
    requires
        forall|m: int| 0 <= m < attens.len() ==> channels01(#[trigger] attens[m]),
    ensures
        channels01(attens_fold(attens)),
    decreases attens.len(),
{
    if attens.len() > 0 {
        assert(forall|m: int|
            0 <= m < attens.drop_last().len() ==> channels01(#[trigger] attens.drop_last()[m]));
        lemma_attens_fold_channels01(attens.drop_last());
        let f = attens_fold(attens.drop_last());
        let l = attens.last();
        lemma_fmul_unit(f.r, l.r);
        lemma_fmul_unit(f.g, l.g);
        lemma_fmul_unit(f.b, l.b);
    }
}

/// Attenuating black gives black.
proof fn lemma_cmul_black(f: ColorModel)
    requires
        channels01(f),
    ensures
        cmul(f, ColorModel { r: 0int, g: 0int, b: 0int }) == (ColorModel {
            r: 0int,
            g: 0int,
            b: 0int,
        }),
{
    lemma_fmul_unit(f.r, 0);
    lemma_fmul_unit(f.g, 0);
    lemma_fmul_unit(f.b, 0);
}

/// Everything `ray_color` promises of its result: bounded channels,
/// black at depth zero, the exact background on a miss, and on a hit a
/// product of per-bounce attenuations starting with the hit material's.
pub open spec fn ray_color_post(world: Seq<Sphere>, ray: RayModel, depth: int, c: ColorModel) -> bool {
    &&& channels01(c)
    &&& depth == 0 ==> c == (ColorModel { r: 0int, g: 0int, b: 0int })
    &&& depth > 0 && world.len() == 0 && ray_wf(ray) ==> c == background_spec(ray)
    &&& depth > 0 && ray_wf(ray) && scene_best(world, ray, T_EPSILON as int, T_LIMIT as int)
        is None ==> c == background_spec(ray)
    &&& depth > 0 && ray_wf(ray) ==> (scene_best(world, ray, T_EPSILON as int, T_LIMIT as int)
        matches Some(h) ==> exists|attens: Seq<ColorModel>, tail: ColorModel|
        #![trigger attens_fold(attens), channels01(tail)]
        1 <= attens.len() <= depth && attens[0] == scatter_attenuation(h.material) && (forall|
            m: int,
        |
            0 <= m < attens.len() ==> channels01(#[trigger] attens[m])) && channels01(tail) && c
            == cmul(attens_fold(attens), tail))
}

/// Package a transport witness: attenuations starting with the hit
/// material's, and a closing color, whose product is the result.
proof fn lemma_transport_witness(
    depth: int,
    h: RayHitDataModel,
    attens: Seq<ColorModel>,
    tail: ColorModel,
    c: ColorModel,
)
    requires
        1 <= attens.len() <= depth,
        attens[0] == scatter_attenuation(h.material),
        forall|m: int| 0 <= m < attens.len() ==> channels01(#[trigger] attens[m]),
        channels01(tail),
        c == cmul(attens_fold(attens), tail),
    ensures
        exists|a2: Seq<ColorModel>, t2: ColorModel|
            #![trigger attens_fold(a2), channels01(t2)]
            1 <= a2.len() <= depth && a2[0] == scatter_attenuation(h.material) && (forall|m: int|
                0 <= m < a2.len() ==> channels01(#[trigger] a2[m])) && channels01(t2) && c
                == cmul(attens_fold(a2), t2),
{
    assert(1 <= attens.len() <= depth && attens[0] == scatter_attenuation(h.material) && (forall|
        m: int,
    |
        0 <= m < attens.len() ==> channels01(#[trigger] attens[m])) && channels01(tail) && c
        == cmul(attens_fold(attens), tail));
}

/// One pixel's accumulation: each sample scaled by the per-sample
/// factor, summed in order.
pub open spec fn accumulate_samples(samples: Seq<ColorModel>, scale: int) -> ColorModel
    decreases samples.len(),
{
    if samples.len() == 0 {
        ColorModel { r: 0int, g: 0int, b: 0int }
    } else {
        let prev = accumulate_samples(samples.drop_last(), scale);
        ColorModel {
            r: prev.r + fmul(samples.last().r, scale),
            g: prev.g + fmul(samples.last().g, scale),
            b: prev.b + fmul(samples.last().b, scale),
        }
    }
}

/// The story behind one rendered pixel: `samples_per_pixel` ray colors,
/// each obeying the transport contract along a jittered camera ray of
/// pixel `(i, j)`, scaled, summed, and converted to display bytes.
pub open spec fn pixel_sampled(c: Camera, world: Seq<Sphere>, i: int, j: int, px: Color) -> bool {
    exists|rays: Seq<RayModel>, samples: Seq<ColorModel>|
        #![trigger rays.len(), samples.len()]
        rays.len() == c.samples_per_pixel && samples.len() == c.samples_per_pixel && (forall|
            m: int,
        |
            0 <= m < rays.len() ==> jittered_ray_shape(c, i, j, #[trigger] rays[m])) && (forall|
            m: int,
        |
            0 <= m < samples.len() ==> ray_color_post(
                world,
                rays[m],
                c.ray_bounces_max as int,
                #[trigger] samples[m],
            )) && px == crate::color::display_triple(
            accumulate_samples(samples, c.pixel_samples_scale as int),
        )
}

/// The transport clause of `ray_color_post` for a black result, given
/// attenuations collected so far whose head is the first hit's.
proof fn lemma_black_exit(world: Seq<Sphere>, ray: RayModel, depth: int, attens: Seq<ColorModel>)
    requires
        depth > 0,
        forall|m: int| 0 <= m < attens.len() ==> channels01(#[trigger] attens[m]),
        ray_wf(ray) ==> (scene_best(world, ray, T_EPSILON as int, T_LIMIT as int) matches Some(
            h0,
        ) ==> 1 <= attens.len() <= depth && attens[0] == scatter_attenuation(h0.material)),
    ensures
        ray_wf(ray) ==> (scene_best(world, ray, T_EPSILON as int, T_LIMIT as int) matches Some(
            h,
        ) ==> exists|a2: Seq<ColorModel>, t2: ColorModel|
            #![trigger attens_fold(a2), channels01(t2)]
            1 <= a2.len() <= depth && a2[0] == scatter_attenuation(h.material) && (forall|m: int|
                0 <= m < a2.len() ==> channels01(#[trigger] a2[m])) && channels01(t2)
                && (ColorModel { r: 0int, g: 0int, b: 0int }) == cmul(attens_fold(a2), t2)),
{
    let sb = scene_best(world, ray, T_EPSILON as int, T_LIMIT as int);
    if ray_wf(ray) && sb is Some {
        lemma_attens_fold_channels01(attens);
        lemma_cmul_black(attens_fold(attens));
        lemma_transport_witness(
            depth,
            sb->Some_0,
            attens,
            ColorModel { r: 0int, g: 0int, b: 0int },
            ColorModel { r: 0int, g: 0int, b: 0int },
        );
    }
}

impl Camera {
    /// Resolve one ray's color: walk up to `depth` scattering events,
    /// multiplying attenuations, and close with the background on a
    /// miss or black on absorption or exhaustion. Rays that fall out
    /// of the numeric range the geometry accepts resolve to black.
    pub fn ray_color(ray: &Ray, depth: u16, world: &HittableList) -> (res: Color01)
        requires
            scene_wf(world@),
        ensures
            ray_color_post(world@, ray@, depth as int, res@),
    {
        let mut atten = Color01 { r: 65536, g: 65536, b: 65536 };
        let mut cur: Ray = *ray;
        let mut d: u16 = depth;
        let ghost mut attens: Seq<ColorModel> = Seq::empty();
        while d > 0
            invariant
                scene_wf(world@),
                0 <= atten.r <= SCALE,
                0 <= atten.g <= SCALE,
                0 <= atten.b <= SCALE,
                d <= depth,
                d == depth ==> cur == *ray && atten == (Color01 {
                    r: 65536i64,
                    g: 65536i64,
                    b: 65536i64,
                }),
                world@.len() == 0 ==> d == depth,
                ray_wf(ray@) && scene_best(world@, ray@, T_EPSILON as int, T_LIMIT as int)
                    is None ==> d == depth,
                attens.len() == depth - d,
                atten@ == attens_fold(attens),
                forall|m: int| 0 <= m < attens.len() ==> channels01(#[trigger] attens[m]),
                ray_wf(ray@) ==> (scene_best(world@, ray@, T_EPSILON as int, T_LIMIT as int)
                    matches Some(h0) ==> (d < depth ==> attens[0] == scatter_attenuation(
                    h0.material,
                ))),
            decreases d,
        {
            let range_ok = -POS_LIMIT <= cur.origin.x && cur.origin.x <= POS_LIMIT && -POS_LIMIT
                <= cur.origin.y && cur.origin.y <= POS_LIMIT && -POS_LIMIT <= cur.origin.z
                && cur.origin.z <= POS_LIMIT && -DIR_LIMIT <= cur.direction.x && cur.direction.x
                <= DIR_LIMIT && -DIR_LIMIT <= cur.direction.y && cur.direction.y <= DIR_LIMIT
                && -DIR_LIMIT <= cur.direction.z && cur.direction.z <= DIR_LIMIT;
            if !range_ok {
                proof {
                    lemma_black_exit(world@, ray@, depth as int, attens);
                }
                return Color01 { r: 0, g: 0, b: 0 };
            }
            let dls = cur.direction.len_sqr();
            if dls < 1 {
                proof {
                    lemma_black_exit(world@, ray@, depth as int, attens);
                }
                return Color01 { r: 0, g: 0, b: 0 };
            }
            let hit_result = world.hit(&cur, T_EPSILON, T_LIMIT);
            if hit_result.is_hit {
                proof {
                    lemma_scene_best_nearest(world@, cur@, T_EPSILON as int, T_LIMIT as int);
                    let h = hit_result.data@;
                    let i = choose|i: int|
                        0 <= i < world@.len() && sphere_hit_model(
                            world@[i],
                            cur@,
                            T_EPSILON as int,
                            T_LIMIT as int,
                        ) == Some(h);
                    assert(sphere_wf(world@[i]));
                    assert(material_wf(hit_result.data.material));
                }
                let mat = hit_result.data.material;
                let bounce = mat.scatter(&cur, &hit_result);
                if bounce.2 {
                    proof {
                        lemma_fmul_unit(atten.r as int, bounce.1.r as int);
                        lemma_fmul_unit(atten.g as int, bounce.1.g as int);
                        lemma_fmul_unit(atten.b as int, bounce.1.b as int);
                        assert(attens.push(bounce.1@).drop_last() =~= attens);
                    }
                    atten = atten.mul(&bounce.1);
                    proof {
                        attens = attens.push(bounce.1@);
                    }
                    cur = bounce.0;
                    d = d - 1;
                } else {
                    proof {
                        let ghost sb = scene_best(
                            world@,
                            ray@,
                            T_EPSILON as int,
                            T_LIMIT as int,
                        );
                        if depth > 0 && ray_wf(ray@) && sb is Some {
                            let h0 = sb->Some_0;
                            let wa = if attens.len() == 0 {
                                seq![scatter_attenuation(h0.material)]
                            } else {
                                attens
                            };
                            if attens.len() == 0 {
                                assert(hit_result.data@ == h0);
                                assert(channels01(wa[0]));
                            }
                            lemma_attens_fold_channels01(wa);
                            lemma_cmul_black(attens_fold(wa));
                            lemma_transport_witness(
                                depth as int,
                                h0,
                                wa,
                                ColorModel { r: 0int, g: 0int, b: 0int },
                                ColorModel { r: 0int, g: 0int, b: 0int },
                            );
                        }
                    }
                    return Color01 { r: 0, g: 0, b: 0 };
                }
            } else {
                let bg = background(&cur);
                proof {
                    lemma_fmul_unit(atten.r as int, bg.r as int);
                    lemma_fmul_unit(atten.g as int, bg.g as int);
                    lemma_fmul_unit(atten.b as int, bg.b as int);
                    if atten.r == 65536 && atten.g == 65536 && atten.b == 65536 {
                        lemma_fmul_one(bg.r as int);
                        lemma_fmul_one(bg.g as int);
                        lemma_fmul_one(bg.b as int);
                    }
                }
                let closed = atten.mul(&bg);
                proof {
                    let ghost sb = scene_best(world@, ray@, T_EPSILON as int, T_LIMIT as int);
                    if depth > 0 && ray_wf(ray@) && sb is Some {
                        lemma_transport_witness(depth as int, sb->Some_0, attens, bg@, closed@);
                    }
                }
                return closed;
            }
        }
        proof {
            if depth > 0 {
                lemma_black_exit(world@, ray@, depth as int, attens);
            }
        }
        Color01 { r: 0, g: 0, b: 0 }
    }

    /// Recompute every derived field from the public parameters,
    /// rejecting configurations whose fixed-point viewport would be
    /// degenerate or out of numeric range.
    pub fn initialize(&mut self) -> (res: Result<(), RenderError>)
        ensures
            res.is_ok() == camera_init_ok(*old(self)),
            res.is_err() ==> *final(self) == *old(self) && res == Err::<(), RenderError>(
                RenderError::InvalidConfiguration,
            ),
            final(self).position == old(self).position,
            final(self).look_at == old(self).look_at,
            final(self).up_vector == old(self).up_vector,
            final(self).fov_vertical == old(self).fov_vertical,
            final(self).defocus_angle == old(self).defocus_angle,
            final(self).focus_distance == old(self).focus_distance,
            final(self).aspect_ratio == old(self).aspect_ratio,
            final(self).frame_width == old(self).frame_width,
            final(self).samples_per_pixel == old(self).samples_per_pixel,
            final(self).ray_bounces_max == old(self).ray_bounces_max,
            res.is_ok() ==> camera_derived_wf(*final(self)),
            res.is_ok() ==> final(self).frame_height == frame_height_spec(*old(self)),
            res.is_ok() ==> final(self).pixel_delta_u@ == pixel_delta_u_spec(*old(self)),
            res.is_ok() ==> final(self).pixel_delta_v@ == pixel_delta_v_spec(*old(self)),
            res.is_ok() ==> final(self).pixel_zero@ == pixel_zero_spec(*old(self)),
            res.is_ok() ==> final(self).u@ == u_axis_spec(*old(self)),
            res.is_ok() ==> final(self).v@ == v_axis_spec(*old(self)),
            res.is_ok() ==> final(self).w@ == w_axis_spec(*old(self)),
            res.is_ok() ==> final(self).defocus_disk_u@ == defocus_disk_u_spec(*old(self)),
            res.is_ok() ==> final(self).defocus_disk_v@ == defocus_disk_v_spec(*old(self)),
            res.is_ok() ==> final(self).pixel_samples_scale == tdiv(
                65536,
                old(self).samples_per_pixel as int,
            ),
    {
        let err: Result<(), RenderError> = Err(RenderError::InvalidConfiguration);
        if !(1 <= self.frame_width && self.frame_width <= 8192) {
            return err;
        }
        if !(655 <= self.aspect_ratio && self.aspect_ratio <= 0x640_0000) {
            return err;
        }
        if self.samples_per_pixel < 1 {
            return err;
        }
        let wf_: i64 = (self.frame_width as i64) * 65536;
        let hf = div_fixed(wf_, self.aspect_ratio);
        let h_i = div_trunc(hf, 65536);
        if !(1 <= h_i && h_i <= 8192) {
            return err;
        }
        if !(-POS_LIMIT <= self.position.x && self.position.x <= POS_LIMIT && -POS_LIMIT
            <= self.position.y && self.position.y <= POS_LIMIT && -POS_LIMIT <= self.position.z
            && self.position.z <= POS_LIMIT) {
            return err;
        }
        if !(-POS_LIMIT <= self.look_at.x && self.look_at.x <= POS_LIMIT && -POS_LIMIT
            <= self.look_at.y && self.look_at.y <= POS_LIMIT && -POS_LIMIT <= self.look_at.z
            && self.look_at.z <= POS_LIMIT) {
            return err;
        }
        if !(-POS_LIMIT <= self.up_vector.x && self.up_vector.x <= POS_LIMIT && -POS_LIMIT
            <= self.up_vector.y && self.up_vector.y <= POS_LIMIT && -POS_LIMIT <= self.up_vector.z
            && self.up_vector.z <= POS_LIMIT) {
            return err;
        }
        if !(1 <= self.focus_distance && self.focus_distance <= POS_LIMIT) {
            return err;
        }
        if !(6553 <= self.fov_vertical && self.fov_vertical <= 0x96_0000) {
            return err;
        }
        if !(0 <= self.defocus_angle && self.defocus_angle <= 0x96_0000) {
            return err;
        }

        let fov_rad = deg_to_rad(self.fov_vertical);
        let half_fov = div_trunc(fov_rad, 2);
        if !(-205887 <= half_fov && half_fov <= 205887) {
            return err;
        }
        let fc = cos_fixed(half_fov);
        if fc < 655 {
            return err;
        }
        let frustum_h = tan_fixed(half_fov);
        if !(0 <= frustum_h && frustum_h <= 0x40_0000) {
            return err;
        }
        let da_half = div_trunc(self.defocus_angle, 2);
        let defocus_rad = deg_to_rad(da_half);
        if !(-205887 <= defocus_rad && defocus_rad <= 205887) {
            return err;
        }
        let dc = cos_fixed(defocus_rad);
        if dc < 655 {
            return err;
        }
        let defocus_tan = tan_fixed(defocus_rad);
        if !(0 <= defocus_tan && defocus_tan <= 0x40_0000) {
            return err;
        }

        let diff = self.position.sub(&self.look_at);
        let dl = diff.len_sqr();
        if dl < 1 {
            return err;
        }
        proof {
            lemma_isqrt_ge((dl as int) * (SCALE as int), 1);
        }
        let w_n = diff.normalized();
        if !(-131072 <= w_n.x && w_n.x <= 131072 && -131072 <= w_n.y && w_n.y <= 131072 && -131072
            <= w_n.z && w_n.z <= 131072) {
            return err;
        }
        let cr = cross(&self.up_vector, &w_n);
        proof {
            lemma_fmul_bound(self.up_vector@.y, w_n@.z, 0x400_0000, 0x2_0000);
            lemma_fmul_bound(w_n@.y, self.up_vector@.z, 0x2_0000, 0x400_0000);
            lemma_fmul_bound(self.up_vector@.x, w_n@.z, 0x400_0000, 0x2_0000);
            lemma_fmul_bound(w_n@.x, self.up_vector@.z, 0x2_0000, 0x400_0000);
            lemma_fmul_bound(self.up_vector@.x, w_n@.y, 0x400_0000, 0x2_0000);
            lemma_fmul_bound(w_n@.x, self.up_vector@.y, 0x2_0000, 0x400_0000);
        }
        let cl = cr.len_sqr();
        if cl < 1 {
            return err;
        }
        proof {
            lemma_isqrt_ge((cl as int) * (SCALE as int), 1);
        }
        let u_n = cr.normalized();
        if !(-131072 <= u_n.x && u_n.x <= 131072 && -131072 <= u_n.y && u_n.y <= 131072 && -131072
            <= u_n.z && u_n.z <= 131072) {
            return err;
        }
        let v_ax = cross(&w_n, &u_n);
        proof {
            lemma_fmul_bound(w_n@.y, u_n@.z, 0x2_0000, 0x2_0000);
            lemma_fmul_bound(u_n@.y, w_n@.z, 0x2_0000, 0x2_0000);
            lemma_fmul_bound(w_n@.x, u_n@.z, 0x2_0000, 0x2_0000);
            lemma_fmul_bound(u_n@.x, w_n@.z, 0x2_0000, 0x2_0000);
            lemma_fmul_bound(w_n@.x, u_n@.y, 0x2_0000, 0x2_0000);
            lemma_fmul_bound(u_n@.x, w_n@.y, 0x2_0000, 0x2_0000);
        }

        proof {
            lemma_pmul_fits(frustum_h as int, self.focus_distance as int, 0x40_0000, 0x400_0000);
            lemma_fmul_bound(frustum_h as int, self.focus_distance as int, 0x40_0000, 0x400_0000);
        }
        let view_height = 2 * mul_fixed(frustum_h, self.focus_distance);
        proof {
            lemma_fdiv_le(wf_ as int, (h_i as int) * 65536, 0x2000_0000);
            lemma_pmul_fits(view_height as int, fdiv(wf_ as int, (h_i as int) * 65536), 0x4_0000_0000, 0x2000_0000);
        }
        let ratio = div_fixed(wf_, h_i * 65536);
        let view_width = mul_fixed(view_height, ratio);
        if !(0 <= view_width && view_width <= 0x10_0000_0000) {
            return err;
        }

        proof {
            lemma_fmul_bound(u_n@.x, view_width as int, 0x2_0000, 0x10_0000_0000);
            lemma_fmul_bound(u_n@.y, view_width as int, 0x2_0000, 0x10_0000_0000);
            lemma_fmul_bound(u_n@.z, view_width as int, 0x2_0000, 0x10_0000_0000);
        }
        let view_u = u_n.scale(view_width);
        proof {
            lemma_fmul_bound(-v_ax@.x, view_height as int, 0x8_0000, 0x4_0000_0000);
            lemma_fmul_bound(-v_ax@.y, view_height as int, 0x8_0000, 0x4_0000_0000);
            lemma_fmul_bound(-v_ax@.z, view_height as int, 0x8_0000, 0x4_0000_0000);
        }
        let view_v = v_ax.neg().scale(view_height);
        proof {
            lemma_fdiv_le(view_u@.x, (wf_ as int), 0x20_0000_0000);
            lemma_fdiv_le(view_u@.y, (wf_ as int), 0x20_0000_0000);
            lemma_fdiv_le(view_u@.z, (wf_ as int), 0x20_0000_0000);
            lemma_fdiv_le(view_v@.x, (h_i as int) * 65536, 0x20_0000_0000);
            lemma_fdiv_le(view_v@.y, (h_i as int) * 65536, 0x20_0000_0000);
            lemma_fdiv_le(view_v@.z, (h_i as int) * 65536, 0x20_0000_0000);
        }
        let pdu = view_u.div(wf_);
        let pdv = view_v.div(h_i * 65536);

        proof {
            lemma_fmul_bound(w_n@.x, self.focus_distance as int, 0x2_0000, 0x400_0000);
            lemma_fmul_bound(w_n@.y, self.focus_distance as int, 0x2_0000, 0x400_0000);
            lemma_fmul_bound(w_n@.z, self.focus_distance as int, 0x2_0000, 0x400_0000);
        }
        let fw = w_n.scale(self.focus_distance);
        let p1 = self.position.sub(&fw);
        let sum_uv = view_u.add(&view_v);
        proof {
            lemma_fmul_bound(sum_uv@.x, 32768, 0x40_0000_0000, 0x8000);
            lemma_fmul_bound(sum_uv@.y, 32768, 0x40_0000_0000, 0x8000);
            lemma_fmul_bound(sum_uv@.z, 32768, 0x40_0000_0000, 0x8000);
        }
        let half_uv = sum_uv.scale(32768);
        let upper_left = p1.sub(&half_uv);
        let sum_pd = pdu.add(&pdv);
        proof {
            lemma_fmul_bound(sum_pd@.x, 32768, 0x80_0000_0000, 0x8000);
            lemma_fmul_bound(sum_pd@.y, 32768, 0x80_0000_0000, 0x8000);
            lemma_fmul_bound(sum_pd@.z, 32768, 0x80_0000_0000, 0x8000);
        }
        let half_pd = sum_pd.scale(32768);
        let pixel_zero = upper_left.add(&half_pd);

        proof {
            lemma_pmul_fits(self.focus_distance as int, defocus_tan as int, 0x400_0000, 0x40_0000);
            lemma_fmul_bound(self.focus_distance as int, defocus_tan as int, 0x400_0000, 0x40_0000);
        }
        let defocus_radius = mul_fixed(self.focus_distance, defocus_tan);
        proof {
            lemma_fmul_bound(u_n@.x, defocus_radius as int, 0x2_0000, 0x1_0000_0000);
            lemma_fmul_bound(u_n@.y, defocus_radius as int, 0x2_0000, 0x1_0000_0000);
            lemma_fmul_bound(u_n@.z, defocus_radius as int, 0x2_0000, 0x1_0000_0000);
            lemma_fmul_bound(v_ax@.x, defocus_radius as int, 0x10_0000, 0x1_0000_0000);
            lemma_fmul_bound(v_ax@.y, defocus_radius as int, 0x10_0000, 0x1_0000_0000);
            lemma_fmul_bound(v_ax@.z, defocus_radius as int, 0x10_0000, 0x1_0000_0000);
        }
        let disk_u = u_n.scale(defocus_radius);
        let disk_v = v_ax.scale(defocus_radius);

        let pss = div_trunc(65536, self.samples_per_pixel as i64);
        proof {
            assert(65536int / (self.samples_per_pixel as int) >= 1) by (nonlinear_arith)
                requires
                    1 <= self.samples_per_pixel as int <= 65535,
            ;
            vstd::arithmetic::div_mod::lemma_div_nonincreasing(65536, self.samples_per_pixel as int);
        }
        proof {
            assert((self.frame_width as int) * (h_i as int) <= 0x400_0000) by (nonlinear_arith)
                requires
                    1 <= self.frame_width as int <= 8192,
                    1 <= h_i as int <= 8192,
            ;
        }
        let h_u32: u32 = h_i as u32;
        self.frame_height = h_u32;
        self.frame_res = self.frame_width * h_u32;
        self.w = w_n;
        self.u = u_n;
        self.v = v_ax;
        self.pixel_delta_u = pdu;
        self.pixel_delta_v = pdv;
        self.pixel_zero = pixel_zero;
        self.pixel_samples_scale = pss;
        self.defocus_disk_u = disk_u;
        self.defocus_disk_v = disk_v;
        Ok(())
    }

    /// A jittered ray through pixel `(i, j)`, originating on the
    /// defocus disk when a positive defocus angle is set.
    pub fn get_ray(&self, i: u32, j: u32) -> (r: Ray)
        requires
            camera_derived_wf(*self),
            i < self.frame_height,
            j < self.frame_width,
        ensures
            jittered_ray_shape(*self, i as int, j as int, r@),
            self.defocus_angle <= 0 ==> r@.origin == self.position@,
    {
        let dx = random() - 32768;
        let dy = random() - 32768;
        let jj: i64 = (j as i64) * 65536 + dx;
        let ii: i64 = (i as i64) * 65536 + dy;
        proof {
            lemma_fmul_bound(self.pixel_delta_u@.x, jj as int, 0x40_0000_0000, 0x4000_0000);
            lemma_fmul_bound(self.pixel_delta_u@.y, jj as int, 0x40_0000_0000, 0x4000_0000);
            lemma_fmul_bound(self.pixel_delta_u@.z, jj as int, 0x40_0000_0000, 0x4000_0000);
            lemma_fmul_bound(self.pixel_delta_v@.x, ii as int, 0x40_0000_0000, 0x4000_0000);
            lemma_fmul_bound(self.pixel_delta_v@.y, ii as int, 0x40_0000_0000, 0x4000_0000);
            lemma_fmul_bound(self.pixel_delta_v@.z, ii as int, 0x40_0000_0000, 0x4000_0000);
        }
        let su = self.pixel_delta_u.scale(jj);
        let sv = self.pixel_delta_v.scale(ii);
        let pixel_sample = self.pixel_zero.add(&su).add(&sv);
        let ray_origin = if self.defocus_angle <= 0 {
            self.position
        } else {
            self.defocus_disk_sample()
        };
        let ray_direction = pixel_sample.sub(&ray_origin);
        proof {
            let dxw = dx as int;
            let dyw = dy as int;
            assert(-32768 <= dxw < 32768 && -32768 <= dyw < 32768 && ray_direction@ == vsub(
                vadd(
                    vadd(
                        self.pixel_zero@,
                        vscale(self.pixel_delta_u@, (j as int) * 65536 + dxw),
                    ),
                    vscale(self.pixel_delta_v@, (i as int) * 65536 + dyw),
                ),
                ray_origin@,
            ));
        }
        Ray::new(ray_origin, ray_direction)
    }

    /// A point on the camera's defocus disk.
    fn defocus_disk_sample(&self) -> (p: Vec3)
        requires
            camera_derived_wf(*self),
        ensures
            in_range(p@, 0x4_0000_0000_0000),
            defocus_origin_shape(*self, p@),
    {
        let point = random_in_unit_disk();
        proof {
            lemma_fmul_bound(self.defocus_disk_u@.x, point@.x, 0x10_0000_0000, 0x1_0000);
            lemma_fmul_bound(self.defocus_disk_u@.y, point@.x, 0x10_0000_0000, 0x1_0000);
            lemma_fmul_bound(self.defocus_disk_u@.z, point@.x, 0x10_0000_0000, 0x1_0000);
            lemma_fmul_bound(self.defocus_disk_v@.x, point@.y, 0x10_0000_0000, 0x1_0000);
            lemma_fmul_bound(self.defocus_disk_v@.y, point@.y, 0x10_0000_0000, 0x1_0000);
            lemma_fmul_bound(self.defocus_disk_v@.z, point@.y, 0x10_0000_0000, 0x1_0000);
        }
        let su = self.defocus_disk_u.scale(point.x);
        let sv = self.defocus_disk_v.scale(point.y);
        let origin = self.position.add(&su).add(&sv);
        proof {
            let pw = point@;
            assert(vlen_sqr(pw) < SCALE as int && pw.z == 0 && origin@ == vadd(
                vadd(self.position@, vscale(self.defocus_disk_u@, pw.x)),
                vscale(self.defocus_disk_v@, pw.y),
            ));
        }
        origin
    }

    /// Render the scene: one byte color per pixel, row-major, top row
    /// first. Fails fast on an invalid configuration.
    pub fn render(&mut self, world: &HittableList) -> (res: Result<Vec<Color>, RenderError>)
        requires
            scene_wf(world@),
        ensures
            res.is_ok() == camera_init_ok(*old(self)),
            res matches Ok(pixels) ==> pixels@.len() == final(self).frame_res
                && camera_derived_wf(*final(self)),
            res matches Ok(pixels) ==> forall|k: int|
                0 <= k < pixels@.len() ==> pixel_sampled(
                    *final(self),
                    world@,
                    k / (final(self).frame_width as int),
                    k % (final(self).frame_width as int),
                    #[trigger] pixels@[k],
                ),
            res.is_err() ==> *final(self) == *old(self),
    {
        let init = self.initialize();
        if init.is_err() {
            return Err(RenderError::InvalidConfiguration);
        }
        let mut pixels: Vec<Color> = Vec::new();
        let height = self.frame_height;
        let width = self.frame_width;
        let mut i: u32 = 0;
        while i < height
            invariant
                camera_derived_wf(*self),
                scene_wf(world@),
                height == self.frame_height,
                width == self.frame_width,
                i <= height,
                pixels@.len() == i * width,
                forall|k: int|
                    0 <= k < pixels@.len() ==> pixel_sampled(
                        *self,
                        world@,
                        k / (width as int),
                        k % (width as int),
                        #[trigger] pixels@[k],
                    ),
            decreases height - i,
        {
            let mut j: u32 = 0;
            while j < width
                invariant
                    camera_derived_wf(*self),
                    scene_wf(world@),
                    height == self.frame_height,
                    width == self.frame_width,
                    i < height,
                    j <= width,
                    pixels@.len() == i * width + j,
                    forall|k: int|
                        0 <= k < pixels@.len() ==> pixel_sampled(
                            *self,
                            world@,
                            k / (width as int),
                            k % (width as int),
                            #[trigger] pixels@[k],
                        ),
                decreases width - j,
            {
                let color = self.sample_pixel(i, j, world);
                let byte_color = color.to_display();
                proof {
                    let k0 = (i as int) * (width as int) + (j as int);
                    vstd::arithmetic::div_mod::lemma_fundamental_div_mod_converse(
                        k0,
                        width as int,
                        i as int,
                        j as int,
                    );
                    let (wrays, wsamples) = choose|rays: Seq<RayModel>, samples: Seq<ColorModel>|
                        #![trigger rays.len(), samples.len()]
                        rays.len() == self.samples_per_pixel && samples.len()
                            == self.samples_per_pixel && (forall|m: int|
                            0 <= m < rays.len() ==> jittered_ray_shape(
                                *self,
                                i as int,
                                j as int,
                                #[trigger] rays[m],
                            )) && (forall|m: int|
                            0 <= m < samples.len() ==> ray_color_post(
                                world@,
                                rays[m],
                                self.ray_bounces_max as int,
                                #[trigger] samples[m],
                            )) && color@ == accumulate_samples(
                            samples,
                            self.pixel_samples_scale as int,
                        );
                        assert(wrays.len() == self.samples_per_pixel && wsamples.len()
                            == self.samples_per_pixel && (forall|m: int|
                            0 <= m < wrays.len() ==> jittered_ray_shape(
                                *self,
                                k0 / (width as int),
                                k0 % (width as int),
                                #[trigger] wrays[m],
                            )) && (forall|m: int|
                            0 <= m < wsamples.len() ==> ray_color_post(
                                world@,
                                wrays[m],
                                self.ray_bounces_max as int,
                                #[trigger] wsamples[m],
                            )) && byte_color == crate::color::display_triple(
                            accumulate_samples(wsamples, self.pixel_samples_scale as int),
                        ));
                    assert(pixel_sampled(
                        *self,
                        world@,
                        k0 / (width as int),
                        k0 % (width as int),
                        byte_color,
                    ));
                }
                pixels.push(byte_color);
                j = j + 1;
            }
            proof {
                assert((i + 1) * width == i * width + width) by (nonlinear_arith);
            }
            i = i + 1;
        }
        proof {
            assert(pixels@.len() == height * width);
            assert(height * width == width * height) by (nonlinear_arith);
        }
        Ok(pixels)
    }

    /// Accumulate the configured number of samples for pixel `(i, j)`.
    fn sample_pixel(&self, i: u32, j: u32, world: &HittableList) -> (c: Color01)
        requires
            camera_derived_wf(*self),
            scene_wf(world@),
            i < self.frame_height,
            j < self.frame_width,
        ensures
            0 <= c.r <= SCALE,
            0 <= c.g <= SCALE,
            0 <= c.b <= SCALE,
            exists|rays: Seq<RayModel>, samples: Seq<ColorModel>|
                #![trigger rays.len(), samples.len()]
                rays.len() == self.samples_per_pixel && samples.len() == self.samples_per_pixel
                    && (forall|m: int|
                    0 <= m < rays.len() ==> jittered_ray_shape(
                        *self,
                        i as int,
                        j as int,
                        #[trigger] rays[m],
                    )) && (forall|m: int|
                    0 <= m < samples.len() ==> ray_color_post(
                        world@,
                        rays[m],
                        self.ray_bounces_max as int,
                        #[trigger] samples[m],
                    )) && c@ == accumulate_samples(samples, self.pixel_samples_scale as int),
    {
        let mut color = Color01 { r: 0, g: 0, b: 0 };
        let spp = self.samples_per_pixel;
        let pss = self.pixel_samples_scale;
        let mut s: u16 = 0;
        let ghost mut rays: Seq<RayModel> = Seq::empty();
        let ghost mut samples: Seq<ColorModel> = Seq::empty();
        while s < spp
            invariant
                camera_derived_wf(*self),
                scene_wf(world@),
                i < self.frame_height,
                j < self.frame_width,
                spp == self.samples_per_pixel,
                pss == self.pixel_samples_scale,
                s <= spp,
                0 <= color.r <= (s as int) * (pss as int),
                0 <= color.g <= (s as int) * (pss as int),
                0 <= color.b <= (s as int) * (pss as int),
                (s as int) * (pss as int) <= SCALE as int || s == 0,
                rays.len() == s,
                samples.len() == s,
                forall|m: int|
                    0 <= m < rays.len() ==> jittered_ray_shape(
                        *self,
                        i as int,
                        j as int,
                        #[trigger] rays[m],
                    ),
                forall|m: int|
                    0 <= m < samples.len() ==> ray_color_post(
                        world@,
                        rays[m],
                        self.ray_bounces_max as int,
                        #[trigger] samples[m],
                    ),
                color@ == accumulate_samples(samples, pss as int),
            decreases spp - s,
        {
            let ray: Ray = self.get_ray(i, j);
            let sample = Camera::ray_color(&ray, self.ray_bounces_max, world);
            proof {
                lemma_fmul_unit(sample.r as int, pss as int);
                lemma_fmul_unit(sample.g as int, pss as int);
                lemma_fmul_unit(sample.b as int, pss as int);
                assert((s as int + 1) * (pss as int) == (s as int) * (pss as int) + (
                pss as int)) by (nonlinear_arith);
                assert((s as int + 1) * (pss as int) <= (spp as int) * (pss as int))
                    by (nonlinear_arith)
                    requires
                        s as int + 1 <= spp as int,
                        pss as int >= 0,
                ;
                vstd::arithmetic::div_mod::lemma_fundamental_div_mod(65536, spp as int);
                vstd::arithmetic::div_mod::lemma_mod_bound(65536, spp as int);
                assert((spp as int) * (pss as int) <= 65536) by (nonlinear_arith)
                    requires
                        1 <= spp as int,
                        pss as int == 65536int / (spp as int),
                        65536int == (spp as int) * (65536int / (spp as int)) + 65536int % (
                        spp as int),
                        0 <= 65536int % (spp as int),
                ;
            }
            let scaled = sample.scale(pss);
            color = color.add(&scaled);
            proof {
                assert(samples.push(sample@).drop_last() =~= samples);
                rays = rays.push(ray@);
                samples = samples.push(sample@);
            }
            s = s + 1;
        }
        color
    }
}

/// The documented default parameters pass every `initialize` check.
proof fn lemma_default_camera_ok(c: Camera)
    requires
        c.frame_width == 1024,
        c.aspect_ratio == 116508,
        c.samples_per_pixel == 10,
        c.position@ == (Vec3Model { x: 0int, y: 0int, z: 0int }),
        c.look_at@ == (Vec3Model { x: 0int, y: 0int, z: -65536int }),
        c.up_vector@ == (Vec3Model { x: 0int, y: 65536int, z: 0int }),
        c.focus_distance == 655360,
        c.fov_vertical == 5898240,
        c.defocus_angle == 0,
    ensures
        camera_init_ok(c),
{
    vstd::arithmetic::div_mod::lemma_div_pos_is_pos(0, 65536);
    vstd::arithmetic::div_mod::lemma_div_nonincreasing(0, 65536);
    assert(fmul(0, 0) == 0);
    assert((65536int * 65536) / 65536 == 65536) by (nonlinear_arith);
    assert(fmul(65536, 65536) == 65536);
    assert(fmul(-65536, -65536) == 65536);
    assert(frame_height_spec(c) == 576);
    assert(half_fov_rad_spec(c) == 51471);
    assert(51471int * 51471 == 2649263841) by (nonlinear_arith);
    assert(fmul(51471, 51471) == 40424);
    assert(40424int * 40424 == 1634099776) by (nonlinear_arith);
    assert(fmul(40424, 40424) == 24934);
    assert(24934int * 40424 == 1007932016) by (nonlinear_arith);
    assert(fmul(24934, 40424) == 15379);
    assert(cos_spec(51471) == 65536 - 20212 + 1038 - 21);
    assert(40424int * 51471 == 2080663704) by (nonlinear_arith);
    assert(fmul(40424, 51471) == 31748);
    assert(31748int * 40424 == 1283381152) by (nonlinear_arith);
    assert(fmul(31748, 40424) == 19582);
    assert(19582int * 40424 == 791582768) by (nonlinear_arith);
    assert(fmul(19582, 40424) == 12078);
    assert(crate::rt_util::sin_spec(51471) == 51471 - 5291 + 163 - 2);
    assert(crate::rt_util::sin_spec(51471) == 46341);
    assert((46341int * 65536) / 46341 == 65536) by (nonlinear_arith);
    assert(frustum_spec(c) == 65536);
    assert(half_defocus_rad_spec(c) == 0);
    assert(cos_spec(0) == 65536);
    assert(tan_spec(0) == 0);
    let diff = vsub(c.position@, c.look_at@);
    assert(vlen_sqr(diff) == 65536);
    crate::fixed::lemma_isqrt_unique(65536int * 65536, 65536);
    assert(vlen(diff) == 65536);
    assert(fdiv(65536, 65536) == 65536);
    assert(fdiv(0, 65536) == 0);
    assert(w_axis_spec(c) =~= (Vec3Model { x: 0int, y: 0int, z: 65536int }));
    let cr = vcross(c.up_vector@, w_axis_spec(c));
    assert(cr =~= (Vec3Model { x: 65536int, y: 0int, z: 0int }));
    assert(vlen_sqr(cr) == 65536);
    assert(u_axis_spec(c) =~= (Vec3Model { x: 65536int, y: 0int, z: 0int }));
    assert(view_height_spec(c) == 1310720);
    assert(wh_ratio_spec(c) == 116508);
    assert(view_width_spec(c) == 2330160);
}

impl Default for Camera {
    /// The documented default configuration: a unit camera at the
    /// origin looking down the negative `z` axis, 90-degree field of
    /// view, 16:9 frame of width 1024, 10 samples and 10 bounces.
    /// Derived fields are populated by `initialize`.
    fn default() -> (c: Camera)
        ensures
            c.position@ == (Vec3Model { x: 0int, y: 0int, z: 0int }),
            c.look_at@ == (Vec3Model { x: 0int, y: 0int, z: -65536int }),
            c.up_vector@ == (Vec3Model { x: 0int, y: 65536int, z: 0int }),
            c.fov_vertical == 90 * 65536,
            c.aspect_ratio == 116508,
            c.frame_width == 1024,
            c.samples_per_pixel == 10,
            c.ray_bounces_max == 10,
            c.defocus_angle == 0,
            c.focus_distance == 10 * 65536,
            camera_init_ok(c),
            camera_derived_wf(c),
            c.frame_height == frame_height_spec(c),
            c.pixel_delta_u@ == pixel_delta_u_spec(c),
            c.pixel_delta_v@ == pixel_delta_v_spec(c),
            c.pixel_zero@ == pixel_zero_spec(c),
            c.u@ == u_axis_spec(c),
            c.v@ == v_axis_spec(c),
            c.w@ == w_axis_spec(c),
            c.defocus_disk_u@ == defocus_disk_u_spec(c),
            c.defocus_disk_v@ == defocus_disk_v_spec(c),
            c.pixel_samples_scale == tdiv(65536, 10),
    {
        let mut cam = Camera {
            position: Vec3 { x: 0, y: 0, z: 0 },
            look_at: Vec3 { x: 0, y: 0, z: -65536 },
            up_vector: Vec3 { x: 0, y: 65536, z: 0 },
            fov_vertical: 90 * 65536,
            defocus_angle: 0,
            focus_distance: 10 * 65536,
            aspect_ratio: 116508,
            frame_width: 1024,
            samples_per_pixel: 10,
            ray_bounces_max: 10,
            pixel_zero: Vec3 { x: 0, y: 0, z: 0 },
            pixel_delta_u: Vec3 { x: 0, y: 0, z: 0 },
            pixel_delta_v: Vec3 { x: 0, y: 0, z: 0 },
            pixel_samples_scale: 65536,
            frame_height: 0,
            frame_res: 0,
            u: Vec3 { x: 0, y: 0, z: 0 },
            v: Vec3 { x: 0, y: 0, z: 0 },
            w: Vec3 { x: 0, y: 0, z: 0 },
            defocus_disk_u: Vec3 { x: 0, y: 0, z: 0 },
            defocus_disk_v: Vec3 { x: 0, y: 0, z: 0 },
        };
        proof {
            lemma_default_camera_ok(cam);
        }
        let init = cam.initialize();
        proof {
            assert(init.is_ok());
        }
        cam
    }
}

} // verus!
