//! Geometry: ray-sphere intersection and the nearest-hit scene search.

use vstd::prelude::*;
use crate::fixed::{
    SCALE, fmul, fdiv, fsqrt, mul_fixed, div_fixed, sqrt_fixed, lemma_tdiv_monotone,
    lemma_fmul_bound, lemma_isqrt_bounds,
};
use crate::vector::{
    Vec3, Vec3Model, vsub, vneg, vdot, vdiv, vlen_sqr, in_range, dot, lemma_pmul_fits,
    lemma_vdot_neg_right,
};
use crate::ray::{Ray, RayModel, ray_at};
use crate::material::{Material, material_wf};

verus! {

/// Coordinate cap for scene geometry (1024 world units).
pub const POS_LIMIT: i64 = 0x400_0000;

/// Coordinate cap for ray directions handed to intersection (512 units).
pub const DIR_LIMIT: i64 = 0x200_0000;

/// Cap on the ray parameter searched for a hit.
pub const T_LIMIT: i64 = 0x4_0000_0000;

/// Cap on accepted unit-normal coordinates (4 units). A computed
/// outward normal beyond this marks a numerically degenerate
/// intersection and is reported as a miss rather than propagated.
pub const NORMAL_LIMIT: i64 = 0x4_0000;

/// Rays the intersection routines accept: bounded coordinates and a
/// direction that is not degenerate.
pub open spec fn ray_wf(r: RayModel) -> bool {
    &&& in_range(r.origin, POS_LIMIT as int)
    &&& in_range(r.direction, DIR_LIMIT as int)
    &&& 1 <= vlen_sqr(r.direction)
}

/// The mathematical image of a hit record.
pub struct RayHitDataModel {
    pub point: Vec3Model,
    pub normal: Vec3Model,
    pub ray_t: int,
    pub front_face: bool,
    pub material: Material,
}

pub struct RayHitData {
    pub point: Vec3,
    pub normal: Vec3,
    pub ray_t: i64,
    pub front_face: bool,
    pub material: Material,
}

impl View for RayHitData {
    type V = RayHitDataModel;

    open spec fn view(&self) -> RayHitDataModel {
        RayHitDataModel {
            point: self.point@,
            normal: self.normal@,
            ray_t: self.ray_t as int,
            front_face: self.front_face,
            material: self.material,
        }
    }
}

pub struct RayHitResult {
    pub is_hit: bool,
    pub data: RayHitData,
}

impl View for RayHitResult {
    type V = Option<RayHitDataModel>;

    open spec fn view(&self) -> Option<RayHitDataModel> {
        if self.is_hit {
            Some(self.data@)
        } else {
            None
        }
    }
}

impl Default for RayHitResult {
    /// The record meaning "no hit".
    fn default() -> (r: RayHitResult)
        ensures
            r@ == None::<RayHitDataModel>,
            !r.is_hit,
            r.data.point@ == (Vec3Model { x: 0int, y: 0int, z: 0int }),
            r.data.normal@ == (Vec3Model { x: 0int, y: 0int, z: 0int }),
            r.data.ray_t == -65536,
            !r.data.front_face,
            r.data.material == (Material {
                type_info: crate::material::MaterialType::Lambert,
                albedo: crate::color::Color01 { r: 0i64, g: 0i64, b: 0i64 },
                fuzziness: 0i64,
                refraction_idx: 65536i64,
            }),
    {
        RayHitResult {
            is_hit: false,
            data: RayHitData {
                point: Vec3 { x: 0, y: 0, z: 0 },
                normal: Vec3 { x: 0, y: 0, z: 0 },
                ray_t: -65536,
                front_face: false,
                material: Material {
                    type_info: crate::material::MaterialType::Lambert,
                    albedo: crate::color::Color01 { r: 0, g: 0, b: 0 },
                    fuzziness: 0,
                    refraction_idx: 65536,
                },
            },
        }
    }
}

impl RayHitData {
    /// Orient a geometric outward normal against the incoming ray, and
    /// record on which side the ray arrived.
    pub fn set_face_normal(&mut self, ray: &Ray, outward_normal: &Vec3)
        requires
            in_range(ray@.direction, 0x40_0000_0000),
            in_range(outward_normal@, 0x40_0000_0000),
        ensures
            final(self).point == old(self).point,
            final(self).ray_t == old(self).ray_t,
            final(self).material == old(self).material,
            final(self).front_face == !(vdot(ray@.direction, outward_normal@) > 0),
            final(self).normal@ == (if vdot(ray@.direction, outward_normal@) > 0 {
                vneg(outward_normal@)
            } else {
                outward_normal@
            }),
            vdot(ray@.direction, final(self).normal@) <= 0,
    {
        let d = dot(&ray.direction, outward_normal);
        self.front_face = !(d > 0);
        if d > 0 {
            proof {
                lemma_vdot_neg_right(ray@.direction, outward_normal@);
            }
            self.normal = outward_normal.neg();
        } else {
            self.normal = *outward_normal;
        }
    }
}

#[derive(Clone, Copy, Debug, PartialEq, Eq, Structural)]
pub struct Sphere {
    pub center: Vec3,
    pub radius: i64,
    pub material: Material,
}

/// Spheres a scene accepts: bounded center, positive bounded radius,
/// admissible material parameters.
pub open spec fn sphere_wf(s: Sphere) -> bool {
    &&& in_range(s.center@, POS_LIMIT as int)
    &&& 1 <= s.radius <= POS_LIMIT
    &&& material_wf(s.material)
}

/// The open-closed search interval for ray parameters.
pub open spec fn hit_interval(t: int, t_min: int, t_max: int) -> bool {
    t_min < t && t <= t_max
}

/// The ray parameter at which a sphere is first hit, if any: the
/// quadratic is solved in fixed-point arithmetic and the smaller root
/// is preferred.
pub open spec fn sphere_hit_t(center: Vec3Model, radius: int, ray: RayModel, t_min: int, t_max: int) -> Option<int> {
    let oc = vsub(ray.origin, center);
    let a = vlen_sqr(ray.direction);
    let b = vdot(ray.direction, oc);
    let cc = vlen_sqr(oc) - fmul(radius, radius);
    let disc = fmul(b, b) - fmul(a, cc);
    if disc < 0 {
        None
    } else {
        let sd = fsqrt(disc);
        let t1 = fdiv(-b - sd, a);
        let t2 = fdiv(-b + sd, a);
        if hit_interval(t1, t_min, t_max) {
            Some(t1)
        } else if hit_interval(t2, t_min, t_max) {
            Some(t2)
        } else {
            None
        }
    }
}

/// The geometric outward normal at parameter `t`.
pub open spec fn sphere_outward_normal(center: Vec3Model, radius: int, ray: RayModel, t: int) -> Vec3Model {
    vdiv(vsub(ray_at(ray, t), center), radius)
}

/// The full hit record a sphere produces, if any.
pub open spec fn sphere_hit_model(s: Sphere, ray: RayModel, t_min: int, t_max: int) -> Option<RayHitDataModel> {
    match sphere_hit_t(s.center@, s.radius as int, ray, t_min, t_max) {
        None => None,
        Some(t) => {
            let point = ray_at(ray, t);
            let outward = sphere_outward_normal(s.center@, s.radius as int, ray, t);
            if !in_range(outward, NORMAL_LIMIT as int) {
                None
            } else {
                let flip = vdot(ray.direction, outward) > 0;
                Some(
                    RayHitDataModel {
                        point,
                        normal: if flip {
                            vneg(outward)
                        } else {
                            outward
                        },
                        ray_t: t,
                        front_face: !flip,
                        material: s.material,
                    },
                )
            }
        },
    }
}

impl Sphere {
    /// Nearest intersection of `ray` with this sphere whose parameter
    /// lies in `(t_min, t_max]`.
    pub fn hit(&self, ray: &Ray, t_min: i64, t_max: i64) -> (result: RayHitResult)
        requires
            sphere_wf(*self),
            ray_wf(ray@),
            0 <= t_min,
            t_max <= T_LIMIT,
        ensures
            result@ == sphere_hit_model(*self, ray@, t_min as int, t_max as int),
            result.is_hit ==> vdot(ray@.direction, result.data@.normal) <= 0,
            result.is_hit ==> in_range(result.data@.normal, NORMAL_LIMIT as int),
            result.is_hit ==> hit_interval(result.data@.ray_t, t_min as int, t_max as int),
            result.is_hit ==> in_range(result.data@.point, 0x2000_0000_0000),
            result.is_hit ==> result.data.material == self.material,
    {
        let mut result = RayHitResult::default();

        let sphere_to_ray = ray.origin.sub(&self.center);
        let a = ray.direction.len_sqr();
        let b = dot(&ray.direction, &sphere_to_ray);
        proof {
            lemma_fmul_bound(ray@.direction.x, sphere_to_ray@.x, 0x200_0000, 0x800_0000);
            lemma_fmul_bound(ray@.direction.y, sphere_to_ray@.y, 0x200_0000, 0x800_0000);
            lemma_fmul_bound(ray@.direction.z, sphere_to_ray@.z, 0x200_0000, 0x800_0000);
            lemma_fmul_bound(ray@.direction.x, ray@.direction.x, 0x200_0000, 0x200_0000);
            lemma_fmul_bound(ray@.direction.y, ray@.direction.y, 0x200_0000, 0x200_0000);
            lemma_fmul_bound(ray@.direction.z, ray@.direction.z, 0x200_0000, 0x200_0000);
            lemma_fmul_bound(sphere_to_ray@.x, sphere_to_ray@.x, 0x800_0000, 0x800_0000);
            lemma_fmul_bound(sphere_to_ray@.y, sphere_to_ray@.y, 0x800_0000, 0x800_0000);
            lemma_fmul_bound(sphere_to_ray@.z, sphere_to_ray@.z, 0x800_0000, 0x800_0000);
            lemma_pmul_fits(self.radius as int, self.radius as int, 0x400_0000, 0x400_0000);
            lemma_fmul_bound(self.radius as int, self.radius as int, 0x400_0000, 0x400_0000);
        }
        let c_val = sphere_to_ray.len_sqr() - mul_fixed(self.radius, self.radius);
        proof {
            lemma_pmul_fits(b as int, b as int, 0x40_0000_0000, 0x40_0000_0000);
            lemma_fmul_bound(b as int, b as int, 0x40_0000_0000, 0x40_0000_0000);
            lemma_pmul_fits(a as int, c_val as int, 0x10_0000_0000, 0x100_0000_0000);
            lemma_fmul_bound(a as int, c_val as int, 0x10_0000_0000, 0x100_0000_0000);
        }
        let discriminant = mul_fixed(b, b) - mul_fixed(a, c_val);

        if discriminant < 0 {
            return result;
        }
        let disc_sqrt = sqrt_fixed(discriminant);
        proof {
            lemma_isqrt_bounds((discriminant as int) * (SCALE as int));
            assert((disc_sqrt as int) * (disc_sqrt as int) <= (discriminant as int) * (
            SCALE as int));
            assert(disc_sqrt as int <= 0x100_0000_0000) by (nonlinear_arith)
                requires
                    disc_sqrt as int >= 0,
                    (disc_sqrt as int) * (disc_sqrt as int) <= (discriminant as int) * (
                    SCALE as int),
                    discriminant as int <= 0x4000_0000_0000_0000,
            ;
        }

        let num1 = -b - disc_sqrt;
        let mut t = div_fixed(num1, a);
        if t <= t_min || t > t_max {
            let num2 = -b + disc_sqrt;
            t = div_fixed(num2, a);
            if t <= t_min || t > t_max {
                return result;
            }
        }

        result.is_hit = true;
        result.data.ray_t = t;
        result.data.point = ray.at(t);
        result.data.material = self.material;
        proof {
            lemma_fmul_bound(ray@.direction.x, t as int, 0x200_0000, 0x4_0000_0000);
            lemma_fmul_bound(ray@.direction.y, t as int, 0x200_0000, 0x4_0000_0000);
            lemma_fmul_bound(ray@.direction.z, t as int, 0x200_0000, 0x4_0000_0000);
        }
        let point_to_center = result.data.point.sub(&self.center);
        let normal = point_to_center.div(self.radius);
        if !(-NORMAL_LIMIT <= normal.x && normal.x <= NORMAL_LIMIT && -NORMAL_LIMIT <= normal.y
            && normal.y <= NORMAL_LIMIT && -NORMAL_LIMIT <= normal.z && normal.z
            <= NORMAL_LIMIT) {
            return RayHitResult::default();
        }
        result.data.set_face_normal(ray, &normal);
        result
    }
}

/// Shrinking the upper end of the search interval to `t_cap` keeps
/// exactly the hits whose parameter lies within `t_cap`.
pub proof fn lemma_sphere_hit_narrow(s: Sphere, ray: RayModel, t_min: int, t_max: int, t_cap: int)
    requires
        t_cap <= t_max,
        1 <= vlen_sqr(ray.direction),
    ensures
        sphere_hit_model(s, ray, t_min, t_cap) == (match sphere_hit_model(s, ray, t_min, t_max) {
            Some(h) => if h.ray_t <= t_cap {
                Some(h)
            } else {
                None::<RayHitDataModel>
            },
            None => None::<RayHitDataModel>,
        }),
{
    let c = s.center@;
    let radius = s.radius as int;
    let oc = vsub(ray.origin, c);
    let a = vlen_sqr(ray.direction);
    let b = vdot(ray.direction, oc);
    let cc = vlen_sqr(oc) - fmul(radius, radius);
    let disc = fmul(b, b) - fmul(a, cc);
    if disc >= 0 {
        let sd = fsqrt(disc);
        lemma_isqrt_bounds(disc * (SCALE as int));
        assert(sd >= 0);
        lemma_tdiv_monotone((-b - sd) * (SCALE as int), (-b + sd) * (SCALE as int), a);
        let t1 = fdiv(-b - sd, a);
        let t2 = fdiv(-b + sd, a);
        assert(t1 <= t2);
    }
}

/// The nearest hit over a sequence of objects, each searched over the
/// full interval; on equal parameters the earliest object wins.
pub open spec fn scene_best(objs: Seq<Sphere>, ray: RayModel, t_min: int, t_max: int) -> Option<RayHitDataModel>
    decreases objs.len(),
{
    if objs.len() == 0 {
        None
    } else {
        let prev = scene_best(objs.drop_last(), ray, t_min, t_max);
        let lastm = sphere_hit_model(objs.last(), ray, t_min, t_max);
        match prev {
            None => lastm,
            Some(p) => match lastm {
                None => prev,
                Some(l) => if l.ray_t < p.ray_t {
                    lastm
                } else {
                    prev
                },
            },
        }
    }
}

/// The scene search is closest-hit correct: a miss means every object
/// misses in the interval, and a returned record is some object's hit
/// with the smallest parameter among all objects' hits.
pub proof fn lemma_scene_best_nearest(objs: Seq<Sphere>, ray: RayModel, t_min: int, t_max: int)
    ensures
        scene_best(objs, ray, t_min, t_max) is None ==> forall|i: int|
            0 <= i < objs.len() ==> sphere_hit_model(objs[i], ray, t_min, t_max) is None,
        scene_best(objs, ray, t_min, t_max) matches Some(h) ==> exists|i: int|
            0 <= i < objs.len() && sphere_hit_model(objs[i], ray, t_min, t_max) == Some(h),
        scene_best(objs, ray, t_min, t_max) matches Some(h) ==> forall|i: int|
            0 <= i < objs.len() ==> (#[trigger] sphere_hit_model(objs[i], ray, t_min, t_max)
                matches Some(g) ==> h.ray_t <= g.ray_t),
    decreases objs.len(),
{
    if objs.len() > 0 {
        let rest = objs.drop_last();
        lemma_scene_best_nearest(rest, ray, t_min, t_max);
        assert(forall|i: int| 0 <= i < rest.len() ==> objs[i] == #[trigger] rest[i]);
        assert(objs.last() == objs[objs.len() - 1]);
        let prev = scene_best(rest, ray, t_min, t_max);
        let lastm = sphere_hit_model(objs.last(), ray, t_min, t_max);
        match scene_best(objs, ray, t_min, t_max) {
            None => {
                assert forall|i: int| 0 <= i < objs.len() implies sphere_hit_model(
                    objs[i],
                    ray,
                    t_min,
                    t_max,
                ) is None by {
                    if i < objs.len() - 1 {
                        assert(objs[i] == rest[i]);
                        assert(sphere_hit_model(rest[i], ray, t_min, t_max) is None);
                    } else {
                        assert(objs[i] == objs.last());
                    }
                }
            },
            Some(h) => {
                match prev {
                    Some(p) => {
                        let picked_last = match lastm {
                            Some(l) => l.ray_t < p.ray_t,
                            None => false,
                        };
                        if picked_last {
                            assert(sphere_hit_model(objs[objs.len() - 1], ray, t_min, t_max)
                                == Some(h));
                        } else {
                            let i = choose|i: int|
                                0 <= i < rest.len() && sphere_hit_model(rest[i], ray, t_min, t_max)
                                    == Some(p);
                            assert(sphere_hit_model(objs[i], ray, t_min, t_max) == Some(h));
                        }
                        assert forall|i: int|
                            0 <= i < objs.len() && #[trigger] sphere_hit_model(
                                objs[i],
                                ray,
                                t_min,
                                t_max,
                            ) is Some implies h.ray_t <= sphere_hit_model(
                            objs[i],
                            ray,
                            t_min,
                            t_max,
                        )->Some_0.ray_t by {
                            if i < objs.len() - 1 {
                                assert(objs[i] == rest[i]);
                                assert(sphere_hit_model(rest[i], ray, t_min, t_max) is Some);
                            } else {
                                assert(objs[i] == objs.last());
                            }
                        }
                    },
                    None => {
                        assert(sphere_hit_model(objs[objs.len() - 1], ray, t_min, t_max)
                            == Some(h));
                        assert forall|i: int|
                            0 <= i < objs.len() && #[trigger] sphere_hit_model(
                                objs[i],
                                ray,
                                t_min,
                                t_max,
                            ) is Some implies h.ray_t <= sphere_hit_model(
                            objs[i],
                            ray,
                            t_min,
                            t_max,
                        )->Some_0.ray_t by {
                            if i < objs.len() - 1 {
                                assert(objs[i] == rest[i]);
                                assert(sphere_hit_model(rest[i], ray, t_min, t_max) is None);
                            } else {
                                assert(objs[i] == objs.last());
                            }
                        }
                    },
                }
            },
        }
    }
}

/// An ordered scene of intersectable objects.
pub struct HittableList {
    pub objects: Vec<Sphere>,
}

impl View for HittableList {
    type V = Seq<Sphere>;

    open spec fn view(&self) -> Seq<Sphere> {
        self.objects@
    }
}

/// Every object placed in the scene satisfies its shape bounds.
pub open spec fn scene_wf(objs: Seq<Sphere>) -> bool {
    forall|i: int| 0 <= i < objs.len() ==> sphere_wf(#[trigger] objs[i])
}

impl HittableList {
    pub fn new() -> (l: HittableList)
        ensures
            l@ == Seq::<Sphere>::empty(),
    {
        HittableList { objects: Vec::new() }
    }

    pub fn add(&mut self, object: Sphere)
        requires
            sphere_wf(object),
        ensures
            final(self)@ == old(self)@.push(object),
    {
        self.objects.push(object);
    }

    pub fn clear(&mut self)
        ensures
            final(self)@ == Seq::<Sphere>::empty(),
    {
        self.objects.clear();
    }

    /// The globally nearest hit across the scene. The search interval's
    /// upper end is narrowed to the best parameter found so far, which
    /// prunes later objects without changing the result.
    pub fn hit(&self, ray: &Ray, t_min: i64, t_max: i64) -> (result: RayHitResult)
        requires
            scene_wf(self@),
            ray_wf(ray@),
            0 <= t_min,
            t_max <= T_LIMIT,
        ensures
            result@ == scene_best(self@, ray@, t_min as int, t_max as int),
            result.is_hit ==> vdot(ray@.direction, result.data@.normal) <= 0,
            result.is_hit ==> in_range(result.data@.normal, NORMAL_LIMIT as int),
            result.is_hit ==> hit_interval(result.data@.ray_t, t_min as int, t_max as int),
            result.is_hit ==> in_range(result.data@.point, 0x2000_0000_0000),
    {
        let mut hit_res = RayHitResult::default();
        let mut closest_t = t_max;
        let n = self.objects.len();
        proof {
            assert(self@.take(0) =~= Seq::<Sphere>::empty());
        }
        let mut idx: usize = 0;
        while idx < n
            invariant
                idx <= n,
                n == self@.len(),
                scene_wf(self@),
                ray_wf(ray@),
                0 <= t_min,
                t_max <= T_LIMIT,
                hit_res@ == scene_best(self@.take(idx as int), ray@, t_min as int, t_max as int),
                hit_res.is_hit ==> closest_t == hit_res.data.ray_t,
                !hit_res.is_hit ==> closest_t == t_max,
                closest_t <= t_max,
                hit_res.is_hit ==> vdot(ray@.direction, hit_res.data@.normal) <= 0,
                hit_res.is_hit ==> in_range(hit_res.data@.normal, NORMAL_LIMIT as int),
                hit_res.is_hit ==> hit_interval(hit_res.data@.ray_t, t_min as int, t_max as int),
                hit_res.is_hit ==> in_range(hit_res.data@.point, 0x2000_0000_0000),
            decreases n - idx,
        {
            proof {
                assert(sphere_wf(self@[idx as int]));
            }
            let obj = self.objects[idx];
            let hr = obj.hit(ray, t_min, closest_t);
            proof {
                lemma_sphere_hit_narrow(
                    obj,
                    ray@,
                    t_min as int,
                    t_max as int,
                    closest_t as int,
                );
                assert(self@.take(idx as int + 1).drop_last() =~= self@.take(idx as int));
                assert(self@.take(idx as int + 1).last() == self@[idx as int]);
            }
            if hr.is_hit && (!hit_res.is_hit || hr.data.ray_t < closest_t) {
                closest_t = hr.data.ray_t;
                hit_res = hr;
            }
            idx = idx + 1;
        }
        proof {
            assert(self@.take(n as int) =~= self@);
        }
        hit_res
    }
}

} // verus!
