use pathtracer::material::{Material, MaterialType};
use pathtracer::primitive::{HittableList, Sphere};
use pathtracer::ray::Ray;
use pathtracer::vector::{cross, dot, Vec3};
use pathtracer::SCALE;

fn lambert_gray() -> Material {
    Material {
        type_info: MaterialType::Lambert,
        albedo: pathtracer::color::Color01 { r: 32768, g: 32768, b: 32768 },
        fuzziness: 0,
        refraction_idx: SCALE,
    }
}

fn unit_sphere_at(x: i64, y: i64, z: i64, radius: i64) -> Sphere {
    Sphere { center: Vec3::new(x, y, z), radius, material: lambert_gray() }
}

#[test]
fn vec3_arithmetic() {
    let a = Vec3::new(SCALE, 2 * SCALE, -SCALE);
    let b = Vec3::new(SCALE, -SCALE, SCALE);
    let s = a.add(&b);
    assert_eq!((s.x, s.y, s.z), (2 * SCALE, SCALE, 0));
    let d = a.sub(&b);
    assert_eq!((d.x, d.y, d.z), (0, 3 * SCALE, -2 * SCALE));
    assert_eq!(dot(&a, &b), SCALE - 2 * SCALE - SCALE);
    let sc = a.scale(32768);
    assert_eq!((sc.x, sc.y, sc.z), (32768, SCALE, -32768));
}

#[test]
fn vec3_length_and_normalize() {
    let v = Vec3::new(3 * SCALE, 4 * SCALE, 0);
    assert_eq!(v.len_sqr(), 25 * SCALE);
    assert_eq!(v.len(), 5 * SCALE);
    let n = v.normalized();
    // 3/5 and 4/5, exactly representable on the fixed-point scale
    assert_eq!((n.x, n.y, n.z), (39321, 52428, 0));
}

#[test]
fn vec3_near_zero() {
    assert!(Vec3::new(0, 1, -1).near_zero());
    assert!(!Vec3::new(0, 2, 0).near_zero());
}

#[test]
fn vec3_reflect_mirror() {
    // v = (0, -1, 0) against n = (0, 1, 0) reflects straight up.
    let v = Vec3::new(0, -SCALE, 0);
    let n = Vec3::new(0, SCALE, 0);
    let r = v.reflect(&n);
    assert_eq!((r.x, r.y, r.z), (0, SCALE, 0));
}

#[test]
fn cross_is_the_standard_right_handed_product() {
    let x = Vec3::new(SCALE, 0, 0);
    let y = Vec3::new(0, SCALE, 0);
    let z = Vec3::new(0, 0, SCALE);
    let xy = cross(&x, &y);
    assert_eq!((xy.x, xy.y, xy.z), (0, 0, SCALE));
    let yz = cross(&y, &z);
    assert_eq!((yz.x, yz.y, yz.z), (SCALE, 0, 0));
    // The y component keeps the standard sign: x-hat cross z-hat = -y-hat.
    let xz = cross(&x, &z);
    assert_eq!((xz.x, xz.y, xz.z), (0, -SCALE, 0));
    // Antisymmetry on a generic pair.
    let a = Vec3::new(SCALE, 2 * SCALE, 3 * SCALE);
    let b = Vec3::new(-SCALE, 32768, 2 * SCALE);
    let ab = cross(&a, &b);
    let ba = cross(&b, &a);
    assert_eq!((ab.x, ab.y, ab.z), (-ba.x, -ba.y, -ba.z));
    // Orthogonal to both factors (exact here: products stay on-grid).
    assert_eq!(dot(&ab, &a), 0);
    assert_eq!(dot(&ab, &b), 0);
}

#[test]
fn ray_at_evaluates_parametrically() {
    let r = Ray::new(Vec3::new(SCALE, 0, 0), Vec3::new(0, 0, -SCALE));
    let p = r.at(2 * SCALE);
    assert_eq!((p.x, p.y, p.z), (SCALE, 0, -2 * SCALE));
}

#[test]
fn sphere_head_on_hit() {
    // A ray down -z from the origin against a half-unit sphere at z = -1.
    let s = unit_sphere_at(0, 0, -SCALE, 32768);
    let ray = Ray::new(Vec3::new(0, 0, 0), Vec3::new(0, 0, -SCALE));
    let hit = s.hit(&ray, 66, 1 << 30);
    assert!(hit.is_hit);
    assert_eq!(hit.data.ray_t, 32768);
    assert_eq!((hit.data.point.x, hit.data.point.y, hit.data.point.z), (0, 0, -32768));
    assert_eq!((hit.data.normal.x, hit.data.normal.y, hit.data.normal.z), (0, 0, SCALE));
    assert!(hit.data.front_face);
}

#[test]
fn sphere_hit_point_lies_on_surface() {
    // Off-axis rays: the hit point stays within tolerance of the radius.
    let s = unit_sphere_at(0, 0, -3 * SCALE, SCALE);
    let dirs = [
        Vec3::new(0, 0, -SCALE),
        Vec3::new(6553, 0, -SCALE),
        Vec3::new(-9830, 6553, -SCALE),
        Vec3::new(13107, -13107, -2 * SCALE),
    ];
    for d in dirs.iter() {
        let ray = Ray::new(Vec3::new(0, 0, 0), *d);
        let hit = s.hit(&ray, 66, 1 << 30);
        assert!(hit.is_hit);
        let from_center = hit.data.point.sub(&s.center);
        let dist = from_center.len();
        let err = (dist - s.radius).abs();
        assert!(err < 1024, "distance {} vs radius {}", dist, s.radius);
    }
}

#[test]
fn sphere_normal_unit_and_against_ray() {
    let s = unit_sphere_at(SCALE, -SCALE, -4 * SCALE, 2 * SCALE);
    let dirs = [
        Vec3::new(0, 0, -SCALE),
        Vec3::new(16384, -16384, -SCALE),
        Vec3::new(-6553, 0, -SCALE),
    ];
    for d in dirs.iter() {
        let ray = Ray::new(Vec3::new(0, 0, 0), *d);
        let hit = s.hit(&ray, 66, 1 << 30);
        assert!(hit.is_hit);
        let n = hit.data.normal;
        let len_err = (n.len() - SCALE).abs();
        assert!(len_err < 1024, "normal length {}", n.len());
        assert!(dot(&ray.direction, &n) <= 0);
    }
}

#[test]
fn sphere_miss_and_out_of_interval() {
    let s = unit_sphere_at(0, 0, -3 * SCALE, SCALE);
    // Pointing away from the sphere.
    let away = Ray::new(Vec3::new(0, 0, 0), Vec3::new(0, 0, SCALE));
    assert!(!s.hit(&away, 66, 1 << 30).is_hit);
    // The hit parameter lies beyond t_max.
    let toward = Ray::new(Vec3::new(0, 0, 0), Vec3::new(0, 0, -SCALE));
    assert!(!s.hit(&toward, 66, SCALE).is_hit);
}

#[test]
fn sphere_hit_from_inside_flips_normal() {
    let s = unit_sphere_at(0, 0, 0, 2 * SCALE);
    let ray = Ray::new(Vec3::new(0, 0, 0), Vec3::new(0, 0, -SCALE));
    let hit = s.hit(&ray, 66, 1 << 30);
    assert!(hit.is_hit);
    // Outward normal points along -z; the ray arrives from inside, so
    // the stored normal is flipped back toward +z and the face is back.
    assert!(!hit.data.front_face);
    assert!(hit.data.normal.z > 0);
    assert!(dot(&ray.direction, &hit.data.normal) <= 0);
}

#[test]
fn scene_returns_nearest_hit() {
    let mut world = HittableList::new();
    world.add(unit_sphere_at(0, 0, -6 * SCALE, SCALE));
    world.add(unit_sphere_at(0, 0, -3 * SCALE, SCALE));
    world.add(unit_sphere_at(0, 0, -9 * SCALE, SCALE));
    let ray = Ray::new(Vec3::new(0, 0, 0), Vec3::new(0, 0, -SCALE));
    let hit = world.hit(&ray, 66, 1 << 30);
    assert!(hit.is_hit);
    // The nearest sphere's front surface is at z = -2.
    assert_eq!(hit.data.ray_t, 2 * SCALE);
    // It matches the nearest single-object hit exactly.
    let single = unit_sphere_at(0, 0, -3 * SCALE, SCALE).hit(&ray, 66, 1 << 30);
    assert!(single.is_hit);
    assert_eq!(hit.data.ray_t, single.data.ray_t);
    assert_eq!(
        (hit.data.point.x, hit.data.point.y, hit.data.point.z),
        (single.data.point.x, single.data.point.y, single.data.point.z)
    );
}

#[test]
fn scene_misses_iff_all_objects_miss() {
    let mut world = HittableList::new();
    world.add(unit_sphere_at(0, 0, -6 * SCALE, SCALE));
    world.add(unit_sphere_at(5 * SCALE, 0, -6 * SCALE, SCALE));
    let up = Ray::new(Vec3::new(0, 0, 0), Vec3::new(0, SCALE, 0));
    assert!(!world.hit(&up, 66, 1 << 30).is_hit);
    let empty = HittableList::new();
    let toward = Ray::new(Vec3::new(0, 0, 0), Vec3::new(0, 0, -SCALE));
    assert!(!empty.hit(&toward, 66, 1 << 30).is_hit);
}

#[test]
fn scene_clear_removes_objects() {
    let mut world = HittableList::new();
    world.add(unit_sphere_at(0, 0, -3 * SCALE, SCALE));
    let ray = Ray::new(Vec3::new(0, 0, 0), Vec3::new(0, 0, -SCALE));
    assert!(world.hit(&ray, 66, 1 << 30).is_hit);
    world.clear();
    assert!(!world.hit(&ray, 66, 1 << 30).is_hit);
}
