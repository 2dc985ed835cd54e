use pathtracer::color::Color01;
use pathtracer::material::{
    lambertian_direction, schlick_reflectance, Material, MaterialType,
};
use pathtracer::primitive::Sphere;
use pathtracer::ray::Ray;
use pathtracer::vector::{dot, Vec3};
use pathtracer::SCALE;

fn metal(fuzz: i64) -> Material {
    Material {
        type_info: MaterialType::Metal,
        albedo: Color01 { r: 45875, g: 39321, b: 32768 },
        fuzziness: fuzz,
        refraction_idx: SCALE,
    }
}

fn glass() -> Material {
    Material {
        type_info: MaterialType::Dielectric,
        albedo: Color01 { r: 0, g: 0, b: 0 },
        fuzziness: 0,
        refraction_idx: 98304,  // 1.5
    }
}

fn head_on_hit(material: Material) -> (Ray, pathtracer::primitive::RayHitResult) {
    let s = Sphere { center: Vec3::new(0, 0, -SCALE), radius: 32768, material };
    let ray = Ray::new(Vec3::new(0, 0, 0), Vec3::new(0, 0, -SCALE));
    let hit = s.hit(&ray, 66, 1 << 30);
    assert!(hit.is_hit);
    (ray, hit)
}

#[test]
fn lambertian_always_continues_with_albedo() {
    let mat = Material {
        type_info: MaterialType::Lambert,
        albedo: Color01 { r: 26214, g: 13107, b: 6553 },
        fuzziness: 0,
        refraction_idx: SCALE,
    };
    for _ in 0..50 {
        let (ray, hit) = head_on_hit(mat);
        let (scattered, attenuation, continues) = mat.scatter(&ray, &hit);
        assert!(continues);
        assert_eq!((attenuation.r, attenuation.g, attenuation.b), (26214, 13107, 6553));
        assert_eq!(
            (scattered.origin.x, scattered.origin.y, scattered.origin.z),
            (hit.data.point.x, hit.data.point.y, hit.data.point.z)
        );
    }
}

#[test]
fn lambertian_scatter_in_hemisphere() {
    // The diffuse direction stays within the hemisphere of the normal,
    // up to the fixed-point tolerance.
    let mat = Material {
        type_info: MaterialType::Lambert,
        albedo: Color01 { r: 32768, g: 32768, b: 32768 },
        fuzziness: 0,
        refraction_idx: SCALE,
    };
    let eps: i64 = 2048;
    for _ in 0..200 {
        let (ray, hit) = head_on_hit(mat);
        let (scattered, _, continues) = mat.scatter(&ray, &hit);
        assert!(continues);
        assert!(dot(&scattered.direction, &hit.data.normal) >= -eps);
    }
}

#[test]
fn lambertian_near_zero_falls_back_to_normal() {
    let normal = Vec3::new(0, 0, SCALE);
    // A unit sample that cancels the normal almost exactly.
    let opposite = Vec3::new(0, 1, -SCALE);
    let d = lambertian_direction(&normal, &opposite);
    assert_eq!((d.x, d.y, d.z), (0, 0, SCALE));
    // A generic sample adds up as-is.
    let side = Vec3::new(SCALE, 0, 0);
    let d2 = lambertian_direction(&normal, &side);
    assert_eq!((d2.x, d2.y, d2.z), (SCALE, 0, SCALE));
}

#[test]
fn metal_zero_fuzz_is_exact_mirror() {
    let mat = metal(0);
    let s = Sphere { center: Vec3::new(0, 0, -2 * SCALE), radius: SCALE, material: mat };
    // An oblique ray, so the reflection is not trivial.
    let ray = Ray::new(Vec3::new(0, 13107, 0), Vec3::new(0, 0, -SCALE));
    let hit = s.hit(&ray, 66, 1 << 30);
    assert!(hit.is_hit);
    let (scattered, attenuation, continues) = mat.scatter(&ray, &hit);
    assert!(continues);
    assert_eq!((attenuation.r, attenuation.g, attenuation.b), (45875, 39321, 32768));
    // The exact mirror formula, computed through the same public
    // operations the contract names.
    let expected = ray.direction.reflect(&hit.data.normal).normalized();
    assert_eq!(
        (scattered.direction.x, scattered.direction.y, scattered.direction.z),
        (expected.x, expected.y, expected.z)
    );
}

#[test]
fn metal_absorbs_grazing_reflection_into_surface() {
    // A fuzzed reflection that points into the surface is absorbed;
    // with zero fuzz and a head-on ray the reflection survives.
    let mat = metal(0);
    let (ray, hit) = head_on_hit(mat);
    let (_, _, continues) = mat.scatter(&ray, &hit);
    assert!(continues);
}

#[test]
fn dielectric_attenuates_nothing_and_continues() {
    let mat = glass();
    for _ in 0..50 {
        let (ray, hit) = head_on_hit(mat);
        let (scattered, attenuation, continues) = mat.scatter(&ray, &hit);
        assert!(continues);
        assert_eq!((attenuation.r, attenuation.g, attenuation.b), (SCALE, SCALE, SCALE));
        assert_eq!(
            (scattered.origin.x, scattered.origin.y, scattered.origin.z),
            (hit.data.point.x, hit.data.point.y, hit.data.point.z)
        );
        // At normal incidence the outgoing ray is along the axis:
        // straight back (reflected) or straight through (refracted).
        assert_eq!(scattered.direction.x, 0);
        assert_eq!(scattered.direction.y, 0);
        assert!(scattered.direction.z != 0);
    }
}

#[test]
fn schlick_at_normal_incidence_equals_r0() {
    // r0 = ((1 - 1.5) / (1 + 1.5))^2 = 0.04, on the fixed-point scale.
    let r = schlick_reflectance(SCALE, 98304);
    assert_eq!(r, 2621);
    // And the full formula at cosine zero leans toward full reflection.
    let grazing = schlick_reflectance(0, 98304);
    assert!(grazing > r);
}

#[test]
fn material_default_is_black_lambertian() {
    let m = Material::default();
    assert_eq!(m.type_info, MaterialType::Lambert);
    assert_eq!((m.albedo.r, m.albedo.g, m.albedo.b), (0, 0, 0));
    assert_eq!(m.fuzziness, 0);
    assert_eq!(m.refraction_idx, SCALE);
}
