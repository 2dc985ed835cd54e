use pathtracer::camera::{Camera, RenderError};
use pathtracer::color::Color01;
use pathtracer::material::{Material, MaterialType};
use pathtracer::primitive::{HittableList, Sphere};
use pathtracer::ray::Ray;
use pathtracer::vector::Vec3;
use pathtracer::SCALE;

fn lambert_sphere() -> Sphere {
    Sphere {
        center: Vec3::new(0, 0, -SCALE),
        radius: 32768,
        material: Material {
            type_info: MaterialType::Lambert,
            albedo: Color01 { r: 32768, g: 32768, b: 32768 },
            fuzziness: 0,
            refraction_idx: SCALE,
        },
    }
}

#[test]
fn ray_color_depth_zero_is_black() {
    let mut world = HittableList::new();
    world.add(lambert_sphere());
    let ray = Ray::new(Vec3::new(0, 0, 0), Vec3::new(0, 0, -SCALE));
    let c = Camera::ray_color(&ray, 0, &world);
    assert_eq!((c.r, c.g, c.b), (0, 0, 0));
}

#[test]
fn ray_color_empty_scene_is_background_gradient() {
    let empty = HittableList::new();
    // Straight up: the gradient reaches the pure sky blue.
    let up = Ray::new(Vec3::new(0, 0, 0), Vec3::new(0, SCALE, 0));
    let c = Camera::ray_color(&up, 5, &empty);
    assert_eq!((c.r, c.g, c.b), (32768, 45875, SCALE));
    // Horizontal: the halfway blend, from the stated formula.
    let flat = Ray::new(Vec3::new(0, 0, 0), Vec3::new(SCALE, 0, 0));
    let c2 = Camera::ray_color(&flat, 5, &empty);
    assert_eq!((c2.r, c2.g, c2.b), (49152, 55705, SCALE));
    // Straight down: pure white.
    let down = Ray::new(Vec3::new(0, 0, 0), Vec3::new(0, -SCALE, 0));
    let c3 = Camera::ray_color(&down, 5, &empty);
    assert_eq!((c3.r, c3.g, c3.b), (SCALE, SCALE, SCALE));
}

#[test]
fn head_on_sphere_with_one_bounce() {
    // A half-unit sphere ahead of a ray from the origin: the hit is
    // head-on, the normal faces straight back, and with a single
    // bounce the diffuse path exhausts its budget and resolves black.
    let sphere = lambert_sphere();
    let ray = Ray::new(Vec3::new(0, 0, 0), Vec3::new(0, 0, -SCALE));
    let hit = sphere.hit(&ray, 66, 1 << 30);
    assert!(hit.is_hit);
    assert_eq!((hit.data.normal.x, hit.data.normal.y, hit.data.normal.z), (0, 0, SCALE));
    assert!(hit.data.front_face);
    let mut world = HittableList::new();
    world.add(sphere);
    let c = Camera::ray_color(&ray, 1, &world);
    assert_eq!((c.r, c.g, c.b), (0, 0, 0));
}

#[test]
fn ray_color_channels_stay_normalized() {
    let mut world = HittableList::new();
    world.add(lambert_sphere());
    for i in 0..50i64 {
        let ray = Ray::new(Vec3::new(0, 0, 0), Vec3::new((i - 25) * 1024, 8192, -SCALE));
        let c = Camera::ray_color(&ray, 8, &world);
        assert!(0 <= c.r && c.r <= SCALE);
        assert!(0 <= c.g && c.g <= SCALE);
        assert!(0 <= c.b && c.b <= SCALE);
    }
}

#[test]
fn default_camera_arrives_initialized() {
    // The default constructor already carries the derived viewport:
    // the orthonormal basis for looking down -z with +y up.
    let cam = Camera::default();
    assert_eq!(cam.frame_height, 576);
    assert_eq!(cam.frame_res, 1024 * 576);
    assert_eq!((cam.w.x, cam.w.y, cam.w.z), (0, 0, SCALE));
    assert_eq!((cam.u.x, cam.u.y, cam.u.z), (SCALE, 0, 0));
    assert_eq!((cam.v.x, cam.v.y, cam.v.z), (0, SCALE, 0));
    assert_eq!(cam.pixel_samples_scale, SCALE / 10);
}

#[test]
fn camera_initialize_computes_frame_geometry() {
    let mut cam = Camera::default();
    assert!(cam.initialize().is_ok());
    assert_eq!(cam.frame_width, 1024);
    assert_eq!(cam.frame_height, 576);
    assert_eq!(cam.frame_res, 1024 * 576);
    // Looking down -z with +y up: the right-handed-looking basis the
    // cross convention produces.
    assert_eq!((cam.w.x, cam.w.y, cam.w.z), (0, 0, SCALE));
    assert_eq!((cam.u.x, cam.u.y, cam.u.z), (SCALE, 0, 0));
    assert_eq!((cam.v.x, cam.v.y, cam.v.z), (0, SCALE, 0));
    assert_eq!(cam.pixel_samples_scale, SCALE / 10);
}

#[test]
fn camera_rejects_invalid_configuration() {
    let mut zero_width = Camera::default();
    zero_width.frame_width = 0;
    assert_eq!(zero_width.initialize(), Err(RenderError::InvalidConfiguration));
    let mut bad_focus = Camera::default();
    bad_focus.focus_distance = 0;
    assert_eq!(bad_focus.initialize(), Err(RenderError::InvalidConfiguration));
    let mut degenerate_axis = Camera::default();
    degenerate_axis.look_at = degenerate_axis.position;
    assert_eq!(degenerate_axis.initialize(), Err(RenderError::InvalidConfiguration));
    let mut world = HittableList::new();
    world.add(lambert_sphere());
    let mut zero_spp = Camera::default();
    zero_spp.samples_per_pixel = 0;
    assert!(zero_spp.render(&world).is_err());
}

#[test]
fn render_produces_one_color_per_pixel() {
    let mut cam = Camera::default();
    cam.frame_width = 8;
    cam.aspect_ratio = 2 * SCALE;
    cam.samples_per_pixel = 2;
    cam.ray_bounces_max = 3;
    let mut world = HittableList::new();
    world.add(lambert_sphere());
    let pixels = cam.render(&world).unwrap();
    assert_eq!(cam.frame_height, 4);
    assert_eq!(pixels.len(), 8 * 4);
}

#[test]
fn render_empty_scene_matches_background_per_pixel() {
    // With no objects and no defocus, every sample of a pixel follows
    // the background formula; the top rows lean blue, the bottom white.
    let mut cam = Camera::default();
    cam.frame_width = 4;
    cam.aspect_ratio = SCALE;
    cam.samples_per_pixel = 4;
    let world = HittableList::new();
    let pixels = cam.render(&world).unwrap();
    assert_eq!(pixels.len(), 16);
    let top_row = pixels[1];
    let bottom_row = pixels[13];
    // The blue channel saturates everywhere in this sky.
    assert_eq!(top_row.b, 255);
    assert_eq!(bottom_row.b, 255);
    // Top row first: the first rows look up into the blue, the last
    // rows look down toward the white, so red grows down the stream.
    assert!(top_row.r < bottom_row.r);
}

#[test]
fn get_ray_starts_at_camera_without_defocus() {
    let mut cam = Camera::default();
    cam.position = Vec3::new(0, SCALE, 2 * SCALE);
    cam.look_at = Vec3::new(0, 0, 0);
    assert!(cam.initialize().is_ok());
    let r = cam.get_ray(10, 10);
    assert_eq!((r.origin.x, r.origin.y, r.origin.z), (0, SCALE, 2 * SCALE));
}
