use pathtracer::color::{Color, Color01};
use pathtracer::rt_util::{
    deg_to_rad, image_header, ppm_image, push_color_line, push_decimal, rad_to_deg, random,
    random_in_unit_disk, random_in_unit_sphere, random_on_unit_hemisphere,
};
use pathtracer::vector::{dot, Vec3};
use pathtracer::SCALE;

#[test]
fn gamma_of_quarter_is_half() {
    let c = Color01 { r: 16384, g: 16384, b: 16384 };
    let g = c.linear_to_gamma();
    assert_eq!((g.r, g.g, g.b), (32768, 32768, 32768));
}

#[test]
fn color_round_trip_quarter_gray() {
    // sqrt(0.25) = 0.5; 0.5 * 255.999 truncates to 127.
    let c = Color01 { r: 16384, g: 16384, b: 16384 };
    let bytes = c.to_display();
    assert_eq!((bytes.r, bytes.g, bytes.b), (127, 127, 127));
}

#[test]
fn quantize_saturates_out_of_range_channels() {
    let over = Color01 { r: 2 * SCALE, g: SCALE, b: -SCALE };
    let bytes = over.to_display();
    assert_eq!((bytes.r, bytes.g, bytes.b), (255, 255, 0));
}

#[test]
fn color01_add_mul_scale() {
    let a = Color01 { r: 16384, g: 32768, b: 49152 };
    let b = Color01 { r: 16384, g: 16384, b: 16384 };
    let s = a.add(&b);
    assert_eq!((s.r, s.g, s.b), (32768, 49152, SCALE));
    let m = a.mul(&b);
    assert_eq!((m.r, m.g, m.b), (4096, 8192, 12288));
    let sc = a.scale(32768);
    assert_eq!((sc.r, sc.g, sc.b), (8192, 16384, 24576));
    let z = Color01::default();
    assert_eq!((z.r, z.g, z.b), (0, 0, 0));
}

#[test]
fn color01_from_byte_color() {
    let c = Color01::from_color(Color { r: 127, g: 0, b: 255 });
    assert_eq!(c.g, 0);
    // 127 / 255.999, on the fixed-point scale.
    assert_eq!(c.r, 32512);
    // 255 / 255.999 is just below one.
    assert!(SCALE - 300 < c.b && c.b <= SCALE);
}

#[test]
fn image_header_layout() {
    let h = image_header(3, 2);
    assert_eq!(h, b"P3\n3 2\n255\n".to_vec());
    let wide = image_header(1024, 576);
    assert_eq!(wide, b"P3\n1024 576\n255\n".to_vec());
}

#[test]
fn decimal_digits_render() {
    let mut out: Vec<u8> = Vec::new();
    push_decimal(&mut out, 0);
    out.push(32);
    push_decimal(&mut out, 907);
    out.push(32);
    push_decimal(&mut out, 18446744073709551615);
    assert_eq!(out, b"0 907 18446744073709551615".to_vec());
}

#[test]
fn color_lines_and_whole_image() {
    let mut line: Vec<u8> = Vec::new();
    push_color_line(&mut line, Color { r: 255, g: 0, b: 7 });
    assert_eq!(line, b"255 0 7\n".to_vec());

    let pixels = vec![
        Color { r: 1, g: 2, b: 3 },
        Color { r: 10, g: 20, b: 30 },
        Color { r: 0, g: 0, b: 0 },
        Color { r: 255, g: 255, b: 255 },
    ];
    let image = ppm_image(2, 2, &pixels);
    assert_eq!(image, b"P3\n2 2\n255\n1 2 3\n10 20 30\n0 0 0\n255 255 255\n".to_vec());
}

#[test]
fn angle_conversions_are_inverse_at_pi() {
    // 180 degrees maps exactly onto the fixed-point pi.
    let pi = deg_to_rad(180 * SCALE);
    assert_eq!(pi, 205887);
    let back = rad_to_deg(pi);
    // Truncation loses at most a fraction of a degree unit.
    assert!((back - 180 * SCALE).abs() <= SCALE / 100);
    assert_eq!(deg_to_rad(0), 0);
}

#[test]
fn random_draws_stay_in_unit_interval() {
    for _ in 0..1000 {
        let r = random();
        assert!(0 <= r && r < SCALE);
    }
}

#[test]
fn random_range_respects_bounds() {
    for _ in 0..200 {
        let v = Vec3::random_range(-SCALE, SCALE);
        assert!(-SCALE <= v.x && v.x < SCALE);
        assert!(-SCALE <= v.y && v.y < SCALE);
        assert!(-SCALE <= v.z && v.z < SCALE);
        let w = Vec3::random();
        assert!(0 <= w.x && w.x < SCALE);
    }
}

#[test]
fn unit_ball_and_disk_samples() {
    for _ in 0..200 {
        let p = random_in_unit_sphere();
        let ls = p.len_sqr();
        assert!(64 <= ls && ls < SCALE);
        let d = random_in_unit_disk();
        assert_eq!(d.z, 0);
        assert!(d.len_sqr() < SCALE);
    }
}

#[test]
fn hemisphere_samples_face_the_normal() {
    let normal = Vec3::new(0, 0, SCALE);
    for _ in 0..200 {
        let p = random_on_unit_hemisphere(&normal);
        assert!(dot(&normal, &p) >= 0);
        // Unit length within fixed-point tolerance.
        assert!((p.len() - SCALE).abs() < 2048);
    }
}
