use gloom_scene::fixed::FX_ONE;
use gloom_scene::mat4::{Mat4, Vec3};
use gloom_scene::trig::{fx_sin, fx_cos};

fn to_fx(v: f64) -> i64 {
    (v * FX_ONE as f64).round() as i64
}

fn vec(x: f64, y: f64, z: f64) -> Vec3 {
    Vec3::new(to_fx(x), to_fx(y), to_fx(z))
}

#[test]
fn identity_is_neutral_for_multiplication() {
    let m = Mat4::translation(&vec(3.0, -2.0, 7.5))
        .multiply(&Mat4::rotation_y(to_fx(0.6)));
    assert_eq!(Mat4::identity().multiply(&m), m);
    assert_eq!(m.multiply(&Mat4::identity()), m);
}

#[test]
fn translations_compose_by_vector_addition() {
    let a = vec(1.0, 2.0, 3.0);
    let b = vec(-4.0, 0.5, 2.0);
    let composed = Mat4::translation(&a).multiply(&Mat4::translation(&b));
    assert_eq!(composed, Mat4::translation(&a.plus(&b)));
}

#[test]
fn translation_by_negation_is_the_exact_inverse() {
    let p = vec(0.35, 2.3, -1.75);
    let there = Mat4::translation(&p);
    let back = Mat4::translation(&p.negated());
    assert_eq!(there.multiply(&back), Mat4::identity());
    assert_eq!(back.multiply(&there), Mat4::identity());
}

#[test]
fn rotation_matrices_have_the_textbook_shape() {
    let a = to_fx(0.9);
    let (s, c) = (fx_sin(a), fx_cos(a));
    let rx = Mat4::rotation_x(a);
    assert_eq!((rx.m00, rx.m11, rx.m12, rx.m21, rx.m22), (FX_ONE, c, -s, s, c));
    let ry = Mat4::rotation_y(a);
    assert_eq!((ry.m00, ry.m02, ry.m11, ry.m20, ry.m22), (c, s, FX_ONE, -s, c));
    let rz = Mat4::rotation_z(a);
    assert_eq!((rz.m00, rz.m01, rz.m10, rz.m11, rz.m22), (c, -s, s, c, FX_ONE));
    for r in [rx, ry, rz] {
        assert_eq!((r.m30, r.m31, r.m32, r.m33), (0, 0, 0, FX_ONE));
        assert_eq!((r.m03, r.m13, r.m23), (0, 0, 0));
    }
}

#[test]
fn rotation_by_zero_is_the_identity() {
    assert_eq!(Mat4::rotation_x(0), Mat4::identity());
    assert_eq!(Mat4::rotation_y(0), Mat4::identity());
    assert_eq!(Mat4::rotation_z(0), Mat4::identity());
}

#[test]
fn transform_point_applies_translation_then_reads_exactly() {
    let m = Mat4::translation(&vec(1.0, -2.0, 3.0));
    let p = m.transform_point(&vec(0.5, 0.5, 0.5));
    assert_eq!((p.x, p.y, p.z), (to_fx(1.5), to_fx(-1.5), to_fx(3.5)));
}

#[test]
fn rotating_a_point_about_y_matches_real_arithmetic() {
    let a = to_fx(std::f64::consts::FRAC_PI_3);
    let m = Mat4::rotation_y(a);
    let p = m.transform_point(&vec(1.0, 0.0, 0.0));
    let c = std::f64::consts::FRAC_PI_3.cos();
    let s = std::f64::consts::FRAC_PI_3.sin();
    assert!((p.x as f64 / FX_ONE as f64 - c).abs() < 0.002);
    assert_eq!(p.y, 0);
    assert!((p.z as f64 / FX_ONE as f64 - (-s)).abs() < 0.002);
}
