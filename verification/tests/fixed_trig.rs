use gloom_scene::fixed::{fx_add, fx_sub, fx_neg, fx_mul, fx_dot4, FX_ONE, FX_LIMIT};
use gloom_scene::trig::{fx_sin, fx_cos, FX_PI, FX_HALF_PI, FX_TAU};

fn to_fx(v: f64) -> i64 {
    (v * FX_ONE as f64).round() as i64
}

fn to_f64(v: i64) -> f64 {
    v as f64 / FX_ONE as f64
}

#[test]
fn fixed_add_and_sub_are_exact_in_range() {
    assert_eq!(fx_add(to_fx(1.5), to_fx(2.25)), to_fx(3.75));
    assert_eq!(fx_sub(to_fx(1.5), to_fx(2.25)), to_fx(-0.75));
    assert_eq!(fx_neg(to_fx(-7.0)), to_fx(7.0));
}

#[test]
fn fixed_add_saturates_at_the_limit() {
    assert_eq!(fx_add(FX_LIMIT, FX_LIMIT), FX_LIMIT);
    assert_eq!(fx_add(-FX_LIMIT, -FX_LIMIT), -FX_LIMIT);
    assert_eq!(fx_sub(-FX_LIMIT, FX_LIMIT), -FX_LIMIT);
}

#[test]
fn fixed_mul_is_exact_on_representable_products() {
    assert_eq!(fx_mul(to_fx(2.0), to_fx(3.0)), to_fx(6.0));
    assert_eq!(fx_mul(to_fx(-3.5), to_fx(2.0)), to_fx(-7.0));
    assert_eq!(fx_mul(to_fx(0.5), to_fx(0.5)), to_fx(0.25));
}

#[test]
fn fixed_mul_rounds_toward_negative_infinity() {
    // 1/65536 * 1/65536 underflows to zero from above ...
    assert_eq!(fx_mul(1, 1), 0);
    // ... and to minus one from below: floor, not truncation.
    assert_eq!(fx_mul(-1, 1), -1);
}

#[test]
fn fixed_dot4_matches_sum_of_products() {
    let r = fx_dot4(
        to_fx(1.0), to_fx(2.0), to_fx(3.0), to_fx(4.0),
        to_fx(5.0), to_fx(6.0), to_fx(7.0), to_fx(8.0),
    );
    assert_eq!(r, to_fx(5.0 + 12.0 + 21.0 + 32.0));
}

#[test]
fn sine_is_zero_at_zero_and_cosine_is_one() {
    assert_eq!(fx_sin(0), 0);
    assert_eq!(fx_cos(0), FX_ONE);
}

#[test]
fn sine_tracks_the_real_sine() {
    for &a in &[0.0f64, 0.3, 0.785398, 1.0, 1.570796, 2.5, 3.141593, 4.0, 5.9, 10.0, -0.7, -3.3] {
        let got = to_f64(fx_sin(to_fx(a)));
        assert!(
            (got - a.sin()).abs() < 0.002,
            "sin({}) = {} but library gives {}",
            a,
            a.sin(),
            got
        );
    }
}

#[test]
fn cosine_tracks_the_real_cosine() {
    for &a in &[0.0f64, 0.3, 0.785398, 1.0, 1.570796, 2.5, 3.141593, 4.0, 5.9, 10.0, -0.7, -3.3] {
        let got = to_f64(fx_cos(to_fx(a)));
        assert!(
            (got - a.cos()).abs() < 0.002,
            "cos({}) = {} but library gives {}",
            a,
            a.cos(),
            got
        );
    }
}

#[test]
fn sine_is_odd_and_periodic() {
    for &a in &[1i64 << 14, 100_000, 205_887, 300_000] {
        assert_eq!(fx_sin(-a), -fx_sin(a));
        assert_eq!(fx_sin(a + FX_TAU), fx_sin(a));
    }
}

#[test]
fn trig_constants_are_consistent() {
    // pi/2 doubles to within a representation step of pi, and the period
    // is two pi.
    assert!((2 * FX_HALF_PI - FX_PI).abs() <= 1);
    assert!((2 * FX_PI - FX_TAU).abs() <= 1);
    // The sine vanishes again close to pi.
    assert!(fx_sin(FX_PI).abs() <= 16);
}
