use merino_breakout::direction::{
    from_angle, isqrt, normalize, sine_lookup, wrap_angle, FRAC_PI_2, FRAC_PI_4, FRAC_PI_8, ONE,
    PI, TAU, TENTH_RADIAN,
};
use merino_breakout::fixed::Vector;

fn norm2(d: Vector) -> i128 {
    (d.x as i128) * (d.x as i128) + (d.y as i128) * (d.y as i128)
}

fn is_unit(d: Vector) -> bool {
    let one = (ONE as i128) * (ONE as i128);
    (norm2(d) - one).abs() <= 5_000_000
}

fn radians(angle: i64) -> f64 {
    angle as f64 * std::f64::consts::PI / PI as f64
}

#[test]
fn isqrt_rounds_down() {
    assert_eq!(isqrt(0), 0);
    assert_eq!(isqrt(1), 1);
    assert_eq!(isqrt(3), 1);
    assert_eq!(isqrt(4), 2);
    assert_eq!(isqrt(99), 9);
    assert_eq!(isqrt(100), 10);
    assert_eq!(isqrt(1_000_000_000_000), 1_000_000);
    assert_eq!(isqrt(999_999_999_999), 999_999);
    let big: u128 = (1u128 << 122) - 1;
    assert_eq!(isqrt(big), (1u128 << 61) - 1);
}

#[test]
fn normalize_keeps_axes() {
    assert_eq!(normalize(3_000_000, 0), Vector { x: ONE, y: 0 });
    assert_eq!(normalize(0, -7_000_000), Vector { x: 0, y: -ONE });
    assert_eq!(normalize(-1_000_000, 0), Vector { x: -ONE, y: 0 });
}

#[test]
fn normalize_three_four_five() {
    assert_eq!(normalize(3_000_000, 4_000_000), Vector { x: 600_000, y: 800_000 });
    assert_eq!(normalize(-3_000_000, 4_000_000), Vector { x: -600_000, y: 800_000 });
    assert_eq!(normalize(30_000_000_000, -40_000_000_000), Vector { x: 600_000, y: -800_000 });
}

#[test]
fn sine_table_ends() {
    assert_eq!(sine_lookup(0), 0);
    assert_eq!(sine_lookup(32), 707_107);
    assert_eq!(sine_lookup(64), ONE);
    assert_eq!(sine_lookup(65), ONE);
}

#[test]
fn wrap_angle_is_euclidean() {
    assert_eq!(wrap_angle(0), 0);
    assert_eq!(wrap_angle(TAU), 0);
    assert_eq!(wrap_angle(TAU + 5), 5);
    assert_eq!(wrap_angle(-1), TAU - 1);
    assert_eq!(wrap_angle(-TAU), 0);
    assert_eq!(wrap_angle(-TAU - 7), TAU - 7);
    assert_eq!(wrap_angle(i64::MIN), 0);
}

#[test]
fn from_angle_on_the_axes() {
    assert_eq!(from_angle(0), Vector { x: ONE, y: 0 });
    assert_eq!(from_angle(FRAC_PI_2), Vector { x: 0, y: ONE });
    assert_eq!(from_angle(PI), Vector { x: -ONE, y: 0 });
    assert_eq!(from_angle(-FRAC_PI_2), Vector { x: 0, y: -ONE });
    assert_eq!(from_angle(TAU), Vector { x: ONE, y: 0 });
}

#[test]
fn from_angle_on_the_diagonal() {
    let d = from_angle(FRAC_PI_4);
    assert_eq!(d.x, d.y);
    assert!((d.x - 707_107).abs() <= 1);
}

#[test]
fn from_angle_follows_sine_and_cosine() {
    let mut angle = -2 * TAU;
    while angle <= 2 * TAU {
        let d = from_angle(angle);
        let want_x = radians(angle).cos() * ONE as f64;
        let want_y = radians(angle).sin() * ONE as f64;
        assert!((d.x as f64 - want_x).abs() < 200.0, "cos at {}: {}", angle, d.x);
        assert!((d.y as f64 - want_y).abs() < 200.0, "sin at {}: {}", angle, d.y);
        assert!(is_unit(d));
        angle += 4_099;
    }
}

#[test]
fn rotate_adds_angles() {
    let a = from_angle(FRAC_PI_8);
    let b = from_angle(FRAC_PI_4);
    let c = a.rotate(b);
    let want = from_angle(FRAC_PI_8 + FRAC_PI_4);
    assert!((c.x - want.x).abs() <= 200);
    assert!((c.y - want.y).abs() <= 200);
    assert!(is_unit(c));
}

#[test]
fn rotate_by_zero_angle_keeps_direction() {
    let a = from_angle(3 * FRAC_PI_8);
    let c = a.rotate(from_angle(0));
    assert!((c.x - a.x).abs() <= 1);
    assert!((c.y - a.y).abs() <= 1);
}

#[test]
fn many_rotations_stay_unit() {
    let mut d = from_angle(12_345);
    let step = from_angle(TENTH_RADIAN);
    for _ in 0..10_000 {
        d = d.rotate(step);
        assert!(is_unit(d));
    }
}

#[test]
fn reflections_keep_the_other_part() {
    let d = from_angle(3 * FRAC_PI_8 + PI);
    assert!(d.x < 0 && d.y < 0);
    assert_eq!(d.point_right(), Vector { x: -d.x, y: d.y });
    assert_eq!(d.point_left(), d);
    assert_eq!(d.point_up(), Vector { x: d.x, y: -d.y });
    assert_eq!(d.point_down(), d);
    assert_eq!(d.flip_y(), Vector { x: d.x, y: -d.y });
}
