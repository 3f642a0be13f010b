use raytracer::pattern::{checker_pick, checker_uv_pick, ring_pick, stripe_pick, Pick};

// floors of pattern-space coordinates, as the renderer takes them
fn fl(v: f64) -> i64 {
    v.floor() as i64
}

fn planar(y: f64) -> bool {
    y.abs() < 1e-6
}

fn checker_at(x: f64, y: f64, z: f64) -> Pick {
    checker_pick(fl(x), fl(y), fl(z), planar(y))
}

// a stripe reads the x coordinate of a point alone
fn stripe_at(p: (f64, f64, f64)) -> Pick {
    stripe_pick(fl(p.0))
}

#[test]
fn stripe_pattern_constant_in_y() {
    assert_eq!(stripe_at((0.0, 0.0, 0.0)), Pick::First);
    assert_eq!(stripe_at((0.0, 1.0, 0.0)), Pick::First);
    assert_eq!(stripe_at((0.0, 2.0, 0.0)), Pick::First);
}

#[test]
fn stripe_pattern_constant_in_z() {
    assert_eq!(stripe_at((0.0, 0.0, 0.0)), Pick::First);
    assert_eq!(stripe_at((0.0, 0.0, 1.0)), Pick::First);
    assert_eq!(stripe_at((0.0, 0.0, 2.0)), Pick::First);
}

#[test]
fn stripe_pattern_alternates_in_x() {
    assert_eq!(stripe_pick(fl(0.0)), Pick::First);
    assert_eq!(stripe_pick(fl(0.9)), Pick::First);
    assert_eq!(stripe_pick(fl(1.0)), Pick::Second);
    assert_eq!(stripe_pick(fl(-0.1)), Pick::Second);
    assert_eq!(stripe_pick(fl(-1.0)), Pick::Second);
    assert_eq!(stripe_pick(fl(-1.1)), Pick::First);
}

#[test]
fn ring_test() {
    assert_eq!(ring_pick(fl(0.0f64.hypot(0.0))), Pick::First);
    assert_eq!(ring_pick(fl(1.0f64.hypot(0.0))), Pick::Second);
    assert_eq!(ring_pick(fl(0.0f64.hypot(1.0))), Pick::Second);
    assert_eq!(ring_pick(fl(0.708f64.hypot(0.708))), Pick::Second);
}

#[test]
fn checkers_should_repeat_in_x() {
    assert_eq!(checker_at(0.0, 0.0, 0.0), Pick::First);
    assert_eq!(checker_at(0.99, 0.0, 0.0), Pick::First);
    assert_eq!(checker_at(1.01, 0.0, 0.0), Pick::Second);
}

#[test]
fn checkers_should_repeat_in_y() {
    assert_eq!(checker_at(0.0, 0.0, 0.0), Pick::First);
    assert_eq!(checker_at(0.0, 0.99, 0.0), Pick::First);
    assert_eq!(checker_at(0.0, 1.01, 0.0), Pick::Second);
}

#[test]
fn checkers_should_repeat_in_z() {
    assert_eq!(checker_at(0.0, 0.0, 0.0), Pick::First);
    assert_eq!(checker_at(0.0, 0.0, 0.99), Pick::First);
    assert_eq!(checker_at(0.0, 0.0, 1.01), Pick::Second);
}

#[test]
fn checker_alternates_on_each_axis_independently() {
    for (x, y, z) in [(0i64, 3i64, -2i64), (-5, 0, 7), (i64::MAX - 1, i64::MIN, 0)] {
        let here = checker_pick(x, y, z, false);
        assert_ne!(checker_pick(x + 1, y, z, false), here);
        assert_ne!(checker_pick(x, y + 1, z, false), here);
        assert_ne!(checker_pick(x, y, z + 1, false), here);
        assert_ne!(checker_pick(x + 1, y + 1, z, false), checker_pick(x + 1, y, z, false));
    }
}

#[test]
fn planar_checker_ignores_y() {
    assert_eq!(checker_pick(0, 5, 0, true), Pick::First);
    assert_eq!(checker_pick(0, -1, 1, true), Pick::Second);
    assert_eq!(checker_pick(2, 1, 3, true), checker_pick(2, 2, 3, true));
    assert_eq!(checker_pick(0, -1, 0, false), Pick::Second);
}

#[test]
fn checker_uv_cells() {
    assert_eq!(checker_uv_pick(0, 0), Pick::First);
    assert_eq!(checker_uv_pick(1, 0), Pick::Second);
    assert_eq!(checker_uv_pick(0, 1), Pick::Second);
    assert_eq!(checker_uv_pick(15, 7), Pick::First);
    assert_eq!(checker_uv_pick(-3, 2), Pick::Second);
}

#[test]
fn parity_of_extreme_floors() {
    assert_eq!(stripe_pick(i64::MIN), Pick::First);
    assert_eq!(stripe_pick(i64::MAX), Pick::Second);
    assert_eq!(ring_pick(-3), Pick::Second);
    assert_eq!(checker_pick(i64::MAX, i64::MAX, i64::MAX, false), Pick::Second);
}
