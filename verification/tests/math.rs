use termrast::fixed::{Fx, SCALE, fx_add, fx_sub, fx_mul, fx_div, fx_floor_int, fx_fract_raw, fx_round_int, fx_sin, fx_cos};
use termrast::structures::{Vector, Matrix};

fn fx(n: i64) -> Fx {
    Fx::of_int(n)
}

#[test]
fn fixed_point_basics() {
    assert_eq!(fx(3).raw, 3 * SCALE);
    assert_eq!(fx_add(fx(2), fx(3)).raw, 5 * SCALE);
    assert_eq!(fx_sub(fx(2), fx(3)).raw, -SCALE);
    assert_eq!(fx_mul(fx(6), fx(7)).raw, 42 * SCALE);
    assert_eq!(fx_div(fx(1), fx(2)).raw, SCALE / 2);
    assert_eq!(fx_floor_int(Fx { raw: -1 }), -1);
    assert_eq!(fx_floor_int(Fx { raw: SCALE + 1 }), 1);
    assert_eq!(fx_fract_raw(Fx { raw: -1 }), SCALE - 1);
    assert_eq!(fx_round_int(Fx { raw: SCALE / 2 }), 1);
    assert_eq!(fx_round_int(Fx { raw: SCALE / 2 - 1 }), 0);
}

#[test]
fn trig_at_zero_is_exact() {
    assert_eq!(fx_sin(Fx { raw: 0 }).raw, 0);
    assert_eq!(fx_cos(Fx { raw: 0 }).raw, SCALE);
}

#[test]
fn trig_is_roughly_right() {
    // sin(pi/2) should be close to one, cos(pi/2) close to zero.
    let half_pi = Fx { raw: 102944 };
    assert!((fx_sin(half_pi).raw - SCALE).abs() < SCALE / 10);
    assert!(fx_cos(half_pi).raw.abs() < SCALE / 10);
}

#[test]
fn magnitude_of_three_four_is_five() {
    let v = Vector::position(3, 4, 0);
    assert_eq!(v.magnitude().raw, 5 * SCALE);
}

#[test]
fn normalise_scales_to_unit() {
    let mut v = Vector::position(3, 4, 0);
    v.normalise();
    // 3/5 and 4/5 of one unit, truncated toward zero.
    assert_eq!(v.x.raw, 3 * SCALE / 5);
    assert_eq!(v.y.raw, 4 * SCALE * SCALE / (5 * SCALE));
    assert_eq!(v.z.raw, 0);
}

#[test]
fn normalise_of_zero_vector_is_unchanged() {
    let mut v = Vector::position(0, 0, 0);
    let before = v;
    v.normalise();
    assert_eq!(v, before);
}

#[test]
fn dot_and_cross_products() {
    let a = Vector::direction(1, 2, 3);
    let b = Vector::direction(4, 5, 6);
    assert_eq!(Vector::dot_product(&a, &b).raw, 32 * SCALE);
    let c = Vector::cross_product(&a, &b);
    assert_eq!(c.x.raw, -3 * SCALE);
    assert_eq!(c.y.raw, 6 * SCALE);
    assert_eq!(c.z.raw, -3 * SCALE);
    assert_eq!(c.w.raw, 0);
}

#[test]
fn translation_composes_by_addition() {
    let a = Matrix::translation(Vector::position(1, 2, 3));
    let b = Matrix::translation(Vector::position(10, 20, 30));
    let ab = a.mat_mul(&b);
    assert_eq!(ab, Matrix::translation(Vector::position(11, 22, 33)));
}

#[test]
fn translation_moves_a_point() {
    let t = Matrix::translation(Vector::position(1, 2, 3));
    let p = t.transform(Vector::position(10, 10, 10));
    assert_eq!(p.x.raw, 11 * SCALE);
    assert_eq!(p.y.raw, 12 * SCALE);
    assert_eq!(p.z.raw, 13 * SCALE);
    assert_eq!(p.w.raw, SCALE);
}

#[test]
fn rotation_at_zero_angle_is_identity() {
    let axis = Vector::direction(1, 1, 1);
    let r = Matrix::rotation(Fx { raw: 0 }, axis);
    assert_eq!(r, Matrix::identity());
    let v = Vector::position(5, -7, 2);
    assert_eq!(r.transform(v), v);
}

#[test]
fn rotation_about_zero_axis_is_identity() {
    let r = Matrix::rotation(fx(1), Vector::direction(0, 0, 0));
    assert_eq!(r, Matrix::identity());
}

#[test]
fn rotation_fixes_its_own_axis() {
    // About a coordinate axis the fixed-point arithmetic is exact.
    let axis = Vector::direction(1, 0, 0);
    let r = Matrix::rotation(Fx { raw: 40000 }, axis);
    let turned = r.transform(axis);
    assert_eq!(turned.x.raw, SCALE);
    assert_eq!(turned.y.raw, 0);
    assert_eq!(turned.z.raw, 0);
}

#[test]
fn rotation_bottom_row_is_affine() {
    let r = Matrix::rotation(Fx { raw: 12345 }, Vector::direction(1, 2, 3));
    assert_eq!(r.r3.x.raw, 0);
    assert_eq!(r.r3.y.raw, 0);
    assert_eq!(r.r3.z.raw, 0);
    assert_eq!(r.r3.w.raw, SCALE);
}

#[test]
fn rotation_and_its_inverse_roughly_cancel() {
    let axis = Vector::direction(1, 1, 1);
    let angle = Fx { raw: 32768 };
    let back = Fx { raw: -32768 };
    let v = Vector::position(1, 2, 3);
    let once = Matrix::rotation(angle, axis).transform(v);
    let again = Matrix::rotation(back, axis).transform(once);
    assert!((again.x.raw - v.x.raw).abs() < 2500);
    assert!((again.y.raw - v.y.raw).abs() < 2500);
    assert!((again.z.raw - v.z.raw).abs() < 2500);
}

#[test]
fn perspective_with_degenerate_frustum_is_identity() {
    let p = Matrix::perspective(fx(1), fx(1), fx(3), fx(3));
    assert_eq!(p, Matrix::identity());
}

#[test]
fn perspective_third_row_scales_depth() {
    let p = Matrix::perspective(fx(1), fx(1), fx(1), fx(3));
    // -(far + near) / (far - near) == -2 exactly.
    assert_eq!(p.r2.z.raw, -2 * SCALE);
    // -(2 * far * near) / (far - near) == -3 exactly.
    assert_eq!(p.r2.w.raw, -3 * SCALE);
    assert_eq!(p.r3.z.raw, -SCALE);
    assert_eq!(p.r3.w.raw, 0);
}
