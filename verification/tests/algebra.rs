use raycast::fixed::div_i128;
use raycast::fixed::fx_div_e;
use raycast::fixed::fx_mul_e;
use raycast::fixed::isqrt_u128;
use raycast::color::Color;
use raycast::vec3::Vec3;

const S: i64 = 65536;

#[test]
fn truncating_division_rounds_toward_zero() {
    assert_eq!(div_i128(7, 2), 3);
    assert_eq!(div_i128(-7, 2), -3);
    assert_eq!(div_i128(7, -2), -3);
    assert_eq!(div_i128(-7, -2), 3);
    assert_eq!(div_i128(0, 5), 0);
}

#[test]
fn integer_square_root_floors() {
    assert_eq!(isqrt_u128(0), 0);
    assert_eq!(isqrt_u128(1), 1);
    assert_eq!(isqrt_u128(24), 4);
    assert_eq!(isqrt_u128(25), 5);
    assert_eq!(isqrt_u128(26), 5);
    assert_eq!(isqrt_u128((1u128 << 64) - 1), (1u128 << 32) - 1);
}

#[test]
fn fixed_point_products_and_quotients() {
    // 1.5 * 2.0 == 3.0
    assert_eq!(fx_mul_e(98304, 131072), 196608);
    // 3.0 / 2.0 == 1.5
    assert_eq!(fx_div_e(196608, 131072), 98304);
    // a tiny negative product truncates toward zero, not toward minus infinity
    assert_eq!(fx_mul_e(-3, 32768), -1);
}

#[test]
fn vector_sum_difference_negation() {
    let a = Vec3::new(S, 2 * S, 3 * S);
    let b = Vec3::new(4 * S, 5 * S, 6 * S);
    assert_eq!(a.add(b), Vec3::new(5 * S, 7 * S, 9 * S));
    assert_eq!(b.sub(a), Vec3::new(3 * S, 3 * S, 3 * S));
    assert_eq!(a.neg(), Vec3::new(-S, -2 * S, -3 * S));
    assert_eq!(Vec3::default(), Vec3::new(0, 0, 0));
}

#[test]
fn vector_products() {
    let a = Vec3::new(98304, 2 * S, -S);
    // Hadamard: (1.5, 2, -1) * (2, 0.5, 3) == (3, 1, -3)
    let b = Vec3::new(2 * S, 32768, 3 * S);
    assert_eq!(a.mul_vec(b), Vec3::new(3 * S, S, -3 * S));
    // scalar: (1.5, 2, -1) * 0.5 == (0.75, 1, -0.5)
    assert_eq!(a.mul_scalar(32768), Vec3::new(49152, S, -32768));
    // Hadamard quotient: (3, 1, -3) / (2, 0.5, 3) == (1.5, 2, -1)
    assert_eq!(Vec3::new(3 * S, S, -3 * S).div_vec(b), a);
    // scalar quotient
    assert_eq!(Vec3::new(3 * S, S, -3 * S).div_scalar(2 * S), Vec3::new(98304, 32768, -98304));
}

#[test]
fn vector_assign_operations() {
    let mut v = Vec3::new(S, -S, 2 * S);
    v.add_assign(Vec3::new(S, S, S));
    assert_eq!(v, Vec3::new(2 * S, 0, 3 * S));
    v.sub_assign(Vec3::new(S, 0, 0));
    assert_eq!(v, Vec3::new(S, 0, 3 * S));
    v.mul_assign_scalar(2 * S);
    assert_eq!(v, Vec3::new(2 * S, 0, 6 * S));
    v.div_assign_scalar(4 * S);
    assert_eq!(v, Vec3::new(32768, 0, 98304));
    v.mul_assign_vec(Vec3::new(2 * S, S, 2 * S));
    assert_eq!(v, Vec3::new(S, 0, 196608));
    v.div_assign_vec(Vec3::new(2 * S, S, 3 * S));
    assert_eq!(v, Vec3::new(32768, 0, S));
}

#[test]
fn dot_product_rescales() {
    let a = Vec3::new(S, 2 * S, 3 * S);
    let b = Vec3::new(4 * S, 5 * S, 6 * S);
    // 4 + 10 + 18 == 32
    assert_eq!(Vec3::dot(a, b), 32 * S);
}

#[test]
fn cross_product_of_axes() {
    let x = Vec3::new(S, 0, 0);
    let y = Vec3::new(0, S, 0);
    assert_eq!(Vec3::cross(x, y), Vec3::new(0, 0, S));
    assert_eq!(Vec3::cross(y, x), Vec3::new(0, 0, -S));
}

#[test]
fn cross_product_is_orthogonal_to_factors() {
    // exact components: (1,2,3) x (4,-1,2) == (7, 10, -9)
    let a = Vec3::new(S, 2 * S, 3 * S);
    let b = Vec3::new(4 * S, -S, 2 * S);
    let c = Vec3::cross(a, b);
    assert_eq!(c, Vec3::new(7 * S, 10 * S, -9 * S));
    assert_eq!(Vec3::dot(c, a), 0);
    assert_eq!(Vec3::dot(c, b), 0);
    // components that round: the deviation stays below one raw unit per axis
    let a2 = Vec3::new(6553, 13107, 19660);
    let b2 = Vec3::new(-3277, 9830, 6553);
    let c2 = Vec3::cross(a2, b2);
    assert!(Vec3::dot(c2, a2).abs() <= 1);
    assert!(Vec3::dot(c2, b2).abs() <= 1);
}

#[test]
fn length_and_sum_of_squares() {
    let v = Vec3::new(3 * S, 4 * S, 0);
    assert_eq!(v.length(), 5 * S);
    let w = Vec3::new(S, 2 * S, 2 * S);
    assert_eq!(w.sum_of_squares(), 9 * S);
}

#[test]
fn unit_vector_components_and_length() {
    let v = Vec3::new(3 * S, 4 * S, 0);
    let u = v.to_unit_vector();
    // 3/5 and 4/5 of one unit, truncated
    assert_eq!(u, Vec3::new(39321, 52428, 0));
    // the normalized length is one unit within tolerance
    assert!((u.length() - S).abs() <= 4);
    let w = Vec3::new(-S, S, 7 * S).to_unit_vector();
    assert!((w.length() - S).abs() <= 4);
}

#[test]
fn component_access_by_index() {
    let v = Vec3::new(10, 20, 30);
    assert_eq!(v.component(0), 10);
    assert_eq!(v.component(1), 20);
    assert_eq!(v.component(2), 30);
}

#[test]
fn color_arithmetic() {
    let a = Color::new(S, 32768, 0);
    let b = Color::new(0, 32768, S);
    assert_eq!(a.add(b), Color::new(S, S, S));
    assert_eq!(a.sub(b), Color::new(S, 0, -S));
    assert_eq!(a.neg(), Color::new(-S, -32768, 0));
    assert_eq!(a.mul_scalar(32768), Color::new(32768, 16384, 0));
    assert_eq!(a.div_scalar(2 * S), Color::new(32768, 16384, 0));
    assert_eq!(Color::default(), Color::new(0, 0, 0));
}
