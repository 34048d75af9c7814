//! Vector arithmetic, quantization and reflection at the fixed-point
//! scale (1.0 == 65536).

use raytracer::pixel::{Pixel, Rgb};
use raytracer::vector::{quantize, Vector};
use raytracer::viewport::Viewport;

const ONE: i64 = 65536;

#[test]
fn accessors_and_new() {
    let v = Vector::new(1, -2, 3);
    assert_eq!(v.x(), 1);
    assert_eq!(v.y(), -2);
    assert_eq!(v.z(), 3);
}

#[test]
fn add_sub_neg() {
    let a = Vector::new(ONE, 2 * ONE, 3 * ONE);
    let b = Vector::new(4 * ONE, 5 * ONE, 6 * ONE);
    assert_eq!(a.add(b), Vector::new(5 * ONE, 7 * ONE, 9 * ONE));
    assert_eq!(b.sub(a), Vector::new(3 * ONE, 3 * ONE, 3 * ONE));
    assert_eq!(a.neg(), Vector::new(-ONE, -2 * ONE, -3 * ONE));
}

#[test]
fn componentwise_mul_tints() {
    let half = Vector::new(ONE / 2, ONE, ONE / 4);
    let c = Vector::new(ONE, ONE / 2, ONE);
    assert_eq!(half.mul(c), Vector::new(ONE / 2, ONE / 2, ONE / 4));
}

#[test]
fn scalar_scale_and_div() {
    let a = Vector::new(ONE, -2 * ONE, 4 * ONE);
    assert_eq!(a.scale(2 * ONE), Vector::new(2 * ONE, -4 * ONE, 8 * ONE));
    assert_eq!(a.div_s(2 * ONE), Vector::new(ONE / 2, -ONE, 2 * ONE));
}

#[test]
fn dot_product_exact() {
    let a = Vector::new(ONE, 2 * ONE, 3 * ONE);
    let b = Vector::new(4 * ONE, 5 * ONE, 6 * ONE);
    // 1*4 + 2*5 + 3*6 = 32
    assert_eq!(a.dot(b), 32 * ONE);
}

#[test]
fn cross_product_exact() {
    let a = Vector::new(ONE, 2 * ONE, 3 * ONE);
    let b = Vector::new(4 * ONE, 5 * ONE, 6 * ONE);
    assert_eq!(a.cross(b), Vector::new(-3 * ONE, 6 * ONE, -3 * ONE));
}

#[test]
fn length_of_three_four_zero() {
    let v = Vector::new(3 * ONE, 4 * ONE, 0);
    assert_eq!(v.squared_length(), 25 * ONE);
    assert_eq!(v.length(), 5 * ONE);
}

#[test]
fn unit_vector_of_three_four_zero() {
    let v = Vector::new(3 * ONE, 4 * ONE, 0);
    // 3/5 and 4/5, truncated at the fixed-point resolution.
    assert_eq!(v.to_unit_vector(), Vector::new(39321, 52428, 0));
}

#[test]
fn unit_vector_axis_is_exact() {
    let v = Vector::new(0, 0, 7 * ONE);
    assert_eq!(v.to_unit_vector(), Vector::new(0, 0, ONE));
}

#[test]
fn quantize_clamps_and_scales() {
    assert_eq!(quantize(-ONE), 0);
    assert_eq!(quantize(0), 0);
    assert_eq!(quantize(ONE), 255);
    assert_eq!(quantize(2 * ONE), 255);
    assert_eq!(quantize(ONE / 2), 127);
}

#[test]
fn to_u8_quantizes_channels() {
    let c = Vector::new(ONE / 2, ONE, -ONE);
    assert_eq!(c.to_u8(), [127, 255, 0]);
}

#[test]
fn reflect_about_axis_normal() {
    let d = Vector::new(2 * ONE, -3 * ONE, ONE);
    let n = Vector::new(0, ONE, 0);
    assert_eq!(d.reflect(n), Vector::new(2 * ONE, 3 * ONE, ONE));
    assert_eq!(d.reflect(n).length(), d.length());
}

#[test]
fn reflect_preserves_length_within_tolerance() {
    // A non-axis unit normal: truncation may cost a few fixed-point units.
    let n = Vector::new(ONE, ONE, 0).to_unit_vector();
    let d = Vector::new(ONE, 0, 0);
    let r = d.reflect(n);
    assert_eq!(r, Vector::new(0, -ONE, 0));
    let diff = (r.length() - d.length()).abs();
    assert!(diff <= 7, "length drifted by {}", diff);
}

#[test]
fn pixel_starts_uncolored() {
    let p = Pixel::new(3, 4);
    assert_eq!(p.pos, Vector::new(3, 4, 0));
    assert!(p.color.is_none());
}

#[test]
fn viewport_starts_black() {
    let v = Viewport::new(2, 3);
    assert_eq!(v.height, 2);
    assert_eq!(v.width, 3);
    assert_eq!(v.pixels.len(), 6);
    for px in &v.pixels {
        assert_eq!(*px, Rgb { r: 0, g: 0, b: 0 });
    }
}

#[test]
fn normalization_is_accurate_above_unit_length() {
    // Vectors at least 1.0 long normalize to squared length within
    // [65524, 65552] (unit length up to ~1.2e-4).
    let cases = [
        Vector::new(3 * ONE, 4 * ONE, 12 * ONE),
        Vector::new(ONE, ONE, ONE),
        Vector::new(-7 * ONE, 2 * ONE, 1),
        Vector::new(ONE + 1, 0, 0),
        Vector::new(90000, -130000, 55555),
    ];
    for v in cases {
        let sq = v.to_unit_vector().squared_length();
        assert!(65524 <= sq && sq <= 65552, "unit squared length {}", sq);
    }
}

#[test]
fn cross_product_is_orthogonal_within_tolerance() {
    let a = Vector::new(85196, -13107, 45875);
    let b = Vector::new(-26214, 72089, 19660);
    let c = a.cross(b);
    // The residual is below 3 * bound / 65536 for operands bounded by 2.0.
    assert!(c.dot(a).abs() <= 6, "residual {}", c.dot(a));
    assert!(c.dot(b).abs() <= 6, "residual {}", c.dot(b));
}

#[test]
fn reflect_preserves_magnitude_at_unit_scale() {
    // For unit-bracket directions and normals the truncated reflection's
    // squared length drifts by at most 123 fixed-point units.
    let d = Vector::new(3 * ONE, -2 * ONE, 5 * ONE).to_unit_vector();
    let n = Vector::new(ONE, ONE, -ONE).to_unit_vector();
    let r = d.reflect(n);
    let diff = (r.squared_length() - d.squared_length()).abs();
    assert!(diff <= 123, "squared length drifted by {}", diff);
}
