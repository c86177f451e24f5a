use raytracer::Fixed;
use raytracer::Vec3;

fn fi(i: i64) -> Fixed {
    Fixed::from_int(i)
}

fn v(x: i64, y: i64, z: i64) -> Vec3 {
    Vec3::new(fi(x), fi(y), fi(z))
}

#[test]
fn test_arithmetic() {
    let v1 = v(1, 0, 1);
    let v2 = v(1, 1, 1);
    assert_eq!(v1.sub(v2), v(0, -1, 0));
    assert_eq!(v1.mul(v2), v(1, 0, 1));
    assert_eq!(v1.add(v2), v(2, 1, 2));
    assert_eq!(v1.div(v2), v(1, 0, 1));

    // Scalar arithmetic
    assert_eq!(v1.scale(fi(3)), v(3, 0, 3));
    assert_eq!(v1.add_s(fi(3)), v(4, 3, 4));

    // Sign change
    assert_eq!(v1.neg(), v(-1, 0, -1));

    // Indexing
    let v3 = v(1, 2, 3);
    assert_eq!(v3.index(0), fi(1));
    assert_eq!(v3.index(1), fi(2));
    assert_eq!(v3.index(2), fi(3));
}

#[test]
fn test_functionality() {
    let v1 = v(1, 0, 1);
    let v2 = v(1, 1, 1);

    // Dot product
    assert_eq!(v1.dot(&v2), fi(2));

    // Cross product
    assert_eq!(v1.cross(&v2), v(-1, 0, 1));

    // Lengths: the squared length of (1, 0, 1) is exactly two, and the
    // length is the fixed-point square root of two.
    assert_eq!(v2.squared_length(), fi(3));
    assert_eq!(v1.squared_length(), fi(2));
    assert_eq!(v1.length().raw(), 92681);

    // Normalization divides each component by the length.
    let u = Vec3::unit_vec(v1);
    assert_eq!(u.x().raw(), 46341);
    assert_eq!(u.y().raw(), 0);
    assert_eq!(u.z().raw(), 46341);
}

#[test]
fn test_saturation() {
    // Division by zero saturates to the signed bound, like an infinity.
    let big = Fixed::from_raw(raytracer::fixed::RAW_BOUND);
    assert_eq!(fi(1).div(fi(0)), big);
    assert_eq!(fi(-1).div(fi(0)), big.neg());
    assert_eq!(fi(0).div(fi(0)), fi(0));

    // Products beyond the representable range saturate too.
    assert_eq!(big.mul(big), big);

    // Square roots are exact on perfect squares.
    assert_eq!(fi(4).sqrt(), fi(2));
    assert_eq!(fi(2).sqrt().raw(), 92681);
    assert_eq!(fi(-9).sqrt(), fi(0));
}
