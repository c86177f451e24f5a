use raytracer::Fixed;
use raytracer::Ray;
use raytracer::Vec3;

fn fr(raw: i64) -> Fixed {
    Fixed::from_raw(raw)
}

#[test]
fn ray_test_create() {
    let v1 = Vec3::new(fr(32768), fr(19661), fr(0));
    let v2 = Vec3::new(fr(0), fr(6554), fr(0));
    let r = Ray::new(v1, v2, Fixed::zero());
    assert_eq!(v1, r.origin());
    assert_eq!(v2, r.direction());
}

#[test]
fn test_point_at() {
    let v1 = Vec3::new(fr(32768), fr(19661), fr(0));
    let v2 = Vec3::new(fr(0), fr(6554), fr(0));
    let r = Ray::new(v1, v2, Fixed::zero());
    assert_eq!(r.point_at_t(Fixed::from_int(1)), r.origin().add(r.direction()));
    assert_ne!(r.point_at_t(Fixed::from_int(2)), r.origin().add(r.direction()));
}
