use raytracer::Camera;
use raytracer::Fixed;
use raytracer::Vec3;

fn fi(i: i64) -> Fixed {
    Fixed::from_int(i)
}

#[test]
fn camera_test_create() {
    let width: u32 = 1200;
    let height: u32 = 800;
    let lookfrom = Vec3::new(fi(1), fi(2), fi(10));
    let lookat = Vec3::new(fi(0), fi(0), fi(0));
    let dist_to_focus = lookfrom.sub(lookat).length();
    let cam = Camera::new(
        lookfrom,
        lookat,
        Vec3::new(fi(0), fi(1), fi(0)),
        fi(30),
        fi((width / height) as i64),
        Fixed::from_raw(6554),
        dist_to_focus,
        fi(0),
        fi(1),
    );

    assert_eq!(cam.origin, lookfrom);
    // The lens radius is exactly half the aperture.
    assert_eq!(cam.lens_radius, Fixed::from_raw(3277));
    // The first basis vector is horizontal: the up vector crossed with the
    // view axis has no vertical component.
    assert_eq!(cam.u.y(), fi(0));
    // The basis is close to orthonormal; fixed-point rounding leaves only
    // a tiny residue on the dot products.
    assert!(cam.u.dot(&cam.v).raw().abs() < 64);
    assert!(cam.u.squared_length().sub(fi(1)).raw().abs() < 64);
    assert_eq!(cam.time0, fi(0));
    assert_eq!(cam.time1, fi(1));
}
