use raytracer::Fixed;
use raytracer::Material;
use raytracer::Ray;
use raytracer::Triangle;
use raytracer::Vec3;

fn fi(i: i64) -> Fixed {
    Fixed::from_int(i)
}

fn white() -> Material {
    Material::Lambertian(Vec3::new(fi(1), fi(1), fi(1)))
}

fn unit_triangle() -> Triangle {
    Triangle::new(
        Vec3::new(fi(1), fi(0), fi(0)),
        Vec3::new(fi(0), fi(1), fi(0)),
        Vec3::new(fi(0), fi(0), fi(1)),
        white(),
    )
}

#[test]
fn test_norm() {
    let triangle = unit_triangle();
    let norm = triangle.normal();
    assert_eq!(norm, Vec3::new(fi(1), fi(1), fi(1)));
}

#[test]
fn test_centroid_hit() {
    // A ray from the origin toward the centroid hits, with the plane
    // crossing at exactly one third (the barycentric weights are each one
    // third and sum to one).
    let triangle = unit_triangle();
    let ray = Ray::new(Vec3::new(fi(0), fi(0), fi(0)), Vec3::new(fi(1), fi(1), fi(1)), fi(0));
    let hit = triangle.hit(&ray, Fixed::from_raw(66), fi(10));
    assert!(hit.is_some());
    let rec = hit.unwrap();
    assert_eq!(rec.t.raw(), 21845);
    assert_eq!(rec.normal, Vec3::new(fi(1), fi(1), fi(1)));
}

#[test]
fn test_outside_edge_miss() {
    // A ray aimed just outside the far edge (where the barycentric sum
    // would exceed one) misses.
    let triangle = unit_triangle();
    let ray = Ray::new(
        Vec3::new(fi(0), fi(0), fi(0)),
        Vec3::new(Fixed::from_raw(39322), Fixed::from_raw(39322), Fixed::from_raw(-13107)),
        fi(0),
    );
    assert!(triangle.hit(&ray, Fixed::from_raw(66), fi(10)).is_none());
}
