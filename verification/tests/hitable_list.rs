use raytracer::Fixed;
use raytracer::Hitable;
use raytracer::HitableList;
use raytracer::Material;
use raytracer::MovingSphere;
use raytracer::Ray;
use raytracer::Sphere;
use raytracer::Vec3;

fn fi(i: i64) -> Fixed {
    Fixed::from_int(i)
}

fn black() -> Material {
    Material::Lambertian(Vec3::new(fi(0), fi(0), fi(0)))
}

#[test]
fn test_intersection() {
    let t_min = Fixed::from_raw(66);
    let t_max = fi(10);
    let mut list = HitableList::new();
    list.push(Hitable::Sphere(Sphere::new(Vec3::new(fi(0), fi(0), fi(0)), fi(1), black())));

    // A ray in front of the sphere going directly into it.
    let ray = Ray::new(Vec3::new(fi(0), fi(0), fi(5)), Vec3::new(fi(0), fi(0), fi(-1)), fi(0));
    assert!(list.intersect(&ray, t_min, t_max).is_some());

    // A ray that is not going to hit the sphere.
    let ray = Ray::new(Vec3::new(fi(0), fi(0), fi(5)), Vec3::new(fi(0), fi(5), fi(0)), fi(0));
    assert!(list.intersect(&ray, t_min, t_max).is_none());

    // The same checks against a MovingSphere.
    let mut list = HitableList::new();
    list.push(
        Hitable::MovingSphere(
            MovingSphere::new(
                Vec3::new(fi(0), fi(0), fi(0)),
                Vec3::new(fi(0), fi(0), fi(0)),
                fi(0),
                fi(1),
                fi(1),
                black(),
            ),
        ),
    );

    let ray = Ray::new(Vec3::new(fi(0), fi(0), fi(5)), Vec3::new(fi(0), fi(0), fi(-1)), fi(0));
    assert!(list.intersect(&ray, t_min, t_max).is_some());

    let ray = Ray::new(Vec3::new(fi(0), fi(0), fi(5)), Vec3::new(fi(0), fi(5), fi(0)), fi(0));
    assert!(list.intersect(&ray, t_min, t_max).is_none());
}
