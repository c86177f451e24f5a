use raytracer::BvhNode;
use raytracer::Fixed;
use raytracer::Hitable;
use raytracer::HitableList;
use raytracer::Material;
use raytracer::MovingSphere;
use raytracer::Ray;
use raytracer::Rng;
use raytracer::Sphere;
use raytracer::Triangle;
use raytracer::Vec3;
use raytracer::aabb::AABB;

fn fi(i: i64) -> Fixed {
    Fixed::from_int(i)
}

fn gray() -> Material {
    Material::Lambertian(Vec3::new(Fixed::from_raw(32768), Fixed::from_raw(32768), Fixed::from_raw(32768)))
}

#[test]
fn test_box_hit_from_inside() {
    // A ray whose origin is strictly inside the box hits it over the
    // window from zero forward, whatever its direction.
    let b = AABB::new(Vec3::new(fi(-1), fi(-1), fi(-1)), Vec3::new(fi(1), fi(1), fi(1)));
    let big = Fixed::from_raw(raytracer::fixed::RAW_BOUND);
    let dirs = [
        Vec3::new(fi(1), fi(2), fi(3)),
        Vec3::new(fi(-1), fi(0), fi(0)),
        Vec3::new(fi(0), fi(0), fi(1)),
    ];
    for d in dirs {
        let ray = Ray::new(Vec3::new(fi(0), fi(0), fi(0)), d, fi(0));
        assert!(b.hit(&ray, fi(0), big));
    }
}

#[test]
fn test_box_miss_parallel() {
    // A ray travelling parallel to an axis, with its origin outside that
    // axis's slab, misses the box outright.
    let b = AABB::new(Vec3::new(fi(-1), fi(-1), fi(-1)), Vec3::new(fi(1), fi(1), fi(1)));
    let big = Fixed::from_raw(raytracer::fixed::RAW_BOUND);
    let ray = Ray::new(Vec3::new(fi(0), fi(5), fi(0)), Vec3::new(fi(1), fi(0), fi(0)), fi(0));
    assert!(!b.hit(&ray, fi(0), big));
    // A perpendicular miss fails through the interval narrowing instead.
    let ray = Ray::new(Vec3::new(fi(5), fi(5), fi(0)), Vec3::new(fi(0), fi(0), fi(1)), fi(0));
    assert!(!b.hit(&ray, fi(0), big));
}

#[test]
fn test_sphere_exact_hit() {
    // A ray from (0, 0, 5) toward (0, 0, -1) against the unit sphere at
    // the origin hits at exactly four, with normal exactly (0, 0, 1).
    let sphere = Sphere::new(Vec3::new(fi(0), fi(0), fi(0)), fi(1), gray());
    let ray = Ray::new(Vec3::new(fi(0), fi(0), fi(5)), Vec3::new(fi(0), fi(0), fi(-1)), fi(0));
    let hit = sphere.hit(&ray, Fixed::from_raw(66), fi(100));
    assert!(hit.is_some());
    let rec = hit.unwrap();
    assert_eq!(rec.t, fi(4));
    assert_eq!(rec.p, Vec3::new(fi(0), fi(0), fi(1)));
    assert_eq!(rec.normal, Vec3::new(fi(0), fi(0), fi(1)));
}

fn sample_world() -> HitableList {
    let mut list = HitableList::new();
    list.push(Hitable::Sphere(Sphere::new(Vec3::new(fi(0), fi(0), fi(-5)), fi(1), gray())));
    list.push(Hitable::Sphere(Sphere::new(Vec3::new(fi(2), fi(0), fi(-8)), fi(2), gray())));
    list.push(Hitable::Sphere(Sphere::new(Vec3::new(fi(-3), fi(1), fi(-6)), fi(1), gray())));
    list.push(
        Hitable::MovingSphere(
            MovingSphere::new(
                Vec3::new(fi(0), fi(3), fi(-7)),
                Vec3::new(fi(0), fi(4), fi(-7)),
                fi(0),
                fi(1),
                fi(1),
                gray(),
            ),
        ),
    );
    list.push(
        Hitable::Triangle(
            Triangle::new(
                Vec3::new(fi(-2), fi(-2), fi(-4)),
                Vec3::new(fi(2), fi(-2), fi(-4)),
                Vec3::new(fi(0), fi(2), fi(-4)),
                gray(),
            ),
        ),
    );
    list
}

#[test]
fn test_bvh_matches_list() {
    // The hierarchy and the exhaustive scan agree ray for ray: both miss,
    // or both report the same parameter and hit point.
    let list = sample_world();
    let clone_list = sample_world();
    let mut rng = Rng::new(12345);
    let node = BvhNode::new(clone_list, fi(0), fi(1), &mut rng).unwrap();
    let t_min = Fixed::from_raw(66);
    let t_max = Fixed::from_raw(raytracer::fixed::RAW_BOUND);
    let mut probes = Vec::new();
    for ix in -4i64..5 {
        for iy in -4i64..5 {
            probes.push(Vec3::new(fi(ix), fi(iy), fi(-8)));
        }
    }
    for target in probes {
        let ray = Ray::new(Vec3::new(fi(0), fi(0), fi(2)), target.sub(Vec3::new(fi(0), fi(0), fi(2))), Fixed::from_raw(32768));
        let a = list.intersect(&ray, t_min, t_max);
        let b = node.hit(&ray, t_min, t_max);
        match (a, b) {
            (Some(ra), Some(rb)) => {
                assert_eq!(ra.t, rb.t);
                assert_eq!(ra.p, rb.p);
            },
            (None, None) => {},
            _ => panic!("list and hierarchy disagree"),
        }
    }
}

#[test]
fn test_bvh_empty_scene_fails() {
    let mut rng = Rng::new(1);
    let empty = HitableList::new();
    assert!(BvhNode::new(empty, fi(0), fi(1), &mut rng).is_err());
}

#[test]
fn test_bvh_inside_list() {
    // A hierarchy can stand inside a list as one more primitive; the
    // nearest hit through the list matches the direct scan.
    let direct = sample_world();
    let mut rng = Rng::new(9);
    let node = BvhNode::new(sample_world(), fi(0), fi(1), &mut rng).unwrap();
    let mut wrapped = HitableList::new();
    wrapped.push(Hitable::Node(node));
    let t_min = Fixed::from_raw(66);
    let t_max = Fixed::from_raw(raytracer::fixed::RAW_BOUND);
    let ray = Ray::new(Vec3::new(fi(0), fi(0), fi(2)), Vec3::new(fi(0), fi(0), fi(-1)), fi(0));
    let a = direct.intersect(&ray, t_min, t_max).unwrap();
    let b = wrapped.intersect(&ray, t_min, t_max).unwrap();
    assert_eq!(a.t, b.t);
    assert_eq!(a.p, b.p);
}

#[test]
fn test_moving_sphere_matches_instantaneous() {
    // For an in-shutter ray time, a moving sphere reports exactly what a
    // still sphere standing at the interpolated center reports.
    let ms = MovingSphere::new(
        Vec3::new(fi(0), fi(0), fi(-5)),
        Vec3::new(fi(2), fi(0), fi(-5)),
        fi(0),
        fi(1),
        fi(1),
        gray(),
    );
    let time = Fixed::from_raw(32768);
    let still = Sphere::new(ms.center(time), fi(1), gray());
    let t_min = Fixed::from_raw(66);
    for ix in -3i64..4 {
        let ray = Ray::new(
            Vec3::new(fi(0), fi(0), fi(0)),
            Vec3::new(fi(ix), fi(0), fi(-5)),
            time,
        );
        let a = ms.hit(&ray, t_min, fi(100));
        let b = still.hit(&ray, t_min, fi(100));
        match (a, b) {
            (Some(ra), Some(rb)) => {
                assert_eq!(ra.t, rb.t);
                assert_eq!(ra.p, rb.p);
                assert_eq!(ra.normal, rb.normal);
            },
            (None, None) => {},
            _ => panic!("moving and instantaneous sphere disagree"),
        }
    }
}

#[test]
fn test_moving_sphere_follows_time() {
    // At its start time the sphere sits at the first center; at its end
    // time it has moved out of the original ray's path.
    let ms = MovingSphere::new(
        Vec3::new(fi(0), fi(0), fi(-5)),
        Vec3::new(fi(10), fi(0), fi(-5)),
        fi(0),
        fi(1),
        fi(1),
        gray(),
    );
    let t_min = Fixed::from_raw(66);
    let early = Ray::new(Vec3::new(fi(0), fi(0), fi(0)), Vec3::new(fi(0), fi(0), fi(-1)), fi(0));
    assert!(ms.hit(&early, t_min, fi(100)).is_some());
    let late = Ray::new(Vec3::new(fi(0), fi(0), fi(0)), Vec3::new(fi(0), fi(0), fi(-1)), fi(1));
    assert!(ms.hit(&late, t_min, fi(100)).is_none());
}
