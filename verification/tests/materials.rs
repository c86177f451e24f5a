use raytracer::Fixed;
use raytracer::Material;
use raytracer::Rng;
use raytracer::Vec3;
use raytracer::hitable::HitRecord;
use raytracer::Ray;

fn fi(i: i64) -> Fixed {
    Fixed::from_int(i)
}

#[test]
fn test_schlick_normal_incidence() {
    // At normal incidence the reflectance equals the base reflectance
    // exactly: for an index of 1.5 the ratio is -0.2, whose square lands
    // on 2621 raw steps.
    let glass = Fixed::from_raw(98304);
    let r = Material::schlick(fi(1), glass);
    assert_eq!(r.raw(), 2621);
}

#[test]
fn test_schlick_stays_a_probability() {
    let glass = Fixed::from_raw(98304);
    let mut c: i64 = 0;
    while c <= 65536 {
        let r = Material::schlick(Fixed::from_raw(c), glass);
        assert!(0 <= r.raw() && r.raw() <= 65536);
        c += 4096;
    }
}

#[test]
fn test_refract_straight_through() {
    // Straight-on refraction at equal indices passes the ray through.
    let v = Vec3::new(fi(0), fi(0), fi(-1));
    let n = Vec3::new(fi(0), fi(0), fi(1));
    let r = Material::refract(&v, &n, fi(1));
    assert!(r.is_some());
    let out = r.unwrap();
    assert_eq!(out.x(), fi(0));
    assert_eq!(out.y(), fi(0));
    assert!(out.z().lt(fi(0)));
}

#[test]
fn test_total_internal_reflection() {
    // A grazing ray leaving a dense medium cannot refract.
    let v = Vec3::new(fi(10), fi(0), fi(-1));
    let n = Vec3::new(fi(0), fi(0), fi(1));
    let r = Material::refract(&v, &n, fi(4));
    assert!(r.is_none());
}

#[test]
fn test_lambertian_always_scatters() {
    let mat = Material::Lambertian(Vec3::new(fi(1), fi(0), fi(0)));
    let rec = HitRecord {
        t: fi(1),
        p: Vec3::new(fi(0), fi(0), fi(0)),
        normal: Vec3::new(fi(0), fi(1), fi(0)),
        material: mat,
    };
    let ray = Ray::new(Vec3::new(fi(0), fi(1), fi(1)), Vec3::new(fi(0), fi(-1), fi(-1)), fi(0));
    let mut rng = Rng::new(99);
    for _ in 0..32 {
        let s = mat.scatter(&ray, &rec, &mut rng);
        assert!(s.is_some());
    }
}

#[test]
fn test_metal_reflects_head_on() {
    // A head-on ray against a perfect mirror reflects straight back.
    let mat = Material::Metal(Vec3::new(fi(1), fi(1), fi(1)), fi(0));
    let rec = HitRecord {
        t: fi(1),
        p: Vec3::new(fi(0), fi(0), fi(0)),
        normal: Vec3::new(fi(0), fi(0), fi(1)),
        material: mat,
    };
    let ray = Ray::new(Vec3::new(fi(0), fi(0), fi(2)), Vec3::new(fi(0), fi(0), fi(-1)), fi(0));
    let mut rng = Rng::new(5);
    let s = mat.scatter(&ray, &rec, &mut rng).unwrap();
    assert!(s.direction().z().raw() > 0);
    assert_eq!(s.direction().x(), fi(0));
    assert_eq!(s.direction().y(), fi(0));
}
