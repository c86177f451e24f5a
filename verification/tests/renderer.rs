use raytracer::Camera;
use raytracer::Fixed;
use raytracer::Hitable;
use raytracer::HitableList;
use raytracer::Material;
use raytracer::Ray;
use raytracer::Renderer;
use raytracer::Rng;
use raytracer::Sphere;
use raytracer::Vec3;

fn fi(i: i64) -> Fixed {
    Fixed::from_int(i)
}

fn test_camera(width: u32, height: u32) -> Camera {
    let lookfrom = Vec3::new(fi(13), fi(2), fi(3));
    let lookat = Vec3::new(fi(0), fi(0), fi(0));
    let dist_to_focus = fi(10);
    Camera::new(
        lookfrom,
        lookat,
        Vec3::new(fi(0), fi(1), fi(0)),
        fi(30),
        fi((width / height) as i64),
        fi(0),
        dist_to_focus,
        fi(0),
        fi(1),
    )
}

#[test]
fn test_hit() {
    // Camera setup
    let width: u32 = 100;
    let height: u32 = 100;
    let cam = test_camera(width, height);

    // A single ground sphere
    let mut world = HitableList::new();
    world.push(
        Hitable::Sphere(
            Sphere::new(
                Vec3::new(fi(0), fi(-1000), fi(0)),
                fi(1000),
                Material::Lambertian(
                    Vec3::new(Fixed::from_raw(32768), Fixed::from_raw(26214), Fixed::from_raw(32768)),
                ),
            ),
        ),
    );

    // See that the renderer runs and fills the whole buffer.
    let renderer = Renderer::new(cam);
    let pixels = renderer.render(width, height, &world, 7);
    assert!(!pixels.is_empty());
    assert_eq!(pixels.len(), (width * height * 3) as usize);
}

#[test]
fn test_render_deterministic() {
    // The same scene, camera, size and seed give byte-identical buffers.
    let cam = test_camera(16, 16);
    let mut world = HitableList::new();
    world.push(
        Hitable::Sphere(
            Sphere::new(
                Vec3::new(fi(0), fi(0), fi(-3)),
                fi(1),
                Material::Metal(Vec3::new(fi(1), fi(1), fi(1)), Fixed::from_raw(16384)),
            ),
        ),
    );
    let renderer = Renderer::new(cam);
    let first = renderer.render(16, 16, &world, 424242);
    let second = renderer.render(16, 16, &world, 424242);
    assert_eq!(first, second);
}

#[test]
fn test_depth_cap_returns_black() {
    // A corridor of two facing perfect mirrors: the path bounces forever,
    // so the estimate terminates at the depth cap and contributes black.
    let mirror = Material::Metal(Vec3::new(fi(1), fi(1), fi(1)), fi(0));
    let mut world = HitableList::new();
    world.push(Hitable::Sphere(Sphere::new(Vec3::new(fi(0), fi(0), fi(2)), fi(1), mirror)));
    world.push(Hitable::Sphere(Sphere::new(Vec3::new(fi(0), fi(0), fi(-2)), fi(1), mirror)));
    let renderer = Renderer::new(test_camera(8, 8));
    let ray = Ray::new(Vec3::new(fi(0), fi(0), fi(0)), Vec3::new(fi(0), fi(0), fi(1)), fi(0));
    let mut rng = Rng::new(3);
    let c = renderer.color(&ray, &world, 0, &mut rng);
    assert_eq!(c, Vec3::new(fi(0), fi(0), fi(0)));
}
