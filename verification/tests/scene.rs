use raytracer::scene::random_world;
use raytracer::Rng;

#[test]
fn test_random_world_builds() {
    let mut rng = Rng::new(2024);
    let world = random_world(&mut rng);
    // The ground sphere and the three feature spheres are always present.
    assert!(world.len() >= 4);
}

#[test]
fn test_random_world_seeded() {
    // The same seed yields the same number of primitives.
    let mut r1 = Rng::new(77);
    let mut r2 = Rng::new(77);
    assert_eq!(random_world(&mut r1).len(), random_world(&mut r2).len());
}
