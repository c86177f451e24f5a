//! Procedural scene generation: the classic random field of small spheres
//! around three large ones, over an explicit random source.

use vstd::prelude::*;

use crate::fixed::Fixed;
use crate::hitable::is_atom;
use crate::hitable::wf;
use crate::hitable::Hitable;
use crate::hitable_list::HitableList;
use crate::material::Material;
use crate::rng::Rng;
use crate::sphere::MovingSphere;
use crate::sphere::Sphere;
use crate::vector::Vec3;
use crate::vector::V3;

verus! {

/// Does a grid sphere's center keep clear of the feature-sphere anchor?
/// The anchor sits at (4, 0.2, 0) and the clearance is nine tenths.
#[verifier::opaque]
pub open spec fn far_from_anchor(c: V3) -> bool {
    crate::vector::vlen(crate::vector::vsub(c, V3 { x: 262144, y: 13107, z: 0 })) > 58982
}

/// The shape of a grid primitive: a sphere of radius one fifth sitting at
/// height one fifth, clear of the anchor; a still one carries a metal or
/// dielectric material, a bobbing one a diffuse material and the whole
/// unit shutter interval.
#[verifier::opaque]
pub open spec fn grid_primitive(h: Hitable) -> bool {
    ||| {
        &&& h matches Hitable::Sphere(s)
        &&& s.radius.val() == 13107
        &&& s.position.m().y == 13107
        &&& far_from_anchor(s.position.m())
        &&& (s.material is Metal || s.material is Dielectric)
    }
    ||| {
        &&& h matches Hitable::MovingSphere(ms)
        &&& ms.radius.val() == 13107
        &&& ms.center0.m().y == 13107
        &&& ms.time0.val() == 0
        &&& ms.time1.val() == 65536
        &&& far_from_anchor(ms.center0.m())
        &&& ms.material is Lambertian
    }
}

/// A random scene: a ground sphere, a grid of small spheres with randomly
/// drawn materials (diffuse ones bobbing upward over the shutter
/// interval), and three fixed feature spheres.  Every primitive is a leaf,
/// so the list is ready for intersection or for a hierarchy build.
#[verifier::rlimit(60)]
pub fn random_world(rng: &mut Rng) -> (world: HitableList)
    ensures
        4 <= world.objs@.len() <= 4 + 22 * 22,
        forall|k: int|
            0 <= k < world.objs@.len() ==> wf(#[trigger] world.objs@[k]) && is_atom(
                world.objs@[k],
            ),
        world.objs@[0] matches Hitable::Sphere(g) && g.position.m() == (V3 {
            x: 0,
            y: -65536000,
            z: 0,
        }) && g.radius.val() == 65536000 && g.material is Lambertian,
        forall|k: int|
            1 <= k < world.objs@.len() - 3 ==> grid_primitive(#[trigger] world.objs@[k]),
        world.objs@[world.objs@.len() - 3] matches Hitable::Sphere(s1) && s1.position.m() == (V3 {
            x: 0,
            y: 32768,
            z: 0,
        }) && s1.radius.val() == 32768 && s1.material is Lambertian,
        world.objs@[world.objs@.len() - 2] matches Hitable::Sphere(s2) && s2.position.m() == (V3 {
            x: 131072,
            y: 32768,
            z: 0,
        }) && s2.radius.val() == 32768 && (s2.material matches Material::Dielectric(c, ri) && c.m()
            == (V3 { x: 65536, y: 65536, z: 65536 }) && ri.val() == 98304),
        world.objs@[world.objs@.len() - 1] matches Hitable::Sphere(s3) && s3.position.m() == (V3 {
            x: 262144,
            y: 32768,
            z: 0,
        }) && s3.radius.val() == 32768 && (s3.material matches Material::Metal(c, f) && c.m() == (
        V3 { x: 45875, y: 39322, z: 32768 }) && f.val() == 0),
{
    let zero = Fixed::zero();
    let one = Fixed::one();
    let mut world = HitableList::new();
    world.push(
        Hitable::Sphere(
            Sphere::new(
                Vec3::new(zero, Fixed::from_int(-1000), zero),
                Fixed::from_int(1000),
                Material::Lambertian(
                    Vec3::new(Fixed::from_raw(32768), Fixed::from_raw(26214), Fixed::from_raw(32768)),
                ),
            ),
        ),
    );
    let ghost ground = world.objs@[0];
    let nine_tenths = Fixed::from_raw(58982);
    let fifth = Fixed::from_raw(13107);
    let mut a: i64 = -11;
    while a < 11
        invariant
            -11 <= a <= 11,
            1 <= world.objs@.len() <= 1 + (a + 11) * 22,
            world.objs@[0] == ground,
            forall|k: int|
                0 <= k < world.objs@.len() ==> wf(#[trigger] world.objs@[k]) && is_atom(
                    world.objs@[k],
                ),
            forall|k: int|
                1 <= k < world.objs@.len() ==> grid_primitive(#[trigger] world.objs@[k]),
        decreases 11 - a,
    {
        let mut b: i64 = -11;
        while b < 11
            invariant
                -11 <= a < 11,
                -11 <= b <= 11,
                1 <= world.objs@.len() <= 1 + (a + 11) * 22 + (b + 11),
                world.objs@[0] == ground,
                forall|k: int|
                    0 <= k < world.objs@.len() ==> wf(#[trigger] world.objs@[k]) && is_atom(
                        world.objs@[k],
                    ),
                forall|k: int|
                    1 <= k < world.objs@.len() ==> grid_primitive(#[trigger] world.objs@[k]),
            decreases 11 - b,
        {
            place_grid_sphere(&mut world, a, b, rng);
            b = b + 1;
        }
        a = a + 1;
    }
    let half = Fixed::from_raw(32768);
    world.push(
        Hitable::Sphere(
            Sphere::new(
                Vec3::new(zero, half, zero),
                half,
                Material::Lambertian(
                    Vec3::new(Fixed::from_raw(6554), fifth, Fixed::from_raw(32768)),
                ),
            ),
        ),
    );
    world.push(
        Hitable::Sphere(
            Sphere::new(
                Vec3::new(Fixed::from_int(2), half, zero),
                half,
                Material::Dielectric(Vec3::new(one, one, one), Fixed::from_raw(98304)),
            ),
        ),
    );
    world.push(
        Hitable::Sphere(
            Sphere::new(
                Vec3::new(Fixed::from_int(4), half, zero),
                half,
                Material::Metal(
                    Vec3::new(Fixed::from_raw(45875), Fixed::from_raw(39322), half),
                    zero,
                ),
            ),
        ),
    );
    world
}


/// Draw one grid cell: jitter a center inside the cell, and unless it sits
/// too close to the feature-sphere anchor, add a small sphere whose
/// material kind is drawn from the source.
#[verifier::rlimit(60)]
fn place_grid_sphere(world: &mut HitableList, a: i64, b: i64, rng: &mut Rng)
    requires
        -11 <= a < 11,
        -11 <= b < 11,
        old(world).objs@.len() >= 1,
        forall|k: int|
            0 <= k < old(world).objs@.len() ==> wf(#[trigger] old(world).objs@[k]) && is_atom(
                old(world).objs@[k],
            ),
        forall|k: int|
            1 <= k < old(world).objs@.len() ==> grid_primitive(#[trigger] old(world).objs@[k]),
    ensures
        old(world).objs@.len() <= final(world).objs@.len() <= old(world).objs@.len() + 1,
        final(world).objs@[0] == old(world).objs@[0],
        forall|k: int|
            0 <= k < final(world).objs@.len() ==> wf(#[trigger] final(world).objs@[k]) && is_atom(
                final(world).objs@[k],
            ),
        forall|k: int|
            1 <= k < final(world).objs@.len() ==> grid_primitive(#[trigger] final(world).objs@[k]),
{
    let zero = Fixed::zero();
    let one = Fixed::one();
    let nine_tenths = Fixed::from_raw(58982);
    let fifth = Fixed::from_raw(13107);
    let mat_type = rng.next_unit();
    let center = Vec3::new(
        Fixed::from_int(a).add(nine_tenths.mul(rng.next_unit())),
        fifth,
        Fixed::from_int(b).add(nine_tenths.mul(rng.next_unit())),
    );
    let anchor = Vec3::new(Fixed::from_int(4), fifth, zero);
    if nine_tenths.lt(center.sub(anchor).length()) {
        proof {
            assert(far_from_anchor(center.m())) by {
                reveal(far_from_anchor);
            }
        }
        if mat_type.lt(Fixed::from_raw(52429)) {
            let bob = Fixed::from_raw(32768).mul(rng.next_unit());
            let albedo = Vec3::new(
                rng.next_unit().mul(rng.next_unit()),
                rng.next_unit().mul(rng.next_unit()),
                rng.next_unit().mul(rng.next_unit()),
            );
            let h = Hitable::MovingSphere(
                MovingSphere::new(
                    center,
                    center.add(Vec3::new(zero, bob, zero)),
                    zero,
                    one,
                    fifth,
                    Material::Lambertian(albedo),
                ),
            );
            proof {
                assert(grid_primitive(h)) by {
                    reveal(grid_primitive);
                }
            }
            world.push(h);
        } else if mat_type.lt(Fixed::from_raw(62259)) {
            let half = Fixed::from_raw(32768);
            let albedo = Vec3::new(
                half.mul(one.add(rng.next_unit())),
                half.mul(one.add(rng.next_unit())),
                half.mul(one.add(rng.next_unit())),
            );
            let fuzz = half.mul(rng.next_unit());
            let h = Hitable::Sphere(Sphere::new(center, fifth, Material::Metal(albedo, fuzz)));
            proof {
                assert(grid_primitive(h)) by {
                    reveal(grid_primitive);
                }
            }
            world.push(h);
        } else {
            let h = Hitable::Sphere(
                Sphere::new(
                    center,
                    fifth,
                    Material::Dielectric(Vec3::new(one, one, one), Fixed::from_raw(98304)),
                ),
            );
            proof {
                assert(grid_primitive(h)) by {
                    reveal(grid_primitive);
                }
            }
            world.push(h);
        }
    }
}

} // verus!
