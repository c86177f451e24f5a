//! The camera: lens geometry derived once from the viewing parameters,
//! producing one ray per pixel-and-lens sample.
//!
//! The vertical field of view arrives in degrees; its tangent is computed
//! with truncated Maclaurin series in fixed point, pinned exactly by the
//! mirrored specification.

use vstd::prelude::*;

use crate::fixed::add_v;
use crate::fixed::div_v;
use crate::fixed::mul_v;
use crate::fixed::sub_v;
use crate::fixed::Fixed;
use crate::fixed::SCALE;
use crate::ray::Ray;
use crate::ray::RayM;
use crate::rng::rng_next_state;
use crate::rng::rng_unit;
use crate::rng::Rng;
use crate::vector::vadd;
use crate::vector::vcross;
use crate::vector::vscale;
use crate::vector::vsqlen;
use crate::vector::vsub;
use crate::vector::vunit;
use crate::vector::V3;
use crate::vector::Vec3;

verus! {

/// How many rejection-sampling rounds a lens draw may take before falling
/// back to the disk's center.
pub const MAX_LENS_ROUNDS: u64 = 64;

/// Radians per half-degree (pi over 360), in raw steps.
pub const RAD_PER_HALF_DEG: i64 = 572;

/// The truncated Maclaurin sine: four terms, evaluated in fixed point.
pub open spec fn sin_v(x: int) -> int {
    let x2 = mul_v(x, x);
    let x3 = mul_v(x2, x);
    let x5 = mul_v(x3, x2);
    let x7 = mul_v(x5, x2);
    sub_v(
        add_v(sub_v(x, div_v(x3, 6 * SCALE)), div_v(x5, 120 * SCALE)),
        div_v(x7, 5040 * SCALE),
    )
}

/// The truncated Maclaurin cosine: five terms, evaluated in fixed point.
pub open spec fn cos_v(x: int) -> int {
    let x2 = mul_v(x, x);
    let x4 = mul_v(x2, x2);
    let x6 = mul_v(x4, x2);
    let x8 = mul_v(x6, x2);
    add_v(
        sub_v(
            add_v(sub_v(SCALE as int, div_v(x2, 2 * SCALE)), div_v(x4, 24 * SCALE)),
            div_v(x6, 720 * SCALE),
        ),
        div_v(x8, 40320 * SCALE),
    )
}

/// The tangent as the quotient of the series.
pub open spec fn tan_v(x: int) -> int {
    div_v(sin_v(x), cos_v(x))
}

/// One candidate point for the lens draw: two uniform draws mapped into
/// the centered unit square of the lens plane.
pub open spec fn disk_sample(s: u64) -> (V3, u64) {
    let u1 = rng_unit(s);
    let s1 = rng_next_state(s);
    let u2 = rng_unit(s1);
    let s2 = rng_next_state(s1);
    let p = vsub(
        vscale(V3 { x: u1, y: u2, z: 0 }, 2 * SCALE),
        V3 { x: SCALE as int, y: SCALE as int, z: 0 },
    );
    (p, s2)
}

/// Rejection sampling of a point strictly inside the unit disk.
pub open spec fn disk_spec(s: u64, fuel: nat) -> (V3, u64)
    decreases fuel,
{
    let (p, s2) = disk_sample(s);
    if vsqlen(p) < SCALE {
        (p, s2)
    } else if fuel == 0 {
        (V3 { x: 0, y: 0, z: 0 }, s2)
    } else {
        disk_spec(s2, (fuel - 1) as nat)
    }
}

/// The mathematical image of a camera.
pub struct CamM {
    pub lower_left_corner: V3,
    pub horizontal: V3,
    pub vertical: V3,
    pub origin: V3,
    pub u: V3,
    pub v: V3,
    pub lens_radius: int,
    pub time0: int,
    pub time1: int,
}

/// The lens geometry derived from the viewing parameters, mirroring the
/// construction exactly.
pub open spec fn camera_m(
    lookfrom: V3,
    lookat: V3,
    vup: V3,
    vertical_fov: int,
    aspect: int,
    aperture: int,
    focus_dist: int,
    time0: int,
    time1: int,
) -> CamM {
    let lens_radius = div_v(aperture, 2 * SCALE);
    let half_height = tan_v(mul_v(vertical_fov, RAD_PER_HALF_DEG as int));
    let half_width = mul_v(aspect, half_height);
    let w = vunit(vsub(lookfrom, lookat));
    let u = vunit(vcross(vup, w));
    let v = vcross(w, u);
    let lower_left_corner = vsub(
        vsub(
            vsub(lookfrom, vscale(vscale(u, half_width), focus_dist)),
            vscale(vscale(v, half_height), focus_dist),
        ),
        vscale(w, focus_dist),
    );
    let horizontal = vscale(vscale(vscale(u, half_width), focus_dist), 2 * SCALE);
    let vertical = vscale(vscale(vscale(v, half_height), focus_dist), 2 * SCALE);
    CamM {
        lower_left_corner,
        horizontal,
        vertical,
        origin: lookfrom,
        u,
        v,
        lens_radius,
        time0,
        time1,
    }
}

/// The ray a camera produces for the pixel fractions `(s, t)` from a given
/// source state: jitter the origin over the lens disk and mix in a ray
/// time drawn from the shutter interval.
pub open spec fn get_ray_m(cam: CamM, s: int, t: int, st: u64) -> (RayM, u64) {
    let (d, st1) = disk_spec(st, MAX_LENS_ROUNDS as nat);
    let rd = vscale(d, cam.lens_radius);
    let offset = vadd(vscale(cam.u, rd.x), vscale(cam.v, rd.y));
    let tdraw = rng_unit(st1);
    let st2 = rng_next_state(st1);
    let time = add_v(cam.time0, mul_v(tdraw, sub_v(cam.time1, cam.time0)));
    let direction = vsub(
        vsub(
            vadd(vadd(cam.lower_left_corner, vscale(cam.horizontal, s)), vscale(cam.vertical, t)),
            cam.origin,
        ),
        offset,
    );
    (RayM { orig: vadd(cam.origin, offset), dir: direction, time }, st2)
}

/// The camera; immutable once constructed.
#[derive(Clone, Copy, Debug)]
pub struct Camera {
    pub lower_left_corner: Vec3,
    pub horizontal: Vec3,
    pub vertical: Vec3,
    pub origin: Vec3,
    pub u: Vec3,
    pub v: Vec3,
    pub lens_radius: Fixed,
    pub time0: Fixed,
    pub time1: Fixed,
}

impl Camera {
    /// The mathematical image of this camera.
    pub open spec fn m(self) -> CamM {
        CamM {
            lower_left_corner: self.lower_left_corner.m(),
            horizontal: self.horizontal.m(),
            vertical: self.vertical.m(),
            origin: self.origin.m(),
            u: self.u.m(),
            v: self.v.m(),
            lens_radius: self.lens_radius.val(),
            time0: self.time0.val(),
            time1: self.time1.val(),
        }
    }

    /// Derive the lens geometry from look-from/look-at/up vectors, the
    /// vertical field of view in degrees, the aspect ratio, the aperture
    /// diameter, the focus distance and the shutter interval.
    pub fn new(
        lookfrom: Vec3,
        lookat: Vec3,
        vup: Vec3,
        vertical_fov: Fixed,
        aspect: Fixed,
        aperture: Fixed,
        focus_dist: Fixed,
        time0: Fixed,
        time1: Fixed,
    ) -> (cam: Camera)
        ensures
            cam.m() == camera_m(
                lookfrom.m(),
                lookat.m(),
                vup.m(),
                vertical_fov.val(),
                aspect.val(),
                aperture.val(),
                focus_dist.val(),
                time0.val(),
                time1.val(),
            ),
    {
        let two = Fixed::from_int(2);
        let lens_radius = aperture.div(two);
        let half_height = Camera::tangent(vertical_fov.mul(Fixed::from_raw(RAD_PER_HALF_DEG)));
        let half_width = aspect.mul(half_height);
        let origin = lookfrom;
        let w = Vec3::unit_vec(lookfrom.sub(lookat));
        let u = Vec3::unit_vec(vup.cross(&w));
        let v = w.cross(&u);
        let lower_left_corner = lookfrom
            .sub(u.scale(half_width).scale(focus_dist))
            .sub(v.scale(half_height).scale(focus_dist))
            .sub(w.scale(focus_dist));
        let horizontal = u.scale(half_width).scale(focus_dist).scale(two);
        let vertical = v.scale(half_height).scale(focus_dist).scale(two);
        Camera {
            lower_left_corner,
            horizontal,
            vertical,
            origin,
            u,
            v,
            lens_radius,
            time0,
            time1,
        }
    }

    /// The tangent of an angle in radians, by the mirrored series.
    fn tangent(x: Fixed) -> (r: Fixed)
        ensures
            r.val() == tan_v(x.val()),
    {
        let x2 = x.mul(x);
        let x3 = x2.mul(x);
        let x5 = x3.mul(x2);
        let x7 = x5.mul(x2);
        let sin = x.sub(x3.div(Fixed::from_int(6))).add(x5.div(Fixed::from_int(120))).sub(
            x7.div(Fixed::from_int(5040)),
        );
        let x4 = x2.mul(x2);
        let x6 = x4.mul(x2);
        let x8 = x6.mul(x2);
        let one = Fixed::one();
        let cos = one.sub(x2.div(Fixed::from_int(2))).add(x4.div(Fixed::from_int(24))).sub(
            x6.div(Fixed::from_int(720)),
        ).add(x8.div(Fixed::from_int(40320)));
        sin.div(cos)
    }

    /// A random point strictly inside the unit lens disk, by bounded
    /// rejection sampling.
    fn random_unit_in_disk(rng: &mut Rng) -> (r: Vec3)
        ensures
            (r.m(), final(rng).m()) == disk_spec(old(rng).m(), MAX_LENS_ROUNDS as nat),
    {
        Camera::disk_rounds(rng, MAX_LENS_ROUNDS)
    }

    /// One or more lens-draw rounds, with the rounds left as fuel.
    fn disk_rounds(rng: &mut Rng, fuel: u64) -> (r: Vec3)
        ensures
            (r.m(), final(rng).m()) == disk_spec(old(rng).m(), fuel as nat),
        decreases fuel,
    {
        let u1 = rng.next_unit();
        let u2 = rng.next_unit();
        let two = Fixed::from_int(2);
        let one = Fixed::one();
        let zero = Fixed::zero();
        let p = Vec3::new(u1, u2, zero).scale(two).sub(Vec3::new(one, one, zero));
        if p.squared_length().lt(one) {
            p
        } else if fuel == 0 {
            Vec3::new(zero, zero, zero)
        } else {
            Camera::disk_rounds(rng, fuel - 1)
        }
    }

    /// The ray for the pixel fractions `(s, t)`, jittered over the lens
    /// and over the shutter interval.
    pub fn get_ray(&self, s: Fixed, t: Fixed, rng: &mut Rng) -> (r: Ray)
        ensures
            (r.m(), final(rng).m()) == get_ray_m(self.m(), s.val(), t.val(), old(rng).m()),
    {
        let d = Camera::random_unit_in_disk(rng);
        let rd = d.scale(self.lens_radius);
        let offset = self.u.scale(rd.x()).add(self.v.scale(rd.y()));
        let tdraw = rng.next_unit();
        let time = self.time0.add(tdraw.mul(self.time1.sub(self.time0)));
        let direction = self.lower_left_corner.add(self.horizontal.scale(s)).add(
            self.vertical.scale(t),
        ).sub(self.origin).sub(offset);
        Ray::new(self.origin.add(offset), direction, time)
    }
}

} // verus!
