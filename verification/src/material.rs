//! Surface materials: diffuse, fuzzy metal and dielectric scattering.
//!
//! Scattering consumes a ray, a hit record and an explicit random source,
//! and yields the next ray or nothing (absorption).  Every draw from the
//! source is mirrored in a specification, so the outgoing ray is an exact
//! function of the material, the hit and the source's state.

use vstd::prelude::*;

use crate::fixed::add_v;
use crate::fixed::div_v;
use crate::fixed::mul_v;
use crate::fixed::sqrt_v;
use crate::fixed::sub_v;
use crate::fixed::Fixed;
use crate::fixed::SCALE;
use crate::hitable::HitM;
use crate::hitable::HitRecord;
use crate::ray::Ray;
use crate::ray::RayM;
use crate::rng::rng_next_state;
use crate::rng::rng_unit;
use crate::rng::Rng;
use crate::vector::vdot;
use crate::vector::vlen;
use crate::vector::vreflect;
use crate::vector::vscale;
use crate::vector::vsqlen;
use crate::vector::vsub;
use crate::vector::vunit;
use crate::vector::V3;
use crate::vector::Vec3;

verus! {

/// How many rejection-sampling rounds a random-point draw may take before
/// falling back to the sphere's center; a bound keeps every draw total.
pub const MAX_SAMPLE_ROUNDS: u64 = 64;

/// One candidate point for rejection sampling: three uniform draws mapped
/// into the centered unit cube, along with the state after them.
pub open spec fn sample_cube(s: u64) -> (V3, u64) {
    let u1 = rng_unit(s);
    let s1 = rng_next_state(s);
    let u2 = rng_unit(s1);
    let s2 = rng_next_state(s1);
    let u3 = rng_unit(s2);
    let s3 = rng_next_state(s2);
    let p = vsub(
        vscale(V3 { x: u1, y: u2, z: u3 }, 2 * SCALE),
        V3 { x: SCALE as int, y: SCALE as int, z: SCALE as int },
    );
    (p, s3)
}

/// Rejection sampling of a point strictly inside the unit sphere: draw a
/// cube point, keep it if its squared length is below one, else redraw;
/// after the last allowed round the center is returned.
pub open spec fn rus_spec(s: u64, fuel: nat) -> (V3, u64)
    decreases fuel,
{
    let (p, s3) = sample_cube(s);
    if vsqlen(p) < SCALE {
        (p, s3)
    } else if fuel == 0 {
        (V3 { x: 0, y: 0, z: 0 }, s3)
    } else {
        rus_spec(s3, (fuel - 1) as nat)
    }
}

/// The fifth power, accumulated left to right.
pub open spec fn pow5_v(x: int) -> int {
    mul_v(mul_v(mul_v(mul_v(x, x), x), x), x)
}

/// Schlick's reflectance at normal incidence.
pub open spec fn schlick_r0_v(ref_idx: int) -> int {
    let q = div_v(sub_v(SCALE as int, ref_idx), add_v(SCALE as int, ref_idx));
    mul_v(q, q)
}

/// Schlick's approximation of Fresnel reflectance.
pub open spec fn schlick_v(cosine: int, ref_idx: int) -> int {
    let r0 = schlick_r0_v(ref_idx);
    add_v(r0, mul_v(sub_v(SCALE as int, r0), pow5_v(sub_v(SCALE as int, cosine))))
}

/// Snell refraction of `v` about the outward normal, or nothing under total
/// internal reflection (non-positive refraction discriminant).
pub open spec fn refract_spec(v: V3, normal: V3, ni_over_nt: int) -> Option<V3> {
    let uv = vunit(v);
    let dt = vdot(uv, normal);
    let disc = sub_v(
        SCALE as int,
        mul_v(mul_v(ni_over_nt, ni_over_nt), sub_v(SCALE as int, mul_v(dt, dt))),
    );
    if disc > 0 {
        Some(
            vsub(
                vscale(vsub(uv, vscale(normal, dt)), ni_over_nt),
                vscale(normal, sqrt_v(disc)),
            ),
        )
    } else {
        None
    }
}

/// What a diffuse surface scatters: a ray from the hit point toward the
/// normal displaced by a random interior point; never refused.
pub open spec fn lambertian_spec(rec: HitM, time: int, s: u64) -> (Option<RayM>, u64) {
    let (rp, s1) = rus_spec(s, MAX_SAMPLE_ROUNDS as nat);
    let target = vadd_m(vadd_m(rec.p, rec.normal), rp);
    (Some(RayM { orig: rec.p, dir: vsub(target, rec.p), time }), s1)
}

/// Componentwise sum, shorthand for the vector spec.
pub open spec fn vadd_m(a: V3, b: V3) -> V3 {
    crate::vector::vadd(a, b)
}

/// What a metal surface scatters: the reflection of the unit incoming
/// direction, perturbed by the fuzz factor; absorbed when the perturbed
/// direction no longer points away from the surface.
pub open spec fn metal_spec(ray: RayM, fuzz: int, rec: HitM, s: u64) -> (Option<RayM>, u64) {
    let reflected = vreflect(vunit(ray.dir), rec.normal);
    let (rp, s1) = rus_spec(s, MAX_SAMPLE_ROUNDS as nat);
    let dir = vadd_m(reflected, vscale(rp, fuzz));
    if vdot(dir, rec.normal) > 0 {
        (Some(RayM { orig: rec.p, dir, time: ray.time }), s1)
    } else {
        (None, s1)
    }
}

/// What a dielectric surface scatters: refract or reflect, the choice
/// drawn with Schlick's reflectance as the probability of reflection;
/// always scatters.
pub open spec fn dielectric_spec(ref_idx: int, ray: RayM, rec: HitM, s: u64) -> (
    Option<RayM>,
    u64,
) {
    let reflected = vreflect(ray.dir, rec.normal);
    let d = vdot(ray.dir, rec.normal);
    let outward_normal = if d > 0 {
        vscale(rec.normal, -SCALE)
    } else {
        rec.normal
    };
    let ni_over_nt = if d > 0 {
        ref_idx
    } else {
        div_v(SCALE as int, ref_idx)
    };
    let cosine = if d > 0 {
        div_v(mul_v(ref_idx, d), vlen(ray.dir))
    } else {
        div_v(-d, vlen(ray.dir))
    };
    let refracted = refract_spec(ray.dir, outward_normal, ni_over_nt);
    let reflect_prob = if refracted is Some {
        schlick_v(cosine, ref_idx)
    } else {
        SCALE as int
    };
    let draw = rng_unit(s);
    let s1 = rng_next_state(s);
    if draw < reflect_prob {
        (Some(RayM { orig: rec.p, dir: reflected, time: ray.time }), s1)
    } else {
        (Some(RayM { orig: rec.p, dir: refracted->0, time: ray.time }), s1)
    }
}

/// What any material scatters; a metal's fuzz factor is capped at one.
pub open spec fn scatter_spec(mat: Material, ray: RayM, rec: HitM, s: u64) -> (
    Option<RayM>,
    u64,
) {
    match mat {
        Material::Lambertian(_) => lambertian_spec(rec, ray.time, s),
        Material::Metal(_, fuzz) => {
            let f = if fuzz.val() <= SCALE {
                fuzz.val()
            } else {
                SCALE as int
            };
            metal_spec(ray, f, rec, s)
        },
        Material::Dielectric(_, ri) => dielectric_spec(ri.val(), ray, rec, s),
    }
}

/// The attenuation color of a material, at the specification level.
pub open spec fn mat_color_v(m: Material) -> V3 {
    match m {
        Material::Lambertian(c) => c.m(),
        Material::Metal(c, _) => c.m(),
        Material::Dielectric(c, _) => c.m(),
    }
}

/// The mathematical image of an optional ray.
pub open spec fn om_ray(r: Option<Ray>) -> Option<RayM> {
    match r {
        Some(ray) => Some(ray.m()),
        None => None,
    }
}

/// A surface material, attached to every primitive; stateless aside from
/// its parameters.
#[derive(Clone, Copy, Debug, PartialEq, Eq, Structural)]
pub enum Material {
    /// A diffuse surface with its albedo.
    Lambertian(Vec3),
    /// A reflective surface with its albedo and a fuzz factor.
    Metal(Vec3, Fixed),
    /// A refractive surface with its attenuation color and refractive index.
    Dielectric(Vec3, Fixed),
}

impl Material {
    /// Scatter an incoming ray at a hit: the next ray of the light path, or
    /// nothing when the surface absorbs the path.
    pub fn scatter(&self, ray: &Ray, rec: &HitRecord, rng: &mut Rng) -> (res: Option<Ray>)
        ensures
            (om_ray(res), final(rng).m()) == scatter_spec(*self, ray.m(), rec.m(), old(rng).m()),
    {
        match self {
            Material::Lambertian(_) => self.lambertian(ray, rec, rng),
            Material::Metal(_, fuzz) => {
                let one = Fixed::one();
                let fuzz_factor = if fuzz.le(one) {
                    *fuzz
                } else {
                    one
                };
                self.metal(ray, fuzz_factor, rec, rng)
            },
            Material::Dielectric(_, ri) => self.dielectric(*ri, ray, rec, rng),
        }
    }

    /// Scatter from a diffuse surface.
    fn lambertian(&self, ray: &Ray, rec: &HitRecord, rng: &mut Rng) -> (res: Option<Ray>)
        ensures
            (om_ray(res), final(rng).m()) == lambertian_spec(rec.m(), ray.m().time, old(rng).m()),
    {
        let rp = Material::random_unit_in_sphere(rng);
        let target = rec.p.add(rec.normal).add(rp);
        Some(Ray::new(rec.p, target.sub(rec.p), ray.time()))
    }

    /// Scatter from a metal surface with the given fuzz factor.
    fn metal(&self, ray: &Ray, fuzz: Fixed, rec: &HitRecord, rng: &mut Rng) -> (res: Option<Ray>)
        ensures
            (om_ray(res), final(rng).m()) == metal_spec(
                ray.m(),
                fuzz.val(),
                rec.m(),
                old(rng).m(),
            ),
    {
        let reflected = Vec3::unit_vec(ray.direction()).reflect(rec.normal);
        let rp = Material::random_unit_in_sphere(rng);
        let fuzzed_reflector = reflected.add(rp.scale(fuzz));
        let zero = Fixed::zero();
        if zero.lt(fuzzed_reflector.dot(&rec.normal)) {
            Some(Ray::new(rec.p, fuzzed_reflector, ray.time()))
        } else {
            None
        }
    }

    /// Scatter from a dielectric surface with the given refractive index.
    fn dielectric(&self, ref_idx: Fixed, ray: &Ray, rec: &HitRecord, rng: &mut Rng) -> (res:
        Option<Ray>)
        ensures
            (om_ray(res), final(rng).m()) == dielectric_spec(
                ref_idx.val(),
                ray.m(),
                rec.m(),
                old(rng).m(),
            ),
    {
        let zero = Fixed::zero();
        let one = Fixed::one();
        let reflected = ray.direction().reflect(rec.normal);
        let d = ray.direction().dot(&rec.normal);
        let outward_normal: Vec3;
        let ni_over_nt: Fixed;
        let cosine: Fixed;
        if zero.lt(d) {
            outward_normal = rec.normal.scale(one.neg());
            ni_over_nt = ref_idx;
            cosine = ref_idx.mul(d).div(ray.direction().length());
        } else {
            outward_normal = rec.normal;
            ni_over_nt = one.div(ref_idx);
            cosine = d.neg().div(ray.direction().length());
        }
        let refracted = Material::refract(&ray.direction(), &outward_normal, ni_over_nt);
        let reflect_prob = match &refracted {
            Some(_) => Material::schlick(cosine, ref_idx),
            None => one,
        };
        let draw = rng.next_unit();
        if draw.lt(reflect_prob) {
            Some(Ray::new(rec.p, reflected, ray.time()))
        } else {
            match refracted {
                Some(refr) => Some(Ray::new(rec.p, refr, ray.time())),
                None => Some(Ray::new(rec.p, reflected, ray.time())),
            }
        }
    }

    /// A random point strictly inside the unit sphere, by bounded rejection
    /// sampling over the centered unit cube.
    fn random_unit_in_sphere(rng: &mut Rng) -> (r: Vec3)
        ensures
            (r.m(), final(rng).m()) == rus_spec(old(rng).m(), MAX_SAMPLE_ROUNDS as nat),
    {
        Material::rus_rounds(rng, MAX_SAMPLE_ROUNDS)
    }

    /// One or more rejection-sampling rounds, with the rounds left as fuel.
    fn rus_rounds(rng: &mut Rng, fuel: u64) -> (r: Vec3)
        ensures
            (r.m(), final(rng).m()) == rus_spec(old(rng).m(), fuel as nat),
        decreases fuel,
    {
        let u1 = rng.next_unit();
        let u2 = rng.next_unit();
        let u3 = rng.next_unit();
        let two = Fixed::from_int(2);
        let one = Fixed::one();
        let p = Vec3::new(u1, u2, u3).scale(two).sub(Vec3::new(one, one, one));
        if p.squared_length().lt(one) {
            p
        } else if fuel == 0 {
            let zero = Fixed::zero();
            Vec3::new(zero, zero, zero)
        } else {
            Material::rus_rounds(rng, fuel - 1)
        }
    }

    /// Snell refraction, or nothing under total internal reflection.
    pub fn refract(v: &Vec3, normal: &Vec3, ni_over_nt: Fixed) -> (res: Option<Vec3>)
        ensures
            match (res, refract_spec(v.m(), normal.m(), ni_over_nt.val())) {
                (Some(r), Some(rs)) => r.m() == rs,
                (None, None) => true,
                _ => false,
            },
    {
        let zero = Fixed::zero();
        let one = Fixed::one();
        let uv = Vec3::unit_vec(*v);
        let dt = uv.dot(normal);
        let disc = one.sub(ni_over_nt.mul(ni_over_nt).mul(one.sub(dt.mul(dt))));
        if zero.lt(disc) {
            let r = uv.sub(normal.scale(dt)).scale(ni_over_nt).sub(normal.scale(disc.sqrt()));
            Some(r)
        } else {
            None
        }
    }

    /// The Schlick approximation of Fresnel reflectance.
    pub fn schlick(cosine: Fixed, ref_idx: Fixed) -> (r: Fixed)
        ensures
            r.val() == schlick_v(cosine.val(), ref_idx.val()),
    {
        let one = Fixed::one();
        let q = one.sub(ref_idx).div(one.add(ref_idx));
        let r0 = q.mul(q);
        let p = one.sub(cosine);
        let p5 = p.mul(p).mul(p).mul(p).mul(p);
        r0.add(one.sub(r0).mul(p5))
    }

    /// The attenuation color a scattering event multiplies into the path.
    pub fn color(self) -> (r: Vec3)
        ensures
            r == match self {
                Material::Lambertian(c) => c,
                Material::Metal(c, _) => c,
                Material::Dielectric(c, _) => c,
            },
    {
        match self {
            Material::Lambertian(color) => color,
            Material::Metal(color, _) => color,
            Material::Dielectric(color, _) => color,
        }
    }
}

/// Schlick reflectance is a probability: for any incidence angle (cosine in
/// the unit interval) and any non-negative index it stays within the unit
/// interval, and at normal incidence it equals the base reflectance
/// exactly.
pub proof fn lemma_schlick_range(cosine: int, ref_idx: int)
    requires
        0 <= cosine <= SCALE as int,
        0 <= ref_idx <= crate::fixed::RAW_BOUND as int,
    ensures
        0 <= schlick_v(cosine, ref_idx) <= SCALE as int,
        cosine == SCALE as int ==> schlick_v(cosine, ref_idx) == schlick_r0_v(ref_idx),
{
    let s = SCALE as int;
    let num = sub_v(s, ref_idx);
    let den = add_v(s, ref_idx);
    assert(den >= s);
    assert(crate::fixed::iabs(num) <= den);
    let q = div_v(num, den);
    assert(crate::fixed::iabs(q) <= s) by {
        lemma_ratio_bounded(num, den);
    }
    let r0 = schlick_r0_v(ref_idx);
    assert(0 <= r0 <= s) by {
        assert(0 <= mul_v(q, q) <= s) by (nonlinear_arith)
            requires
                crate::fixed::iabs(q) <= s,
                s == 65536,
                mul_v(q, q) == crate::fixed::clip(crate::fixed::sdiv(q * q, s)),
        ;
    }
    let p = sub_v(s, cosine);
    assert(0 <= p <= s);
    let p2 = mul_v(p, p);
    let p3 = mul_v(p2, p);
    let p4 = mul_v(p3, p);
    let p5 = mul_v(p4, p);
    assert(0 <= p2 <= s && 0 <= p3 <= s && 0 <= p4 <= s && 0 <= p5 <= s) by {
        lemma_unit_mul(p, p);
        lemma_unit_mul(p2, p);
        lemma_unit_mul(p3, p);
        lemma_unit_mul(p4, p);
    }
    let tail = mul_v(sub_v(s, r0), p5);
    assert(0 <= tail <= sub_v(s, r0)) by {
        lemma_unit_scale(sub_v(s, r0), p5);
    }
    assert(0 <= add_v(r0, tail) <= s);
    if cosine == s {
        assert(p == 0);
        assert(p2 == 0);
        assert(p3 == 0);
        assert(p4 == 0);
        assert(p5 == 0);
        assert(sub_v(s, r0) * p5 == 0) by (nonlinear_arith)
            requires
                p5 == 0,
        ;
        assert(tail == 0);
        assert(schlick_v(cosine, ref_idx) == add_v(r0, 0));
        assert(add_v(r0, 0) == r0);
    }
}

/// A quotient of a numerator no larger in magnitude than its positive
/// denominator stays within the unit interval in magnitude.
proof fn lemma_ratio_bounded(num: int, den: int)
    requires
        den > 0,
        crate::fixed::iabs(num) <= den,
    ensures
        crate::fixed::iabs(div_v(num, den)) <= SCALE as int,
{
    let s = SCALE as int;
    vstd::arithmetic::div_mod::lemma_div_is_ordered(crate::fixed::iabs(num) * s, den * s, den);
    vstd::arithmetic::div_mod::lemma_div_multiples_vanish(s, den);
    assert(crate::fixed::iabs(num) * s <= den * s) by (nonlinear_arith)
        requires
            crate::fixed::iabs(num) <= den,
            s > 0,
    ;
    assert(crate::fixed::iabs(num * s) == crate::fixed::iabs(num) * s);
    assert((crate::fixed::iabs(num) * s) / den <= s);
}

/// The product of two unit-interval values stays in the unit interval.
proof fn lemma_unit_mul(a: int, b: int)
    requires
        0 <= a <= SCALE as int,
        0 <= b <= SCALE as int,
    ensures
        0 <= mul_v(a, b) <= SCALE as int,
{
    assert(0 <= mul_v(a, b) <= SCALE as int) by (nonlinear_arith)
        requires
            0 <= a <= SCALE as int,
            0 <= b <= SCALE as int,
            SCALE as int == 65536int,
            mul_v(a, b) == crate::fixed::clip(crate::fixed::sdiv(a * b, SCALE as int)),
    ;
}

/// Scaling a non-negative value by a unit-interval factor never grows it.
proof fn lemma_unit_scale(a: int, b: int)
    requires
        0 <= a <= SCALE as int,
        0 <= b <= SCALE as int,
    ensures
        0 <= mul_v(a, b) <= a,
{
    assert(0 <= mul_v(a, b) <= a) by (nonlinear_arith)
        requires
            0 <= a <= SCALE as int,
            0 <= b <= SCALE as int,
            SCALE as int == 65536int,
            mul_v(a, b) == crate::fixed::clip(crate::fixed::sdiv(a * b, SCALE as int)),
    ;
}

} // verus!
