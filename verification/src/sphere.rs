//! Spheres, still and moving.

use vstd::prelude::*;

use crate::aabb::box_inter;
use crate::aabb::box_union;
use crate::aabb::BoxM;
use crate::aabb::AABB;
use crate::aabb::inside_box_at;
use crate::fixed::add_v;
use crate::fixed::div_v;
use crate::fixed::iabs;
use crate::fixed::mul_v;
use crate::fixed::sqrt_v;
use crate::fixed::sub_v;
use crate::fixed::Fixed;
use crate::fixed::SCALE;
use crate::material::Material;
use crate::hitable::atom_hit_post;
use crate::hitable::in_window;
use crate::hitable::om;
use crate::hitable::HitM;
use crate::hitable::HitRecord;
use crate::hitable::Hitable;
use crate::ray::point_at;
use crate::ray::Ray;
use crate::ray::RayM;
use crate::vector::vadd;
use crate::vector::vdivs;
use crate::vector::vdot;
use crate::vector::vscale;
use crate::vector::vsub;
use crate::vector::V3;
use crate::vector::Vec3;

verus! {

/// Spatial padding, in raw steps, added around every primitive's bounding
/// box so that the exact containment guard keeps rounded-off hit points
/// strictly inside the box.
pub const PAD: i64 = 655;

/// The padded box around a sphere of the given center and radius.
pub open spec fn sphere_box(center: V3, radius: int) -> BoxM {
    let rp = add_v(iabs(radius), PAD as int);
    BoxM {
        min: vsub(center, V3 { x: rp, y: rp, z: rp }),
        max: vadd(center, V3 { x: rp, y: rp, z: rp }),
    }
}

/// Where a moving sphere's center sits at a ray time: linear interpolation
/// between the two endpoint centers over the sphere's time interval.
pub open spec fn msphere_center(c0: V3, c1: V3, t0: int, t1: int, time: int) -> V3 {
    vadd(c0, vscale(vsub(c1, c0), div_v(sub_v(time, t0), sub_v(t1, t0))))
}

/// The padded box around a moving sphere: the union of the boxes at its two
/// endpoint centers, covering every interpolated position in between.
pub open spec fn msphere_box(c0: V3, c1: V3, radius: int) -> BoxM {
    box_union(sphere_box(c0, radius), sphere_box(c1, radius))
}

/// The box a moving sphere's hit candidates are filtered by: the overlap
/// of the padded box at the center interpolated to the ray's time with
/// the time-spanning box the tree prunes by.  For a ray time inside the
/// sphere's own interval the interpolated box lies within the spanning
/// box, so the filter is exactly the instantaneous box.
pub open spec fn msphere_filter_box(c0: V3, c1: V3, radius: int, t0: int, t1: int, time: int) -> BoxM {
    box_inter(sphere_box(msphere_center(c0, c1, t0, t1, time), radius), msphere_box(c0, c1, radius))
}

/// The candidate hit parameters of a sphere of the given center against a
/// ray: the two quadratic roots, in ascending order, kept only when the
/// exact ray point at the root lies strictly inside the sphere's padded box
/// (the robustness guard that makes box rejection sound).  A non-positive
/// discriminant, or a zero direction, yields no candidate.
pub open spec fn sphere_cands(center: V3, radius: int, box_of: BoxM, orig: V3, dir: V3) -> Seq<
    int,
> {
    if !sphere_live(center, radius, orig, dir) {
        Seq::empty()
    } else {
        let r1 = sphere_r1(center, radius, orig, dir);
        let r2 = sphere_r2(center, radius, orig, dir);
        let s1: Seq<int> = if inside_box_at(box_of, orig, dir, r1) {
            seq![r1]
        } else {
            Seq::empty()
        };
        let s2: Seq<int> = if inside_box_at(box_of, orig, dir, r2) {
            seq![r2]
        } else {
            Seq::empty()
        };
        s1 + s2
    }
}

/// The leading coefficient of the sphere-ray quadratic: the direction's
/// squared length.
pub open spec fn sphere_a(dir: V3) -> int {
    vdot(dir, dir)
}

/// The half-discriminant of the sphere-ray quadratic.
pub open spec fn sphere_disc(center: V3, radius: int, orig: V3, dir: V3) -> int {
    let oc = vsub(orig, center);
    let b = vdot(oc, dir);
    let c = sub_v(vdot(oc, oc), mul_v(radius, radius));
    sub_v(mul_v(b, b), mul_v(sphere_a(dir), c))
}

/// Does the quadratic yield roots at all?  The direction must have positive
/// squared length and the discriminant must be positive.
pub open spec fn sphere_live(center: V3, radius: int, orig: V3, dir: V3) -> bool {
    sphere_a(dir) > 0 && sphere_disc(center, radius, orig, dir) > 0
}

/// The nearer quadratic root.
pub open spec fn sphere_r1(center: V3, radius: int, orig: V3, dir: V3) -> int {
    let oc = vsub(orig, center);
    let b = vdot(oc, dir);
    div_v(sub_v(-b, sqrt_v(sphere_disc(center, radius, orig, dir))), sphere_a(dir))
}

/// The farther quadratic root.
pub open spec fn sphere_r2(center: V3, radius: int, orig: V3, dir: V3) -> int {
    let oc = vsub(orig, center);
    let b = vdot(oc, dir);
    div_v(add_v(-b, sqrt_v(sphere_disc(center, radius, orig, dir))), sphere_a(dir))
}

/// The nearer root never exceeds the farther root.
pub proof fn lemma_sphere_roots_ordered(center: V3, radius: int, orig: V3, dir: V3)
    requires
        sphere_live(center, radius, orig, dir),
    ensures
        sphere_r1(center, radius, orig, dir) <= sphere_r2(center, radius, orig, dir),
{
    let oc = vsub(orig, center);
    let b = vdot(oc, dir);
    let sq = sqrt_v(sphere_disc(center, radius, orig, dir));
    crate::fixed::lemma_sqrt_v_nonneg(sphere_disc(center, radius, orig, dir));
    crate::fixed::lemma_div_v_monotone(sub_v(-b, sq), add_v(-b, sq), sphere_a(dir));
}

/// Membership in the sphere's candidate set, characterized: a candidate is
/// one of the two roots, the quadratic is live, and the exact ray point at
/// the candidate lies strictly inside the filter box.
pub proof fn lemma_sphere_cands_character(center: V3, radius: int, box_of: BoxM, orig: V3, dir: V3)
    ensures
        forall|t: int|
            #[trigger] sphere_cands(center, radius, box_of, orig, dir).contains(t) <==> (
            sphere_live(center, radius, orig, dir) && inside_box_at(box_of, orig, dir, t) && (t
                == sphere_r1(center, radius, orig, dir) || t == sphere_r2(
                center,
                radius,
                orig,
                dir,
            ))),
{
    let cs = sphere_cands(center, radius, box_of, orig, dir);
    if sphere_live(center, radius, orig, dir) {
        let r1 = sphere_r1(center, radius, orig, dir);
        let r2 = sphere_r2(center, radius, orig, dir);
        let s1: Seq<int> = if inside_box_at(box_of, orig, dir, r1) {
            seq![r1]
        } else {
            Seq::empty()
        };
        let s2: Seq<int> = if inside_box_at(box_of, orig, dir, r2) {
            seq![r2]
        } else {
            Seq::empty()
        };
        assert(cs == s1 + s2);
        assert forall|t: int| #[trigger] cs.contains(t) implies (inside_box_at(
            box_of,
            orig,
            dir,
            t,
        ) && (t == r1 || t == r2)) by {
            let j = choose|j: int| 0 <= j < cs.len() && cs[j] == t;
            if j < s1.len() {
                assert(cs[j] == s1[j]);
            } else {
                assert(cs[j] == s2[j - s1.len()]);
            }
        }
        assert forall|t: int|
            (inside_box_at(box_of, orig, dir, t) && (t == r1 || t == r2)) implies #[trigger] cs
            .contains(t) by {
            if t == r1 && inside_box_at(box_of, orig, dir, r1) {
                assert(cs[0] == s1[0]);
                assert(cs.contains(t));
            } else {
                assert(s2 == seq![r2]);
                assert(cs[s1.len() as int] == s2[0]);
                assert(cs.contains(t));
            }
        }
    } else {
        assert(cs.len() == 0);
        assert(forall|t: int| !#[trigger] cs.contains(t));
    }
}

/// Every sphere candidate passed the strict containment guard against the
/// box it was filtered by.
pub proof fn lemma_sphere_cands_inside(
    center: V3,
    radius: int,
    box_of: BoxM,
    orig: V3,
    dir: V3,
    t: int,
)
    requires
        sphere_cands(center, radius, box_of, orig, dir).contains(t),
    ensures
        inside_box_at(box_of, orig, dir, t),
{
    lemma_sphere_cands_character(center, radius, box_of, orig, dir);
}

/// Are all of a vector image's components within the representable raw
/// range?  Every vector built from scalars satisfies this.
pub open spec fn v3_in_range(v: V3) -> bool {
    let b = crate::fixed::RAW_BOUND as int;
    -b <= v.x <= b && -b <= v.y <= b && -b <= v.z <= b
}

/// Linear interpolation between two in-range values never leaves the
/// interval they span, whatever the rounding.
proof fn lemma_lerp_component(a: int, b: int, frac: int)
    requires
        -(crate::fixed::RAW_BOUND as int) <= a <= crate::fixed::RAW_BOUND as int,
        -(crate::fixed::RAW_BOUND as int) <= b <= crate::fixed::RAW_BOUND as int,
        0 <= frac <= SCALE as int,
    ensures
        a <= b ==> a <= add_v(a, mul_v(sub_v(b, a), frac)) <= b,
        b <= a ==> b <= add_v(a, mul_v(sub_v(b, a), frac)) <= a,
{
    let d = sub_v(b, a);
    let m = mul_v(d, frac);
    if d >= 0 {
        assert(0 <= crate::fixed::sdiv(d * frac, SCALE as int) <= d) by (nonlinear_arith)
            requires
                0 <= d,
                0 <= frac <= 65536,
                SCALE as int == 65536int,
        ;
    } else {
        assert(d <= crate::fixed::sdiv(d * frac, SCALE as int) <= 0) by (nonlinear_arith)
            requires
                d < 0,
                0 <= frac <= 65536,
                SCALE as int == 65536int,
        ;
    }
}

/// A uniform blend weight: the elapsed fraction of the time interval lies
/// in the unit interval.
proof fn lemma_time_fraction(t0: int, t1: int, time: int)
    requires
        t0 < t1,
        t0 <= time <= t1,
    ensures
        0 <= div_v(sub_v(time, t0), sub_v(t1, t0)) <= SCALE as int,
{
    let num = sub_v(time, t0);
    let den = sub_v(t1, t0);
    assert(0 <= num <= den);
    assert(den > 0);
    vstd::arithmetic::div_mod::lemma_div_is_ordered(num * SCALE, den * SCALE, den);
    vstd::arithmetic::div_mod::lemma_div_multiples_vanish(SCALE as int, den);
    assert(num * SCALE <= den * SCALE) by (nonlinear_arith)
        requires
            num <= den,
            SCALE as int > 0,
    ;
    assert(crate::fixed::iabs(num * SCALE) == num * SCALE);
    assert((num * SCALE) / den <= SCALE as int);
}

/// For a ray time inside the sphere's own interval, the padded box at the
/// interpolated center lies within the time-spanning box, so the candidate
/// filter is exactly the instantaneous box.
pub proof fn lemma_msphere_filter_box_inshutter(
    c0: V3,
    c1: V3,
    radius: int,
    t0: int,
    t1: int,
    time: int,
)
    requires
        v3_in_range(c0),
        v3_in_range(c1),
        t0 < t1,
        t0 <= time <= t1,
    ensures
        crate::aabb::box_within(
            sphere_box(msphere_center(c0, c1, t0, t1, time), radius),
            msphere_box(c0, c1, radius),
        ),
{
    let frac = div_v(sub_v(time, t0), sub_v(t1, t0));
    lemma_time_fraction(t0, t1, time);
    lemma_lerp_component(c0.x, c1.x, frac);
    lemma_lerp_component(c0.y, c1.y, frac);
    lemma_lerp_component(c0.z, c1.z, frac);
}

/// The padded box around a sphere surface at the given center.
fn padded_box(center: Vec3, radius: Fixed) -> (r: AABB)
    ensures
        r.m() == sphere_box(center.m(), radius.val()),
{
    let rp = radius.abs().add(Fixed::from_raw(PAD));
    let rv = Vec3::new(rp, rp, rp);
    AABB::new(center.sub(rv), center.add(rv))
}

/// The record a sphere of the given center reports at parameter `t`.
pub open spec fn sphere_rec(
    center: V3,
    radius: int,
    material: Material,
    orig: V3,
    dir: V3,
    t: int,
) -> HitM {
    HitM {
        t,
        p: point_at(orig, dir, t),
        normal: vdivs(vsub(point_at(orig, dir, t), center), radius),
        material,
    }
}

/// Exactly which record the quadratic hit test returns: the nearer root if
/// it lies in the window and inside the filter box, else the farther root
/// under the same conditions, else nothing.
pub open spec fn sphere_first(
    center: V3,
    radius: int,
    bx: BoxM,
    material: Material,
    orig: V3,
    dir: V3,
    tmin: int,
    tmax: int,
) -> Option<HitM> {
    if !sphere_live(center, radius, orig, dir) {
        None
    } else {
        let r1 = sphere_r1(center, radius, orig, dir);
        let r2 = sphere_r2(center, radius, orig, dir);
        if tmin < r1 && r1 < tmax && inside_box_at(bx, orig, dir, r1) {
            Some(sphere_rec(center, radius, material, orig, dir, r1))
        } else if tmin < r2 && r2 < tmax && inside_box_at(bx, orig, dir, r2) {
            Some(sphere_rec(center, radius, material, orig, dir, r2))
        } else {
            None
        }
    }
}

/// What the shared quadratic hit test must return: the nearest in-window
/// candidate of the sphere geometry given by `center`, `radius` and the
/// filter box, with the record built from that center.
pub open spec fn sphere_hit_post(
    center: V3,
    radius: int,
    bx: BoxM,
    material: Material,
    r: RayM,
    tmin: int,
    tmax: int,
    res: Option<HitM>,
) -> bool {
    let cs = sphere_cands(center, radius, bx, r.orig, r.dir);
    match res {
        None => forall|t: int| #[trigger] cs.contains(t) ==> !in_window(t, tmin, tmax),
        Some(rec) => {
            &&& in_window(rec.t, tmin, tmax)
            &&& cs.contains(rec.t)
            &&& rec == (HitM {
                t: rec.t,
                p: point_at(r.orig, r.dir, rec.t),
                normal: vdivs(vsub(point_at(r.orig, r.dir, rec.t), center), radius),
                material,
            })
            &&& forall|t: int|
                #[trigger] cs.contains(t) && in_window(t, tmin, tmax) ==> rec.t <= t
        },
    }
}

/// The quadratic slab of both sphere kinds: solve for the two roots, try
/// the nearer then the farther, accepting the first that lies in the open
/// window and whose exact ray point stays strictly inside the filter box.
fn quad_hit(
    center: Vec3,
    radius: Fixed,
    bbox: AABB,
    material: Material,
    r: &Ray,
    t_min: Fixed,
    t_max: Fixed,
) -> (res: Option<HitRecord>)
    ensures
        sphere_hit_post(
            center.m(),
            radius.val(),
            bbox.m(),
            material,
            r.m(),
            t_min.val(),
            t_max.val(),
            om(res),
        ),
        om(res) == sphere_first(
            center.m(),
            radius.val(),
            bbox.m(),
            material,
            r.m().orig,
            r.m().dir,
            t_min.val(),
            t_max.val(),
        ),
{
    let ghost cm = center.m();
    let ghost rm = r.m();
    let oc = r.origin().sub(center);
    let rd = r.direction();
    let a = rd.dot(&rd);
    let b = oc.dot(&rd);
    let c = oc.dot(&oc).sub(radius.mul(radius));
    let disc = b.mul(b).sub(a.mul(c));
    let zero = Fixed::zero();
    proof {
        assert(a.val() == sphere_a(rm.dir));
        assert(disc.val() == sphere_disc(cm, radius.val(), rm.orig, rm.dir));
        lemma_sphere_cands_character(cm, radius.val(), bbox.m(), rm.orig, rm.dir);
    }
    if zero.lt(a) && zero.lt(disc) {
        proof {
            lemma_sphere_roots_ordered(cm, radius.val(), rm.orig, rm.dir);
        }
        let sq = disc.sqrt();
        let nb = b.neg();
        let t1 = nb.sub(sq).div(a);
        let t2 = nb.add(sq).div(a);
        proof {
            assert(t1.val() == sphere_r1(cm, radius.val(), rm.orig, rm.dir));
            assert(t2.val() == sphere_r2(cm, radius.val(), rm.orig, rm.dir));
        }
        if t_min.lt(t1) && t1.lt(t_max) && bbox.contains_at(r, t1) {
            let p = r.point_at_t(t1);
            let normal = p.sub(center).div_s(radius);
            return Some(HitRecord { t: t1, p, normal, material });
        }
        if t_min.lt(t2) && t2.lt(t_max) && bbox.contains_at(r, t2) {
            let p = r.point_at_t(t2);
            let normal = p.sub(center).div_s(radius);
            return Some(HitRecord { t: t2, p, normal, material });
        }
        return None;
    }
    None
}

/// A sphere at a fixed position.
#[derive(Clone, Copy, Debug, PartialEq, Eq, Structural)]
pub struct Sphere {
    pub position: Vec3,
    pub radius: Fixed,
    pub material: Material,
}

impl Sphere {
    /// Build a sphere.
    pub fn new(position: Vec3, radius: Fixed, material: Material) -> (r: Sphere)
        ensures
            r == (Sphere { position, radius, material }),
    {
        Sphere { position, radius, material }
    }

    /// The padded box around this sphere; the time window is irrelevant for
    /// a still sphere.
    pub fn bounding_box(&self, t0: Fixed, t1: Fixed) -> (r: AABB)
        ensures
            r.m() == sphere_box(self.position.m(), self.radius.val()),
    {
        let rp = self.radius.abs().add(Fixed::from_raw(PAD));
        let rv = Vec3::new(rp, rp, rp);
        AABB::new(self.position.sub(rv), self.position.add(rv))
    }

    /// The nearest intersection with this sphere strictly inside the open
    /// window, if any.
    pub fn hit(&self, r: &Ray, t_min: Fixed, t_max: Fixed) -> (res: Option<HitRecord>)
        ensures
            atom_hit_post(Hitable::Sphere(*self), r.m(), t_min.val(), t_max.val(), om(res)),
            om(res) == sphere_first(
                self.position.m(),
                self.radius.val(),
                sphere_box(self.position.m(), self.radius.val()),
                self.material,
                r.m().orig,
                r.m().dir,
                t_min.val(),
                t_max.val(),
            ),
    {
        let bbox = self.bounding_box(t_min, t_max);
        let res = quad_hit(self.position, self.radius, bbox, self.material, r, t_min, t_max);
        proof {
            reveal(crate::hitable::cands);
            assert(atom_hit_post(
                Hitable::Sphere(*self),
                r.m(),
                t_min.val(),
                t_max.val(),
                om(res),
            ));
        }
        res
    }
}

/// A sphere whose center moves linearly over a time interval.
#[derive(Clone, Copy, Debug, PartialEq, Eq, Structural)]
pub struct MovingSphere {
    pub center0: Vec3,
    pub center1: Vec3,
    pub radius: Fixed,
    pub time0: Fixed,
    pub time1: Fixed,
    pub material: Material,
}

impl MovingSphere {
    /// Build a moving sphere.
    pub fn new(
        center0: Vec3,
        center1: Vec3,
        time0: Fixed,
        time1: Fixed,
        radius: Fixed,
        material: Material,
    ) -> (r: MovingSphere)
        ensures
            r == (MovingSphere { center0, center1, radius, time0, time1, material }),
    {
        MovingSphere { center0, center1, radius, time0, time1, material }
    }

    /// The center at a given time.
    pub fn center(&self, time: Fixed) -> (r: Vec3)
        ensures
            r.m() == msphere_center(
                self.center0.m(),
                self.center1.m(),
                self.time0.val(),
                self.time1.val(),
                time.val(),
            ),
    {
        let frac = time.sub(self.time0).div(self.time1.sub(self.time0));
        self.center0.add(self.center1.sub(self.center0).scale(frac))
    }

    /// The padded box covering the sphere across its whole time interval.
    pub fn bounding_box(&self, t0: Fixed, t1: Fixed) -> (r: AABB)
        ensures
            r.m() == msphere_box(self.center0.m(), self.center1.m(), self.radius.val()),
    {
        let rp = self.radius.abs().add(Fixed::from_raw(PAD));
        let rv = Vec3::new(rp, rp, rp);
        let b0 = AABB::new(self.center0.sub(rv), self.center0.add(rv));
        let b1 = AABB::new(self.center1.sub(rv), self.center1.add(rv));
        AABB::surrounding_box(&b0, &b1)
    }

    /// The nearest intersection with this sphere, evaluated at the ray's
    /// time, strictly inside the open window, if any.  Candidates are
    /// filtered by the overlap of the instantaneous padded box with the
    /// time-spanning box; for a ray time inside the sphere's interval that
    /// overlap is the instantaneous box itself, and the result is exactly
    /// what a still sphere at the interpolated center would report.
    pub fn hit(&self, r: &Ray, t_min: Fixed, t_max: Fixed) -> (res: Option<HitRecord>)
        ensures
            atom_hit_post(Hitable::MovingSphere(*self), r.m(), t_min.val(), t_max.val(), om(res)),
            om(res) == sphere_first(
                msphere_center(
                    self.center0.m(),
                    self.center1.m(),
                    self.time0.val(),
                    self.time1.val(),
                    r.m().time,
                ),
                self.radius.val(),
                msphere_filter_box(
                    self.center0.m(),
                    self.center1.m(),
                    self.radius.val(),
                    self.time0.val(),
                    self.time1.val(),
                    r.m().time,
                ),
                self.material,
                r.m().orig,
                r.m().dir,
                t_min.val(),
                t_max.val(),
            ),
    {
        let span = self.bounding_box(t_min, t_max);
        let center = self.center(r.time());
        let bbox = padded_box(center, self.radius).intersection(&span);
        let res = quad_hit(center, self.radius, bbox, self.material, r, t_min, t_max);
        proof {
            reveal(crate::hitable::cands);
            assert(atom_hit_post(
                Hitable::MovingSphere(*self),
                r.m(),
                t_min.val(),
                t_max.val(),
                om(res),
            ));
        }
        res
    }
}

} // verus!
