//! The closed set of renderable primitives and the nearest-hit contract.
//!
//! Every primitive yields, for a given ray, an ordered sequence of exact
//! candidate hit parameters ([`cands`]); an intersection query over any
//! collection of primitives must return the candidate with globally minimal
//! parameter inside the open query window.  That obligation is captured
//! once, as [`hit_post`], and every query path — the exhaustive list scan
//! and the bounding-volume hierarchy — is proved against it, which is what
//! makes the two interchangeable.

use vstd::prelude::*;

use crate::aabb::box_within;
use crate::aabb::inside_box_at;
use crate::aabb::BoxM;
use crate::aabb::AABB;
use crate::bvh_node::BvhNode;
use crate::fixed::Fixed;
use crate::material::Material;
use crate::ray::point_at;
use crate::ray::Ray;
use crate::ray::RayM;
use crate::sphere::msphere_box;
use crate::sphere::msphere_center;
use crate::sphere::sphere_box;
use crate::sphere::sphere_cands;
use crate::sphere::MovingSphere;
use crate::sphere::Sphere;
use crate::triangle::tri_box;
use crate::triangle::tri_cands;
use crate::triangle::Triangle;
use crate::vector::vdivs;
use crate::vector::vsub;
use crate::vector::V3;
use crate::vector::Vec3;

verus! {

/// A renderable primitive: a closed sum over the primitive kinds, with
/// acceleration nodes as one more kind, dispatched by pattern matching.
#[derive(Debug)]
pub enum Hitable {
    /// A still sphere.
    Sphere(Sphere),
    /// A sphere moving linearly over a time interval.
    MovingSphere(MovingSphere),
    /// A triangle.
    Triangle(Triangle),
    /// An internal node of a bounding-volume hierarchy.
    Node(BvhNode),
}

impl Clone for Hitable {
    /// A deep copy, equal to the original.
    fn clone(&self) -> (r: Self)
        ensures
            r == *self,
        decreases *self,
    {
        match self {
            Hitable::Sphere(s) => Hitable::Sphere(*s),
            Hitable::MovingSphere(ms) => Hitable::MovingSphere(*ms),
            Hitable::Triangle(t) => Hitable::Triangle(*t),
            Hitable::Node(n) => Hitable::Node(n.clone()),
        }
    }
}

/// The mathematical image of a hit record.
pub struct HitM {
    pub t: int,
    pub p: V3,
    pub normal: V3,
    pub material: Material,
}

/// The result of a successful intersection: parameter, point, oriented
/// surface normal and the material of the intersected surface.
#[derive(Clone, Copy, Debug)]
pub struct HitRecord {
    pub t: Fixed,
    pub p: Vec3,
    pub normal: Vec3,
    pub material: Material,
}

impl HitRecord {
    /// The mathematical image of this record.
    pub open spec fn m(self) -> HitM {
        HitM { t: self.t.val(), p: self.p.m(), normal: self.normal.m(), material: self.material }
    }

    /// A blank record, as a starting point for filling in a hit.
    pub fn new() -> (r: HitRecord)
        ensures
            r.m().t == 0,
    {
        HitRecord {
            t: Fixed::zero(),
            p: Vec3::new(Fixed::zero(), Fixed::zero(), Fixed::zero()),
            normal: Vec3::new(Fixed::zero(), Fixed::zero(), Fixed::zero()),
            material: Material::Lambertian(Vec3::new(Fixed::zero(), Fixed::zero(), Fixed::zero())),
        }
    }
}

/// The mathematical image of an optional record.
pub open spec fn om(r: Option<HitRecord>) -> Option<HitM> {
    match r {
        Some(h) => Some(h.m()),
        None => None,
    }
}

/// Is this primitive a leaf kind (not an acceleration node)?
pub open spec fn is_atom(h: Hitable) -> bool {
    !(h is Node)
}

/// The padded bounding box of a primitive; for a node, its cached box.
pub open spec fn hbox(h: Hitable) -> BoxM {
    match h {
        Hitable::Sphere(s) => sphere_box(s.position.m(), s.radius.val()),
        Hitable::MovingSphere(ms) => msphere_box(ms.center0.m(), ms.center1.m(), ms.radius.val()),
        Hitable::Triangle(t) => tri_box(t.v0_m(), t.v1_m(), t.v2_m()),
        Hitable::Node(n) => n.bb.m(),
    }
}

/// Well-formedness of a primitive tree: every node's cached box contains
/// the boxes of both children.  Leaves are always well formed.
pub open spec fn wf(h: Hitable) -> bool
    decreases h,
{
    match h {
        Hitable::Node(n) => {
            &&& wf(*n.left)
            &&& wf(*n.right)
            &&& box_within(hbox(*n.left), n.bb.m())
            &&& box_within(hbox(*n.right), n.bb.m())
        },
        _ => true,
    }
}

/// Tightness of a primitive tree: every node's cached box is exactly the
/// union of its two children's boxes, not merely a container of them.
pub open spec fn tight(h: Hitable) -> bool
    decreases h,
{
    match h {
        Hitable::Node(n) => {
            &&& tight(*n.left)
            &&& tight(*n.right)
            &&& n.bb.m() == crate::aabb::box_union(hbox(*n.left), hbox(*n.right))
        },
        _ => true,
    }
}

/// The leaf primitives beneath a primitive, in left-to-right order.
pub open spec fn atoms(h: Hitable) -> Seq<Hitable>
    decreases h,
{
    match h {
        Hitable::Node(n) => atoms(*n.left) + atoms(*n.right),
        _ => seq![h],
    }
}

/// The leaf primitives beneath a sequence of primitives.
pub open spec fn atoms_of_seq(s: Seq<Hitable>) -> Seq<Hitable>
    decreases s.len(),
{
    if s.len() == 0 {
        Seq::empty()
    } else {
        atoms(s[0]) + atoms_of_seq(s.drop_first())
    }
}

/// The exact candidate hit parameters of a leaf primitive for a ray.
#[verifier::opaque]
pub open spec fn cands(h: Hitable, r: RayM) -> Seq<int> {
    match h {
        Hitable::Sphere(s) => sphere_cands(
            s.position.m(),
            s.radius.val(),
            sphere_box(s.position.m(), s.radius.val()),
            r.orig,
            r.dir,
        ),
        Hitable::MovingSphere(ms) => sphere_cands(
            msphere_center(
                ms.center0.m(),
                ms.center1.m(),
                ms.time0.val(),
                ms.time1.val(),
                r.time,
            ),
            ms.radius.val(),
            crate::sphere::msphere_filter_box(
                ms.center0.m(),
                ms.center1.m(),
                ms.radius.val(),
                ms.time0.val(),
                ms.time1.val(),
                r.time,
            ),
            r.orig,
            r.dir,
        ),
        Hitable::Triangle(t) => tri_cands(t.v0_m(), t.v1_m(), t.v2_m(), r.orig, r.dir),
        Hitable::Node(_) => Seq::empty(),
    }
}

/// Does the leaf primitive offer the candidate parameter `t`?
pub open spec fn atom_has_cand(h: Hitable, r: RayM, t: int) -> bool {
    cands(h, r).contains(t)
}

/// The record a leaf primitive reports for a hit at parameter `t`.
pub open spec fn atom_record(h: Hitable, r: RayM, t: int) -> HitM {
    match h {
        Hitable::Sphere(s) => HitM {
            t,
            p: point_at(r.orig, r.dir, t),
            normal: vdivs(vsub(point_at(r.orig, r.dir, t), s.position.m()), s.radius.val()),
            material: s.material,
        },
        Hitable::MovingSphere(ms) => HitM {
            t,
            p: point_at(r.orig, r.dir, t),
            normal: vdivs(
                vsub(
                    point_at(r.orig, r.dir, t),
                    msphere_center(
                        ms.center0.m(),
                        ms.center1.m(),
                        ms.time0.val(),
                        ms.time1.val(),
                        r.time,
                    ),
                ),
                ms.radius.val(),
            ),
            material: ms.material,
        },
        Hitable::Triangle(tr) => HitM {
            t,
            p: point_at(r.orig, r.dir, t),
            normal: tr.normal_m(),
            material: tr.material_m(),
        },
        Hitable::Node(_) => arbitrary(),
    }
}

/// Is `t` strictly inside the open query window?
pub open spec fn in_window(t: int, tmin: int, tmax: int) -> bool {
    tmin < t && t < tmax
}

/// What an intersection query over the leaves `s` must return for the
/// window `(tmin, tmax)`: nothing when no leaf offers a candidate in the
/// window, else some leaf's record at the globally minimal such candidate.
pub open spec fn hit_post(s: Seq<Hitable>, r: RayM, tmin: int, tmax: int, res: Option<
    HitM,
>) -> bool {
    match res {
        None => forall|i: int, t: int|
            0 <= i < s.len() && #[trigger] atom_has_cand(s[i], r, t) ==> !in_window(t, tmin, tmax),
        Some(rec) => {
            &&& in_window(rec.t, tmin, tmax)
            &&& exists|i: int|
                0 <= i < s.len() && #[trigger] atom_has_cand(s[i], r, rec.t) && rec == atom_record(
                    s[i],
                    r,
                    rec.t,
                )
            &&& forall|i: int, t: int|
                0 <= i < s.len() && #[trigger] atom_has_cand(s[i], r, t) && in_window(
                    t,
                    tmin,
                    tmax,
                ) ==> rec.t <= t
        },
    }
}

/// What a single leaf primitive's own hit test must return.
pub open spec fn atom_hit_post(h: Hitable, r: RayM, tmin: int, tmax: int, res: Option<
    HitM,
>) -> bool {
    match res {
        None => forall|t: int| #[trigger] atom_has_cand(h, r, t) ==> !in_window(t, tmin, tmax),
        Some(rec) => {
            &&& in_window(rec.t, tmin, tmax)
            &&& atom_has_cand(h, r, rec.t)
            &&& rec == atom_record(h, r, rec.t)
            &&& forall|t: int|
                #[trigger] atom_has_cand(h, r, t) && in_window(t, tmin, tmax) ==> rec.t <= t
        },
    }
}

/// Every leaf beneath a primitive is a leaf kind.
pub proof fn lemma_atoms_are_atoms(h: Hitable)
    ensures
        forall|k: int| 0 <= k < atoms(h).len() ==> is_atom(#[trigger] atoms(h)[k]),
    decreases h,
{
    match h {
        Hitable::Node(n) => {
            lemma_atoms_are_atoms(*n.left);
            lemma_atoms_are_atoms(*n.right);
            let la = atoms(*n.left);
            let ra = atoms(*n.right);
            assert forall|k: int| 0 <= k < atoms(h).len() implies is_atom(
                #[trigger] atoms(h)[k],
            ) by {
                if k < la.len() {
                    assert(atoms(h)[k] == la[k]);
                } else {
                    assert(atoms(h)[k] == ra[k - la.len()]);
                }
            }
        },
        _ => {},
    }
}

/// In a well-formed tree, every leaf's box sits inside the tree's own box.
pub proof fn lemma_atoms_within(h: Hitable, k: int)
    requires
        wf(h),
        0 <= k < atoms(h).len(),
    ensures
        box_within(hbox(atoms(h)[k]), hbox(h)),
    decreases h,
{
    match h {
        Hitable::Node(n) => {
            let la = atoms(*n.left);
            if k < la.len() {
                lemma_atoms_within(*n.left, k);
            } else {
                lemma_atoms_within(*n.right, k - la.len());
            }
        },
        _ => {},
    }
}

/// Every candidate of a leaf primitive lies strictly inside its padded box:
/// the containment guard is part of the candidate definition.
pub proof fn lemma_cands_inside(h: Hitable, r: RayM, t: int)
    requires
        is_atom(h),
        atom_has_cand(h, r, t),
    ensures
        inside_box_at(hbox(h), r.orig, r.dir, t),
{
    reveal(cands);
    match h {
        Hitable::Sphere(s) => {
            crate::sphere::lemma_sphere_cands_inside(
                s.position.m(),
                s.radius.val(),
                sphere_box(s.position.m(), s.radius.val()),
                r.orig,
                r.dir,
                t,
            );
        },
        Hitable::MovingSphere(ms) => {
            let center = msphere_center(
                ms.center0.m(),
                ms.center1.m(),
                ms.time0.val(),
                ms.time1.val(),
                r.time,
            );
            let inst = sphere_box(center, ms.radius.val());
            let span = msphere_box(ms.center0.m(), ms.center1.m(), ms.radius.val());
            crate::sphere::lemma_sphere_cands_inside(
                center,
                ms.radius.val(),
                crate::sphere::msphere_filter_box(
                    ms.center0.m(),
                    ms.center1.m(),
                    ms.radius.val(),
                    ms.time0.val(),
                    ms.time1.val(),
                    r.time,
                ),
                r.orig,
                r.dir,
                t,
            );
            crate::aabb::lemma_inside_box_inter(inst, span, r.orig, r.dir, t);
        },
        Hitable::Triangle(tr) => {
            crate::triangle::lemma_tri_cands_inside(
                tr.v0_m(),
                tr.v1_m(),
                tr.v2_m(),
                r.orig,
                r.dir,
                t,
            );
        },
        Hitable::Node(_) => {},
    }
}

/// The record of a leaf primitive reports the ray point at its parameter.
pub proof fn lemma_atom_record_p(h: Hitable, r: RayM, t: int)
    requires
        is_atom(h),
    ensures
        atom_record(h, r, t).p == point_at(r.orig, r.dir, t),
        atom_record(h, r, t).t == t,
{
}

/// A leaf primitive's own contract gives the collection contract for the
/// singleton collection holding it.
pub proof fn lemma_atom_to_seq_post(h: Hitable, r: RayM, tmin: int, tmax: int, res: Option<HitM>)
    requires
        atom_hit_post(h, r, tmin, tmax, res),
    ensures
        hit_post(seq![h], r, tmin, tmax, res),
{
    let s = seq![h];
    assert(s[0] == h);
    match res {
        None => {
            assert forall|i: int, t: int|
                0 <= i < s.len() && #[trigger] atom_has_cand(s[i], r, t) implies !in_window(
                t,
                tmin,
                tmax,
            ) by {
                assert(s[i] == h);
            }
        },
        Some(rec) => {
            assert(atom_has_cand(s[0], r, rec.t) && rec == atom_record(s[0], r, rec.t));
            assert forall|i: int, t: int|
                0 <= i < s.len() && #[trigger] atom_has_cand(s[i], r, t) && in_window(
                    t,
                    tmin,
                    tmax,
                ) implies rec.t <= t by {
                assert(s[i] == h);
            }
        },
    }
}

/// Exactly which record a primitive's hit test returns: the per-kind first
/// accepted candidate for leaves; for a node, the better of the children's
/// results when the cached box passes the slab test, else nothing.
pub open spec fn hit_spec(h: Hitable, r: RayM, tmin: int, tmax: int) -> Option<HitM>
    decreases h,
{
    match h {
        Hitable::Sphere(s) => crate::sphere::sphere_first(
            s.position.m(),
            s.radius.val(),
            sphere_box(s.position.m(), s.radius.val()),
            s.material,
            r.orig,
            r.dir,
            tmin,
            tmax,
        ),
        Hitable::MovingSphere(ms) => crate::sphere::sphere_first(
            msphere_center(
                ms.center0.m(),
                ms.center1.m(),
                ms.time0.val(),
                ms.time1.val(),
                r.time,
            ),
            ms.radius.val(),
            crate::sphere::msphere_filter_box(
                ms.center0.m(),
                ms.center1.m(),
                ms.radius.val(),
                ms.time0.val(),
                ms.time1.val(),
                r.time,
            ),
            ms.material,
            r.orig,
            r.dir,
            tmin,
            tmax,
        ),
        Hitable::Triangle(t) => crate::triangle::tri_first(
            t.v0_m(),
            t.v1_m(),
            t.v2_m(),
            t.normal_m(),
            t.material_m(),
            r.orig,
            r.dir,
            tmin,
            tmax,
        ),
        Hitable::Node(n) => if crate::aabb::slab_hit(n.bb.m(), r.orig, r.dir, tmin, tmax) {
            better(hit_spec(*n.left, r, tmin, tmax), hit_spec(*n.right, r, tmin, tmax))
        } else {
            None
        },
    }
}

/// Motion blur changes only where the sphere is, not how it is hit:
/// whenever the padded box at the interpolated center lies within the
/// time-spanning box, a moving sphere's hit result equals that of a still
/// sphere standing at the interpolated center, record for record.  For a
/// ray time inside the sphere's own interval the hypothesis always holds;
/// `crate::sphere::lemma_msphere_filter_box_inshutter` discharges it.
pub proof fn lemma_moving_sphere_instantaneous(ms: MovingSphere, r: RayM, tmin: int, tmax: int)
    requires
        box_within(
            sphere_box(
                msphere_center(
                    ms.center0.m(),
                    ms.center1.m(),
                    ms.time0.val(),
                    ms.time1.val(),
                    r.time,
                ),
                ms.radius.val(),
            ),
            msphere_box(ms.center0.m(), ms.center1.m(), ms.radius.val()),
        ),
    ensures
        hit_spec(Hitable::MovingSphere(ms), r, tmin, tmax) == crate::sphere::sphere_first(
            msphere_center(
                ms.center0.m(),
                ms.center1.m(),
                ms.time0.val(),
                ms.time1.val(),
                r.time,
            ),
            ms.radius.val(),
            sphere_box(
                msphere_center(
                    ms.center0.m(),
                    ms.center1.m(),
                    ms.time0.val(),
                    ms.time1.val(),
                    r.time,
                ),
                ms.radius.val(),
            ),
            ms.material,
            r.orig,
            r.dir,
            tmin,
            tmax,
        ),
{
    let center = msphere_center(
        ms.center0.m(),
        ms.center1.m(),
        ms.time0.val(),
        ms.time1.val(),
        r.time,
    );
    let inst = sphere_box(center, ms.radius.val());
    let span = msphere_box(ms.center0.m(), ms.center1.m(), ms.radius.val());
    let r1 = crate::sphere::sphere_r1(center, ms.radius.val(), r.orig, r.dir);
    let r2 = crate::sphere::sphere_r2(center, ms.radius.val(), r.orig, r.dir);
    crate::aabb::lemma_inside_box_inter(inst, span, r.orig, r.dir, r1);
    crate::aabb::lemma_inside_box_inter(inst, span, r.orig, r.dir, r2);
    if inside_box_at(inst, r.orig, r.dir, r1) {
        crate::aabb::lemma_inside_box_monotone(inst, span, r.orig, r.dir, r1);
    }
    if inside_box_at(inst, r.orig, r.dir, r2) {
        crate::aabb::lemma_inside_box_monotone(inst, span, r.orig, r.dir, r2);
    }
}

impl Hitable {
    /// The padded bounding box of this primitive.
    pub fn bounding_box(&self, t0: Fixed, t1: Fixed) -> (r: AABB)
        ensures
            r.m() == hbox(*self),
    {
        match self {
            Hitable::Sphere(s) => s.bounding_box(t0, t1),
            Hitable::MovingSphere(ms) => ms.bounding_box(t0, t1),
            Hitable::Triangle(t) => t.bounding_box(t0, t1),
            Hitable::Node(n) => n.bb,
        }
    }

    /// The nearest intersection among the leaves of this primitive strictly
    /// inside the open window, if any.
    pub fn hit(&self, r: &Ray, t_min: Fixed, t_max: Fixed) -> (res: Option<HitRecord>)
        requires
            wf(*self),
        ensures
            hit_post(atoms(*self), r.m(), t_min.val(), t_max.val(), om(res)),
            om(res) == hit_spec(*self, r.m(), t_min.val(), t_max.val()),
        decreases *self,
    {
        match self {
            Hitable::Sphere(s) => {
                let res = s.hit(r, t_min, t_max);
                proof {
                    lemma_atom_to_seq_post(*self, r.m(), t_min.val(), t_max.val(), om(res));
                }
                res
            },
            Hitable::MovingSphere(ms) => {
                let res = ms.hit(r, t_min, t_max);
                proof {
                    lemma_atom_to_seq_post(*self, r.m(), t_min.val(), t_max.val(), om(res));
                }
                res
            },
            Hitable::Triangle(t) => {
                let res = t.hit(r, t_min, t_max);
                proof {
                    lemma_atom_to_seq_post(*self, r.m(), t_min.val(), t_max.val(), om(res));
                }
                res
            },
            Hitable::Node(n) => n.hit(r, t_min, t_max),
        }
    }
}

/// The preferred result of two sub-queries over the same window: the one
/// with the smaller parameter, the right one on a tie.
pub open spec fn better(a: Option<HitM>, b: Option<HitM>) -> Option<HitM> {
    match (a, b) {
        (Some(x), Some(y)) => if x.t < y.t {
            Some(x)
        } else {
            Some(y)
        },
        (Some(x), None) => Some(x),
        (None, y) => y,
    }
}

/// Combining two collections queried over the same window: the better of
/// their two results answers for the concatenation.
pub proof fn lemma_hit_post_concat(
    s1: Seq<Hitable>,
    s2: Seq<Hitable>,
    r: RayM,
    tmin: int,
    tmax: int,
    r1: Option<HitM>,
    r2: Option<HitM>,
)
    requires
        hit_post(s1, r, tmin, tmax, r1),
        hit_post(s2, r, tmin, tmax, r2),
    ensures
        hit_post(s1 + s2, r, tmin, tmax, better(r1, r2)),
{
    let s = s1 + s2;
    assert forall|i: int| 0 <= i < s.len() implies (if i < s1.len() {
        s[i] == s1[i]
    } else {
        s[i] == s2[i - s1.len()]
    }) by {}
    match better(r1, r2) {
        None => {
            assert forall|i: int, t: int|
                0 <= i < s.len() && #[trigger] atom_has_cand(s[i], r, t) implies !in_window(
                t,
                tmin,
                tmax,
            ) by {
                if i < s1.len() {
                    assert(atom_has_cand(s1[i], r, t));
                } else {
                    assert(atom_has_cand(s2[i - s1.len()], r, t));
                }
            }
        },
        Some(rec) => {
            assert(in_window(rec.t, tmin, tmax));
            if r1 is Some && rec == r1->0 {
                let x = r1->0;
                let i = choose|i: int|
                    0 <= i < s1.len() && #[trigger] atom_has_cand(s1[i], r, x.t) && x
                        == atom_record(s1[i], r, x.t);
                assert(atom_has_cand(s[i], r, rec.t) && rec == atom_record(s[i], r, rec.t));
            } else {
                let y = r2->0;
                let i = choose|i: int|
                    0 <= i < s2.len() && #[trigger] atom_has_cand(s2[i], r, y.t) && y
                        == atom_record(s2[i], r, y.t);
                assert(s[s1.len() + i] == s2[i]);
                assert(atom_has_cand(s[s1.len() + i], r, rec.t) && rec == atom_record(
                    s[s1.len() + i],
                    r,
                    rec.t,
                ));
            }
            assert forall|i: int, t: int|
                0 <= i < s.len() && #[trigger] atom_has_cand(s[i], r, t) && in_window(
                    t,
                    tmin,
                    tmax,
                ) implies rec.t <= t by {
                if i < s1.len() {
                    assert(atom_has_cand(s1[i], r, t));
                } else {
                    assert(atom_has_cand(s2[i - s1.len()], r, t));
                }
            }
        },
    }
}

/// Scanning one more collection with the window clamped to the best
/// parameter so far: the scan invariant of the exhaustive list.  The new
/// collection is queried over `(tmin, cw)` where `cw` is the current best
/// parameter (or the full upper bound when nothing was found yet); its
/// result, if any, supersedes the current one.
#[verifier::rlimit(60)]
pub proof fn lemma_hit_post_extend(
    s: Seq<Hitable>,
    more: Seq<Hitable>,
    r: RayM,
    tmin: int,
    tmax: int,
    cur: Option<HitM>,
    res: Option<HitM>,
)
    requires
        hit_post(s, r, tmin, tmax, cur),
        hit_post(
            more,
            r,
            tmin,
            match cur {
                Some(rec) => rec.t,
                None => tmax,
            },
            res,
        ),
    ensures
        hit_post(
            s + more,
            r,
            tmin,
            tmax,
            match res {
                Some(x) => Some(x),
                None => cur,
            },
        ),
{
    let cw = match cur {
        Some(rec) => rec.t,
        None => tmax,
    };
    let all = s + more;
    assert forall|i: int| 0 <= i < all.len() implies (if i < s.len() {
        all[i] == s[i]
    } else {
        all[i] == more[i - s.len()]
    }) by {}
    match res {
        Some(x) => {
            assert(in_window(x.t, tmin, cw));
            assert(in_window(x.t, tmin, tmax));
            let i = choose|i: int|
                0 <= i < more.len() && #[trigger] atom_has_cand(more[i], r, x.t) && x
                    == atom_record(more[i], r, x.t);
            assert(atom_has_cand(all[s.len() + i], r, x.t) && x == atom_record(
                all[s.len() + i],
                r,
                x.t,
            ));
            assert forall|i: int, t: int|
                0 <= i < all.len() && #[trigger] atom_has_cand(all[i], r, t) && in_window(
                    t,
                    tmin,
                    tmax,
                ) implies x.t <= t by {
                if i < s.len() {
                    assert(atom_has_cand(s[i], r, t));
                    match cur {
                        Some(rec) => {
                            assert(rec.t <= t);
                        },
                        None => {},
                    }
                } else {
                    assert(atom_has_cand(more[i - s.len()], r, t));
                    if in_window(t, tmin, cw) {
                    } else {
                        assert(t >= cw);
                    }
                }
            }
        },
        None => {
            match cur {
                Some(rec) => {
                    let i = choose|i: int|
                        0 <= i < s.len() && #[trigger] atom_has_cand(s[i], r, rec.t) && rec
                            == atom_record(s[i], r, rec.t);
                    assert(atom_has_cand(all[i], r, rec.t) && rec == atom_record(all[i], r, rec.t));
                    assert forall|i: int, t: int|
                        0 <= i < all.len() && #[trigger] atom_has_cand(all[i], r, t) && in_window(
                            t,
                            tmin,
                            tmax,
                        ) implies rec.t <= t by {
                        if i < s.len() {
                            assert(atom_has_cand(s[i], r, t));
                        } else {
                            assert(atom_has_cand(more[i - s.len()], r, t));
                            assert(!in_window(t, tmin, rec.t));
                        }
                    }
                },
                None => {
                    assert forall|i: int, t: int|
                        0 <= i < all.len() && #[trigger] atom_has_cand(all[i], r, t) implies
                        !in_window(t, tmin, tmax) by {
                        if i < s.len() {
                            assert(atom_has_cand(s[i], r, t));
                        } else {
                            assert(atom_has_cand(more[i - s.len()], r, t));
                        }
                    }
                },
            }
        },
    }
}

/// Appending one primitive to a collection appends its leaves.
pub proof fn lemma_atoms_of_seq_push(s: Seq<Hitable>, h: Hitable)
    ensures
        atoms_of_seq(s.push(h)) == atoms_of_seq(s) + atoms(h),
    decreases s.len(),
{
    if s.len() == 0 {
        assert(s.push(h)[0] == h);
        assert(s.push(h).drop_first() =~= Seq::<Hitable>::empty());
        assert(atoms_of_seq(s.push(h)) == atoms(h) + atoms_of_seq(Seq::empty()));
        assert(atoms(h) + Seq::<Hitable>::empty() =~= atoms(h));
        assert(atoms_of_seq(s) + atoms(h) =~= atoms(h));
    } else {
        assert(s.push(h).drop_first() =~= s.drop_first().push(h));
        lemma_atoms_of_seq_push(s.drop_first(), h);
        assert(atoms_of_seq(s.push(h)) == atoms(s[0]) + (atoms_of_seq(s.drop_first()) + atoms(h)));
        assert(atoms(s[0]) + (atoms_of_seq(s.drop_first()) + atoms(h)) =~= (atoms(s[0])
            + atoms_of_seq(s.drop_first())) + atoms(h));
    }
}

/// Flattening distributes over concatenation.
pub proof fn lemma_atoms_of_seq_concat(s1: Seq<Hitable>, s2: Seq<Hitable>)
    ensures
        atoms_of_seq(s1 + s2) == atoms_of_seq(s1) + atoms_of_seq(s2),
    decreases s1.len(),
{
    if s1.len() == 0 {
        assert(s1 + s2 =~= s2);
        assert(atoms_of_seq(s1) + atoms_of_seq(s2) =~= atoms_of_seq(s2));
    } else {
        assert((s1 + s2)[0] == s1[0]);
        assert((s1 + s2).drop_first() =~= s1.drop_first() + s2);
        lemma_atoms_of_seq_concat(s1.drop_first(), s2);
        assert(atoms(s1[0]) + (atoms_of_seq(s1.drop_first()) + atoms_of_seq(s2)) =~= (atoms(s1[0])
            + atoms_of_seq(s1.drop_first())) + atoms_of_seq(s2));
    }
}

/// A leaf appears beneath a collection exactly when it appears beneath one
/// of the collection's members.
pub proof fn lemma_atoms_of_seq_member(s: Seq<Hitable>, x: Hitable)
    ensures
        atoms_of_seq(s).contains(x) <==> exists|i: int|
            0 <= i < s.len() && #[trigger] atoms(s[i]).contains(x),
    decreases s.len(),
{
    broadcast use vstd::seq_lib::lemma_seq_concat_contains_all_elements;

    if s.len() == 0 {
    } else {
        lemma_atoms_of_seq_member(s.drop_first(), x);
        if atoms_of_seq(s).contains(x) {
            if atoms(s[0]).contains(x) {
                assert(atoms(s[0]).contains(x));
            } else {
                let i = choose|i: int|
                    0 <= i < s.drop_first().len() && #[trigger] atoms(
                        s.drop_first()[i],
                    ).contains(x);
                assert(s.drop_first()[i] == s[i + 1]);
                assert(atoms(s[i + 1]).contains(x));
            }
        }
        if exists|i: int| 0 <= i < s.len() && #[trigger] atoms(s[i]).contains(x) {
            let i = choose|i: int| 0 <= i < s.len() && #[trigger] atoms(s[i]).contains(x);
            if i == 0 {
                assert(atoms_of_seq(s).contains(x));
            } else {
                assert(s.drop_first()[i - 1] == s[i]);
                assert(atoms_of_seq(s.drop_first()).contains(x));
            }
        }
    }
}

/// Every leaf beneath a collection is a leaf kind.
pub proof fn lemma_atoms_of_seq_are_atoms(s: Seq<Hitable>)
    ensures
        forall|k: int| 0 <= k < atoms_of_seq(s).len() ==> is_atom(#[trigger] atoms_of_seq(s)[k]),
    decreases s.len(),
{
    if s.len() == 0 {
    } else {
        lemma_atoms_are_atoms(s[0]);
        lemma_atoms_of_seq_are_atoms(s.drop_first());
        let head = atoms(s[0]);
        let rest = atoms_of_seq(s.drop_first());
        assert forall|k: int| 0 <= k < atoms_of_seq(s).len() implies is_atom(
            #[trigger] atoms_of_seq(s)[k],
        ) by {
            if k < head.len() {
                assert(atoms_of_seq(s)[k] == head[k]);
            } else {
                assert(atoms_of_seq(s)[k] == rest[k - head.len()]);
            }
        }
    }
}

/// Leaf coverage with the duplication the build's single-primitive leaves
/// introduce: every leaf appears at least as often as in the input and at
/// most twice as often.
pub open spec fn covers_bounded(
    tree: vstd::multiset::Multiset<Hitable>,
    input: vstd::multiset::Multiset<Hitable>,
) -> bool {
    forall|x: Hitable| input.count(x) <= #[trigger] tree.count(x) <= 2 * input.count(x)
}

/// Exact coverage is bounded coverage.
pub proof fn lemma_covers_bounded_refl(a: vstd::multiset::Multiset<Hitable>)
    ensures
        covers_bounded(a, a),
{
}

/// Doubled coverage is bounded coverage.
pub proof fn lemma_covers_bounded_dup(a: vstd::multiset::Multiset<Hitable>)
    ensures
        covers_bounded(a.add(a), a),
{
    broadcast use vstd::multiset::group_multiset_axioms;

}

/// Bounded coverage is preserved by joining two collections.
pub proof fn lemma_covers_bounded_add(
    t1: vstd::multiset::Multiset<Hitable>,
    i1: vstd::multiset::Multiset<Hitable>,
    t2: vstd::multiset::Multiset<Hitable>,
    i2: vstd::multiset::Multiset<Hitable>,
)
    requires
        covers_bounded(t1, i1),
        covers_bounded(t2, i2),
    ensures
        covers_bounded(t1.add(t2), i1.add(i2)),
{
    broadcast use vstd::multiset::group_multiset_axioms;

    assert forall|x: Hitable|
        i1.add(i2).count(x) <= #[trigger] t1.add(t2).count(x) <= 2 * i1.add(i2).count(x) by {
        assert(i1.count(x) <= t1.count(x) <= 2 * i1.count(x));
        assert(i2.count(x) <= t2.count(x) <= 2 * i2.count(x));
    }
}

/// An empty collection holds no leaves.
pub proof fn lemma_atoms_of_seq_empty()
    ensures
        atoms_of_seq(Seq::<Hitable>::empty()).to_multiset() =~= vstd::multiset::Multiset::<
            Hitable,
        >::empty(),
{
    broadcast use vstd::seq_lib::group_to_multiset_ensures;
    broadcast use vstd::multiset::group_multiset_axioms;

    assert(atoms_of_seq(Seq::<Hitable>::empty()).len() == 0);
    assert(atoms_of_seq(Seq::<Hitable>::empty()).to_multiset().len() == 0);
}

/// Taking one member out of a collection takes exactly its leaves out of
/// the collection's leaf multiset.
pub proof fn lemma_atoms_of_seq_remove(s: Seq<Hitable>, j: int)
    requires
        0 <= j < s.len(),
    ensures
        atoms_of_seq(s).to_multiset() =~= atoms(s[j]).to_multiset().add(
            atoms_of_seq(s.remove(j)).to_multiset(),
        ),
{
    broadcast use vstd::multiset::group_multiset_axioms;

    let pre = s.subrange(0, j);
    let mid = s.subrange(j, s.len() as int);
    let post = s.subrange(j + 1, s.len() as int);
    assert(s =~= pre + mid);
    lemma_atoms_of_seq_concat(pre, mid);
    assert(mid[0] == s[j]);
    assert(mid.drop_first() =~= post);
    assert(atoms_of_seq(mid) == atoms(s[j]) + atoms_of_seq(post));
    assert(s.remove(j) =~= pre + post);
    lemma_atoms_of_seq_concat(pre, post);
    vstd::seq_lib::lemma_multiset_commutative(atoms_of_seq(pre), atoms_of_seq(mid));
    vstd::seq_lib::lemma_multiset_commutative(atoms(s[j]), atoms_of_seq(post));
    vstd::seq_lib::lemma_multiset_commutative(atoms_of_seq(pre), atoms_of_seq(post));
}

/// Collections with equal element multisets have equal leaf multisets.
pub proof fn lemma_atoms_of_seq_multiset(s1: Seq<Hitable>, s2: Seq<Hitable>)
    requires
        s1.to_multiset() == s2.to_multiset(),
    ensures
        atoms_of_seq(s1).to_multiset() == atoms_of_seq(s2).to_multiset(),
    decreases s1.len(),
{
    broadcast use vstd::seq_lib::group_to_multiset_ensures;
    broadcast use vstd::multiset::group_multiset_axioms;

    if s1.len() == 0 {
        assert(s2.len() == s1.to_multiset().len());
        assert(s1 =~= Seq::<Hitable>::empty());
        assert(s2 =~= Seq::<Hitable>::empty());
    } else {
        let e = s1[0];
        assert(s1.contains(e));
        assert(s1.to_multiset().count(e) > 0);
        assert(s2.to_multiset().count(e) > 0);
        assert(s2.contains(e));
        let j = choose|j: int| 0 <= j < s2.len() && s2[j] == e;
        assert(s1.remove(0).to_multiset() == s1.to_multiset().remove(e));
        assert(s2.remove(j).to_multiset() == s2.to_multiset().remove(e));
        lemma_atoms_of_seq_multiset(s1.remove(0), s2.remove(j));
        lemma_atoms_of_seq_remove(s1, 0);
        lemma_atoms_of_seq_remove(s2, j);
        assert(atoms_of_seq(s1).to_multiset() =~= atoms_of_seq(s2).to_multiset());
    }
}

/// A multiset-equal reordering of one element is that element; of two
/// elements, one of the two orders.
pub proof fn lemma_multiset_reorder_small(s1: Seq<Hitable>, s2: Seq<Hitable>)
    requires
        s1.to_multiset() == s2.to_multiset(),
    ensures
        s1.len() == s2.len(),
        s1.len() == 1 ==> s2 =~= s1,
        s1.len() == 2 ==> (s2 =~= s1 || s2 =~= seq![s1[1], s1[0]]),
{
    broadcast use vstd::seq_lib::group_to_multiset_ensures;

    assert(s1.len() == s1.to_multiset().len());
    assert(s2.len() == s2.to_multiset().len());
    if s1.len() == 1 {
        assert(s1.contains(s1[0]));
        assert(s1.to_multiset().count(s1[0]) > 0);
        assert(s2.to_multiset().count(s1[0]) > 0);
        assert(s2.contains(s1[0]));
        let j = choose|j: int| 0 <= j < s2.len() && s2[j] == s1[0];
        assert(s2[0] == s1[0]);
    } else if s1.len() == 2 {
        let e0 = s1[0];
        let e1 = s1[1];
        assert(s1.contains(e0));
        assert(s1.to_multiset().count(e0) > 0);
        assert(s2.to_multiset().count(e0) > 0);
        assert(s2.contains(e0));
        let j0 = choose|j: int| 0 <= j < s2.len() && s2[j] == e0;
        let s2r = s2.remove(j0);
        assert(s2.remove(j0).to_multiset() == s2.to_multiset().remove(e0));
        assert(s1.remove(0).to_multiset() == s1.to_multiset().remove(e0));
        assert(s1.remove(0) =~= seq![e1]);
        assert(seq![e1].contains(e1));
        assert(seq![e1].to_multiset().count(e1) > 0);
        assert(s2r.to_multiset().count(e1) > 0);
        assert(s2r.contains(e1));
        assert(s2r.len() == 1);
        let k = choose|k: int| 0 <= k < s2r.len() && s2r[k] == e1;
        assert(s2r[0] == e1);
        if j0 == 0 {
            assert(s2r[0] == s2[1]);
            assert(s2 =~= s1);
        } else {
            assert(s2r[0] == s2[0]);
            assert(s2 =~= seq![e1, e0]);
        }
    }
}

/// Collections with equal element multisets hold the same leaves.
pub proof fn lemma_atoms_of_seq_same_set(s1: Seq<Hitable>, s2: Seq<Hitable>)
    requires
        s1.to_multiset() == s2.to_multiset(),
    ensures
        forall|x: Hitable|
            #[trigger] atoms_of_seq(s1).contains(x) <==> atoms_of_seq(s2).contains(x),
{
    broadcast use vstd::seq_lib::group_to_multiset_ensures;

    assert forall|x: Hitable| #[trigger]
        atoms_of_seq(s1).contains(x) <==> atoms_of_seq(s2).contains(x) by {
        lemma_atoms_of_seq_member(s1, x);
        lemma_atoms_of_seq_member(s2, x);
        if atoms_of_seq(s1).contains(x) {
            let i = choose|i: int| 0 <= i < s1.len() && #[trigger] atoms(s1[i]).contains(x);
            assert(s1.contains(s1[i]));
            assert(s1.to_multiset().count(s1[i]) > 0);
            assert(s2.to_multiset().count(s1[i]) > 0);
            assert(s2.contains(s1[i]));
            let j = choose|j: int| 0 <= j < s2.len() && s2[j] == s1[i];
            assert(atoms(s2[j]).contains(x));
        }
        if atoms_of_seq(s2).contains(x) {
            let i = choose|i: int| 0 <= i < s2.len() && #[trigger] atoms(s2[i]).contains(x);
            assert(s2.contains(s2[i]));
            assert(s2.to_multiset().count(s2[i]) > 0);
            assert(s1.to_multiset().count(s2[i]) > 0);
            assert(s1.contains(s2[i]));
            let j = choose|j: int| 0 <= j < s1.len() && s1[j] == s2[i];
            assert(atoms(s1[j]).contains(x));
        }
    }
}

/// Two collections holding the same leaves (as sets) and both meeting the
/// nearest-hit contract over one window agree: both miss, or both report
/// the same parameter and the same hit point.  This is the equivalence that
/// lets an acceleration structure stand in for the exhaustive scan.
pub proof fn lemma_nearest_hit_agrees(
    s1: Seq<Hitable>,
    s2: Seq<Hitable>,
    r: RayM,
    tmin: int,
    tmax: int,
    r1: Option<HitM>,
    r2: Option<HitM>,
)
    requires
        hit_post(s1, r, tmin, tmax, r1),
        hit_post(s2, r, tmin, tmax, r2),
        forall|h: Hitable| #[trigger] s1.contains(h) ==> s2.contains(h),
        forall|h: Hitable| #[trigger] s2.contains(h) ==> s1.contains(h),
        forall|k: int| 0 <= k < s1.len() ==> is_atom(#[trigger] s1[k]),
    ensures
        r1 is Some <==> r2 is Some,
        r1 matches Some(a) ==> r2 matches Some(b) && a.t == b.t && a.p == b.p,
{
    match (r1, r2) {
        (Some(a), Some(b)) => {
            let i1 = choose|i: int|
                0 <= i < s1.len() && #[trigger] atom_has_cand(s1[i], r, a.t) && a == atom_record(
                    s1[i],
                    r,
                    a.t,
                );
            let i2 = choose|i: int|
                0 <= i < s2.len() && #[trigger] atom_has_cand(s2[i], r, b.t) && b == atom_record(
                    s2[i],
                    r,
                    b.t,
                );
            assert(s1.contains(s1[i1]));
            assert(s2.contains(s1[i1]));
            let j2 = choose|j: int| 0 <= j < s2.len() && s2[j] == s1[i1];
            assert(atom_has_cand(s2[j2], r, a.t));
            assert(b.t <= a.t);
            assert(s2.contains(s2[i2]));
            assert(s1.contains(s2[i2]));
            let j1 = choose|j: int| 0 <= j < s1.len() && s1[j] == s2[i2];
            assert(atom_has_cand(s1[j1], r, b.t));
            assert(a.t <= b.t);
            assert(a.t == b.t);
            lemma_atom_record_p(s1[i1], r, a.t);
            lemma_atom_record_p(s1[j1], r, b.t);
            assert(a.p == point_at(r.orig, r.dir, a.t));
            assert(b.p == point_at(r.orig, r.dir, b.t));
        },
        (Some(a), None) => {
            let i1 = choose|i: int|
                0 <= i < s1.len() && #[trigger] atom_has_cand(s1[i], r, a.t) && a == atom_record(
                    s1[i],
                    r,
                    a.t,
                );
            assert(s1.contains(s1[i1]));
            assert(s2.contains(s1[i1]));
            let j2 = choose|j: int| 0 <= j < s2.len() && s2[j] == s1[i1];
            assert(atom_has_cand(s2[j2], r, a.t));
            assert(false);
        },
        (None, Some(b)) => {
            let i2 = choose|i: int|
                0 <= i < s2.len() && #[trigger] atom_has_cand(s2[i], r, b.t) && b == atom_record(
                    s2[i],
                    r,
                    b.t,
                );
            assert(s2.contains(s2[i2]));
            assert(s1.contains(s2[i2]));
            let j1 = choose|j: int| 0 <= j < s1.len() && s1[j] == s2[i2];
            assert(atom_has_cand(s1[j1], r, b.t));
            assert(false);
        },
        (None, None) => {},
    }
}

} // verus!
