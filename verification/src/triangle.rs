//! Triangles with a precomputed face normal.

use vstd::prelude::*;

use crate::aabb::inside_box_at;
use crate::aabb::BoxM;
use crate::aabb::AABB;
use crate::fixed::add_v;
use crate::fixed::div_v;
use crate::fixed::sub_v;
use crate::fixed::Fixed;
use crate::fixed::SCALE;
use crate::hitable::atom_hit_post;
use crate::hitable::om;
use crate::hitable::HitRecord;
use crate::hitable::Hitable;
use crate::material::Material;
use crate::ray::Ray;
use crate::sphere::PAD;
use crate::vector::vcross;
use crate::vector::vdot;
use crate::vector::vsub;
use crate::vector::V3;
use crate::vector::Vec3;

verus! {

/// The smaller of two raw values.
pub open spec fn imin(a: int, b: int) -> int {
    if a <= b {
        a
    } else {
        b
    }
}

/// The larger of two raw values.
pub open spec fn imax(a: int, b: int) -> int {
    if a >= b {
        a
    } else {
        b
    }
}

/// The padded box around a triangle: the componentwise extent of its three
/// vertices, widened by the padding so the box never has zero thickness.
pub open spec fn tri_box(v0: V3, v1: V3, v2: V3) -> BoxM {
    BoxM {
        min: V3 {
            x: sub_v(imin(imin(v0.x, v1.x), v2.x), PAD as int),
            y: sub_v(imin(imin(v0.y, v1.y), v2.y), PAD as int),
            z: sub_v(imin(imin(v0.z, v1.z), v2.z), PAD as int),
        },
        max: V3 {
            x: add_v(imax(imax(v0.x, v1.x), v2.x), PAD as int),
            y: add_v(imax(imax(v0.y, v1.y), v2.y), PAD as int),
            z: add_v(imax(imax(v0.z, v1.z), v2.z), PAD as int),
        },
    }
}

/// The determinant of the Moeller-Trumbore system: the first edge dotted
/// with the cross of direction and second edge.
pub open spec fn tri_det(v0: V3, v1: V3, v2: V3, dir: V3) -> int {
    vdot(vsub(v1, v0), vcross(dir, vsub(v2, v0)))
}

/// The first barycentric coordinate.
pub open spec fn tri_u(v0: V3, v1: V3, v2: V3, orig: V3, dir: V3) -> int {
    div_v(vdot(vsub(orig, v0), vcross(dir, vsub(v2, v0))), tri_det(v0, v1, v2, dir))
}

/// The second barycentric coordinate.
pub open spec fn tri_v(v0: V3, v1: V3, v2: V3, orig: V3, dir: V3) -> int {
    div_v(vdot(dir, vcross(vsub(orig, v0), vsub(v1, v0))), tri_det(v0, v1, v2, dir))
}

/// The candidate ray parameter of the plane crossing.
pub open spec fn tri_t(v0: V3, v1: V3, v2: V3, orig: V3, dir: V3) -> int {
    div_v(vdot(vsub(v2, v0), vcross(vsub(orig, v0), vsub(v1, v0))), tri_det(v0, v1, v2, dir))
}

/// Does the crossing count as a hit?  The ray must not be parallel (zero
/// determinant), the barycentric coordinates must stay in the unit region,
/// and the exact ray point must lie strictly inside the padded box.
pub open spec fn tri_accepts(v0: V3, v1: V3, v2: V3, orig: V3, dir: V3) -> bool {
    let u = tri_u(v0, v1, v2, orig, dir);
    let v = tri_v(v0, v1, v2, orig, dir);
    &&& tri_det(v0, v1, v2, dir) != 0
    &&& 0 <= u <= SCALE
    &&& 0 <= v
    &&& add_v(u, v) <= SCALE
    &&& inside_box_at(tri_box(v0, v1, v2), orig, dir, tri_t(v0, v1, v2, orig, dir))
}

/// The candidate hit parameters of a triangle against a ray, following the
/// Moeller-Trumbore edge construction, but with each barycentric quantity
/// divided directly by the determinant (fixed-point arithmetic would lose
/// the determinant's reciprocal to rounding).
pub open spec fn tri_cands(v0: V3, v1: V3, v2: V3, orig: V3, dir: V3) -> Seq<int> {
    if tri_accepts(v0, v1, v2, orig, dir) {
        seq![tri_t(v0, v1, v2, orig, dir)]
    } else {
        Seq::empty()
    }
}

/// Exactly which record the triangle hit test returns: the single crossing
/// when it is accepted and lies in the window, else nothing.
pub open spec fn tri_first(
    v0: V3,
    v1: V3,
    v2: V3,
    normal: V3,
    material: Material,
    orig: V3,
    dir: V3,
    tmin: int,
    tmax: int,
) -> Option<crate::hitable::HitM> {
    let t = tri_t(v0, v1, v2, orig, dir);
    if tri_accepts(v0, v1, v2, orig, dir) && tmin < t && t < tmax {
        Some(
            crate::hitable::HitM {
                t,
                p: crate::ray::point_at(orig, dir, t),
                normal,
                material,
            },
        )
    } else {
        None
    }
}

/// Membership in the triangle's candidate set, characterized.
pub proof fn lemma_tri_cands_character(v0: V3, v1: V3, v2: V3, orig: V3, dir: V3)
    ensures
        forall|t: int|
            #[trigger] tri_cands(v0, v1, v2, orig, dir).contains(t) <==> (tri_accepts(
                v0,
                v1,
                v2,
                orig,
                dir,
            ) && t == tri_t(v0, v1, v2, orig, dir)),
{
    let cs = tri_cands(v0, v1, v2, orig, dir);
    if tri_accepts(v0, v1, v2, orig, dir) {
        let tt = tri_t(v0, v1, v2, orig, dir);
        assert(cs[0] == tt);
        assert(cs.contains(tt));
        assert forall|t: int| #[trigger] cs.contains(t) implies t == tt by {
            let j = choose|j: int| 0 <= j < cs.len() && cs[j] == t;
        }
    } else {
        assert(cs.len() == 0);
        assert(forall|t: int| !#[trigger] cs.contains(t));
    }
}

/// Every triangle candidate passed the strict containment guard against
/// the triangle's padded box.
pub proof fn lemma_tri_cands_inside(v0: V3, v1: V3, v2: V3, orig: V3, dir: V3, t: int)
    requires
        tri_cands(v0, v1, v2, orig, dir).contains(t),
    ensures
        inside_box_at(tri_box(v0, v1, v2), orig, dir, t),
{
    lemma_tri_cands_character(v0, v1, v2, orig, dir);
}

/// A triangle; the face normal is fixed at construction.
#[derive(Clone, Copy, Debug, PartialEq, Eq, Structural)]
pub struct Triangle {
    v0: Vec3,
    v1: Vec3,
    v2: Vec3,
    normal: Vec3,
    material: Material,
}

impl Triangle {
    /// First vertex.
    pub closed spec fn v0_m(self) -> V3 {
        self.v0.m()
    }

    /// Second vertex.
    pub closed spec fn v1_m(self) -> V3 {
        self.v1.m()
    }

    /// Third vertex.
    pub closed spec fn v2_m(self) -> V3 {
        self.v2.m()
    }

    /// The stored face normal.
    pub closed spec fn normal_m(self) -> V3 {
        self.normal.m()
    }

    /// The attached material.
    pub closed spec fn material_m(self) -> Material {
        self.material
    }

    /// Build a triangle; the normal is the cross product of the two edges
    /// leaving the first vertex.
    pub fn new(v0: Vec3, v1: Vec3, v2: Vec3, material: Material) -> (r: Triangle)
        ensures
            r.v0_m() == v0.m(),
            r.v1_m() == v1.m(),
            r.v2_m() == v2.m(),
            r.normal_m() == vcross(vsub(v1.m(), v0.m()), vsub(v2.m(), v0.m())),
            r.material_m() == material,
    {
        let u = v1.sub(v0);
        let v = v2.sub(v0);
        let normal = Vec3::new(
            u.y().mul(v.z()).sub(u.z().mul(v.y())),
            u.z().mul(v.x()).sub(u.x().mul(v.z())),
            u.x().mul(v.y()).sub(u.y().mul(v.x())),
        );
        proof {
            assert(normal.m() == vcross(u.m(), v.m()));
        }
        Triangle { v0, v1, v2, normal, material }
    }

    /// The stored face normal.
    pub fn normal(&self) -> (r: Vec3)
        ensures
            r.m() == self.normal_m(),
    {
        self.normal
    }

    /// First vertex.
    pub fn v0(&self) -> (r: Vec3)
        ensures
            r.m() == self.v0_m(),
    {
        self.v0
    }

    /// Second vertex.
    pub fn v1(&self) -> (r: Vec3)
        ensures
            r.m() == self.v1_m(),
    {
        self.v1
    }

    /// Third vertex.
    pub fn v2(&self) -> (r: Vec3)
        ensures
            r.m() == self.v2_m(),
    {
        self.v2
    }

    /// The nearest intersection with this triangle strictly inside the open
    /// window, if any.
    pub fn hit(&self, r: &Ray, t_min: Fixed, t_max: Fixed) -> (res: Option<HitRecord>)
        ensures
            atom_hit_post(Hitable::Triangle(*self), r.m(), t_min.val(), t_max.val(), om(res)),
            om(res) == tri_first(
                self.v0_m(),
                self.v1_m(),
                self.v2_m(),
                self.normal_m(),
                self.material_m(),
                r.m().orig,
                r.m().dir,
                t_min.val(),
                t_max.val(),
            ),
    {
        let ghost rm = r.m();
        proof {
            reveal(crate::hitable::cands);
            lemma_tri_cands_character(self.v0.m(), self.v1.m(), self.v2.m(), rm.orig, rm.dir);
        }
        let zero = Fixed::zero();
        let one = Fixed::one();
        let edge1 = self.v1.sub(self.v0);
        let edge2 = self.v2.sub(self.v0);
        let h = r.direction().cross(&edge2);
        let a = edge1.dot(&h);
        if a.is_zero() {
            return None;
        }
        let s = r.origin().sub(self.v0);
        let u = s.dot(&h).div(a);
        if u.lt(zero) || one.lt(u) {
            return None;
        }
        let q = s.cross(&edge1);
        let v = r.direction().dot(&q).div(a);
        if v.lt(zero) || one.lt(u.add(v)) {
            return None;
        }
        let t = edge2.dot(&q).div(a);
        proof {
            assert(t.val() == tri_t(self.v0.m(), self.v1.m(), self.v2.m(), rm.orig, rm.dir));
        }
        let bbox = self.bounding_box(t_min, t_max);
        if t_min.lt(t) && t.lt(t_max) && bbox.contains_at(r, t) {
            let p = r.point_at_t(t);
            let res = HitRecord { t, p, normal: self.normal, material: self.material };
            proof {
                let v0m = self.v0.m();
                let v1m = self.v1.m();
                let v2m = self.v2.m();
                assert(tri_accepts(v0m, v1m, v2m, rm.orig, rm.dir));
                assert(tri_cands(v0m, v1m, v2m, rm.orig, rm.dir).contains(t.val()));
                assert(res.m() == crate::hitable::atom_record(
                    Hitable::Triangle(*self),
                    rm,
                    t.val(),
                ));
            }
            return Some(res);
        }
        None
    }

    /// The padded box around the three vertices.
    pub fn bounding_box(&self, t0: Fixed, t1: Fixed) -> (r: AABB)
        ensures
            r.m() == tri_box(self.v0_m(), self.v1_m(), self.v2_m()),
    {
        let pad = Fixed::from_raw(PAD);
        let small = Vec3::new(
            self.v0.x().min(self.v1.x()).min(self.v2.x()).sub(pad),
            self.v0.y().min(self.v1.y()).min(self.v2.y()).sub(pad),
            self.v0.z().min(self.v1.z()).min(self.v2.z()).sub(pad),
        );
        let big = Vec3::new(
            self.v0.x().max(self.v1.x()).max(self.v2.x()).add(pad),
            self.v0.y().max(self.v1.y()).max(self.v2.y()).add(pad),
            self.v0.z().max(self.v1.z()).max(self.v2.z()).add(pad),
        );
        AABB::new(small, big)
    }
}

} // verus!
