//! Axis-aligned bounding boxes and the slab intersection test.
//!
//! The slab test here is exact: each axis crossing is kept as a rational
//! number (numerator over a positive denominator) and compared by integer
//! cross-multiplication, so the test decides precisely whether the running
//! parameter interval survives all three axes.  An axis whose direction
//! component is zero constrains the ray to pass only if the origin lies
//! strictly inside that slab, mirroring how signed infinities fall out of a
//! floating-point division.

use vstd::prelude::*;

use crate::fixed::Fixed;
use crate::fixed::RAW_BOUND;
use crate::fixed::SCALE;
use crate::ray::Ray;
use crate::vector::V3;
use crate::vector::Vec3;

verus! {

/// Component of a vector image by axis position.
pub open spec fn comp(v: V3, i: int) -> int {
    if i == 0 {
        v.x
    } else if i == 1 {
        v.y
    } else {
        v.z
    }
}

/// The mathematical image of a box: its two corner images.
pub struct BoxM {
    pub min: V3,
    pub max: V3,
}

/// A rational number; the denominator is kept positive by construction.
pub struct Rat {
    pub n: int,
    pub d: int,
}

/// Exact rational comparison by cross-multiplication (denominators positive).
pub open spec fn rat_lt(a: Rat, b: Rat) -> bool {
    a.n * b.d < b.n * a.d
}

/// Exact rational comparison, allowing equality.
pub open spec fn rat_le(a: Rat, b: Rat) -> bool {
    a.n * b.d <= b.n * a.d
}

/// Does the exact ray point at parameter `t / SCALE` lie strictly inside the
/// `[mn, mx]` slab on one axis?  All quantities are raw fixed-point values;
/// multiplying the corners by `SCALE` clears the parameter's denominator.
pub open spec fn axis_inside_v(mn: int, o: int, d: int, mx: int, t: int) -> bool {
    mn * SCALE < o * SCALE + t * d && o * SCALE + t * d < mx * SCALE
}

/// Does the exact ray point at parameter `t / SCALE` lie strictly inside the
/// box on every axis?
pub open spec fn inside_box_at(b: BoxM, o: V3, d: V3, t: int) -> bool {
    &&& axis_inside_v(b.min.x, o.x, d.x, b.max.x, t)
    &&& axis_inside_v(b.min.y, o.y, d.y, b.max.y, t)
    &&& axis_inside_v(b.min.z, o.z, d.z, b.max.z, t)
}

/// One box lies (not necessarily strictly) inside another.
pub open spec fn box_within(inner: BoxM, outer: BoxM) -> bool {
    &&& outer.min.x <= inner.min.x && inner.max.x <= outer.max.x
    &&& outer.min.y <= inner.min.y && inner.max.y <= outer.max.y
    &&& outer.min.z <= inner.min.z && inner.max.z <= outer.max.z
}

/// The tightest box containing two boxes.
pub open spec fn box_union(a: BoxM, b: BoxM) -> BoxM {
    BoxM {
        min: V3 {
            x: if a.min.x <= b.min.x {
                a.min.x
            } else {
                b.min.x
            },
            y: if a.min.y <= b.min.y {
                a.min.y
            } else {
                b.min.y
            },
            z: if a.min.z <= b.min.z {
                a.min.z
            } else {
                b.min.z
            },
        },
        max: V3 {
            x: if a.max.x >= b.max.x {
                a.max.x
            } else {
                b.max.x
            },
            y: if a.max.y >= b.max.y {
                a.max.y
            } else {
                b.max.y
            },
            z: if a.max.z >= b.max.z {
                a.max.z
            } else {
                b.max.z
            },
        },
    }
}

/// The overlap of two boxes: the loosest box inside both.
pub open spec fn box_inter(a: BoxM, b: BoxM) -> BoxM {
    BoxM {
        min: V3 {
            x: if a.min.x >= b.min.x {
                a.min.x
            } else {
                b.min.x
            },
            y: if a.min.y >= b.min.y {
                a.min.y
            } else {
                b.min.y
            },
            z: if a.min.z >= b.min.z {
                a.min.z
            } else {
                b.min.z
            },
        },
        max: V3 {
            x: if a.max.x <= b.max.x {
                a.max.x
            } else {
                b.max.x
            },
            y: if a.max.y <= b.max.y {
                a.max.y
            } else {
                b.max.y
            },
            z: if a.max.z <= b.max.z {
                a.max.z
            } else {
                b.max.z
            },
        },
    }
}

/// A point lies strictly inside the overlap of two boxes exactly when it
/// lies strictly inside both.
pub proof fn lemma_inside_box_inter(a: BoxM, b: BoxM, o: V3, d: V3, t: int)
    ensures
        inside_box_at(box_inter(a, b), o, d, t) <==> (inside_box_at(a, o, d, t) && inside_box_at(
            b,
            o,
            d,
            t,
        )),
{
}

/// The lower and upper axis crossings for one axis with a nonzero direction
/// component, as rationals with positive denominators.
pub open spec fn axis_crossings(mn: int, o: int, d: int, mx: int) -> (Rat, Rat) {
    if d > 0 {
        (Rat { n: mn - o, d }, Rat { n: mx - o, d })
    } else {
        (Rat { n: o - mx, d: -d }, Rat { n: o - mn, d: -d })
    }
}

/// The slab test from axis `i` on, with the running parameter interval
/// `(lo, hi)`: narrow the interval by each axis's crossings and fail as soon
/// as the upper end no longer exceeds the lower end.
pub open spec fn slab_from(b: BoxM, o: V3, d: V3, i: int, lo: Rat, hi: Rat) -> bool
    decreases 3 - i,
{
    if i >= 3 {
        true
    } else {
        let dv = comp(d, i);
        let ov = comp(o, i);
        let mn = comp(b.min, i);
        let mx = comp(b.max, i);
        if dv == 0 {
            if mn < ov && ov < mx && !rat_le(hi, lo) {
                slab_from(b, o, d, i + 1, lo, hi)
            } else {
                false
            }
        } else {
            let (t0, t1) = axis_crossings(mn, ov, dv, mx);
            let lo2 = if rat_lt(lo, t0) {
                t0
            } else {
                lo
            };
            let hi2 = if rat_lt(t1, hi) {
                t1
            } else {
                hi
            };
            if rat_le(hi2, lo2) {
                false
            } else {
                slab_from(b, o, d, i + 1, lo2, hi2)
            }
        }
    }
}

/// The whole slab test over the raw parameter window `(tmin, tmax)`.
pub open spec fn slab_hit(b: BoxM, o: V3, d: V3, tmin: int, tmax: int) -> bool {
    slab_from(b, o, d, 0, Rat { n: tmin, d: SCALE as int }, Rat { n: tmax, d: SCALE as int })
}

/// An axis-aligned bounding volume; a value, recomputed, never mutated.
#[derive(Clone, Copy, Debug, PartialEq, Eq, Structural)]
pub struct AABB {
    min: Vec3,
    max: Vec3,
}

impl AABB {
    /// The mathematical image of this box.
    pub closed spec fn m(self) -> BoxM {
        BoxM { min: self.min.m(), max: self.max.m() }
    }

    /// Build a box from its two corners; callers keep `a` componentwise
    /// below `b`.
    pub fn new(a: Vec3, b: Vec3) -> (r: AABB)
        ensures
            r.m() == (BoxM { min: a.m(), max: b.m() }),
    {
        AABB { min: a, max: b }
    }

    /// The minimum corner.
    pub fn min(&self) -> (r: Vec3)
        ensures
            r.m() == self.m().min,
    {
        self.min
    }

    /// The maximum corner.
    pub fn max(&self) -> (r: Vec3)
        ensures
            r.m() == self.m().max,
    {
        self.max
    }

    /// The slab intersection test against the open parameter window
    /// `(t_min, t_max)`.
    pub fn hit(&self, ray: &Ray, t_min: Fixed, t_max: Fixed) -> (r: bool)
        ensures
            r == slab_hit(self.m(), ray.origin_m(), ray.dir_m(), t_min.val(), t_max.val()),
    {
        let orig = ray.origin();
        let dir = ray.direction();
        let mut lo_n: i128 = t_min.raw() as i128;
        let mut lo_d: i128 = SCALE as i128;
        let mut hi_n: i128 = t_max.raw() as i128;
        let mut hi_d: i128 = SCALE as i128;
        let ghost b = self.m();
        let ghost om = orig.m();
        let ghost dm = dir.m();
        proof {
            use_type_invariant(t_min);
            use_type_invariant(t_max);
        }
        let mut i: usize = 0;
        while i < 3
            invariant
                i <= 3,
                b == self.m(),
                om == orig.m(),
                dm == dir.m(),
                om == ray.origin_m(),
                dm == ray.dir_m(),
                0 < lo_d <= RAW_BOUND as int,
                0 < hi_d <= RAW_BOUND as int,
                -(2 * RAW_BOUND as int) <= lo_n as int <= 2 * RAW_BOUND as int,
                -(2 * RAW_BOUND as int) <= hi_n as int <= 2 * RAW_BOUND as int,
                slab_hit(self.m(), orig.m(), dir.m(), t_min.val(), t_max.val()) == slab_from(
                    b,
                    om,
                    dm,
                    i as int,
                    Rat { n: lo_n as int, d: lo_d as int },
                    Rat { n: hi_n as int, d: hi_d as int },
                ),
            decreases 3 - i,
        {
            let mn_f = self.min.index(i);
            let mx_f = self.max.index(i);
            let o_f = orig.index(i);
            let d_f = dir.index(i);
            proof {
                use_type_invariant(mn_f);
                use_type_invariant(mx_f);
                use_type_invariant(o_f);
                use_type_invariant(d_f);
            }
            let mn: i128 = mn_f.raw() as i128;
            let mx: i128 = mx_f.raw() as i128;
            let ov: i128 = o_f.raw() as i128;
            let dv: i128 = d_f.raw() as i128;
            proof {
                assert(mn as int == comp(b.min, i as int));
                assert(mx as int == comp(b.max, i as int));
                assert(ov as int == comp(om, i as int));
                assert(dv as int == comp(dm, i as int));
            }
            if dv == 0 {
                if !(mn < ov && ov < mx) {
                    return false;
                }
                if rat_le_e(hi_n, hi_d, lo_n, lo_d) {
                    return false;
                }
            } else {
                let t0_n: i128;
                let t0_d: i128;
                let t1_n: i128;
                let t1_d: i128;
                if dv > 0 {
                    t0_n = mn - ov;
                    t0_d = dv;
                    t1_n = mx - ov;
                    t1_d = dv;
                } else {
                    t0_n = ov - mx;
                    t0_d = -dv;
                    t1_n = ov - mn;
                    t1_d = -dv;
                }
                if rat_lt_e(lo_n, lo_d, t0_n, t0_d) {
                    lo_n = t0_n;
                    lo_d = t0_d;
                }
                if rat_lt_e(t1_n, t1_d, hi_n, hi_d) {
                    hi_n = t1_n;
                    hi_d = t1_d;
                }
                if rat_le_e(hi_n, hi_d, lo_n, lo_d) {
                    return false;
                }
            }
            i = i + 1;
        }
        true
    }

    /// The tightest box containing both given boxes.
    pub fn surrounding_box(box0: &AABB, box1: &AABB) -> (r: AABB)
        ensures
            r.m() == box_union(box0.m(), box1.m()),
    {
        let small = Vec3::new(
            box0.min.x().min(box1.min.x()),
            box0.min.y().min(box1.min.y()),
            box0.min.z().min(box1.min.z()),
        );
        let big = Vec3::new(
            box0.max.x().max(box1.max.x()),
            box0.max.y().max(box1.max.y()),
            box0.max.z().max(box1.max.z()),
        );
        AABB::new(small, big)
    }

    /// The loosest box inside both this box and another.
    pub fn intersection(&self, other: &AABB) -> (r: AABB)
        ensures
            r.m() == box_inter(self.m(), other.m()),
    {
        let small = Vec3::new(
            self.min.x().max(other.min.x()),
            self.min.y().max(other.min.y()),
            self.min.z().max(other.min.z()),
        );
        let big = Vec3::new(
            self.max.x().min(other.max.x()),
            self.max.y().min(other.max.y()),
            self.max.z().min(other.max.z()),
        );
        AABB::new(small, big)
    }

    /// Does the exact ray point at parameter `t` lie strictly inside this
    /// box on every axis?
    pub fn contains_at(&self, ray: &Ray, t: Fixed) -> (r: bool)
        ensures
            r == inside_box_at(self.m(), ray.origin_m(), ray.dir_m(), t.val()),
    {
        let orig = ray.origin();
        let dir = ray.direction();
        let ax = axis_inside_e(self.min.x(), orig.x(), dir.x(), self.max.x(), t);
        let ay = axis_inside_e(self.min.y(), orig.y(), dir.y(), self.max.y(), t);
        let az = axis_inside_e(self.min.z(), orig.z(), dir.z(), self.max.z(), t);
        ax && ay && az
    }
}

/// With positive denominators, rational order composes.
proof fn lemma_rat_le_lt_trans(a: Rat, b: Rat, c: Rat)
    requires
        a.d > 0,
        b.d > 0,
        c.d > 0,
        rat_le(a, b),
        rat_lt(b, c),
    ensures
        rat_lt(a, c),
{
    assert(a.n * c.d < c.n * a.d) by (nonlinear_arith)
        requires
            a.d > 0,
            b.d > 0,
            c.d > 0,
            a.n * b.d <= b.n * a.d,
            b.n * c.d < c.n * b.d,
    ;
}

/// With positive denominators, non-strict rational order composes.
proof fn lemma_rat_le_trans(a: Rat, b: Rat, c: Rat)
    requires
        a.d > 0,
        b.d > 0,
        c.d > 0,
        rat_le(a, b),
        rat_le(b, c),
    ensures
        rat_le(a, c),
{
    assert(a.n * c.d <= c.n * a.d) by (nonlinear_arith)
        requires
            a.d > 0,
            b.d > 0,
            c.d > 0,
            a.n * b.d <= b.n * a.d,
            b.n * c.d <= c.n * b.d,
    ;
}

/// With positive denominators, strict order followed by non-strict order
/// stays strict.
proof fn lemma_rat_lt_le_trans(a: Rat, b: Rat, c: Rat)
    requires
        a.d > 0,
        b.d > 0,
        c.d > 0,
        rat_lt(a, b),
        rat_le(b, c),
    ensures
        rat_lt(a, c),
{
    assert(a.n * c.d < c.n * a.d) by (nonlinear_arith)
        requires
            a.d > 0,
            b.d > 0,
            c.d > 0,
            a.n * b.d < b.n * a.d,
            b.n * c.d <= c.n * b.d,
    ;
}

/// The witness `w` clears one axis of the slab test: with a zero direction
/// component the origin sits strictly inside the slab, otherwise `w` lies
/// strictly between the axis crossings.
pub open spec fn axis_ok(b: BoxM, o: V3, d: V3, i: int, w: Rat) -> bool {
    let dv = comp(d, i);
    let ov = comp(o, i);
    let mn = comp(b.min, i);
    let mx = comp(b.max, i);
    if dv == 0 {
        mn < ov && ov < mx
    } else {
        let (t0, t1) = axis_crossings(mn, ov, dv, mx);
        rat_lt(t0, w) && rat_lt(w, t1)
    }
}

/// The witness clears every axis from `i` on.
pub open spec fn axes_ok_from(b: BoxM, o: V3, d: V3, i: int, w: Rat) -> bool
    decreases 3 - i,
{
    i >= 3 || (axis_ok(b, o, d, i, w) && axes_ok_from(b, o, d, i + 1, w))
}

/// A witness parameter inside the running window and clearing every
/// remaining axis keeps the slab test alive.
proof fn lemma_slab_from_nonempty(b: BoxM, o: V3, d: V3, i: int, lo: Rat, hi: Rat, w: Rat)
    requires
        lo.d > 0,
        hi.d > 0,
        w.d > 0,
        rat_le(lo, w),
        rat_lt(w, hi),
        axes_ok_from(b, o, d, i, w),
    ensures
        slab_from(b, o, d, i, lo, hi),
    decreases 3 - i,
{
    if i >= 3 {
    } else {
        let dv = comp(d, i);
        let ov = comp(o, i);
        let mn = comp(b.min, i);
        let mx = comp(b.max, i);
        lemma_rat_le_lt_trans(lo, w, hi);
        if dv == 0 {
            lemma_slab_from_nonempty(b, o, d, i + 1, lo, hi, w);
        } else {
            let (t0, t1) = axis_crossings(mn, ov, dv, mx);
            let lo2 = if rat_lt(lo, t0) {
                t0
            } else {
                lo
            };
            let hi2 = if rat_lt(t1, hi) {
                t1
            } else {
                hi
            };
            assert(rat_le(lo2, w));
            assert(rat_lt(w, hi2));
            lemma_rat_le_lt_trans(lo2, w, hi2);
            lemma_slab_from_nonempty(b, o, d, i + 1, lo2, hi2, w);
        }
    }
}

/// One axis of the witness facts, from exact strict containment at `t`.
proof fn lemma_axis_ok_of_inside(mn: int, ov: int, dv: int, mx: int, t: int)
    requires
        axis_inside_v(mn, ov, dv, mx, t),
    ensures
        dv == 0 ==> mn < ov && ov < mx,
        dv != 0 ==> ({
            let (t0, t1) = axis_crossings(mn, ov, dv, mx);
            rat_lt(t0, Rat { n: t, d: SCALE as int }) && rat_lt(Rat { n: t, d: SCALE as int }, t1)
        }),
{
    if dv == 0 {
        assert(t * dv == 0) by (nonlinear_arith)
            requires
                dv == 0,
        ;
    } else if dv < 0 {
        assert((ov - mx) * SCALE < t * (-dv) && t * (-dv) < (ov - mn) * SCALE)
            by (nonlinear_arith)
            requires
                mn * SCALE < ov * SCALE + t * dv,
                ov * SCALE + t * dv < mx * SCALE,
                SCALE as int == 65536int,
        ;
    } else {
        assert((mn - ov) * SCALE < t * dv && t * dv < (mx - ov) * SCALE) by (nonlinear_arith)
            requires
                mn * SCALE < ov * SCALE + t * dv,
                ov * SCALE + t * dv < mx * SCALE,
                SCALE as int == 65536int,
        ;
    }
}

/// A ray parameter strictly inside the box and inside the half-open window
/// `[tmin, tmax)` forces the slab test to report a hit: the box test never
/// rejects a volume that the exact geometry enters.
pub proof fn lemma_slab_hit_of_inside(b: BoxM, o: V3, d: V3, tmin: int, tmax: int, t: int)
    requires
        inside_box_at(b, o, d, t),
        tmin <= t < tmax,
    ensures
        slab_hit(b, o, d, tmin, tmax),
{
    let w = Rat { n: t, d: SCALE as int };
    lemma_axis_ok_of_inside(b.min.x, o.x, d.x, b.max.x, t);
    lemma_axis_ok_of_inside(b.min.y, o.y, d.y, b.max.y, t);
    lemma_axis_ok_of_inside(b.min.z, o.z, d.z, b.max.z, t);
    assert(axes_ok_from(b, o, d, 3, w));
    assert(axes_ok_from(b, o, d, 2, w));
    assert(axes_ok_from(b, o, d, 1, w));
    assert(axes_ok_from(b, o, d, 0, w));
    lemma_slab_from_nonempty(
        b,
        o,
        d,
        0,
        Rat { n: tmin, d: SCALE as int },
        Rat { n: tmax, d: SCALE as int },
        w,
    );
}

/// A ray whose origin lies strictly inside a box hits it on any window
/// reaching from the origin forward.
pub proof fn lemma_slab_hit_origin_inside(b: BoxM, o: V3, d: V3, tmin: int, tmax: int)
    requires
        inside_box_at(b, o, d, 0),
        tmin <= 0 < tmax,
    ensures
        slab_hit(b, o, d, tmin, tmax),
{
    lemma_slab_hit_of_inside(b, o, d, tmin, tmax, 0);
}

/// Whatever the running window, an axis the ray travels parallel to, with
/// the origin outside that slab, fails the test.
proof fn lemma_slab_from_parallel_miss(b: BoxM, o: V3, d: V3, j: int, i: int, lo: Rat, hi: Rat)
    requires
        0 <= j <= i < 3,
        comp(d, i) == 0,
        !(comp(b.min, i) < comp(o, i) && comp(o, i) < comp(b.max, i)),
    ensures
        !slab_from(b, o, d, j, lo, hi),
    decreases 3 - j,
{
    if j == i {
    } else {
        let dv = comp(d, j);
        let ov = comp(o, j);
        let mn = comp(b.min, j);
        let mx = comp(b.max, j);
        if dv == 0 {
            lemma_slab_from_parallel_miss(b, o, d, j + 1, i, lo, hi);
        } else {
            let (t0, t1) = axis_crossings(mn, ov, dv, mx);
            let lo2 = if rat_lt(lo, t0) {
                t0
            } else {
                lo
            };
            let hi2 = if rat_lt(t1, hi) {
                t1
            } else {
                hi
            };
            lemma_slab_from_parallel_miss(b, o, d, j + 1, i, lo2, hi2);
        }
    }
}

/// A ray parallel to some axis whose origin lies outside that axis's slab
/// misses the box outright.
pub proof fn lemma_slab_miss_parallel(b: BoxM, o: V3, d: V3, tmin: int, tmax: int, i: int)
    requires
        0 <= i < 3,
        comp(d, i) == 0,
        !(comp(b.min, i) < comp(o, i) && comp(o, i) < comp(b.max, i)),
    ensures
        !slab_hit(b, o, d, tmin, tmax),
{
    lemma_slab_from_parallel_miss(
        b,
        o,
        d,
        0,
        i,
        Rat { n: tmin, d: SCALE as int },
        Rat { n: tmax, d: SCALE as int },
    );
}

/// Whatever the running window — provided it still lies within the
/// original window — an axis whose crossing interval falls wholly outside
/// that original window fails the test.
proof fn lemma_slab_from_axis_disjoint(
    b: BoxM,
    o: V3,
    d: V3,
    j: int,
    i: int,
    lo: Rat,
    hi: Rat,
    w0: Rat,
    w1: Rat,
)
    requires
        0 <= j <= i < 3,
        comp(d, i) != 0,
        lo.d > 0,
        hi.d > 0,
        w0.d > 0,
        w1.d > 0,
        rat_le(w0, lo),
        rat_le(hi, w1),
        ({
            let (t0, t1) = axis_crossings(comp(b.min, i), comp(o, i), comp(d, i), comp(b.max, i));
            rat_lt(t1, w0) || rat_lt(w1, t0)
        }),
    ensures
        !slab_from(b, o, d, j, lo, hi),
    decreases 3 - j,
{
    let dv = comp(d, j);
    let ov = comp(o, j);
    let mn = comp(b.min, j);
    let mx = comp(b.max, j);
    if j == i {
        let (t0, t1) = axis_crossings(mn, ov, dv, mx);
        let lo2 = if rat_lt(lo, t0) {
            t0
        } else {
            lo
        };
        let hi2 = if rat_lt(t1, hi) {
            t1
        } else {
            hi
        };
        assert(t0.d > 0 && t1.d > 0);
        if rat_lt(t1, w0) {
            assert(rat_le(hi2, t1));
            assert(rat_le(w0, lo2)) by {
                if rat_lt(lo, t0) {
                    lemma_rat_le_lt_trans(w0, lo, t0);
                }
            }
            lemma_rat_lt_le_trans(t1, w0, lo2);
            assert(rat_le(hi2, lo2)) by {
                lemma_rat_le_lt_trans(hi2, t1, lo2);
            }
        } else {
            assert(rat_lt(w1, t0));
            assert(rat_le(t0, lo2));
            assert(rat_le(hi2, w1)) by {
                if rat_lt(t1, hi) {
                    lemma_rat_lt_le_trans(t1, hi, w1);
                } else {
                    lemma_rat_le_trans(hi2, hi, w1);
                }
            }
            assert(rat_le(hi2, lo2)) by {
                lemma_rat_lt_le_trans(w1, t0, lo2);
                lemma_rat_le_lt_trans(hi2, w1, lo2);
            }
        }
    } else {
        if dv == 0 {
            if mn < ov && ov < mx && !rat_le(hi, lo) {
                lemma_slab_from_axis_disjoint(b, o, d, j + 1, i, lo, hi, w0, w1);
            }
        } else {
            let (t0, t1) = axis_crossings(mn, ov, dv, mx);
            let lo2 = if rat_lt(lo, t0) {
                t0
            } else {
                lo
            };
            let hi2 = if rat_lt(t1, hi) {
                t1
            } else {
                hi
            };
            if !rat_le(hi2, lo2) {
                assert(rat_le(w0, lo2)) by {
                    if rat_lt(lo, t0) {
                        lemma_rat_le_lt_trans(w0, lo, t0);
                    }
                }
                assert(rat_le(hi2, w1)) by {
                    if rat_lt(t1, hi) {
                        lemma_rat_lt_le_trans(t1, hi, w1);
                    }
                }
                lemma_slab_from_axis_disjoint(b, o, d, j + 1, i, lo2, hi2, w0, w1);
            }
        }
    }
}

/// A ray that misses the box outright on one axis misses the box: when
/// some axis's crossing interval lies wholly before or wholly after the
/// query window, no parameter in the window puts the ray inside that
/// axis's slab, and the test reports a miss.
pub proof fn lemma_slab_miss_axis_disjoint(b: BoxM, o: V3, d: V3, tmin: int, tmax: int, i: int)
    requires
        0 <= i < 3,
        comp(d, i) != 0,
        ({
            let (t0, t1) = axis_crossings(comp(b.min, i), comp(o, i), comp(d, i), comp(b.max, i));
            rat_lt(t1, Rat { n: tmin, d: SCALE as int }) || rat_lt(
                Rat { n: tmax, d: SCALE as int },
                t0,
            )
        }),
    ensures
        !slab_hit(b, o, d, tmin, tmax),
{
    lemma_slab_from_axis_disjoint(
        b,
        o,
        d,
        0,
        i,
        Rat { n: tmin, d: SCALE as int },
        Rat { n: tmax, d: SCALE as int },
        Rat { n: tmin, d: SCALE as int },
        Rat { n: tmax, d: SCALE as int },
    );
}

/// Strict containment survives enlarging the box.
pub proof fn lemma_inside_box_monotone(inner: BoxM, outer: BoxM, o: V3, d: V3, t: int)
    requires
        inside_box_at(inner, o, d, t),
        box_within(inner, outer),
    ensures
        inside_box_at(outer, o, d, t),
{
}

/// Each operand sits inside the union of two boxes.
pub proof fn lemma_box_union_covers(a: BoxM, b: BoxM)
    ensures
        box_within(a, box_union(a, b)),
        box_within(b, box_union(a, b)),
{
}

/// Exact strict rational comparison on raw values with positive denominators.
fn rat_lt_e(an: i128, ad: i128, bn: i128, bd: i128) -> (r: bool)
    requires
        0 < ad <= RAW_BOUND as int,
        0 < bd <= RAW_BOUND as int,
        -(2 * RAW_BOUND as int) <= an <= 2 * RAW_BOUND as int,
        -(2 * RAW_BOUND as int) <= bn <= 2 * RAW_BOUND as int,
    ensures
        r == rat_lt(Rat { n: an as int, d: ad as int }, Rat { n: bn as int, d: bd as int }),
{
    proof {
        cross_mul_in_range(an as int, bd as int);
        cross_mul_in_range(bn as int, ad as int);
    }
    an * bd < bn * ad
}

/// Exact non-strict rational comparison on raw values.
fn rat_le_e(an: i128, ad: i128, bn: i128, bd: i128) -> (r: bool)
    requires
        0 < ad <= RAW_BOUND as int,
        0 < bd <= RAW_BOUND as int,
        -(2 * RAW_BOUND as int) <= an <= 2 * RAW_BOUND as int,
        -(2 * RAW_BOUND as int) <= bn <= 2 * RAW_BOUND as int,
    ensures
        r == rat_le(Rat { n: an as int, d: ad as int }, Rat { n: bn as int, d: bd as int }),
{
    proof {
        cross_mul_in_range(an as int, bd as int);
        cross_mul_in_range(bn as int, ad as int);
    }
    an * bd <= bn * ad
}

/// A cross-multiplication of in-range raw values stays far inside `i128`.
proof fn cross_mul_in_range(n: int, d: int)
    requires
        -(2 * RAW_BOUND as int) <= n <= 2 * RAW_BOUND as int,
        -(2 * RAW_BOUND as int) <= d <= 2 * RAW_BOUND as int,
    ensures
        -1237940039285380274899124224int <= n * d <= 1237940039285380274899124224int,
{
    assert(-1237940039285380274899124224int <= n * d <= 1237940039285380274899124224int)
        by (nonlinear_arith)
        requires
            -(2 * RAW_BOUND as int) <= n <= 2 * RAW_BOUND as int,
            -(2 * RAW_BOUND as int) <= d <= 2 * RAW_BOUND as int,
            RAW_BOUND as int == 17592186044416int,
    ;
}

/// One axis of the strict containment test, exactly.
fn axis_inside_e(mn: Fixed, o: Fixed, d: Fixed, mx: Fixed, t: Fixed) -> (r: bool)
    ensures
        r == axis_inside_v(mn.val(), o.val(), d.val(), mx.val(), t.val()),
{
    proof {
        use_type_invariant(mn);
        use_type_invariant(o);
        use_type_invariant(d);
        use_type_invariant(mx);
        use_type_invariant(t);
        cross_mul_in_range(t.val(), d.val());
    }
    let p: i128 = (o.raw() as i128) * (SCALE as i128) + (t.raw() as i128) * (d.raw() as i128);
    (mn.raw() as i128) * (SCALE as i128) < p && p < (mx.raw() as i128) * (SCALE as i128)
}

} // verus!
