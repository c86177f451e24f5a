//! Three-component vectors over fixed-point scalars.
//!
//! Every operation is pinned to a mathematical mirror over [`V3`], the
//! raw-integer image of a vector, so downstream contracts can state exactly
//! which value each geometric computation produces.

use vstd::prelude::*;

use crate::fixed::add_v;
use crate::fixed::div_v;
use crate::fixed::mul_v;
use crate::fixed::sqrt_v;
use crate::fixed::sub_v;
use crate::fixed::Fixed;
use crate::fixed::SCALE;

verus! {

/// The mathematical image of a vector: its three raw values.
pub struct V3 {
    pub x: int,
    pub y: int,
    pub z: int,
}

/// Componentwise sum.
pub open spec fn vadd(a: V3, b: V3) -> V3 {
    V3 { x: add_v(a.x, b.x), y: add_v(a.y, b.y), z: add_v(a.z, b.z) }
}

/// Componentwise difference.
pub open spec fn vsub(a: V3, b: V3) -> V3 {
    V3 { x: sub_v(a.x, b.x), y: sub_v(a.y, b.y), z: sub_v(a.z, b.z) }
}

/// Componentwise negation.
pub open spec fn vneg(a: V3) -> V3 {
    V3 { x: -a.x, y: -a.y, z: -a.z }
}

/// Componentwise product.
pub open spec fn vmul(a: V3, b: V3) -> V3 {
    V3 { x: mul_v(a.x, b.x), y: mul_v(a.y, b.y), z: mul_v(a.z, b.z) }
}

/// Componentwise quotient.
pub open spec fn vdiv(a: V3, b: V3) -> V3 {
    V3 { x: div_v(a.x, b.x), y: div_v(a.y, b.y), z: div_v(a.z, b.z) }
}

/// Scaling by a scalar.
pub open spec fn vscale(a: V3, s: int) -> V3 {
    V3 { x: mul_v(a.x, s), y: mul_v(a.y, s), z: mul_v(a.z, s) }
}

/// Division of each component by a scalar.
pub open spec fn vdivs(a: V3, s: int) -> V3 {
    V3 { x: div_v(a.x, s), y: div_v(a.y, s), z: div_v(a.z, s) }
}

/// Dot product, accumulated left to right.
pub open spec fn vdot(a: V3, b: V3) -> int {
    add_v(add_v(mul_v(a.x, b.x), mul_v(a.y, b.y)), mul_v(a.z, b.z))
}

/// Cross product.
pub open spec fn vcross(a: V3, b: V3) -> V3 {
    V3 {
        x: sub_v(mul_v(a.y, b.z), mul_v(a.z, b.y)),
        y: -sub_v(mul_v(a.x, b.z), mul_v(a.z, b.x)),
        z: sub_v(mul_v(a.x, b.y), mul_v(a.y, b.x)),
    }
}

/// Squared Euclidean length.
pub open spec fn vsqlen(a: V3) -> int {
    vdot(a, a)
}

/// Euclidean length (fixed-point square root of the squared length).
pub open spec fn vlen(a: V3) -> int {
    sqrt_v(vsqlen(a))
}

/// Reflection of `v` about the normal `n`.
pub open spec fn vreflect(v: V3, n: V3) -> V3 {
    vsub(v, vscale(n, mul_v(vdot(v, n), 2 * SCALE)))
}

/// Normalization: each component divided by the length.
pub open spec fn vunit(v: V3) -> V3 {
    vdivs(v, vlen(v))
}

/// A point or direction in space; a value type copied freely.
#[derive(Clone, Copy, Debug, PartialEq, Eq, Structural)]
pub struct Vec3 {
    x: Fixed,
    y: Fixed,
    z: Fixed,
}

impl Vec3 {
    /// The mathematical image of this vector.
    pub closed spec fn m(self) -> V3 {
        V3 { x: self.x.val(), y: self.y.val(), z: self.z.val() }
    }

    /// Build a vector from its components.
    pub fn new(x: Fixed, y: Fixed, z: Fixed) -> (r: Vec3)
        ensures
            r.m() == (V3 { x: x.val(), y: y.val(), z: z.val() }),
    {
        Vec3 { x, y, z }
    }

    /// First component.
    pub fn x(&self) -> (r: Fixed)
        ensures
            r.val() == self.m().x,
    {
        self.x
    }

    /// Second component.
    pub fn y(&self) -> (r: Fixed)
        ensures
            r.val() == self.m().y,
    {
        self.y
    }

    /// Third component.
    pub fn z(&self) -> (r: Fixed)
        ensures
            r.val() == self.m().z,
    {
        self.z
    }

    /// Component by axis position.
    pub fn index(&self, i: usize) -> (r: Fixed)
        requires
            i < 3,
        ensures
            r.val() == if i == 0 {
                self.m().x
            } else if i == 1 {
                self.m().y
            } else {
                self.m().z
            },
    {
        if i == 0 {
            self.x
        } else if i == 1 {
            self.y
        } else {
            self.z
        }
    }

    /// Componentwise sum.
    pub fn add(self, o: Vec3) -> (r: Vec3)
        ensures
            r.m() == vadd(self.m(), o.m()),
    {
        Vec3 { x: self.x.add(o.x), y: self.y.add(o.y), z: self.z.add(o.z) }
    }

    /// Componentwise difference.
    pub fn sub(self, o: Vec3) -> (r: Vec3)
        ensures
            r.m() == vsub(self.m(), o.m()),
    {
        Vec3 { x: self.x.sub(o.x), y: self.y.sub(o.y), z: self.z.sub(o.z) }
    }

    /// Add a scalar to every component.
    pub fn add_s(self, s: Fixed) -> (r: Vec3)
        ensures
            r.m() == (V3 {
                x: add_v(self.m().x, s.val()),
                y: add_v(self.m().y, s.val()),
                z: add_v(self.m().z, s.val()),
            }),
    {
        Vec3 { x: self.x.add(s), y: self.y.add(s), z: self.z.add(s) }
    }

    /// Subtract a scalar from every component.
    pub fn sub_s(self, s: Fixed) -> (r: Vec3)
        ensures
            r.m() == (V3 {
                x: sub_v(self.m().x, s.val()),
                y: sub_v(self.m().y, s.val()),
                z: sub_v(self.m().z, s.val()),
            }),
    {
        Vec3 { x: self.x.sub(s), y: self.y.sub(s), z: self.z.sub(s) }
    }

    /// Componentwise negation.
    pub fn neg(self) -> (r: Vec3)
        ensures
            r.m() == vneg(self.m()),
    {
        Vec3 { x: self.x.neg(), y: self.y.neg(), z: self.z.neg() }
    }

    /// Componentwise product.
    pub fn mul(self, o: Vec3) -> (r: Vec3)
        ensures
            r.m() == vmul(self.m(), o.m()),
    {
        Vec3 { x: self.x.mul(o.x), y: self.y.mul(o.y), z: self.z.mul(o.z) }
    }

    /// Componentwise quotient.  A zero component in the divisor saturates
    /// that component to the signed bound rather than failing: degenerate
    /// denominators are handled silently, the way the infinities of a
    /// hardware division would flow through.
    pub fn div(self, o: Vec3) -> (r: Vec3)
        ensures
            r.m() == vdiv(self.m(), o.m()),
    {
        Vec3 { x: self.x.div(o.x), y: self.y.div(o.y), z: self.z.div(o.z) }
    }

    /// Scale by a scalar.
    pub fn scale(self, s: Fixed) -> (r: Vec3)
        ensures
            r.m() == vscale(self.m(), s.val()),
    {
        Vec3 { x: self.x.mul(s), y: self.y.mul(s), z: self.z.mul(s) }
    }

    /// Divide each component by a scalar; a zero scalar saturates each
    /// nonzero component to the signed bound, silently.
    pub fn div_s(self, s: Fixed) -> (r: Vec3)
        ensures
            r.m() == vdivs(self.m(), s.val()),
    {
        Vec3 { x: self.x.div(s), y: self.y.div(s), z: self.z.div(s) }
    }

    /// Dot product.
    pub fn dot(&self, o: &Vec3) -> (r: Fixed)
        ensures
            r.val() == vdot(self.m(), o.m()),
    {
        self.x.mul(o.x).add(self.y.mul(o.y)).add(self.z.mul(o.z))
    }

    /// Cross product.
    pub fn cross(&self, o: &Vec3) -> (r: Vec3)
        ensures
            r.m() == vcross(self.m(), o.m()),
    {
        Vec3 {
            x: self.y.mul(o.z).sub(self.z.mul(o.y)),
            y: self.x.mul(o.z).sub(self.z.mul(o.x)).neg(),
            z: self.x.mul(o.y).sub(self.y.mul(o.x)),
        }
    }

    /// Squared Euclidean length.
    pub fn squared_length(&self) -> (r: Fixed)
        ensures
            r.val() == vsqlen(self.m()),
    {
        self.dot(self)
    }

    /// Euclidean length.
    pub fn length(&self) -> (r: Fixed)
        ensures
            r.val() == vlen(self.m()),
    {
        self.squared_length().sqrt()
    }

    /// Reflect this vector about a surface normal.
    pub fn reflect(&self, normal: Vec3) -> (r: Vec3)
        ensures
            r.m() == vreflect(self.m(), normal.m()),
    {
        let two = Fixed::from_int(2);
        let r = normal.scale(self.dot(&normal).mul(two));
        self.sub(r)
    }

    /// The unit vector in the direction of `v`.  A zero vector stays zero,
    /// since each component is divided by a zero length.
    pub fn unit_vec(v: Vec3) -> (r: Vec3)
        ensures
            r.m() == vunit(v.m()),
    {
        v.div_s(v.length())
    }
}

} // verus!
