//! Parametric rays: an origin, a direction and a time for motion blur.

use vstd::prelude::*;

use crate::fixed::Fixed;
use crate::vector::vadd;
use crate::vector::vscale;
use crate::vector::V3;
use crate::vector::Vec3;

verus! {

/// The point a ray reaches at parameter `t`.
pub open spec fn point_at(orig: V3, dir: V3, t: int) -> V3 {
    vadd(orig, vscale(dir, t))
}

/// The mathematical image of a ray.
pub struct RayM {
    pub orig: V3,
    pub dir: V3,
    pub time: int,
}

/// A ray; immutable once constructed, produced fresh at every bounce.
#[derive(Clone, Copy, Debug, PartialEq, Eq, Structural)]
pub struct Ray {
    origin: Vec3,
    direction: Vec3,
    time: Fixed,
}

impl Ray {
    /// The mathematical image of this ray.
    pub open spec fn m(self) -> RayM {
        RayM { orig: self.origin_m(), dir: self.dir_m(), time: self.time_m() }
    }

    /// Mathematical image of the origin.
    pub closed spec fn origin_m(self) -> V3 {
        self.origin.m()
    }

    /// Mathematical image of the direction.
    pub closed spec fn dir_m(self) -> V3 {
        self.direction.m()
    }

    /// Raw value of the time parameter.
    pub closed spec fn time_m(self) -> int {
        self.time.val()
    }

    /// Build a ray.
    pub fn new(origin: Vec3, direction: Vec3, time: Fixed) -> (r: Ray)
        ensures
            r.origin_m() == origin.m(),
            r.dir_m() == direction.m(),
            r.time_m() == time.val(),
    {
        Ray { origin, direction, time }
    }

    /// The origin point.
    pub fn origin(&self) -> (r: Vec3)
        ensures
            r.m() == self.origin_m(),
    {
        self.origin
    }

    /// The direction vector.
    pub fn direction(&self) -> (r: Vec3)
        ensures
            r.m() == self.dir_m(),
    {
        self.direction
    }

    /// The time parameter.
    pub fn time(&self) -> (r: Fixed)
        ensures
            r.val() == self.time_m(),
    {
        self.time
    }

    /// Evaluate the ray at parameter `t`.
    pub fn point_at_t(&self, t: Fixed) -> (r: Vec3)
        ensures
            r.m() == point_at(self.origin_m(), self.dir_m(), t.val()),
    {
        self.origin.add(self.direction.scale(t))
    }
}

} // verus!
