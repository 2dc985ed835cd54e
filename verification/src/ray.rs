//! Rays: an origin and a direction, with parametric point evaluation.

use vstd::prelude::*;
use crate::vector::{Vec3, Vec3Model, vadd, vscale, in_range};

verus! {

/// The mathematical image of a `Ray`.
pub struct RayModel {
    pub origin: Vec3Model,
    pub direction: Vec3Model,
}

#[derive(Clone, Copy, Debug, PartialEq, Eq, Structural)]
pub struct Ray {
    pub origin: Vec3,
    pub direction: Vec3,
}

impl View for Ray {
    type V = RayModel;

    open spec fn view(&self) -> RayModel {
        RayModel { origin: self.origin@, direction: self.direction@ }
    }
}

/// The point a ray reaches at parameter `t`: `origin + t * direction`.
pub open spec fn ray_at(r: RayModel, t: int) -> Vec3Model {
    vadd(r.origin, vscale(r.direction, t))
}

impl Ray {
    pub fn new(orig: Vec3, dir: Vec3) -> (r: Ray)
        ensures
            r@.origin == orig@,
            r@.direction == dir@,
    {
        Ray { origin: orig, direction: dir }
    }

    /// Evaluate the ray at a fixed-point parameter.
    pub fn at(&self, interp: i64) -> (p: Vec3)
        requires
            in_range(self@.direction, 0x40_0000_0000),
            -0x40_0000_0000 <= interp as int <= 0x40_0000_0000,
            in_range(self@.origin, 0x2000_0000_0000_0000),
        ensures
            p@ == ray_at(self@, interp as int),
    {
        let d = self.direction.scale(interp);
        self.origin.add(&d)
    }
}

} // verus!
