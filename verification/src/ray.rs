//! Rays, by the keys of their origin and direction.
use crate::vec3::Vec3;
use vstd::prelude::*;

verus! {

/// A ray: the points `origin + t * direction` for the ray parameters `t`.
#[derive(Clone, Copy, Debug, PartialEq, Eq, Structural)]
pub struct Ray {
    pub origin: Vec3,
    pub direction: Vec3,
}

impl Ray {
    /// The ray from an origin along a direction.
    pub fn new(origin: Vec3, direction: Vec3) -> (ray: Ray)
        ensures
            ray == (Ray { origin, direction }),
    {
        Ray { origin, direction }
    }
}

} // verus!
