//! What the library reads of an object and what it reports of a hit.
use crate::aabb::AABB;
use crate::ray::Ray;
use crate::scalar::Scalar;
use crate::vec3::Vec3;
use vstd::prelude::*;

verus! {

/// Where and how a ray met a surface.
#[derive(Clone, Copy, Debug, PartialEq, Eq, Structural)]
pub struct HitRecord {
    /// The point that was hit.
    pub p: Vec3,
    /// The surface normal there, turned against the incoming ray.
    pub normal: Vec3,
    /// The ray parameter of the hit.
    pub t: Scalar,
    /// Whether the ray came from the side that the outward normal points to.
    pub front_face: bool,
    /// The place of the surface's material in the caller's table of materials.
    pub material: usize,
}

/// An object of the scene as the library sees it: its place in the caller's
/// table of objects, and its bounding box if it has one.
#[derive(Clone, Copy, Debug, PartialEq, Eq, Structural)]
pub struct ObjectRef {
    pub index: usize,
    pub bounding_box: Option<AABB>,
}

/// Whether `hit` can be asked about every ray, every object and every pair
/// of ray parameters.
pub open spec fn hits_can_be_asked<F: Fn(&Ray, usize, Scalar, Scalar) -> Option<HitRecord>>(
    hit: F,
) -> bool {
    forall|ray: &Ray, object: usize, t_min: Scalar, t_max: Scalar|
        call_requires(hit, (ray, object, t_min, t_max))
}

/// Whether `oracle` says what `hit` answers: whatever `hit` may return for a
/// ray, an object and two ray parameters is what `oracle` gives for them.
pub open spec fn hits_are<F: Fn(&Ray, usize, Scalar, Scalar) -> Option<HitRecord>>(
    hit: F,
    oracle: spec_fn(Ray, usize, Scalar, Scalar) -> Option<HitRecord>,
) -> bool {
    forall|ray: &Ray, object: usize, t_min: Scalar, t_max: Scalar, out: Option<HitRecord>|
        call_ensures(hit, (ray, object, t_min, t_max), out) ==> out == oracle(
            *ray,
            object,
            t_min,
            t_max,
        )
}

/// A hit, if it lies strictly between two ray parameters.
pub open spec fn within(hit: Option<HitRecord>, t_min: Scalar, t_max: Scalar) -> Option<
    HitRecord,
> {
    match hit {
        Some(record) => if t_min < record.t < t_max {
            hit
        } else {
            None
        },
        None => None,
    }
}

/// What a query of one object counts for: the answer for it, if that is a
/// hit strictly between `t_min` and `t_max`.
pub open spec fn probe(
    oracle: spec_fn(Ray, usize, Scalar, Scalar) -> Option<HitRecord>,
    ray: Ray,
    object: usize,
    t_min: Scalar,
    t_max: Scalar,
) -> Option<HitRecord> {
    within(oracle(ray, object, t_min, t_max), t_min, t_max)
}

/// The upper bound for what is still to be queried: the parameter of the
/// hit found so far, or `t_max` if there is none.
pub open spec fn tightened(found: Option<HitRecord>, t_max: Scalar) -> Scalar {
    match found {
        Some(record) => record.t,
        None => t_max,
    }
}

/// The later of two answers if it is a hit, else the earlier one.
pub open spec fn closer(first: Option<HitRecord>, second: Option<HitRecord>) -> Option<
    HitRecord,
> {
    if second is Some {
        second
    } else {
        first
    }
}

/// Queries one object and keeps the answer only if it is a hit strictly
/// between the two ray parameters.
pub fn query<F>(ray: &Ray, object: usize, t_min: Scalar, t_max: Scalar, hit: &F) -> (found:
    Option<HitRecord>) where F: Fn(&Ray, usize, Scalar, Scalar) -> Option<HitRecord>
    requires
        hits_can_be_asked(*hit),
    ensures
        found matches Some(record) ==> t_min < record.t < t_max,
        exists|out: Option<HitRecord>|
            #[trigger] call_ensures(*hit, (ray, object, t_min, t_max), out) && found == within(
                out,
                t_min,
                t_max,
            ),
        forall|oracle: spec_fn(Ray, usize, Scalar, Scalar) -> Option<HitRecord>|
            hits_are(*hit, oracle) ==> found == #[trigger] probe(
                oracle,
                *ray,
                object,
                t_min,
                t_max,
            ),
{
    let out = hit(ray, object, t_min, t_max);
    match out {
        Some(record) => if t_min < record.t && record.t < t_max {
            out
        } else {
            None
        },
        None => None,
    }
}

/// The upper bound for what is still to be queried after `found`.
pub fn tighten(found: &Option<HitRecord>, t_max: Scalar) -> (bound: Scalar)
    ensures
        bound == tightened(*found, t_max),
{
    match found {
        Some(record) => record.t,
        None => t_max,
    }
}

impl HitRecord {
    /// Records which face was hit and stores the normal that opposes the ray.
    ///
    /// `facing` is the dot product of the ray's direction and the outward
    /// normal. The front face was hit when it is less than zero, and the
    /// outward normal is then stored as it is; otherwise its negation is
    /// stored.
    pub fn set_face_normal(&mut self, facing: Scalar, outward_normal: Vec3)
        ensures
            final(self).front_face == crate::scalar::is_less(facing, 0),
            final(self).normal == if crate::scalar::is_less(facing, 0) {
                outward_normal
            } else {
                outward_normal.negation()
            },
            final(self).p == old(self).p,
            final(self).t == old(self).t,
            final(self).material == old(self).material,
    {
        self.front_face = crate::scalar::less(facing, crate::scalar::ZERO);
        self.normal = if self.front_face {
            outward_normal
        } else {
            core::ops::Neg::neg(outward_normal)
        };
    }
}

} // verus!
