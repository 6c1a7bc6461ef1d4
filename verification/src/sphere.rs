//! Spheres: which of the two places where a ray's line meets a sphere
//! counts as the hit, and what is recorded of it.
use crate::object::HitRecord;
use crate::scalar::Scalar;
use crate::vec3::Vec3;
use vstd::prelude::*;

verus! {

/// A sphere, and the place of its material in the caller's table of materials.
#[derive(Clone, Copy, Debug, PartialEq, Eq, Structural)]
pub struct Sphere {
    pub center: Vec3,
    pub radius: Scalar,
    pub material: usize,
}

/// One of the places where a ray's line meets a sphere.
#[derive(Clone, Copy, Debug, PartialEq, Eq, Structural)]
pub struct Crossing {
    /// The ray parameter of the place.
    pub t: Scalar,
    /// The place itself.
    pub p: Vec3,
    /// The normal there that points out of the sphere.
    pub outward_normal: Vec3,
    /// The dot product of the ray's direction and that normal.
    pub facing: Scalar,
}

/// What solving for the meeting of a ray and a sphere gives: the
/// discriminant of the quadratic, and the two places for its two roots,
/// the smaller root first. The places mean something only where the
/// discriminant is not negative.
#[derive(Clone, Copy, Debug, PartialEq, Eq, Structural)]
pub struct Roots {
    pub discriminant: Scalar,
    pub near: Crossing,
    pub far: Crossing,
}

/// The place at which a sphere is hit between two ray parameters.
///
/// There is no hit where the discriminant is negative or no number.
/// Otherwise it is the near place if its ray parameter lies strictly
/// between `t_min` and `t_max`, else the far place if its parameter does,
/// else there is none.
pub open spec fn first_within(roots: Roots, t_min: Scalar, t_max: Scalar) -> Option<Crossing> {
    if !crate::scalar::is_number(roots.discriminant) || roots.discriminant < 0 {
        None
    } else if t_min < roots.near.t < t_max {
        Some(roots.near)
    } else if t_min < roots.far.t < t_max {
        Some(roots.far)
    } else {
        None
    }
}

/// What is recorded of a hit at a place: the front face was hit where the
/// ray runs against the outward normal, and the normal that is recorded is
/// the one that opposes the ray.
pub open spec fn record_of(crossing: Crossing, material: usize) -> HitRecord {
    HitRecord {
        p: crossing.p,
        normal: if crate::scalar::is_less(crossing.facing, 0) {
            crossing.outward_normal
        } else {
            crossing.outward_normal.negation()
        },
        t: crossing.t,
        front_face: crate::scalar::is_less(crossing.facing, 0),
        material,
    }
}

impl Sphere {
    /// What is hit of the sphere between two ray parameters, given what
    /// solving for the meeting of the ray and the sphere gave.
    pub open spec fn found(self, roots: Roots, t_min: Scalar, t_max: Scalar) -> Option<HitRecord> {
        match first_within(roots, t_min, t_max) {
            Some(crossing) => Some(record_of(crossing, self.material)),
            None => None,
        }
    }

    /// The sphere around a centre, with a radius and a material.
    pub fn new(center: Vec3, radius: Scalar, material: usize) -> (sphere: Sphere)
        ensures
            sphere == (Sphere { center, radius, material }),
    {
        Sphere { center, radius, material }
    }

    /// Finds where a ray hits the sphere between two ray parameters, from
    /// what solving for their meeting gave.
    pub fn hit(&self, roots: &Roots, t_min: Scalar, t_max: Scalar) -> (rec: Option<HitRecord>)
        ensures
            rec == self.found(*roots, t_min, t_max),
            rec matches Some(record) ==> t_min < record.t < t_max,
    {
        if crate::scalar::is_nan(roots.discriminant) || roots.discriminant < crate::scalar::ZERO {
            return None;
        }
        let crossing = if t_min < roots.near.t && roots.near.t < t_max {
            roots.near
        } else if t_min < roots.far.t && roots.far.t < t_max {
            roots.far
        } else {
            return None;
        };
        let mut rec = HitRecord {
            p: crossing.p,
            normal: crossing.outward_normal,
            t: crossing.t,
            front_face: false,
            material: self.material,
        };
        rec.set_face_normal(crossing.facing, crossing.outward_normal);
        Some(rec)
    }
}

/// A sphere answers alike whatever bound it is asked with: asked with an
/// earlier upper bound, it is hit at the same place if that lies before the
/// bound, and not at all otherwise.
pub proof fn lemma_sphere_answers_alike(
    sphere: Sphere,
    roots: Roots,
    t_min: Scalar,
    bound: Scalar,
    t_max: Scalar,
)
    requires
        bound <= t_max,
        roots.near.t <= roots.far.t,
    ensures
        sphere.found(roots, t_min, bound) == crate::object::within(
            sphere.found(roots, t_min, t_max),
            t_min,
            bound,
        ),
{
}

} // verus!
