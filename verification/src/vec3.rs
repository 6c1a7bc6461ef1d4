//! Triples of scalars: points and directions.
use crate::scalar::Scalar;
use vstd::prelude::*;

verus! {

/// The key of `1e-8`: a direction whose three components all lie strictly
/// between the negation of this and this counts as having no direction.
pub const NEAR_ZERO: Scalar = 0x3E45_798E_E230_8C3A;

/// A point or a direction in space, by the keys of its three coordinates.
#[derive(Clone, Copy, Debug, PartialEq, Eq, Structural)]
pub struct Vec3 {
    pub x: Scalar,
    pub y: Scalar,
    pub z: Scalar,
}

impl Vec3 {
    /// The coordinate along an axis: 0 for `x`, 1 for `y`, anything else for `z`.
    pub open spec fn component(self, axis: int) -> Scalar {
        if axis == 0 {
            self.x
        } else if axis == 1 {
            self.y
        } else {
            self.z
        }
    }

    /// The coordinates negated, each as [`crate::scalar::negated`] has it.
    pub open spec fn negation(self) -> Vec3 {
        Vec3 {
            x: crate::scalar::negated(self.x),
            y: crate::scalar::negated(self.y),
            z: crate::scalar::negated(self.z),
        }
    }

    /// Whether every coordinate is closer to zero than `1e-8`.
    pub open spec fn is_near_zero(self) -> bool {
        &&& -NEAR_ZERO < self.x < NEAR_ZERO
        &&& -NEAR_ZERO < self.y < NEAR_ZERO
        &&& -NEAR_ZERO < self.z < NEAR_ZERO
    }

    /// The vector with the given coordinates.
    pub fn new(x: Scalar, y: Scalar, z: Scalar) -> (v: Vec3)
        ensures
            v == (Vec3 { x, y, z }),
    {
        Vec3 { x, y, z }
    }

    /// The point all of whose coordinates are zero.
    pub fn origin() -> (v: Vec3)
        ensures
            v == (Vec3 { x: 0, y: 0, z: 0 }),
    {
        Vec3 { x: 0, y: 0, z: 0 }
    }

    /// The coordinate along one of the three axes.
    pub fn get(&self, axis: usize) -> (c: Scalar)
        requires
            axis < 3,
        ensures
            c == self.component(axis as int),
    {
        if axis == 0 {
            self.x
        } else if axis == 1 {
            self.y
        } else {
            self.z
        }
    }

    /// Tells whether the vector is too short to give a direction.
    pub fn near_zero(&self) -> (near: bool)
        ensures
            near == self.is_near_zero(),
    {
        -NEAR_ZERO < self.x && self.x < NEAR_ZERO && -NEAR_ZERO < self.y && self.y < NEAR_ZERO
            && -NEAR_ZERO < self.z && self.z < NEAR_ZERO
    }
}

impl core::ops::Neg for Vec3 {
    type Output = Vec3;

    fn neg(self) -> (out: Vec3) {
        Vec3 {
            x: crate::scalar::negate(self.x),
            y: crate::scalar::negate(self.y),
            z: crate::scalar::negate(self.z),
        }
    }
}

impl vstd::std_specs::ops::NegSpecImpl for Vec3 {
    open spec fn obeys_neg_spec() -> bool {
        true
    }

    open spec fn neg_req(self) -> bool {
        true
    }

    open spec fn neg_spec(self) -> Vec3 {
        self.negation()
    }
}

/// Negating a vector twice gives it back.
pub proof fn lemma_negation_is_an_involution(v: Vec3)
    ensures
        v.negation().negation() == v,
{
}

} // verus!
