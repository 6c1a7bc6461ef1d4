//! Axis-aligned bounding boxes: the slab test against a ray and the union.
use crate::ray::Ray;
use crate::scalar::Scalar;
use crate::vec3::Vec3;
use vstd::prelude::*;

verus! {

/// A box with its faces along the axes, by its two extreme corners.
///
/// A box is *ordered* when no coordinate of `minimum` exceeds that of
/// `maximum`. Nothing here needs a box to be ordered; the union keeps the
/// property where both boxes have it.
#[derive(Clone, Copy, Debug, PartialEq, Eq, Structural)]
pub struct AABB {
    pub minimum: Vec3,
    pub maximum: Vec3,
}

/// Where a ray crosses the two planes that bound a box along one axis.
///
/// `near` is the parameter at which the ray crosses the plane through the
/// box's minimum coordinate, `far` the one for its maximum coordinate, and
/// `reversed` says that the ray runs against the axis, so that it enters
/// through the far plane.
#[derive(Clone, Copy, Debug, PartialEq, Eq, Structural)]
pub struct Slab {
    pub near: Scalar,
    pub far: Scalar,
    pub reversed: bool,
}

impl Slab {
    /// The parameter at which the ray enters the slab.
    pub open spec fn entry(self) -> Scalar {
        if self.reversed {
            self.far
        } else {
            self.near
        }
    }

    /// The parameter at which the ray leaves the slab.
    pub open spec fn exit(self) -> Scalar {
        if self.reversed {
            self.near
        } else {
            self.far
        }
    }

    /// Whether both crossings are numbers.
    pub open spec fn is_defined(self) -> bool {
        crate::scalar::is_number(self.near) && crate::scalar::is_number(self.far)
    }
}

/// The smaller of two keys.
pub open spec fn lesser(a: Scalar, b: Scalar) -> Scalar {
    if a <= b {
        a
    } else {
        b
    }
}

/// The larger of two keys.
pub open spec fn greater(a: Scalar, b: Scalar) -> Scalar {
    if a >= b {
        a
    } else {
        b
    }
}

/// Whether `slab` can be asked about every ray, each of the three axes and
/// every pair of coordinates.
pub open spec fn slabs_can_be_asked<F: Fn(&Ray, usize, Scalar, Scalar) -> Slab>(slab: F) -> bool {
    forall|ray: &Ray, axis: usize, low: Scalar, high: Scalar|
        axis < 3 ==> call_requires(slab, (ray, axis, low, high))
}

/// Whether `oracle` says what `slab` answers: whatever `slab` may return
/// for a ray, an axis and the two coordinates of a box along it is what
/// `oracle` gives for them.
pub open spec fn slabs_are<F: Fn(&Ray, usize, Scalar, Scalar) -> Slab>(
    slab: F,
    oracle: spec_fn(Ray, usize, Scalar, Scalar) -> Slab,
) -> bool {
    forall|ray: &Ray, axis: usize, low: Scalar, high: Scalar, out: Slab|
        call_ensures(slab, (ray, axis, low, high), out) ==> out == oracle(*ray, axis, low, high)
}

/// The interval that is left of `(t_min, t_max)` once it is cut down to a
/// slab, or nothing if a crossing is no number or nothing is left.
pub open spec fn narrowed(slab: Slab, t_min: Scalar, t_max: Scalar) -> Option<(Scalar, Scalar)> {
    if !slab.is_defined() {
        None
    } else if lesser(t_max, slab.exit()) <= greater(t_min, slab.entry()) {
        None
    } else {
        Some((greater(t_min, slab.entry()), lesser(t_max, slab.exit())))
    }
}

impl AABB {
    /// What is left of `(t_min, t_max)` after the slabs of the first `axes`
    /// axes have been cut from it in turn.
    pub open spec fn narrowed_by(
        self,
        oracle: spec_fn(Ray, usize, Scalar, Scalar) -> Slab,
        ray: Ray,
        t_min: Scalar,
        t_max: Scalar,
        axes: nat,
    ) -> Option<(Scalar, Scalar)>
        decreases axes,
    {
        if axes == 0 {
            Some((t_min, t_max))
        } else {
            let axis = (axes - 1) as usize;
            match self.narrowed_by(oracle, ray, t_min, t_max, (axes - 1) as nat) {
                None => None,
                Some((low, high)) => narrowed(
                    oracle(
                        ray,
                        axis,
                        self.minimum.component(axis as int),
                        self.maximum.component(axis as int),
                    ),
                    low,
                    high,
                ),
            }
        }
    }

    /// Whether `met` may be the answer once the slabs from `axis` on have
    /// been cut from what is `left` of the interval, given what `slab` may
    /// answer. Where nothing is left the answer is no and `slab` is asked no
    /// more; after the third axis the answer is whether anything is left.
    pub open spec fn may_end<F: Fn(&Ray, usize, Scalar, Scalar) -> Slab>(
        self,
        slab: F,
        ray: Ray,
        axis: nat,
        left: Option<(Scalar, Scalar)>,
        met: bool,
    ) -> bool
        decreases 3 - axis,
    {
        if axis >= 3 {
            met == (left is Some)
        } else {
            match left {
                None => !met,
                Some((low, high)) => exists|crossing: Slab|
                    {
                        &&& #[trigger] call_ensures(
                            slab,
                            (
                                &ray,
                                axis as usize,
                                self.minimum.component(axis as int),
                                self.maximum.component(axis as int),
                            ),
                            crossing,
                        )
                        &&& self.may_end(
                            slab,
                            ray,
                            axis + 1,
                            narrowed(crossing, low, high),
                            met,
                        )
                    },
            }
        }
    }

    /// Whether `met` may be the answer to whether the ray passes through the
    /// box between `t_min` and `t_max`, given what `slab` may answer: the
    /// interval is cut down to the slabs of the three axes in turn, each as
    /// `slab` answers for it, and the ray passes where something is left.
    pub open spec fn may_meet<F: Fn(&Ray, usize, Scalar, Scalar) -> Slab>(
        self,
        slab: F,
        ray: Ray,
        t_min: Scalar,
        t_max: Scalar,
        met: bool,
    ) -> bool {
        self.may_end(slab, ray, 0, Some((t_min, t_max)), met)
    }

    /// Whether the ray passes through the box somewhere between `t_min`
    /// and `t_max`.
    ///
    /// It does when the crossings of all three slabs are numbers and the
    /// latest of `t_min` and the three entries comes strictly before the
    /// earliest of `t_max` and the three exits.
    pub open spec fn meets(
        self,
        oracle: spec_fn(Ray, usize, Scalar, Scalar) -> Slab,
        ray: Ray,
        t_min: Scalar,
        t_max: Scalar,
    ) -> bool {
        let x = oracle(ray, 0, self.minimum.x, self.maximum.x);
        let y = oracle(ray, 1, self.minimum.y, self.maximum.y);
        let z = oracle(ray, 2, self.minimum.z, self.maximum.z);
        &&& x.is_defined()
        &&& y.is_defined()
        &&& z.is_defined()
        &&& greater(greater(greater(t_min, x.entry()), y.entry()), z.entry()) < lesser(
            lesser(lesser(t_max, x.exit()), y.exit()),
            z.exit(),
        )
    }

    /// Whether no coordinate of the minimum corner exceeds that of the maximum corner.
    pub open spec fn is_ordered(self) -> bool {
        &&& self.minimum.x <= self.maximum.x
        &&& self.minimum.y <= self.maximum.y
        &&& self.minimum.z <= self.maximum.z
    }

    /// Whether a point lies in the box, faces included.
    pub open spec fn contains(self, p: Vec3) -> bool {
        &&& self.minimum.x <= p.x <= self.maximum.x
        &&& self.minimum.y <= p.y <= self.maximum.y
        &&& self.minimum.z <= p.z <= self.maximum.z
    }

    /// Whether the box reaches at least as far as `inner` in all six directions.
    pub open spec fn encloses(self, inner: AABB) -> bool {
        &&& self.minimum.x <= inner.minimum.x
        &&& self.minimum.y <= inner.minimum.y
        &&& self.minimum.z <= inner.minimum.z
        &&& inner.maximum.x <= self.maximum.x
        &&& inner.maximum.y <= self.maximum.y
        &&& inner.maximum.z <= self.maximum.z
    }

    /// The smallest box that reaches as far as both `self` and `other` in
    /// every direction.
    pub open spec fn union(self, other: AABB) -> AABB {
        AABB {
            minimum: Vec3 {
                x: lesser(self.minimum.x, other.minimum.x),
                y: lesser(self.minimum.y, other.minimum.y),
                z: lesser(self.minimum.z, other.minimum.z),
            },
            maximum: Vec3 {
                x: greater(self.maximum.x, other.maximum.x),
                y: greater(self.maximum.y, other.maximum.y),
                z: greater(self.maximum.z, other.maximum.z),
            },
        }
    }

    /// The box between two corners.
    pub fn new(minimum: Vec3, maximum: Vec3) -> (b: AABB)
        ensures
            b == (AABB { minimum, maximum }),
    {
        AABB { minimum, maximum }
    }

    /// Tests whether a ray passes through the box between two ray parameters.
    ///
    /// For each axis in turn, `slab` is asked where the ray crosses the two
    /// planes of the box, the entry and the exit are exchanged if the ray
    /// runs against the axis, and the interval is cut down to the slab. The
    /// answer is no as soon as a crossing is no number or the interval is
    /// empty.
    pub fn hit<F>(&self, ray: &Ray, t_min: Scalar, t_max: Scalar, slab: &F) -> (met: bool) where
        F: Fn(&Ray, usize, Scalar, Scalar) -> Slab,

        requires
            slabs_can_be_asked(*slab),
        ensures
            self.may_meet(*slab, *ray, t_min, t_max, met),
            forall|oracle: spec_fn(Ray, usize, Scalar, Scalar) -> Slab|
                slabs_are(*slab, oracle) ==> met == #[trigger] self.meets(
                    oracle,
                    *ray,
                    t_min,
                    t_max,
                ),
    {
        let mut low = t_min;
        let mut high = t_max;
        let mut axis: usize = 0;
        while axis < 3
            invariant
                axis <= 3,
                slabs_can_be_asked(*slab),
                self.may_end(*slab, *ray, axis as nat, Some((low, high)), true) ==> self.may_meet(
                    *slab,
                    *ray,
                    t_min,
                    t_max,
                    true,
                ),
                self.may_end(*slab, *ray, axis as nat, Some((low, high)), false)
                    ==> self.may_meet(*slab, *ray, t_min, t_max, false),
                forall|oracle: spec_fn(Ray, usize, Scalar, Scalar) -> Slab|
                    slabs_are(*slab, oracle) ==> #[trigger] self.narrowed_by(
                        oracle,
                        *ray,
                        t_min,
                        t_max,
                        axis as nat,
                    ) == Some((low, high)),
            decreases 3 - axis,
        {
            let crossing = slab(ray, axis, self.minimum.get(axis), self.maximum.get(axis));
            proof {
                let next = narrowed(crossing, low, high);
                assert(self.may_end(*slab, *ray, (axis + 1) as nat, next, true) ==> self.may_end(
                    *slab,
                    *ray,
                    axis as nat,
                    Some((low, high)),
                    true,
                ));
                assert(self.may_end(*slab, *ray, (axis + 1) as nat, next, false) ==> self.may_end(
                    *slab,
                    *ray,
                    axis as nat,
                    Some((low, high)),
                    false,
                ));
            }
            if crate::scalar::is_nan(crossing.near) || crate::scalar::is_nan(crossing.far) {
                proof {
                    lemma_nothing_is_left(*self, *slab, *ray, (axis + 1) as nat);
                    assert forall|oracle: spec_fn(Ray, usize, Scalar, Scalar) -> Slab|
                        slabs_are(*slab, oracle) implies !#[trigger] self.meets(
                        oracle,
                        *ray,
                        t_min,
                        t_max,
                    ) by {
                        assert(self.narrowed_by(oracle, *ray, t_min, t_max, axis as nat) == Some(
                            (low, high),
                        ));
                        lemma_meets_is_narrowing(*self, oracle, *ray, t_min, t_max);
                    }
                }
                return false;
            }
            let entry = if crossing.reversed {
                crossing.far
            } else {
                crossing.near
            };
            let exit = if crossing.reversed {
                crossing.near
            } else {
                crossing.far
            };
            let ghost before = (low, high);
            low = larger(low, entry);
            high = smaller(high, exit);
            if high <= low {
                proof {
                    lemma_nothing_is_left(*self, *slab, *ray, (axis + 1) as nat);
                    assert forall|oracle: spec_fn(Ray, usize, Scalar, Scalar) -> Slab|
                        slabs_are(*slab, oracle) implies !#[trigger] self.meets(
                        oracle,
                        *ray,
                        t_min,
                        t_max,
                    ) by {
                        assert(self.narrowed_by(oracle, *ray, t_min, t_max, axis as nat) == Some(
                            before,
                        ));
                        lemma_meets_is_narrowing(*self, oracle, *ray, t_min, t_max);
                    }
                }
                return false;
            }
            proof {
                assert forall|oracle: spec_fn(Ray, usize, Scalar, Scalar) -> Slab|
                    slabs_are(*slab, oracle) implies #[trigger] self.narrowed_by(
                    oracle,
                    *ray,
                    t_min,
                    t_max,
                    (axis + 1) as nat,
                ) == Some((low, high)) by {
                    assert(self.narrowed_by(oracle, *ray, t_min, t_max, axis as nat) == Some(
                        before,
                    ));
                }
            }
            axis = axis + 1;
        }
        proof {
            assert forall|oracle: spec_fn(Ray, usize, Scalar, Scalar) -> Slab|
                slabs_are(*slab, oracle) implies #[trigger] self.meets(
                oracle,
                *ray,
                t_min,
                t_max,
            ) by {
                assert(self.narrowed_by(oracle, *ray, t_min, t_max, 3) == Some((low, high)));
                lemma_meets_is_narrowing(*self, oracle, *ray, t_min, t_max);
            }
        }
        true
    }

    /// The union of two boxes.
    pub fn bounding_box(box0: &AABB, box1: &AABB) -> (out: AABB)
        ensures
            out == box0.union(*box1),
            box0.is_ordered() && box1.is_ordered() ==> out.is_ordered(),
    {
        let small = Vec3::new(
            smaller(box0.minimum.x, box1.minimum.x),
            smaller(box0.minimum.y, box1.minimum.y),
            smaller(box0.minimum.z, box1.minimum.z),
        );
        let big = Vec3::new(
            larger(box0.maximum.x, box1.maximum.x),
            larger(box0.maximum.y, box1.maximum.y),
            larger(box0.maximum.z, box1.maximum.z),
        );
        AABB::new(small, big)
    }
}

fn smaller(a: Scalar, b: Scalar) -> (m: Scalar)
    ensures
        m == lesser(a, b),
{
    if a <= b {
        a
    } else {
        b
    }
}

fn larger(a: Scalar, b: Scalar) -> (m: Scalar)
    ensures
        m == greater(a, b),
{
    if a >= b {
        a
    } else {
        b
    }
}

/// Once nothing is left of the interval the answer is no, at whichever axis.
proof fn lemma_nothing_is_left<F: Fn(&Ray, usize, Scalar, Scalar) -> Slab>(
    b: AABB,
    slab: F,
    ray: Ray,
    axis: nat,
)
    ensures
        b.may_end(slab, ray, axis, None, false),
{
}

/// A ray passes through a box exactly when cutting the interval down to the
/// three slabs in turn never leaves it empty; and once one cut has left
/// nothing, no later cut brings anything back.
pub proof fn lemma_meets_is_narrowing(
    b: AABB,
    oracle: spec_fn(Ray, usize, Scalar, Scalar) -> Slab,
    ray: Ray,
    t_min: Scalar,
    t_max: Scalar,
)
    ensures
        b.meets(oracle, ray, t_min, t_max) <==> b.narrowed_by(oracle, ray, t_min, t_max, 3)
            is Some,
        b.narrowed_by(oracle, ray, t_min, t_max, 1) is None ==> b.narrowed_by(
            oracle,
            ray,
            t_min,
            t_max,
            3,
        ) is None,
        b.narrowed_by(oracle, ray, t_min, t_max, 2) is None ==> b.narrowed_by(
            oracle,
            ray,
            t_min,
            t_max,
            3,
        ) is None,
{
    reveal_with_fuel(AABB::narrowed_by, 4);
}

/// The union of two boxes holds every point of either.
pub proof fn lemma_union_contains_both(a: AABB, b: AABB, p: Vec3)
    requires
        a.contains(p) || b.contains(p),
    ensures
        a.union(b).contains(p),
{
}

/// The union of two boxes encloses both, and it is the tightest box that
/// does: whatever encloses both encloses the union.
pub proof fn lemma_union_is_tightest(a: AABB, b: AABB, other: AABB)
    ensures
        a.union(b).encloses(a),
        a.union(b).encloses(b),
        other.encloses(a) && other.encloses(b) ==> other.encloses(a.union(b)),
{
}

/// A ray that runs along one axis, through a box whose other two slabs it
/// never leaves, passes through the box exactly where the interval between
/// `t_min` and `t_max` overlaps the stretch from where the ray enters the
/// slab of its own axis to where it leaves it.
pub proof fn lemma_ray_along_an_axis(
    b: AABB,
    oracle: spec_fn(Ray, usize, Scalar, Scalar) -> Slab,
    ray: Ray,
    axis: usize,
    t_min: Scalar,
    t_max: Scalar,
)
    requires
        axis < 3,
        crate::scalar::is_number(t_min),
        crate::scalar::is_number(t_max),
        forall|other: usize|
            other < 3 && other != axis ==> {
                let across = #[trigger] oracle(
                    ray,
                    other,
                    b.minimum.component(other as int),
                    b.maximum.component(other as int),
                );
                across.entry() == crate::scalar::NEG_INFINITY && across.exit()
                    == crate::scalar::INFINITY
            },
        oracle(
            ray,
            axis,
            b.minimum.component(axis as int),
            b.maximum.component(axis as int),
        ).is_defined(),
    ensures
        ({
            let along = oracle(
                ray,
                axis,
                b.minimum.component(axis as int),
                b.maximum.component(axis as int),
            );
            b.meets(oracle, ray, t_min, t_max) <==> greater(t_min, along.entry()) < lesser(
                t_max,
                along.exit(),
            )
        }),
{
    let x = oracle(ray, 0, b.minimum.x, b.maximum.x);
    let y = oracle(ray, 1, b.minimum.y, b.maximum.y);
    let z = oracle(ray, 2, b.minimum.z, b.maximum.z);
    assert(b.minimum.component(0) == b.minimum.x && b.maximum.component(0) == b.maximum.x);
    assert(b.minimum.component(1) == b.minimum.y && b.maximum.component(1) == b.maximum.y);
    assert(b.minimum.component(2) == b.minimum.z && b.maximum.component(2) == b.maximum.z);
    if axis != 0 {
        assert(x.entry() == crate::scalar::NEG_INFINITY && x.exit() == crate::scalar::INFINITY);
    }
    if axis != 1 {
        assert(y.entry() == crate::scalar::NEG_INFINITY && y.exit() == crate::scalar::INFINITY);
    }
    if axis != 2 {
        assert(z.entry() == crate::scalar::NEG_INFINITY && z.exit() == crate::scalar::INFINITY);
    }
}

} // verus!
