//! A flat list of objects.
use crate::aabb::AABB;
use crate::object::{query, tighten, HitRecord, ObjectRef};
use crate::ray::Ray;
use crate::scalar::Scalar;
use vstd::prelude::*;

verus! {

/// The objects of a scene, one after the other.
#[derive(Clone, Debug)]
pub struct ObjectList {
    pub objects: Vec<ObjectRef>,
}

/// The nearest hit among a sequence of objects, found by asking each in
/// turn for a hit nearer than the nearest so far.
pub open spec fn scan(
    objects: Seq<ObjectRef>,
    oracle: spec_fn(Ray, usize, Scalar, Scalar) -> Option<HitRecord>,
    ray: Ray,
    t_min: Scalar,
    t_max: Scalar,
) -> Option<HitRecord>
    decreases objects.len(),
{
    if objects.len() == 0 {
        None
    } else {
        let found = scan(objects.drop_last(), oracle, ray, t_min, t_max);
        crate::object::closer(
            found,
            crate::object::probe(
                oracle,
                ray,
                objects.last().index,
                t_min,
                crate::object::tightened(found, t_max),
            ),
        )
    }
}

/// Whether `found` may come of scanning a sequence of objects when
/// `so_far` is the nearest hit found before, given what `hit` may answer:
/// each object in turn is asked for a hit nearer than the nearest so far,
/// and an answer that is such a hit becomes the nearest.
pub open spec fn may_scan<F: Fn(&Ray, usize, Scalar, Scalar) -> Option<HitRecord>>(
    objects: Seq<ObjectRef>,
    hit: F,
    ray: Ray,
    t_min: Scalar,
    t_max: Scalar,
    so_far: Option<HitRecord>,
    found: Option<HitRecord>,
) -> bool
    decreases objects.len(),
{
    if objects.len() == 0 {
        found == so_far
    } else {
        exists|out: Option<HitRecord>|
            {
                &&& #[trigger] call_ensures(
                    hit,
                    (&ray, objects[0].index, t_min, crate::object::tightened(so_far, t_max)),
                    out,
                )
                &&& may_scan(
                    objects.drop_first(),
                    hit,
                    ray,
                    t_min,
                    t_max,
                    crate::object::closer(
                        so_far,
                        crate::object::within(
                            out,
                            t_min,
                            crate::object::tightened(so_far, t_max),
                        ),
                    ),
                    found,
                )
            }
    }
}

/// The box around a sequence of objects: the union of their boxes, or
/// nothing if there is no object or one of them has no box.
pub open spec fn hull(objects: Seq<ObjectRef>) -> Option<AABB>
    decreases objects.len(),
{
    if objects.len() == 0 {
        None
    } else if objects.len() == 1 {
        objects[0].bounding_box
    } else {
        match (hull(objects.drop_last()), objects.last().bounding_box) {
            (Some(around), Some(last)) => Some(around.union(last)),
            _ => None,
        }
    }
}

impl View for ObjectList {
    type V = Seq<ObjectRef>;

    /// The objects of the list, in their order.
    open spec fn view(&self) -> Seq<ObjectRef> {
        self.objects@
    }
}

impl ObjectList {
    /// The objects from place `start` up to, but not including, place `end`.
    pub open spec fn stretch(self, start: int, end: int) -> Seq<ObjectRef> {
        self@.subrange(start, end)
    }

    /// Whether `self` is `before` with the stretch from `start` to `end`
    /// rearranged: the list is as long as it was, the stretch holds the
    /// objects it held, each as often as before, and every other place
    /// holds what it held.
    pub open spec fn is_rearranged(self, before: ObjectList, start: int, end: int) -> bool {
        &&& self@.len() == before@.len()
        &&& self.stretch(start, end).to_multiset() == before.stretch(start, end).to_multiset()
        &&& forall|i: int| 0 <= i < start || end <= i < before@.len() ==> self@[i] == before@[i]
    }

    /// The list of the given objects, in their order.
    pub fn new(objects: Vec<ObjectRef>) -> (list: ObjectList)
        ensures
            list.objects == objects,
            list@ == objects@,
    {
        ObjectList { objects }
    }

    /// Finds the nearest hit of a ray among the objects of the list.
    ///
    /// `hit` is asked about each object in turn, for a hit after `t_min`
    /// and before the nearest hit so far, or before `t_max` while there is
    /// none.
    pub fn hit<F>(&self, ray: &Ray, t_min: Scalar, t_max: Scalar, hit: &F) -> (found: Option<
        HitRecord,
    >) where F: Fn(&Ray, usize, Scalar, Scalar) -> Option<HitRecord>
        requires
            crate::object::hits_can_be_asked(*hit),
        ensures
            found matches Some(record) ==> t_min < record.t < t_max,
            forall|oracle: spec_fn(Ray, usize, Scalar, Scalar) -> Option<HitRecord>|
                crate::object::hits_are(*hit, oracle) ==> found == #[trigger] scan(
                    self.objects@,
                    oracle,
                    *ray,
                    t_min,
                    t_max,
                ),
    {
        let mut found: Option<HitRecord> = None;
        let mut i: usize = 0;
        assert(self@.skip(0) =~= self@);
        while i < self.objects.len()
            invariant
                i <= self.objects.len(),
                crate::object::hits_can_be_asked(*hit),
                found matches Some(record) ==> t_min < record.t < t_max,
                forall|end: Option<HitRecord>| #[trigger]
                    may_scan(self@.skip(i as int), *hit, *ray, t_min, t_max, found, end)
                        ==> may_scan(self@, *hit, *ray, t_min, t_max, None, end),
                forall|oracle: spec_fn(Ray, usize, Scalar, Scalar) -> Option<HitRecord>|
                    crate::object::hits_are(*hit, oracle) ==> found == #[trigger] scan(
                        self.objects@.take(i as int),
                        oracle,
                        *ray,
                        t_min,
                        t_max,
                    ),
            decreases self.objects.len() - i,
        {
            let closest_so_far = tighten(&found, t_max);
            let next = query(ray, self.objects[i].index, t_min, closest_so_far, hit);
            let ghost before = found;
            if next.is_some() {
                found = next;
            }
            proof {
                let out = choose|out: Option<HitRecord>|
                    #[trigger] call_ensures(
                        *hit,
                        (ray, self.objects@[i as int].index, t_min, closest_so_far),
                        out,
                    ) && next == crate::object::within(out, t_min, closest_so_far);
                let rest = self@.skip(i as int);
                assert(rest[0] == self.objects@[i as int]);
                assert(rest.drop_first() =~= self@.skip(i + 1));
                let later = self@.skip(i + 1);
                assert forall|end: Option<HitRecord>| #[trigger]
                    may_scan(later, *hit, *ray, t_min, t_max, found, end) implies may_scan(
                    self@,
                    *hit,
                    *ray,
                    t_min,
                    t_max,
                    None,
                    end,
                ) by {
                    assert(may_scan(rest, *hit, *ray, t_min, t_max, before, end));
                }
                let upto = self.objects@.take(i + 1);
                assert(upto.drop_last() =~= self.objects@.take(i as int));
                assert(upto.last() == self.objects@[i as int]);
                assert forall|oracle: spec_fn(Ray, usize, Scalar, Scalar) -> Option<HitRecord>|
                    crate::object::hits_are(*hit, oracle) implies found == #[trigger] scan(
                    upto,
                    oracle,
                    *ray,
                    t_min,
                    t_max,
                ) by {
                    assert(before == scan(
                        self.objects@.take(i as int),
                        oracle,
                        *ray,
                        t_min,
                        t_max,
                    ));
                    assert(next == crate::object::probe(
                        oracle,
                        *ray,
                        self.objects@[i as int].index,
                        t_min,
                        closest_so_far,
                    ));
                }
            }
            i = i + 1;
        }
        assert(self.objects@.take(i as int) =~= self.objects@);
        assert(may_scan(self@.skip(i as int), *hit, *ray, t_min, t_max, found, found));
        found
    }

    /// The box around all the objects of the list, if there is one.
    pub fn bounding_box(&self) -> (around: Option<AABB>)
        ensures
            around == hull(self@),
    {
        if self.objects.len() == 0 {
            return None;
        }
        let mut output_box = self.objects[0].bounding_box;
        assert(self.objects@.take(1) =~= seq![self.objects@[0]]);
        let mut i: usize = 1;
        while i < self.objects.len()
            invariant
                1 <= i <= self.objects.len(),
                output_box == hull(self.objects@.take(i as int)),
            decreases self.objects.len() - i,
        {
            proof {
                let upto = self.objects@.take(i + 1);
                assert(upto.drop_last() =~= self.objects@.take(i as int));
                assert(upto.last() == self.objects@[i as int]);
            }
            output_box = match (output_box, self.objects[i].bounding_box) {
                (Some(around), Some(temp_box)) => Some(AABB::bounding_box(&around, &temp_box)),
                _ => None,
            };
            i = i + 1;
        }
        assert(self.objects@.take(i as int) =~= self.objects@);
        output_box
    }
}

/// A sequence of objects has a box around it exactly when it is not empty
/// and each of its objects has a box. That box encloses the box of every
/// object, and it is the tightest box that does: whatever encloses them all
/// encloses it.
pub proof fn lemma_hull_is_tightest(objects: Seq<ObjectRef>, other: AABB)
    ensures
        hull(objects) is Some <==> objects.len() > 0 && forall|i: int|
            0 <= i < objects.len() ==> (#[trigger] objects[i]).bounding_box is Some,
        hull(objects) matches Some(around) ==> forall|i: int|
            0 <= i < objects.len() ==> around.encloses(
                (#[trigger] objects[i]).bounding_box.unwrap(),
            ),
        hull(objects) matches Some(around) ==> ((forall|i: int|
            0 <= i < objects.len() ==> other.encloses(
                (#[trigger] objects[i]).bounding_box.unwrap(),
            )) ==> other.encloses(around)),
    decreases objects.len(),
{
    if objects.len() == 1 {
        assert(objects[0].bounding_box is Some ==> objects[0].bounding_box.unwrap().encloses(
            objects[0].bounding_box.unwrap(),
        ));
    } else if objects.len() > 1 {
        let front = objects.drop_last();
        lemma_hull_is_tightest(front, other);
        assert forall|i: int| 0 <= i < front.len() implies front[i] == objects[i] by {}
        assert(objects.last() == objects[objects.len() - 1]);
        if hull(front) is Some && objects.last().bounding_box is Some {
            let around = hull(front).unwrap();
            let last = objects.last().bounding_box.unwrap();
            crate::aabb::lemma_union_is_tightest(around, last, other);
            assert forall|i: int| 0 <= i < objects.len() implies around.union(last).encloses(
                (#[trigger] objects[i]).bounding_box.unwrap(),
            ) by {
                if i < front.len() {
                    assert(front[i] == objects[i]);
                    assert(around.encloses(front[i].bounding_box.unwrap()));
                }
            }
            if forall|i: int|
                0 <= i < objects.len() ==> other.encloses(
                    (#[trigger] objects[i]).bounding_box.unwrap(),
                ) {
                assert forall|i: int| 0 <= i < front.len() implies other.encloses(
                    (#[trigger] front[i]).bounding_box.unwrap(),
                ) by {
                    assert(front[i] == objects[i]);
                }
            }
            assert forall|i: int| 0 <= i < objects.len() implies (
            #[trigger] objects[i]).bounding_box is Some by {
                if i < front.len() {
                    assert(front[i] == objects[i]);
                }
            }
        } else {
            if hull(front) is None {
                if front.len() > 0 {
                    let i = choose|i: int|
                        0 <= i < front.len() && !((#[trigger] front[i]).bounding_box is Some);
                    assert(front[i] == objects[i]);
                }
            }
        }
    }
}

} // verus!
