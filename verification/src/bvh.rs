//! The bounding-volume hierarchy: a binary tree over the objects of a scene,
//! built once, that lets a ray skip whole groups of objects whose common
//! bounding box it misses.
use crate::aabb::{Slab, AABB};
use crate::error::ConfigError;
use crate::object::{query, tighten, HitRecord, ObjectRef};
use crate::object_list::ObjectList;
use crate::order::arrange;
use crate::ray::Ray;
use crate::scalar::Scalar;
use vstd::prelude::*;

verus! {

/// What hangs below a node: one object, or another node.
#[derive(Debug)]
pub enum BVHChild {
    Object { index: usize, bounding_box: AABB },
    Node(Box<BVHNode>),
}

/// A node of the hierarchy: two children and a box around both.
#[derive(Debug)]
pub struct BVHNode {
    pub left: BVHChild,
    pub right: BVHChild,
    pub bounding_box: AABB,
}

/// The child that stands for one object.
pub open spec fn leaf_of(object: ObjectRef) -> BVHChild {
    BVHChild::Object { index: object.index, bounding_box: object.bounding_box.unwrap() }
}

impl BVHChild {
    /// The box around all that hangs below.
    pub open spec fn bounds(self) -> AABB {
        match self {
            BVHChild::Object { index, bounding_box } => bounding_box,
            BVHChild::Node(node) => node.bounding_box,
        }
    }

    /// The nearest hit below this child between two ray parameters.
    pub open spec fn nearest(
        self,
        slabs: spec_fn(Ray, usize, Scalar, Scalar) -> Slab,
        hits: spec_fn(Ray, usize, Scalar, Scalar) -> Option<HitRecord>,
        ray: Ray,
        t_min: Scalar,
        t_max: Scalar,
    ) -> Option<HitRecord>
        decreases self,
    {
        match self {
            BVHChild::Object { index, bounding_box } => crate::object::probe(
                hits,
                ray,
                index,
                t_min,
                t_max,
            ),
            BVHChild::Node(node) => node.nearest(slabs, hits, ray, t_min, t_max),
        }
    }

    /// Whether `found` may come of querying this child, given what `slab`
    /// and `hit` may answer: what the object answers, if that is a hit
    /// strictly between the two ray parameters, or what the node finds.
    pub open spec fn may_find<S, H>(
        self,
        slab: S,
        hit: H,
        ray: Ray,
        t_min: Scalar,
        t_max: Scalar,
        found: Option<HitRecord>,
    ) -> bool where
        S: Fn(&Ray, usize, Scalar, Scalar) -> Slab,
        H: Fn(&Ray, usize, Scalar, Scalar) -> Option<HitRecord>,

        decreases self,
    {
        match self {
            BVHChild::Object { index, bounding_box } => exists|out: Option<HitRecord>|
                #[trigger] call_ensures(hit, (&ray, index, t_min, t_max), out) && found
                    == crate::object::within(out, t_min, t_max),
            BVHChild::Node(node) => node.may_find(slab, hit, ray, t_min, t_max, found),
        }
    }

    /// Finds the nearest hit below this child: the object is queried, or
    /// the node is.
    pub fn hit<S, H>(&self, ray: &Ray, t_min: Scalar, t_max: Scalar, slab: &S, hit: &H) -> (found:
        Option<HitRecord>) where
        S: Fn(&Ray, usize, Scalar, Scalar) -> Slab,
        H: Fn(&Ray, usize, Scalar, Scalar) -> Option<HitRecord>,

        requires
            crate::aabb::slabs_can_be_asked(*slab),
            crate::object::hits_can_be_asked(*hit),
        ensures
            found matches Some(record) ==> t_min < record.t < t_max,
            self.may_find(*slab, *hit, *ray, t_min, t_max, found),
            forall|
                slabs: spec_fn(Ray, usize, Scalar, Scalar) -> Slab,
                hits: spec_fn(Ray, usize, Scalar, Scalar) -> Option<HitRecord>,
            |
                crate::aabb::slabs_are(*slab, slabs) && crate::object::hits_are(*hit, hits)
                    ==> found == #[trigger] self.nearest(slabs, hits, *ray, t_min, t_max),
        decreases self,
    {
        match self {
            BVHChild::Object { index, bounding_box } => {
                let found = query(ray, *index, t_min, t_max, hit);
                proof {
                    assert forall|
                        slabs: spec_fn(Ray, usize, Scalar, Scalar) -> Slab,
                        hits: spec_fn(Ray, usize, Scalar, Scalar) -> Option<HitRecord>,
                    |
                        crate::aabb::slabs_are(*slab, slabs) && crate::object::hits_are(
                            *hit,
                            hits,
                        ) implies found == #[trigger] self.nearest(
                        slabs,
                        hits,
                        *ray,
                        t_min,
                        t_max,
                    ) by {
                        assert(found == crate::object::probe(hits, *ray, *index, t_min, t_max));
                    }
                }
                found
            },
            BVHChild::Node(node) => {
                let found = node.hit(ray, t_min, t_max, slab, hit);
                proof {
                    assert forall|
                        slabs: spec_fn(Ray, usize, Scalar, Scalar) -> Slab,
                        hits: spec_fn(Ray, usize, Scalar, Scalar) -> Option<HitRecord>,
                    |
                        crate::aabb::slabs_are(*slab, slabs) && crate::object::hits_are(
                            *hit,
                            hits,
                        ) implies found == #[trigger] self.nearest(
                        slabs,
                        hits,
                        *ray,
                        t_min,
                        t_max,
                    ) by {
                        assert(found == node.nearest(slabs, hits, *ray, t_min, t_max));
                    }
                }
                found
            },
        }
    }
}

impl BVHNode {
    /// The nearest hit in the hierarchy between two ray parameters.
    ///
    /// There is none if the ray misses the node's box. Otherwise it is the
    /// nearest hit below the right child that is nearer than the nearest
    /// hit below the left child, or else that one.
    pub open spec fn nearest(
        self,
        slabs: spec_fn(Ray, usize, Scalar, Scalar) -> Slab,
        hits: spec_fn(Ray, usize, Scalar, Scalar) -> Option<HitRecord>,
        ray: Ray,
        t_min: Scalar,
        t_max: Scalar,
    ) -> Option<HitRecord>
        decreases self,
    {
        if !self.bounding_box.meets(slabs, ray, t_min, t_max) {
            None
        } else {
            let left = self.left.nearest(slabs, hits, ray, t_min, t_max);
            let right = self.right.nearest(
                slabs,
                hits,
                ray,
                t_min,
                crate::object::tightened(left, t_max),
            );
            crate::object::closer(left, right)
        }
    }

    /// Whether `found` may come of querying the hierarchy, given what `slab`
    /// and `hit` may answer: nothing, where the ray misses the node's box;
    /// otherwise what the right child finds before what the left child
    /// found, or else that.
    pub open spec fn may_find<S, H>(
        self,
        slab: S,
        hit: H,
        ray: Ray,
        t_min: Scalar,
        t_max: Scalar,
        found: Option<HitRecord>,
    ) -> bool where
        S: Fn(&Ray, usize, Scalar, Scalar) -> Slab,
        H: Fn(&Ray, usize, Scalar, Scalar) -> Option<HitRecord>,

        decreases self,
    {
        ||| self.bounding_box.may_meet(slab, ray, t_min, t_max, false) && found is None
        ||| self.bounding_box.may_meet(slab, ray, t_min, t_max, true) && exists|
            left: Option<HitRecord>,
            right: Option<HitRecord>,
        |
            {
                &&& self.left.may_find(slab, hit, ray, t_min, t_max, left)
                &&& self.right.may_find(
                    slab,
                    hit,
                    ray,
                    t_min,
                    crate::object::tightened(left, t_max),
                    right,
                )
                &&& found == #[trigger] crate::object::closer(left, right)
            }
    }

    /// Whether this is the hierarchy over a stretch of objects, as they stand
    /// in their list once it is built.
    ///
    /// Over one object both children are that object. Over two, the first is
    /// the left child and the second the right one. Over more, the stretch
    /// is cut at its middle, the left child is the hierarchy over the first
    /// part and the right child the one over the second. In every case there
    /// is an axis along which no object of the left child comes after one of
    /// the right child, and the node's box is the union of its children's.
    pub open spec fn spans(self, s: Seq<ObjectRef>) -> bool
        decreases s.len(),
    {
        &&& s.len() >= 1
        &&& crate::order::all_bounded(s)
        &&& self.bounding_box == self.left.bounds().union(self.right.bounds())
        &&& exists|axis: int|
            0 <= axis < 3 && #[trigger] crate::order::split_along(s, s.len() as int / 2, axis)
        &&& if s.len() <= 2 {
            &&& self.left == leaf_of(s[0])
            &&& self.right == leaf_of(s[s.len() - 1])
        } else {
            &&& self.left matches BVHChild::Node(left)
            &&& left.spans(s.subrange(0, s.len() as int / 2))
            &&& self.right matches BVHChild::Node(right)
            &&& right.spans(s.subrange(s.len() as int / 2, s.len() as int))
        }
    }
}

/// Draws an index between two bounds, both included.
///
/// This is `rand::Rng::gen_range` on the generator that `rand::thread_rng`
/// hands out. It samples within the range it is given and panics only on an
/// empty one, which the precondition rules out; nothing is known of which
/// index comes back. The generator seeds itself from the operating system
/// when a thread first uses it.
#[verifier::external_body]
fn random_index(low: usize, high: usize) -> (index: usize)
    requires
        low <= high,
    ensures
        low <= index <= high,
{
    rand::Rng::gen_range(&mut rand::thread_rng(), low..=high)
}

/// The child that stands for one object of a list.
fn leaf(objects: &Vec<ObjectRef>, i: usize) -> (child: BVHChild)
    requires
        i < objects.len(),
        objects@[i as int].bounding_box is Some,
    ensures
        child == leaf_of(objects@[i as int]),
{
    let object = objects[i];
    BVHChild::Object { index: object.index, bounding_box: object.bounding_box.unwrap() }
}

/// The box around all that hangs below a child.
fn child_box(child: &BVHChild) -> (b: AABB)
    ensures
        b == child.bounds(),
{
    match child {
        BVHChild::Object { index, bounding_box } => *bounding_box,
        BVHChild::Node(node) => node.bounding_box,
    }
}

/// Builds the hierarchy over a stretch of objects that all have a box.
fn build(objects: &mut ObjectList, start: usize, end: usize) -> (node: BVHNode)
    requires
        start < end <= old(objects).objects.len(),
        crate::order::all_bounded(old(objects).stretch(start as int, end as int)),
    ensures
        final(objects).is_rearranged(*old(objects), start as int, end as int),
        node.spans(final(objects).stretch(start as int, end as int)),
    decreases end - start,
{
    let ghost before = objects.objects@;
    let axis = random_index(0, 2);
    arrange(objects, start, end, axis);
    let span = end - start;
    let ghost arranged = objects.objects@;
    let ghost a = arranged.subrange(start as int, end as int);
    proof {
        crate::order::lemma_same_objects(a, before.subrange(start as int, end as int));
    }
    if span <= 2 {
        proof {
            assert(a[0] == arranged[start as int]);
            assert(a[span - 1] == arranged[end - 1]);
        }
        let left = leaf(&objects.objects, start);
        let right = leaf(&objects.objects, end - 1);
        let bounding_box = AABB::bounding_box(&child_box(&left), &child_box(&right));
        proof {
            assert(crate::order::split_along(a, a.len() as int / 2, axis as int));
        }
        BVHNode { left, right, bounding_box }
    } else {
        let mid = start + span / 2;
        proof {
            assert(arranged.subrange(start as int, mid as int) =~= a.subrange(0, mid - start));
            assert(arranged.subrange(mid as int, end as int) =~= a.subrange(
                mid - start,
                a.len() as int,
            ));
        }
        let first = build(objects, start, mid);
        let ghost halfway = objects.objects@;
        proof {
            assert(halfway.subrange(mid as int, end as int) =~= arranged.subrange(
                mid as int,
                end as int,
            ));
        }
        let second = build(objects, mid, end);
        let ghost done = objects.objects@;
        let ghost f = done.subrange(start as int, end as int);
        proof {
            assert(done.subrange(start as int, mid as int) =~= halfway.subrange(
                start as int,
                mid as int,
            ));
            assert(f.subrange(0, mid - start) =~= done.subrange(start as int, mid as int));
            assert(f.subrange(mid - start, f.len() as int) =~= done.subrange(
                mid as int,
                end as int,
            ));
            crate::order::lemma_parts_keep_objects(a, f, mid - start);
            crate::order::lemma_parts_keep_split(a, f, mid - start, axis as int);
            crate::order::lemma_same_objects(f, a);
            assert(f.len() as int / 2 == mid - start);
        }
        let left = BVHChild::Node(Box::new(first));
        let right = BVHChild::Node(Box::new(second));
        let bounding_box = AABB::bounding_box(&child_box(&left), &child_box(&right));
        BVHNode { left, right, bounding_box }
    }
}

impl BVHNode {
    /// Builds the hierarchy over the objects of `objects` from `start` up to,
    /// but not including, `end`, and leaves that stretch of the list in the
    /// order in which the leaves of the hierarchy stand.
    ///
    /// At every node an axis is drawn at random and the node's stretch is put
    /// in order along it (see [`arrange`]). The hierarchy is built if every
    /// object of the stretch has a bounding box. If one has none, nothing is
    /// built and the list stays as it was.
    pub fn new(objects: &mut ObjectList, start: usize, end: usize) -> (built: Result<
        BVHNode,
        ConfigError,
    >)
        requires
            start < end <= old(objects).objects.len(),
        ensures
            final(objects).is_rearranged(*old(objects), start as int, end as int),
            built is Ok <==> crate::order::all_bounded(
                old(objects).stretch(start as int, end as int),
            ),
            built matches Err(e) ==> e == ConfigError::Unbounded && final(objects)@ == old(
                objects,
            )@,
            built matches Ok(node) ==> node.spans(final(objects).stretch(start as int, end as int)),
            built matches Ok(node) ==> crate::object_list::hull(
                final(objects).stretch(start as int, end as int),
            ) == Some(node.bounding_box),
    {
        let mut i: usize = start;
        while i < end
            invariant
                start <= i <= end <= objects.objects.len(),
                objects.objects@ == old(objects).objects@,
                forall|k: int| start <= k < i ==> objects.objects@[k].bounding_box is Some,
            decreases end - i,
        {
            if objects.objects[i].bounding_box.is_none() {
                proof {
                    let s = objects.objects@.subrange(start as int, end as int);
                    assert(s[i - start].bounding_box is None);
                }
                return Err(ConfigError::Unbounded);
            }
            i = i + 1;
        }
        let node = build(objects, start, end);
        proof {
            lemma_box_is_the_hull(node, objects.stretch(start as int, end as int));
        }
        Ok(node)
    }

    /// Finds the nearest hit of a ray in the hierarchy between two ray
    /// parameters.
    ///
    /// Nothing below the node is looked at if the ray misses the node's
    /// box. Otherwise the left child is queried, then the right child for a
    /// hit that is nearer than what the left child found.
    pub fn hit<S, H>(&self, ray: &Ray, t_min: Scalar, t_max: Scalar, slab: &S, hit: &H) -> (found:
        Option<HitRecord>) where
        S: Fn(&Ray, usize, Scalar, Scalar) -> Slab,
        H: Fn(&Ray, usize, Scalar, Scalar) -> Option<HitRecord>,

        requires
            crate::aabb::slabs_can_be_asked(*slab),
            crate::object::hits_can_be_asked(*hit),
        ensures
            found matches Some(record) ==> t_min < record.t < t_max,
            self.may_find(*slab, *hit, *ray, t_min, t_max, found),
            forall|
                slabs: spec_fn(Ray, usize, Scalar, Scalar) -> Slab,
                hits: spec_fn(Ray, usize, Scalar, Scalar) -> Option<HitRecord>,
            |
                crate::aabb::slabs_are(*slab, slabs) && crate::object::hits_are(*hit, hits)
                    ==> found == #[trigger] self.nearest(slabs, hits, *ray, t_min, t_max),
        decreases self,
    {
        let met = self.bounding_box.hit(ray, t_min, t_max, slab);
        if !met {
            proof {
                assert forall|
                    slabs: spec_fn(Ray, usize, Scalar, Scalar) -> Slab,
                    hits: spec_fn(Ray, usize, Scalar, Scalar) -> Option<HitRecord>,
                |
                    crate::aabb::slabs_are(*slab, slabs) && crate::object::hits_are(
                        *hit,
                        hits,
                    ) implies None::<HitRecord> == #[trigger] self.nearest(
                    slabs,
                    hits,
                    *ray,
                    t_min,
                    t_max,
                ) by {
                    assert(met == self.bounding_box.meets(slabs, *ray, t_min, t_max));
                }
            }
            return None;
        }
        let hit_left = self.left.hit(ray, t_min, t_max, slab, hit);
        let bound = tighten(&hit_left, t_max);
        let hit_right = self.right.hit(ray, t_min, bound, slab, hit);
        let found = if hit_right.is_some() {
            hit_right
        } else {
            hit_left
        };
        proof {
            assert(found == crate::object::closer(hit_left, hit_right));
            assert forall|
                slabs: spec_fn(Ray, usize, Scalar, Scalar) -> Slab,
                hits: spec_fn(Ray, usize, Scalar, Scalar) -> Option<HitRecord>,
            |
                crate::aabb::slabs_are(*slab, slabs) && crate::object::hits_are(
                    *hit,
                    hits,
                ) implies found == #[trigger] self.nearest(slabs, hits, *ray, t_min, t_max) by {
                assert(met == self.bounding_box.meets(slabs, *ray, t_min, t_max));
                assert(hit_left == self.left.nearest(slabs, hits, *ray, t_min, t_max));
                assert(hit_right == self.right.nearest(slabs, hits, *ray, t_min, bound));
            }
        }
        found
    }

    /// The box around everything in the hierarchy.
    pub fn bounding_box(&self) -> (b: Option<AABB>)
        ensures
            b == Some(self.bounding_box),
    {
        Some(self.bounding_box)
    }
}

/// The box around a sequence of bounded objects that is put together from
/// two parts is the union of the boxes around the parts.
proof fn lemma_hull_of_parts(first: Seq<ObjectRef>, second: Seq<ObjectRef>)
    requires
        first.len() >= 1,
        second.len() >= 1,
        crate::order::all_bounded(first),
        crate::order::all_bounded(second),
    ensures
        crate::object_list::hull(first) is Some,
        crate::object_list::hull(second) is Some,
        crate::object_list::hull(first + second) == Some(
            crate::object_list::hull(first).unwrap().union(
                crate::object_list::hull(second).unwrap(),
            ),
        ),
    decreases second.len(),
{
    lemma_hull_of_bounded(first);
    lemma_hull_of_bounded(second);
    let all = first + second;
    assert(all.last() == second.last());
    if second.len() == 1 {
        assert(all.drop_last() =~= first);
    } else {
        let front = second.drop_last();
        assert(all.drop_last() =~= first + front);
        assert forall|i: int| 0 <= i < front.len() implies (#[trigger] front[i]).bounding_box
            is Some by {
            assert(front[i] == second[i]);
        }
        lemma_hull_of_parts(first, front);
    }
}

/// There is a box around every sequence of bounded objects that is not empty.
proof fn lemma_hull_of_bounded(objects: Seq<ObjectRef>)
    requires
        objects.len() >= 1,
        crate::order::all_bounded(objects),
    ensures
        crate::object_list::hull(objects) is Some,
    decreases objects.len(),
{
    if objects.len() > 1 {
        let front = objects.drop_last();
        assert forall|i: int| 0 <= i < front.len() implies (#[trigger] front[i]).bounding_box
            is Some by {
            assert(front[i] == objects[i]);
        }
        lemma_hull_of_bounded(front);
        assert(objects[objects.len() - 1].bounding_box is Some);
    } else {
        assert(objects[0].bounding_box is Some);
    }
}

/// The box of a hierarchy is the union of the bounding boxes of all the
/// objects under it: the box that a list of the same objects has.
pub proof fn lemma_box_is_the_hull(node: BVHNode, objects: Seq<ObjectRef>)
    requires
        node.spans(objects),
    ensures
        crate::object_list::hull(objects) == Some(node.bounding_box),
    decreases objects.len(),
{
    let n = objects.len() as int;
    if n == 1 {
        assert(objects[0].bounding_box is Some);
    } else if n == 2 {
        assert(objects[0].bounding_box is Some);
        assert(objects[1].bounding_box is Some);
        assert(objects.drop_last() =~= seq![objects[0]]);
        assert(objects.drop_last()[0] == objects[0]);
        reveal_with_fuel(crate::object_list::hull, 3);
    } else {
        let mid = n / 2;
        let first = objects.subrange(0, mid);
        let second = objects.subrange(mid, n);
        lemma_box_is_the_hull(*node.left->Node_0, first);
        lemma_box_is_the_hull(*node.right->Node_0, second);
        assert(objects =~= first + second);
        assert forall|i: int| 0 <= i < first.len() implies (#[trigger] first[i]).bounding_box
            is Some by {
            assert(first[i] == objects[i]);
        }
        assert forall|i: int| 0 <= i < second.len() implies (#[trigger] second[i]).bounding_box
            is Some by {
            assert(second[i] == objects[i + mid]);
        }
        lemma_hull_of_parts(first, second);
    }
}

} // verus!
