//! What it is to find the nearest hit, and that a scan of a list and a query
//! of the hierarchy both find it.
use crate::aabb::{Slab, AABB};
use crate::bvh::BVHNode;
use crate::object::{HitRecord, ObjectRef};
use crate::ray::Ray;
use crate::scalar::Scalar;
use vstd::prelude::*;

verus! {

/// Whether an object answers alike whatever upper bound it is asked with:
/// asked for a hit before `bound`, it gives the hit that it gives before
/// `t_max` if that one lies before `bound`, and nothing otherwise.
pub open spec fn answers_alike(
    hits: spec_fn(Ray, usize, Scalar, Scalar) -> Option<HitRecord>,
    ray: Ray,
    object: ObjectRef,
    t_min: Scalar,
    t_max: Scalar,
) -> bool {
    forall|bound: Scalar|
        bound <= t_max ==> #[trigger] crate::object::probe(hits, ray, object.index, t_min, bound)
            == crate::object::within(
            crate::object::probe(hits, ray, object.index, t_min, t_max),
            t_min,
            bound,
        )
}

/// Whether a ray that hits an object before some bound also passes, before
/// that bound, through every box that encloses the object's bounding box.
pub open spec fn boxed_in(
    slabs: spec_fn(Ray, usize, Scalar, Scalar) -> Slab,
    hits: spec_fn(Ray, usize, Scalar, Scalar) -> Option<HitRecord>,
    ray: Ray,
    object: ObjectRef,
    t_min: Scalar,
    t_max: Scalar,
) -> bool {
    forall|around: AABB, bound: Scalar|
        bound <= t_max && object.bounding_box is Some && around.encloses(
            object.bounding_box.unwrap(),
        ) && crate::object::probe(hits, ray, object.index, t_min, bound) is Some
            ==> #[trigger] around.meets(slabs, ray, t_min, bound)
}

/// Whether the geometry behind the two oracles is sound for a ray and a
/// sequence of objects: each object answers alike whatever bound it is asked
/// with, and is boxed in by its bounding box.
pub open spec fn sound_geometry(
    slabs: spec_fn(Ray, usize, Scalar, Scalar) -> Slab,
    hits: spec_fn(Ray, usize, Scalar, Scalar) -> Option<HitRecord>,
    ray: Ray,
    objects: Seq<ObjectRef>,
    t_min: Scalar,
    t_max: Scalar,
) -> bool {
    forall|i: int|
        0 <= i < objects.len() ==> answers_alike(hits, ray, #[trigger] objects[i], t_min, t_max)
            && boxed_in(slabs, hits, ray, objects[i], t_min, t_max)
}

/// Whether `found` is the nearest hit before `bound` among a sequence of
/// objects: a hit of one of them that lies before `bound` and that no hit of
/// any of them precedes; or nothing, where none of them is hit before `bound`.
pub open spec fn is_nearest(
    found: Option<HitRecord>,
    hits: spec_fn(Ray, usize, Scalar, Scalar) -> Option<HitRecord>,
    ray: Ray,
    objects: Seq<ObjectRef>,
    t_min: Scalar,
    bound: Scalar,
    t_max: Scalar,
) -> bool {
    match found {
        None => forall|i: int|
            0 <= i < objects.len() ==> crate::object::within(
                crate::object::probe(hits, ray, (#[trigger] objects[i]).index, t_min, t_max),
                t_min,
                bound,
            ) is None,
        Some(record) => {
            &&& t_min < record.t < bound
            &&& exists|i: int|
                0 <= i < objects.len() && crate::object::probe(
                    hits,
                    ray,
                    (#[trigger] objects[i]).index,
                    t_min,
                    t_max,
                ) == found
            &&& forall|j: int|
                0 <= j < objects.len() ==> (crate::object::probe(
                    hits,
                    ray,
                    (#[trigger] objects[j]).index,
                    t_min,
                    t_max,
                ) matches Some(other) ==> record.t <= other.t)
        },
    }
}

/// What one object answers before a bound is the nearest hit of that object
/// alone.
proof fn lemma_single_is_nearest(
    hits: spec_fn(Ray, usize, Scalar, Scalar) -> Option<HitRecord>,
    ray: Ray,
    object: ObjectRef,
    t_min: Scalar,
    bound: Scalar,
    t_max: Scalar,
)
    requires
        bound <= t_max,
        answers_alike(hits, ray, object, t_min, t_max),
    ensures
        is_nearest(
            crate::object::probe(hits, ray, object.index, t_min, bound),
            hits,
            ray,
            seq![object],
            t_min,
            bound,
            t_max,
        ),
{
    let s = seq![object];
    let found = crate::object::probe(hits, ray, object.index, t_min, bound);
    assert(s[0] == object);
    if found is Some {
        assert(crate::object::probe(hits, ray, s[0].index, t_min, t_max) == found);
    }
}

/// The nearest hit of two groups of objects together, where the second
/// group was searched only for something nearer than the first group's hit.
proof fn lemma_nearest_of_two(
    hits: spec_fn(Ray, usize, Scalar, Scalar) -> Option<HitRecord>,
    ray: Ray,
    first: Seq<ObjectRef>,
    second: Seq<ObjectRef>,
    all: Seq<ObjectRef>,
    found_first: Option<HitRecord>,
    found_second: Option<HitRecord>,
    t_min: Scalar,
    bound: Scalar,
    t_max: Scalar,
)
    requires
        is_nearest(found_first, hits, ray, first, t_min, bound, t_max),
        is_nearest(
            found_second,
            hits,
            ray,
            second,
            t_min,
            crate::object::tightened(found_first, bound),
            t_max,
        ),
        forall|i: int| 0 <= i < first.len() ==> all.contains(#[trigger] first[i]),
        forall|i: int| 0 <= i < second.len() ==> all.contains(#[trigger] second[i]),
        forall|i: int|
            0 <= i < all.len() ==> first.contains(#[trigger] all[i]) || second.contains(all[i]),
    ensures
        is_nearest(
            crate::object::closer(found_first, found_second),
            hits,
            ray,
            all,
            t_min,
            bound,
            t_max,
        ),
{
    let found = crate::object::closer(found_first, found_second);
    let inner = crate::object::tightened(found_first, bound);
    match found {
        None => {
            assert forall|i: int| 0 <= i < all.len() implies crate::object::within(
                crate::object::probe(hits, ray, (#[trigger] all[i]).index, t_min, t_max),
                t_min,
                bound,
            ) is None by {
                if first.contains(all[i]) {
                    let k = choose|k: int| 0 <= k < first.len() && first[k] == all[i];
                    assert(first[k] == all[i]);
                } else {
                    let k = choose|k: int| 0 <= k < second.len() && second[k] == all[i];
                    assert(second[k] == all[i]);
                }
            }
        },
        Some(record) => {
            let source = if found_second is Some {
                second
            } else {
                first
            };
            let k = choose|k: int|
                0 <= k < source.len() && crate::object::probe(
                    hits,
                    ray,
                    (#[trigger] source[k]).index,
                    t_min,
                    t_max,
                ) == found;
            assert(all.contains(source[k]));
            let w = choose|w: int| 0 <= w < all.len() && all[w] == source[k];
            assert(crate::object::probe(hits, ray, all[w].index, t_min, t_max) == found);
            assert forall|j: int| 0 <= j < all.len() implies (crate::object::probe(
                hits,
                ray,
                (#[trigger] all[j]).index,
                t_min,
                t_max,
            ) matches Some(other) ==> record.t <= other.t) by {
                if first.contains(all[j]) {
                    let m = choose|m: int| 0 <= m < first.len() && first[m] == all[j];
                    assert(first[m] == all[j]);
                } else {
                    let m = choose|m: int| 0 <= m < second.len() && second[m] == all[j];
                    assert(second[m] == all[j]);
                }
            }
        },
    }
}

/// A scan finds the nearest hit, where every object answers alike whatever
/// bound it is asked with.
pub proof fn lemma_scan_finds_the_nearest(
    objects: Seq<ObjectRef>,
    hits: spec_fn(Ray, usize, Scalar, Scalar) -> Option<HitRecord>,
    ray: Ray,
    t_min: Scalar,
    bound: Scalar,
    t_max: Scalar,
)
    requires
        bound <= t_max,
        forall|i: int|
            0 <= i < objects.len() ==> answers_alike(
                hits,
                ray,
                #[trigger] objects[i],
                t_min,
                t_max,
            ),
    ensures
        is_nearest(
            crate::object_list::scan(objects, hits, ray, t_min, bound),
            hits,
            ray,
            objects,
            t_min,
            bound,
            t_max,
        ),
    decreases objects.len(),
{
    if objects.len() > 0 {
        let front = objects.drop_last();
        let last = objects.last();
        assert forall|i: int| 0 <= i < front.len() implies answers_alike(
            hits,
            ray,
            #[trigger] front[i],
            t_min,
            t_max,
        ) by {
            assert(front[i] == objects[i]);
        }
        lemma_scan_finds_the_nearest(front, hits, ray, t_min, bound, t_max);
        let found = crate::object_list::scan(front, hits, ray, t_min, bound);
        let inner = crate::object::tightened(found, bound);
        assert(objects[objects.len() - 1] == last);
        lemma_single_is_nearest(hits, ray, last, t_min, inner, t_max);
        assert forall|i: int| 0 <= i < front.len() implies objects.contains(
            #[trigger] front[i],
        ) by {
            assert(objects[i] == front[i]);
        }
        assert(seq![last][0] == last);
        assert forall|i: int| 0 <= i < objects.len() implies front.contains(
            #[trigger] objects[i],
        ) || seq![last].contains(objects[i]) by {
            if i < front.len() {
                assert(front[i] == objects[i]);
            } else {
                assert(seq![last][0] == objects[i]);
            }
        }
        lemma_nearest_of_two(
            hits,
            ray,
            front,
            seq![last],
            objects,
            found,
            crate::object::probe(hits, ray, last.index, t_min, inner),
            t_min,
            bound,
            t_max,
        );
    }
}

/// The box of a hierarchy encloses the bounding box of every object under it.
pub proof fn lemma_box_encloses_objects(node: BVHNode, objects: Seq<ObjectRef>, i: int)
    requires
        node.spans(objects),
        0 <= i < objects.len(),
    ensures
        objects[i].bounding_box is Some,
        node.bounding_box.encloses(objects[i].bounding_box.unwrap()),
    decreases objects.len(),
{
    let n = objects.len() as int;
    crate::aabb::lemma_union_is_tightest(
        node.left.bounds(),
        node.right.bounds(),
        node.bounding_box,
    );
    if n > 2 {
        let mid = n / 2;
        if i < mid {
            let part = objects.subrange(0, mid);
            assert(part[i] == objects[i]);
            lemma_box_encloses_objects(*node.left->Node_0, part, i);
        } else {
            let part = objects.subrange(mid, n);
            assert(part[i - mid] == objects[i]);
            lemma_box_encloses_objects(*node.right->Node_0, part, i - mid);
        }
    }
}

/// A hierarchy finds the nearest hit among the objects it was built over,
/// where the geometry is sound.
pub proof fn lemma_hierarchy_finds_the_nearest(
    node: BVHNode,
    objects: Seq<ObjectRef>,
    slabs: spec_fn(Ray, usize, Scalar, Scalar) -> Slab,
    hits: spec_fn(Ray, usize, Scalar, Scalar) -> Option<HitRecord>,
    ray: Ray,
    t_min: Scalar,
    bound: Scalar,
    t_max: Scalar,
)
    requires
        node.spans(objects),
        bound <= t_max,
        sound_geometry(slabs, hits, ray, objects, t_min, t_max),
    ensures
        is_nearest(
            node.nearest(slabs, hits, ray, t_min, bound),
            hits,
            ray,
            objects,
            t_min,
            bound,
            t_max,
        ),
    decreases objects.len(),
{
    let n = objects.len() as int;
    if !node.bounding_box.meets(slabs, ray, t_min, bound) {
        assert forall|i: int| 0 <= i < objects.len() implies crate::object::within(
            crate::object::probe(hits, ray, (#[trigger] objects[i]).index, t_min, t_max),
            t_min,
            bound,
        ) is None by {
            lemma_box_encloses_objects(node, objects, i);
            assert(answers_alike(hits, ray, objects[i], t_min, t_max));
            assert(boxed_in(slabs, hits, ray, objects[i], t_min, t_max));
            assert(crate::object::probe(hits, ray, objects[i].index, t_min, bound) is None);
        }
    } else {
        let mid = n / 2;
        let first = if n <= 2 {
            seq![objects[0]]
        } else {
            objects.subrange(0, mid)
        };
        let second = if n <= 2 {
            seq![objects[n - 1]]
        } else {
            objects.subrange(mid, n)
        };
        let found_first = node.left.nearest(slabs, hits, ray, t_min, bound);
        let inner = crate::object::tightened(found_first, bound);
        let found_second = node.right.nearest(slabs, hits, ray, t_min, inner);
        assert(sound_geometry(slabs, hits, ray, first, t_min, t_max)) by {
            assert forall|i: int| 0 <= i < first.len() implies answers_alike(
                hits,
                ray,
                #[trigger] first[i],
                t_min,
                t_max,
            ) && boxed_in(slabs, hits, ray, first[i], t_min, t_max) by {
                assert(first[i] == objects[i]);
            }
        }
        assert(sound_geometry(slabs, hits, ray, second, t_min, t_max)) by {
            assert forall|i: int| 0 <= i < second.len() implies answers_alike(
                hits,
                ray,
                #[trigger] second[i],
                t_min,
                t_max,
            ) && boxed_in(slabs, hits, ray, second[i], t_min, t_max) by {
                if n <= 2 {
                    assert(second[i] == objects[n - 1]);
                } else {
                    assert(second[i] == objects[i + mid]);
                }
            }
        }
        if n <= 2 {
            assert(first[0] == objects[0]);
            assert(second[0] == objects[n - 1]);
            lemma_single_is_nearest(hits, ray, objects[0], t_min, bound, t_max);
            lemma_single_is_nearest(hits, ray, objects[n - 1], t_min, inner, t_max);
        } else {
            lemma_hierarchy_finds_the_nearest(
                *node.left->Node_0,
                first,
                slabs,
                hits,
                ray,
                t_min,
                bound,
                t_max,
            );
            lemma_hierarchy_finds_the_nearest(
                *node.right->Node_0,
                second,
                slabs,
                hits,
                ray,
                t_min,
                inner,
                t_max,
            );
        }
        assert forall|i: int| 0 <= i < first.len() implies objects.contains(
            #[trigger] first[i],
        ) by {
            assert(objects[i] == first[i]);
        }
        assert forall|i: int| 0 <= i < second.len() implies objects.contains(
            #[trigger] second[i],
        ) by {
            if n <= 2 {
                assert(objects[n - 1] == second[i]);
            } else {
                assert(objects[i + mid] == second[i]);
            }
        }
        assert forall|i: int| 0 <= i < objects.len() implies first.contains(
            #[trigger] objects[i],
        ) || second.contains(objects[i]) by {
            if n <= 2 {
                if i == 0 {
                    assert(first[0] == objects[i]);
                } else {
                    assert(second[0] == objects[i]);
                }
            } else if i < mid {
                assert(first[i] == objects[i]);
            } else {
                assert(second[i - mid] == objects[i]);
            }
        }
        lemma_nearest_of_two(
            hits,
            ray,
            first,
            second,
            objects,
            found_first,
            found_second,
            t_min,
            bound,
            t_max,
        );
    }
}

/// Two answers that are both the nearest hit agree on whether anything is
/// hit and on the ray parameter of the hit.
pub proof fn lemma_nearest_is_unique(
    a: Option<HitRecord>,
    b: Option<HitRecord>,
    hits: spec_fn(Ray, usize, Scalar, Scalar) -> Option<HitRecord>,
    ray: Ray,
    objects: Seq<ObjectRef>,
    t_min: Scalar,
    bound: Scalar,
    t_max: Scalar,
)
    requires
        is_nearest(a, hits, ray, objects, t_min, bound, t_max),
        is_nearest(b, hits, ray, objects, t_min, bound, t_max),
    ensures
        a is Some <==> b is Some,
        a is Some ==> a.unwrap().t == b.unwrap().t,
{
    if a is Some {
        let i = choose|i: int|
            0 <= i < objects.len() && crate::object::probe(
                hits,
                ray,
                (#[trigger] objects[i]).index,
                t_min,
                t_max,
            ) == a;
        assert(crate::object::probe(hits, ray, objects[i].index, t_min, t_max) == a);
    }
    if b is Some {
        let j = choose|j: int|
            0 <= j < objects.len() && crate::object::probe(
                hits,
                ray,
                (#[trigger] objects[j]).index,
                t_min,
                t_max,
            ) == b;
        assert(crate::object::probe(hits, ray, objects[j].index, t_min, t_max) == b);
    }
}

/// Querying the hierarchy gives what a scan of all its objects gives: both
/// hit or both miss, and where they hit, at the same ray parameter. This
/// holds for every ray and every arrangement of objects whose geometry is
/// sound.
pub proof fn lemma_hierarchy_agrees_with_scan(
    node: BVHNode,
    objects: Seq<ObjectRef>,
    slabs: spec_fn(Ray, usize, Scalar, Scalar) -> Slab,
    hits: spec_fn(Ray, usize, Scalar, Scalar) -> Option<HitRecord>,
    ray: Ray,
    t_min: Scalar,
    t_max: Scalar,
)
    requires
        node.spans(objects),
        sound_geometry(slabs, hits, ray, objects, t_min, t_max),
    ensures
        node.nearest(slabs, hits, ray, t_min, t_max) is Some <==> crate::object_list::scan(
            objects,
            hits,
            ray,
            t_min,
            t_max,
        ) is Some,
        node.nearest(slabs, hits, ray, t_min, t_max) is Some ==> node.nearest(
            slabs,
            hits,
            ray,
            t_min,
            t_max,
        ).unwrap().t == crate::object_list::scan(objects, hits, ray, t_min, t_max).unwrap().t,
{
    lemma_hierarchy_finds_the_nearest(node, objects, slabs, hits, ray, t_min, t_max, t_max);
    lemma_scan_finds_the_nearest(objects, hits, ray, t_min, t_max, t_max);
    lemma_nearest_is_unique(
        node.nearest(slabs, hits, ray, t_min, t_max),
        crate::object_list::scan(objects, hits, ray, t_min, t_max),
        hits,
        ray,
        objects,
        t_min,
        t_max,
        t_max,
    );
}

/// A scan finds the same whatever order the objects stand in: scans of two
/// sequences that hold the same objects agree on whether anything is hit
/// and on the ray parameter of the hit, where every object answers alike
/// whatever bound it is asked with.
pub proof fn lemma_scan_ignores_order(
    a: Seq<ObjectRef>,
    b: Seq<ObjectRef>,
    hits: spec_fn(Ray, usize, Scalar, Scalar) -> Option<HitRecord>,
    ray: Ray,
    t_min: Scalar,
    t_max: Scalar,
)
    requires
        a.to_multiset() == b.to_multiset(),
        forall|i: int| 0 <= i < a.len() ==> answers_alike(hits, ray, #[trigger] a[i], t_min, t_max),
    ensures
        crate::object_list::scan(a, hits, ray, t_min, t_max) is Some <==> crate::object_list::scan(
            b,
            hits,
            ray,
            t_min,
            t_max,
        ) is Some,
        crate::object_list::scan(a, hits, ray, t_min, t_max) is Some ==> crate::object_list::scan(
            a,
            hits,
            ray,
            t_min,
            t_max,
        ).unwrap().t == crate::object_list::scan(b, hits, ray, t_min, t_max).unwrap().t,
{
    crate::order::lemma_same_objects(a, b);
    crate::order::lemma_same_objects(b, a);
    assert forall|i: int| 0 <= i < b.len() implies answers_alike(
        hits,
        ray,
        #[trigger] b[i],
        t_min,
        t_max,
    ) by {
        let j = choose|j: int| 0 <= j < a.len() && a[j] == b[i];
        assert(answers_alike(hits, ray, a[j], t_min, t_max));
    }
    lemma_scan_finds_the_nearest(a, hits, ray, t_min, t_max, t_max);
    lemma_scan_finds_the_nearest(b, hits, ray, t_min, t_max, t_max);
    let found = crate::object_list::scan(b, hits, ray, t_min, t_max);
    lemma_nearest_of_two(
        hits,
        ray,
        b,
        Seq::<ObjectRef>::empty(),
        a,
        found,
        None,
        t_min,
        t_max,
        t_max,
    );
    lemma_nearest_is_unique(
        crate::object_list::scan(a, hits, ray, t_min, t_max),
        found,
        hits,
        ray,
        a,
        t_min,
        t_max,
        t_max,
    );
}

/// Spheres answer alike: where what is hit of an object is what is hit of
/// a sphere, and the roots that are solved for do not depend on the bounds
/// of the query, the object answers alike whatever bound it is asked with.
pub proof fn lemma_spheres_answer_alike(
    hits: spec_fn(Ray, usize, Scalar, Scalar) -> Option<HitRecord>,
    ray: Ray,
    object: ObjectRef,
    sphere: crate::sphere::Sphere,
    roots: crate::sphere::Roots,
    t_min: Scalar,
    t_max: Scalar,
)
    requires
        roots.near.t <= roots.far.t,
        forall|bound: Scalar|
            bound <= t_max ==> #[trigger] hits(ray, object.index, t_min, bound) == sphere.found(
                roots,
                t_min,
                bound,
            ),
    ensures
        answers_alike(hits, ray, object, t_min, t_max),
{
    assert forall|bound: Scalar| bound <= t_max implies #[trigger] crate::object::probe(
        hits,
        ray,
        object.index,
        t_min,
        bound,
    ) == crate::object::within(
        crate::object::probe(hits, ray, object.index, t_min, t_max),
        t_min,
        bound,
    ) by {
        crate::sphere::lemma_sphere_answers_alike(sphere, roots, t_min, bound, t_max);
        assert(hits(ray, object.index, t_min, bound) == sphere.found(roots, t_min, bound));
        assert(hits(ray, object.index, t_min, t_max) == sphere.found(roots, t_min, t_max));
    }
}

} // verus!
