//! The order of objects along an axis, by which the hierarchy splits them.
use crate::object::ObjectRef;
use crate::object_list::ObjectList;
use crate::scalar::Scalar;
use vstd::prelude::*;

verus! {

/// The coordinate by which an object is ordered along an axis: that of the
/// minimum corner of its bounding box.
pub open spec fn sort_key(object: ObjectRef, axis: int) -> Scalar {
    match object.bounding_box {
        Some(b) => b.minimum.component(axis),
        None => 0,
    }
}

/// Whether every object of a sequence has a bounding box.
pub open spec fn all_bounded(s: Seq<ObjectRef>) -> bool {
    forall|i: int| 0 <= i < s.len() ==> (#[trigger] s[i]).bounding_box is Some
}

/// Whether a sequence of objects ascends along an axis.
pub open spec fn sorted_along(s: Seq<ObjectRef>, axis: int) -> bool {
    forall|i: int, j: int|
        #![trigger s[i], s[j]]
        0 <= i <= j < s.len() ==> sort_key(s[i], axis) <= sort_key(s[j], axis)
}

/// Whether, along an axis, no object before `mid` comes after one from `mid` on.
pub open spec fn split_along(s: Seq<ObjectRef>, mid: int, axis: int) -> bool {
    forall|i: int, j: int|
        #![trigger s[i], s[j]]
        0 <= i < mid <= j < s.len() ==> sort_key(s[i], axis) <= sort_key(s[j], axis)
}

/// The two objects of a pair, the second first.
pub open spec fn swapped(s: Seq<ObjectRef>) -> Seq<ObjectRef> {
    seq![s[1], s[0]]
}

/// Tells whether `a` comes strictly before `b` along an axis.
pub fn box_less(a: &ObjectRef, b: &ObjectRef, axis: usize) -> (less: bool)
    requires
        axis < 3,
        a.bounding_box is Some,
        b.bounding_box is Some,
    ensures
        less == (sort_key(*a, axis as int) < sort_key(*b, axis as int)),
{
    match (a.bounding_box, b.bounding_box) {
        (Some(box_a), Some(box_b)) => box_a.minimum.get(axis) < box_b.minimum.get(axis),
        (_, _) => false,
    }
}

/// Puts a stretch of a list in order along an axis.
///
/// A pair is exchanged unless its first object comes strictly before its
/// second. A longer stretch is sorted: afterwards it ascends along the axis
/// and holds the objects it held, each as often as before. The rest of the
/// list is left alone.
pub fn arrange(objects: &mut ObjectList, start: usize, end: usize, axis: usize)
    requires
        start < end <= old(objects).objects.len(),
        axis < 3,
        all_bounded(old(objects).stretch(start as int, end as int)),
    ensures
        final(objects).is_rearranged(*old(objects), start as int, end as int),
        sorted_along(final(objects).stretch(start as int, end as int), axis as int),
        end - start == 2 ==> final(objects).stretch(start as int, end as int) == if sort_key(
            old(objects)@[start as int],
            axis as int,
        ) < sort_key(old(objects)@[start + 1], axis as int) {
            old(objects).stretch(start as int, end as int)
        } else {
            swapped(old(objects).stretch(start as int, end as int))
        },
{
    if end - start == 2 {
        let ghost before = objects.objects@;
        let ghost pair = before.subrange(start as int, end as int);
        assert(pair[0] == before[start as int]);
        assert(pair[1] == before[start + 1]);
        let first = objects.objects[start];
        let second = objects.objects[start + 1];
        if !box_less(&first, &second, axis) {
            objects.objects.set(start, second);
            objects.objects.set(start + 1, first);
            proof {
                let after = objects.objects@.subrange(start as int, end as int);
                assert(after =~= swapped(pair));
                assert(pair =~= seq![pair[0]].push(pair[1]));
                assert(after =~= seq![pair[1]].push(pair[0]));
                vstd::seq_lib::to_multiset_build(seq![pair[0]], pair[1]);
                vstd::seq_lib::to_multiset_build(seq![pair[1]], pair[0]);
                vstd::seq_lib::to_multiset_build(Seq::<ObjectRef>::empty(), pair[0]);
                vstd::seq_lib::to_multiset_build(Seq::<ObjectRef>::empty(), pair[1]);
                assert(seq![pair[0]] =~= Seq::<ObjectRef>::empty().push(pair[0]));
                assert(seq![pair[1]] =~= Seq::<ObjectRef>::empty().push(pair[1]));
                assert(after.to_multiset() =~= pair.to_multiset());
            }
        }
    } else {
        sort(&mut objects.objects, start, end, axis);
    }
}

/// Sorts a stretch of objects along an axis, by sorting its two halves and
/// merging them.
fn sort(objects: &mut Vec<ObjectRef>, start: usize, end: usize, axis: usize)
    requires
        start <= end <= old(objects).len(),
        axis < 3,
        all_bounded(old(objects)@.subrange(start as int, end as int)),
    ensures
        final(objects)@.len() == old(objects)@.len(),
        forall|i: int|
            0 <= i < start || end <= i < old(objects)@.len() ==> final(objects)@[i] == old(
                objects,
            )@[i],
        final(objects)@.subrange(start as int, end as int).to_multiset() == old(
            objects,
        )@.subrange(start as int, end as int).to_multiset(),
        sorted_along(final(objects)@.subrange(start as int, end as int), axis as int),
    decreases end - start,
{
    if end - start <= 1 {
        return ;
    }
    let ghost before = objects@;
    let ghost whole = before.subrange(start as int, end as int);
    let mid = start + (end - start) / 2;
    proof {
        assert(before.subrange(start as int, mid as int) =~= whole.subrange(0, mid - start));
        assert(before.subrange(mid as int, end as int) =~= whole.subrange(
            mid - start,
            end - start,
        ));
    }
    sort(objects, start, mid, axis);
    let ghost halfway = objects@;
    proof {
        assert(halfway.subrange(mid as int, end as int) =~= before.subrange(
            mid as int,
            end as int,
        ));
    }
    sort(objects, mid, end, axis);
    let ghost sorted = objects@;
    let ghost parts = sorted.subrange(start as int, end as int);
    proof {
        assert(sorted.subrange(start as int, mid as int) =~= halfway.subrange(
            start as int,
            mid as int,
        ));
        assert(parts.subrange(0, mid - start) =~= sorted.subrange(start as int, mid as int));
        assert(parts.subrange(mid - start, end - start) =~= sorted.subrange(
            mid as int,
            end as int,
        ));
        lemma_parts_keep_objects(whole, parts, mid - start);
        lemma_same_objects(parts, whole);
    }
    let merged = merge(objects, start, mid, end, axis);
    let mut k: usize = 0;
    while k < merged.len()
        invariant
            k <= merged.len(),
            merged@.len() == end - start,
            start <= end <= objects@.len(),
            objects@.len() == sorted.len(),
            forall|i: int| 0 <= i < start || end <= i < sorted.len() ==> objects@[i] == sorted[i],
            forall|i: int| 0 <= i < k ==> objects@[start + i] == merged@[i],
        decreases merged.len() - k,
    {
        objects.set(start + k, merged[k]);
        k = k + 1;
    }
    proof {
        assert(objects@.subrange(start as int, end as int) =~= merged@);
    }
}

/// Merges two neighbouring stretches, each of which ascends along an axis,
/// into one sequence that ascends along it.
fn merge(objects: &Vec<ObjectRef>, start: usize, mid: usize, end: usize, axis: usize) -> (merged:
    Vec<ObjectRef>)
    requires
        start <= mid <= end <= objects@.len(),
        axis < 3,
        all_bounded(objects@.subrange(start as int, end as int)),
        sorted_along(objects@.subrange(start as int, mid as int), axis as int),
        sorted_along(objects@.subrange(mid as int, end as int), axis as int),
    ensures
        merged@.len() == end - start,
        merged@.to_multiset() == objects@.subrange(start as int, end as int).to_multiset(),
        sorted_along(merged@, axis as int),
{
    let ghost whole = objects@.subrange(start as int, end as int);
    let ghost left = objects@.subrange(start as int, mid as int);
    let ghost right = objects@.subrange(mid as int, end as int);
    let mut merged: Vec<ObjectRef> = Vec::new();
    let mut i: usize = start;
    let mut j: usize = mid;
    proof {
        let none = Seq::<ObjectRef>::empty();
        assert(left.take(0) =~= none);
        assert(right.take(0) =~= none);
        assert(merged@ =~= none + none);
        vstd::seq_lib::lemma_multiset_commutative(none, none);
    }
    while i < mid || j < end
        invariant
            start <= i <= mid <= j <= end <= objects@.len(),
            axis < 3,
            whole == objects@.subrange(start as int, end as int),
            left == objects@.subrange(start as int, mid as int),
            right == objects@.subrange(mid as int, end as int),
            all_bounded(whole),
            sorted_along(left, axis as int),
            sorted_along(right, axis as int),
            merged@.len() == (i - start) + (j - mid),
            merged@.to_multiset() == left.take(i - start).to_multiset().add(
                right.take(j - mid).to_multiset(),
            ),
            sorted_along(merged@, axis as int),
            forall|k: int, a: int|
                #![trigger merged@[k], left[a]]
                0 <= k < merged@.len() && i - start <= a < left.len() ==> sort_key(
                    merged@[k],
                    axis as int,
                ) <= sort_key(left[a], axis as int),
            forall|k: int, b: int|
                #![trigger merged@[k], right[b]]
                0 <= k < merged@.len() && j - mid <= b < right.len() ==> sort_key(
                    merged@[k],
                    axis as int,
                ) <= sort_key(right[b], axis as int),
        decreases (mid - i) + (end - j),
    {
        proof {
            if i < mid {
                assert(whole[i - start] == objects@[i as int]);
                assert(left[i - start] == objects@[i as int]);
            }
            if j < end {
                assert(whole[j - start] == objects@[j as int]);
                assert(right[j - mid] == objects@[j as int]);
            }
        }
        let from_left = if i < mid && j < end {
            !box_less(&objects[j], &objects[i], axis)
        } else {
            i < mid
        };
        let ghost so_far = merged@;
        if from_left {
            merged.push(objects[i]);
            proof {
                let taken = left[i - start];
                assert(left.take(i - start + 1) =~= left.take(i - start).push(taken));
                vstd::seq_lib::to_multiset_build(left.take(i - start), taken);
                vstd::seq_lib::to_multiset_build(so_far, taken);
                assert(merged@.to_multiset() =~= left.take(i - start + 1).to_multiset().add(
                    right.take(j - mid).to_multiset(),
                ));
                assert forall|a: int, b: int|
                    #![trigger merged@[a], merged@[b]]
                    0 <= a <= b < merged@.len() implies sort_key(merged@[a], axis as int)
                    <= sort_key(merged@[b], axis as int) by {
                    if b == so_far.len() && a < b {
                        assert(merged@[a] == so_far[a]);
                        assert(sort_key(so_far[a], axis as int) <= sort_key(
                            left[i - start],
                            axis as int,
                        ));
                    } else if b < so_far.len() {
                        assert(merged@[a] == so_far[a]);
                        assert(merged@[b] == so_far[b]);
                    }
                }
                assert forall|k: int, a: int|
                    #![trigger merged@[k], left[a]]
                    0 <= k < merged@.len() && i + 1 - start <= a < left.len() implies sort_key(
                    merged@[k],
                    axis as int,
                ) <= sort_key(left[a], axis as int) by {
                    if k < so_far.len() {
                        assert(merged@[k] == so_far[k]);
                    } else {
                        assert(sort_key(left[i - start], axis as int) <= sort_key(
                            left[a],
                            axis as int,
                        ));
                    }
                }
                assert forall|k: int, b: int|
                    #![trigger merged@[k], right[b]]
                    0 <= k < merged@.len() && j - mid <= b < right.len() implies sort_key(
                    merged@[k],
                    axis as int,
                ) <= sort_key(right[b], axis as int) by {
                    if k < so_far.len() {
                        assert(merged@[k] == so_far[k]);
                    } else {
                        assert(sort_key(right[j - mid], axis as int) <= sort_key(
                            right[b],
                            axis as int,
                        ));
                    }
                }
            }
            i = i + 1;
        } else {
            merged.push(objects[j]);
            proof {
                let taken = right[j - mid];
                assert(right.take(j - mid + 1) =~= right.take(j - mid).push(taken));
                vstd::seq_lib::to_multiset_build(right.take(j - mid), taken);
                vstd::seq_lib::to_multiset_build(so_far, taken);
                assert(merged@.to_multiset() =~= left.take(i - start).to_multiset().add(
                    right.take(j - mid + 1).to_multiset(),
                ));
                assert forall|a: int, b: int|
                    #![trigger merged@[a], merged@[b]]
                    0 <= a <= b < merged@.len() implies sort_key(merged@[a], axis as int)
                    <= sort_key(merged@[b], axis as int) by {
                    if b == so_far.len() && a < b {
                        assert(merged@[a] == so_far[a]);
                        assert(sort_key(so_far[a], axis as int) <= sort_key(
                            right[j - mid],
                            axis as int,
                        ));
                    } else if b < so_far.len() {
                        assert(merged@[a] == so_far[a]);
                        assert(merged@[b] == so_far[b]);
                    }
                }
                assert forall|k: int, a: int|
                    #![trigger merged@[k], left[a]]
                    0 <= k < merged@.len() && i - start <= a < left.len() implies sort_key(
                    merged@[k],
                    axis as int,
                ) <= sort_key(left[a], axis as int) by {
                    if k < so_far.len() {
                        assert(merged@[k] == so_far[k]);
                    } else {
                        assert(sort_key(left[i - start], axis as int) <= sort_key(
                            left[a],
                            axis as int,
                        ));
                    }
                }
                assert forall|k: int, b: int|
                    #![trigger merged@[k], right[b]]
                    0 <= k < merged@.len() && j + 1 - mid <= b < right.len() implies sort_key(
                    merged@[k],
                    axis as int,
                ) <= sort_key(right[b], axis as int) by {
                    if k < so_far.len() {
                        assert(merged@[k] == so_far[k]);
                    } else {
                        assert(sort_key(right[j - mid], axis as int) <= sort_key(
                            right[b],
                            axis as int,
                        ));
                    }
                }
            }
            j = j + 1;
        }
    }
    proof {
        assert(left.take(mid - start) =~= left);
        assert(right.take(end - mid) =~= right);
        assert(whole =~= left + right);
        vstd::seq_lib::lemma_multiset_commutative(left, right);
    }
    merged
}

/// Two sequences that hold the same objects equally often are equally long,
/// each object of the one stands somewhere in the other, and if the objects
/// of the one all have a bounding box, so have those of the other.
pub proof fn lemma_same_objects(a: Seq<ObjectRef>, b: Seq<ObjectRef>)
    requires
        a.to_multiset() == b.to_multiset(),
    ensures
        a.len() == b.len(),
        forall|i: int| 0 <= i < a.len() ==> b.contains(#[trigger] a[i]),
        all_bounded(b) ==> all_bounded(a),
{
    vstd::seq_lib::to_multiset_len(a);
    vstd::seq_lib::to_multiset_len(b);
    assert forall|i: int| 0 <= i < a.len() implies b.contains(#[trigger] a[i]) by {
        vstd::seq_lib::to_multiset_contains(a, a[i]);
        vstd::seq_lib::to_multiset_contains(b, a[i]);
        assert(a.contains(a[i]));
    }
    if all_bounded(b) {
        assert forall|i: int| 0 <= i < a.len() implies (#[trigger] a[i]).bounding_box is Some by {
            assert(b.contains(a[i]));
            let j = choose|j: int| 0 <= j < b.len() && b[j] == a[i];
            assert(b[j].bounding_box is Some);
        }
    }
}

/// A stretch that is cut in two keeps its objects when each part keeps its own.
pub proof fn lemma_parts_keep_objects(before: Seq<ObjectRef>, after: Seq<ObjectRef>, mid: int)
    requires
        0 <= mid <= before.len() == after.len(),
        after.subrange(0, mid).to_multiset() == before.subrange(0, mid).to_multiset(),
        after.subrange(mid, after.len() as int).to_multiset() == before.subrange(
            mid,
            before.len() as int,
        ).to_multiset(),
    ensures
        after.to_multiset() == before.to_multiset(),
{
    let n = before.len() as int;
    vstd::seq_lib::lemma_multiset_commutative(before.subrange(0, mid), before.subrange(mid, n));
    vstd::seq_lib::lemma_multiset_commutative(after.subrange(0, mid), after.subrange(mid, n));
    assert(before =~= before.subrange(0, mid) + before.subrange(mid, n));
    assert(after =~= after.subrange(0, mid) + after.subrange(mid, n));
}

/// A cut that separates a stretch along an axis still does so when the
/// objects on each side are shuffled among themselves.
pub proof fn lemma_parts_keep_split(
    before: Seq<ObjectRef>,
    after: Seq<ObjectRef>,
    mid: int,
    axis: int,
)
    requires
        0 <= mid <= before.len() == after.len(),
        after.subrange(0, mid).to_multiset() == before.subrange(0, mid).to_multiset(),
        after.subrange(mid, after.len() as int).to_multiset() == before.subrange(
            mid,
            before.len() as int,
        ).to_multiset(),
        split_along(before, mid, axis),
    ensures
        split_along(after, mid, axis),
{
    let n = before.len() as int;
    lemma_same_objects(after.subrange(0, mid), before.subrange(0, mid));
    lemma_same_objects(after.subrange(mid, n), before.subrange(mid, n));
    assert forall|i: int, j: int|
        #![trigger after[i], after[j]]
        0 <= i < mid <= j < n implies sort_key(after[i], axis) <= sort_key(after[j], axis) by {
        assert(after.subrange(0, mid)[i] == after[i]);
        assert(after.subrange(mid, n)[j - mid] == after[j]);
        assert(before.subrange(0, mid).contains(after[i]));
        assert(before.subrange(mid, n).contains(after[j]));
        let i0 = choose|k: int| 0 <= k < mid && before.subrange(0, mid)[k] == after[i];
        let j0 = choose|k: int| 0 <= k < n - mid && before.subrange(mid, n)[k] == after[j];
        assert(before[i0] == after[i]);
        assert(before[j0 + mid] == after[j]);
    }
}

} // verus!
