//! The scene: all objects behind one hierarchy and one query.
use crate::aabb::{Slab, AABB};
use crate::bvh::BVHNode;
use crate::error::ConfigError;
use crate::object::HitRecord;
use crate::object_list::ObjectList;
use crate::ray::Ray;
use crate::scalar::Scalar;
use vstd::prelude::*;

verus! {

/// A scene that is ready to be queried.
#[derive(Debug)]
pub struct Scene {
    pub objects: BVHNode,
}

impl Scene {
    /// Builds the scene over all the objects of a list, and leaves the list
    /// in the order of the hierarchy's leaves.
    ///
    /// A list without objects gives [`ConfigError::EmptyScene`], one with an
    /// object that has no bounding box gives [`ConfigError::Unbounded`]; in
    /// both cases the list stays as it was.
    pub fn new(src_objects: &mut ObjectList) -> (built: Result<Scene, ConfigError>)
        ensures
            final(src_objects)@.to_multiset() == old(src_objects)@.to_multiset(),
            built matches Err(e) ==> final(src_objects)@ == old(src_objects)@,
            built is Err <==> old(src_objects)@.len() == 0 || !crate::order::all_bounded(
                old(src_objects)@,
            ),
            old(src_objects)@.len() == 0 ==> built == Err::<Scene, ConfigError>(
                ConfigError::EmptyScene,
            ),
            old(src_objects)@.len() > 0 && built is Err ==> built == Err::<
                Scene,
                ConfigError,
            >(ConfigError::Unbounded),
            built matches Ok(scene) ==> scene.objects.spans(final(src_objects)@),
            built matches Ok(scene) ==> crate::object_list::hull(final(src_objects)@)
                == Some(scene.objects.bounding_box),
    {
        let end = src_objects.objects.len();
        if end == 0 {
            return Err(ConfigError::EmptyScene);
        }
        assert(src_objects.stretch(0, end as int) =~= src_objects.objects@);
        let built = BVHNode::new(src_objects, 0, end);
        assert(src_objects.stretch(0, end as int) =~= src_objects.objects@);
        match built {
            Ok(objects) => Ok(Scene { objects }),
            Err(e) => Err(e),
        }
    }

    /// Finds the nearest hit of a ray in the scene between two ray parameters.
    pub fn hit<S, H>(&self, ray: &Ray, t_min: Scalar, t_max: Scalar, slab: &S, hit: &H) -> (found:
        Option<HitRecord>) where
        S: Fn(&Ray, usize, Scalar, Scalar) -> Slab,
        H: Fn(&Ray, usize, Scalar, Scalar) -> Option<HitRecord>,

        requires
            crate::aabb::slabs_can_be_asked(*slab),
            crate::object::hits_can_be_asked(*hit),
        ensures
            found matches Some(record) ==> t_min < record.t < t_max,
            self.objects.may_find(*slab, *hit, *ray, t_min, t_max, found),
            forall|
                slabs: spec_fn(Ray, usize, Scalar, Scalar) -> Slab,
                hits: spec_fn(Ray, usize, Scalar, Scalar) -> Option<HitRecord>,
            |
                crate::aabb::slabs_are(*slab, slabs) && crate::object::hits_are(*hit, hits)
                    ==> found == #[trigger] self.objects.nearest(slabs, hits, *ray, t_min, t_max),
    {
        self.objects.hit(ray, t_min, t_max, slab, hit)
    }

    /// The box around the whole scene.
    pub fn bounding_box(&self) -> (b: Option<AABB>)
        ensures
            b == Some(self.objects.bounding_box),
    {
        self.objects.bounding_box()
    }
}

} // verus!
