//! The core of an offline path tracer: bounding volumes, a bounding-volume
//! hierarchy, spheres and materials, the depth-bounded light-transport
//! estimator, the assembly of a frame from per-pixel results and the textual
//! image writer.
//!
//! Real quantities never appear here as machine reals. They are carried as
//! [`scalar::Scalar`] keys, whose integer order is the order of the numbers
//! they stand for, and the library only ever compares them. Whatever needs
//! arithmetic on reals (where a ray crosses a plane or meets a sphere, how
//! light is reflected and refracted, how colours are multiplied) is done by
//! the caller and handed in, as values or as functions, and every contract
//! says what is returned for whatever the caller hands in.
pub mod scalar;
pub mod vec3;
pub mod color;
pub mod ray;
pub mod aabb;
pub mod error;
pub mod object;
pub mod object_list;
pub mod order;
pub mod bvh;
pub mod nearest;
pub mod scene;
pub mod sphere;
pub mod material;
pub mod estimator;
pub mod render;
pub mod ppm;
