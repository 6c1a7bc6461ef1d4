//! The three materials, and what each makes of a ray once the arithmetic of
//! reflection and refraction is done: whether the ray is scattered, with
//! which attenuation and which way.
use crate::color::Color;
use crate::object::HitRecord;
use crate::ray::Ray;
use crate::scalar::Scalar;
use crate::vec3::Vec3;
use vstd::prelude::*;

verus! {

/// A diffuse surface.
#[derive(Clone, Copy, Debug, PartialEq, Eq, Structural)]
pub struct Lambertian {
    pub albedo: Color,
}

/// A reflective surface, the rougher the greater its fuzz.
#[derive(Clone, Copy, Debug, PartialEq, Eq, Structural)]
pub struct Metal {
    pub albedo: Color,
    pub fuzz: Scalar,
}

/// A clear material that refracts, such as glass.
#[derive(Clone, Copy, Debug, PartialEq, Eq, Structural)]
pub struct Dielectric {
    pub refraction_index: Scalar,
}

/// What the arithmetic gives for a ray that meets a clear surface.
#[derive(Clone, Copy, Debug, PartialEq, Eq, Structural)]
pub struct Incidence {
    /// The refraction ratio times the sine of the angle of incidence.
    pub bend: Scalar,
    /// The share of the light that is reflected at this angle.
    pub reflectance: Scalar,
    /// The direction of the ray if it is reflected.
    pub reflected: Vec3,
    /// The direction of the ray if it is refracted.
    pub refracted: Vec3,
}

impl Incidence {
    /// Whether the ray is reflected rather than refracted, for a random
    /// draw from zero up to one: it is where `bend` is greater than one, so
    /// that the ray cannot be refracted at all, or where `reflectance` is
    /// greater than the draw.
    pub open spec fn reflects(self, draw: Scalar) -> bool {
        crate::scalar::is_less(crate::scalar::ONE, self.bend) || crate::scalar::is_less(
            draw,
            self.reflectance,
        )
    }
}

impl Lambertian {
    /// A diffuse surface of the given colour.
    pub fn new(albedo: Color) -> (material: Lambertian)
        ensures
            material == (Lambertian { albedo }),
    {
        Lambertian { albedo }
    }

    /// Scatters a ray off the surface. `sum` is the sum of the normal at
    /// the hit and a random unit vector.
    ///
    /// The ray always leaves, from the point that was hit, attenuated by
    /// the albedo. It leaves along `sum`, or along the normal where `sum`
    /// is too short to give a direction.
    pub fn scatter(&self, hit_record: &HitRecord, sum: Vec3) -> (scattered: Option<(Color, Ray)>)
        ensures
            scattered == Some(
                (
                    self.albedo,
                    Ray {
                        origin: hit_record.p,
                        direction: if sum.is_near_zero() {
                            hit_record.normal
                        } else {
                            sum
                        },
                    },
                ),
            ),
    {
        let scatter_direction = if sum.near_zero() {
            hit_record.normal
        } else {
            sum
        };
        Some((self.albedo, Ray::new(hit_record.p, scatter_direction)))
    }
}

impl Metal {
    /// A reflective surface of the given colour and fuzz.
    pub fn new(albedo: Color, fuzz: Scalar) -> (material: Metal)
        ensures
            material == (Metal { albedo, fuzz }),
    {
        Metal { albedo, fuzz }
    }

    /// Scatters a ray off the surface. `reflected` is the mirror image of
    /// the incoming direction, pushed aside at random by the fuzz, and
    /// `facing` is its dot product with the normal at the hit.
    ///
    /// The ray leaves along `reflected`, attenuated by the albedo, if that
    /// points away from the surface: if `facing` is greater than zero.
    /// Otherwise the ray is absorbed.
    pub fn scatter(&self, hit_record: &HitRecord, reflected: Vec3, facing: Scalar) -> (scattered:
        Option<(Color, Ray)>)
        ensures
            scattered == if crate::scalar::is_less(0, facing) {
                Some((self.albedo, Ray { origin: hit_record.p, direction: reflected }))
            } else {
                None
            },
    {
        if crate::scalar::less(crate::scalar::ZERO, facing) {
            Some((self.albedo, Ray::new(hit_record.p, reflected)))
        } else {
            None
        }
    }
}

impl Dielectric {
    /// A clear material of the given refractive index.
    pub fn new(refraction_index: Scalar) -> (material: Dielectric)
        ensures
            material == (Dielectric { refraction_index }),
    {
        Dielectric { refraction_index }
    }

    /// The ratio of the refractive indices that a ray meets: `inverse`, the
    /// inverse of the material's index, for a ray on its way from the inside
    /// to the outside, which hits a back face, and the index itself for a
    /// ray that hits a front face.
    pub fn refraction_ratio(&self, front_face: bool, inverse: Scalar) -> (ratio: Scalar)
        ensures
            ratio == if front_face {
                self.refraction_index
            } else {
                inverse
            },
    {
        if front_face {
            self.refraction_index
        } else {
            inverse
        }
    }

    /// Scatters a ray at the surface. `incidence` is what the arithmetic
    /// gives for the ray, `draw` a random number from zero up to one.
    ///
    /// The ray always leaves, from the point that was hit and without any
    /// attenuation: reflected where [`Incidence::reflects`] says so,
    /// refracted otherwise.
    pub fn scatter(
        &self,
        hit_record: &HitRecord,
        incidence: &Incidence,
        draw: Scalar,
    ) -> (scattered: Option<(Color, Ray)>)
        ensures
            scattered == Some(
                (
                    Color {
                        red: crate::scalar::ONE,
                        green: crate::scalar::ONE,
                        blue: crate::scalar::ONE,
                    },
                    Ray {
                        origin: hit_record.p,
                        direction: if incidence.reflects(draw) {
                            incidence.reflected
                        } else {
                            incidence.refracted
                        },
                    },
                ),
            ),
    {
        let cannot_refract = crate::scalar::less(crate::scalar::ONE, incidence.bend);
        let direction = if cannot_refract || crate::scalar::less(draw, incidence.reflectance) {
            incidence.reflected
        } else {
            incidence.refracted
        };
        Some((Color::white(), Ray::new(hit_record.p, direction)))
    }
}

} // verus!
