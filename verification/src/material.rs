use vstd::prelude::*;
use crate::hittable::HitRecord;

verus! {

/// What a surface does to a ray that hits it and is not absorbed.
///
/// A specular scatter sends the ray on along `specular_ray`. A body scatter
/// spreads it: the direction in which to go on is drawn from `pdf`. Either
/// way, what comes back along the new ray is weighted by `attenuation`.
pub struct ScatterRecord<R, C, P> {
    pub specular_ray: R,
    pub is_specular: bool,
    pub attenuation: C,
    pub pdf: P,
}

impl<R, C, P> ScatterRecord<R, C, P> {
    /// A record of the given parts.
    pub fn new(ray: R, is_specular: bool, attenuation: C, pdf: P) -> (r: Self)
        ensures
            r.specular_ray == ray,
            r.is_specular == is_specular,
            r.attenuation == attenuation,
            r.pdf == pdf,
    {
        Self { specular_ray: ray, is_specular, attenuation, pdf }
    }
}

/// The surface at a hit: what it gives off by itself and how it scatters.
///
/// It is the `detail` of a hit, so that a hit carries its own surface.
/// `scatter` may draw at random, so its specification is a relation:
/// `scatter_outcome` says which answers are possible. An absorbing surface
/// answers `None`.
pub trait Material: Sized {
    type Ray;

    type Color;

    type Scalar;

    type Pdf;

    /// Whether `scatter` may answer with `out`. A surface that does not say
    /// may answer with anything.
    open spec fn scatter_outcome(
        &self,
        ray_in: &Self::Ray,
        hit: &HitRecord<Self>,
        out: Option<ScatterRecord<Self::Ray, Self::Color, Self::Pdf>>,
    ) -> bool {
        true
    }

    fn scatter(&self, ray_in: &Self::Ray, hit: &HitRecord<Self>) -> (out: Option<
        ScatterRecord<Self::Ray, Self::Color, Self::Pdf>,
    >)
        ensures
            self.scatter_outcome(ray_in, hit, out),
    ;

    /// What `emitted` answers. A surface that does not say is taken to
    /// have some answer that is not known.
    open spec fn spec_emitted(&self, hit: &HitRecord<Self>) -> Self::Color {
        arbitrary()
    }

    /// The light that the surface gives off at the hit.
    fn emitted(&self, hit: &HitRecord<Self>) -> (r: Self::Color)
        ensures
            r == self.spec_emitted(hit),
    ;

    /// What `scattering_pdf` answers. A surface that does not say is taken
    /// to have some answer that is not known.
    open spec fn spec_scattering_pdf(
        &self,
        ray_in: &Self::Ray,
        hit: &HitRecord<Self>,
        ray_scattered: &Self::Ray,
    ) -> Self::Scalar {
        arbitrary()
    }

    /// The density with which the surface scatters `ray_in` into `ray_scattered`.
    fn scattering_pdf(
        &self,
        ray_in: &Self::Ray,
        hit: &HitRecord<Self>,
        ray_scattered: &Self::Ray,
    ) -> (r: Self::Scalar)
        ensures
            r == self.spec_scattering_pdf(ray_in, hit, ray_scattered),
    ;
}

} // verus!
