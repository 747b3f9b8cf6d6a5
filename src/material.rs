//! Surface materials and what they do to light, apart from the direction
//! of the scattered ray.
use vstd::prelude::*;
use crate::bounce::Surface;
use crate::color::{white, Rgb, ONE};

verus! {

/// A surface material. Albedos are fixed-point colours; a refraction index
/// counts millionths.
#[derive(Clone, Copy, Debug, PartialEq, Eq, Structural)]
pub enum Material {
    /// Diffuse: scatters around the normal, tinted by its albedo.
    Lambertian { albedo: Rgb },
    /// Mirror: reflects about the normal, tinted by its albedo.
    Metal { albedo: Rgb },
    /// Clear glass of the given refraction index.
    Dielectric { index: u64 },
}

impl Material {
    /// Per-channel factor a scattered ray's light is multiplied by.
    pub open spec fn attenuation_spec(self) -> Rgb {
        match self {
            Material::Lambertian { albedo } => albedo,
            Material::Metal { albedo } => albedo,
            Material::Dielectric { .. } => white(),
        }
    }

    /// Per-channel factor a scattered ray's light is multiplied by: the
    /// albedo, or no tint at all for glass.
    pub fn attenuation(&self) -> (r: Rgb)
        ensures
            r == self.attenuation_spec(),
            self is Dielectric ==> r == (Rgb { r: ONE, g: ONE, b: ONE }),
    {
        match self {
            Material::Lambertian { albedo } => *albedo,
            Material::Metal { albedo } => *albedo,
            Material::Dielectric { .. } => Rgb { r: ONE, g: ONE, b: ONE },
        }
    }

    /// What the material does with a ray that hit it. `reflects_outward`
    /// says whether the mirror direction leaves the surface (positive dot
    /// product with the normal); only a metal looks at it, and absorbs the
    /// ray when it does not. Diffuse and glass surfaces always scatter.
    pub fn surface(&self, reflects_outward: bool) -> (r: Surface)
        ensures
            r == (if self is Metal && !reflects_outward {
                Surface::Absorbed
            } else {
                Surface::Scattered
            }),
    {
        match self {
            Material::Metal { .. } => {
                if reflects_outward {
                    Surface::Scattered
                } else {
                    Surface::Absorbed
                }
            },
            _ => Surface::Scattered,
        }
    }
}

} // verus!
