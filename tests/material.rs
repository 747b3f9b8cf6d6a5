use raytracing::bounce::Surface;
use raytracing::color::{Rgb, ONE};
use raytracing::material::Material;

#[test]
fn glass_does_not_tint() {
    let m = Material::Dielectric { index: 1_500_000 };
    assert_eq!(m.attenuation(), Rgb { r: ONE, g: ONE, b: ONE });
}

#[test]
fn albedo_is_the_tint() {
    let a = Rgb { r: 800_000, g: 800_000, b: 0 };
    assert_eq!(Material::Lambertian { albedo: a }.attenuation(), a);
    assert_eq!(Material::Metal { albedo: a }.attenuation(), a);
}

#[test]
fn metal_absorbs_inward_reflection() {
    let m = Material::Metal { albedo: Rgb { r: 800_000, g: 800_000, b: 800_000 } };
    assert_eq!(m.surface(false), Surface::Absorbed);
    assert_eq!(m.surface(true), Surface::Scattered);
}

#[test]
fn diffuse_and_glass_always_scatter() {
    let d = Material::Lambertian { albedo: Rgb { r: 500_000, g: 300_000, b: 300_000 } };
    let g = Material::Dielectric { index: 1_500_000 };
    for f in [false, true] {
        assert_eq!(d.surface(f), Surface::Scattered);
        assert_eq!(g.surface(f), Surface::Scattered);
    }
}
