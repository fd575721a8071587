//! Checks of textures, noise, the participating medium and the samplers.

use std::sync::Arc;
use raytracer::constant_medium::ConstantMediun;
use raytracer::fx::{fx_sin, FX_INF, FX_ONE, FX_PI};
use raytracer::hittable::Hittable;
use raytracer::material::{Lambertian, Material};
use raytracer::perlin::Perlin;
use raytracer::ray::Ray;
use raytracer::rng::{random_in_unit_sphere, random_unit_vector};
use raytracer::sphere::Sphere;
use raytracer::texture::{CheckerTexture, ImageTexture, NoiseTexture, SolidColor, Texture};
use raytracer::vec3::Vec3;

#[test]
fn solid_color_is_constant() {
    let t = Texture::Solid(SolidColor::new(Vec3 { x: 111, y: 222, z: 333 }));
    let p = Vec3 { x: 5 * FX_ONE, y: -3 * FX_ONE, z: 0 };
    let c = t.value(0, 0, &p);
    assert_eq!((c.x, c.y, c.z), (111, 222, 333));
    let c2 = t.value(FX_ONE, FX_ONE, &Vec3 { x: 0, y: 0, z: 0 });
    assert_eq!((c2.x, c2.y, c2.z), (111, 222, 333));
}

/// The checker alternates with the sign pattern of the axis sines: near
/// the origin all three sines of `10x` are positive (even parity), and
/// moving one half-period along x flips to the odd color.
#[test]
fn checker_alternates() {
    let even = Vec3 { x: 1, y: 1, z: 1 };
    let odd = Vec3 { x: 2, y: 2, z: 2 };
    let t = Texture::Checker(CheckerTexture::new_from_color(even, odd));
    let near_origin = Vec3 { x: FX_ONE / 100, y: FX_ONE / 100, z: FX_ONE / 100 };
    assert_eq!(t.value(0, 0, &near_origin).x, 1);
    // 10 x crosses pi after x > pi/10: take x = 0.35
    let shifted = Vec3 { x: 35 * FX_ONE / 100, y: FX_ONE / 100, z: FX_ONE / 100 };
    assert_eq!(t.value(0, 0, &shifted).x, 2);
}

#[test]
fn image_lookup_and_fallback() {
    // a 2x1 image: a red pixel then a green one
    let data = vec![255u8, 0, 0, 0, 255, 0];
    let img = ImageTexture::new(data, 2, 1);
    let left = img.value(0, 0);
    assert_eq!((left.x, left.y, left.z), (255 * FX_ONE / 255, 0, 0));
    let right = img.value(FX_ONE, 0);
    assert_eq!((right.x, right.y, right.z), (0, FX_ONE, 0));
    let empty = ImageTexture::new(Vec::new(), 0, 0);
    let cyan = empty.value(0, 0);
    assert_eq!((cyan.x, cyan.y, cyan.z), (0, FX_ONE, FX_ONE));
}

#[test]
fn sine_key_values() {
    assert_eq!(fx_sin(0), 0);
    // one rounding unit shy of the peak at the quarter wave (pi/2 itself
    // truncates to an odd fixed-point value)
    assert_eq!(fx_sin(FX_PI / 2), FX_ONE - 1);
    assert_eq!(fx_sin(FX_PI), 0);
    assert_eq!(fx_sin(FX_PI + FX_PI / 2), -(FX_ONE - 1));
    // periodicity of the reduced argument
    assert_eq!(fx_sin(2 * FX_PI + FX_PI / 2), FX_ONE - 1);
    for k in -20..20i64 {
        let v = fx_sin(k * 31337);
        assert!((-FX_ONE..=FX_ONE).contains(&v));
    }
}

#[test]
fn perlin_perm_is_permutation() {
    let p = Perlin::perlin_generate_perm();
    assert_eq!(p.len(), 256);
    let mut seen = [false; 256];
    for v in &p {
        assert!((0..256).contains(v));
        seen[*v as usize] = true;
    }
    assert!(seen.iter().all(|b| *b));
}

#[test]
fn noise_bounded_and_textured() {
    let perlin = Perlin::new();
    for k in 0..20i64 {
        let p = Vec3 { x: k * 13331, y: -k * 777, z: k * 9999 };
        let n = perlin.noise(&p);
        assert!(n.abs() <= 1296 * FX_ONE);
    }
    let t = NoiseTexture::new_sc(4 * FX_ONE);
    let c = t.value(&Vec3 { x: FX_ONE / 3, y: FX_ONE / 7, z: FX_ONE / 2 });
    assert!(c.x == c.y && c.y == c.z);
    assert!((0..=FX_ONE).contains(&c.x));
}

#[test]
fn samplers_stay_in_range() {
    for _ in 0..200 {
        let p = random_in_unit_sphere();
        let sq = p.squared_length();
        assert!((0..FX_ONE).contains(&sq));
        let u = random_unit_vector();
        assert!(u.x.abs() <= 2 * FX_ONE);
        assert!(u.y.abs() <= 2 * FX_ONE);
        assert!(u.z.abs() <= 2 * FX_ONE);
        let usq = u.squared_length();
        // a normalized sample is close to unit length
        assert!(usq > FX_ONE / 2 && usq < 2 * FX_ONE);
    }
}

/// A dense medium scatters a through-going ray inside the boundary span;
/// the synthetic record carries the phase material's marks.
#[test]
fn dense_medium_scatters_inside() {
    let boundary = Arc::new(Hittable::Sphere(Sphere::new(
        Vec3 { x: 0, y: 0, z: -4 * FX_ONE },
        FX_ONE,
        Arc::new(Material::Lambertian(Lambertian::new(Vec3 {
            x: FX_ONE / 2,
            y: FX_ONE / 2,
            z: FX_ONE / 2,
        }))),
    )));
    // density 1000: the mean free path is far below the chord
    let fog = ConstantMediun::new_col(
        boundary,
        1000 * FX_ONE,
        Vec3 { x: FX_ONE, y: FX_ONE, z: FX_ONE },
    );
    let r = Ray::new(
        Vec3 { x: 0, y: 0, z: 0 },
        Vec3 { x: 0, y: 0, z: -FX_ONE },
        0,
    );
    for _ in 0..50 {
        let rec = fog.hit(&r, 0, FX_INF).expect("a dense medium must scatter");
        assert!(rec.t >= 3 * FX_ONE - 10 && rec.t <= 5 * FX_ONE + 10);
        assert_eq!((rec.u, rec.v), (0, 0));
        assert_eq!((rec.normal.x, rec.normal.y, rec.normal.z), (0, 0, 0));
        assert!(rec.front_face);
    }
}

/// A near-vacuum medium almost never scatters over a short chord.
#[test]
fn thin_medium_mostly_passes() {
    let boundary = Arc::new(Hittable::Sphere(Sphere::new(
        Vec3 { x: 0, y: 0, z: -4 * FX_ONE },
        FX_ONE,
        Arc::new(Material::Lambertian(Lambertian::new(Vec3 {
            x: FX_ONE / 2,
            y: FX_ONE / 2,
            z: FX_ONE / 2,
        }))),
    )));
    let haze = ConstantMediun::new_col(boundary, 1, Vec3 { x: FX_ONE, y: FX_ONE, z: FX_ONE });
    let r = Ray::new(
        Vec3 { x: 0, y: 0, z: 0 },
        Vec3 { x: 0, y: 0, z: -FX_ONE },
        0,
    );
    let mut misses = 0;
    for _ in 0..100 {
        if haze.hit(&r, 0, FX_INF).is_none() {
            misses += 1;
        }
    }
    assert!(misses > 0, "a near-vacuum must let some rays through");
}
