//! Concrete-value checks of the fixed-point core and the primitives.

use std::sync::Arc;
use raytracer::aabb::Aabb;
use raytracer::fx::{fx_div, fx_mul, fx_sqrt, FX_INF, FX_ONE};
use raytracer::hittable::Hittable;
use raytracer::material::{Lambertian, Material};
use raytracer::ray::Ray;
use raytracer::sphere::Sphere;
use raytracer::vec3::Vec3;

fn gray() -> Arc<Material> {
    Arc::new(Material::Lambertian(Lambertian::new(Vec3 {
        x: FX_ONE / 2,
        y: FX_ONE / 2,
        z: FX_ONE / 2,
    })))
}

#[test]
fn fx_basics() {
    assert_eq!(fx_mul(FX_ONE, 12345), 12345);
    assert_eq!(fx_mul(2 * FX_ONE, 3 * FX_ONE), 6 * FX_ONE);
    assert_eq!(fx_div(3 * FX_ONE, 2 * FX_ONE), 3 * FX_ONE / 2);
    assert_eq!(fx_sqrt(4 * FX_ONE), 2 * FX_ONE);
    assert_eq!(fx_sqrt(FX_ONE), FX_ONE);
    assert_eq!(fx_sqrt(0), 0);
    // truncation toward zero on both signs
    assert_eq!(fx_div(-3 * FX_ONE, 2 * FX_ONE), -(3 * FX_ONE / 2));
}

#[test]
fn vec3_ops() {
    let a = Vec3 { x: FX_ONE, y: 2 * FX_ONE, z: 3 * FX_ONE };
    let b = Vec3 { x: 4 * FX_ONE, y: 5 * FX_ONE, z: 6 * FX_ONE };
    let s = a.add(b);
    assert_eq!((s.x, s.y, s.z), (5 * FX_ONE, 7 * FX_ONE, 9 * FX_ONE));
    assert_eq!(a.dot(b), 32 * FX_ONE);
    let c = a.cross(b);
    assert_eq!((c.x, c.y, c.z), (-3 * FX_ONE, 6 * FX_ONE, -3 * FX_ONE));
    let u = Vec3 { x: 3 * FX_ONE, y: 0, z: 4 * FX_ONE };
    assert_eq!(u.length(), 5 * FX_ONE);
    let un = u.unit_vector();
    assert_eq!((un.x, un.y, un.z), (3 * FX_ONE / 5, 0, 4 * FX_ONE / 5));
}

/// A unit sphere of radius 0.5 at (0,0,-1), hit from the origin looking
/// down -z: the hit is at t = 0.5 with normal (0,0,1), front face.
#[test]
fn sphere_head_on_scenario() {
    let s = Sphere::new(Vec3 { x: 0, y: 0, z: -FX_ONE }, FX_ONE / 2, gray());
    let r = Ray::new(
        Vec3 { x: 0, y: 0, z: 0 },
        Vec3 { x: 0, y: 0, z: -FX_ONE },
        0,
    );
    let rec = s.hit(&r, 0, FX_INF).expect("head-on ray must hit");
    assert_eq!(rec.t, FX_ONE / 2);
    assert_eq!((rec.normal.x, rec.normal.y, rec.normal.z), (0, 0, FX_ONE));
    assert!(rec.front_face);
    assert_eq!((rec.p.x, rec.p.y, rec.p.z), (0, 0, -FX_ONE / 2));
}

/// A ray aimed exactly at a sphere's center from outside enters at
/// center distance minus radius: center 3 away, radius 1, so t = 2/3 of
/// the way along the aim vector.
#[test]
fn sphere_aimed_at_center() {
    let s = Sphere::new(Vec3 { x: 0, y: 0, z: -3 * FX_ONE }, FX_ONE, gray());
    let r = Ray::new(
        Vec3 { x: 0, y: 0, z: 0 },
        Vec3 { x: 0, y: 0, z: -3 * FX_ONE },
        0,
    );
    let rec = s.hit(&r, 0, FX_INF).expect("aimed ray must hit");
    // (3 - 1) / 3 in fixed point, truncated
    assert_eq!(rec.t, 2 * FX_ONE / 3);
}

#[test]
fn sphere_miss() {
    let s = Sphere::new(Vec3 { x: 0, y: 0, z: -3 * FX_ONE }, FX_ONE / 2, gray());
    let r = Ray::new(
        Vec3 { x: 0, y: 0, z: 0 },
        Vec3 { x: 0, y: 2 * FX_ONE, z: 0 },
        0,
    );
    assert!(s.hit(&r, 0, FX_INF).is_none());
}

#[test]
fn aabb_slab_hit_and_miss() {
    let b = Aabb::new(
        Vec3 { x: -FX_ONE, y: -FX_ONE, z: -FX_ONE },
        Vec3 { x: FX_ONE, y: FX_ONE, z: FX_ONE },
    );
    let toward = Ray::new(
        Vec3 { x: 0, y: 0, z: 3 * FX_ONE },
        Vec3 { x: 0, y: 0, z: -FX_ONE },
        0,
    );
    assert!(b.hit(&toward, 0, FX_INF));
    let away = Ray::new(
        Vec3 { x: 0, y: 0, z: 3 * FX_ONE },
        Vec3 { x: 0, y: 0, z: FX_ONE },
        0,
    );
    assert!(!b.hit(&away, 0, FX_INF));
    let parallel_outside = Ray::new(
        Vec3 { x: 3 * FX_ONE, y: 0, z: 0 },
        Vec3 { x: 0, y: 0, z: -FX_ONE },
        0,
    );
    assert!(!b.hit(&parallel_outside, 0, FX_INF));
}

/// The surrounding box contains both arguments, is tight, and commutes.
#[test]
fn surrounding_box_properties() {
    let a = Aabb::new(
        Vec3 { x: -FX_ONE, y: 0, z: 0 },
        Vec3 { x: FX_ONE, y: FX_ONE, z: FX_ONE },
    );
    let b = Aabb::new(
        Vec3 { x: 0, y: -FX_ONE, z: 0 },
        Vec3 { x: 3 * FX_ONE, y: FX_ONE / 2, z: 2 * FX_ONE },
    );
    let u = Aabb::surrounding_box(a, b);
    assert_eq!((u.minimum.x, u.minimum.y, u.minimum.z), (-FX_ONE, -FX_ONE, 0));
    assert_eq!((u.maximum.x, u.maximum.y, u.maximum.z), (3 * FX_ONE, FX_ONE, 2 * FX_ONE));
    // contains both
    assert!(u.minimum.x <= a.minimum.x && a.maximum.x <= u.maximum.x);
    assert!(u.minimum.y <= b.minimum.y && b.maximum.y <= u.maximum.y);
    // commutative
    let v = Aabb::surrounding_box(b, a);
    assert_eq!(u.minimum, v.minimum);
    assert_eq!(u.maximum, v.maximum);
    // associative
    let c = Aabb::new(
        Vec3 { x: -2 * FX_ONE, y: 0, z: -FX_ONE },
        Vec3 { x: 0, y: 0, z: 0 },
    );
    let l = Aabb::surrounding_box(Aabb::surrounding_box(a, b), c);
    let r = Aabb::surrounding_box(a, Aabb::surrounding_box(b, c));
    assert_eq!(l.minimum, r.minimum);
    assert_eq!(l.maximum, r.maximum);
}

/// Translating both the sphere and the ray origin by the same vector keeps
/// the reported t.
#[test]
fn translation_invariance_sphere() {
    let v = Vec3 { x: 7 * FX_ONE, y: -2 * FX_ONE, z: 5 * FX_ONE };
    let s1 = Sphere::new(Vec3 { x: 0, y: 0, z: -3 * FX_ONE }, FX_ONE, gray());
    let s2 = Sphere::new(
        Vec3 { x: v.x, y: v.y, z: v.z - 3 * FX_ONE },
        FX_ONE,
        gray(),
    );
    let d = Vec3 { x: 9000, y: 2000, z: -FX_ONE };
    let r1 = Ray::new(Vec3 { x: 300, y: -500, z: 0 }, d, 0);
    let r2 = Ray::new(Vec3 { x: 300 + v.x, y: -500 + v.y, z: v.z }, d, 0);
    let h1 = s1.hit(&r1, 0, FX_INF);
    let h2 = s2.hit(&r2, 0, FX_INF);
    match (h1, h2) {
        (Some(a), Some(b)) => assert_eq!(a.t, b.t),
        (None, None) => {}
        _ => panic!("translated hit presence differs"),
    }
}

/// Rotating by zero degrees reproduces the unrotated entity's hit.
#[test]
fn rotate_zero_identity() {
    let s = Arc::new(Hittable::Sphere(Sphere::new(
        Vec3 { x: FX_ONE, y: 0, z: -4 * FX_ONE },
        FX_ONE,
        gray(),
    )));
    let rot = raytracer::hittable::RotateY::new(Arc::clone(&s), 0, FX_ONE);
    let r = Ray::new(
        Vec3 { x: 0, y: 0, z: 0 },
        Vec3 { x: 20000, y: 1000, z: -FX_ONE },
        0,
    );
    let plain = s.hit(&r, 0, FX_INF);
    let rotated = Hittable::RotateY(rot).hit(&r, 0, FX_INF);
    match (plain, rotated) {
        (Some(a), Some(b)) => {
            assert_eq!(a.t, b.t);
            assert_eq!(a.p, b.p);
            assert_eq!(a.u, b.u);
            assert_eq!(a.v, b.v);
            assert_eq!(a.normal, b.normal);
        }
        (None, None) => panic!("ray should hit the sphere"),
        _ => panic!("rotation by zero changed hit presence"),
    }
}
