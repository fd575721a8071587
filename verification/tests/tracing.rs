//! Checks of the aggregate, the hierarchy, the materials and the
//! integrator on concrete scenes.

use std::sync::Arc;
use raytracer::bvh::BVHNode;
use raytracer::fx::{FX_INF, FX_ONE};
use raytracer::hittable::{HitRecord, Hittable};
use raytracer::hittable_list::HittableList;
use raytracer::integrator::ray_color;
use raytracer::material::{Dielectric, DiffuseLight, Lambertian, Material, Metal};
use raytracer::aarect::XzRect;
use raytracer::ray::Ray;
use raytracer::sphere::{MovingSphere, Sphere};
use raytracer::vec3::Vec3;

fn matte(r: i64, g: i64, b: i64) -> Arc<Material> {
    Arc::new(Material::Lambertian(Lambertian::new(Vec3 { x: r, y: g, z: b })))
}

fn small_scene() -> HittableList {
    let mut world = HittableList::new();
    for i in 0..6i64 {
        world.add(Arc::new(Hittable::Sphere(Sphere::new(
            Vec3 { x: (i - 3) * 2 * FX_ONE, y: 0, z: -6 * FX_ONE - i * FX_ONE },
            FX_ONE / 2 + 1000 * i,
            matte(FX_ONE / 2, FX_ONE / 3, FX_ONE / 4),
        ))));
    }
    world.add(Arc::new(Hittable::XzRect(XzRect::new(
        -4 * FX_ONE,
        4 * FX_ONE,
        -9 * FX_ONE,
        -2 * FX_ONE,
        -FX_ONE,
        matte(FX_ONE / 2, FX_ONE / 2, FX_ONE / 2),
    ))));
    world
}

/// The hierarchy reports the same hit as the linear scan, over a batch of
/// deterministic rays (the differential form of the acceleration law).
#[test]
fn bvh_matches_linear_scan() {
    let world = small_scene();
    let listed = small_scene();
    let tree = BVHNode::build(world.hittable_list, 0, FX_ONE);
    for ix in -8..8i64 {
        for iy in -8..8i64 {
            let r = Ray::new(
                Vec3 { x: 1234, y: FX_ONE + 321, z: 77 },
                Vec3 {
                    x: ix * FX_ONE / 4 + 137,
                    y: iy * FX_ONE / 4 - FX_ONE / 2 + 59,
                    z: -FX_ONE + 23,
                },
                0,
            );
            let a = listed.hit(&r, 66, FX_INF);
            let b = tree.hit(&r, 66, FX_INF);
            match (a, b) {
                (None, None) => {}
                (Some(x), Some(y)) => {
                    assert_eq!(x.t, y.t, "parameter differs for ray {} {}", ix, iy);
                    assert_eq!(x.p, y.p, "point differs for ray {} {}", ix, iy);
                    assert_eq!(x.u, y.u);
                    assert_eq!(x.v, y.v);
                }
                _ => panic!("hit presence differs for ray {} {}", ix, iy),
            }
        }
    }
}

/// The aggregate returns the closest among several hits.
#[test]
fn list_returns_closest() {
    let mut world = HittableList::new();
    for z in [-2i64, -5, -9] {
        world.add(Arc::new(Hittable::Sphere(Sphere::new(
            Vec3 { x: 0, y: 0, z: z * FX_ONE },
            FX_ONE / 2,
            matte(FX_ONE / 2, FX_ONE / 2, FX_ONE / 2),
        ))));
    }
    let r = Ray::new(
        Vec3 { x: 0, y: 0, z: 0 },
        Vec3 { x: 0, y: 0, z: -FX_ONE },
        0,
    );
    let rec = world.hit(&r, 0, FX_INF).expect("must hit the nearest sphere");
    assert_eq!(rec.t, 3 * FX_ONE / 2);
}

/// A moving sphere is where its time says it is.
#[test]
fn moving_sphere_center() {
    let m = MovingSphere::new(
        Vec3 { x: 0, y: 0, z: 0 },
        Vec3 { x: 2 * FX_ONE, y: 0, z: 0 },
        0,
        FX_ONE,
        FX_ONE / 2,
        matte(FX_ONE / 2, FX_ONE / 2, FX_ONE / 2),
    );
    let c0 = m.center(0);
    assert_eq!((c0.x, c0.y, c0.z), (0, 0, 0));
    let c1 = m.center(FX_ONE);
    assert_eq!((c1.x, c1.y, c1.z), (2 * FX_ONE, 0, 0));
    let ch = m.center(FX_ONE / 2);
    assert_eq!(ch.x, FX_ONE);
}

/// Depth exhaustion is black; a miss is the background.
#[test]
fn integrator_floor_and_background() {
    let world = Hittable::Sphere(Sphere::new(
        Vec3 { x: 0, y: 0, z: -5 * FX_ONE },
        FX_ONE,
        matte(FX_ONE / 2, FX_ONE / 2, FX_ONE / 2),
    ));
    let sky = Vec3 { x: FX_ONE / 2, y: FX_ONE / 2, z: FX_ONE };
    let away = Ray::new(
        Vec3 { x: 0, y: 0, z: 0 },
        Vec3 { x: 0, y: 0, z: FX_ONE },
        0,
    );
    assert_eq!(ray_color(away, sky, &world, 10), sky);
    let toward = Ray::new(
        Vec3 { x: 0, y: 0, z: 0 },
        Vec3 { x: 0, y: 0, z: -FX_ONE },
        0,
    );
    assert_eq!(
        ray_color(toward, sky, &world, 0),
        Vec3 { x: 0, y: 0, z: 0 }
    );
}

/// A fully absorptive scene: black background, no emissive surface —
/// every traced ray comes back exactly black.
#[test]
fn absorptive_scene_is_black() {
    let world = Hittable::List(small_scene());
    let black = Vec3 { x: 0, y: 0, z: 0 };
    for ix in -4..4i64 {
        let r = Ray::new(
            Vec3 { x: 0, y: FX_ONE, z: 0 },
            Vec3 { x: ix * FX_ONE / 3, y: -FX_ONE / 3, z: -FX_ONE },
            0,
        );
        assert_eq!(ray_color(r, black, &world, 25), black);
    }
}

/// A light makes the integrator return its emission on a direct hit.
#[test]
fn emissive_surface_shows_up() {
    let mut world = HittableList::new();
    let glow = Vec3 { x: 4 * FX_ONE, y: 4 * FX_ONE, z: 4 * FX_ONE };
    world.add(Arc::new(Hittable::XzRect(XzRect::new(
        -FX_ONE,
        FX_ONE,
        -3 * FX_ONE,
        -FX_ONE,
        FX_ONE,
        Arc::new(Material::DiffuseLight(DiffuseLight::new_col(glow))),
    ))));
    let world = Hittable::List(world);
    let r = Ray::new(
        Vec3 { x: 0, y: 0, z: -2 * FX_ONE },
        Vec3 { x: 0, y: FX_ONE, z: 0 },
        0,
    );
    let black = Vec3 { x: 0, y: 0, z: 0 };
    assert_eq!(ray_color(r, black, &world, 5), glow);
}

/// A dielectric struck head-on either refracts straight through (almost
/// always) or mirror-reflects straight back; no lateral deviation exists.
#[test]
fn dielectric_head_on() {
    let glass = Material::Dielectric(Dielectric::new(3 * FX_ONE / 2));
    let incoming = Ray::new(
        Vec3 { x: 0, y: 0, z: 0 },
        Vec3 { x: 0, y: 0, z: -FX_ONE },
        0,
    );
    let rec = HitRecord::new(
        Vec3 { x: 0, y: 0, z: -FX_ONE / 2 },
        FX_ONE / 2,
        0,
        0,
        Arc::new(glass),
        Vec3 { x: 0, y: 0, z: FX_ONE },
        incoming,
    );
    let glass = Material::Dielectric(Dielectric::new(3 * FX_ONE / 2));
    let mut straight = 0;
    for _ in 0..200 {
        let (scattered, att) = glass.scatter(&incoming, &rec).expect("dielectric scatters");
        assert_eq!(att, Vec3 { x: FX_ONE, y: FX_ONE, z: FX_ONE });
        assert_eq!(scattered.dir.x, 0, "no lateral deviation");
        assert_eq!(scattered.dir.y, 0, "no lateral deviation");
        assert!(scattered.dir.z == -FX_ONE || scattered.dir.z == FX_ONE);
        if scattered.dir.z == -FX_ONE {
            straight += 1;
        }
    }
    assert!(straight > 0, "refraction must occur");
}

/// Schlick's approximation at the exact values it pins down.
#[test]
fn reflectance_values() {
    // normal incidence, ratio 1.5: ((1-1.5)/(2.5))^2 = 0.04
    let r = Dielectric::reflectance(FX_ONE, 3 * FX_ONE / 2);
    // fixed point: ((65536-98304)*65536/163840) = -13107 squared /65536 = 2621
    assert_eq!(r, 2621);
    // grazing incidence reflects fully (up to rounding): cos = 0
    let g = Dielectric::reflectance(0, 3 * FX_ONE / 2);
    assert!(g > 9 * FX_ONE / 10);
}

/// The fuzz radius is clamped into [0, 1] from both sides.
#[test]
fn metal_fuzz_clamped() {
    let c = Vec3 { x: FX_ONE, y: FX_ONE, z: FX_ONE };
    assert_eq!(Metal::new(c, -5 * FX_ONE).fuzz, 0);
    assert_eq!(Metal::new(c, FX_ONE / 4).fuzz, FX_ONE / 4);
    assert_eq!(Metal::new(c, 7 * FX_ONE).fuzz, FX_ONE);
}

/// A two-member hierarchy's root box is the smallest box enclosing both
/// members' boxes, whichever axis the build drew.
#[test]
fn bvh_root_box_is_fold_of_members() {
    let mut world = HittableList::new();
    let a = Sphere::new(Vec3 { x: -3 * FX_ONE, y: 0, z: -5 * FX_ONE }, FX_ONE, matte(1, 1, 1));
    let b = Sphere::new(Vec3 { x: 4 * FX_ONE, y: 2 * FX_ONE, z: -9 * FX_ONE }, FX_ONE / 2, matte(1, 1, 1));
    let ba = a.bounding_box(0, FX_ONE).unwrap();
    let bb = b.bounding_box(0, FX_ONE).unwrap();
    let expect = raytracer::aabb::Aabb::surrounding_box(ba, bb);
    world.add(Arc::new(Hittable::Sphere(a)));
    world.add(Arc::new(Hittable::Sphere(b)));
    let tree = BVHNode::build(world.hittable_list, 0, FX_ONE);
    let root = tree.bounding_box(0, FX_ONE).unwrap();
    assert_eq!(root.minimum, expect.minimum);
    assert_eq!(root.maximum, expect.maximum);
}

/// Rough metal absorbs rays that scatter into the surface; polished metal
/// reflects exactly.
#[test]
fn metal_mirror_reflection() {
    let m = Material::Metal(Metal::new(
        Vec3 { x: FX_ONE, y: FX_ONE, z: FX_ONE },
        0,
    ));
    let incoming = Ray::new(
        Vec3 { x: 0, y: FX_ONE, z: 0 },
        Vec3 { x: 0, y: -FX_ONE, z: 0 },
        0,
    );
    let rec = HitRecord::new(
        Vec3 { x: 0, y: 0, z: 0 },
        FX_ONE,
        0,
        0,
        Arc::new(Material::Metal(Metal::new(
            Vec3 { x: FX_ONE, y: FX_ONE, z: FX_ONE },
            0,
        ))),
        Vec3 { x: 0, y: FX_ONE, z: 0 },
        incoming,
    );
    let (scattered, _) = m.scatter(&incoming, &rec).expect("mirror reflects");
    assert_eq!((scattered.dir.x, scattered.dir.y, scattered.dir.z), (0, FX_ONE, 0));
}
