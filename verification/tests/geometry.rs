use tracer::bvh::{Aabb, BvhNode};
use tracer::fixed::{div_fp, floor_div, mul_fp, sqrt_fp, SCALE};
use tracer::material::{Lambertian, Material};
use tracer::shapes::{moving_sphere_center_at_time, sphere_hit, MovingSphere, Ray, Shape, Sphere};
use tracer::texture::{ConstantTexture, Texture};
use tracer::v3color::{Color, V3};

const TMAX: i64 = 100_000_000_000;

fn gray() -> Material {
    Material::Lambertian(Lambertian {
        albedo: Box::new(Texture::Constant(ConstantTexture {
            color: Color {
                r: 5000,
                g: 5000,
                b: 5000,
            },
        })),
    })
}

#[test]
fn test_bvh_node_compute_shapes() {
    let shape = BvhNode::compute_shapes_bvh(
        vec![Shape::Sphere(Sphere {
            center: V3 {
                x: 0,
                y: -1000 * SCALE,
                z: 0,
            },
            radius: 1000 * SCALE,
            material: gray(),
        })],
        10,
        TMAX,
    );
    let bb = shape.bounding_box(10, TMAX);
    assert_eq!(
        V3 {
            x: -1000 * SCALE,
            y: -2000 * SCALE,
            z: -1000 * SCALE
        },
        bb.min
    );
    assert_eq!(
        V3 {
            x: 1000 * SCALE,
            y: 0,
            z: 1000 * SCALE
        },
        bb.max
    );
}

#[test]
fn sphere_hit_roundtrip() {
    let center = V3 { x: 0, y: 0, z: 0 };
    let mat = gray();
    let ray = Ray {
        origin: V3 {
            x: 0,
            y: 0,
            z: -2 * SCALE,
        },
        direction: V3 {
            x: 0,
            y: 0,
            z: SCALE,
        },
        time: 0,
    };
    let hit = sphere_hit(&ray, &center, SCALE, &mat, 10, TMAX).expect("the ray crosses the sphere");
    assert_eq!(hit.t, SCALE);
    assert_eq!(hit.p, V3 { x: 0, y: 0, z: -SCALE });
    assert_eq!(hit.normal, V3 { x: 0, y: 0, z: -SCALE });
}

#[test]
fn sphere_hit_miss() {
    let center = V3 {
        x: 0,
        y: 0,
        z: 5 * SCALE,
    };
    let mat = gray();
    let ray = Ray {
        origin: V3 { x: 0, y: 0, z: 0 },
        direction: V3 {
            x: 0,
            y: 0,
            z: -SCALE,
        },
        time: 0,
    };
    assert!(sphere_hit(&ray, &center, SCALE, &mat, 10, TMAX).is_none());
}

#[test]
fn moving_sphere_center_endpoints() {
    let ms = MovingSphere {
        center0: V3 { x: 0, y: 0, z: 0 },
        center1: V3 {
            x: SCALE,
            y: 0,
            z: 0,
        },
        time0: 0,
        time1: SCALE,
        radius: SCALE,
        material: gray(),
    };
    assert_eq!(
        moving_sphere_center_at_time(&ms, 0),
        V3 { x: 0, y: 0, z: 0 }
    );
    assert_eq!(
        moving_sphere_center_at_time(&ms, SCALE),
        V3 {
            x: SCALE,
            y: 0,
            z: 0
        }
    );
    assert_eq!(
        moving_sphere_center_at_time(&ms, 5000),
        V3 {
            x: 5000,
            y: 0,
            z: 0
        }
    );
}

#[test]
fn moving_sphere_center_clamps_far_times() {
    let ms = MovingSphere {
        center0: V3 { x: 0, y: 0, z: 0 },
        center1: V3 {
            x: SCALE,
            y: 0,
            z: 0,
        },
        time0: 0,
        time1: SCALE,
        radius: SCALE,
        material: gray(),
    };
    // At one hundred motion intervals the factor sits exactly at the clamp.
    assert_eq!(
        moving_sphere_center_at_time(&ms, 100 * SCALE),
        V3 {
            x: 100 * SCALE,
            y: 0,
            z: 0
        }
    );
    // Far beyond it, the extrapolation saturates instead of jumping back.
    assert_eq!(
        moving_sphere_center_at_time(&ms, 20_000 * SCALE),
        V3 {
            x: 100 * SCALE,
            y: 0,
            z: 0
        }
    );
    assert_eq!(
        moving_sphere_center_at_time(&ms, -20_000 * SCALE),
        V3 {
            x: -(100 * SCALE),
            y: 0,
            z: 0
        }
    );
}

#[test]
fn aabb_union_componentwise() {
    let a = Aabb {
        min: V3 {
            x: -SCALE,
            y: -SCALE,
            z: -SCALE,
        },
        max: V3 { x: 0, y: 0, z: 0 },
    };
    let b = Aabb {
        min: V3 {
            x: 0,
            y: -2 * SCALE,
            z: 0,
        },
        max: V3 {
            x: SCALE,
            y: SCALE,
            z: SCALE,
        },
    };
    let u = a.union(&b);
    assert_eq!(
        u.min,
        V3 {
            x: -SCALE,
            y: -2 * SCALE,
            z: -SCALE
        }
    );
    assert_eq!(
        u.max,
        V3 {
            x: SCALE,
            y: SCALE,
            z: SCALE
        }
    );
}

#[test]
fn aabb_slab_hit_and_parallel_miss() {
    let bx = Aabb {
        min: V3 {
            x: -SCALE,
            y: -SCALE,
            z: -SCALE,
        },
        max: V3 {
            x: SCALE,
            y: SCALE,
            z: SCALE,
        },
    };
    let toward = Ray {
        origin: V3 {
            x: 0,
            y: 0,
            z: -2 * SCALE,
        },
        direction: V3 {
            x: 0,
            y: 0,
            z: SCALE,
        },
        time: 0,
    };
    assert!(bx.hit(&toward, 10, TMAX));
    let parallel = Ray {
        origin: V3 {
            x: 0,
            y: 0,
            z: -2 * SCALE,
        },
        direction: V3 {
            x: 0,
            y: SCALE,
            z: 0,
        },
        time: 0,
    };
    assert!(!bx.hit(&parallel, 10, TMAX));
}

#[test]
fn bvh_hit_finds_leaf_through_tree() {
    let mk = |z: i64| {
        Shape::Sphere(Sphere {
            center: V3 { x: 0, y: 0, z },
            radius: SCALE,
            material: gray(),
        })
    };
    let tree = BvhNode::compute_shapes_bvh(
        vec![mk(4 * SCALE), mk(8 * SCALE), mk(12 * SCALE)],
        10,
        TMAX,
    );
    let ray = Ray {
        origin: V3 { x: 0, y: 0, z: 0 },
        direction: V3 {
            x: 0,
            y: 0,
            z: SCALE,
        },
        time: 0,
    };
    let hit = tree.hit(&ray, 10, TMAX).expect("the ray crosses the spheres");
    assert_eq!(hit.t, 3 * SCALE);
}

#[test]
fn point_at_parameter_exact() {
    let ray = Ray {
        origin: V3 {
            x: SCALE,
            y: 0,
            z: 0,
        },
        direction: V3 {
            x: 0,
            y: SCALE,
            z: 0,
        },
        time: 0,
    };
    assert_eq!(
        ray.point_at_parameter(2 * SCALE),
        V3 {
            x: SCALE,
            y: 2 * SCALE,
            z: 0
        }
    );
}

#[test]
fn fixed_point_ops_exact() {
    assert_eq!(mul_fp(2 * SCALE, 3 * SCALE), 6 * SCALE);
    assert_eq!(div_fp(SCALE, 2 * SCALE), 5000);
    assert_eq!(sqrt_fp(4 * SCALE), 2 * SCALE);
    assert_eq!(floor_div(-7, 2), -4);
    assert_eq!(floor_div(7, 2), 3);
}

#[test]
fn reflect_mirror_axis() {
    let v = V3 {
        x: 0,
        y: 0,
        z: SCALE,
    };
    let n = V3 {
        x: 0,
        y: 0,
        z: -SCALE,
    };
    assert_eq!(V3::reflect(&v, &n), V3 { x: 0, y: 0, z: -SCALE });
}
