use tracer::fixed::SCALE;
use tracer::material::{
    random_in_unit_sphere, refract, schlick, Dielectric, Lambertian, Material, Metal,
};
use tracer::perlin::{perlin_generate_perm, NoiseTexture};
use tracer::rng::random_unit;
use tracer::shapes::{HitRecord, Ray};
use tracer::texture::{CheckerTexture, ConstantTexture, SphericalCheckerTexture, Texture};
use tracer::v3color::{Color, V3};

fn even_color() -> Color {
    Color {
        r: 2000,
        g: 3000,
        b: 1000,
    }
}

fn odd_color() -> Color {
    Color {
        r: 9000,
        g: 9000,
        b: 9000,
    }
}

fn constant(c: Color) -> Box<Texture> {
    Box::new(Texture::Constant(ConstantTexture { color: c }))
}

#[test]
fn schlick_normal_incidence() {
    // cosine 1: only the base reflectance r0 = ((1 - 1.5) / (1 + 1.5))^2 = 0.04 remains.
    assert_eq!(schlick(SCALE, 15000), 400);
}

#[test]
fn schlick_grazing_is_one() {
    // cosine 0: r0 + (1 - r0) = 1 exactly.
    assert_eq!(schlick(0, 15000), SCALE);
}

#[test]
fn metal_scatters_on_reflection_outward() {
    let mat = Material::Metal(Metal {
        albedo: Color {
            r: 7000,
            g: 6000,
            b: 5000,
        },
        fuzz: 0,
    });
    let ray = Ray {
        origin: V3 { x: 0, y: 0, z: 0 },
        direction: V3 {
            x: 0,
            y: 0,
            z: SCALE,
        },
        time: 123,
    };
    let hit = HitRecord {
        t: SCALE,
        p: V3 {
            x: 0,
            y: 0,
            z: 3 * SCALE,
        },
        normal: V3 {
            x: 0,
            y: 0,
            z: -SCALE,
        },
        material: &mat,
    };
    let info = mat.scatter(&ray, &hit).expect("the reflection leaves the surface");
    assert_eq!(info.attenuation, Color { r: 7000, g: 6000, b: 5000 });
    assert_eq!(info.scattered.origin, hit.p);
    assert_eq!(info.scattered.time, 123);
    assert_eq!(
        info.scattered.direction,
        V3 {
            x: 0,
            y: 0,
            z: -SCALE
        }
    );
}

#[test]
fn metal_absorbs_when_reflection_enters_surface() {
    let mat = Material::Metal(Metal {
        albedo: Color {
            r: 7000,
            g: 6000,
            b: 5000,
        },
        fuzz: 0,
    });
    let ray = Ray {
        origin: V3 { x: 0, y: 0, z: 0 },
        direction: V3 {
            x: 0,
            y: 0,
            z: SCALE,
        },
        time: 0,
    };
    // A normal on the same side as the incoming ray: the mirrored direction
    // points back into the surface, so the ray is absorbed.
    let hit = HitRecord {
        t: SCALE,
        p: V3 {
            x: 0,
            y: 0,
            z: 3 * SCALE,
        },
        normal: V3 {
            x: 0,
            y: 0,
            z: SCALE,
        },
        material: &mat,
    };
    assert!(mat.scatter(&ray, &hit).is_none());
}

#[test]
fn lambertian_always_scatters() {
    let mat = Material::Lambertian(Lambertian {
        albedo: constant(even_color()),
    });
    let ray = Ray {
        origin: V3 { x: 0, y: 0, z: 0 },
        direction: V3 {
            x: 0,
            y: 0,
            z: SCALE,
        },
        time: 77,
    };
    let hit = HitRecord {
        t: SCALE,
        p: V3 {
            x: 0,
            y: 0,
            z: SCALE,
        },
        normal: V3 {
            x: 0,
            y: -SCALE,
            z: 0,
        },
        material: &mat,
    };
    let info = mat.scatter(&ray, &hit).expect("diffuse scattering always succeeds");
    assert_eq!(info.attenuation, even_color());
    assert_eq!(info.scattered.origin, hit.p);
    assert_eq!(info.scattered.time, 77);
}

#[test]
fn dielectric_always_scatters_transparent() {
    let mat = Material::Dielectric(Dielectric { ref_idx: 15000 });
    let ray = Ray {
        origin: V3 { x: 0, y: 0, z: 0 },
        direction: V3 {
            x: 0,
            y: 0,
            z: SCALE,
        },
        time: 5,
    };
    let hit = HitRecord {
        t: SCALE,
        p: V3 {
            x: 0,
            y: 0,
            z: -SCALE,
        },
        normal: V3 {
            x: 0,
            y: 0,
            z: -SCALE,
        },
        material: &mat,
    };
    let info = mat.scatter(&ray, &hit).expect("the dielectric never absorbs");
    assert_eq!(
        info.attenuation,
        Color {
            r: SCALE,
            g: SCALE,
            b: SCALE
        }
    );
    assert_eq!(info.scattered.time, 5);
}

#[test]
fn refract_straight_through() {
    let incoming = V3 {
        x: 0,
        y: 0,
        z: SCALE,
    };
    let outward = V3 {
        x: 0,
        y: 0,
        z: -SCALE,
    };
    let ni_over_nt = 6666;
    let refr = refract(&incoming, &outward, ni_over_nt).expect("head-on refraction goes through");
    assert_eq!(refr, V3 { x: 0, y: 0, z: SCALE });
}

#[test]
fn unit_sphere_samples_stay_inside() {
    for _ in 0..32 {
        let p = random_in_unit_sphere();
        assert!(p.x.abs() <= SCALE && p.y.abs() <= SCALE && p.z.abs() <= SCALE);
        assert!(V3::dot(&p, &p) < SCALE);
    }
}

#[test]
fn random_unit_in_range() {
    for _ in 0..100 {
        let r = random_unit();
        assert!(0 <= r && r < SCALE);
    }
}

#[test]
fn checker_texture_even_odd() {
    let t = Texture::Checker(CheckerTexture {
        odd: constant(odd_color()),
        even: constant(even_color()),
    });
    // All coordinates small: every scaled coordinate sits in the first half
    // turn of its sine, so the product is positive and the even side shows.
    let near = V3 {
        x: 500,
        y: 500,
        z: 500,
    };
    assert_eq!(t.value(&near), even_color());
    // One coordinate past the first half turn flips exactly one sine's sign.
    let flipped = V3 {
        x: 3500,
        y: 500,
        z: 500,
    };
    assert_eq!(t.value(&flipped), odd_color());
}

#[test]
fn spherical_checker_on_axis() {
    let t = Texture::SphericalChecker(SphericalCheckerTexture {
        odd: constant(odd_color()),
        even: constant(even_color()),
    });
    // On the positive x axis both pseudo-angles vanish: the even side shows.
    let p = V3 {
        x: SCALE,
        y: 0,
        z: 0,
    };
    assert_eq!(t.value(&p), even_color());
}

#[test]
fn noise_texture_in_unit_range() {
    let n = NoiseTexture::new();
    let p = V3 {
        x: 12345,
        y: 777,
        z: 999,
    };
    let t = Texture::Noise(n);
    let c1 = t.value(&p);
    let c2 = t.value(&p);
    assert_eq!(c1, c2);
    assert_eq!(c1.r, c1.g);
    assert_eq!(c1.g, c1.b);
    assert!(0 <= c1.r && c1.r < SCALE);
}

#[test]
fn perlin_perm_is_permutation() {
    let perm = perlin_generate_perm();
    assert_eq!(perm.len(), 256);
    let mut sorted = perm.clone();
    sorted.sort();
    for (i, v) in sorted.iter().enumerate() {
        assert_eq!(*v as usize, i);
    }
}
