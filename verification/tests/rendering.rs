use tracer::camera::{Camera, CameraParams};
use tracer::fixed::SCALE;
use tracer::material::{Lambertian, Material, Metal};
use tracer::render::{closest_hit, color_for_ray, render};
use tracer::shapes::{Ray, Shape, Sphere};
use tracer::texture::{ConstantTexture, Texture};
use tracer::v3color::{Color, V3};

const TMAX: i64 = 100_000_000_000;

fn sphere_at(z: i64, material: Material) -> Shape {
    Shape::Sphere(Sphere {
        center: V3 { x: 0, y: 0, z },
        radius: SCALE,
        material,
    })
}

fn gray() -> Material {
    Material::Lambertian(Lambertian {
        albedo: Box::new(Texture::Constant(ConstantTexture {
            color: Color {
                r: 5000,
                g: 5000,
                b: 5000,
            },
        })),
    })
}

fn mirror() -> Material {
    Material::Metal(Metal {
        albedo: Color {
            r: SCALE,
            g: SCALE,
            b: SCALE,
        },
        fuzz: 0,
    })
}

fn pinhole_camera() -> Camera {
    Camera::new(CameraParams {
        look_from: &V3 {
            x: 0,
            y: 0,
            z: SCALE,
        },
        look_at: &V3 { x: 0, y: 0, z: 0 },
        vup: &V3 {
            x: 0,
            y: SCALE,
            z: 0,
        },
        vert_fov_deg: 90 * SCALE,
        aspect: 2 * SCALE,
        aperture: 0,
        focus_dist: SCALE,
        time1: 0,
        time2: 0,
    })
    .expect("the parameters sit inside every stated range")
}

#[test]
fn closest_hit_picks_smaller_t() {
    let objects = vec![sphere_at(8 * SCALE, gray()), sphere_at(4 * SCALE, gray())];
    let ray = Ray {
        origin: V3 { x: 0, y: 0, z: 0 },
        direction: V3 {
            x: 0,
            y: 0,
            z: SCALE,
        },
        time: 0,
    };
    let hit = closest_hit(&objects, &ray, 10, TMAX).expect("both spheres sit on the ray");
    assert_eq!(hit.t, 3 * SCALE);
}

#[test]
fn sky_up_is_sky_blue() {
    let objects: Vec<Shape> = vec![];
    let ray = Ray {
        origin: V3 { x: 0, y: 0, z: 0 },
        direction: V3 {
            x: 0,
            y: SCALE,
            z: 0,
        },
        time: 0,
    };
    assert_eq!(
        color_for_ray(&objects, &ray, 0),
        Color {
            r: 5000,
            g: 7000,
            b: SCALE
        }
    );
}

#[test]
fn sky_down_is_white() {
    let objects: Vec<Shape> = vec![];
    let ray = Ray {
        origin: V3 { x: 0, y: 0, z: 0 },
        direction: V3 {
            x: 0,
            y: -SCALE,
            z: 0,
        },
        time: 0,
    };
    assert_eq!(
        color_for_ray(&objects, &ray, 0),
        Color {
            r: SCALE,
            g: SCALE,
            b: SCALE
        }
    );
}

#[test]
fn mirror_box_depth_cutoff() {
    // Two facing perfect mirrors: the ray bounces between them until the
    // recursion bound and contributes black, without unbounded recursion.
    let objects = vec![sphere_at(4 * SCALE, mirror()), sphere_at(-4 * SCALE, mirror())];
    let ray = Ray {
        origin: V3 { x: 0, y: 0, z: 0 },
        direction: V3 {
            x: 0,
            y: 0,
            z: SCALE,
        },
        time: 0,
    };
    assert_eq!(color_for_ray(&objects, &ray, 0), Color { r: 0, g: 0, b: 0 });
}

#[test]
fn camera_corner_rays() {
    let cam = pinhole_camera();
    let r00 = cam.get_ray(0, 0);
    assert_eq!(r00.origin, cam.origin);
    assert_eq!(r00.direction.x, cam.lower_left_corner.x - cam.origin.x);
    assert_eq!(r00.direction.y, cam.lower_left_corner.y - cam.origin.y);
    assert_eq!(r00.direction.z, cam.lower_left_corner.z - cam.origin.z);
    let r11 = cam.get_ray(SCALE, SCALE);
    assert_eq!(
        r11.direction.x,
        cam.lower_left_corner.x + cam.horizontal.x + cam.vertical.x - cam.origin.x
    );
    assert_eq!(
        r11.direction.y,
        cam.lower_left_corner.y + cam.horizontal.y + cam.vertical.y - cam.origin.y
    );
    assert_eq!(
        r11.direction.z,
        cam.lower_left_corner.z + cam.horizontal.z + cam.vertical.z - cam.origin.z
    );
}

#[test]
fn camera_corner_rays_concrete() {
    let cam = pinhole_camera();
    let r00 = cam.get_ray(0, 0);
    assert_eq!(
        r00.direction,
        V3 {
            x: -2 * SCALE,
            y: -SCALE,
            z: -SCALE
        }
    );
    let r11 = cam.get_ray(SCALE, SCALE);
    assert_eq!(
        r11.direction,
        V3 {
            x: 2 * SCALE,
            y: SCALE,
            z: -SCALE
        }
    );
}

#[test]
fn shutter_sample_stays_inside_open_interval() {
    let cam = Camera::new(CameraParams {
        look_from: &V3 {
            x: 0,
            y: 0,
            z: SCALE,
        },
        look_at: &V3 { x: 0, y: 0, z: 0 },
        vup: &V3 {
            x: 0,
            y: SCALE,
            z: 0,
        },
        vert_fov_deg: 90 * SCALE,
        aspect: 2 * SCALE,
        aperture: 0,
        focus_dist: SCALE,
        time1: 0,
        time2: SCALE,
    })
    .expect("the parameters sit inside every stated range");
    for _ in 0..50 {
        let r = cam.get_ray(0, 0);
        assert!(0 <= r.time && r.time < SCALE);
    }
}

#[test]
fn camera_new_rejects_bad_fov() {
    let r = Camera::new(CameraParams {
        look_from: &V3 {
            x: 0,
            y: 0,
            z: SCALE,
        },
        look_at: &V3 { x: 0, y: 0, z: 0 },
        vup: &V3 {
            x: 0,
            y: SCALE,
            z: 0,
        },
        vert_fov_deg: 0,
        aspect: 2 * SCALE,
        aperture: 0,
        focus_dist: SCALE,
        time1: 0,
        time2: 0,
    });
    assert!(r.is_none());
}

#[test]
fn render_small_image_dimensions() {
    let objects = vec![sphere_at(-3 * SCALE, gray())];
    let cam = pinhole_camera();
    let pixels = render(&objects, &cam, 4, 2, 2);
    assert_eq!(pixels.len(), 8);
    for p in pixels {
        assert!(0 <= p.r && p.r <= SCALE);
        assert!(0 <= p.g && p.g <= SCALE);
        assert!(0 <= p.b && p.b <= SCALE);
    }
}
