//! Rays, hit records, and the closed set of shapes: spheres, moving spheres,
//! and nodes of the bounding-volume hierarchy.

use vstd::prelude::*;

verus! {

use crate::fixed::{SCALE, mag, tdiv, fmul, fdiv, mul_fp, wide_mul, div_trunc, isqrt,
    lemma_tdiv_mono_mag, lemma_fmul_bound};
use crate::v3color::{V3, bounded, dot_spec, sqrt_of, lemma_sqrt_exists,
    lemma_sqrt_unique, lemma_dot_le, lemma_prod_mag};
use crate::bvh::{Aabb, BvhNode, union_spec, box_wf, aabb_hit_spec};
use crate::material::{Material, material_wf};

/// Coordinate bound for scene geometry: centers and radii.
pub const CMAX: i64 = 100_000_000;

/// Bound on the motion-interpolation factor of a moving sphere.
pub const KMAX: i64 = 1_000_000;

/// Bound on a sphere center at any accepted sample time.
pub const CBMAX: i64 = 20_200_000_000;

/// Bound on a bounding-box corner coordinate.
pub const BMAX: i64 = 20_300_000_000;

/// Bound on a ray origin or an accepted hit point.
pub const OMAX: i64 = 100_000_000_000;

/// Bound on a ray direction component.
pub const DMAX: i64 = 10_000_000_000;

/// Bound on a ray parameter or sample time.
pub const TMAX: i64 = 100_000_000_000;

/// Bound on a surface-normal component: two in world units.
pub const NMAX: i64 = 20_000;

/// A ray: origin, direction (not necessarily unit length), and the sample
/// time used for motion blur.
#[derive(Clone, Copy, Debug, PartialEq, Eq, Structural)]
pub struct Ray {
    pub origin: V3,
    pub direction: V3,
    pub time: i64,
}

/// The bounds every ray handed to the intersection pipeline obeys.
pub open spec fn ray_wf(r: Ray) -> bool {
    &&& bounded(r.origin, OMAX as int)
    &&& bounded(r.direction, DMAX as int)
    &&& mag(r.time as int) <= TMAX as int
}

impl Ray {
    /// The point `origin + t * direction` on the ray.
    pub fn point_at_parameter(&self, t: i64) -> (r: V3)
        requires
            ray_wf(*self),
            mag(t as int) <= TMAX as int,
        ensures
            r.x == self.origin.x + fmul(t as int, self.direction.x as int),
            r.y == self.origin.y + fmul(t as int, self.direction.y as int),
            r.z == self.origin.z + fmul(t as int, self.direction.z as int),
            bounded(r, OMAX as int + (TMAX as int) * (DMAX as int) / (SCALE as int)),
    {
        proof {
            lemma_fmul_bound(t as int, self.direction.x as int, TMAX as int, DMAX as int);
            lemma_fmul_bound(t as int, self.direction.y as int, TMAX as int, DMAX as int);
            lemma_fmul_bound(t as int, self.direction.z as int, TMAX as int, DMAX as int);
        }
        self.origin.add(self.direction.scale(t))
    }

    /// Whether a ray obeys the pipeline's bounds: the executable mirror of
    /// `ray_wf`, for callers that must test before calling.
    pub fn check_wf(&self) -> (r: bool)
        ensures
            r == ray_wf(*self),
    {
        self.origin.x <= OMAX && self.origin.x >= -OMAX && self.origin.y <= OMAX && self.origin.y
            >= -OMAX && self.origin.z <= OMAX && self.origin.z >= -OMAX && self.direction.x <= DMAX
            && self.direction.x >= -DMAX && self.direction.y <= DMAX && self.direction.y >= -DMAX
            && self.direction.z <= DMAX && self.direction.z >= -DMAX && self.time <= TMAX
            && self.time >= -TMAX
    }
}

/// The content of a hit as the specifications see it: what the intersection
/// formulas determine, together with the material of the surface that was
/// hit. Specification-only: the executable pipeline hands out `HitRecord`.
pub struct HitVals {
    pub t: i64,
    pub p: V3,
    pub normal: V3,
    pub material: Material,
}

/// A hit: ray parameter, world point, outward normal, and the material of
/// the surface that was hit.
#[derive(Clone, Copy)]
pub struct HitRecord<'a> {
    pub t: i64,
    pub p: V3,
    pub normal: V3,
    pub material: &'a Material,
}

/// The content of an optional hit record, with the material by value.
pub open spec fn vals_of<'a>(r: Option<HitRecord<'a>>) -> Option<HitVals> {
    match r {
        Some(h) => Some(HitVals { t: h.t, p: h.p, normal: h.normal, material: *h.material }),
        None => None,
    }
}

/// A static sphere.
pub struct Sphere {
    pub center: V3,
    pub radius: i64,
    pub material: Material,
}

/// A sphere whose center moves linearly between two reference times.
pub struct MovingSphere {
    pub center0: V3,
    pub center1: V3,
    pub time0: i64,
    pub time1: i64,
    pub radius: i64,
    pub material: Material,
}

/// The closed set of shapes the renderer knows.
pub enum Shape {
    Sphere(Sphere),
    MovingSphere(MovingSphere),
    Bvh(Box<BvhNode>),
}

pub open spec fn sphere_wf(s: Sphere) -> bool {
    &&& bounded(s.center, CMAX as int)
    &&& 1 <= s.radius <= CMAX
    &&& material_wf(s.material)
}

pub open spec fn msphere_wf(s: MovingSphere) -> bool {
    &&& bounded(s.center0, CMAX as int)
    &&& bounded(s.center1, CMAX as int)
    &&& 1 <= s.radius <= CMAX
    &&& -TMAX <= s.time0 < s.time1 <= TMAX
    &&& material_wf(s.material)
}

/// Geometric well-formedness of a shape tree: every leaf obeys the scene
/// bounds and every cached node box is a well-formed box.
pub open spec fn shape_geom_wf(s: Shape) -> bool
    decreases s,
{
    match s {
        Shape::Sphere(sp) => sphere_wf(sp),
        Shape::MovingSphere(ms) => msphere_wf(ms),
        Shape::Bvh(node) => box_wf(node.bbox) && shape_geom_wf(node.left) && shape_geom_wf(
        node.right),
    }
}

/// Box well-formedness of a shape tree over a build time range: every cached
/// node box equals the union of its two children's boxes.
pub open spec fn shape_box_wf(s: Shape, t0: i64, t1: i64) -> bool
    decreases s,
{
    match s {
        Shape::Sphere(_) => true,
        Shape::MovingSphere(_) => true,
        Shape::Bvh(node) => node.bbox == union_spec(
            shape_box_spec(node.left, t0, t1),
            shape_box_spec(node.right, t0, t1),
        ) && shape_box_wf(node.left, t0, t1) && shape_box_wf(node.right, t0, t1),
    }
}

/// The motion-interpolation factor, clamped monotonically to the admitted
/// band: far outside the motion interval the extrapolation saturates, so the
/// center stays on the grid and still moves monotonically with time.
pub open spec fn clamp_factor(k: int) -> int {
    if k > KMAX as int {
        KMAX as int
    } else if k < -(KMAX as int) {
        -(KMAX as int)
    } else {
        k
    }
}

/// The interpolated center of a moving sphere at a sample time.
pub open spec fn center_at_spec(ms: MovingSphere, time: i64) -> V3 {
    let k = clamp_factor(fdiv(time - ms.time0, ms.time1 - ms.time0));
    V3 {
        x: (ms.center0.x + fmul(k, ms.center1.x - ms.center0.x)) as i64,
        y: (ms.center0.y + fmul(k, ms.center1.y - ms.center0.y)) as i64,
        z: (ms.center0.z + fmul(k, ms.center1.z - ms.center0.z)) as i64,
    }
}

/// Compute the interpolated center of a moving sphere at a sample time.
pub fn moving_sphere_center_at_time(ms: &MovingSphere, time: i64) -> (c: V3)
    requires
        msphere_wf(*ms),
        mag(time as int) <= TMAX as int,
    ensures
        c == center_at_spec(*ms, time),
        bounded(c, CBMAX as int),
{
    let dt: i64 = ms.time1 - ms.time0;
    proof {
        lemma_tdiv_mono_mag((time - ms.time0) * (SCALE as int), dt as int, mag(
            (time - ms.time0) * (SCALE as int)));
        assert(mag((time - ms.time0) * (SCALE as int)) <= 2 * (TMAX as int) * (SCALE as int)) by {
            lemma_prod_mag(time - ms.time0, SCALE as int, 2 * (TMAX as int), SCALE as int);
        }
    }
    let k0: i64 = crate::fixed::div_fp(time - ms.time0, dt);
    let k: i64 = if k0 > KMAX {
        KMAX
    } else if k0 < -KMAX {
        -KMAX
    } else {
        k0
    };
    proof {
        lemma_fmul_bound(k as int, ms.center1.x - ms.center0.x, KMAX as int, 2 * (CMAX as int));
        lemma_fmul_bound(k as int, ms.center1.y - ms.center0.y, KMAX as int, 2 * (CMAX as int));
        lemma_fmul_bound(k as int, ms.center1.z - ms.center0.z, KMAX as int, 2 * (CMAX as int));
    }
    let d: V3 = ms.center1.sub(ms.center0);
    ms.center0.add(d.scale(k))
}

/// A moving sphere's center moves monotonically with time: at any sample
/// time between two others, each center coordinate lies between the two
/// coordinates at those times.
pub proof fn lemma_center_between(ms: MovingSphere, ta: i64, t: i64, tb: i64)
    requires
        msphere_wf(ms),
        mag(ta as int) <= TMAX as int,
        mag(t as int) <= TMAX as int,
        mag(tb as int) <= TMAX as int,
        ta <= t <= tb,
    ensures
        ({
            let ca = center_at_spec(ms, ta);
            let c = center_at_spec(ms, t);
            let cb = center_at_spec(ms, tb);
            &&& (ca.x <= c.x <= cb.x) || (cb.x <= c.x <= ca.x)
            &&& (ca.y <= c.y <= cb.y) || (cb.y <= c.y <= ca.y)
            &&& (ca.z <= c.z <= cb.z) || (cb.z <= c.z <= ca.z)
        }),
{
    let dt = ms.time1 - ms.time0;
    let ka0 = fdiv(ta - ms.time0, dt as int);
    let k0 = fdiv(t - ms.time0, dt as int);
    let kb0 = fdiv(tb - ms.time0, dt as int);
    crate::fixed::lemma_tdiv_mono((ta - ms.time0) * (SCALE as int), (t - ms.time0) * (
    SCALE as int), dt as int);
    crate::fixed::lemma_tdiv_mono((t - ms.time0) * (SCALE as int), (tb - ms.time0) * (
    SCALE as int), dt as int);
    let ka = clamp_factor(ka0);
    let k = clamp_factor(k0);
    let kb = clamp_factor(kb0);
    assert(ka <= k <= kb);
    lemma_center_component(ka, k, kb, ms.center1.x - ms.center0.x);
    lemma_center_component(ka, k, kb, ms.center1.y - ms.center0.y);
    lemma_center_component(ka, k, kb, ms.center1.z - ms.center0.z);
    lemma_fmul_bound(ka, ms.center1.x - ms.center0.x, KMAX as int, 2 * (CMAX as int));
    lemma_fmul_bound(ka, ms.center1.y - ms.center0.y, KMAX as int, 2 * (CMAX as int));
    lemma_fmul_bound(ka, ms.center1.z - ms.center0.z, KMAX as int, 2 * (CMAX as int));
    lemma_fmul_bound(k, ms.center1.x - ms.center0.x, KMAX as int, 2 * (CMAX as int));
    lemma_fmul_bound(k, ms.center1.y - ms.center0.y, KMAX as int, 2 * (CMAX as int));
    lemma_fmul_bound(k, ms.center1.z - ms.center0.z, KMAX as int, 2 * (CMAX as int));
    lemma_fmul_bound(kb, ms.center1.x - ms.center0.x, KMAX as int, 2 * (CMAX as int));
    lemma_fmul_bound(kb, ms.center1.y - ms.center0.y, KMAX as int, 2 * (CMAX as int));
    lemma_fmul_bound(kb, ms.center1.z - ms.center0.z, KMAX as int, 2 * (CMAX as int));
}

/// The interpolated offset along one axis is ordered with the factor.
proof fn lemma_center_component(ka: int, k: int, kb: int, d: int)
    requires
        ka <= k <= kb,
    ensures
        (fmul(ka, d) <= fmul(k, d) <= fmul(kb, d)) || (fmul(kb, d) <= fmul(k, d) <= fmul(ka, d)),
{
    crate::fixed::lemma_fmul_mono(ka, k, d);
    crate::fixed::lemma_fmul_mono(k, kb, d);
}

/// The box a moving sphere answers for a time range contains its box at
/// every sample time inside the range: the clamped interpolation is
/// monotone, so the swept volume's extremes sit at the range's ends.
pub proof fn lemma_moving_box_contains(ms: MovingSphere, ta: i64, t: i64, tb: i64)
    requires
        msphere_wf(ms),
        mag(ta as int) <= TMAX as int,
        mag(t as int) <= TMAX as int,
        mag(tb as int) <= TMAX as int,
        ta <= t <= tb,
    ensures
        crate::bvh::contains_box(
            union_spec(
                sphere_box_spec(center_at_spec(ms, ta), ms.radius),
                sphere_box_spec(center_at_spec(ms, tb), ms.radius),
            ),
            sphere_box_spec(center_at_spec(ms, t), ms.radius),
        ),
        crate::bvh::contains_box(
            shape_box_spec(Shape::MovingSphere(ms), ta, tb),
            sphere_box_spec(center_at_spec(ms, t), ms.radius),
        ),
{
    lemma_center_between(ms, ta, t, tb);
    lemma_center_bounded(ms, ta);
    lemma_center_bounded(ms, t);
    lemma_center_bounded(ms, tb);
}

/// Every interpolated center stays inside the center bound.
pub proof fn lemma_center_bounded(ms: MovingSphere, t: i64)
    requires
        msphere_wf(ms),
        mag(t as int) <= TMAX as int,
    ensures
        bounded(center_at_spec(ms, t), CBMAX as int),
{
    let k = clamp_factor(fdiv(t - ms.time0, ms.time1 - ms.time0));
    lemma_fmul_bound(k, ms.center1.x - ms.center0.x, KMAX as int, 2 * (CMAX as int));
    lemma_fmul_bound(k, ms.center1.y - ms.center0.y, KMAX as int, 2 * (CMAX as int));
    lemma_fmul_bound(k, ms.center1.z - ms.center0.z, KMAX as int, 2 * (CMAX as int));
}

/// The geometric outcome of accepting the ray parameter `t` on a sphere:
/// the hit point and the outward normal, or nothing when either leaves the
/// pipeline's grid bounds.
pub open spec fn sphere_record_spec(
    center: V3,
    radius: i64,
    material: Material,
    ray: Ray,
    t: int,
) -> Option<HitVals> {
    let px = ray.origin.x + fmul(t, ray.direction.x as int);
    let py = ray.origin.y + fmul(t, ray.direction.y as int);
    let pz = ray.origin.z + fmul(t, ray.direction.z as int);
    let nx = fdiv(px - center.x, radius as int);
    let ny = fdiv(py - center.y, radius as int);
    let nz = fdiv(pz - center.z, radius as int);
    if mag(px) <= OMAX as int && mag(py) <= OMAX as int && mag(pz) <= OMAX as int && mag(nx)
        <= NMAX as int && mag(ny) <= NMAX as int && mag(nz) <= NMAX as int {
        Some(
            HitVals {
                t: t as i64,
                p: V3 { x: px as i64, y: py as i64, z: pz as i64 },
                normal: V3 { x: nx as i64, y: ny as i64, z: nz as i64 },
                material,
            },
        )
    } else {
        None
    }
}

/// The quadratic sphere intersection: solve `|O + tD - C|^2 = r^2` for `t`
/// with the half-angle form of the discriminant, test the smaller root
/// first, and accept the first root inside the half-open parameter range.
pub open spec fn sphere_hit_spec(
    center: V3,
    radius: i64,
    material: Material,
    ray: Ray,
    tmin: i64,
    tmax: i64,
) -> Option<HitVals> {
    let oc = V3 {
        x: (ray.origin.x - center.x) as i64,
        y: (ray.origin.y - center.y) as i64,
        z: (ray.origin.z - center.z) as i64,
    };
    let a = dot_spec(ray.direction, ray.direction);
    let b = dot_spec(oc, ray.direction);
    let c = dot_spec(oc, oc) - fmul(radius as int, radius as int);
    let disc = b * b - a * c;
    if a >= 1 && disc > 0 {
        let root = sqrt_of(disc);
        let t1 = tdiv((0 - b - root) * (SCALE as int), a);
        if tmin <= t1 < tmax {
            sphere_record_spec(center, radius, material, ray, t1)
        } else {
            let t2 = tdiv((0 - b + root) * (SCALE as int), a);
            if tmin <= t2 < tmax {
                sphere_record_spec(center, radius, material, ray, t2)
            } else {
                None
            }
        }
    } else {
        None
    }
}

/// Build the hit record for an accepted ray parameter.
fn sphere_record<'a>(
    ray: &Ray,
    sphere_center: &V3,
    sphere_radius: i64,
    sphere_material: &'a Material,
    t: i64,
) -> (r: Option<HitRecord<'a>>)
    requires
        ray_wf(*ray),
        bounded(*sphere_center, CBMAX as int),
        1 <= sphere_radius <= CMAX,
        material_wf(*sphere_material),
        mag(t as int) <= TMAX as int,
    ensures
        vals_of(r) == sphere_record_spec(
            *sphere_center,
            sphere_radius,
            *sphere_material,
            *ray,
            t as int,
        ),
        r matches Some(h) ==> h.material == sphere_material && material_wf(*h.material),
        r matches Some(h) ==> mag(h.t as int) <= TMAX as int && bounded(h.p, OMAX as int)
            && bounded(h.normal, NMAX as int),
{
    let p: V3 = ray.point_at_parameter(t);
    if p.x > OMAX || p.x < -OMAX || p.y > OMAX || p.y < -OMAX || p.z > OMAX || p.z < -OMAX {
        return None;
    }
    proof {
        lemma_tdiv_mono_mag(
            (p.x - sphere_center.x) * (SCALE as int),
            sphere_radius as int,
            mag((p.x - sphere_center.x) * (SCALE as int)),
        );
        lemma_tdiv_mono_mag(
            (p.y - sphere_center.y) * (SCALE as int),
            sphere_radius as int,
            mag((p.y - sphere_center.y) * (SCALE as int)),
        );
        lemma_tdiv_mono_mag(
            (p.z - sphere_center.z) * (SCALE as int),
            sphere_radius as int,
            mag((p.z - sphere_center.z) * (SCALE as int)),
        );
        lemma_prod_mag(
            p.x - sphere_center.x,
            SCALE as int,
            OMAX as int + CBMAX as int,
            SCALE as int,
        );
        lemma_prod_mag(
            p.y - sphere_center.y,
            SCALE as int,
            OMAX as int + CBMAX as int,
            SCALE as int,
        );
        lemma_prod_mag(
            p.z - sphere_center.z,
            SCALE as int,
            OMAX as int + CBMAX as int,
            SCALE as int,
        );
    }
    let pc: V3 = p.sub(*sphere_center);
    let n: V3 = pc.div_s(sphere_radius);
    if n.x > NMAX || n.x < -NMAX || n.y > NMAX || n.y < -NMAX || n.z > NMAX || n.z < -NMAX {
        return None;
    }
    Some(HitRecord { t, p, normal: n, material: sphere_material })
}

/// Intersect a ray with a sphere over a half-open parameter range: the
/// half-angle quadratic solve, testing the smaller root first. An accepted
/// root whose hit point or outward normal leaves the pipeline's grid bounds
/// is answered as no hit, exactly as `sphere_record_spec` states; inside the
/// scene bounds the stated point and normal formulas keep such a root far
/// from those limits.
pub fn sphere_hit<'a>(
    ray: &Ray,
    sphere_center: &V3,
    sphere_radius: i64,
    sphere_material: &'a Material,
    tmin: i64,
    tmax: i64,
) -> (r: Option<HitRecord<'a>>)
    requires
        ray_wf(*ray),
        bounded(*sphere_center, CBMAX as int),
        1 <= sphere_radius <= CMAX,
        material_wf(*sphere_material),
        mag(tmin as int) <= TMAX as int,
        mag(tmax as int) <= TMAX as int,
    ensures
        vals_of(r) == sphere_hit_spec(
            *sphere_center,
            sphere_radius,
            *sphere_material,
            *ray,
            tmin,
            tmax,
        ),
        r matches Some(h) ==> h.material == sphere_material && material_wf(*h.material),
        r matches Some(h) ==> mag(h.t as int) <= TMAX as int && bounded(h.p, OMAX as int)
            && bounded(h.normal, NMAX as int),
{
    proof {
        lemma_dot_le(
            ray.direction,
            ray.direction,
            DMAX as int,
            DMAX as int,
            30_000_000_000_000_000,
        );
    }
    let oc: V3 = ray.origin.sub(*sphere_center);
    proof {
        lemma_dot_le(
            oc,
            ray.direction,
            OMAX as int + CBMAX as int,
            DMAX as int,
            400_000_000_000_000_000,
        );
        lemma_dot_le(
            oc,
            oc,
            OMAX as int + CBMAX as int,
            OMAX as int + CBMAX as int,
            5_000_000_000_000_000_000,
        );
        crate::fixed::lemma_fmul_le(
            sphere_radius as int,
            sphere_radius as int,
            CMAX as int,
            CMAX as int,
            1_000_000_000_000,
        );
    }
    let a: i64 = V3::dot(&ray.direction, &ray.direction);
    let b: i64 = V3::dot(&oc, &ray.direction);
    let c: i64 = V3::dot(&oc, &oc) - mul_fp(sphere_radius, sphere_radius);
    if a < 1 {
        return None;
    }
    let b2: i128 = wide_mul(b, b);
    let ac: i128 = wide_mul(a, c);
    proof {
        lemma_prod_mag(b as int, b as int, 400_000_000_000_000_000, 400_000_000_000_000_000);
        lemma_prod_mag(
            a as int,
            c as int,
            30_000_000_000_000_000,
            5_000_001_000_000_000_000,
        );
    }
    let disc: i128 = b2 - ac;
    if disc > 0 {
        proof {
            lemma_sqrt_exists(disc as int);
        }
        let root_u: u64 = isqrt(disc as u128);
        proof {
            lemma_sqrt_unique(disc as int, root_u as int, sqrt_of(disc as int));
            assert(root_u < 0x8000000000000000) by {
                assert(root_u >= 0x8000000000000000 ==> (root_u as int) * (root_u as int)
                    >= 0x8000000000000000int * 0x8000000000000000int) by (nonlinear_arith);
            }
        }
        let root: i64 = root_u as i64;
        proof {
            assert((0 - (b as int) - (root as int)) * (SCALE as int) < i128::MAX && (0 - (
            b as int) - (root as int)) * (SCALE as int) > i128::MIN && (0 - (b as int) + (
            root as int)) * (SCALE as int) < i128::MAX && (0 - (b as int) + (root as int)) * (
            SCALE as int) > i128::MIN) by (nonlinear_arith)
                requires
                    mag(b as int) <= 400_000_000_000_000_000,
                    0 <= root < 0x8000000000000000,
                    SCALE == 10000,
            ;
        }
        let num1: i128 = (-(b as i128) - (root as i128)) * (SCALE as i128);
        let t1w: i128 = div_trunc(num1, a as i128);
        if (tmin as i128) <= t1w && t1w < (tmax as i128) {
            return sphere_record(ray, sphere_center, sphere_radius, sphere_material, t1w as i64);
        }
        let num2: i128 = (-(b as i128) + (root as i128)) * (SCALE as i128);
        let t2w: i128 = div_trunc(num2, a as i128);
        if (tmin as i128) <= t2w && t2w < (tmax as i128) {
            return sphere_record(ray, sphere_center, sphere_radius, sphere_material, t2w as i64);
        }
        return None;
    }
    None
}

/// The still bounding box of a sphere: its center pushed out by the radius
/// along every axis.
pub open spec fn sphere_box_spec(center: V3, radius: i64) -> Aabb {
    Aabb {
        min: V3 {
            x: (center.x - radius) as i64,
            y: (center.y - radius) as i64,
            z: (center.z - radius) as i64,
        },
        max: V3 {
            x: (center.x + radius) as i64,
            y: (center.y + radius) as i64,
            z: (center.z + radius) as i64,
        },
    }
}

/// Compute the still bounding box of a sphere.
pub fn sphere_bounding_box(center: &V3, radius: i64) -> (r: Aabb)
    requires
        bounded(*center, CBMAX as int),
        1 <= radius <= CMAX,
    ensures
        r == sphere_box_spec(*center, radius),
        box_wf(r),
{
    let rv: V3 = V3 { x: radius, y: radius, z: radius };
    Aabb { min: center.sub(rv), max: center.add(rv) }
}

/// The picked one of two optional hits: the one with the smaller parameter,
/// the right one on a tie.
pub open spec fn closer_of(l: Option<HitVals>, r: Option<HitVals>) -> Option<HitVals> {
    match (l, r) {
        (Some(a), Some(b)) => if a.t < b.t {
            Some(a)
        } else {
            Some(b)
        },
        (Some(a), None) => Some(a),
        (None, Some(b)) => Some(b),
        (None, None) => None,
    }
}

/// What a shape's intersection returns, as a recursive function of the tree:
/// spheres solve the quadratic, nodes slab-test their cached box and pass
/// both children through, keeping the closer hit.
pub open spec fn shape_hit_spec(s: Shape, ray: Ray, tmin: i64, tmax: i64) -> Option<HitVals>
    decreases s,
{
    match s {
        Shape::Sphere(sp) => sphere_hit_spec(sp.center, sp.radius, sp.material, ray, tmin, tmax),
        Shape::MovingSphere(ms) => sphere_hit_spec(
            center_at_spec(ms, ray.time),
            ms.radius,
            ms.material,
            ray,
            tmin,
            tmax,
        ),
        Shape::Bvh(node) => if aabb_hit_spec(node.bbox, ray, tmin, tmax) {
            closer_of(
                shape_hit_spec(node.left, ray, tmin, tmax),
                shape_hit_spec(node.right, ray, tmin, tmax),
            )
        } else {
            None
        },
    }
}

/// A shape's bounding box over a time range: still spheres ignore the range,
/// moving spheres sweep it by uniting the boxes at its two ends, and nodes
/// answer their cached box.
pub open spec fn shape_box_spec(s: Shape, t0: i64, t1: i64) -> Aabb
    decreases s,
{
    match s {
        Shape::Sphere(sp) => sphere_box_spec(sp.center, sp.radius),
        Shape::MovingSphere(ms) => union_spec(
            sphere_box_spec(center_at_spec(ms, t0), ms.radius),
            sphere_box_spec(center_at_spec(ms, t1), ms.radius),
        ),
        Shape::Bvh(node) => node.bbox,
    }
}

impl Shape {
    /// Whether the tree obeys `shape_geom_wf`: the executable mirror, for
    /// callers that must test before calling.
    pub fn check_geom_wf(&self) -> (r: bool)
        ensures
            r == shape_geom_wf(*self),
        decreases *self,
    {
        match self {
            Shape::Sphere(sp) => sp.center.x <= CMAX && sp.center.x >= -CMAX && sp.center.y <= CMAX
                && sp.center.y >= -CMAX && sp.center.z <= CMAX && sp.center.z >= -CMAX && 1
                <= sp.radius && sp.radius <= CMAX && sp.material.check_wf(),
            Shape::MovingSphere(ms) => ms.center0.x <= CMAX && ms.center0.x >= -CMAX && ms.center0.y
                <= CMAX && ms.center0.y >= -CMAX && ms.center0.z <= CMAX && ms.center0.z >= -CMAX
                && ms.center1.x <= CMAX && ms.center1.x >= -CMAX && ms.center1.y <= CMAX
                && ms.center1.y >= -CMAX && ms.center1.z <= CMAX && ms.center1.z >= -CMAX && 1
                <= ms.radius && ms.radius <= CMAX && -TMAX <= ms.time0 && ms.time0 < ms.time1
                && ms.time1 <= TMAX && ms.material.check_wf(),
            Shape::Bvh(node) => node.bbox.min.x <= node.bbox.max.x && node.bbox.min.y
                <= node.bbox.max.y && node.bbox.min.z <= node.bbox.max.z && node.bbox.min.x <= BMAX
                && node.bbox.min.x >= -BMAX && node.bbox.min.y <= BMAX && node.bbox.min.y >= -BMAX
                && node.bbox.min.z <= BMAX && node.bbox.min.z >= -BMAX && node.bbox.max.x <= BMAX
                && node.bbox.max.x >= -BMAX && node.bbox.max.y <= BMAX && node.bbox.max.y >= -BMAX
                && node.bbox.max.z <= BMAX && node.bbox.max.z >= -BMAX && node.left.check_geom_wf()
                && node.right.check_geom_wf(),
        }
    }

    /// Whether every cached node box equals the union of its children's
    /// boxes over the build range: the executable mirror of `shape_box_wf`,
    /// for callers that must test before calling.
    pub fn check_box_wf(&self, t0: i64, t1: i64) -> (r: bool)
        requires
            shape_geom_wf(*self),
            mag(t0 as int) <= TMAX as int,
            mag(t1 as int) <= TMAX as int,
        ensures
            r == shape_box_wf(*self, t0, t1),
        decreases *self,
    {
        match self {
            Shape::Sphere(_) => true,
            Shape::MovingSphere(_) => true,
            Shape::Bvh(node) => {
                let bl: Aabb = node.left.bounding_box(t0, t1);
                let br: Aabb = node.right.bounding_box(t0, t1);
                let u: Aabb = bl.union(&br);
                node.bbox == u && node.left.check_box_wf(t0, t1) && node.right.check_box_wf(
                    t0,
                    t1,
                )
            },
        }
    }

    /// Intersect a ray with this shape over a half-open parameter range.
    pub fn hit<'a>(&'a self, ray: &Ray, tmin: i64, tmax: i64) -> (r: Option<HitRecord<'a>>)
        requires
            shape_geom_wf(*self),
            ray_wf(*ray),
            mag(tmin as int) <= TMAX as int,
            mag(tmax as int) <= TMAX as int,
        ensures
            vals_of(r) == shape_hit_spec(*self, *ray, tmin, tmax),
            r matches Some(h) ==> mag(h.t as int) <= TMAX as int && bounded(h.p, OMAX as int)
                && bounded(h.normal, NMAX as int) && material_wf(*h.material),
        decreases *self,
    {
        match self {
            Shape::Sphere(sp) => sphere_hit(ray, &sp.center, sp.radius, &sp.material, tmin, tmax),
            Shape::MovingSphere(ms) => {
                let c: V3 = moving_sphere_center_at_time(ms, ray.time);
                sphere_hit(ray, &c, ms.radius, &ms.material, tmin, tmax)
            },
            Shape::Bvh(node) => node.hit(ray, tmin, tmax),
        }
    }

    /// The bounding box of this shape over a time range.
    pub fn bounding_box(&self, t0: i64, t1: i64) -> (r: Aabb)
        requires
            shape_geom_wf(*self),
            mag(t0 as int) <= TMAX as int,
            mag(t1 as int) <= TMAX as int,
        ensures
            r == shape_box_spec(*self, t0, t1),
            box_wf(r),
        decreases *self,
    {
        match self {
            Shape::Sphere(sp) => sphere_bounding_box(&sp.center, sp.radius),
            Shape::MovingSphere(ms) => {
                let c0: V3 = moving_sphere_center_at_time(ms, t0);
                let c1: V3 = moving_sphere_center_at_time(ms, t1);
                let b0: Aabb = sphere_bounding_box(&c0, ms.radius);
                let b1: Aabb = sphere_bounding_box(&c1, ms.radius);
                b0.union(&b1)
            },
            Shape::Bvh(node) => Aabb { min: node.bbox.min, max: node.bbox.max },
        }
    }
}

} // verus!
