//! The integrator and the renderer: the recursive radiance estimate and the
//! per-row, multi-sample image assembly.

use vstd::prelude::*;

verus! {

use crate::fixed::{SCALE, mag, tdiv, fmul, div_trunc, sqrt_fp, lemma_fmul_unit_interval,
    lemma_tdiv_mono_mag};
use crate::v3color::{V3, Color, bounded, dot_spec, unit_spec, sqrt_of, lemma_sqrt_exists,
    lemma_sqrt_unique, lemma_dot_le, lemma_dot_self_nonneg};
use crate::shapes::{Ray, Shape, HitRecord, HitVals, ray_wf, shape_geom_wf, shape_hit_spec,
    vals_of, OMAX, DMAX, NMAX, TMAX};
use crate::material::{material_wf, scatter_admissible, MaterialScatterInfo};
use crate::camera::{Camera, camera_wf, camera_ray_admissible};
use crate::texture::color_wf;

/// The lower end of the ray-parameter range the integrator searches: a small
/// positive offset that keeps a scattered ray from hitting its own surface.
pub const T_MIN_HIT: i64 = 10;

/// The recursion bound of the integrator: a path longer than this
/// contributes black.
pub const MAX_DEPTH: i32 = 50;

/// The hit the integrator keeps among a list of shapes: the one with the
/// least ray parameter, a later shape winning a tie.
pub open spec fn best_hit_spec(objects: Seq<Shape>, ray: Ray, tmin: i64, tmax: i64) -> Option<
    HitVals,
>
    decreases objects.len(),
{
    if objects.len() == 0 {
        None
    } else {
        let rest = best_hit_spec(objects.drop_last(), ray, tmin, tmax);
        match shape_hit_spec(objects.last(), ray, tmin, tmax) {
            Some(h) => match rest {
                Some(b) => if h.t <= b.t {
                    Some(h)
                } else {
                    Some(b)
                },
                None => Some(h),
            },
            None => rest,
        }
    }
}

/// Intersect a ray against every top-level shape and keep the closest hit:
/// the returned parameter undercuts every shape's own hit.
pub fn closest_hit<'a>(objects: &'a Vec<Shape>, ray: &Ray, tmin: i64, tmax: i64) -> (r: Option<
    HitRecord<'a>,
>)
    requires
        forall|k: int| 0 <= k < objects@.len() ==> shape_geom_wf(#[trigger] objects@[k]),
        ray_wf(*ray),
        mag(tmin as int) <= TMAX as int,
        mag(tmax as int) <= TMAX as int,
    ensures
        vals_of(r) == best_hit_spec(objects@, *ray, tmin, tmax),
        r matches Some(h) ==> mag(h.t as int) <= TMAX as int && bounded(h.p, OMAX as int)
            && bounded(h.normal, NMAX as int) && material_wf(*h.material),
        forall|k: int|
            0 <= k < objects@.len() ==> ((#[trigger] shape_hit_spec(
                objects@[k],
                *ray,
                tmin,
                tmax,
            )) matches Some(h) ==> (vals_of(r) matches Some(b) && b.t <= h.t)),
{
    let mut best: Option<HitRecord<'a>> = None;
    let mut i: usize = 0;
    while i < objects.len()
        invariant
            i <= objects@.len(),
            forall|k: int| 0 <= k < objects@.len() ==> shape_geom_wf(#[trigger] objects@[k]),
            ray_wf(*ray),
            mag(tmin as int) <= TMAX as int,
            mag(tmax as int) <= TMAX as int,
            vals_of(best) == best_hit_spec(objects@.take(i as int), *ray, tmin, tmax),
            best matches Some(h) ==> mag(h.t as int) <= TMAX as int && bounded(h.p, OMAX as int)
                && bounded(h.normal, NMAX as int) && material_wf(*h.material),
            forall|k: int|
                0 <= k < i ==> ((#[trigger] shape_hit_spec(objects@[k], *ray, tmin, tmax)) matches
                    Some(h) ==> (vals_of(best) matches Some(b) && b.t <= h.t)),
        decreases objects@.len() - i,
    {
        proof {
            assert(objects@.take(i as int + 1).drop_last() =~= objects@.take(i as int));
            assert(objects@.take(i as int + 1).last() == objects@[i as int]);
        }
        let h = objects[i].hit(ray, tmin, tmax);
        match h {
            Some(rec) => {
                match best {
                    Some(b) => {
                        if rec.t <= b.t {
                            best = Some(rec);
                        }
                    },
                    None => {
                        best = Some(rec);
                    },
                }
            },
            None => {},
        }
        i = i + 1;
    }
    proof {
        assert(objects@.take(objects@.len() as int) =~= objects@);
    }
    best
}

/// The sky gradient for a ray that hits nothing: a blend from white at the
/// bottom to sky blue at the top, by the unit direction's height, clamped to
/// the blend interval on the grid.
pub open spec fn sky_spec(direction: V3) -> V3 {
    let u = unit_spec(direction);
    let t0 = tdiv(u.y + SCALE as int, 2);
    let t = if t0 < 0 {
        0
    } else if t0 > SCALE as int {
        SCALE as int
    } else {
        t0
    };
    V3 {
        x: ((SCALE as int) - t + fmul(t, 5000)) as i64,
        y: ((SCALE as int) - t + fmul(t, 7000)) as i64,
        z: ((SCALE as int) - t + fmul(t, 10000)) as i64,
    }
}

/// The sky gradient at its two poles: a ray pointing straight up reaches
/// the pure sky-blue end of the blend, one pointing straight down the pure
/// white end.
pub proof fn lemma_sky_endpoints()
    ensures
        sky_spec(V3 { x: 0, y: SCALE, z: 0 }) == (V3 { x: 5000, y: 7000, z: 10000 }),
        sky_spec(V3 { x: 0, y: (-10000) as i64, z: 0 }) == (V3 { x: SCALE, y: SCALE, z: SCALE }),
{
    let s = SCALE as int;
    let up = V3 { x: 0, y: SCALE, z: 0 };
    let down = V3 { x: 0, y: (-10000) as i64, z: 0 };
    crate::fixed::lemma_tdiv_exact(s, s);
    assert((-s) * (-s) == s * s) by (nonlinear_arith);
    assert(dot_spec(up, up) == s);
    assert(dot_spec(down, down) == s);
    let n = s * s;
    crate::v3color::lemma_sqrt_exists(n);
    assert(crate::v3color::is_sqrt(n, s)) by (nonlinear_arith)
        requires
            n == s * s,
            s == 10000,
    ;
    crate::v3color::lemma_sqrt_unique(n, s, crate::v3color::sqrt_of(n));
    crate::fixed::lemma_tdiv_exact(0, s);
    assert(unit_spec(up).y == s) by {
        assert(fmul(s, s) == tdiv(s * s, s));
        assert(unit_spec(up).y == crate::fixed::fdiv(s, s));
        assert(crate::fixed::fdiv(s, s) == tdiv(s * s, s));
        crate::fixed::lemma_tdiv_exact(s, s);
    }
    assert(unit_spec(down).y == -s) by {
        assert(unit_spec(down).y == crate::fixed::fdiv(-s, s));
        assert((-s) * s == (-s) * s);
        crate::fixed::lemma_tdiv_exact(-s, s);
        assert(tdiv((-s) * s, s) == -s);
    }
    crate::fixed::lemma_tdiv_exact(s, 2);
    assert(tdiv(s + s, 2) == s) by {
        assert(s + s == s * 2) by (nonlinear_arith);
        crate::fixed::lemma_tdiv_exact(s, 2);
    }
    crate::fixed::lemma_tdiv_exact(0, 2);
    assert(tdiv(0int, 2) == 0) by {
        assert(0 == 0 * 2) by (nonlinear_arith);
    }
    crate::fixed::lemma_fmul_one(5000);
    crate::fixed::lemma_fmul_one(7000);
    crate::fixed::lemma_fmul_one(10000);
}

/// An accumulator color with every channel inside the unit interval.
pub open spec fn v3_unit_range(v: V3) -> bool {
    0 <= v.x <= SCALE && 0 <= v.y <= SCALE && 0 <= v.z <= SCALE
}

/// Everything that holds of an integrator result, whatever the samplers
/// drew: black past the recursion bound; on a miss the sky gradient, or
/// black for a direction too short to normalize; on a hit, an admissible
/// scatter outcome of the hit material, absorption giving black and
/// scattering giving the attenuation times an admissible radiance of the
/// scattered ray one level deeper.
pub open spec fn radiance_admissible(objects: Seq<Shape>, ray: Ray, depth: i32, r: V3) -> bool
    decreases MAX_DEPTH - depth, 2int,
{
    if depth >= MAX_DEPTH {
        r == (V3 { x: 0, y: 0, z: 0 })
    } else {
        match best_hit_spec(objects, ray, T_MIN_HIT, TMAX) {
            None => r == (if dot_spec(ray.direction, ray.direction) >= 1 {
                sky_spec(ray.direction)
            } else {
                V3 { x: 0, y: 0, z: 0 }
            }),
            Some(h) => radiance_hit_step(objects, ray, depth, h, r),
        }
    }
}

/// One admissible integrator step at a hit: some admissible scatter
/// outcome, with absorption giving black and scattering giving the
/// attenuation times an admissible radiance of the scattered ray one level
/// deeper.
pub open spec fn radiance_hit_step(
    objects: Seq<Shape>,
    ray: Ray,
    depth: i32,
    h: HitVals,
    r: V3,
) -> bool
    decreases MAX_DEPTH - depth, 1int,
        when depth < MAX_DEPTH
{
    exists|outcome: Option<MaterialScatterInfo>|
        #![trigger scatter_admissible(h.material, ray, h.p, h.normal, outcome)]
        {
            &&& scatter_admissible(h.material, ray, h.p, h.normal, outcome)
            &&& match outcome {
                None => r == (V3 { x: 0, y: 0, z: 0 }),
                Some(info) => exists|sub: V3|
                    #![trigger radiance_product(info.attenuation, sub, r)]
                    {
                        &&& radiance_product(info.attenuation, sub, r)
                        &&& radiance_admissible(objects, info.scattered, (depth + 1) as i32, sub)
                    },
            }
        }
}

/// The componentwise product that closes one integrator step: the result is
/// the attenuation times the deeper radiance, channel by channel.
pub open spec fn radiance_product(attenuation: Color, sub: V3, r: V3) -> bool {
    &&& r.x == fmul(attenuation.r as int, sub.x as int)
    &&& r.y == fmul(attenuation.g as int, sub.y as int)
    &&& r.z == fmul(attenuation.b as int, sub.z as int)
}

/// One admissible integrator step makes an admissible radiance: the hit,
/// the scatter outcome and (when scattering) the deeper radiance witness
/// the recursive relation.
#[verifier::rlimit(100)]
#[verifier::spinoff_prover]
proof fn lemma_radiance_step(
    objects: Seq<Shape>,
    ray: Ray,
    depth: i32,
    h: HitVals,
    outcome: Option<MaterialScatterInfo>,
    sub: V3,
    r: V3,
)
    requires
        0 <= depth < MAX_DEPTH,
        best_hit_spec(objects, ray, T_MIN_HIT, TMAX) == Some(h),
        scatter_admissible(h.material, ray, h.p, h.normal, outcome),
        match outcome {
            None => r == (V3 { x: 0, y: 0, z: 0 }),
            Some(info) => {
                &&& radiance_admissible(objects, info.scattered, (depth + 1) as i32, sub)
                &&& radiance_product(info.attenuation, sub, r)
            },
        },
    ensures
        radiance_admissible(objects, ray, depth, r),
{
    match outcome {
        None => {},
        Some(info) => {
            assert(radiance_product(info.attenuation, sub, r));
        },
    }
    assert(radiance_hit_step(objects, ray, depth, h, r));
}

/// The radiance along a ray, as a linear-light accumulator: black past the
/// recursion bound; on a hit, the material's attenuation times the radiance
/// of the scattered ray, or black on absorption; on a miss, the sky
/// gradient, or black for a direction too short to normalize.
pub fn color_for_ray_v3(objects: &Vec<Shape>, ray: &Ray, depth: i32) -> (r: V3)
    requires
        forall|k: int| 0 <= k < objects@.len() ==> shape_geom_wf(#[trigger] objects@[k]),
        ray_wf(*ray),
        0 <= depth,
    ensures
        v3_unit_range(r),
        depth >= MAX_DEPTH ==> r == (V3 { x: 0, y: 0, z: 0 }),
        (depth < MAX_DEPTH && best_hit_spec(objects@, *ray, T_MIN_HIT, TMAX) is None) ==> r == (
        if dot_spec(ray.direction, ray.direction) >= 1 {
            sky_spec(ray.direction)
        } else {
            V3 { x: 0, y: 0, z: 0 }
        }),
        radiance_admissible(objects@, *ray, depth, r),
    decreases MAX_DEPTH - depth,
{
    if depth >= MAX_DEPTH {
        return V3 { x: 0, y: 0, z: 0 };
    }
    let hit = closest_hit(objects, ray, T_MIN_HIT, TMAX);
    match hit {
        Some(rec) => {
            let sc = rec.material.scatter(ray, &rec);
            match sc {
                Some(info) => {
                    let sub: V3 = color_for_ray_v3(objects, &info.scattered, depth + 1);
                    let att: V3 = info.attenuation.to_v3();
                    proof {
                        lemma_fmul_unit_interval(att.x as int, sub.x as int);
                        lemma_fmul_unit_interval(att.y as int, sub.y as int);
                        lemma_fmul_unit_interval(att.z as int, sub.z as int);
                    }
                    let out: V3 = att.mul(sub);
                    proof {
                        let h = HitVals {
                            t: rec.t,
                            p: rec.p,
                            normal: rec.normal,
                            material: *rec.material,
                        };
                        assert(best_hit_spec(objects@, *ray, T_MIN_HIT, TMAX) == Some(h));
                        assert(scatter_admissible(h.material, *ray, h.p, h.normal, sc));
                        lemma_radiance_step(objects@, *ray, depth, h, sc, sub, out);
                    }
                    out
                },
                None => {
                    proof {
                        let h = HitVals {
                            t: rec.t,
                            p: rec.p,
                            normal: rec.normal,
                            material: *rec.material,
                        };
                        assert(best_hit_spec(objects@, *ray, T_MIN_HIT, TMAX) == Some(h));
                        assert(scatter_admissible(h.material, *ray, h.p, h.normal, sc));
                        lemma_radiance_step(
                            objects@,
                            *ray,
                            depth,
                            h,
                            sc,
                            V3 { x: 0, y: 0, z: 0 },
                            V3 { x: 0, y: 0, z: 0 },
                        );
                    }
                    V3 { x: 0, y: 0, z: 0 }
                },
            }
        },
        None => {
            proof {
                lemma_dot_le(
                    ray.direction,
                    ray.direction,
                    DMAX as int,
                    DMAX as int,
                    30_000_000_000_000_000,
                );
                lemma_dot_self_nonneg(ray.direction);
            }
            let sq: i64 = ray.direction.squared_length();
            if sq < 1 {
                return V3 { x: 0, y: 0, z: 0 };
            }
            let u: V3 = ray.direction.unit();
            let n: i64 = u.y + SCALE;
            proof {
                lemma_tdiv_mono_mag(n as int, 2, mag(n as int));
            }
            let t0: i64 = div_trunc(n as i128, 2) as i64;
            let t: i64 = if t0 < 0 {
                0
            } else if t0 > SCALE {
                SCALE
            } else {
                t0
            };
            proof {
                lemma_fmul_unit_interval(t as int, 5000);
                lemma_fmul_unit_interval(t as int, 7000);
                lemma_fmul_unit_interval(t as int, 10000);
            }
            let w1: i64 = SCALE - t;
            V3 {
                x: w1 + crate::fixed::mul_fp(t, 5000),
                y: w1 + crate::fixed::mul_fp(t, 7000),
                z: w1 + crate::fixed::mul_fp(t, 10000),
            }
        },
    }
}

/// The radiance along a ray, as a color.
pub fn color_for_ray(objects: &Vec<Shape>, ray: &Ray, depth: i32) -> (r: Color)
    requires
        forall|k: int| 0 <= k < objects@.len() ==> shape_geom_wf(#[trigger] objects@[k]),
        ray_wf(*ray),
        0 <= depth,
    ensures
        color_wf(r),
        depth >= MAX_DEPTH ==> r == (Color { r: 0, g: 0, b: 0 }),
        (depth < MAX_DEPTH && best_hit_spec(objects@, *ray, T_MIN_HIT, TMAX) is None && dot_spec(
            ray.direction,
            ray.direction,
        ) >= 1) ==> r == ({
            let v = sky_spec(ray.direction);
            Color { r: v.x, g: v.y, b: v.z }
        }),
        radiance_admissible(objects@, *ray, depth, (V3 { x: r.r, y: r.g, z: r.b })),
    decreases MAX_DEPTH - depth + 1,
{
    let v: V3 = color_for_ray_v3(objects, ray, depth);
    let c = v.to_color();
    proof {
        assert((V3 { x: c.r, y: c.g, z: c.b }) == v);
    }
    c
}

/// One admissible antialiasing sample for pixel `(i, j)` of a
/// `width` by `height` image: some jitter pair inside the pixel footprint,
/// an admissible camera ray at the jittered image-plane point, and an
/// admissible radiance for that ray.
pub open spec fn sample_admissible(
    objects: Seq<Shape>,
    cam: Camera,
    i: int,
    j: int,
    width: int,
    height: int,
    c: V3,
) -> bool {
    exists|du: int, dv: int, sray: Ray|
        #![trigger camera_ray_admissible(cam, tdiv(i * (SCALE as int) + du, width), tdiv(j * (SCALE as int) + dv, height), sray)]
        {
            &&& 0 <= du < SCALE as int
            &&& 0 <= dv < SCALE as int
            &&& camera_ray_admissible(
                cam,
                tdiv(i * (SCALE as int) + du, width),
                tdiv(j * (SCALE as int) + dv, height),
                sray,
            )
            &&& radiance_admissible(objects, sray, 0, c)
        }
}

/// One accumulation step: the new accumulator is the old one plus the
/// sample, channel by channel.
pub open spec fn sum_step(prev: V3, c: V3, acc: V3) -> bool {
    &&& acc.x == prev.x + c.x
    &&& acc.y == prev.y + c.y
    &&& acc.z == prev.z + c.z
}

/// The accumulator after `n` admissible samples for pixel `(i, j)`: zero to
/// start, and one admissible sample added per step.
pub open spec fn sample_sum_admissible(
    objects: Seq<Shape>,
    cam: Camera,
    i: int,
    j: int,
    width: int,
    height: int,
    n: int,
    acc: V3,
) -> bool
    decreases n,
{
    if n <= 0 {
        acc == (V3 { x: 0, y: 0, z: 0 })
    } else {
        exists|prev: V3, c: V3|
            #![trigger sample_admissible(objects, cam, i, j, width, height, c), sum_step(prev, c, acc)]
            {
                &&& sample_admissible(objects, cam, i, j, width, height, c)
                &&& sum_step(prev, c, acc)
                &&& sample_sum_admissible(objects, cam, i, j, width, height, n - 1, prev)
            }
    }
}

/// An admissible pixel: the gamma square root of the average of `samples`
/// admissible sample radiances, channel by channel.
pub open spec fn pixel_admissible(
    objects: Seq<Shape>,
    cam: Camera,
    i: int,
    j: int,
    width: int,
    height: int,
    samples: int,
    px: Color,
) -> bool {
    exists|acc: V3|
        #![trigger sample_sum_admissible(objects, cam, i, j, width, height, samples, acc)]
        {
            &&& sample_sum_admissible(objects, cam, i, j, width, height, samples, acc)
            &&& 0 <= acc.x && 0 <= acc.y && 0 <= acc.z
            &&& px.r == sqrt_of(tdiv(acc.x as int, samples) * (SCALE as int))
            &&& px.g == sqrt_of(tdiv(acc.y as int, samples) * (SCALE as int))
            &&& px.b == sqrt_of(tdiv(acc.z as int, samples) * (SCALE as int))
        }
}

/// One admissible sample witnesses the sample relation.
proof fn lemma_sample_intro(
    objects: Seq<Shape>,
    cam: Camera,
    i: int,
    j: int,
    width: int,
    height: int,
    du: int,
    dv: int,
    sray: Ray,
    c: V3,
)
    requires
        0 <= du < SCALE as int,
        0 <= dv < SCALE as int,
        camera_ray_admissible(
            cam,
            tdiv(i * (SCALE as int) + du, width),
            tdiv(j * (SCALE as int) + dv, height),
            sray,
        ),
        radiance_admissible(objects, sray, 0, c),
    ensures
        sample_admissible(objects, cam, i, j, width, height, c),
{
}

/// One admissible accumulation step witnesses the sum relation.
proof fn lemma_sample_sum_step(
    objects: Seq<Shape>,
    cam: Camera,
    i: int,
    j: int,
    width: int,
    height: int,
    n: int,
    prev: V3,
    c: V3,
    acc: V3,
)
    requires
        n >= 1,
        sample_admissible(objects, cam, i, j, width, height, c),
        sum_step(prev, c, acc),
        sample_sum_admissible(objects, cam, i, j, width, height, n - 1, prev),
    ensures
        sample_sum_admissible(objects, cam, i, j, width, height, n, acc),
{
}

/// One output row of the image, top row first in the caller's order:
/// `width` pixels, each the gamma-corrected average of `samples` jittered
/// radiance estimates.
pub fn render_row(
    objects: &Vec<Shape>,
    camera: &Camera,
    j: usize,
    width: usize,
    height: usize,
    samples: usize,
) -> (row: Vec<Color>)
    requires
        forall|k: int| 0 <= k < objects@.len() ==> shape_geom_wf(#[trigger] objects@[k]),
        camera_wf(*camera),
        1 <= width <= 10_000,
        1 <= height <= 10_000,
        j < height,
        1 <= samples <= 10_000,
    ensures
        row@.len() == width as int,
        forall|k: int| 0 <= k < row@.len() ==> color_wf(#[trigger] row@[k]),
        forall|k: int|
            0 <= k < row@.len() ==> pixel_admissible(
                objects@,
                *camera,
                k,
                j as int,
                width as int,
                height as int,
                samples as int,
                #[trigger] row@[k],
            ),
{
    let mut row: Vec<Color> = Vec::new();
    let mut i: usize = 0;
    while i < width
        invariant
            i <= width,
            row@.len() == i as int,
            forall|k: int| 0 <= k < row@.len() ==> color_wf(#[trigger] row@[k]),
            forall|k: int|
                0 <= k < row@.len() ==> pixel_admissible(
                    objects@,
                    *camera,
                    k,
                    j as int,
                    width as int,
                    height as int,
                    samples as int,
                    #[trigger] row@[k],
                ),
            forall|k: int| 0 <= k < objects@.len() ==> shape_geom_wf(#[trigger] objects@[k]),
            camera_wf(*camera),
            1 <= width <= 10_000,
            1 <= height <= 10_000,
            j < height,
            1 <= samples <= 10_000,
        decreases width - i,
    {
        let mut col: V3 = V3 { x: 0, y: 0, z: 0 };
        let mut s_i: usize = 0;
        while s_i < samples
            invariant
                s_i <= samples,
                0 <= col.x <= (s_i as int) * (SCALE as int),
                0 <= col.y <= (s_i as int) * (SCALE as int),
                0 <= col.z <= (s_i as int) * (SCALE as int),
                sample_sum_admissible(
                    objects@,
                    *camera,
                    i as int,
                    j as int,
                    width as int,
                    height as int,
                    s_i as int,
                    col,
                ),
                i < width,
                forall|k: int| 0 <= k < objects@.len() ==> shape_geom_wf(#[trigger] objects@[k]),
                camera_wf(*camera),
                1 <= width <= 10_000,
                1 <= height <= 10_000,
                j < height,
                1 <= samples <= 10_000,
            decreases samples - s_i,
        {
            let du: i64 = crate::rng::random_unit();
            let dv: i64 = crate::rng::random_unit();
            let nu: i64 = (i as i64) * SCALE + du;
            let nv: i64 = (j as i64) * SCALE + dv;
            let u: i64 = nu / (width as i64);
            let v: i64 = nv / (height as i64);
            proof {
                assert(0 <= u <= SCALE as int) by (nonlinear_arith)
                    requires
                        u == (nu as int) / (width as int),
                        0 <= nu,
                        nu < (width as int) * (SCALE as int),
                        1 <= width,
                ;
                assert(nu < (width as int) * (SCALE as int)) by (nonlinear_arith)
                    requires
                        nu == (i as int) * (SCALE as int) + du,
                        0 <= du < SCALE as int,
                        i < width,
                        SCALE == 10000,
                ;
                assert(0 <= v <= SCALE as int) by (nonlinear_arith)
                    requires
                        v == (nv as int) / (height as int),
                        0 <= nv,
                        nv < (height as int) * (SCALE as int),
                        1 <= height,
                ;
                assert(nv < (height as int) * (SCALE as int)) by (nonlinear_arith)
                    requires
                        nv == (j as int) * (SCALE as int) + dv,
                        0 <= dv < SCALE as int,
                        j < height,
                        SCALE == 10000,
                ;
            }
            let ray: Ray = camera.get_ray(u, v);
            let c: Color = color_for_ray(objects, &ray, 0);
            proof {
                assert((s_i as int + 1) * (SCALE as int) == (s_i as int) * (SCALE as int)
                    + SCALE as int) by (nonlinear_arith);
                assert(u as int == tdiv((i as int) * (SCALE as int) + du, width as int));
                assert(v as int == tdiv((j as int) * (SCALE as int) + dv, height as int));
            }
            let c3: V3 = c.to_v3();
            let ghost prev = col;
            col = col.add(c3);
            proof {
                assert(radiance_admissible(objects@, ray, 0, c3));
                lemma_sample_intro(
                    objects@,
                    *camera,
                    i as int,
                    j as int,
                    width as int,
                    height as int,
                    du as int,
                    dv as int,
                    ray,
                    c3,
                );
                assert(sum_step(prev, c3, col));
                lemma_sample_sum_step(
                    objects@,
                    *camera,
                    i as int,
                    j as int,
                    width as int,
                    height as int,
                    s_i as int + 1,
                    prev,
                    c3,
                    col,
                );
            }
            s_i = s_i + 1;
        }
        let sn: i64 = samples as i64;
        let ax: i64 = col.x / sn;
        let ay: i64 = col.y / sn;
        let az: i64 = col.z / sn;
        proof {
            assert(0 <= ax <= SCALE as int && 0 <= ay <= SCALE as int && 0 <= az <= SCALE as int)
                by (nonlinear_arith)
                requires
                    ax == (col.x as int) / (sn as int),
                    ay == (col.y as int) / (sn as int),
                    az == (col.z as int) / (sn as int),
                    0 <= col.x <= (sn as int) * (SCALE as int),
                    0 <= col.y <= (sn as int) * (SCALE as int),
                    0 <= col.z <= (sn as int) * (SCALE as int),
                    1 <= sn,
            ;
        }
        let gx: i64 = sqrt_fp(ax);
        let gy: i64 = sqrt_fp(ay);
        let gz: i64 = sqrt_fp(az);
        proof {
            lemma_gamma_in_range(ax as int, gx as int);
            lemma_gamma_in_range(ay as int, gy as int);
            lemma_gamma_in_range(az as int, gz as int);
            lemma_sqrt_exists((ax as int) * (SCALE as int));
            lemma_sqrt_unique(
                (ax as int) * (SCALE as int),
                gx as int,
                sqrt_of((ax as int) * (SCALE as int)),
            );
            lemma_sqrt_exists((ay as int) * (SCALE as int));
            lemma_sqrt_unique(
                (ay as int) * (SCALE as int),
                gy as int,
                sqrt_of((ay as int) * (SCALE as int)),
            );
            lemma_sqrt_exists((az as int) * (SCALE as int));
            lemma_sqrt_unique(
                (az as int) * (SCALE as int),
                gz as int,
                sqrt_of((az as int) * (SCALE as int)),
            );
            assert(ax as int == tdiv(col.x as int, samples as int));
            assert(ay as int == tdiv(col.y as int, samples as int));
            assert(az as int == tdiv(col.z as int, samples as int));
        }
        let px = Color { r: gx, g: gy, b: gz };
        proof {
            assert(pixel_admissible(
                objects@,
                *camera,
                i as int,
                j as int,
                width as int,
                height as int,
                samples as int,
                px,
            ));
        }
        row.push(px);
        i = i + 1;
    }
    row
}

/// The square root of a unit-interval value stays in the unit interval.
proof fn lemma_gamma_in_range(a: int, g: int)
    requires
        0 <= a <= SCALE as int,
        0 <= g,
        g * g <= a * (SCALE as int),
    ensures
        0 <= g <= SCALE as int,
{
    assert(g > SCALE as int ==> g * g > (SCALE as int) * (SCALE as int)) by (nonlinear_arith)
        requires
            g >= 0,
    ;
    assert(a * (SCALE as int) <= (SCALE as int) * (SCALE as int)) by (nonlinear_arith)
        requires
            0 <= a <= SCALE as int,
    ;
}

/// The whole image, row-major with the top row first: `width` times
/// `height` gamma-corrected pixels.
pub fn render(
    objects: &Vec<Shape>,
    camera: &Camera,
    width: usize,
    height: usize,
    samples: usize,
) -> (pixels: Vec<Color>)
    requires
        forall|k: int| 0 <= k < objects@.len() ==> shape_geom_wf(#[trigger] objects@[k]),
        camera_wf(*camera),
        1 <= width <= 10_000,
        1 <= height <= 10_000,
        1 <= samples <= 10_000,
    ensures
        pixels@.len() == (width as int) * (height as int),
        forall|k: int| 0 <= k < pixels@.len() ==> color_wf(#[trigger] pixels@[k]),
        forall|d: int, k: int|
            0 <= d < height as int && 0 <= k < width as int ==> pixel_admissible(
                objects@,
                *camera,
                k,
                height as int - 1 - d,
                width as int,
                height as int,
                samples as int,
                #[trigger] pixels@[d * (width as int) + k],
            ),
{
    let mut pixels: Vec<Color> = Vec::new();
    let mut done: usize = 0;
    while done < height
        invariant
            done <= height,
            pixels@.len() == (done as int) * (width as int),
            forall|k: int| 0 <= k < pixels@.len() ==> color_wf(#[trigger] pixels@[k]),
            forall|d: int, k: int|
                0 <= d < done as int && 0 <= k < width as int ==> pixel_admissible(
                    objects@,
                    *camera,
                    k,
                    height as int - 1 - d,
                    width as int,
                    height as int,
                    samples as int,
                    #[trigger] pixels@[d * (width as int) + k],
                ),
            forall|k: int| 0 <= k < objects@.len() ==> shape_geom_wf(#[trigger] objects@[k]),
            camera_wf(*camera),
            1 <= width <= 10_000,
            1 <= height <= 10_000,
            1 <= samples <= 10_000,
        decreases height - done,
    {
        let j: usize = height - 1 - done;
        let mut row: Vec<Color> = render_row(objects, camera, j, width, height, samples);
        let ghost before = pixels@;
        let ghost rowseq = row@;
        proof {
            assert((done as int + 1) * (width as int) == (done as int) * (width as int) + (
            width as int)) by (nonlinear_arith);
        }
        pixels.append(&mut row);
        proof {
            assert forall|d: int, k: int|
                0 <= d < done as int + 1 && 0 <= k < width as int implies pixel_admissible(
                objects@,
                *camera,
                k,
                height as int - 1 - d,
                width as int,
                height as int,
                samples as int,
                #[trigger] pixels@[d * (width as int) + k],
            ) by {
                let w = width as int;
                if d < done as int {
                    assert(0 <= d * w + k < (done as int) * w) by (nonlinear_arith)
                        requires
                            0 <= d < done as int,
                            0 <= k < w,
                    ;
                    assert(pixels@[d * w + k] == before[d * w + k]);
                } else {
                    assert(d == done as int);
                    assert(d * w + k - before.len() == k);
                    assert(pixels@[d * w + k] == rowseq[k]);
                }
            }
        }
        done = done + 1;
    }
    proof {
        assert((height as int) * (width as int) == (width as int) * (height as int))
            by (nonlinear_arith);
    }
    pixels
}

} // verus!
