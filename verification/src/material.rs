//! Materials: the response of a surface to an incoming ray.

use vstd::prelude::*;

verus! {

use crate::fixed::{SCALE, mag, fmul, fdiv, mul_fp, div_fp, sqrt_fp, lemma_fmul_le,
    lemma_fmul_one, lemma_fmul_unit_interval, lemma_tdiv_le, lemma_tdiv_mag};
use crate::v3color::{V3, Color, bounded, dot_spec, unit_spec, reflect_spec, lemma_dot_le,
    lemma_prod_mag, lemma_dot_self_nonneg};
use crate::texture::{Texture, texture_wf, color_wf, texture_value_spec};
use crate::shapes::{Ray, HitRecord, ray_wf, OMAX, DMAX, NMAX, TMAX};
use crate::rng::random_unit;

/// A successful scatter: an attenuation color and the outgoing ray.
pub struct MaterialScatterInfo {
    pub attenuation: Color,
    pub scattered: Ray,
}

/// The closed set of material kinds the renderer knows.
pub enum Material {
    Lambertian(Lambertian),
    Metal(Metal),
    Dielectric(Dielectric),
}

/// Diffuse scattering tinted by a texture.
pub struct Lambertian {
    pub albedo: Box<Texture>,
}

/// Mirror reflection, optionally fuzzed, tinted by a fixed albedo.
pub struct Metal {
    pub albedo: Color,
    pub fuzz: i64,
}

/// A transparent medium with a refractive index.
pub struct Dielectric {
    pub ref_idx: i64,
}

/// Well-formedness of a material: albedos stay inside the unit interval,
/// fuzz inside `[0, 1]`, and the refractive index between one and fifty.
pub open spec fn material_wf(m: Material) -> bool {
    match m {
        Material::Lambertian(l) => texture_wf(*l.albedo),
        Material::Metal(mt) => color_wf(mt.albedo) && 0 <= mt.fuzz <= SCALE,
        Material::Dielectric(d) => SCALE <= d.ref_idx <= 50 * SCALE,
    }
}

/// The bounds every hit record handed to a material obeys: what the
/// intersection pipeline guarantees of its records.
pub open spec fn hit_bounds<'a>(h: HitRecord<'a>) -> bool {
    &&& mag(h.t as int) <= TMAX as int
    &&& bounded(h.p, OMAX as int)
    &&& bounded(h.normal, NMAX as int)
}

/// A sample strictly inside the unit ball of the grid.
pub open spec fn in_unit_ball(u: V3) -> bool {
    bounded(u, SCALE as int) && dot_spec(u, u) < SCALE
}

/// One rejection-sampled point inside the unit ball: draw from the cube
/// `[-1, 1)^3` until the squared length falls below one. A bounded number of
/// draws keeps the sampler total; the exhausted case answers the center.
pub fn random_in_unit_sphere() -> (v: V3)
    ensures
        in_unit_ball(v),
{
    let mut tries: u8 = 0;
    while tries < 32
        invariant
            true,
        decreases 32 - tries,
    {
        let p = V3 {
            x: 2 * random_unit() - SCALE,
            y: 2 * random_unit() - SCALE,
            z: 2 * random_unit() - SCALE,
        };
        proof {
            lemma_dot_le(p, p, SCALE as int, SCALE as int, 3 * (SCALE as int));
        }
        let sq: i64 = p.squared_length();
        if sq < SCALE {
            return p;
        }
        tries = tries + 1;
    }
    V3 { x: 0, y: 0, z: 0 }
}

/// The Schlick approximation of Fresnel reflectance:
/// `r0 + (1 - r0) * (1 - cosine)^5` with `r0 = ((1 - n) / (1 + n))^2`,
/// on the fixed-point grid.
pub open spec fn schlick_spec(cosine: int, ref_idx: int) -> int {
    let q = fdiv((SCALE as int) - ref_idx, (SCALE as int) + ref_idx);
    let r0 = fmul(q, q);
    let oc = (SCALE as int) - cosine;
    let oc2 = fmul(oc, oc);
    let oc4 = fmul(oc2, oc2);
    let oc5 = fmul(oc4, oc);
    r0 + fmul((SCALE as int) - r0, oc5)
}

/// Compute the Schlick reflectance.
pub fn schlick(cosine: i64, ref_idx: i64) -> (r: i64)
    requires
        1 <= ref_idx <= 50 * SCALE,
        mag(cosine as int) <= 200 * (SCALE as int),
    ensures
        r == schlick_spec(cosine as int, ref_idx as int),
{
    let s = SCALE;
    proof {
        lemma_schlick_parts(cosine as int, ref_idx as int);
    }
    let q: i64 = div_fp(s - ref_idx, s + ref_idx);
    let r0: i64 = mul_fp(q, q);
    let oc: i64 = s - cosine;
    let oc2: i64 = mul_fp(oc, oc);
    let oc4: i64 = mul_fp(oc2, oc2);
    let oc5: i64 = mul_fp(oc4, oc);
    r0 + mul_fp(s - r0, oc5)
}

/// Every intermediate of the Schlick formula stays on the grid, and the
/// squared ratio term stays inside the unit interval.
proof fn lemma_schlick_parts(cosine: int, ref_idx: int)
    requires
        1 <= ref_idx <= 50 * (SCALE as int),
        mag(cosine) <= 200 * (SCALE as int),
    ensures
        ({
            let q = fdiv((SCALE as int) - ref_idx, (SCALE as int) + ref_idx);
            let r0 = fmul(q, q);
            let oc = (SCALE as int) - cosine;
            let oc2 = fmul(oc, oc);
            let oc4 = fmul(oc2, oc2);
            let oc5 = fmul(oc4, oc);
            &&& mag(q) <= (SCALE as int) - 1
            &&& 0 <= r0 <= (SCALE as int) - 1
            &&& mag(oc) <= 2_010_000
            &&& mag(oc2) <= 404_010_000
            &&& mag(oc4) <= 16_322_408_010_000
            &&& mag(oc5) <= 3_280_804_010_010_000
            &&& mag(fmul((SCALE as int) - r0, oc5)) <= 3_280_804_010_010_000
        }),
{
    let s = SCALE as int;
    assert(s == 10000);
    let num = s - ref_idx;
    let den = s + ref_idx;
    let q = fdiv(num, den);
    assert(mag(num * s) <= (s - 1) * den) by (nonlinear_arith)
        requires
            s == 10000,
            1 <= ref_idx <= 50 * s,
            num == s - ref_idx,
            den == s + ref_idx,
    ;
    lemma_tdiv_le(num * s, den, s - 1);
    lemma_fmul_le(q, q, s - 1, s - 1, s - 1);
    let r0 = fmul(q, q);
    assert(r0 >= 0) by {
        assert(q * q >= 0) by (nonlinear_arith);
        lemma_tdiv_mag(q * q, s);
        assert(mag(q * q) == q * q);
    }
    let oc = s - cosine;
    assert(mag(oc) <= 2_010_000);
    lemma_fmul_le(oc, oc, 2_010_000, 2_010_000, 404_010_000);
    let oc2 = fmul(oc, oc);
    lemma_fmul_le(oc2, oc2, 404_010_000, 404_010_000, 16_322_408_010_000);
    let oc4 = fmul(oc2, oc2);
    lemma_fmul_le(oc4, oc, 16_322_408_010_000, 2_010_000, 3_280_804_010_010_000);
    let oc5 = fmul(oc4, oc);
    lemma_fmul_le(s - r0, oc5, s, 3_280_804_010_010_000, 3_280_804_010_010_000);
}

/// The Schlick reflectance is a probability: for any cosine in the unit
/// interval and any admissible refractive index it stays inside `[0, 1]`.
pub proof fn lemma_schlick_unit_interval(cosine: int, ref_idx: int)
    requires
        0 <= cosine <= SCALE as int,
        1 <= ref_idx <= 50 * (SCALE as int),
    ensures
        0 <= schlick_spec(cosine, ref_idx) <= SCALE as int,
{
    let s = SCALE as int;
    lemma_schlick_parts(cosine, ref_idx);
    let q = fdiv(s - ref_idx, s + ref_idx);
    let r0 = fmul(q, q);
    let oc = s - cosine;
    assert(0 <= oc <= s);
    lemma_fmul_unit_interval(oc, oc);
    let oc2 = fmul(oc, oc);
    lemma_fmul_unit_interval(oc2, oc2);
    let oc4 = fmul(oc2, oc2);
    assert(oc4 <= s) by {
        lemma_fmul_unit_interval(oc2, s);
        assert(oc2 <= s);
    }
    lemma_fmul_unit_interval(oc4, oc);
    let oc5 = fmul(oc4, oc);
    assert(oc5 <= s);
    lemma_fmul_unit_interval(s - r0, oc5);
    assert(0 <= fmul(s - r0, oc5) <= s - r0);
}

/// Snell refraction as a value: the refracted direction, or nothing when
/// total internal reflection forces a reflected ray, the direction is
/// degenerate, or the grid cosine leaves its guard.
pub open spec fn refract_spec(in_direction: V3, normal_out: V3, ni_over_nt: int) -> Option<V3> {
    if dot_spec(in_direction, in_direction) < 1 {
        None
    } else {
        let u = unit_spec(in_direction);
        let dt = dot_spec(u, normal_out);
        if dt > 2 * (SCALE as int) || dt < -2 * (SCALE as int) {
            None
        } else {
            let nn = fmul(ni_over_nt, ni_over_nt);
            let dt2 = fmul(dt, dt);
            let disc = (SCALE as int) - fmul(nn, (SCALE as int) - dt2);
            if disc > 0 {
                let scaled_n = crate::v3color::scale_spec(dt, normal_out);
                let diff = crate::v3color::sub_spec(u, scaled_n);
                let first = crate::v3color::scale_spec(ni_over_nt, diff);
                let root = crate::v3color::sqrt_of(disc * (SCALE as int));
                let second = crate::v3color::scale_spec(root, normal_out);
                Some(crate::v3color::sub_spec(first, second))
            } else {
                None
            }
        }
    }
}

/// Snell refraction of a direction through a surface with outward normal
/// `normal_out` and index ratio `ni_over_nt`: nothing when total internal
/// reflection forces a reflected ray, or when the direction is degenerate or
/// the grid cosine leaves its guard.
pub fn refract(in_direction: &V3, normal_out: &V3, ni_over_nt: i64) -> (r: Option<V3>)
    requires
        bounded(*in_direction, DMAX as int),
        bounded(*normal_out, NMAX as int),
        0 <= ni_over_nt <= 50 * SCALE,
    ensures
        r == refract_spec(*in_direction, *normal_out, ni_over_nt as int),
        r matches Some(v) ==> bounded(v, DMAX as int),
{
    proof {
        lemma_dot_le(*in_direction, *in_direction, DMAX as int, DMAX as int, 30_000_000_000_000_000);
        lemma_dot_self_nonneg(*in_direction);
    }
    let sq: i64 = in_direction.squared_length();
    if sq < 1 {
        return None;
    }
    let u: V3 = in_direction.unit();
    proof {
        lemma_dot_le(u, *normal_out, 100_010_000, NMAX as int, 1_000_000_000);
    }
    let dt: i64 = V3::dot(&u, normal_out);
    if dt > 2 * SCALE || dt < -2 * SCALE {
        return None;
    }
    proof {
        lemma_fmul_le(ni_over_nt as int, ni_over_nt as int, 500_000, 500_000, 25_000_000);
        lemma_fmul_le(dt as int, dt as int, 20_000, 20_000, 40_000);
    }
    let nn: i64 = mul_fp(ni_over_nt, ni_over_nt);
    let dt2: i64 = mul_fp(dt, dt);
    proof {
        lemma_fmul_le(nn as int, SCALE as int - dt2 as int, 25_000_000, 50_000, 125_000_000);
    }
    let discriminant: i64 = SCALE - mul_fp(nn, SCALE - dt2);
    if discriminant > 0 {
        proof {
            lemma_fmul_le(dt as int, normal_out.x as int, 20_000, 20_000, 40_000);
            lemma_fmul_le(dt as int, normal_out.y as int, 20_000, 20_000, 40_000);
            lemma_fmul_le(dt as int, normal_out.z as int, 20_000, 20_000, 40_000);
        }
        let scaled_n: V3 = normal_out.scale(dt);
        let diff: V3 = u.sub(scaled_n);
        proof {
            lemma_fmul_le(ni_over_nt as int, diff.x as int, 500_000, 100_050_000, 5_002_500_000);
            lemma_fmul_le(ni_over_nt as int, diff.y as int, 500_000, 100_050_000, 5_002_500_000);
            lemma_fmul_le(ni_over_nt as int, diff.z as int, 500_000, 100_050_000, 5_002_500_000);
        }
        let first: V3 = diff.scale(ni_over_nt);
        let root: i64 = sqrt_fp(discriminant);
        proof {
            let n = (discriminant as int) * (SCALE as int);
            assert(n >= 0) by (nonlinear_arith)
                requires
                    n == (discriminant as int) * (SCALE as int),
                    discriminant > 0,
                    SCALE == 10000,
            ;
            crate::v3color::lemma_sqrt_exists(n);
            crate::v3color::lemma_sqrt_unique(n, root as int, crate::v3color::sqrt_of(n));
            assert(root <= 2_000_000) by {
                assert((root as int) * (root as int) <= (discriminant as int) * (SCALE as int));
                assert((discriminant as int) * (SCALE as int) <= 1_250_100_000_000_000)
                    by (nonlinear_arith)
                    requires
                        0 <= discriminant <= 125_010_000,
                        SCALE == 10000,
                ;
                assert(root > 2_000_000 ==> (root as int) * (root as int)
                    > 4_000_000_000_000) by (nonlinear_arith);
            }
            lemma_fmul_le(root as int, normal_out.x as int, 2_000_000, 20_000, 4_000_000);
            lemma_fmul_le(root as int, normal_out.y as int, 2_000_000, 20_000, 4_000_000);
            lemma_fmul_le(root as int, normal_out.z as int, 2_000_000, 20_000, 4_000_000);
        }
        let second: V3 = normal_out.scale(root);
        Some(first.sub(second))
    } else {
        None
    }
}

/// The mirror direction fuzzed by a scaled ball sample.
pub open spec fn fuzzed_dir(refl: V3, fuzz: i64, u: V3) -> V3 {
    V3 {
        x: (refl.x + fmul(fuzz as int, u.x as int)) as i64,
        y: (refl.y + fmul(fuzz as int, u.y as int)) as i64,
        z: (refl.z + fmul(fuzz as int, u.z as int)) as i64,
    }
}

/// Everything that holds of a scatter outcome, whatever the sampler drew:
/// the admissible responses of a material to an incoming ray at a hit with
/// point `p` and outward normal `normal`.
pub open spec fn scatter_admissible(
    m: Material,
    ray_in: Ray,
    p: V3,
    normal: V3,
    r: Option<MaterialScatterInfo>,
) -> bool {
    &&& (r matches Some(info) ==> ray_wf(info.scattered) && info.scattered.origin == p
        && info.scattered.time == ray_in.time && color_wf(info.attenuation))
    &&& (m matches Material::Lambertian(l) ==> r is Some)
    &&& (m matches Material::Lambertian(l) ==> (r matches Some(info) ==> info.attenuation
        == texture_value_spec(*l.albedo, p) && (exists|u: V3|
        {
            &&& #[trigger] in_unit_ball(u)
            &&& info.scattered.direction.x == normal.x + u.x
            &&& info.scattered.direction.y == normal.y + u.y
            &&& info.scattered.direction.z == normal.z + u.z
        })))
    &&& (m matches Material::Metal(mt) ==> (r matches Some(info) ==> dot_spec(
        info.scattered.direction,
        normal,
    ) > 0 && info.attenuation == mt.albedo && (exists|u: V3|
        {
            &&& #[trigger] in_unit_ball(u)
            &&& info.scattered.direction == fuzzed_dir(
                reflect_spec(unit_spec(ray_in.direction), normal),
                mt.fuzz,
                u,
            )
        })))
    &&& (m matches Material::Metal(mt) ==> (r is None ==> (dot_spec(
        ray_in.direction,
        ray_in.direction,
    ) < 1 || (exists|u: V3|
        {
            &&& #[trigger] in_unit_ball(u)
            &&& dot_spec(
                fuzzed_dir(reflect_spec(unit_spec(ray_in.direction), normal), mt.fuzz, u),
                normal,
            ) <= 0
        }))))
    &&& (m matches Material::Metal(mt) ==> (mt.fuzz == 0 ==> ((r is None) <==> (dot_spec(
        ray_in.direction,
        ray_in.direction,
    ) < 1 || dot_spec(reflect_spec(unit_spec(ray_in.direction), normal), normal) <= 0))))
    &&& (m matches Material::Dielectric(d) ==> ((r is Some) <==> dot_spec(
        ray_in.direction,
        ray_in.direction,
    ) >= 1))
    &&& (m matches Material::Dielectric(d) ==> (r matches Some(info) ==> info.attenuation == (
    Color { r: SCALE, g: SCALE, b: SCALE }) && ({
        let dn = dot_spec(ray_in.direction, normal);
        let outward = if dn <= 0 {
            normal
        } else {
            crate::v3color::neg_spec(normal)
        };
        let nint = if dn <= 0 {
            fdiv(SCALE as int, d.ref_idx as int)
        } else {
            d.ref_idx as int
        };
        ||| info.scattered.direction == reflect_spec(unit_spec(ray_in.direction), normal)
        ||| Some(info.scattered.direction) == refract_spec(ray_in.direction, outward, nint)
    })))
}

impl Material {
    /// Whether the material obeys `material_wf`: the executable mirror, for
    /// callers that must test before calling.
    pub fn check_wf(&self) -> (r: bool)
        ensures
            r == material_wf(*self),
    {
        match self {
            Material::Lambertian(l) => l.albedo.check_wf(),
            Material::Metal(mt) => 0 <= mt.albedo.r && mt.albedo.r <= SCALE && 0 <= mt.albedo.g
                && mt.albedo.g <= SCALE && 0 <= mt.albedo.b && mt.albedo.b <= SCALE && 0 <= mt.fuzz
                && mt.fuzz <= SCALE,
            Material::Dielectric(d) => SCALE <= d.ref_idx && d.ref_idx <= 50 * SCALE,
        }
    }

    /// The material's response to an incoming ray at a hit: an attenuation
    /// and a scattered ray, or absorption.
    pub fn scatter<'a>(&self, ray_in: &Ray, hit_record: &HitRecord<'a>) -> (r: Option<
        MaterialScatterInfo,
    >)
        requires
            material_wf(*self),
            ray_wf(*ray_in),
            hit_bounds(*hit_record),
        ensures
            scatter_admissible(*self, *ray_in, hit_record.p, hit_record.normal, r),
    {
        match self {
            Material::Lambertian(l) => {
                let u: V3 = random_in_unit_sphere();
                let direction: V3 = hit_record.normal.add(u);
                let attenuation: Color = l.albedo.value(&hit_record.p);
                Some(
                    MaterialScatterInfo {
                        scattered: Ray {
                            origin: hit_record.p,
                            direction,
                            time: ray_in.time,
                        },
                        attenuation,
                    },
                )
            },
            Material::Metal(m) => {
                proof {
                    lemma_dot_le(
                        ray_in.direction,
                        ray_in.direction,
                        DMAX as int,
                        DMAX as int,
                        30_000_000_000_000_000,
                    );
                    lemma_dot_self_nonneg(ray_in.direction);
                }
                let sq: i64 = ray_in.direction.squared_length();
                if sq < 1 {
                    return None;
                }
                let uin: V3 = ray_in.direction.unit();
                proof {
                    lemma_dot_le(
                        uin,
                        hit_record.normal,
                        100_010_000,
                        NMAX as int,
                        1_000_000_000,
                    );
                    let d2 = 2 * dot_spec(uin, hit_record.normal);
                    lemma_fmul_le(d2, hit_record.normal.x as int, 2_000_000_000, 20_000, 4_000_000_000);
                    lemma_fmul_le(d2, hit_record.normal.y as int, 2_000_000_000, 20_000, 4_000_000_000);
                    lemma_fmul_le(d2, hit_record.normal.z as int, 2_000_000_000, 20_000, 4_000_000_000);
                }
                let reflected: V3 = V3::reflect(&uin, &hit_record.normal);
                let u: V3 = random_in_unit_sphere();
                proof {
                    lemma_fmul_le(m.fuzz as int, u.x as int, SCALE as int, SCALE as int, SCALE as int);
                    lemma_fmul_le(m.fuzz as int, u.y as int, SCALE as int, SCALE as int, SCALE as int);
                    lemma_fmul_le(m.fuzz as int, u.z as int, SCALE as int, SCALE as int, SCALE as int);
                }
                let fuzzed: V3 = u.scale(m.fuzz);
                let direction: V3 = reflected.add(fuzzed);
                proof {
                    lemma_dot_le(
                        direction,
                        hit_record.normal,
                        4_200_000_000,
                        NMAX as int,
                        30_000_000_000,
                    );
                    if m.fuzz == 0 {
                        lemma_fmul_one(u.x as int);
                        lemma_fmul_one(u.y as int);
                        lemma_fmul_one(u.z as int);
                        assert(direction == reflect_spec(unit_spec(ray_in.direction), hit_record.normal));
                    }
                }
                let dd: i64 = V3::dot(&direction, &hit_record.normal);
                if dd > 0 {
                    Some(
                        MaterialScatterInfo {
                            scattered: Ray {
                                origin: hit_record.p,
                                direction,
                                time: ray_in.time,
                            },
                            attenuation: m.albedo,
                        },
                    )
                } else {
                    None
                }
            },
            Material::Dielectric(d) => {
                proof {
                    lemma_dot_le(
                        ray_in.direction,
                        ray_in.direction,
                        DMAX as int,
                        DMAX as int,
                        30_000_000_000_000_000,
                    );
                    lemma_dot_self_nonneg(ray_in.direction);
                    lemma_dot_le(
                        ray_in.direction,
                        hit_record.normal,
                        DMAX as int,
                        NMAX as int,
                        100_000_000_000,
                    );
                }
                let sq: i64 = ray_in.direction.squared_length();
                if sq < 1 {
                    return None;
                }
                let dn: i64 = V3::dot(&ray_in.direction, &hit_record.normal);
                let entering: bool = dn <= 0;
                let outward: V3 = if entering {
                    hit_record.normal
                } else {
                    hit_record.normal.neg()
                };
                proof {
                    crate::v3color::lemma_prod_mag(
                        SCALE as int,
                        SCALE as int,
                        SCALE as int,
                        SCALE as int,
                    );
                    lemma_tdiv_le((SCALE as int) * (SCALE as int), d.ref_idx as int, SCALE as int);
                }
                let ni_over_nt: i64 = if entering {
                    div_fp(SCALE, d.ref_idx)
                } else {
                    d.ref_idx
                };
                let refracted: Option<V3> = refract(&ray_in.direction, &outward, ni_over_nt);
                let uin: V3 = ray_in.direction.unit();
                let reflected: V3 = {
                    proof {
                        lemma_dot_le(
                            uin,
                            hit_record.normal,
                            100_010_000,
                            NMAX as int,
                            1_000_000_000,
                        );
                        let d2 = 2 * dot_spec(uin, hit_record.normal);
                        lemma_fmul_le(d2, hit_record.normal.x as int, 2_000_000_000, 20_000, 4_000_000_000);
                        lemma_fmul_le(d2, hit_record.normal.y as int, 2_000_000_000, 20_000, 4_000_000_000);
                        lemma_fmul_le(d2, hit_record.normal.z as int, 2_000_000_000, 20_000, 4_000_000_000);
                    }
                    V3::reflect(&uin, &hit_record.normal)
                };
                let len: i64 = ray_in.direction.length();
                proof {
                    let n = dot_spec(ray_in.direction, ray_in.direction) * (SCALE as int);
                    assert(n >= SCALE as int) by (nonlinear_arith)
                        requires
                            n == dot_spec(ray_in.direction, ray_in.direction) * (SCALE as int),
                            dot_spec(ray_in.direction, ray_in.direction) >= 1,
                            SCALE == 10000,
                    ;
                    if len == 0 {
                        assert((len as int + 1) * (len as int + 1) == 1);
                        assert(false);
                    }
                    crate::v3color::lemma_prod_mag(
                        dn as int,
                        SCALE as int,
                        100_000_000_000,
                        SCALE as int,
                    );
                    crate::fixed::lemma_tdiv_mono_mag(
                        (dn as int) * (SCALE as int),
                        len as int,
                        mag((dn as int) * (SCALE as int)),
                    );
                }
                let cos_t: i64 = div_fp(dn, len);
                let direction: V3 = match refracted {
                    Some(refr) => {
                        let use_reflect: bool;
                        if cos_t > 4 * SCALE || cos_t < -4 * SCALE {
                            use_reflect = true;
                        } else {
                            let cf: i64 = if entering {
                                -SCALE
                            } else {
                                d.ref_idx
                            };
                            proof {
                                lemma_fmul_le(cf as int, cos_t as int, 500_000, 40_000, 2_000_000);
                            }
                            let cosine: i64 = mul_fp(cf, cos_t);
                            let reflect_prob: i64 = schlick(cosine, d.ref_idx);
                            let draw: i64 = random_unit();
                            use_reflect = draw < reflect_prob;
                        }
                        if use_reflect {
                            reflected
                        } else {
                            refr
                        }
                    },
                    None => reflected,
                };
                Some(
                    MaterialScatterInfo {
                        scattered: Ray {
                            origin: hit_record.p,
                            direction,
                            time: ray_in.time,
                        },
                        attenuation: Color { r: SCALE, g: SCALE, b: SCALE },
                    },
                )
            },
        }
    }
}

} // verus!
