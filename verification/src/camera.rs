//! The camera: an orthonormal basis built from look-from, look-at and up,
//! a viewport sized by the vertical field of view and the focus distance,
//! a lens disk for depth of field, and a shutter interval for motion blur.

use vstd::prelude::*;

verus! {

use crate::fixed::{SCALE, mag, fmul, fits64, mul_fp, lemma_fmul_le, lemma_fmul_one,
    lemma_fmul_unit_interval, lemma_tdiv_mag};
use crate::v3color::{V3, bounded, dot_spec, unit_spec, add_spec, sub_spec, scale_spec, cross_spec,
    lemma_dot_le, lemma_dot_self_nonneg};
use crate::shapes::{Ray, ray_wf, CMAX, TMAX};
use crate::rng::random_unit;

/// The tangent of a whole number of degrees, to four decimal places on the
/// grid. Beyond the table the steepest entry answers.
pub open spec fn tan_degree(d: int) -> int {
    if d <= 0 {
        0
    } else if d == 1 {
        175
    } else if d == 2 {
        349
    } else if d == 3 {
        524
    } else if d == 4 {
        699
    } else if d == 5 {
        875
    } else if d == 6 {
        1051
    } else if d == 7 {
        1228
    } else if d == 8 {
        1405
    } else if d == 9 {
        1584
    } else if d == 10 {
        1763
    } else if d == 11 {
        1944
    } else if d == 12 {
        2126
    } else if d == 13 {
        2309
    } else if d == 14 {
        2493
    } else if d == 15 {
        2679
    } else if d == 16 {
        2867
    } else if d == 17 {
        3057
    } else if d == 18 {
        3249
    } else if d == 19 {
        3443
    } else if d == 20 {
        3640
    } else if d == 21 {
        3839
    } else if d == 22 {
        4040
    } else if d == 23 {
        4245
    } else if d == 24 {
        4452
    } else if d == 25 {
        4663
    } else if d == 26 {
        4877
    } else if d == 27 {
        5095
    } else if d == 28 {
        5317
    } else if d == 29 {
        5543
    } else if d == 30 {
        5774
    } else if d == 31 {
        6009
    } else if d == 32 {
        6249
    } else if d == 33 {
        6494
    } else if d == 34 {
        6745
    } else if d == 35 {
        7002
    } else if d == 36 {
        7265
    } else if d == 37 {
        7536
    } else if d == 38 {
        7813
    } else if d == 39 {
        8098
    } else if d == 40 {
        8391
    } else if d == 41 {
        8693
    } else if d == 42 {
        9004
    } else if d == 43 {
        9325
    } else if d == 44 {
        9657
    } else if d == 45 {
        10000
    } else if d == 46 {
        10355
    } else if d == 47 {
        10724
    } else if d == 48 {
        11106
    } else if d == 49 {
        11504
    } else if d == 50 {
        11918
    } else if d == 51 {
        12349
    } else if d == 52 {
        12799
    } else if d == 53 {
        13270
    } else if d == 54 {
        13764
    } else if d == 55 {
        14281
    } else if d == 56 {
        14826
    } else if d == 57 {
        15399
    } else if d == 58 {
        16003
    } else if d == 59 {
        16643
    } else if d == 60 {
        17321
    } else if d == 61 {
        18040
    } else if d == 62 {
        18807
    } else if d == 63 {
        19626
    } else if d == 64 {
        20503
    } else if d == 65 {
        21445
    } else if d == 66 {
        22460
    } else if d == 67 {
        23559
    } else if d == 68 {
        24751
    } else if d == 69 {
        26051
    } else if d == 70 {
        27475
    } else if d == 71 {
        29042
    } else if d == 72 {
        30777
    } else if d == 73 {
        32709
    } else if d == 74 {
        34874
    } else if d == 75 {
        37321
    } else if d == 76 {
        40108
    } else if d == 77 {
        43315
    } else if d == 78 {
        47046
    } else if d == 79 {
        51446
    } else if d == 80 {
        56713
    } else if d == 81 {
        63138
    } else if d == 82 {
        71154
    } else if d == 83 {
        81443
    } else if d == 84 {
        95144
    } else if d == 85 {
        114301
    } else if d == 86 {
        143007
    } else if d == 87 {
        190811
    } else if d == 88 {
        286363
    } else if d == 89 {
        572900
    } else {
        572900
    }
}

/// Look the tangent of a whole number of degrees up.
fn tan_degree_at(d: i64) -> (r: i64)
    requires
        0 <= d <= 89,
    ensures
        r == tan_degree(d as int),
        0 <= r <= 572900,
{
    if d <= 0 {
        0
    } else if d == 1 {
        175
    } else if d == 2 {
        349
    } else if d == 3 {
        524
    } else if d == 4 {
        699
    } else if d == 5 {
        875
    } else if d == 6 {
        1051
    } else if d == 7 {
        1228
    } else if d == 8 {
        1405
    } else if d == 9 {
        1584
    } else if d == 10 {
        1763
    } else if d == 11 {
        1944
    } else if d == 12 {
        2126
    } else if d == 13 {
        2309
    } else if d == 14 {
        2493
    } else if d == 15 {
        2679
    } else if d == 16 {
        2867
    } else if d == 17 {
        3057
    } else if d == 18 {
        3249
    } else if d == 19 {
        3443
    } else if d == 20 {
        3640
    } else if d == 21 {
        3839
    } else if d == 22 {
        4040
    } else if d == 23 {
        4245
    } else if d == 24 {
        4452
    } else if d == 25 {
        4663
    } else if d == 26 {
        4877
    } else if d == 27 {
        5095
    } else if d == 28 {
        5317
    } else if d == 29 {
        5543
    } else if d == 30 {
        5774
    } else if d == 31 {
        6009
    } else if d == 32 {
        6249
    } else if d == 33 {
        6494
    } else if d == 34 {
        6745
    } else if d == 35 {
        7002
    } else if d == 36 {
        7265
    } else if d == 37 {
        7536
    } else if d == 38 {
        7813
    } else if d == 39 {
        8098
    } else if d == 40 {
        8391
    } else if d == 41 {
        8693
    } else if d == 42 {
        9004
    } else if d == 43 {
        9325
    } else if d == 44 {
        9657
    } else if d == 45 {
        10000
    } else if d == 46 {
        10355
    } else if d == 47 {
        10724
    } else if d == 48 {
        11106
    } else if d == 49 {
        11504
    } else if d == 50 {
        11918
    } else if d == 51 {
        12349
    } else if d == 52 {
        12799
    } else if d == 53 {
        13270
    } else if d == 54 {
        13764
    } else if d == 55 {
        14281
    } else if d == 56 {
        14826
    } else if d == 57 {
        15399
    } else if d == 58 {
        16003
    } else if d == 59 {
        16643
    } else if d == 60 {
        17321
    } else if d == 61 {
        18040
    } else if d == 62 {
        18807
    } else if d == 63 {
        19626
    } else if d == 64 {
        20503
    } else if d == 65 {
        21445
    } else if d == 66 {
        22460
    } else if d == 67 {
        23559
    } else if d == 68 {
        24751
    } else if d == 69 {
        26051
    } else if d == 70 {
        27475
    } else if d == 71 {
        29042
    } else if d == 72 {
        30777
    } else if d == 73 {
        32709
    } else if d == 74 {
        34874
    } else if d == 75 {
        37321
    } else if d == 76 {
        40108
    } else if d == 77 {
        43315
    } else if d == 78 {
        47046
    } else if d == 79 {
        51446
    } else if d == 80 {
        56713
    } else if d == 81 {
        63138
    } else if d == 82 {
        71154
    } else if d == 83 {
        81443
    } else if d == 84 {
        95144
    } else if d == 85 {
        114301
    } else if d == 86 {
        143007
    } else if d == 87 {
        190811
    } else if d == 88 {
        286363
    } else if d == 89 {
        572900
    } else {
        572900
    }
}

/// The tangent of half the vertical field of view, for a field of view in
/// fixed-point degrees: linear interpolation between the neighboring whole
/// degrees of the table.
pub open spec fn tan_half_fov(vfov: i64) -> int {
    let half = (vfov as int) / 2;
    let d = half / (SCALE as int);
    let frac = half % (SCALE as int);
    tan_degree(d) + fmul(frac, tan_degree(d + 1) - tan_degree(d))
}

/// Compute the tangent of half the vertical field of view.
fn tan_half_fov_at(vfov: i64) -> (r: i64)
    requires
        1 <= vfov <= 1_760_000,
    ensures
        r == tan_half_fov(vfov),
        0 <= r <= 1_200_000,
{
    let half: i64 = vfov / 2;
    let d: i64 = half / SCALE;
    let frac: i64 = half % SCALE;
    let t0: i64 = tan_degree_at(d);
    let t1: i64 = tan_degree_at(d + 1);
    proof {
        lemma_fmul_le(frac as int, t1 as int - t0 as int, SCALE as int, 600_000, 600_000);
        assert((frac as int) * ((t1 - t0) as int) >= 0) by (nonlinear_arith)
            requires
                frac >= 0,
                t1 >= t0,
        ;
        lemma_tdiv_mag((frac as int) * ((t1 - t0) as int), SCALE as int);
    }
    t0 + mul_fp(frac, t1 - t0)
}

/// A camera: origin, viewport corner and spans, lens basis and radius, and
/// the shutter interval.
pub struct Camera {
    pub origin: V3,
    pub lower_left_corner: V3,
    pub horizontal: V3,
    pub vertical: V3,
    pub u: V3,
    pub v: V3,
    pub lens_radius: i64,
    pub time1: i64,
    pub time2: i64,
}

/// What the caller hands to the camera builder.
pub struct CameraParams<'a> {
    pub look_from: &'a V3,
    pub look_at: &'a V3,
    pub vup: &'a V3,
    pub vert_fov_deg: i64,
    pub aspect: i64,
    pub aperture: i64,
    pub focus_dist: i64,
    pub time1: i64,
    pub time2: i64,
}

/// A point of the lens disk: strictly inside the unit disk of the grid, in
/// the plane of the lens basis.
pub open spec fn disk_sample(p: V3) -> bool {
    bounded(p, SCALE as int) && dot_spec(p, p) < SCALE && p.z == 0
}

/// The world offset of the ray origin for a lens-disk sample: the sample
/// scaled by the lens radius, spread over the lens basis.
pub open spec fn lens_offset(c: Camera, p: V3) -> V3 {
    let rdx = fmul(c.lens_radius as int, p.x as int);
    let rdy = fmul(c.lens_radius as int, p.y as int);
    V3 {
        x: (fmul(rdx, c.u.x as int) + fmul(rdy, c.v.x as int)) as i64,
        y: (fmul(rdx, c.u.y as int) + fmul(rdy, c.v.y as int)) as i64,
        z: (fmul(rdx, c.u.z as int) + fmul(rdy, c.v.z as int)) as i64,
    }
}

/// The bounds every built camera obeys: what `get_ray` needs to stay on the
/// grid.
pub open spec fn camera_wf(c: Camera) -> bool {
    &&& bounded(c.origin, CMAX as int)
    &&& bounded(c.lower_left_corner, 2_000_000_000)
    &&& bounded(c.horizontal, 2_000_000_000)
    &&& bounded(c.vertical, 2_000_000_000)
    &&& bounded(c.u, 100_010_000)
    &&& bounded(c.v, 100_010_000)
    &&& 0 <= c.lens_radius <= 100_000
    &&& -TMAX <= c.time1 <= c.time2 <= TMAX
}

/// Whether the builder accepts the parameters: the stated input ranges hold
/// and every derived quantity stays inside the grid bounds of `camera_wf`.
/// The squared lengths of the viewing offset and of the up-cross-view vector
/// must reach a tenth of a unit: below that the grid normalization drifts
/// from unit length (see `lemma_unit_norm`), so such cameras are refused.
pub open spec fn camera_build_ok(
    look_from: V3,
    look_at: V3,
    vup: V3,
    vert_fov_deg: i64,
    aspect: i64,
    aperture: i64,
    focus_dist: i64,
    time1: i64,
    time2: i64,
) -> bool {
    let w0 = sub_spec(look_from, look_at);
    let w = unit_spec(w0);
    let cu = cross_spec(vup, w);
    let u = unit_spec(cu);
    let v = cross_spec(w, u);
    let th = tan_half_fov(vert_fov_deg);
    let hh = fmul(th, focus_dist as int);
    let hw = fmul(aspect as int, hh);
    let llc = sub_spec(
        sub_spec(sub_spec(look_from, scale_spec(hw, u)), scale_spec(hh, v)),
        scale_spec(focus_dist as int, w),
    );
    let horizontal = scale_spec(2 * hw, u);
    let vertical = scale_spec(2 * hh, v);
    &&& bounded(look_from, CMAX as int)
    &&& bounded(look_at, CMAX as int)
    &&& bounded(vup, CMAX as int)
    &&& 1 <= vert_fov_deg <= 1_760_000
    &&& 0 <= aspect <= 1_000_000
    &&& 0 <= aperture <= 200_000
    &&& 1 <= focus_dist <= CMAX
    &&& -TMAX <= time1 <= time2 <= TMAX
    &&& fits64(dot_spec(w0, w0)) && dot_spec(w0, w0) >= 100
    &&& bounded(cu, 1_000_000)
    &&& dot_spec(cu, cu) >= 100
    &&& bounded(v, 100_010_000)
    &&& mag(hh) <= 1_000_000_000
    &&& mag(hw) <= 1_000_000_000
    &&& bounded(llc, 2_000_000_000)
    &&& bounded(horizontal, 2_000_000_000)
    &&& bounded(vertical, 2_000_000_000)
}

/// Everything that holds of a generated ray, whatever the samplers drew:
/// the admissible rays of a camera for the normalized image-plane
/// coordinates `(s, t)`.
pub open spec fn camera_ray_admissible(c: Camera, s: int, t: int, r: Ray) -> bool {
    &&& ray_wf(r)
    &&& c.time1 <= r.time <= c.time2
    &&& (c.time1 < c.time2 ==> r.time < c.time2)
    &&& (c.lens_radius == 0 ==> r.origin == c.origin)
    &&& (c.lens_radius == 0 ==> {
        &&& r.direction.x == c.lower_left_corner.x + fmul(s, c.horizontal.x as int) + fmul(
            t,
            c.vertical.x as int,
        ) - c.origin.x
        &&& r.direction.y == c.lower_left_corner.y + fmul(s, c.horizontal.y as int) + fmul(
            t,
            c.vertical.y as int,
        ) - c.origin.y
        &&& r.direction.z == c.lower_left_corner.z + fmul(s, c.horizontal.z as int) + fmul(
            t,
            c.vertical.z as int,
        ) - c.origin.z
    })
    &&& exists|p: V3|
        {
            let off = lens_offset(c, p);
            &&& #[trigger] disk_sample(p)
            &&& r.origin == add_spec(c.origin, off)
            &&& r.direction.x == c.lower_left_corner.x + fmul(s, c.horizontal.x as int) + fmul(
                t,
                c.vertical.x as int,
            ) - c.origin.x - off.x
            &&& r.direction.y == c.lower_left_corner.y + fmul(s, c.horizontal.y as int) + fmul(
                t,
                c.vertical.y as int,
            ) - c.origin.y - off.y
            &&& r.direction.z == c.lower_left_corner.z + fmul(s, c.horizontal.z as int) + fmul(
                t,
                c.vertical.z as int,
            ) - c.origin.z - off.z
        }
}

impl Camera {
    /// Build a camera, or nothing when a parameter leaves the stated ranges
    /// or a derived quantity leaves the grid bounds.
    pub fn new(params: CameraParams) -> (r: Option<Camera>)
        ensures
            (r is Some) <==> camera_build_ok(
                *params.look_from,
                *params.look_at,
                *params.vup,
                params.vert_fov_deg,
                params.aspect,
                params.aperture,
                params.focus_dist,
                params.time1,
                params.time2,
            ),
            r matches Some(c) ==> camera_wf(c) && ({
                let w0 = sub_spec(*params.look_from, *params.look_at);
                let w = unit_spec(w0);
                let u = unit_spec(cross_spec(*params.vup, w));
                let v = cross_spec(w, u);
                let th = tan_half_fov(params.vert_fov_deg);
                let hh = fmul(th, params.focus_dist as int);
                let hw = fmul(params.aspect as int, hh);
                &&& c.origin == *params.look_from
                &&& c.u == u
                &&& c.v == v
                &&& c.lower_left_corner == sub_spec(
                    sub_spec(sub_spec(*params.look_from, scale_spec(hw, u)), scale_spec(hh, v)),
                    scale_spec(params.focus_dist as int, w),
                )
                &&& c.horizontal == scale_spec(2 * hw, u)
                &&& c.vertical == scale_spec(2 * hh, v)
                &&& c.lens_radius == (params.aperture as int) / 2
                &&& c.time1 == params.time1
                &&& c.time2 == params.time2
            }),
    {
        let lf = *params.look_from;
        let la = *params.look_at;
        let vup = *params.vup;
        if !(lf.x <= CMAX && lf.x >= -CMAX && lf.y <= CMAX && lf.y >= -CMAX && lf.z <= CMAX
            && lf.z >= -CMAX) {
            return None;
        }
        if !(la.x <= CMAX && la.x >= -CMAX && la.y <= CMAX && la.y >= -CMAX && la.z <= CMAX
            && la.z >= -CMAX) {
            return None;
        }
        if !(vup.x <= CMAX && vup.x >= -CMAX && vup.y <= CMAX && vup.y >= -CMAX && vup.z <= CMAX
            && vup.z >= -CMAX) {
            return None;
        }
        if !(1 <= params.vert_fov_deg && params.vert_fov_deg <= 1_760_000) {
            return None;
        }
        if !(0 <= params.aspect && params.aspect <= 1_000_000) {
            return None;
        }
        if !(0 <= params.aperture && params.aperture <= 200_000) {
            return None;
        }
        if !(1 <= params.focus_dist && params.focus_dist <= CMAX) {
            return None;
        }
        if !(-TMAX <= params.time1 && params.time1 <= params.time2 && params.time2 <= TMAX) {
            return None;
        }
        let w0: V3 = lf.sub(la);
        proof {
            lemma_dot_le(w0, w0, 2 * (CMAX as int), 2 * (CMAX as int), 12_000_000_000_000);
            lemma_dot_self_nonneg(w0);
        }
        let sqw: i64 = w0.squared_length();
        if sqw < 100 {
            return None;
        }
        let w: V3 = w0.unit();
        proof {
            lemma_fmul_le(vup.y as int, w.z as int, CMAX as int, 100_010_000, 1_000_100_000_000);
            lemma_fmul_le(vup.z as int, w.y as int, CMAX as int, 100_010_000, 1_000_100_000_000);
            lemma_fmul_le(vup.z as int, w.x as int, CMAX as int, 100_010_000, 1_000_100_000_000);
            lemma_fmul_le(vup.x as int, w.z as int, CMAX as int, 100_010_000, 1_000_100_000_000);
            lemma_fmul_le(vup.x as int, w.y as int, CMAX as int, 100_010_000, 1_000_100_000_000);
            lemma_fmul_le(vup.y as int, w.x as int, CMAX as int, 100_010_000, 1_000_100_000_000);
        }
        let cu: V3 = V3::cross(&vup, &w);
        if !(cu.x <= 1_000_000 && cu.x >= -1_000_000 && cu.y <= 1_000_000 && cu.y >= -1_000_000
            && cu.z <= 1_000_000 && cu.z >= -1_000_000) {
            return None;
        }
        proof {
            lemma_dot_le(cu, cu, 1_000_000, 1_000_000, 300_000_000);
            lemma_dot_self_nonneg(cu);
        }
        let squ: i64 = cu.squared_length();
        if squ < 100 {
            return None;
        }
        let u: V3 = cu.unit();
        proof {
            lemma_fmul_le(w.y as int, u.z as int, 100_010_000, 100_010_000, 1_000_200_010_000);
            lemma_fmul_le(w.z as int, u.y as int, 100_010_000, 100_010_000, 1_000_200_010_000);
            lemma_fmul_le(w.z as int, u.x as int, 100_010_000, 100_010_000, 1_000_200_010_000);
            lemma_fmul_le(w.x as int, u.z as int, 100_010_000, 100_010_000, 1_000_200_010_000);
            lemma_fmul_le(w.x as int, u.y as int, 100_010_000, 100_010_000, 1_000_200_010_000);
            lemma_fmul_le(w.y as int, u.x as int, 100_010_000, 100_010_000, 1_000_200_010_000);
        }
        let v: V3 = V3::cross(&w, &u);
        if !(v.x <= 100_010_000 && v.x >= -100_010_000 && v.y <= 100_010_000 && v.y >= -100_010_000
            && v.z <= 100_010_000 && v.z >= -100_010_000) {
            return None;
        }
        let th: i64 = tan_half_fov_at(params.vert_fov_deg);
        proof {
            lemma_fmul_le(th as int, params.focus_dist as int, 1_200_000, CMAX as int, 12_000_000_000);
        }
        let hh: i64 = mul_fp(th, params.focus_dist);
        if !(hh <= 1_000_000_000 && hh >= -1_000_000_000) {
            return None;
        }
        proof {
            lemma_fmul_le(params.aspect as int, hh as int, 1_000_000, 1_000_000_000, 100_000_000_000);
        }
        let hw: i64 = mul_fp(params.aspect, hh);
        if !(hw <= 1_000_000_000 && hw >= -1_000_000_000) {
            return None;
        }
        proof {
            lemma_fmul_le(hw as int, u.x as int, 1_000_000_000, 100_010_000, 10_001_000_000_000);
            lemma_fmul_le(hw as int, u.y as int, 1_000_000_000, 100_010_000, 10_001_000_000_000);
            lemma_fmul_le(hw as int, u.z as int, 1_000_000_000, 100_010_000, 10_001_000_000_000);
            lemma_fmul_le(hh as int, v.x as int, 1_000_000_000, 100_010_000, 10_001_000_000_000);
            lemma_fmul_le(hh as int, v.y as int, 1_000_000_000, 100_010_000, 10_001_000_000_000);
            lemma_fmul_le(hh as int, v.z as int, 1_000_000_000, 100_010_000, 10_001_000_000_000);
            lemma_fmul_le(
                params.focus_dist as int,
                w.x as int,
                CMAX as int,
                100_010_000,
                1_000_100_000_000,
            );
            lemma_fmul_le(
                params.focus_dist as int,
                w.y as int,
                CMAX as int,
                100_010_000,
                1_000_100_000_000,
            );
            lemma_fmul_le(
                params.focus_dist as int,
                w.z as int,
                CMAX as int,
                100_010_000,
                1_000_100_000_000,
            );
        }
        let llc: V3 = lf.sub(u.scale(hw)).sub(v.scale(hh)).sub(w.scale(params.focus_dist));
        if !(llc.x <= 2_000_000_000 && llc.x >= -2_000_000_000 && llc.y <= 2_000_000_000 && llc.y
            >= -2_000_000_000 && llc.z <= 2_000_000_000 && llc.z >= -2_000_000_000) {
            return None;
        }
        proof {
            lemma_fmul_le(2 * hw as int, u.x as int, 2_000_000_000, 100_010_000, 20_002_000_000_000);
            lemma_fmul_le(2 * hw as int, u.y as int, 2_000_000_000, 100_010_000, 20_002_000_000_000);
            lemma_fmul_le(2 * hw as int, u.z as int, 2_000_000_000, 100_010_000, 20_002_000_000_000);
            lemma_fmul_le(2 * hh as int, v.x as int, 2_000_000_000, 100_010_000, 20_002_000_000_000);
            lemma_fmul_le(2 * hh as int, v.y as int, 2_000_000_000, 100_010_000, 20_002_000_000_000);
            lemma_fmul_le(2 * hh as int, v.z as int, 2_000_000_000, 100_010_000, 20_002_000_000_000);
        }
        let horizontal: V3 = u.scale(2 * hw);
        if !(horizontal.x <= 2_000_000_000 && horizontal.x >= -2_000_000_000 && horizontal.y
            <= 2_000_000_000 && horizontal.y >= -2_000_000_000 && horizontal.z <= 2_000_000_000
            && horizontal.z >= -2_000_000_000) {
            return None;
        }
        let vertical: V3 = v.scale(2 * hh);
        if !(vertical.x <= 2_000_000_000 && vertical.x >= -2_000_000_000 && vertical.y
            <= 2_000_000_000 && vertical.y >= -2_000_000_000 && vertical.z <= 2_000_000_000
            && vertical.z >= -2_000_000_000) {
            return None;
        }
        Some(
            Camera {
                origin: lf,
                lower_left_corner: llc,
                horizontal,
                vertical,
                u,
                v,
                lens_radius: params.aperture / 2,
                time1: params.time1,
                time2: params.time2,
            },
        )
    }

    /// The ray for the normalized image-plane coordinates `(s, t)`, with a
    /// lens-disk sample for depth of field and a shutter-interval sample for
    /// motion blur. With a closed lens the ray leaves the exact origin toward
    /// the exact viewport point.
    #[verifier::rlimit(100)]
    #[verifier::spinoff_prover]
    pub fn get_ray(&self, s: i64, t: i64) -> (r: Ray)
        requires
            camera_wf(*self),
            0 <= s <= SCALE,
            0 <= t <= SCALE,
        ensures
            camera_ray_admissible(*self, s as int, t as int, r),
    {
        let p: V3 = random_in_unit_disk();
        proof {
            lemma_fmul_le(self.lens_radius as int, p.x as int, 100_000, SCALE as int, 100_000);
            lemma_fmul_le(self.lens_radius as int, p.y as int, 100_000, SCALE as int, 100_000);
            lemma_fmul_le(self.lens_radius as int, p.z as int, 100_000, SCALE as int, 100_000);
        }
        let rd: V3 = p.scale(self.lens_radius);
        proof {
            lemma_fmul_le(rd.x as int, self.u.x as int, 100_000, 100_010_000, 1_000_100_000);
            lemma_fmul_le(rd.x as int, self.u.y as int, 100_000, 100_010_000, 1_000_100_000);
            lemma_fmul_le(rd.x as int, self.u.z as int, 100_000, 100_010_000, 1_000_100_000);
            lemma_fmul_le(rd.y as int, self.v.x as int, 100_000, 100_010_000, 1_000_100_000);
            lemma_fmul_le(rd.y as int, self.v.y as int, 100_000, 100_010_000, 1_000_100_000);
            lemma_fmul_le(rd.y as int, self.v.z as int, 100_000, 100_010_000, 1_000_100_000);
            if self.lens_radius == 0 {
                lemma_fmul_one(p.x as int);
                lemma_fmul_one(p.y as int);
                lemma_fmul_one(p.z as int);
                lemma_fmul_one(self.u.x as int);
                lemma_fmul_one(self.u.y as int);
                lemma_fmul_one(self.u.z as int);
                lemma_fmul_one(self.v.x as int);
                lemma_fmul_one(self.v.y as int);
                lemma_fmul_one(self.v.z as int);
            }
        }
        let offset: V3 = self.u.scale(rd.x).add(self.v.scale(rd.y));
        let dt: i64 = self.time2 - self.time1;
        let draw: i64 = random_unit();
        proof {
            lemma_fmul_unit_interval(dt as int, draw as int);
            assert((draw as int) * (dt as int) == (dt as int) * (draw as int)) by (nonlinear_arith);
            if dt >= 1 {
                assert(0 <= (draw as int) * (dt as int) && (draw as int) * (dt as int) < (
                dt as int) * (SCALE as int)) by (nonlinear_arith)
                    requires
                        0 <= draw < SCALE,
                        dt >= 1,
                ;
                lemma_tdiv_mag((draw as int) * (dt as int), SCALE as int);
                assert(((draw as int) * (dt as int)) / (SCALE as int) < dt) by (nonlinear_arith)
                    requires
                        0 <= (draw as int) * (dt as int) < (dt as int) * (SCALE as int),
                        SCALE == 10000,
                ;
            }
        }
        let time: i64 = self.time1 + mul_fp(draw, dt);
        proof {
            lemma_fmul_le(s as int, self.horizontal.x as int, SCALE as int, 2_000_000_000, 2_000_000_000);
            lemma_fmul_le(s as int, self.horizontal.y as int, SCALE as int, 2_000_000_000, 2_000_000_000);
            lemma_fmul_le(s as int, self.horizontal.z as int, SCALE as int, 2_000_000_000, 2_000_000_000);
            lemma_fmul_le(t as int, self.vertical.x as int, SCALE as int, 2_000_000_000, 2_000_000_000);
            lemma_fmul_le(t as int, self.vertical.y as int, SCALE as int, 2_000_000_000, 2_000_000_000);
            lemma_fmul_le(t as int, self.vertical.z as int, SCALE as int, 2_000_000_000, 2_000_000_000);
        }
        let direction: V3 = self.lower_left_corner.add(self.horizontal.scale(s)).add(
            self.vertical.scale(t),
        ).sub(self.origin).sub(offset);
        let r = Ray { origin: self.origin.add(offset), direction, time };
        proof {
            assert(disk_sample(p));
            assert(offset == lens_offset(*self, p));
        }
        r
    }
}

/// With a closed lens the viewport corners pin the ray directions: at the
/// image plane's origin corner the direction is exactly the lower-left
/// corner minus the camera origin, and at the opposite corner it is the
/// lower-left corner plus both spans minus the origin. Together with
/// `get_ray`, this fixes the two corner rays of any aperture-zero camera.
pub proof fn lemma_pinhole_corner_rays(c: Camera)
    ensures
        c.lower_left_corner.x + fmul(0, c.horizontal.x as int) + fmul(0, c.vertical.x as int)
            - c.origin.x == c.lower_left_corner.x - c.origin.x,
        c.lower_left_corner.y + fmul(0, c.horizontal.y as int) + fmul(0, c.vertical.y as int)
            - c.origin.y == c.lower_left_corner.y - c.origin.y,
        c.lower_left_corner.z + fmul(0, c.horizontal.z as int) + fmul(0, c.vertical.z as int)
            - c.origin.z == c.lower_left_corner.z - c.origin.z,
        c.lower_left_corner.x + fmul(SCALE as int, c.horizontal.x as int) + fmul(
            SCALE as int,
            c.vertical.x as int,
        ) - c.origin.x == c.lower_left_corner.x + c.horizontal.x + c.vertical.x - c.origin.x,
        c.lower_left_corner.y + fmul(SCALE as int, c.horizontal.y as int) + fmul(
            SCALE as int,
            c.vertical.y as int,
        ) - c.origin.y == c.lower_left_corner.y + c.horizontal.y + c.vertical.y - c.origin.y,
        c.lower_left_corner.z + fmul(SCALE as int, c.horizontal.z as int) + fmul(
            SCALE as int,
            c.vertical.z as int,
        ) - c.origin.z == c.lower_left_corner.z + c.horizontal.z + c.vertical.z - c.origin.z,
{
    lemma_fmul_one(c.horizontal.x as int);
    lemma_fmul_one(c.horizontal.y as int);
    lemma_fmul_one(c.horizontal.z as int);
    lemma_fmul_one(c.vertical.x as int);
    lemma_fmul_one(c.vertical.y as int);
    lemma_fmul_one(c.vertical.z as int);
}

/// One rejection-sampled point on the lens disk: draw from the square
/// `[-1, 1)^2` until the squared length falls below one. A bounded number of
/// draws keeps the sampler total; the exhausted case answers the center.
pub fn random_in_unit_disk() -> (v: V3)
    ensures
        bounded(v, SCALE as int),
        dot_spec(v, v) < SCALE,
        v.z == 0,
{
    let mut tries: u8 = 0;
    while tries < 32
        invariant
            true,
        decreases 32 - tries,
    {
        let p = V3 { x: 2 * random_unit() - SCALE, y: 2 * random_unit() - SCALE, z: 0 };
        proof {
            lemma_dot_le(p, p, SCALE as int, SCALE as int, 3 * (SCALE as int));
        }
        let sq: i64 = p.squared_length();
        if sq < SCALE {
            return p;
        }
        tries = tries + 1;
    }
    proof {
        lemma_dot_self_nonneg(V3 { x: 0, y: 0, z: 0 });
    }
    V3 { x: 0, y: 0, z: 0 }
}

} // verus!
