//! Textures: a map from a world point to a color, in four closed variants.

use vstd::prelude::*;

verus! {

use crate::fixed::{SCALE, mag, fdiv, floor_div, div_fp, lemma_tdiv_le};
use crate::v3color::{V3, Color};
use crate::perlin::{NoiseTexture, lattice_index_spec};
use crate::shapes::OMAX;

/// The half turn of the grid: pi to four decimal places, the period of the
/// sine's sign.
pub const PI_FP: i64 = 31416;

/// The closed set of texture kinds the renderer knows.
pub enum Texture {
    Constant(ConstantTexture),
    Checker(CheckerTexture),
    SphericalChecker(SphericalCheckerTexture),
    Noise(NoiseTexture),
}

/// A fixed color everywhere.
pub struct ConstantTexture {
    pub color: Color,
}

/// A world-space checker: the sign of a product of sines of the scaled
/// coordinates picks one of two child textures.
pub struct CheckerTexture {
    pub odd: Box<Texture>,
    pub even: Box<Texture>,
}

/// An angular checker over pseudo-angles around the x axis.
pub struct SphericalCheckerTexture {
    pub odd: Box<Texture>,
    pub even: Box<Texture>,
}

/// A color channel that stays inside the unit interval of the grid.
pub open spec fn channel_wf(c: i64) -> bool {
    0 <= c <= SCALE
}

/// All three channels inside the unit interval.
pub open spec fn color_wf(c: Color) -> bool {
    channel_wf(c.r) && channel_wf(c.g) && channel_wf(c.b)
}

/// Well-formedness of a texture: every reachable color stays inside the unit
/// interval and every noise table has its full shape.
pub open spec fn texture_wf(t: Texture) -> bool
    decreases t,
{
    match t {
        Texture::Constant(c) => color_wf(c.color),
        Texture::Checker(c) => texture_wf(*c.odd) && texture_wf(*c.even),
        Texture::SphericalChecker(c) => texture_wf(*c.odd) && texture_wf(*c.even),
        Texture::Noise(n) => n.wf(),
    }
}

/// How many half turns an angle holds: the floor of the angle over pi. The
/// sine of the angle is negative exactly when this count is odd.
pub open spec fn half_turns(theta: int) -> int {
    theta / (PI_FP as int)
}

/// The sign test of the world-space checker: whether the product of the
/// sines of the three coordinates scaled by ten is negative, read off the
/// parity of the summed half-turn counts. A sine that is exactly zero on the
/// grid counts as nonnegative.
pub open spec fn checker_sines_negative(p: V3) -> bool {
    (half_turns(10 * (p.x as int)) + half_turns(10 * (p.y as int)) + half_turns(
        10 * (p.z as int),
    )) % 2 == 1
}

/// The pseudo-angle of the planar point `(x, y)`: a monotone stand-in for
/// the angle around the origin, exact on the grid, with a quarter turn worth
/// one unit. The whole turn spans `(-2, 2]` in units of the grid.
pub open spec fn pseudo_angle_spec(x: int, y: int) -> int {
    let d = mag(x) + mag(y);
    if d == 0 {
        0
    } else {
        let q = fdiv(y, d);
        if x >= 0 {
            q
        } else if y >= 0 {
            2 * (SCALE as int) - q
        } else {
            -2 * (SCALE as int) - q
        }
    }
}

/// The sign test of the angular checker: the parity of the summed half-turn
/// counts of the two pseudo-angles around the x axis, each scaled by ten.
/// A half turn of the pseudo-angle is two grid units.
pub open spec fn spherical_sines_negative(p: V3) -> bool {
    let a1 = pseudo_angle_spec(p.x as int, p.y as int);
    let a2 = pseudo_angle_spec(p.x as int, p.z as int);
    ((10 * a1) / (2 * (SCALE as int)) + (10 * a2) / (2 * (SCALE as int))) % 2 == 1
}

/// What a texture answers at a world point.
pub open spec fn texture_value_spec(t: Texture, p: V3) -> Color
    decreases t,
{
    match t {
        Texture::Constant(c) => c.color,
        Texture::Checker(c) => if checker_sines_negative(p) {
            texture_value_spec(*c.odd, p)
        } else {
            texture_value_spec(*c.even, p)
        },
        Texture::SphericalChecker(c) => if spherical_sines_negative(p) {
            texture_value_spec(*c.odd, p)
        } else {
            texture_value_spec(*c.even, p)
        },
        Texture::Noise(n) => {
            let v = n.ranfloat@[(n.perm_x@[lattice_index_spec(p.x)] ^ n.perm_y@[
                lattice_index_spec(p.y)] ^ n.perm_z@[lattice_index_spec(p.z)]) as int];
            Color { r: v, g: v, b: v }
        },
    }
}

/// The parity of an integer, as its Euclidean remainder by two.
fn parity(s: i64) -> (r: i64)
    requires
        s > i64::MIN + 1,
        mag(s as int) < 0x4000_0000_0000_0000,
    ensures
        r == (s as int) % 2,
{
    let q: i64 = floor_div(s, 2);
    proof {
        vstd::arithmetic::div_mod::lemma_fundamental_div_mod(s as int, 2);
    }
    s - 2 * q
}

/// The half-turn count of an angle.
fn half_turn_count(theta: i64) -> (r: i64)
    requires
        theta > i64::MIN,
    ensures
        r == half_turns(theta as int),
        mag(r as int) <= mag(theta as int) + 1,
{
    floor_div(theta, PI_FP)
}

/// The pseudo-angle of a planar point.
fn pseudo_angle(x: i64, y: i64) -> (r: i64)
    requires
        mag(x as int) <= OMAX as int,
        mag(y as int) <= OMAX as int,
    ensures
        r == pseudo_angle_spec(x as int, y as int),
        mag(r as int) <= 3 * (SCALE as int),
{
    let dx: i64 = if x < 0 {
        -x
    } else {
        x
    };
    let dy: i64 = if y < 0 {
        -y
    } else {
        y
    };
    let d: i64 = dx + dy;
    if d == 0 {
        return 0;
    }
    proof {
        crate::v3color::lemma_prod_mag(y as int, SCALE as int, d as int, SCALE as int);
        lemma_tdiv_le((y as int) * (SCALE as int), d as int, SCALE as int);
    }
    let q: i64 = div_fp(y, d);
    if x >= 0 {
        q
    } else if y >= 0 {
        2 * SCALE - q
    } else {
        -2 * SCALE - q
    }
}

impl Texture {
    /// Whether every reachable color and table obeys `texture_wf`: the
    /// executable mirror, for callers that must test before calling.
    pub fn check_wf(&self) -> (r: bool)
        ensures
            r == texture_wf(*self),
        decreases *self,
    {
        match self {
            Texture::Constant(c) => 0 <= c.color.r && c.color.r <= SCALE && 0 <= c.color.g
                && c.color.g <= SCALE && 0 <= c.color.b && c.color.b <= SCALE,
            Texture::Checker(c) => c.odd.check_wf() && c.even.check_wf(),
            Texture::SphericalChecker(c) => c.odd.check_wf() && c.even.check_wf(),
            Texture::Noise(n) => n.check_wf(),
        }
    }

    /// The color of this texture at a world point.
    pub fn value(&self, p: &V3) -> (r: Color)
        requires
            texture_wf(*self),
            crate::v3color::bounded(*p, OMAX as int),
        ensures
            r == texture_value_spec(*self, *p),
            color_wf(r),
        decreases *self,
    {
        match self {
            Texture::Constant(c) => c.color,
            Texture::Checker(c) => {
                let kx: i64 = half_turn_count(10 * p.x);
                let ky: i64 = half_turn_count(10 * p.y);
                let kz: i64 = half_turn_count(10 * p.z);
                let par: i64 = parity(kx + ky + kz);
                if par == 1 {
                    c.odd.value(p)
                } else {
                    c.even.value(p)
                }
            },
            Texture::SphericalChecker(c) => {
                let a1: i64 = pseudo_angle(p.x, p.y);
                let a2: i64 = pseudo_angle(p.x, p.z);
                let k1: i64 = floor_div(10 * a1, 2 * SCALE);
                let k2: i64 = floor_div(10 * a2, 2 * SCALE);
                let par: i64 = parity(k1 + k2);
                if par == 1 {
                    c.odd.value(p)
                } else {
                    c.even.value(p)
                }
            },
            Texture::Noise(n) => n.value(p),
        }
    }
}

} // verus!
