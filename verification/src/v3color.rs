//! Three-component fixed-point vector and the color triple it converts to.

use vstd::prelude::*;

verus! {

use crate::fixed::{SCALE, mag, tdiv, fmul, fdiv, fits64, mul_fp, div_fp, wide_mul, div_trunc,
    sqrt_fp, lemma_tdiv_mag, lemma_tdiv_mono_mag};

/// A geometric vector, or a linear-light color accumulator, with fixed-point
/// components.
#[derive(Clone, Copy, Debug, PartialEq, Eq, Structural)]
pub struct V3 {
    pub x: i64,
    pub y: i64,
    pub z: i64,
}

/// A color in linear light, unclamped, with fixed-point channels.
#[derive(Clone, Copy, Debug, PartialEq, Eq, Structural)]
pub struct Color {
    pub r: i64,
    pub g: i64,
    pub b: i64,
}

/// Every component's magnitude is at most `m`.
pub open spec fn bounded(v: V3, m: int) -> bool {
    mag(v.x as int) <= m && mag(v.y as int) <= m && mag(v.z as int) <= m
}

/// The dot product of `a` and `b`: the full integer sum of the component
/// products, brought back to the fixed-point grid by one truncated division.
pub open spec fn dot_spec(a: V3, b: V3) -> int {
    tdiv((a.x as int) * (b.x as int) + (a.y as int) * (b.y as int) + (a.z as int) * (b.z as int),
        SCALE as int)
}

/// The raw integer sum of a vector's squared components, before the one
/// division that brings a dot product back to the grid.
pub open spec fn dot_sum(v: V3) -> int {
    (v.x as int) * (v.x as int) + (v.y as int) * (v.y as int) + (v.z as int) * (v.z as int)
}

/// Whether `r` is the integer square root of `n`.
pub open spec fn is_sqrt(n: int, r: int) -> bool {
    0 <= r && r * r <= n && n < (r + 1) * (r + 1)
}

/// The integer square root of `n`, as a value: the unique `r` with
/// `r * r <= n < (r + 1) * (r + 1)`.
pub open spec fn sqrt_of(n: int) -> int {
    choose|r: int| is_sqrt(n, r)
}

/// An integer square root exists for every nonnegative integer.
pub proof fn lemma_sqrt_exists(n: int)
    requires
        n >= 0,
    ensures
        is_sqrt(n, sqrt_of(n)),
    decreases n,
{
    if n == 0 {
        assert(is_sqrt(0, 0));
    } else {
        lemma_sqrt_exists(n - 1);
        let r = sqrt_of(n - 1);
        if (r + 1) * (r + 1) <= n {
            assert((r + 1) * (r + 1) == n);
            assert((r + 2) * (r + 2) > n) by (nonlinear_arith)
                requires
                    (r + 1) * (r + 1) == n && r >= 0,
            ;
            assert(is_sqrt(n, r + 1));
        } else {
            assert(is_sqrt(n, r));
        }
    }
    assert(exists|r: int| is_sqrt(n, r));
}

/// The component-wise negation, as a value.
pub open spec fn neg_spec(v: V3) -> V3 {
    V3 { x: (0 - v.x) as i64, y: (0 - v.y) as i64, z: (0 - v.z) as i64 }
}

/// The component-wise sum, as a value.
pub open spec fn add_spec(a: V3, b: V3) -> V3 {
    V3 { x: (a.x + b.x) as i64, y: (a.y + b.y) as i64, z: (a.z + b.z) as i64 }
}

/// The component-wise difference, as a value.
pub open spec fn sub_spec(a: V3, b: V3) -> V3 {
    V3 { x: (a.x - b.x) as i64, y: (a.y - b.y) as i64, z: (a.z - b.z) as i64 }
}

/// The scalar product, as a value.
pub open spec fn scale_spec(s: int, v: V3) -> V3 {
    V3 { x: fmul(s, v.x as int) as i64, y: fmul(s, v.y as int) as i64, z: fmul(s, v.z as int) as i64 }
}

/// The cross product, as a value.
pub open spec fn cross_spec(a: V3, b: V3) -> V3 {
    V3 {
        x: (fmul(a.y as int, b.z as int) - fmul(a.z as int, b.y as int)) as i64,
        y: (fmul(a.z as int, b.x as int) - fmul(a.x as int, b.z as int)) as i64,
        z: (fmul(a.x as int, b.y as int) - fmul(a.y as int, b.x as int)) as i64,
    }
}

/// The vector scaled to unit length, as a value: each component divided by
/// the grid square root of the squared length.
pub open spec fn unit_spec(v: V3) -> V3 {
    let l = sqrt_of(dot_spec(v, v) * (SCALE as int));
    V3 {
        x: fdiv(v.x as int, l) as i64,
        y: fdiv(v.y as int, l) as i64,
        z: fdiv(v.z as int, l) as i64,
    }
}

/// The mirror reflection of `v` about `n`, as a value.
pub open spec fn reflect_spec(v: V3, n: V3) -> V3 {
    V3 {
        x: (v.x - fmul(2 * dot_spec(v, n), n.x as int)) as i64,
        y: (v.y - fmul(2 * dot_spec(v, n), n.y as int)) as i64,
        z: (v.z - fmul(2 * dot_spec(v, n), n.z as int)) as i64,
    }
}

/// The integer square root is unique.
pub proof fn lemma_sqrt_unique(n: int, r1: int, r2: int)
    requires
        is_sqrt(n, r1),
        is_sqrt(n, r2),
    ensures
        r1 == r2,
{
    assert(r1 < r2 ==> (r1 + 1) * (r1 + 1) <= r2 * r2) by (nonlinear_arith)
        requires
            0 <= r1 && 0 <= r2,
    ;
    assert(r2 < r1 ==> (r2 + 1) * (r2 + 1) <= r1 * r1) by (nonlinear_arith)
        requires
            0 <= r1 && 0 <= r2,
    ;
}

impl V3 {
    /// Component-wise sum.
    pub fn add(self, o: V3) -> (r: V3)
        requires
            fits64(self.x + o.x),
            fits64(self.y + o.y),
            fits64(self.z + o.z),
        ensures
            r.x == self.x + o.x,
            r.y == self.y + o.y,
            r.z == self.z + o.z,
    {
        V3 { x: self.x + o.x, y: self.y + o.y, z: self.z + o.z }
    }

    /// Component-wise difference.
    pub fn sub(self, o: V3) -> (r: V3)
        requires
            fits64(self.x - o.x),
            fits64(self.y - o.y),
            fits64(self.z - o.z),
        ensures
            r.x == self.x - o.x,
            r.y == self.y - o.y,
            r.z == self.z - o.z,
    {
        V3 { x: self.x - o.x, y: self.y - o.y, z: self.z - o.z }
    }

    /// Component-wise negation.
    pub fn neg(self) -> (r: V3)
        requires
            self.x > i64::MIN,
            self.y > i64::MIN,
            self.z > i64::MIN,
        ensures
            r.x == -self.x,
            r.y == -self.y,
            r.z == -self.z,
            r == neg_spec(self),
    {
        V3 { x: -self.x, y: -self.y, z: -self.z }
    }

    /// Component-wise (Hadamard) product.
    pub fn mul(self, o: V3) -> (r: V3)
        requires
            fits64(fmul(self.x as int, o.x as int)),
            fits64(fmul(self.y as int, o.y as int)),
            fits64(fmul(self.z as int, o.z as int)),
        ensures
            r.x == fmul(self.x as int, o.x as int),
            r.y == fmul(self.y as int, o.y as int),
            r.z == fmul(self.z as int, o.z as int),
    {
        V3 { x: mul_fp(self.x, o.x), y: mul_fp(self.y, o.y), z: mul_fp(self.z, o.z) }
    }

    /// Scalar product.
    pub fn scale(self, s: i64) -> (r: V3)
        requires
            fits64(fmul(s as int, self.x as int)),
            fits64(fmul(s as int, self.y as int)),
            fits64(fmul(s as int, self.z as int)),
        ensures
            r.x == fmul(s as int, self.x as int),
            r.y == fmul(s as int, self.y as int),
            r.z == fmul(s as int, self.z as int),
    {
        V3 { x: mul_fp(s, self.x), y: mul_fp(s, self.y), z: mul_fp(s, self.z) }
    }

    /// Scalar division.
    pub fn div_s(self, s: i64) -> (r: V3)
        requires
            s != 0,
            fits64(fdiv(self.x as int, s as int)),
            fits64(fdiv(self.y as int, s as int)),
            fits64(fdiv(self.z as int, s as int)),
        ensures
            r.x == fdiv(self.x as int, s as int),
            r.y == fdiv(self.y as int, s as int),
            r.z == fdiv(self.z as int, s as int),
    {
        V3 { x: div_fp(self.x, s), y: div_fp(self.y, s), z: div_fp(self.z, s) }
    }

    /// Dot product.
    pub fn dot(v1: &V3, v2: &V3) -> (r: i64)
        requires
            bounded(*v1, 0x4000_0000_0000_0000),
            bounded(*v2, 0x4000_0000_0000_0000),
            fits64(dot_spec(*v1, *v2)),
        ensures
            r == dot_spec(*v1, *v2),
    {
        let px: i128 = wide_mul(v1.x, v2.x);
        let py: i128 = wide_mul(v1.y, v2.y);
        let pz: i128 = wide_mul(v1.z, v2.z);
        proof {
            assert(mag(px as int) <= 0x4000_0000_0000_0000 * 0x4000_0000_0000_0000 && mag(
                py as int) <= 0x4000_0000_0000_0000 * 0x4000_0000_0000_0000 && mag(pz as int)
                <= 0x4000_0000_0000_0000 * 0x4000_0000_0000_0000) by (nonlinear_arith)
                requires
                    px == (v1.x as int) * (v2.x as int),
                    py == (v1.y as int) * (v2.y as int),
                    pz == (v1.z as int) * (v2.z as int),
                    mag(v1.x as int) <= 0x4000_0000_0000_0000,
                    mag(v1.y as int) <= 0x4000_0000_0000_0000,
                    mag(v1.z as int) <= 0x4000_0000_0000_0000,
                    mag(v2.x as int) <= 0x4000_0000_0000_0000,
                    mag(v2.y as int) <= 0x4000_0000_0000_0000,
                    mag(v2.z as int) <= 0x4000_0000_0000_0000,
            ;
        }
        let s: i128 = px + py + pz;
        let q: i128 = div_trunc(s, SCALE as i128);
        q as i64
    }

    /// Squared length: the dot product with itself. Never negative.
    pub fn squared_length(&self) -> (r: i64)
        requires
            bounded(*self, 0x4000_0000_0000_0000),
            fits64(dot_spec(*self, *self)),
        ensures
            r == dot_spec(*self, *self),
            r >= 0,
    {
        proof {
            lemma_dot_self_nonneg(*self);
        }
        V3::dot(self, self)
    }

    /// Length: the integer square root of the squared length, on the grid.
    pub fn length(&self) -> (r: i64)
        requires
            bounded(*self, 0x4000_0000_0000_0000),
            fits64(dot_spec(*self, *self)),
        ensures
            r == sqrt_of(dot_spec(*self, *self) * (SCALE as int)),
            is_sqrt(dot_spec(*self, *self) * (SCALE as int), r as int),
    {
        proof {
            lemma_dot_self_nonneg(*self);
        }
        let sq: i64 = self.squared_length();
        let r = sqrt_fp(sq);
        proof {
            let n = dot_spec(*self, *self) * (SCALE as int);
            lemma_sqrt_exists(n);
            lemma_sqrt_unique(n, r as int, sqrt_of(n));
        }
        r
    }

    /// The vector scaled to unit length. The caller must keep the vector away
    /// from zero; a zero direction is a documented precondition violation of
    /// the whole pipeline, not a runtime case.
    pub fn unit(&self) -> (r: V3)
        requires
            bounded(*self, 0x4000_0000_0000_0000),
            fits64(dot_spec(*self, *self)),
            dot_spec(*self, *self) >= 1,
        ensures
            ({
                let l = sqrt_of(dot_spec(*self, *self) * (SCALE as int));
                &&& l >= 1
                &&& r.x == fdiv(self.x as int, l)
                &&& r.y == fdiv(self.y as int, l)
                &&& r.z == fdiv(self.z as int, l)
            }),
            r == unit_spec(*self),
            bounded(r, (SCALE as int) * (SCALE as int) + SCALE as int),
    {
        let l: i64 = self.length();
        proof {
            let d = dot_spec(*self, *self);
            let n = d * (SCALE as int);
            let s = SCALE as int;
            assert(n >= s && n <= d * s + s - 1) by (nonlinear_arith)
                requires
                    n == d * s,
                    d >= 1,
                    s == 10000,
            ;
            if l == 0 {
                assert((l as int + 1) * (l as int + 1) == 1);
                assert(false);
            }
            assert(l >= 1);
            let sum = dot_sum(*self);
            assert((self.x as int) * (self.x as int) >= 0 && (self.y as int) * (self.y as int)
                >= 0 && (self.z as int) * (self.z as int) >= 0) by (nonlinear_arith);
            lemma_unit_component(self.x as int, l as int, d, sum);
            lemma_unit_component(self.y as int, l as int, d, sum);
            lemma_unit_component(self.z as int, l as int, d, sum);
        }
        self.div_s(l)
    }

    /// Cross product.
    pub fn cross(v1: &V3, v2: &V3) -> (r: V3)
        requires
            fits64(fmul(v1.y as int, v2.z as int) - fmul(v1.z as int, v2.y as int)),
            fits64(fmul(v1.z as int, v2.x as int) - fmul(v1.x as int, v2.z as int)),
            fits64(fmul(v1.x as int, v2.y as int) - fmul(v1.y as int, v2.x as int)),
            fits64(fmul(v1.y as int, v2.z as int)),
            fits64(fmul(v1.z as int, v2.y as int)),
            fits64(fmul(v1.z as int, v2.x as int)),
            fits64(fmul(v1.x as int, v2.z as int)),
            fits64(fmul(v1.x as int, v2.y as int)),
            fits64(fmul(v1.y as int, v2.x as int)),
        ensures
            r.x == fmul(v1.y as int, v2.z as int) - fmul(v1.z as int, v2.y as int),
            r.y == fmul(v1.z as int, v2.x as int) - fmul(v1.x as int, v2.z as int),
            r.z == fmul(v1.x as int, v2.y as int) - fmul(v1.y as int, v2.x as int),
    {
        V3 {
            x: mul_fp(v1.y, v2.z) - mul_fp(v1.z, v2.y),
            y: mul_fp(v1.z, v2.x) - mul_fp(v1.x, v2.z),
            z: mul_fp(v1.x, v2.y) - mul_fp(v1.y, v2.x),
        }
    }

    /// Mirror reflection of `v` about the normal `n`: `v - 2 (v . n) n`.
    pub fn reflect(v: &V3, n: &V3) -> (r: V3)
        requires
            bounded(*v, 0x4000_0000_0000_0000),
            bounded(*n, 0x4000_0000_0000_0000),
            fits64(dot_spec(*v, *n)),
            fits64(2 * dot_spec(*v, *n)),
            fits64(fmul(2 * dot_spec(*v, *n), n.x as int)),
            fits64(fmul(2 * dot_spec(*v, *n), n.y as int)),
            fits64(fmul(2 * dot_spec(*v, *n), n.z as int)),
            fits64(v.x - fmul(2 * dot_spec(*v, *n), n.x as int)),
            fits64(v.y - fmul(2 * dot_spec(*v, *n), n.y as int)),
            fits64(v.z - fmul(2 * dot_spec(*v, *n), n.z as int)),
        ensures
            r.x == v.x - fmul(2 * dot_spec(*v, *n), n.x as int),
            r.y == v.y - fmul(2 * dot_spec(*v, *n), n.y as int),
            r.z == v.z - fmul(2 * dot_spec(*v, *n), n.z as int),
            r == reflect_spec(*v, *n),
    {
        let d: i64 = V3::dot(v, n);
        let k: i64 = 2 * d;
        v.sub(n.scale(k))
    }

    /// Reinterpret the axes as color channels.
    pub fn to_color(&self) -> (r: Color)
        ensures
            r.r == self.x,
            r.g == self.y,
            r.b == self.z,
    {
        Color { r: self.x, g: self.y, b: self.z }
    }

    /// Component accessors, for picking a sort axis by index.
    pub fn get_x(v: &V3) -> (r: i64)
        ensures
            r == v.x,
    {
        v.x
    }

    /// See `get_x`.
    pub fn get_y(v: &V3) -> (r: i64)
        ensures
            r == v.y,
    {
        v.y
    }

    /// See `get_x`.
    pub fn get_z(v: &V3) -> (r: i64)
        ensures
            r == v.z,
    {
        v.z
    }
}

impl Color {
    /// Reinterpret the channels as vector axes.
    pub fn to_v3(&self) -> (r: V3)
        ensures
            r.x == self.r,
            r.y == self.g,
            r.z == self.b,
    {
        V3 { x: self.r, y: self.g, z: self.b }
    }
}

/// How close the grid unit vector is to unit length: its squared length
/// never falls more than a few grid steps short of one, and for inputs at
/// least a tenth of a unit long it also cannot overshoot one by more than
/// two percent. (Inputs barely above the admission floor can overshoot
/// substantially: the one division that forms the squared length loses up
/// to one grid step of the input's squared length.)
pub proof fn lemma_unit_norm(v: V3)
    requires
        fits64(dot_spec(v, v)),
        dot_spec(v, v) >= 1,
    ensures
        dot_spec(unit_spec(v), unit_spec(v)) >= SCALE - 6,
        dot_spec(v, v) >= 100 ==> dot_spec(unit_spec(v), unit_spec(v)) <= SCALE + 200,
{
    let s = SCALE as int;
    let sum = dot_sum(v);
    let d = dot_spec(v, v);
    let n = d * s;
    lemma_dot_self_nonneg(v);
    assert(d == sum / s);
    assert(d * s <= sum && d * s > sum - s) by {
        assert(s * (sum / s) + sum % s == sum);
        assert(0 <= sum % s < s);
        assert(d * s == s * (sum / s)) by (nonlinear_arith)
            requires
                d == sum / s,
        ;
    }
    lemma_sqrt_exists(n);
    let l = sqrt_of(n);
    assert(n >= s) by (nonlinear_arith)
        requires
            n == d * s,
            d >= 1,
            s == 10000,
    ;
    assert(l >= 1) by {
        if l == 0 {
            assert((l + 1) * (l + 1) == 1) by (nonlinear_arith)
                requires
                    l == 0,
            ;
        }
    }
    assert(l * l <= sum);
    assert(l * l > sum - s - 2 * l - 1) by {
        assert((l + 1) * (l + 1) == l * l + 2 * l + 1) by (nonlinear_arith);
    }
    let m1 = mag(v.x as int);
    let m2 = mag(v.y as int);
    let m3 = mag(v.z as int);
    lemma_mag_sq(v.x as int);
    lemma_mag_sq(v.y as int);
    lemma_mag_sq(v.z as int);
    assert(m1 * m1 + m2 * m2 + m3 * m3 == sum);
    assert(m1 * m1 <= sum && m2 * m2 <= sum && m3 * m3 <= sum) by (nonlinear_arith)
        requires
            m1 * m1 + m2 * m2 + m3 * m3 == sum,
            m1 * m1 >= 0 && m2 * m2 >= 0 && m3 * m3 >= 0,
    ;
    lemma_unit_component(v.x as int, l, d, sum);
    lemma_unit_component(v.y as int, l, d, sum);
    lemma_unit_component(v.z as int, l, d, sum);
    let u = unit_spec(v);
    assert(u.x as int == fdiv(v.x as int, l) && u.y as int == fdiv(v.y as int, l) && u.z as int
        == fdiv(v.z as int, l));
    let w1 = mag(u.x as int);
    let w2 = mag(u.y as int);
    let w3 = mag(u.z as int);
    lemma_mag_sq(u.x as int);
    lemma_mag_sq(u.y as int);
    lemma_mag_sq(u.z as int);
    let usum = dot_sum(u);
    assert(w1 * w1 + w2 * w2 + w3 * w3 == usum);
    lemma_unit_comp_bounds(v.x as int, l, m1, w1);
    lemma_unit_comp_bounds(v.y as int, l, m2, w2);
    lemma_unit_comp_bounds(v.z as int, l, m3, w3);
    assert(usum * (l * l) == w1 * w1 * (l * l) + w2 * w2 * (l * l) + w3 * w3 * (l * l))
        by (nonlinear_arith)
        requires
            usum == w1 * w1 + w2 * w2 + w3 * w3,
    ;
    assert(sum * (s * s) == m1 * m1 * (s * s) + m2 * m2 * (s * s) + m3 * m3 * (s * s))
        by (nonlinear_arith)
        requires
            m1 * m1 + m2 * m2 + m3 * m3 == sum,
    ;
    assert(usum * (l * l) <= sum * (s * s));
    assert((s * s) * sum == sum * (s * s)) by (nonlinear_arith);
    assert(2 * (m1 * s * l) + 2 * (m2 * s * l) + 2 * (m3 * s * l) == 2 * s * l * (m1 + m2
        + m3)) by (nonlinear_arith);
    assert(usum * (l * l) >= sum * (s * s) - 2 * (m1 * s * l) - 2 * (m2 * s * l) - 2 * (m3 * s
        * l));
    assert(usum * (l * l) >= (s * s) * sum - 2 * s * l * (m1 + m2 + m3));
    assert(m1 * l <= sum && m2 * l <= sum && m3 * l <= sum) by (nonlinear_arith)
        requires
            m1 * m1 <= sum && m2 * m2 <= sum && m3 * m3 <= sum,
            l * l <= sum,
            m1 >= 0 && m2 >= 0 && m3 >= 0 && l >= 0,
    ;
    assert(usum * (l * l) >= s * sum * (s - 6)) by (nonlinear_arith)
        requires
            usum * (l * l) >= (s * s) * sum - 2 * s * l * (m1 + m2 + m3),
            m1 * l <= sum && m2 * l <= sum && m3 * l <= sum,
            m1 >= 0 && m2 >= 0 && m3 >= 0 && l >= 1 && s == 10000,
            sum >= 0,
    ;
    assert(usum >= s * (s - 6)) by (nonlinear_arith)
        requires
            usum * (l * l) >= s * sum * (s - 6),
            l * l <= sum,
            sum >= s,
            s == 10000,
            usum >= 0,
    ;
    assert(dot_spec(u, u) == usum / s);
    assert(usum / s >= s - 6) by {
        vstd::arithmetic::div_mod::lemma_div_is_ordered(s * (s - 6), usum, s);
        assert((s * (s - 6)) / s == s - 6) by (nonlinear_arith)
            requires
                s == 10000,
        ;
    }
    if d >= 100 {
        assert(sum >= 100 * s);
        assert(5000 * l <= sum + 6_250_000) by (nonlinear_arith)
            requires
                l * l <= sum,
        ;
        assert(2500 * (l * l) >= 2499 * sum - 31_250_000) by (nonlinear_arith)
            requires
                l * l > sum - s - 2 * l - 1,
                5000 * l <= sum + 6_250_000,
                s == 10000,
        ;
        assert(10200 * (l * l) >= 10000 * sum) by (nonlinear_arith)
            requires
                2500 * (l * l) >= 2499 * sum - 31_250_000,
                sum >= 100 * s,
                s == 10000,
        ;
        assert((usum / s) * s <= usum) by {
            assert(s * (usum / s) + usum % s == usum);
            assert(0 <= usum % s);
            assert((usum / s) * s == s * (usum / s)) by (nonlinear_arith);
        }
        assert(usum / s <= s + 200) by (nonlinear_arith)
            requires
                (usum / s) * s <= usum,
                usum * (l * l) <= (s * s) * sum,
                10200 * (l * l) >= 10000 * sum,
                l >= 1,
                sum >= 0,
                usum >= 0,
                s == 10000,
        ;
    }
}

/// A magnitude squares to the same value as its number.
proof fn lemma_mag_sq(x: int)
    ensures
        mag(x) * mag(x) == x * x,
        mag(x) >= 0,
{
    if x < 0 {
        assert((-x) * (-x) == x * x) by (nonlinear_arith);
    }
}

/// The one-component bounds of the grid division by the root.
proof fn lemma_unit_comp_bounds(x: int, l: int, m: int, w: int)
    requires
        l >= 1,
        m == mag(x),
        w == mag(fdiv(x, l)),
    ensures
        w * w * (l * l) <= m * m * ((SCALE as int) * (SCALE as int)),
        w * w * (l * l) >= m * m * ((SCALE as int) * (SCALE as int)) - 2 * (m * (SCALE as int) * l),
        w * l >= m * (SCALE as int) - l,
        w >= 0,
{
    let s = SCALE as int;
    lemma_tdiv_mag(x * s, l);
    assert(mag(x * s) == m * s) by {
        lemma_mag_sq(x);
        assert(mag(x * s) == mag(x) * mag(s)) by (nonlinear_arith);
    }
    assert(w == (m * s) / l);
    assert(w * l <= m * s && w * l >= m * s - l + 1) by {
        vstd::arithmetic::div_mod::lemma_fundamental_div_mod(m * s, l);
        assert(0 <= (m * s) % l < l);
        assert(w * l == l * ((m * s) / l)) by (nonlinear_arith)
            requires
                w == (m * s) / l,
        ;
    }
    assert(w * w * (l * l) <= m * m * (s * s)) by (nonlinear_arith)
        requires
            0 <= w * l <= m * s,
    ;
    assert(w * w * (l * l) >= m * m * (s * s) - 2 * (m * s * l)) by (nonlinear_arith)
        requires
            w * l >= m * s - l,
            w >= 0,
            l >= 1,
            m >= 0,
            s == 10000,
    ;
}

/// A vector's dot product with itself is never negative.
pub proof fn lemma_dot_self_nonneg(v: V3)
    ensures
        dot_spec(v, v) >= 0,
        dot_spec(v, v) == tdiv(dot_sum(v), SCALE as int),
        dot_sum(v) >= 0,
{
    assert((v.x as int) * (v.x as int) >= 0 && (v.y as int) * (v.y as int) >= 0 && (v.z as int)
        * (v.z as int) >= 0) by (nonlinear_arith);
    let s = dot_sum(v);
    lemma_tdiv_mag(s, SCALE as int);
    assert(mag(s) == s);
}

/// When `l` is the grid square root of a vector's squared length, dividing a
/// component by `l` lands well inside the fixed-point range.
proof fn lemma_unit_component(x: int, l: int, d: int, sum: int)
    requires
        l >= 1,
        is_sqrt(d * (SCALE as int), l),
        d == tdiv(sum, SCALE as int),
        sum >= x * x,
        sum >= 0,
    ensures
        mag(fdiv(x, l)) <= (SCALE as int) * (SCALE as int) + SCALE as int,
        fits64(fdiv(x, l)),
{
    let s = SCALE as int;
    assert(mag(sum) == sum);
    assert(d == sum / s);
    assert(d * s >= sum - s + 1);
    assert(x * x <= (l + 1) * (l + 1) + s - 1);
    let m = mag(x);
    assert(m * m == x * x) by {
        if x < 0 {
            assert(m == -x);
            assert((-x) * (-x) == x * x) by (nonlinear_arith);
        }
    }
    assert(m <= l + s) by (nonlinear_arith)
        requires
            m >= 0,
            l >= 1,
            s == 10000,
            m * m <= (l + 1) * (l + 1) + s - 1,
    ;
    assert(mag(x * s) == m * s) by (nonlinear_arith)
        requires
            s > 0,
            m == mag(x),
    ;
    assert((l + s) * s <= l * (s * s + s)) by (nonlinear_arith)
        requires
            l >= 1,
            s == 10000,
    ;
    lemma_tdiv_mono_mag(x * s, l, l * (s * s + s));
    assert(l * (s * s + s) / l == s * s + s) by (nonlinear_arith)
        requires
            l >= 1,
    ;
}

/// A bound on each factor bounds the product's magnitude.
pub proof fn lemma_prod_mag(x: int, y: int, mx: int, my: int)
    requires
        mag(x) <= mx,
        mag(y) <= my,
    ensures
        mag(x * y) <= mx * my,
{
    assert(mag(x * y) == mag(x) * mag(y)) by (nonlinear_arith);
    assert(mag(x) * mag(y) <= mx * my) by (nonlinear_arith)
        requires
            0 <= mag(x) <= mx,
            0 <= mag(y) <= my,
    ;
}

/// A bound on each vector, together with a scale multiple, bounds their dot
/// product by a stated limit.
pub proof fn lemma_dot_le(a: V3, b: V3, ma: int, mb: int, l: int)
    requires
        0 <= ma,
        0 <= mb,
        bounded(a, ma),
        bounded(b, mb),
        3 * (ma * mb) <= l * (SCALE as int),
    ensures
        mag(dot_spec(a, b)) <= l,
{
    let s = (a.x as int) * (b.x as int) + (a.y as int) * (b.y as int) + (a.z as int) * (
    b.z as int);
    lemma_prod_mag(a.x as int, b.x as int, ma, mb);
    lemma_prod_mag(a.y as int, b.y as int, ma, mb);
    lemma_prod_mag(a.z as int, b.z as int, ma, mb);
    crate::fixed::lemma_tdiv_le(s, SCALE as int, l);
}

/// A bound on each vector bounds their dot product.
pub proof fn lemma_dot_bound(a: V3, b: V3, ma: int, mb: int)
    requires
        0 <= ma,
        0 <= mb,
        bounded(a, ma),
        bounded(b, mb),
    ensures
        mag(dot_spec(a, b)) <= 3 * ma * mb / (SCALE as int),
        mag(dot_spec(a, b)) <= 3 * ma * mb,
{
    let s = (a.x as int) * (b.x as int) + (a.y as int) * (b.y as int) + (a.z as int) * (
    b.z as int);
    lemma_prod_mag(a.x as int, b.x as int, ma, mb);
    lemma_prod_mag(a.y as int, b.y as int, ma, mb);
    lemma_prod_mag(a.z as int, b.z as int, ma, mb);
    assert(3 * ma * mb == 3 * (ma * mb)) by (nonlinear_arith);
    lemma_tdiv_mono_mag(s, SCALE as int, 3 * ma * mb);
    assert(3 * ma * mb / (SCALE as int) <= 3 * ma * mb) by (nonlinear_arith)
        requires
            3 * ma * mb >= 0,
    ;
}

} // verus!
