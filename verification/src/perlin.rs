//! Lattice-valued procedural noise: three random permutations of the byte
//! range and one table of random grid scalars, indexed by quantized
//! coordinates. Nearest-lattice-point noise, with no smoothing between cells.

use vstd::prelude::*;

verus! {

use crate::fixed::{SCALE, fmul, fits64, mag, mul_fp, lemma_tdiv_mono_mag};
use crate::v3color::{V3, Color};
use crate::rng::random_u64;

/// Swapping two positions of a sequence keeps its multiset of elements.
pub proof fn lemma_swap_multiset<A>(s: Seq<A>, i: int, j: int)
    requires
        0 <= i < s.len(),
        0 <= j < s.len(),
    ensures
        s.update(i, s[j]).update(j, s[i]).to_multiset() =~= s.to_multiset(),
{
    broadcast use vstd::seq_lib::group_to_multiset_ensures;

    if i == j {
        assert(s.update(i, s[j]).update(j, s[i]) =~= s);
    } else {
        let s1 = s.update(i, s[j]);
        let s2 = s1.update(j, s[i]);
        vstd::seq_lib::to_multiset_update(s, i, s[j]);
        vstd::seq_lib::to_multiset_update(s1, j, s[i]);
        assert(s1[j] == s[j]);
        assert(s2.to_multiset() =~= s.to_multiset());
    }
}

/// A grayscale noise texture backed by lattice tables.
pub struct NoiseTexture {
    pub ranfloat: Vec<i64>,
    pub perm_x: Vec<u8>,
    pub perm_y: Vec<u8>,
    pub perm_z: Vec<u8>,
}

impl NoiseTexture {
    /// The tables have their full shape and every stored scalar lies inside
    /// the unit interval of the grid.
    pub open spec fn wf(&self) -> bool {
        &&& self.ranfloat@.len() == 256
        &&& self.perm_x@.len() == 256
        &&& self.perm_y@.len() == 256
        &&& self.perm_z@.len() == 256
        &&& forall|i: int| 0 <= i < 256 ==> 0 <= #[trigger] self.ranfloat@[i] < SCALE
    }
}

/// The lattice cell index of one coordinate: the coordinate scaled by four,
/// truncated to a whole number, clamped below at zero and folded into the
/// byte range.
pub open spec fn lattice_index_spec(c: i64) -> int {
    let q = fmul(4, c as int);
    if q < 0 {
        0
    } else {
        q % 256
    }
}

/// A table of 256 scalars drawn uniformly from the unit interval of the grid.
pub fn perlin_generate() -> (r: Vec<i64>)
    ensures
        r@.len() == 256,
        forall|i: int| 0 <= i < 256 ==> 0 <= #[trigger] r@[i] < SCALE,
{
    let mut v: Vec<i64> = Vec::new();
    let mut i: usize = 0;
    while i < 256
        invariant
            i <= 256,
            v@.len() == i,
            forall|j: int| 0 <= j < i ==> 0 <= #[trigger] v@[j] < SCALE,
        decreases 256 - i,
    {
        let raw: u64 = random_u64();
        let s: i64 = (raw % (SCALE as u64)) as i64;
        v.push(s);
        i = i + 1;
    }
    v
}

/// Whether a table is a permutation of the byte range.
pub open spec fn is_byte_permutation(s: Seq<u8>) -> bool {
    &&& s.len() == 256
    &&& s.to_multiset() == Seq::<u8>::new(256, |i: int| i as u8).to_multiset()
}

/// A shuffled permutation of the byte range, built by a backward swap pass
/// over the identity table.
pub fn perlin_generate_perm() -> (r: Vec<u8>)
    ensures
        r@.len() == 256,
        is_byte_permutation(r@),
{
    let mut v: Vec<u8> = Vec::new();
    let mut i: usize = 0;
    while i < 256
        invariant
            i <= 256,
            v@.len() == i,
            v@ == Seq::<u8>::new(i as nat, |k: int| k as u8),
        decreases 256 - i,
    {
        proof {
            assert(Seq::<u8>::new((i + 1) as nat, |k: int| k as u8) =~= Seq::<u8>::new(
                i as nat,
                |k: int| k as u8,
            ).push(i as u8));
        }
        v.push(i as u8);
        i = i + 1;
    }
    proof {
        assert(v@ =~= Seq::<u8>::new(256, |k: int| k as u8));
    }
    let mut i: usize = 255;
    while i >= 1
        invariant
            i <= 255,
            v@.len() == 256,
            v@.to_multiset() == Seq::<u8>::new(256, |k: int| k as u8).to_multiset(),
        decreases i,
    {
        let raw: u64 = random_u64();
        let j: usize = (raw % ((i + 1) as u64)) as usize;
        proof {
            assert(j <= i);
            lemma_swap_multiset(v@, i as int, j as int);
        }
        let a: u8 = v[i];
        let b: u8 = v[j];
        v.set(i, b);
        v.set(j, a);
        i = i - 1;
    }
    v
}

impl NoiseTexture {
    /// Whether the tables have their full shape: the executable mirror of
    /// `wf`, for callers that must test before calling.
    pub fn check_wf(&self) -> (r: bool)
        ensures
            r == self.wf(),
    {
        if !(self.ranfloat.len() == 256 && self.perm_x.len() == 256 && self.perm_y.len() == 256
            && self.perm_z.len() == 256) {
            return false;
        }
        let mut i: usize = 0;
        while i < 256
            invariant
                i <= 256,
                self.ranfloat@.len() == 256,
                forall|j: int| 0 <= j < i ==> 0 <= #[trigger] self.ranfloat@[j] < SCALE,
            decreases 256 - i,
        {
            let v: i64 = self.ranfloat[i];
            if !(0 <= v && v < SCALE) {
                return false;
            }
            i = i + 1;
        }
        true
    }

    /// Draw fresh tables.
    pub fn new() -> (r: NoiseTexture)
        ensures
            r.wf(),
            is_byte_permutation(r.perm_x@),
            is_byte_permutation(r.perm_y@),
            is_byte_permutation(r.perm_z@),
    {
        NoiseTexture {
            ranfloat: perlin_generate(),
            perm_x: perlin_generate_perm(),
            perm_y: perlin_generate_perm(),
            perm_z: perlin_generate_perm(),
        }
    }

    /// The noise scalar at a point: permute each axis's lattice index, fold
    /// the three by exclusive or, and look up the scalar table.
    pub fn noise(&self, p: &V3) -> (r: i64)
        requires
            self.wf(),
            fits64(4 * (p.x as int)),
            fits64(4 * (p.y as int)),
            fits64(4 * (p.z as int)),
        ensures
            r == self.ranfloat@[(self.perm_x@[lattice_index_spec(p.x)] ^ self.perm_y@[
                lattice_index_spec(p.y)] ^ self.perm_z@[lattice_index_spec(p.z)]) as int],
            0 <= r < SCALE,
    {
        let i: usize = lattice_index(p.x);
        let j: usize = lattice_index(p.y);
        let k: usize = lattice_index(p.z);
        let folded: u8 = self.perm_x[i] ^ self.perm_y[j] ^ self.perm_z[k];
        self.ranfloat[folded as usize]
    }

    /// The texture value: the noise scalar on all three channels.
    pub fn value(&self, p: &V3) -> (r: Color)
        requires
            self.wf(),
            fits64(4 * (p.x as int)),
            fits64(4 * (p.y as int)),
            fits64(4 * (p.z as int)),
        ensures
            r.r == r.g && r.g == r.b,
            r.r == self.ranfloat@[(self.perm_x@[lattice_index_spec(p.x)] ^ self.perm_y@[
                lattice_index_spec(p.y)] ^ self.perm_z@[lattice_index_spec(p.z)]) as int],
            crate::texture::color_wf(r),
    {
        let n: i64 = self.noise(p);
        Color { r: n, g: n, b: n }
    }
}

/// The lattice cell index of one coordinate.
fn lattice_index(c: i64) -> (r: usize)
    requires
        fits64(4 * (c as int)),
    ensures
        r == lattice_index_spec(c),
        r < 256,
{
    proof {
        lemma_tdiv_mono_mag(4 * (c as int), SCALE as int, mag(4 * (c as int)));
    }
    let scaled: i64 = mul_fp(4, c);
    if scaled < 0 {
        0
    } else {
        (scaled % 256) as usize
    }
}

} // verus!
