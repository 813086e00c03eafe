//! Axis-aligned bounding boxes and the bounding-volume hierarchy.

use vstd::prelude::*;

verus! {

use crate::fixed::{SCALE, mag, fdiv, div_fp, lemma_tdiv_mono_mag};
use crate::v3color::{V3, bounded};
use crate::shapes::{Ray, Shape, HitRecord, ray_wf, shape_geom_wf, shape_box_wf, shape_box_spec,
    shape_hit_spec, closer_of, vals_of, BMAX, OMAX, TMAX};
use crate::rng::random_axis;

/// An axis-aligned bounding box, as its two corner vectors.
#[derive(Clone, Copy, Debug, PartialEq, Eq, Structural)]
pub struct Aabb {
    pub min: V3,
    pub max: V3,
}

/// A well-formed box: ordered corners inside the box bound.
pub open spec fn box_wf(b: Aabb) -> bool {
    &&& b.min.x <= b.max.x
    &&& b.min.y <= b.max.y
    &&& b.min.z <= b.max.z
    &&& bounded(b.min, BMAX as int)
    &&& bounded(b.max, BMAX as int)
}

/// The componentwise union of two boxes: the min of the mins, the max of the
/// maxes.
pub open spec fn union_spec(a: Aabb, b: Aabb) -> Aabb {
    Aabb {
        min: V3 {
            x: if a.min.x <= b.min.x {
                a.min.x
            } else {
                b.min.x
            },
            y: if a.min.y <= b.min.y {
                a.min.y
            } else {
                b.min.y
            },
            z: if a.min.z <= b.min.z {
                a.min.z
            } else {
                b.min.z
            },
        },
        max: V3 {
            x: if a.max.x >= b.max.x {
                a.max.x
            } else {
                b.max.x
            },
            y: if a.max.y >= b.max.y {
                a.max.y
            } else {
                b.max.y
            },
            z: if a.max.z >= b.max.z {
                a.max.z
            } else {
                b.max.z
            },
        },
    }
}

/// A point inside a box, inclusively.
pub open spec fn contains_point(b: Aabb, p: V3) -> bool {
    &&& b.min.x <= p.x <= b.max.x
    &&& b.min.y <= p.y <= b.max.y
    &&& b.min.z <= p.z <= b.max.z
}

/// A box entirely inside another.
pub open spec fn contains_box(outer: Aabb, inner: Aabb) -> bool {
    &&& outer.min.x <= inner.min.x && inner.max.x <= outer.max.x
    &&& outer.min.y <= inner.min.y && inner.max.y <= outer.max.y
    &&& outer.min.z <= inner.min.z && inner.max.z <= outer.max.z
}

/// The union of two boxes contains each of them, contains every point of
/// each of them, and is the smallest box that does so.
pub proof fn lemma_union_containment(a: Aabb, b: Aabb)
    ensures
        contains_box(union_spec(a, b), a),
        contains_box(union_spec(a, b), b),
        forall|p: V3|
            contains_point(a, p) || contains_point(b, p) ==> #[trigger] contains_point(
                union_spec(a, b),
                p,
            ),
        forall|c: Aabb|
            contains_box(c, a) && contains_box(c, b) ==> #[trigger] contains_box(
                c,
                union_spec(a, b),
            ),
{
}

/// A box contains another exactly when it contains every point of it; in
/// particular containment is transitive through the union.
pub proof fn lemma_contains_transitive(outer: Aabb, inner: Aabb, p: V3)
    requires
        contains_box(outer, inner),
        contains_point(inner, p),
    ensures
        contains_point(outer, p),
{
}

/// The union of boxes is commutative.
pub proof fn lemma_union_commutative(a: Aabb, b: Aabb)
    ensures
        union_spec(a, b) == union_spec(b, a),
{
}

/// The union of boxes is associative.
pub proof fn lemma_union_associative(a: Aabb, b: Aabb, c: Aabb)
    ensures
        union_spec(union_spec(a, b), c) == union_spec(a, union_spec(b, c)),
{
}

/// One axis of the slab test: intersect the parameter interval with the
/// slab between the two box planes of this axis. A ray parallel to the
/// planes passes exactly when its origin lies between them.
pub open spec fn slab_axis(bmin: int, bmax: int, o: int, d: int, tmin: int, tmax: int) -> Option<
    (int, int),
> {
    if d == 0 {
        if o < bmin || o > bmax {
            None
        } else {
            Some((tmin, tmax))
        }
    } else {
        let ta = fdiv(bmin - o, d);
        let tb = fdiv(bmax - o, d);
        let t0 = if d < 0 {
            tb
        } else {
            ta
        };
        let t1 = if d < 0 {
            ta
        } else {
            tb
        };
        let n0 = if t0 > tmin {
            t0
        } else {
            tmin
        };
        let n1 = if t1 < tmax {
            t1
        } else {
            tmax
        };
        if n1 <= n0 {
            None
        } else {
            Some((n0, n1))
        }
    }
}

/// The slab test over all three axes: the parameter interval survives each
/// axis's narrowing.
pub open spec fn aabb_hit_spec(b: Aabb, ray: Ray, tmin: i64, tmax: i64) -> bool {
    match slab_axis(
        b.min.x as int,
        b.max.x as int,
        ray.origin.x as int,
        ray.direction.x as int,
        tmin as int,
        tmax as int,
    ) {
        None => false,
        Some(p1) => match slab_axis(
            b.min.y as int,
            b.max.y as int,
            ray.origin.y as int,
            ray.direction.y as int,
            p1.0,
            p1.1,
        ) {
            None => false,
            Some(p2) => slab_axis(
                b.min.z as int,
                b.max.z as int,
                ray.origin.z as int,
                ray.direction.z as int,
                p2.0,
                p2.1,
            ) matches Some(_),
        },
    }
}

/// Narrow the running parameter interval by one axis's slab.
fn check_dimension(bmin: i64, bmax: i64, o: i64, d: i64, tmin: &mut i64, tmax: &mut i64) -> (hit:
    bool)
    requires
        mag(bmin as int) <= BMAX as int,
        mag(bmax as int) <= BMAX as int,
        mag(o as int) <= OMAX as int,
    ensures
        match slab_axis(
            bmin as int,
            bmax as int,
            o as int,
            d as int,
            *old(tmin) as int,
            *old(tmax) as int,
        ) {
            Some(p) => hit && *final(tmin) == p.0 && *final(tmax) == p.1,
            None => !hit,
        },
{
    if d == 0 {
        return !(o < bmin || o > bmax);
    }
    proof {
        crate::v3color::lemma_prod_mag(
            bmin - o,
            SCALE as int,
            BMAX as int + OMAX as int,
            SCALE as int,
        );
        crate::v3color::lemma_prod_mag(
            bmax - o,
            SCALE as int,
            BMAX as int + OMAX as int,
            SCALE as int,
        );
        lemma_tdiv_mono_mag((bmin - o) * (SCALE as int), d as int, mag(
            (bmin - o) * (SCALE as int)));
        lemma_tdiv_mono_mag((bmax - o) * (SCALE as int), d as int, mag(
            (bmax - o) * (SCALE as int)));
    }
    let ta: i64 = div_fp(bmin - o, d);
    let tb: i64 = div_fp(bmax - o, d);
    let t0: i64 = if d < 0 {
        tb
    } else {
        ta
    };
    let t1: i64 = if d < 0 {
        ta
    } else {
        tb
    };
    if t0 > *tmin {
        *tmin = t0;
    }
    if t1 < *tmax {
        *tmax = t1;
    }
    *tmax > *tmin
}

impl Aabb {
    /// The union of this box with another.
    pub fn union(&self, other: &Aabb) -> (r: Aabb)
        ensures
            r == union_spec(*self, *other),
    {
        Aabb {
            min: V3 {
                x: if self.min.x <= other.min.x {
                    self.min.x
                } else {
                    other.min.x
                },
                y: if self.min.y <= other.min.y {
                    self.min.y
                } else {
                    other.min.y
                },
                z: if self.min.z <= other.min.z {
                    self.min.z
                } else {
                    other.min.z
                },
            },
            max: V3 {
                x: if self.max.x >= other.max.x {
                    self.max.x
                } else {
                    other.max.x
                },
                y: if self.max.y >= other.max.y {
                    self.max.y
                } else {
                    other.max.y
                },
                z: if self.max.z >= other.max.z {
                    self.max.z
                } else {
                    other.max.z
                },
            },
        }
    }

    /// Whether a ray's parameter interval survives the slab test against
    /// this box.
    pub fn hit(&self, ray: &Ray, t_start: i64, t_end: i64) -> (r: bool)
        requires
            box_wf(*self),
            ray_wf(*ray),
        ensures
            r == aabb_hit_spec(*self, *ray, t_start, t_end),
    {
        let mut tmin: i64 = t_start;
        let mut tmax: i64 = t_end;
        if !check_dimension(
            self.min.x,
            self.max.x,
            ray.origin.x,
            ray.direction.x,
            &mut tmin,
            &mut tmax,
        ) {
            return false;
        }
        if !check_dimension(
            self.min.y,
            self.max.y,
            ray.origin.y,
            ray.direction.y,
            &mut tmin,
            &mut tmax,
        ) {
            return false;
        }
        if !check_dimension(
            self.min.z,
            self.max.z,
            ray.origin.z,
            ray.direction.z,
            &mut tmin,
            &mut tmax,
        ) {
            return false;
        }
        true
    }
}

/// An internal node of the hierarchy: two owned children and the cached
/// union of their boxes.
pub struct BvhNode {
    pub left: Shape,
    pub right: Shape,
    pub bbox: Aabb,
}

impl BvhNode {
    /// Intersect a ray with the subtree under this node: answer nothing
    /// without visiting the children when the cached box is missed, else the
    /// closer of the two children's hits.
    pub fn hit<'a>(&'a self, ray: &Ray, tmin: i64, tmax: i64) -> (r: Option<HitRecord<'a>>)
        requires
            box_wf(self.bbox),
            shape_geom_wf(self.left),
            shape_geom_wf(self.right),
            ray_wf(*ray),
            mag(tmin as int) <= TMAX as int,
            mag(tmax as int) <= TMAX as int,
        ensures
            vals_of(r) == (if aabb_hit_spec(self.bbox, *ray, tmin, tmax) {
                closer_of(
                    shape_hit_spec(self.left, *ray, tmin, tmax),
                    shape_hit_spec(self.right, *ray, tmin, tmax),
                )
            } else {
                None::<crate::shapes::HitVals>
            }),
            r matches Some(h) ==> mag(h.t as int) <= TMAX as int && crate::v3color::bounded(
                h.p,
                OMAX as int,
            ) && crate::v3color::bounded(h.normal, crate::shapes::NMAX as int)
                && crate::material::material_wf(*h.material),
        decreases *self,
    {
        if !self.bbox.hit(ray, tmin, tmax) {
            return None;
        }
        let hit_left = self.left.hit(ray, tmin, tmax);
        let hit_right = self.right.hit(ray, tmin, tmax);
        match (hit_left, hit_right) {
            (Some(l), Some(r)) => if l.t < r.t {
                Some(l)
            } else {
                Some(r)
            },
            (Some(l), None) => Some(l),
            (None, Some(r)) => Some(r),
            (None, None) => None,
        }
    }
}

/// The sort key of a shape for the hierarchy build: the minimum coordinate
/// of its bounding box along the chosen axis.
pub open spec fn axis_key(s: Shape, axis: u8, t0: i64, t1: i64) -> int {
    let b = shape_box_spec(s, t0, t1);
    if axis == 0 {
        b.min.x as int
    } else if axis == 1 {
        b.min.y as int
    } else {
        b.min.z as int
    }
}

/// Compute a shape's sort key.
fn box_min_component(s: &Shape, axis: u8, t0: i64, t1: i64) -> (k: i64)
    requires
        shape_geom_wf(*s),
        mag(t0 as int) <= TMAX as int,
        mag(t1 as int) <= TMAX as int,
    ensures
        k == axis_key(*s, axis, t0, t1),
{
    let b: Aabb = s.bounding_box(t0, t1);
    if axis == 0 {
        V3::get_x(&b.min)
    } else if axis == 1 {
        V3::get_y(&b.min)
    } else {
        V3::get_z(&b.min)
    }
}

/// In two sequences with the same multiset of elements, every element of one
/// stands somewhere in the other.
proof fn lemma_multiset_index_map<A>(a: Seq<A>, b: Seq<A>, i: int)
    requires
        a.to_multiset() == b.to_multiset(),
        0 <= i < a.len(),
    ensures
        exists|j: int| 0 <= j < b.len() && b[j] == a[i],
{
    broadcast use vstd::seq_lib::group_to_multiset_ensures;

    assert(a.contains(a[i]));
    assert(b.to_multiset().count(a[i]) > 0);
    assert(b.contains(a[i]));
}

/// The leaf shapes of a tree, in left-to-right order.
pub open spec fn leaves(s: Shape) -> Seq<Shape>
    decreases s,
{
    match s {
        Shape::Bvh(node) => leaves(node.left) + leaves(node.right),
        _ => seq![s],
    }
}

/// The leaf shapes of a list of trees, concatenated in order.
pub open spec fn leaves_of_seq(s: Seq<Shape>) -> Seq<Shape>
    decreases s.len(),
{
    if s.len() == 0 {
        Seq::empty()
    } else {
        leaves(s.first()) + leaves_of_seq(s.drop_first())
    }
}

/// Flattening distributes over concatenation.
proof fn lemma_leaves_concat(x: Seq<Shape>, y: Seq<Shape>)
    ensures
        leaves_of_seq(x + y) =~= leaves_of_seq(x) + leaves_of_seq(y),
    decreases x.len(),
{
    if x.len() == 0 {
        assert(x + y =~= y);
        assert(leaves_of_seq(x) =~= Seq::empty());
    } else {
        assert((x + y).first() == x.first());
        assert((x + y).drop_first() =~= x.drop_first() + y);
        lemma_leaves_concat(x.drop_first(), y);
        assert(leaves_of_seq(x + y) =~= leaves(x.first()) + (leaves_of_seq(x.drop_first())
            + leaves_of_seq(y)));
    }
}

/// The flattened leaf multiset of a list of trees depends only on the
/// list's multiset of trees.
proof fn lemma_leaves_perm(a: Seq<Shape>, b: Seq<Shape>)
    requires
        a.to_multiset() == b.to_multiset(),
    ensures
        leaves_of_seq(a).to_multiset() == leaves_of_seq(b).to_multiset(),
    decreases a.len(),
{
    broadcast use vstd::seq_lib::group_to_multiset_ensures;
    broadcast use vstd::multiset::group_multiset_axioms;
    broadcast use vstd::seq_lib::lemma_multiset_commutative;

    if a.len() == 0 {
        assert(b.to_multiset().len() == 0);
        assert(b.len() == 0);
    } else {
        let x = a.first();
        assert(a.contains(x));
        assert(b.to_multiset().count(x) > 0);
        assert(b.contains(x));
        let j = choose|j: int| 0 <= j < b.len() && b[j] == x;
        let a1 = a.drop_first();
        let b1 = b.remove(j);
        assert(a.drop_first() =~= a.remove(0));
        vstd::seq_lib::to_multiset_remove(a, 0);
        vstd::seq_lib::to_multiset_remove(b, j);
        assert(a1.to_multiset() =~= b1.to_multiset());
        lemma_leaves_perm(a1, b1);
        lemma_leaves_extract(b, j);
        assert(leaves_of_seq(a).to_multiset() =~= leaves(x).to_multiset().add(
            leaves_of_seq(a1).to_multiset(),
        ));
        assert(leaves_of_seq(a).to_multiset() =~= leaves_of_seq(b).to_multiset());
    }
}

/// Pulling one tree out of the list pulls its leaves out of the flattening.
proof fn lemma_leaves_extract(s: Seq<Shape>, j: int)
    requires
        0 <= j < s.len(),
    ensures
        leaves_of_seq(s).to_multiset() == leaves(s[j]).to_multiset().add(
            leaves_of_seq(s.remove(j)).to_multiset(),
        ),
{
    broadcast use vstd::multiset::group_multiset_axioms;
    broadcast use vstd::seq_lib::lemma_multiset_commutative;

    let pre = s.take(j);
    let post = s.skip(j + 1);
    assert(s =~= pre + (seq![s[j]] + post));
    lemma_leaves_concat(pre, seq![s[j]] + post);
    lemma_leaves_concat(seq![s[j]], post);
    assert(leaves_of_seq(seq![s[j]]) =~= leaves(s[j])) by {
        assert(seq![s[j]].drop_first() =~= Seq::<Shape>::empty());
        assert(leaves_of_seq(Seq::<Shape>::empty()) =~= Seq::<Shape>::empty());
        assert(leaves(s[j]) + Seq::<Shape>::empty() =~= leaves(s[j]));
    }
    assert(s.remove(j) =~= pre + post);
    lemma_leaves_concat(pre, post);
    assert(leaves_of_seq(s).to_multiset() =~= leaves_of_seq(pre).to_multiset().add(
        leaves(s[j]).to_multiset().add(leaves_of_seq(post).to_multiset()),
    ));
    assert(leaves_of_seq(s.remove(j)).to_multiset() =~= leaves_of_seq(pre).to_multiset().add(
        leaves_of_seq(post).to_multiset(),
    ));
    assert(leaves_of_seq(s).to_multiset() =~= leaves(s[j]).to_multiset().add(
        leaves_of_seq(s.remove(j)).to_multiset(),
    ));
}

/// Every hit a tree answers is the hit of one of its leaf shapes: the
/// hierarchy can cull, but it never invents a hit. (The converse — that no
/// leaf hit is culled — rests on the boxes containing the leaf geometry,
/// which the grid model does not prove.)
pub proof fn lemma_tree_hit_from_leaf(s: Shape, ray: Ray, tmin: i64, tmax: i64)
    ensures
        shape_hit_spec(s, ray, tmin, tmax) matches Some(h) ==> exists|j: int|
            0 <= j < leaves(s).len() && #[trigger] shape_hit_spec(leaves(s)[j], ray, tmin, tmax)
                == Some(h),
    decreases s,
{
    match s {
        Shape::Bvh(node) => {
            lemma_tree_hit_from_leaf(node.left, ray, tmin, tmax);
            lemma_tree_hit_from_leaf(node.right, ray, tmin, tmax);
            if let Some(h) = shape_hit_spec(s, ray, tmin, tmax) {
                let lh = shape_hit_spec(node.left, ray, tmin, tmax);
                let rh = shape_hit_spec(node.right, ray, tmin, tmax);
                assert(lh == Some(h) || rh == Some(h));
                let nl = leaves(node.left).len() as int;
                if lh == Some(h) {
                    let j = choose|j: int|
                        0 <= j < leaves(node.left).len() && #[trigger] shape_hit_spec(
                            leaves(node.left)[j],
                            ray,
                            tmin,
                            tmax,
                        ) == Some(h);
                    assert(leaves(s)[j] == leaves(node.left)[j]);
                    assert(shape_hit_spec(leaves(s)[j], ray, tmin, tmax) == Some(h));
                } else {
                    let j = choose|j: int|
                        0 <= j < leaves(node.right).len() && #[trigger] shape_hit_spec(
                            leaves(node.right)[j],
                            ray,
                            tmin,
                            tmax,
                        ) == Some(h);
                    assert(leaves(s)[j + nl] == leaves(node.right)[j]);
                    assert(shape_hit_spec(leaves(s)[j + nl], ray, tmin, tmax) == Some(h));
                }
            }
        },
        _ => {
            if let Some(h) = shape_hit_spec(s, ray, tmin, tmax) {
                assert(leaves(s)[0] == s);
                assert(shape_hit_spec(leaves(s)[0], ray, tmin, tmax) == Some(h));
            }
        },
    }
}

/// Flattening a one-tree list yields that tree's leaves.
proof fn lemma_leaves_singleton(x: Shape)
    ensures
        leaves_of_seq(seq![x]) =~= leaves(x),
{
    assert(seq![x].drop_first() =~= Seq::<Shape>::empty());
    assert(leaves_of_seq(Seq::<Shape>::empty()) =~= Seq::<Shape>::empty());
    assert(leaves(x) + Seq::<Shape>::empty() =~= leaves(x));
}

/// The leaves of a built node are the flattened leaves of the list the
/// halves came from, up to permutation.
proof fn lemma_leaves_build(
    orig: Seq<Shape>,
    lefts: Seq<Shape>,
    rights: Seq<Shape>,
    left: Shape,
    right: Shape,
)
    requires
        orig.to_multiset() == (lefts + rights).to_multiset(),
        leaves(left).to_multiset() == leaves_of_seq(lefts).to_multiset(),
        leaves(right).to_multiset() == leaves_of_seq(rights).to_multiset(),
    ensures
        (leaves(left) + leaves(right)).to_multiset() == leaves_of_seq(orig).to_multiset(),
{
    broadcast use vstd::multiset::group_multiset_axioms;
    broadcast use vstd::seq_lib::lemma_multiset_commutative;

    lemma_leaves_concat(lefts, rights);
    lemma_leaves_perm(orig, lefts + rights);
    assert((leaves(left) + leaves(right)).to_multiset() =~= leaves_of_seq(orig).to_multiset());
}

/// A two-element sequence with the same multiset as another is that
/// sequence or its swap.
proof fn lemma_perm2(a: Seq<Shape>, b: Seq<Shape>)
    requires
        a.len() == 2,
        b.len() == 2,
        a.to_multiset() == b.to_multiset(),
    ensures
        (b[0] == a[0] && b[1] == a[1]) || (b[0] == a[1] && b[1] == a[0]),
{
    broadcast use vstd::seq_lib::group_to_multiset_ensures;
    broadcast use vstd::multiset::group_multiset_axioms;

    assert(b.contains(b[0]));
    assert(a.to_multiset().count(b[0]) > 0);
    assert(a.contains(b[0]));
    vstd::seq_lib::to_multiset_remove(a, 0);
    vstd::seq_lib::to_multiset_remove(a, 1);
    vstd::seq_lib::to_multiset_remove(b, 0);
    assert(a.remove(0) =~= seq![a[1]]);
    assert(a.remove(1) =~= seq![a[0]]);
    assert(b.remove(0) =~= seq![b[1]]);
    if b[0] == a[0] {
        assert(b.remove(0).to_multiset() =~= a.remove(0).to_multiset());
        assert(seq![b[1]][0] == b[1]);
        assert(seq![b[1]].contains(b[1]));
        assert(seq![a[1]].to_multiset().count(b[1]) > 0);
        assert(seq![a[1]].contains(b[1]));
        assert(b[1] == a[1]);
    } else {
        let i = choose|i: int| 0 <= i < a.len() && a[i] == b[0];
        assert(i == 1);
        assert(b.remove(0).to_multiset() =~= a.remove(1).to_multiset());
        assert(seq![b[1]][0] == b[1]);
        assert(seq![b[1]].contains(b[1]));
        assert(seq![a[0]].to_multiset().count(b[1]) > 0);
        assert(seq![a[0]].contains(b[1]));
        assert(b[1] == a[0]);
    }
}

/// A box that covers the two halves of a permutation of some shapes covers
/// each of those shapes, and is covered by any box that covers them all.
proof fn lemma_bvh_cover(
    orig: Seq<Shape>,
    lefts: Seq<Shape>,
    rights: Seq<Shape>,
    lbox: Aabb,
    rbox: Aabb,
    t0: i64,
    t1: i64,
)
    requires
        orig.to_multiset() == (lefts + rights).to_multiset(),
        forall|k: int|
            0 <= k < lefts.len() ==> contains_box(
                lbox,
                shape_box_spec(#[trigger] lefts[k], t0, t1),
            ),
        forall|k: int|
            0 <= k < rights.len() ==> contains_box(
                rbox,
                shape_box_spec(#[trigger] rights[k], t0, t1),
            ),
        forall|bx: Aabb|
            (forall|k: int|
                0 <= k < lefts.len() ==> contains_box(
                    bx,
                    shape_box_spec(#[trigger] lefts[k], t0, t1),
                )) ==> #[trigger] contains_box(bx, lbox),
        forall|bx: Aabb|
            (forall|k: int|
                0 <= k < rights.len() ==> contains_box(
                    bx,
                    shape_box_spec(#[trigger] rights[k], t0, t1),
                )) ==> #[trigger] contains_box(bx, rbox),
    ensures
        forall|k: int|
            0 <= k < orig.len() ==> contains_box(
                union_spec(lbox, rbox),
                shape_box_spec(#[trigger] orig[k], t0, t1),
            ),
        forall|bx: Aabb|
            (forall|k: int|
                0 <= k < orig.len() ==> contains_box(
                    bx,
                    shape_box_spec(#[trigger] orig[k], t0, t1),
                )) ==> #[trigger] contains_box(bx, union_spec(lbox, rbox)),
{
    let sorted = lefts + rights;
    lemma_union_containment(lbox, rbox);
    assert forall|k: int| 0 <= k < orig.len() implies contains_box(
        union_spec(lbox, rbox),
        shape_box_spec(#[trigger] orig[k], t0, t1),
    ) by {
        lemma_multiset_index_map(orig, sorted, k);
        let j = choose|j: int| 0 <= j < sorted.len() && sorted[j] == orig[k];
        if j < lefts.len() {
            assert(sorted[j] == lefts[j]);
        } else {
            assert(sorted[j] == rights[j - lefts.len()]);
        }
    }
    assert forall|bx: Aabb|
        (forall|k: int|
            0 <= k < orig.len() ==> contains_box(
                bx,
                shape_box_spec(#[trigger] orig[k], t0, t1),
            )) implies #[trigger] contains_box(bx, union_spec(lbox, rbox)) by {
        assert forall|k: int| 0 <= k < lefts.len() implies contains_box(
            bx,
            shape_box_spec(#[trigger] lefts[k], t0, t1),
        ) by {
            assert(lefts[k] == sorted[k]);
            lemma_multiset_index_map(sorted, orig, k);
            let j = choose|j: int| 0 <= j < orig.len() && orig[j] == sorted[k];
            assert(contains_box(bx, shape_box_spec(orig[j], t0, t1)));
        }
        assert forall|k: int| 0 <= k < rights.len() implies contains_box(
            bx,
            shape_box_spec(#[trigger] rights[k], t0, t1),
        ) by {
            assert(rights[k] == sorted[k + lefts.len()]);
            lemma_multiset_index_map(sorted, orig, k + lefts.len());
            let j = choose|j: int| 0 <= j < orig.len() && orig[j] == sorted[k + lefts.len()];
            assert(contains_box(bx, shape_box_spec(orig[j], t0, t1)));
        }
        assert(contains_box(bx, lbox));
        assert(contains_box(bx, rbox));
    }
}

/// Box well-formedness carries over any permutation of the shapes.
proof fn lemma_perm_box_wf(orig: Seq<Shape>, sorted: Seq<Shape>, t0: i64, t1: i64)
    requires
        orig.to_multiset() == sorted.to_multiset(),
        forall|k: int| 0 <= k < orig.len() ==> shape_box_wf(#[trigger] orig[k], t0, t1),
    ensures
        forall|k: int| 0 <= k < sorted.len() ==> shape_box_wf(#[trigger] sorted[k], t0, t1),
{
    assert forall|k: int| 0 <= k < sorted.len() implies shape_box_wf(
        #[trigger] sorted[k],
        t0,
        t1,
    ) by {
        lemma_multiset_index_map(sorted, orig, k);
        let j = choose|j: int| 0 <= j < orig.len() && orig[j] == sorted[k];
    }
}

/// Sort shapes in place by their box minimum along one axis, by repeated
/// extraction of the least remaining key.
pub fn sort_shapes_by_axis(v: &mut Vec<Shape>, axis: u8, t0: i64, t1: i64)
    requires
        forall|k: int| 0 <= k < old(v)@.len() ==> shape_geom_wf(#[trigger] old(v)@[k]),
        mag(t0 as int) <= TMAX as int,
        mag(t1 as int) <= TMAX as int,
    ensures
        final(v)@.len() == old(v)@.len(),
        final(v)@.to_multiset() == old(v)@.to_multiset(),
        forall|k: int| 0 <= k < final(v)@.len() ==> shape_geom_wf(#[trigger] final(v)@[k]),
        forall|i: int, j: int|
            0 <= i < j < final(v)@.len() ==> axis_key(#[trigger] final(v)@[i], axis, t0, t1)
                <= axis_key(#[trigger] final(v)@[j], axis, t0, t1),
{
    broadcast use vstd::seq_lib::group_to_multiset_ensures;
    broadcast use vstd::multiset::group_multiset_axioms;

    let ghost orig = v@;
    let mut out: Vec<Shape> = Vec::new();
    proof {
        assert(out@.to_multiset().add(v@.to_multiset()) =~= orig.to_multiset());
    }
    while v.len() > 0
        invariant
            out@.len() + v@.len() == orig.len(),
            out@.to_multiset().add(v@.to_multiset()) == orig.to_multiset(),
            forall|k: int| 0 <= k < v@.len() ==> shape_geom_wf(#[trigger] v@[k]),
            forall|k: int| 0 <= k < out@.len() ==> shape_geom_wf(#[trigger] out@[k]),
            forall|i: int, j: int|
                0 <= i < j < out@.len() ==> axis_key(#[trigger] out@[i], axis, t0, t1) <= axis_key(
                    #[trigger] out@[j],
                    axis,
                    t0,
                    t1,
                ),
            forall|i: int, j: int|
                0 <= i < out@.len() && 0 <= j < v@.len() ==> axis_key(
                    #[trigger] out@[i],
                    axis,
                    t0,
                    t1,
                ) <= axis_key(#[trigger] v@[j], axis, t0, t1),
            mag(t0 as int) <= TMAX as int,
            mag(t1 as int) <= TMAX as int,
        decreases v@.len(),
    {
        let mut m: usize = 0;
        let mut kmin: i64 = box_min_component(&v[0], axis, t0, t1);
        let mut scan: usize = 1;
        while scan < v.len()
            invariant
                v@.len() > 0,
                m < v@.len(),
                1 <= scan <= v@.len(),
                m < scan,
                kmin == axis_key(v@[m as int], axis, t0, t1),
                forall|k: int|
                    0 <= k < scan ==> kmin <= axis_key(#[trigger] v@[k], axis, t0, t1),
                forall|k: int| 0 <= k < v@.len() ==> shape_geom_wf(#[trigger] v@[k]),
                mag(t0 as int) <= TMAX as int,
                mag(t1 as int) <= TMAX as int,
            decreases v@.len() - scan,
        {
            let kc: i64 = box_min_component(&v[scan], axis, t0, t1);
            if kc < kmin {
                m = scan;
                kmin = kc;
            }
            scan = scan + 1;
        }
        let ghost vbefore = v@;
        let x: Shape = v.remove(m);
        proof {
            vstd::seq_lib::to_multiset_remove(vbefore, m as int);
            vstd::seq_lib::to_multiset_build(out@, x);
            assert(vbefore.contains(x));
            vstd::seq_lib::to_multiset_contains(vbefore, x);
            assert(vbefore.to_multiset().count(x) > 0);
            assert(out@.push(x).to_multiset().add(v@.to_multiset()) =~= orig.to_multiset());
            assert(forall|j: int|
                0 <= j < v@.len() ==> axis_key(#[trigger] v@[j], axis, t0, t1) >= axis_key(
                    x,
                    axis,
                    t0,
                    t1,
                ));
        }
        out.push(x);
    }
    *v = out;
}

impl BvhNode {
    /// Build a bounding-volume hierarchy over a set of shapes: choose an axis at
    /// random, sort by the boxes' minima along it, and split at the median
    /// recursively; a single shape stands unwrapped, and every built node caches
    /// the union of its children's boxes. The result covers exactly the boxes of
    /// the given shapes: its box contains each of them, and any box containing
    /// all of them contains it.
    #[verifier::rlimit(100)]
    pub fn compute_shapes_bvh(shapes: Vec<Shape>, t0: i64, t1: i64) -> (r: Shape)
        requires
            shapes@.len() >= 1,
            forall|k: int| 0 <= k < shapes@.len() ==> shape_geom_wf(#[trigger] shapes@[k]),
            forall|k: int| 0 <= k < shapes@.len() ==> shape_box_wf(#[trigger] shapes@[k], t0, t1),
            mag(t0 as int) <= TMAX as int,
            mag(t1 as int) <= TMAX as int,
        ensures
            shape_geom_wf(r),
            shape_box_wf(r, t0, t1),
            forall|k: int|
                0 <= k < shapes@.len() ==> contains_box(
                    shape_box_spec(r, t0, t1),
                    shape_box_spec(#[trigger] shapes@[k], t0, t1),
                ),
            forall|bx: Aabb|
                (forall|k: int|
                    0 <= k < shapes@.len() ==> contains_box(
                        bx,
                        shape_box_spec(#[trigger] shapes@[k], t0, t1),
                    )) ==> #[trigger] contains_box(bx, shape_box_spec(r, t0, t1)),
            leaves(r).to_multiset() == leaves_of_seq(shapes@).to_multiset(),
            shapes@.len() == 1 ==> r == shapes@[0],
            shapes@.len() == 2 ==> (r matches Shape::Bvh(node) && ((node.left == shapes@[0]
                && node.right == shapes@[1]) || (node.left == shapes@[1] && node.right
                == shapes@[0]))),
            shapes@.len() >= 2 ==> r matches Shape::Bvh(_),
        decreases shapes@.len(),
    {
        let ghost orig = shapes@;
        let mut shapes = shapes;
        let axis: u8 = random_axis();
        sort_shapes_by_axis(&mut shapes, axis, t0, t1);
        let ghost sorted = shapes@;
        proof {
            lemma_perm_box_wf(orig, sorted, t0, t1);
        }
        if shapes.len() == 1 {
            let r = shapes.pop().unwrap();
            proof {
                assert(r == sorted[0]);
                lemma_multiset_index_map(sorted, orig, 0);
                let j = choose|j: int| 0 <= j < orig.len() && orig[j] == sorted[0];
                assert(orig.len() == 1);
                assert(orig[0] == r);
                assert(orig.drop_first() =~= Seq::<Shape>::empty());
                assert(leaves_of_seq(Seq::<Shape>::empty()) =~= Seq::<Shape>::empty());
                assert(leaves_of_seq(orig) =~= leaves(r));
            }
            return r;
        }
        if shapes.len() == 2 {
            let snd: Shape = shapes.pop().unwrap();
            let fst: Shape = shapes.pop().unwrap();
            let bl: Aabb = fst.bounding_box(t0, t1);
            let br: Aabb = snd.bounding_box(t0, t1);
            proof {
                assert(fst == sorted[0] && snd == sorted[1]);
                assert(sorted =~= seq![fst] + seq![snd]);
                lemma_bvh_cover(orig, seq![fst], seq![snd], bl, br, t0, t1);
                lemma_perm2(orig, sorted);
                lemma_leaves_singleton(fst);
                lemma_leaves_singleton(snd);
                lemma_leaves_build(orig, seq![fst], seq![snd], fst, snd);
            }
            let bbox: Aabb = bl.union(&br);
            let r = Shape::Bvh(Box::new(BvhNode { left: fst, right: snd, bbox }));
            proof {
                assert(leaves(r) =~= leaves(fst) + leaves(snd));
            }
            return r;
        }
        let mid: usize = shapes.len() / 2;
        let rest: Vec<Shape> = shapes.split_off(mid);
        proof {
            assert(forall|k: int|
                0 <= k < shapes@.len() ==> shapes@[k] == #[trigger] sorted[k]);
            assert(forall|k: int|
                0 <= k < rest@.len() ==> rest@[k] == #[trigger] sorted[k + mid]);
        }
        let ghost lefts = shapes@;
        let ghost rights = rest@;
        let left: Shape = BvhNode::compute_shapes_bvh(shapes, t0, t1);
        let right: Shape = BvhNode::compute_shapes_bvh(rest, t0, t1);
        let bl: Aabb = left.bounding_box(t0, t1);
        let br: Aabb = right.bounding_box(t0, t1);
        proof {
            assert(sorted =~= lefts + rights);
            lemma_bvh_cover(orig, lefts, rights, bl, br, t0, t1);
            lemma_leaves_build(orig, lefts, rights, left, right);
        }
        let bbox: Aabb = bl.union(&br);
        let r = Shape::Bvh(Box::new(BvhNode { left, right, bbox }));
        proof {
            assert(leaves(r) =~= leaves(left) + leaves(right));
        }
        r
    }
}

} // verus!
