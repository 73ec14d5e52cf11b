//! The bounding volume hierarchy: a binary tree of boxes over the spheres of a scene.
use vstd::prelude::*;
use vstd::seq_lib::{lemma_multiset_commutative, group_to_multiset_ensures};
use vstd::multiset::{Multiset, group_multiset_axioms};
use crate::aabb::{Aabb, slabs_from, lemma_contains_trans, lemma_join_contains, lemma_slabs_widen};
use crate::hittable::{HitRecord, scan, first_below, lemma_scan_order_free, lemma_scan_finds_nearest};
use crate::objects::Sphere;
use crate::random;
use crate::ray::Ray;

verus! {

/// A tree over spheres: a leaf holds one, an inner node two subtrees and the
/// union of their boxes.
#[derive(Debug)]
pub enum BVHNode {
    Node { left: Box<BVHNode>, right: Box<BVHNode>, aabb: Aabb },
    Leaf(Sphere),
}

/// The key that spheres are sorted by: the low corner of their box along `axis`.
pub open spec fn sort_key(s: Sphere, axis: int) -> int {
    s.spec_aabb().min.at_axis(axis) as int
}

/// The spheres are in nondecreasing order of their key along `axis`.
pub open spec fn sorted_by_axis(s: Seq<Sphere>, axis: int) -> bool {
    forall|i: int, j: int| 0 <= i < j < s.len() ==> sort_key(s[i], axis) <= sort_key(s[j], axis)
}

/// The keys are in nondecreasing order.
pub open spec fn keys_sorted(k: Seq<i64>) -> bool {
    forall|i: int, j: int| 0 <= i < j < k.len() ==> k[i] <= k[j]
}

/// Inserts `k` into the sorted `keys` after every key that is not above it,
/// and returns where.
fn insert_key(keys: &mut Vec<i64>, k: i64) -> (pos: usize)
    requires
        keys_sorted(old(keys)@),
    ensures
        pos <= old(keys)@.len(),
        final(keys)@ == old(keys)@.insert(pos as int, k),
        keys_sorted(final(keys)@),
{
    let mut pos: usize = 0;
    while pos < keys.len() && keys[pos] <= k
        invariant
            pos <= keys@.len(),
            forall|j: int| 0 <= j < pos ==> keys@[j] <= k,
        decreases keys@.len() - pos,
    {
        pos += 1;
    }
    let ghost before = keys@;
    keys.insert(pos, k);
    assert forall|i: int, j: int| 0 <= i < j < keys@.len() implies keys@[i] <= keys@[j] by {
        if i < pos && j > pos {
            assert(before[i] <= k);
        }
        if i == pos && j > pos {
            assert(before[pos as int] > k);
            assert(before[pos as int] <= before[j - 1]);
        }
    }
    pos
}

/// Sorts the spheres by the low corner of their boxes along `axis`, by
/// insertion after every sphere whose key is not higher, so that of equal
/// keys the earlier stays first.
pub fn sort_by_axis(v: &mut Vec<Sphere>, axis: usize)
    requires
        axis < 3,
    ensures
        final(v)@.to_multiset() == old(v)@.to_multiset(),
        final(v)@.len() == old(v)@.len(),
        sorted_by_axis(final(v)@, axis as int),
{
    let mut sorted: Vec<Sphere> = Vec::new();
    let mut keys: Vec<i64> = Vec::new();
    proof {
        broadcast use group_to_multiset_ensures, group_multiset_axioms;

        assert(sorted@.to_multiset().add(v@.to_multiset()) =~= old(v)@.to_multiset());
    }
    while v.len() > 0
        invariant
            axis < 3,
            sorted@.to_multiset().add(v@.to_multiset()) == old(v)@.to_multiset(),
            sorted@.len() + v@.len() == old(v)@.len(),
            keys@.len() == sorted@.len(),
            forall|i: int| 0 <= i < keys@.len() ==> keys@[i] == sort_key(#[trigger] sorted@[i], axis as int),
            keys_sorted(keys@),
        decreases v@.len(),
    {
        let ghost before = v@;
        let ghost before_sorted = sorted@;
        let s = v.remove(0);
        let k = s.aabb().min.axis(axis);
        let pos = insert_key(&mut keys, k);
        sorted.insert(pos, s);
        proof {
            broadcast use group_to_multiset_ensures, group_multiset_axioms;

            assert(v@ == before.remove(0));
            assert(before_sorted.insert(pos as int, s).to_multiset() == before_sorted.to_multiset().insert(s));
            assert(before.remove(0).to_multiset() == before.to_multiset().remove(before[0]));
            assert(sorted@.to_multiset().add(v@.to_multiset()) =~= before_sorted.to_multiset().add(
                before.to_multiset(),
            ));
            assert forall|i: int| 0 <= i < keys@.len() implies keys@[i] == sort_key(
                #[trigger] sorted@[i],
                axis as int,
            ) by {
                if i > pos {
                    assert(sorted@[i] == before_sorted[i - 1]);
                }
            }
        }
    }
    proof {
        broadcast use group_to_multiset_ensures, group_multiset_axioms;

        assert(v@.to_multiset() =~= Multiset::empty());
        assert(sorted@.to_multiset().add(v@.to_multiset()) =~= sorted@.to_multiset());
        assert forall|i: int, j: int| 0 <= i < j < sorted@.len() implies sort_key(sorted@[i], axis as int)
            <= sort_key(sorted@[j], axis as int) by {
            assert(keys@[i] == sort_key(sorted@[i], axis as int));
            assert(keys@[j] == sort_key(sorted@[j], axis as int));
        }
    }
    *v = sorted;
}

/// Along `axis`, no sphere of `l` has a higher key than any sphere of `r`.
pub open spec fn split_along(l: Seq<Sphere>, r: Seq<Sphere>, axis: int) -> bool {
    forall|i: int, j: int| 0 <= i < l.len() && 0 <= j < r.len() ==> sort_key(l[i], axis) <= sort_key(r[j], axis)
}

/// Trees over the two halves of a sorted sequence hold its spheres between
/// them, as many as each half, and split along the sorting axis.
proof fn lemma_halves(sorted: Seq<Sphere>, mid: int, axis: int, l: Seq<Sphere>, r: Seq<Sphere>)
    requires
        0 <= mid <= sorted.len(),
        sorted_by_axis(sorted, axis),
        l.to_multiset() == sorted.subrange(0, mid).to_multiset(),
        r.to_multiset() == sorted.subrange(mid, sorted.len() as int).to_multiset(),
    ensures
        (l + r).to_multiset() == sorted.to_multiset(),
        l.len() == mid,
        r.len() == sorted.len() - mid,
        split_along(l, r, axis),
{
    broadcast use group_to_multiset_ensures;

    let lo = sorted.subrange(0, mid);
    let hi = sorted.subrange(mid, sorted.len() as int);
    lemma_multiset_commutative(l, r);
    lemma_multiset_commutative(lo, hi);
    assert(lo + hi =~= sorted);
    assert(l.len() == l.to_multiset().len() && lo.len() == lo.to_multiset().len());
    assert(r.len() == r.to_multiset().len() && hi.len() == hi.to_multiset().len());
    lemma_sorted_split(sorted, mid, axis, l, r);
}

/// Reordering the two halves of a sorted sequence keeps them split.
proof fn lemma_sorted_split(sorted: Seq<Sphere>, mid: int, axis: int, l: Seq<Sphere>, r: Seq<Sphere>)
    requires
        0 <= mid <= sorted.len(),
        sorted_by_axis(sorted, axis),
        l.to_multiset() == sorted.subrange(0, mid).to_multiset(),
        r.to_multiset() == sorted.subrange(mid, sorted.len() as int).to_multiset(),
    ensures
        split_along(l, r, axis),
{
    broadcast use group_to_multiset_ensures;

    let lo = sorted.subrange(0, mid);
    let hi = sorted.subrange(mid, sorted.len() as int);
    assert forall|i: int, j: int| 0 <= i < l.len() && 0 <= j < r.len() implies sort_key(l[i], axis) <= sort_key(
        r[j],
        axis,
    ) by {
        assert(l.to_multiset().count(l[i]) > 0);
        assert(r.to_multiset().count(r[j]) > 0);
        assert(lo.contains(l[i]));
        assert(hi.contains(r[j]));
        let a = choose|a: int| 0 <= a < lo.len() && lo[a] == l[i];
        let b = choose|b: int| 0 <= b < hi.len() && hi[b] == r[j];
        assert(sorted[a] == l[i]);
        assert(sorted[mid + b] == r[j]);
    }
}

impl BVHNode {
    /// The box of the node.
    pub open spec fn spec_aabb(self) -> Aabb {
        match self {
            BVHNode::Node { aabb, .. } => aabb,
            BVHNode::Leaf(s) => s.spec_aabb(),
        }
    }

    /// Each inner node's box is the union of its children's boxes.
    pub open spec fn wf(self) -> bool
        decreases self,
    {
        match self {
            BVHNode::Node { left, right, aabb } => aabb == left.spec_aabb().spec_join(right.spec_aabb())
                && left.wf() && right.wf(),
            BVHNode::Leaf(s) => true,
        }
    }

    /// The spheres at the leaves, left to right.
    pub open spec fn leaves(self) -> Seq<Sphere>
        decreases self,
    {
        match self {
            BVHNode::Node { left, right, .. } => left.leaves() + right.leaves(),
            BVHNode::Leaf(s) => seq![s],
        }
    }

    /// Every leaf's box lies within the box of this node and of each node on
    /// the way down to it.
    pub open spec fn boxes_nested(self) -> bool
        decreases self,
    {
        match self {
            BVHNode::Node { left, right, aabb } => {
                &&& forall|i: int| 0 <= i < self.leaves().len() ==> aabb.contains_box(#[trigger] self.leaves()[i].spec_aabb())
                &&& left.boxes_nested()
                &&& right.boxes_nested()
            },
            BVHNode::Leaf(s) => true,
        }
    }

    /// The traversal: the sphere hit and the parameter of the hit, or `None`.
    /// A node whose box the ray misses is not entered. Within an inner node,
    /// the right subtree is searched only up to the left subtree's hit, and
    /// its hit, being nearer, is preferred.
    pub open spec fn spec_hit(self, ray: Ray, tmin: int, tmax: int) -> Option<(Sphere, int)>
        decreases self,
    {
        if !slabs_from(self.spec_aabb(), ray, 0, tmin, tmax) {
            None
        } else {
            match self {
                BVHNode::Leaf(s) => match s.hit_t(ray, tmin, tmax) {
                    Some(t) => Some((s, t)),
                    None => None,
                },
                BVHNode::Node { left, right, .. } => {
                    let hit_left = left.spec_hit(ray, tmin, tmax);
                    let tmax2 = match hit_left {
                        Some((_, t)) => t,
                        None => tmax,
                    };
                    let hit_right = right.spec_hit(ray, tmin, tmax2);
                    if hit_right.is_some() {
                        hit_right
                    } else {
                        hit_left
                    }
                },
            }
        }
    }

    /// Builds the tree over the spheres, which it takes out of `hittables`:
    /// one sphere makes a leaf, two a node over two leaves; more are sorted
    /// along an axis drawn at random and split at the middle.
    pub fn new(hittables: &mut Vec<Sphere>) -> (r: BVHNode)
        requires
            old(hittables).len() > 0,
        ensures
            r.wf(),
            r.leaves().to_multiset() == old(hittables)@.to_multiset(),
            final(hittables)@.len() == 0,
            old(hittables).len() == 1 ==> r == BVHNode::Leaf(old(hittables)@[0]),
            old(hittables).len() == 2 ==> match r {
                BVHNode::Node { left, right, .. } => *left == BVHNode::Leaf(old(hittables)@[0])
                    && *right == BVHNode::Leaf(old(hittables)@[1]),
                BVHNode::Leaf(_) => false,
            },
            old(hittables).len() > 2 ==> match r {
                BVHNode::Node { left, right, .. } => {
                    &&& left.leaves().len() == old(hittables).len() / 2
                    &&& right.leaves().len() == old(hittables).len() - old(hittables).len() / 2
                    &&& exists|axis: int| 0 <= axis < 3 && split_along(left.leaves(), right.leaves(), axis)
                },
                BVHNode::Leaf(_) => false,
            },
        decreases old(hittables)@.len(),
    {
        let n = hittables.len();
        if n == 1 {
            let ghost all = hittables@;
            let s = hittables.pop().unwrap();
            assert(seq![s] =~= all);
            BVHNode::Leaf(s)
        } else if n == 2 {
            let ghost all = hittables@;
            let left = hittables.remove(0);
            let right = hittables.remove(0);
            let aabb = left.aabb().join(&right.aabb());
            let r = BVHNode::Node { left: Box::new(BVHNode::Leaf(left)), right: Box::new(BVHNode::Leaf(right)), aabb };
            proof {
                reveal_with_fuel(BVHNode::leaves, 2);
                reveal_with_fuel(BVHNode::wf, 2);
                assert(r.leaves() =~= all);
            }
            r
        } else {
            let axis = random::random_rng(0, 3) as usize;
            let ghost all = hittables@;
            sort_by_axis(hittables, axis);
            let ghost sorted = hittables@;
            proof {
                broadcast use group_to_multiset_ensures;

                assert(sorted.len() == n);
            }
            let mut right_hittables = hittables.split_off(n / 2);
            assert(sorted == hittables@ + right_hittables@);
            let left = BVHNode::new(hittables);
            let right = BVHNode::new(&mut right_hittables);
            let aabb = left.aabb().join(&right.aabb());
            let r = BVHNode::Node { left: Box::new(left), right: Box::new(right), aabb };
            proof {
                lemma_halves(sorted, (n / 2) as int, axis as int, left.leaves(), right.leaves());
                assert(r.leaves() == left.leaves() + right.leaves());
                assert(split_along(left.leaves(), right.leaves(), axis as int));
            }
            r
        }
    }

    /// The box of the node.
    pub fn aabb(&self) -> (r: Aabb)
        ensures
            r == self.spec_aabb(),
    {
        match self {
            BVHNode::Node { aabb, .. } => *aabb,
            BVHNode::Leaf(s) => s.aabb(),
        }
    }

    /// The nearest hit among the leaves, found by the traversal.
    pub fn hit<'a>(&'a self, ray: &Ray, ray_tmin: i64, ray_tmax: i64) -> (r: Option<HitRecord<'a>>)
        ensures
            match self.spec_hit(*ray, ray_tmin as int, ray_tmax as int) {
                None => r.is_none(),
                Some((s, t)) => r.is_some() && s.records(r.unwrap(), *ray, t),
            },
        decreases self,
    {
        if !self.aabb().hit(ray, ray_tmin, ray_tmax) {
            return None;
        }
        match self {
            BVHNode::Leaf(s) => s.hit(ray, ray_tmin, ray_tmax),
            BVHNode::Node { left, right, .. } => {
                let hit_left = left.hit(ray, ray_tmin, ray_tmax);
                let tmax2 = match &hit_left {
                    Some(rec) => rec.t,
                    None => ray_tmax,
                };
                let hit_right = right.hit(ray, ray_tmin, tmax2);
                if hit_right.is_some() {
                    hit_right
                } else {
                    hit_left
                }
            },
        }
    }
}

/// A node's box holds the box of each of its leaves.
proof fn lemma_leaves_in_box(node: BVHNode)
    requires
        node.wf(),
    ensures
        forall|i: int|
            0 <= i < node.leaves().len() ==> node.spec_aabb().contains_box(#[trigger] node.leaves()[i].spec_aabb()),
    decreases node,
{
    match node {
        BVHNode::Leaf(s) => {
            assert(node.leaves() =~= seq![s]);
        },
        BVHNode::Node { left, right, aabb } => {
            lemma_leaves_in_box(*left);
            lemma_leaves_in_box(*right);
            lemma_join_contains(left.spec_aabb(), right.spec_aabb());
            let ls = left.leaves();
            let rs = right.leaves();
            assert forall|i: int| 0 <= i < node.leaves().len() implies aabb.contains_box(
                #[trigger] node.leaves()[i].spec_aabb(),
            ) by {
                if i < ls.len() {
                    assert(node.leaves()[i] == ls[i]);
                    lemma_contains_trans(aabb, left.spec_aabb(), ls[i].spec_aabb());
                } else {
                    assert(node.leaves()[i] == rs[i - ls.len()]);
                    lemma_contains_trans(aabb, right.spec_aabb(), rs[i - ls.len()].spec_aabb());
                }
            }
        },
    }
}

/// In a well-formed tree, such as `new` builds, the box of every sphere lies
/// within the box of each node on the path from the root down to its leaf.
pub proof fn lemma_bvh_boxes_nested(node: BVHNode)
    requires
        node.wf(),
    ensures
        node.boxes_nested(),
    decreases node,
{
    match node {
        BVHNode::Leaf(s) => {},
        BVHNode::Node { left, right, aabb } => {
            lemma_leaves_in_box(node);
            lemma_bvh_boxes_nested(*left);
            lemma_bvh_boxes_nested(*right);
        },
    }
}

/// The result of searching `b` up to the hit that an earlier search gave,
/// preferring a hit of `b`, which is then nearer: the way the traversal
/// joins its two subtrees, and the way the linear scan goes on past a prefix.
pub open spec fn combine(
    a: Option<(Sphere, int)>,
    b: Seq<Sphere>,
    ray: Ray,
    tmin: int,
    tmax: int,
) -> Option<(Sphere, int)> {
    let limit = match a {
        Some((_, t)) => t,
        None => tmax,
    };
    let hb = scan(b, ray, tmin, limit);
    if hb.is_some() {
        hb
    } else {
        a
    }
}

/// Scanning a concatenation is scanning the first part and then the second
/// up to the hit of the first.
pub proof fn lemma_scan_concat(a: Seq<Sphere>, b: Seq<Sphere>, ray: Ray, tmin: int, tmax: int)
    ensures
        scan(a + b, ray, tmin, tmax) == combine(scan(a, ray, tmin, tmax), b, ray, tmin, tmax),
    decreases b.len(),
{
    if b.len() == 0 {
        assert(a + b =~= a);
    } else {
        lemma_scan_concat(a, b.drop_last(), ray, tmin, tmax);
        assert((a + b).drop_last() =~= a + b.drop_last());
        assert((a + b).last() == b.last());
    }
}

/// A hit that the scan finds lies before `tmax`.
pub proof fn lemma_scan_below(s: Seq<Sphere>, ray: Ray, tmin: int, tmax: int)
    ensures
        match scan(s, ray, tmin, tmax) {
            Some((_, t)) => t < tmax,
            None => true,
        },
    decreases s.len(),
{
    if s.len() > 0 {
        lemma_scan_below(s.drop_last(), ray, tmin, tmax);
    }
}

/// No box test of the tree rejects an interval in which the linear scan over
/// the spheres below it finds a hit. Rounding can break this for a ray that
/// grazes a sphere where it touches its box.
pub open spec fn boxes_admit(node: BVHNode, ray: Ray, tmin: int, tmax: int) -> bool
    decreases node,
{
    &&& forall|x: int|
        x <= tmax && (#[trigger] scan(node.leaves(), ray, tmin, x)).is_some() ==> slabs_from(
            node.spec_aabb(),
            ray,
            0,
            tmin,
            x,
        )
    &&& match node {
        BVHNode::Node { left, right, .. } => boxes_admit(*left, ray, tmin, tmax) && boxes_admit(
            *right,
            ray,
            tmin,
            tmax,
        ),
        BVHNode::Leaf(_) => true,
    }
}

proof fn lemma_boxes_admit_narrow(node: BVHNode, ray: Ray, tmin: int, tmax: int, x: int)
    requires
        boxes_admit(node, ray, tmin, tmax),
        x <= tmax,
    ensures
        boxes_admit(node, ray, tmin, x),
    decreases node,
{
    match node {
        BVHNode::Node { left, right, .. } => {
            lemma_boxes_admit_narrow(*left, ray, tmin, tmax, x);
            lemma_boxes_admit_narrow(*right, ray, tmin, tmax, x);
        },
        BVHNode::Leaf(_) => {},
    }
}

/// Where no box test prunes a hit, the traversal of the tree finds the same
/// sphere at the same parameter as the linear scan over its leaves.
pub proof fn lemma_bvh_matches_scan(node: BVHNode, ray: Ray, tmin: int, tmax: int)
    requires
        boxes_admit(node, ray, tmin, tmax),
    ensures
        node.spec_hit(ray, tmin, tmax) == scan(node.leaves(), ray, tmin, tmax),
    decreases node,
{
    match node {
        BVHNode::Leaf(s) => {
            let l = node.leaves();
            assert(l =~= seq![s]);
            assert(l.drop_last() =~= Seq::<Sphere>::empty());
            assert(l.last() == s);
            assert(scan(l.drop_last(), ray, tmin, tmax).is_none());
            if !slabs_from(node.spec_aabb(), ray, 0, tmin, tmax) {
                assert(scan(l, ray, tmin, tmax).is_none());
            }
        },
        BVHNode::Node { left, right, .. } => {
            lemma_bvh_matches_scan(*left, ray, tmin, tmax);
            let hl = scan(left.leaves(), ray, tmin, tmax);
            let limit = match hl {
                Some((_, t)) => t,
                None => tmax,
            };
            lemma_scan_below(left.leaves(), ray, tmin, tmax);
            lemma_boxes_admit_narrow(*right, ray, tmin, tmax, limit);
            lemma_bvh_matches_scan(*right, ray, tmin, limit);
            lemma_scan_concat(left.leaves(), right.leaves(), ray, tmin, tmax);
        },
    }
}

/// The slab test on each sphere's own box accepts every interval, up to
/// `tmax`, in which the ray meets the sphere. Rounding can break this for a
/// ray that grazes a sphere where it touches its box.
pub open spec fn spheres_admit(s: Seq<Sphere>, ray: Ray, tmin: int, tmax: int) -> bool {
    forall|i: int, x: int|
        0 <= i < s.len() && x <= tmax && #[trigger] first_below(s[i], ray, tmin, x) ==> slabs_from(
            s[i].spec_aabb(),
            ray,
            0,
            tmin,
            x,
        )
}

/// Where every sphere's own box admits its hits, so does every box of a
/// well-formed tree over them.
pub proof fn lemma_boxes_admit_from_spheres(node: BVHNode, ray: Ray, tmin: int, tmax: int)
    requires
        node.wf(),
        spheres_admit(node.leaves(), ray, tmin, tmax),
    ensures
        boxes_admit(node, ray, tmin, tmax),
    decreases node,
{
    let l = node.leaves();
    lemma_leaves_in_box(node);
    assert forall|x: int| x <= tmax && (#[trigger] scan(l, ray, tmin, x)).is_some() implies slabs_from(
        node.spec_aabb(),
        ray,
        0,
        tmin,
        x,
    ) by {
        lemma_scan_finds_nearest(l, ray, tmin, x);
        let (y, t) = scan(l, ray, tmin, x).unwrap();
        let k = choose|k: int| 0 <= k < l.len() && l[k] == y;
        assert(first_below(l[k], ray, tmin, x));
        lemma_slabs_widen(l[k].spec_aabb(), node.spec_aabb(), ray, 0, tmin, x, tmin, x);
    }
    match node {
        BVHNode::Node { left, right, .. } => {
            let ll = left.leaves();
            let rl = right.leaves();
            assert forall|i: int, x: int|
                0 <= i < ll.len() && x <= tmax && #[trigger] first_below(ll[i], ray, tmin, x) implies slabs_from(
                ll[i].spec_aabb(),
                ray,
                0,
                tmin,
                x,
            ) by {
                assert(l[i] == ll[i]);
            }
            assert forall|i: int, x: int|
                0 <= i < rl.len() && x <= tmax && #[trigger] first_below(rl[i], ray, tmin, x) implies slabs_from(
                rl[i].spec_aabb(),
                ray,
                0,
                tmin,
                x,
            ) by {
                assert(l[ll.len() + i] == rl[i]);
            }
            lemma_boxes_admit_from_spheres(*left, ray, tmin, tmax);
            lemma_boxes_admit_from_spheres(*right, ray, tmin, tmax);
        },
        BVHNode::Leaf(_) => {},
    }
}

/// Acceleration changes no answer. Take a tree whose leaves are the spheres
/// `prims` in any order, as `new` leaves them whatever axes it drew, and a
/// ray whose hits on each sphere the slab test on that sphere's box accepts.
/// The traversal finds a hit exactly where the linear scan over `prims` finds
/// one, at the same parameter, on a sphere of `prims` that the ray first
/// meets there.
pub proof fn lemma_acceleration_equivalence(
    node: BVHNode,
    prims: Seq<Sphere>,
    ray: Ray,
    tmin: int,
    tmax: int,
)
    requires
        node.wf(),
        node.leaves().to_multiset() == prims.to_multiset(),
        spheres_admit(prims, ray, tmin, tmax),
    ensures
        node.spec_hit(ray, tmin, tmax).is_some() == scan(prims, ray, tmin, tmax).is_some(),
        match (node.spec_hit(ray, tmin, tmax), scan(prims, ray, tmin, tmax)) {
            (Some((a, t1)), Some((_, t2))) => t1 == t2 && prims.contains(a) && a.first_root(ray, tmin) == Some(
                t1,
            ),
            _ => true,
        },
{
    broadcast use group_to_multiset_ensures;

    let l = node.leaves();
    assert forall|i: int, x: int|
        0 <= i < l.len() && x <= tmax && #[trigger] first_below(l[i], ray, tmin, x) implies slabs_from(
        l[i].spec_aabb(),
        ray,
        0,
        tmin,
        x,
    ) by {
        assert(l.to_multiset().count(l[i]) > 0);
        assert(prims.contains(l[i]));
        let k = choose|k: int| 0 <= k < prims.len() && prims[k] == l[i];
        assert(first_below(prims[k], ray, tmin, x));
    }
    lemma_boxes_admit_from_spheres(node, ray, tmin, tmax);
    lemma_bvh_matches_scan(node, ray, tmin, tmax);
    lemma_scan_order_free(node.leaves(), prims, ray, tmin, tmax);
    lemma_scan_finds_nearest(node.leaves(), ray, tmin, tmax);
    if let Some((a, t1)) = node.spec_hit(ray, tmin, tmax) {
        assert(node.leaves().to_multiset().count(a) > 0);
    }
}

} // verus!
