use vstd::prelude::*;

use crate::basic::{DelayedIntersection, Ray, ray_at, ray_ok, tau_accepts, tau_t};
use crate::fixed::{T_MAX, iabs, rat_le, tdiv};
use crate::lin_alg::{Vec3, Vec3M, is_unit};
use crate::material::Material;
use crate::objects::aabb::{
    Aabb, box_contains, box_passes, box_union, box_wf, lemma_passes_wider_box,
    lemma_passes_wider_window, lemma_union_contains,
};

verus! {

/// The maximum depth for a bounding volume hierarchy.
pub const MAX_DEPTH: usize = 15;

/// The maximum number of objects in a BVH node: above this threshold the
/// node is split, while the depth limit allows it.
pub const COUNT_THRESHOLD: usize = 5;

/// Represents a container of surfaces that a bounding volume hierarchy
/// can organise, for example a triangle mesh: elements are addressed by
/// index, each with an exact rational hit time, a hit record and an
/// optional finite bounding box.
///
/// Every instance must also prove `lemma_elem_tau_ok`: an element with a
/// hit time has a box that the ray passes through within that time.  The
/// brute-force equivalence of the hierarchy traversal rests on it.
pub trait SurfaceContainer: Sized {
    /// The number of elements.
    spec fn count_spec(&self) -> int;

    /// The rational hit time of the element against a ray, independent
    /// of any traversal bound.
    spec fn elem_tau(&self, i: int, r: Ray) -> Option<(int, int)>;

    /// The normal reported for a hit of the element.
    spec fn elem_normal(&self, i: int, r: Ray) -> Vec3M;

    /// The material reported for a hit of the element.
    spec fn elem_material(&self, i: int) -> Material;

    /// The finite bounding box of the element, if it has one.
    spec fn elem_box(&self, i: int) -> Option<Aabb>;

    /// Validity of the container.
    spec fn wf(&self) -> bool;

    /// The hit time is a positive rational beyond `EPS` with moderate
    /// numerator and denominator, and the ray passes through the
    /// element's box within it.
    proof fn lemma_elem_tau_ok(&self, i: int, r: Ray)
        requires
            self.wf(),
            0 <= i < self.count_spec(),
            ray_ok(r),
            is_unit(r.dir.vec()),
            self.elem_tau(i, r).is_some(),
        ensures
            1 <= self.elem_tau(i, r).unwrap().1 <= 10_000_000_000_000_000_000_000,
            iabs(self.elem_tau(i, r).unwrap().0)
                <= 10_000_000_000_000_000_000_000_000_000_000,
            self.elem_tau(i, r).unwrap().0 > self.elem_tau(i, r).unwrap().1,
            self.elem_box(i).is_some() ==> box_passes(
                self.elem_box(i).unwrap(),
                r.origin,
                r.dir.vec(),
                self.elem_tau(i, r).unwrap().0,
                self.elem_tau(i, r).unwrap().1,
            ),
    ;

    /// An element's box is a well-formed, nonempty box.
    proof fn lemma_elem_box_ok(&self, i: int)
        requires
            self.wf(),
            0 <= i < self.count_spec(),
            self.elem_box(i).is_some(),
        ensures
            box_wf(self.elem_box(i).unwrap()),
            self.elem_box(i).unwrap().vmin.x <= self.elem_box(i).unwrap().vmax.x,
            self.elem_box(i).unwrap().vmin.y <= self.elem_box(i).unwrap().vmax.y,
            self.elem_box(i).unwrap().vmin.z <= self.elem_box(i).unwrap().vmax.z,
    ;

    /// Returns the number of objects in the container.
    fn count(&self) -> (r: usize)
        requires
            self.wf(),
        ensures
            r == self.count_spec(),
    ;

    /// Returns information about the intersection of the element and the
    /// ray, if one exists within `(EPS, t_max]`.
    fn elem_intersect(&self, idx: usize, ray: Ray, t_max: i64) -> (res: Option<
        DelayedIntersection,
    >)
        requires
            self.wf(),
            idx < self.count_spec(),
            ray_ok(ray),
            0 <= t_max <= T_MAX,
        ensures
            res.is_some() <==> tau_accepts(self.elem_tau(idx as int, ray), t_max as int),
            res.is_some() ==> {
                &&& res.unwrap().t == tau_t(self.elem_tau(idx as int, ray))
                &&& res.unwrap().inter.t == res.unwrap().t
                &&& res.unwrap().inter.point == ray_at(ray, res.unwrap().t as int)
                &&& res.unwrap().inter.normal.vec() == self.elem_normal(idx as int, ray)
                &&& res.unwrap().inter.material == self.elem_material(idx as int)
            },
            res.is_some() ==> 0 <= res.unwrap().t <= t_max,
    ;

    /// Checks whether the ray hits the element within `(EPS, t_max]`.
    fn elem_is_hit_by(&self, idx: usize, ray: Ray, t_max: i64) -> (res: bool)
        requires
            self.wf(),
            idx < self.count_spec(),
            ray_ok(ray),
            0 <= t_max <= T_MAX,
        ensures
            res == tau_accepts(self.elem_tau(idx as int, ray), t_max as int),
    ;

    /// Returns the finite axis-aligned bounding box of the element, if
    /// one exists.
    fn elem_bounding_box(&self, idx: usize) -> (res: Option<Aabb>)
        requires
            self.wf(),
            idx < self.count_spec(),
        ensures
            res == self.elem_box(idx as int),
    ;
}

/// A returned intersection record carries exactly the element's hit
/// data: its rounded hit distance, the point on the ray, the element's
/// normal and material.
pub open spec fn elem_hit_data_ok<C: SurfaceContainer>(c: &C, i: int, ray: Ray,
    d: DelayedIntersection) -> bool {
    &&& c.elem_tau(i, ray).is_some()
    &&& d.t == tau_t(c.elem_tau(i, ray))
    &&& d.inter.t == d.t
    &&& d.inter.point == ray_at(ray, d.t as int)
    &&& d.inter.normal.vec() == c.elem_normal(i, ray)
    &&& d.inter.material == c.elem_material(i)
}

/// The hit time (if any) lies at or beyond the fixed-point distance `t`.
pub open spec fn tau_ge(tau: Option<(int, int)>, t: int) -> bool {
    match tau {
        Some(p) => p.0 >= t * p.1,
        None => true,
    }
}

/// What a nearest-hit computation over the elements below a tree node
/// may return: `None` only if no such element is hit within the bound; a
/// record only if it is the exact hit data of such an element, with no
/// other one hit strictly before it.
pub open spec fn node_result_ok<C: SurfaceContainer>(c: &C, node: &BVHNode, ray: Ray, m: int,
    res: Option<DelayedIntersection>) -> bool {
    match res {
        None => forall|i: int|
            #[trigger] node_has(node, i) ==> !tau_accepts(c.elem_tau(i, ray), m),
        Some(d) => {
            &&& exists|i: int|
                #[trigger] node_has(node, i) && tau_accepts(c.elem_tau(i, ray), m)
                    && elem_hit_data_ok(c, i, ray, d)
            &&& forall|i: int|
                #[trigger] node_has(node, i) ==> tau_ge(c.elem_tau(i, ray), d.t as int)
            &&& 0 <= d.t <= m
        },
    }
}

/// The same characterization over the whole container: what any correct
/// nearest-hit search over all the elements may return.
pub open spec fn scan_result_ok<C: SurfaceContainer>(c: &C, ray: Ray, m: int, res: Option<
    DelayedIntersection,
>) -> bool {
    match res {
        None => forall|i: int|
            0 <= i < c.count_spec() ==> !tau_accepts(#[trigger] c.elem_tau(i, ray), m),
        Some(d) => {
            &&& exists|i: int|
                0 <= i < c.count_spec() && tau_accepts(#[trigger] c.elem_tau(i, ray), m)
                    && elem_hit_data_ok(c, i, ray, d)
            &&& forall|i: int|
                0 <= i < c.count_spec() ==> tau_ge(#[trigger] c.elem_tau(i, ray), d.t as int)
            &&& 0 <= d.t <= m
        },
    }
}

/// Whether the ray hits any element of the container within the bound.
pub open spec fn scan_any_hit<C: SurfaceContainer>(c: &C, ray: Ray, m: int) -> bool {
    exists|i: int| 0 <= i < c.count_spec() && tau_accepts(#[trigger] c.elem_tau(i, ray), m)
}

/// A rational bounded below by a larger integer bound is bounded below
/// by a smaller one, and dually for upper bounds.
pub proof fn lemma_rat_int_mono(n: int, dn: int, t1: int, t2: int)
    requires
        dn >= 1,
        t1 <= t2,
    ensures
        n <= t1 * dn ==> n <= t2 * dn,
        n >= t2 * dn ==> n >= t1 * dn,
{
    assert(t1 * dn <= t2 * dn) by (nonlinear_arith)
        requires
            t1 <= t2,
            dn >= 1,
    ;
}

/// A rational at or beyond the integer `t` rounds down to at least `t`.
proof fn lemma_rat_floor_ge(n: int, dn: int, t: int)
    requires
        dn >= 1,
        t >= 0,
        n >= t * dn,
    ensures
        tdiv(n, dn) >= t,
{
    assert(n >= 0) by (nonlinear_arith)
        requires
            n >= t * dn,
            t >= 0,
            dn >= 1,
    ;
    assert(n / dn >= t) by (nonlinear_arith)
        requires
            n >= t * dn,
            n >= 0,
            t >= 0,
            dn >= 1,
    ;
}

/// A nonnegative rational lies strictly below one past its rounded-down
/// value.
pub proof fn lemma_rat_floor_lt(n: int, dn: int)
    requires
        dn >= 1,
        n >= 0,
    ensures
        n < (tdiv(n, dn) + 1) * dn,
        n >= tdiv(n, dn) * dn,
        tdiv(n, dn) >= 0,
{
    crate::fixed::lemma_tdiv_nonneg(n, dn);
    assert(n < (n / dn + 1) * dn && n >= (n / dn) * dn) by (nonlinear_arith)
        requires
            n >= 0,
            dn >= 1,
    ;
}

/// The tree of a bounding volume hierarchy: every node carries the box
/// around all the elements below it.
pub struct BVHNode {
    /// The box around every element below this node.
    pub bounding_box: Aabb,
    /// The leaf elements, or the two children.
    pub node: BVHTreeNode,
}

pub enum BVHTreeNode {
    Leaf { objects: Vec<usize> },
    Branch { left: Box<BVHNode>, right: Box<BVHNode> },
}

/// Whether a list of indices mentions `i`.
pub open spec fn list_has(s: Seq<usize>, i: int) -> bool {
    exists|k: int| 0 <= k < s.len() && s[k] == i
}

/// Whether a list of index-box pairs mentions the index `i`.
pub open spec fn pairs_have(s: Seq<(usize, Aabb)>, i: int) -> bool {
    exists|k: int| 0 <= k < s.len() && (#[trigger] s[k]).0 == i
}

/// Whether element `i` appears below the node.
pub open spec fn node_has(n: &BVHNode, i: int) -> bool
    decreases n,
{
    match n.node {
        BVHTreeNode::Leaf { objects } => list_has(objects@, i),
        BVHTreeNode::Branch { left, right } => node_has(&left, i) || node_has(&right, i),
    }
}

/// Validity of a tree node against its container: every element below
/// it is in range, has a finite box, and that box lies inside the
/// node's box.
pub open spec fn node_wf<C: SurfaceContainer>(n: &BVHNode, c: &C) -> bool
    decreases n,
{
    &&& box_wf(n.bounding_box)
    &&& forall|i: int|
        #[trigger] node_has(n, i) ==> 0 <= i < c.count_spec() && c.elem_box(i).is_some()
            && box_contains(n.bounding_box, c.elem_box(i).unwrap())
    &&& match n.node {
        BVHTreeNode::Leaf { objects } => true,
        BVHTreeNode::Branch { left, right } => node_wf(&left, c) && node_wf(&right, c),
    }
}

/// The union of the boxes of a pair list, in list order.
pub open spec fn pairs_union(s: Seq<(usize, Aabb)>) -> Aabb
    decreases s.len(),
{
    if s.len() == 0 {
        crate::objects::aabb::box_empty()
    } else {
        box_union(pairs_union(s.drop_last()), s.last().1)
    }
}

/// The subtree respects the depth budget: a branch spends one level on
/// each side.
pub open spec fn node_within_depth(n: &BVHNode, d: int) -> bool
    decreases n,
{
    match n.node {
        BVHTreeNode::Leaf { objects } => true,
        BVHTreeNode::Branch { left, right } => d > 0 && node_within_depth(&left, d - 1)
            && node_within_depth(&right, d - 1),
    }
}

/// A pair handed to the tree builder: an element index with its box.
pub open spec fn pair_ok<C: SurfaceContainer>(c: &C, p: (usize, Aabb)) -> bool {
    &&& 0 <= p.0 < c.count_spec()
    &&& c.elem_box(p.0 as int) == Some(p.1)
}

impl BVHNode {
    /// Creates a bounding volume hierarchy node, given a list of element
    /// indices with their bounding boxes.  The node recursively splits
    /// the list at the midpoint of its longest axis until the element
    /// count falls below the leaf threshold or the depth budget runs
    /// out; an element straddling the split plane goes into both halves.
    pub fn new<ContainerType: SurfaceContainer>(container: &ContainerType, aabbs: Vec<
        (usize, Aabb),
    >, max_depth: usize) -> (node: BVHNode)
        requires
            container.wf(),
            forall|k: int| 0 <= k < aabbs@.len() ==> pair_ok(container, #[trigger] aabbs@[k]),
        ensures
            node_wf(&node, container),
            forall|i: int| #[trigger] node_has(&node, i) <==> pairs_have(aabbs@, i),
            node.bounding_box == pairs_union(aabbs@),
            node.node is Leaf <==> (aabbs@.len() < COUNT_THRESHOLD || max_depth == 0),
            node_within_depth(&node, max_depth as int),
        decreases max_depth,
    {
        let ghost c = container;
        let mut bb: Aabb = Aabb::empty();
        let mut k: usize = 0;
        proof {
            assert(aabbs@.take(0int) =~= Seq::<(usize, Aabb)>::empty());
        }
        while k < aabbs.len()
            invariant
                k <= aabbs.len(),
                container.wf(),
                forall|j: int| 0 <= j < aabbs@.len() ==> pair_ok(container, #[trigger] aabbs@[j]),
                box_wf(bb),
                bb == pairs_union(aabbs@.take(k as int)),
                forall|j: int|
                    0 <= j < k ==> box_contains(bb, (#[trigger] aabbs@[j]).1),
                k > 0 ==> bb.vmin.x <= bb.vmax.x && bb.vmin.y <= bb.vmax.y && bb.vmin.z
                    <= bb.vmax.z,
            decreases aabbs.len() - k,
        {
            let p: (usize, Aabb) = aabbs[k];
            proof {
                container.lemma_elem_box_ok(p.0 as int);
                lemma_union_contains(bb, p.1);
                assert forall|j: int| 0 <= j < k + 1 implies box_contains(
                    box_union(bb, p.1),
                    (#[trigger] aabbs@[j]).1,
                ) by {
                    if j < k {
                        crate::objects::aabb::lemma_union_keeps_contains(bb, p.1, aabbs@[j].1);
                    }
                }
            }
            bb = bb.union(&p.1);
            proof {
                assert(aabbs@.take(k + 1int).drop_last() =~= aabbs@.take(k as int));
                assert(aabbs@.take(k + 1int).last() == aabbs@[k as int]);
            }
            k = k + 1;
        }
        proof {
            assert(aabbs@.take(aabbs@.len() as int) =~= aabbs@);
        }
        if aabbs.len() < COUNT_THRESHOLD || max_depth == 0 {
            let mut objects: Vec<usize> = Vec::new();
            let mut k2: usize = 0;
            while k2 < aabbs.len()
                invariant
                    k2 <= aabbs.len(),
                    objects@.len() == k2,
                    forall|j: int| 0 <= j < k2 ==> objects@[j] == (#[trigger] aabbs@[j]).0,
                decreases aabbs.len() - k2,
            {
                objects.push(aabbs[k2].0);
                k2 = k2 + 1;
            }
            let ghost oview = objects@;
            let node: BVHNode = BVHNode { bounding_box: bb, node: BVHTreeNode::Leaf { objects } };
            proof {
                assert forall|i: int| #[trigger] node_has(&node, i) implies pairs_have(aabbs@, i)
                    && 0 <= i < c.count_spec() && c.elem_box(i).is_some() && box_contains(
                    node.bounding_box,
                    c.elem_box(i).unwrap(),
                ) by {
                    let k = choose|k: int| 0 <= k < oview.len() && oview[k] == i;
                    assert((aabbs@[k]).0 == i);
                    assert(pair_ok(c, aabbs@[k]));
                    assert(box_contains(bb, (aabbs@[k]).1));
                }
                assert forall|i: int| pairs_have(aabbs@, i) implies #[trigger] node_has(
                    &node,
                    i,
                ) by {
                    let k = choose|k: int| 0 <= k < aabbs@.len() && (#[trigger] aabbs@[k]).0 == i;
                    assert(oview[k] == i);
                    assert(list_has(oview, i));
                }
            }
            node
        } else {
            let axis_len: (usize, i64) = bb.longest_side();
            let half_len: i64 = crate::fixed::tdiv64(axis_len.1, 2);
            let w: Vec3 = if axis_len.0 == 0 {
                Vec3M::new(half_len, 0, 0)
            } else if axis_len.0 == 1 {
                Vec3M::new(0, half_len, 0)
            } else {
                Vec3M::new(0, 0, half_len)
            };
            let left_half: Aabb = Aabb::new(bb.min(), bb.max().sub(w));
            let right_half: Aabb = Aabb::new(bb.min().add(w), bb.max());
            let mut left_objects: Vec<(usize, Aabb)> = Vec::new();
            let mut right_objects: Vec<(usize, Aabb)> = Vec::new();
            let mut k3: usize = 0;
            while k3 < aabbs.len()
                invariant
                    k3 <= aabbs.len(),
                    container.wf(),
                    forall|j: int|
                        0 <= j < aabbs@.len() ==> pair_ok(container, #[trigger] aabbs@[j]),
                    forall|j: int|
                        0 <= j < left_objects@.len() ==> pair_ok(
                            container,
                            #[trigger] left_objects@[j],
                        ),
                    forall|j: int|
                        0 <= j < right_objects@.len() ==> pair_ok(
                            container,
                            #[trigger] right_objects@[j],
                        ),
                    forall|j: int|
                        0 <= j < left_objects@.len() ==> exists|k: int|
                            0 <= k < aabbs@.len() && #[trigger] left_objects@[j] == aabbs@[k],
                    forall|j: int|
                        0 <= j < right_objects@.len() ==> exists|k: int|
                            0 <= k < aabbs@.len() && #[trigger] right_objects@[j] == aabbs@[k],
                    forall|k: int|
                        0 <= k < k3 ==> (exists|j: int|
                            0 <= j < left_objects@.len() && left_objects@[j] == (
                            #[trigger] aabbs@[k])) || (exists|j: int|
                            0 <= j < right_objects@.len() && right_objects@[j] == aabbs@[k]),
                decreases aabbs.len() - k3,
            {
                let p: (usize, Aabb) = aabbs[k3];
                let ghost oldl = left_objects@;
                let ghost oldr = right_objects@;
                let in_left: bool = !right_half.contains(&p.1);
                let in_right: bool = !left_half.contains(&p.1);
                let went_left: bool = in_left || !in_right;
                if went_left {
                    left_objects.push(p);
                }
                if in_right {
                    right_objects.push(p);
                }
                proof {
                    assert forall|k: int| 0 <= k < k3 + 1 implies (exists|j: int|
                        0 <= j < left_objects@.len() && left_objects@[j] == (#[trigger] aabbs@[k]))
                        || (exists|j: int|
                        0 <= j < right_objects@.len() && right_objects@[j] == aabbs@[k]) by {
                        if k < k3 {
                            if exists|j: int| 0 <= j < oldl.len() && #[trigger] oldl[j] == aabbs@[
                            k] {
                                let j = choose|j: int|
                                    0 <= j < oldl.len() && #[trigger] oldl[j] == aabbs@[k];
                                assert(left_objects@[j] == aabbs@[k]);
                            } else {
                                let j = choose|j: int|
                                    0 <= j < oldr.len() && #[trigger] oldr[j] == aabbs@[k];
                                assert(right_objects@[j] == aabbs@[k]);
                            }
                        } else {
                            if went_left {
                                assert(left_objects@[oldl.len() as int] == aabbs@[k]);
                            } else {
                                assert(right_objects@[oldr.len() as int] == aabbs@[k]);
                            }
                        }
                    }
                }
                k3 = k3 + 1;
            }
            let ghost lview = left_objects@;
            let ghost rview = right_objects@;
            let left: BVHNode = BVHNode::new(container, left_objects, max_depth - 1);
            let right: BVHNode = BVHNode::new(container, right_objects, max_depth - 1);
            let ghost gleft = left;
            let ghost gright = right;
            let node: BVHNode = BVHNode {
                bounding_box: bb,
                node: BVHTreeNode::Branch { left: Box::new(left), right: Box::new(right) },
            };
            proof {
                assert forall|i: int| #[trigger] node_has(&node, i) implies pairs_have(aabbs@, i)
                    && 0 <= i < c.count_spec() && c.elem_box(i).is_some() && box_contains(
                    node.bounding_box,
                    c.elem_box(i).unwrap(),
                ) by {
                    if node_has(&gleft, i) {
                        assert(pairs_have(lview, i));
                        let k2 = choose|k2: int|
                            0 <= k2 < lview.len() && (#[trigger] lview[k2]).0 == i;
                        let k = choose|k: int|
                            0 <= k < aabbs@.len() && #[trigger] lview[k2] == aabbs@[k];
                        assert((aabbs@[k]).0 == i);
                        assert(pair_ok(c, aabbs@[k]));
                        assert(box_contains(bb, (aabbs@[k]).1));
                    } else {
                        assert(node_has(&gright, i));
                        assert(pairs_have(rview, i));
                        let k2 = choose|k2: int|
                            0 <= k2 < rview.len() && (#[trigger] rview[k2]).0 == i;
                        let k = choose|k: int|
                            0 <= k < aabbs@.len() && #[trigger] rview[k2] == aabbs@[k];
                        assert((aabbs@[k]).0 == i);
                        assert(pair_ok(c, aabbs@[k]));
                        assert(box_contains(bb, (aabbs@[k]).1));
                    }
                }
                assert forall|i: int| pairs_have(aabbs@, i) implies #[trigger] node_has(
                    &node,
                    i,
                ) by {
                    let k = choose|k: int| 0 <= k < aabbs@.len() && (#[trigger] aabbs@[k]).0 == i;
                    if exists|j: int| 0 <= j < lview.len() && #[trigger] lview[j] == aabbs@[k] {
                        let j = choose|j: int|
                            0 <= j < lview.len() && #[trigger] lview[j] == aabbs@[k];
                        assert((lview[j]).0 == i);
                        assert(pairs_have(lview, i));
                        assert(node_has(&gleft, i));
                    } else {
                        let j = choose|j: int|
                            0 <= j < rview.len() && #[trigger] rview[j] == aabbs@[k];
                        assert((rview[j]).0 == i);
                        assert(pairs_have(rview, i));
                        assert(node_has(&gright, i));
                    }
                }
            }
            node
        }
    }
}

} // verus!

verus! {

/// A rational lies at or beyond its own rounded-down value.
proof fn lemma_tau_floor(n: int, dn: int)
    requires
        dn >= 1,
        n >= 0,
    ensures
        n >= tdiv(n, dn) * dn,
        tdiv(n, dn) >= 0,
{
    crate::fixed::lemma_tdiv_nonneg(n, dn);
    assert(n >= (n / dn) * dn) by (nonlinear_arith)
        requires
            n >= 0,
            dn >= 1,
    ;
}

/// If a node's box rejects the window, no element below the node is hit
/// within it.
proof fn lemma_box_prunes<C: SurfaceContainer>(c: &C, node: &BVHNode, ray: Ray, m: int)
    requires
        c.wf(),
        node_wf(node, c),
        ray_ok(ray),
        is_unit(ray.dir.vec()),
        0 <= m <= T_MAX,
        !box_passes(node.bounding_box, ray.origin, ray.dir.vec(), m, 1),
    ensures
        forall|i: int| #[trigger] node_has(node, i) ==> !tau_accepts(c.elem_tau(i, ray), m),
{
    assert forall|i: int| #[trigger] node_has(node, i) implies !tau_accepts(
        c.elem_tau(i, ray),
        m,
    ) by {
        if tau_accepts(c.elem_tau(i, ray), m) {
            c.lemma_elem_tau_ok(i, ray);
            c.lemma_elem_box_ok(i);
            let bx = c.elem_box(i).unwrap();
            let n = c.elem_tau(i, ray).unwrap().0;
            let dn = c.elem_tau(i, ray).unwrap().1;
            assert(n * 1 == n) by (nonlinear_arith);
            lemma_passes_wider_window(bx, ray.origin, ray.dir.vec(), n, dn, m, 1);
            lemma_passes_wider_box(bx, node.bounding_box, ray.origin, ray.dir.vec(), m, 1);
        }
    }
}

/// Represents a bounding volume hierarchy over a surface container.
pub struct BVH<ContainerType: SurfaceContainer> {
    /// Elements without a finite bounding box: they bypass the tree and
    /// are probed directly.
    pub unbounded_objects: Vec<usize>,
    /// The underlying container.
    pub container: ContainerType,
    /// The tree over the bounded elements.
    pub root_node: BVHNode,
}

/// Validity of a hierarchy: a valid container, a valid tree, and full
/// coverage (every element is below the root or in the unbounded list).
pub open spec fn bvh_wf<C: SurfaceContainer>(b: &BVH<C>) -> bool {
    &&& b.container.wf()
    &&& node_wf(&b.root_node, &b.container)
    &&& forall|j: int|
        0 <= j < b.unbounded_objects@.len() ==> 0 <= #[trigger] b.unbounded_objects@[j]
            < b.container.count_spec()
    &&& forall|j: int|
        0 <= j < b.unbounded_objects@.len() ==> b.container.elem_box(
            #[trigger] b.unbounded_objects@[j] as int,
        ).is_none()
    &&& forall|i: int|
        0 <= i < b.container.count_spec() && (#[trigger] b.container.elem_box(i)).is_none()
            ==> list_has(b.unbounded_objects@, i)
    &&& forall|i: int|
        0 <= i < b.container.count_spec() ==> node_has(&b.root_node, i) || list_has(
            b.unbounded_objects@,
            i,
        )
}

impl<ContainerType: SurfaceContainer> BVH<ContainerType> {
    /// Creates a hierarchy from a container: elements with a finite box
    /// go into the tree, the rest into the bypass list.
    pub fn new(container: ContainerType) -> (b: BVH<ContainerType>)
        requires
            container.wf(),
        ensures
            bvh_wf(&b),
            b.container == container,
    {
        let mut unbounded_objects: Vec<usize> = Vec::new();
        let mut aabbs: Vec<(usize, Aabb)> = Vec::new();
        let n: usize = container.count();
        let mut i: usize = 0;
        while i < n
            invariant
                i <= n,
                container.wf(),
                n == container.count_spec(),
                forall|k: int| 0 <= k < aabbs@.len() ==> pair_ok(&container, #[trigger] aabbs@[k]),
                forall|j: int|
                    0 <= j < unbounded_objects@.len() ==> 0 <= #[trigger] unbounded_objects@[j]
                        < n,
                forall|j: int|
                    0 <= j < unbounded_objects@.len() ==> container.elem_box(
                        #[trigger] unbounded_objects@[j] as int,
                    ).is_none(),
                forall|ii: int|
                    0 <= ii < i && (#[trigger] container.elem_box(ii)).is_none() ==> list_has(
                        unbounded_objects@,
                        ii,
                    ),
                forall|ii: int|
                    0 <= ii < i ==> pairs_have(aabbs@, ii) || list_has(unbounded_objects@, ii),
            decreases n - i,
        {
            let ghost olda = aabbs@;
            let ghost oldu = unbounded_objects@;
            let bb: Option<Aabb> = container.elem_bounding_box(i);
            match bb {
                None => {
                    unbounded_objects.push(i);
                },
                Some(bb) => {
                    aabbs.push((i, bb));
                },
            }
            proof {
                assert forall|ii: int|
                    0 <= ii < i + 1 && container.elem_box(ii).is_none() implies list_has(
                    unbounded_objects@,
                    ii,
                ) by {
                    if ii < i {
                        let k = choose|k: int|
                            0 <= k < oldu.len() && #[trigger] oldu[k] == ii;
                        assert(unbounded_objects@[k] == ii);
                    } else {
                        assert(unbounded_objects@[oldu.len() as int] == ii);
                    }
                }
                assert forall|ii: int| 0 <= ii < i + 1 implies pairs_have(aabbs@, ii) || list_has(
                    unbounded_objects@,
                    ii,
                ) by {
                    if ii < i {
                        if pairs_have(olda, ii) {
                            let k = choose|k: int|
                                0 <= k < olda.len() && (#[trigger] olda[k]).0 == ii;
                            assert((aabbs@[k]).0 == ii);
                        } else {
                            let k = choose|k: int|
                                0 <= k < oldu.len() && #[trigger] oldu[k] == ii;
                            assert(unbounded_objects@[k] == ii);
                        }
                    } else {
                        if container.elem_box(ii).is_some() {
                            assert((aabbs@[olda.len() as int]).0 == ii);
                        } else {
                            assert(unbounded_objects@[oldu.len() as int] == ii);
                        }
                    }
                }
            }
            i = i + 1;
        }
        let root_node: BVHNode = BVHNode::new(&container, aabbs, MAX_DEPTH);
        BVH { unbounded_objects, container, root_node }
    }

    /// Whether the ray hits any element below the node within the bound:
    /// the node's box rejects first, a leaf tests its elements with a
    /// short-circuited scan, and a branch is hit if either child is.
    fn node_is_hit_by(&self, node: &BVHNode, ray: Ray, t_max: i64) -> (res: bool)
        requires
            self.container.wf(),
            node_wf(node, &self.container),
            ray_ok(ray),
            0 <= t_max <= T_MAX,
        ensures
            res == exists|i: int|
                #[trigger] node_has(node, i) && tau_accepts(
                    self.container.elem_tau(i, ray),
                    t_max as int,
                ),
        decreases node,
    {
        proof {
            use_type_invariant(ray.dir);
        }
        if !node.bounding_box.passes_through(ray, t_max) {
            proof {
                lemma_box_prunes(&self.container, node, ray, t_max as int);
            }
            return false;
        }
        match &node.node {
            BVHTreeNode::Leaf { objects } => {
                let mut k: usize = 0;
                while k < objects.len()
                    invariant
                        k <= objects@.len(),
                        self.container.wf(),
                        node_wf(node, &self.container),
                        ray_ok(ray),
                        is_unit(ray.dir.vec()),
                        0 <= t_max <= T_MAX,
                        node.node == (BVHTreeNode::Leaf { objects: *objects }),
                        forall|kk: int|
                            0 <= kk < k ==> !tau_accepts(
                                self.container.elem_tau(#[trigger] objects@[kk] as int, ray),
                                t_max as int,
                            ),
                    decreases objects@.len() - k,
                {
                    let idx: usize = objects[k];
                    proof {
                        assert(list_has(objects@, idx as int));
                        assert(node_has(node, idx as int));
                    }
                    if self.container.elem_is_hit_by(idx, ray, t_max) {
                        proof {
                            assert(node_has(node, idx as int) && tau_accepts(
                                self.container.elem_tau(idx as int, ray),
                                t_max as int,
                            ));
                        }
                        return true;
                    }
                    k = k + 1;
                }
                proof {
                    assert forall|i: int| #[trigger] node_has(node, i) implies !tau_accepts(
                        self.container.elem_tau(i, ray),
                        t_max as int,
                    ) by {
                        let kk = choose|kk: int|
                            0 <= kk < objects@.len() && objects@[kk] == i;
                        assert(!tau_accepts(
                            self.container.elem_tau(objects@[kk] as int, ray),
                            t_max as int,
                        ));
                    }
                }
                false
            },
            BVHTreeNode::Branch { left, right } => {
                proof {
                    assert(node_wf(&**left, &self.container));
                    assert(node_wf(&**right, &self.container));
                }
                let hit_left: bool = self.node_is_hit_by(left, ray, t_max);
                let hit_right: bool = self.node_is_hit_by(right, ray, t_max);
                proof {
                    lemma_branch_sets(node, left, right);
                    if hit_left {
                        let i = choose|i: int|
                            #[trigger] node_has(&**left, i) && tau_accepts(
                                self.container.elem_tau(i, ray),
                                t_max as int,
                            );
                        assert(node_has(node, i) && tau_accepts(
                            self.container.elem_tau(i, ray),
                            t_max as int,
                        ));
                    } else if hit_right {
                        let i = choose|i: int|
                            #[trigger] node_has(&**right, i) && tau_accepts(
                                self.container.elem_tau(i, ray),
                                t_max as int,
                            );
                        assert(node_has(node, i) && tau_accepts(
                            self.container.elem_tau(i, ray),
                            t_max as int,
                        ));
                    }
                }
                hit_left || hit_right
            },
        }
    }

    /// The nearest hit below the node within the bound: the node's box
    /// rejects first, a leaf scans its elements keeping the nearest, and
    /// a branch visits the child whose box lies nearer first, bounding
    /// the other child's search by the best hit found.
    fn node_intersect(&self, node: &BVHNode, ray: Ray, t_max: i64) -> (res: Option<
        DelayedIntersection,
    >)
        requires
            self.container.wf(),
            node_wf(node, &self.container),
            ray_ok(ray),
            0 <= t_max <= T_MAX,
        ensures
            node_result_ok(&self.container, node, ray, t_max as int, res),
        decreases node,
    {
        proof {
            use_type_invariant(ray.dir);
        }
        if !node.bounding_box.passes_through(ray, t_max) {
            proof {
                lemma_box_prunes(&self.container, node, ray, t_max as int);
            }
            return None;
        }
        match &node.node {
            BVHTreeNode::Leaf { objects } => {
                let mut nearest: Option<DelayedIntersection> = None;
                let mut nearest_t: i64 = t_max;
                let mut k: usize = 0;
                while k < objects.len()
                    invariant
                        k <= objects@.len(),
                        self.container.wf(),
                        node_wf(node, &self.container),
                        ray_ok(ray),
                        is_unit(ray.dir.vec()),
                        0 <= nearest_t <= t_max <= T_MAX,
                        node.node == (BVHTreeNode::Leaf { objects: *objects }),
                        nearest.is_none() ==> nearest_t == t_max,
                        nearest.is_none() ==> forall|kk: int|
                            0 <= kk < k ==> !tau_accepts(
                                self.container.elem_tau(#[trigger] objects@[kk] as int, ray),
                                t_max as int,
                            ),
                        nearest.is_some() ==> {
                            &&& nearest.unwrap().t == nearest_t
                            &&& exists|i: int|
                                #[trigger] node_has(node, i) && tau_accepts(
                                    self.container.elem_tau(i, ray),
                                    t_max as int,
                                ) && elem_hit_data_ok(&self.container, i, ray, nearest.unwrap())
                            &&& forall|kk: int|
                                0 <= kk < k ==> tau_ge(
                                    self.container.elem_tau(#[trigger] objects@[kk] as int, ray),
                                    nearest_t as int,
                                )
                        },
                    decreases objects@.len() - k,
                {
                    let idx: usize = objects[k];
                    proof {
                        assert(list_has(objects@, idx as int));
                        assert(node_has(node, idx as int));
                    }
                    let found: Option<DelayedIntersection> = self.container.elem_intersect(
                        idx,
                        ray,
                        nearest_t,
                    );
                    match found {
                        None => {
                            proof {
                                if self.container.elem_tau(idx as int, ray).is_some() {
                                    self.container.lemma_elem_tau_ok(idx as int, ray);
                                }
                            }
                        },
                        Some(di) => {
                            proof {
                                self.container.lemma_elem_tau_ok(idx as int, ray);
                                let tau = self.container.elem_tau(idx as int, ray).unwrap();
                                lemma_tau_floor(tau.0, tau.1);
                                lemma_rat_int_mono(tau.0, tau.1, nearest_t as int, t_max as int);
                                assert forall|kk: int| 0 <= kk <= k implies 0 <= (
                                #[trigger] objects@[kk]) < self.container.count_spec() by {
                                    assert(list_has(objects@, objects@[kk] as int));
                                    assert(node_has(node, objects@[kk] as int));
                                }
                                lemma_leaf_update(
                                    &self.container,
                                    objects@,
                                    ray,
                                    k as int,
                                    nearest_t as int,
                                    di.t as int,
                                    t_max as int,
                                );
                            }
                            nearest = Some(di);
                            nearest_t = di.t;
                        },
                    }
                    k = k + 1;
                }
                proof {
                    if nearest.is_none() {
                        assert forall|i: int| #[trigger] node_has(node, i) implies !tau_accepts(
                            self.container.elem_tau(i, ray),
                            t_max as int,
                        ) by {
                            let kk = choose|kk: int|
                                0 <= kk < objects@.len() && objects@[kk] == i;
                            assert(!tau_accepts(
                                self.container.elem_tau(objects@[kk] as int, ray),
                                t_max as int,
                            ));
                        }
                    } else {
                        assert forall|i: int| #[trigger] node_has(node, i) implies tau_ge(
                            self.container.elem_tau(i, ray),
                            nearest.unwrap().t as int,
                        ) by {
                            let kk = choose|kk: int|
                                0 <= kk < objects@.len() && objects@[kk] == i;
                            assert(tau_ge(
                                self.container.elem_tau(objects@[kk] as int, ray),
                                nearest_t as int,
                            ));
                        }
                    }
                }
                nearest
            },
            BVHTreeNode::Branch { left, right } => {
                proof {
                    lemma_branch_sets(node, left, right);
                    assert(node_wf(&**left, &self.container));
                    assert(node_wf(&**right, &self.container));
                }
                let dl: i64 = left.bounding_box.distance(ray, t_max);
                let dr: i64 = right.bounding_box.distance(ray, t_max);
                let (near, far): (&Box<BVHNode>, &Box<BVHNode>) = if dl < dr {
                    (left, right)
                } else {
                    (right, left)
                };
                let rn: Option<DelayedIntersection> = self.node_intersect(near, ray, t_max);
                let res: Option<DelayedIntersection> = match rn {
                    None => {
                        let rf: Option<DelayedIntersection> = self.node_intersect(
                            far,
                            ray,
                            t_max,
                        );
                        proof {
                            lemma_combine_near_miss(
                                &self.container,
                                node,
                                near,
                                far,
                                ray,
                                t_max as int,
                                rf,
                            );
                        }
                        rf
                    },
                    Some(di) => {
                        let rf: Option<DelayedIntersection> = self.node_intersect(
                            far,
                            ray,
                            di.t,
                        );
                        proof {
                            lemma_combine_near_hit(
                                &self.container,
                                node,
                                near,
                                far,
                                ray,
                                t_max as int,
                                di,
                                rf,
                            );
                        }
                        match rf {
                            None => Some(di),
                            Some(df) => Some(df),
                        }
                    },
                };
                res
            },
        }
    }
}

/// A branch holds an element exactly when one of its children does.
proof fn lemma_branch_sets(node: &BVHNode, left: &Box<BVHNode>, right: &Box<BVHNode>)
    requires
        node.node == (BVHTreeNode::Branch { left: *left, right: *right }),
    ensures
        forall|i: int|
            #[trigger] node_has(node, i) == (node_has(&**left, i) || node_has(&**right, i)),
{
}

/// One step of the leaf scan keeps the nearest-hit bookkeeping: every
/// element seen so far was either beyond the previous best or not hit
/// at all within the bound, and both cases put it at or beyond the new
/// best.
proof fn lemma_leaf_update<C: SurfaceContainer>(c: &C, objects: Seq<usize>, ray: Ray, k: int,
    old_t: int, new_t: int, m: int)
    requires
        c.wf(),
        ray_ok(ray),
        is_unit(ray.dir.vec()),
        0 <= k < objects.len(),
        0 <= new_t <= old_t <= m,
        forall|kk: int| 0 <= kk <= k ==> 0 <= #[trigger] objects[kk] < c.count_spec(),
        forall|kk: int|
            0 <= kk < k ==> tau_ge(c.elem_tau(#[trigger] objects[kk] as int, ray), old_t)
                || !tau_accepts(c.elem_tau(objects[kk] as int, ray), m),
        tau_ge(c.elem_tau(objects[k] as int, ray), new_t),
    ensures
        forall|kk: int|
            0 <= kk < k + 1 ==> tau_ge(c.elem_tau(#[trigger] objects[kk] as int, ray), new_t),
{
    assert forall|kk: int| 0 <= kk < k + 1 implies tau_ge(
        c.elem_tau(#[trigger] objects[kk] as int, ray),
        new_t,
    ) by {
        if kk < k && c.elem_tau(objects[kk] as int, ray).is_some() {
            c.lemma_elem_tau_ok(objects[kk] as int, ray);
            let tau = c.elem_tau(objects[kk] as int, ray).unwrap();
            if tau_ge(c.elem_tau(objects[kk] as int, ray), old_t) {
                lemma_rat_int_mono(tau.0, tau.1, new_t, old_t);
            } else {
                lemma_rat_int_mono(tau.0, tau.1, new_t, m);
            }
        }
    }
}

/// One step of a linear scan over the whole container keeps the
/// nearest-hit bookkeeping (the indexed twin of the leaf-scan step).
pub proof fn lemma_scan_update<C: SurfaceContainer>(c: &C, ray: Ray, k: int, old_t: int,
    new_t: int, m: int)
    requires
        c.wf(),
        ray_ok(ray),
        is_unit(ray.dir.vec()),
        0 <= k < c.count_spec(),
        0 <= new_t <= old_t <= m,
        forall|kk: int|
            0 <= kk < k ==> tau_ge(#[trigger] c.elem_tau(kk, ray), old_t) || !tau_accepts(
                c.elem_tau(kk, ray),
                m,
            ),
        tau_ge(c.elem_tau(k, ray), new_t),
    ensures
        forall|kk: int| 0 <= kk < k + 1 ==> tau_ge(#[trigger] c.elem_tau(kk, ray), new_t),
{
    assert forall|kk: int| 0 <= kk < k + 1 implies tau_ge(
        #[trigger] c.elem_tau(kk, ray),
        new_t,
    ) by {
        if kk < k && c.elem_tau(kk, ray).is_some() {
            c.lemma_elem_tau_ok(kk, ray);
            let tau = c.elem_tau(kk, ray).unwrap();
            if tau_ge(c.elem_tau(kk, ray), old_t) {
                lemma_rat_int_mono(tau.0, tau.1, new_t, old_t);
            } else {
                lemma_rat_int_mono(tau.0, tau.1, new_t, m);
            }
        }
    }
}

/// Combining the children when the nearer child reports no hit.
proof fn lemma_combine_near_miss<C: SurfaceContainer>(c: &C, node: &BVHNode, near: &BVHNode,
    far: &BVHNode, ray: Ray, m: int, rf: Option<DelayedIntersection>)
    requires
        c.wf(),
        ray_ok(ray),
        is_unit(ray.dir.vec()),
        node_wf(node, c),
        forall|i: int|
            #[trigger] node_has(node, i) == (node_has(near, i) || node_has(far, i)),
        forall|i: int| #[trigger] node_has(near, i) ==> !tau_accepts(c.elem_tau(i, ray), m),
        node_result_ok(c, far, ray, m, rf),
    ensures
        node_result_ok(c, node, ray, m, rf),
{
    match rf {
        None => {
        },
        Some(d) => {
            assert forall|i: int| #[trigger] node_has(node, i) implies tau_ge(
                c.elem_tau(i, ray),
                d.t as int,
            ) by {
                if node_has(far, i) {
                } else {
                    if c.elem_tau(i, ray).is_some() {
                        c.lemma_elem_tau_ok(i, ray);
                        let tau = c.elem_tau(i, ray).unwrap();
                        lemma_rat_int_mono(tau.0, tau.1, d.t as int, m);
                    }
                }
            }
            let i0 = choose|i: int|
                #[trigger] node_has(far, i) && tau_accepts(c.elem_tau(i, ray), m)
                    && elem_hit_data_ok(c, i, ray, d);
            assert(node_has(node, i0));
        },
    }
}

/// Combining the children when the nearer child reports a hit: the
/// farther child is searched only below that hit.
proof fn lemma_combine_near_hit<C: SurfaceContainer>(c: &C, node: &BVHNode, near: &BVHNode,
    far: &BVHNode, ray: Ray, m: int, di: DelayedIntersection, rf: Option<DelayedIntersection>)
    requires
        c.wf(),
        ray_ok(ray),
        is_unit(ray.dir.vec()),
        node_wf(node, c),
        forall|i: int|
            #[trigger] node_has(node, i) == (node_has(near, i) || node_has(far, i)),
        node_result_ok(c, near, ray, m, Some(di)),
        node_result_ok(c, far, ray, di.t as int, rf),
    ensures
        rf.is_none() ==> node_result_ok(c, node, ray, m, Some(di)),
        rf.is_some() ==> node_result_ok(c, node, ray, m, rf),
{
    match rf {
        None => {
            assert forall|i: int| #[trigger] node_has(node, i) implies tau_ge(
                c.elem_tau(i, ray),
                di.t as int,
            ) by {
                if node_has(near, i) {
                } else {
                    if c.elem_tau(i, ray).is_some() {
                        assert(!tau_accepts(c.elem_tau(i, ray), di.t as int));
                    }
                }
            }
            let i0 = choose|i: int|
                #[trigger] node_has(near, i) && tau_accepts(c.elem_tau(i, ray), m)
                    && elem_hit_data_ok(c, i, ray, di);
            assert(node_has(node, i0));
        },
        Some(df) => {
            assert forall|i: int| #[trigger] node_has(node, i) implies tau_ge(
                c.elem_tau(i, ray),
                df.t as int,
            ) by {
                if node_has(far, i) {
                } else {
                    if c.elem_tau(i, ray).is_some() {
                        c.lemma_elem_tau_ok(i, ray);
                        let tau = c.elem_tau(i, ray).unwrap();
                        assert(tau_ge(c.elem_tau(i, ray), di.t as int));
                        lemma_rat_int_mono(tau.0, tau.1, df.t as int, di.t as int);
                    }
                }
            }
            let i0 = choose|i: int|
                #[trigger] node_has(far, i) && tau_accepts(c.elem_tau(i, ray), di.t as int)
                    && elem_hit_data_ok(c, i, ray, df);
            assert(node_has(node, i0));
            if c.elem_tau(i0, ray).is_some() {
                c.lemma_elem_tau_ok(i0, ray);
                let tau = c.elem_tau(i0, ray).unwrap();
                lemma_rat_int_mono(tau.0, tau.1, di.t as int, m);
            }
            assert(tau_accepts(c.elem_tau(i0, ray), m));
        },
    }
}

} // verus!

verus! {

impl<ContainerType: SurfaceContainer> BVH<ContainerType> {
    /// Checks whether the ray hits any element of the container within
    /// `(EPS, t_max]`: the tree answers for the bounded elements, the
    /// bypass list is probed directly.
    pub fn is_hit_by(&self, ray: Ray, t_max: i64) -> (res: bool)
        requires
            bvh_wf(self),
            ray_ok(ray),
            0 <= t_max <= T_MAX,
        ensures
            res == scan_any_hit(&self.container, ray, t_max as int),
    {
        proof {
            use_type_invariant(ray.dir);
        }
        let mut k: usize = 0;
        while k < self.unbounded_objects.len()
            invariant
                k <= self.unbounded_objects@.len(),
                bvh_wf(self),
                ray_ok(ray),
                is_unit(ray.dir.vec()),
                0 <= t_max <= T_MAX,
                forall|kk: int|
                    0 <= kk < k ==> !tau_accepts(
                        self.container.elem_tau(
                            #[trigger] self.unbounded_objects@[kk] as int,
                            ray,
                        ),
                        t_max as int,
                    ),
            decreases self.unbounded_objects@.len() - k,
        {
            let idx: usize = self.unbounded_objects[k];
            if self.container.elem_is_hit_by(idx, ray, t_max) {
                proof {
                    assert(0 <= idx < self.container.count_spec() && tau_accepts(
                        self.container.elem_tau(idx as int, ray),
                        t_max as int,
                    ));
                }
                return true;
            }
            k = k + 1;
        }
        let tree_hit: bool = self.node_is_hit_by(&self.root_node, ray, t_max);
        proof {
            if tree_hit {
                let i = choose|i: int|
                    #[trigger] node_has(&self.root_node, i) && tau_accepts(
                        self.container.elem_tau(i, ray),
                        t_max as int,
                    );
                assert(0 <= i < self.container.count_spec());
            } else {
                assert forall|i: int|
                    0 <= i < self.container.count_spec() implies !tau_accepts(
                    #[trigger] self.container.elem_tau(i, ray),
                    t_max as int,
                ) by {
                    if !node_has(&self.root_node, i) {
                        let kk = choose|kk: int|
                            0 <= kk < self.unbounded_objects@.len()
                                && self.unbounded_objects@[kk] == i;
                        assert(!tau_accepts(
                            self.container.elem_tau(
                                self.unbounded_objects@[kk] as int,
                                ray,
                            ),
                            t_max as int,
                        ));
                    }
                }
            }
        }
        tree_hit
    }

    /// Returns the nearest intersection of the ray with any element of
    /// the container within `(EPS, t_max]`: the bypass list is scanned
    /// first, then the tree is searched below the best hit so far.
    pub fn intersect(&self, ray: Ray, t_max: i64) -> (res: Option<DelayedIntersection>)
        requires
            bvh_wf(self),
            ray_ok(ray),
            0 <= t_max <= T_MAX,
        ensures
            scan_result_ok(&self.container, ray, t_max as int, res),
    {
        proof {
            use_type_invariant(ray.dir);
        }
        let mut nearest: Option<DelayedIntersection> = None;
        let mut nearest_t: i64 = t_max;
        let mut k: usize = 0;
        while k < self.unbounded_objects.len()
            invariant
                k <= self.unbounded_objects@.len(),
                bvh_wf(self),
                ray_ok(ray),
                is_unit(ray.dir.vec()),
                0 <= nearest_t <= t_max <= T_MAX,
                nearest.is_none() ==> nearest_t == t_max,
                nearest.is_none() ==> forall|kk: int|
                    0 <= kk < k ==> !tau_accepts(
                        self.container.elem_tau(
                            #[trigger] self.unbounded_objects@[kk] as int,
                            ray,
                        ),
                        t_max as int,
                    ),
                nearest.is_some() ==> {
                    &&& nearest.unwrap().t == nearest_t
                    &&& exists|i: int|
                        0 <= i < self.container.count_spec() && tau_accepts(
                            #[trigger] self.container.elem_tau(i, ray),
                            t_max as int,
                        ) && elem_hit_data_ok(&self.container, i, ray, nearest.unwrap())
                    &&& forall|kk: int|
                        0 <= kk < k ==> tau_ge(
                            self.container.elem_tau(
                                #[trigger] self.unbounded_objects@[kk] as int,
                                ray,
                            ),
                            nearest_t as int,
                        )
                },
            decreases self.unbounded_objects@.len() - k,
        {
            let idx: usize = self.unbounded_objects[k];
            let found: Option<DelayedIntersection> = self.container.elem_intersect(
                idx,
                ray,
                nearest_t,
            );
            match found {
                None => {
                    proof {
                        if self.container.elem_tau(idx as int, ray).is_some() {
                            self.container.lemma_elem_tau_ok(idx as int, ray);
                        }
                    }
                },
                Some(di) => {
                    proof {
                        self.container.lemma_elem_tau_ok(idx as int, ray);
                        let tau = self.container.elem_tau(idx as int, ray).unwrap();
                        lemma_tau_floor(tau.0, tau.1);
                        lemma_rat_int_mono(tau.0, tau.1, nearest_t as int, t_max as int);
                        lemma_leaf_update(
                            &self.container,
                            self.unbounded_objects@,
                            ray,
                            k as int,
                            nearest_t as int,
                            di.t as int,
                            t_max as int,
                        );
                    }
                    nearest = Some(di);
                    nearest_t = di.t;
                },
            }
            k = k + 1;
        }
        let rt: Option<DelayedIntersection> = self.node_intersect(&self.root_node, ray, nearest_t);
        let res: Option<DelayedIntersection> = match rt {
            Some(df) => Some(df),
            None => nearest,
        };
        proof {
            lemma_bvh_combine(self, ray, t_max as int, nearest, nearest_t as int, rt, res);
        }
        res
    }

    /// The box around everything, if every element has a finite box.
    pub fn bounding_box(&self) -> (res: Option<Aabb>)
        requires
            bvh_wf(self),
        ensures
            res.is_some() <==> self.unbounded_objects@.len() == 0,
            res.is_some() <==> forall|i: int|
                0 <= i < self.container.count_spec() ==> (#[trigger] self.container.elem_box(
                    i,
                )).is_some(),
            res.is_some() ==> res.unwrap() == self.root_node.bounding_box,
    {
        proof {
            if self.unbounded_objects@.len() == 0 {
                assert forall|i: int|
                    0 <= i < self.container.count_spec() implies (
                #[trigger] self.container.elem_box(i)).is_some() by {
                    if self.container.elem_box(i).is_none() {
                        assert(list_has(self.unbounded_objects@, i));
                        let k = choose|k: int|
                            0 <= k < self.unbounded_objects@.len()
                                && self.unbounded_objects@[k] == i;
                    }
                }
            } else {
                assert(self.container.elem_box(
                    self.unbounded_objects@[0] as int,
                ).is_none());
            }
        }
        if self.unbounded_objects.len() == 0 {
            Some(self.root_node.bounding_box)
        } else {
            None
        }
    }
}

/// Combining the bypass-list scan with the tree search below its best
/// hit yields a correct nearest hit over the whole container.
proof fn lemma_bvh_combine<C: SurfaceContainer>(b: &BVH<C>, ray: Ray, m: int, nearest: Option<
    DelayedIntersection,
>, nearest_t: int, rt: Option<DelayedIntersection>, res: Option<DelayedIntersection>)
    requires
        bvh_wf(b),
        ray_ok(ray),
        is_unit(ray.dir.vec()),
        0 <= nearest_t <= m <= T_MAX,
        nearest.is_none() ==> nearest_t == m,
        nearest.is_none() ==> forall|kk: int|
            0 <= kk < b.unbounded_objects@.len() ==> !tau_accepts(
                b.container.elem_tau(#[trigger] b.unbounded_objects@[kk] as int, ray),
                m,
            ),
        nearest.is_some() ==> {
            &&& nearest.unwrap().t == nearest_t
            &&& exists|i: int|
                0 <= i < b.container.count_spec() && tau_accepts(
                    #[trigger] b.container.elem_tau(i, ray),
                    m,
                ) && elem_hit_data_ok(&b.container, i, ray, nearest.unwrap())
            &&& forall|kk: int|
                0 <= kk < b.unbounded_objects@.len() ==> tau_ge(
                    b.container.elem_tau(#[trigger] b.unbounded_objects@[kk] as int, ray),
                    nearest_t,
                )
        },
        node_result_ok(&b.container, &b.root_node, ray, nearest_t, rt),
        res == if rt.is_some() {
            rt
        } else {
            nearest
        },
    ensures
        scan_result_ok(&b.container, ray, m, res),
{
    let c = &b.container;
    match rt {
        Some(df) => {
            let i0 = choose|i: int|
                #[trigger] node_has(&b.root_node, i) && tau_accepts(c.elem_tau(i, ray), nearest_t)
                    && elem_hit_data_ok(c, i, ray, df);
            c.lemma_elem_tau_ok(i0, ray);
            let tau0 = c.elem_tau(i0, ray).unwrap();
            lemma_rat_int_mono(tau0.0, tau0.1, nearest_t, m);
            assert(0 <= i0 < c.count_spec() && tau_accepts(c.elem_tau(i0, ray), m)
                && elem_hit_data_ok(c, i0, ray, df));
            assert forall|i: int| 0 <= i < c.count_spec() implies tau_ge(
                #[trigger] c.elem_tau(i, ray),
                df.t as int,
            ) by {
                if c.elem_tau(i, ray).is_some() {
                    c.lemma_elem_tau_ok(i, ray);
                    let tau = c.elem_tau(i, ray).unwrap();
                    if node_has(&b.root_node, i) {
                    } else {
                        let kk = choose|kk: int|
                            0 <= kk < b.unbounded_objects@.len() && b.unbounded_objects@[kk] == i;
                        assert(tau_ge(
                            c.elem_tau(b.unbounded_objects@[kk] as int, ray),
                            nearest_t,
                        ) || !tau_accepts(
                            c.elem_tau(b.unbounded_objects@[kk] as int, ray),
                            m,
                        ));
                        if tau_ge(c.elem_tau(i, ray), nearest_t) {
                            lemma_rat_int_mono(tau.0, tau.1, df.t as int, nearest_t);
                        } else {
                            lemma_rat_int_mono(tau.0, tau.1, df.t as int, m);
                        }
                    }
                }
            }
        },
        None => {
            match nearest {
                None => {
                    assert forall|i: int| 0 <= i < c.count_spec() implies !tau_accepts(
                        #[trigger] c.elem_tau(i, ray),
                        m,
                    ) by {
                        if !node_has(&b.root_node, i) {
                            let kk = choose|kk: int|
                                0 <= kk < b.unbounded_objects@.len() && b.unbounded_objects@[kk]
                                    == i;
                            assert(!tau_accepts(
                                c.elem_tau(b.unbounded_objects@[kk] as int, ray),
                                m,
                            ));
                        }
                    }
                },
                Some(d) => {
                    assert forall|i: int| 0 <= i < c.count_spec() implies tau_ge(
                        #[trigger] c.elem_tau(i, ray),
                        d.t as int,
                    ) by {
                        if c.elem_tau(i, ray).is_some() {
                            c.lemma_elem_tau_ok(i, ray);
                            if node_has(&b.root_node, i) {
                                assert(!tau_accepts(c.elem_tau(i, ray), nearest_t));
                            } else {
                                let kk = choose|kk: int|
                                    0 <= kk < b.unbounded_objects@.len()
                                        && b.unbounded_objects@[kk] == i;
                                assert(tau_ge(
                                    c.elem_tau(b.unbounded_objects@[kk] as int, ray),
                                    nearest_t,
                                ));
                            }
                        }
                    }
                },
            }
        },
    }
}

/// Any two nearest-hit searches over the same container agree: they hit
/// under the same circumstances, and at the same distance.  In
/// particular the hierarchy traversal matches a brute-force linear scan
/// over the underlying container, for any ray and bound.
pub proof fn lemma_nearest_hit_agrees<C: SurfaceContainer>(c: &C, ray: Ray, m: int, r1: Option<
    DelayedIntersection,
>, r2: Option<DelayedIntersection>)
    requires
        c.wf(),
        ray_ok(ray),
        is_unit(ray.dir.vec()),
        0 <= m,
        scan_result_ok(c, ray, m, r1),
        scan_result_ok(c, ray, m, r2),
    ensures
        r1.is_some() == r2.is_some(),
        r1.is_some() ==> r1.unwrap().t == r2.unwrap().t,
{
    match r1 {
        None => {
            match r2 {
                None => {
                },
                Some(d2) => {
                    let i2 = choose|i: int|
                        0 <= i < c.count_spec() && tau_accepts(#[trigger] c.elem_tau(i, ray), m)
                            && elem_hit_data_ok(c, i, ray, d2);
                    assert(!tau_accepts(c.elem_tau(i2, ray), m));
                },
            }
        },
        Some(d1) => {
            let i1 = choose|i: int|
                0 <= i < c.count_spec() && tau_accepts(#[trigger] c.elem_tau(i, ray), m)
                    && elem_hit_data_ok(c, i, ray, d1);
            match r2 {
                None => {
                    assert(!tau_accepts(c.elem_tau(i1, ray), m));
                },
                Some(d2) => {
                    let i2 = choose|i: int|
                        0 <= i < c.count_spec() && tau_accepts(#[trigger] c.elem_tau(i, ray), m)
                            && elem_hit_data_ok(c, i, ray, d2);
                    c.lemma_elem_tau_ok(i1, ray);
                    c.lemma_elem_tau_ok(i2, ray);
                    let tau1 = c.elem_tau(i1, ray).unwrap();
                    let tau2 = c.elem_tau(i2, ray).unwrap();
                    assert(tau_ge(c.elem_tau(i1, ray), d2.t as int));
                    assert(tau_ge(c.elem_tau(i2, ray), d1.t as int));
                    lemma_rat_floor_ge(tau1.0, tau1.1, d2.t as int);
                    lemma_rat_floor_ge(tau2.0, tau2.1, d1.t as int);
                },
            }
        },
    }
}

} // verus!
