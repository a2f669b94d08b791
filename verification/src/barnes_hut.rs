//! The Barnes-Hut quadtree: square regions of the plane, a tree of them that
//! aggregates mass and center of mass, and the approximate force it yields.

use vstd::prelude::*;
use vstd::multiset::Multiset;
use crate::types::{
    Field, lt, lt_spec, same, same_spec, larger, larger_spec, smaller, smaller_spec, half,
    half_spec, ten, ten_spec, div, div_spec, pt, vec_add, vec_sub, vec_dot,
};
use crate::physics::PhysicsObject;

verus! {

/// An axis-aligned rectangle: its lower-left corner and its extent.
#[derive(Debug)]
pub struct Bounds<K: Field> {
    /// The left edge.
    pub x: K,
    /// The bottom edge.
    pub y: K,
    pub width: K,
    pub height: K,
}

impl<K: Field> Clone for Bounds<K> {
    fn clone(&self) -> (r: Self)
        ensures
            r == *self,
    {
        *self
    }
}

impl<K: Field> Copy for Bounds<K> {

}

impl<K: Field> Bounds<K> {
    /// The rectangle with lower-left corner `(x, y)` and the given extent.
    pub fn new(x: K, y: K, width: K, height: K) -> (r: Self)
        ensures
            r == (Bounds { x, y, width, height }),
    {
        Bounds { x, y, width, height }
    }

    /// Membership in the half-open rectangle `[x, x + width) x [y, y + height)`.
    pub open spec fn contains_spec(self, p: (K, K)) -> bool {
        &&& self.x.le_spec(p.0)
        &&& lt_spec(p.0, self.x.add_spec(self.width))
        &&& self.y.le_spec(p.1)
        &&& lt_spec(p.1, self.y.add_spec(self.height))
    }

    /// The middle of the rectangle along the first axis.
    pub open spec fn center_x_spec(self) -> K {
        self.x.add_spec(self.width.mul_spec(half_spec::<K>()))
    }

    /// The middle of the rectangle along the second axis.
    pub open spec fn center_y_spec(self) -> K {
        self.y.add_spec(self.height.mul_spec(half_spec::<K>()))
    }

    /// The quadrant of `p` relative to the center: 0 is north-west, 1
    /// north-east, 2 south-west, 3 south-east. A point on a center line counts
    /// as north, respectively east.
    pub open spec fn quadrant_spec(self, p: (K, K)) -> usize {
        let east = self.center_x_spec().le_spec(p.0);
        let north = self.center_y_spec().le_spec(p.1);
        if north {
            if east {
                1
            } else {
                0
            }
        } else {
            if east {
                3
            } else {
                2
            }
        }
    }

    /// The quarter of this rectangle that lies in `quadrant`.
    pub open spec fn subdivide_spec(self, quadrant: usize) -> Bounds<K> {
        let half_w = self.width.mul_spec(half_spec::<K>());
        let half_h = self.height.mul_spec(half_spec::<K>());
        let cx = self.center_x_spec();
        let cy = self.center_y_spec();
        if quadrant == 0 {
            Bounds { x: self.x, y: cy, width: half_w, height: half_h }
        } else if quadrant == 1 {
            Bounds { x: cx, y: cy, width: half_w, height: half_h }
        } else if quadrant == 2 {
            Bounds { x: self.x, y: self.y, width: half_w, height: half_h }
        } else {
            Bounds { x: cx, y: self.y, width: half_w, height: half_h }
        }
    }

    /// Whether the point `(px, py)` lies in the rectangle; the upper edges
    /// do not belong to it.
    pub fn contains(&self, px: K, py: K) -> (r: bool)
        ensures
            r == self.contains_spec((px, py)),
    {
        self.x.le(px) && lt(px, self.x.add(self.width)) && self.y.le(py) && lt(
            py,
            self.y.add(self.height),
        )
    }

    /// Computes `center_x_spec`.
    pub fn center_x(&self) -> (r: K)
        ensures
            r == self.center_x_spec(),
    {
        self.x.add(self.width.mul(half::<K>()))
    }

    /// Computes `center_y_spec`.
    pub fn center_y(&self) -> (r: K)
        ensures
            r == self.center_y_spec(),
    {
        self.y.add(self.height.mul(half::<K>()))
    }

    /// The quadrant of the point `(px, py)`: 0 north-west, 1 north-east, 2
    /// south-west, 3 south-east.
    pub fn quadrant(&self, px: K, py: K) -> (r: usize)
        ensures
            r == self.quadrant_spec((px, py)),
            r < 4,
    {
        let cx = self.center_x();
        let cy = self.center_y();
        let east = cx.le(px);
        let north = cy.le(py);
        match (north, east) {
            (true, false) => 0,
            (true, true) => 1,
            (false, false) => 2,
            (false, true) => 3,
        }
    }

    /// The quarter of the rectangle in `quadrant`, which is below four.
    pub fn subdivide(&self, quadrant: usize) -> (r: Bounds<K>)
        requires
            quadrant < 4,
        ensures
            r == self.subdivide_spec(quadrant),
    {
        let half_w = self.width.mul(half::<K>());
        let half_h = self.height.mul(half::<K>());
        let cx = self.center_x();
        let cy = self.center_y();
        match quadrant {
            0 => Bounds::new(self.x, cy, half_w, half_h),
            1 => Bounds::new(cx, cy, half_w, half_h),
            2 => Bounds::new(self.x, self.y, half_w, half_h),
            _ => Bounds::new(cx, self.y, half_w, half_h),
        }
    }
}

/// How many times a tree may be subdivided below its root. A leaf at this
/// depth absorbs every further particle into its aggregate instead of
/// splitting, so that particles at one and the same position cannot make the
/// tree grow without end.
pub const MAX_DEPTH: usize = 64;

/// A particle as a tree sees it: its index in the particle array, its
/// position and its mass.
pub struct Body<K: Field> {
    pub index: usize,
    pub pos: (K, K),
    pub mass: K,
}

/// The total mass of a node of mass `total` after it absorbed `mass`.
pub open spec fn merged_mass<K: Field>(total: K, mass: K) -> K {
    total.add_spec(mass)
}

/// One coordinate of the mass-weighted average of `center` (weight `total`)
/// and `p` (weight `mass`).
pub open spec fn weighted_mean<K: Field>(center: K, total: K, p: K, mass: K) -> K {
    div_spec(center.mul_spec(total).add_spec(p.mul_spec(mass)), total.add_spec(mass))
}

/// The center of mass of a node with center `center` and mass `total` after it
/// absorbed a particle of mass `mass` at `p`: the mass-weighted average of the
/// two, or `center` unchanged where the new total mass is not positive.
pub open spec fn merged_center<K: Field>(center: (K, K), total: K, p: (K, K), mass: K) -> (K, K) {
    if lt_spec(K::zero_spec(), total.add_spec(mass)) {
        (weighted_mean(center.0, total, p.0, mass), weighted_mean(center.1, total, p.1, mass))
    } else {
        center
    }
}

/// The mass a node aggregates from the bodies `ms`, absorbed in order.
pub open spec fn total_of<K: Field>(ms: Seq<Body<K>>) -> K
    decreases ms.len(),
{
    if ms.len() == 0 {
        K::zero_spec()
    } else {
        merged_mass(total_of(ms.drop_last()), ms.last().mass)
    }
}

/// The center of mass a node aggregates from the bodies `ms`, absorbed in order.
pub open spec fn center_of<K: Field>(ms: Seq<Body<K>>) -> (K, K)
    decreases ms.len(),
{
    if ms.len() == 0 {
        (K::zero_spec(), K::zero_spec())
    } else {
        merged_center(
            center_of(ms.drop_last()),
            total_of(ms.drop_last()),
            ms.last().pos,
            ms.last().mass,
        )
    }
}

/// What a leaf knows of its single resident `first` when it has to hand it
/// down: the resident's index, with the leaf's aggregate position and mass.
pub open spec fn resident<K: Field>(first: Body<K>) -> Body<K> {
    Body {
        index: first.index,
        pos: center_of(Seq::empty().push(first)),
        mass: total_of(Seq::empty().push(first)),
    }
}

/// Whether a node with bounds `b` hands `body` to its child `quadrant` and
/// that child accepts it.
pub open spec fn goes<K: Field>(b: Bounds<K>, body: Body<K>, quadrant: usize) -> bool {
    b.quadrant_spec(body.pos) == quadrant && b.subdivide_spec(quadrant).contains_spec(body.pos)
}

/// `acc` with `body` appended where `body` goes to child `quadrant`.
pub open spec fn taken<K: Field>(
    b: Bounds<K>,
    quadrant: usize,
    acc: Seq<Body<K>>,
    body: Body<K>,
) -> Seq<Body<K>> {
    if goes(b, body, quadrant) {
        acc.push(body)
    } else {
        acc
    }
}

/// The bodies that the child `quadrant` of a node absorbed, in order, where
/// the node has bounds `b` and absorbed `ms`. Nothing is handed down before
/// the second body arrives; then the newcomer goes first and the former
/// resident second; every later body follows as it comes.
pub open spec fn child_members<K: Field>(b: Bounds<K>, ms: Seq<Body<K>>, quadrant: usize) -> Seq<
    Body<K>,
>
    decreases ms.len(),
{
    if ms.len() < 2 {
        Seq::empty()
    } else if ms.len() == 2 {
        taken(b, quadrant, taken(b, quadrant, Seq::empty(), ms[1]), resident(ms[0]))
    } else {
        taken(b, quadrant, child_members(b, ms.drop_last(), quadrant), ms.last())
    }
}

/// The four children of an internal node, by quadrant.
pub struct Quadrants<K: Field> {
    pub nw: QuadTree<K>,
    pub ne: QuadTree<K>,
    pub sw: QuadTree<K>,
    pub se: QuadTree<K>,
}

/// A node of the quadtree with everything below it.
pub struct QuadTree<K: Field> {
    pub bounds: Bounds<K>,
    pub center_of_mass: [K; 2],
    pub total_mass: K,
    pub children: Option<Box<Quadrants<K>>>,
    /// For a leaf: the index of its resident particle, if it has one.
    pub particle_index: Option<usize>,
    /// The bodies this node absorbed, in the order of their arrival.
    pub members: Ghost<Seq<Body<K>>>,
}

/// The tree that a node with bounds `b` becomes when it absorbs the bodies
/// `ms` in order and may still be subdivided `depth` times.
pub open spec fn tree_of<K: Field>(b: Bounds<K>, ms: Seq<Body<K>>, depth: nat) -> QuadTree<K>
    decreases depth,
{
    let leaf = ms.len() < 2 || depth == 0;
    QuadTree {
        bounds: b,
        center_of_mass: [center_of(ms).0, center_of(ms).1],
        total_mass: total_of(ms),
        children: if leaf {
            None
        } else {
            Some(
                Box::new(
                    Quadrants {
                        nw: tree_of(b.subdivide_spec(0), child_members(b, ms, 0), (depth - 1) as nat),
                        ne: tree_of(b.subdivide_spec(1), child_members(b, ms, 1), (depth - 1) as nat),
                        sw: tree_of(b.subdivide_spec(2), child_members(b, ms, 2), (depth - 1) as nat),
                        se: tree_of(b.subdivide_spec(3), child_members(b, ms, 3), (depth - 1) as nat),
                    },
                ),
            )
        },
        particle_index: if leaf && ms.len() > 0 {
            Some(ms[0].index)
        } else {
            None
        },
        members: Ghost(ms),
    }
}

/// The tree over `b` that holds no particle.
pub open spec fn empty_node<K: Field>(b: Bounds<K>) -> QuadTree<K> {
    tree_of(b, Seq::empty(), 0)
}

/// An empty tree is the same at every depth.
pub proof fn lemma_empty_any_depth<K: Field>(b: Bounds<K>, depth: nat)
    ensures
        tree_of(b, Seq::empty(), depth) == empty_node(b),
{
    lemma_tree_eq(tree_of(b, Seq::empty(), depth), empty_node(b));
}

/// The bounds and the members of a tree are those it was made from.
pub proof fn lemma_tree_fields<K: Field>(b: Bounds<K>, ms: Seq<Body<K>>, depth: nat)
    ensures
        tree_of(b, ms, depth).bounds == b,
        tree_of(b, ms, depth).members@ == ms,
        tree_of(b, ms, depth).wf_at(depth),
{
}

/// `ms` with `body` appended where `b` contains it.
pub open spec fn grown<K: Field>(b: Bounds<K>, ms: Seq<Body<K>>, body: Body<K>) -> Seq<Body<K>> {
    if b.contains_spec(body.pos) {
        ms.push(body)
    } else {
        ms
    }
}

/// The body that stands for particle `i` of `ps`.
pub open spec fn body_at<K: Field>(ps: Seq<PhysicsObject<K>>, i: int) -> Body<K> {
    Body { index: i as usize, pos: pt(ps[i].position_vector), mass: ps[i].mass }
}

/// The bodies that stand for the first `n` particles of `ps`.
pub open spec fn bodies_of<K: Field>(ps: Seq<PhysicsObject<K>>, n: nat) -> Seq<Body<K>> {
    Seq::new(n, |i: int| body_at(ps, i))
}

/// The bodies that a root over `b` absorbs from the first `n` particles of
/// `ps`, inserted in order: those that `b` contains.
pub open spec fn absorbed<K: Field>(b: Bounds<K>, ps: Seq<PhysicsObject<K>>, n: nat) -> Seq<Body<K>>
    decreases n,
{
    if n == 0 {
        Seq::empty()
    } else {
        grown(b, absorbed(b, ps, (n - 1) as nat), body_at(ps, n - 1))
    }
}

/// The least and the greatest coordinates among the first `n` particles of
/// `ps`, as `(min_x, max_x, min_y, max_y)`. There is at least one particle.
pub open spec fn extent<K: Field>(ps: Seq<PhysicsObject<K>>, n: nat) -> (K, K, K, K)
    decreases n,
{
    if n <= 1 {
        let p = pt(ps[0].position_vector);
        (p.0, p.0, p.1, p.1)
    } else {
        let e = extent(ps, (n - 1) as nat);
        let p = pt(ps[n - 1].position_vector);
        (smaller_spec(e.0, p.0), larger_spec(e.1, p.0), smaller_spec(e.2, p.1), larger_spec(e.3, p.1))
    }
}

/// The margin left between the particles and the edge of a tree built over them.
pub open spec fn padding_spec<K: Field>() -> K {
    ten_spec::<K>()
}

/// The root bounds for the particles `ps`: their bounding box, widened by the
/// padding on every side and made square by its longer side. The unit square
/// where there is no particle.
pub open spec fn enclosing<K: Field>(ps: Seq<PhysicsObject<K>>) -> Bounds<K> {
    if ps.len() == 0 {
        Bounds { x: K::zero_spec(), y: K::zero_spec(), width: K::one_spec(), height: K::one_spec() }
    } else {
        let e = extent(ps, ps.len());
        let min_x = e.0.sub_spec(padding_spec::<K>());
        let max_x = e.1.add_spec(padding_spec::<K>());
        let min_y = e.2.sub_spec(padding_spec::<K>());
        let max_y = e.3.add_spec(padding_spec::<K>());
        let size = larger_spec(max_x.sub_spec(min_x), max_y.sub_spec(min_y));
        Bounds { x: min_x, y: min_y, width: size, height: size }
    }
}

/// The tree over the particles `ps` with the root bounds `b`.
pub open spec fn built<K: Field>(ps: Seq<PhysicsObject<K>>, b: Bounds<K>) -> QuadTree<K> {
    tree_of(b, absorbed(b, ps, ps.len()), MAX_DEPTH as nat)
}

/// The softened attraction of a point mass: the acceleration that the mass
/// `mass`, displaced by `d` from a test point, gives to that point. With
/// `r2 = |d|^2 + softening_sq` it is `d * (g * mass) / (r2 * sqrt(r2))`.
pub open spec fn pull_spec<K: Field>(d: (K, K), mass: K, g: K, softening_sq: K) -> (K, K) {
    let r_sq = vec_dot(d, d).add_spec(softening_sq);
    let factor = div_spec(mass.mul_spec(g), r_sq.mul_spec(r_sq.sqrt_spec()));
    (d.0.mul_spec(factor), d.1.mul_spec(factor))
}

/// Whether a node of bounds `b` is far enough from a point at squared
/// distance `dist_sq` to count as one point mass: with `s` the longer side,
/// `s^2 < theta^2 * dist_sq`.
pub open spec fn far_enough<K: Field>(b: Bounds<K>, theta: K, dist_sq: K) -> bool {
    let side = larger_spec(b.width, b.height);
    lt_spec(side.mul_spec(side), theta.mul_spec(theta).mul_spec(dist_sq))
}

/// The softened attraction, computed.
pub fn pull<K: Field>(d: [K; 2], mass: K, g: K, softening_sq: K) -> (r: [K; 2])
    ensures
        pt(r) == pull_spec(pt(d), mass, g, softening_sq),
{
    let r_sq = d[0].mul(d[0]).add(d[1].mul(d[1])).add(softening_sq);
    let factor = div(mass.mul(g), r_sq.mul(r_sq.sqrt()));
    [d[0].mul(factor), d[1].mul(factor)]
}

/// Two nodes are equal when their fields are.
pub proof fn lemma_tree_eq<K: Field>(a: QuadTree<K>, b: QuadTree<K>)
    requires
        a.bounds == b.bounds,
        pt(a.center_of_mass) == pt(b.center_of_mass),
        a.total_mass == b.total_mass,
        a.children == b.children,
        a.particle_index == b.particle_index,
        a.members@ == b.members@,
    ensures
        a == b,
{
    assert(a.center_of_mass@ =~= b.center_of_mass@);
    assert(a.center_of_mass == b.center_of_mass);
    assert(a.members == b.members);
}

/// Appending a body to two or more bodies hands it down and changes nothing
/// else below.
pub proof fn lemma_child_members_push<K: Field>(
    b: Bounds<K>,
    ms: Seq<Body<K>>,
    body: Body<K>,
    quadrant: usize,
)
    requires
        ms.len() >= 2,
    ensures
        child_members(b, ms.push(body), quadrant) == taken(
            b,
            quadrant,
            child_members(b, ms, quadrant),
            body,
        ),
{
    assert(ms.push(body).drop_last() =~= ms);
}

/// The aggregates of a node after one more body.
pub proof fn lemma_aggregate_push<K: Field>(ms: Seq<Body<K>>, body: Body<K>)
    ensures
        total_of(ms.push(body)) == merged_mass(total_of(ms), body.mass),
        center_of(ms.push(body)) == merged_center(center_of(ms), total_of(ms), body.pos, body.mass),
{
    assert(ms.push(body).drop_last() =~= ms);
}

impl<K: Field> Quadrants<K> {
    /// The child in `quadrant`.
    pub open spec fn child(self, quadrant: usize) -> QuadTree<K> {
        if quadrant == 0 {
            self.nw
        } else if quadrant == 1 {
            self.ne
        } else if quadrant == 2 {
            self.sw
        } else {
            self.se
        }
    }

    /// Inserts into the child in `quadrant` and leaves the others alone.
    fn insert_into(&mut self, quadrant: usize, index: usize, pos: [K; 2], mass: K, depth: usize)
        requires
            quadrant < 4,
            old(self).child(quadrant).wf_at(depth as nat),
        ensures
            final(self).child(quadrant) == tree_of(
                old(self).child(quadrant).bounds,
                grown(
                    old(self).child(quadrant).bounds,
                    old(self).child(quadrant).members@,
                    Body { index, pos: pt(pos), mass },
                ),
                depth as nat,
            ),
            forall|other: usize| other < 4 && other != quadrant ==> final(self).child(other) == old(self).child(other),
        decreases depth, 1nat,
    {
        match quadrant {
            0 => self.nw.insert_within(index, pos, mass, depth),
            1 => self.ne.insert_within(index, pos, mass, depth),
            2 => self.sw.insert_within(index, pos, mass, depth),
            _ => self.se.insert_within(index, pos, mass, depth),
        }
    }
}

impl<K: Field> QuadTree<K> {
    /// The node is what its bounds and the bodies it absorbed make it, as a
    /// node that may still be subdivided `depth` times.
    pub open spec fn wf_at(self, depth: nat) -> bool {
        self == tree_of(self.bounds, self.members@, depth)
    }

    /// Whether `node` is this node or a node below it.
    pub open spec fn has_node(self, node: QuadTree<K>) -> bool
        decreases self,
    {
        self == node || match self.children {
            Some(c) => c.nw.has_node(node) || c.ne.has_node(node) || c.sw.has_node(node) || c.se.has_node(
                node,
            ),
            None => false,
        }
    }

    /// The bodies that the leaves of this subtree hold, all together.
    pub open spec fn leaf_bodies(self) -> Multiset<Body<K>>
        decreases self,
    {
        match self.children {
            Some(c) => c.nw.leaf_bodies().add(c.ne.leaf_bodies()).add(c.sw.leaf_bodies()).add(
                c.se.leaf_bodies(),
            ),
            None => self.members@.to_multiset(),
        }
    }

    /// Well-formedness of a root.
    pub open spec fn wf(self) -> bool {
        self.wf_at(MAX_DEPTH as nat)
    }

    /// The node without particles over `bounds`.
    pub fn empty(bounds: Bounds<K>) -> (r: Self)
        ensures
            r == empty_node(bounds),
            r.wf(),
    {
        let r = QuadTree {
            bounds,
            center_of_mass: [K::zero(), K::zero()],
            total_mass: K::zero(),
            children: None,
            particle_index: None,
            members: Ghost(Seq::empty()),
        };
        proof {
            lemma_tree_eq(r, empty_node(bounds));
            lemma_empty_any_depth(bounds, MAX_DEPTH as nat);
        }
        r
    }

    /// Inserts the particle `index` of mass `mass` at `pos`. A position outside
    /// the bounds is dropped without a trace.
    pub fn insert(&mut self, index: usize, pos: [K; 2], mass: K)
        requires
            old(self).wf(),
        ensures
            *final(self) == tree_of(
                old(self).bounds,
                grown(old(self).bounds, old(self).members@, Body { index, pos: pt(pos), mass }),
                MAX_DEPTH as nat,
            ),
            final(self).wf(),
    {
        self.insert_within(index, pos, mass, MAX_DEPTH);
    }

    /// `insert` for a node that may still be subdivided `depth` times.
    fn insert_within(&mut self, index: usize, pos: [K; 2], mass: K, depth: usize)
        requires
            old(self).wf_at(depth as nat),
        ensures
            *final(self) == tree_of(
                old(self).bounds,
                grown(old(self).bounds, old(self).members@, Body { index, pos: pt(pos), mass }),
                depth as nat,
            ),
        decreases depth, 0nat,
    {
        if !self.bounds.contains(pos[0], pos[1]) {
            return ;
        }
        let ghost b = self.bounds;
        let ghost ms = self.members@;
        let ghost body = Body { index, pos: pt(pos), mass };
        let ghost after = ms.push(body);
        let old_center = self.center_of_mass;
        let old_total = self.total_mass;
        let new_total = old_total.add(mass);
        if lt(K::zero(), new_total) {
            self.center_of_mass = [
                div(old_center[0].mul(old_total).add(pos[0].mul(mass)), new_total),
                div(old_center[1].mul(old_total).add(pos[1].mul(mass)), new_total),
            ];
        }
        self.total_mass = new_total;
        self.members = Ghost(after);
        proof {
            lemma_aggregate_push(ms, body);
        }
        match self.particle_index {
            None => {
                if self.children.is_some() {
                    let quadrant = self.bounds.quadrant(pos[0], pos[1]);
                    proof {
                        lemma_tree_fields(b.subdivide_spec(0), child_members(b, ms, 0), (depth - 1) as nat);
                        lemma_tree_fields(b.subdivide_spec(1), child_members(b, ms, 1), (depth - 1) as nat);
                        lemma_tree_fields(b.subdivide_spec(2), child_members(b, ms, 2), (depth - 1) as nat);
                        lemma_tree_fields(b.subdivide_spec(3), child_members(b, ms, 3), (depth - 1) as nat);
                    }
                    match &mut self.children {
                        Some(c) => {
                            c.insert_into(quadrant, index, pos, mass, depth - 1);
                        },
                        None => {},
                    }
                    proof {
                        lemma_child_members_push(b, ms, body, 0);
                        lemma_child_members_push(b, ms, body, 1);
                        lemma_child_members_push(b, ms, body, 2);
                        lemma_child_members_push(b, ms, body, 3);
                        let target = tree_of(b, after, depth as nat);
                        assert(self.children.unwrap().child(0) == target.children.unwrap().child(0));
                        assert(self.children.unwrap().child(1) == target.children.unwrap().child(1));
                        assert(self.children.unwrap().child(2) == target.children.unwrap().child(2));
                        assert(self.children.unwrap().child(3) == target.children.unwrap().child(3));
                        assert(self.children == target.children);
                    }
                } else {
                    self.particle_index = Some(index);
                }
            },
            Some(old_index) => {
                if depth > 0 {
                    self.particle_index = None;
                    self.subdivide();
                    proof {
                        lemma_empty_any_depth(b.subdivide_spec(0), (depth - 1) as nat);
                        lemma_empty_any_depth(b.subdivide_spec(1), (depth - 1) as nat);
                        lemma_empty_any_depth(b.subdivide_spec(2), (depth - 1) as nat);
                        lemma_empty_any_depth(b.subdivide_spec(3), (depth - 1) as nat);
                        lemma_tree_fields(b.subdivide_spec(0), Seq::empty(), (depth - 1) as nat);
                        lemma_tree_fields(b.subdivide_spec(1), Seq::empty(), (depth - 1) as nat);
                        lemma_tree_fields(b.subdivide_spec(2), Seq::empty(), (depth - 1) as nat);
                        lemma_tree_fields(b.subdivide_spec(3), Seq::empty(), (depth - 1) as nat);
                        assert(ms =~= Seq::empty().push(ms[0]));
                    }
                    let quadrant = self.bounds.quadrant(pos[0], pos[1]);
                    let old_quadrant = self.bounds.quadrant(old_center[0], old_center[1]);
                    match &mut self.children {
                        Some(c) => {
                            c.insert_into(quadrant, index, pos, mass, depth - 1);
                            proof {
                                lemma_tree_fields(
                                    b.subdivide_spec(quadrant),
                                    grown(b.subdivide_spec(quadrant), Seq::empty(), body),
                                    (depth - 1) as nat,
                                );
                            }
                            c.insert_into(old_quadrant, old_index, old_center, old_total, depth - 1);
                        },
                        None => {},
                    }
                    proof {
                        let target = tree_of(b, after, depth as nat);
                        assert(after[0] == ms[0] && after[1] == body);
                        assert(self.children.unwrap().child(0) == target.children.unwrap().child(0));
                        assert(self.children.unwrap().child(1) == target.children.unwrap().child(1));
                        assert(self.children.unwrap().child(2) == target.children.unwrap().child(2));
                        assert(self.children.unwrap().child(3) == target.children.unwrap().child(3));
                        assert(self.children == target.children);
                    }
                }
            },
        }
        proof {
            lemma_tree_eq(*self, tree_of(b, after, depth as nat));
        }
    }

    /// The acceleration that this subtree gives to a test point at `p`,
    /// leaving out the particle `skip_index`.
    ///
    /// A node without mass gives none, and neither does a leaf whose resident
    /// is `skip_index`. A leaf, and an internal node that is far enough for
    /// `theta`, pulls as one point mass at its center of mass. Any other node
    /// gives the sum of what its four children give.
    pub open spec fn force_spec(self, p: (K, K), theta: K, g: K, softening_sq: K, skip_index: usize) -> (
        K,
        K,
    )
        decreases self,
    {
        let d = vec_sub(pt(self.center_of_mass), p);
        if same_spec(self.total_mass, K::zero_spec()) {
            (K::zero_spec(), K::zero_spec())
        } else if self.children is None && self.particle_index == Some(skip_index) {
            (K::zero_spec(), K::zero_spec())
        } else if self.children is None || far_enough(self.bounds, theta, vec_dot(d, d)) {
            pull_spec(d, self.total_mass, g, softening_sq)
        } else {
            let c = self.children.unwrap();
            let zero = (K::zero_spec(), K::zero_spec());
            vec_add(
                vec_add(
                    vec_add(
                        vec_add(zero, c.nw.force_spec(p, theta, g, softening_sq, skip_index)),
                        c.ne.force_spec(p, theta, g, softening_sq, skip_index),
                    ),
                    c.sw.force_spec(p, theta, g, softening_sq, skip_index),
                ),
                c.se.force_spec(p, theta, g, softening_sq, skip_index),
            )
        }
    }

    /// The acceleration that this subtree gives to a test point at `p` where
    /// no internal node counts as one point mass: every internal node gives the
    /// sum of what its children give, and only the leaves pull.
    pub open spec fn opened_force_spec(self, p: (K, K), g: K, softening_sq: K, skip_index: usize) -> (K, K)
        decreases self,
    {
        let d = vec_sub(pt(self.center_of_mass), p);
        if same_spec(self.total_mass, K::zero_spec()) {
            (K::zero_spec(), K::zero_spec())
        } else if self.children is None && self.particle_index == Some(skip_index) {
            (K::zero_spec(), K::zero_spec())
        } else if self.children is None {
            pull_spec(d, self.total_mass, g, softening_sq)
        } else {
            let c = self.children.unwrap();
            let zero = (K::zero_spec(), K::zero_spec());
            vec_add(
                vec_add(
                    vec_add(
                        vec_add(zero, c.nw.opened_force_spec(p, g, softening_sq, skip_index)),
                        c.ne.opened_force_spec(p, g, softening_sq, skip_index),
                    ),
                    c.sw.opened_force_spec(p, g, softening_sq, skip_index),
                ),
                c.se.opened_force_spec(p, g, softening_sq, skip_index),
            )
        }
    }

    /// Computes `force_spec`: `theta` is the opening angle, `g` the
    /// gravitational constant, `softening_sq` the square of the softening length.
    pub fn calculate_force(&self, pos: [K; 2], theta: K, g: K, softening_sq: K, skip_index: usize) -> (r: [K; 2])
        ensures
            pt(r) == self.force_spec(pt(pos), theta, g, softening_sq, skip_index),
        decreases self,
    {
        if same(self.total_mass, K::zero()) {
            return [K::zero(), K::zero()];
        }
        let d = [self.center_of_mass[0].sub(pos[0]), self.center_of_mass[1].sub(pos[1])];
        let dist_sq = d[0].mul(d[0]).add(d[1].mul(d[1]));
        match &self.children {
            None => {
                if let Some(resident) = self.particle_index {
                    if resident == skip_index {
                        return [K::zero(), K::zero()];
                    }
                }
                pull(d, self.total_mass, g, softening_sq)
            },
            Some(c) => {
                let side = larger(self.bounds.width, self.bounds.height);
                if lt(side.mul(side), theta.mul(theta).mul(dist_sq)) {
                    pull(d, self.total_mass, g, softening_sq)
                } else {
                    let nw = c.nw.calculate_force(pos, theta, g, softening_sq, skip_index);
                    let ne = c.ne.calculate_force(pos, theta, g, softening_sq, skip_index);
                    let sw = c.sw.calculate_force(pos, theta, g, softening_sq, skip_index);
                    let se = c.se.calculate_force(pos, theta, g, softening_sq, skip_index);
                    [
                        K::zero().add(nw[0]).add(ne[0]).add(sw[0]).add(se[0]),
                        K::zero().add(nw[1]).add(ne[1]).add(sw[1]).add(se[1]),
                    ]
                }
            },
        }
    }

    /// The tree with root bounds `bounds` that holds the particles, inserted
    /// in the order of the slice. A particle outside `bounds` is left out.
    pub fn build(particles: &[PhysicsObject<K>], bounds: Bounds<K>) -> (r: Self)
        ensures
            r == built(particles@, bounds),
            r.wf(),
    {
        let mut root = Self::empty(bounds);
        proof {
            lemma_empty_any_depth(bounds, MAX_DEPTH as nat);
            lemma_tree_fields(bounds, Seq::empty(), MAX_DEPTH as nat);
        }
        let mut i: usize = 0;
        while i < particles.len()
            invariant
                i <= particles@.len(),
                root == tree_of(bounds, absorbed(bounds, particles@, i as nat), MAX_DEPTH as nat),
            decreases particles@.len() - i,
        {
            proof {
                lemma_tree_fields(bounds, absorbed(bounds, particles@, i as nat), MAX_DEPTH as nat);
            }
            root.insert(i, particles[i].position_vector, particles[i].mass);
            i += 1;
        }
        proof {
            lemma_tree_fields(bounds, absorbed(bounds, particles@, i as nat), MAX_DEPTH as nat);
        }
        root
    }

    /// Gives this node four empty children, one per quadrant.
    fn subdivide(&mut self)
        ensures
            final(self).bounds == old(self).bounds,
            final(self).center_of_mass == old(self).center_of_mass,
            final(self).total_mass == old(self).total_mass,
            final(self).particle_index == old(self).particle_index,
            final(self).members == old(self).members,
            final(self).children is Some,
            forall|quadrant: usize|
                quadrant < 4 ==> #[trigger] final(self).children.unwrap().child(quadrant) == empty_node(
                    old(self).bounds.subdivide_spec(quadrant),
                ),
    {
        self.children = Some(
            Box::new(
                Quadrants {
                    nw: QuadTree::empty(self.bounds.subdivide(0)),
                    ne: QuadTree::empty(self.bounds.subdivide(1)),
                    sw: QuadTree::empty(self.bounds.subdivide(2)),
                    se: QuadTree::empty(self.bounds.subdivide(3)),
                },
            ),
        );
    }
}

/// The tree over the particles, with root bounds that enclose them all.
pub fn build_tree<K: Field>(particles: &[PhysicsObject<K>]) -> (r: QuadTree<K>)
    ensures
        r == built(particles@, enclosing(particles@)),
        r.wf(),
{
    if particles.len() == 0 {
        let unit = Bounds::new(K::zero(), K::zero(), K::one(), K::one());
        proof {
            lemma_empty_any_depth(unit, MAX_DEPTH as nat);
        }
        return QuadTree::empty(unit);
    }
    let first = particles[0].position_vector;
    let mut min_x = first[0];
    let mut max_x = first[0];
    let mut min_y = first[1];
    let mut max_y = first[1];
    let mut i: usize = 1;
    while i < particles.len()
        invariant
            1 <= i <= particles@.len(),
            (min_x, max_x, min_y, max_y) == extent(particles@, i as nat),
        decreases particles@.len() - i,
    {
        let p = particles[i].position_vector;
        min_x = smaller(min_x, p[0]);
        max_x = larger(max_x, p[0]);
        min_y = smaller(min_y, p[1]);
        max_y = larger(max_y, p[1]);
        i += 1;
    }
    let padding = ten::<K>();
    min_x = min_x.sub(padding);
    min_y = min_y.sub(padding);
    max_x = max_x.add(padding);
    max_y = max_y.add(padding);
    let width = max_x.sub(min_x);
    let height = max_y.sub(min_y);
    let size = larger(width, height);
    let bounds = Bounds::new(min_x, min_y, size, size);
    QuadTree::build(particles, bounds)
}

} // verus!
