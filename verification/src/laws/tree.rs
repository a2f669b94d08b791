//! Every node of a tree aggregates what lies below it.

use vstd::prelude::*;
use vstd::multiset::Multiset;
use vstd::seq_lib::to_multiset_build;
use crate::types::{Field, lt_spec, pt};
use crate::exact::{
    exact, rv, times, lemma_rv_constants, lemma_rv_add, lemma_rv_injective, lemma_rv_le,
    lemma_times_cancels, lemma_times_commutes, lemma_times_units,
};
use crate::physics::PhysicsObject;
use crate::barnes_hut::{
    Body, Bounds, QuadTree, absorbed, body_at, built, center_of, child_members, enclosing,
    goes, grown,
    lemma_tree_fields, resident, taken, total_of, tree_of, weighted_mean, MAX_DEPTH,
};
use crate::laws::aggregate::{
    lemma_aggregate_any_order, lemma_center_is_mean, lemma_mass_sum_positive, lemma_total_is_sum,
    lemma_weighted_mean, mass_sum, masses_above_zero, moment_x, moment_y, weights,
};
use crate::laws::bounds::{lemma_nothing_dropped, lemma_subdivide_tiles};

verus! {

/// The bodies `ms` all lie within `b` and have masses above zero.
pub open spec fn sound<K: Field>(b: Bounds<K>, ms: Seq<Body<K>>) -> bool {
    forall|i: int| 0 <= i < ms.len() ==> b.contains_spec((#[trigger] ms[i]).pos) && rv(ms[i].mass) > 0real
}

/// A leaf knows its single resident exactly: what it hands down is the body
/// that came.
pub proof fn lemma_resident_exact<K: Field>(first: Body<K>)
    requires
        exact::<K>(),
        rv(first.mass) > 0real,
    ensures
        resident(first) == first,
{
    let zero = K::zero_spec();
    let one_body = Seq::<Body<K>>::empty().push(first);
    assert(one_body.drop_last() =~= Seq::<Body<K>>::empty());
    assert(one_body.last() == first);
    assert(total_of(one_body.drop_last()) == zero);
    assert(center_of(one_body.drop_last()) == (zero, zero));
    lemma_rv_constants::<K>();
    lemma_rv_add(zero, first.mass);
    lemma_rv_le(zero, zero.add_spec(first.mass));
    lemma_rv_injective(total_of(one_body), first.mass);
    lemma_mean_of_one(first.pos.0, first.mass);
    lemma_mean_of_one(first.pos.1, first.mass);
}

/// The weighted mean of nothing and one body is the place of that body.
proof fn lemma_mean_of_one<K: Field>(p: K, mass: K)
    requires
        exact::<K>(),
        rv(mass) > 0real,
    ensures
        weighted_mean(K::zero_spec(), K::zero_spec(), p, mass) == p,
{
    let zero = K::zero_spec();
    let q = rv(weighted_mean(zero, zero, p, mass));
    lemma_rv_constants::<K>();
    lemma_weighted_mean(zero, zero, p, mass);
    lemma_times_units(0real);
    lemma_times_commutes(rv(mass), rv(p));
    lemma_times_cancels(q, rv(p), rv(mass));
    lemma_rv_injective(weighted_mean(zero, zero, p, mass), p);
}

/// A body within a node goes to one child, the one of its quadrant.
proof fn lemma_goes_to_its_quadrant<K: Field>(b: Bounds<K>, body: Body<K>)
    requires
        exact::<K>(),
        b.contains_spec(body.pos),
    ensures
        b.quadrant_spec(body.pos) < 4,
        forall|quadrant: usize| quadrant < 4 ==> (#[trigger] goes(b, body, quadrant) <==> quadrant == b.quadrant_spec(body.pos)),
        forall|quadrant: usize| goes(b, body, quadrant) ==> b.subdivide_spec(quadrant).contains_spec(body.pos),
{
    lemma_subdivide_tiles(b, body.pos);
    let own = b.quadrant_spec(body.pos);
    assert(b.subdivide_spec(own).contains_spec(body.pos));
}

/// The bodies that the four children of a node absorbed, all together.
pub open spec fn spread<K: Field>(b: Bounds<K>, ms: Seq<Body<K>>) -> Multiset<Body<K>> {
    child_members(b, ms, 0).to_multiset().add(child_members(b, ms, 1).to_multiset()).add(
        child_members(b, ms, 2).to_multiset(),
    ).add(child_members(b, ms, 3).to_multiset())
}

/// Handing one more body down adds it to what the children hold, once.
proof fn lemma_taken_spread<K: Field>(
    b: Bounds<K>,
    body: Body<K>,
    nw: Seq<Body<K>>,
    ne: Seq<Body<K>>,
    sw: Seq<Body<K>>,
    se: Seq<Body<K>>,
)
    requires
        exact::<K>(),
        b.contains_spec(body.pos),
    ensures
        taken(b, 0, nw, body).to_multiset().add(taken(b, 1, ne, body).to_multiset()).add(
            taken(b, 2, sw, body).to_multiset(),
        ).add(taken(b, 3, se, body).to_multiset()) =~= nw.to_multiset().add(ne.to_multiset()).add(
            sw.to_multiset(),
        ).add(se.to_multiset()).insert(body),
{
    broadcast use vstd::multiset::group_multiset_axioms;

    lemma_goes_to_its_quadrant(b, body);
    to_multiset_build(nw, body);
    to_multiset_build(ne, body);
    to_multiset_build(sw, body);
    to_multiset_build(se, body);
    assert(goes(b, body, 0) <==> 0 == b.quadrant_spec(body.pos));
    assert(goes(b, body, 1) <==> 1 == b.quadrant_spec(body.pos));
    assert(goes(b, body, 2) <==> 2 == b.quadrant_spec(body.pos));
    assert(goes(b, body, 3) <==> 3 == b.quadrant_spec(body.pos));
}

/// One more body handed down keeps the bodies of a child within the child.
proof fn lemma_taken_sound<K: Field>(b: Bounds<K>, quadrant: usize, acc: Seq<Body<K>>, body: Body<K>)
    requires
        sound(b.subdivide_spec(quadrant), acc),
        rv(body.mass) > 0real,
    ensures
        sound(b.subdivide_spec(quadrant), taken(b, quadrant, acc, body)),
{
    let after = taken(b, quadrant, acc, body);
    assert forall|i: int| 0 <= i < after.len() implies b.subdivide_spec(quadrant).contains_spec(
        (#[trigger] after[i]).pos,
    ) && rv(after[i].mass) > 0real by {
        if i < acc.len() {
            assert(after[i] == acc[i]);
        }
    }
}

/// Nothing is lost on the way down: the children of a node that absorbed two
/// or more bodies hold, all together, exactly the bodies of the node, each
/// child within its own bounds.
pub proof fn lemma_children_hold_all<K: Field>(b: Bounds<K>, ms: Seq<Body<K>>)
    requires
        exact::<K>(),
        sound(b, ms),
        ms.len() >= 2,
    ensures
        spread(b, ms) =~= ms.to_multiset(),
        forall|quadrant: usize| quadrant < 4 ==> sound(b.subdivide_spec(quadrant), #[trigger] child_members(b, ms, quadrant)),
    decreases ms.len(),
{
    broadcast use vstd::multiset::group_multiset_axioms;

    let empty = Seq::<Body<K>>::empty();
    assert(empty.to_multiset() =~= Multiset::<Body<K>>::empty()) by {
        empty.to_multiset_ensures();
        vstd::seq_lib::to_multiset_len(empty);
    }
    if ms.len() == 2 {
        let _ = ms[0];
        let _ = ms[1];
        lemma_resident_exact(ms[0]);
        lemma_taken_spread(b, ms[1], empty, empty, empty, empty);
        lemma_taken_spread(
            b,
            ms[0],
            taken(b, 0, empty, ms[1]),
            taken(b, 1, empty, ms[1]),
            taken(b, 2, empty, ms[1]),
            taken(b, 3, empty, ms[1]),
        );
        assert(ms =~= empty.push(ms[0]).push(ms[1]));
        to_multiset_build(empty, ms[0]);
        to_multiset_build(empty.push(ms[0]), ms[1]);
        assert forall|quadrant: usize| quadrant < 4 implies sound(
            b.subdivide_spec(quadrant),
            #[trigger] child_members(b, ms, quadrant),
        ) by {
            lemma_taken_sound(b, quadrant, empty, ms[1]);
            lemma_taken_sound(b, quadrant, taken(b, quadrant, empty, ms[1]), ms[0]);
        }
    } else {
        let before = ms.drop_last();
        let last = ms.last();
        let _ = ms[ms.len() - 1];
        assert forall|i: int| 0 <= i < before.len() implies b.contains_spec((#[trigger] before[i]).pos) && rv(
            before[i].mass,
        ) > 0real by {
            assert(before[i] == ms[i]);
        }
        lemma_children_hold_all(b, before);
        lemma_taken_spread(
            b,
            last,
            child_members(b, before, 0),
            child_members(b, before, 1),
            child_members(b, before, 2),
            child_members(b, before, 3),
        );
        assert(ms =~= before.push(last));
        to_multiset_build(before, last);
        assert forall|quadrant: usize| quadrant < 4 implies sound(
            b.subdivide_spec(quadrant),
            #[trigger] child_members(b, ms, quadrant),
        ) by {
            lemma_taken_sound(b, quadrant, child_members(b, before, quadrant), last);
        }
    }
}

/// The leaves below a node hold, all together, exactly the bodies that the
/// node absorbed.
pub proof fn lemma_leaves_hold_members<K: Field>(b: Bounds<K>, ms: Seq<Body<K>>, depth: nat)
    requires
        exact::<K>(),
        sound(b, ms),
    ensures
        tree_of(b, ms, depth).leaf_bodies() =~= ms.to_multiset(),
    decreases depth,
{
    let tree = tree_of(b, ms, depth);
    if tree.children is Some {
        let d = (depth - 1) as nat;
        lemma_children_hold_all(b, ms);
        assert(sound(b.subdivide_spec(0), child_members(b, ms, 0)));
        assert(sound(b.subdivide_spec(1), child_members(b, ms, 1)));
        assert(sound(b.subdivide_spec(2), child_members(b, ms, 2)));
        assert(sound(b.subdivide_spec(3), child_members(b, ms, 3)));
        lemma_leaves_hold_members(b.subdivide_spec(0), child_members(b, ms, 0), d);
        lemma_leaves_hold_members(b.subdivide_spec(1), child_members(b, ms, 1), d);
        lemma_leaves_hold_members(b.subdivide_spec(2), child_members(b, ms, 2), d);
        lemma_leaves_hold_members(b.subdivide_spec(3), child_members(b, ms, 3), d);
    }
}

/// Every node of a tree is itself the tree of its bounds and of the bodies it
/// absorbed, and those bodies lie within it and have masses above zero where
/// that holds of the root.
pub proof fn lemma_node_is_tree<K: Field>(b: Bounds<K>, ms: Seq<Body<K>>, depth: nat, node: QuadTree<K>)
    requires
        exact::<K>(),
        sound(b, ms),
        tree_of(b, ms, depth).has_node(node),
    ensures
        exists|d: nat| d <= depth && #[trigger] node.wf_at(d),
        sound(node.bounds, node.members@),
    decreases depth,
{
    let tree = tree_of(b, ms, depth);
    lemma_tree_fields(b, ms, depth);
    if tree == node {
        assert(node.wf_at(depth));
    } else {
        let d = (depth - 1) as nat;
        let c = tree.children.unwrap();
        lemma_children_hold_all(b, ms);
        assert(sound(b.subdivide_spec(0), child_members(b, ms, 0)));
        assert(sound(b.subdivide_spec(1), child_members(b, ms, 1)));
        assert(sound(b.subdivide_spec(2), child_members(b, ms, 2)));
        assert(sound(b.subdivide_spec(3), child_members(b, ms, 3)));
        if c.nw.has_node(node) {
            lemma_node_is_tree(b.subdivide_spec(0), child_members(b, ms, 0), d, node);
        } else if c.ne.has_node(node) {
            lemma_node_is_tree(b.subdivide_spec(1), child_members(b, ms, 1), d, node);
        } else if c.sw.has_node(node) {
            lemma_node_is_tree(b.subdivide_spec(2), child_members(b, ms, 2), d, node);
        } else {
            lemma_node_is_tree(b.subdivide_spec(3), child_members(b, ms, 3), d, node);
        }
        let nd = choose|nd: nat| nd <= d && #[trigger] node.wf_at(nd);
        assert(nd <= depth && node.wf_at(nd));
    }
}

/// Mass is conserved in every node: the total mass of a node of a tree is the
/// sum of the masses of the particles in its subtree, which are the bodies
/// that the node absorbed and the bodies that the leaves below it hold.
pub proof fn lemma_mass_conservation<K: Field>(b: Bounds<K>, ms: Seq<Body<K>>, depth: nat, node: QuadTree<K>)
    requires
        exact::<K>(),
        sound(b, ms),
        tree_of(b, ms, depth).has_node(node),
    ensures
        rv(node.total_mass) == mass_sum(node.members@),
        node.leaf_bodies() == node.members@.to_multiset(),
{
    lemma_node_is_tree(b, ms, depth, node);
    let d = choose|d: nat| d <= depth && #[trigger] node.wf_at(d);
    lemma_total_is_sum(node.members@);
    lemma_leaves_hold_members(node.bounds, node.members@, d);
}

/// The center of mass of every node is right: it is the mass-weighted mean of
/// the positions of the particles in its subtree. Times the total mass, which
/// is above zero where the node holds a particle, it is the sum of mass times
/// position.
pub proof fn lemma_center_of_mass<K: Field>(b: Bounds<K>, ms: Seq<Body<K>>, depth: nat, node: QuadTree<K>)
    requires
        exact::<K>(),
        sound(b, ms),
        tree_of(b, ms, depth).has_node(node),
    ensures
        times(rv(node.center_of_mass[0]), rv(node.total_mass)) == moment_x(node.members@),
        times(rv(node.center_of_mass[1]), rv(node.total_mass)) == moment_y(node.members@),
        node.members@.len() > 0 ==> rv(node.total_mass) > 0real,
{
    lemma_node_is_tree(b, ms, depth, node);
    lemma_total_is_sum(node.members@);
    assert(masses_above_zero(node.members@)) by {
        assert forall|i: int| 0 <= i < node.members@.len() implies rv((#[trigger] node.members@[i]).mass)
            > 0real by {}
    }
    lemma_center_is_mean(node.members@);
    lemma_mass_sum_positive(node.members@);
}

/// Whether every particle of `ps` has a mass above zero.
pub open spec fn particles_have_mass<K: Field>(ps: Seq<PhysicsObject<K>>) -> bool {
    forall|i: int| 0 <= i < ps.len() ==> lt_spec(K::zero_spec(), (#[trigger] ps[i]).mass)
}

/// The bodies that a tree over particles with masses above zero absorbs lie
/// within its bounds and have masses above zero.
pub proof fn lemma_absorbed_sound<K: Field>(b: Bounds<K>, ps: Seq<PhysicsObject<K>>, n: nat)
    requires
        exact::<K>(),
        particles_have_mass(ps),
        n <= ps.len(),
    ensures
        sound(b, absorbed(b, ps, n)),
    decreases n,
{
    if n > 0 {
        lemma_absorbed_sound(b, ps, (n - 1) as nat);
        let before = absorbed(b, ps, (n - 1) as nat);
        let body = body_at(ps, n - 1);
        let after = grown(b, before, body);
        let _ = ps[n - 1];
        lemma_rv_constants::<K>();
        lemma_rv_le(K::zero_spec(), body.mass);
        assert forall|i: int| 0 <= i < after.len() implies b.contains_spec((#[trigger] after[i]).pos) && rv(
            after[i].mass,
        ) > 0real by {
            if i < before.len() {
                assert(after[i] == before[i]);
            }
        }
    }
}

/// Mass conservation and the center of mass, for every node of every tree
/// built over particles with masses above zero.
pub proof fn lemma_built_aggregates<K: Field>(ps: Seq<PhysicsObject<K>>, b: Bounds<K>, node: QuadTree<K>)
    requires
        exact::<K>(),
        particles_have_mass(ps),
        built(ps, b).has_node(node),
    ensures
        rv(node.total_mass) == mass_sum(node.members@),
        node.leaf_bodies() == node.members@.to_multiset(),
        times(rv(node.center_of_mass[0]), rv(node.total_mass)) == moment_x(node.members@),
        times(rv(node.center_of_mass[1]), rv(node.total_mass)) == moment_y(node.members@),
        node.members@.len() > 0 ==> rv(node.total_mass) > 0real,
{
    let ms = absorbed(b, ps, ps.len());
    lemma_absorbed_sound(b, ps, ps.len());
    lemma_mass_conservation(b, ms, MAX_DEPTH as nat, node);
    lemma_center_of_mass(b, ms, MAX_DEPTH as nat, node);
}

/// The positions and masses of the particles `ps`.
pub open spec fn placed<K: Field>(ps: Seq<PhysicsObject<K>>) -> Seq<((K, K), K)> {
    ps.map_values(|p: PhysicsObject<K>| (pt(p.position_vector), p.mass))
}

/// The order of the particles does not matter to what a tree aggregates: two
/// trees built over the same particles in different orders have the same
/// total mass and the same center of mass.
pub proof fn lemma_root_any_order<K: Field>(first: Seq<PhysicsObject<K>>, second: Seq<PhysicsObject<K>>)
    requires
        exact::<K>(),
        particles_have_mass(first),
        particles_have_mass(second),
        placed(first).to_multiset() == placed(second).to_multiset(),
    ensures
        built(first, enclosing(first)).total_mass == built(second, enclosing(second)).total_mass,
        built(first, enclosing(first)).center_of_mass == built(second, enclosing(second)).center_of_mass,
{
    let ms1 = absorbed(enclosing(first), first, first.len());
    let ms2 = absorbed(enclosing(second), second, second.len());
    lemma_nothing_dropped(first, first.len());
    lemma_nothing_dropped(second, second.len());
    lemma_absorbed_sound(enclosing(first), first, first.len());
    lemma_absorbed_sound(enclosing(second), second, second.len());
    assert(weights(ms1) =~= placed(first));
    assert(weights(ms2) =~= placed(second));
    assert(masses_above_zero(ms1)) by {
        assert forall|i: int| 0 <= i < ms1.len() implies rv((#[trigger] ms1[i]).mass) > 0real by {}
    }
    assert(masses_above_zero(ms2)) by {
        assert forall|i: int| 0 <= i < ms2.len() implies rv((#[trigger] ms2[i]).mass) > 0real by {}
    }
    lemma_aggregate_any_order(ms1, ms2);
}

} // verus!
