//! The opening angle zero: no approximation.

use vstd::prelude::*;
use vstd::seq_lib::{commutative_foldl, lemma_fold_left_permutation, lemma_multiset_commutative};
use crate::types::{Field, larger_spec, pt, vec_add, vec_sub, vec_dot};
use crate::exact::{
    exact, rv, lemma_rv_add, lemma_rv_constants, lemma_rv_injective, lemma_rv_le,
    lemma_rv_mul_zero, lemma_rv_square,
};
use crate::physics::PhysicsObject;
use crate::direct::{all_live, direct_sum};
use crate::barnes_hut::{
    Body, Bounds, QuadTree, absorbed, bodies_of, body_at, built, child_members, enclosing,
    far_enough, pull_spec, tree_of, MAX_DEPTH,
};
use crate::laws::aggregate::{lemma_mass_sum_positive, lemma_total_is_sum, masses_above_zero};
use crate::laws::bounds::lemma_nothing_dropped;
use crate::laws::tree::{
    lemma_absorbed_sound, lemma_children_hold_all, lemma_resident_exact, particles_have_mass,
    sound, spread,
};

verus! {

/// With the opening angle zero no node is far enough to count as one point
/// mass.
pub proof fn lemma_zero_theta_never_far<K: Field>(b: Bounds<K>, theta: K, dist_sq: K)
    requires
        exact::<K>(),
        rv(theta) == 0real,
    ensures
        !far_enough(b, theta, dist_sq),
{
    let side = larger_spec(b.width, b.height);
    lemma_rv_square(side);
    lemma_rv_mul_zero(theta, theta);
    lemma_rv_mul_zero(theta.mul_spec(theta), dist_sq);
    lemma_rv_le(side.mul_spec(side), theta.mul_spec(theta).mul_spec(dist_sq));
}

/// With the opening angle zero the approximation opens every node: the force
/// of a tree is the sum of the pulls of its leaves, and no cluster stands in
/// for the particles in it.
pub proof fn lemma_zero_theta_opens_every_node<K: Field>(
    tree: QuadTree<K>,
    p: (K, K),
    theta: K,
    g: K,
    softening_sq: K,
    skip_index: usize,
)
    requires
        exact::<K>(),
        rv(theta) == 0real,
    ensures
        tree.force_spec(p, theta, g, softening_sq, skip_index) == tree.opened_force_spec(
            p,
            g,
            softening_sq,
            skip_index,
        ),
    decreases tree,
{
    let d = vec_sub(pt(tree.center_of_mass), p);
    lemma_zero_theta_never_far(tree.bounds, theta, vec_dot(d, d));
    if tree.children is Some {
        let c = tree.children.unwrap();
        lemma_zero_theta_opens_every_node(c.nw, p, theta, g, softening_sq, skip_index);
        lemma_zero_theta_opens_every_node(c.ne, p, theta, g, softening_sq, skip_index);
        lemma_zero_theta_opens_every_node(c.sw, p, theta, g, softening_sq, skip_index);
        lemma_zero_theta_opens_every_node(c.se, p, theta, g, softening_sq, skip_index);
    }
}

/// What the body pulls a test point at `p` with, as a pair of real numbers;
/// nothing where the body is the particle `skip` itself.
pub open spec fn pull_of<K: Field>(body: Body<K>, p: (K, K), g: K, softening_sq: K, skip: usize) -> (
    real,
    real,
) {
    if body.index == skip {
        (0real, 0real)
    } else {
        let a = pull_spec(vec_sub(body.pos, p), body.mass, g, softening_sq);
        (rv(a.0), rv(a.1))
    }
}

/// The first coordinate of the pulls of the bodies `ms`, summed.
pub open spec fn pull_sum_x<K: Field>(ms: Seq<Body<K>>, p: (K, K), g: K, softening_sq: K, skip: usize) -> real {
    ms.fold_left(0real, |acc: real, body: Body<K>| acc + pull_of(body, p, g, softening_sq, skip).0)
}

/// The second coordinate of the pulls of the bodies `ms`, summed.
pub open spec fn pull_sum_y<K: Field>(ms: Seq<Body<K>>, p: (K, K), g: K, softening_sq: K, skip: usize) -> real {
    ms.fold_left(0real, |acc: real, body: Body<K>| acc + pull_of(body, p, g, softening_sq, skip).1)
}

/// The sums of the pulls of the bodies but the last, and what the last adds.
proof fn lemma_pull_sum_step<K: Field>(ms: Seq<Body<K>>, p: (K, K), g: K, softening_sq: K, skip: usize)
    requires
        ms.len() > 0,
    ensures
        pull_sum_x(ms, p, g, softening_sq, skip) == pull_sum_x(ms.drop_last(), p, g, softening_sq, skip)
            + pull_of(ms.last(), p, g, softening_sq, skip).0,
        pull_sum_y(ms, p, g, softening_sq, skip) == pull_sum_y(ms.drop_last(), p, g, softening_sq, skip)
            + pull_of(ms.last(), p, g, softening_sq, skip).1,
{
}

/// The pulls of two rows of bodies add up.
proof fn lemma_pull_sum_concat<K: Field>(
    first: Seq<Body<K>>,
    second: Seq<Body<K>>,
    p: (K, K),
    g: K,
    softening_sq: K,
    skip: usize,
)
    ensures
        pull_sum_x(first + second, p, g, softening_sq, skip) == pull_sum_x(first, p, g, softening_sq, skip)
            + pull_sum_x(second, p, g, softening_sq, skip),
        pull_sum_y(first + second, p, g, softening_sq, skip) == pull_sum_y(first, p, g, softening_sq, skip)
            + pull_sum_y(second, p, g, softening_sq, skip),
    decreases second.len(),
{
    if second.len() == 0 {
        assert(first + second =~= first);
    } else {
        let all = first + second;
        assert(all.drop_last() =~= first + second.drop_last());
        assert(all.last() == second.last());
        lemma_pull_sum_step(all, p, g, softening_sq, skip);
        lemma_pull_sum_step(second, p, g, softening_sq, skip);
        lemma_pull_sum_concat(first, second.drop_last(), p, g, softening_sq, skip);
    }
}

/// The pulls of the same bodies add up to the same in every order.
proof fn lemma_pull_sum_any_order<K: Field>(
    first: Seq<Body<K>>,
    second: Seq<Body<K>>,
    p: (K, K),
    g: K,
    softening_sq: K,
    skip: usize,
)
    requires
        first.to_multiset() == second.to_multiset(),
    ensures
        pull_sum_x(first, p, g, softening_sq, skip) == pull_sum_x(second, p, g, softening_sq, skip),
        pull_sum_y(first, p, g, softening_sq, skip) == pull_sum_y(second, p, g, softening_sq, skip),
{
    let add_x = |acc: real, body: Body<K>| acc + pull_of(body, p, g, softening_sq, skip).0;
    let add_y = |acc: real, body: Body<K>| acc + pull_of(body, p, g, softening_sq, skip).1;
    assert(commutative_foldl(add_x));
    assert(commutative_foldl(add_y));
    lemma_fold_left_permutation(first, second, add_x, 0real);
    lemma_fold_left_permutation(first, second, add_y, 0real);
}

/// The pulls of the bodies of the four children of a node add up to the
/// pulls of the bodies of the node.
proof fn lemma_children_pull_sum<K: Field>(
    b: Bounds<K>,
    ms: Seq<Body<K>>,
    p: (K, K),
    g: K,
    softening_sq: K,
    skip: usize,
)
    requires
        exact::<K>(),
        sound(b, ms),
        ms.len() >= 2,
    ensures
        pull_sum_x(child_members(b, ms, 0), p, g, softening_sq, skip) + pull_sum_x(
            child_members(b, ms, 1),
            p,
            g,
            softening_sq,
            skip,
        ) + pull_sum_x(child_members(b, ms, 2), p, g, softening_sq, skip) + pull_sum_x(
            child_members(b, ms, 3),
            p,
            g,
            softening_sq,
            skip,
        ) == pull_sum_x(ms, p, g, softening_sq, skip),
        pull_sum_y(child_members(b, ms, 0), p, g, softening_sq, skip) + pull_sum_y(
            child_members(b, ms, 1),
            p,
            g,
            softening_sq,
            skip,
        ) + pull_sum_y(child_members(b, ms, 2), p, g, softening_sq, skip) + pull_sum_y(
            child_members(b, ms, 3),
            p,
            g,
            softening_sq,
            skip,
        ) == pull_sum_y(ms, p, g, softening_sq, skip),
{
    let nw = child_members(b, ms, 0);
    let ne = child_members(b, ms, 1);
    let sw = child_members(b, ms, 2);
    let se = child_members(b, ms, 3);
    let all = nw + ne + sw + se;
    lemma_children_hold_all(b, ms);
    lemma_multiset_commutative(nw, ne);
    lemma_multiset_commutative(nw + ne, sw);
    lemma_multiset_commutative(nw + ne + sw, se);
    assert(all.to_multiset() =~= spread(b, ms));
    lemma_pull_sum_concat(nw, ne, p, g, softening_sq, skip);
    lemma_pull_sum_concat(nw + ne, sw, p, g, softening_sq, skip);
    lemma_pull_sum_concat(nw + ne + sw, se, p, g, softening_sq, skip);
    lemma_pull_sum_any_order(all, ms, p, g, softening_sq, skip);
}

/// Whether the bodies `ms` fit a tree over `b` that may be subdivided `depth`
/// times: no leaf has to hold two of them.
pub open spec fn fits<K: Field>(b: Bounds<K>, ms: Seq<Body<K>>, depth: nat) -> bool
    decreases depth,
{
    ms.len() < 2 || (depth > 0 && fits(b.subdivide_spec(0), child_members(b, ms, 0), (depth - 1) as nat)
        && fits(b.subdivide_spec(1), child_members(b, ms, 1), (depth - 1) as nat) && fits(
        b.subdivide_spec(2),
        child_members(b, ms, 2),
        (depth - 1) as nat,
    ) && fits(b.subdivide_spec(3), child_members(b, ms, 3), (depth - 1) as nat))
}

/// The sum of four vectors, added to zero one after the other, read as real
/// numbers.
proof fn lemma_sum_of_four<K: Field>(a: (K, K), b: (K, K), c: (K, K), d: (K, K))
    requires
        exact::<K>(),
    ensures
        ({
            let zero = (K::zero_spec(), K::zero_spec());
            let sum = vec_add(vec_add(vec_add(vec_add(zero, a), b), c), d);
            &&& rv(sum.0) == rv(a.0) + rv(b.0) + rv(c.0) + rv(d.0)
            &&& rv(sum.1) == rv(a.1) + rv(b.1) + rv(c.1) + rv(d.1)
        }),
{
    let zero = (K::zero_spec(), K::zero_spec());
    let s1 = vec_add(zero, a);
    let s2 = vec_add(s1, b);
    let s3 = vec_add(s2, c);
    lemma_rv_constants::<K>();
    lemma_rv_add(zero.0, a.0);
    lemma_rv_add(zero.1, a.1);
    lemma_rv_add(s1.0, b.0);
    lemma_rv_add(s1.1, b.1);
    lemma_rv_add(s2.0, c.0);
    lemma_rv_add(s2.1, c.1);
    lemma_rv_add(s3.0, d.0);
    lemma_rv_add(s3.1, d.1);
}

/// Where every node is opened, the force of a tree is the sum of the pulls
/// of the bodies it holds, provided that they fit the tree.
proof fn lemma_opened_force_is_sum<K: Field>(
    b: Bounds<K>,
    ms: Seq<Body<K>>,
    depth: nat,
    p: (K, K),
    g: K,
    softening_sq: K,
    skip: usize,
)
    requires
        exact::<K>(),
        sound(b, ms),
        fits(b, ms, depth),
    ensures
        rv(tree_of(b, ms, depth).opened_force_spec(p, g, softening_sq, skip).0) == pull_sum_x(
            ms,
            p,
            g,
            softening_sq,
            skip,
        ),
        rv(tree_of(b, ms, depth).opened_force_spec(p, g, softening_sq, skip).1) == pull_sum_y(
            ms,
            p,
            g,
            softening_sq,
            skip,
        ),
    decreases depth,
{
    let tree = tree_of(b, ms, depth);
    let zero = K::zero_spec();
    lemma_rv_constants::<K>();
    lemma_total_is_sum(ms);
    lemma_rv_le(tree.total_mass, zero);
    assert(masses_above_zero(ms)) by {
        assert forall|i: int| 0 <= i < ms.len() implies rv((#[trigger] ms[i]).mass) > 0real by {}
    }
    lemma_mass_sum_positive(ms);
    if ms.len() == 0 {
    } else if ms.len() == 1 {
        let only = ms[0];
        assert(ms =~= Seq::empty().push(only));
        lemma_resident_exact(only);
        lemma_pull_sum_step(ms, p, g, softening_sq, skip);
        assert(ms.drop_last() =~= Seq::<Body<K>>::empty());
        assert(pt(tree.center_of_mass) == only.pos);
        assert(tree.total_mass == only.mass);
    } else {
        let d = (depth - 1) as nat;
        let c = tree.children.unwrap();
        lemma_children_hold_all(b, ms);
        assert(sound(b.subdivide_spec(0), child_members(b, ms, 0)));
        assert(sound(b.subdivide_spec(1), child_members(b, ms, 1)));
        assert(sound(b.subdivide_spec(2), child_members(b, ms, 2)));
        assert(sound(b.subdivide_spec(3), child_members(b, ms, 3)));
        lemma_opened_force_is_sum(b.subdivide_spec(0), child_members(b, ms, 0), d, p, g, softening_sq, skip);
        lemma_opened_force_is_sum(b.subdivide_spec(1), child_members(b, ms, 1), d, p, g, softening_sq, skip);
        lemma_opened_force_is_sum(b.subdivide_spec(2), child_members(b, ms, 2), d, p, g, softening_sq, skip);
        lemma_opened_force_is_sum(b.subdivide_spec(3), child_members(b, ms, 3), d, p, g, softening_sq, skip);
        lemma_sum_of_four(
            c.nw.opened_force_spec(p, g, softening_sq, skip),
            c.ne.opened_force_spec(p, g, softening_sq, skip),
            c.sw.opened_force_spec(p, g, softening_sq, skip),
            c.se.opened_force_spec(p, g, softening_sq, skip),
        );
        lemma_children_pull_sum(b, ms, p, g, softening_sq, skip);
    }
}

/// The direct force is the sum of the pulls of the particles.
proof fn lemma_direct_is_sum<K: Field>(
    ps: Seq<PhysicsObject<K>>,
    n: nat,
    p: (K, K),
    g: K,
    softening_sq: K,
    skip: usize,
)
    requires
        exact::<K>(),
        all_live(ps),
        n <= ps.len() <= usize::MAX,
    ensures
        rv(direct_sum(ps, p, skip, g, softening_sq, n).0) == pull_sum_x(
            bodies_of(ps, n),
            p,
            g,
            softening_sq,
            skip,
        ),
        rv(direct_sum(ps, p, skip, g, softening_sq, n).1) == pull_sum_y(
            bodies_of(ps, n),
            p,
            g,
            softening_sq,
            skip,
        ),
    decreases n,
{
    lemma_rv_constants::<K>();
    if n > 0 {
        let before = direct_sum(ps, p, skip, g, softening_sq, (n - 1) as nat);
        let e = ps[n - 1];
        let body = body_at(ps, n - 1);
        lemma_direct_is_sum(ps, (n - 1) as nat, p, g, softening_sq, skip);
        assert(bodies_of(ps, n).drop_last() =~= bodies_of(ps, (n - 1) as nat));
        assert(bodies_of(ps, n).last() == body);
        lemma_pull_sum_step(bodies_of(ps, n), p, g, softening_sq, skip);
        let a = pull_spec(vec_sub(body.pos, p), body.mass, g, softening_sq);
        lemma_rv_add(before.0, a.0);
        lemma_rv_add(before.1, a.1);
    }
}

/// With the opening angle zero the Barnes-Hut force is the direct force: on
/// any test point, the tree built over live particles with masses above zero
/// exerts exactly the sum of their pairwise pulls, provided that the particles
/// fit the tree, that is, that its depth limit keeps no two of them in one
/// leaf.
pub proof fn lemma_zero_theta_is_direct<K: Field>(
    ps: Seq<PhysicsObject<K>>,
    p: (K, K),
    theta: K,
    g: K,
    softening_sq: K,
    skip: usize,
)
    requires
        exact::<K>(),
        rv(theta) == 0real,
        particles_have_mass(ps),
        all_live(ps),
        ps.len() <= usize::MAX,
        fits(enclosing(ps), bodies_of(ps, ps.len()), MAX_DEPTH as nat),
    ensures
        built(ps, enclosing(ps)).force_spec(p, theta, g, softening_sq, skip) == direct_sum(
            ps,
            p,
            skip,
            g,
            softening_sq,
            ps.len(),
        ),
{
    let b = enclosing(ps);
    let ms = absorbed(b, ps, ps.len());
    let tree = built(ps, b);
    lemma_nothing_dropped(ps, ps.len());
    assert(ms == bodies_of(ps, ps.len()));
    lemma_absorbed_sound(b, ps, ps.len());
    lemma_zero_theta_opens_every_node(tree, p, theta, g, softening_sq, skip);
    lemma_opened_force_is_sum(b, ms, MAX_DEPTH as nat, p, g, softening_sq, skip);
    lemma_direct_is_sum(ps, ps.len(), p, g, softening_sq, skip);
    let tree_force = tree.force_spec(p, theta, g, softening_sq, skip);
    let direct = direct_sum(ps, p, skip, g, softening_sq, ps.len());
    lemma_rv_injective(tree_force.0, direct.0);
    lemma_rv_injective(tree_force.1, direct.1);
}

} // verus!
