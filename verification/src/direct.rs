//! The direct mode: exact pairwise attraction, and particles that come close
//! enough coalesce.

use vstd::prelude::*;
use crate::types::{Field, MathSpace, lt, lt_spec, div, pt, vec_add, vec_sub};
use crate::barnes_hut::{pull, pull_spec, weighted_mean};
use crate::physics::{
    ObjectStatus, PhysicsObject, PhysicsSpace, lemma_object_eq, leapfrog, next_position,
    next_position_spec, stepped, survivors,
};

verus! {

/// The attraction that the first `n` particles of `es` exert on a test point
/// at `p`: the pulls of the live ones other than `skip`, summed in order.
pub open spec fn direct_sum<K: Field>(
    es: Seq<PhysicsObject<K>>,
    p: (K, K),
    skip: usize,
    g: K,
    softening_sq: K,
    n: nat,
) -> (K, K)
    decreases n,
{
    if n == 0 {
        (K::zero_spec(), K::zero_spec())
    } else {
        let before = direct_sum(es, p, skip, g, softening_sq, (n - 1) as nat);
        let e = es[n - 1];
        if n - 1 == skip || e.status != ObjectStatus::Default {
            before
        } else {
            vec_add(before, pull_spec(vec_sub(pt(e.position_vector), p), e.mass, g, softening_sq))
        }
    }
}

/// The mass-weighted average of two vectors.
pub open spec fn weighted_pair<K: Field>(a: (K, K), a_mass: K, b: (K, K), b_mass: K) -> (K, K) {
    (weighted_mean(a.0, a_mass, b.0, b_mass), weighted_mean(a.1, a_mass, b.1, b_mass))
}

/// The particle that `target` becomes when it absorbs `other`: the masses
/// add up; position, velocity and acceleration are the mass-weighted averages.
pub open spec fn coalesced<K: Field>(target: PhysicsObject<K>, other: PhysicsObject<K>) -> PhysicsObject<K> {
    let x = weighted_pair(pt(target.position_vector), target.mass, pt(other.position_vector), other.mass);
    let v = weighted_pair(pt(target.direction_vector), target.mass, pt(other.direction_vector), other.mass);
    let a = weighted_pair(
        pt(target.acceleration_vector),
        target.mass,
        pt(other.acceleration_vector),
        other.mass,
    );
    PhysicsObject {
        position_vector: [x.0, x.1],
        direction_vector: [v.0, v.1],
        acceleration_vector: [a.0, a.1],
        mass: target.mass.add_spec(other.mass),
        status: target.status,
    }
}

/// `obj` marked as absorbed by the particle `target`.
pub open spec fn absorbed_by<K: Field>(obj: PhysicsObject<K>, target: usize) -> PhysicsObject<K> {
    PhysicsObject {
        position_vector: obj.position_vector,
        direction_vector: obj.direction_vector,
        acceleration_vector: obj.acceleration_vector,
        mass: obj.mass,
        status: ObjectStatus::MergedInto(target),
    }
}

/// Whether two particles are closer than `threshold`.
pub open spec fn close<K: Field, S: MathSpace<K>>(
    space: S,
    threshold: K,
    a: PhysicsObject<K>,
    b: PhysicsObject<K>,
) -> bool {
    lt_spec(space.distance_spec(pt(a.position_vector), pt(b.position_vector)), threshold)
}

/// Where the particles that collide with particle `i` go: to `i` itself while
/// it is live, to the particle that absorbed `i` otherwise.
pub open spec fn merge_target<K: Field>(es: Seq<PhysicsObject<K>>, i: int) -> Option<usize> {
    match es[i].status {
        ObjectStatus::Default => Some(i as usize),
        ObjectStatus::MergedInto(k) => Some(k),
        ObjectStatus::Deleted => None,
    }
}

/// The particles after the pair `(i, j)` was looked at: where `j` is live and
/// closer to `i` than the threshold, `target` absorbs `j`.
pub open spec fn pair_merged<K: Field, S: MathSpace<K>>(
    es: Seq<PhysicsObject<K>>,
    space: S,
    threshold: K,
    i: int,
    target: usize,
    j: int,
) -> Seq<PhysicsObject<K>> {
    if es[j].status == ObjectStatus::Default && close(space, threshold, es[i], es[j]) {
        es.update(target as int, coalesced(es[target as int], es[j])).update(
            j,
            absorbed_by(es[j], target),
        )
    } else {
        es
    }
}

/// The particles after particle `i` was compared with every `j` in
/// `i + 1 .. end`, in ascending order.
pub open spec fn scanned<K: Field, S: MathSpace<K>>(
    es: Seq<PhysicsObject<K>>,
    space: S,
    threshold: K,
    i: int,
    target: usize,
    end: int,
) -> Seq<PhysicsObject<K>>
    decreases end - i,
{
    if end <= i + 1 {
        es
    } else {
        pair_merged(scanned(es, space, threshold, i, target, end - 1), space, threshold, i, target, end - 1)
    }
}

/// The particles after the merge pass has dealt with the particles `0 .. end`
/// in ascending order.
pub open spec fn merged_upto<K: Field, S: MathSpace<K>>(
    es: Seq<PhysicsObject<K>>,
    space: S,
    threshold: K,
    end: int,
) -> Seq<PhysicsObject<K>>
    decreases end,
{
    if end <= 0 {
        es
    } else {
        let before = merged_upto(es, space, threshold, end - 1);
        match merge_target(before, end - 1) {
            Some(target) => scanned(before, space, threshold, end - 1, target, before.len() as int),
            None => before,
        }
    }
}

/// Every particle is live.
pub open spec fn all_live<K: Field>(es: Seq<PhysicsObject<K>>) -> bool {
    forall|i: int| 0 <= i < es.len() ==> (#[trigger] es[i]).status == ObjectStatus::Default
}

/// Whether the status of particle `m` fits a merge pass that has reached
/// particle `reached`: it is live, or it was absorbed by a live particle that
/// stands before it and not after `reached`.
pub open spec fn linked<K: Field>(es: Seq<PhysicsObject<K>>, m: int, reached: int) -> bool {
    match es[m].status {
        ObjectStatus::Default => true,
        ObjectStatus::MergedInto(t) => t < m && t <= reached && es[t as int].status
            == ObjectStatus::Default,
        ObjectStatus::Deleted => false,
    }
}

/// The state of the statuses during a merge pass that has reached particle
/// `reached`.
pub open spec fn chained<K: Field>(es: Seq<PhysicsObject<K>>, reached: int) -> bool {
    forall|m: int| 0 <= m < es.len() ==> #[trigger] linked(es, m, reached)
}

/// The live ones among the first `n` particles of `es`, in their order.
pub open spec fn live<K: Field>(es: Seq<PhysicsObject<K>>, n: nat) -> Seq<PhysicsObject<K>>
    decreases n,
{
    if n == 0 {
        Seq::empty()
    } else {
        let before = live(es, (n - 1) as nat);
        if es[n - 1].status == ObjectStatus::Default {
            before.push(es[n - 1])
        } else {
            before
        }
    }
}

/// Every particle of `kept` one leapfrog step on, under the exact attraction
/// of the others.
pub open spec fn advanced_direct<K: Field>(kept: Seq<PhysicsObject<K>>, g: K, softening_sq: K) -> Seq<
    PhysicsObject<K>,
> {
    Seq::new(
        kept.len(),
        |i: int|
            stepped(
                kept[i],
                next_position_spec(kept[i]),
                direct_sum(kept, next_position_spec(kept[i]), i as usize, g, softening_sq, kept.len()),
            ),
    )
}

/// The particles that one tick in direct mode makes of `es`.
pub open spec fn direct_tick_spec<K: Field, S: MathSpace<K>>(
    es: Seq<PhysicsObject<K>>,
    space: S,
    radius: K,
    threshold: K,
    g: K,
    softening_sq: K,
) -> Seq<PhysicsObject<K>> {
    let inside = survivors(es, space, radius, es.len());
    let candidates = live(inside, inside.len());
    let merged = merged_upto(candidates, space, threshold, candidates.len() as int);
    advanced_direct(live(merged, merged.len()), g, softening_sq)
}

/// Computes `coalesced`.
pub fn coalesce<K: Field>(target: &PhysicsObject<K>, other: &PhysicsObject<K>) -> (r: PhysicsObject<K>)
    ensures
        r == coalesced(*target, *other),
{
    let total = target.mass.add(other.mass);
    let r = PhysicsObject {
        position_vector: [
            div(target.position_vector[0].mul(target.mass).add(other.position_vector[0].mul(other.mass)), total),
            div(target.position_vector[1].mul(target.mass).add(other.position_vector[1].mul(other.mass)), total),
        ],
        direction_vector: [
            div(target.direction_vector[0].mul(target.mass).add(other.direction_vector[0].mul(other.mass)), total),
            div(target.direction_vector[1].mul(target.mass).add(other.direction_vector[1].mul(other.mass)), total),
        ],
        acceleration_vector: [
            div(
                target.acceleration_vector[0].mul(target.mass).add(other.acceleration_vector[0].mul(other.mass)),
                total,
            ),
            div(
                target.acceleration_vector[1].mul(target.mass).add(other.acceleration_vector[1].mul(other.mass)),
                total,
            ),
        ],
        mass: total,
        status: target.status,
    };
    proof {
        lemma_object_eq(r, coalesced(*target, *other));
    }
    r
}

/// One merge keeps the statuses chained.
pub proof fn lemma_pair_merged_chained<K: Field, S: MathSpace<K>>(
    es: Seq<PhysicsObject<K>>,
    space: S,
    threshold: K,
    i: int,
    target: usize,
    j: int,
)
    requires
        chained(es, i),
        0 <= i < j < es.len() <= usize::MAX,
        merge_target(es, i) == Some(target),
    ensures
        target <= i,
        es[target as int].status == ObjectStatus::Default,
        chained(pair_merged(es, space, threshold, i, target, j), i),
        pair_merged(es, space, threshold, i, target, j).len() == es.len(),
        merge_target(pair_merged(es, space, threshold, i, target, j), i) == Some(target),
{
    let after = pair_merged(es, space, threshold, i, target, j);
    assert(linked(es, i, i));
    assert forall|m: int| 0 <= m < after.len() implies #[trigger] linked(after, m, i) by {
        assert(linked(es, m, i));
    }
}

/// A pass that has reached a particle has reached the next one too.
pub proof fn lemma_chained_next<K: Field>(es: Seq<PhysicsObject<K>>, reached: int)
    requires
        chained(es, reached),
    ensures
        chained(es, reached + 1),
{
    assert forall|m: int| 0 <= m < es.len() implies #[trigger] linked(es, m, reached + 1) by {
        assert(linked(es, m, reached));
    }
}

/// Live particles are chained from the start.
pub proof fn lemma_all_live_chained<K: Field>(es: Seq<PhysicsObject<K>>)
    requires
        all_live(es),
    ensures
        chained(es, 0),
{
    assert forall|m: int| 0 <= m < es.len() implies #[trigger] linked(es, m, 0) by {
        let _ = es[m];
    }
}

impl<K: Field, S: MathSpace<K>> PhysicsSpace<K, S> {
    /// The exact attraction of the other live particles on a test point at
    /// `e1_pos`, where `skip_index` is the particle that stands there.
    pub fn acceleration_direct(&self, e1_pos: &[K; 2], skip_index: usize) -> (r: [K; 2])
        ensures
            pt(r) == direct_sum(
                self.elements@,
                pt(*e1_pos),
                skip_index,
                self.gravitational_constant,
                self.softening_squared,
                self.elements@.len(),
            ),
    {
        let g = self.gravitational_constant;
        let soft_sq = self.softening_squared;
        let mut acc = [K::zero(), K::zero()];
        let mut i: usize = 0;
        while i < self.elements.len()
            invariant
                i <= self.elements@.len(),
                g == self.gravitational_constant,
                soft_sq == self.softening_squared,
                pt(acc) == direct_sum(self.elements@, pt(*e1_pos), skip_index, g, soft_sq, i as nat),
            decreases self.elements@.len() - i,
        {
            let e2 = self.elements[i];
            if i != skip_index && e2.status == ObjectStatus::Default {
                let d = [e2.position_vector[0].sub(e1_pos[0]), e2.position_vector[1].sub(e1_pos[1])];
                let a = pull(d, e2.mass, g, soft_sq);
                acc = [acc[0].add(a[0]), acc[1].add(a[1])];
            }
            i += 1;
        }
        acc
    }

    /// Drops every particle that is not live and keeps the others in their
    /// order.
    pub fn compact(&mut self)
        ensures
            final(self).elements@ == live(old(self).elements@, old(self).elements@.len()),
            all_live(final(self).elements@),
            final(self).same_constants(*old(self)),
    {
        let mut kept: Vec<PhysicsObject<K>> = Vec::new();
        let mut i: usize = 0;
        while i < self.elements.len()
            invariant
                i <= self.elements@.len(),
                *self == *old(self),
                kept@ == live(self.elements@, i as nat),
                all_live(kept@),
            decreases self.elements@.len() - i,
        {
            let e = self.elements[i];
            if e.status == ObjectStatus::Default {
                kept.push(e);
            }
            i += 1;
        }
        self.elements = kept;
    }

    /// The merge pass. The particles are taken in ascending order; each is
    /// compared with all that follow it, and a live one that is closer than
    /// `merge_distance` is absorbed: by the particle itself while that is
    /// live, otherwise by the particle that absorbed it. Absorbed particles
    /// stay in place, marked with the index of their absorber.
    pub fn resolve_merges(&mut self, merge_distance: K)
        requires
            all_live(old(self).elements@),
        ensures
            final(self).elements@ == merged_upto(
                old(self).elements@,
                old(self).math_space,
                merge_distance,
                old(self).elements@.len() as int,
            ),
            final(self).elements@.len() == old(self).elements@.len(),
            chained(final(self).elements@, final(self).elements@.len() as int),
            final(self).same_constants(*old(self)),
    {
        let n = self.elements.len();
        let ghost start = self.elements@;
        let ghost space = self.math_space;
        proof {
            lemma_all_live_chained(start);
        }
        let mut i: usize = 0;
        while i < n
            invariant
                i <= n,
                n == self.elements@.len(),
                n == start.len(),
                space == self.math_space,
                self.same_constants(*old(self)),
                self.elements@ == merged_upto(start, space, merge_distance, i as int),
                chained(self.elements@, i as int),
            decreases n - i,
        {
            let ghost before = self.elements@;
            proof {
                assert(linked(before, i as int, i as int));
            }
            let target = match self.elements[i].status {
                ObjectStatus::Default => i,
                ObjectStatus::MergedInto(k) => k,
                ObjectStatus::Deleted => i,
            };
            assert(merge_target(before, i as int) == Some(target));
            let mut j: usize = i + 1;
            while j < n
                invariant
                    i < j <= n,
                    n == self.elements@.len(),
                    n == before.len(),
                    space == self.math_space,
                    self.same_constants(*old(self)),
                    self.elements@ == scanned(before, space, merge_distance, i as int, target, j as int),
                    chained(self.elements@, i as int),
                    merge_target(self.elements@, i as int) == Some(target),
                decreases n - j,
            {
                let ghost now = self.elements@;
                proof {
                    lemma_pair_merged_chained(now, space, merge_distance, i as int, target, j as int);
                }
                let a = self.elements[i];
                let b = self.elements[j];
                if b.status == ObjectStatus::Default && lt(
                    self.math_space.distance(&a.position_vector, &b.position_vector),
                    merge_distance,
                ) {
                    let t = self.elements[target];
                    let grown = coalesce(&t, &b);
                    self.elements.set(target, grown);
                    let mut gone = b;
                    gone.status = ObjectStatus::MergedInto(target);
                    proof {
                        lemma_object_eq(gone, absorbed_by(b, target));
                    }
                    self.elements.set(j, gone);
                }
                j += 1;
            }
            proof {
                lemma_chained_next(self.elements@, i as int);
            }
            i += 1;
        }
    }

    /// Advances the simulation by one step in direct mode: particles beyond
    /// the radius and particles that are not live are dropped, the merge pass
    /// runs with `merge_distance` and the absorbed particles are dropped, and
    /// each remaining particle takes one leapfrog step under the exact
    /// attraction of the others.
    pub fn tick_direct(&mut self, merge_distance: K)
        ensures
            final(self).elements@ == direct_tick_spec(
                old(self).elements@,
                old(self).math_space,
                old(self).radius,
                merge_distance,
                old(self).gravitational_constant,
                old(self).softening_squared,
            ),
            final(self).same_constants(*old(self)),
    {
        self.prune();
        self.compact();
        self.resolve_merges(merge_distance);
        self.compact();
        let ghost kept = self.elements@;
        let g = self.gravitational_constant;
        let soft_sq = self.softening_squared;
        let mut updated: Vec<PhysicsObject<K>> = Vec::new();
        let mut i: usize = 0;
        while i < self.elements.len()
            invariant
                i <= kept.len(),
                self.elements@ == kept,
                g == self.gravitational_constant,
                soft_sq == self.softening_squared,
                self.same_constants(*old(self)),
                updated@.len() == i,
                forall|k: int|
                    0 <= k < i ==> updated@[k] == stepped(
                        kept[k],
                        next_position_spec(kept[k]),
                        direct_sum(kept, next_position_spec(kept[k]), k as usize, g, soft_sq, kept.len()),
                    ),
            decreases kept.len() - i,
        {
            let obj = self.elements[i];
            let next_pos = next_position(&obj);
            let next_acc = self.acceleration_direct(&next_pos, i);
            updated.push(leapfrog(&obj, next_pos, next_acc));
            i += 1;
        }
        assert(updated@ =~= advanced_direct(kept, g, soft_sq));
        self.elements = updated;
    }
}

} // verus!
