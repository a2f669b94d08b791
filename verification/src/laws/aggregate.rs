//! What a node aggregates: the sum of the masses it absorbed and their
//! mass-weighted mean position, in whatever order they came.

use vstd::prelude::*;
use vstd::seq_lib::{commutative_foldl, lemma_fold_left_permutation};
use crate::types::Field;
use crate::exact::{
    exact, rv, times, lemma_rv_add, lemma_rv_constants, lemma_rv_div, lemma_rv_injective,
    lemma_rv_le, lemma_rv_mul, lemma_times_cancels, lemma_times_commutes, lemma_times_units,
};
use crate::barnes_hut::{Body, center_of, merged_center, total_of, weighted_mean};

verus! {

/// The sum of the masses of `ms`, as a real number.
pub open spec fn mass_sum<K: Field>(ms: Seq<Body<K>>) -> real {
    ms.fold_left(0real, |acc: real, body: Body<K>| acc + rv(body.mass))
}

/// The sum over `ms` of mass times first coordinate, as a real number.
pub open spec fn moment_x<K: Field>(ms: Seq<Body<K>>) -> real {
    ms.fold_left(0real, |acc: real, body: Body<K>| acc + times(rv(body.mass), rv(body.pos.0)))
}

/// The sum over `ms` of mass times second coordinate, as a real number.
pub open spec fn moment_y<K: Field>(ms: Seq<Body<K>>) -> real {
    ms.fold_left(0real, |acc: real, body: Body<K>| acc + times(rv(body.mass), rv(body.pos.1)))
}

/// Every body of `ms` has a mass above zero.
pub open spec fn masses_above_zero<K: Field>(ms: Seq<Body<K>>) -> bool {
    forall|i: int| 0 <= i < ms.len() ==> rv((#[trigger] ms[i]).mass) > 0real
}

/// The sums of the bodies but the last, and what the last adds.
proof fn lemma_sums_step<K: Field>(ms: Seq<Body<K>>)
    requires
        ms.len() > 0,
    ensures
        mass_sum(ms) == mass_sum(ms.drop_last()) + rv(ms.last().mass),
        moment_x(ms) == moment_x(ms.drop_last()) + times(rv(ms.last().mass), rv(ms.last().pos.0)),
        moment_y(ms) == moment_y(ms.drop_last()) + times(rv(ms.last().mass), rv(ms.last().pos.1)),
{
}

/// Masses above zero add up to more than zero.
pub proof fn lemma_mass_sum_positive<K: Field>(ms: Seq<Body<K>>)
    requires
        masses_above_zero(ms),
    ensures
        mass_sum(ms) >= 0real,
        ms.len() > 0 ==> mass_sum(ms) > 0real,
    decreases ms.len(),
{
    if ms.len() > 0 {
        lemma_sums_step(ms);
        assert(rv(ms[ms.len() - 1].mass) > 0real);
        assert forall|i: int| 0 <= i < ms.drop_last().len() implies rv((#[trigger] ms.drop_last()[i]).mass)
            > 0real by {
            assert(ms.drop_last()[i] == ms[i]);
        }
        lemma_mass_sum_positive(ms.drop_last());
    }
}

/// Mass is conserved by aggregation: the total mass that a node aggregates
/// from `ms` is the sum of their masses.
pub proof fn lemma_total_is_sum<K: Field>(ms: Seq<Body<K>>)
    requires
        exact::<K>(),
    ensures
        rv(total_of(ms)) == mass_sum(ms),
    decreases ms.len(),
{
    if ms.len() == 0 {
        lemma_rv_constants::<K>();
    } else {
        lemma_sums_step(ms);
        lemma_total_is_sum(ms.drop_last());
        lemma_rv_add(total_of(ms.drop_last()), ms.last().mass);
    }
}

/// One coordinate of the weighted mean, times the new total, is the old
/// moment plus what the newcomer adds.
pub proof fn lemma_weighted_mean<K: Field>(center: K, total: K, p: K, mass: K)
    requires
        exact::<K>(),
        rv(total) + rv(mass) != 0real,
    ensures
        times(rv(weighted_mean(center, total, p, mass)), rv(total) + rv(mass)) == times(
            rv(center),
            rv(total),
        ) + times(rv(mass), rv(p)),
{
    let num = center.mul_spec(total).add_spec(p.mul_spec(mass));
    let den = total.add_spec(mass);
    lemma_rv_add(total, mass);
    lemma_rv_mul(center, total);
    lemma_rv_mul(p, mass);
    lemma_rv_add(center.mul_spec(total), p.mul_spec(mass));
    lemma_rv_div(num, den);
    lemma_times_commutes(rv(p), rv(mass));
}

/// The center of mass is the mass-weighted mean: for bodies with masses above
/// zero, the center that a node aggregates from them, times the sum of the
/// masses, is the sum of mass times position.
pub proof fn lemma_center_is_mean<K: Field>(ms: Seq<Body<K>>)
    requires
        exact::<K>(),
        masses_above_zero(ms),
    ensures
        times(rv(center_of(ms).0), mass_sum(ms)) == moment_x(ms),
        times(rv(center_of(ms).1), mass_sum(ms)) == moment_y(ms),
    decreases ms.len(),
{
    if ms.len() == 0 {
        lemma_rv_constants::<K>();
        lemma_times_units(0real);
    } else {
        let before = ms.drop_last();
        let last = ms.last();
        lemma_sums_step(ms);
        assert(rv(ms[ms.len() - 1].mass) > 0real);
        assert forall|i: int| 0 <= i < before.len() implies rv((#[trigger] before[i]).mass) > 0real by {
            assert(before[i] == ms[i]);
        }
        lemma_center_is_mean(before);
        lemma_total_is_sum(before);
        lemma_total_is_sum(ms);
        lemma_mass_sum_positive(before);
        let total = total_of(before);
        let center = center_of(before);
        lemma_rv_add(total, last.mass);
        lemma_rv_le(K::zero_spec(), total.add_spec(last.mass));
        lemma_rv_constants::<K>();
        assert(center_of(ms) == merged_center(center, total, last.pos, last.mass));
        lemma_weighted_mean(center.0, total, last.pos.0, last.mass);
        lemma_weighted_mean(center.1, total, last.pos.1, last.mass);
    }
}

/// What a node aggregates of a body: its position and its mass.
pub open spec fn weights<K: Field>(ms: Seq<Body<K>>) -> Seq<((K, K), K)> {
    ms.map_values(|body: Body<K>| (body.pos, body.mass))
}

/// The sums of the bodies are sums over their positions and masses.
proof fn lemma_sums_over_weights<K: Field>(ms: Seq<Body<K>>)
    ensures
        mass_sum(ms) == weights(ms).fold_left(0real, |acc: real, w: ((K, K), K)| acc + rv(w.1)),
        moment_x(ms) == weights(ms).fold_left(
            0real,
            |acc: real, w: ((K, K), K)| acc + times(rv(w.1), rv(w.0.0)),
        ),
        moment_y(ms) == weights(ms).fold_left(
            0real,
            |acc: real, w: ((K, K), K)| acc + times(rv(w.1), rv(w.0.1)),
        ),
    decreases ms.len(),
{
    if ms.len() > 0 {
        lemma_sums_step(ms);
        lemma_sums_over_weights(ms.drop_last());
        assert(weights(ms).drop_last() =~= weights(ms.drop_last()));
        assert(weights(ms).last() == (ms.last().pos, ms.last().mass));
    }
}

/// The order of insertion does not matter: bodies with masses above zero
/// give a node the same total mass and the same center of mass in every
/// order. Only their positions and masses count, not their indices.
pub proof fn lemma_aggregate_any_order<K: Field>(first: Seq<Body<K>>, second: Seq<Body<K>>)
    requires
        exact::<K>(),
        masses_above_zero(first),
        masses_above_zero(second),
        weights(first).to_multiset() == weights(second).to_multiset(),
    ensures
        total_of(first) == total_of(second),
        center_of(first) == center_of(second),
{
    let add_mass = |acc: real, w: ((K, K), K)| acc + rv(w.1);
    let add_x = |acc: real, w: ((K, K), K)| acc + times(rv(w.1), rv(w.0.0));
    let add_y = |acc: real, w: ((K, K), K)| acc + times(rv(w.1), rv(w.0.1));
    assert(commutative_foldl(add_mass));
    assert(commutative_foldl(add_x));
    assert(commutative_foldl(add_y));
    lemma_fold_left_permutation(weights(first), weights(second), add_mass, 0real);
    lemma_fold_left_permutation(weights(first), weights(second), add_x, 0real);
    lemma_fold_left_permutation(weights(first), weights(second), add_y, 0real);
    lemma_sums_over_weights(first);
    lemma_sums_over_weights(second);
    lemma_total_is_sum(first);
    lemma_total_is_sum(second);
    lemma_rv_injective(total_of(first), total_of(second));
    lemma_center_is_mean(first);
    lemma_center_is_mean(second);
    lemma_mass_sum_positive(first);
    lemma_mass_sum_positive(second);
    vstd::seq_lib::to_multiset_len(weights(first));
    vstd::seq_lib::to_multiset_len(weights(second));
    if first.len() > 0 {
        let m = mass_sum(first);
        lemma_times_cancels(rv(center_of(first).0), rv(center_of(second).0), m);
        lemma_times_cancels(rv(center_of(first).1), rv(center_of(second).1), m);
        lemma_rv_injective(center_of(first).0, center_of(second).0);
        lemma_rv_injective(center_of(first).1, center_of(second).1);
    } else {
        assert(first =~= second);
    }
}

} // verus!
