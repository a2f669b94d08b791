//! Merging conserves mass.

use vstd::prelude::*;
use crate::types::{Field, MathSpace};
use crate::exact::{exact, rv, lemma_rv_add};
use crate::physics::{ObjectStatus, PhysicsObject};
use crate::direct::{
    absorbed_by, all_live, chained, close, coalesced, lemma_all_live_chained, lemma_chained_next,
    lemma_pair_merged_chained, linked, merge_target, merged_upto, pair_merged, scanned,
};

verus! {

/// What a particle adds to the mass of the live ones.
pub open spec fn live_share<K: Field>(obj: PhysicsObject<K>) -> real {
    if obj.status == ObjectStatus::Default {
        rv(obj.mass)
    } else {
        0real
    }
}

/// The mass of the live ones among the first `n` particles of `es`, as a real
/// number.
pub open spec fn live_mass<K: Field>(es: Seq<PhysicsObject<K>>, n: nat) -> real
    decreases n,
{
    if n == 0 {
        0real
    } else {
        live_mass(es, (n - 1) as nat) + live_share(es[n - 1])
    }
}

/// Replacing one particle changes the live mass by the difference of the shares.
proof fn lemma_live_mass_update<K: Field>(es: Seq<PhysicsObject<K>>, k: int, obj: PhysicsObject<K>, n: nat)
    requires
        0 <= k < es.len(),
        n <= es.len(),
    ensures
        live_mass(es.update(k, obj), n) == live_mass(es, n) + if k < n {
            live_share(obj) - live_share(es[k])
        } else {
            0real
        },
    decreases n,
{
    if n > 0 {
        lemma_live_mass_update(es, k, obj, (n - 1) as nat);
    }
}

/// One look at a pair leaves the live mass as it was.
proof fn lemma_pair_merged_mass<K: Field, S: MathSpace<K>>(
    es: Seq<PhysicsObject<K>>,
    space: S,
    threshold: K,
    i: int,
    target: usize,
    j: int,
)
    requires
        exact::<K>(),
        chained(es, i),
        0 <= i < j < es.len() <= usize::MAX,
        merge_target(es, i) == Some(target),
    ensures
        live_mass(pair_merged(es, space, threshold, i, target, j), es.len()) == live_mass(es, es.len()),
{
    lemma_pair_merged_chained(es, space, threshold, i, target, j);
    if es[j].status == ObjectStatus::Default && close(space, threshold, es[i], es[j]) {
        let t = target as int;
        let grown = coalesced(es[t], es[j]);
        let gone = absorbed_by(es[j], target);
        let mid = es.update(t, grown);
        lemma_rv_add(es[t].mass, es[j].mass);
        lemma_live_mass_update(es, t, grown, es.len());
        lemma_live_mass_update(mid, j, gone, es.len());
        assert(live_share(grown) == live_share(es[t]) + live_share(es[j]));
        assert(live_share(gone) == 0real);
        assert(mid[j] == es[j]);
    }
}

/// Comparing one particle with those that follow keeps the statuses chained
/// and the live mass as it was.
proof fn lemma_scanned_mass<K: Field, S: MathSpace<K>>(
    es: Seq<PhysicsObject<K>>,
    space: S,
    threshold: K,
    i: int,
    target: usize,
    end: int,
)
    requires
        exact::<K>(),
        chained(es, i),
        0 <= i < end <= es.len() <= usize::MAX,
        merge_target(es, i) == Some(target),
    ensures
        scanned(es, space, threshold, i, target, end).len() == es.len(),
        chained(scanned(es, space, threshold, i, target, end), i),
        merge_target(scanned(es, space, threshold, i, target, end), i) == Some(target),
        live_mass(scanned(es, space, threshold, i, target, end), es.len()) == live_mass(es, es.len()),
    decreases end - i,
{
    if end > i + 1 {
        lemma_scanned_mass(es, space, threshold, i, target, end - 1);
        let before = scanned(es, space, threshold, i, target, end - 1);
        lemma_pair_merged_chained(before, space, threshold, i, target, end - 1);
        lemma_pair_merged_mass(before, space, threshold, i, target, end - 1);
    }
}

/// The merge pass keeps the statuses chained and the live mass as it was, as
/// far as it has come.
proof fn lemma_merged_upto_mass<K: Field, S: MathSpace<K>>(
    es: Seq<PhysicsObject<K>>,
    space: S,
    threshold: K,
    end: int,
)
    requires
        exact::<K>(),
        all_live(es),
        0 <= end <= es.len() <= usize::MAX,
    ensures
        merged_upto(es, space, threshold, end).len() == es.len(),
        chained(merged_upto(es, space, threshold, end), end),
        live_mass(merged_upto(es, space, threshold, end), es.len()) == live_mass(es, es.len()),
    decreases end,
{
    if end <= 0 {
        lemma_all_live_chained(es);
    } else {
        lemma_merged_upto_mass(es, space, threshold, end - 1);
        let before = merged_upto(es, space, threshold, end - 1);
        assert(linked(before, end - 1, end - 1));
        let target = merge_target(before, end - 1).unwrap();
        if end < es.len() {
            lemma_scanned_mass(before, space, threshold, end - 1, target, before.len() as int);
        }
        lemma_chained_next(merged_upto(es, space, threshold, end), end - 1);
    }
}

/// Merging conserves mass: the live particles weigh as much after the merge
/// pass as before it.
pub proof fn lemma_merge_conserves_mass<K: Field, S: MathSpace<K>>(
    es: Seq<PhysicsObject<K>>,
    space: S,
    threshold: K,
)
    requires
        exact::<K>(),
        all_live(es),
        es.len() <= usize::MAX,
    ensures
        live_mass(merged_upto(es, space, threshold, es.len() as int), es.len()) == live_mass(es, es.len()),
{
    lemma_merged_upto_mass(es, space, threshold, es.len() as int);
}

} // verus!
