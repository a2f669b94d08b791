//! The symmetry of the force law.

use vstd::prelude::*;
use crate::types::{Field, neg_spec, div_spec, vec_sub, vec_dot, vec_scale};
use crate::exact::{
    exact, rv, times, lemma_rv_add, lemma_rv_sub, lemma_rv_mul, lemma_rv_neg, lemma_rv_injective,
    lemma_times_associates, lemma_times_negates, lemma_times_swaps,
};
use crate::barnes_hut::pull_spec;

verus! {

/// The softened squared distance does not depend on the direction in which
/// the displacement is taken.
proof fn lemma_separation_symmetric<K: Field>(first: (K, K), second: (K, K), softening_sq: K)
    requires
        exact::<K>(),
    ensures
        ({
            let d = vec_sub(first, second);
            let e = vec_sub(second, first);
            &&& vec_dot(d, d).add_spec(softening_sq) == vec_dot(e, e).add_spec(softening_sq)
            &&& rv(e.0) == -rv(d.0)
            &&& rv(e.1) == -rv(d.1)
        }),
{
    let d = vec_sub(first, second);
    let e = vec_sub(second, first);
    lemma_rv_sub(first.0, second.0);
    lemma_rv_sub(first.1, second.1);
    lemma_rv_sub(second.0, first.0);
    lemma_rv_sub(second.1, first.1);
    lemma_rv_mul(d.0, d.0);
    lemma_rv_mul(d.1, d.1);
    lemma_rv_mul(e.0, e.0);
    lemma_rv_mul(e.1, e.1);
    lemma_rv_add(d.0.mul_spec(d.0), d.1.mul_spec(d.1));
    lemma_rv_add(e.0.mul_spec(e.0), e.1.mul_spec(e.1));
    lemma_rv_add(vec_dot(d, d), softening_sq);
    lemma_rv_add(vec_dot(e, e), softening_sq);
    let dx = rv(d.0);
    let dy = rv(d.1);
    lemma_times_negates(dx, dx);
    lemma_times_negates(-dx, dx);
    lemma_times_negates(dy, dy);
    lemma_times_negates(-dy, dy);
    lemma_rv_injective(vec_dot(d, d).add_spec(softening_sq), vec_dot(e, e).add_spec(softening_sq));
}

/// The identity of real numbers behind the symmetry of one coordinate.
proof fn lemma_force_identity(m1: real, m2: real, g: real, i: real, d: real)
    ensures
        times(m2, times(d, times(times(m1, g), i))) == -times(m1, times(-d, times(times(m2, g), i))),
{
    let c = times(g, i);
    let u = times(d, c);
    lemma_times_associates(m1, g, i);
    lemma_times_associates(m2, g, i);
    lemma_times_swaps(d, m1, c);
    lemma_times_swaps(d, m2, c);
    lemma_times_negates(d, times(m2, c));
    lemma_times_negates(m1, times(m2, u));
    lemma_times_swaps(m1, m2, u);
}

/// The number that `mass * (d * ((source * g) * inv_den))` stands for.
proof fn lemma_force_value<K: Field>(mass: K, d: K, source: K, g: K, inv_den: K)
    requires
        exact::<K>(),
    ensures
        rv(mass.mul_spec(d.mul_spec(source.mul_spec(g).mul_spec(inv_den)))) == times(
            rv(mass),
            times(rv(d), times(times(rv(source), rv(g)), rv(inv_den))),
        ),
{
    let p = source.mul_spec(g);
    let q = p.mul_spec(inv_den);
    let s = d.mul_spec(q);
    lemma_rv_mul(source, g);
    lemma_rv_mul(p, inv_den);
    lemma_rv_mul(d, q);
    lemma_rv_mul(mass, s);
}

/// One coordinate of the two forces: with the same reciprocal `inv_den` in
/// both, the one is the other turned round.
proof fn lemma_force_coordinate<K: Field>(d: K, e: K, first_mass: K, second_mass: K, g: K, inv_den: K)
    requires
        exact::<K>(),
        rv(e) == -rv(d),
    ensures
        second_mass.mul_spec(d.mul_spec(first_mass.mul_spec(g).mul_spec(inv_den))) == neg_spec(
            first_mass.mul_spec(e.mul_spec(second_mass.mul_spec(g).mul_spec(inv_den))),
        ),
{
    let on_second = second_mass.mul_spec(d.mul_spec(first_mass.mul_spec(g).mul_spec(inv_den)));
    let on_first = first_mass.mul_spec(e.mul_spec(second_mass.mul_spec(g).mul_spec(inv_den)));
    lemma_force_value(second_mass, d, first_mass, g, inv_den);
    lemma_force_value(first_mass, e, second_mass, g, inv_den);
    lemma_force_identity(rv(first_mass), rv(second_mass), rv(g), rv(inv_den), rv(d));
    lemma_rv_neg(on_first);
    lemma_rv_injective(on_second, neg_spec(on_first));
}

/// The force law is symmetric. Of two point masses, each pulls the other with
/// a force of the same size and the opposite direction; a force is a mass
/// times the acceleration that `pull_spec` gives it.
pub proof fn lemma_force_symmetric<K: Field>(
    first: (K, K),
    first_mass: K,
    second: (K, K),
    second_mass: K,
    g: K,
    softening_sq: K,
)
    requires
        exact::<K>(),
    ensures
        ({
            let on_second = vec_scale(
                second_mass,
                pull_spec(vec_sub(first, second), first_mass, g, softening_sq),
            );
            let on_first = vec_scale(
                first_mass,
                pull_spec(vec_sub(second, first), second_mass, g, softening_sq),
            );
            on_second == (neg_spec(on_first.0), neg_spec(on_first.1))
        }),
{
    let d = vec_sub(first, second);
    let e = vec_sub(second, first);
    lemma_separation_symmetric(first, second, softening_sq);
    let r_sq = vec_dot(d, d).add_spec(softening_sq);
    let inv_den = r_sq.mul_spec(r_sq.sqrt_spec()).inv_spec();
    lemma_force_coordinate(d.0, e.0, first_mass, second_mass, g, inv_den);
    lemma_force_coordinate(d.1, e.1, first_mass, second_mass, g, inv_den);
    assert(div_spec(first_mass.mul_spec(g), r_sq.mul_spec(r_sq.sqrt_spec())) == first_mass.mul_spec(g).mul_spec(inv_den));
}

} // verus!
