//! The leapfrog step can be undone.

use vstd::prelude::*;
use crate::types::{Field, half_spec, neg_spec, pt};
use crate::exact::{exact, rv, lemma_rv_add, lemma_rv_halves, lemma_rv_injective, lemma_rv_neg};
use crate::physics::{PhysicsObject, lemma_object_eq, next_position_spec, next_velocity_spec, stepped};

verus! {

/// `obj` with its velocity turned round.
pub open spec fn reversed<K: Field>(obj: PhysicsObject<K>) -> PhysicsObject<K> {
    PhysicsObject {
        position_vector: obj.position_vector,
        direction_vector: [neg_spec(obj.direction_vector[0]), neg_spec(obj.direction_vector[1])],
        acceleration_vector: obj.acceleration_vector,
        mass: obj.mass,
        status: obj.status,
    }
}

/// One coordinate of the leapfrog step: the place `x + v + a / 2` it leads to.
pub open spec fn step_place<K: Field>(x: K, v: K, a: K) -> K {
    x.add_spec(v).add_spec(half_spec::<K>().mul_spec(a))
}

/// One coordinate of the leapfrog step: the velocity `v + (a_new + a) / 2` it
/// ends with.
pub open spec fn step_speed<K: Field>(v: K, a: K, a_new: K) -> K {
    v.add_spec(half_spec::<K>().mul_spec(a_new.add_spec(a)))
}

/// One coordinate of a step forward and a step back: the place is the old
/// one, and with the old acceleration the velocity is the old one turned
/// round.
proof fn lemma_step_back<K: Field>(x: K, v: K, a: K, a_new: K)
    requires
        exact::<K>(),
    ensures
        step_place(step_place(x, v, a), neg_spec(step_speed(v, a, a_new)), a_new) == x,
        neg_spec(step_speed(neg_spec(step_speed(v, a, a_new)), a_new, a)) == v,
{
    let h = half_spec::<K>();
    let x1 = step_place(x, v, a);
    let v1 = step_speed(v, a, a_new);
    let w = neg_spec(v1);
    let x2 = step_place(x1, w, a_new);
    let v2 = step_speed(w, a_new, a);
    lemma_rv_add(x, v);
    lemma_rv_add(x.add_spec(v), h.mul_spec(a));
    lemma_rv_halves(a);
    lemma_rv_halves(a_new);
    lemma_rv_halves(a_new.add_spec(a));
    lemma_rv_halves(a.add_spec(a_new));
    lemma_rv_add(a_new, a);
    lemma_rv_add(a, a_new);
    lemma_rv_add(v, h.mul_spec(a_new.add_spec(a)));
    lemma_rv_neg(v1);
    lemma_rv_add(x1, w);
    lemma_rv_add(x1.add_spec(w), h.mul_spec(a_new));
    lemma_rv_add(w, h.mul_spec(a.add_spec(a_new)));
    lemma_rv_neg(v2);
    assert(rv(x2) == rv(x));
    assert(rv(neg_spec(v2)) == rv(v));
    lemma_rv_injective(x2, x);
    lemma_rv_injective(neg_spec(v2), v);
}

/// The leapfrog step can be taken back. Let a particle step forward to a
/// place where its acceleration is `next_acc`, turn its velocity round, and
/// step again: it arrives where it started. If the acceleration it finds there
/// is the one it started with, turning the velocity round once more gives the
/// particle it was.
pub proof fn lemma_leapfrog_reversible<K: Field>(obj: PhysicsObject<K>, next_acc: (K, K))
    requires
        exact::<K>(),
    ensures
        ({
            let forward = stepped(obj, next_position_spec(obj), next_acc);
            let back_pos = next_position_spec(reversed(forward));
            &&& back_pos == pt(obj.position_vector)
            &&& reversed(stepped(reversed(forward), back_pos, pt(obj.acceleration_vector))) == obj
        }),
{
    let forward = stepped(obj, next_position_spec(obj), next_acc);
    let turned = reversed(forward);
    let back_pos = next_position_spec(turned);
    let back = stepped(turned, back_pos, pt(obj.acceleration_vector));
    let last = reversed(back);
    let x = pt(obj.position_vector);
    let v = pt(obj.direction_vector);
    let a = pt(obj.acceleration_vector);
    lemma_step_back(x.0, v.0, a.0, next_acc.0);
    lemma_step_back(x.1, v.1, a.1, next_acc.1);
    assert(pt(forward.direction_vector) == next_velocity_spec(obj, next_acc));
    assert(back_pos.0 == step_place(step_place(x.0, v.0, a.0), neg_spec(step_speed(v.0, a.0, next_acc.0)), next_acc.0));
    assert(back_pos.1 == step_place(step_place(x.1, v.1, a.1), neg_spec(step_speed(v.1, a.1, next_acc.1)), next_acc.1));
    assert(pt(back.direction_vector) == next_velocity_spec(turned, a));
    lemma_object_eq(last, obj);
}

} // verus!
