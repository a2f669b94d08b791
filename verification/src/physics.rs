//! Particles, the simulation that owns them, and one tick of it.

use vstd::prelude::*;
use crate::types::{
    Field, MathSpace, lt, lt_spec, same, same_spec, half, half_spec, pt, vec_add, vec_scale,
};
use crate::barnes_hut::{QuadTree, build_tree, built, enclosing};

verus! {

/// Where a particle stands in its life.
#[derive(Clone, Copy, PartialEq, Eq, Structural, Debug)]
pub enum ObjectStatus {
    /// Live: it attracts, moves and is shown.
    Default,
    /// Beyond the removal radius.
    Deleted,
    /// Absorbed by the particle at the given index.
    MergedInto(usize),
}

/// A point mass in motion.
#[derive(Debug)]
pub struct PhysicsObject<K: Field> {
    pub position_vector: [K; 2],
    /// The velocity.
    pub direction_vector: [K; 2],
    /// The acceleration of the step before.
    pub acceleration_vector: [K; 2],
    pub mass: K,
    pub status: ObjectStatus,
}

impl<K: Field> Clone for PhysicsObject<K> {
    fn clone(&self) -> (r: Self)
        ensures
            r == *self,
    {
        *self
    }
}

impl<K: Field> Copy for PhysicsObject<K> {

}

impl<K: Field> PhysicsObject<K> {
    /// A live particle at rest in its acceleration.
    pub fn new(position_vector: [K; 2], direction_vector: [K; 2], mass: K) -> (r: Self)
        ensures
            r.position_vector == position_vector,
            r.direction_vector == direction_vector,
            pt(r.acceleration_vector) == (K::zero_spec(), K::zero_spec()),
            r.mass == mass,
            r.status == ObjectStatus::Default,
    {
        PhysicsObject {
            position_vector,
            direction_vector,
            mass,
            acceleration_vector: [K::zero(), K::zero()],
            status: ObjectStatus::Default,
        }
    }
}

/// Two particles are equal when their fields are.
pub proof fn lemma_object_eq<K: Field>(a: PhysicsObject<K>, b: PhysicsObject<K>)
    requires
        pt(a.position_vector) == pt(b.position_vector),
        pt(a.direction_vector) == pt(b.direction_vector),
        pt(a.acceleration_vector) == pt(b.acceleration_vector),
        a.mass == b.mass,
        a.status == b.status,
    ensures
        a == b,
{
    assert(a.position_vector@ =~= b.position_vector@);
    assert(a.direction_vector@ =~= b.direction_vector@);
    assert(a.acceleration_vector@ =~= b.acceleration_vector@);
    assert(a.position_vector == b.position_vector);
    assert(a.direction_vector == b.direction_vector);
    assert(a.acceleration_vector == b.acceleration_vector);
}

/// Where the leapfrog step takes a particle: `x + v + a / 2`, with the time
/// step one.
pub open spec fn next_position_spec<K: Field>(obj: PhysicsObject<K>) -> (K, K) {
    vec_add(
        vec_add(pt(obj.position_vector), pt(obj.direction_vector)),
        vec_scale(half_spec::<K>(), pt(obj.acceleration_vector)),
    )
}

/// The velocity after the leapfrog step: `v + (a_new + a) / 2`.
pub open spec fn next_velocity_spec<K: Field>(obj: PhysicsObject<K>, next_acc: (K, K)) -> (K, K) {
    vec_add(
        pt(obj.direction_vector),
        vec_scale(half_spec::<K>(), vec_add(next_acc, pt(obj.acceleration_vector))),
    )
}

/// The particle after one leapfrog step that took it to `next_pos`, where its
/// acceleration is `next_acc`. Mass and status stay.
pub open spec fn stepped<K: Field>(obj: PhysicsObject<K>, next_pos: (K, K), next_acc: (K, K)) -> PhysicsObject<K> {
    let v = next_velocity_spec(obj, next_acc);
    PhysicsObject {
        position_vector: [next_pos.0, next_pos.1],
        direction_vector: [v.0, v.1],
        acceleration_vector: [next_acc.0, next_acc.1],
        mass: obj.mass,
        status: obj.status,
    }
}

/// One leapfrog step of particle `index` under the attraction of `tree`.
pub open spec fn leapfrog_spec<K: Field>(
    obj: PhysicsObject<K>,
    index: usize,
    tree: QuadTree<K>,
    g: K,
    softening_sq: K,
    theta: K,
) -> PhysicsObject<K> {
    let next_pos = next_position_spec(obj);
    stepped(obj, next_pos, tree.force_spec(next_pos, theta, g, softening_sq, index))
}

/// Whether a particle is within `radius` of the origin.
pub open spec fn within<K: Field, S: MathSpace<K>>(space: S, radius: K, obj: PhysicsObject<K>) -> bool {
    space.distance_spec((K::zero_spec(), K::zero_spec()), pt(obj.position_vector)).le_spec(radius)
}

/// Those of the first `n` particles of `es` that are within `radius` of the
/// origin, in their order.
pub open spec fn survivors<K: Field, S: MathSpace<K>>(
    es: Seq<PhysicsObject<K>>,
    space: S,
    radius: K,
    n: nat,
) -> Seq<PhysicsObject<K>>
    decreases n,
{
    if n == 0 {
        Seq::empty()
    } else {
        let before = survivors(es, space, radius, (n - 1) as nat);
        if within(space, radius, es[n - 1]) {
            before.push(es[n - 1])
        } else {
            before
        }
    }
}

/// Every particle of `kept` one leapfrog step on, under the attraction of the
/// tree built over `kept`.
pub open spec fn advanced<K: Field>(kept: Seq<PhysicsObject<K>>, g: K, softening_sq: K, theta: K) -> Seq<
    PhysicsObject<K>,
> {
    Seq::new(
        kept.len(),
        |i: int| leapfrog_spec(kept[i], i as usize, built(kept, enclosing(kept)), g, softening_sq, theta),
    )
}

/// Computes `next_position_spec`.
pub fn next_position<K: Field>(obj: &PhysicsObject<K>) -> (r: [K; 2])
    ensures
        pt(r) == next_position_spec(*obj),
{
    let h = half::<K>();
    [
        obj.position_vector[0].add(obj.direction_vector[0]).add(h.mul(obj.acceleration_vector[0])),
        obj.position_vector[1].add(obj.direction_vector[1]).add(h.mul(obj.acceleration_vector[1])),
    ]
}

/// Completes a leapfrog step: the particle at `next_pos` with acceleration
/// `next_acc` and the velocity that follows from both accelerations.
pub fn leapfrog<K: Field>(obj: &PhysicsObject<K>, next_pos: [K; 2], next_acc: [K; 2]) -> (r: PhysicsObject<K>)
    ensures
        r == stepped(*obj, pt(next_pos), pt(next_acc)),
{
    let h = half::<K>();
    let r = PhysicsObject {
        position_vector: next_pos,
        direction_vector: [
            obj.direction_vector[0].add(h.mul(next_acc[0].add(obj.acceleration_vector[0]))),
            obj.direction_vector[1].add(h.mul(next_acc[1].add(obj.acceleration_vector[1]))),
        ],
        acceleration_vector: next_acc,
        mass: obj.mass,
        status: obj.status,
    };
    proof {
        lemma_object_eq(r, stepped(*obj, pt(next_pos), pt(next_acc)));
    }
    r
}

/// Why a simulation could not be set up.
#[derive(Clone, Copy, PartialEq, Eq, Structural, Debug)]
pub enum ConfigError {
    /// The particle at this index has a mass that is not greater than zero.
    NonPositiveMass(usize),
    /// The softening length is zero.
    ZeroSoftening,
}

impl ConfigError {
    /// What went wrong, in words.
    pub open spec fn message_spec(self) -> Seq<char> {
        match self {
            ConfigError::NonPositiveMass(_) => "the mass of every particle must be greater than zero"@,
            ConfigError::ZeroSoftening => "the softening length must not be zero"@,
        }
    }

    /// Computes `message_spec`.
    pub fn message(&self) -> (r: &'static str)
        ensures
            r@ == self.message_spec(),
    {
        match self {
            ConfigError::NonPositiveMass(_) => "the mass of every particle must be greater than zero",
            ConfigError::ZeroSoftening => "the softening length must not be zero",
        }
    }
}

/// The positions of the particles in one row: `x0, y0, x1, y1, ...`.
pub open spec fn flat_positions<K: Field>(es: Seq<PhysicsObject<K>>) -> Seq<K> {
    Seq::new(2 * es.len(), |k: int| es[k / 2].position_vector[k % 2])
}

/// `obj` as a live particle.
pub open spec fn revived<K: Field>(obj: PhysicsObject<K>) -> PhysicsObject<K> {
    PhysicsObject {
        position_vector: obj.position_vector,
        direction_vector: obj.direction_vector,
        acceleration_vector: obj.acceleration_vector,
        mass: obj.mass,
        status: ObjectStatus::Default,
    }
}

/// The particles a simulation starts with: those given, all of them live.
pub open spec fn started<K: Field>(es: Seq<PhysicsObject<K>>) -> Seq<PhysicsObject<K>> {
    Seq::new(es.len(), |i: int| revived(es[i]))
}

/// Whether each of the first `n` particles of `es` has a mass above zero.
pub open spec fn masses_positive<K: Field>(es: Seq<PhysicsObject<K>>, n: int) -> bool {
    forall|i: int| 0 <= i < n ==> lt_spec(K::zero_spec(), (#[trigger] es[i]).mass)
}

/// The particles with the constants that rule them.
pub struct PhysicsSpace<K: Field, S: MathSpace<K>> {
    pub elements: Vec<PhysicsObject<K>>,
    pub gravitational_constant: K,
    pub math_space: S,
    /// Particles farther than this from the origin are removed.
    pub radius: K,
    /// The square of the softening length.
    pub softening_squared: K,
    /// The opening angle of the Barnes-Hut approximation.
    pub theta: K,
}

impl<K: Field, S: MathSpace<K>> PhysicsSpace<K, S> {
    /// The constants of `self` and `other` are the same.
    pub open spec fn same_constants(self, other: Self) -> bool {
        &&& self.gravitational_constant == other.gravitational_constant
        &&& self.math_space == other.math_space
        &&& self.radius == other.radius
        &&& self.softening_squared == other.softening_squared
        &&& self.theta == other.theta
    }

    /// Sets up a simulation in which every particle given is live. Every mass
    /// has to be above zero and the softening length must not be zero; the
    /// first particle that fails is reported, and the softening length only
    /// where no particle fails.
    pub fn new(
        elements: Vec<PhysicsObject<K>>,
        gravitational_constant: K,
        math_space: S,
        radius: K,
        softening: K,
        theta: K,
    ) -> (r: Result<Self, ConfigError>)
        ensures
            match r {
                Ok(space) => {
                    &&& masses_positive(elements@, elements@.len() as int)
                    &&& !same_spec(softening, K::zero_spec())
                    &&& space.elements@ == started(elements@)
                    &&& space.gravitational_constant == gravitational_constant
                    &&& space.math_space == math_space
                    &&& space.radius == radius
                    &&& space.softening_squared == softening.mul_spec(softening)
                    &&& space.theta == theta
                },
                Err(ConfigError::NonPositiveMass(i)) => {
                    &&& i < elements@.len()
                    &&& masses_positive(elements@, i as int)
                    &&& !lt_spec(K::zero_spec(), elements@[i as int].mass)
                },
                Err(ConfigError::ZeroSoftening) => {
                    &&& masses_positive(elements@, elements@.len() as int)
                    &&& same_spec(softening, K::zero_spec())
                },
            },
    {
        let ghost given = elements@;
        let mut live = elements;
        let mut i: usize = 0;
        while i < live.len()
            invariant
                given == elements@,
                i <= given.len(),
                live@.len() == given.len(),
                masses_positive(given, i as int),
                forall|k: int| 0 <= k < i ==> live@[k] == revived(given[k]),
                forall|k: int| i <= k < given.len() ==> live@[k] == given[k],
            decreases given.len() - i,
        {
            let mut e = live[i];
            if !lt(K::zero(), e.mass) {
                return Err(ConfigError::NonPositiveMass(i));
            }
            e.status = ObjectStatus::Default;
            proof {
                lemma_object_eq(e, revived(given[i as int]));
            }
            live.set(i, e);
            i += 1;
        }
        if same(softening, K::zero()) {
            return Err(ConfigError::ZeroSoftening);
        }
        assert(live@ =~= started(given));
        Ok(
            PhysicsSpace {
                elements: live,
                gravitational_constant,
                math_space,
                radius,
                softening_squared: softening.mul(softening),
                theta,
            },
        )
    }

    /// The number of live particles.
    pub fn particle_count(&self) -> (r: usize)
        ensures
            r == self.elements@.len(),
    {
        self.elements.len()
    }

    /// Writes the positions of the live particles to `buffer`, in their order
    /// and as `x0, y0, x1, y1, ...`; whatever the buffer held is gone.
    pub fn write_positions(&self, buffer: &mut Vec<K>)
        ensures
            final(buffer)@ == flat_positions(self.elements@),
    {
        buffer.clear();
        let mut i: usize = 0;
        while i < self.elements.len()
            invariant
                i <= self.elements@.len(),
                buffer@.len() == 2 * i,
                forall|k: int| 0 <= k < 2 * i ==> buffer@[k] == self.elements@[k / 2].position_vector[k % 2],
            decreases self.elements@.len() - i,
        {
            let p = self.elements[i].position_vector;
            buffer.push(p[0]);
            buffer.push(p[1]);
            i += 1;
        }
        assert(buffer@ =~= flat_positions(self.elements@));
    }

    /// Drops every particle that is farther than the radius from the origin
    /// and keeps the others in their order.
    pub fn prune(&mut self)
        ensures
            final(self).elements@ == survivors(
                old(self).elements@,
                old(self).math_space,
                old(self).radius,
                old(self).elements@.len(),
            ),
            final(self).same_constants(*old(self)),
    {
        let origin = [K::zero(), K::zero()];
        let mut kept: Vec<PhysicsObject<K>> = Vec::new();
        let mut i: usize = 0;
        while i < self.elements.len()
            invariant
                i <= self.elements@.len(),
                *self == *old(self),
                pt(origin) == (K::zero_spec(), K::zero_spec()),
                kept@ == survivors(self.elements@, self.math_space, self.radius, i as nat),
            decreases self.elements@.len() - i,
        {
            let e = self.elements[i];
            if self.math_space.distance(&origin, &e.position_vector).le(self.radius) {
                kept.push(e);
            }
            i += 1;
        }
        self.elements = kept;
    }

    /// One leapfrog step of `obj`, the particle `index`, under the attraction
    /// of `tree`.
    pub fn leapfrog_with_tree(
        &self,
        obj: &PhysicsObject<K>,
        index: usize,
        tree: &QuadTree<K>,
        g: K,
        soft_sq: K,
        theta: K,
    ) -> (r: PhysicsObject<K>)
        ensures
            r == leapfrog_spec(*obj, index, *tree, g, soft_sq, theta),
    {
        let next_pos = next_position(obj);
        let next_acc = tree.calculate_force(next_pos, theta, g, soft_sq, index);
        leapfrog(obj, next_pos, next_acc)
    }

    /// Advances the simulation by one step with the Barnes-Hut approximation:
    /// the particles beyond the radius are dropped, a tree is built over the
    /// others, and each of them takes one leapfrog step under the attraction
    /// of that tree.
    pub fn tick(&mut self)
        ensures
            final(self).elements@ == advanced(
                survivors(
                    old(self).elements@,
                    old(self).math_space,
                    old(self).radius,
                    old(self).elements@.len(),
                ),
                old(self).gravitational_constant,
                old(self).softening_squared,
                old(self).theta,
            ),
            final(self).same_constants(*old(self)),
    {
        self.prune();
        let tree = build_tree(self.elements.as_slice());
        let g = self.gravitational_constant;
        let soft_sq = self.softening_squared;
        let theta = self.theta;
        let ghost kept = self.elements@;
        let mut updated: Vec<PhysicsObject<K>> = Vec::new();
        let mut i: usize = 0;
        while i < self.elements.len()
            invariant
                i <= kept.len(),
                self.elements@ == kept,
                tree == built(kept, enclosing(kept)),
                updated@.len() == i,
                forall|j: int|
                    0 <= j < i ==> updated@[j] == leapfrog_spec(kept[j], j as usize, tree, g, soft_sq, theta),
            decreases kept.len() - i,
        {
            let obj = self.elements[i];
            updated.push(self.leapfrog_with_tree(&obj, i, &tree, g, soft_sq, theta));
            i += 1;
        }
        assert(updated@ =~= advanced(kept, g, soft_sq, theta));
        self.elements = updated;
    }
}

} // verus!
