//! Gravitational N-body simulation in the plane.
//!
//! Point masses attract each other by a softened law of gravity and move by
//! the leapfrog scheme, one tick at a time. Two modes compute the attraction:
//! the Barnes-Hut approximation, which walks a quadtree and lets a distant
//! cluster count as one point mass, and the direct mode, which sums over all
//! pairs and lets particles that collide coalesce.
//!
//! Everything is generic over the scalar type. The trait `types::Field` names
//! the operations of a scalar type, and the contracts of the library state
//! what every function computes in terms of those operations; this holds for
//! rounding types such as floating point too. The module `laws` holds what
//! follows where the scalars are exact in the sense of `exact::exact`:
//! conservation of mass, the center of mass of every node, the symmetry of the
//! force, the reversibility of the leapfrog step and others.
//!
//! - `types`: scalars and the plane over them
//! - `exact`: exact scalars, read as real numbers
//! - `barnes_hut`: bounds, the quadtree and its force
//! - `physics`: particles, the simulation, pruning and the Barnes-Hut tick
//! - `direct`: pairwise forces, the merge pass and the direct tick
//! - `laws`: the laws of the simulation

pub mod types;
pub mod exact;
pub mod barnes_hut;
pub mod physics;
pub mod direct;
pub mod laws;
