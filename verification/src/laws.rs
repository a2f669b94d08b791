//! What holds of the simulation where the scalars are exact, and what holds
//! of it for every scalar type.

pub mod bounds;
pub mod integrator;
pub mod force;
pub mod pruning;
pub mod merging;
pub mod aggregate;
pub mod tree;
pub mod opening;
