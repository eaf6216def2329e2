//! Scheduling core of a rigid-body physics step: which host entities get a
//! backend body, which joints get created between them, and when the poses
//! that a world step produced are written back to the host.
//!
//! The physics backend itself (bodies, contacts, the solver) is not modelled
//! here: the library hands out arena indices for bodies, decides which joints
//! can be created, and copies poses indexed by those arena indices.

pub mod body;
pub mod pipeline;
pub mod schedule;
