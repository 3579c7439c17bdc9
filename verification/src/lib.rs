//! A 2D position-based (XPBD) rigid-body solver over fixed-point integer
//! coordinates.
//!
//! The solver advances a set of circular dynamic bodies and static circle or
//! rectangle obstacles through fixed time steps: broad-phase pair collection,
//! semi-implicit Euler integration, positional penetration resolution,
//! velocity reconciliation from the realized position change, and a
//! restitution-aware velocity solve.
//!
//! All state lives in plain `i64` scalars; every arithmetic step is carried
//! out in `i128` and saturated back into a documented coordinate range, so
//! no operation can overflow.

pub mod boxes;
pub mod broad_phase;
pub mod integrator;
pub mod laws;
pub mod math;
pub mod position;
pub mod position_static;
pub mod step;
pub mod types;
pub mod velocity;
pub mod world;
