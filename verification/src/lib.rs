//! A fixed-capacity particle simulation pool.
//!
//! The pool owns a fixed array of particle slots and offers amortized O(1)
//! allocation, per-tick advancement, bounded read-only iteration, and reset.
//! Liveness is tracked with two cooperating watermarks instead of a free
//! list: `search_from`, a lower-bound hint for the next free slot, and
//! `high_water`, an exclusive upper bound on the prefix that may hold an
//! active particle.
//!
//! All physical quantities (positions, velocities, ages, lifetimes) are
//! fixed-point integers in caller-chosen subunits: velocities are measured in
//! position subunits per time unit and time steps in time units, so a single
//! Euler step is the exact integer product `velocity * dt`.

#![verifier::loop_isolation(false)]

pub mod laws;
pub mod particle_driver;
pub mod world;
