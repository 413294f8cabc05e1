//! A deterministic fixed-step character-movement core.
//!
//! The crate has three parts: a simulation clock that converts variable
//! real-frame time into a whole number of fixed-length ticks
//! ([`clock`]), a collision-resolving mover that sweeps a body through a
//! static scene and slides it along whatever it strikes ([`mover`]), and
//! a per-tick velocity recorder that makes a session replayable
//! ([`replay`]).
//!
//! All geometry is carried in fixed-point micro-units (one unit of world
//! space is `1_000_000` micro-units), so every quantity the contracts
//! speak of is an exact integer. The geometry query service and the
//! frame loop live outside the crate: callers hand each sweep result
//! back to the mover one event at a time.

pub mod clock;
pub mod mover;
pub mod replay;
pub mod vecfix;
