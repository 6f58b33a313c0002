//! A small falling-block arcade core: a fixed-timestep tick scheduler and a
//! deterministic piece-simulation state machine on a discrete grid.
//!
//! The scheduler turns arbitrary per-frame elapsed times into a whole number
//! of fixed-length ticks. The state machine owns the grid, the settled stack
//! of cells and the one active piece; it applies gravity on each tick,
//! rotation on input, resolves collisions against the grid boundary and the
//! stack, and converts a grounded piece into stack cells.

pub mod scheduler;
pub mod sim;
