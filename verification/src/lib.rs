//! A verified core for an actor-style message-passing benchmark harness.
//!
//! The harness exercises two workload shapes — a relay ring and an
//! all-to-all square — over a combinatorial sweep of process counts,
//! message counts and concurrency degrees.  This crate holds the logic
//! worth proving: the pure sweep generator, the ring topology and its
//! relay state machine, and the square broadcast protocol with its
//! permit-counting completion barrier.  The asynchronous actor runtime
//! and the statistical timing harness are external collaborators and
//! stay outside the library.

mod params;
mod render;
mod ring;
mod square;

pub use params::{BenchResult, Spec, gen_tests, generate_specs, pow_u32};
pub use render::u32_string;
pub use ring::{Data, Ring, RingAction, RingError, RingRun, RingState, build_ring, close_ring, run_ring};
pub use square::{Barrier, PongEffect, SquareError, SquareRun, SquareState, build_square, run_square};
