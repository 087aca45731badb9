//! Building blocks for population-based optimisers: a bounded search space,
//! a direction of optimisation, and the ranking of a population by fitness.
//!
//! Coordinates and fitness values are signed 64-bit integers. Every public
//! function carries a contract over a mathematical model of its arguments.
//! Random draws come from `rand`'s seedable `StdRng`, handed in by the caller;
//! of a draw only its interval is known to the proofs.

pub mod bounds;
pub mod decoder;
pub mod genome;
pub mod init;
pub mod objective;
pub mod report;
pub mod utils;

pub use bounds::{Bounds, BoundsError, Policy};
pub use decoder::{Decoder, DecoderError};
pub use objective::{Maximization, Minimization, Objective};
pub use report::Report;
