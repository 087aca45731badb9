//! Seeding of an initial population.

pub mod initializer;
pub mod random_init;

pub use initializer::{InitError, Initializer};
pub use random_init::RandomInitializer;
