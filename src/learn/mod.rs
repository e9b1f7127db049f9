//! Numeric building blocks of the learner.
pub mod metrics;
pub mod vector;

pub use self::vector::Vector;
