//! A turn-based combat damage resolver: a class registry keyed by class
//! name, units that reference a class and carry personal stat deltas, and
//! an exact integer damage formula with absorb shields, stack casualty
//! accounting and single-level retaliation.

pub mod damage;
pub mod registry;
mod rng;
pub mod stats;
pub mod text;

pub use registry::Calc;
pub use registry::RawEntry;
pub use registry::deser_stats;
pub use stats::Stats;
pub use stats::Unit;
