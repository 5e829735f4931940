//! A verified 2D grid-based field simulation core.
//!
//! The library maintains a rectangular domain of cells, each carrying a
//! velocity vector, a pressure and a temperature, advances the field through
//! a caller-supplied local update rule (`Solver`), and tracks a static set of
//! blocked (solid) cells derived from an RGBA mask image.

pub mod cell;
pub mod error;
pub mod world;

pub use cell::Cell;
pub use cell::Position;
pub use error::SimError;
pub use world::BlockedMask;
pub use world::ConstantSolver;
pub use world::Grid;
pub use world::GridIterator;
pub use world::IdentitySolver;
pub use world::Simulation;
pub use world::Solver;
