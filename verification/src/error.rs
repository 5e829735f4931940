//! Construction and write errors of the simulation core.

use vstd::prelude::*;

verus! {

/// The errors the core detects eagerly and surfaces to the caller.
///
/// None of them is retryable: all three report misuse at construction time
/// or an out-of-domain write during a step.
#[derive(PartialEq, Eq, Structural, Clone, Copy, Debug)]
pub enum SimError {
    /// A grid was requested with a non-positive width or height.
    InvalidDimensions,
    /// The mask image byte buffer is shorter than the domain requires.
    MaskSizeMismatch,
    /// A write was attempted at a position outside the domain.
    OutOfDomainWrite,
}

} // verus!
