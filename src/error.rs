use vstd::prelude::*;

verus! {

/// Errors reported by the state-space operations.
#[derive(Debug, Clone, Copy, PartialEq, Eq, Structural)]
pub enum SpaceError {
    /// A segment length of zero, a zero period or weight, or a compound
    /// space without children.
    InvalidConfiguration,
    /// A compound state (or a weight list) whose length does not match the
    /// children of the space it is handed to.
    DimensionMismatch,
    /// A coordinate that does not belong to the child space at its index.
    CrossSpaceState,
}

} // verus!
