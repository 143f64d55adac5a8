use vstd::prelude::*;

verus! {

/// The two independent identifier domains of the registry.
#[derive(Clone, Copy, Debug, PartialEq, Eq, Structural)]
pub enum Namespace {
    /// Identifiers of assets.
    Asset,
    /// Identifiers of merge recipes.
    Recipe,
}

/// Why an operation was refused. A refused operation leaves the registry
/// exactly as it found it.
#[derive(Clone, Copy, Debug, PartialEq, Eq, Structural)]
pub enum Error {
    /// No record of the given kind exists under the requested identifier.
    NotFound(Namespace),
    /// A referenced asset belongs to somebody other than the caller.
    NotOwner,
    /// A merge was asked for with fewer than two inputs.
    InsufficientInputs,
    /// The number of inputs differs from the number the recipe requires.
    RecipeMismatch,
    /// The environment denied the caller's identity check.
    Unauthorized,
    /// An internal invariant was found broken, such as an identifier that is
    /// already taken or an index entry that is already present.
    ConsistencyViolation,
    /// The counter of the namespace has reached the largest representable
    /// identifier, so no fresh identifier can be issued.
    CounterExhausted(Namespace),
    /// The level of the merged asset does not fit in 32 bits.
    LevelOverflow,
}

} // verus!
