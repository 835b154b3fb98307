use vstd::prelude::*;

verus! {

/// Every failure the engine reports to its caller.
#[derive(Clone, Copy, Debug, PartialEq, Eq, Structural)]
pub enum EngineError {
    /// A byte sequence read as field elements has the wrong length.
    InvalidLength,
    /// An absent or malformed argument, or arguments that disagree with each other.
    InvalidArgument,
    /// A structured document whose shape or tagged values do not match the schema.
    SchemaMismatch,
    /// A structured document without one of its required keys.
    MissingField,
    /// The witness assignment does not satisfy the constraint system.
    CircuitError,
    /// The backend failed to produce a proof for another reason.
    ProofError,
    /// A proof did not verify.
    VerifyError,
    /// A handle that was never issued, or was already released.
    InvalidHandle,
}

} // verus!
