use vstd::prelude::*;
use vstd::slice::slice_to_vec;

use crate::error::EngineError;

verus! {

/// Bytes handed across the boundary, owned by whoever holds the buffer.
pub struct Buffer {
    pub data: Vec<u8>,
}

impl Buffer {
    /// Number of bytes held.
    pub fn len(&self) -> (r: usize)
        ensures
            r == self.data@.len(),
    {
        self.data.len()
    }
}

/// The result of a successful proof: the proof bytes and the public inputs
/// the verifier needs, both owned by the caller until released.
pub struct ProofCtx {
    pub proof: Buffer,
    pub public_inputs: Buffer,
}

impl ProofCtx {
    /// A result context holding copies of `proof` and `public_inputs`.
    pub fn new(proof: &[u8], public_inputs: &[u8]) -> (r: Self)
        ensures
            r.proof.data@ == proof@,
            r.public_inputs.data@ == public_inputs@,
    {
        ProofCtx {
            proof: Buffer { data: slice_to_vec(proof) },
            public_inputs: Buffer { data: slice_to_vec(public_inputs) },
        }
    }
}

/// The text that `b` spells as UTF-8, if `b` is valid UTF-8.
pub uninterp spec fn utf8_text(b: Seq<u8>) -> Option<Seq<char>>;

/// Relies on `std::str::from_utf8`: it accepts a byte string exactly when it
/// is valid UTF-8, and the text depends on the bytes alone.
#[verifier::external_body]
fn text_of(b: &[u8]) -> (r: Option<String>)
    ensures
        r matches Some(s) ==> utf8_text(b@) == Some(s@),
        r is None ==> utf8_text(b@) is None,
{
    match std::str::from_utf8(b) {
        Ok(s) => Some(s.to_owned()),
        Err(_) => None,
    }
}

/// The artifact references one prover works from: the constraint system,
/// the witness-evaluation program and an optional proving-key override.
pub struct ProverHandle {
    pub circuit_spec: String,
    pub witness_program: String,
    pub proving_key: Option<String>,
}

/// Whether a required or optional reference reads as text.
pub open spec fn reference_ok(b: Option<Seq<u8>>, required: bool) -> bool {
    match b {
        Some(bytes) => utf8_text(bytes) is Some,
        None => !required,
    }
}

/// The bytes an optional slice holds.
pub open spec fn opt_view(b: Option<&[u8]>) -> Option<Seq<u8>> {
    match b {
        Some(s) => Some(s@),
        None => None,
    }
}

/// Reads one artifact reference as text.
fn reference_text(b: &[u8]) -> (r: Result<String, EngineError>)
    ensures
        r matches Ok(s) ==> utf8_text(b@) == Some(s@),
        r is Err ==> utf8_text(b@) is None,
        r matches Err(e) ==> e == EngineError::InvalidArgument,
{
    match text_of(b) {
        Some(s) => Ok(s),
        None => Err(EngineError::InvalidArgument),
    }
}

impl ProverHandle {
    /// A handle over the given artifact references. The constraint system
    /// and the witness program are required; every reference given must be
    /// UTF-8 text. Anything else is `InvalidArgument`.
    pub fn create(
        circuit_spec: Option<&[u8]>,
        witness_program: Option<&[u8]>,
        proving_key: Option<&[u8]>,
    ) -> (r: Result<ProverHandle, EngineError>)
        ensures
            r is Ok <==> reference_ok(opt_view(circuit_spec), true) && reference_ok(
                opt_view(witness_program),
                true,
            ) && reference_ok(opt_view(proving_key), false),
            r matches Ok(h) ==> Some(h.circuit_spec@) == utf8_text(circuit_spec.unwrap()@)
                && Some(h.witness_program@) == utf8_text(witness_program.unwrap()@) && (
            match proving_key {
                Some(k) => h.proving_key matches Some(t) && Some(t@) == utf8_text(k@),
                None => h.proving_key is None,
            }),
            r matches Err(e) ==> e == EngineError::InvalidArgument,
    {
        let circuit_spec = match circuit_spec {
            Some(b) => reference_text(b)?,
            None => return Err(EngineError::InvalidArgument),
        };
        let witness_program = match witness_program {
            Some(b) => reference_text(b)?,
            None => return Err(EngineError::InvalidArgument),
        };
        let proving_key = match proving_key {
            Some(b) => Some(reference_text(b)?),
            None => None,
        };
        Ok(ProverHandle { circuit_spec, witness_program, proving_key })
    }
}

} // verus!
