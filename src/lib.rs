//! Proof-request protocol for storage proofs: a 256-bit field-element codec,
//! two wire encodings of a proof request that decode to one canonical value,
//! and the handle and result-context bookkeeping around a proving backend.

mod error;
mod field;
mod request;
mod positional;
mod document;
mod context;
mod laws;
mod registry;

pub use error::EngineError;
pub use field::{
    decode, decode_array, encode, encode_array, law_array_round_trip, law_round_trip, le_bytes,
    le_value, limbs_value, FieldElement,
};
pub use request::{
    assemble, LeafModel, LeafProof, Parts, ProofRequest, RequestModel, WitnessInputs, CHUNK_LEN,
};
pub use positional::decode_positional;
pub use document::{
    decode_structured, find_field, int_array, tagged_chunks, tagged_element, tagged_elements, Doc,
    EXT_ID_U256_LE,
};
pub use context::{Buffer, ProofCtx, ProverHandle};
pub use laws::{law_format_equivalence, law_length_validation, law_tag_validation};
pub use registry::{law_release_invalidates, Registry};
