//! Domain-separated hashing.
//!
//! Every hash in the protocol comes from one 32-byte keyed compression
//! family, parameterized by an eight-byte personalization string; coin
//! commitments, merkle node combination, nullifier derivation and note
//! encryption each use a distinct string, so that values from one domain
//! cannot collide with another.

use vstd::prelude::*;

verus! {

/// Result of the keyed 32-byte hash over a personalization and a message.
/// The value depends on the two arguments alone.
pub uninterp spec fn blake2s_ps(persona: Seq<u8>, data: Seq<u8>) -> Seq<u8>;

/// The digest as an exactly 32-byte sequence; equal to `blake2s_ps`
/// wherever the digest is read, with the length pinned for spec-level
/// length reasoning.
pub open spec fn digest32(persona: Seq<u8>, data: Seq<u8>) -> Seq<u8> {
    Seq::new(32, |i: int| blake2s_ps(persona, data)[i])
}

/// Relies on blake2s_simd::Params: a 32-byte BLAKE2s digest of `data`
/// under the eight-byte personalization `persona`; deterministic in its
/// arguments. `Params::personal` panics on more than eight bytes, hence
/// the precondition.
#[verifier::external_body]
pub(crate) fn blake2s32(persona: &Vec<u8>, data: &Vec<u8>) -> (r: Vec<u8>)
    requires
        persona@.len() == 8,
    ensures
        r@ == blake2s_ps(persona@, data@),
        r@.len() == 32,
{
    blake2s_simd::Params::new()
        .hash_length(32)
        .personal(persona.as_slice())
        .to_state()
        .update(data.as_slice())
        .finalize()
        .as_bytes()
        .to_vec()
}

} // verus!
