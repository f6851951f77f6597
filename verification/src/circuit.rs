//! The mint and spend circuit contracts.
//!
//! A circuit here is a set of constraints over a witness; the structs
//! below carry the witness and state, as verified functions, exactly the
//! values the constraints force on the public inputs: the two Pedersen
//! commitments and the coin (for a mint), plus the nullifier and merkle
//! root (for a spend). Checking an actual zero-knowledge proof against
//! those public inputs is the proving backend's job, reached through a
//! trusted verifier call whose answer is named as a pure function of
//! the key, the proof and the inputs; the engine's contracts are stated
//! over that name.

use vstd::prelude::*;
use crate::curve::{
    is_fr, is_point, is_id_pt, pt_mul, pt_add, fr_of_u64, PedersenGens, pedersen_commit,
    pt_mul_exec, pt_add_exec, point_is_identity, commit_spec,
};
use crate::note::{Note, Coin, coin_of, coin_commitment, nullifier_of, derive_nullifier, Nullifier};
use crate::merkle::MerklePath;
use jubjub::AffinePoint;
use bls12_381::Scalar;
use bellman::groth16::{Proof, verify_proof};
use bellman::gadgets::multipack::{bytes_to_bits_le, compute_multipacking};

verus! {

/// A verifying key prepared for pairing checks; Verus refuses to
/// declare the backend's generic key type itself, so it sits hidden.
#[verifier::external_body]
struct PreparedKey {
    inner: bellman::groth16::PreparedVerifyingKey<bls12_381::Bls12>,
}

/// Whether bytes parse as a serialized verifying key.
pub uninterp spec fn vk_decodes(b: Seq<u8>) -> bool;

/// Relies on bellman::groth16::{VerifyingKey::read,
/// prepare_verifying_key}: reads a serialized verifying key and
/// prepares it for pairing checks; succeeds exactly on well-formed
/// bytes, and the prepared key is a pure function of them.
#[verifier::external_body]
fn prepare_key(b: &Vec<u8>) -> (r: Option<PreparedKey>)
    ensures
        r is Some <==> vk_decodes(b@),
{
    let vk = match bellman::groth16::VerifyingKey::read(&b[..]) {
        Ok(vk) => vk,
        Err(_) => return None,
    };
    Some(PreparedKey { inner: bellman::groth16::prepare_verifying_key(&vk) })
}

/// The verifying key of the mint or spend circuit: its serialized
/// bytes, which every proof-check contract speaks of, beside the
/// prepared form the backend consumes. The two fields are only ever
/// built together, from the same bytes.
pub struct VerifyingKey {
    bytes: Vec<u8>,
    prepared: PreparedKey,
}

impl VerifyingKey {
    /// The serialized bytes this key was loaded from.
    pub closed spec fn bytes_view(&self) -> Seq<u8> {
        self.bytes@
    }

    /// Loads a key from its serialized bytes; fails exactly on
    /// malformed bytes.
    pub fn from_bytes(b: &Vec<u8>) -> (r: Option<VerifyingKey>)
        ensures
            r is Some <==> vk_decodes(b@),
            r matches Some(k) ==> k.bytes_view() == b@,
    {
        let prepared = match prepare_key(b) {
            Some(p) => p,
            None => {
                return None;
            },
        };
        Some(VerifyingKey { bytes: crate::bytes::clone_bytes(b), prepared })
    }
}

/// The Pedersen commitment to a scalar (an asset id) rather than to a
/// 64-bit amount: `scalar * value_base + blind * blind_base`.
pub open spec fn asset_commit_spec(g: PedersenGens, asset: Seq<u8>, blind: Seq<u8>) -> Seq<u8> {
    pt_add(pt_mul(asset, g.value_base_v()), pt_mul(blind, g.blind_base_v()))
}

/// Computes an asset commitment; fails exactly when the asset id or the
/// blinding bytes are not canonical scalars.
pub fn asset_commit(g: &PedersenGens, asset: &Vec<u8>, blind: &Vec<u8>) -> (r: Option<Vec<u8>>)
    requires
        g.wf(),
        asset@.len() == 32,
        blind@.len() == 32,
    ensures
        r is Some <==> (is_fr(asset@) && is_fr(blind@)),
        r matches Some(c) ==> c@ == asset_commit_spec(*g, asset@, blind@) && is_point(c@)
            && c@.len() == 32,
{
    proof {
        g.lemma_wf_facts();
    }
    let a = match pt_mul_exec(asset, g.value_base()) {
        Some(p) => p,
        None => {
            return None;
        },
    };
    let b = match pt_mul_exec(blind, g.blind_base()) {
        Some(p) => p,
        None => {
            return None;
        },
    };
    match pt_add_exec(&a, &b) {
        Some(c) => Some(c),
        None => {
            proof {
                assert(false);
            }
            None
        },
    }
}

/// The witness of the mint circuit: the note fields whose relations the
/// proof attests. Every field is optional, as a prover fills them and a
/// verifier leaves them empty.
pub struct MintContract {
    pub value: Option<u64>,
    pub asset_id: Option<Vec<u8>>,
    pub randomness_value: Option<Vec<u8>>,
    pub randomness_asset: Option<Vec<u8>>,
    pub serial: Option<Vec<u8>>,
    pub randomness_coin: Option<Vec<u8>>,
    pub public: Option<Vec<u8>>,
}

/// The public inputs the mint constraints force for a full witness.
pub struct MintPublics {
    pub value_commit: Vec<u8>,
    pub asset_commit: Vec<u8>,
    pub coin: Coin,
}

impl MintContract {
    pub open spec fn wf(&self) -> bool {
        &&& (self.asset_id matches Some(v) ==> v@.len() == 32)
        &&& (self.randomness_value matches Some(v) ==> v@.len() == 32)
        &&& (self.randomness_asset matches Some(v) ==> v@.len() == 32)
        &&& (self.serial matches Some(v) ==> v@.len() == 32)
        &&& (self.randomness_coin matches Some(v) ==> v@.len() == 32)
        &&& (self.public matches Some(v) ==> v@.len() == 32)
    }

    /// Whether the witness is complete and satisfies the circuit's
    /// domain constraints: canonical scalars, and an owner key that is a
    /// prime-order point other than the identity (the not-small-order
    /// rule).
    pub open spec fn witness_ok(&self) -> bool {
        &&& self.value is Some
        &&& (self.asset_id matches Some(v) && is_fr(v@))
        &&& (self.randomness_value matches Some(v) && is_fr(v@))
        &&& (self.randomness_asset matches Some(v) && is_fr(v@))
        &&& (self.serial matches Some(v) && is_fr(v@))
        &&& (self.randomness_coin matches Some(v) && is_fr(v@))
        &&& (self.public matches Some(v) && is_point(v@) && !is_id_pt(v@))
    }

    /// The note this witness describes; meaningful for a full witness.
    pub open spec fn spec_note(&self) -> Note {
        Note {
            value: self.value->Some_0,
            asset_id: self.asset_id->Some_0,
            owner_public_key: self.public->Some_0,
            serial: self.serial->Some_0,
            value_randomness: self.randomness_value->Some_0,
            asset_randomness: self.randomness_asset->Some_0,
            coin_randomness: self.randomness_coin->Some_0,
        }
    }

    /// Evaluates the mint constraints on the witness: the value and
    /// asset Pedersen commitments over the fixed bases, and the coin as
    /// the hash of the exact 1088-bit preimage. Fails exactly when the
    /// witness is incomplete or outside the constraint domain.
    pub fn synthesize(&self, gens: &PedersenGens) -> (r: Option<MintPublics>)
        requires
            self.wf(),
            gens.wf(),
        ensures
            r is Some <==> self.witness_ok(),
            r matches Some(p) ==> {
                &&& p.value_commit@ == commit_spec(
                    *gens,
                    self.value->Some_0,
                    self.randomness_value->Some_0@,
                )
                &&& p.asset_commit@ == asset_commit_spec(
                    *gens,
                    self.asset_id->Some_0@,
                    self.randomness_asset->Some_0@,
                )
                &&& p.coin.repr@ == coin_of(self.spec_note())
                &&& p.value_commit@.len() == 32 && p.asset_commit@.len() == 32 && p.coin.wf()
            },
    {
        let value = match &self.value {
            Some(v) => *v,
            None => {
                return None;
            },
        };
        let asset_id = match &self.asset_id {
            Some(v) => v,
            None => {
                return None;
            },
        };
        let randomness_value = match &self.randomness_value {
            Some(v) => v,
            None => {
                return None;
            },
        };
        let randomness_asset = match &self.randomness_asset {
            Some(v) => v,
            None => {
                return None;
            },
        };
        let serial = match &self.serial {
            Some(v) => v,
            None => {
                return None;
            },
        };
        let randomness_coin = match &self.randomness_coin {
            Some(v) => v,
            None => {
                return None;
            },
        };
        let public = match &self.public {
            Some(v) => v,
            None => {
                return None;
            },
        };
        // The owner key must be a prime-order point and not the identity.
        let one = crate::curve::fr_from_u64(1);
        match pt_mul_exec(&one, public) {
            Some(_) => (),
            None => {
                return None;
            },
        };
        if point_is_identity(public) {
            return None;
        }
        let value_commit = match pedersen_commit(gens, value, randomness_value) {
            Some(c) => c,
            None => {
                return None;
            },
        };
        let asset_c = match asset_commit(gens, asset_id, randomness_asset) {
            Some(c) => c,
            None => {
                return None;
            },
        };
        // The serial must be a canonical scalar for the preimage padding
        // bits to be zero.
        match pt_mul_exec(serial, public) {
            Some(_) => (),
            None => {
                return None;
            },
        };
        match pt_mul_exec(randomness_coin, public) {
            Some(_) => (),
            None => {
                return None;
            },
        };
        let note = Note {
            value,
            asset_id: crate::bytes::clone_bytes(asset_id),
            owner_public_key: crate::bytes::clone_bytes(public),
            serial: crate::bytes::clone_bytes(serial),
            value_randomness: crate::bytes::clone_bytes(randomness_value),
            asset_randomness: crate::bytes::clone_bytes(randomness_asset),
            coin_randomness: crate::bytes::clone_bytes(randomness_coin),
        };
        let coin = coin_commitment(&note);
        proof {
            assert(note.value == self.spec_note().value);
            assert(crate::note::coin_preimage(note) =~= crate::note::coin_preimage(
                self.spec_note(),
            ));
        }
        Some(MintPublics { value_commit, asset_commit: asset_c, coin })
    }
}

/// The witness of the spend circuit: the spent note's fields, the owner
/// secret, and the authentication path to a recorded root.
pub struct SpendContract {
    pub note: Option<Note>,
    pub secret: Option<Vec<u8>>,
    pub randomness_value: Option<Vec<u8>>,
    pub randomness_asset: Option<Vec<u8>>,
    pub path: Option<MerklePath>,
}

/// The public inputs the spend constraints force for a full witness.
pub struct SpendPublics {
    pub value_commit: Vec<u8>,
    pub asset_commit: Vec<u8>,
    pub nullifier: Nullifier,
    pub merkle_root: Vec<u8>,
}

impl SpendContract {
    pub open spec fn wf(&self) -> bool {
        &&& (self.note matches Some(n) ==> n.wf())
        &&& (self.secret matches Some(v) ==> v@.len() == 32)
        &&& (self.randomness_value matches Some(v) ==> v@.len() == 32)
        &&& (self.randomness_asset matches Some(v) ==> v@.len() == 32)
        &&& (self.path matches Some(p) ==> p.wf())
    }

    pub open spec fn witness_ok(&self) -> bool {
        &&& (self.note matches Some(n) && is_fr(n.asset_id@))
        &&& (self.secret matches Some(v) && is_fr(v@))
        &&& (self.randomness_value matches Some(v) && is_fr(v@))
        &&& (self.randomness_asset matches Some(v) && is_fr(v@))
        &&& self.path is Some
    }

    /// Evaluates the spend constraints: re-derives the coin exactly as
    /// the mint does, walks the authentication path from it to the root,
    /// derives the nullifier from the secret and the serial, and rebuilds
    /// the two commitments. Fails exactly when the witness is incomplete
    /// or outside the constraint domain.
    pub fn synthesize(&self, gens: &PedersenGens) -> (r: Option<SpendPublics>)
        requires
            self.wf(),
            gens.wf(),
        ensures
            r is Some <==> self.witness_ok(),
            r matches Some(p) ==> {
                &&& p.value_commit@ == commit_spec(
                    *gens,
                    self.note->Some_0.value,
                    self.randomness_value->Some_0@,
                )
                &&& p.asset_commit@ == asset_commit_spec(
                    *gens,
                    self.note->Some_0.asset_id@,
                    self.randomness_asset->Some_0@,
                )
                &&& p.nullifier.repr@ == nullifier_of(
                    self.secret->Some_0@,
                    self.note->Some_0.serial@,
                )
                &&& p.merkle_root@ == self.path->Some_0.spec_root_for(
                    coin_of(self.note->Some_0),
                )
                &&& p.nullifier.wf() && p.merkle_root@.len() == 32 && p.value_commit@.len()
                    == 32 && p.asset_commit@.len() == 32
            },
    {
        let note = match &self.note {
            Some(n) => n,
            None => {
                return None;
            },
        };
        let secret = match &self.secret {
            Some(v) => v,
            None => {
                return None;
            },
        };
        let randomness_value = match &self.randomness_value {
            Some(v) => v,
            None => {
                return None;
            },
        };
        let randomness_asset = match &self.randomness_asset {
            Some(v) => v,
            None => {
                return None;
            },
        };
        let path = match &self.path {
            Some(p) => p,
            None => {
                return None;
            },
        };
        // Domain checks on the scalars.
        match crate::curve::derive_public(secret) {
            Some(_) => (),
            None => {
                return None;
            },
        };
        let value_commit = match pedersen_commit(gens, note.value, randomness_value) {
            Some(c) => c,
            None => {
                return None;
            },
        };
        let asset_c = match asset_commit(gens, &note.asset_id, randomness_asset) {
            Some(c) => c,
            None => {
                return None;
            },
        };
        let coin = coin_commitment(note);
        let merkle_root = crate::merkle::walk_path(path, &coin.repr);
        let nullifier = derive_nullifier(secret, &note.serial);
        Some(SpendPublics { value_commit, asset_commit: asset_c, nullifier, merkle_root })
    }
}

/// Relies on <[u8]>::copy_from_slice: the 32 bytes of a vector as an
/// array, unchanged.
#[verifier::external_body]
fn arr32(v: &Vec<u8>) -> (r: [u8; 32])
    requires
        v@.len() == 32,
    ensures
        r@ == v@,
{
    let mut a = [0u8; 32];
    a.copy_from_slice(&v[..]);
    a
}

/// The proving backend's answer for one proof check: a pure function
/// of the verifying key's bytes, the proof blob, the two commitment
/// point encodings and the packed byte string, as Groth16 verification
/// is a deterministic pairing computation.
pub uninterp spec fn groth16_ok(
    vk: Seq<u8>,
    proof: Seq<u8>,
    a: Seq<u8>,
    b: Seq<u8>,
    packed: Seq<u8>,
) -> bool;

/// Relies on jubjub::AffinePoint::{from_bytes, get_u, get_v},
/// bellman::gadgets::multipack and bellman::groth16::{Proof::read,
/// verify_proof}: decodes the two commitment points, packs the byte
/// string into field elements, and checks the proof blob against the
/// key over the resulting public-input vector; false whenever a point,
/// the proof or the pairing equation fails. The whole computation is
/// deterministic in its arguments, which is all the contract claims.
#[verifier::external_body]
fn groth16_verify_packed(
    pvk: &VerifyingKey,
    proof: &Vec<u8>,
    a: &[u8; 32],
    b: &[u8; 32],
    packed: &Vec<u8>,
) -> (r: bool)
    ensures
        r == groth16_ok(pvk.bytes_view(), proof@, a@, b@, packed@),
{
    let p = match Option::<AffinePoint>::from(AffinePoint::from_bytes(*a)) { Some(p) => p, None => return false };
    let q = match Option::<AffinePoint>::from(AffinePoint::from_bytes(*b)) { Some(q) => q, None => return false };
    let pf = match Proof::read(&proof[..]) { Ok(p) => p, Err(_) => return false };
    let mut inputs = vec![p.get_u(), p.get_v(), q.get_u(), q.get_v()];
    inputs.extend(compute_multipacking::<Scalar>(&bytes_to_bits_le(&packed[..])));
    verify_proof(&pvk.prepared.inner, &pf, &inputs).is_ok()
}

/// Checks a mint proof against its public inputs: the two commitment
/// points' coordinates and the packed coin bits.
pub(crate) fn groth16_verify_mint(
    pvk: &VerifyingKey,
    proof: &Vec<u8>,
    value_commit: &Vec<u8>,
    asset_commit: &Vec<u8>,
    coin: &Vec<u8>,
) -> (r: bool)
    requires
        value_commit@.len() == 32,
        asset_commit@.len() == 32,
    ensures
        r == groth16_ok(pvk.bytes_view(), proof@, value_commit@, asset_commit@, coin@),
{
    let a = arr32(value_commit);
    let b = arr32(asset_commit);
    groth16_verify_packed(pvk, proof, &a, &b, coin)
}

/// Checks a spend proof against its public inputs: the two commitment
/// points' coordinates, then the packed nullifier and root bits.
pub(crate) fn groth16_verify_spend(
    pvk: &VerifyingKey,
    proof: &Vec<u8>,
    value_commit: &Vec<u8>,
    asset_commit: &Vec<u8>,
    nullifier: &Vec<u8>,
    merkle_root: &Vec<u8>,
) -> (r: bool)
    requires
        value_commit@.len() == 32,
        asset_commit@.len() == 32,
    ensures
        r == groth16_ok(
            pvk.bytes_view(),
            proof@,
            value_commit@,
            asset_commit@,
            nullifier@ + merkle_root@,
        ),
{
    let a = arr32(value_commit);
    let b = arr32(asset_commit);
    let mut packed = crate::bytes::clone_bytes(nullifier);
    crate::bytes::push_bytes(&mut packed, merkle_root);
    groth16_verify_packed(pvk, proof, &a, &b, &packed)
}

} // verus!
