//! Elliptic-curve capabilities: scalars, group points, Pedersen value
//! commitments and Schnorr signatures over the embedded curve.
//!
//! Points and scalars are carried as their canonical 32-byte encodings;
//! every group operation goes through one trusted wrapper around the
//! curve library, and the contracts of everything above are stated over
//! the named results of those wrappers.

use vstd::prelude::*;
use group::Group;
use group::GroupEncoding;
use group::cofactor::CofactorGroup;
use crate::hash::{blake2s_ps, blake2s32};
use crate::bytes::{u64_le_bytes, clone_bytes, push_bytes, bytes_eq};

verus! {

/// Whether 32 bytes are the canonical encoding of a scalar.
pub uninterp spec fn is_fr(b: Seq<u8>) -> bool;

/// Sum of two scalars given by canonical encodings.
pub uninterp spec fn fr_add(a: Seq<u8>, b: Seq<u8>) -> Seq<u8>;

/// Difference of two scalars given by canonical encodings.
pub uninterp spec fn fr_sub(a: Seq<u8>, b: Seq<u8>) -> Seq<u8>;

/// Product of two scalars given by canonical encodings.
pub uninterp spec fn fr_mul(a: Seq<u8>, b: Seq<u8>) -> Seq<u8>;

/// Scalar obtained by reducing 64 bytes modulo the group order.
pub uninterp spec fn fr_wide(b: Seq<u8>) -> Seq<u8>;

/// Whether 32 bytes are the canonical encoding of a prime-order point.
pub uninterp spec fn is_point(b: Seq<u8>) -> bool;

/// Sum of two prime-order points given by canonical encodings.
pub uninterp spec fn pt_add(a: Seq<u8>, b: Seq<u8>) -> Seq<u8>;

/// Scalar multiple of a prime-order point: `pt_mul(scalar, point)`.
pub uninterp spec fn pt_mul(s: Seq<u8>, p: Seq<u8>) -> Seq<u8>;

/// Fixed-base scalar multiple of the subgroup generator.
pub uninterp spec fn pk_of(s: Seq<u8>) -> Seq<u8>;

/// Whether 32 bytes decode to a point on the curve (any order).
pub uninterp spec fn on_curve(b: Seq<u8>) -> bool;

/// The cofactor-cleared subgroup point of a curve-point encoding.
pub uninterp spec fn cleared_of(b: Seq<u8>) -> Seq<u8>;

/// Whether a prime-order point encoding is the identity.
pub uninterp spec fn is_id_pt(b: Seq<u8>) -> bool;

/// The canonical scalar encoding of a 64-bit integer: its eight
/// little-endian bytes padded with zeros.
pub open spec fn fr_of_u64(v: u64) -> Seq<u8> {
    u64_le_bytes(v) + Seq::new(24, |i: int| 0u8)
}

/// Relies on jubjub::Fr::{from_bytes, add, to_bytes}: succeeds exactly on
/// canonical inputs; scalar addition modulo the group order.
#[verifier::external_body]
pub(crate) fn fr_add_exec(a: &Vec<u8>, b: &Vec<u8>) -> (r: Option<Vec<u8>>)
    requires
        a@.len() == 32,
        b@.len() == 32,
    ensures
        r is Some <==> (is_fr(a@) && is_fr(b@)),
        r matches Some(c) ==> c@ == fr_add(a@, b@) && is_fr(c@) && c@.len() == 32,
{
    let mut x = [0u8; 32];
    x.copy_from_slice(&a[..]);
    let mut y = [0u8; 32];
    y.copy_from_slice(&b[..]);
    let xa = Option::<jubjub::Fr>::from(jubjub::Fr::from_bytes(&x))?;
    let yb = Option::<jubjub::Fr>::from(jubjub::Fr::from_bytes(&y))?;
    Some((xa + yb).to_bytes().to_vec())
}

/// Relies on jubjub::Fr::{from_bytes, sub, to_bytes}: succeeds exactly on
/// canonical inputs; scalar subtraction modulo the group order.
#[verifier::external_body]
pub(crate) fn fr_sub_exec(a: &Vec<u8>, b: &Vec<u8>) -> (r: Option<Vec<u8>>)
    requires
        a@.len() == 32,
        b@.len() == 32,
    ensures
        r is Some <==> (is_fr(a@) && is_fr(b@)),
        r matches Some(c) ==> c@ == fr_sub(a@, b@) && is_fr(c@) && c@.len() == 32,
{
    let mut x = [0u8; 32];
    x.copy_from_slice(&a[..]);
    let mut y = [0u8; 32];
    y.copy_from_slice(&b[..]);
    let xa = Option::<jubjub::Fr>::from(jubjub::Fr::from_bytes(&x))?;
    let yb = Option::<jubjub::Fr>::from(jubjub::Fr::from_bytes(&y))?;
    Some((xa - yb).to_bytes().to_vec())
}

/// Relies on jubjub::Fr::{from_bytes, mul, to_bytes}: succeeds exactly on
/// canonical inputs; scalar multiplication modulo the group order.
#[verifier::external_body]
pub(crate) fn fr_mul_exec(a: &Vec<u8>, b: &Vec<u8>) -> (r: Option<Vec<u8>>)
    requires
        a@.len() == 32,
        b@.len() == 32,
    ensures
        r is Some <==> (is_fr(a@) && is_fr(b@)),
        r matches Some(c) ==> c@ == fr_mul(a@, b@) && is_fr(c@) && c@.len() == 32,
{
    let mut x = [0u8; 32];
    x.copy_from_slice(&a[..]);
    let mut y = [0u8; 32];
    y.copy_from_slice(&b[..]);
    let xa = Option::<jubjub::Fr>::from(jubjub::Fr::from_bytes(&x))?;
    let yb = Option::<jubjub::Fr>::from(jubjub::Fr::from_bytes(&y))?;
    Some((xa * yb).to_bytes().to_vec())
}

/// Multiplicative inverse of a scalar given by a canonical encoding.
pub uninterp spec fn fr_inv(b: Seq<u8>) -> Seq<u8>;

/// Relies on jubjub::Fr::{from_bytes, invert, to_bytes}: succeeds
/// exactly on a canonical non-zero scalar (the canonical zero encoding
/// is all zero bytes, the encoding of 0).
#[verifier::external_body]
pub(crate) fn fr_inv_exec(b: &Vec<u8>) -> (r: Option<Vec<u8>>)
    requires
        b@.len() == 32,
    ensures
        r is Some <==> (is_fr(b@) && b@ != fr_of_u64(0)),
        r matches Some(c) ==> c@ == fr_inv(b@) && is_fr(c@) && c@.len() == 32,
{
    let mut x = [0u8; 32];
    x.copy_from_slice(&b[..]);
    let s = Option::<jubjub::Fr>::from(jubjub::Fr::from_bytes(&x))?;
    let inv = Option::<jubjub::Fr>::from(s.invert())?;
    Some(inv.to_bytes().to_vec())
}

/// Relies on jubjub::Fr::{from_bytes_wide, to_bytes}: reduction of 64
/// bytes modulo the group order, always canonical.
#[verifier::external_body]
pub(crate) fn fr_wide_exec(b: &Vec<u8>) -> (r: Vec<u8>)
    requires
        b@.len() == 64,
    ensures
        r@ == fr_wide(b@),
        is_fr(r@),
        r@.len() == 32,
{
    let mut x = [0u8; 64];
    x.copy_from_slice(&b[..]);
    jubjub::Fr::from_bytes_wide(&x).to_bytes().to_vec()
}

/// Relies on jubjub::Fr::{from(u64), to_bytes}: a 64-bit integer is far
/// below the group order, so its canonical encoding is its little-endian
/// bytes padded with zeros.
#[verifier::external_body]
pub(crate) fn fr_from_u64(v: u64) -> (r: Vec<u8>)
    ensures
        r@ == fr_of_u64(v),
        is_fr(r@),
        r@.len() == 32,
{
    jubjub::Fr::from(v).to_bytes().to_vec()
}

/// Relies on jubjub::SubgroupPoint::{from_bytes, add, to_bytes}: succeeds
/// exactly on canonical prime-order inputs; group addition, closed in the
/// subgroup.
#[verifier::external_body]
pub(crate) fn pt_add_exec(a: &Vec<u8>, b: &Vec<u8>) -> (r: Option<Vec<u8>>)
    requires
        a@.len() == 32,
        b@.len() == 32,
    ensures
        r is Some <==> (is_point(a@) && is_point(b@)),
        r matches Some(c) ==> c@ == pt_add(a@, b@) && is_point(c@) && c@.len() == 32,
{
    let mut x = [0u8; 32];
    x.copy_from_slice(&a[..]);
    let mut y = [0u8; 32];
    y.copy_from_slice(&b[..]);
    let xa = Option::<jubjub::SubgroupPoint>::from(jubjub::SubgroupPoint::from_bytes(&x))?;
    let yb = Option::<jubjub::SubgroupPoint>::from(jubjub::SubgroupPoint::from_bytes(&y))?;
    Some((xa + yb).to_bytes().to_vec())
}

/// Relies on jubjub::SubgroupPoint::{from_bytes, mul by Fr, to_bytes}:
/// succeeds exactly on a canonical scalar and a canonical prime-order
/// point; scalar multiplication, closed in the subgroup.
#[verifier::external_body]
pub(crate) fn pt_mul_exec(s: &Vec<u8>, p: &Vec<u8>) -> (r: Option<Vec<u8>>)
    requires
        s@.len() == 32,
        p@.len() == 32,
    ensures
        r is Some <==> (is_fr(s@) && is_point(p@)),
        r matches Some(c) ==> c@ == pt_mul(s@, p@) && is_point(c@) && c@.len() == 32,
{
    let mut x = [0u8; 32];
    x.copy_from_slice(&s[..]);
    let mut y = [0u8; 32];
    y.copy_from_slice(&p[..]);
    let sc = Option::<jubjub::Fr>::from(jubjub::Fr::from_bytes(&x))?;
    let pt = Option::<jubjub::SubgroupPoint>::from(jubjub::SubgroupPoint::from_bytes(&y))?;
    Some((pt * sc).to_bytes().to_vec())
}

/// Relies on group::Group::generator and jubjub::SubgroupPoint::{from_bytes,
/// mul, to_bytes}: the fixed-base multiple of the subgroup generator;
/// succeeds exactly on a canonical scalar.
#[verifier::external_body]
pub(crate) fn derive_public(s: &Vec<u8>) -> (r: Option<Vec<u8>>)
    requires
        s@.len() == 32,
    ensures
        r is Some <==> is_fr(s@),
        r matches Some(c) ==> c@ == pk_of(s@) && is_point(c@) && c@.len() == 32,
{
    let mut x = [0u8; 32];
    x.copy_from_slice(&s[..]);
    let sc = Option::<jubjub::Fr>::from(jubjub::Fr::from_bytes(&x))?;
    Some((jubjub::SubgroupPoint::generator() * sc).to_bytes().to_vec())
}

/// The public key of a wallet secret; fails exactly when the secret is
/// not a canonical scalar.
pub fn public_key_of(secret: &Vec<u8>) -> (r: Option<Vec<u8>>)
    requires
        secret@.len() == 32,
    ensures
        r is Some <==> is_fr(secret@),
        r matches Some(p) ==> p@ == pk_of(secret@) && is_point(p@) && p@.len() == 32,
{
    derive_public(secret)
}

/// Relies on jubjub::AffinePoint::from_bytes and
/// group::cofactor::CofactorGroup::clear_cofactor: decodes any curve
/// point and multiplies it into the prime-order subgroup; succeeds
/// exactly when the bytes decode to a curve point.
#[verifier::external_body]
pub(crate) fn clear_to_subgroup(b: &Vec<u8>) -> (r: Option<Vec<u8>>)
    requires
        b@.len() == 32,
    ensures
        r is Some <==> on_curve(b@),
        r matches Some(c) ==> c@ == cleared_of(b@) && is_point(c@) && c@.len() == 32,
{
    let mut x = [0u8; 32];
    x.copy_from_slice(&b[..]);
    let a = Option::<jubjub::AffinePoint>::from(jubjub::AffinePoint::from_bytes(x))?;
    Some(jubjub::ExtendedPoint::from(a).clear_cofactor().to_bytes().to_vec())
}

/// Relies on jubjub::SubgroupPoint::{from_bytes, is_identity}: whether a
/// prime-order point encoding is the identity; false on non-canonical
/// bytes.
#[verifier::external_body]
pub(crate) fn point_is_identity(b: &Vec<u8>) -> (r: bool)
    requires
        b@.len() == 32,
    ensures
        is_point(b@) ==> r == is_id_pt(b@),
{
    let mut x = [0u8; 32];
    x.copy_from_slice(&b[..]);
    match Option::<jubjub::SubgroupPoint>::from(jubjub::SubgroupPoint::from_bytes(&x)) {
        Some(p) => bool::from(p.is_identity()),
        None => false,
    }
}

/// The base-58 digit string an address stands for; one string for each
/// byte string, as the alphabet fixes a bijection.
pub uninterp spec fn b58_of(b: Seq<u8>) -> Seq<char>;

/// Relies on bs58::encode: the canonical base-58 form of the bytes.
#[verifier::external_body]
fn b58_encode(b: &Vec<u8>) -> (r: String)
    ensures
        r@ == b58_of(b@),
{
    bs58::encode(b.as_slice()).into_string()
}

/// Relies on bs58::decode: succeeds only on well-formed base-58 text,
/// and then returns exactly the bytes whose encoding the input is.
/// Base 58 is a bijection, so the decoded bytes are the only preimage,
/// and a refused string is no byte string's encoding.
#[verifier::external_body]
fn b58_decode(s: &str) -> (r: Option<Vec<u8>>)
    ensures
        r matches Some(v) ==> b58_of(v@) == s@ && (forall|w: Seq<u8>| b58_of(w) == s@ ==> w
            == v@),
        r is None ==> !(exists|w: Seq<u8>| b58_of(w) == s@),
{
    match bs58::decode(s).into_vec() {
        Ok(v) => Some(v),
        Err(_) => None,
    }
}

/// The address of a public key: its base-58 form.
pub fn encode_address(pk: &Vec<u8>) -> (r: String)
    ensures
        r@ == b58_of(pk@),
{
    b58_encode(pk)
}

/// Reads an address back to a public key: the base-58 text must decode
/// to exactly 32 bytes that are a canonical prime-order point. Accepts
/// exactly the encodings of such keys.
pub fn parse_address(s: &str) -> (r: Result<Vec<u8>, crate::Error>)
    ensures
        r matches Ok(v) ==> v@.len() == 32 && is_point(v@) && b58_of(v@) == s@,
        r matches Err(e) ==> e == crate::Error::InvalidAddress,
        r is Ok <==> (exists|w: Seq<u8>| b58_of(w) == s@ && w.len() == 32 && #[trigger]
        is_point(w)),
{
    let bytes = match b58_decode(s) {
        Some(v) => v,
        None => {
            return Err(crate::Error::InvalidAddress);
        },
    };
    if bytes.len() != 32 {
        proof {
            assert forall|w: Seq<u8>| b58_of(w) == s@ implies !(w.len() == 32 && is_point(
                w,
            )) by {
                assert(w == bytes@);
            }
        }
        return Err(crate::Error::InvalidAddress);
    }
    let one = fr_from_u64(1);
    match pt_mul_exec(&one, &bytes) {
        Some(_) => Ok(bytes),
        None => {
            proof {
                assert forall|w: Seq<u8>| b58_of(w) == s@ implies !(w.len() == 32 && is_point(
                    w,
                )) by {
                    assert(w == bytes@);
                }
            }
            Err(crate::Error::InvalidAddress)
        },
    }
}

/// Personalization of the group-hash domain.
pub open spec fn group_hash_persona() -> Seq<u8> {
    seq![68u8, 114u8, 107u8, 71u8, 72u8, 97u8, 115u8, 104u8]
}

fn group_hash_persona_exec() -> (r: Vec<u8>)
    ensures
        r@ == group_hash_persona(),
{
    let mut r: Vec<u8> = Vec::new();
    r.push(68u8);
    r.push(114u8);
    r.push(107u8);
    r.push(71u8);
    r.push(72u8);
    r.push(97u8);
    r.push(115u8);
    r.push(104u8);
    proof {
        assert(r@ =~= group_hash_persona());
    }
    r
}

/// Hashes a tag to a non-identity prime-order point: the digest of
/// `tag || counter` is tried as a curve point and cleared of its
/// cofactor, for counters 0, 1, ... until one lands on the curve and
/// does not clear to the identity.
pub fn find_group_hash(tag: &Vec<u8>) -> (r: Option<Vec<u8>>)
    ensures
        r matches Some(p) ==> is_point(p@) && !is_id_pt(p@) && p@.len() == 32,
{
    let persona = group_hash_persona_exec();
    let mut ctr: u16 = 0;
    while ctr < 256
        invariant
            persona@ == group_hash_persona(),
        decreases 256 - ctr,
    {
        let mut data = clone_bytes(tag);
        data.push((ctr & 0xff) as u8);
        let digest = blake2s32(&persona, &data);
        match clear_to_subgroup(&digest) {
            Some(p) => {
                if !point_is_identity(&p) {
                    return Some(p);
                }
            },
            None => {},
        }
        ctr += 1;
    }
    None
}

/// The two fixed, independent Pedersen bases: one carries the committed
/// amount, the other the blinding randomness.
pub struct PedersenGens {
    value_base: Vec<u8>,
    blind_base: Vec<u8>,
}

impl PedersenGens {
    pub closed spec fn value_base_v(&self) -> Seq<u8> {
        self.value_base@
    }

    pub closed spec fn blind_base_v(&self) -> Seq<u8> {
        self.blind_base@
    }

    pub closed spec fn wf(&self) -> bool {
        &&& is_point(self.value_base@) && self.value_base@.len() == 32
        &&& is_point(self.blind_base@) && self.blind_base@.len() == 32
    }

    /// What well-formedness gives a caller: both bases are canonical
    /// 32-byte prime-order points.
    pub proof fn lemma_wf_facts(&self)
        requires
            self.wf(),
        ensures
            self.value_base_v().len() == 32,
            self.blind_base_v().len() == 32,
            is_point(self.value_base_v()),
            is_point(self.blind_base_v()),
    {
    }

    /// The base point carrying the committed amount.
    pub fn value_base(&self) -> (r: &Vec<u8>)
        ensures
            r@ == self.value_base_v(),
    {
        &self.value_base
    }

    /// The base point carrying the blinding randomness.
    pub fn blind_base(&self) -> (r: &Vec<u8>)
        ensures
            r@ == self.blind_base_v(),
    {
        &self.blind_base
    }

    /// Derives the protocol's two commitment bases by group-hashing two
    /// distinct tags; `None` only if no counter lands on the curve, which
    /// does not happen for these tags.
    pub fn setup() -> (r: Option<PedersenGens>)
        ensures
            r matches Some(g) ==> g.wf(),
    {
        let mut tag_v: Vec<u8> = Vec::new();
        tag_v.push(118u8);
        let mut tag_r: Vec<u8> = Vec::new();
        tag_r.push(114u8);
        let value_base = match find_group_hash(&tag_v) {
            Some(p) => p,
            None => {
                return None;
            },
        };
        let blind_base = match find_group_hash(&tag_r) {
            Some(p) => p,
            None => {
                return None;
            },
        };
        Some(PedersenGens { value_base, blind_base })
    }
}

/// The Pedersen commitment to `value` under randomness `blind`:
/// `value * value_base + blind * blind_base`.
pub open spec fn commit_spec(g: PedersenGens, value: u64, blind: Seq<u8>) -> Seq<u8> {
    pt_add(pt_mul(fr_of_u64(value), g.value_base_v()), pt_mul(blind, g.blind_base_v()))
}

/// Computes the Pedersen commitment; fails exactly when the blinding
/// bytes are not a canonical scalar.
pub fn pedersen_commit(g: &PedersenGens, value: u64, blind: &Vec<u8>) -> (r: Option<Vec<u8>>)
    requires
        g.wf(),
        blind@.len() == 32,
    ensures
        r is Some <==> is_fr(blind@),
        r matches Some(c) ==> c@ == commit_spec(*g, value, blind@) && is_point(c@) && c@.len() == 32,
{
    let vs = fr_from_u64(value);
    let lhs = match pt_mul_exec(&vs, &g.value_base) {
        Some(p) => p,
        None => {
            proof {
                assert(false);
            }
            return None;
        },
    };
    let rhs = match pt_mul_exec(blind, &g.blind_base) {
        Some(p) => p,
        None => {
            return None;
        },
    };
    match pt_add_exec(&lhs, &rhs) {
        Some(c) => Some(c),
        None => {
            proof {
                assert(false);
            }
            None
        },
    }
}

/// Adds two commitment points; fails exactly when either encoding is not
/// a canonical prime-order point.
pub fn point_add(a: &Vec<u8>, b: &Vec<u8>) -> (r: Option<Vec<u8>>)
    requires
        a@.len() == 32,
        b@.len() == 32,
    ensures
        r is Some <==> (is_point(a@) && is_point(b@)),
        r matches Some(c) ==> c@ == pt_add(a@, b@) && is_point(c@) && c@.len() == 32,
{
    pt_add_exec(a, b)
}

/// Personalization of the signature-challenge domain.
pub open spec fn schnorr_persona() -> Seq<u8> {
    seq![68u8, 114u8, 107u8, 83u8, 99u8, 104u8, 110u8, 114u8]
}

fn schnorr_persona_exec() -> (r: Vec<u8>)
    ensures
        r@ == schnorr_persona(),
{
    let mut r: Vec<u8> = Vec::new();
    r.push(68u8);
    r.push(114u8);
    r.push(107u8);
    r.push(83u8);
    r.push(99u8);
    r.push(104u8);
    r.push(110u8);
    r.push(114u8);
    proof {
        assert(r@ =~= schnorr_persona());
    }
    r
}

/// The signature challenge scalar: the digest of the nonce point, the
/// public key and the message, widened and reduced to a scalar.
pub open spec fn challenge_spec(rp: Seq<u8>, pk: Seq<u8>, msg: Seq<u8>) -> Seq<u8> {
    fr_wide(blake2s_ps(schnorr_persona(), rp + pk + msg) + Seq::new(32, |i: int| 0u8))
}

fn challenge(rp: &Vec<u8>, pk: &Vec<u8>, msg: &Vec<u8>) -> (r: Vec<u8>)
    ensures
        r@ == challenge_spec(rp@, pk@, msg@),
        is_fr(r@),
        r@.len() == 32,
{
    let persona = schnorr_persona_exec();
    let mut data: Vec<u8> = Vec::new();
    push_bytes(&mut data, rp);
    push_bytes(&mut data, pk);
    push_bytes(&mut data, msg);
    proof {
        assert(data@ =~= rp@ + pk@ + msg@);
    }
    let digest = blake2s32(&persona, &data);
    let mut wide = digest;
    let mut i: usize = 0;
    while i < 32
        invariant
            i <= 32,
            wide@ == blake2s_ps(schnorr_persona(), rp@ + pk@ + msg@) + Seq::new(
                i as nat,
                |k: int| 0u8,
            ),
        decreases 32 - i,
    {
        wide.push(0u8);
        proof {
            assert(blake2s_ps(schnorr_persona(), rp@ + pk@ + msg@) + Seq::new(
                i as nat,
                |k: int| 0u8,
            ).push(0u8) =~= blake2s_ps(schnorr_persona(), rp@ + pk@ + msg@) + Seq::new(
                (i + 1) as nat,
                |k: int| 0u8,
            ));
        }
        i += 1;
    }
    fr_wide_exec(&wide)
}

/// A Schnorr signature: a nonce point and a response scalar.
pub struct Signature {
    pub nonce_point: Vec<u8>,
    pub response: Vec<u8>,
}

impl Signature {
    pub open spec fn wf(&self) -> bool {
        self.nonce_point@.len() == 32 && self.response@.len() == 32
    }
}

/// The verification equation: the response times the base point equals
/// the nonce point plus the challenge times the public key, all operands
/// being canonical encodings.
pub open spec fn sig_valid_spec(pk: Seq<u8>, msg: Seq<u8>, sig: Signature) -> bool {
    &&& is_point(pk)
    &&& is_point(sig.nonce_point@)
    &&& is_fr(sig.response@)
    &&& pk_of(sig.response@) == pt_add(
        sig.nonce_point@,
        pt_mul(challenge_spec(sig.nonce_point@, pk, msg), pk),
    )
}

/// Checks a Schnorr signature over `msg` under `pk`.
pub fn verify_signature(pk: &Vec<u8>, msg: &Vec<u8>, sig: &Signature) -> (r: bool)
    requires
        pk@.len() == 32,
        sig.wf(),
    ensures
        r == sig_valid_spec(pk@, msg@, *sig),
{
    let c = challenge(&sig.nonce_point, pk, msg);
    let cp = match pt_mul_exec(&c, pk) {
        Some(p) => p,
        None => {
            return false;
        },
    };
    let rhs = match pt_add_exec(&sig.nonce_point, &cp) {
        Some(p) => p,
        None => {
            return false;
        },
    };
    let lhs = match derive_public(&sig.response) {
        Some(p) => p,
        None => {
            return false;
        },
    };
    bytes_eq(&lhs, &rhs)
}

/// Signs `msg` with secret `sk` and a fresh nonce scalar `k`: the
/// response is `k + challenge * sk`. Fails exactly when `sk` or `k` is
/// not a canonical scalar.
pub fn sign(sk: &Vec<u8>, k: &Vec<u8>, msg: &Vec<u8>) -> (r: Option<Signature>)
    requires
        sk@.len() == 32,
        k@.len() == 32,
    ensures
        r is Some <==> is_fr(sk@) && is_fr(k@),
        r matches Some(sig) ==> {
                &&& sig.wf()
                &&& sig.nonce_point@ == pk_of(k@)
                &&& sig.response@ == fr_add(
                    k@,
                    fr_mul(challenge_spec(pk_of(k@), pk_of(sk@), msg@), sk@),
                )
            },
{
    let rp = match derive_public(k) {
        Some(p) => p,
        None => {
            return None;
        },
    };
    let pk = match derive_public(sk) {
        Some(p) => p,
        None => {
            return None;
        },
    };
    let c = challenge(&rp, &pk, msg);
    let cx = match fr_mul_exec(&c, sk) {
        Some(x) => x,
        None => {
            return None;
        },
    };
    let s = match fr_add_exec(k, &cx) {
        Some(x) => x,
        None => {
            proof {
                assert(false);
            }
            return None;
        },
    };
    Some(Signature { nonce_point: rp, response: s })
}

} // verus!
