//! The note and coin model.
//!
//! A note is the private plaintext record behind a coin: its value, asset
//! id, owner key, serial and blinding randomness. Its commitment — the
//! coin — hashes a fixed 136-byte (1088-bit) preimage whose field order
//! and zero-padding positions are a protocol constant: the four pad bits
//! after each scalar are exactly the top bits of a canonical 252-bit
//! scalar encoding, which are always zero. Notes travel encrypted to an
//! ephemeral shared key and are decrypted by the recipient on scan.

use vstd::prelude::*;
use crate::hash::{blake2s_ps, digest32, blake2s32};
use crate::bytes::{u64_le_bytes, u64_to_le, u64_from_le, clone_bytes, push_bytes, bytes_eq, lemma_u64_le_round_trip};
use crate::curve::{is_fr, is_point, pt_mul, pk_of, pt_mul_exec, derive_public};
use crate::merkle::MerkleNode;

verus! {

/// The private plaintext record of one output.
pub struct Note {
    pub value: u64,
    pub asset_id: Vec<u8>,
    pub owner_public_key: Vec<u8>,
    pub serial: Vec<u8>,
    pub value_randomness: Vec<u8>,
    pub asset_randomness: Vec<u8>,
    pub coin_randomness: Vec<u8>,
}

impl Note {
    pub open spec fn wf(&self) -> bool {
        &&& self.asset_id@.len() == 32
        &&& self.owner_public_key@.len() == 32
        &&& self.serial@.len() == 32
        &&& self.value_randomness@.len() == 32
        &&& self.asset_randomness@.len() == 32
        &&& self.coin_randomness@.len() == 32
    }
}

/// The 200-byte serialization of a note: value, asset id, owner key,
/// serial, then the three blinding scalars.
pub open spec fn note_bytes(n: Note) -> Seq<u8> {
    u64_le_bytes(n.value) + n.asset_id@ + n.owner_public_key@ + n.serial@ + n.value_randomness@
        + n.asset_randomness@ + n.coin_randomness@
}

/// Serializes a note.
pub fn note_to_bytes(n: &Note) -> (r: Vec<u8>)
    requires
        n.wf(),
    ensures
        r@ == note_bytes(*n),
        r@.len() == 200,
{
    let mut r = u64_to_le(n.value);
    push_bytes(&mut r, &n.asset_id);
    push_bytes(&mut r, &n.owner_public_key);
    push_bytes(&mut r, &n.serial);
    push_bytes(&mut r, &n.value_randomness);
    push_bytes(&mut r, &n.asset_randomness);
    push_bytes(&mut r, &n.coin_randomness);
    proof {
        assert(r@ =~= note_bytes(*n));
    }
    r
}

/// Copies `len` bytes starting at `at`.
fn copy_range(b: &Vec<u8>, at: usize, len: usize) -> (r: Vec<u8>)
    requires
        at + len <= b@.len(),
    ensures
        r@ == b@.subrange(at as int, at + len),
{
    let total: usize = b.len();
    let mut r: Vec<u8> = Vec::new();
    let mut i: usize = 0;
    while i < len
        invariant
            i <= len,
            at + len <= b@.len(),
            b@.len() == total,
            r@ == b@.subrange(at as int, at + i),
        decreases len - i,
    {
        r.push(b[at + i]);
        proof {
            assert(b@.subrange(at as int, at + i).push(b@[at + i]) =~= b@.subrange(
                at as int,
                at + i + 1,
            ));
        }
        i += 1;
    }
    r
}

/// Reads a note back from its 200-byte serialization; fails exactly on
/// any other length.
pub fn note_from_bytes(b: &Vec<u8>) -> (r: Option<Note>)
    ensures
        r is Some <==> b@.len() == 200,
        r matches Some(n) ==> n.wf() && note_bytes(n) == b@,
{
    if b.len() != 200 {
        return None;
    }
    let value = u64_from_le(b, 0);
    let n = Note {
        value,
        asset_id: copy_range(b, 8, 32),
        owner_public_key: copy_range(b, 40, 32),
        serial: copy_range(b, 72, 32),
        value_randomness: copy_range(b, 104, 32),
        asset_randomness: copy_range(b, 136, 32),
        coin_randomness: copy_range(b, 168, 32),
    };
    proof {
        assert(note_bytes(n) =~= b@);
    }
    Some(n)
}

/// Two notes with the same serialization hold the same fields.
pub proof fn lemma_note_bytes_injective(a: Note, b: Note)
    requires
        a.wf(),
        b.wf(),
        note_bytes(a) == note_bytes(b),
    ensures
        a.value == b.value,
        a.asset_id@ == b.asset_id@,
        a.owner_public_key@ == b.owner_public_key@,
        a.serial@ == b.serial@,
        a.value_randomness@ == b.value_randomness@,
        a.asset_randomness@ == b.asset_randomness@,
        a.coin_randomness@ == b.coin_randomness@,
{
    let sa = note_bytes(a);
    let sb = note_bytes(b);
    assert(u64_le_bytes(a.value) =~= sa.subrange(0, 8));
    assert(u64_le_bytes(b.value) =~= sb.subrange(0, 8));
    lemma_u64_le_round_trip(a.value, b.value);
    assert(a.asset_id@ =~= sa.subrange(8, 40));
    assert(b.asset_id@ =~= sb.subrange(8, 40));
    assert(a.owner_public_key@ =~= sa.subrange(40, 72));
    assert(b.owner_public_key@ =~= sb.subrange(40, 72));
    assert(a.serial@ =~= sa.subrange(72, 104));
    assert(b.serial@ =~= sb.subrange(72, 104));
    assert(a.value_randomness@ =~= sa.subrange(104, 136));
    assert(b.value_randomness@ =~= sb.subrange(104, 136));
    assert(a.asset_randomness@ =~= sa.subrange(136, 168));
    assert(b.asset_randomness@ =~= sb.subrange(136, 168));
    assert(a.coin_randomness@ =~= sa.subrange(168, 200));
    assert(b.coin_randomness@ =~= sb.subrange(168, 200));
}

/// Personalization of the coin-commitment domain.
pub open spec fn coin_persona() -> Seq<u8> {
    seq![90u8, 99u8, 97u8, 115u8, 104u8, 105u8, 118u8, 107u8]
}

fn coin_persona_exec() -> (r: Vec<u8>)
    ensures
        r@ == coin_persona(),
{
    let mut r: Vec<u8> = Vec::new();
    r.push(90u8);
    r.push(99u8);
    r.push(97u8);
    r.push(115u8);
    r.push(104u8);
    r.push(105u8);
    r.push(118u8);
    r.push(107u8);
    proof {
        assert(r@ =~= coin_persona());
    }
    r
}

/// The 136-byte (1088-bit) coin preimage: owner key, value, serial, coin
/// randomness, asset id. Each scalar contributes its canonical 32-byte
/// little-endian encoding, whose top four bits are the protocol's fixed
/// zero padding.
pub open spec fn coin_preimage(n: Note) -> Seq<u8> {
    n.owner_public_key@ + u64_le_bytes(n.value) + n.serial@ + n.coin_randomness@ + n.asset_id@
}

/// The coin commitment of a note.
pub open spec fn coin_of(n: Note) -> Seq<u8> {
    blake2s_ps(coin_persona(), coin_preimage(n))
}

/// A coin: the public commitment standing for one output.
pub struct Coin {
    pub repr: Vec<u8>,
}

impl Coin {
    pub open spec fn wf(&self) -> bool {
        self.repr@.len() == 32
    }

    /// The tree leaf carrying this coin.
    pub fn to_merkle_node(&self) -> (r: MerkleNode)
        requires
            self.wf(),
        ensures
            r.wf(),
            r.value() == self.repr@,
    {
        let n = MerkleNode::new(clone_bytes(&self.repr));
        match n {
            Some(node) => node,
            None => {
                proof {
                    assert(false);
                }
                vstd::pervasive::unreached()
            },
        }
    }
}

/// Computes the coin commitment of a note, over the exact 1088-bit
/// preimage layout.
pub fn coin_commitment(n: &Note) -> (r: Coin)
    requires
        n.wf(),
    ensures
        r.wf(),
        r.repr@ == coin_of(*n),
{
    let persona = coin_persona_exec();
    let mut data = clone_bytes(&n.owner_public_key);
    let vle = u64_to_le(n.value);
    push_bytes(&mut data, &vle);
    push_bytes(&mut data, &n.serial);
    push_bytes(&mut data, &n.coin_randomness);
    push_bytes(&mut data, &n.asset_id);
    proof {
        assert(data@ =~= coin_preimage(*n));
    }
    Coin { repr: blake2s32(&persona, &data) }
}

/// Personalization of the nullifier domain.
pub open spec fn nullifier_persona() -> Seq<u8> {
    seq![68u8, 114u8, 107u8, 78u8, 117u8, 108u8, 108u8, 105u8]
}

fn nullifier_persona_exec() -> (r: Vec<u8>)
    ensures
        r@ == nullifier_persona(),
{
    let mut r: Vec<u8> = Vec::new();
    r.push(68u8);
    r.push(114u8);
    r.push(107u8);
    r.push(78u8);
    r.push(117u8);
    r.push(108u8);
    r.push(108u8);
    r.push(105u8);
    proof {
        assert(r@ =~= nullifier_persona());
    }
    r
}

/// The nullifier of a coin: a one-way tag of the owner secret and the
/// note serial. It reveals nothing about either, and equal
/// (secret, serial) pairs always give the same tag.
pub open spec fn nullifier_of(secret: Seq<u8>, serial: Seq<u8>) -> Seq<u8> {
    blake2s_ps(nullifier_persona(), secret + serial)
}

/// A nullifier: the spent-coin marker.
pub struct Nullifier {
    pub repr: Vec<u8>,
}

impl Nullifier {
    pub open spec fn wf(&self) -> bool {
        self.repr@.len() == 32
    }
}

/// Derives the nullifier for a secret and a serial.
pub fn derive_nullifier(secret: &Vec<u8>, serial: &Vec<u8>) -> (r: Nullifier)
    requires
        secret@.len() == 32,
        serial@.len() == 32,
    ensures
        r.wf(),
        r.repr@ == nullifier_of(secret@, serial@),
{
    let persona = nullifier_persona_exec();
    let mut data = clone_bytes(secret);
    push_bytes(&mut data, serial);
    proof {
        assert(data@ =~= secret@ + serial@);
    }
    Nullifier { repr: blake2s32(&persona, &data) }
}

/// Personalization of the note-key derivation domain.
pub open spec fn kdf_persona() -> Seq<u8> {
    seq![68u8, 114u8, 107u8, 78u8, 111u8, 116u8, 101u8, 75u8]
}

/// Personalization of the note keystream domain.
pub open spec fn stream_persona() -> Seq<u8> {
    seq![68u8, 114u8, 107u8, 78u8, 111u8, 116u8, 101u8, 67u8]
}

/// Personalization of the note authentication-tag domain.
pub open spec fn mac_persona() -> Seq<u8> {
    seq![68u8, 114u8, 107u8, 78u8, 111u8, 116u8, 101u8, 77u8]
}

fn persona_with_last(last: u8) -> (r: Vec<u8>)
    ensures
        r@ == seq![68u8, 114u8, 107u8, 78u8, 111u8, 116u8, 101u8, last],
{
    let mut r: Vec<u8> = Vec::new();
    r.push(68u8);
    r.push(114u8);
    r.push(107u8);
    r.push(78u8);
    r.push(111u8);
    r.push(116u8);
    r.push(101u8);
    r.push(last);
    proof {
        assert(r@ =~= seq![68u8, 114u8, 107u8, 78u8, 111u8, 116u8, 101u8, last]);
    }
    r
}

/// The symmetric note key derived from a shared curve point.
pub open spec fn note_key(shared: Seq<u8>) -> Seq<u8> {
    blake2s_ps(kdf_persona(), shared)
}

/// The keystream of `nblocks` 32-byte blocks under a note key.
pub open spec fn keystream(key: Seq<u8>, nblocks: nat) -> Seq<u8>
    decreases nblocks,
{
    if nblocks == 0 {
        Seq::empty()
    } else {
        keystream(key, (nblocks - 1) as nat) + digest32(
            stream_persona(),
            key + seq![(nblocks - 1) as u8],
        )
    }
}

/// Byte-wise exclusive or of `a` with a prefix of `b`.
pub open spec fn xor_seq(a: Seq<u8>, b: Seq<u8>) -> Seq<u8> {
    Seq::new(a.len(), |i: int| a[i] ^ b[i])
}

/// Applying the same pad twice gives the plaintext back.
pub proof fn lemma_xor_involution(a: Seq<u8>, b: Seq<u8>)
    requires
        b.len() >= a.len(),
    ensures
        xor_seq(xor_seq(a, b), b) =~= a,
{
    assert forall|i: int| 0 <= i < a.len() implies xor_seq(xor_seq(a, b), b)[i] == a[i] by {
        let x = a[i];
        let y = b[i];
        assert((x ^ y) ^ y == x) by (bit_vector);
    }
}

fn gen_keystream(key: &Vec<u8>, nblocks: usize) -> (r: Vec<u8>)
    requires
        key@.len() == 32,
        nblocks <= 255,
    ensures
        r@ == keystream(key@, nblocks as nat),
        r@.len() == 32 * nblocks,
{
    let persona = persona_with_last(67u8);
    let mut r: Vec<u8> = Vec::new();
    let mut i: usize = 0;
    while i < nblocks
        invariant
            i <= nblocks <= 255,
            key@.len() == 32,
            persona@ == stream_persona(),
            r@ == keystream(key@, i as nat),
            r@.len() == 32 * i,
        decreases nblocks - i,
    {
        let mut data = clone_bytes(key);
        data.push(i as u8);
        proof {
            assert(data@ =~= key@ + seq![i as u8]);
        }
        let block = blake2s32(&persona, &data);
        proof {
            assert(block@ =~= digest32(stream_persona(), key@ + seq![i as u8]));
        }
        push_bytes(&mut r, &block);
        i += 1;
    }
    r
}

fn xor_with(a: &Vec<u8>, b: &Vec<u8>) -> (r: Vec<u8>)
    requires
        b@.len() >= a@.len(),
    ensures
        r@ == xor_seq(a@, b@),
{
    let mut r: Vec<u8> = Vec::new();
    let mut i: usize = 0;
    while i < a.len()
        invariant
            i <= a@.len(),
            b@.len() >= a@.len(),
            r@ == xor_seq(a@, b@).take(i as int),
        decreases a@.len() - i,
    {
        r.push(a[i] ^ b[i]);
        proof {
            assert(xor_seq(a@, b@).take(i as int).push(a@[i as int] ^ b@[i as int])
                =~= xor_seq(a@, b@).take(i + 1));
        }
        i += 1;
    }
    proof {
        assert(xor_seq(a@, b@).take(a@.len() as int) =~= xor_seq(a@, b@));
    }
    r
}

/// The body of a note ciphertext under a key: the serialization XORed
/// with the keystream.
pub open spec fn cipher_body(nb: Seq<u8>, key: Seq<u8>) -> Seq<u8> {
    xor_seq(nb, keystream(key, 7))
}

/// The authentication tag over a ciphertext body.
pub open spec fn cipher_tag(key: Seq<u8>, body: Seq<u8>) -> Seq<u8> {
    digest32(mac_persona(), key + body)
}

/// The full 232-byte ciphertext of a note serialization under a key.
pub open spec fn cipher_of(nb: Seq<u8>, key: Seq<u8>) -> Seq<u8> {
    cipher_body(nb, key) + cipher_tag(key, cipher_body(nb, key))
}

/// What decryption yields on a ciphertext under a key: the recovered
/// 200-byte note serialization, or nothing if the length or the tag is
/// wrong.
pub open spec fn decipher_of(ct: Seq<u8>, key: Seq<u8>) -> Option<Seq<u8>> {
    if ct.len() == 232 && ct.skip(200) == cipher_tag(key, ct.take(200)) {
        Some(xor_seq(ct.take(200), keystream(key, 7)))
    } else {
        None
    }
}

/// Decrypting what was encrypted under the same key gives the note
/// serialization back.
pub proof fn lemma_cipher_round_trip(nb: Seq<u8>, key: Seq<u8>)
    requires
        nb.len() == 200,
    ensures
        decipher_of(cipher_of(nb, key), key) == Some(nb),
{
    let body = cipher_body(nb, key);
    let ct = cipher_of(nb, key);
    assert(keystream(key, 7).len() == 224) by {
        reveal_with_fuel(keystream, 8);
    }
    assert(ct.take(200) =~= body);
    assert(ct.skip(200) =~= cipher_tag(key, body));
    lemma_xor_involution(nb, keystream(key, 7));
    assert(xor_seq(body, keystream(key, 7)) =~= nb);
}

/// A note ciphertext: the encrypted serialization with its tag, and the
/// ephemeral public key the sender used.
pub struct EncryptedNote {
    pub ciphertext: Vec<u8>,
    pub ephem_public: Vec<u8>,
}

impl EncryptedNote {
    pub open spec fn wf(&self) -> bool {
        self.ciphertext@.len() == 232 && self.ephem_public@.len() == 32
    }
}

/// Encrypts a note to a recipient key under a fresh ephemeral secret.
/// Fails exactly when the ephemeral secret is not a canonical scalar or
/// the recipient key is not a canonical point.
pub fn encrypt_note(n: &Note, ephem_secret: &Vec<u8>, recipient: &Vec<u8>) -> (r: Option<
    EncryptedNote,
>)
    requires
        n.wf(),
        ephem_secret@.len() == 32,
        recipient@.len() == 32,
    ensures
        r is Some <==> (is_fr(ephem_secret@) && is_point(recipient@)),
        r matches Some(e) ==> {
            &&& e.wf()
            &&& e.ephem_public@ == pk_of(ephem_secret@)
            &&& e.ciphertext@ == cipher_of(
                note_bytes(*n),
                note_key(pt_mul(ephem_secret@, recipient@)),
            )
        },
{
    let shared = match pt_mul_exec(ephem_secret, recipient) {
        Some(s) => s,
        None => {
            return None;
        },
    };
    let ephem_public = match derive_public(ephem_secret) {
        Some(p) => p,
        None => {
            proof {
                assert(false);
            }
            return None;
        },
    };
    let kdf = persona_with_last(75u8);
    let key = blake2s32(&kdf, &shared);
    let nb = note_to_bytes(n);
    let stream = gen_keystream(&key, 7);
    let body = xor_with(&nb, &stream);
    let mac = persona_with_last(77u8);
    let mut mac_input = clone_bytes(&key);
    push_bytes(&mut mac_input, &body);
    proof {
        assert(mac_input@ =~= key@ + body@);
    }
    let tag = blake2s32(&mac, &mac_input);
    proof {
        assert(tag@ =~= digest32(mac_persona(), key@ + cipher_body(note_bytes(*n), key@)));
    }
    let mut ciphertext = body;
    push_bytes(&mut ciphertext, &tag);
    proof {
        assert(ciphertext@ =~= cipher_of(
            note_bytes(*n),
            note_key(pt_mul(ephem_secret@, recipient@)),
        ));
        assert(keystream(key@, 7).len() == 224) by {
            reveal_with_fuel(keystream, 8);
        }
    }
    Some(EncryptedNote { ciphertext, ephem_public })
}

/// Tries to decrypt a note ciphertext with a wallet secret: recomputes
/// the shared key from the ephemeral public key, checks the tag, and
/// reads the note back. Returns the note exactly when the secret is a
/// canonical scalar, the ephemeral key a canonical point, and the tag
/// matches under the recomputed key.
pub fn decrypt_note(secret: &Vec<u8>, e: &EncryptedNote) -> (r: Option<Note>)
    requires
        secret@.len() == 32,
        e.wf(),
    ensures
        r is Some <==> (is_fr(secret@) && is_point(e.ephem_public@) && decipher_of(
            e.ciphertext@,
            note_key(pt_mul(secret@, e.ephem_public@)),
        ) is Some),
        r matches Some(n) ==> {
            &&& n.wf()
            &&& decipher_of(e.ciphertext@, note_key(pt_mul(secret@, e.ephem_public@)))
                == Some(note_bytes(n))
        },
{
    let shared = match pt_mul_exec(secret, &e.ephem_public) {
        Some(s) => s,
        None => {
            return None;
        },
    };
    let kdf = persona_with_last(75u8);
    let key = blake2s32(&kdf, &shared);
    let body = copy_range(&e.ciphertext, 0, 200);
    let tag = copy_range(&e.ciphertext, 200, 32);
    let mac = persona_with_last(77u8);
    let mut mac_input = clone_bytes(&key);
    push_bytes(&mut mac_input, &body);
    proof {
        assert(mac_input@ =~= key@ + body@);
    }
    let expect = blake2s32(&mac, &mac_input);
    proof {
        assert(expect@ =~= digest32(mac_persona(), key@ + e.ciphertext@.take(200)));
        assert(e.ciphertext@.take(200) =~= body@);
    }
    if !bytes_eq(&tag, &expect) {
        proof {
            assert(e.ciphertext@.skip(200) =~= tag@);
            assert(e.ciphertext@.take(200) =~= body@);
        }
        return None;
    }
    let stream = gen_keystream(&key, 7);
    let nb = xor_with(&body, &stream);
    proof {
        assert(e.ciphertext@.skip(200) =~= tag@);
        assert(e.ciphertext@.take(200) =~= body@);
        assert(keystream(key@, 7).len() == 224) by {
            reveal_with_fuel(keystream, 8);
        }
    }
    note_from_bytes(&nb)
}

/// Round trip: a note encrypted to a recipient decrypts back to the same
/// serialization whenever the two sides derive the same shared point —
/// which holds for every matching pair, since both compute the same
/// scalar multiple of the base point.
pub proof fn lemma_note_round_trip(n: Note, ephem_secret: Seq<u8>, wallet_secret: Seq<u8>)
    requires
        n.wf(),
        pt_mul(wallet_secret, pk_of(ephem_secret)) == pt_mul(ephem_secret, pk_of(wallet_secret)),
    ensures
        decipher_of(
            cipher_of(note_bytes(n), note_key(pt_mul(ephem_secret, pk_of(wallet_secret)))),
            note_key(pt_mul(wallet_secret, pk_of(ephem_secret))),
        ) == Some(note_bytes(n)),
{
    lemma_cipher_round_trip(note_bytes(n), note_key(pt_mul(ephem_secret, pk_of(wallet_secret))));
}

} // verus!
