use darkfi::note::{
    Note, note_to_bytes, note_from_bytes, coin_commitment, derive_nullifier, encrypt_note,
    decrypt_note,
};
use darkfi::curve::public_key_of;

fn sc(tag: u64) -> Vec<u8> {
    let mut b = vec![0u8; 32];
    b[..8].copy_from_slice(&tag.to_le_bytes());
    b
}

fn sample_note(value: u64, owner: &[u8]) -> Note {
    Note {
        value,
        asset_id: sc(1),
        owner_public_key: owner.to_vec(),
        serial: sc(77),
        value_randomness: sc(5),
        asset_randomness: sc(6),
        coin_randomness: sc(9),
    }
}

#[test]
fn note_serialization_round_trip() {
    let pk = public_key_of(&sc(42)).unwrap();
    let n = sample_note(1000, &pk);
    let bytes = note_to_bytes(&n);
    assert_eq!(bytes.len(), 200);
    let back = note_from_bytes(&bytes).expect("200 bytes");
    assert_eq!(back.value, 1000);
    assert_eq!(back.asset_id, n.asset_id);
    assert_eq!(back.owner_public_key, n.owner_public_key);
    assert_eq!(back.serial, n.serial);
    assert_eq!(back.value_randomness, n.value_randomness);
    assert_eq!(back.asset_randomness, n.asset_randomness);
    assert_eq!(back.coin_randomness, n.coin_randomness);
    assert!(note_from_bytes(&vec![0u8; 199]).is_none());
}

#[test]
fn coin_commitment_depends_on_every_field() {
    let pk = public_key_of(&sc(42)).unwrap();
    let n = sample_note(1000, &pk);
    let c = coin_commitment(&n);
    let mut n2 = sample_note(1001, &pk);
    assert_ne!(coin_commitment(&n2).repr, c.repr);
    n2 = sample_note(1000, &pk);
    n2.serial = sc(78);
    assert_ne!(coin_commitment(&n2).repr, c.repr);
    // Same fields give the same coin.
    assert_eq!(coin_commitment(&sample_note(1000, &pk)).repr, c.repr);
}

#[test]
fn nullifier_is_deterministic_and_keyed() {
    let a = derive_nullifier(&sc(11), &sc(77));
    let b = derive_nullifier(&sc(11), &sc(77));
    assert_eq!(a.repr, b.repr);
    let c = derive_nullifier(&sc(12), &sc(77));
    assert_ne!(a.repr, c.repr);
    let d = derive_nullifier(&sc(11), &sc(78));
    assert_ne!(a.repr, d.repr);
}

#[test]
fn note_encrypt_decrypt_round_trip() {
    let wallet_secret = sc(42);
    let pk = public_key_of(&wallet_secret).unwrap();
    let n = sample_note(400, &pk);
    let e = encrypt_note(&n, &sc(99), &pk).expect("canonical inputs");
    let back = decrypt_note(&wallet_secret, &e).expect("matching secret");
    assert_eq!(back.value, 400);
    assert_eq!(back.serial, n.serial);
    assert_eq!(back.owner_public_key, n.owner_public_key);
    assert_eq!(back.coin_randomness, n.coin_randomness);
}

#[test]
fn decrypt_with_wrong_secret_returns_none() {
    let wallet_secret = sc(42);
    let pk = public_key_of(&wallet_secret).unwrap();
    let n = sample_note(400, &pk);
    let e = encrypt_note(&n, &sc(99), &pk).expect("canonical inputs");
    assert!(decrypt_note(&sc(43), &e).is_none());
}

#[test]
fn encrypt_rejects_non_canonical_point() {
    let n = sample_note(1, &sc(1));
    // 32 bytes that are not a canonical point encoding.
    let bad = vec![0xffu8; 32];
    assert!(encrypt_note(&n, &sc(99), &bad).is_none());
}
