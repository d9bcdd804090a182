use locket::crypto::{Key, SALT_LEN, TAG_LEN, content_hash, decrypt, derive_key, encrypt};
use locket::codec::{HEADER_LEN, NONCE_LEN, encode_artifact, parse_artifact};
use locket::errors::LocketError;

fn sample_key() -> Key {
    derive_key(&b"gh-token".to_vec(), &vec![7u8; SALT_LEN])
}

#[test]
fn derive_key_is_deterministic() {
    let token = b"gh-token".to_vec();
    let salt = vec![7u8; SALT_LEN];
    let k1 = derive_key(&token, &salt);
    let k2 = derive_key(&token, &salt);
    assert_eq!(k1, k2);
}

#[test]
fn derive_key_differs_on_salt() {
    let token = b"gh-token".to_vec();
    let k1 = derive_key(&token, &vec![7u8; SALT_LEN]);
    let k2 = derive_key(&token, &vec![8u8; SALT_LEN]);
    assert_ne!(k1, k2);
}

#[test]
fn encrypt_decrypt_round_trip() {
    let key = sample_key();
    let pt = b"API_KEY=example-value".to_vec();
    let (ct, tag) = encrypt(&key, 7, &pt);
    assert_eq!(ct.len(), pt.len());
    assert_eq!(tag.len(), TAG_LEN);
    let back = decrypt(&key, 7, &ct, &tag).unwrap();
    assert_eq!(back, pt);
}

#[test]
fn empty_plaintext_round_trip() {
    let key = sample_key();
    let (ct, tag) = encrypt(&key, 0, &Vec::new());
    assert!(ct.is_empty());
    let back = decrypt(&key, 0, &ct, &tag).unwrap();
    assert!(back.is_empty());
}

#[test]
fn every_single_bit_flip_in_ciphertext_is_detected() {
    let key = sample_key();
    let pt = b"do not tamper".to_vec();
    let (ct, tag) = encrypt(&key, 42, &pt);
    for i in 0..ct.len() {
        for b in 0..8 {
            let mut bad = ct.clone();
            bad[i] ^= 1u8 << b;
            assert_eq!(decrypt(&key, 42, &bad, &tag), Err(LocketError::IntegrityFailure));
        }
    }
}

#[test]
fn every_single_bit_flip_in_tag_is_detected() {
    let key = sample_key();
    let pt = b"do not tamper".to_vec();
    let (ct, tag) = encrypt(&key, 42, &pt);
    for j in 0..tag.len() {
        for b in 0..8 {
            let mut bad = tag.clone();
            bad[j] ^= 1u8 << b;
            assert_eq!(decrypt(&key, 42, &ct, &bad), Err(LocketError::IntegrityFailure));
        }
    }
}

#[test]
fn distinct_nonces_give_distinct_ciphertexts() {
    let key = sample_key();
    let pt = b"same plaintext".to_vec();
    let (ct1, _) = encrypt(&key, 1, &pt);
    let (ct2, _) = encrypt(&key, 2, &pt);
    assert_ne!(ct1, ct2);
}

#[test]
fn wrong_key_is_rejected() {
    let key = sample_key();
    let other = derive_key(&b"other-token".to_vec(), &vec![7u8; SALT_LEN]);
    let pt = b"confidential".to_vec();
    let (ct, tag) = encrypt(&key, 3, &pt);
    assert_eq!(decrypt(&other, 3, &ct, &tag), Err(LocketError::IntegrityFailure));
}

#[test]
fn content_hash_is_deterministic_and_sensitive() {
    let a = content_hash(&b"secret v1".to_vec());
    let b = content_hash(&b"secret v1".to_vec());
    let c = content_hash(&b"secret v2".to_vec());
    assert_eq!(a, b);
    assert_ne!(a, c);
}

#[test]
fn artifact_layout_round_trip() {
    let salt = vec![9u8; SALT_LEN];
    let tag = vec![5u8; TAG_LEN];
    let ct = b"cipherbytes".to_vec();
    let nonce: u64 = 0x0102030405060708;
    let art = encode_artifact(&salt, nonce, &tag, &ct);
    assert_eq!(art.len(), HEADER_LEN + ct.len());
    // little-endian nonce sits right after the salt
    assert_eq!(art[SALT_LEN], 0x08);
    assert_eq!(art[SALT_LEN + NONCE_LEN - 1], 0x01);
    let parsed = parse_artifact(&art).unwrap();
    assert_eq!(parsed.salt, salt);
    assert_eq!(parsed.nonce, nonce);
    assert_eq!(parsed.tag, tag);
    assert_eq!(parsed.ciphertext, ct);
}

#[test]
fn short_artifact_is_refused() {
    let art = vec![0u8; HEADER_LEN - 1];
    assert!(matches!(parse_artifact(&art), Err(LocketError::IntegrityFailure)));
}
