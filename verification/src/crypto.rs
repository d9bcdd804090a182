//! Crypto engine: key derivation and authenticated symmetric encryption.
//!
//! The cipher is a byte-wise stream cipher: byte `i` of the ciphertext is
//! byte `i` of the plaintext XORed with a keystream derived from the key and
//! a nonce. Integrity is an encrypted 16-byte checksum tag: the XOR-fold of
//! the ciphertext (byte `i` folds into lane `i % 16`), masked with a second,
//! domain-separated keystream. Decryption recomputes the tag and refuses the
//! ciphertext when it does not match, so a mismatching tag never yields
//! plaintext. Key derivation is a deterministic iterated mixing function of
//! the credential token and a salt, so the same `(token, salt)` pair always
//! reproduces the same key.

use vstd::prelude::*;
use crate::errors::LocketError;

verus! {

/// Number of lanes (bytes) in an authentication tag.
pub const TAG_LEN: usize = 16;

/// Number of bytes in a key-derivation salt.
pub const SALT_LEN: usize = 16;

/// A fixed-length symmetric key: four 64-bit words.
#[derive(Clone, Copy, Debug, PartialEq, Eq, Structural)]
pub struct Key {
    pub w0: u64,
    pub w1: u64,
    pub w2: u64,
    pub w3: u64,
}

/// One xorshift mixing round on a 64-bit word.
pub closed spec fn mix64(x: u64) -> u64 {
    ((x ^ (x << 13)) ^ ((x ^ (x << 13)) >> 7)) ^ (((x ^ (x << 13)) ^ ((x ^ (x << 13)) >> 7))
        << 17)
}

/// Executable mirror of [`mix64`].
fn mix64_exec(x: u64) -> (r: u64)
    ensures
        r == mix64(x),
{
    let a: u64 = x ^ (x << 13);
    let b: u64 = a ^ (a >> 7);
    b ^ (b << 17)
}

/// One keystream word: a mix of the key words, the nonce, a counter and a
/// domain constant (so the data stream and the tag stream never overlap).
pub closed spec fn ks_word(key: Key, nonce: u64, ctr: u64, dom: u64) -> u64 {
    mix64(mix64(mix64(mix64(ctr ^ dom ^ key.w0) ^ nonce ^ key.w1) ^ key.w2) ^ key.w3)
}

/// Executable mirror of [`ks_word`].
fn ks_word_exec(key: &Key, nonce: u64, ctr: u64, dom: u64) -> (r: u64)
    ensures
        r == ks_word(*key, nonce, ctr, dom),
{
    mix64_exec(mix64_exec(mix64_exec(mix64_exec(ctr ^ dom ^ key.w0) ^ nonce ^ key.w1) ^ key.w2)
        ^ key.w3)
}

/// Domain constant of the data keystream.
pub const DOM_DATA: u64 = 0x6c6f636b65743144;

/// Domain constant of the tag keystream.
pub const DOM_TAG: u64 = 0x6c6f636b65743254;

/// Keystream byte `i` of the data stream.
pub closed spec fn ks_byte(key: Key, nonce: u64, i: int) -> u8 {
    (ks_word(key, nonce, i as u64, DOM_DATA) & 0xff) as u8
}

/// Executable mirror of [`ks_byte`].
fn ks_byte_exec(key: &Key, nonce: u64, i: usize) -> (r: u8)
    ensures
        r == ks_byte(*key, nonce, i as int),
{
    (ks_word_exec(key, nonce, i as u64, DOM_DATA) & 0xff) as u8
}

/// Mask byte `j` of the tag stream.
pub closed spec fn tag_pad_byte(key: Key, nonce: u64, j: int) -> u8 {
    (ks_word(key, nonce, j as u64, DOM_TAG) & 0xff) as u8
}

/// Executable mirror of [`tag_pad_byte`].
fn tag_pad_byte_exec(key: &Key, nonce: u64, j: usize) -> (r: u8)
    ensures
        r == tag_pad_byte(*key, nonce, j as int),
{
    (ks_word_exec(key, nonce, j as u64, DOM_TAG) & 0xff) as u8
}

/// The keystream applied to a byte sequence. Applying it twice with the same
/// key and nonce gives the sequence back (see
/// [`lemma_xor_stream_involutive`]).
pub open spec fn xor_stream(key: Key, nonce: u64, s: Seq<u8>) -> Seq<u8> {
    Seq::new(s.len(), |i: int| s[i] ^ ks_byte(key, nonce, i))
}

/// XOR-fold of the first `n` bytes of `s` into lane `j` (bytes whose index
/// is congruent to `j` modulo [`TAG_LEN`]).
pub closed spec fn fold_at(s: Seq<u8>, j: int, n: int) -> u8
    decreases n,
{
    if n <= 0 {
        0u8
    } else if (n - 1) % (TAG_LEN as int) == j {
        fold_at(s, j, n - 1) ^ s[n - 1]
    } else {
        fold_at(s, j, n - 1)
    }
}

/// Lane `j` of the XOR-fold of all of `s`.
pub open spec fn fold_byte(s: Seq<u8>, j: int) -> u8 {
    fold_at(s, j, s.len() as int)
}

/// The authentication tag of a ciphertext: its XOR-fold, masked with the tag
/// keystream.
pub open spec fn mac(key: Key, nonce: u64, ct: Seq<u8>) -> Seq<u8> {
    Seq::new(TAG_LEN as nat, |j: int| fold_byte(ct, j) ^ tag_pad_byte(key, nonce, j))
}

/// What [`encrypt`] returns: the ciphertext and its tag.
pub open spec fn spec_encrypt(key: Key, nonce: u64, pt: Seq<u8>) -> (Seq<u8>, Seq<u8>) {
    let ct = xor_stream(key, nonce, pt);
    (ct, mac(key, nonce, ct))
}

/// What [`decrypt`] returns: the plaintext when the tag verifies, nothing
/// otherwise.
pub open spec fn spec_decrypt(key: Key, nonce: u64, ct: Seq<u8>, tag: Seq<u8>) -> Option<
    Seq<u8>,
> {
    if tag == mac(key, nonce, ct) {
        Some(xor_stream(key, nonce, ct))
    } else {
        None
    }
}

/// Byte-wise equality of two byte vectors.
pub fn bytes_eq(a: &Vec<u8>, b: &Vec<u8>) -> (r: bool)
    ensures
        r == (a@ == b@),
{
    if a.len() != b.len() {
        assert(a@ != b@);
        return false;
    }
    let mut i: usize = 0;
    while i < a.len()
        invariant
            i <= a.len(),
            a@.len() == b@.len(),
            forall|k: int| 0 <= k < i ==> a@[k] == b@[k],
        decreases a.len() - i,
    {
        if a[i] != b[i] {
            assert(a@ != b@);
            return false;
        }
        i += 1;
    }
    proof {
        assert(a@ =~= b@);
    }
    true
}

/// Derive a fixed-length symmetric key from a credential token and a salt by
/// absorbing every byte of both into the four key words with mixing rounds.
/// Deterministic: the same `(token, salt)` always yields the same key.
pub closed spec fn spec_absorb(state: Key, bytes: Seq<u8>) -> Key
    decreases bytes.len(),
{
    if bytes.len() == 0 {
        state
    } else {
        let s1 = spec_absorb(state, bytes.drop_last());
        Key {
            w0: mix64(s1.w0 ^ (bytes.last() as u64)),
            w1: mix64(s1.w1 ^ s1.w0),
            w2: mix64(s1.w2 ^ s1.w1),
            w3: mix64(s1.w3 ^ s1.w2),
        }
    }
}

/// Initial key-derivation state.
pub closed spec fn kdf_init() -> Key {
    Key { w0: 0x243f6a8885a308d3, w1: 0x13198a2e03707344, w2: 0xa4093822299f31d0, w3: 0x082efa98ec4e6c89 }
}

/// The derived key as a function of the token and salt bytes alone.
pub open spec fn spec_derive_key(token: Seq<u8>, salt: Seq<u8>) -> Key {
    spec_absorb(spec_absorb(kdf_init(), token), salt)
}

/// Absorb a byte slice into the running key state.
fn absorb(state: Key, bytes: &Vec<u8>) -> (r: Key)
    ensures
        r == spec_absorb(state, bytes@),
{
    let mut cur = state;
    let mut i: usize = 0;
    while i < bytes.len()
        invariant
            i <= bytes.len(),
            cur == spec_absorb(state, bytes@.take(i as int)),
        decreases bytes.len() - i,
    {
        proof {
            assert(bytes@.take(i + 1).drop_last() =~= bytes@.take(i as int));
            assert(bytes@.take(i + 1).last() == bytes@[i as int]);
        }
        let b: u64 = bytes[i] as u64;
        cur = Key {
            w0: mix64_exec(cur.w0 ^ b),
            w1: mix64_exec(cur.w1 ^ cur.w0),
            w2: mix64_exec(cur.w2 ^ cur.w1),
            w3: mix64_exec(cur.w3 ^ cur.w2),
        };
        i += 1;
    }
    proof {
        assert(bytes@.take(bytes@.len() as int) =~= bytes@);
    }
    cur
}

/// Derive the symmetric key from a credential token and a salt.
pub fn derive_key(token: &Vec<u8>, salt: &Vec<u8>) -> (r: Key)
    ensures
        r == spec_derive_key(token@, salt@),
{
    let init = Key {
        w0: 0x243f6a8885a308d3,
        w1: 0x13198a2e03707344,
        w2: 0xa4093822299f31d0,
        w3: 0x082efa98ec4e6c89,
    };
    proof {
        assert(init == kdf_init());
    }
    let mid = absorb(init, token);
    absorb(mid, salt)
}

/// Apply the data keystream to a byte sequence.
fn apply_stream(key: &Key, nonce: u64, data: &Vec<u8>) -> (r: Vec<u8>)
    ensures
        r@ == xor_stream(*key, nonce, data@),
{
    let mut out: Vec<u8> = Vec::new();
    let mut i: usize = 0;
    while i < data.len()
        invariant
            i <= data.len(),
            out@.len() == i as int,
            forall|k: int| 0 <= k < i ==> out@[k] == data@[k] ^ ks_byte(*key, nonce, k),
        decreases data.len() - i,
    {
        out.push(data[i] ^ ks_byte_exec(key, nonce, i));
        i += 1;
    }
    proof {
        assert(out@ =~= xor_stream(*key, nonce, data@));
    }
    out
}

/// Compute the authentication tag of a ciphertext.
fn compute_mac(key: &Key, nonce: u64, ct: &Vec<u8>) -> (r: Vec<u8>)
    ensures
        r@ == mac(*key, nonce, ct@),
{
    let mut fold: Vec<u8> = Vec::new();
    let mut j: usize = 0;
    while j < TAG_LEN
        invariant
            j <= TAG_LEN,
            fold@.len() == j as int,
            forall|k: int| 0 <= k < j ==> fold@[k] == 0u8,
        decreases TAG_LEN - j,
    {
        fold.push(0u8);
        j += 1;
    }
    let mut i: usize = 0;
    while i < ct.len()
        invariant
            i <= ct.len(),
            fold@.len() == TAG_LEN as int,
            forall|k: int| 0 <= k < TAG_LEN ==> fold@[k] == fold_at(ct@, k, i as int),
        decreases ct.len() - i,
    {
        let lane: usize = i % TAG_LEN;
        let updated: u8 = fold[lane] ^ ct[i];
        fold.set(lane, updated);
        i += 1;
    }
    let mut out: Vec<u8> = Vec::new();
    let mut j2: usize = 0;
    while j2 < TAG_LEN
        invariant
            j2 <= TAG_LEN,
            fold@.len() == TAG_LEN as int,
            forall|k: int| 0 <= k < TAG_LEN ==> fold@[k] == fold_byte(ct@, k),
            out@.len() == j2 as int,
            forall|k: int|
                0 <= k < j2 ==> out@[k] == fold_byte(ct@, k) ^ tag_pad_byte(*key, nonce, k),
        decreases TAG_LEN - j2,
    {
        out.push(fold[j2] ^ tag_pad_byte_exec(key, nonce, j2));
        j2 += 1;
    }
    proof {
        assert(out@ =~= mac(*key, nonce, ct@));
    }
    out
}

/// Authenticated encryption: the ciphertext is the plaintext under the data
/// keystream, the tag authenticates the ciphertext.
pub fn encrypt(key: &Key, nonce: u64, plaintext: &Vec<u8>) -> (r: (Vec<u8>, Vec<u8>))
    ensures
        (r.0@, r.1@) == spec_encrypt(*key, nonce, plaintext@),
        r.0@.len() == plaintext@.len(),
        r.1@.len() == TAG_LEN as int,
{
    let ct = apply_stream(key, nonce, plaintext);
    let tag = compute_mac(key, nonce, &ct);
    (ct, tag)
}

/// Authenticated decryption: recompute the tag and refuse the ciphertext on
/// a mismatch, so a verified tag is the only way to obtain plaintext.
pub fn decrypt(key: &Key, nonce: u64, ciphertext: &Vec<u8>, tag: &Vec<u8>) -> (r: Result<
    Vec<u8>,
    LocketError,
>)
    ensures
        r is Ok <==> spec_decrypt(*key, nonce, ciphertext@, tag@) is Some,
        r is Ok ==> r->Ok_0@ == spec_decrypt(*key, nonce, ciphertext@, tag@)->Some_0,
        r is Err ==> r == Err::<Vec<u8>, LocketError>(LocketError::IntegrityFailure),
{
    let expected = compute_mac(key, nonce, ciphertext);
    if bytes_eq(tag, &expected) {
        Ok(apply_stream(key, nonce, ciphertext))
    } else {
        Err(LocketError::IntegrityFailure)
    }
}

/// Content hash of a byte sequence, for staleness detection: every byte is
/// absorbed into a 64-bit state with a mixing round.
pub closed spec fn spec_content_hash(s: Seq<u8>) -> u64
    decreases s.len(),
{
    if s.len() == 0 {
        0xcbf29ce484222325u64
    } else {
        mix64(spec_content_hash(s.drop_last()) ^ (s.last() as u64) ^ 0xff51afd7ed558ccdu64)
    }
}

/// Hash a file's content for staleness detection.
pub fn content_hash(data: &Vec<u8>) -> (r: u64)
    ensures
        r == spec_content_hash(data@),
{
    let mut h: u64 = 0xcbf29ce484222325;
    let mut i: usize = 0;
    while i < data.len()
        invariant
            i <= data.len(),
            h == spec_content_hash(data@.take(i as int)),
        decreases data.len() - i,
    {
        proof {
            assert(data@.take(i + 1).drop_last() =~= data@.take(i as int));
            assert(data@.take(i + 1).last() == data@[i as int]);
        }
        h = mix64_exec(h ^ (data[i] as u64) ^ 0xff51afd7ed558ccd);
        i += 1;
    }
    proof {
        assert(data@.take(data@.len() as int) =~= data@);
    }
    h
}

/// Applying the same keystream twice restores the input byte for byte.
pub proof fn lemma_xor_stream_involutive(key: Key, nonce: u64, s: Seq<u8>)
    ensures
        xor_stream(key, nonce, xor_stream(key, nonce, s)) == s,
{
    let once = xor_stream(key, nonce, s);
    let twice = xor_stream(key, nonce, once);
    assert forall|i: int| 0 <= i < s.len() implies twice[i] == s[i] by {
        let k = ks_byte(key, nonce, i);
        let p = s[i];
        assert((p ^ k) ^ k == p) by (bit_vector);
    }
    assert(twice =~= s);
}

/// Round trip: decrypting what `encrypt` produced, with the same key and
/// nonce, returns exactly the original plaintext.
pub proof fn lemma_encrypt_decrypt_round_trip(key: Key, nonce: u64, pt: Seq<u8>)
    ensures
        ({
            let (ct, tag) = spec_encrypt(key, nonce, pt);
            spec_decrypt(key, nonce, ct, tag) == Some(pt)
        }),
{
    let (ct, tag) = spec_encrypt(key, nonce, pt);
    lemma_xor_stream_involutive(key, nonce, pt);
}

/// The fold of a prefix depends only on the bytes of that prefix.
proof fn lemma_fold_at_agree(s: Seq<u8>, s2: Seq<u8>, j: int, n: int)
    requires
        n <= s.len(),
        n <= s2.len(),
        forall|k: int| 0 <= k < n ==> s2[k] == s[k],
    ensures
        fold_at(s2, j, n) == fold_at(s, j, n),
    decreases n,
{
    if n > 0 {
        lemma_fold_at_agree(s, s2, j, n - 1);
    }
}

/// `s` with bit `b` of byte `i` flipped.
pub open spec fn flip_bit(s: Seq<u8>, i: int, b: int) -> Seq<u8> {
    s.update(i, s[i] ^ (1u8 << b))
}

/// Changing byte `i` of the input by XOR with `d` changes lane `i % TAG_LEN`
/// of the fold by XOR with `d` and no other lane.
proof fn lemma_fold_at_flip(s: Seq<u8>, s2: Seq<u8>, i: int, d: u8, j: int, n: int)
    requires
        0 <= i < s.len(),
        s2 == s.update(i, (s[i] ^ d) as u8),
        0 <= j < TAG_LEN as int,
        i < n <= s.len(),
    ensures
        j == i % (TAG_LEN as int) ==> fold_at(s2, j, n) == fold_at(s, j, n) ^ d,
        j != i % (TAG_LEN as int) ==> fold_at(s2, j, n) == fold_at(s, j, n),
    decreases n,
{
    if n == i + 1 {
        lemma_fold_at_agree(s, s2, j, i);
        if j == i % (TAG_LEN as int) {
            let x = fold_at(s, j, i);
            let y = s[i];
            assert(x ^ (y ^ d) == (x ^ y) ^ d) by (bit_vector);
        }
    } else {
        lemma_fold_at_flip(s, s2, i, d, j, n - 1);
        if (n - 1) % (TAG_LEN as int) == j && j == i % (TAG_LEN as int) {
            let x = fold_at(s, j, n - 1);
            let y = s[n - 1];
            assert((x ^ d) ^ y == (x ^ y) ^ d) by (bit_vector);
        }
    }
}

/// Flipping any single bit of the ciphertext makes decryption fail: the
/// recomputed tag differs from the stored one in exactly that bit's lane.
pub proof fn lemma_bit_flip_in_ciphertext_detected(key: Key, nonce: u64, pt: Seq<u8>, i: int, b: int)
    requires
        0 <= i < pt.len(),
        0 <= b < 8,
    ensures
        ({
            let (ct, tag) = spec_encrypt(key, nonce, pt);
            spec_decrypt(key, nonce, flip_bit(ct, i, b), tag) is None
        }),
{
    let (ct, tag) = spec_encrypt(key, nonce, pt);
    let bu = b as u8;
    let d = (1u8 << b) as u8;
    assert(bu < 8 ==> (1u8 << bu) != 0) by (bit_vector);
    let ct2 = flip_bit(ct, i, b);
    let j0 = i % (TAG_LEN as int);
    lemma_fold_at_flip(ct, ct2, i, d, j0, ct.len() as int);
    let pad = tag_pad_byte(key, nonce, j0);
    let f = fold_byte(ct, j0);
    assert(mac(key, nonce, ct2)[j0] == (f ^ d) ^ pad);
    assert(tag[j0] == f ^ pad);
    assert(d != 0 ==> (f ^ d) ^ pad != f ^ pad) by (bit_vector);
    assert(mac(key, nonce, ct2) != tag);
}

/// Flipping any single bit of the tag makes decryption fail.
pub proof fn lemma_bit_flip_in_tag_detected(key: Key, nonce: u64, pt: Seq<u8>, j: int, b: int)
    requires
        0 <= j < TAG_LEN as int,
        0 <= b < 8,
    ensures
        ({
            let (ct, tag) = spec_encrypt(key, nonce, pt);
            spec_decrypt(key, nonce, ct, flip_bit(tag, j, b)) is None
        }),
{
    let (ct, tag) = spec_encrypt(key, nonce, pt);
    let bu = b as u8;
    assert(bu < 8 ==> (1u8 << bu) != 0) by (bit_vector);
    let d = (1u8 << b) as u8;
    let t = tag[j];
    assert(d != 0 ==> t ^ d != t) by (bit_vector);
    let tag2 = flip_bit(tag, j, b);
    assert(tag2[j] == t ^ d);
    assert(tag2 != mac(key, nonce, ct));
}

} // verus!
