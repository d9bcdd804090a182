//! Ciphertext artifact layout: `[salt][nonce][tag][ciphertext]`.
//!
//! The salt, nonce and tag fields have fixed lengths, so `unlock` can parse
//! an artifact without consulting the manifest. The nonce is stored as eight
//! little-endian bytes.

use vstd::prelude::*;
use vstd::slice::{slice_subrange, slice_to_vec};
use crate::crypto::{SALT_LEN, TAG_LEN};
use crate::errors::LocketError;

verus! {

/// Byte length of the encoded nonce.
pub const NONCE_LEN: usize = 8;

/// Byte length of the fixed artifact header (salt, nonce and tag).
pub const HEADER_LEN: usize = 40;

/// The nonce as eight little-endian bytes.
pub open spec fn spec_u64_le(n: u64) -> Seq<u8> {
    seq![
        (n & 0xff) as u8,
        ((n >> 8) & 0xff) as u8,
        ((n >> 16) & 0xff) as u8,
        ((n >> 24) & 0xff) as u8,
        ((n >> 32) & 0xff) as u8,
        ((n >> 40) & 0xff) as u8,
        ((n >> 48) & 0xff) as u8,
        ((n >> 56) & 0xff) as u8,
    ]
}

/// Eight little-endian bytes read back as a nonce.
pub open spec fn spec_u64_of_le(s: Seq<u8>) -> u64
    recommends
        s.len() == NONCE_LEN as int,
{
    ((s[0] as u64) | ((s[1] as u64) << 8) | ((s[2] as u64) << 16) | ((s[3] as u64) << 24) | (
    (s[4] as u64) << 32) | ((s[5] as u64) << 40) | ((s[6] as u64) << 48) | ((s[7] as u64)
        << 56)) as u64
}

/// Encoding a nonce and reading it back yields the nonce.
pub proof fn lemma_u64_le_round_trip(n: u64)
    ensures
        spec_u64_of_le(spec_u64_le(n)) == n,
{
    assert((((n & 0xff) as u8 as u64) | ((((n >> 8) & 0xff) as u8 as u64) << 8) | ((((n >> 16)
        & 0xff) as u8 as u64) << 16) | ((((n >> 24) & 0xff) as u8 as u64) << 24) | ((((n >> 32)
        & 0xff) as u8 as u64) << 32) | ((((n >> 40) & 0xff) as u8 as u64) << 40) | ((((n >> 48)
        & 0xff) as u8 as u64) << 48) | ((((n >> 56) & 0xff) as u8 as u64) << 56)) == n)
        by (bit_vector);
}

/// The whole artifact as a function of its four fields.
pub open spec fn spec_artifact(salt: Seq<u8>, nonce: u64, tag: Seq<u8>, ct: Seq<u8>) -> Seq<
    u8,
> {
    salt + spec_u64_le(nonce) + tag + ct
}

/// The four fields parsed out of an artifact, as [`parse_artifact`] returns
/// them.
pub struct Artifact {
    pub salt: Vec<u8>,
    pub nonce: u64,
    pub tag: Vec<u8>,
    pub ciphertext: Vec<u8>,
}

/// Append every byte of `src` to `dst`.
fn push_all(dst: &mut Vec<u8>, src: &Vec<u8>)
    ensures
        final(dst)@ == old(dst)@ + src@,
{
    let mut i: usize = 0;
    while i < src.len()
        invariant
            i <= src.len(),
            dst@ == old(dst)@ + src@.take(i as int),
        decreases src.len() - i,
    {
        dst.push(src[i]);
        proof {
            assert(old(dst)@ + src@.take(i as int) + seq![src@[i as int]] =~= old(dst)@
                + src@.take(i + 1));
        }
        i += 1;
    }
    proof {
        assert(src@.take(src@.len() as int) =~= src@);
    }
}

/// Encode an artifact: salt, little-endian nonce, tag, then ciphertext.
pub fn encode_artifact(salt: &Vec<u8>, nonce: u64, tag: &Vec<u8>, ct: &Vec<u8>) -> (r: Vec<u8>)
    requires
        salt@.len() == SALT_LEN as int,
        tag@.len() == TAG_LEN as int,
    ensures
        r@ == spec_artifact(salt@, nonce, tag@, ct@),
        r@.len() == HEADER_LEN as int + ct@.len(),
{
    let mut out: Vec<u8> = Vec::new();
    push_all(&mut out, salt);
    out.push((nonce & 0xff) as u8);
    out.push(((nonce >> 8) & 0xff) as u8);
    out.push(((nonce >> 16) & 0xff) as u8);
    out.push(((nonce >> 24) & 0xff) as u8);
    out.push(((nonce >> 32) & 0xff) as u8);
    out.push(((nonce >> 40) & 0xff) as u8);
    out.push(((nonce >> 48) & 0xff) as u8);
    out.push(((nonce >> 56) & 0xff) as u8);
    proof {
        assert(out@ =~= salt@ + spec_u64_le(nonce));
    }
    push_all(&mut out, tag);
    proof {
        assert(out@ =~= salt@ + spec_u64_le(nonce) + tag@);
    }
    push_all(&mut out, ct);
    proof {
        assert(out@ =~= spec_artifact(salt@, nonce, tag@, ct@));
    }
    out
}

/// Parse an artifact back into its fields. An artifact shorter than the
/// fixed header cannot have been produced by `lock` and is refused as
/// tampered.
pub fn parse_artifact(a: &Vec<u8>) -> (r: Result<Artifact, LocketError>)
    ensures
        r is Ok <==> a@.len() >= HEADER_LEN as int,
        r is Ok ==> ({
            let art = r->Ok_0;
            &&& art.salt@ == a@.subrange(0, SALT_LEN as int)
            &&& art.nonce == spec_u64_of_le(
                a@.subrange(SALT_LEN as int, SALT_LEN as int + NONCE_LEN as int),
            )
            &&& art.tag@ == a@.subrange(SALT_LEN as int + NONCE_LEN as int, HEADER_LEN as int)
            &&& art.ciphertext@ == a@.subrange(HEADER_LEN as int, a@.len() as int)
        }),
        r is Err ==> r == Err::<Artifact, LocketError>(LocketError::IntegrityFailure),
{
    if a.len() < HEADER_LEN {
        return Err(LocketError::IntegrityFailure);
    }
    let salt = slice_to_vec(slice_subrange(a.as_slice(), 0, SALT_LEN));
    let nb = slice_subrange(a.as_slice(), SALT_LEN, SALT_LEN + NONCE_LEN);
    let nonce: u64 = (nb[0] as u64) | ((nb[1] as u64) << 8) | ((nb[2] as u64) << 16) | ((
    nb[3] as u64) << 24) | ((nb[4] as u64) << 32) | ((nb[5] as u64) << 40) | ((nb[6] as u64)
        << 48) | ((nb[7] as u64) << 56);
    let tag = slice_to_vec(slice_subrange(a.as_slice(), SALT_LEN + NONCE_LEN, HEADER_LEN));
    let ct = slice_to_vec(slice_subrange(a.as_slice(), HEADER_LEN, a.len()));
    Ok(Artifact { salt, nonce, tag, ciphertext: ct })
}

/// Parsing what `encode_artifact` produced recovers the four fields.
pub proof fn lemma_artifact_round_trip(salt: Seq<u8>, nonce: u64, tag: Seq<u8>, ct: Seq<u8>)
    requires
        salt.len() == SALT_LEN as int,
        tag.len() == TAG_LEN as int,
    ensures
        ({
            let a = spec_artifact(salt, nonce, tag, ct);
            &&& a.len() >= HEADER_LEN as int
            &&& a.subrange(0, SALT_LEN as int) == salt
            &&& spec_u64_of_le(a.subrange(SALT_LEN as int, SALT_LEN as int + NONCE_LEN as int))
                == nonce
            &&& a.subrange(SALT_LEN as int + NONCE_LEN as int, HEADER_LEN as int) == tag
            &&& a.subrange(HEADER_LEN as int, a.len() as int) == ct
        }),
{
    let a = spec_artifact(salt, nonce, tag, ct);
    assert(a.subrange(0, SALT_LEN as int) =~= salt);
    assert(a.subrange(SALT_LEN as int, SALT_LEN as int + NONCE_LEN as int) =~= spec_u64_le(
        nonce,
    ));
    lemma_u64_le_round_trip(nonce);
    assert(a.subrange(SALT_LEN as int + NONCE_LEN as int, HEADER_LEN as int) =~= tag);
    assert(a.subrange(HEADER_LEN as int, a.len() as int) =~= ct);
}

} // verus!
