//! File lock manager: the per-file state machine `Unmanaged → Unlocked ⇄
//! Locked`, combining the manifest, the crypto engine and the artifact
//! codec.
//!
//! The manager works on plain values: the surrounding application reads a
//! file before calling `lock_file` or `status_of`, writes the returned
//! artifact or plaintext atomically, and persists the manifest only after
//! that write has succeeded, so the manifest never claims an operation that
//! did not happen on disk.

use vstd::prelude::*;
use vstd::slice::slice_to_vec;
use crate::codec::{
    HEADER_LEN, NONCE_LEN, encode_artifact, parse_artifact, spec_artifact, spec_u64_of_le,
};
use crate::crypto::{
    SALT_LEN, TAG_LEN, content_hash, decrypt, derive_key, encrypt, spec_content_hash,
    spec_decrypt, spec_derive_key, spec_encrypt,
};
use crate::errors::LocketError;
use crate::manifest::{
    CipherMeta, EntryV, LockManifest, LockState, ManagedFile, ManifestV, MetaV, contains_path,
    entry_idx, entry_idx_from, lemma_entry_idx_from_spec, manifest_wf, spec_add,
};

verus! {

/// What `status` reports for one managed file.
#[derive(Clone, Copy, Debug, PartialEq, Eq, Structural)]
pub struct FileStatus {
    /// The file's lock state as the manifest records it.
    pub state: LockState,
    /// Whether the working-tree plaintext has diverged from the hash
    /// recorded at the last add or lock.
    pub stale: bool,
}

/// Staleness of one entry against the bytes found on disk: an unlocked file
/// whose current content no longer hashes to the recorded value.
pub open spec fn spec_stale(e: EntryV, on_disk: Seq<u8>) -> bool {
    e.state == LockState::Unlocked && spec_content_hash(on_disk) != e.content_hash
}

/// What a successful `lock` does to the manifest: the entry turns locked,
/// records the hash of the plaintext just encrypted and the fresh cipher
/// metadata, and the nonce counter advances.
pub open spec fn spec_lock(
    m: ManifestV,
    path: Seq<char>,
    pt: Seq<u8>,
    token: Seq<u8>,
    salt: Seq<u8>,
) -> ManifestV {
    let i = entry_idx(m.entries, path);
    let key = spec_derive_key(token, salt);
    let enc = spec_encrypt(key, m.next_nonce, pt);
    ManifestV {
        entries: m.entries.update(
            i,
            EntryV {
                path,
                state: LockState::Locked,
                content_hash: spec_content_hash(pt),
                meta: Option::Some(MetaV { salt, nonce: m.next_nonce, tag: enc.1 }),
            },
        ),
        next_nonce: (m.next_nonce + 1) as u64,
    }
}

/// The artifact a successful `lock` hands back for atomic replacement.
pub open spec fn spec_lock_artifact(m: ManifestV, pt: Seq<u8>, token: Seq<u8>, salt: Seq<
    u8,
>) -> Seq<u8> {
    let key = spec_derive_key(token, salt);
    let enc = spec_encrypt(key, m.next_nonce, pt);
    spec_artifact(salt, m.next_nonce, enc.1, enc.0)
}

/// What a successful `unlock` yields: the updated manifest and the restored
/// plaintext; nothing when the artifact is malformed or its tag does not
/// verify.
pub open spec fn spec_unlock(
    m: ManifestV,
    path: Seq<char>,
    artifact: Seq<u8>,
    token: Seq<u8>,
) -> Option<(ManifestV, Seq<u8>)> {
    if artifact.len() < HEADER_LEN as int {
        Option::None
    } else {
        let salt = artifact.subrange(0, SALT_LEN as int);
        let nonce = spec_u64_of_le(
            artifact.subrange(SALT_LEN as int, SALT_LEN as int + NONCE_LEN as int),
        );
        let tag = artifact.subrange(SALT_LEN as int + NONCE_LEN as int, HEADER_LEN as int);
        let ct = artifact.subrange(HEADER_LEN as int, artifact.len() as int);
        let key = spec_derive_key(token, salt);
        match spec_decrypt(key, nonce, ct, tag) {
            Option::None => Option::None,
            Option::Some(pt) => Option::Some(
                (
                    ManifestV {
                        entries: m.entries.update(
                            entry_idx(m.entries, path),
                            EntryV {
                                path,
                                state: LockState::Unlocked,
                                content_hash: spec_content_hash(pt),
                                meta: Option::None,
                            },
                        ),
                        next_nonce: m.next_nonce,
                    },
                    pt,
                ),
            ),
        }
    }
}

/// Two entry sequences whose paths agree pointwise locate every path at the
/// same index.
proof fn lemma_entry_idx_from_same_paths(
    e1: Seq<EntryV>,
    e2: Seq<EntryV>,
    path: Seq<char>,
    from: int,
)
    requires
        e1.len() == e2.len(),
        forall|k: int| 0 <= k < e1.len() ==> (#[trigger] e1[k]).path == e2[k].path,
    ensures
        entry_idx_from(e1, path, from) == entry_idx_from(e2, path, from),
    decreases e1.len() - from,
{
    if 0 <= from < e1.len() && e1[from].path != path {
        lemma_entry_idx_from_same_paths(e1, e2, path, from + 1);
    }
}

/// An index that carries the path, with no earlier match, is the entry
/// index of that path.
proof fn lemma_entry_idx_is(entries: Seq<EntryV>, path: Seq<char>, i: int)
    requires
        0 <= i < entries.len(),
        entries[i].path == path,
        forall|k: int| 0 <= k < i ==> (#[trigger] entries[k]).path != path,
    ensures
        entry_idx(entries, path) == i,
{
    lemma_entry_idx_from_spec(entries, path, 0);
}

/// Locking preserves well-formedness, and the nonce it records differs from
/// the nonce of every other locked entry: locking two distinct files never
/// reuses a nonce.
pub proof fn lemma_lock_nonce_fresh(
    m: ManifestV,
    path: Seq<char>,
    pt: Seq<u8>,
    token: Seq<u8>,
    salt: Seq<u8>,
)
    requires
        manifest_wf(m),
        contains_path(m.entries, path),
        m.entries[entry_idx(m.entries, path)].state == LockState::Unlocked,
        m.next_nonce < u64::MAX,
        salt.len() == SALT_LEN as int,
    ensures
        manifest_wf(spec_lock(m, path, pt, token, salt)),
        ({
            let m1 = spec_lock(m, path, pt, token, salt);
            let i = entry_idx(m.entries, path);
            &&& entry_idx(m1.entries, path) == i
            &&& m1.entries[i].meta is Some
            &&& m1.entries[i].meta->0.nonce == m.next_nonce
            &&& forall|k: int|
                0 <= k < m1.entries.len() && k != i && (#[trigger] m1.entries[k]).meta is Some
                    ==> m1.entries[k].meta->0.nonce != m1.entries[i].meta->0.nonce
        }),
{
    let m1 = spec_lock(m, path, pt, token, salt);
    let i = entry_idx(m.entries, path);
    lemma_entry_idx_from_spec(m.entries, path, 0);
    lemma_entry_idx_from_same_paths(m1.entries, m.entries, path, 0);
    assert(spec_encrypt(spec_derive_key(token, salt), m.next_nonce, pt).1.len()
        == TAG_LEN as int);
    assert forall|k: int|
        0 <= k < m1.entries.len() && (#[trigger] m1.entries[k]).meta is Some implies m1.entries[k].meta->0.nonce
        < m1.next_nonce by {
        if k != i {
            assert(m1.entries[k] == m.entries[k]);
        }
    }
}

/// Unlocking (or any update that clears an entry's metadata and keeps its
/// path) preserves well-formedness.
pub proof fn lemma_unlock_wf(m: ManifestV, i: int, h: u64)
    requires
        manifest_wf(m),
        0 <= i < m.entries.len(),
    ensures
        manifest_wf(
            ManifestV {
                entries: m.entries.update(
                    i,
                    EntryV {
                        path: m.entries[i].path,
                        state: LockState::Unlocked,
                        content_hash: h,
                        meta: Option::None,
                    },
                ),
                next_nonce: m.next_nonce,
            },
        ),
{
}

impl LockManifest {
    /// Lock one managed, currently unlocked file: derive a key from the
    /// credential token and the caller-supplied fresh salt, encrypt the
    /// plaintext under a never-reused nonce, record the new state, and hand
    /// back the artifact to be written in place of the plaintext. Fails with
    /// `NotManaged` on an untracked path, `AlreadyLocked` on a locked one,
    /// and `IoFailure` when the nonce counter is exhausted; each failure
    /// leaves the manifest unchanged.
    pub fn lock_file(
        &mut self,
        path: &String,
        plaintext: &Vec<u8>,
        token: &Vec<u8>,
        salt: &Vec<u8>,
    ) -> (r: Result<Vec<u8>, LocketError>)
        requires
            manifest_wf(old(self)@),
            salt@.len() == SALT_LEN as int,
        ensures
            manifest_wf(final(self)@),
            !contains_path(old(self)@.entries, path@) ==> r == Err::<Vec<u8>, LocketError>(
                LocketError::NotManaged,
            ) && final(self)@ == old(self)@,
            contains_path(old(self)@.entries, path@) && old(self)@.entries[entry_idx(
                old(self)@.entries,
                path@,
            )].state == LockState::Locked ==> r == Err::<Vec<u8>, LocketError>(
                LocketError::AlreadyLocked,
            ) && final(self)@ == old(self)@,
            contains_path(old(self)@.entries, path@) && old(self)@.entries[entry_idx(
                old(self)@.entries,
                path@,
            )].state == LockState::Unlocked && old(self)@.next_nonce == u64::MAX ==> r == Err::<
                Vec<u8>,
                LocketError,
            >(LocketError::IoFailure) && final(self)@ == old(self)@,
            contains_path(old(self)@.entries, path@) && old(self)@.entries[entry_idx(
                old(self)@.entries,
                path@,
            )].state == LockState::Unlocked && old(self)@.next_nonce < u64::MAX ==> r is Ok
                && final(self)@ == spec_lock(old(self)@, path@, plaintext@, token@, salt@)
                && r->Ok_0@ == spec_lock_artifact(old(self)@, plaintext@, token@, salt@),
    {
        let ghost old_m = self@;
        let i = match self.find(path) {
            None => {
                return Err(LocketError::NotManaged);
            },
            Some(i) => i,
        };
        if self.entries[i].state == LockState::Locked {
            return Err(LocketError::AlreadyLocked);
        }
        if self.next_nonce == u64::MAX {
            return Err(LocketError::IoFailure);
        }
        let nonce = self.next_nonce;
        let key = derive_key(token, salt);
        let (ct, tag) = encrypt(&key, nonce, plaintext);
        let h = content_hash(plaintext);
        let artifact = encode_artifact(salt, nonce, &tag, &ct);
        let path_kept = self.entries[i].path.clone();
        let salt_kept = slice_to_vec(salt.as_slice());
        let entry = ManagedFile {
            path: path_kept,
            state: LockState::Locked,
            content_hash: h,
            cipher_meta: Some(CipherMeta { salt: salt_kept, nonce, tag }),
        };
        self.entries.set(i, entry);
        self.next_nonce = nonce + 1;
        proof {
            lemma_entry_idx_from_spec(old_m.entries, path@, 0);
            assert(old_m.entries[i as int].path == path@);
            assert(self@.entries =~= spec_lock(old_m, path@, plaintext@, token@, salt@).entries);
            lemma_lock_nonce_fresh(old_m, path@, plaintext@, token@, salt@);
        }
        Ok(artifact)
    }

    /// Unlock one managed, currently locked file: parse the artifact, derive
    /// the same key from its stored salt and the credential token, decrypt,
    /// record the new state, and hand back the plaintext to be written
    /// atomically. Fails with `NotManaged` on an untracked path,
    /// `AlreadyUnlocked` on an unlocked one, and `IntegrityFailure` when the
    /// artifact is malformed or its tag does not verify; each failure leaves
    /// the manifest unchanged, so a failed unlock is safely retryable.
    pub fn unlock_file(&mut self, path: &String, artifact: &Vec<u8>, token: &Vec<u8>) -> (r:
        Result<Vec<u8>, LocketError>)
        requires
            manifest_wf(old(self)@),
        ensures
            manifest_wf(final(self)@),
            !contains_path(old(self)@.entries, path@) ==> r == Err::<Vec<u8>, LocketError>(
                LocketError::NotManaged,
            ) && final(self)@ == old(self)@,
            contains_path(old(self)@.entries, path@) && old(self)@.entries[entry_idx(
                old(self)@.entries,
                path@,
            )].state == LockState::Unlocked ==> r == Err::<Vec<u8>, LocketError>(
                LocketError::AlreadyUnlocked,
            ) && final(self)@ == old(self)@,
            contains_path(old(self)@.entries, path@) && old(self)@.entries[entry_idx(
                old(self)@.entries,
                path@,
            )].state == LockState::Locked && spec_unlock(old(self)@, path@, artifact@, token@)
                is None ==> r == Err::<Vec<u8>, LocketError>(LocketError::IntegrityFailure)
                && final(self)@ == old(self)@,
            contains_path(old(self)@.entries, path@) && old(self)@.entries[entry_idx(
                old(self)@.entries,
                path@,
            )].state == LockState::Locked && spec_unlock(old(self)@, path@, artifact@, token@)
                is Some ==> r is Ok && ({
                let out = spec_unlock(old(self)@, path@, artifact@, token@)->0;
                final(self)@ == out.0 && r->Ok_0@ == out.1
            }),
    {
        let ghost old_m = self@;
        let i = match self.find(path) {
            None => {
                return Err(LocketError::NotManaged);
            },
            Some(i) => i,
        };
        if self.entries[i].state == LockState::Unlocked {
            return Err(LocketError::AlreadyUnlocked);
        }
        let art = match parse_artifact(artifact) {
            Err(_) => {
                return Err(LocketError::IntegrityFailure);
            },
            Ok(art) => art,
        };
        let key = derive_key(token, &art.salt);
        let pt = match decrypt(&key, art.nonce, &art.ciphertext, &art.tag) {
            Err(_) => {
                return Err(LocketError::IntegrityFailure);
            },
            Ok(pt) => pt,
        };
        let h = content_hash(&pt);
        let path_kept = self.entries[i].path.clone();
        let entry = ManagedFile {
            path: path_kept,
            state: LockState::Unlocked,
            content_hash: h,
            cipher_meta: None,
        };
        self.entries.set(i, entry);
        proof {
            lemma_entry_idx_from_spec(old_m.entries, path@, 0);
            assert(old_m.entries[i as int].path == path@);
            let out = spec_unlock(old_m, path@, artifact@, token@)->0;
            assert(self@.entries =~= out.0.entries);
            lemma_unlock_wf(old_m, i as int, h);
        }
        Ok(pt)
    }

    /// Report one managed file's state and staleness. `on_disk` is what the
    /// application found at the file's location: the working-tree plaintext
    /// for an unlocked entry, the artifact for a locked one, or nothing,
    /// which surfaces the entry as orphaned.
    pub fn status_of(&self, path: &String, on_disk: Option<&Vec<u8>>) -> (r: Result<
        FileStatus,
        LocketError,
    >)
        ensures
            !contains_path(self@.entries, path@) ==> r == Err::<FileStatus, LocketError>(
                LocketError::NotManaged,
            ),
            contains_path(self@.entries, path@) && on_disk is None ==> r == Err::<
                FileStatus,
                LocketError,
            >(LocketError::IoFailure),
            contains_path(self@.entries, path@) && on_disk is Some ==> r is Ok && ({
                let e = self@.entries[entry_idx(self@.entries, path@)];
                r->Ok_0.state == e.state && r->Ok_0.stale == spec_stale(e, on_disk->0@)
            }),
    {
        let i = match self.find(path) {
            None => {
                return Err(LocketError::NotManaged);
            },
            Some(i) => i,
        };
        let content = match on_disk {
            None => {
                return Err(LocketError::IoFailure);
            },
            Some(content) => content,
        };
        let stale = if self.entries[i].state == LockState::Unlocked {
            content_hash(content) != self.entries[i].content_hash
        } else {
            false
        };
        Ok(FileStatus { state: self.entries[i].state, stale })
    }
}

/// Lock followed by unlock restores byte-identical content: unlocking the
/// artifact that `lock` produced, with the same credential token, succeeds
/// and yields exactly the plaintext that was locked, with the entry
/// unlocked again.
pub proof fn lemma_lock_unlock_round_trip(
    m: ManifestV,
    path: Seq<char>,
    pt: Seq<u8>,
    token: Seq<u8>,
    salt: Seq<u8>,
)
    requires
        manifest_wf(m),
        contains_path(m.entries, path),
        m.entries[entry_idx(m.entries, path)].state == LockState::Unlocked,
        m.next_nonce < u64::MAX,
        salt.len() == SALT_LEN as int,
    ensures
        ({
            let m1 = spec_lock(m, path, pt, token, salt);
            let art = spec_lock_artifact(m, pt, token, salt);
            &&& contains_path(m1.entries, path)
            &&& m1.entries[entry_idx(m1.entries, path)].state == LockState::Locked
            &&& spec_unlock(m1, path, art, token) is Some
            &&& ({
                let out = spec_unlock(m1, path, art, token)->0;
                out.1 == pt
            })
            &&& ({
                let out = spec_unlock(m1, path, art, token)->0;
                let m2 = out.0;
                &&& m2.entries[entry_idx(m.entries, path)].state == LockState::Unlocked
                &&& m2.entries[entry_idx(m.entries, path)].content_hash == spec_content_hash(pt)
            })
        }),
{
    let i = entry_idx(m.entries, path);
    let key = spec_derive_key(token, salt);
    let enc = spec_encrypt(key, m.next_nonce, pt);
    let m1 = spec_lock(m, path, pt, token, salt);
    let art = spec_lock_artifact(m, pt, token, salt);
    lemma_entry_idx_from_spec(m.entries, path, 0);
    lemma_entry_idx_from_same_paths(m1.entries, m.entries, path, 0);
    assert(enc.1.len() == TAG_LEN as int);
    crate::codec::lemma_artifact_round_trip(salt, m.next_nonce, enc.1, enc.0);
    crate::crypto::lemma_encrypt_decrypt_round_trip(key, m.next_nonce, pt);
}

/// A freshly added, never-locked, never-edited file reports unlocked and
/// not stale.
pub proof fn lemma_status_fresh_add(m: ManifestV, path: Seq<char>, content: Seq<u8>)
    requires
        !contains_path(m.entries, path),
    ensures
        ({
            let m1 = spec_add(m, path, spec_content_hash(content));
            let e = m1.entries[entry_idx(m1.entries, path)];
            &&& contains_path(m1.entries, path)
            &&& e.state == LockState::Unlocked
            &&& !spec_stale(e, content)
        }),
{
    let m1 = spec_add(m, path, spec_content_hash(content));
    lemma_entry_idx_from_spec(m.entries, path, 0);
    lemma_entry_idx_is(m1.entries, path, m.entries.len() as int);
}

/// Editing an unlocked managed file is reported as stale, for every edit
/// that changes the content hash.
pub proof fn lemma_edit_reported_stale(m: ManifestV, path: Seq<char>, content: Seq<u8>, edited: Seq<u8>)
    requires
        !contains_path(m.entries, path),
        spec_content_hash(edited) != spec_content_hash(content),
    ensures
        ({
            let m1 = spec_add(m, path, spec_content_hash(content));
            spec_stale(m1.entries[entry_idx(m1.entries, path)], edited)
        }),
{
    lemma_status_fresh_add(m, path, content);
}

/// Locking two distinct files records two distinct nonces, whatever
/// credential each lock used.
pub proof fn lemma_two_locks_distinct_nonces(
    m: ManifestV,
    p1: Seq<char>,
    p2: Seq<char>,
    pt1: Seq<u8>,
    pt2: Seq<u8>,
    token: Seq<u8>,
    s1: Seq<u8>,
    s2: Seq<u8>,
)
    requires
        manifest_wf(m),
        p1 != p2,
        contains_path(m.entries, p1),
        contains_path(m.entries, p2),
        m.entries[entry_idx(m.entries, p1)].state == LockState::Unlocked,
        m.entries[entry_idx(m.entries, p2)].state == LockState::Unlocked,
        m.next_nonce < u64::MAX - 1,
        s1.len() == SALT_LEN as int,
        s2.len() == SALT_LEN as int,
    ensures
        ({
            let m1 = spec_lock(m, p1, pt1, token, s1);
            let m2 = spec_lock(m1, p2, pt2, token, s2);
            &&& m2.entries[entry_idx(m.entries, p1)].meta is Some
            &&& m2.entries[entry_idx(m.entries, p2)].meta is Some
            &&& m2.entries[entry_idx(m.entries, p1)].meta->0.nonce != m2.entries[entry_idx(
                m.entries,
                p2,
            )].meta->0.nonce
        }),
{
    let i1 = entry_idx(m.entries, p1);
    let i2 = entry_idx(m.entries, p2);
    let m1 = spec_lock(m, p1, pt1, token, s1);
    let m2 = spec_lock(m1, p2, pt2, token, s2);
    lemma_entry_idx_from_spec(m.entries, p1, 0);
    lemma_entry_idx_from_spec(m.entries, p2, 0);
    lemma_lock_nonce_fresh(m, p1, pt1, token, s1);
    lemma_entry_idx_from_same_paths(m1.entries, m.entries, p2, 0);
    assert(i1 != i2);
    assert(m1.entries[i2].state == LockState::Unlocked);
    lemma_lock_nonce_fresh(m1, p2, pt2, token, s2);
    assert(m2.entries[i1].meta->0.nonce == m.next_nonce);
    assert(m2.entries[i2].meta->0.nonce == m.next_nonce + 1);
}

} // verus!
