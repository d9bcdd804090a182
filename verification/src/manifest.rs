//! Lock manifest: the durable record of which files are managed, their lock
//! state, and the integrity metadata of the most recent lock operation.
//!
//! The manifest is an ordered mapping from repository-relative path to one
//! entry per managed file. Paths are unique; cipher metadata is present
//! exactly on locked entries; nonces already handed out are all below the
//! `next_nonce` counter and pairwise distinct, so no two lock operations
//! ever reuse a nonce. All mutation is in memory; the surrounding
//! application persists the manifest after the file operation it describes
//! has succeeded.

use vstd::prelude::*;
use crate::crypto::{SALT_LEN, TAG_LEN, spec_content_hash, content_hash};
use crate::errors::LocketError;

verus! {

/// Lock state of one managed file.
#[derive(Clone, Copy, Debug, PartialEq, Eq, Structural)]
pub enum LockState {
    Unlocked,
    Locked,
}

/// Nonce and authentication metadata of the most recent lock of one file.
#[derive(Clone, Debug)]
pub struct CipherMeta {
    /// Salt the key was derived with.
    pub salt: Vec<u8>,
    /// Nonce the content was encrypted with; never reused.
    pub nonce: u64,
    /// Authentication tag of the ciphertext.
    pub tag: Vec<u8>,
}

/// One manifest entry.
#[derive(Clone, Debug)]
pub struct ManagedFile {
    /// Repository-relative path; the unique key of the entry.
    pub path: String,
    /// Whether the file currently stands locked or unlocked.
    pub state: LockState,
    /// Hash of the last-known plaintext, for staleness detection.
    pub content_hash: u64,
    /// Present exactly when the entry is locked.
    pub cipher_meta: Option<CipherMeta>,
}

/// Mathematical model of [`CipherMeta`].
pub struct MetaV {
    pub salt: Seq<u8>,
    pub nonce: u64,
    pub tag: Seq<u8>,
}

/// Mathematical model of [`ManagedFile`].
pub struct EntryV {
    pub path: Seq<char>,
    pub state: LockState,
    pub content_hash: u64,
    pub meta: Option<MetaV>,
}

/// Mathematical model of [`LockManifest`].
pub struct ManifestV {
    pub entries: Seq<EntryV>,
    pub next_nonce: u64,
}

impl View for CipherMeta {
    type V = MetaV;

    open spec fn view(&self) -> MetaV {
        MetaV { salt: self.salt@, nonce: self.nonce, tag: self.tag@ }
    }
}

impl View for ManagedFile {
    type V = EntryV;

    open spec fn view(&self) -> EntryV {
        EntryV {
            path: self.path@,
            state: self.state,
            content_hash: self.content_hash,
            meta: match self.cipher_meta {
                Option::Some(m) => Option::Some(m@),
                Option::None => Option::None,
            },
        }
    }
}

/// The manifest: the set of managed files and the nonce counter.
pub struct LockManifest {
    /// One entry per managed path, in insertion order.
    pub entries: Vec<ManagedFile>,
    /// The nonce the next lock operation will use.
    pub next_nonce: u64,
}

impl View for LockManifest {
    type V = ManifestV;

    open spec fn view(&self) -> ManifestV {
        ManifestV {
            entries: Seq::new(self.entries@.len(), |i: int| self.entries@[i]@),
            next_nonce: self.next_nonce,
        }
    }
}

/// Well-formedness of one entry: metadata present exactly when locked, and
/// of the fixed lengths the artifact layout uses.
pub open spec fn entry_wf(e: EntryV) -> bool {
    &&& (e.state == LockState::Locked <==> e.meta is Some)
    &&& (e.meta is Some ==> e.meta->0.salt.len() == SALT_LEN as int && e.meta->0.tag.len()
        == TAG_LEN as int)
}

/// Index of the first entry with the given path, or the length when none
/// has it.
pub open spec fn entry_idx_from(entries: Seq<EntryV>, path: Seq<char>, from: int) -> int
    decreases entries.len() - from,
{
    if from < 0 || from >= entries.len() {
        entries.len() as int
    } else if entries[from].path == path {
        from
    } else {
        entry_idx_from(entries, path, from + 1)
    }
}

/// Index of the entry with the given path, or the length when none has it.
pub open spec fn entry_idx(entries: Seq<EntryV>, path: Seq<char>) -> int {
    entry_idx_from(entries, path, 0)
}

/// Whether some entry has the given path.
pub open spec fn contains_path(entries: Seq<EntryV>, path: Seq<char>) -> bool {
    entry_idx(entries, path) < entries.len()
}

/// The first index with the path is in bounds, carries the path, and no
/// earlier index from `from` on does.
pub proof fn lemma_entry_idx_from_spec(entries: Seq<EntryV>, path: Seq<char>, from: int)
    requires
        0 <= from <= entries.len(),
    ensures
        from <= entry_idx_from(entries, path, from) <= entries.len(),
        entry_idx_from(entries, path, from) < entries.len() ==> entries[entry_idx_from(
            entries,
            path,
            from,
        )].path == path,
        forall|k: int|
            from <= k < entry_idx_from(entries, path, from) ==> entries[k].path != path,
        entry_idx_from(entries, path, from) == entries.len() ==> forall|k: int|
            from <= k < entries.len() ==> entries[k].path != path,
    decreases entries.len() - from,
{
    if from < entries.len() && entries[from].path != path {
        lemma_entry_idx_from_spec(entries, path, from + 1);
    }
}

/// Well-formedness of the whole manifest: entries well formed, paths
/// unique, handed-out nonces below the counter and pairwise distinct.
pub open spec fn manifest_wf(m: ManifestV) -> bool {
    &&& (forall|i: int| 0 <= i < m.entries.len() ==> entry_wf(#[trigger] m.entries[i]))
    &&& (forall|i: int, j: int|
        0 <= i < j < m.entries.len() ==> (#[trigger] m.entries[i]).path != (
        #[trigger] m.entries[j]).path)
    &&& (forall|i: int|
        0 <= i < m.entries.len() && (#[trigger] m.entries[i]).meta is Some
            ==> m.entries[i].meta->0.nonce < m.next_nonce)
    &&& (forall|i: int, j: int|
        0 <= i < j < m.entries.len() && (#[trigger] m.entries[i]).meta is Some && (
        #[trigger] m.entries[j]).meta is Some ==> m.entries[i].meta->0.nonce
            != m.entries[j].meta->0.nonce)
}

/// What `add` does to the model: a no-op on a managed path, else a new
/// unlocked entry with the given content hash.
pub open spec fn spec_add(m: ManifestV, path: Seq<char>, h: u64) -> ManifestV {
    if contains_path(m.entries, path) {
        m
    } else {
        ManifestV {
            entries: m.entries.push(
                EntryV {
                    path,
                    state: LockState::Unlocked,
                    content_hash: h,
                    meta: Option::None,
                },
            ),
            next_nonce: m.next_nonce,
        }
    }
}

/// What `rm` does to the model of a managed path: the entry disappears.
pub open spec fn spec_rm(m: ManifestV, path: Seq<char>) -> ManifestV {
    ManifestV {
        entries: m.entries.remove(entry_idx(m.entries, path)),
        next_nonce: m.next_nonce,
    }
}

impl LockManifest {
    /// A fresh, empty manifest, as `init` creates it.
    pub fn new() -> (r: LockManifest)
        ensures
            r@.entries.len() == 0,
            r@.next_nonce == 0,
            manifest_wf(r@),
    {
        LockManifest { entries: Vec::new(), next_nonce: 0 }
    }

    /// Index of the entry managing `path`, if any.
    pub fn find(&self, path: &String) -> (r: Option<usize>)
        ensures
            r is Some ==> r->0 as int == entry_idx(self@.entries, path@) && (r->0 as int)
                < self@.entries.len(),
            r is None ==> !contains_path(self@.entries, path@),
    {
        let ghost entries = self@.entries;
        let mut i: usize = 0;
        while i < self.entries.len()
            invariant
                i <= self.entries.len(),
                entries == self@.entries,
                entries.len() == self.entries@.len(),
                forall|k: int| 0 <= k < i ==> (#[trigger] entries[k]).path != path@,
            decreases self.entries.len() - i,
        {
            if self.entries[i].path == *path {
                proof {
                    lemma_entry_idx_from_spec(entries, path@, 0);
                    assert(entries[i as int].path == path@);
                    let idx = entry_idx(entries, path@);
                    assert(idx <= i as int);
                    assert(idx >= i as int);
                }
                return Some(i);
            }
            i += 1;
        }
        proof {
            lemma_entry_idx_from_spec(entries, path@, 0);
        }
        None
    }

    /// Whether `path` is managed.
    pub fn is_managed(&self, path: &String) -> (r: bool)
        ensures
            r == contains_path(self@.entries, path@),
    {
        proof {
            lemma_entry_idx_from_spec(self@.entries, path@, 0);
        }
        self.find(path).is_some()
    }

    /// Track a new file with its current content. Idempotent: re-adding a
    /// managed path leaves the manifest unchanged and still succeeds.
    pub fn add_file(&mut self, path: String, content: &Vec<u8>) -> (r: Result<(), LocketError>)
        requires
            manifest_wf(old(self)@),
        ensures
            r is Ok,
            final(self)@ == spec_add(old(self)@, path@, spec_content_hash(content@)),
            manifest_wf(final(self)@),
    {
        proof {
            lemma_entry_idx_from_spec(self@.entries, path@, 0);
        }
        if self.find(&path).is_some() {
            return Ok(());
        }
        let h = content_hash(content);
        let entry = ManagedFile {
            path,
            state: LockState::Unlocked,
            content_hash: h,
            cipher_meta: None,
        };
        let ghost old_m = self@;
        self.entries.push(entry);
        proof {
            assert(self@.entries =~= old_m.entries.push(
                EntryV {
                    path: path@,
                    state: LockState::Unlocked,
                    content_hash: spec_content_hash(content@),
                    meta: Option::None,
                },
            ));
        }
        Ok(())
    }

    /// Stop tracking a file. Fails with `NotManaged` when the path is not
    /// tracked; deleting any ciphertext artifact on disk is the caller's
    /// following step.
    pub fn rm_file(&mut self, path: &String) -> (r: Result<(), LocketError>)
        requires
            manifest_wf(old(self)@),
        ensures
            r is Ok <==> contains_path(old(self)@.entries, path@),
            r is Ok ==> final(self)@ == spec_rm(old(self)@, path@),
            r is Err ==> r == Err::<(), LocketError>(LocketError::NotManaged) && final(self)@
                == old(self)@,
            manifest_wf(final(self)@),
    {
        proof {
            lemma_entry_idx_from_spec(self@.entries, path@, 0);
        }
        match self.find(path) {
            None => Err(LocketError::NotManaged),
            Some(i) => {
                let ghost old_m = self@;
                self.entries.remove(i);
                proof {
                    assert(self@.entries =~= old_m.entries.remove(i as int));
                }
                Ok(())
            },
        }
    }

    /// The entry managing `path`, or `NotManaged`.
    pub fn get(&self, path: &String) -> (r: Result<&ManagedFile, LocketError>)
        ensures
            r is Ok <==> contains_path(self@.entries, path@),
            r is Ok ==> (r->Ok_0)@ == self@.entries[entry_idx(self@.entries, path@)],
            r is Err ==> r == Err::<&ManagedFile, LocketError>(LocketError::NotManaged),
    {
        match self.find(path) {
            None => Err(LocketError::NotManaged),
            Some(i) => Ok(&self.entries[i]),
        }
    }

    /// Number of managed files.
    pub fn len(&self) -> (r: usize)
        ensures
            r as int == self@.entries.len(),
    {
        self.entries.len()
    }

    /// The entry at a position, for walking the manifest in order.
    pub fn entry_at(&self, i: usize) -> (r: &ManagedFile)
        requires
            i < self@.entries.len(),
        ensures
            r@ == self@.entries[i as int],
    {
        &self.entries[i]
    }
}

/// A whole batch of additions, one path with its current content after
/// another.
pub open spec fn spec_add_batch(m: ManifestV, items: Seq<(Seq<char>, Seq<u8>)>) -> ManifestV
    decreases items.len(),
{
    if items.len() == 0 {
        m
    } else {
        spec_add_batch(
            spec_add(m, items[0].0, spec_content_hash(items[0].1)),
            items.drop_first(),
        )
    }
}

/// A batch of additions extended by one item performs that addition last.
proof fn lemma_add_batch_snoc(m: ManifestV, items: Seq<(Seq<char>, Seq<u8>)>, it: (
    Seq<char>,
    Seq<u8>,
))
    ensures
        spec_add_batch(m, items.push(it)) == spec_add(
            spec_add_batch(m, items),
            it.0,
            spec_content_hash(it.1),
        ),
    decreases items.len(),
{
    reveal_with_fuel(spec_add_batch, 3);
    if items.len() == 0 {
        assert(items.push(it).drop_first() =~= items);
    } else {
        assert(items.push(it)[0] == items[0]);
        assert(items.push(it).drop_first() =~= items.drop_first().push(it));
        lemma_add_batch_snoc(
            spec_add(m, items[0].0, spec_content_hash(items[0].1)),
            items.drop_first(),
            it,
        );
    }
}

/// One step of a batch removal: the entry disappears when the path is
/// managed, and an untracked path reports `NotManaged` without touching the
/// manifest.
pub open spec fn spec_rm_step(m: ManifestV, p: Seq<char>) -> (ManifestV, Result<
    (),
    LocketError,
>) {
    if contains_path(m.entries, p) {
        (spec_rm(m, p), Result::Ok(()))
    } else {
        (m, Result::Err(LocketError::NotManaged))
    }
}

/// A whole batch removal, path by path, collecting one outcome per path.
pub open spec fn spec_rm_batch(m: ManifestV, paths: Seq<Seq<char>>) -> (ManifestV, Seq<
    Result<(), LocketError>,
>)
    decreases paths.len(),
{
    if paths.len() == 0 {
        (m, Seq::empty())
    } else {
        let head = spec_rm_step(m, paths[0]);
        let rest = spec_rm_batch(head.0, paths.drop_first());
        (rest.0, seq![head.1] + rest.1)
    }
}

/// A batch extended by one path performs that path's step last.
proof fn lemma_rm_batch_snoc(m: ManifestV, paths: Seq<Seq<char>>, p: Seq<char>)
    ensures
        ({
            let whole = spec_rm_batch(m, paths.push(p));
            let b = spec_rm_batch(m, paths);
            let st = spec_rm_step(b.0, p);
            whole.0 == st.0 && whole.1 == b.1.push(st.1)
        }),
    decreases paths.len(),
{
    reveal_with_fuel(spec_rm_batch, 3);
    let whole = spec_rm_batch(m, paths.push(p));
    let b = spec_rm_batch(m, paths);
    let st = spec_rm_step(b.0, p);
    if paths.len() == 0 {
        assert(paths.push(p).drop_first() =~= paths);
        assert(whole.1 =~= b.1.push(st.1));
    } else {
        let head = spec_rm_step(m, paths[0]);
        let brest = spec_rm_batch(head.0, paths.drop_first());
        assert(paths.push(p)[0] == paths[0]);
        assert(paths.push(p).drop_first() =~= paths.drop_first().push(p));
        lemma_rm_batch_snoc(head.0, paths.drop_first(), p);
        let strest = spec_rm_step(brest.0, p);
        assert(whole.0 == spec_rm_batch(head.0, paths.drop_first().push(p)).0);
        assert(whole.1 == seq![head.1] + spec_rm_batch(head.0, paths.drop_first().push(p)).1);
        assert(whole.1 == seq![head.1] + brest.1.push(strest.1));
        assert(b.0 == brest.0);
        assert(b.1 == seq![head.1] + brest.1);
        assert(st == strest);
        assert(whole.1 =~= b.1.push(st.1));
    }
}

impl LockManifest {
    /// Track a batch of files, each with its current content. Every item
    /// succeeds: paths already managed are left untouched, so re-adding is a
    /// no-op for them, never a duplicate.
    pub fn add_files(&mut self, items: &Vec<(String, Vec<u8>)>) -> (r: Result<(), LocketError>)
        requires
            manifest_wf(old(self)@),
        ensures
            r is Ok,
            manifest_wf(final(self)@),
            final(self)@ == spec_add_batch(
                old(self)@,
                items@.map_values(|it: (String, Vec<u8>)| (it.0@, it.1@)),
            ),
    {
        let ghost iviews = items@.map_values(|it: (String, Vec<u8>)| (it.0@, it.1@));
        let ghost m0 = self@;
        let mut i: usize = 0;
        while i < items.len()
            invariant
                i <= items.len(),
                manifest_wf(self@),
                m0 == old(self)@,
                iviews == items@.map_values(|it: (String, Vec<u8>)| (it.0@, it.1@)),
                iviews.len() == items@.len(),
                self@ == spec_add_batch(m0, iviews.take(i as int)),
            decreases items.len() - i,
        {
            let ghost before = self@;
            let path = items[i].0.clone();
            let added = self.add_file(path, &items[i].1);
            proof {
                assert(added is Ok);
                assert(iviews[i as int] == (items@[i as int].0@, items@[i as int].1@));
                assert(self@ == spec_add(before, iviews[i as int].0, spec_content_hash(
                    iviews[i as int].1,
                )));
                lemma_add_batch_snoc(m0, iviews.take(i as int), iviews[i as int]);
                assert(iviews.take(i as int).push(iviews[i as int]) =~= iviews.take(i + 1));
            }
            i += 1;
        }
        proof {
            assert(iviews.take(items@.len() as int) =~= iviews);
        }
        Ok(())
    }

    /// Stop tracking a batch of files, isolating failures per path: an
    /// untracked path reports `NotManaged` in its slot and the remaining
    /// paths are still processed, so one bad path never aborts the batch.
    pub fn rm_files(&mut self, paths: &Vec<String>) -> (r: Vec<Result<(), LocketError>>)
        requires
            manifest_wf(old(self)@),
        ensures
            manifest_wf(final(self)@),
            r@.len() == paths@.len(),
            ({
                let b = spec_rm_batch(old(self)@, paths@.map_values(|p: String| p@));
                final(self)@ == b.0 && r@ == b.1
            }),
    {
        let ghost pviews = paths@.map_values(|p: String| p@);
        let ghost m0 = self@;
        let mut results: Vec<Result<(), LocketError>> = Vec::new();
        let mut i: usize = 0;
        while i < paths.len()
            invariant
                i <= paths.len(),
                manifest_wf(self@),
                m0 == old(self)@,
                pviews == paths@.map_values(|p: String| p@),
                pviews.len() == paths@.len(),
                results@.len() == i as int,
                self@ == spec_rm_batch(m0, pviews.take(i as int)).0,
                results@ == spec_rm_batch(m0, pviews.take(i as int)).1,
            decreases paths.len() - i,
        {
            let ghost before = self@;
            let res = self.rm_file(&paths[i]);
            proof {
                assert(pviews[i as int] == paths@[i as int]@);
                let st = spec_rm_step(before, pviews[i as int]);
                if contains_path(before.entries, pviews[i as int]) {
                    assert(res is Ok);
                    assert(res == Result::<(), LocketError>::Ok(res->Ok_0));
                    assert(res == st.1);
                } else {
                    assert(res == st.1);
                }
                assert(self@ == st.0);
                lemma_rm_batch_snoc(m0, pviews.take(i as int), pviews[i as int]);
                assert(pviews.take(i as int).push(pviews[i as int]) =~= pviews.take(i + 1));
                assert(spec_rm_batch(m0, pviews.take(i + 1)).0 == self@);
                assert(spec_rm_batch(m0, pviews.take(i + 1)).1 == results@.push(res));
            }
            results.push(res);
            i += 1;
        }
        proof {
            assert(pviews.take(paths@.len() as int) =~= pviews);
        }
        results
    }
}

/// Adding a managed path again changes nothing: one entry per path, no
/// duplicate, whatever content the second call hashed.
pub proof fn lemma_add_idempotent(m: ManifestV, path: Seq<char>, h1: u64, h2: u64)
    ensures
        spec_add(spec_add(m, path, h1), path, h2) == spec_add(m, path, h1),
{
    let m1 = spec_add(m, path, h1);
    lemma_entry_idx_from_spec(m.entries, path, 0);
    lemma_entry_idx_from_spec(m1.entries, path, 0);
    if !contains_path(m.entries, path) {
        assert(m1.entries[m1.entries.len() - 1].path == path);
        assert(contains_path(m1.entries, path));
    }
}

} // verus!
