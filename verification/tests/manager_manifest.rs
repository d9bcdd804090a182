use locket::crypto::SALT_LEN;
use locket::errors::LocketError;
use locket::manager::FileStatus;
use locket::manifest::{LockManifest, LockState};

fn token() -> Vec<u8> {
    b"service-token".to_vec()
}

fn salt(fill: u8) -> Vec<u8> {
    vec![fill; SALT_LEN]
}

#[test]
fn add_is_idempotent() {
    let mut m = LockManifest::new();
    let content = b"password=hunter2".to_vec();
    m.add_file("config.yaml".to_string(), &content).unwrap();
    assert_eq!(m.len(), 1);
    m.add_file("config.yaml".to_string(), &content).unwrap();
    assert_eq!(m.len(), 1);
    let e = m.get(&"config.yaml".to_string()).unwrap();
    assert_eq!(e.state, LockState::Unlocked);
    assert!(e.cipher_meta.is_none());
}

#[test]
fn fresh_add_reports_unlocked_not_stale() {
    let mut m = LockManifest::new();
    let content = b"token=abc".to_vec();
    m.add_file("creds.env".to_string(), &content).unwrap();
    let st = m.status_of(&"creds.env".to_string(), Some(&content)).unwrap();
    assert_eq!(st, FileStatus { state: LockState::Unlocked, stale: false });
}

#[test]
fn edited_file_reports_stale() {
    let mut m = LockManifest::new();
    let content = b"token=abc".to_vec();
    m.add_file("creds.env".to_string(), &content).unwrap();
    let edited = b"token=abcd".to_vec();
    let st = m.status_of(&"creds.env".to_string(), Some(&edited)).unwrap();
    assert_eq!(st, FileStatus { state: LockState::Unlocked, stale: true });
}

#[test]
fn lock_then_unlock_restores_bytes() {
    let mut m = LockManifest::new();
    let path = "secrets.txt".to_string();
    let content = b"the launch codes".to_vec();
    m.add_file(path.clone(), &content).unwrap();
    let artifact = m.lock_file(&path, &content, &token(), &salt(1)).unwrap();
    assert_eq!(m.get(&path).unwrap().state, LockState::Locked);
    let restored = m.unlock_file(&path, &artifact, &token()).unwrap();
    assert_eq!(restored, content);
    assert_eq!(m.get(&path).unwrap().state, LockState::Unlocked);
    assert!(m.get(&path).unwrap().cipher_meta.is_none());
    let st = m.status_of(&path, Some(&content)).unwrap();
    assert_eq!(st, FileStatus { state: LockState::Unlocked, stale: false });
}

#[test]
fn two_locks_use_distinct_nonces() {
    let mut m = LockManifest::new();
    let a = "a.txt".to_string();
    let b = "b.txt".to_string();
    let ca = b"first".to_vec();
    let cb = b"second".to_vec();
    m.add_file(a.clone(), &ca).unwrap();
    m.add_file(b.clone(), &cb).unwrap();
    m.lock_file(&a, &ca, &token(), &salt(1)).unwrap();
    m.lock_file(&b, &cb, &token(), &salt(2)).unwrap();
    let na = m.get(&a).unwrap().cipher_meta.as_ref().unwrap().nonce;
    let nb = m.get(&b).unwrap().cipher_meta.as_ref().unwrap().nonce;
    assert_ne!(na, nb);
}

#[test]
fn lock_unmanaged_fails() {
    let mut m = LockManifest::new();
    let r = m.lock_file(&"ghost.txt".to_string(), &b"x".to_vec(), &token(), &salt(0));
    assert_eq!(r, Err(LocketError::NotManaged));
}

#[test]
fn lock_twice_fails_already_locked() {
    let mut m = LockManifest::new();
    let path = "f".to_string();
    let content = b"data".to_vec();
    m.add_file(path.clone(), &content).unwrap();
    m.lock_file(&path, &content, &token(), &salt(1)).unwrap();
    let r = m.lock_file(&path, &content, &token(), &salt(2));
    assert_eq!(r, Err(LocketError::AlreadyLocked));
}

#[test]
fn unlock_unlocked_fails_already_unlocked() {
    let mut m = LockManifest::new();
    let path = "f".to_string();
    m.add_file(path.clone(), &b"data".to_vec()).unwrap();
    let r = m.unlock_file(&path, &vec![0u8; 64], &token());
    assert_eq!(r, Err(LocketError::AlreadyUnlocked));
}

#[test]
fn tampered_artifact_fails_and_is_retryable() {
    let mut m = LockManifest::new();
    let path = "f".to_string();
    let content = b"data".to_vec();
    m.add_file(path.clone(), &content).unwrap();
    let artifact = m.lock_file(&path, &content, &token(), &salt(1)).unwrap();
    let mut bad = artifact.clone();
    let last = bad.len() - 1;
    bad[last] ^= 0x80;
    assert_eq!(m.unlock_file(&path, &bad, &token()), Err(LocketError::IntegrityFailure));
    // the entry is untouched, so the unlock can be retried with the real artifact
    assert_eq!(m.get(&path).unwrap().state, LockState::Locked);
    assert_eq!(m.unlock_file(&path, &artifact, &token()).unwrap(), content);
}

#[test]
fn wrong_token_fails_unlock() {
    let mut m = LockManifest::new();
    let path = "f".to_string();
    let content = b"data".to_vec();
    m.add_file(path.clone(), &content).unwrap();
    let artifact = m.lock_file(&path, &content, &token(), &salt(1)).unwrap();
    let r = m.unlock_file(&path, &artifact, &b"wrong-token".to_vec());
    assert_eq!(r, Err(LocketError::IntegrityFailure));
}

#[test]
fn rm_removes_entry_and_reports_not_managed() {
    let mut m = LockManifest::new();
    let path = "f".to_string();
    m.add_file(path.clone(), &b"data".to_vec()).unwrap();
    m.rm_file(&path).unwrap();
    assert_eq!(m.len(), 0);
    assert_eq!(m.rm_file(&path), Err(LocketError::NotManaged));
    assert!(matches!(m.get(&path), Err(LocketError::NotManaged)));
}

#[test]
fn status_of_missing_file_is_orphaned() {
    let mut m = LockManifest::new();
    let path = "gone.txt".to_string();
    m.add_file(path.clone(), &b"data".to_vec()).unwrap();
    assert_eq!(m.status_of(&path, None), Err(LocketError::IoFailure));
    assert_eq!(
        m.status_of(&"never-added".to_string(), None),
        Err(LocketError::NotManaged)
    );
}

#[test]
fn exhausted_nonce_counter_fails_safely() {
    let mut m = LockManifest::new();
    let path = "f".to_string();
    let content = b"data".to_vec();
    m.add_file(path.clone(), &content).unwrap();
    m.next_nonce = u64::MAX;
    let r = m.lock_file(&path, &content, &token(), &salt(1));
    assert_eq!(r, Err(LocketError::IoFailure));
    assert_eq!(m.get(&path).unwrap().state, LockState::Unlocked);
}

#[test]
fn batch_add_tracks_each_file_once() {
    let mut m = LockManifest::new();
    let items = vec![
        ("a".to_string(), b"1".to_vec()),
        ("b".to_string(), b"2".to_vec()),
        ("a".to_string(), b"1".to_vec()),
    ];
    m.add_files(&items).unwrap();
    assert_eq!(m.len(), 2);
    assert_eq!(m.entry_at(0).path, "a");
    assert_eq!(m.entry_at(1).path, "b");
}

#[test]
fn batch_rm_isolates_failures_per_path() {
    let mut m = LockManifest::new();
    m.add_file("a".to_string(), &b"1".to_vec()).unwrap();
    m.add_file("b".to_string(), &b"2".to_vec()).unwrap();
    let results = m.rm_files(&vec!["a".to_string(), "ghost".to_string(), "b".to_string()]);
    assert_eq!(
        results,
        vec![Ok(()), Err(LocketError::NotManaged), Ok(())]
    );
    assert_eq!(m.len(), 0);
}

#[test]
fn manifest_walk_in_insertion_order() {
    let mut m = LockManifest::new();
    m.add_file("one".to_string(), &b"1".to_vec()).unwrap();
    m.add_file("two".to_string(), &b"2".to_vec()).unwrap();
    assert_eq!(m.len(), 2);
    assert_eq!(m.entry_at(0).path, "one");
    assert_eq!(m.entry_at(1).path, "two");
}
