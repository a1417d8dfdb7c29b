use devo_core::honeypot::{
    contains_substring, deploy_honeypots, file_name, honeypot_file_names, honeypot_seed_content,
    is_honeypot,
};
use devo_core::snapshot::{DirState, SnapshotStore};

#[test]
fn exact_decoy_names_are_honeypots() {
    assert!(is_honeypot("/tmp/devos-lab/00_ADMIN_PASSWORD.txt"));
    assert!(is_honeypot("/tmp/devos-lab/AA_CONFIDENTIAL.doc"));
    assert!(is_honeypot("/tmp/devos-lab/ZZ_BACKUP.db"));
    assert!(is_honeypot("ZZ_BACKUP.db"));
}

#[test]
fn containment_not_equality() {
    // a renamed (encrypted) decoy still contains the token
    assert!(is_honeypot("/tmp/devos-lab/00_ADMIN_PASSWORD.txt.locked"));
    assert!(is_honeypot("/tmp/devos-lab/copy_of_ZZ_BACKUP.db"));
    // a name that is only a prefix or suffix of a token is no honeypot
    assert!(!is_honeypot("/tmp/devos-lab/00_ADMIN_PASSWORD"));
    assert!(!is_honeypot("/tmp/devos-lab/ADMIN_PASSWORD.txt"));
    assert!(!is_honeypot("/tmp/devos-lab/ZZ_BACKUP"));
}

#[test]
fn only_the_file_name_counts() {
    // the token in a directory component does not trip the wire
    assert!(!is_honeypot("/tmp/ZZ_BACKUP.db/readme.txt"));
    assert!(is_honeypot("/tmp/anything/ZZ_BACKUP.db"));
    assert!(!is_honeypot("/tmp/devos-lab/notes.txt"));
    assert!(!is_honeypot(""));
}

#[test]
fn file_name_component() {
    assert_eq!(file_name("/a/b/c.txt"), "c.txt");
    assert_eq!(file_name("c.txt"), "c.txt");
    assert_eq!(file_name("/a/b/"), "");
    assert_eq!(file_name(""), "");
}

#[test]
fn substring_search() {
    assert!(contains_substring("hello world", "lo wo"));
    assert!(contains_substring("abc", ""));
    assert!(!contains_substring("abc", "abcd"));
    assert!(!contains_substring("abab", "bb"));
}

#[test]
fn deploy_plants_every_decoy() {
    let mut dir = DirState::new();
    dir.upsert("notes.txt", b"user data");
    deploy_honeypots(&mut dir);
    for name in honeypot_file_names() {
        let data = dir.file_data(&name).expect("decoy present after deploy");
        assert_eq!(data.as_slice(), honeypot_seed_content().as_bytes());
    }
    // the user file is untouched
    assert_eq!(dir.file_data("notes.txt").unwrap().as_slice(), b"user data");
}

#[test]
fn create_is_idempotent() {
    let mut dir = DirState::new();
    dir.upsert("a.txt", b"alpha");
    let mut store = SnapshotStore::new();
    store.create(&dir, "base_safe_state");
    assert!(store.has_snapshot("base_safe_state"));
    assert_eq!(store.snapshots.len(), 1);

    // the directory changes, creation runs again: no error, no duplicate,
    // the stored baseline keeps its original content
    dir.upsert("a.txt", b"changed");
    store.create(&dir, "base_safe_state");
    assert_eq!(store.snapshots.len(), 1);
    assert_eq!(store.snapshots[0].files.len(), 1);
    assert_eq!(store.snapshots[0].files[0].data.as_slice(), b"alpha");
}

#[test]
fn restore_of_a_missing_baseline_is_an_error() {
    let store = SnapshotStore::new();
    let mut dir = DirState::new();
    dir.upsert("a.txt", b"alpha");
    assert!(!store.restore(&mut dir, "no_such_baseline"));
    // the directory is untouched
    assert_eq!(dir.file_data("a.txt").unwrap().as_slice(), b"alpha");
}

// Scenario: snapshot, attack, restore, re-deploy - every decoy exists again
// and the user data is back to the baseline.
#[test]
fn restore_then_redeploy_recovers_everything() {
    let mut dir = DirState::new();
    dir.upsert("report.txt", b"plain text");
    deploy_honeypots(&mut dir);
    let mut store = SnapshotStore::new();
    store.create(&dir, "base_safe_state");

    // the attacker encrypts the user file and deletes nothing we model
    dir.upsert("report.txt", b"\x91\x02\xfa\x33 ciphertext");
    dir.upsert("00_ADMIN_PASSWORD.txt", b"\x00\xff garbage");

    assert!(store.restore(&mut dir, "base_safe_state"));
    deploy_honeypots(&mut dir);

    for name in honeypot_file_names() {
        let data = dir.file_data(&name).expect("decoy present after restore");
        assert_eq!(data.as_slice(), honeypot_seed_content().as_bytes());
    }
    assert_eq!(dir.file_data("report.txt").unwrap().as_slice(), b"plain text");
}
