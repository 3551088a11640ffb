use fim::digest::{sha256_hash, to_hex_lower};
use fim::event_file::{check_file, diff_contents, diff_name, save_dir, FileAction};
use fim::init::{init, ContentJson, PathJson};
use fim::tracker_file;
use sha2::{Digest, Sha256};

const EMPTY_SHA256: &str = "e3b0c44298fc1c149afbf4c8996fb92427ae41e4649b934ca495991b7852b855";
const ABC_SHA256: &str = "ba7816bf8f01cfea414140de5dae2223b00361a396177a9cb410ff61f20015ad";

fn entry(path: &str, hash: &str) -> ContentJson {
    ContentJson { path: path.to_string(), hash: hash.to_string() }
}

#[test]
fn hex_is_two_lowercase_digits_per_byte() {
    assert_eq!(to_hex_lower(&[0x00, 0xab, 0x0f, 0xff]), "00ab0fff");
    assert_eq!(to_hex_lower(&[]), "");
}

#[test]
fn sha256_hash_of_known_texts() {
    assert_eq!(sha256_hash(""), EMPTY_SHA256);
    assert_eq!(sha256_hash("abc"), ABC_SHA256);
}

#[test]
fn sha256_hash_matches_original_formatting() {
    let path = "/home/user/watched/notes.txt";
    let mut hasher = Sha256::new();
    hasher.update(path.as_bytes());
    let expected: String = hasher.finalize().iter().map(|b| format!("{:02x}", b)).collect();
    assert_eq!(sha256_hash(path), expected);
    assert_eq!(sha256_hash(path).len(), 64);
}

#[test]
fn save_dir_is_hash_under_save() {
    assert_eq!(save_dir("abc"), format!("save/{}", ABC_SHA256));
}

#[test]
fn distinct_paths_get_distinct_save_dirs() {
    assert_ne!(save_dir("/w/a"), save_dir("/w/b"));
}

#[test]
fn diff_file_name() {
    assert_eq!(diff_name("01:02:2024 10:11:12"), "diff_01:02:2024 10:11:12.txt");
}

#[test]
fn new_registry_is_empty() {
    let pj = PathJson::new();
    assert_eq!(pj.path, "save/path.json");
    assert!(!pj.file_use);
    assert!(pj.list.is_empty());
    assert!(pj.exist.is_empty());
}

#[test]
fn read_replaces_list_and_adds_known_paths() {
    let mut pj = PathJson::new();
    pj.exist.push("/old".to_string());
    let ok = pj.read(Some(vec![entry("/a", "h1"), entry("/b", "h2"), entry("/a", "h3")]));
    assert!(ok);
    assert!(!pj.file_use);
    assert_eq!(pj.list.len(), 3);
    assert!(pj.contains("/old"));
    assert!(pj.contains("/a"));
    assert!(pj.contains("/b"));
    assert_eq!(pj.exist.len(), 3);
}

#[test]
fn failed_read_leaves_registry_in_use() {
    let mut pj = PathJson::new();
    assert!(!pj.read(None));
    assert!(pj.file_use);
    assert!(pj.list.is_empty());
}

#[test]
fn init_fills_fresh_registry() {
    let pj = init(Some(vec![entry("/a", "h1")])).unwrap();
    assert_eq!(pj.path, "save/path.json");
    assert_eq!(pj.list.len(), 1);
    assert_eq!(pj.list[0].path, "/a");
    assert_eq!(pj.list[0].hash, "h1");
    assert!(pj.contains("/a"));
    assert!(!pj.file_use);
}

#[test]
fn init_fails_when_read_fails() {
    assert!(init(None).is_none());
}

#[test]
fn check_file_creates_then_modifies() {
    let mut pj = PathJson::new();
    let first = check_file(&mut pj, "abc", "t0");
    let dir = format!("save/{}", ABC_SHA256);
    match first {
        FileAction::Create { save_dir, log_file, copy_file } => {
            assert_eq!(save_dir, dir);
            assert_eq!(log_file, format!("{}/log", dir));
            assert_eq!(copy_file, format!("{}/copy", dir));
        }
        FileAction::Modify { .. } => panic!("a new file must be created"),
    }
    assert_eq!(pj.list.len(), 1);
    assert_eq!(pj.list[0].path, "abc");
    assert_eq!(pj.list[0].hash, ABC_SHA256);
    let second = check_file(&mut pj, "abc", "01:02:2024 10:11:12");
    match second {
        FileAction::Modify { copy_file, diff_file } => {
            assert_eq!(copy_file, format!("{}/copy", dir));
            assert_eq!(diff_file, format!("{}/diff_01:02:2024 10:11:12.txt", dir));
        }
        FileAction::Create { .. } => panic!("a known file must be modified"),
    }
    assert_eq!(pj.list.len(), 1);
    assert_eq!(pj.exist.len(), 1);
}

#[test]
fn tracker_registers_once() {
    let mut pj = PathJson::new();
    assert!(tracker_file::check_file(&mut pj, ""));
    assert!(!tracker_file::check_file(&mut pj, ""));
    assert_eq!(pj.list.len(), 1);
    assert_eq!(pj.list[0].hash, EMPTY_SHA256);
}

#[test]
fn diff_of_one_changed_line() {
    let patch = diff_contents("a\n", "b\n");
    assert_eq!(String::from_utf8(patch).unwrap(), "--- original\n+++ modified\n@@ -1 +1 @@\n-a\n+b\n");
}

#[test]
fn diff_of_equal_texts_is_header_only() {
    let patch = diff_contents("same\n", "same\n");
    assert_eq!(String::from_utf8(patch).unwrap(), "--- original\n+++ modified\n");
}
