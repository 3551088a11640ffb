use fim::command::target_from_args;
use fim::event_dir::{dir_delete, dir_moved_from};
use fim::monitor::{
    check_path, classify_event, log_line, log_path, popup_heading, resolve_event, EventAction,
    IN_CREATE, IN_DELETE, IN_ISDIR, IN_MODIFY, IN_MOVED_FROM, IN_MOVED_TO,
};
use fim::watcher::WatchTable;
use inotify::EventMask;

fn table(entries: &[(i32, &str)]) -> WatchTable {
    let mut t = WatchTable::new();
    for (wd, p) in entries {
        t.insert(*wd, p);
    }
    t
}

#[test]
fn insert_then_get() {
    let mut t = WatchTable::new();
    t.insert(1, "/w");
    t.insert(2, "/w/a");
    t.insert(1, "/w2");
    assert_eq!(t.get(1), Some("/w2".to_string()));
    assert_eq!(t.get(2), Some("/w/a".to_string()));
    assert_eq!(t.get(3), None);
}

#[test]
fn moved_from_names_whole_subtree() {
    let t = table(&[(1, "/w"), (2, "/w/a"), (3, "/w/a/b"), (4, "/w/ab"), (5, "/x")]);
    let mut keys = dir_moved_from("/w/a", &t);
    keys.sort();
    assert_eq!(keys, vec![2, 3]);
}

#[test]
fn forgetting_moved_subtree_keeps_the_rest() {
    let mut t = table(&[(1, "/w"), (2, "/w/a"), (3, "/w/a/b"), (4, "/w/ab")]);
    let keys = dir_moved_from("/w/a", &t);
    t.forget(&keys);
    assert_eq!(t.get(1), Some("/w".to_string()));
    assert_eq!(t.get(4), Some("/w/ab".to_string()));
    assert_eq!(t.get(2), None);
    assert_eq!(t.get(3), None);
    assert!(dir_moved_from("/w/a", &t).is_empty());
}

#[test]
fn delete_removes_exact_match_only() {
    let mut t = table(&[(1, "/w"), (2, "/w/a"), (3, "/w/a/b")]);
    dir_delete("/w/a", &mut t);
    assert_eq!(t.get(2), None);
    assert_eq!(t.get(3), Some("/w/a/b".to_string()));
    assert_eq!(t.get(1), Some("/w".to_string()));
}

#[test]
fn delete_of_unknown_path_changes_nothing() {
    let mut t = table(&[(1, "/w")]);
    dir_delete("/nowhere", &mut t);
    assert_eq!(t.get(1), Some("/w".to_string()));
    assert_eq!(t.dirs.len(), 1);
}

#[test]
fn delete_with_two_descriptors_on_one_path_removes_one() {
    let mut t = table(&[(1, "/w"), (2, "/w")]);
    dir_delete("/w", &mut t);
    assert_eq!(t.dirs.len(), 1);
}

#[test]
fn mask_constants_match_inotify() {
    assert_eq!(IN_MODIFY, EventMask::MODIFY.bits());
    assert_eq!(IN_MOVED_FROM, EventMask::MOVED_FROM.bits());
    assert_eq!(IN_MOVED_TO, EventMask::MOVED_TO.bits());
    assert_eq!(IN_CREATE, EventMask::CREATE.bits());
    assert_eq!(IN_DELETE, EventMask::DELETE.bits());
    assert_eq!(IN_ISDIR, EventMask::ISDIR.bits());
}

#[test]
fn classify_directory_events() {
    assert!(matches!(classify_event((EventMask::ISDIR | EventMask::CREATE).bits()), EventAction::DirCreated));
    assert!(matches!(classify_event((EventMask::ISDIR | EventMask::DELETE).bits()), EventAction::DirDeleted));
    assert!(matches!(classify_event((EventMask::ISDIR | EventMask::MOVED_FROM).bits()), EventAction::DirMovedFrom));
    assert!(matches!(classify_event((EventMask::ISDIR | EventMask::MOVED_TO).bits()), EventAction::DirMovedTo));
    assert!(matches!(classify_event((EventMask::ISDIR | EventMask::MODIFY).bits()), EventAction::Ignored));
    assert!(matches!(classify_event(EventMask::ISDIR.bits()), EventAction::Ignored));
}

#[test]
fn classify_file_events() {
    assert!(matches!(classify_event(IN_MODIFY), EventAction::FileModified));
    assert!(matches!(classify_event(IN_DELETE), EventAction::FileDeleted));
    assert!(matches!(classify_event(IN_CREATE), EventAction::FileCreated));
    assert!(matches!(classify_event(IN_MOVED_FROM), EventAction::FileMovedFrom));
    assert!(matches!(classify_event(IN_MOVED_TO), EventAction::FileMovedTo));
    assert!(matches!(classify_event(IN_MODIFY | IN_CREATE), EventAction::Ignored));
    assert!(matches!(classify_event(0), EventAction::Ignored));
}

#[test]
fn checks_only_modified_created_moved_to() {
    assert!(EventAction::FileModified.checks_file());
    assert!(EventAction::FileCreated.checks_file());
    assert!(EventAction::FileMovedTo.checks_file());
    assert!(!EventAction::FileDeleted.checks_file());
    assert!(!EventAction::FileMovedFrom.checks_file());
    assert!(!EventAction::DirCreated.checks_file());
}

#[test]
fn log_lines_of_file_events() {
    let t = "01:02:2024 10:11:12";
    assert_eq!(log_line(t, &EventAction::FileModified).unwrap(), "01:02:2024 10:11:12 : Modified file.\n");
    assert_eq!(log_line(t, &EventAction::FileDeleted).unwrap(), "01:02:2024 10:11:12 : Deleted file.\n");
    assert_eq!(log_line(t, &EventAction::FileCreated).unwrap(), "01:02:2024 10:11:12 : Created file.\n");
    assert_eq!(log_line(t, &EventAction::FileMovedFrom).unwrap(), "01:02:2024 10:11:12 : Moved_from file.\n");
    assert_eq!(log_line(t, &EventAction::FileMovedTo).unwrap(), "01:02:2024 10:11:12 : Moved_to file.\n");
    assert!(log_line(t, &EventAction::DirCreated).is_none());
    assert!(log_line(t, &EventAction::Ignored).is_none());
}

#[test]
fn popup_headings() {
    assert_eq!(popup_heading(&EventAction::FileModified).unwrap(), "Modified file :\n");
    assert_eq!(popup_heading(&EventAction::FileMovedTo).unwrap(), "Moved_to file :\n");
    assert!(popup_heading(&EventAction::DirDeleted).is_none());
}

#[test]
fn resolve_joins_watched_dir_and_name() {
    let t = table(&[(7, "/w/sub")]);
    assert_eq!(resolve_event(&t, 7, Some("f.txt")), Some("/w/sub/f.txt".to_string()));
    assert_eq!(resolve_event(&t, 7, None), None);
    assert_eq!(resolve_event(&t, 8, Some("f.txt")), None);
}

#[test]
fn log_path_is_in_save_dir() {
    assert_eq!(
        log_path("abc"),
        "save/ba7816bf8f01cfea414140de5dae2223b00361a396177a9cb410ff61f20015ad/log"
    );
}

#[test]
fn check_path_refuses_watching_an_ancestor_of_the_current_dir() {
    assert_eq!(check_path(Some("/home/u/fim"), Some("/home/u")), Err(()));
    assert_eq!(check_path(Some("/home/u/fim"), Some("/home/u/fim")), Err(()));
    assert_eq!(check_path(Some("/home/u/fim"), Some("/home/u/data")), Ok(()));
    assert_eq!(check_path(Some("/home/u/fim"), Some("/home/u/fi")), Ok(()));
    assert_eq!(check_path(None, Some("/x")), Err(()));
    assert_eq!(check_path(Some("/x"), None), Err(()));
}

#[test]
fn target_is_first_argument() {
    let args = vec!["fim".to_string(), "dir".to_string(), "extra".to_string()];
    assert_eq!(target_from_args(&args), Some("dir".to_string()));
    assert_eq!(target_from_args(&vec!["fim".to_string()]), None);
    assert_eq!(target_from_args(&vec![]), None);
}
