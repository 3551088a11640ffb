use fim::event_dir::dir_moved_from;
use fim::watcher::WatchTable;

#[test]
fn moved_from_lists_each_watch_once() {
    let mut t = WatchTable::new();
    for (wd, p) in [(1, "/w"), (2, "/w/a"), (3, "/w/a/b"), (4, "/w/a/c"), (5, "/x")] {
        t.insert(wd, p);
    }
    let mut keys = dir_moved_from("/w", &t);
    let n = keys.len();
    keys.sort();
    keys.dedup();
    assert_eq!(keys.len(), n);
    assert_eq!(keys, vec![1, 2, 3, 4]);
}
