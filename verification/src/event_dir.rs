//! What the table of watched directories does when a watched directory is
//! deleted or moved away.
use vstd::prelude::*;
use crate::path::{components, spec_path_starts_with, spec_join, has_root, lemma_join_starts_with,
    lemma_starts_with_reflexive};
use crate::watcher::WatchTable;

verus! {

/// Descriptor `k` watches a directory at or below `base`.
pub open spec fn in_subtree(m: Map<i32, Seq<char>>, base: Seq<char>, k: i32) -> bool {
    m.contains_key(k) && spec_path_starts_with(m[k], base)
}

/// Some descriptor watches the path `path` (comparing components).
pub open spec fn watches_path(m: Map<i32, Seq<char>>, path: Seq<char>) -> bool {
    exists|k: i32| m.contains_key(k) && components(m[k]) == components(path)
}

/// The watches to drop when the directory `complete_path` has been moved
/// away: every descriptor whose directory lies at or below it, component by
/// component, in the table's walk order, each once. The caller removes each of these
/// watches from inotify and then has the table forget them.
pub fn dir_moved_from(complete_path: &str, watched_dirs: &WatchTable) -> (r: Vec<i32>)
    ensures
        r@.no_duplicates(),
        forall|k: i32| r@.contains(k) <==> in_subtree(watched_dirs@, complete_path@, k),
{
    watched_dirs.find_under(complete_path)
}

/// The directory `complete_path` has been deleted: one descriptor that
/// watches that path (comparing components), if any, leaves the table and is
/// returned; nothing else changes.
pub fn dir_delete(complete_path: &str, watched_dirs: &mut WatchTable) -> (removed: Option<i32>)
    ensures
        watches_path(old(watched_dirs)@, complete_path@) <==> removed is Some,
        match removed {
            Some(k) => {
                &&& old(watched_dirs)@.contains_key(k)
                &&& components(old(watched_dirs)@[k]) == components(complete_path@)
                &&& final(watched_dirs)@ == old(watched_dirs)@.remove(k)
            },
            None => final(watched_dirs)@ == old(watched_dirs)@,
        },
{
    match watched_dirs.find_path(complete_path) {
        Some(k) => {
            watched_dirs.remove(k);
            Some(k)
        },
        None => None,
    }
}

/// Once the watches that `dir_moved_from` names are forgotten, no descriptor
/// left in the table watches a directory at or below the moved one, and
/// every other descriptor keeps its directory.
pub proof fn lemma_moved_from_clears_subtree(
    m: Map<i32, Seq<char>>,
    base: Seq<char>,
    removed: Seq<i32>,
)
    requires
        forall|k: i32| removed.contains(k) <==> in_subtree(m, base, k),
    ensures
        forall|k: i32| #[trigger]
            m.remove_keys(removed.to_set()).contains_key(k) <==> (m.contains_key(k)
                && !spec_path_starts_with(m[k], base)),
        forall|k: i32| #[trigger]
            m.remove_keys(removed.to_set()).contains_key(k) ==> m.remove_keys(removed.to_set())[k]
                == m[k],
{
}

/// The moved directory's own watch is among the watches dropped.
pub proof fn lemma_moved_from_takes_itself(m: Map<i32, Seq<char>>, wd: i32)
    requires
        m.contains_key(wd),
    ensures
        in_subtree(m, m[wd], wd),
{
    lemma_starts_with_reflexive(m[wd]);
}

/// A directory registered under the path joined from `parent` and a
/// relative name is among the watches dropped when `parent` moves away.
pub proof fn lemma_moved_from_takes_children(
    m: Map<i32, Seq<char>>,
    wd: i32,
    parent: Seq<char>,
    name: Seq<char>,
)
    requires
        !has_root(name),
    ensures
        in_subtree(m.insert(wd, spec_join(parent, name)), parent, wd),
{
    lemma_join_starts_with(parent, name);
}

} // verus!
