//! The table of watched directories: which directory each inotify watch
//! descriptor stands for.
use std::collections::HashMap;
use vstd::prelude::*;
use vstd::std_specs::hash::*;
use vstd::std_specs::iter::IteratorSpec;
use crate::path::{components, path_starts_with, same_path, spec_path_starts_with};

verus! {

broadcast use vstd::std_specs::hash::group_hash_axioms;

/// Watch descriptor numbers mapped to the paths of the directories watched.
pub struct WatchTable {
    pub dirs: HashMap<i32, String>,
}

/// The paths of a table, by descriptor.
pub open spec fn table_view(m: Map<i32, String>) -> Map<i32, Seq<char>> {
    Map::new(|k: i32| m.contains_key(k), |k: i32| m[k]@)
}

impl View for WatchTable {
    type V = Map<i32, Seq<char>>;

    open spec fn view(&self) -> Map<i32, Seq<char>> {
        table_view(self.dirs@)
    }
}

impl WatchTable {
    /// An empty table.
    pub fn new() -> (t: WatchTable)
        ensures
            t@ == Map::<i32, Seq<char>>::empty(),
    {
        let t = WatchTable { dirs: HashMap::new() };
        assert(t@ =~= Map::<i32, Seq<char>>::empty());
        t
    }

    /// Records that descriptor `wd` watches the directory `dir`, replacing
    /// what the descriptor stood for before.
    pub fn insert(&mut self, wd: i32, dir: &str)
        ensures
            final(self)@ == old(self)@.insert(wd, dir@),
    {
        self.dirs.insert(wd, dir.to_owned());
        assert(self@ =~= old(self)@.insert(wd, dir@));
    }

    /// The directory that descriptor `wd` watches, if it is in the table.
    pub fn get(&self, wd: i32) -> (r: Option<String>)
        ensures
            match r {
                Some(p) => self@.contains_key(wd) && p@ == self@[wd],
                None => !self@.contains_key(wd),
            },
    {
        match self.dirs.get(&wd) {
            Some(p) => Some(p.clone()),
            None => None,
        }
    }

    /// Drops descriptor `wd` from the table.
    pub fn remove(&mut self, wd: i32)
        ensures
            final(self)@ == old(self)@.remove(wd),
    {
        self.dirs.remove(&wd);
        assert(self@ =~= old(self)@.remove(wd));
    }

    /// Drops every descriptor in `wds` from the table.
    pub fn forget(&mut self, wds: &Vec<i32>)
        ensures
            final(self)@ == old(self)@.remove_keys(wds@.to_set()),
    {
        let mut i: usize = 0;
        while i < wds.len()
            invariant
                0 <= i <= wds.len(),
                self@ == old(self)@.remove_keys(wds@.take(i as int).to_set()),
            decreases wds.len() - i,
        {
            self.remove(wds[i]);
            proof {
                assert(wds@.take(i + 1) =~= wds@.take(i as int).push(wds@[i as int]));
                wds@.take(i as int).lemma_push_to_set_commute(wds@[i as int]);
            }
            assert(self@ =~= old(self)@.remove_keys(wds@.take(i + 1).to_set()));
            i = i + 1;
        }
        assert(wds@.take(wds.len() as int) =~= wds@);
    }

    /// The first descriptor, in the table's own walk order, whose directory is
    /// the path `path` (comparing components); `None` when no descriptor
    /// watches it.
    pub fn find_path(&self, path: &str) -> (r: Option<i32>)
        ensures
            match r {
                Some(k) => self@.contains_key(k) && components(self@[k]) == components(path@),
                None => forall|k: i32| self@.contains_key(k) ==> components(self@[k]) != components(path@),
            },
    {
        let mut found: Option<i32> = None;
        let ghost entries = spec_hash_map_iter(&self.dirs).remaining();
        for entry in it: self.dirs.iter()
            invariant
                it.seq() == entries,
                entries == spec_hash_map_iter(&self.dirs).remaining(),
                match found {
                    Some(k) => self@.contains_key(k) && components(self@[k]) == components(path@),
                    None => forall|i: int| 0 <= i < it.index() ==> components(entries[i].1@) != components(path@),
                },
        {
            let (k, v) = entry;
            assert(entry == entries[it.index()]);
            if found.is_none() && same_path(v.as_str(), path) {
                found = Some(*k);
            }
        }
        proof {
            if found.is_none() {
                assert forall|k: i32| self@.contains_key(k) implies components(self@[k]) != components(path@) by {
                    assert(self.dirs@.contains_key(k));
                    assert(entries.contains((&k, &self.dirs@[k])));
                    let i = choose|i: int| 0 <= i < entries.len() && entries[i] == (&k, &self.dirs@[k]);
                    assert(components(entries[i].1@) != components(path@));
                }
            }
        }
        found
    }

    /// Every descriptor whose directory lies at or below `base`, component
    /// by component, in the table's own walk order.
    pub fn find_under(&self, base: &str) -> (r: Vec<i32>)
        ensures
            r@.no_duplicates(),
            forall|k: i32| r@.contains(k) <==> (self@.contains_key(k) && spec_path_starts_with(self@[k], base@)),
    {
        let mut r: Vec<i32> = Vec::new();
        let ghost entries = spec_hash_map_iter(&self.dirs).remaining();
        for entry in it: self.dirs.iter()
            invariant
                it.seq() == entries,
                entries == spec_hash_map_iter(&self.dirs).remaining(),
                entries.no_duplicates(),
                r@.no_duplicates(),
                forall|kk: i32| r@.contains(kk) <==> (exists|i: int| 0 <= i < it.index() && *entries[i].0 == kk && spec_path_starts_with(entries[i].1@, base@)),
        {
            let (k, v) = entry;
            assert(entry == entries[it.index()]);
            let ghost old_r = r@;
            let ghost idx = it.index();
            let matched = path_starts_with(v.as_str(), base);
            if matched {
                proof {
                    if old_r.contains(*k) {
                        let i = choose|i: int| 0 <= i < idx && *entries[i].0 == *k && spec_path_starts_with(entries[i].1@, base@);
                        assert(self.dirs@.contains_key(*entries[i].0) && self.dirs@[*entries[i].0] == *entries[i].1);
                        assert(self.dirs@.contains_key(*entries[idx].0) && self.dirs@[*entries[idx].0] == *entries[idx].1);
                        assert(entries[i] == entries[idx]);
                    }
                }
                r.push(*k);
            }
            assert(matched ==> r@ == old_r.push(*k));
            assert(!matched ==> r@ == old_r);
            assert forall|kk: i32| r@.contains(kk) implies (exists|i: int| 0 <= i < idx + 1 && *entries[i].0 == kk && spec_path_starts_with(entries[i].1@, base@)) by {
                if old_r.contains(kk) {
                    let i = choose|i: int| 0 <= i < idx && *entries[i].0 == kk && spec_path_starts_with(entries[i].1@, base@);
                    assert(0 <= i < idx + 1);
                } else {
                    assert(matched);
                    assert(r@.last() == *k);
                    assert(0 <= idx < idx + 1 && *entries[idx].0 == kk && spec_path_starts_with(entries[idx].1@, base@));
                }
            }
            assert forall|kk: i32| (exists|i: int| 0 <= i < idx + 1 && *entries[i].0 == kk && spec_path_starts_with(entries[i].1@, base@)) implies r@.contains(kk) by {
                let i = choose|i: int| 0 <= i < idx + 1 && *entries[i].0 == kk && spec_path_starts_with(entries[i].1@, base@);
                if i < idx {
                    assert(old_r.contains(kk));
                    let j = choose|j: int| 0 <= j < old_r.len() && old_r[j] == kk;
                    assert(r@[j] == kk);
                } else {
                    assert(matched);
                    assert(r@[r@.len() - 1] == kk);
                }
            }
        }
        proof {
            assert forall|k: i32| (self@.contains_key(k) && spec_path_starts_with(self@[k], base@)) implies r@.contains(k) by {
                assert(self.dirs@.contains_key(k));
                assert(entries.contains((&k, &self.dirs@[k])));
                let i = choose|i: int| 0 <= i < entries.len() && entries[i] == (&k, &self.dirs@[k]);
                assert(*entries[i].0 == k && spec_path_starts_with(entries[i].1@, base@));
            }
        }
        r
    }
}

} // verus!
