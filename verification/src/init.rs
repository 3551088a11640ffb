//! The registry of tracked files that is kept in `save/path.json`: every file
//! seen so far, with the hash that names its save directory, and the set of
//! known paths, compared as paths (component by component).
use vstd::prelude::*;
use vstd::string::*;
use crate::digest::{hex_lower, sha256_of, spec_sha256_hash};
use vstd::utf8::encode_utf8;
use crate::path::{components, same_path};

verus! {

/// One tracked file: its path and the hash that names its save directory.
pub struct ContentJson {
    pub path: String,
    pub hash: String,
}

impl View for ContentJson {
    type V = (Seq<char>, Seq<char>);

    open spec fn view(&self) -> (Seq<char>, Seq<char>) {
        (self.path@, self.hash@)
    }
}

/// The registry: where it is stored, whether a read or write of that file is
/// under way, the tracked files in order, and the known paths.
pub struct PathJson {
    pub path: String,
    pub file_use: bool,
    pub list: Vec<ContentJson>,
    pub exist: Vec<String>,
}

/// The registry as values. A known path is kept as its components, so that
/// two spellings of one path (`a//b`, `a/./b`) are one known path.
pub struct PathJsonView {
    pub path: Seq<char>,
    pub file_use: bool,
    pub list: Seq<(Seq<char>, Seq<char>)>,
    pub exist: Set<Seq<Seq<char>>>,
}

pub open spec fn entry_views(v: Seq<ContentJson>) -> Seq<(Seq<char>, Seq<char>)> {
    v.map_values(|c: ContentJson| c@)
}

/// The components of each stored path.
pub open spec fn path_keys(v: Seq<String>) -> Seq<Seq<Seq<char>>> {
    v.map_values(|s: String| components(s@))
}

/// The components of the path of each entry.
pub open spec fn entry_keys(v: Seq<(Seq<char>, Seq<char>)>) -> Seq<Seq<Seq<char>>> {
    v.map_values(|e: (Seq<char>, Seq<char>)| components(e.0))
}

/// Where the registry is stored.
pub open spec fn registry_file() -> Seq<char> {
    seq!['s', 'a', 'v', 'e', '/', 'p', 'a', 't', 'h', '.', 'j', 's', 'o', 'n']
}

/// The registry after the file at `path` has been seen: a path not known yet
/// is appended with the hash of its path and becomes known; a known path
/// leaves the registry as it is.
pub open spec fn spec_track(pj: PathJsonView, path: Seq<char>) -> PathJsonView {
    if pj.exist.contains(components(path)) {
        pj
    } else {
        PathJsonView {
            list: pj.list.push((path, spec_sha256_hash(path))),
            exist: pj.exist.insert(components(path)),
            ..pj
        }
    }
}

/// A file seen for the first time adds exactly one entry, at the end: its
/// own path, with the lowercase hexadecimal SHA-256 of that path's UTF-8
/// bytes as its hash, whatever the path is; the entries before it stay.
pub proof fn lemma_track_new_entry(pj: PathJsonView, path: Seq<char>)
    requires
        !pj.exist.contains(components(path)),
    ensures
        spec_track(pj, path).list.len() == pj.list.len() + 1,
        spec_track(pj, path).list.drop_last() == pj.list,
        spec_track(pj, path).list.last() == (path, hex_lower(sha256_of(encode_utf8(path)))),
{
    assert(spec_track(pj, path).list.drop_last() =~= pj.list);
}

/// Seeing a file twice registers it once: tracking is idempotent.
pub proof fn lemma_track_idempotent(pj: PathJsonView, path: Seq<char>)
    ensures
        spec_track(spec_track(pj, path), path) == spec_track(pj, path),
{
}

/// Once seen, a file is known, and seeing it forgets no other file and
/// drops no entry.
pub proof fn lemma_track_keeps(pj: PathJsonView, path: Seq<char>, other: Seq<Seq<char>>)
    ensures
        spec_track(pj, path).exist.contains(components(path)),
        pj.exist.contains(other) ==> spec_track(pj, path).exist.contains(other),
        pj.list.is_prefix_of(spec_track(pj, path).list),
{
    assert(pj.list =~= spec_track(pj, path).list.subrange(0, pj.list.len() as int));
}

impl View for PathJson {
    type V = PathJsonView;

    open spec fn view(&self) -> PathJsonView {
        PathJsonView {
            path: self.path@,
            file_use: self.file_use,
            list: entry_views(self.list@),
            exist: path_keys(self.exist@).to_set(),
        }
    }
}

/// `registry_file()` as a string.
pub fn registry_path() -> (r: String)
    ensures
        r@ == registry_file(),
{
    let path = "save/path.json";
    proof {
        reveal_strlit("save/path.json");
    }
    let r = path.to_owned();
    assert(r@ =~= registry_file());
    r
}

impl PathJson {
    /// Each known path is stored once, and the path of every entry is known.
    pub open spec fn wf(&self) -> bool {
        &&& path_keys(self.exist@).no_duplicates()
        &&& entry_keys(self@.list).to_set().subset_of(self@.exist)
    }

    /// An empty registry stored at `save/path.json`.
    pub fn new() -> (r: PathJson)
        ensures
            r.wf(),
            r@.path == registry_file(),
            !r@.file_use,
            r@.list == Seq::<(Seq<char>, Seq<char>)>::empty(),
            r@.exist == Set::<Seq<Seq<char>>>::empty(),
    {
        let r = PathJson { path: registry_path(), file_use: false, list: Vec::new(), exist: Vec::new() };
        assert(r@.list =~= Seq::<(Seq<char>, Seq<char>)>::empty());
        assert(r@.exist =~= Set::<Seq<Seq<char>>>::empty());
        assert(entry_keys(r@.list).to_set() =~= Set::<Seq<Seq<char>>>::empty());
        r
    }

    /// Whether `path` is known, comparing paths component by component.
    pub fn contains(&self, path: &str) -> (r: bool)
        ensures
            r == self@.exist.contains(components(path@)),
    {
        let mut i: usize = 0;
        while i < self.exist.len()
            invariant
                0 <= i <= self.exist.len(),
                forall|j: int| 0 <= j < i ==> components(self.exist@[j]@) != components(path@),
            decreases self.exist.len() - i,
        {
            if same_path(self.exist[i].as_str(), path) {
                assert(path_keys(self.exist@)[i as int] == components(path@));
                return true;
            }
            i = i + 1;
        }
        assert forall|j: int| 0 <= j < path_keys(self.exist@).len() implies path_keys(self.exist@)[j]
            != components(path@) by {
            assert(components(self.exist@[j]@) != components(path@));
        }
        false
    }

    /// Makes `path` known.
    fn mark_known(&mut self, path: &str)
        requires
            path_keys(old(self).exist@).no_duplicates(),
        ensures
            path_keys(final(self).exist@).no_duplicates(),
            final(self)@ == (PathJsonView {
                exist: old(self)@.exist.insert(components(path@)),
                ..old(self)@
            }),
    {
        if !self.contains(path) {
            let ghost before = path_keys(self.exist@);
            self.exist.push(path.to_owned());
            assert(path_keys(self.exist@) =~= before.push(components(path@)));
            proof {
                before.lemma_push_to_set_commute(components(path@));
            }
        } else {
            assert(self@.exist.insert(components(path@)) =~= self@.exist);
        }
    }

    /// Appends the entry (`path`, `hash`) and makes `path` known.
    pub fn register(&mut self, path: &str, hash: String)
        requires
            old(self).wf(),
        ensures
            final(self).wf(),
            final(self)@ == (PathJsonView {
                list: old(self)@.list.push((path@, hash@)),
                exist: old(self)@.exist.insert(components(path@)),
                ..old(self)@
            }),
    {
        let ghost old_list = old(self)@.list;
        let entry = ContentJson { path: path.to_owned(), hash };
        self.list.push(entry);
        assert(entry_views(self.list@) =~= old_list.push((path@, hash@)));
        assert(entry_keys(self@.list) =~= entry_keys(old_list).push(components(path@)));
        proof {
            entry_keys(old_list).lemma_push_to_set_commute(components(path@));
        }
        self.mark_known(path);
    }

    /// Takes in the entries read from the stored registry. While the read is
    /// under way the registry is in use; when it failed (`None`) it stays so
    /// and nothing else changes. Otherwise the entries replace the list,
    /// their paths join the known ones, and the registry is no longer in use.
    pub fn read(&mut self, loaded: Option<Vec<ContentJson>>) -> (ok: bool)
        requires
            old(self).wf(),
        ensures
            final(self).wf(),
            ok == loaded.is_some(),
            match loaded {
                Some(v) => final(self)@ == (PathJsonView {
                    path: old(self)@.path,
                    file_use: false,
                    list: entry_views(v@),
                    exist: old(self)@.exist + entry_keys(entry_views(v@)).to_set(),
                }),
                None => final(self)@ == (PathJsonView { file_use: true, ..old(self)@ }),
            },
    {
        self.file_use = true;
        match loaded {
            None => false,
            Some(v) => {
                let ghost loaded_view = v@;
                self.list = v;
                let n = self.list.len();
                let ghost base = old(self)@.exist;
                let ghost keys = entry_keys(entry_views(self.list@));
                assert(keys.take(0).to_set() =~= Set::<Seq<Seq<char>>>::empty());
                assert(base + Set::<Seq<Seq<char>>>::empty() =~= base);
                let mut i: usize = 0;
                while i < n
                    invariant
                        path_keys(self.exist@).no_duplicates(),
                        n == self.list.len(),
                        entry_views(self.list@) == entry_views(loaded_view),
                        keys == entry_keys(entry_views(self.list@)),
                        0 <= i <= n,
                        self.file_use,
                        self@.path == old(self)@.path,
                        self@.exist == base + keys.take(i as int).to_set(),
                    decreases n - i,
                {
                    let p = self.list[i].path.clone();
                    self.mark_known(p.as_str());
                    proof {
                        assert(keys.take(i + 1) =~= keys.take(i as int).push(components(p@)));
                        keys.take(i as int).lemma_push_to_set_commute(components(p@));
                        assert(self@.exist =~= base + keys.take(i + 1).to_set());
                    }
                    i = i + 1;
                }
                assert(keys.take(n as int) =~= keys);
                self.file_use = false;
                true
            },
        }
    }
}

/// A fresh registry filled with the entries read from the stored one;
/// `None` when reading the stored registry failed.
pub fn init(loaded: Option<Vec<ContentJson>>) -> (r: Option<PathJson>)
    ensures
        r.is_some() == loaded.is_some(),
        match (r, loaded) {
            (Some(pj), Some(v)) => {
                &&& pj.wf()
                &&& pj@ == (PathJsonView {
                    path: registry_file(),
                    file_use: false,
                    list: entry_views(v@),
                    exist: entry_keys(entry_views(v@)).to_set(),
                })
            },
            _ => true,
        },
{
    let mut path_json = PathJson::new();
    let ghost v0 = loaded;
    if path_json.read(loaded) {
        assert(Set::<Seq<Seq<char>>>::empty() + entry_keys(entry_views(v0->0@)).to_set()
            =~= entry_keys(entry_views(v0->0@)).to_set());
        Some(path_json)
    } else {
        None
    }
}

} // verus!
