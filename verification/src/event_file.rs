//! What happens to a tracked file when it is created or modified: the
//! registry learns about new files, and the save area keeps a log, a copy and
//! a diff per change.
use vstd::prelude::*;
use vstd::string::*;
use crate::digest::{
    lemma_hex_lower_injective, lemma_hex_lower_no_separator, sha256_hash, sha256_of,
    spec_sha256_hash,
};
use vstd::utf8::encode_utf8;
use crate::init::{PathJson, spec_track};
use crate::path::{components, join_path, spec_join};

verus! {

/// The root of the save area.
pub open spec fn save_root() -> Seq<char> {
    seq!['s', 'a', 'v', 'e', '/']
}

/// The save directory of a file: the save area joined with the hash of the
/// file's path.
pub open spec fn spec_save_dir(path: Seq<char>) -> Seq<char> {
    spec_join(save_root(), spec_sha256_hash(path))
}

pub open spec fn log_name() -> Seq<char> {
    seq!['l', 'o', 'g']
}

pub open spec fn copy_name() -> Seq<char> {
    seq!['c', 'o', 'p', 'y']
}

/// Diffs written at different times get different names, and the name
/// reads back as its time: `diff_`, the time, then `.txt`.
pub proof fn lemma_diff_name_reads_back(t1: Seq<char>, t2: Seq<char>)
    ensures
        spec_diff_name(t1).len() == t1.len() + 9,
        spec_diff_name(t1).subrange(5, t1.len() as int + 5) == t1,
        t1 != t2 ==> spec_diff_name(t1) != spec_diff_name(t2),
{
    assert(spec_diff_name(t1).subrange(5, t1.len() as int + 5) =~= t1);
    assert(spec_diff_name(t2).subrange(5, t2.len() as int + 5) =~= t2);
}

/// Two files share a save directory only when the SHA-256 digests of their
/// paths are equal.
pub proof fn lemma_save_dir_determined_by_digest(p: Seq<char>, q: Seq<char>)
    requires
        spec_save_dir(p) == spec_save_dir(q),
    ensures
        sha256_of(encode_utf8(p)) == sha256_of(encode_utf8(q)),
{
    let hp = spec_sha256_hash(p);
    let hq = spec_sha256_hash(q);
    lemma_hex_lower_no_separator(sha256_of(encode_utf8(p)));
    lemma_hex_lower_no_separator(sha256_of(encode_utf8(q)));
    if hp.len() > 0 {
        assert(hp[0] != '/');
    }
    if hq.len() > 0 {
        assert(hq[0] != '/');
    }
    assert(spec_save_dir(p) == save_root() + hp);
    assert(spec_save_dir(q) == save_root() + hq);
    assert(hp =~= spec_save_dir(p).subrange(5, spec_save_dir(p).len() as int));
    assert(hq =~= spec_save_dir(q).subrange(5, spec_save_dir(q).len() as int));
    lemma_hex_lower_injective(sha256_of(encode_utf8(p)), sha256_of(encode_utf8(q)));
}

/// The name of the diff written at `formatted_time`: `diff_<time>.txt`.
pub open spec fn spec_diff_name(formatted_time: Seq<char>) -> Seq<char> {
    seq!['d', 'i', 'f', 'f', '_'] + formatted_time + seq!['.', 't', 'x', 't']
}

/// The bytes of the unified diff that `diffy::create_patch` makes of
/// `original` and `modified` with its default options, as `Patch::to_bytes`
/// writes it.
pub uninterp spec fn unified_patch(original: Seq<char>, modified: Seq<char>) -> Seq<u8>;

/// `--- original\n+++ modified\n`, the two header lines of every such diff.
pub open spec fn patch_header() -> Seq<u8> {
    seq![
        45u8, 45, 45, 32, 111, 114, 105, 103, 105, 110, 97, 108, 10,
        43, 43, 43, 32, 109, 111, 100, 105, 102, 105, 101, 100, 10,
    ]
}

/// Calls `diffy::create_patch(original, modified)` and renders the patch with
/// `Patch::to_bytes`. Trusted: the bytes are `unified_patch` of the two texts,
/// and, as the crate's source writes them whatever the texts, they begin
/// with the header lines naming the sides `original` and `modified`. What
/// hunks follow is not stated.
#[verifier::external_body]
fn create_patch_bytes(original: &str, modified: &str) -> (bytes: Vec<u8>)
    ensures
        bytes@ == unified_patch(original@, modified@),
        patch_header().is_prefix_of(bytes@),
{
    diffy::create_patch(original, modified).to_bytes()
}

/// The diff to store when a tracked file changes from `old_content` (its
/// saved copy) to `new_content`.
pub fn diff_contents(old_content: &str, new_content: &str) -> (patch: Vec<u8>)
    ensures
        patch@ == unified_patch(old_content@, new_content@),
        patch_header().is_prefix_of(patch@),
{
    create_patch_bytes(old_content, new_content)
}

/// What the file system must see after a file event, once the registry has
/// been brought up to date.
pub enum FileAction {
    /// A file seen for the first time: save the registry, make `save_dir` if
    /// it is missing, create an empty `log_file`, and copy the file to
    /// `copy_file`.
    Create { save_dir: String, log_file: String, copy_file: String },
    /// A file already tracked: write the diff between `copy_file` and the
    /// file's content to `diff_file`, then copy the file to `copy_file`.
    Modify { copy_file: String, diff_file: String },
}

/// The save directory of the file at `path`.
pub fn save_dir(path: &str) -> (r: String)
    ensures
        r@ == spec_save_dir(path@),
{
    let hash = sha256_hash(path);
    let root = "save/";
    proof {
        reveal_strlit("save/");
    }
    join_path(root, hash.as_str())
}

/// `diff_<formatted_time>.txt`.
pub fn diff_name(formatted_time: &str) -> (r: String)
    ensures
        r@ == spec_diff_name(formatted_time@),
{
    let mut r = "diff_".to_owned();
    proof {
        reveal_strlit("diff_");
        reveal_strlit(".txt");
    }
    r.append(formatted_time);
    r.append(".txt");
    r
}

/// Brings the registry up to date for the file at `path` and says what the
/// file system must do. A file not yet known is appended to the registry
/// with its hash and is to be created in the save area; a known file leaves
/// the registry as it is and is to get a diff named after `formatted_time`.
pub fn check_file(path_json: &mut PathJson, path: &str, formatted_time: &str) -> (action: FileAction)
    requires
        old(path_json).wf(),
    ensures
        final(path_json).wf(),
        final(path_json)@ == spec_track(old(path_json)@, path@),
        !old(path_json)@.exist.contains(components(path@)) ==> {
            &&& action matches FileAction::Create { save_dir, log_file, copy_file }
            &&& save_dir@ == spec_save_dir(path@)
            &&& save_dir@ == save_root() + final(path_json)@.list.last().1
            &&& log_file@ == spec_join(spec_save_dir(path@), log_name())
            &&& copy_file@ == spec_join(spec_save_dir(path@), copy_name())
        },
        old(path_json)@.exist.contains(components(path@)) ==> {
            &&& action matches FileAction::Modify { copy_file, diff_file }
            &&& copy_file@ == spec_join(spec_save_dir(path@), copy_name())
            &&& diff_file@ == spec_join(spec_save_dir(path@), spec_diff_name(formatted_time@))
        },
{
    let hash = sha256_hash(path);
    let root = "save/";
    let log = "log";
    let copy = "copy";
    proof {
        reveal_strlit("save/");
        reveal_strlit("log");
        reveal_strlit("copy");
    }
    let new_dir_save = join_path(root, hash.as_str());
    if !path_json.contains(path) {
        proof {
            lemma_hex_lower_no_separator(sha256_of(encode_utf8(path@)));
            if hash@.len() > 0 {
                assert(hash@[0] != '/');
            }
        }
        path_json.register(path, hash);
        let log_file = join_path(new_dir_save.as_str(), log);
        let copy_file = join_path(new_dir_save.as_str(), copy);
        FileAction::Create { save_dir: new_dir_save, log_file, copy_file }
    } else {
        let copy_file = join_path(new_dir_save.as_str(), copy);
        let name = diff_name(formatted_time);
        let diff_file = join_path(new_dir_save.as_str(), name.as_str());
        FileAction::Modify { copy_file, diff_file }
    }
}

} // verus!
