//! The plain tracker: registers files not seen before, without keeping copies.
use vstd::prelude::*;
use crate::digest::sha256_hash;
use crate::init::{PathJson, spec_track};
use crate::path::components;

verus! {

/// Registers the file at `path` if it is not known yet, with the hash of its
/// path. Says whether it did, in which case the registry is to be saved.
pub fn check_file(path_json: &mut PathJson, path: &str) -> (added: bool)
    requires
        old(path_json).wf(),
    ensures
        final(path_json).wf(),
        added == !old(path_json)@.exist.contains(components(path@)),
        final(path_json)@ == spec_track(old(path_json)@, path@),
{
    if !path_json.contains(path) {
        let hash = sha256_hash(path);
        path_json.register(path, hash);
        true
    } else {
        false
    }
}

} // verus!
