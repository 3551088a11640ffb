//! The command line: the directory to watch is its first argument.
use vstd::prelude::*;

verus! {

/// The directory named on the command line (`args[1]`), or `None` when no
/// argument follows the program name.
pub fn target_from_args(args: &Vec<String>) -> (r: Option<String>)
    ensures
        args@.len() < 2 ==> r.is_none(),
        args@.len() >= 2 ==> (r matches Some(s) && s@ == args@[1]@),
{
    if args.len() < 2 {
        None
    } else {
        Some(args[1].clone())
    }
}

} // verus!
