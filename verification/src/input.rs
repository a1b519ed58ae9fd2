//! The pure part of input resolution: deciding whether a command-line
//! file argument denotes standard input.
//!
//! Opening files and reading standard input are left to the caller; it
//! hands each file argument to [`handle_stdin_notation`] and reads from
//! standard input exactly when no path comes back.

use vstd::prelude::*;
use vstd::string::StringSliceAdditionalSpecFns;

verus! {

/// Interpret the conventional `-` argument: an argument that is exactly
/// `-` denotes standard input and yields no path; any other argument is
/// returned unchanged as a path.
pub fn handle_stdin_notation(arg: &str) -> (r: Option<&str>)
    ensures
        (match r {
            Option::Some(path) => path == arg && arg.spec_bytes() != "-".spec_bytes(),
            Option::None => arg.spec_bytes() == "-".spec_bytes(),
        }),
{
    let ab = arg.as_bytes();
    let db = "-".as_bytes();
    if ab.len() != db.len() {
        return Option::Some(arg);
    }
    let mut i: usize = 0;
    while i < ab.len()
        invariant
            i <= ab.len(),
            ab@.len() == db@.len(),
            ab@ == arg.spec_bytes(),
            db@ == "-".spec_bytes(),
            forall|j: int| 0 <= j < i ==> ab@[j] == db@[j],
        decreases ab.len() - i,
    {
        if ab[i] != db[i] {
            return Option::Some(arg);
        }
        i += 1;
    }
    proof {
        assert(arg.spec_bytes() =~= "-".spec_bytes());
    }
    Option::None
}

} // verus!
