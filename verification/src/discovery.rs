//! The pure part of plugin discovery: deciding whether a directory
//! entry's name follows the platform's native dynamic-library naming
//! convention.
//!
//! Discovery itself walks the search paths — the working directory's
//! and the home directory's `.deng/{languages,presentations}/raw`
//! directories and the directories named by the search-path environment
//! variables — and is left to the caller, which hands each candidate's
//! file stem and extension to [`is_raw_module_name`] together with the
//! platform's library prefix and extension.

use vstd::prelude::*;
use vstd::string::StringSliceAdditionalSpecFns;

verus! {

/// Whether a candidate file name matches the platform's dynamic-library
/// naming convention: its stem starts with the platform's library
/// prefix and its extension is exactly the platform's library
/// extension. Byte-for-byte comparison, as the names come from the
/// file system.
pub open spec fn spec_raw_module_name(
    stem: Seq<u8>,
    extension: Seq<u8>,
    prefix: Seq<u8>,
    dll_ext: Seq<u8>,
) -> bool {
    prefix.is_prefix_of(stem) && extension == dll_ext
}

/// Decide whether a candidate file is named like a native dynamic
/// library: `stem` and `extension` are the candidate's file stem and
/// extension, `prefix` and `dll_ext` the platform's library prefix and
/// extension.
pub fn is_raw_module_name(stem: &str, extension: &str, prefix: &str, dll_ext: &str) -> (r:
    bool)
    ensures
        r == spec_raw_module_name(
            stem.spec_bytes(),
            extension.spec_bytes(),
            prefix.spec_bytes(),
            dll_ext.spec_bytes(),
        ),
{
    let sb = stem.as_bytes();
    let pb = prefix.as_bytes();
    let eb = extension.as_bytes();
    let db = dll_ext.as_bytes();
    if pb.len() > sb.len() || eb.len() != db.len() {
        return false;
    }
    let mut i: usize = 0;
    while i < pb.len()
        invariant
            i <= pb.len(),
            pb@.len() <= sb@.len(),
            sb@ == stem.spec_bytes(),
            pb@ == prefix.spec_bytes(),
            forall|j: int| 0 <= j < i ==> sb@[j] == pb@[j],
        decreases pb.len() - i,
    {
        if sb[i] != pb[i] {
            proof {
                assert(stem.spec_bytes().take(prefix.spec_bytes().len() as int)[i as int]
                    != prefix.spec_bytes()[i as int]);
            }
            return false;
        }
        i += 1;
    }
    proof {
        assert(stem.spec_bytes().take(prefix.spec_bytes().len() as int)
            =~= prefix.spec_bytes());
    }
    let mut k: usize = 0;
    while k < eb.len()
        invariant
            k <= eb.len(),
            eb@.len() == db@.len(),
            eb@ == extension.spec_bytes(),
            db@ == dll_ext.spec_bytes(),
            forall|j: int| 0 <= j < k ==> eb@[j] == db@[j],
        decreases eb.len() - k,
    {
        if eb[k] != db[k] {
            return false;
        }
        k += 1;
    }
    proof {
        assert(extension.spec_bytes() =~= dll_ext.spec_bytes());
    }
    true
}

} // verus!
