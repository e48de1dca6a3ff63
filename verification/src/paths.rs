//! The disk-residency convention: where the blob log lives relative to a
//! file-resident metadata index, and the reserved path that selects the
//! in-memory backend instead.

use vstd::prelude::*;
use vstd::string::*;

verus! {

/// Is this the reserved path that denotes "no disk residency"?  A store
/// opened against it is backed by the in-memory buffer unconditionally.
pub fn is_memory_path(path: &str) -> (r: bool)
    ensures
        r == (path@ == ":memory:"@),
{
    proof {
        reveal_strlit(":memory:");
    }
    if path.unicode_len() != 8 {
        return false;
    }
    let ok = path.get_char(0) == ':' && path.get_char(1) == 'm' && path.get_char(2) == 'e'
        && path.get_char(3) == 'm' && path.get_char(4) == 'o' && path.get_char(5) == 'r'
        && path.get_char(6) == 'y' && path.get_char(7) == ':';
    proof {
        if ok {
            assert(path@ =~= ":memory:"@);
        }
    }
    ok
}

/// Where the blob log resides when the metadata index is file-resident at
/// `path`: the same path with a fixed extension.  The existence of a file
/// there is how callers detect that migration has already produced an
/// external log.
pub fn blob_storage_path(path: &str) -> (r: String)
    ensures
        r@ == path@ + ".blobs"@,
{
    let mut s = path.to_owned();
    s.append(".blobs");
    s
}

} // verus!
