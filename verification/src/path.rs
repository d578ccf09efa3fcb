//! Names of template files.

use vstd::prelude::*;

verus! {

/// The byte that separates the segments of a path.
pub const SEPARATOR: u8 = 0x2F;

/// The byte that a segment is made of twice when it names the directory
/// above.
pub const DOT: u8 = 0x2E;

/// Whether the segment `..` starts at offset `i` of `path`.
pub open spec fn climbs_at(path: Seq<u8>, i: int) -> bool {
    &&& 0 <= i
    &&& i + 2 <= path.len()
    &&& path[i] == DOT
    &&& path[i + 1] == DOT
    &&& i == 0 || path[i - 1] == SEPARATOR
    &&& i + 2 == path.len() || path[i + 2] == SEPARATOR
}

/// Whether `path` has a segment `..`, which leads out of the directory the
/// path starts in.
pub open spec fn climbs(path: Seq<u8>) -> bool {
    exists|i: int| climbs_at(path, i)
}

/// Returns whether `path` has a segment `..`.
pub fn path_climbs(path: &[u8]) -> (r: bool)
    ensures
        r == climbs(path@),
{
    let len = path.len();
    if len < 2 {
        return false;
    }
    let mut i: usize = 0;
    while i <= len - 2
        invariant
            len == path@.len(),
            2 <= len,
            i <= len,
            forall|j: int| 0 <= j < i ==> !climbs_at(path@, j),
        decreases len - i,
    {
        if path[i] == DOT && path[i + 1] == DOT && (i == 0 || path[i - 1] == SEPARATOR) && (i + 2
            == len || path[i + 2] == SEPARATOR) {
            assert(climbs_at(path@, i as int));
            return true;
        }
        i = i + 1;
    }
    false
}

} // verus!
