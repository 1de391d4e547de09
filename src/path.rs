//! Request paths against the served root. A path is taken relative to the
//! root whatever its leading slashes, and any `..` that starts a segment or
//! ends one with `/` is refused before anything touches the file system.
use vstd::prelude::*;

verus! {

pub const SLASH: u8 = 47;
pub const DOT: u8 = 46;

#[derive(Debug, Clone, Copy, PartialEq, Eq, Structural)]
pub enum PathError {
    /// A segment starts with `..`, or holds `../`: the path could leave the
    /// root.
    Traversal,
    /// Nothing but slashes: the path names the root itself.
    Empty,
}

/// A `..` at `i` that starts a segment or is followed by a slash.
pub open spec fn parent_segment_at(s: Seq<u8>, i: int) -> bool {
    &&& 0 <= i
    &&& i + 2 <= s.len()
    &&& s[i] == DOT
    &&& s[i + 1] == DOT
    &&& (i == 0 || s[i - 1] == SLASH || (i + 2 < s.len() && s[i + 2] == SLASH))
}

pub open spec fn escapes_root(s: Seq<u8>) -> bool {
    exists|i: int| parent_segment_at(s, i)
}

/// Index of the first byte at or after `i` that is not a slash.
pub open spec fn skip_slashes(s: Seq<u8>, i: int) -> int
    decreases s.len() - i,
{
    if i >= s.len() {
        s.len() as int
    } else if s[i] != SLASH {
        i
    } else {
        skip_slashes(s, i + 1)
    }
}

fn parent_segment_at_exec(s: &[u8], i: usize) -> (r: bool)
    requires
        i < s@.len(),
    ensures
        r == parent_segment_at(s@, i as int),
{
    if s.len() - i < 2 {
        return false;
    }
    s[i] == DOT && s[i + 1] == DOT && (i == 0 || s[i - 1] == SLASH || (i + 2 < s.len() && s[i
        + 2] == SLASH))
}

/// The path, relative to the served root, that a request names. The same
/// rule serves every protocol.
pub fn resolve_request(path: &[u8]) -> (r: Result<Vec<u8>, PathError>)
    ensures
        match r {
            Ok(v) => !escapes_root(path@) && skip_slashes(path@, 0) < path@.len() && v@
                == path@.subrange(skip_slashes(path@, 0), path@.len() as int),
            Err(PathError::Traversal) => escapes_root(path@),
            Err(PathError::Empty) => !escapes_root(path@) && skip_slashes(path@, 0)
                == path@.len(),
        },
{
    let mut i: usize = 0;
    while i < path.len()
        invariant
            i <= path@.len(),
            forall|j: int| 0 <= j < i ==> !parent_segment_at(path@, j),
        decreases path@.len() - i,
    {
        if parent_segment_at_exec(path, i) {
            return Err(PathError::Traversal);
        }
        i = i + 1;
    }
    assert(!escapes_root(path@));
    let mut k: usize = 0;
    while k < path.len() && path[k] == SLASH
        invariant
            k <= path@.len(),
            skip_slashes(path@, 0) == skip_slashes(path@, k as int),
        decreases path@.len() - k,
    {
        k = k + 1;
    }
    if k == path.len() {
        return Err(PathError::Empty);
    }
    let mut out: Vec<u8> = Vec::new();
    let mut j = k;
    while j < path.len()
        invariant
            k <= j <= path@.len(),
            out@ == path@.subrange(k as int, j as int),
        decreases path@.len() - j,
    {
        out.push(path[j]);
        j = j + 1;
    }
    Ok(out)
}

} // verus!
