//! Path names: byte strings whose elements are separated by slashes.

use crate::directory::DIRSIZ;
use vstd::prelude::*;
use vstd::slice::slice_subrange;

verus! {

/// The byte that separates the elements of a path.
pub const SLASH: u8 = 0x2f;

/// The first index at or after `k` where `path` stops being slashes (with
/// `slashes` set) or stops being other bytes (with `slashes` unset); the
/// length of `path` if it does not stop.
pub open spec fn run_end(path: Seq<u8>, k: int, slashes: bool) -> int
    decreases path.len() - k,
{
    if k < 0 || k >= path.len() {
        path.len() as int
    } else if (path[k] == SLASH) != slashes {
        k
    } else {
        run_end(path, k + 1, slashes)
    }
}

/// Where the first element of `path` starts: behind the leading slashes.
pub open spec fn elem_start(path: Seq<u8>) -> int {
    run_end(path, 0, true)
}

/// Where the first element of `path` ends: at the next slash or at the end.
pub open spec fn elem_end(path: Seq<u8>) -> int {
    run_end(path, elem_start(path), false)
}

/// `path` has an element: it is not made of slashes alone.
pub open spec fn has_elem(path: Seq<u8>) -> bool {
    elem_start(path) < path.len()
}

/// The first element of `path`, cut to `DIRSIZ` bytes.
pub open spec fn first_elem(path: Seq<u8>) -> Seq<u8> {
    if elem_end(path) - elem_start(path) > DIRSIZ {
        path.subrange(elem_start(path), elem_start(path) + DIRSIZ as int)
    } else {
        path.subrange(elem_start(path), elem_end(path))
    }
}

/// What follows the first element of `path`, without leading slashes.
pub open spec fn after_first_elem(path: Seq<u8>) -> Seq<u8> {
    path.subrange(run_end(path, elem_end(path), true), path.len() as int)
}

/// Whether `path` starts at the root directory.
pub fn is_absolute(path: &[u8]) -> (r: bool)
    ensures
        r == (path@.len() > 0 && path@[0] == SLASH),
{
    path.len() > 0 && path[0] == SLASH
}

/// Walks from `k` over a run of slashes (with `slashes` set) or of other
/// bytes (with `slashes` unset).
fn skip_run(path: &[u8], k: usize, slashes: bool) -> (r: usize)
    requires
        k <= path@.len(),
    ensures
        r == run_end(path@, k as int, slashes),
        k <= r <= path@.len(),
{
    let mut i = k;
    while i < path.len() && (path[i] == SLASH) == slashes
        invariant
            k <= i <= path@.len(),
            run_end(path@, k as int, slashes) == run_end(path@, i as int, slashes),
        decreases path@.len() - i,
    {
        i += 1;
    }
    i
}

/// Splits the first element off `path`. The result is what follows the
/// element, without leading slashes, and the element itself, cut to `DIRSIZ`
/// bytes; an empty first part tells that the element was the last one. The
/// result is `None` if `path` has no element.
pub fn skipelem(path: &[u8]) -> (r: Option<(&[u8], &[u8])>)
    ensures
        r is Some <==> has_elem(path@),
        r matches Some((rest, name)) ==> rest@ == after_first_elem(path@) && name@ == first_elem(
            path@,
        ),
{
    let start = skip_run(path, 0, true);
    if start == path.len() {
        return None;
    }
    let end = skip_run(path, start, false);
    let rest_start = skip_run(path, end, true);
    let name_end = if end - start > DIRSIZ {
        start + DIRSIZ
    } else {
        end
    };
    let name = slice_subrange(path, start, name_end);
    let rest = slice_subrange(path, rest_start, path.len());
    Some((rest, name))
}

/// The first element of a path is not empty, holds no slash, and is at most
/// `DIRSIZ` bytes long; what follows it does not start with a slash.
pub proof fn lemma_first_elem(path: Seq<u8>)
    requires
        has_elem(path),
    ensures
        0 < first_elem(path).len() <= DIRSIZ,
        forall|i: int| 0 <= i < first_elem(path).len() ==> first_elem(path)[i] != SLASH,
        after_first_elem(path).len() > 0 ==> after_first_elem(path)[0] != SLASH,
        after_first_elem(path).len() < path.len(),
{
    let start = elem_start(path);
    lemma_run(path, 0, true);
    lemma_run(path, start, false);
    let end = elem_end(path);
    lemma_run(path, end, true);
}

/// A run ends inside the path or at its end, every byte before its end is
/// of the run's kind, and the byte at its end is not.
pub proof fn lemma_run(path: Seq<u8>, k: int, slashes: bool)
    requires
        0 <= k <= path.len(),
    ensures
        k <= run_end(path, k, slashes) <= path.len(),
        forall|i: int| k <= i < run_end(path, k, slashes) ==> (path[i] == SLASH) == slashes,
        run_end(path, k, slashes) < path.len() ==> (path[run_end(path, k, slashes)] == SLASH)
            != slashes,
    decreases path.len() - k,
{
    if k < path.len() && (path[k] == SLASH) == slashes {
        lemma_run(path, k + 1, slashes);
    }
}

} // verus!
