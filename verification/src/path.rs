//! Paths of archive entries: byte strings whose segments are parted by
//! slashes. An entry is moved from the old package directory to the new one,
//! and is routed by its file name and by where it lies in the package.

use crate::error::{Error, Failure};
use crate::text::{matches_at, occurs_at, push_all, same_bytes, DOT, SLASH};
use vstd::prelude::*;
use vstd::slice::{slice_subrange, slice_to_vec};

verus! {

/// The file name of a manifest: `Cargo.toml`.
pub open spec fn manifest_file_name() -> Seq<u8> {
    seq![0x43u8, 0x61u8, 0x72u8, 0x67u8, 0x6fu8, 0x2eu8, 0x74u8, 0x6fu8, 0x6du8, 0x6cu8]
}

/// The end of a source file's name: `.rs`.
pub open spec fn source_suffix() -> Seq<u8> {
    seq![0x2eu8, 0x72u8, 0x73u8]
}

/// The directory of the library's own source: `src`.
pub open spec fn library_dir() -> Seq<u8> {
    seq![0x73u8, 0x72u8, 0x63u8]
}

/// True when `path` is `base` or goes on behind `base` with a slash, so that
/// `base` is made of whole segments at the front of `path`.
pub open spec fn lies_under(path: Seq<u8>, base: Seq<u8>) -> bool {
    occurs_at(path, base, 0) && (path.len() == base.len() || path[base.len() as int] == SLASH)
}

/// `path` with `new_base` in place of the `base` at its front.
pub open spec fn moved(path: Seq<u8>, base: Seq<u8>, new_base: Seq<u8>) -> Seq<u8> {
    new_base + path.subrange(base.len() as int, path.len() as int)
}

/// The length of `path` without the empty and `.` segments at its end.
pub open spec fn trimmed_len(path: Seq<u8>) -> int
    decreases path.len(),
{
    if path.len() == 0 {
        0
    } else if path.last() == SLASH {
        trimmed_len(path.drop_last())
    } else if path.last() == DOT && (path.len() == 1 || path[path.len() - 2] == SLASH) {
        trimmed_len(path.drop_last())
    } else {
        path.len() as int
    }
}

/// The index at which the last segment of `path` begins: behind the last
/// slash, or at the front.
pub open spec fn segment_start(path: Seq<u8>) -> int
    decreases path.len(),
{
    if path.len() == 0 || path.last() == SLASH {
        path.len() as int
    } else {
        segment_start(path.drop_last())
    }
}

/// The index at which the first segment of `path` ends: at the first slash,
/// or at the end.
pub open spec fn segment_end(path: Seq<u8>) -> int
    decreases path.len(),
{
    if path.len() == 0 || path[0] == SLASH {
        0
    } else {
        1 + segment_end(path.drop_first())
    }
}

/// The file name of `path`: its last segment, where the empty and `.`
/// segments at the end do not count. A path that ends in `..`, or has no
/// segment that counts, has no file name.
pub open spec fn file_name(path: Seq<u8>) -> Option<Seq<u8>> {
    let head = path.subrange(0, trimmed_len(path));
    let name = head.subrange(segment_start(head), head.len() as int);
    if name.len() == 0 || name == seq![DOT, DOT] {
        None
    } else {
        Some(name)
    }
}

/// The first segment of `path`, where the empty and `.` segments at the
/// front do not count. It is empty where no segment counts.
pub open spec fn first_segment(path: Seq<u8>) -> Seq<u8>
    decreases path.len(),
{
    if path.len() == 0 {
        path
    } else if path[0] == SLASH {
        first_segment(path.drop_first())
    } else if path[0] == DOT && (path.len() == 1 || path[1] == SLASH) {
        first_segment(path.drop_first())
    } else {
        path.subrange(0, segment_end(path))
    }
}

/// True when the file name of `path` is that of a manifest.
pub open spec fn is_manifest(path: Seq<u8>) -> bool {
    file_name(path) == Some(manifest_file_name())
}

/// True when the file name of `path` is that of a source file: it ends in
/// `.rs`, and something stands before that.
pub open spec fn is_source(path: Seq<u8>) -> bool {
    match file_name(path) {
        Some(name) => name.len() > 3 && occurs_at(name, source_suffix(), name.len() - 3),
        None => false,
    }
}

/// True when `inner`, a path inside the package, leads into the directory of
/// the library's own source.
pub open spec fn in_library_source(inner: Seq<u8>) -> bool {
    first_segment(inner) == library_dir()
}

/// What is done with an entry of the archive.
#[derive(Debug, Clone, Copy, PartialEq, Eq, Structural)]
pub enum Route {
    /// The entry is the manifest: the package is renamed in it.
    Manifest,
    /// The entry is a source file outside the library: what it says of the
    /// old crate is rewritten.
    Source,
    /// The entry is kept as it is.
    Passthrough,
}

/// The route of the entry at `path`, whose first `root` bytes name the
/// package directory.
pub open spec fn routed(path: Seq<u8>, root: int) -> Route {
    if is_manifest(path) {
        Route::Manifest
    } else if !in_library_source(path.subrange(root, path.len() as int)) && is_source(path) {
        Route::Source
    } else {
        Route::Passthrough
    }
}

/// Where an entry at `path` goes: to the same place under `new_base`. An
/// entry that does not lie under `base` has no place in the package.
pub open spec fn rewritten_path(path: Seq<u8>, base: Seq<u8>, new_base: Seq<u8>) -> Result<
    Seq<u8>,
    Failure,
> {
    if lies_under(path, base) {
        Ok(moved(path, base, new_base))
    } else {
        Err(Failure::EntryOutsidePackageRoot { path })
    }
}

/// Moves `path` from under `base` to under `new_base`.
pub fn rewrite_path(path: &[u8], base: &[u8], new_base: &[u8]) -> (rewritten: Result<Vec<u8>, Error>)
    ensures
        match rewritten_path(path@, base@, new_base@) {
            Ok(target) => rewritten matches Ok(p) && p@ == target,
            Err(failure) => rewritten matches Err(e) && e@ == failure,
        },
{
    if matches_at(path, base, 0) && (path.len() == base.len() || path[base.len()] == SLASH) {
        let mut target: Vec<u8> = Vec::new();
        push_all(&mut target, new_base);
        push_all(&mut target, slice_subrange(path, base.len(), path.len()));
        Ok(target)
    } else {
        Err(Error::EntryOutsidePackageRoot { path: slice_to_vec(path) })
    }
}

/// The length of `path` without the empty and `.` segments at its end.
fn trim_end(path: &[u8]) -> (end: usize)
    ensures
        end == trimmed_len(path@),
        end <= path@.len(),
{
    let mut end: usize = path.len();
    assert(path@.subrange(0, end as int) =~= path@);
    while end > 0
        invariant
            end <= path@.len(),
            trimmed_len(path@) == trimmed_len(path@.subrange(0, end as int)),
        decreases end,
    {
        let ghost head = path@.subrange(0, end as int);
        assert(head.drop_last() =~= path@.subrange(0, end - 1));
        assert(head.last() == path@[end - 1]);
        let last = path[end - 1];
        if last == SLASH {
            end -= 1;
        } else if last == DOT && (end == 1 || path[end - 2] == SLASH) {
            assert(end > 1 ==> head[head.len() - 2] == path@[end - 2]);
            end -= 1;
        } else {
            assert(end > 1 ==> head[head.len() - 2] == path@[end - 2]);
            return end;
        }
    }
    end
}

/// The index at which the segment that ends at `end` begins.
fn last_segment_start(path: &[u8], end: usize) -> (start: usize)
    requires
        end <= path@.len(),
    ensures
        start == segment_start(path@.subrange(0, end as int)),
        start <= end,
{
    let mut start: usize = end;
    while start > 0 && path[start - 1] != SLASH
        invariant
            start <= end <= path@.len(),
            segment_start(path@.subrange(0, end as int)) == segment_start(
                path@.subrange(0, start as int),
            ),
        decreases start,
    {
        let ghost head = path@.subrange(0, start as int);
        assert(head.drop_last() =~= path@.subrange(0, start - 1));
        assert(head.last() == path@[start - 1]);
        start -= 1;
    }
    proof {
        let head = path@.subrange(0, start as int);
        if start > 0 {
            assert(head.last() == path@[start - 1]);
        }
    }
    start
}

/// The index at which the segment that begins at `start` ends.
fn first_segment_end(path: &[u8], start: usize) -> (end: usize)
    requires
        start <= path@.len(),
    ensures
        end == start + segment_end(path@.subrange(start as int, path@.len() as int)),
        start <= end <= path@.len(),
{
    let ghost len = path@.len() as int;
    let mut at: usize = start;
    while at < path.len() && path[at] != SLASH
        invariant
            start <= at <= path@.len(),
            len == path@.len(),
            segment_end(path@.subrange(start as int, len)) == (at - start) + segment_end(
                path@.subrange(at as int, len),
            ),
        decreases path@.len() - at,
    {
        let ghost tail = path@.subrange(at as int, len);
        assert(tail[0] == path@[at as int]);
        assert(tail.drop_first() =~= path@.subrange(at + 1, len));
        at += 1;
    }
    proof {
        let tail = path@.subrange(at as int, len);
        if at < len {
            assert(tail[0] == path@[at as int]);
        }
    }
    at
}

/// The file name of `path`, if it has one.
pub fn path_file_name(path: &[u8]) -> (name: Option<&[u8]>)
    ensures
        match name {
            Some(n) => file_name(path@) == Some(n@),
            None => file_name(path@) is None,
        },
{
    let end = trim_end(path);
    let start = last_segment_start(path, end);
    let name = slice_subrange(path, start, end);
    proof {
        let head = path@.subrange(0, end as int);
        assert(head.subrange(start as int, head.len() as int) =~= name@);
    }
    if name.len() == 0 || (name.len() == 2 && name[0] == DOT && name[1] == DOT) {
        proof {
            if name@.len() == 2 {
                assert(name@ =~= seq![DOT, DOT]);
            }
        }
        None
    } else {
        proof {
            if name@ == seq![DOT, DOT] {
                assert(seq![DOT, DOT].len() == 2);
                assert(seq![DOT, DOT][0] == DOT);
                assert(seq![DOT, DOT][1] == DOT);
            }
        }
        Some(name)
    }
}

/// The first segment of `path` that counts; empty where there is none.
pub fn path_first_segment(path: &[u8]) -> (segment: &[u8])
    ensures
        segment@ == first_segment(path@),
{
    let ghost len = path@.len() as int;
    let mut at: usize = 0;
    assert(path@.subrange(0, len) =~= path@);
    while at < path.len()
        invariant
            at <= path@.len(),
            len == path@.len(),
            first_segment(path@) == first_segment(path@.subrange(at as int, len)),
        decreases path@.len() - at,
    {
        let ghost tail = path@.subrange(at as int, len);
        assert(tail[0] == path@[at as int]);
        assert(tail.drop_first() =~= path@.subrange(at + 1, len));
        assert(at + 1 < len ==> tail[1] == path@[at + 1]);
        let byte = path[at];
        if byte == SLASH {
            at += 1;
        } else if byte == DOT && (at + 1 == path.len() || path[at + 1] == SLASH) {
            at += 1;
        } else {
            let end = first_segment_end(path, at);
            let segment = slice_subrange(path, at, end);
            assert(tail.subrange(0, segment_end(tail)) =~= segment@);
            return segment;
        }
    }
    let segment = slice_subrange(path, at, at);
    assert(segment@ =~= path@.subrange(at as int, len));
    segment
}

/// The route of the entry at `path`, whose first `root` bytes name the
/// package directory.
pub fn route(path: &[u8], root: usize) -> (chosen: Route)
    requires
        root <= path@.len(),
    ensures
        chosen == routed(path@, root as int),
{
    let manifest: [u8; 10] = [0x43, 0x61, 0x72, 0x67, 0x6f, 0x2e, 0x74, 0x6f, 0x6d, 0x6c];
    let suffix: [u8; 3] = [0x2e, 0x72, 0x73];
    let library: [u8; 3] = [0x73, 0x72, 0x63];
    assert(manifest@ =~= manifest_file_name());
    assert(suffix@ =~= source_suffix());
    assert(library@ =~= library_dir());
    match path_file_name(path) {
        Some(name) => {
            if same_bytes(name, manifest.as_slice()) {
                Route::Manifest
            } else if name.len() > 3 && matches_at(name, suffix.as_slice(), name.len() - 3) {
                let inner = slice_subrange(path, root, path.len());
                if same_bytes(path_first_segment(inner), library.as_slice()) {
                    Route::Passthrough
                } else {
                    Route::Source
                }
            } else {
                Route::Passthrough
            }
        },
        None => Route::Passthrough,
    }
}

} // verus!
