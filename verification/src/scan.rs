//! Header boundary scanner: finds where the ASCII header ends and the binary
//! body begins.

use vstd::prelude::*;
use crate::ascii::{DOLLAR, NEWLINE};
use crate::errors::FormatError;

verus! {

/// True when position `i` of `bytes` is an ASCII-to-binary transition: a line
/// feed whose immediate successor is not `$`.
pub open spec fn boundary_at(bytes: Seq<u8>, i: int) -> bool {
    &&& 0 <= i
    &&& i + 1 < bytes.len()
    &&& bytes[i] == NEWLINE
    &&& bytes[i + 1] != DOLLAR
}

/// The first transition at or after position `i`, if any.
pub open spec fn boundary_from(bytes: Seq<u8>, i: int) -> Option<int>
    decreases bytes.len() - i,
{
    if i + 1 < bytes.len() {
        if bytes[i] == NEWLINE && bytes[i + 1] != DOLLAR {
            Some(i)
        } else {
            boundary_from(bytes, i + 1)
        }
    } else {
        None
    }
}

/// The end of the header region: the offset of the first line feed that is
/// immediately followed by a non-`$` byte, if any. Bytes before it are the
/// header; bytes at and after it are the opaque binary body.
pub open spec fn header_boundary(bytes: Seq<u8>) -> Option<int> {
    boundary_from(bytes, 0)
}

/// `boundary_from` returns exactly the least transition at or after `i`.
pub proof fn lemma_boundary_from_props(bytes: Seq<u8>, i: int)
    requires
        0 <= i,
    ensures
        match boundary_from(bytes, i) {
            Some(b) => {
                &&& i <= b
                &&& boundary_at(bytes, b)
                &&& forall|j: int| i <= j < b ==> !boundary_at(bytes, j)
            },
            None => forall|j: int| i <= j ==> !boundary_at(bytes, j),
        },
    decreases bytes.len() - i,
{
    if i + 1 < bytes.len() {
        if !(bytes[i] == NEWLINE && bytes[i + 1] != DOLLAR) {
            lemma_boundary_from_props(bytes, i + 1);
        }
    }
}

/// A transition with no transition before it is what `header_boundary` finds.
pub proof fn lemma_header_boundary_unique(bytes: Seq<u8>, k: int)
    requires
        boundary_at(bytes, k),
        forall|j: int| 0 <= j < k ==> !boundary_at(bytes, j),
    ensures
        header_boundary(bytes) == Some(k),
{
    lemma_boundary_from_props(bytes, 0);
    match boundary_from(bytes, 0) {
        Some(b) => {
            if b < k {
                assert(!boundary_at(bytes, b));
            }
            if k < b {
                assert(!boundary_at(bytes, k));
            }
        },
        None => {
            assert(!boundary_at(bytes, k));
        },
    }
}

/// True of one well-formed header line as the scanner sees it: non-empty,
/// beginning with `$`, containing no line feed.
pub open spec fn header_line_shape(l: Seq<u8>) -> bool {
    &&& l.len() >= 1
    &&& l[0] == DOLLAR
    &&& forall|j: int| 0 <= j < l.len() ==> l[j] != NEWLINE
}

/// The byte layout of a run of header lines, each terminated by a line feed.
pub open spec fn terminated_lines(lines: Seq<Seq<u8>>) -> Seq<u8>
    decreases lines.len(),
{
    if lines.len() == 0 {
        Seq::empty()
    } else {
        (lines.first() + seq![NEWLINE]) + terminated_lines(lines.drop_first())
    }
}

/// In a run of well-formed header lines, every line feed but the final one is
/// immediately followed by a `$`, and the run ends in a line feed.
proof fn lemma_terminated_lines_structure(lines: Seq<Seq<u8>>)
    requires
        forall|k: int| 0 <= k < lines.len() ==> header_line_shape(#[trigger] lines[k]),
    ensures
        lines.len() > 0 ==> terminated_lines(lines).len() >= 2,
        lines.len() > 0 ==> terminated_lines(lines).last() == NEWLINE,
        forall|j: int|
            0 <= j < terminated_lines(lines).len() - 1 && #[trigger] terminated_lines(lines)[j]
                == NEWLINE ==> terminated_lines(lines)[j + 1] == DOLLAR,
    decreases lines.len(),
{
    if lines.len() > 0 {
        let head = lines.first();
        let rest = lines.drop_first();
        let bufr = terminated_lines(rest);
        let buf = terminated_lines(lines);
        assert(forall|k: int| 0 <= k < rest.len() ==> rest[k] == lines[k + 1]);
        lemma_terminated_lines_structure(rest);
        assert(header_line_shape(head));
        if rest.len() > 0 {
            assert(bufr[0] == rest.first()[0]);
            assert(bufr[0] == DOLLAR);
        }
        assert forall|j: int| 0 <= j < buf.len() - 1 && #[trigger] buf[j] == NEWLINE implies buf[j
            + 1] == DOLLAR by {
            if j < head.len() {
                assert(buf[j] == head[j]);
            } else if j == head.len() {
                assert(buf[j + 1] == bufr[0]);
            } else {
                assert(buf[j] == bufr[j - head.len() - 1]);
                assert(buf[j + 1] == bufr[j - head.len()]);
            }
        }
        if rest.len() > 0 {
            assert(buf.last() == bufr.last());
        } else {
            assert(buf.last() == NEWLINE);
        }
    }
}

/// Boundary determinism: a buffer of one or more well-formed header lines,
/// each terminated by a line feed, followed by anything that does not begin
/// with `$`, has its header boundary exactly at the final line feed — the one
/// immediately preceding the first non-header byte.
pub proof fn lemma_boundary_after_header_lines(lines: Seq<Seq<u8>>, tail: Seq<u8>)
    requires
        lines.len() >= 1,
        forall|k: int| 0 <= k < lines.len() ==> header_line_shape(#[trigger] lines[k]),
        tail.len() >= 1,
        tail[0] != DOLLAR,
    ensures
        header_boundary(terminated_lines(lines) + tail) == Some(
            terminated_lines(lines).len() - 1,
        ),
{
    let buf = terminated_lines(lines);
    let full = buf + tail;
    lemma_terminated_lines_structure(lines);
    assert(full[buf.len() - 1] == buf.last());
    assert(full[buf.len() as int] == tail[0]);
    assert(boundary_at(full, buf.len() - 1));
    assert forall|j: int| 0 <= j < buf.len() - 1 implies !boundary_at(full, j) by {
        if full[j] == NEWLINE {
            assert(buf[j] == NEWLINE);
            assert(buf[j + 1] == DOLLAR);
            assert(full[j + 1] == DOLLAR);
        }
    }
    lemma_header_boundary_unique(full, buf.len() - 1);
}

/// Scans `bytes` for the end of the header region.
///
/// Returns the offset of the first line feed immediately followed by a byte
/// other than `$`, or `FormatError::NoHeaderTerminator` when no such
/// transition exists before the buffer ends.
pub fn find_header_end(bytes: &[u8]) -> (r: Result<usize, FormatError>)
    ensures
        match r {
            Ok(i) => header_boundary(bytes@) == Some(i as int),
            Err(e) => {
                &&& e == FormatError::NoHeaderTerminator
                &&& header_boundary(bytes@) is None
            },
        },
{
    let n = bytes.len();
    if n == 0 {
        return Err(FormatError::NoHeaderTerminator);
    }
    let mut i: usize = 0;
    while i < n - 1
        invariant
            n == bytes@.len(),
            1 <= n,
            0 <= i <= n - 1,
            boundary_from(bytes@, 0) == boundary_from(bytes@, i as int),
        decreases n - i,
    {
        if bytes[i] == NEWLINE && bytes[i + 1] != DOLLAR {
            return Ok(i);
        }
        i = i + 1;
    }
    Err(FormatError::NoHeaderTerminator)
}

} // verus!
