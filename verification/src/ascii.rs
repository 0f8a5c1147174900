//! Byte constants of the header syntax, ASCII predicates, and the one trusted
//! conversion from ASCII bytes to a `String`.

use vstd::prelude::*;

verus! {

/// `$`, the first byte of every header line.
pub const DOLLAR: u8 = 0x24;

/// `*`, the separator between a line's payload and its checksum.
pub const STAR: u8 = 0x2a;

/// `,`, the field delimiter inside a line's payload.
pub const COMMA: u8 = 0x2c;

/// Line feed, the header's line terminator.
pub const NEWLINE: u8 = 0x0a;

/// Carriage return, tolerated immediately before a line feed.
pub const CARRIAGE_RETURN: u8 = 0x0d;

/// True of a byte in the US-ASCII range.
pub open spec fn byte_is_ascii(b: u8) -> bool {
    b < 0x80
}

/// True of a byte sequence made only of US-ASCII bytes.
pub open spec fn bytes_are_ascii(s: Seq<u8>) -> bool {
    forall|i: int| 0 <= i < s.len() ==> byte_is_ascii(s[i])
}

/// True when `cs` is `bs` read as ASCII text: the same length, and each
/// character's scalar value is the byte at the same position.
pub open spec fn ascii_chars_match(bs: Seq<u8>, cs: Seq<char>) -> bool {
    &&& cs.len() == bs.len()
    &&& forall|i: int| 0 <= i < bs.len() ==> (#[trigger] cs[i]) as u32 == bs[i] as u32
}

/// Reports whether every byte of `s` is US-ASCII.
pub fn all_ascii(s: &[u8]) -> (r: bool)
    ensures
        r == bytes_are_ascii(s@),
{
    let mut i: usize = 0;
    while i < s.len()
        invariant
            0 <= i <= s@.len(),
            forall|j: int| 0 <= j < i ==> byte_is_ascii(s@[j]),
        decreases s@.len() - i,
    {
        if s[i] >= 0x80 {
            return false;
        }
        i = i + 1;
    }
    true
}

/// The first occurrence of `b` in `s` at or after position `i`, if any.
pub open spec fn find_byte_from(s: Seq<u8>, b: u8, i: int) -> Option<int>
    decreases s.len() - i,
{
    if i < s.len() {
        if s[i] == b {
            Some(i)
        } else {
            find_byte_from(s, b, i + 1)
        }
    } else {
        None
    }
}

/// The first occurrence of `b` in `s`, if any.
pub open spec fn find_byte(s: Seq<u8>, b: u8) -> Option<int> {
    find_byte_from(s, b, 0)
}

/// `find_byte_from` returns exactly the least occurrence at or after `i`.
pub proof fn lemma_find_byte_from_props(s: Seq<u8>, b: u8, i: int)
    requires
        0 <= i,
    ensures
        match find_byte_from(s, b, i) {
            Some(p) => {
                &&& i <= p < s.len()
                &&& s[p] == b
                &&& forall|j: int| i <= j < p ==> s[j] != b
            },
            None => forall|j: int| i <= j < s.len() ==> s[j] != b,
        },
    decreases s.len() - i,
{
    if i < s.len() && s[i] != b {
        lemma_find_byte_from_props(s, b, i + 1);
    }
}

/// An occurrence of `b` with no occurrence before it is what `find_byte`
/// finds.
pub proof fn lemma_find_byte_unique(s: Seq<u8>, b: u8, k: int)
    requires
        0 <= k < s.len(),
        s[k] == b,
        forall|j: int| 0 <= j < k ==> s[j] != b,
    ensures
        find_byte(s, b) == Some(k),
{
    lemma_find_byte_from_props(s, b, 0);
    match find_byte(s, b) {
        Some(p) => {
            if p < k {
                assert(s[p] != b);
            }
            if k < p {
                assert(s[k] != b);
            }
        },
        None => {
            assert(s[k] != b);
        },
    }
}

/// Scans `s` for the first occurrence of the byte `b`.
pub fn find_byte_in(s: &[u8], b: u8) -> (r: Option<usize>)
    ensures
        match r {
            Some(p) => find_byte(s@, b) == Some(p as int),
            None => find_byte(s@, b) is None,
        },
{
    let mut i: usize = 0;
    while i < s.len()
        invariant
            0 <= i <= s@.len(),
            find_byte(s@, b) == find_byte_from(s@, b, i as int),
        decreases s@.len() - i,
    {
        if s[i] == b {
            return Some(i);
        }
        i = i + 1;
    }
    None
}

/// Relies on `String::from_utf8`: ASCII bytes are valid UTF-8 and decode to
/// one character per byte, each with the byte's own scalar value.
#[verifier::external_body]
pub(crate) fn string_from_ascii(b: &Vec<u8>) -> (r: String)
    requires
        bytes_are_ascii(b@),
    ensures
        ascii_chars_match(b@, r@),
{
    match String::from_utf8(b.clone()) {
        Ok(s) => s,
        Err(_) => String::new(),
    }
}

} // verus!
