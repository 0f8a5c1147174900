//! Line tokenizer: strips the checksum suffix, splits the payload on commas,
//! trims each token, and discards the leading `$<tag>` token.

use vstd::prelude::*;
use crate::ascii::{
    byte_is_ascii, bytes_are_ascii, find_byte_in, lemma_find_byte_from_props, COMMA, STAR,
};
use crate::checksum::{checksum_delimited, star_index};

verus! {

/// The pieces of `s` between occurrences of `sep`, in order, preserving empty
/// pieces. An empty input has one empty piece, matching the splitting of
/// ordinary string libraries.
pub open spec fn split_on(s: Seq<u8>, sep: u8) -> Seq<Seq<u8>>
    decreases s.len(),
{
    if s.len() == 0 {
        seq![Seq::<u8>::empty()]
    } else if s[0] == sep {
        seq![Seq::<u8>::empty()] + split_on(s.drop_first(), sep)
    } else {
        let rest = split_on(s.drop_first(), sep);
        seq![seq![s[0]] + rest[0]] + rest.drop_first()
    }
}

/// Splitting always yields at least one piece.
pub proof fn lemma_split_on_nonempty(s: Seq<u8>, sep: u8)
    ensures
        split_on(s, sep).len() >= 1,
    decreases s.len(),
{
    if s.len() != 0 {
        lemma_split_on_nonempty(s.drop_first(), sep);
    }
}

/// Appending one byte either starts a fresh piece (a separator) or extends the
/// last piece (anything else).
pub proof fn lemma_split_on_push(s: Seq<u8>, sep: u8, b: u8)
    ensures
        b == sep ==> split_on(s.push(b), sep) == split_on(s, sep).push(Seq::<u8>::empty()),
        b != sep ==> split_on(s.push(b), sep) == split_on(s, sep).update(
            split_on(s, sep).len() - 1,
            split_on(s, sep).last().push(b),
        ),
    decreases s.len(),
{
    lemma_split_on_nonempty(s, sep);
    let parts = split_on(s, sep);
    if s.len() == 0 {
        assert(s.push(b).drop_first() =~= Seq::<u8>::empty());
        assert(s.push(b)[0] == b);
        if b == sep {
            assert(split_on(s.push(b), sep) == seq![Seq::<u8>::empty()] + split_on(
                s.push(b).drop_first(),
                sep,
            ));
            assert(split_on(s.push(b), sep) =~~= parts.push(Seq::<u8>::empty()));
        } else {
            assert(seq![s.push(b)[0]] + split_on(Seq::<u8>::empty(), sep)[0] =~= seq![b]);
            assert(split_on(s.push(b), sep) =~~= parts.update(0, parts.last().push(b)));
        }
    } else {
        let tail = s.drop_first();
        assert(s.push(b).drop_first() =~= tail.push(b));
        lemma_split_on_push(tail, sep, b);
        lemma_split_on_nonempty(tail, sep);
        let rest = split_on(tail, sep);
        if s[0] == sep {
            if b == sep {
                assert(split_on(s.push(b), sep) =~~= parts.push(Seq::<u8>::empty()));
            } else {
                assert(split_on(s.push(b), sep) =~~= parts.update(
                    parts.len() - 1,
                    parts.last().push(b),
                ));
            }
        } else {
            if b == sep {
                assert(split_on(tail.push(b), sep)[0] =~= rest[0]);
                assert(split_on(s.push(b), sep) =~~= parts.push(Seq::<u8>::empty()));
            } else {
                if rest.len() == 1 {
                    assert(split_on(tail.push(b), sep)[0] =~= rest[0].push(b));
                    assert(seq![s[0]] + rest[0].push(b) =~= (seq![s[0]] + rest[0]).push(b));
                    assert(split_on(s.push(b), sep) =~~= parts.update(
                        parts.len() - 1,
                        parts.last().push(b),
                    ));
                } else {
                    assert(split_on(tail.push(b), sep)[0] =~= rest[0]);
                    assert(split_on(s.push(b), sep) =~~= parts.update(
                        parts.len() - 1,
                        parts.last().push(b),
                    ));
                }
            }
        }
    }
}

/// True of the ASCII whitespace bytes: space, tab, line feed, vertical tab,
/// form feed, carriage return.
pub open spec fn is_ascii_space(b: u8) -> bool {
    b == 0x20 || (0x09 <= b <= 0x0d)
}

/// `s` without its leading whitespace.
pub open spec fn trim_front(s: Seq<u8>) -> Seq<u8>
    decreases s.len(),
{
    if s.len() > 0 && is_ascii_space(s[0]) {
        trim_front(s.drop_first())
    } else {
        s
    }
}

/// `s` without its trailing whitespace.
pub open spec fn trim_back(s: Seq<u8>) -> Seq<u8>
    decreases s.len(),
{
    if s.len() > 0 && is_ascii_space(s.last()) {
        trim_back(s.drop_last())
    } else {
        s
    }
}

/// `s` without surrounding whitespace.
pub open spec fn trimmed(s: Seq<u8>) -> Seq<u8> {
    trim_back(trim_front(s))
}

/// The field tokens of a checksum-delimited header line: the payload before
/// the `*`, split on commas, each piece trimmed, with the leading `$<tag>`
/// piece discarded.
pub open spec fn line_tokens(line: Seq<u8>) -> Seq<Seq<u8>>
    recommends
        checksum_delimited(line),
{
    split_on(line.subrange(0, star_index(line)), COMMA).drop_first().map_values(
        |t: Seq<u8>| trimmed(t),
    )
}

/// Splitting ASCII bytes yields ASCII pieces.
pub proof fn lemma_split_on_ascii(s: Seq<u8>, sep: u8)
    requires
        bytes_are_ascii(s),
    ensures
        forall|k: int|
            0 <= k < split_on(s, sep).len() ==> bytes_are_ascii(#[trigger] split_on(s, sep)[k]),
    decreases s.len(),
{
    if s.len() == 0 {
        assert(bytes_are_ascii(Seq::<u8>::empty()));
    } else {
        let tail = s.drop_first();
        assert(bytes_are_ascii(tail)) by {
            assert(forall|j: int| 0 <= j < tail.len() ==> tail[j] == s[j + 1]);
        }
        lemma_split_on_ascii(tail, sep);
        lemma_split_on_nonempty(tail, sep);
        let rest = split_on(tail, sep);
        let parts = split_on(s, sep);
        if s[0] == sep {
            assert forall|k: int| 0 <= k < parts.len() implies bytes_are_ascii(parts[k]) by {
                if k == 0 {
                    assert(bytes_are_ascii(Seq::<u8>::empty()));
                } else {
                    assert(parts[k] == rest[k - 1]);
                }
            }
        } else {
            assert forall|k: int| 0 <= k < parts.len() implies bytes_are_ascii(parts[k]) by {
                if k == 0 {
                    let head = seq![s[0]] + rest[0];
                    assert forall|j: int| 0 <= j < head.len() implies byte_is_ascii(head[j]) by {
                        if j == 0 {
                            assert(head[0] == s[0]);
                        } else {
                            assert(head[j] == rest[0][j - 1]);
                        }
                    }
                } else {
                    assert(parts[k] == rest.drop_first()[k - 1]);
                    assert(rest.drop_first()[k - 1] == rest[k]);
                }
            }
        }
    }
}

/// Dropping leading whitespace keeps bytes ASCII.
proof fn lemma_trim_front_ascii(s: Seq<u8>)
    requires
        bytes_are_ascii(s),
    ensures
        bytes_are_ascii(trim_front(s)),
    decreases s.len(),
{
    if s.len() > 0 && is_ascii_space(s[0]) {
        let tail = s.drop_first();
        assert(bytes_are_ascii(tail)) by {
            assert(forall|j: int| 0 <= j < tail.len() ==> tail[j] == s[j + 1]);
        }
        lemma_trim_front_ascii(tail);
    }
}

/// Dropping trailing whitespace keeps bytes ASCII.
proof fn lemma_trim_back_ascii(s: Seq<u8>)
    requires
        bytes_are_ascii(s),
    ensures
        bytes_are_ascii(trim_back(s)),
    decreases s.len(),
{
    if s.len() > 0 && is_ascii_space(s.last()) {
        let front = s.drop_last();
        assert(bytes_are_ascii(front)) by {
            assert(forall|j: int| 0 <= j < front.len() ==> front[j] == s[j]);
        }
        lemma_trim_back_ascii(front);
    }
}

/// Trimming keeps bytes ASCII.
pub proof fn lemma_trimmed_ascii(s: Seq<u8>)
    requires
        bytes_are_ascii(s),
    ensures
        bytes_are_ascii(trimmed(s)),
{
    lemma_trim_front_ascii(s);
    lemma_trim_back_ascii(trim_front(s));
}

/// The tokens of an ASCII line are ASCII.
pub proof fn lemma_line_tokens_ascii(line: Seq<u8>)
    requires
        bytes_are_ascii(line),
        checksum_delimited(line),
    ensures
        forall|k: int|
            0 <= k < line_tokens(line).len() ==> bytes_are_ascii(#[trigger] line_tokens(line)[k]),
{
    lemma_find_byte_from_props(line, STAR, 0);
    let p = star_index(line);
    let payload = line.subrange(0, p);
    assert(bytes_are_ascii(payload)) by {
        assert(forall|j: int| 0 <= j < payload.len() ==> payload[j] == line[j]);
    }
    lemma_split_on_ascii(payload, COMMA);
    lemma_split_on_nonempty(payload, COMMA);
    let pieces = split_on(payload, COMMA);
    assert forall|k: int| 0 <= k < line_tokens(line).len() implies bytes_are_ascii(
        line_tokens(line)[k],
    ) by {
        assert(line_tokens(line)[k] == trimmed(pieces.drop_first()[k]));
        assert(pieces.drop_first()[k] == pieces[k + 1]);
        lemma_trimmed_ascii(pieces[k + 1]);
    }
}

/// Reports whether `b` is an ASCII whitespace byte.
pub fn is_space_byte(b: u8) -> (r: bool)
    ensures
        r == is_ascii_space(b),
{
    b == 0x20 || (0x09 <= b && b <= 0x0d)
}

/// Copies `t` without its surrounding ASCII whitespace.
pub fn trim_token(t: &[u8]) -> (r: Vec<u8>)
    ensures
        r@ == trimmed(t@),
{
    let n = t.len();
    let mut lo: usize = 0;
    proof {
        assert(t@.skip(0) =~= t@);
    }
    while lo < n && is_space_byte(t[lo])
        invariant
            n == t@.len(),
            0 <= lo <= n,
            trim_front(t@) == trim_front(t@.skip(lo as int)),
        decreases n - lo,
    {
        proof {
            assert(t@.skip(lo as int).drop_first() =~= t@.skip(lo + 1 as int));
        }
        lo = lo + 1;
    }
    proof {
        assert(trim_front(t@) == t@.skip(lo as int));
    }
    let mut hi: usize = n;
    while hi > lo && is_space_byte(t[hi - 1])
        invariant
            n == t@.len(),
            lo <= hi <= n,
            trim_front(t@) == t@.skip(lo as int),
            trim_back(t@.skip(lo as int)) == trim_back(t@.subrange(lo as int, hi as int)),
        decreases hi,
    {
        proof {
            assert(t@.subrange(lo as int, hi as int).drop_last() =~= t@.subrange(
                lo as int,
                hi - 1 as int,
            ));
        }
        hi = hi - 1;
    }
    proof {
        assert(t@.skip(lo as int) =~= t@.subrange(lo as int, n as int));
        assert(trimmed(t@) == t@.subrange(lo as int, hi as int));
    }
    let mut out: Vec<u8> = Vec::new();
    let mut i: usize = lo;
    while i < hi
        invariant
            n == t@.len(),
            lo <= i <= hi <= n,
            out@ == t@.subrange(lo as int, i as int),
        decreases hi - i,
    {
        out.push(t[i]);
        proof {
            assert(t@.subrange(lo as int, i + 1 as int) =~= t@.subrange(lo as int, i as int).push(
                t@[i as int],
            ));
        }
        i = i + 1;
    }
    out
}

/// Splits the first `end` bytes of `s` on the separator byte.
pub fn split_prefix(s: &[u8], end: usize, sep: u8) -> (r: Vec<Vec<u8>>)
    requires
        end <= s@.len(),
    ensures
        r.deep_view() == split_on(s@.subrange(0, end as int), sep),
{
    let mut parts: Vec<Vec<u8>> = Vec::new();
    let mut cur: Vec<u8> = Vec::new();
    let mut i: usize = 0;
    proof {
        assert(s@.subrange(0, 0) =~= Seq::<u8>::empty());
    }
    while i < end
        invariant
            i <= end <= s@.len(),
            parts.deep_view().push(cur@) == split_on(s@.subrange(0, i as int), sep),
        decreases end - i,
    {
        proof {
            lemma_split_on_push(s@.subrange(0, i as int), sep, s@[i as int]);
            assert(s@.subrange(0, i + 1 as int) =~= s@.subrange(0, i as int).push(s@[i as int]));
        }
        let ghost old_parts = parts.deep_view();
        let ghost old_cur = cur@;
        if s[i] == sep {
            parts.push(cur);
            cur = Vec::new();
            proof {
                assert(parts.deep_view() =~~= old_parts.push(old_cur));
                assert(parts.deep_view().push(cur@) =~~= old_parts.push(old_cur).push(
                    Seq::<u8>::empty(),
                ));
            }
        } else {
            cur.push(s[i]);
            proof {
                let prev = old_parts.push(old_cur);
                assert(parts.deep_view().push(cur@) =~~= prev.update(
                    prev.len() - 1,
                    prev.last().push(s@[i as int]),
                ));
            }
        }
        i = i + 1;
    }
    let ghost old_parts = parts.deep_view();
    parts.push(cur);
    proof {
        assert(parts.deep_view() =~~= old_parts.push(cur@));
    }
    parts
}

/// Tokenizes one checksum-delimited header line: everything before the first
/// `*`, split on commas, trimmed, with the tag piece dropped.
pub fn tokenize_line(line: &[u8]) -> (r: Vec<Vec<u8>>)
    requires
        checksum_delimited(line@),
    ensures
        r.deep_view() == line_tokens(line@),
{
    let p = match find_byte_in(line, STAR) {
        Some(p) => p,
        None => {
            proof {
                assert(false);
            }
            return Vec::new();
        },
    };
    proof {
        lemma_find_byte_from_props(line@, STAR, 0);
        lemma_split_on_nonempty(line@.subrange(0, p as int), COMMA);
    }
    let raw = split_prefix(line, p, COMMA);
    let ghost pieces = split_on(line@.subrange(0, p as int), COMMA);
    let mut out: Vec<Vec<u8>> = Vec::new();
    let mut k: usize = 1;
    while k < raw.len()
        invariant
            raw.deep_view() == pieces,
            1 <= k <= pieces.len(),
            out.deep_view() == pieces.subrange(1, k as int).map_values(|t: Seq<u8>| trimmed(t)),
        decreases raw@.len() - k,
    {
        let ghost old_out = out.deep_view();
        proof {
            assert(raw@[k as int].deep_view() == pieces[k as int]);
            assert(raw@[k as int].deep_view() =~= raw@[k as int]@);
        }
        let piece = trim_token(raw[k].as_slice());
        out.push(piece);
        proof {
            assert(pieces.subrange(1, k + 1 as int) =~= pieces.subrange(1, k as int).push(
                pieces[k as int],
            ));
            assert(out.deep_view() =~~= old_out.push(trimmed(pieces[k as int])));
            assert(pieces.subrange(1, k + 1 as int).map_values(|t: Seq<u8>| trimmed(t)) =~~=
                pieces.subrange(1, k as int).map_values(|t: Seq<u8>| trimmed(t)).push(
                trimmed(pieces[k as int]),
            ));
        }
        k = k + 1;
    }
    proof {
        assert(pieces.subrange(1, pieces.len() as int) =~= pieces.drop_first());
        assert(star_index(line@) == p as int);
    }
    out
}

} // verus!
