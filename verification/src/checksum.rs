//! Checksum validator: each header line ends in `*` followed by two hex
//! digits, which must equal the XOR of the payload bytes after the leading
//! `$`.

use vstd::prelude::*;
use crate::ascii::{find_byte, find_byte_in, lemma_find_byte_from_props, lemma_find_byte_unique, STAR};
use crate::errors::FormatError;

verus! {

/// The XOR of all bytes of `s`.
pub open spec fn xor_fold(s: Seq<u8>) -> u8
    decreases s.len(),
{
    if s.len() == 0 {
        0
    } else {
        xor_fold(s.drop_last()) ^ s.last()
    }
}

/// True of the ASCII digits `0-9`, `A-F` and `a-f`.
pub open spec fn is_hex_digit(b: u8) -> bool {
    ||| 0x30 <= b <= 0x39
    ||| 0x41 <= b <= 0x46
    ||| 0x61 <= b <= 0x66
}

/// The numeric value of a hex digit.
pub open spec fn hex_digit_value(b: u8) -> u8 {
    if 0x30 <= b <= 0x39 {
        (b - 0x30) as u8
    } else if 0x41 <= b <= 0x46 {
        (b - 0x41 + 10) as u8
    } else {
        (b - 0x61 + 10) as u8
    }
}

/// True when the line carries the `*` checksum delimiter.
pub open spec fn checksum_delimited(line: Seq<u8>) -> bool {
    find_byte(line, STAR) is Some
}

/// The position of the first `*` of the line.
pub open spec fn star_index(line: Seq<u8>) -> int
    recommends
        checksum_delimited(line),
{
    find_byte(line, STAR)->0
}

/// True when everything after the first `*` is exactly two hex digits.
pub open spec fn checksum_digits_ok(line: Seq<u8>) -> bool {
    &&& checksum_delimited(line)
    &&& line.len() == star_index(line) + 3
    &&& is_hex_digit(line[star_index(line) + 1])
    &&& is_hex_digit(line[star_index(line) + 2])
}

/// The checksum byte the line declares after its `*`.
pub open spec fn declared_checksum(line: Seq<u8>) -> u8
    recommends
        checksum_digits_ok(line),
{
    (hex_digit_value(line[star_index(line) + 1]) * 16 + hex_digit_value(
        line[star_index(line) + 2],
    )) as u8
}

/// The XOR of the payload bytes: every byte strictly between the leading `$`
/// (index 0) and the `*`.
pub open spec fn computed_checksum(line: Seq<u8>) -> u8
    recommends
        checksum_delimited(line),
{
    let p = star_index(line);
    if p >= 1 {
        xor_fold(line.subrange(1, p))
    } else {
        0
    }
}

/// True when the computed XOR equals the declared checksum.
pub open spec fn checksum_matches(line: Seq<u8>) -> bool {
    computed_checksum(line) == declared_checksum(line)
}

/// True of a line whose checksum suffix is well formed and agrees with the
/// XOR of its payload.
pub open spec fn line_validates(line: Seq<u8>) -> bool {
    checksum_digits_ok(line) && checksum_matches(line)
}

/// Converts one ASCII hex digit to its value.
pub fn hex_value(b: u8) -> (r: Option<u8>)
    ensures
        r is Some <==> is_hex_digit(b),
        r is Some ==> r->0 == hex_digit_value(b),
{
    if 0x30 <= b && b <= 0x39 {
        Some(b - 0x30)
    } else if 0x41 <= b && b <= 0x46 {
        Some(b - 0x41 + 10)
    } else if 0x61 <= b && b <= 0x66 {
        Some(b - 0x61 + 10)
    } else {
        None
    }
}

/// Validates one header line against its embedded checksum.
///
/// Splits the line at its first `*`; fails when no `*` is present or when the
/// suffix after it is not exactly two hex digits. Otherwise reports whether
/// the XOR of the payload bytes (after the leading `$`) equals the declared
/// value.
pub fn validate_checksum(line: &[u8]) -> (r: Result<bool, FormatError>)
    ensures
        match r {
            Ok(b) => checksum_digits_ok(line@) && b == checksum_matches(line@),
            Err(e) => match e {
                FormatError::MissingChecksumDelimiter => !checksum_delimited(line@),
                FormatError::InvalidChecksumDigits => checksum_delimited(line@)
                    && !checksum_digits_ok(line@),
                _ => false,
            },
        },
{
    let p = match find_byte_in(line, STAR) {
        Some(p) => p,
        None => {
            return Err(FormatError::MissingChecksumDelimiter);
        },
    };
    proof {
        lemma_find_byte_from_props(line@, STAR, 0);
    }
    if line.len() - p != 3 {
        return Err(FormatError::InvalidChecksumDigits);
    }
    let d1 = match hex_value(line[p + 1]) {
        Some(d) => d,
        None => {
            return Err(FormatError::InvalidChecksumDigits);
        },
    };
    let d2 = match hex_value(line[p + 2]) {
        Some(d) => d,
        None => {
            return Err(FormatError::InvalidChecksumDigits);
        },
    };
    let declared = d1 * 16 + d2;
    let mut acc: u8 = 0;
    let mut i: usize = 1;
    while i < p
        invariant
            1 <= i,
            p < line@.len(),
            p == star_index(line@),
            p == 0 ==> i == 1 && acc == 0,
            p >= 1 ==> i <= p && acc == xor_fold(line@.subrange(1, i as int)),
        decreases p - i,
    {
        proof {
            assert(line@.subrange(1, i + 1 as int).drop_last() =~= line@.subrange(1, i as int));
        }
        acc = acc ^ line[i];
        i = i + 1;
    }
    Ok(acc == declared)
}

/// Replacing one byte of `s` replaces its contribution to the XOR fold.
proof fn lemma_xor_fold_update(s: Seq<u8>, i: int, x: u8)
    requires
        0 <= i < s.len(),
    ensures
        xor_fold(s.update(i, x)) == xor_fold(s) ^ s[i] ^ x,
    decreases s.len(),
{
    let upd = s.update(i, x);
    if i == s.len() - 1 {
        assert(upd.drop_last() =~= s.drop_last());
        lemma_xor_cancel(xor_fold(s.drop_last()), s[i], x);
    } else {
        assert(upd.drop_last() =~= s.drop_last().update(i, x));
        lemma_xor_fold_update(s.drop_last(), i, x);
        lemma_xor_shuffle(xor_fold(s.drop_last()), s[i], x, s.last());
    }
}

/// XOR-ing a byte out again and a new byte in: `(a ^ b) ^ b ^ x == a ^ x`.
proof fn lemma_xor_cancel(a: u8, b: u8, x: u8)
    by (bit_vector)
    ensures
        a ^ x == (a ^ b) ^ b ^ x,
{
}

/// XOR steps commute: updating a byte before folding the last one in equals
/// folding first and updating after.
proof fn lemma_xor_shuffle(a: u8, b: u8, x: u8, last: u8)
    by (bit_vector)
    ensures
        (a ^ b ^ x) ^ last == (a ^ last) ^ b ^ x,
{
}

/// Two different bytes XOR-ed onto the same accumulator give different
/// results.
proof fn lemma_xor_injective(a: u8, b: u8, x: u8)
    by (bit_vector)
    requires
        b != x,
    ensures
        a ^ b ^ x != a,
{
}

/// Corrupting any single payload byte of a validating line — any byte strictly
/// between the leading `$` and the `*` — leaves a line that no longer
/// validates: either its checksum no longer matches, or (when the new byte is
/// itself a `*`) its checksum suffix is no longer well formed.
pub proof fn lemma_checksum_detects_payload_corruption(line: Seq<u8>, i: int, x: u8)
    requires
        line_validates(line),
        1 <= i < star_index(line),
        x != line[i],
    ensures
        !line_validates(line.update(i, x)),
{
    let p = star_index(line);
    let m = line.update(i, x);
    lemma_find_byte_from_props(line, STAR, 0);
    if x == STAR {
        lemma_find_byte_unique(m, STAR, i);
        assert(m.len() == p + 3);
        assert(star_index(m) == i);
        assert(!checksum_digits_ok(m));
    } else {
        lemma_find_byte_unique(m, STAR, p);
        assert(star_index(m) == p);
        assert(checksum_digits_ok(m));
        assert(declared_checksum(m) == declared_checksum(line));
        assert(m.subrange(1, p) =~= line.subrange(1, p).update(i - 1, x));
        lemma_xor_fold_update(line.subrange(1, p), i - 1, x);
        lemma_xor_injective(xor_fold(line.subrange(1, p)), line[i], x);
        assert(computed_checksum(m) != computed_checksum(line));
    }
}

} // verus!
