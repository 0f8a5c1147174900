//! Header aggregator: drives every line of the header region through
//! checksum validation, tokenizing and per-tag field decoding, collecting
//! per-line warnings, and assembles the decoded record.

use vstd::prelude::*;
use vstd::slice::slice_subrange;
use crate::ascii::{
    all_ascii, ascii_chars_match, bytes_are_ascii, string_from_ascii, CARRIAGE_RETURN, NEWLINE,
};
use crate::checksum::{
    checksum_delimited, checksum_digits_ok, checksum_matches, line_validates, validate_checksum,
};
use crate::errors::{DecodeError, FormatError, LineWarning};
use crate::numbers::{i32_token_value, parse_i32_token, parses_as_i32};
use crate::record::{Alarms, HeaderRecord};
use crate::scan::{find_header_end, header_boundary, lemma_boundary_from_props};
use crate::tokens::{line_tokens, lemma_line_tokens_ascii, split_on, split_prefix, tokenize_line};

verus! {

/// `U`, the tag of registration lines.
pub const TAG_REGISTRATION: u8 = 0x55;

/// `A`, the tag of alarm-threshold lines.
pub const TAG_ALARMS: u8 = 0x41;

/// A decoded header together with the non-fatal findings made along the way.
#[derive(Clone, Debug, PartialEq, Eq)]
pub struct DecodedHeader {
    pub record: HeaderRecord,
    pub warnings: Vec<LineWarning>,
}

/// A line with one trailing carriage return removed, as left by `\r\n` line
/// endings.
pub open spec fn strip_cr(l: Seq<u8>) -> Seq<u8> {
    if l.len() > 0 && l.last() == CARRIAGE_RETURN {
        l.drop_last()
    } else {
        l
    }
}

/// The lines of the header region: the region split on line feeds, each line
/// with a trailing carriage return removed. An empty region has no lines.
pub open spec fn header_lines(region: Seq<u8>) -> Seq<Seq<u8>> {
    if region.len() == 0 {
        Seq::empty()
    } else {
        split_on(region, NEWLINE).map_values(|l: Seq<u8>| strip_cr(l))
    }
}

/// The tag character of a line: its second byte.
pub open spec fn line_tag(l: Seq<u8>) -> u8
    recommends
        l.len() >= 2,
{
    l[1]
}

/// The tag recorded in a warning: present only when the line has one.
pub open spec fn warning_tag(l: Seq<u8>) -> Option<u8> {
    if l.len() >= 2 {
        Some(l[1])
    } else {
        None
    }
}

/// True when the first eight tokens all parse as `i32` values.
pub open spec fn alarm_tokens_parse(toks: Seq<Seq<u8>>) -> bool {
    forall|i: int| 0 <= i < 8 ==> parses_as_i32(#[trigger] toks[i])
}

/// The alarm thresholds carried by eight numeric tokens, in the order the
/// header stores them.
pub open spec fn alarms_from_tokens(toks: Seq<Seq<u8>>) -> Alarms
    recommends
        toks.len() == 8,
        alarm_tokens_parse(toks),
{
    Alarms {
        volts_max_tenths: i32_token_value(toks[0]),
        volts_min_tenths: i32_token_value(toks[1]),
        egt_spread_max: i32_token_value(toks[2]),
        cht_max: i32_token_value(toks[3]),
        cht_cool_rate_max: i32_token_value(toks[4]),
        egt_max: i32_token_value(toks[5]),
        oil_temp_max: i32_token_value(toks[6]),
        oil_temp_min: i32_token_value(toks[7]),
    }
}

/// True of a line that has a tag and validates against its checksum.
pub open spec fn line_decodable(l: Seq<u8>) -> bool {
    l.len() >= 2 && line_validates(l)
}

/// True when the line sets the registration field: a validating `U` line
/// with exactly one token.
pub open spec fn line_sets_registration(l: Seq<u8>) -> bool {
    line_decodable(l) && line_tag(l) == TAG_REGISTRATION && line_tokens(l).len() == 1
}

/// The registration bytes a `U` line carries.
pub open spec fn line_registration(l: Seq<u8>) -> Seq<u8>
    recommends
        line_sets_registration(l),
{
    line_tokens(l)[0]
}

/// True when the line sets the alarms field: a validating `A` line with
/// exactly eight numeric tokens.
pub open spec fn line_sets_alarms(l: Seq<u8>) -> bool {
    &&& line_decodable(l)
    &&& line_tag(l) == TAG_ALARMS
    &&& line_tokens(l).len() == 8
    &&& alarm_tokens_parse(line_tokens(l))
}

/// The alarm thresholds an `A` line carries.
pub open spec fn line_alarms(l: Seq<u8>) -> Alarms
    recommends
        line_sets_alarms(l),
{
    alarms_from_tokens(line_tokens(l))
}

/// The warning a line produces, if any: no tag, a malformed or mismatched
/// checksum, or an `A` line whose tokens do not decode. Unknown tags are
/// never warnings.
pub open spec fn line_warning(l: Seq<u8>) -> Option<FormatError> {
    if l.len() < 2 {
        Some(FormatError::EmptyTagLine)
    } else if !checksum_delimited(l) {
        Some(FormatError::MissingChecksumDelimiter)
    } else if !checksum_digits_ok(l) {
        Some(FormatError::InvalidChecksumDigits)
    } else if !checksum_matches(l) {
        Some(FormatError::ChecksumMismatch)
    } else if line_tag(l) == TAG_ALARMS {
        if line_tokens(l).len() != 8 {
            Some(FormatError::AlarmTokenCountMismatch)
        } else if !alarm_tokens_parse(line_tokens(l)) {
            Some(FormatError::UnparseableNumericToken)
        } else {
            None
        }
    } else {
        None
    }
}

/// The fault that aborts the whole decode at this line, if any: a non-ASCII
/// line always does; in strict mode any warning does too.
pub open spec fn line_fatal(l: Seq<u8>, strict: bool) -> Option<FormatError> {
    if !bytes_are_ascii(l) {
        Some(FormatError::InvalidEncoding)
    } else if strict {
        line_warning(l)
    } else {
        None
    }
}

/// The first fatal line at or after index `i`, if any.
pub open spec fn first_fatal_from(lines: Seq<Seq<u8>>, strict: bool, i: int) -> Option<int>
    decreases lines.len() - i,
{
    if 0 <= i < lines.len() {
        if line_fatal(lines[i], strict) is Some {
            Some(i)
        } else {
            first_fatal_from(lines, strict, i + 1)
        }
    } else {
        None
    }
}

/// The first fatal line of the header, if any.
pub open spec fn first_fatal(lines: Seq<Seq<u8>>, strict: bool) -> Option<int> {
    first_fatal_from(lines, strict, 0)
}

/// `first_fatal_from` returns exactly the least fatal line at or after `i`.
pub proof fn lemma_first_fatal_from_props(lines: Seq<Seq<u8>>, strict: bool, i: int)
    requires
        0 <= i,
    ensures
        match first_fatal_from(lines, strict, i) {
            Some(b) => {
                &&& i <= b < lines.len()
                &&& line_fatal(lines[b], strict) is Some
                &&& forall|j: int| i <= j < b ==> line_fatal(#[trigger] lines[j], strict) is None
            },
            None => forall|j: int|
                i <= j < lines.len() ==> line_fatal(#[trigger] lines[j], strict) is None,
        },
    decreases lines.len() - i,
{
    if i < lines.len() && line_fatal(lines[i], strict) is None {
        lemma_first_fatal_from_props(lines, strict, i + 1);
    }
}

/// A fatal line with no fatal line before it is what `first_fatal` finds.
pub proof fn lemma_first_fatal_unique(lines: Seq<Seq<u8>>, strict: bool, k: int)
    requires
        0 <= k < lines.len(),
        line_fatal(lines[k], strict) is Some,
        forall|j: int| 0 <= j < k ==> line_fatal(#[trigger] lines[j], strict) is None,
    ensures
        first_fatal(lines, strict) == Some(k),
{
    lemma_first_fatal_from_props(lines, strict, 0);
    match first_fatal(lines, strict) {
        Some(b) => {
            if b < k {
                assert(line_fatal(lines[b], strict) is None);
            }
            if k < b {
                assert(line_fatal(lines[k], strict) is None);
            }
        },
        None => {
            assert(line_fatal(lines[k], strict) is None);
        },
    }
}

/// The registration after processing `lines` in order: the value of the last
/// line that sets it, if any.
pub open spec fn registration_after(lines: Seq<Seq<u8>>) -> Option<Seq<u8>>
    decreases lines.len(),
{
    if lines.len() == 0 {
        None
    } else if line_sets_registration(lines.last()) {
        Some(line_registration(lines.last()))
    } else {
        registration_after(lines.drop_last())
    }
}

/// The alarms after processing `lines` in order: the value of the last line
/// that sets them, if any.
pub open spec fn alarms_after(lines: Seq<Seq<u8>>) -> Option<Alarms>
    decreases lines.len(),
{
    if lines.len() == 0 {
        None
    } else if line_sets_alarms(lines.last()) {
        Some(line_alarms(lines.last()))
    } else {
        alarms_after(lines.drop_last())
    }
}

/// The warnings the lines produce, in line order, each carrying its line
/// index and tag.
pub open spec fn line_warnings(lines: Seq<Seq<u8>>) -> Seq<LineWarning>
    decreases lines.len(),
{
    if lines.len() == 0 {
        Seq::empty()
    } else {
        let rest = line_warnings(lines.drop_last());
        match line_warning(lines.last()) {
            Some(k) => rest.push(
                LineWarning {
                    line_index: (lines.len() - 1) as usize,
                    tag: warning_tag(lines.last()),
                    kind: k,
                },
            ),
            None => rest,
        }
    }
}

/// True when `r` is the record the lines decode to: registration and alarms
/// from the last line that sets each, fuel and features never populated.
pub open spec fn record_matches(r: HeaderRecord, lines: Seq<Seq<u8>>) -> bool {
    &&& match (r.registration, registration_after(lines)) {
        (Option::None, Option::None) => true,
        (Option::Some(s), Option::Some(t)) => ascii_chars_match(t, s@),
        _ => false,
    }
    &&& r.alarms == alarms_after(lines)
    &&& r.fuel is None
    &&& r.features is None
}

/// The whole contract of `decode_header` on buffer `bytes` in the given mode:
/// what it returns, for every input.
pub open spec fn decode_result_matches(
    bytes: Seq<u8>,
    strict: bool,
    r: Result<DecodedHeader, DecodeError>,
) -> bool {
    match header_boundary(bytes) {
        None => r matches Err(e) && e.line_index is None && e.kind
            == FormatError::NoHeaderTerminator,
        Some(b) => {
            let lines = header_lines(bytes.subrange(0, b));
            match first_fatal(lines, strict) {
                Some(i) => r matches Err(e) && e.line_index == Some(i as usize) && e.kind
                    == line_fatal(lines[i], strict)->0,
                None => r matches Ok(d) && record_matches(d.record, lines) && d.warnings@
                    == line_warnings(lines),
            }
        },
    }
}

/// Decodes a registration token list: exactly one token stores the token
/// verbatim as the registration string; any other count leaves the field
/// unset, which is not an error.
pub fn decode_registration(tokens: &Vec<Vec<u8>>) -> (r: Option<String>)
    requires
        forall|k: int|
            0 <= k < tokens.deep_view().len() ==> bytes_are_ascii(#[trigger] tokens.deep_view()[k]),
    ensures
        r is Some <==> tokens.deep_view().len() == 1,
        r matches Some(s) ==> ascii_chars_match(tokens.deep_view()[0], s@),
{
    if tokens.len() == 1 {
        proof {
            assert(tokens.deep_view()[0] == tokens@[0].deep_view());
            assert(tokens@[0].deep_view() =~= tokens@[0]@);
        }
        Some(string_from_ascii(&tokens[0]))
    } else {
        None
    }
}

/// Decodes an alarms token list: exactly eight numeric tokens are required.
/// Any other count abandons the field; a non-numeric token among eight is a
/// numeric-parse failure.
pub fn decode_alarms(tokens: &Vec<Vec<u8>>) -> (r: Result<Alarms, FormatError>)
    ensures
        match r {
            Ok(a) => {
                &&& tokens.deep_view().len() == 8
                &&& alarm_tokens_parse(tokens.deep_view())
                &&& a == alarms_from_tokens(tokens.deep_view())
            },
            Err(e) => match e {
                FormatError::AlarmTokenCountMismatch => tokens.deep_view().len() != 8,
                FormatError::UnparseableNumericToken => tokens.deep_view().len() == 8
                    && !alarm_tokens_parse(tokens.deep_view()),
                _ => false,
            },
        },
{
    proof {
        assert forall|k: int| 0 <= k < tokens@.len() implies #[trigger] tokens.deep_view()[k]
            == tokens@[k]@ by {
            assert(tokens.deep_view()[k] == tokens@[k].deep_view());
            assert(tokens@[k].deep_view() =~= tokens@[k]@);
        }
    }
    if tokens.len() != 8 {
        return Err(FormatError::AlarmTokenCountMismatch);
    }
    let ghost dv = tokens.deep_view();
    let volts_max_tenths = match parse_i32_token(tokens[0].as_slice()) {
        Some(v) => v,
        None => {
            proof {
                assert(!parses_as_i32(dv[0]));
            }
            return Err(FormatError::UnparseableNumericToken);
        },
    };
    let volts_min_tenths = match parse_i32_token(tokens[1].as_slice()) {
        Some(v) => v,
        None => {
            proof {
                assert(!parses_as_i32(dv[1]));
            }
            return Err(FormatError::UnparseableNumericToken);
        },
    };
    let egt_spread_max = match parse_i32_token(tokens[2].as_slice()) {
        Some(v) => v,
        None => {
            proof {
                assert(!parses_as_i32(dv[2]));
            }
            return Err(FormatError::UnparseableNumericToken);
        },
    };
    let cht_max = match parse_i32_token(tokens[3].as_slice()) {
        Some(v) => v,
        None => {
            proof {
                assert(!parses_as_i32(dv[3]));
            }
            return Err(FormatError::UnparseableNumericToken);
        },
    };
    let cht_cool_rate_max = match parse_i32_token(tokens[4].as_slice()) {
        Some(v) => v,
        None => {
            proof {
                assert(!parses_as_i32(dv[4]));
            }
            return Err(FormatError::UnparseableNumericToken);
        },
    };
    let egt_max = match parse_i32_token(tokens[5].as_slice()) {
        Some(v) => v,
        None => {
            proof {
                assert(!parses_as_i32(dv[5]));
            }
            return Err(FormatError::UnparseableNumericToken);
        },
    };
    let oil_temp_max = match parse_i32_token(tokens[6].as_slice()) {
        Some(v) => v,
        None => {
            proof {
                assert(!parses_as_i32(dv[6]));
            }
            return Err(FormatError::UnparseableNumericToken);
        },
    };
    let oil_temp_min = match parse_i32_token(tokens[7].as_slice()) {
        Some(v) => v,
        None => {
            proof {
                assert(!parses_as_i32(dv[7]));
            }
            return Err(FormatError::UnparseableNumericToken);
        },
    };
    proof {
        assert forall|i: int| 0 <= i < 8 implies parses_as_i32(dv[i]) by {
            assert(i == 0 || i == 1 || i == 2 || i == 3 || i == 4 || i == 5 || i == 6 || i == 7);
        }
    }
    Ok(
        Alarms {
            volts_max_tenths,
            volts_min_tenths,
            egt_spread_max,
            cht_max,
            cht_cool_rate_max,
            egt_max,
            oil_temp_max,
            oil_temp_min,
        },
    )
}

/// Processes one ASCII header line: validates its checksum, and on success
/// dispatches on its tag to update the record. Returns the line's warning,
/// if it produced one; a field is updated exactly when the line sets it.
fn apply_line(record: &mut HeaderRecord, line: &[u8]) -> (w: Option<FormatError>)
    requires
        bytes_are_ascii(line@),
    ensures
        w == line_warning(line@),
        line_sets_registration(line@) ==> (final(record).registration is Some && ascii_chars_match(
            line_registration(line@),
            final(record).registration->0@,
        )),
        !line_sets_registration(line@) ==> final(record).registration == old(record).registration,
        final(record).alarms == if line_sets_alarms(line@) {
            Some(line_alarms(line@))
        } else {
            old(record).alarms
        },
        final(record).fuel == old(record).fuel,
        final(record).features == old(record).features,
{
    if line.len() < 2 {
        return Some(FormatError::EmptyTagLine);
    }
    let valid = match validate_checksum(line) {
        Ok(v) => v,
        Err(e) => {
            return Some(e);
        },
    };
    if !valid {
        return Some(FormatError::ChecksumMismatch);
    }
    let tag = line[1];
    if tag == TAG_REGISTRATION {
        let toks = tokenize_line(line);
        proof {
            lemma_line_tokens_ascii(line@);
        }
        match decode_registration(&toks) {
            Some(s) => {
                record.registration = Some(s);
            },
            None => {},
        }
        None
    } else if tag == TAG_ALARMS {
        let toks = tokenize_line(line);
        match decode_alarms(&toks) {
            Ok(a) => {
                record.alarms = Some(a);
                None
            },
            Err(e) => Some(e),
        }
    } else {
        None
    }
}

/// Decodes the header section of a raw byte buffer.
///
/// Finds the header boundary, then walks the header lines in order: a
/// non-ASCII line aborts the decode; a line-level fault (no tag, bad or
/// mismatched checksum, undecodable `A` tokens) aborts in strict mode and is
/// recorded as a warning otherwise; a validating `U` or `A` line updates its
/// field, a later line overwriting an earlier one. Unknown tags are never
/// errors. Returns the assembled record with the warnings, or the first
/// fatal fault with the index of the line that produced it.
pub fn decode_header(bytes: &[u8], strict: bool) -> (r: Result<DecodedHeader, DecodeError>)
    ensures
        decode_result_matches(bytes@, strict, r),
{
    let end = match find_header_end(bytes) {
        Ok(i) => i,
        Err(_) => {
            return Err(DecodeError { line_index: None, kind: FormatError::NoHeaderTerminator });
        },
    };
    proof {
        lemma_boundary_from_props(bytes@, 0);
    }
    let raw_lines = if end == 0 {
        Vec::new()
    } else {
        split_prefix(bytes, end, NEWLINE)
    };
    let ghost region = bytes@.subrange(0, end as int);
    let ghost praw = raw_lines.deep_view();
    let ghost lseq = header_lines(region);
    proof {
        if end == 0 {
            assert(praw =~~= Seq::<Seq<u8>>::empty());
        }
        assert(lseq =~~= praw.map_values(|l: Seq<u8>| strip_cr(l)));
        assert(lseq.len() == praw.len());
    }
    let mut record = HeaderRecord::new();
    let mut warnings: Vec<LineWarning> = Vec::new();
    let mut k: usize = 0;
    proof {
        assert(lseq.take(0) =~= Seq::<Seq<u8>>::empty());
    }
    while k < raw_lines.len()
        invariant
            header_boundary(bytes@) == Some(end as int),
            end <= bytes@.len(),
            region == bytes@.subrange(0, end as int),
            lseq == header_lines(region),
            lseq == praw.map_values(|l: Seq<u8>| strip_cr(l)),
            raw_lines.deep_view() == praw,
            raw_lines@.len() == praw.len(),
            lseq.len() == praw.len(),
            0 <= k <= lseq.len(),
            forall|j: int| 0 <= j < k ==> line_fatal(#[trigger] lseq[j], strict) is None,
            match (record.registration, registration_after(lseq.take(k as int))) {
                (Option::None, Option::None) => true,
                (Option::Some(s), Option::Some(t)) => ascii_chars_match(t, s@),
                _ => false,
            },
            record.alarms == alarms_after(lseq.take(k as int)),
            record.fuel is None,
            record.features is None,
            warnings@ == line_warnings(lseq.take(k as int)),
        decreases raw_lines@.len() - k,
    {
        proof {
            assert(raw_lines.deep_view()[k as int] == raw_lines@[k as int].deep_view());
            assert(raw_lines@[k as int].deep_view() =~= raw_lines@[k as int]@);
            assert(lseq[k as int] == strip_cr(praw[k as int]));
        }
        let full = raw_lines[k].as_slice();
        let line: &[u8] = if full.len() > 0 && full[full.len() - 1] == CARRIAGE_RETURN {
            slice_subrange(full, 0, full.len() - 1)
        } else {
            full
        };
        proof {
            if full@.len() > 0 && full@.last() == CARRIAGE_RETURN {
                assert(line@ =~= full@.drop_last());
            }
            assert(line@ == lseq[k as int]);
        }
        if !all_ascii(line) {
            proof {
                lemma_first_fatal_unique(lseq, strict, k as int);
            }
            return Err(DecodeError { line_index: Some(k), kind: FormatError::InvalidEncoding });
        }
        let w = apply_line(&mut record, line);
        match w {
            Some(kind) => {
                if strict {
                    proof {
                        lemma_first_fatal_unique(lseq, strict, k as int);
                    }
                    return Err(DecodeError { line_index: Some(k), kind });
                }
                let t: Option<u8> = if line.len() >= 2 {
                    Some(line[1])
                } else {
                    None
                };
                warnings.push(LineWarning { line_index: k, tag: t, kind });
            },
            None => {},
        }
        proof {
            assert(lseq.take(k + 1 as int).drop_last() =~= lseq.take(k as int));
            assert(lseq.take(k + 1 as int).last() == lseq[k as int]);
        }
        k = k + 1;
    }
    proof {
        assert(lseq.take(lseq.len() as int) =~= lseq);
        lemma_first_fatal_from_props(lseq, strict, 0);
        if first_fatal(lseq, strict) is Some {
            let b = first_fatal(lseq, strict)->0;
            assert(line_fatal(lseq[b], strict) is None);
        }
    }
    Ok(DecodedHeader { record, warnings })
}

/// Decoding is deterministic: two results that both satisfy the decode
/// contract on the same buffer and mode agree — the same error, or records
/// whose fields and warning lists are identical (registration compared by its
/// characters).
pub proof fn lemma_decode_deterministic(
    bytes: Seq<u8>,
    strict: bool,
    r1: Result<DecodedHeader, DecodeError>,
    r2: Result<DecodedHeader, DecodeError>,
)
    requires
        decode_result_matches(bytes, strict, r1),
        decode_result_matches(bytes, strict, r2),
    ensures
        r1 is Ok <==> r2 is Ok,
        r1 is Err && r2 is Err ==> r1->Err_0 == r2->Err_0,
        r1 is Ok && r2 is Ok ==> ({
            let d1 = r1->Ok_0;
            let d2 = r2->Ok_0;
            &&& (d1.record.registration is Some <==> d2.record.registration is Some)
            &&& (d1.record.registration is Some ==> d1.record.registration->0@
                == d2.record.registration->0@)
            &&& d1.record.alarms == d2.record.alarms
            &&& d1.record.fuel == d2.record.fuel
            &&& d1.record.features == d2.record.features
            &&& d1.warnings@ == d2.warnings@
        }),
{
    broadcast use vstd::utf8::char_u32_cast;

    if r1 is Ok && r2 is Ok {
        let d1 = r1->Ok_0;
        let d2 = r2->Ok_0;
        assert(header_boundary(bytes) is Some);
        let b = header_boundary(bytes)->0;
        let lines = header_lines(bytes.subrange(0, b));
        assert(first_fatal(lines, strict) is None);
        assert(record_matches(d1.record, lines));
        assert(record_matches(d2.record, lines));
        if d1.record.registration is Some {
            let s1 = d1.record.registration->0;
            let s2 = d2.record.registration->0;
            let t = registration_after(lines)->0;
            assert(ascii_chars_match(t, s1@));
            assert(ascii_chars_match(t, s2@));
            assert forall|i: int| 0 <= i < s1@.len() implies s1@[i] == s2@[i] by {
                let u: u32 = s1@[i] as u32;
                assert(u == t[i] as u32);
                assert(s2@[i] as u32 == u);
                vstd::utf8::char_u32_cast(s1@[i], u);
                vstd::utf8::char_u32_cast(s2@[i], u);
            }
            assert(s1@ =~= s2@);
        }
    }
}

/// Tag dispatch is order-independent for distinct tags: a header made of a
/// `U` line and an `A` line decodes to the same registration and the same
/// alarms whichever of the two comes first.
pub proof fn lemma_tag_dispatch_order_independent(lu: Seq<u8>, la: Seq<u8>)
    requires
        lu.len() >= 2,
        line_tag(lu) == TAG_REGISTRATION,
        la.len() >= 2,
        line_tag(la) == TAG_ALARMS,
    ensures
        registration_after(seq![lu, la]) == registration_after(seq![la, lu]),
        alarms_after(seq![lu, la]) == alarms_after(seq![la, lu]),
{
    let s1 = seq![lu, la];
    let s2 = seq![la, lu];
    assert(!line_sets_registration(la));
    assert(!line_sets_alarms(lu));
    assert(s1.drop_last() =~= seq![lu]);
    assert(s2.drop_last() =~= seq![la]);
    assert(seq![lu].drop_last() =~= Seq::<Seq<u8>>::empty());
    assert(seq![la].drop_last() =~= Seq::<Seq<u8>>::empty());
    assert(s1.last() == la && s2.last() == lu);
    assert(seq![lu].last() == lu && seq![la].last() == la);
    assert(registration_after(Seq::<Seq<u8>>::empty()) is None);
    assert(alarms_after(Seq::<Seq<u8>>::empty()) is None);
    assert(registration_after(seq![la]) is None);
    assert(alarms_after(seq![lu]) is None);
    assert(registration_after(s1) == registration_after(seq![lu]));
    assert(registration_after(s2) == if line_sets_registration(lu) {
        Some(line_registration(lu))
    } else {
        registration_after(seq![la])
    });
    assert(alarms_after(s2) == alarms_after(seq![la]));
    assert(alarms_after(s1) == if line_sets_alarms(la) {
        Some(line_alarms(la))
    } else {
        alarms_after(seq![lu])
    });
}

} // verus!
