use edm_header::decode::{decode_header, DecodedHeader, TAG_ALARMS, TAG_REGISTRATION};
use edm_header::errors::{DecodeError, FormatError, LineWarning};
use edm_header::record::HeaderRecord;

/// Builds one header line `$<content>*<hex>` with the checksum computed from
/// the actual payload bytes.
fn make_line(content: &str) -> Vec<u8> {
    let mut v = vec![b'$'];
    v.extend_from_slice(content.as_bytes());
    let cs = content.as_bytes().iter().fold(0u8, |a, b| a ^ *b);
    v.push(b'*');
    v.extend_from_slice(format!("{:02X}", cs).as_bytes());
    v
}

/// Lays the given line contents out as a header followed by one binary byte.
fn make_buffer(contents: &[&str]) -> Vec<u8> {
    let mut v = Vec::new();
    for c in contents {
        v.extend_from_slice(&make_line(c));
        v.push(b'\n');
    }
    v.push(0x01);
    v
}

fn decode_ok(contents: &[&str], strict: bool) -> DecodedHeader {
    decode_header(&make_buffer(contents), strict).expect("decode should succeed")
}

#[test]
fn registration_scenario() {
    let d = decode_ok(&["U,N354DT"], false);
    assert_eq!(d.record.registration, Some("N354DT".to_string()));
    assert_eq!(d.record.alarms, None);
    assert_eq!(d.record.fuel, None);
    assert_eq!(d.record.features, None);
    assert!(d.warnings.is_empty());
}

#[test]
fn alarms_scaling_scenario() {
    let d = decode_ok(&["A,135,115,35,420,15,1650,50,240"], false);
    let a = d.record.alarms.expect("alarms should be set");
    assert_eq!(a.volts_max_tenths, 135);
    assert_eq!(a.volts_min_tenths, 115);
    assert_eq!(a.volts_max_tenths as f64 / 10.0, 13.5);
    assert_eq!(a.volts_min_tenths as f64 / 10.0, 11.5);
    assert_eq!(a.egt_spread_max, 35);
    assert_eq!(a.cht_max, 420);
    assert_eq!(a.cht_cool_rate_max, 15);
    assert_eq!(a.egt_max, 1650);
    assert_eq!(a.oil_temp_max, 50);
    assert_eq!(a.oil_temp_min, 240);
    assert!(d.warnings.is_empty());
}

#[test]
fn truncated_alarms_left_unset() {
    let d = decode_ok(&["A,135,115,35,420,15"], false);
    assert_eq!(d.record.alarms, None);
    assert_eq!(
        d.warnings,
        vec![LineWarning {
            line_index: 0,
            tag: Some(TAG_ALARMS),
            kind: FormatError::AlarmTokenCountMismatch,
        }]
    );
}

#[test]
fn truncated_alarms_fatal_in_strict_mode() {
    let e = decode_header(&make_buffer(&["A,135,115,35,420,15"]), true)
        .expect_err("strict decode should fail");
    assert_eq!(
        e,
        DecodeError { line_index: Some(0), kind: FormatError::AlarmTokenCountMismatch }
    );
}

#[test]
fn corrupted_checksum_reported_rest_decodes() {
    let mut buf = Vec::new();
    buf.extend_from_slice(&make_line("U,N354DT"));
    buf.push(b'\n');
    let mut bad = make_line("A,135,115,35,420,15,1650,50,240");
    // Flip the final hex digit of the checksum suffix.
    let last = bad.len() - 1;
    bad[last] = if bad[last] == b'0' { b'1' } else { b'0' };
    buf.extend_from_slice(&bad);
    buf.push(b'\n');
    buf.push(0x01);
    let d = decode_header(&buf, false).expect("lenient decode should succeed");
    assert_eq!(d.record.registration, Some("N354DT".to_string()));
    assert_eq!(d.record.alarms, None);
    assert_eq!(
        d.warnings,
        vec![LineWarning {
            line_index: 1,
            tag: Some(TAG_ALARMS),
            kind: FormatError::ChecksumMismatch,
        }]
    );
}

#[test]
fn decoding_twice_is_identical() {
    let buf = make_buffer(&["U,N354DT", "A,135,115,35,420,15,1650,50,240", "Z,9"]);
    let d1 = decode_header(&buf, false).unwrap();
    let d2 = decode_header(&buf, false).unwrap();
    assert_eq!(d1, d2);
}

#[test]
fn tag_dispatch_order_independent() {
    let d1 = decode_ok(&["U,N354DT", "A,135,115,35,420,15,1650,50,240"], false);
    let d2 = decode_ok(&["A,135,115,35,420,15,1650,50,240", "U,N354DT"], false);
    assert_eq!(d1.record.registration, d2.record.registration);
    assert_eq!(d1.record.alarms, d2.record.alarms);
}

#[test]
fn strict_mode_accepts_clean_header() {
    let d = decode_ok(&["U,N354DT", "A,135,115,35,420,15,1650,50,240"], true);
    assert_eq!(d.record.registration, Some("N354DT".to_string()));
    assert!(d.record.alarms.is_some());
    assert!(d.warnings.is_empty());
}

#[test]
fn no_header_terminator_is_fatal() {
    let mut buf = make_line("U,N354DT");
    buf.push(b'\n');
    buf.push(b'$');
    let e = decode_header(&buf, false).expect_err("no transition exists");
    assert_eq!(e, DecodeError { line_index: None, kind: FormatError::NoHeaderTerminator });
    let e = decode_header(&[], false).expect_err("empty buffer has no transition");
    assert_eq!(e.kind, FormatError::NoHeaderTerminator);
}

#[test]
fn non_ascii_line_is_fatal() {
    let mut buf = Vec::new();
    buf.extend_from_slice(b"$U,N\xffQ*00\n");
    buf.extend_from_slice(&make_line("A,135,115,35,420,15,1650,50,240"));
    buf.push(b'\n');
    buf.push(0x01);
    let e = decode_header(&buf, false).expect_err("non-ASCII header text");
    assert_eq!(e, DecodeError { line_index: Some(0), kind: FormatError::InvalidEncoding });
}

#[test]
fn missing_delimiter_and_empty_tag_warnings() {
    // A line without `*`, and a line too short to have a tag.
    let mut buf = Vec::new();
    buf.extend_from_slice(b"\n");
    buf.extend_from_slice(b"$U,N354DT\n");
    buf.extend_from_slice(&make_line("U,VHABC"));
    buf.push(b'\n');
    buf.push(0x01);
    let d = decode_header(&buf, false).expect("lenient decode should succeed");
    assert_eq!(d.record.registration, Some("VHABC".to_string()));
    assert_eq!(
        d.warnings,
        vec![
            LineWarning { line_index: 0, tag: None, kind: FormatError::EmptyTagLine },
            LineWarning {
                line_index: 1,
                tag: Some(TAG_REGISTRATION),
                kind: FormatError::MissingChecksumDelimiter,
            },
        ]
    );
}

#[test]
fn invalid_checksum_digits_warning() {
    let mut buf = Vec::new();
    buf.extend_from_slice(b"$U,N354DT*GG\n");
    buf.extend_from_slice(b"$U,N354DT*0AB\n");
    buf.push(0x01);
    let d = decode_header(&buf, false).expect("lenient decode should succeed");
    assert_eq!(d.record.registration, None);
    assert_eq!(d.warnings.len(), 2);
    assert_eq!(d.warnings[0].kind, FormatError::InvalidChecksumDigits);
    assert_eq!(d.warnings[1].kind, FormatError::InvalidChecksumDigits);
}

#[test]
fn unknown_tags_are_ignored() {
    let d = decode_ok(&["Z,1,2,3", "U,N354DT", "Q"], false);
    assert_eq!(d.record.registration, Some("N354DT".to_string()));
    assert_eq!(d.record.alarms, None);
    assert!(d.warnings.is_empty());
}

#[test]
fn registration_with_wrong_token_count_left_unset() {
    let d = decode_ok(&["U,N354DT,EXTRA"], false);
    assert_eq!(d.record.registration, None);
    assert!(d.warnings.is_empty());
}

#[test]
fn later_line_with_same_tag_wins() {
    let d = decode_ok(&["U,N354DT", "U,VHXYZ"], false);
    assert_eq!(d.record.registration, Some("VHXYZ".to_string()));
}

#[test]
fn unparseable_alarm_token() {
    let d = decode_ok(&["A,135,115,35,420,xx,1650,50,240"], false);
    assert_eq!(d.record.alarms, None);
    assert_eq!(
        d.warnings,
        vec![LineWarning {
            line_index: 0,
            tag: Some(TAG_ALARMS),
            kind: FormatError::UnparseableNumericToken,
        }]
    );
    let e = decode_header(&make_buffer(&["A,135,115,35,420,xx,1650,50,240"]), true)
        .expect_err("strict decode should fail");
    assert_eq!(e.kind, FormatError::UnparseableNumericToken);
    assert_eq!(e.line_index, Some(0));
}

#[test]
fn alarm_values_may_be_negative() {
    let d = decode_ok(&["A,135,115,35,420,15,1650,50,-40"], false);
    let a = d.record.alarms.expect("alarms should be set");
    assert_eq!(a.oil_temp_min, -40);
}

#[test]
fn tokens_are_trimmed() {
    let d = decode_ok(&["U,  N354DT "], false);
    assert_eq!(d.record.registration, Some("N354DT".to_string()));
}

#[test]
fn carriage_return_line_endings_accepted() {
    let mut buf = Vec::new();
    buf.extend_from_slice(&make_line("U,N354DT"));
    buf.extend_from_slice(b"\r\n");
    buf.extend_from_slice(&make_line("Z,1"));
    buf.extend_from_slice(b"\r\n");
    buf.push(0x01);
    let d = decode_header(&buf, false).expect("decode should succeed");
    assert_eq!(d.record.registration, Some("N354DT".to_string()));
    assert!(d.warnings.is_empty());
}

#[test]
fn lowercase_checksum_digits_accepted() {
    let mut v = vec![b'$'];
    v.extend_from_slice(b"U,N354DT");
    let cs = b"U,N354DT".iter().fold(0u8, |a, b| a ^ *b);
    v.push(b'*');
    v.extend_from_slice(format!("{:02x}", cs).as_bytes());
    v.push(b'\n');
    v.push(0x01);
    let d = decode_header(&v, false).expect("decode should succeed");
    assert_eq!(d.record.registration, Some("N354DT".to_string()));
    assert!(d.warnings.is_empty());
}

#[test]
fn empty_record_from_empty_region() {
    // The very first byte pair is already the boundary: an empty header region.
    let buf = [b'\n', 0x01];
    let d = decode_header(&buf, false).expect("decode should succeed");
    assert_eq!(d.record, HeaderRecord::new());
    assert!(d.warnings.is_empty());
}
