use edm_header::checksum::validate_checksum;
use edm_header::errors::FormatError;
use edm_header::numbers::parse_i32_token;
use edm_header::scan::find_header_end;
use edm_header::tokens::tokenize_line;

fn make_line(content: &str) -> Vec<u8> {
    let mut v = vec![b'$'];
    v.extend_from_slice(content.as_bytes());
    let cs = content.as_bytes().iter().fold(0u8, |a, b| a ^ *b);
    v.push(b'*');
    v.extend_from_slice(format!("{:02X}", cs).as_bytes());
    v
}

#[test]
fn boundary_found_after_header_lines() {
    let mut buf = Vec::new();
    let l1 = make_line("U,N354DT");
    let l2 = make_line("A,135,115,35,420,15,1650,50,240");
    buf.extend_from_slice(&l1);
    buf.push(b'\n');
    buf.extend_from_slice(&l2);
    buf.push(b'\n');
    buf.push(0xff);
    let expected = l1.len() + 1 + l2.len();
    assert_eq!(find_header_end(&buf), Ok(expected));
}

#[test]
fn boundary_at_doubled_newline() {
    // A line feed followed by another line feed already ends the header.
    let buf = b"$U,X*2F\n\n$A*00\n\x01";
    assert_eq!(find_header_end(buf), Ok(7));
}

#[test]
fn boundary_missing() {
    assert_eq!(
        find_header_end(b"$U,N354DT*15\n$"),
        Err(FormatError::NoHeaderTerminator)
    );
    assert_eq!(find_header_end(b""), Err(FormatError::NoHeaderTerminator));
    assert_eq!(find_header_end(b"\n"), Err(FormatError::NoHeaderTerminator));
}

#[test]
fn checksum_accepts_valid_line() {
    assert_eq!(validate_checksum(&make_line("U,N354DT")), Ok(true));
}

#[test]
fn checksum_rejects_mutated_payload_byte() {
    let mut line = make_line("U,N354DT");
    assert_eq!(validate_checksum(&line), Ok(true));
    // Corrupt one payload byte between the `$` and the `*`, keeping the
    // checksum suffix unchanged: every such corruption must be detected.
    for i in 1..line.len() - 3 {
        let orig = line[i];
        line[i] = orig ^ 0x02;
        assert_eq!(validate_checksum(&line), Ok(false));
        line[i] = orig;
    }
}

#[test]
fn checksum_error_kinds() {
    assert_eq!(
        validate_checksum(b"$U,N354DT"),
        Err(FormatError::MissingChecksumDelimiter)
    );
    assert_eq!(
        validate_checksum(b"$U,N354DT*G5"),
        Err(FormatError::InvalidChecksumDigits)
    );
    assert_eq!(
        validate_checksum(b"$U,N354DT*155"),
        Err(FormatError::InvalidChecksumDigits)
    );
    assert_eq!(
        validate_checksum(b"$U,N354DT*5"),
        Err(FormatError::InvalidChecksumDigits)
    );
}

#[test]
fn tokenize_trims_and_drops_tag_token() {
    let toks = tokenize_line(b"$U,  N354DT , x,,9 *00");
    let expect: Vec<Vec<u8>> = vec![
        b"N354DT".to_vec(),
        b"x".to_vec(),
        b"".to_vec(),
        b"9".to_vec(),
    ];
    assert_eq!(toks, expect);
}

#[test]
fn tokenize_splits_at_first_star_only() {
    let toks = tokenize_line(b"$Z,a*b*00");
    let expect: Vec<Vec<u8>> = vec![b"a".to_vec()];
    assert_eq!(toks, expect);
}

#[test]
fn parse_i32_accepts_plain_and_signed_numbers() {
    assert_eq!(parse_i32_token(b"135"), Some(135));
    assert_eq!(parse_i32_token(b"+42"), Some(42));
    assert_eq!(parse_i32_token(b"-40"), Some(-40));
    assert_eq!(parse_i32_token(b"0"), Some(0));
    assert_eq!(parse_i32_token(b"2147483647"), Some(i32::MAX));
    assert_eq!(parse_i32_token(b"-2147483648"), Some(i32::MIN));
}

#[test]
fn parse_i32_rejects_malformed_and_out_of_range() {
    assert_eq!(parse_i32_token(b""), None);
    assert_eq!(parse_i32_token(b"-"), None);
    assert_eq!(parse_i32_token(b"+"), None);
    assert_eq!(parse_i32_token(b"12a"), None);
    assert_eq!(parse_i32_token(b" 12"), None);
    assert_eq!(parse_i32_token(b"13.5"), None);
    assert_eq!(parse_i32_token(b"2147483648"), None);
    assert_eq!(parse_i32_token(b"-2147483649"), None);
    assert_eq!(parse_i32_token(b"99999999999999999999"), None);
}
