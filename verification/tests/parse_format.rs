use iron_coder::parse::{parse_line, parse_records, token_ok, ParseError, ParseMode, Record};

fn rec(u: &[u8], p: &[u8]) -> Record {
    Record { username: u.to_vec(), password: p.to_vec() }
}

#[test]
fn two_plain_records() {
    let recs = parse_records(b"alice pw1\nbob pw2\n", ParseMode::Permissive).unwrap();
    assert_eq!(recs, vec![rec(b"alice", b"pw1"), rec(b"bob", b"pw2")]);
}

#[test]
fn empty_content_is_empty_store() {
    assert_eq!(parse_records(b"", ParseMode::Strict).unwrap(), vec![]);
    assert_eq!(parse_records(b"", ParseMode::Permissive).unwrap(), vec![]);
}

#[test]
fn missing_trailing_newline_still_parses() {
    let recs = parse_records(b"alice pw1", ParseMode::Strict).unwrap();
    assert_eq!(recs, vec![rec(b"alice", b"pw1")]);
}

#[test]
fn blank_lines_and_extra_whitespace_skipped() {
    let recs = parse_records(b"\n  \n  alice \t pw1  \n\n", ParseMode::Strict).unwrap();
    assert_eq!(recs, vec![rec(b"alice", b"pw1")]);
}

#[test]
fn third_token_is_ignored() {
    let recs = parse_records(b"alice pw1 leftover junk\n", ParseMode::Permissive).unwrap();
    assert_eq!(recs, vec![rec(b"alice", b"pw1")]);
}

#[test]
fn carriage_return_is_token_separator() {
    let recs = parse_records(b"alice pw1\r\nbob pw2\r\n", ParseMode::Strict).unwrap();
    assert_eq!(recs, vec![rec(b"alice", b"pw1"), rec(b"bob", b"pw2")]);
}

#[test]
fn malformed_line_skipped_when_permissive() {
    let recs = parse_records(b"alice pw1\nbob\ncarol pw3\n", ParseMode::Permissive).unwrap();
    assert_eq!(recs, vec![rec(b"alice", b"pw1"), rec(b"carol", b"pw3")]);
}

#[test]
fn malformed_line_rejected_when_strict() {
    assert_eq!(
        parse_records(b"alice pw1\nbob\ncarol pw3\n", ParseMode::Strict),
        Err(ParseError::MalformedRecord)
    );
    assert_eq!(parse_records(b"bob", ParseMode::Strict), Err(ParseError::MalformedRecord));
    assert_eq!(parse_records(b"  bob  \n", ParseMode::Strict), Err(ParseError::MalformedRecord));
}

#[test]
fn single_line_parse() {
    assert_eq!(parse_line(b"alice pw1"), Some(rec(b"alice", b"pw1")));
    assert_eq!(parse_line(b"  alice  pw1  more"), Some(rec(b"alice", b"pw1")));
    assert_eq!(parse_line(b""), None);
    assert_eq!(parse_line(b"   "), None);
    assert_eq!(parse_line(b"alice"), None);
    assert_eq!(parse_line(b"alice   "), None);
}

#[test]
fn token_ok_accepts_only_whitespace_free_nonempty() {
    assert!(token_ok(b"alice"));
    assert!(token_ok(b"pw-1_x!"));
    assert!(!token_ok(b""));
    assert!(!token_ok(b"a b"));
    assert!(!token_ok(b"a\tb"));
    assert!(!token_ok(b"a\nb"));
    assert!(!token_ok(b"a\rb"));
}
