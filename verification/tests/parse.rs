use smtp_client::reply::{ParseError, ReplyParser};
use smtp_client::smtp::MemTransport;

fn transport(script: &[u8]) -> MemTransport {
    MemTransport::new(script.to_vec())
}

#[test]
fn multi_line_reply() {
    let mut t = transport(b"250-A\r\n250-B\r\n250 C\r\n");
    let reply = ReplyParser::parse_from_stream(&mut t).unwrap();
    assert_eq!(reply.code, 250);
    assert_eq!(reply.text_lines, vec!["A".to_string(), "B".to_string(), "C".to_string()]);
}

#[test]
fn single_line_reply() {
    let mut t = transport(b"220 greeting\r\n");
    let reply = ReplyParser::parse_from_stream(&mut t).unwrap();
    assert_eq!(reply.code, 220);
    assert_eq!(reply.text_lines, vec!["greeting".to_string()]);
}

#[test]
fn first_line_code_is_recorded() {
    // Lines of one reply always carry the same code on a conforming peer;
    // when they disagree, the parser keeps the first code and does not treat
    // the mismatch as an error.
    let mut t = transport(b"250-A\r\n251 B\r\n");
    let reply = ReplyParser::parse_from_stream(&mut t).unwrap();
    assert_eq!(reply.code, 250);
    assert_eq!(reply.text_lines, vec!["A".to_string(), "B".to_string()]);
}

#[test]
fn unexpected_separator_byte() {
    let mut t = transport(b"250#oops\r\n");
    let err = match ReplyParser::parse_from_stream(&mut t) {
        Err(e) => e,
        Ok(_) => panic!("a bad separator byte must not yield a reply"),
    };
    assert!(matches!(err, ParseError::UnexpectedChar(b'#')));
}

#[test]
fn non_numeric_code() {
    let mut t = transport(b"2X0 hello\r\n");
    let err = ReplyParser::parse_from_stream(&mut t).unwrap_err();
    assert!(matches!(err, ParseError::ParseCodeError(b'X')));
}

#[test]
fn zero_length_final_line() {
    let mut t = transport(b"250\r\n");
    let reply = ReplyParser::parse_from_stream(&mut t).unwrap();
    assert_eq!(reply.code, 250);
    assert_eq!(reply.text_lines, vec!["".to_string()]);
}

#[test]
fn lone_cr_is_line_content() {
    let mut t = transport(b"250 a\rb\r\n");
    let reply = ReplyParser::parse_from_stream(&mut t).unwrap();
    assert_eq!(reply.text_lines, vec!["a\rb".to_string()]);
}

#[test]
fn cr_cr_lf_stays_in_line() {
    // After a CR that is not followed by LF, parsing goes back to plain line
    // content, so the LF right after the second CR does not end the line.
    let mut t = transport(b"250 a\r\r\nb\r\n");
    let reply = ReplyParser::parse_from_stream(&mut t).unwrap();
    assert_eq!(reply.text_lines, vec!["a\r\r\nb".to_string()]);
}

#[test]
fn non_utf8_line_is_an_error() {
    let mut t = transport(b"250 \xFF\xFE\r\n");
    let err = ReplyParser::parse_from_stream(&mut t).unwrap_err();
    assert!(matches!(err, ParseError::Utf8Error(_)));
}

#[test]
fn non_ascii_utf8_is_decoded() {
    let mut t = transport("250 h\u{e9}llo\r\n".as_bytes());
    let reply = ReplyParser::parse_from_stream(&mut t).unwrap();
    assert_eq!(reply.text_lines, vec!["h\u{e9}llo".to_string()]);
}

#[test]
fn truncated_reply_is_an_io_error() {
    let mut t = transport(b"250 no line end");
    let err = ReplyParser::parse_from_stream(&mut t).unwrap_err();
    assert!(matches!(err, ParseError::IOError(_)));
}

#[test]
fn parser_reads_no_further_than_one_reply() {
    let mut t = transport(b"220 first\r\n250 second\r\n");
    let first = ReplyParser::parse_from_stream(&mut t).unwrap();
    assert_eq!(first.code, 220);
    let second = ReplyParser::parse_from_stream(&mut t).unwrap();
    assert_eq!(second.code, 250);
    assert_eq!(second.text_lines, vec!["second".to_string()]);
}

#[test]
fn expect_code_passes_and_fails() {
    let mut t = transport(b"250 fine\r\n");
    let reply = ReplyParser::parse_from_stream(&mut t).unwrap();
    let reply = reply.expect_code(250).unwrap();
    let err = reply.expect_code(354).unwrap_err();
    match err {
        smtp_client::Error::ErrorReply(rep) => assert_eq!(rep.code, 250),
        _ => panic!("a code mismatch must come back as ErrorReply"),
    }
}
