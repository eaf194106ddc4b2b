use smtp_client::command::{encode_data_content, Command, SMTPCommand};
use smtp_client::utils::{smtp_data_transparency, split_buffer_crlf};

#[test]
fn mail_round_trip() {
    let cmd = Command::MAIL("a@b.com".to_string());
    assert_eq!(cmd.encode(), b"MAIL FROM:<a@b.com>\r\n".to_vec());
}

#[test]
fn rcpt_encoding() {
    let cmd = Command::RCPT("c@d.org".to_string());
    assert_eq!(cmd.encode(), b"RCPT TO:<c@d.org>\r\n".to_vec());
}

#[test]
fn ehlo_and_helo_encoding() {
    assert_eq!(Command::EHLO("localhost".to_string()).encode(), b"EHLO localhost\r\n".to_vec());
    assert_eq!(Command::HELO("h.example".to_string()).encode(), b"HELO h.example\r\n".to_vec());
}

#[test]
fn bare_verb_encoding() {
    assert_eq!(Command::DATABegin.encode(), b"DATA\r\n".to_vec());
    assert_eq!(Command::RSET.encode(), b"RSET\r\n".to_vec());
    assert_eq!(Command::NOOP.encode(), b"NOOP\r\n".to_vec());
    assert_eq!(Command::QUIT.encode(), b"QUIT\r\n".to_vec());
}

#[test]
fn vrfy_encoding() {
    assert_eq!(Command::VRFY("postmaster".to_string()).encode(), b"VRFY postmaster\r\n".to_vec());
}

#[test]
fn verb_and_params_accessors() {
    let cmd = Command::MAIL("a@b.com".to_string());
    assert_eq!(cmd.command(), "MAIL");
    assert_eq!(cmd.params(), Some("FROM:<a@b.com>".to_string()));
    assert_eq!(Command::QUIT.params(), None);
    assert_eq!(Command::DATAContent(Vec::new()).command(), "");
}

#[test]
fn transparency_stuffs_exact_dot_line() {
    let payload = b"foo\r\n.\r\nbar\r\n".to_vec();
    let cmd = Command::DATAContent(payload);
    assert_eq!(cmd.encode(), b"foo\r\n..\r\nbar\r\n\r\n.\r\n".to_vec());
}

#[test]
fn transparency_leaves_dot_prefixed_lines_alone() {
    // A line that merely starts with a dot is not exactly `.` + CRLF, and is
    // written unmodified.
    let payload = b".keep\r\n".to_vec();
    assert_eq!(encode_data_content(&payload), b".keep\r\n\r\n.\r\n".to_vec());
}

#[test]
fn terminator_always_appended() {
    assert_eq!(encode_data_content(b"no trailing newline"), b"no trailing newline\r\n.\r\n".to_vec());
    assert_eq!(encode_data_content(b""), b"\r\n.\r\n".to_vec());
}

#[test]
fn data_transparency_predicate() {
    assert!(smtp_data_transparency(b".\r\n"));
    assert!(!smtp_data_transparency(b".x\r\n"));
    assert!(!smtp_data_transparency(b"..\r\n"));
    assert!(!smtp_data_transparency(b".\r"));
    assert!(!smtp_data_transparency(b""));
}

#[test]
fn split_keeps_every_byte() {
    let data = b"one\r\ntwo\r\nlast";
    let lines = split_buffer_crlf(data);
    assert_eq!(lines.len(), 3);
    assert_eq!(lines[0], b"one\r\n".to_vec());
    assert_eq!(lines[1], b"two\r\n".to_vec());
    assert_eq!(lines[2], b"last".to_vec());
    let joined: Vec<u8> = lines.concat();
    assert_eq!(joined, data.to_vec());
}

#[test]
fn split_of_empty_and_terminated_payloads() {
    assert_eq!(split_buffer_crlf(b"").len(), 0);
    let lines = split_buffer_crlf(b"x\r\n");
    assert_eq!(lines.len(), 1);
    assert_eq!(lines[0], b"x\r\n".to_vec());
}
