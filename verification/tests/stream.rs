use smtp_client::command::Command;
use smtp_client::reply::{FromStream, Reply};
use smtp_client::smtp::{MemTransport, SMTPClient, StreamWrite, Transport};

const EHLO_REPLY: &str = "250-mail.example.com\r\n250-AUTH PLAIN\r\n250 SIZE 1000\r\n";

#[test]
fn mem_transport_reads_and_writes() {
    let mut t = MemTransport::new(b"ab".to_vec());
    assert_eq!(t.read_byte().unwrap(), b'a');
    assert_eq!(t.read_byte().unwrap(), b'b');
    assert!(t.read_byte().is_err());
    t.write_bytes(b"xy").unwrap();
    t.write_bytes(b"z").unwrap();
    assert_eq!(t.written().clone(), b"xyz".to_vec());
}

#[test]
fn reply_from_stream() {
    let mut t = MemTransport::new(b"354 go ahead\r\n".to_vec());
    let reply = Reply::from_stream(&mut t).unwrap();
    assert_eq!(reply.code, 354);
    assert_eq!(reply.text_lines, vec!["go ahead".to_string()]);
}

#[test]
fn commands_write_their_wire_bytes() {
    let mut t = MemTransport::new(Vec::new());
    Command::NOOP.write_to(&mut t).unwrap();
    Command::VRFY("who".to_string()).write_to(&mut t).unwrap();
    assert_eq!(t.written().clone(), b"NOOP\r\nVRFY who\r\n".to_vec());
}

#[test]
fn transparency_applies_through_the_client() {
    let script = format!(
        "220 hi\r\n{}250 ok\r\n250 ok\r\n250 ok\r\n354 go\r\n250 ok\r\n",
        EHLO_REPLY
    );
    let mut client =
        SMTPClient::from_transport(MemTransport::new(script.into_bytes()), "localhost").unwrap();
    client.send("a@b.com", "c@d.com", b"x\r\n.\r\ny\r\n".to_vec()).unwrap();
    let written = String::from_utf8(client.0.stream.written().clone()).unwrap();
    assert!(written.ends_with("DATA\r\nx\r\n..\r\ny\r\n\r\n.\r\n"));
}

#[test]
fn first_transaction_step_checks_its_code() {
    let script = format!("220 hi\r\n{}421 closing\r\n", EHLO_REPLY);
    let mut client =
        SMTPClient::from_transport(MemTransport::new(script.into_bytes()), "localhost").unwrap();
    let err = client.send("a@b.com", "c@d.com", Vec::new()).unwrap_err();
    match err {
        smtp_client::Error::ErrorReply(rep) => assert_eq!(rep.code, 421),
        _ => panic!("a bad RSET reply must be an ErrorReply"),
    }
    let written = String::from_utf8(client.0.stream.written().clone()).unwrap();
    assert!(written.ends_with("RSET\r\n"));
}
