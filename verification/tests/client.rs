use smtp_client::auth::AuthCommand;
use smtp_client::smtp::{MemTransport, SMTPClient, SMTPInner};
use smtp_client::Error;

fn transport(script: &str) -> MemTransport {
    MemTransport::new(script.as_bytes().to_vec())
}

const EHLO_REPLY: &str = "250-mail.example.com\r\n250-AUTH PLAIN LOGIN\r\n250 SIZE 10000000\r\n";

fn plain_credential() -> String {
    let sasl = b"\0user\0pass";
    base64::Engine::encode(&base64::engine::general_purpose::STANDARD, sasl)
}

#[test]
fn end_to_end_session() {
    let script = format!(
        "220 mail.example.com ready\r\n{}235 ok\r\n250 ok\r\n250 ok\r\n250 ok\r\n354 go\r\n250 queued\r\n221 bye\r\n",
        EHLO_REPLY
    );
    let mut client = SMTPClient::from_transport(transport(&script), "localhost").unwrap();
    client.auth(AuthCommand::Plain(None, "user".to_string(), "pass".to_string())).unwrap();
    client.send("a@b.com", "c@d.com", b"Hello\r\n".to_vec()).unwrap();
    client.quit().unwrap();

    let expected = format!(
        "EHLO localhost\r\nAUTH PLAIN {}\r\nRSET\r\nMAIL FROM:<a@b.com>\r\nRCPT TO:<c@d.com>\r\nDATA\r\nHello\r\n\r\n.\r\nQUIT\r\n",
        plain_credential()
    );
    assert_eq!(client.0.stream.written().clone(), expected.into_bytes());
}

#[test]
fn greeting_code_must_be_220() {
    let err = match SMTPClient::from_transport(transport("554 go away\r\n"), "localhost") {
        Err(e) => e,
        Ok(_) => panic!("a bad greeting must fail the construction"),
    };
    match err {
        Error::HandshakeError(inner) => match *inner {
            Error::ErrorReply(rep) => assert_eq!(rep.code, 554),
            _ => panic!("the handshake failure must wrap the bad reply"),
        },
        _ => panic!("a bad greeting must be a HandshakeError"),
    }
}

#[test]
fn ehlo_code_must_be_250() {
    let script = "220 hi\r\n502 no ehlo here\r\n";
    let err = match SMTPClient::from_transport(transport(script), "localhost") {
        Err(e) => e,
        Ok(_) => panic!("a bad EHLO reply must fail the construction"),
    };
    match err {
        Error::HandshakeError(inner) => match *inner {
            Error::ErrorReply(rep) => assert_eq!(rep.code, 502),
            _ => panic!("the handshake failure must wrap the bad reply"),
        },
        _ => panic!("a bad EHLO reply must be a HandshakeError"),
    }
}

#[test]
fn capability_map_from_handshake() {
    let script = format!("220 hi\r\n{}", EHLO_REPLY);
    let client = SMTPInner::init_from_stream(transport(&script), "localhost").unwrap();
    assert_eq!(
        client.supported_extensions.lookup("AUTH"),
        Some(Some("PLAIN LOGIN".to_string()))
    );
    assert_eq!(
        client.supported_extensions.lookup("SIZE"),
        Some(Some("10000000".to_string()))
    );
    assert_eq!(client.supported_extensions.lookup("DSN"), None);
}

#[test]
fn auth_reply_must_be_235() {
    let script = format!("220 hi\r\n{}535 bad credentials\r\n", EHLO_REPLY);
    let mut client = SMTPClient::from_transport(transport(&script), "localhost").unwrap();
    let err = client
        .auth(AuthCommand::Plain(None, "user".to_string(), "pass".to_string()))
        .unwrap_err();
    match err {
        Error::ErrorReply(rep) => {
            assert_eq!(rep.code, 535);
            assert_eq!(rep.text_lines, vec!["bad credentials".to_string()]);
        },
        _ => panic!("a bad AUTH reply must be an ErrorReply"),
    }
}

#[test]
fn auth_needs_the_capability() {
    let script = "220 hi\r\n250-mail.example.com\r\n250 SIZE 10000000\r\n";
    let mut client = SMTPClient::from_transport(transport(script), "localhost").unwrap();
    let err = client
        .auth(AuthCommand::Plain(None, "user".to_string(), "pass".to_string()))
        .unwrap_err();
    match err {
        Error::ExtensionNotSupported(name) => assert_eq!(name, "AUTH".to_string()),
        _ => panic!("AUTH without the capability must be ExtensionNotSupported"),
    }
}

#[test]
fn auth_advertised_without_parameters_is_unsupported() {
    let script = "220 hi\r\n250-mail.example.com\r\n250 AUTH\r\n";
    let mut client = SMTPClient::from_transport(transport(script), "localhost").unwrap();
    let err = client
        .auth(AuthCommand::Plain(None, "user".to_string(), "pass".to_string()))
        .unwrap_err();
    assert!(matches!(err, Error::ExtensionNotSupported(_)));
}

#[test]
fn transaction_stops_at_first_bad_code() {
    // RCPT is answered 550; DATA must never be sent.
    let script = format!("220 hi\r\n{}250 ok\r\n250 ok\r\n550 no such user\r\n", EHLO_REPLY);
    let mut client = SMTPClient::from_transport(transport(&script), "localhost").unwrap();
    let err = client.send("a@b.com", "nobody@d.com", b"Hi\r\n".to_vec()).unwrap_err();
    match err {
        Error::ErrorReply(rep) => assert_eq!(rep.code, 550),
        _ => panic!("a bad RCPT reply must be an ErrorReply"),
    }
    let written = String::from_utf8(client.0.stream.written().clone()).unwrap();
    assert!(written.ends_with("RCPT TO:<nobody@d.com>\r\n"));
    assert!(!written.contains("DATA"));
}

#[test]
fn data_begin_expects_354() {
    let script = format!("220 hi\r\n{}250 ok\r\n250 ok\r\n250 ok\r\n500 nope\r\n", EHLO_REPLY);
    let mut client = SMTPClient::from_transport(transport(&script), "localhost").unwrap();
    let err = client.send("a@b.com", "c@d.com", b"Hi\r\n".to_vec()).unwrap_err();
    match err {
        Error::ErrorReply(rep) => assert_eq!(rep.code, 500),
        _ => panic!("a bad DATA reply must be an ErrorReply"),
    }
    let written = String::from_utf8(client.0.stream.written().clone()).unwrap();
    assert!(written.ends_with("DATA\r\n"));
    assert!(!written.contains("Hi"));
}

#[test]
fn quit_expects_221() {
    let script = format!("220 hi\r\n{}500 confused\r\n", EHLO_REPLY);
    let mut client = SMTPClient::from_transport(transport(&script), "localhost").unwrap();
    let err = client.quit().unwrap_err();
    match err {
        Error::ErrorReply(rep) => assert_eq!(rep.code, 500),
        _ => panic!("a bad QUIT reply must be an ErrorReply"),
    }
}

#[test]
fn connection_loss_is_an_io_error() {
    let script = format!("220 hi\r\n{}", EHLO_REPLY);
    let mut client = SMTPClient::from_transport(transport(&script), "localhost").unwrap();
    let err = client.quit().unwrap_err();
    assert!(matches!(err, Error::ParseError(_)));
}
