use smtp_client::auth::AuthCommand;
use smtp_client::command::SMTPCommand;
use smtp_client::mail::{into_mail_list, MailBox, MailBuilder, MailData};
use smtp_client::mime::{ContentType, ContentTypeEncoding, MIMEBody};

#[test]
fn sasl_plain_credential() {
    // The transmitted AUTH parameter decodes back to authzid NUL authcid NUL
    // password, with an absent authzid defaulting to empty.
    let cmd = AuthCommand::Plain(None, "user".to_string(), "pass".to_string());
    let params = cmd.params().unwrap();
    let b64 = params.strip_prefix("PLAIN ").unwrap();
    let decoded =
        base64::Engine::decode(&base64::engine::general_purpose::STANDARD, b64).unwrap();
    assert_eq!(decoded, b"\0user\0pass".to_vec());
}

#[test]
fn sasl_plain_with_authzid() {
    let cmd = AuthCommand::Plain(
        Some("admin".to_string()),
        "user".to_string(),
        "pass".to_string(),
    );
    let params = cmd.params().unwrap();
    let b64 = params.strip_prefix("PLAIN ").unwrap();
    let decoded =
        base64::Engine::decode(&base64::engine::general_purpose::STANDARD, b64).unwrap();
    assert_eq!(decoded, b"admin\0user\0pass".to_vec());
}

#[test]
fn mailbox_rendering() {
    let plain = MailBox::from_address("a@b.com".to_string());
    assert_eq!(plain.render(), "<a@b.com>".to_string());
    let named = MailBox::with_name("Display Name".to_string(), "a@b.com".to_string());
    assert_eq!(named.render(), "\"Display Name\" <a@b.com>".to_string());
}

#[test]
fn mail_list_rendering() {
    let list = vec![
        MailBox::from_address("a@b.com".to_string()),
        MailBox::with_name("C".to_string(), "c@d.com".to_string()),
    ];
    assert_eq!(into_mail_list(&list), "<a@b.com>,\"C\" <c@d.com>".to_string());
    assert_eq!(into_mail_list(&Vec::new()), "".to_string());
}

#[test]
fn headers_last_write_wins() {
    let mut data = MailData::new();
    data.set_header("Subject".to_string(), "first".to_string());
    data.set_header("X-Tag".to_string(), "kept".to_string());
    data.set_header("Subject".to_string(), "second".to_string());
    assert_eq!(data.header("Subject"), Some(&"second".to_string()));
    assert_eq!(data.header("X-Tag"), Some(&"kept".to_string()));
    assert_eq!(data.header("Missing"), None);
    // The replaced header keeps its position.
    let bytes = data.into_bytes();
    assert_eq!(bytes, b"Subject: second\r\nX-Tag: kept\r\n\r\n\r\n".to_vec());
}

#[test]
fn mail_serialization_places_blank_line_before_body() {
    let mut data = MailData::new();
    data.set_header("A".to_string(), "1".to_string());
    data.body = b"BODY".to_vec();
    assert_eq!(data.into_bytes(), b"A: 1\r\n\r\n\r\nBODY".to_vec());
}

#[test]
fn builder_assembles_multipart_message() {
    let builder = MailBuilder::new();
    let boundary = builder.boundary.clone();
    assert_eq!(boundary.len(), 32);
    let mail = builder
        .from(MailBox::with_name("Sender".to_string(), "s@e.com".to_string()))
        .to(MailBox::from_address("r@e.com".to_string()))
        .cc(MailBox::from_address("cc@e.com".to_string()))
        .subject("Test Notification".to_string())
        .message_id("msg1".to_string())
        .body(b"part one\r\n".to_vec())
        .build();

    assert_eq!(mail.header("From"), Some(&"\"Sender\" <s@e.com>".to_string()));
    assert_eq!(mail.header("To"), Some(&"<r@e.com>".to_string()));
    assert_eq!(mail.header("Cc"), Some(&"<cc@e.com>".to_string()));
    assert_eq!(mail.header("Bcc"), None);
    assert_eq!(mail.header("Subject"), Some(&"Test Notification".to_string()));
    assert_eq!(mail.header("Message-ID"), Some(&"<msg1>".to_string()));
    assert_eq!(
        mail.header("Content-Type"),
        Some(&format!("multipart/mixed; boundary={}", boundary))
    );
    let date = mail.header("Date").unwrap().clone();
    assert!(chrono::DateTime::parse_from_rfc2822(&date).is_ok());

    let bytes = mail.into_bytes();
    let expected_body = format!("--{b}\r\npart one\r\n--{b}--\r\n", b = boundary);
    let text = String::from_utf8(bytes).unwrap();
    assert!(text.ends_with(&expected_body));
}

#[test]
fn builder_omits_empty_recipient_lists() {
    let mail = MailBuilder::new().from(MailBox::from_address("s@e.com".to_string())).build();
    assert_eq!(mail.header("To"), None);
    assert_eq!(mail.header("Cc"), None);
    assert_eq!(mail.header("Bcc"), None);
}

#[test]
fn fresh_boundaries_differ() {
    let a = MailBuilder::new().boundary;
    let b = MailBuilder::new().boundary;
    assert_ne!(a, b);
}

#[test]
fn mime_body_serialization() {
    let body = MIMEBody::new("text/plain").text("The text body of an email notification.");
    assert_eq!(
        body.into_bytes(),
        b"text/plain\r\n7bit\r\n\r\nThe text body of an email notification.\r\n\r\n".to_vec()
    );
}

#[test]
fn mime_encoding_line_follows_setting() {
    let mut body = MIMEBody::new("application/octet-stream");
    body.copy_from_slice(b"\x01\x02");
    body.set_encoding(ContentTypeEncoding::Base64);
    assert_eq!(
        body.into_bytes(),
        b"application/octet-stream\r\nbase64\r\n\r\n\x01\x02\r\n\r\n".to_vec()
    );
}

#[test]
fn content_type_parsing_and_rendering() {
    let ct = ContentType::from_text("text/html/a/b");
    assert_eq!(ct._type, "text".to_string());
    assert_eq!(ct.sub_type, "html".to_string());
    assert_eq!(ct.parameters, vec!["a".to_string(), "b".to_string()]);
    assert_eq!(ct.render(), "text/htmla;b".to_string());
    let plain = ContentType::from_text("text/plain");
    assert_eq!(plain.render(), "text/plain".to_string());
}

#[test]
fn content_type_default_is_plain_text() {
    let ct = ContentType::default();
    assert_eq!(ct.render(), "text/plain".to_string());
    assert!(matches!(ContentTypeEncoding::default(), ContentTypeEncoding::_7Bit));
}

#[test]
fn encoding_names() {
    assert_eq!(ContentTypeEncoding::_7Bit.encoding_str(), "7bit");
    assert_eq!(ContentTypeEncoding::_8Bit.encoding_str(), "8bit");
    assert_eq!(ContentTypeEncoding::Binary.encoding_str(), "binary");
    assert_eq!(ContentTypeEncoding::QuotedPrintable.encoding_str(), "quoted-printable");
    assert_eq!(ContentTypeEncoding::Base64.encoding_str(), "base64");
    assert_eq!(ContentTypeEncoding::IetfToken.encoding_str(), "ietf-token");
    assert_eq!(ContentTypeEncoding::XToken.encoding_str(), "x-token");
}
