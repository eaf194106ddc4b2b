use smtp_client::buffer::{Buffer, SliceFrom, SliceTo};
use smtp_client::smtp::{parse_port, set_default_port, Endpoint};

#[test]
fn fresh_buffer_covers_whole_storage() {
    let b = Buffer::new(4);
    assert_eq!(b.raw(), &[0u8, 0, 0, 0]);
    assert_eq!(b.len(), 4);
}

#[test]
fn window_moves_without_copying() {
    let mut b = Buffer::new(6);
    b.set(0, 10);
    b.set(5, 20);
    let b = b.shrink_head_uncheck(2);
    assert_eq!(b.len(), 4);
    assert_eq!(b.get(3), 20);
    let b = b.shrink_tail_uncheck(1);
    assert_eq!(b.len(), 3);
    let b = b.extend_head_uncheck(1);
    assert_eq!(b.len(), 4);
    assert_eq!(b.get(0), 0);
    let b = b.extend_tail_uncheck(1);
    assert_eq!(b.len(), 5);
    let b = b.reset();
    assert_eq!(b.len(), 6);
    assert_eq!(b.get(0), 10);
    assert_eq!(b.raw(), &[10u8, 0, 0, 0, 0, 20]);
}

#[test]
fn window_writes_land_in_storage() {
    let mut b = Buffer::new(3);
    let mut b2 = {
        b = b.shrink_head_uncheck(1);
        b
    };
    b2.set(0, 7);
    let b3 = b2.reset();
    assert_eq!(b3.raw(), &[0u8, 7, 0]);
}

#[test]
fn slicing_narrows_the_window() {
    let b = Buffer::new(5);
    let b = SliceFrom::slice(b, 2);
    assert_eq!(b.len(), 3);
    let b = SliceTo::slice(b, 4);
    assert_eq!(b.len(), 2);
}

#[test]
fn port_parsing() {
    assert_eq!(parse_port("25"), Some(25));
    assert_eq!(parse_port("0"), Some(0));
    assert_eq!(parse_port("65535"), Some(65535));
    assert_eq!(parse_port("65536"), None);
    assert_eq!(parse_port(""), None);
    assert_eq!(parse_port("2x"), None);
    assert_eq!(parse_port("007"), Some(7));
}

#[test]
fn endpoint_parsing() {
    let ep = Endpoint::parse("mail.example.com:587").unwrap();
    assert_eq!(ep.host, "mail.example.com".to_string());
    assert_eq!(ep.port, 587);
    let bare = Endpoint::parse("mail.example.com").unwrap();
    assert_eq!(bare.port, 0);
    assert!(Endpoint::parse("h:99999").is_none());
    assert!(Endpoint::parse("h:").is_none());
}

#[test]
fn default_port_fills_only_missing() {
    let (host, port) = set_default_port(Endpoint { host: "h".to_string(), port: 0 }, 25);
    assert_eq!((host.as_str(), port), ("h", 25));
    let (_, port) = set_default_port(Endpoint { host: "h".to_string(), port: 465 }, 25);
    assert_eq!(port, 465);
}
