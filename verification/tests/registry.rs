use smtp_client::auth::{Auth, Mechanism};
use smtp_client::extension::{
    eq_ignore_ascii_case, parse_capabilities, split_char, split_spaces, str_eq, CapabilityMap,
    Extension,
};

#[test]
fn ehlo_lines_become_capabilities() {
    let lines = vec![
        "mail.example.com".to_string(),
        "AUTH PLAIN LOGIN".to_string(),
        "SIZE 10000000".to_string(),
        "8BITMIME".to_string(),
    ];
    let map = parse_capabilities(&lines);
    assert_eq!(map.lookup("AUTH"), Some(Some("PLAIN LOGIN".to_string())));
    assert_eq!(map.lookup("SIZE"), Some(Some("10000000".to_string())));
    assert_eq!(map.lookup("8BITMIME"), Some(None));
    assert_eq!(map.lookup("DSN"), None);
    assert_eq!(map.len(), 3);
}

#[test]
fn banner_line_is_skipped() {
    let lines = vec!["AUTH PLAIN".to_string()];
    let map = parse_capabilities(&lines);
    assert_eq!(map.len(), 0);
    assert_eq!(map.lookup("AUTH"), None);
}

#[test]
fn lookup_ignores_ascii_case() {
    let lines = vec!["banner".to_string(), "Auth PLAIN".to_string()];
    let map = parse_capabilities(&lines);
    assert_eq!(map.lookup("AUTH"), Some(Some("PLAIN".to_string())));
    assert_eq!(map.lookup("auth"), Some(Some("PLAIN".to_string())));
}

#[test]
fn insert_replaces_same_name() {
    let mut map = CapabilityMap::new();
    map.insert("a".to_string(), Some("1".to_string()));
    map.insert("A".to_string(), Some("2".to_string()));
    assert_eq!(map.len(), 1);
    assert_eq!(map.lookup("a"), Some(Some("2".to_string())));
}

#[test]
fn mechanism_tokens() {
    assert!(matches!(Mechanism::from_name("PLAIN"), Mechanism::Plain));
    assert!(matches!(Mechanism::from_name("plain"), Mechanism::Plain));
    assert!(matches!(Mechanism::from_name("Login"), Mechanism::Login));
    assert!(matches!(Mechanism::from_name("CRAM-MD5"), Mechanism::Unknown));
    assert!(matches!(Mechanism::from_name(""), Mechanism::Unknown));
}

#[test]
fn auth_registration_drops_unknown_tokens() {
    let params = vec!["PLAIN".to_string(), "XOAUTH2".to_string(), "LOGIN".to_string()];
    let auth = Auth::register(&params);
    assert_eq!(auth.supported_mechanism, vec![Mechanism::Plain, Mechanism::Login]);
    assert_eq!(Auth::name(), "AUTH");
}

#[test]
fn splitting_parameter_texts() {
    let tokens = split_spaces("PLAIN LOGIN");
    assert_eq!(tokens, vec!["PLAIN".to_string(), "LOGIN".to_string()]);
    assert_eq!(split_spaces(""), vec!["".to_string()]);
    assert_eq!(
        split_spaces("a  b"),
        vec!["a".to_string(), "".to_string(), "b".to_string()]
    );
    assert_eq!(
        split_char("text/html/x", '/'),
        vec!["text".to_string(), "html".to_string(), "x".to_string()]
    );
}

#[test]
fn text_comparisons() {
    assert!(eq_ignore_ascii_case("AuTh", "auth"));
    assert!(!eq_ignore_ascii_case("AUTH", "AUT"));
    assert!(!eq_ignore_ascii_case("SIZE", "AUTH"));
    assert!(str_eq("same", "same"));
    assert!(!str_eq("same", "Same"));
}
