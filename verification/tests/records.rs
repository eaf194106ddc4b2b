use smtp_client::model::{
    build_mail, variant_eq, Access, AccessManagerProfile, EmailNotify, ExtractProfile, MailData,
    NotifyProfile, NotifyState, Service, ServiceManagerProfile, ValidateProfile,
};

fn notify_profile() -> NotifyProfile {
    NotifyProfile {
        smtp_address: "192.0.2.1".to_string(),
        tls: false,
        username: "user@example.com".to_string(),
        password: "password".to_string(),
        email_address: "user@example.com".to_string(),
        name: "Display Name".to_string(),
    }
}

#[test]
fn access_levels_order() {
    assert_eq!(Access::Root.level(), 4);
    assert_eq!(Access::Admin.level(), 2);
    assert_eq!(Access::User.level(), 0);
    assert!(Access::User.level() < Access::Admin.level());
    assert!(Access::Admin.level() < Access::Root.level());
}

#[test]
fn service_kind_names() {
    let a = Service::UserAccessControl(AccessManagerProfile { access: Access::User });
    let n = Service::EmailNotify(notify_profile());
    let m = Service::ServiceManagement(ServiceManagerProfile { access: Access::Admin });
    assert_eq!(a.kind_name(), "UserAccessControl");
    assert_eq!(n.kind_name(), "EmailNotify");
    assert_eq!(m.kind_name(), "ServiceManagement");
}

#[test]
fn variant_equality_ignores_profiles() {
    let a = Service::UserAccessControl(AccessManagerProfile { access: Access::User });
    let b = Service::UserAccessControl(AccessManagerProfile { access: Access::Root });
    let c = Service::EmailNotify(notify_profile());
    assert!(variant_eq(&a, &b));
    assert!(!variant_eq(&a, &c));
}

#[test]
fn profile_extraction_matches_variant() {
    let s = Service::EmailNotify(notify_profile());
    assert!(NotifyProfile::extract_from(&s).is_some());
    assert!(AccessManagerProfile::extract_from(&s).is_none());
    assert!(ServiceManagerProfile::extract_from(&s).is_none());
}

#[test]
fn validation_needs_a_higher_manager() {
    let manager = ServiceManagerProfile { access: Access::Admin };
    assert!(AccessManagerProfile { access: Access::User }.validate_properties(&manager));
    assert!(!AccessManagerProfile { access: Access::Admin }.validate_properties(&manager));
    assert!(!AccessManagerProfile { access: Access::Root }.validate_properties(&manager));
    assert!(notify_profile().validate_properties(&manager));
    let service = Service::ServiceManagement(ServiceManagerProfile { access: Access::User });
    assert!(service.validate_properties(&manager));
}

#[test]
fn notify_states() {
    assert!(NotifyState::Pending.is_pending());
    assert!(!NotifyState::Pending.is_sent());
    assert!(NotifyState::Sent.is_sent());
    let err = NotifyState::Error("public".to_string(), "raw".to_string());
    assert!(err.is_error());
    assert!(!err.is_pending());
}

#[test]
fn notification_becomes_a_message() {
    let notify = EmailNotify {
        message_id: "id-1".to_string(),
        status: NotifyState::Pending,
        mail: MailData {
            to: "test@sardinefish.com".to_string(),
            subject: "Test Notification".to_string(),
            content_type: "text/plain".to_string(),
            body: "The text body of an email notification.".to_string(),
        },
    };
    let mail = build_mail(&notify, &notify_profile());
    assert_eq!(mail.header("From"), Some(&"\"Display Name\" <user@example.com>".to_string()));
    assert_eq!(mail.header("To"), Some(&"<test@sardinefish.com>".to_string()));
    assert_eq!(mail.header("Subject"), Some(&"Test Notification".to_string()));
    assert_eq!(mail.header("Message-ID"), Some(&"<id-1>".to_string()));
    let text = String::from_utf8(mail.into_bytes()).unwrap();
    assert!(text.contains("text/plain\r\n7bit\r\n\r\nThe text body of an email notification.\r\n\r\n"));
}
