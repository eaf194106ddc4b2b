//! The data the dispatch service keeps about users, their services and
//! queued notifications, as far as the mail-sending logic reads it: access
//! levels, service profiles, notification state, and the assembly of a
//! notification into a wire-ready message.
use crate::extension::find_char;
use crate::mail::{
    spec_build_headers, spec_multipart_body, spec_set_header, MailBox, MailBuilder,
};
use crate::mime::{spec_mime_bytes, MIMEBody};
use vstd::prelude::*;
use vstd::string::*;
use vstd::utf8::encode_utf8;

verus! {

/// A user's access level. `Root` outranks `Admin`, which outranks `User`.
#[derive(Clone, Copy, PartialEq, Eq, Structural, Debug, Hash)]
pub enum Access {
    Root,
    Admin,
    User,
}

impl Access {
    /// The numeric rank the levels are compared by.
    pub open spec fn spec_level(&self) -> int {
        match self {
            Access::Root => 4,
            Access::Admin => 2,
            Access::User => 0,
        }
    }

    /// The numeric rank of this level.
    pub fn level(&self) -> (r: u8)
        ensures
            r as int == self.spec_level(),
    {
        match self {
            Access::Root => 4,
            Access::Admin => 2,
            Access::User => 0,
        }
    }
}

/// The profile of the user-access-control service: the level its holder may
/// manage below.
#[derive(Clone, Copy, PartialEq, Eq, Structural, Debug)]
pub struct AccessManagerProfile {
    pub access: Access,
}

/// The profile of the service-management service.
#[derive(Clone, Copy, PartialEq, Eq, Structural, Debug)]
pub struct ServiceManagerProfile {
    pub access: Access,
}

/// The profile of the mail-notification service: where and how to submit.
#[derive(Clone, PartialEq, Debug)]
pub struct NotifyProfile {
    pub smtp_address: String,
    pub tls: bool,
    pub username: String,
    pub password: String,
    pub email_address: String,
    pub name: String,
}

/// One service a user holds, with its profile.
#[derive(Clone, PartialEq, Debug)]
pub enum Service {
    UserAccessControl(AccessManagerProfile),
    EmailNotify(NotifyProfile),
    ServiceManagement(ServiceManagerProfile),
}

impl Service {
    /// The tag a service is stored and matched under.
    pub fn kind_name(&self) -> (r: &'static str)
        ensures
            match self {
                Service::UserAccessControl(_) => r@ == "UserAccessControl"@,
                Service::EmailNotify(_) => r@ == "EmailNotify"@,
                Service::ServiceManagement(_) => r@ == "ServiceManagement"@,
            },
    {
        match self {
            Service::UserAccessControl(_) => "UserAccessControl",
            Service::EmailNotify(_) => "EmailNotify",
            Service::ServiceManagement(_) => "ServiceManagement",
        }
    }
}

/// Both services are of the same kind, whatever their profiles hold.
pub open spec fn spec_same_variant(a: &Service, b: &Service) -> bool {
    match (a, b) {
        (Service::UserAccessControl(_), Service::UserAccessControl(_)) => true,
        (Service::EmailNotify(_), Service::EmailNotify(_)) => true,
        (Service::ServiceManagement(_), Service::ServiceManagement(_)) => true,
        _ => false,
    }
}

/// Tells whether two services are of the same kind.
pub fn variant_eq(a: &Service, b: &Service) -> (r: bool)
    ensures
        r == spec_same_variant(a, b),
{
    match (a, b) {
        (Service::UserAccessControl(_), Service::UserAccessControl(_)) => true,
        (Service::EmailNotify(_), Service::EmailNotify(_)) => true,
        (Service::ServiceManagement(_), Service::ServiceManagement(_)) => true,
        _ => false,
    }
}

/// Whether a manager may create or change a service profile.
pub trait ValidateProfile {
    /// When the profile passes, as a predicate over the manager's level.
    spec fn spec_valid(&self, manager: &ServiceManagerProfile) -> bool;

    fn validate_properties(&self, profile: &ServiceManagerProfile) -> (r: bool)
        ensures
            r == self.spec_valid(profile),
    ;
}

impl ValidateProfile for AccessManagerProfile {
    /// Only a strictly higher-ranked manager may hand out this profile.
    open spec fn spec_valid(&self, manager: &ServiceManagerProfile) -> bool {
        self.access.spec_level() < manager.access.spec_level()
    }

    fn validate_properties(&self, profile: &ServiceManagerProfile) -> (r: bool) {
        self.access.level() < profile.access.level()
    }
}

impl ValidateProfile for ServiceManagerProfile {
    /// Only a strictly higher-ranked manager may hand out this profile.
    open spec fn spec_valid(&self, manager: &ServiceManagerProfile) -> bool {
        self.access.spec_level() < manager.access.spec_level()
    }

    fn validate_properties(&self, profile: &ServiceManagerProfile) -> (r: bool) {
        self.access.level() < profile.access.level()
    }
}

impl ValidateProfile for NotifyProfile {
    /// Any manager may hand out a notification profile.
    open spec fn spec_valid(&self, manager: &ServiceManagerProfile) -> bool {
        manager.access.spec_level() >= Access::User.spec_level()
    }

    fn validate_properties(&self, profile: &ServiceManagerProfile) -> (r: bool) {
        profile.access.level() >= 0
    }
}

impl ValidateProfile for Service {
    /// Each kind checks its own profile.
    open spec fn spec_valid(&self, manager: &ServiceManagerProfile) -> bool {
        match self {
            Service::UserAccessControl(p) => p.spec_valid(manager),
            Service::EmailNotify(p) => p.spec_valid(manager),
            Service::ServiceManagement(p) => p.spec_valid(manager),
        }
    }

    fn validate_properties(&self, profile: &ServiceManagerProfile) -> (r: bool) {
        match self {
            Service::UserAccessControl(p) => p.validate_properties(profile),
            Service::EmailNotify(p) => p.validate_properties(profile),
            Service::ServiceManagement(p) => p.validate_properties(profile),
        }
    }
}

/// Picking one's own profile kind out of a service entry.
pub trait ExtractProfile<T>: Sized {
    /// The profile this extractor finds in the entry, when the kind fits.
    spec fn spec_extract(service: &Service) -> Option<Self>;

    fn extract_from(service: &Service) -> (r: Option<&Self>)
        ensures
            match r {
                Some(p) => Self::spec_extract(service) == Some(*p),
                None => Self::spec_extract(service) is None,
            },
    ;
}

impl ExtractProfile<AccessManagerProfile> for AccessManagerProfile {
    open spec fn spec_extract(service: &Service) -> Option<AccessManagerProfile> {
        match service {
            Service::UserAccessControl(p) => Some(*p),
            _ => None,
        }
    }

    fn extract_from(service: &Service) -> (r: Option<&AccessManagerProfile>) {
        match service {
            Service::UserAccessControl(p) => Some(p),
            _ => None,
        }
    }
}

impl ExtractProfile<ServiceManagerProfile> for ServiceManagerProfile {
    open spec fn spec_extract(service: &Service) -> Option<ServiceManagerProfile> {
        match service {
            Service::ServiceManagement(p) => Some(*p),
            _ => None,
        }
    }

    fn extract_from(service: &Service) -> (r: Option<&ServiceManagerProfile>) {
        match service {
            Service::ServiceManagement(p) => Some(p),
            _ => None,
        }
    }
}

impl ExtractProfile<NotifyProfile> for NotifyProfile {
    open spec fn spec_extract(service: &Service) -> Option<NotifyProfile> {
        match service {
            Service::EmailNotify(p) => Some(*p),
            _ => None,
        }
    }

    fn extract_from(service: &Service) -> (r: Option<&NotifyProfile>) {
        match service {
            Service::EmailNotify(p) => Some(p),
            _ => None,
        }
    }
}

/// Where a queued notification stands. An error keeps a public summary and
/// the raw error text.
#[derive(Clone, PartialEq, Debug)]
pub enum NotifyState {
    Pending,
    Sent,
    Error(String, String),
}

impl NotifyState {
    pub fn is_pending(&self) -> (r: bool)
        ensures
            r == (self is Pending),
    {
        match self {
            NotifyState::Pending => true,
            _ => false,
        }
    }

    pub fn is_sent(&self) -> (r: bool)
        ensures
            r == (self is Sent),
    {
        match self {
            NotifyState::Sent => true,
            _ => false,
        }
    }

    pub fn is_error(&self) -> (r: bool)
        ensures
            r == (self is Error),
    {
        match self {
            NotifyState::Error(_, _) => true,
            _ => false,
        }
    }
}

/// What one notification asks to send.
#[derive(Clone, PartialEq, Debug)]
pub struct MailData {
    pub to: String,
    pub subject: String,
    pub content_type: String,
    pub body: String,
}

/// One queued notification.
#[derive(Clone, PartialEq, Debug)]
pub struct EmailNotify {
    pub message_id: String,
    pub status: NotifyState,
    pub mail: MailData,
}

/// Builds the wire-ready message for a notification: its body as a single
/// MIME part of the requested content type, the sender rendered from the
/// notification profile, and the notification's recipient, message id and
/// subject. The content type must name a `type/subtype`.
pub fn build_mail(notify: &EmailNotify, profile: &NotifyProfile) -> (r: crate::mail::MailData)
    requires
        find_char(notify.mail.content_type@, '/') >= 0,
    ensures
        exists|date: Seq<char>, boundary: Seq<char>|
            {
                &&& r.headers_view() == #[trigger] spec_build_headers(
                    spec_set_header(
                        spec_set_header(
                            spec_set_header(
                                Seq::empty(),
                                "From"@,
                                "\""@ + profile.name@ + "\" <"@ + profile.email_address@ + ">"@,
                            ),
                            "Message-ID"@,
                            "<"@ + notify.message_id@ + ">"@,
                        ),
                        "Subject"@,
                        notify.mail.subject@,
                    ),
                    seq![MailBox { display_name: None, address: notify.mail.to }],
                    Seq::empty(),
                    Seq::empty(),
                    boundary,
                    date,
                )
                &&& r.body@ == spec_multipart_body(
                    boundary,
                    seq![
                        spec_mime_bytes(
                            spec_rendered_content_type(notify.mail.content_type@),
                            "7bit"@,
                            encode_utf8(notify.mail.body@),
                        ),
                    ],
                )
            },
{
    let content = MIMEBody::new(notify.mail.content_type.as_str()).text(notify.mail.body.as_str());
    let builder = MailBuilder::new()
        .from(MailBox::with_name(profile.name.clone(), profile.email_address.clone()))
        .to(MailBox::from_address(notify.mail.to.clone()))
        .message_id(notify.message_id.clone())
        .subject(notify.mail.subject.clone())
        .body(content.into_bytes());
    let ghost gboundary = builder.boundary@;
    let ghost gto = builder.to@;
    let ghost gparts = builder.body_parts@.map_values(|p: Vec<u8>| p@);
    proof {
        assert(gto =~= seq![MailBox { display_name: None, address: notify.mail.to }]);
        assert(gparts =~= seq![
            spec_mime_bytes(
                spec_rendered_content_type(notify.mail.content_type@),
                "7bit"@,
                encode_utf8(notify.mail.body@),
            ),
        ]);
    }
    builder.build()
}

/// How a `type/subtype[/param...]` text reads back after parsing and
/// rendering: the type, a slash, the subtype, and the further pieces joined
/// with semicolons.
pub open spec fn spec_rendered_content_type(text: Seq<char>) -> Seq<char> {
    let i = find_char(text, '/');
    let rest = crate::extension::spec_split_char(text.skip(i + 1), '/');
    text.take(i) + "/"@ + rest[0] + crate::mime::spec_join_semi(rest.skip(1))
}

} // verus!
