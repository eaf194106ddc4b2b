//! An SMTP submission client: an incremental reply parser, command encoding
//! with the DATA transparency rule, capability negotiation, PLAIN
//! authentication, and RFC 2822 / MIME message construction.
pub mod auth;
pub mod buffer;
pub mod command;
pub mod error;
pub mod extension;
pub mod mail;
pub mod mime;
pub mod model;
pub mod reply;
pub mod smtp;
pub mod utils;

pub use crate::auth::AuthCommand;
pub use crate::error::{Error, SmtpResult};
pub use crate::mail::MailBuilder;
pub use crate::mime::MIMEBody;
pub use crate::smtp::SMTPClient;
