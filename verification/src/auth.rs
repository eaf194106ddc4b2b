//! The AUTH extension: recognised SASL mechanisms, the PLAIN credential
//! encoding, and the command/reply exchange that performs authentication.
use crate::command::{spec_command_line, SMTPCommand};
use crate::error::{Error as SMTPError, SmtpResult};
use crate::extension::{eq_ignore_ascii_case, fold_eq, option_view, Extension};
use crate::reply::{initial_machine, matches_err, spec_run, RunResult};
use crate::smtp::{SMTPInner, Transport};
use vstd::prelude::*;
use vstd::string::*;
use vstd::utf8::encode_utf8;

verus! {

/// A SASL mechanism token, as advertised by the peer. Unrecognised tokens
/// map to `Unknown` and are dropped, not treated as errors.
#[derive(Clone, Copy, PartialEq, Eq, Structural, Debug)]
pub enum Mechanism {
    Plain,
    Login,
    Unknown,
}

impl Mechanism {
    /// Which mechanism a token names, matched up to ASCII case.
    pub open spec fn spec_from(name: Seq<char>) -> Mechanism {
        if fold_eq(name, "PLAIN"@) {
            Mechanism::Plain
        } else if fold_eq(name, "LOGIN"@) {
            Mechanism::Login
        } else {
            Mechanism::Unknown
        }
    }

    /// Maps a mechanism token to the known set.
    pub fn from_name(name: &str) -> (r: Mechanism)
        ensures
            r == Mechanism::spec_from(name@),
    {
        if eq_ignore_ascii_case(name, "PLAIN") {
            Mechanism::Plain
        } else if eq_ignore_ascii_case(name, "LOGIN") {
            Mechanism::Login
        } else {
            Mechanism::Unknown
        }
    }
}

impl<'a> From<&'a str> for Mechanism {
    fn from(name: &'a str) -> (r: Mechanism) {
        Mechanism::from_name(name)
    }
}

impl<'a> vstd::std_specs::convert::FromSpecImpl<&'a str> for Mechanism {
    open spec fn obeys_from_spec() -> bool {
        true
    }

    open spec fn from_spec(name: &'a str) -> Mechanism {
        Mechanism::spec_from(name@)
    }
}

/// The recognised mechanisms among the advertised tokens, in order,
/// unrecognised ones dropped.
pub open spec fn spec_mechanisms(params: Seq<Seq<char>>) -> Seq<Mechanism>
    decreases params.len(),
{
    if params.len() == 0 {
        Seq::empty()
    } else {
        let rest = spec_mechanisms(params.drop_last());
        let m = Mechanism::spec_from(params.last());
        if m is Unknown {
            rest
        } else {
            rest.push(m)
        }
    }
}

/// The AUTH helper: what the peer advertised, mapped to known mechanisms.
pub struct Auth {
    pub supported_mechanism: Vec<Mechanism>,
}

impl Extension for Auth {
    open spec fn spec_name() -> Seq<char> {
        "AUTH"@
    }

    open spec fn spec_registered(params: Seq<Seq<char>>, r: &Auth) -> bool {
        r.supported_mechanism@ == spec_mechanisms(params)
    }

    fn name() -> (r: &'static str) {
        "AUTH"
    }

    fn register(params: &Vec<String>) -> (r: Auth) {
        let ghost pv = params@.map_values(|s: String| s@);
        let mut mechs: Vec<Mechanism> = Vec::new();
        let n = params.len();
        let mut i: usize = 0;
        proof {
            assert(pv.take(0) =~= Seq::<Seq<char>>::empty());
            assert(mechs@ =~= spec_mechanisms(pv.take(0)));
        }
        while i < n
            invariant
                n == params@.len(),
                pv == params@.map_values(|s: String| s@),
                i <= n,
                mechs@ == spec_mechanisms(pv.take(i as int)),
            decreases n - i,
        {
            let m = Mechanism::from_name(params[i].as_str());
            match m {
                Mechanism::Unknown => {},
                _ => {
                    mechs.push(m);
                },
            }
            proof {
                assert(pv.take(i + 1).drop_last() =~= pv.take(i as int));
                assert(pv.take(i + 1).last() == pv[i as int]);
            }
            i = i + 1;
        }
        proof {
            assert(pv.take(n as int) =~= pv);
        }
        Auth { supported_mechanism: mechs }
    }
}

impl Auth {
    /// Sends the authentication command and requires the reply code 235; any
    /// other code is returned whole as an `ErrorReply`.
    pub fn send_auth<S: Transport>(&self, smtp: &mut SMTPInner<S>, mechanism: AuthCommand) -> (r:
        SmtpResult<()>)
        ensures
            final(smtp).supported_extensions == old(smtp).supported_extensions,
            match r {
                Ok(()) => final(smtp).stream.outgoing() == old(smtp).stream.outgoing()
                    + mechanism.wire_view() && (match spec_run(
                    initial_machine(),
                    old(smtp).stream.incoming(),
                ) {
                    RunResult::Done { machine, rest } => machine.code == 235
                        && final(smtp).stream.incoming() == rest,
                    _ => false,
                }),
                Err(SMTPError::ErrorReply(rep)) => final(smtp).stream.outgoing() == old(smtp)
                    .stream.outgoing() + mechanism.wire_view() && (match spec_run(
                    initial_machine(),
                    old(smtp).stream.incoming(),
                ) {
                    RunResult::Done { machine, rest } => machine.code != 235 && rep.code
                        == machine.code && rep.spec_lines() == machine.lines
                        && final(smtp).stream.incoming() == rest,
                    _ => false,
                }),
                Err(SMTPError::IOError(_)) => final(smtp).stream.outgoing() == old(smtp)
                    .stream.outgoing() && final(smtp).stream.incoming() == old(smtp)
                    .stream.incoming(),
                Err(SMTPError::ParseError(p)) => final(smtp).stream.outgoing() == old(smtp)
                    .stream.outgoing() + mechanism.wire_view() && (p is IOError || (match spec_run(
                    initial_machine(),
                    old(smtp).stream.incoming(),
                ) {
                    RunResult::Fail { err, rest } => matches_err(p, err)
                        && final(smtp).stream.incoming() == rest,
                    _ => false,
                })),
                Err(_) => false,
            },
    {
        let reply = match smtp.send_command(&mechanism) {
            Ok(rep) => rep,
            Err(e) => {
                return Err(e);
            },
        };
        if reply.code == 235 {
            Ok(())
        } else {
            Err(SMTPError::ErrorReply(reply))
        }
    }
}

/// What the standard base64 encoding of some bytes looks like; the exact
/// text is pinned down only by the base64 crate itself.
pub uninterp spec fn base64_of(bytes: Seq<u8>) -> Seq<char>;

/// Relies on base64's STANDARD engine: `Engine::encode` is a pure function
/// of its input bytes, and a padded encoding has 4 characters for every 3
/// bytes begun.
#[verifier::external_body]
fn b64_encode(data: &Vec<u8>) -> (r: String)
    ensures
        r@ == base64_of(data@),
        r@.len() == 4 * ((data@.len() + 2) / 3),
{
    base64::Engine::encode(&base64::engine::general_purpose::STANDARD, data.as_slice())
}

/// The SASL PLAIN credential text: `authzid NUL authcid NUL password`, the
/// authorization identity defaulting to empty.
pub open spec fn spec_sasl_plain(
    authzid: Option<Seq<char>>,
    authcid: Seq<char>,
    password: Seq<char>,
) -> Seq<char> {
    (match authzid {
        Some(z) => z,
        None => Seq::empty(),
    }) + seq!['\0'] + authcid + seq!['\0'] + password
}

/// An authentication command: the PLAIN mechanism carries an optional
/// authorization identity, the identity to authenticate, and the password.
pub enum AuthCommand {
    Plain(Option<String>, String, String),
}

impl SMTPCommand for AuthCommand {
    open spec fn spec_verb(&self) -> Seq<char> {
        "AUTH"@
    }

    open spec fn spec_params(&self) -> Option<Seq<char>> {
        match self {
            AuthCommand::Plain(authzid, authcid, passwd) => Some(
                "PLAIN "@ + base64_of(
                    encode_utf8(spec_sasl_plain(option_view(*authzid), authcid@, passwd@)),
                ),
            ),
        }
    }

    open spec fn wire_view(&self) -> Seq<u8> {
        encode_utf8(spec_command_line(self.spec_verb(), self.spec_params()))
    }

    fn command(&self) -> (r: &'static str) {
        "AUTH"
    }

    fn params(&self) -> (r: Option<String>) {
        match self {
            AuthCommand::Plain(authzid, authcid, passwd) => {
                let mut sasl = match authzid {
                    Some(z) => z.clone(),
                    None => String::new(),
                };
                sasl.append("\0");
                sasl.append(authcid.as_str());
                sasl.append("\0");
                sasl.append(passwd.as_str());
                proof {
                    reveal_strlit("\0");
                    assert("\0"@ =~= seq!['\0']);
                    assert(sasl@ =~= spec_sasl_plain(option_view(*authzid), authcid@, passwd@));
                }
                let bytes = sasl.as_str().as_bytes_vec();
                let b64 = b64_encode(&bytes);
                let mut p = String::from_str("PLAIN ");
                p.append(b64.as_str());
                Some(p)
            },
        }
    }

    fn encode(&self) -> (r: Vec<u8>) {
        let mut line = String::from_str(self.command());
        match self.params() {
            Some(p) => {
                line.append(" ");
                line.append(p.as_str());
            },
            None => {},
        }
        line.append("\r\n");
        proof {
            assert(line@ =~= spec_command_line(self.spec_verb(), self.spec_params()));
        }
        line.as_str().as_bytes_vec()
    }
}

} // verus!
