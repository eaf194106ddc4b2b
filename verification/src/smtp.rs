//! The transport capability (a duplex byte stream) and the client facade
//! that drives the protocol over it: greet, EHLO, optional AUTH, mail
//! transactions, QUIT.
use crate::auth::{Auth, AuthCommand};
use crate::command::{command_wire, spec_encode_data, Command, SMTPCommand};
use crate::error::{Error as SMTPError, SmtpResult};
use crate::extension::{
    find_char, parse_capabilities, spec_cap_entries, spec_lookup, spec_split_spaces, split_spaces,
    CapabilityMap, Extension,
};
use crate::reply::{
    initial_machine, matches_err, spec_run, MachineView, ParseError, Reply, ReplyParser, RunResult,
};
use vstd::prelude::*;
use vstd::string::*;

verus! {

/// A failure of the underlying byte stream (connection loss, timeout, ...),
/// reported by a transport implementation.
#[derive(Debug)]
pub struct TransportError {
    pub message: String,
}

/// A duplex byte stream. `incoming()` models the bytes the peer will
/// deliver, in order; `outgoing()` models every byte written so far. A plain
/// TCP socket and a TLS-wrapped socket implement this outside the library;
/// an in-memory scripted stream implements it here.
///
/// Reads and writes may fail at any point (a timeout surfaces here); a
/// failed call leaves both modelled streams unchanged.
pub trait Transport: Sized {
    /// The bytes still to be read, in order. The default says nothing; an
    /// implementation inside the library overrides it with its real model.
    open spec fn incoming(&self) -> Seq<u8> {
        Seq::empty()
    }

    /// The bytes written so far, in order. The default says nothing; an
    /// implementation inside the library overrides it with its real model.
    open spec fn outgoing(&self) -> Seq<u8> {
        Seq::empty()
    }

    /// Blocking read of exactly one byte.
    fn read_byte(&mut self) -> (r: Result<u8, TransportError>)
        ensures
            final(self).outgoing() == old(self).outgoing(),
            match r {
                Ok(b) => old(self).incoming().len() > 0 && b == old(self).incoming()[0]
                    && final(self).incoming() == old(self).incoming().skip(1),
                Err(_) => final(self).incoming() == old(self).incoming(),
            },
    ;

    /// Blocking write of the whole of `data`.
    fn write_bytes(&mut self, data: &[u8]) -> (r: Result<(), TransportError>)
        ensures
            final(self).incoming() == old(self).incoming(),
            match r {
                Ok(()) => final(self).outgoing() == old(self).outgoing() + data@,
                Err(_) => final(self).outgoing() == old(self).outgoing(),
            },
    ;
}

/// An in-memory transport: reads come from a fixed script, writes are
/// collected. Serves as the simulated peer in tests.
pub struct MemTransport {
    pub input: Vec<u8>,
    pub pos: usize,
    pub output: Vec<u8>,
}

impl MemTransport {
    /// A transport that will deliver exactly `input`.
    pub fn new(input: Vec<u8>) -> (r: MemTransport)
        ensures
            r.incoming() == input@,
            r.outgoing() == Seq::<u8>::empty(),
    {
        let r = MemTransport { input, pos: 0, output: Vec::new() };
        proof {
            assert(r.incoming() =~= r.input@);
        }
        r
    }

    /// Everything written so far.
    pub fn written(&self) -> (r: &Vec<u8>)
        ensures
            r@ == self.outgoing(),
    {
        &self.output
    }
}

impl Transport for MemTransport {
    open spec fn incoming(&self) -> Seq<u8> {
        if self.pos <= self.input@.len() {
            self.input@.skip(self.pos as int)
        } else {
            Seq::empty()
        }
    }

    open spec fn outgoing(&self) -> Seq<u8> {
        self.output@
    }

    fn read_byte(&mut self) -> (r: Result<u8, TransportError>) {
        if self.pos < self.input.len() {
            let b = self.input[self.pos];
            self.pos = self.pos + 1;
            proof {
                assert(old(self).incoming()[0] == b);
                assert(final(self).incoming() =~= old(self).incoming().skip(1));
            }
            Ok(b)
        } else {
            Err(TransportError { message: String::from_str("end of scripted input") })
        }
    }

    fn write_bytes(&mut self, data: &[u8]) -> (r: Result<(), TransportError>) {
        self.output.extend_from_slice(data);
        Ok(())
    }
}

/// Writing a value onto a transport.
pub trait StreamWrite {
    /// The bytes the value puts on the wire.
    spec fn wire(&self) -> Seq<u8>;

    fn write_to<T: Transport>(&self, stream: &mut T) -> (r: Result<(), TransportError>)
        ensures
            final(stream).incoming() == old(stream).incoming(),
            match r {
                Ok(()) => final(stream).outgoing() == old(stream).outgoing() + self.wire(),
                Err(_) => final(stream).outgoing() == old(stream).outgoing(),
            },
    ;
}

impl<C: SMTPCommand> StreamWrite for C {
    open spec fn wire(&self) -> Seq<u8> {
        self.wire_view()
    }

    fn write_to<T: Transport>(&self, stream: &mut T) -> (r: Result<(), TransportError>) {
        let bytes = self.encode();
        stream.write_bytes(bytes.as_slice())
    }
}

/// A reply was read off the stream: `pre` was the incoming stream before,
/// `post` after, and `reply` is exactly what the reply machine produced.
pub open spec fn reply_read(pre: Seq<u8>, post: Seq<u8>, reply: Reply) -> bool {
    match spec_run(initial_machine(), pre) {
        RunResult::Done { machine, rest } => reply.code == machine.code && reply.spec_lines()
            == machine.lines && reply.text_lines@.len() >= 1 && post == rest,
        _ => false,
    }
}

/// The reply carries exactly what the machine accumulated.
pub open spec fn reply_matches(reply: Reply, machine: MachineView) -> bool {
    reply.code == machine.code && reply.spec_lines() == machine.lines
}

/// How a run of reply exchanges with expected codes ends: all codes matched;
/// or the first mismatching reply, with the step it came at; or the stream
/// broke before that.
pub enum ChainResult {
    AllOk { rest: Seq<u8> },
    Mismatch { step: int, machine: MachineView, rest: Seq<u8> },
    Broken,
}

/// Reads one reply per expected code off `input`, stopping at the first
/// mismatch.
pub open spec fn run_chain(input: Seq<u8>, codes: Seq<int>) -> ChainResult
    decreases codes.len(),
{
    if codes.len() == 0 {
        ChainResult::AllOk { rest: input }
    } else {
        match spec_run(initial_machine(), input) {
            RunResult::Done { machine, rest } => {
                if machine.code != codes[0] {
                    ChainResult::Mismatch { step: 0, machine, rest }
                } else {
                    match run_chain(rest, codes.skip(1)) {
                        ChainResult::Mismatch { step, machine: m2, rest: r2 } => {
                            ChainResult::Mismatch { step: step + 1, machine: m2, rest: r2 }
                        },
                        other => other,
                    }
                }
            },
            _ => ChainResult::Broken,
        }
    }
}

/// The expected status code of each step of a mail transaction:
/// RSET, MAIL, RCPT, DATA, then the content.
pub open spec fn mail_codes() -> Seq<int> {
    seq![250, 250, 250, 354, 250]
}

/// What a mail transaction has written once `n` of its commands went out:
/// RSET, then MAIL FROM, RCPT TO, DATA, and the encoded payload.
pub open spec fn spec_sent_wires(n: int, from: Seq<char>, to: Seq<char>, data: Seq<u8>) -> Seq<
    u8,
> {
    let w1 = command_wire("RSET"@, None);
    let w2 = w1 + command_wire("MAIL"@, Some("FROM:<"@ + from + ">"@));
    let w3 = w2 + command_wire("RCPT"@, Some("TO:<"@ + to + ">"@));
    let w4 = w3 + command_wire("DATA"@, None);
    let w5 = w4 + spec_encode_data(data);
    if n <= 0 {
        Seq::empty()
    } else if n == 1 {
        w1
    } else if n == 2 {
        w2
    } else if n == 3 {
        w3
    } else if n == 4 {
        w4
    } else {
        w5
    }
}

/// The protocol driver: owns the transport and the capability map gathered
/// during the handshake, writes commands and reads replies.
pub struct SMTPInner<S: Transport> {
    pub stream: S,
    pub supported_extensions: CapabilityMap,
}

impl<S: Transport> SMTPInner<S> {
    /// Reads the 220 greeting, sends `EHLO <domain>`, requires a 250 reply,
    /// and fills the capability map from its lines after the banner. A
    /// greeting or EHLO reply with the wrong code fails the whole
    /// construction with a `HandshakeError` wrapping that reply.
    pub fn init_from_stream(stream: S, helo_domain: &str) -> (r: SmtpResult<SMTPInner<S>>)
        ensures
            match r {
                Ok(client) => (match spec_run(initial_machine(), stream.incoming()) {
                    RunResult::Done { machine: m1, rest: r1 } => m1.code == 220 && (match spec_run(
                        initial_machine(),
                        r1,
                    ) {
                        RunResult::Done { machine: m2, rest: r2 } => m2.code == 250
                            && client.stream.incoming() == r2 && client.stream.outgoing()
                            == stream.outgoing() + command_wire("EHLO"@, Some(helo_domain@))
                            && client.supported_extensions.entries_view() == spec_cap_entries(
                            m2.lines.skip(1),
                        ),
                        _ => false,
                    }),
                    _ => false,
                }),
                Err(SMTPError::HandshakeError(inner)) => (match *inner {
                    SMTPError::ErrorReply(rep) => (match spec_run(
                        initial_machine(),
                        stream.incoming(),
                    ) {
                        RunResult::Done { machine: m1, rest: r1 } => {
                            if m1.code != 220 {
                                reply_matches(rep, m1)
                            } else {
                                match spec_run(initial_machine(), r1) {
                                    RunResult::Done { machine: m2, rest: r2 } => m2.code != 250
                                        && reply_matches(rep, m2),
                                    _ => false,
                                }
                            }
                        },
                        _ => false,
                    }),
                    _ => false,
                }),
                Err(SMTPError::IOError(_)) => true,
                Err(SMTPError::ParseError(p)) => p is IOError || (match spec_run(
                    initial_machine(),
                    stream.incoming(),
                ) {
                    RunResult::Fail { err, rest } => matches_err(p, err),
                    RunResult::Done { machine: m1, rest: r1 } => m1.code == 220 && (match spec_run(
                        initial_machine(),
                        r1,
                    ) {
                        RunResult::Fail { err, rest } => matches_err(p, err),
                        _ => false,
                    }),
                    _ => false,
                }),
                Err(_) => false,
            },
    {
        let mut stream = stream;
        let greet = match ReplyParser::parse_from_stream(&mut stream) {
            Ok(rep) => rep,
            Err(p) => {
                return Err(SMTPError::ParseError(p));
            },
        };
        if greet.code != 220 {
            return Err(SMTPError::HandshakeError(Box::new(SMTPError::ErrorReply(greet))));
        }
        let mut client = SMTPInner { stream, supported_extensions: CapabilityMap::new() };
        let cmd = Command::EHLO(helo_domain.to_owned());
        let reply = match client.send_command(&cmd) {
            Ok(rep) => rep,
            Err(e) => {
                return Err(e);
            },
        };
        if reply.code != 250 {
            return Err(SMTPError::HandshakeError(Box::new(SMTPError::ErrorReply(reply))));
        }
        client.supported_extensions = parse_capabilities(&reply.text_lines);
        Ok(client)
    }

    /// Writes one command and reads one reply. On success the command's
    /// bytes, and nothing else, were written, and the reply is exactly what
    /// the reply machine parsed off the incoming stream.
    pub fn send_command<C: SMTPCommand>(&mut self, cmd: &C) -> (r: SmtpResult<Reply>)
        ensures
            final(self).supported_extensions == old(self).supported_extensions,
            match r {
                Ok(reply) => final(self).stream.outgoing() == old(self).stream.outgoing()
                    + cmd.wire_view() && reply_read(
                    old(self).stream.incoming(),
                    final(self).stream.incoming(),
                    reply,
                ),
                Err(SMTPError::IOError(_)) => final(self).stream.outgoing() == old(self)
                    .stream.outgoing() && final(self).stream.incoming() == old(self)
                    .stream.incoming(),
                Err(SMTPError::ParseError(p)) => final(self).stream.outgoing() == old(self)
                    .stream.outgoing() + cmd.wire_view() && (p is IOError || (match spec_run(
                    initial_machine(),
                    old(self).stream.incoming(),
                ) {
                    RunResult::Fail { err, rest } => matches_err(p, err)
                        && final(self).stream.incoming() == rest,
                    _ => false,
                })),
                Err(_) => false,
            },
    {
        match cmd.write_to(&mut self.stream) {
            Ok(()) => {},
            Err(e) => {
                return Err(SMTPError::IOError(e));
            },
        }
        match ReplyParser::parse_from_stream(&mut self.stream) {
            Ok(reply) => Ok(reply),
            Err(p) => Err(SMTPError::ParseError(p)),
        }
    }

    /// Builds the extension helper named by `E` from the capability map:
    /// `None` when the peer did not advertise it with parameter text.
    pub fn new_extension<E: Extension>(&self) -> (r: Option<E>)
        ensures
            match r {
                Some(ext) => (match spec_lookup(
                    self.supported_extensions.entries_view(),
                    E::spec_name(),
                ) {
                    Some(Some(text)) => E::spec_registered(spec_split_spaces(text), &ext),
                    _ => false,
                }),
                None => !(spec_lookup(
                    self.supported_extensions.entries_view(),
                    E::spec_name(),
                ) matches Some(Some(_))),
            },
    {
        let name = E::name();
        match self.supported_extensions.lookup(name) {
            Some(Some(params_text)) => {
                let params = split_spaces(params_text.as_str());
                Some(E::register(&params))
            },
            _ => None,
        }
    }
}

/// The client facade: a protocol driver constructed only by a successful
/// handshake, over which authentication, mail transactions and QUIT run.
pub struct SMTPClient<S: Transport>(pub SMTPInner<S>);

impl<S: Transport> SMTPClient<S> {
    /// Runs the handshake over an open transport and wraps the driver; the
    /// contract is `SMTPInner::init_from_stream`'s.
    pub fn from_transport(stream: S, helo_domain: &str) -> (r: SmtpResult<SMTPClient<S>>)
        ensures
            match r {
                Ok(client) => (match spec_run(initial_machine(), stream.incoming()) {
                    RunResult::Done { machine: m1, rest: r1 } => m1.code == 220 && (match spec_run(
                        initial_machine(),
                        r1,
                    ) {
                        RunResult::Done { machine: m2, rest: r2 } => m2.code == 250
                            && client.0.stream.incoming() == r2 && client.0.stream.outgoing()
                            == stream.outgoing() + command_wire("EHLO"@, Some(helo_domain@))
                            && client.0.supported_extensions.entries_view() == spec_cap_entries(
                            m2.lines.skip(1),
                        ),
                        _ => false,
                    }),
                    _ => false,
                }),
                Err(SMTPError::HandshakeError(inner)) => (match *inner {
                    SMTPError::ErrorReply(rep) => (match spec_run(
                        initial_machine(),
                        stream.incoming(),
                    ) {
                        RunResult::Done { machine: m1, rest: r1 } => {
                            if m1.code != 220 {
                                reply_matches(rep, m1)
                            } else {
                                match spec_run(initial_machine(), r1) {
                                    RunResult::Done { machine: m2, rest: r2 } => m2.code != 250
                                        && reply_matches(rep, m2),
                                    _ => false,
                                }
                            }
                        },
                        _ => false,
                    }),
                    _ => false,
                }),
                Err(SMTPError::IOError(_)) => true,
                Err(SMTPError::ParseError(p)) => p is IOError || (match spec_run(
                    initial_machine(),
                    stream.incoming(),
                ) {
                    RunResult::Fail { err, rest } => matches_err(p, err),
                    RunResult::Done { machine: m1, rest: r1 } => m1.code == 220 && (match spec_run(
                        initial_machine(),
                        r1,
                    ) {
                        RunResult::Fail { err, rest } => matches_err(p, err),
                        _ => false,
                    }),
                    _ => false,
                }),
                Err(_) => false,
            },
    {
        match SMTPInner::init_from_stream(stream, helo_domain) {
            Ok(inner) => Ok(SMTPClient(inner)),
            Err(e) => Err(e),
        }
    }

    /// Authenticates over the negotiated AUTH capability: absent (or
    /// advertised without parameters) it is `ExtensionNotSupported`; present,
    /// the command is sent and the reply must be 235.
    pub fn auth(&mut self, auth: AuthCommand) -> (r: SmtpResult<()>)
        ensures
            final(self).0.supported_extensions == old(self).0.supported_extensions,
            match r {
                Ok(()) => (spec_lookup(
                    old(self).0.supported_extensions.entries_view(),
                    "AUTH"@,
                ) matches Some(Some(_))) && final(self).0.stream.outgoing() == old(self)
                    .0.stream.outgoing() + auth.wire_view() && (match spec_run(
                    initial_machine(),
                    old(self).0.stream.incoming(),
                ) {
                    RunResult::Done { machine, rest } => machine.code == 235
                        && final(self).0.stream.incoming() == rest,
                    _ => false,
                }),
                Err(SMTPError::ExtensionNotSupported(name)) => name@ == "AUTH"@ && !(spec_lookup(
                    old(self).0.supported_extensions.entries_view(),
                    "AUTH"@,
                ) matches Some(Some(_))) && final(self).0.stream.outgoing() == old(self)
                    .0.stream.outgoing() && final(self).0.stream.incoming() == old(self)
                    .0.stream.incoming(),
                Err(SMTPError::ErrorReply(rep)) => final(self).0.stream.outgoing() == old(self)
                    .0.stream.outgoing() + auth.wire_view() && (match spec_run(
                    initial_machine(),
                    old(self).0.stream.incoming(),
                ) {
                    RunResult::Done { machine, rest } => machine.code != 235 && reply_matches(
                        rep,
                        machine,
                    ) && final(self).0.stream.incoming() == rest,
                    _ => false,
                }),
                Err(SMTPError::IOError(_)) => final(self).0.stream.outgoing() == old(self)
                    .0.stream.outgoing() && final(self).0.stream.incoming() == old(self)
                    .0.stream.incoming(),
                Err(SMTPError::ParseError(p)) => final(self).0.stream.outgoing() == old(self)
                    .0.stream.outgoing() + auth.wire_view() && (p is IOError || (match spec_run(
                    initial_machine(),
                    old(self).0.stream.incoming(),
                ) {
                    RunResult::Fail { err, rest } => matches_err(p, err)
                        && final(self).0.stream.incoming() == rest,
                    _ => false,
                })),
                Err(_) => false,
            },
    {
        let auth_ext: Option<Auth> = self.0.new_extension();
        match auth_ext {
            None => Err(SMTPError::ExtensionNotSupported(String::from_str("AUTH"))),
            Some(ext) => ext.send_auth(&mut self.0, auth),
        }
    }

    /// Runs one mail transaction: RSET (250), MAIL FROM (250), RCPT TO
    /// (250), DATA (354), then the payload with transparency applied (250).
    /// The first reply whose code differs from its step's expected code
    /// stops the transaction and is returned whole as an `ErrorReply`.
    pub fn send(&mut self, mail_from: &str, rcpt_to: &str, data: Vec<u8>) -> (r: SmtpResult<()>)
        ensures
            final(self).0.supported_extensions == old(self).0.supported_extensions,
            match r {
                Ok(()) => (match run_chain(old(self).0.stream.incoming(), mail_codes()) {
                    ChainResult::AllOk { rest } => final(self).0.stream.incoming() == rest
                        && final(self).0.stream.outgoing() == old(self).0.stream.outgoing()
                        + command_wire("RSET"@, None) + command_wire(
                        "MAIL"@,
                        Some("FROM:<"@ + mail_from@ + ">"@),
                    ) + command_wire("RCPT"@, Some("TO:<"@ + rcpt_to@ + ">"@)) + command_wire(
                        "DATA"@,
                        None,
                    ) + spec_encode_data(data@),
                    _ => false,
                }),
                Err(SMTPError::ErrorReply(rep)) => (match run_chain(
                    old(self).0.stream.incoming(),
                    mail_codes(),
                ) {
                    ChainResult::Mismatch { step, machine, rest } => reply_matches(rep, machine)
                        && final(self).0.stream.incoming() == rest && final(self).0.stream.outgoing()
                        == old(self).0.stream.outgoing() + spec_sent_wires(
                        step + 1,
                        mail_from@,
                        rcpt_to@,
                        data@,
                    ),
                    _ => false,
                }),
                Err(SMTPError::IOError(_)) => exists|n: int|
                    0 <= n <= 4 && (match #[trigger] run_chain(
                        old(self).0.stream.incoming(),
                        mail_codes().take(n),
                    ) {
                        ChainResult::AllOk { rest } => final(self).0.stream.incoming() == rest
                            && final(self).0.stream.outgoing() == old(self).0.stream.outgoing()
                            + spec_sent_wires(n, mail_from@, rcpt_to@, data@),
                        _ => false,
                    }),
                Err(SMTPError::ParseError(p)) => exists|n: int|
                    0 <= n <= 4 && (match #[trigger] run_chain(
                        old(self).0.stream.incoming(),
                        mail_codes().take(n),
                    ) {
                        ChainResult::AllOk { rest } => final(self).0.stream.outgoing() == old(self)
                            .0.stream.outgoing() + spec_sent_wires(
                            n + 1,
                            mail_from@,
                            rcpt_to@,
                            data@,
                        ) && (p is IOError || (match spec_run(initial_machine(), rest) {
                            RunResult::Fail { err, rest: r2 } => matches_err(p, err)
                                && final(self).0.stream.incoming() == r2,
                            _ => false,
                        })),
                        _ => false,
                    }),
                Err(_) => false,
            },
    {
        let ghost in0 = self.0.stream.incoming();
        let ghost codes = mail_codes();
        let reply = match self.0.send_command(&Command::RSET) {
            Ok(rep) => rep,
            Err(e) => {
                proof {
                    assert(mail_codes().take(0).len() == 0);
                    assert(run_chain(in0, mail_codes().take(0)) == (ChainResult::AllOk {
                        rest: in0,
                    }));
                }
                return Err(e);
            },
        };
        let ghost in1 = self.0.stream.incoming();
        if reply.code != 250 {
            proof {
                assert(codes[0] == 250);
                assert(run_chain(in0, codes) is Mismatch);
                assert(run_chain(in0, codes)->Mismatch_step == 0);
                assert(run_chain(in0, codes)->Mismatch_rest == in1);
            }
            return Err(SMTPError::ErrorReply(reply));
        }
        let reply = match self.0.send_command(&Command::MAIL(mail_from.to_owned())) {
            Ok(rep) => rep,
            Err(e) => {
                proof {
                    let t = mail_codes().take(1);
                    assert(t[0] == 250);
                    assert(t.skip(1).len() == 0);
                    assert(run_chain(in1, t.skip(1)) == (ChainResult::AllOk { rest: in1 }));
                    assert(run_chain(in0, t) == (ChainResult::AllOk { rest: in1 }));
                }
                return Err(e);
            },
        };
        let ghost in2 = self.0.stream.incoming();
        if reply.code != 250 {
            proof {
                assert(codes.skip(1)[0] == 250);
                assert(run_chain(in1, codes.skip(1)) is Mismatch);
                assert(run_chain(in1, codes.skip(1))->Mismatch_step == 0);
                assert(run_chain(in0, codes) is Mismatch);
                assert(run_chain(in0, codes)->Mismatch_step == 1);
                assert(run_chain(in0, codes)->Mismatch_rest == in2);
            }
            return Err(SMTPError::ErrorReply(reply));
        }
        let reply = match self.0.send_command(&Command::RCPT(rcpt_to.to_owned())) {
            Ok(rep) => rep,
            Err(e) => {
                proof {
                    let t = mail_codes().take(2);
                    assert(t[0] == 250);
                    assert(t.skip(1)[0] == 250);
                    assert(t.skip(1).skip(1).len() == 0);
                    assert(run_chain(in2, t.skip(1).skip(1)) == (ChainResult::AllOk {
                        rest: in2,
                    }));
                    assert(run_chain(in1, t.skip(1)) == (ChainResult::AllOk { rest: in2 }));
                    assert(run_chain(in0, t) == (ChainResult::AllOk { rest: in2 }));
                }
                return Err(e);
            },
        };
        let ghost in3 = self.0.stream.incoming();
        if reply.code != 250 {
            proof {
                assert(codes.skip(1).skip(1) =~= codes.skip(2));
                assert(codes.skip(2)[0] == 250);
                assert(run_chain(in2, codes.skip(2)) is Mismatch);
                assert(run_chain(in2, codes.skip(2))->Mismatch_step == 0);
                assert(run_chain(in1, codes.skip(1))->Mismatch_step == 1);
                assert(run_chain(in0, codes) is Mismatch);
                assert(run_chain(in0, codes)->Mismatch_step == 2);
                assert(run_chain(in0, codes)->Mismatch_rest == in3);
            }
            return Err(SMTPError::ErrorReply(reply));
        }
        let reply = match self.0.send_command(&Command::DATABegin) {
            Ok(rep) => rep,
            Err(e) => {
                proof {
                    let t = mail_codes().take(3);
                    assert(t[0] == 250);
                    assert(t.skip(1)[0] == 250);
                    assert(t.skip(1).skip(1)[0] == 250);
                    assert(t.skip(1).skip(1).skip(1).len() == 0);
                    assert(run_chain(in3, t.skip(1).skip(1).skip(1)) == (ChainResult::AllOk {
                        rest: in3,
                    }));
                    assert(run_chain(in2, t.skip(1).skip(1)) == (ChainResult::AllOk {
                        rest: in3,
                    }));
                    assert(run_chain(in1, t.skip(1)) == (ChainResult::AllOk { rest: in3 }));
                    assert(run_chain(in0, t) == (ChainResult::AllOk { rest: in3 }));
                }
                return Err(e);
            },
        };
        let ghost in4 = self.0.stream.incoming();
        if reply.code != 354 {
            proof {
                assert(codes.skip(1).skip(1) =~= codes.skip(2));
                assert(codes.skip(2).skip(1) =~= codes.skip(3));
                assert(codes.skip(3)[0] == 354);
                assert(run_chain(in3, codes.skip(3)) is Mismatch);
                assert(run_chain(in3, codes.skip(3))->Mismatch_step == 0);
                assert(run_chain(in2, codes.skip(2))->Mismatch_step == 1);
                assert(run_chain(in1, codes.skip(1))->Mismatch_step == 2);
                assert(run_chain(in0, codes) is Mismatch);
                assert(run_chain(in0, codes)->Mismatch_step == 3);
                assert(run_chain(in0, codes)->Mismatch_rest == in4);
            }
            return Err(SMTPError::ErrorReply(reply));
        }
        let reply = match self.0.send_command(&Command::DATAContent(data)) {
            Ok(rep) => rep,
            Err(e) => {
                proof {
                    let t = mail_codes().take(4);
                    assert(t[0] == 250);
                    assert(t.skip(1)[0] == 250);
                    assert(t.skip(1).skip(1)[0] == 250);
                    assert(t.skip(1).skip(1).skip(1)[0] == 354);
                    assert(t.skip(1).skip(1).skip(1).skip(1).len() == 0);
                    assert(run_chain(in4, t.skip(1).skip(1).skip(1).skip(1))
                        == (ChainResult::AllOk { rest: in4 }));
                    assert(run_chain(in3, t.skip(1).skip(1).skip(1)) == (ChainResult::AllOk {
                        rest: in4,
                    }));
                    assert(run_chain(in2, t.skip(1).skip(1)) == (ChainResult::AllOk {
                        rest: in4,
                    }));
                    assert(run_chain(in1, t.skip(1)) == (ChainResult::AllOk { rest: in4 }));
                    assert(run_chain(in0, t) == (ChainResult::AllOk { rest: in4 }));
                }
                return Err(e);
            },
        };
        let ghost in5 = self.0.stream.incoming();
        proof {
            assert(codes.skip(1).skip(1) =~= codes.skip(2));
            assert(codes.skip(2).skip(1) =~= codes.skip(3));
            assert(codes.skip(3).skip(1) =~= codes.skip(4));
            assert(codes.skip(4).skip(1) =~= codes.skip(5));
            assert(codes.skip(5).len() == 0);
        }
        if reply.code != 250 {
            proof {
                assert(codes.skip(4)[0] == 250);
                assert(run_chain(in4, codes.skip(4)) is Mismatch);
                assert(run_chain(in4, codes.skip(4))->Mismatch_step == 0);
                assert(run_chain(in3, codes.skip(3))->Mismatch_step == 1);
                assert(run_chain(in2, codes.skip(2))->Mismatch_step == 2);
                assert(run_chain(in1, codes.skip(1))->Mismatch_step == 3);
                assert(run_chain(in0, codes) is Mismatch);
                assert(run_chain(in0, codes)->Mismatch_step == 4);
                assert(run_chain(in0, codes)->Mismatch_rest == in5);
            }
            return Err(SMTPError::ErrorReply(reply));
        }
        proof {
            assert(run_chain(in5, codes.skip(5)) is AllOk);
            assert(run_chain(in4, codes.skip(4)) is AllOk);
            assert(run_chain(in3, codes.skip(3)) is AllOk);
            assert(run_chain(in2, codes.skip(2)) is AllOk);
            assert(run_chain(in1, codes.skip(1)) is AllOk);
            assert(run_chain(in0, codes) is AllOk);
            assert(run_chain(in0, codes)->AllOk_rest == in5);
        }
        Ok(())
    }

    /// Ends the session: QUIT, expecting 221.
    pub fn quit(&mut self) -> (r: SmtpResult<()>)
        ensures
            final(self).0.supported_extensions == old(self).0.supported_extensions,
            match r {
                Ok(()) => final(self).0.stream.outgoing() == old(self).0.stream.outgoing()
                    + command_wire("QUIT"@, None) && (match spec_run(
                    initial_machine(),
                    old(self).0.stream.incoming(),
                ) {
                    RunResult::Done { machine, rest } => machine.code == 221
                        && final(self).0.stream.incoming() == rest,
                    _ => false,
                }),
                Err(SMTPError::ErrorReply(rep)) => final(self).0.stream.outgoing() == old(self)
                    .0.stream.outgoing() + command_wire("QUIT"@, None) && (match spec_run(
                    initial_machine(),
                    old(self).0.stream.incoming(),
                ) {
                    RunResult::Done { machine, rest } => machine.code != 221 && reply_matches(
                        rep,
                        machine,
                    ) && final(self).0.stream.incoming() == rest,
                    _ => false,
                }),
                Err(SMTPError::IOError(_)) => final(self).0.stream.outgoing() == old(self)
                    .0.stream.outgoing() && final(self).0.stream.incoming() == old(self)
                    .0.stream.incoming(),
                Err(SMTPError::ParseError(p)) => final(self).0.stream.outgoing() == old(self)
                    .0.stream.outgoing() + command_wire("QUIT"@, None) && (p is IOError || (
                match spec_run(initial_machine(), old(self).0.stream.incoming()) {
                    RunResult::Fail { err, rest } => matches_err(p, err)
                        && final(self).0.stream.incoming() == rest,
                    _ => false,
                })),
                Err(_) => false,
            },
    {
        let reply = match self.0.send_command(&Command::QUIT) {
            Ok(rep) => rep,
            Err(e) => {
                return Err(e);
            },
        };
        if reply.code == 221 {
            Ok(())
        } else {
            Err(SMTPError::ErrorReply(reply))
        }
    }
}

/// A peer address: a host name and a port, 0 standing for "not given".
pub struct Endpoint {
    pub host: String,
    pub port: u16,
}

/// The number a string of decimal digits denotes.
pub open spec fn spec_dec_value(s: Seq<char>) -> int
    decreases s.len(),
{
    if s.len() == 0 {
        0
    } else {
        spec_dec_value(s.drop_last()) * 10 + (s.last() as u32 - 48)
    }
}

/// Every character is a decimal digit.
pub open spec fn all_digits(s: Seq<char>) -> bool {
    forall|i: int| 0 <= i < s.len() ==> 48 <= #[trigger] s[i] as u32 <= 57
}

/// Once a prefix denotes more than the port range, the whole string does:
/// each further character at least multiplies the value by ten and takes
/// away at most 48.
proof fn lemma_dec_value_grows(s: Seq<char>, i: int)
    requires
        0 <= i <= s.len(),
        spec_dec_value(s.take(i)) > 65535,
    ensures
        spec_dec_value(s) > 65535,
    decreases s.len() - i,
{
    if i == s.len() {
        assert(s.take(i) =~= s);
    } else {
        assert(s.take(i + 1).drop_last() =~= s.take(i));
        assert(s.take(i + 1).last() == s[i]);
        assert(spec_dec_value(s.take(i + 1)) == spec_dec_value(s.take(i)) * 10 + (s[i] as u32
            - 48));
        assert(s[i] as u32 >= 0);
        assert(spec_dec_value(s.take(i)) * 10 > 655350);
        lemma_dec_value_grows(s, i + 1);
    }
}

/// Parses a decimal port number: `Some` exactly on a nonempty all-digit
/// string denoting at most 65535, and then the denoted value.
pub fn parse_port(s: &str) -> (r: Option<u16>)
    ensures
        match r {
            Some(p) => s@.len() > 0 && all_digits(s@) && spec_dec_value(s@) == p as int,
            None => s@.len() == 0 || !all_digits(s@) || spec_dec_value(s@) > 65535,
        },
{
    let n = s.unicode_len();
    if n == 0 {
        return None;
    }
    let mut val: u32 = 0;
    let mut i: usize = 0;
    proof {
        assert(s@.take(0) =~= Seq::<char>::empty());
    }
    while i < n
        invariant
            n == s@.len(),
            i <= n,
            all_digits(s@.take(i as int)),
            val == spec_dec_value(s@.take(i as int)),
            val <= 65535,
        decreases n - i,
    {
        let c = s.get_char(i) as u32;
        if c < 48 || c > 57 {
            proof {
                assert(s@[i as int] as u32 == c);
            }
            return None;
        }
        let d = c - 48;
        let next = val * 10 + d;
        proof {
            assert(s@.take(i + 1).drop_last() =~= s@.take(i as int));
            assert(s@.take(i + 1).last() == s@[i as int]);
        }
        if next > 65535 {
            proof {
                lemma_dec_value_grows(s@, i + 1);
            }
            return None;
        }
        val = next;
        i = i + 1;
    }
    proof {
        assert(s@.take(n as int) =~= s@);
    }
    Some(val as u16)
}

impl Endpoint {
    /// Reads `host[:port]`: everything before the first `:` is the host and
    /// what follows must be a port number; with no `:` the port is 0. `None`
    /// exactly when the text after the first `:` is not a port number.
    pub fn parse(addr: &str) -> (r: Option<Endpoint>)
        ensures
            ({
                let i = find_char(addr@, ':');
                match r {
                    Some(ep) => {
                        if i < 0 {
                            ep.host@ == addr@ && ep.port == 0
                        } else {
                            ep.host@ == addr@.take(i) && addr@.skip(i + 1).len() > 0 && all_digits(
                                addr@.skip(i + 1),
                            ) && spec_dec_value(addr@.skip(i + 1)) == ep.port as int
                        }
                    },
                    None => i >= 0 && (addr@.skip(i + 1).len() == 0 || !all_digits(
                        addr@.skip(i + 1),
                    ) || spec_dec_value(addr@.skip(i + 1)) > 65535),
                }
            }),
    {
        let n = addr.unicode_len();
        let mut i: usize = 0;
        proof {
            crate::extension::lemma_find_char(addr@, ':');
        }
        while i < n
            invariant
                n == addr@.len(),
                i <= n,
                forall|j: int| 0 <= j < i ==> addr@[j] != ':',
            decreases n - i,
        {
            if addr.get_char(i) == ':' {
                proof {
                    crate::extension::lemma_find_char(addr@, ':');
                    assert(find_char(addr@, ':') == i);
                }
                let host = addr.substring_char(0, i).to_owned();
                let port_text = addr.substring_char(i + 1, n);
                return match parse_port(port_text) {
                    Some(port) => Some(Endpoint { host, port }),
                    None => None,
                };
            }
            i = i + 1;
        }
        proof {
            crate::extension::lemma_find_char(addr@, ':');
            if find_char(addr@, ':') >= 0 {
                assert(addr@[find_char(addr@, ':')] == ':');
            }
        }
        Some(Endpoint { host: addr.to_owned(), port: 0 })
    }
}

/// Fills in a default port where the address named none.
pub fn set_default_port(addr: Endpoint, default: u16) -> (r: (String, u16))
    ensures
        r.0@ == addr.host@,
        r.1 == (if addr.port == 0 {
            default
        } else {
            addr.port
        }),
{
    if addr.port == 0 {
        (addr.host, default)
    } else {
        (addr.host, addr.port)
    }
}

} // verus!
