//! Protocol commands and their wire encoding: `<VERB> <params>\r\n` lines,
//! and the DATA content encoding with the transparency rule and the
//! `CRLF . CRLF` terminator.
use crate::utils::{
    smtp_data_transparency, spec_data_transparency, spec_split_crlf, split_buffer_crlf,
};
use vstd::prelude::*;
use vstd::seq_lib::lemma_flatten_concat;
use vstd::string::*;
use vstd::utf8::encode_utf8;

verus! {

/// One protocol command. `DATAContent` carries the raw message payload that
/// follows an accepted `DATA` verb; it has no verb line of its own.
pub enum Command {
    EHLO(String),
    HELO(String),
    MAIL(String),
    RCPT(String),
    DATABegin,
    DATAContent(Vec<u8>),
    RSET,
    NOOP,
    QUIT,
    VRFY(String),
}

/// A DATA content line as written to the wire: exactly the line `.` + CRLF
/// gets one `.` prefixed; every other line is written unchanged.
pub open spec fn stuff_line(line: Seq<u8>) -> Seq<u8> {
    if spec_data_transparency(line) {
        seq![46u8] + line
    } else {
        line
    }
}

/// The end-of-data marker, always appended after the payload's lines.
pub open spec fn data_terminator() -> Seq<u8> {
    seq![13u8, 10u8, 46u8, 13u8, 10u8]
}

/// The bytes written for a DATA payload: its CRLF-split lines, each stuffed
/// when the transparency rule asks for it, followed by the terminator.
pub open spec fn spec_encode_data(data: Seq<u8>) -> Seq<u8> {
    spec_split_crlf(data).map_values(|l: Seq<u8>| stuff_line(l)).flatten() + data_terminator()
}

/// Law: the DATA encoding writes every line of the payload unchanged unless
/// the line is exactly `.` + CRLF, in which case exactly one `.` is
/// prefixed; the terminator follows all lines whether or not the payload
/// ended with CRLF.
pub proof fn lemma_data_transparency(data: Seq<u8>)
    ensures
        spec_encode_data(data) == spec_split_crlf(data).map_values(
            |l: Seq<u8>| stuff_line(l),
        ).flatten() + data_terminator(),
        forall|k: int|
            0 <= k < spec_split_crlf(data).len() ==> stuff_line(#[trigger] spec_split_crlf(data)[k])
                == (if spec_split_crlf(data)[k] == seq![46u8, 13u8, 10u8] {
                    seq![46u8] + spec_split_crlf(data)[k]
                } else {
                    spec_split_crlf(data)[k]
                }),
{
}

/// Writes a DATA payload in wire form: each CRLF-terminated line with the
/// transparency rule applied, then the `CRLF . CRLF` terminator.
pub fn encode_data_content(data: &[u8]) -> (out: Vec<u8>)
    ensures
        out@ == spec_encode_data(data@),
{
    let lines = split_buffer_crlf(data);
    let ghost lv = lines@.map_values(|l: Vec<u8>| l@);
    let mut out: Vec<u8> = Vec::new();
    let mut k: usize = 0;
    proof {
        assert(lv.take(0).map_values(|l: Seq<u8>| stuff_line(l)) =~= Seq::<Seq<u8>>::empty());
        assert(out@ =~= lv.take(0).map_values(|l: Seq<u8>| stuff_line(l)).flatten());
    }
    while k < lines.len()
        invariant
            lv == lines@.map_values(|l: Vec<u8>| l@),
            lv == spec_split_crlf(data@),
            k <= lines.len(),
            out@ == lv.take(k as int).map_values(|l: Seq<u8>| stuff_line(l)).flatten(),
        decreases lines.len() - k,
    {
        let line = &lines[k];
        let ghost prev = out@;
        if smtp_data_transparency(line.as_slice()) {
            out.push(46);
        }
        out.extend_from_slice(line.as_slice());
        proof {
            assert(out@ =~= prev + stuff_line(lv[k as int]));
            let f = |l: Seq<u8>| stuff_line(l);
            lv.take(k as int).map_values(f).lemma_flatten_push(stuff_line(lv[k as int]));
            assert(lv.take(k + 1).map_values(f) =~= lv.take(k as int).map_values(f).push(
                stuff_line(lv[k as int]),
            ));
        }
        k = k + 1;
    }
    proof {
        assert(lv.take(lines@.len() as int) =~= lv);
    }
    out.push(13);
    out.push(10);
    out.push(46);
    out.push(13);
    out.push(10);
    proof {
        assert(out@ =~= spec_encode_data(data@));
    }
    out
}

/// What a command puts on the wire: a verb, optional parameter text, and for
/// DATA content the encoded payload.
pub trait SMTPCommand {
    /// The command's verb, as text; empty for a command that sends no verb
    /// line of its own.
    spec fn spec_verb(&self) -> Seq<char>;

    /// The command's parameter text, when it has any.
    spec fn spec_params(&self) -> Option<Seq<char>>;

    /// Every byte the command puts on the wire.
    spec fn wire_view(&self) -> Seq<u8>;

    fn command(&self) -> (r: &'static str)
        ensures
            r@ == self.spec_verb(),
    ;

    fn params(&self) -> (r: Option<String>)
        ensures
            match r {
                Some(s) => self.spec_params() == Some(s@),
                None => self.spec_params() is None,
            },
    ;

    fn encode(&self) -> (r: Vec<u8>)
        ensures
            r@ == self.wire_view(),
    ;
}

/// The verb line of a command: `VERB CRLF`, or `VERB SP params CRLF`.
pub open spec fn spec_command_line(verb: Seq<char>, params: Option<Seq<char>>) -> Seq<char> {
    match params {
        Some(p) => verb + " "@ + p + "\r\n"@,
        None => verb + "\r\n"@,
    }
}

/// The bytes of a verb line on the wire.
pub open spec fn command_wire(verb: Seq<char>, params: Option<Seq<char>>) -> Seq<u8> {
    encode_utf8(spec_command_line(verb, params))
}

impl SMTPCommand for Command {
    open spec fn spec_verb(&self) -> Seq<char> {
        match self {
            Command::EHLO(_) => "EHLO"@,
            Command::HELO(_) => "HELO"@,
            Command::MAIL(_) => "MAIL"@,
            Command::RCPT(_) => "RCPT"@,
            Command::DATABegin => "DATA"@,
            Command::DATAContent(_) => ""@,
            Command::VRFY(_) => "VRFY"@,
            Command::NOOP => "NOOP"@,
            Command::QUIT => "QUIT"@,
            Command::RSET => "RSET"@,
        }
    }

    open spec fn spec_params(&self) -> Option<Seq<char>> {
        match self {
            Command::EHLO(domain) => Some(domain@),
            Command::HELO(domain) => Some(domain@),
            Command::MAIL(reverse_path) => Some("FROM:<"@ + reverse_path@ + ">"@),
            Command::RCPT(forward_path) => Some("TO:<"@ + forward_path@ + ">"@),
            Command::VRFY(name) => Some(name@),
            _ => None,
        }
    }

    open spec fn wire_view(&self) -> Seq<u8> {
        match self {
            Command::DATAContent(data) => spec_encode_data(data@),
            _ => encode_utf8(spec_command_line(self.spec_verb(), self.spec_params())),
        }
    }

    fn command(&self) -> (r: &'static str) {
        match self {
            Command::EHLO(_) => "EHLO",
            Command::HELO(_) => "HELO",
            Command::MAIL(_) => "MAIL",
            Command::RCPT(_) => "RCPT",
            Command::DATABegin => "DATA",
            Command::DATAContent(_) => "",
            Command::VRFY(_) => "VRFY",
            Command::NOOP => "NOOP",
            Command::QUIT => "QUIT",
            Command::RSET => "RSET",
        }
    }

    fn params(&self) -> (r: Option<String>) {
        match self {
            Command::EHLO(domain) => Some(domain.clone()),
            Command::HELO(domain) => Some(domain.clone()),
            Command::MAIL(reverse_path) => {
                let p = String::from_str("FROM:<").concat(reverse_path.as_str()).concat(">");
                Some(p)
            },
            Command::RCPT(forward_path) => {
                let p = String::from_str("TO:<").concat(forward_path.as_str()).concat(">");
                Some(p)
            },
            Command::VRFY(name) => Some(name.clone()),
            _ => None,
        }
    }

    fn encode(&self) -> (r: Vec<u8>) {
        if let Command::DATAContent(data) = self {
            encode_data_content(data.as_slice())
        } else {
            let mut line = String::from_str(self.command());
            match self.params() {
                Some(p) => {
                    line.append(" ");
                    line.append(p.as_str());
                },
                None => {},
            }
            line.append("\r\n");
            proof {
                assert(line@ =~= spec_command_line(self.spec_verb(), self.spec_params()));
            }
            line.as_str().as_bytes_vec()
        }
    }
}

} // verus!
