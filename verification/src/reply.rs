//! The reply parser: a finite-state machine, driven one byte at a time, that
//! reads a (possibly multi-line) status reply. The machine is specified by a
//! spec-level transition function (`spec_feed`) and a run function
//! (`spec_run`); the executable parser is proved to implement them exactly.
use crate::error::Error as SMTPError;
use crate::smtp::{Transport, TransportError};
use vstd::prelude::*;
use vstd::string::*;
use vstd::utf8::{decode_utf8, valid_utf8};

verus! {

/// A parsed status reply: a three-digit code and the text of each line.
/// Every line of one reply carries the same code on the wire; the first
/// occurrence is the one recorded here. A complete reply has at least one
/// line.
#[derive(Debug)]
pub struct Reply {
    pub code: u16,
    pub text_lines: Vec<String>,
}

impl Reply {
    /// The line texts, as sequences of characters.
    pub open spec fn spec_lines(&self) -> Seq<Seq<char>> {
        self.text_lines@.map_values(|s: String| s@)
    }

    /// Passes the reply through when its code is the expected one, and turns
    /// it into an `ErrorReply` otherwise.
    pub fn expect_code(self, code: u16) -> (r: Result<Reply, SMTPError>)
        ensures
            self.code == code ==> r == Ok::<Reply, SMTPError>(self),
            self.code != code ==> r == Err::<Reply, SMTPError>(SMTPError::ErrorReply(self)),
    {
        if self.code != code {
            Err(SMTPError::ErrorReply(self))
        } else {
            Ok(self)
        }
    }
}

impl Default for Reply {
    /// A reply with no code and no lines, to be filled by a parse.
    fn default() -> (r: Reply)
        ensures
            r.code == 0,
            r.text_lines@.len() == 0,
    {
        Reply { code: 0, text_lines: Vec::new() }
    }
}

/// Why a reply could not be parsed. Each variant keeps the bytes that were
/// unexpected.
#[derive(Debug)]
pub enum ParseError {
    /// The transport failed mid-reply.
    IOError(TransportError),
    /// A line's text is not valid UTF-8; carries the undecodable bytes.
    Utf8Error(Vec<u8>),
    /// A byte of the three-byte status code field is not a decimal digit.
    ParseCodeError(u8),
    /// The byte after the status code is neither space, `-`, nor CR.
    UnexpectedChar(u8),
}

/// The machine's control state, at specification level. `acc` is the line
/// content gathered so far; `last` marks the line that ends the reply.
pub enum SpecState {
    /// Reading the three code digits; `val` is the value of the `ndigits`
    /// digits seen so far.
    NewLine { ndigits: int, val: int },
    /// The three digits are read; the next byte picks the line kind.
    Separator,
    /// Reading line content until a CR.
    Line { last: bool, acc: Seq<u8> },
    /// A CR was read; an LF now ends the line, anything else puts the CR
    /// (and that byte) back into the content.
    CR { last: bool, acc: Seq<u8> },
    /// The whole reply is read.
    Done,
}

/// The whole machine: control state, the recorded status code, and the
/// decoded text lines so far.
pub struct MachineView {
    pub state: SpecState,
    pub code: int,
    pub lines: Seq<Seq<char>>,
}

/// A parse failure, at specification level.
pub enum SpecErr {
    BadCodeByte(u8),
    BadUtf8(Seq<u8>),
    BadSeparator(u8),
}

/// Where every parse starts: expecting the first digit of the first line.
pub open spec fn initial_machine() -> MachineView {
    MachineView {
        state: SpecState::NewLine { ndigits: 0, val: 0 },
        code: 0,
        lines: Seq::empty(),
    }
}

pub open spec fn is_digit(b: u8) -> bool {
    48 <= b <= 57
}

/// One transition of the reply machine on one input byte.
pub open spec fn spec_feed(m: MachineView, b: u8) -> Result<MachineView, SpecErr> {
    match m.state {
        SpecState::NewLine { ndigits, val } => {
            if !is_digit(b) {
                Err(SpecErr::BadCodeByte(b))
            } else if ndigits == 2 {
                // The first line's code is the reply's code; later lines'
                // codes (identical on a conforming peer) are not recorded.
                Ok(
                    MachineView {
                        state: SpecState::Separator,
                        code: if m.lines.len() == 0 {
                            val * 10 + (b - 48)
                        } else {
                            m.code
                        },
                        ..m
                    },
                )
            } else {
                Ok(
                    MachineView {
                        state: SpecState::NewLine { ndigits: ndigits + 1, val: val * 10 + (b - 48) },
                        ..m
                    },
                )
            }
        },
        SpecState::Separator => {
            if b == 32 {
                Ok(MachineView { state: SpecState::Line { last: true, acc: Seq::empty() }, ..m })
            } else if b == 45 {
                Ok(MachineView { state: SpecState::Line { last: false, acc: Seq::empty() }, ..m })
            } else if b == 13 {
                Ok(MachineView { state: SpecState::CR { last: true, acc: Seq::empty() }, ..m })
            } else {
                Err(SpecErr::BadSeparator(b))
            }
        },
        SpecState::Line { last, acc } => {
            if b == 13 {
                Ok(MachineView { state: SpecState::CR { last, acc }, ..m })
            } else {
                Ok(MachineView { state: SpecState::Line { last, acc: acc.push(b) }, ..m })
            }
        },
        SpecState::CR { last, acc } => {
            if b == 10 {
                if valid_utf8(acc) {
                    let lines2 = m.lines.push(decode_utf8(acc));
                    if last {
                        Ok(MachineView { state: SpecState::Done, lines: lines2, ..m })
                    } else {
                        Ok(
                            MachineView {
                                state: SpecState::NewLine { ndigits: 0, val: 0 },
                                lines: lines2,
                                ..m
                            },
                        )
                    }
                } else {
                    Err(SpecErr::BadUtf8(acc))
                }
            } else {
                Ok(MachineView { state: SpecState::Line { last, acc: acc.push(13u8).push(b) }, ..m })
            }
        },
        SpecState::Done => Err(SpecErr::BadSeparator(b)),
    }
}

/// How one parse ends, at specification level: the finished machine or the
/// failure, and the input left unconsumed.
pub enum RunResult {
    Done { machine: MachineView, rest: Seq<u8> },
    Fail { err: SpecErr, rest: Seq<u8> },
    Incomplete,
}

/// Runs the machine over `input` until it finishes, fails, or runs out of
/// bytes.
pub open spec fn spec_run(m: MachineView, input: Seq<u8>) -> RunResult
    decreases input.len(),
{
    if m.state is Done {
        RunResult::Done { machine: m, rest: input }
    } else if input.len() == 0 {
        RunResult::Incomplete
    } else {
        match spec_feed(m, input[0]) {
            Err(e) => RunResult::Fail { err: e, rest: input.skip(1) },
            Ok(m2) => spec_run(m2, input.skip(1)),
        }
    }
}

/// The executable error reports exactly the specification-level failure.
pub open spec fn matches_err(p: ParseError, e: SpecErr) -> bool {
    match (p, e) {
        (ParseError::ParseCodeError(a), SpecErr::BadCodeByte(c)) => a == c,
        (ParseError::Utf8Error(v), SpecErr::BadUtf8(s)) => v@ == s,
        (ParseError::UnexpectedChar(a), SpecErr::BadSeparator(c)) => a == c,
        _ => false,
    }
}

/// Relies on std::str::from_utf8: it returns Ok exactly on valid UTF-8 input
/// and decodes it; the result is copied into an owned string.
#[verifier::external_body]
fn utf8_to_string(v: &Vec<u8>) -> (r: Option<String>)
    ensures
        r is Some <==> valid_utf8(v@),
        r is Some ==> r.unwrap()@ == decode_utf8(v@),
{
    match std::str::from_utf8(v.as_slice()) {
        Ok(s) => Some(s.to_string()),
        Err(_) => None,
    }
}

#[derive(Clone, Copy)]
enum ParserState {
    StartNewLine,
    ReadCode,
    ReadLine,
    ReadCR,
    End,
}

/// The executable reply machine. `feed` advances it one byte at a time and
/// is proved to implement `spec_feed`.
pub struct ReplyParser {
    state: ParserState,
    ndigits: u8,
    code_acc: u16,
    code: u16,
    last_line: bool,
    line: Vec<u8>,
    lines: Vec<String>,
}

impl ReplyParser {
    /// The machine this parser is in.
    pub closed spec fn machine(&self) -> MachineView {
        MachineView {
            state: match self.state {
                ParserState::StartNewLine => SpecState::NewLine {
                    ndigits: self.ndigits as int,
                    val: self.code_acc as int,
                },
                ParserState::ReadCode => SpecState::Separator,
                ParserState::ReadLine => SpecState::Line {
                    last: self.last_line,
                    acc: self.line@,
                },
                ParserState::ReadCR => SpecState::CR { last: self.last_line, acc: self.line@ },
                ParserState::End => SpecState::Done,
            },
            code: self.code as int,
            lines: self.lines@.map_values(|s: String| s@),
        }
    }

    pub closed spec fn wf(&self) -> bool {
        &&& (self.state is StartNewLine ==> self.ndigits <= 2)
        &&& (self.state is StartNewLine && self.ndigits == 0 ==> self.code_acc == 0)
        &&& (self.state is StartNewLine && self.ndigits == 1 ==> self.code_acc < 10)
        &&& (self.state is StartNewLine && self.ndigits == 2 ==> self.code_acc < 100)
        &&& (!(self.state is StartNewLine) ==> self.ndigits == 0 && self.code_acc == 0)
        &&& (self.state is StartNewLine || self.state is ReadCode ==> self.line@.len() == 0)
        &&& self.code < 1000
        &&& (self.state is End ==> self.lines@.len() >= 1)
    }

    /// A parser ready for the first byte of a reply.
    pub fn new() -> (r: ReplyParser)
        ensures
            r.wf(),
            r.machine() == initial_machine(),
    {
        let r = ReplyParser {
            state: ParserState::StartNewLine,
            ndigits: 0,
            code_acc: 0,
            code: 0,
            last_line: false,
            line: Vec::new(),
            lines: Vec::new(),
        };
        proof {
            assert(r.machine().lines =~= initial_machine().lines);
        }
        r
    }

    /// Advances the machine by one byte. `Ok(true)` means the reply is
    /// complete; the step taken is exactly `spec_feed`.
    pub fn feed(&mut self, b: u8) -> (r: Result<bool, ParseError>)
        requires
            old(self).wf(),
            !(old(self).machine().state is Done),
        ensures
            match spec_feed(old(self).machine(), b) {
                Ok(m) => final(self).wf() && final(self).machine() == m && r == Ok::<
                    bool,
                    ParseError,
                >(m.state is Done),
                Err(e) => r matches Err(p) && matches_err(p, e),
            },
    {
        let ghost m0 = self.machine();
        match self.state {
            ParserState::StartNewLine => {
                if b < 48 || b > 57 {
                    Err(ParseError::ParseCodeError(b))
                } else {
                    let d = (b - 48) as u16;
                    if self.ndigits == 2 {
                        if self.lines.len() == 0 {
                            self.code = self.code_acc * 10 + d;
                        }
                        self.code_acc = 0;
                        self.ndigits = 0;
                        self.state = ParserState::ReadCode;
                    } else {
                        self.code_acc = self.code_acc * 10 + d;
                        self.ndigits = self.ndigits + 1;
                    }
                    Ok(false)
                }
            },
            ParserState::ReadCode => {
                if b == 32 {
                    self.last_line = true;
                    self.state = ParserState::ReadLine;
                    proof {
                        assert(self.line@ =~= Seq::<u8>::empty());
                    }
                    Ok(false)
                } else if b == 45 {
                    self.last_line = false;
                    self.state = ParserState::ReadLine;
                    proof {
                        assert(self.line@ =~= Seq::<u8>::empty());
                    }
                    Ok(false)
                } else if b == 13 {
                    self.last_line = true;
                    self.state = ParserState::ReadCR;
                    proof {
                        assert(self.line@ =~= Seq::<u8>::empty());
                    }
                    Ok(false)
                } else {
                    Err(ParseError::UnexpectedChar(b))
                }
            },
            ParserState::ReadLine => {
                if b == 13 {
                    self.state = ParserState::ReadCR;
                } else {
                    self.line.push(b);
                }
                Ok(false)
            },
            ParserState::ReadCR => {
                if b == 10 {
                    match utf8_to_string(&self.line) {
                        Some(s) => {
                            let ghost lines0 = self.lines@.map_values(|t: String| t@);
                            self.lines.push(s);
                            proof {
                                assert(self.lines@.map_values(|t: String| t@) =~= lines0.push(
                                    decode_utf8(old(self).line@),
                                ));
                            }
                            self.line = Vec::new();
                            if self.last_line {
                                self.state = ParserState::End;
                                Ok(true)
                            } else {
                                self.state = ParserState::StartNewLine;
                                self.ndigits = 0;
                                self.code_acc = 0;
                                Ok(false)
                            }
                        },
                        None => Err(ParseError::Utf8Error(self.line.clone())),
                    }
                } else {
                    self.line.push(13);
                    self.line.push(b);
                    self.state = ParserState::ReadLine;
                    proof {
                        assert(self.line@ =~= old(self).line@.push(13u8).push(b));
                    }
                    Ok(false)
                }
            },
            ParserState::End => {
                proof {
                    assert(old(self).machine().state is Done);
                }
                vstd::pervasive::unreached()
            },
        }
    }

    /// Surrenders the finished reply.
    pub fn into_reply(self) -> (r: Reply)
        requires
            self.wf(),
            self.machine().state is Done,
        ensures
            r.code == self.machine().code,
            r.spec_lines() == self.machine().lines,
            r.text_lines@.len() >= 1,
            r.code < 1000,
    {
        Reply { code: self.code, text_lines: self.lines }
    }

    /// Reads one whole reply from the transport. Whatever comes back, the
    /// bytes consumed and the result are exactly what `spec_run` says of the
    /// transport's incoming stream; nothing is written.
    pub fn parse_from_stream<T: Transport>(stream: &mut T) -> (r: Result<Reply, ParseError>)
        ensures
            final(stream).outgoing() == old(stream).outgoing(),
            match r {
                Ok(reply) => (match spec_run(initial_machine(), old(stream).incoming()) {
                    RunResult::Done { machine, rest } => reply.code == machine.code
                        && reply.spec_lines() == machine.lines && reply.text_lines@.len() >= 1
                        && reply.code < 1000 && final(stream).incoming() == rest,
                    _ => false,
                }),
                Err(p) => p is IOError || (match spec_run(
                    initial_machine(),
                    old(stream).incoming(),
                ) {
                    RunResult::Fail { err, rest } => matches_err(p, err) && final(stream).incoming()
                        == rest,
                    _ => false,
                }),
            },
    {
        let mut parser = ReplyParser::new();
        loop
            invariant
                parser.wf(),
                !(parser.machine().state is Done),
                stream.outgoing() == old(stream).outgoing(),
                spec_run(initial_machine(), old(stream).incoming()) == spec_run(
                    parser.machine(),
                    stream.incoming(),
                ),
            decreases stream.incoming().len(),
        {
            let b = match stream.read_byte() {
                Ok(b) => b,
                Err(e) => {
                    return Err(ParseError::IOError(e));
                },
            };
            match parser.feed(b) {
                Ok(done) => {
                    if done {
                        return Ok(parser.into_reply());
                    }
                },
                Err(e) => {
                    return Err(e);
                },
            }
        }
    }
}

/// Line text that parses as plain content: it holds no CRLF pair (which
/// would end the line early) and does not end in a CR (which would fuse with
/// the terminator's LF).
pub open spec fn line_ok(text: Seq<u8>) -> bool {
    &&& (forall|j: int|
        0 <= j && j + 1 < text.len() && #[trigger] text[j] == 13u8 ==> text[j + 1] != 10u8)
    &&& (text.len() > 0 ==> text.last() != 13u8)
}

/// The wire form of one reply line: the code digits, the separator, the
/// text, CRLF.
pub open spec fn line_bytes(digits: Seq<u8>, sep: u8, text: Seq<u8>) -> Seq<u8> {
    digits + seq![sep] + text + seq![13u8, 10u8]
}

/// The numeric value of the three code digits.
pub open spec fn code_of_digits(digits: Seq<u8>) -> int {
    (digits[0] - 48) * 100 + (digits[1] - 48) * 10 + (digits[2] - 48)
}

/// The wire form of a whole reply with one code: continuation lines for all
/// texts but the last, which is a final line.
pub open spec fn reply_bytes(digits: Seq<u8>, texts: Seq<Seq<u8>>) -> Seq<u8>
    decreases texts.len(),
{
    if texts.len() <= 1 {
        line_bytes(digits, 32u8, texts[0])
    } else {
        line_bytes(digits, 45u8, texts[0]) + reply_bytes(digits, texts.skip(1))
    }
}

/// Running the machine over line content: each content byte lands in the
/// accumulator, and the closing CRLF completes the line.
proof fn lemma_run_content(
    last: bool,
    acc: Seq<u8>,
    code: int,
    lines: Seq<Seq<char>>,
    text: Seq<u8>,
    rest: Seq<u8>,
)
    requires
        line_ok(text),
    ensures
        spec_run(
            MachineView { state: SpecState::Line { last, acc }, code, lines },
            text + seq![13u8, 10u8] + rest,
        ) == (if valid_utf8(acc + text) {
            spec_run(
                MachineView {
                    state: if last {
                        SpecState::Done
                    } else {
                        SpecState::NewLine { ndigits: 0, val: 0 }
                    },
                    code,
                    lines: lines.push(decode_utf8(acc + text)),
                },
                rest,
            )
        } else {
            RunResult::Fail { err: SpecErr::BadUtf8(acc + text), rest }
        }),
    decreases text.len(),
{
    let m = MachineView { state: SpecState::Line { last, acc }, code, lines };
    let input = text + seq![13u8, 10u8] + rest;
    if text.len() == 0 {
        assert(acc + text =~= acc);
        assert(input[0] == 13u8);
        let m1 = MachineView { state: SpecState::CR { last, acc }, code, lines };
        assert(spec_feed(m, 13u8) == Ok::<MachineView, SpecErr>(m1));
        assert(input.skip(1)[0] == 10u8);
        assert(input.skip(1).skip(1) =~= rest);
        assert(spec_run(m, input) == spec_run(m1, input.skip(1)));
    } else if text[0] == 13u8 {
        // No CRLF pair and no trailing CR: the byte after this CR exists and
        // is not an LF, so both go back into the content.
        assert(text.len() >= 2) by {
            if text.len() == 1 {
                assert(text.last() == 13u8);
            }
        }
        assert(text[1] != 10u8);
        assert(input[0] == 13u8);
        let m1 = MachineView { state: SpecState::CR { last, acc }, code, lines };
        assert(spec_feed(m, 13u8) == Ok::<MachineView, SpecErr>(m1));
        assert(input.skip(1)[0] == text[1]);
        let acc2 = acc.push(13u8).push(text[1]);
        let m2 = MachineView { state: SpecState::Line { last, acc: acc2 }, code, lines };
        assert(spec_feed(m1, text[1]) == Ok::<MachineView, SpecErr>(m2));
        assert(input.skip(1).skip(1) =~= text.skip(2) + seq![13u8, 10u8] + rest);
        assert(line_ok(text.skip(2))) by {
            assert forall|j: int|
                0 <= j && j + 1 < text.skip(2).len() && #[trigger] text.skip(2)[j] == 13u8 implies
                text.skip(2)[j + 1] != 10u8 by {
                assert(text.skip(2)[j] == text[j + 2]);
                assert(text.skip(2)[j + 1] == text[j + 3]);
                assert(text[j + 2] == 13u8 ==> text[j + 3] != 10u8);
            }
            if text.skip(2).len() > 0 {
                assert(text.skip(2).last() == text.last());
            }
        }
        lemma_run_content(last, acc2, code, lines, text.skip(2), rest);
        assert(acc2 + text.skip(2) =~= acc + text);
        assert(spec_run(m, input) == spec_run(m1, input.skip(1)));
        assert(spec_run(m1, input.skip(1)) == spec_run(m2, input.skip(1).skip(1)));
    } else {
        assert(input[0] == text[0]);
        let acc2 = acc.push(text[0]);
        let m2 = MachineView { state: SpecState::Line { last, acc: acc2 }, code, lines };
        assert(spec_feed(m, text[0]) == Ok::<MachineView, SpecErr>(m2));
        assert(input.skip(1) =~= text.skip(1) + seq![13u8, 10u8] + rest);
        assert(line_ok(text.skip(1))) by {
            assert forall|j: int|
                0 <= j && j + 1 < text.skip(1).len() && #[trigger] text.skip(1)[j] == 13u8 implies
                text.skip(1)[j + 1] != 10u8 by {
                assert(text.skip(1)[j] == text[j + 1]);
                assert(text.skip(1)[j + 1] == text[j + 2]);
                assert(text[j + 1] == 13u8 ==> text[j + 2] != 10u8);
            }
            if text.skip(1).len() > 0 {
                assert(text.skip(1).last() == text.last());
            }
        }
        lemma_run_content(last, acc2, code, lines, text.skip(1), rest);
        assert(acc2 + text.skip(1) =~= acc + text);
        assert(spec_run(m, input) == spec_run(m2, input.skip(1)));
    }
}

/// Running the machine over one whole line: the three digits set the code
/// when this is the reply's first line (and leave it alone otherwise), the
/// separator picks the line kind, and the content lands as one text line.
proof fn lemma_run_line(
    code0: int,
    lines: Seq<Seq<char>>,
    digits: Seq<u8>,
    sep: u8,
    text: Seq<u8>,
    rest: Seq<u8>,
)
    requires
        digits.len() == 3,
        forall|i: int| 0 <= i < 3 ==> is_digit(#[trigger] digits[i]),
        sep == 32 || sep == 45,
        line_ok(text),
        valid_utf8(text),
    ensures
        spec_run(
            MachineView { state: SpecState::NewLine { ndigits: 0, val: 0 }, code: code0, lines },
            line_bytes(digits, sep, text) + rest,
        ) == spec_run(
            MachineView {
                state: if sep == 32 {
                    SpecState::Done
                } else {
                    SpecState::NewLine { ndigits: 0, val: 0 }
                },
                code: if lines.len() == 0 {
                    code_of_digits(digits)
                } else {
                    code0
                },
                lines: lines.push(decode_utf8(text)),
            },
            rest,
        ),
{
    let code1: int = if lines.len() == 0 {
        code_of_digits(digits)
    } else {
        code0
    };
    let m0 = MachineView {
        state: SpecState::NewLine { ndigits: 0, val: 0 },
        code: code0,
        lines,
    };
    let input = line_bytes(digits, sep, text) + rest;
    assert(input[0] == digits[0]);
    let m1 = spec_feed(m0, digits[0])->Ok_0;
    assert(input.skip(1)[0] == digits[1]);
    let m2 = spec_feed(m1, digits[1])->Ok_0;
    assert(input.skip(1).skip(1) =~= input.skip(2));
    assert(input.skip(2)[0] == digits[2]);
    let m3 = spec_feed(m2, digits[2])->Ok_0;
    assert(m3.state is Separator && m3.code == code1 && m3.lines == lines);
    assert(input.skip(2).skip(1) =~= input.skip(3));
    assert(input.skip(3)[0] == sep);
    let m4 = spec_feed(m3, sep)->Ok_0;
    assert(m4 == MachineView {
        state: SpecState::Line { last: sep == 32, acc: Seq::<u8>::empty() },
        code: code1,
        lines,
    });
    assert(input.skip(3).skip(1) =~= input.skip(4));
    assert(input.skip(4) =~= text + seq![13u8, 10u8] + rest);
    lemma_run_content(sep == 32, Seq::empty(), code1, lines, text, rest);
    assert(Seq::<u8>::empty() + text =~= text);
    assert(spec_run(m0, input) == spec_run(m1, input.skip(1)));
    assert(spec_run(m1, input.skip(1)) == spec_run(m2, input.skip(2)));
    assert(spec_run(m2, input.skip(2)) == spec_run(m3, input.skip(3)));
    assert(spec_run(m3, input.skip(3)) == spec_run(m4, input.skip(4)));
}

/// Generalization of the whole-reply law over already-gathered lines.
proof fn lemma_run_reply(
    code0: int,
    lines: Seq<Seq<char>>,
    digits: Seq<u8>,
    texts: Seq<Seq<u8>>,
    rest: Seq<u8>,
)
    requires
        digits.len() == 3,
        forall|i: int| 0 <= i < 3 ==> is_digit(#[trigger] digits[i]),
        texts.len() >= 1,
        forall|k: int| 0 <= k < texts.len() ==> line_ok(#[trigger] texts[k]),
        forall|k: int| 0 <= k < texts.len() ==> valid_utf8(#[trigger] texts[k]),
    ensures
        spec_run(
            MachineView { state: SpecState::NewLine { ndigits: 0, val: 0 }, code: code0, lines },
            reply_bytes(digits, texts) + rest,
        ) == (RunResult::Done {
            machine: MachineView {
                state: SpecState::Done,
                code: if lines.len() == 0 {
                    code_of_digits(digits)
                } else {
                    code0
                },
                lines: lines + texts.map_values(|t: Seq<u8>| decode_utf8(t)),
            },
            rest,
        }),
    decreases texts.len(),
{
    if texts.len() == 1 {
        lemma_run_line(code0, lines, digits, 32u8, texts[0], rest);
        assert(lines.push(decode_utf8(texts[0])) =~= lines + texts.map_values(
            |t: Seq<u8>| decode_utf8(t),
        ));
    } else {
        let input = reply_bytes(digits, texts) + rest;
        assert(input =~= line_bytes(digits, 45u8, texts[0]) + (reply_bytes(
            digits,
            texts.skip(1),
        ) + rest));
        lemma_run_line(
            code0,
            lines,
            digits,
            45u8,
            texts[0],
            reply_bytes(digits, texts.skip(1)) + rest,
        );
        assert forall|k: int| 0 <= k < texts.skip(1).len() implies line_ok(
            #[trigger] texts.skip(1)[k],
        ) && valid_utf8(texts.skip(1)[k]) by {
            assert(texts.skip(1)[k] == texts[k + 1]);
        }
        lemma_run_reply(
            if lines.len() == 0 {
                code_of_digits(digits)
            } else {
                code0
            },
            lines.push(decode_utf8(texts[0])),
            digits,
            texts.skip(1),
            rest,
        );
        assert(lines.push(decode_utf8(texts[0])) + texts.skip(1).map_values(
            |t: Seq<u8>| decode_utf8(t),
        ) =~= lines + texts.map_values(|t: Seq<u8>| decode_utf8(t)));
    }
}

/// Law: any well-formed reply parses completely. For any three code digits
/// and any sequence of line texts free of CRLF (and not CR-terminated), the
/// machine run over the continuation-marked lines followed by the final line
/// ends in exactly the reply whose code is the digits' value and whose text
/// lines are the texts, decoded, in order — whatever bytes follow.
pub proof fn lemma_reply_parses(digits: Seq<u8>, texts: Seq<Seq<u8>>, rest: Seq<u8>)
    requires
        digits.len() == 3,
        forall|i: int| 0 <= i < 3 ==> is_digit(#[trigger] digits[i]),
        texts.len() >= 1,
        forall|k: int| 0 <= k < texts.len() ==> line_ok(#[trigger] texts[k]),
        forall|k: int| 0 <= k < texts.len() ==> valid_utf8(#[trigger] texts[k]),
    ensures
        spec_run(initial_machine(), reply_bytes(digits, texts) + rest) == (RunResult::Done {
            machine: MachineView {
                state: SpecState::Done,
                code: code_of_digits(digits),
                lines: texts.map_values(|t: Seq<u8>| decode_utf8(t)),
            },
            rest,
        }),
{
    lemma_run_reply(0, Seq::empty(), digits, texts, rest);
    assert(Seq::<Seq<char>>::empty() + texts.map_values(|t: Seq<u8>| decode_utf8(t)) =~= texts.map_values(
        |t: Seq<u8>| decode_utf8(t),
    ));
}

/// Law: a reply whose three-byte status code field holds a non-digit fails
/// at the first such byte — a code-parse failure carrying it, with no reply
/// produced — whatever follows.
pub proof fn lemma_bad_code_digit(input: Seq<u8>, k: int)
    requires
        0 <= k < 3,
        input.len() > k,
        forall|i: int| 0 <= i < k ==> is_digit(#[trigger] input[i]),
        !is_digit(input[k]),
    ensures
        spec_run(initial_machine(), input) == (RunResult::Fail {
            err: SpecErr::BadCodeByte(input[k]),
            rest: input.skip(k + 1),
        }),
{
    let m0 = initial_machine();
    if k == 0 {
    } else if k == 1 {
        let m1 = spec_feed(m0, input[0])->Ok_0;
        assert(input.skip(1)[0] == input[1]);
        assert(input.skip(1).skip(1) =~= input.skip(2));
        assert(spec_run(m0, input) == spec_run(m1, input.skip(1)));
    } else {
        let m1 = spec_feed(m0, input[0])->Ok_0;
        let m2 = spec_feed(m1, input[1])->Ok_0;
        assert(input.skip(1)[0] == input[1]);
        assert(input.skip(1).skip(1) =~= input.skip(2));
        assert(input.skip(2)[0] == input[2]);
        assert(input.skip(2).skip(1) =~= input.skip(3));
        assert(spec_run(m0, input) == spec_run(m1, input.skip(1)));
        assert(spec_run(m1, input.skip(1)) == spec_run(m2, input.skip(2)));
    }
}

/// Law: a reply whose first three bytes are digits and whose fourth byte is
/// neither space, `-`, nor CR fails at that byte — an unexpected-separator
/// failure carrying it, with no reply produced — whatever follows.
pub proof fn lemma_unexpected_separator(input: Seq<u8>)
    requires
        input.len() >= 4,
        is_digit(input[0]),
        is_digit(input[1]),
        is_digit(input[2]),
        input[3] != 32,
        input[3] != 45,
        input[3] != 13,
    ensures
        spec_run(initial_machine(), input) == (RunResult::Fail {
            err: SpecErr::BadSeparator(input[3]),
            rest: input.skip(4),
        }),
{
    let m0 = initial_machine();
    let m1 = spec_feed(m0, input[0])->Ok_0;
    let m2 = spec_feed(m1, input[1])->Ok_0;
    let m3 = spec_feed(m2, input[2])->Ok_0;
    assert(input.skip(1)[0] == input[1]);
    assert(input.skip(1).skip(1) =~= input.skip(2));
    assert(input.skip(2)[0] == input[2]);
    assert(input.skip(2).skip(1) =~= input.skip(3));
    assert(input.skip(3)[0] == input[3]);
    assert(input.skip(3).skip(1) =~= input.skip(4));
    assert(m3.state is Separator);
    assert(spec_feed(m3, input[3]) == Err::<MachineView, SpecErr>(SpecErr::BadSeparator(input[3])));
    assert(spec_run(m0, input) == spec_run(m1, input.skip(1)));
    assert(spec_run(m1, input.skip(1)) == spec_run(m2, input.skip(2)));
    assert(spec_run(m2, input.skip(2)) == spec_run(m3, input.skip(3)));
}

/// Reading a value off a transport.
pub trait FromStream<E>: Sized {
    fn from_stream<T: Transport>(stream: &mut T) -> Result<Self, E>;
}

impl FromStream<ParseError> for Reply {
    fn from_stream<T: Transport>(stream: &mut T) -> Result<Reply, ParseError> {
        ReplyParser::parse_from_stream(stream)
    }
}

} // verus!
