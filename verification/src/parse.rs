//! Parse results and errors shared by the grammars of the library.
//!
//! A parser reads the characters of an input from a position and either
//! succeeds with the position after what it consumed, or fails in one of three
//! ways: a recoverable error (another alternative may be tried), a failure
//! (the input is definitely malformed), or an abort (an input on which the
//! grammar has no answer; callers report it as a fatal condition).
use vstd::prelude::*;
use crate::text::{
    byte_offset, decimal, line_at, position, push_decimal, push_range, push_str, string_from_chars,
    to_chars,
};

verus! {

#[derive(Clone, Copy, Debug, PartialEq, Eq, Structural)]
pub enum ErrKind {
    /// Recoverable: the parser did not recognize its construct here.
    Error,
    /// Unrecoverable: the construct started but is malformed.
    Failure,
    /// The input reaches a state with no defined result.
    Abort,
}

#[derive(Clone, Debug)]
pub enum Msg {
    /// A complete message.
    Text(String),
    /// `wherein` the parser was and what it `expected`.
    Partial(&'static str, &'static str),
}

pub enum MsgV {
    Text(Seq<char>),
    Partial(Seq<char>, Seq<char>),
}

impl View for Msg {
    type V = MsgV;

    open spec fn view(&self) -> MsgV {
        match self {
            Msg::Text(t) => MsgV::Text(t@),
            Msg::Partial(w, e) => MsgV::Partial(w@, e@),
        }
    }
}

/// An internal parse error: kind, character position and message.
#[derive(Clone, Debug)]
pub struct PErr {
    pub kind: ErrKind,
    pub pos: usize,
    pub msg: Msg,
}

pub struct PErrV {
    pub kind: ErrKind,
    pub pos: int,
    pub msg: MsgV,
}

impl View for PErr {
    type V = PErrV;

    open spec fn view(&self) -> PErrV {
        PErrV { kind: self.kind, pos: self.pos as int, msg: self.msg@ }
    }
}

/// Result of a spec parser: the position after the match and the value, or an error.
pub type SRes<T> = Result<(int, T), PErrV>;

pub open spec fn serr<T>(kind: ErrKind, pos: int, msg: MsgV) -> SRes<T> {
    Err(PErrV { kind, pos, msg })
}

pub open spec fn text_msg(t: &str) -> MsgV {
    MsgV::Text(t@)
}

pub open spec fn partial_msg(wherein: &str, expected: &str) -> MsgV {
    MsgV::Partial(wherein@, expected@)
}

/// The view of an exec parse result whose value has a view.
pub open spec fn rview<T: View>(r: Result<(usize, T), PErr>) -> SRes<T::V> {
    match r {
        Ok((p, v)) => Ok((p as int, v@)),
        Err(e) => Err(e@),
    }
}

/// An exec parse result whose value is a plain value.
pub open spec fn rval<T>(r: Result<(usize, T), PErr>) -> SRes<T> {
    match r {
        Ok((p, v)) => Ok((p as int, v)),
        Err(e) => Err(e@),
    }
}

/// The view of an exec parse result through `f`.
pub open spec fn rmap<T, U>(r: Result<(usize, T), PErr>, f: spec_fn(T) -> U) -> SRes<U> {
    match r {
        Ok((p, v)) => Ok((p as int, f(v))),
        Err(e) => Err(e@),
    }
}

/// Turns a recoverable error into a failure with a partial message at `pos`.
pub open spec fn cut<T>(r: SRes<T>, pos: int, wherein: &str, expected: &str) -> SRes<T> {
    match r {
        Err(e) => if e.kind == ErrKind::Error {
            serr(ErrKind::Failure, pos, partial_msg(wherein, expected))
        } else {
            Err(e)
        },
        Ok(v) => Ok(v),
    }
}

pub fn perr(kind: ErrKind, pos: usize, msg: Msg) -> (e: PErr)
    ensures
        e@ == (PErrV { kind, pos: pos as int, msg: msg@ }),
{
    PErr { kind, pos, msg }
}

pub fn partial(kind: ErrKind, pos: usize, wherein: &'static str, expected: &'static str) -> (e: PErr)
    ensures
        e@ == (PErrV { kind, pos: pos as int, msg: partial_msg(wherein, expected) }),
{
    PErr { kind, pos, msg: Msg::Partial(wherein, expected) }
}

pub fn text_err(kind: ErrKind, pos: usize, t: &str) -> (e: PErr)
    ensures
        e@ == (PErrV { kind, pos: pos as int, msg: text_msg(t) }),
{
    PErr { kind, pos, msg: Msg::Text(t.to_owned()) }
}

/// A position in an input: the whole input and a character index into it.
#[derive(Clone, Debug)]
pub struct Span {
    chars: Vec<char>,
    pos: usize,
}

impl Span {
    pub closed spec fn input(&self) -> Seq<char> {
        self.chars@
    }

    pub closed spec fn index(&self) -> int {
        self.pos as int
    }

    pub open spec fn wf(&self) -> bool {
        &&& 0 <= self.index() <= self.input().len()
        &&& self.input().len() < u32::MAX
        &&& 4 * self.input().len() <= usize::MAX
    }

    /// The start of `input`.
    pub fn new(input: &str) -> (s: Span)
        ensures
            s.input() == input@,
            s.index() == 0,
    {
        Span { chars: to_chars(input), pos: 0 }
    }

    /// The position `pos` of the characters `chars`.
    pub fn at(chars: &Vec<char>, pos: usize) -> (s: Span)
        requires
            pos <= chars@.len(),
        ensures
            s.input() == chars@,
            s.index() == pos,
    {
        Span { chars: chars.clone(), pos }
    }

    /// What remains of the input from this position.
    pub fn fragment(&self) -> (f: String)
        requires
            self.index() <= self.input().len(),
        ensures
            f@ == self.input().skip(self.index()),
    {
        let mut v: Vec<char> = Vec::new();
        push_range(&mut v, &self.chars, self.pos, self.chars.len());
        assert(v@ =~= self.input().skip(self.index()));
        string_from_chars(v.as_slice())
    }

    /// Line of this position, from 1.
    pub fn location_line(&self) -> (l: u32)
        requires
            self.wf(),
        ensures
            l == line_at(self.input(), self.index()),
    {
        position(&self.chars, self.pos).0
    }

    /// UTF-8 byte offset of this position.
    pub fn location_offset(&self) -> (o: usize)
        requires
            self.wf(),
        ensures
            o == byte_offset(self.input(), self.index()),
    {
        position(&self.chars, self.pos).1
    }
}


/// What the message of an error reads for an unexpected `fragment` of the input.
pub open spec fn unexpected_text(fragment: Seq<char>) -> Seq<char> {
    if fragment.len() == 0 {
        "EOF"@
    } else {
        seq!['"'] + fragment + seq!['"']
    }
}

/// The full message of an error at `line`/`offset` with the remaining input `fragment`.
pub open spec fn error_message(line: nat, offset: nat, fragment: Seq<char>, msg: MsgV) -> Seq<char> {
    decimal(line) + ":"@ + decimal(offset) + ": parse error: "@ + match msg {
        MsgV::Text(t) => t,
        MsgV::Partial(w, e) => "unexpected '"@ + unexpected_text(fragment) + "' in "@ + w
            + ", expected "@ + e,
    }
}

/// A parse error at a position of an input, with its message.
#[derive(Debug)]
pub struct ParseError {
    span: Span,
    msg: Msg,
}

impl ParseError {
    pub closed spec fn span_spec(&self) -> Span {
        self.span
    }

    pub closed spec fn msg_spec(&self) -> MsgV {
        self.msg@
    }

    /// An error with a complete `message`.
    pub fn new(message: String, span: Span) -> (e: ParseError)
        ensures
            e.span_spec() == span,
            e.msg_spec() == MsgV::Text(message@),
    {
        ParseError { span, msg: Msg::Text(message) }
    }

    /// An error saying what was expected, and where.
    pub fn partial(wherein: &'static str, expected: &'static str, span: Span) -> (e: ParseError)
        ensures
            e.span_spec() == span,
            e.msg_spec() == partial_msg(wherein, expected),
    {
        ParseError { span, msg: Msg::Partial(wherein, expected) }
    }

    pub fn span(&self) -> (s: &Span)
        ensures
            *s == self.span_spec(),
    {
        &self.span
    }

    pub fn line(&self) -> (l: u32)
        requires
            self.span_spec().wf(),
        ensures
            l == line_at(self.span_spec().input(), self.span_spec().index()),
    {
        self.span.location_line()
    }

    pub fn offset(&self) -> (o: usize)
        requires
            self.span_spec().wf(),
        ensures
            o == byte_offset(self.span_spec().input(), self.span_spec().index()),
    {
        self.span.location_offset()
    }

    /// `line:offset: parse error: ...`, with either the complete message or
    /// what was unexpected, where, and what was expected.
    pub fn message(&self) -> (m: String)
        requires
            self.span_spec().wf(),
        ensures
            m@ == error_message(
                line_at(self.span_spec().input(), self.span_spec().index()),
                byte_offset(self.span_spec().input(), self.span_spec().index()),
                self.span_spec().input().skip(self.span_spec().index()),
                self.msg_spec(),
            ),
    {
        let mut out: Vec<char> = Vec::new();
        push_decimal(self.line() as usize, &mut out);
        push_str(&mut out, ":");
        push_decimal(self.offset(), &mut out);
        push_str(&mut out, ": parse error: ");
        match &self.msg {
            Msg::Text(t) => {
                push_str(&mut out, t.as_str());
            },
            Msg::Partial(w, e) => {
                push_str(&mut out, "unexpected '");
                let f = self.span.fragment();
                if f.as_str().is_empty() {
                    push_str(&mut out, "EOF");
                } else {
                    push_str(&mut out, "\"");
                    push_str(&mut out, f.as_str());
                    push_str(&mut out, "\"");
                }
                push_str(&mut out, "' in ");
                push_str(&mut out, w);
                push_str(&mut out, ", expected ");
                push_str(&mut out, e);
            },
        }
        proof {
            reveal_strlit("\"");
            let msg = self.msg_spec();
            let frag = self.span_spec().input().skip(self.span_spec().index());
            let head = decimal(line_at(self.span_spec().input(), self.span_spec().index()) as nat)
                + ":"@ + decimal(byte_offset(self.span_spec().input(), self.span_spec().index()))
                + ": parse error: "@;
            match msg {
                MsgV::Text(t) => {
                    assert(out@ =~= head + t);
                },
                MsgV::Partial(w, e) => {
                    assert(out@ =~= head + ("unexpected '"@ + unexpected_text(frag) + "' in "@ + w
                        + ", expected "@ + e));
                },
            }
        }
        string_from_chars(out.as_slice())
    }
}

/// Error outcome of a public parser, by kind.
#[derive(Debug)]
pub enum ParseErr {
    Error(ParseError),
    Failure(ParseError),
    /// An input on which the grammar has no defined result.
    Abort(ParseError),
}

impl ParseErr {
    pub open spec fn kind_spec(&self) -> ErrKind {
        match self {
            ParseErr::Error(_) => ErrKind::Error,
            ParseErr::Failure(_) => ErrKind::Failure,
            ParseErr::Abort(_) => ErrKind::Abort,
        }
    }

    pub open spec fn error_spec(&self) -> ParseError {
        match self {
            ParseErr::Error(e) => *e,
            ParseErr::Failure(e) => *e,
            ParseErr::Abort(e) => *e,
        }
    }

    /// The error, whatever its kind.
    pub fn error(&self) -> (e: &ParseError)
        ensures
            *e == self.error_spec(),
    {
        match self {
            ParseErr::Error(e) => e,
            ParseErr::Failure(e) => e,
            ParseErr::Abort(e) => e,
        }
    }
}

/// The public form of an internal error on the input `chars`.
pub fn to_parse_err(chars: &Vec<char>, e: PErr) -> (r: ParseErr)
    requires
        e.pos <= chars@.len(),
    ensures
        r.kind_spec() == e.kind,
        r.error_spec().span_spec().input() == chars@,
        r.error_spec().span_spec().index() == e.pos,
        r.error_spec().msg_spec() == e.msg@,
{
    let span = Span::at(chars, e.pos);
    let pe = ParseError { span, msg: e.msg };
    match e.kind {
        ErrKind::Error => ParseErr::Error(pe),
        ErrKind::Failure => ParseErr::Failure(pe),
        ErrKind::Abort => ParseErr::Abort(pe),
    }
}


/// The outcome of a parser that reports a malformed construct as a value: the
/// complete result, or where it was and what it expected.
#[derive(Debug, PartialEq, Eq)]
pub enum ParseResult<T> {
    Complete(T),
    Partial(&'static str, &'static str),
}

/// A parse result with a failure that says what was expected turned into a
/// `Partial` outcome at the failure's position; other errors stay errors.
pub fn partial_outcome<T>(r: Result<(usize, T), PErr>) -> (o: Result<(usize, ParseResult<T>), PErr>)
    ensures
        match r {
            Ok((p, v)) => o == Ok::<(usize, ParseResult<T>), PErr>((p, ParseResult::Complete(v))),
            Err(e) => match e.msg {
                Msg::Partial(w, x) => if e.kind == ErrKind::Failure {
                    o == Ok::<(usize, ParseResult<T>), PErr>((e.pos, ParseResult::Partial(w, x)))
                } else {
                    o == Err::<(usize, ParseResult<T>), PErr>(e)
                },
                Msg::Text(_) => o == Err::<(usize, ParseResult<T>), PErr>(e),
            },
        },
{
    match r {
        Ok((p, v)) => Ok((p, ParseResult::Complete(v))),
        Err(e) => {
            if e.kind == ErrKind::Failure {
                match e.msg {
                    Msg::Partial(w, x) => { return Ok((e.pos, ParseResult::Partial(w, x))); },
                    Msg::Text(_) => {},
                }
            }
            Err(e)
        },
    }
}

} // verus!
