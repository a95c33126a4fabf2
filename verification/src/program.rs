//! Programs: `decoder [| map {...}] [| select <query>] [| formatter]`.
use vstd::prelude::*;
use crate::lexer::{
    char_msg, expect_char, expect_lchar, keyword_alt, label_identifier, spec_char,
    spec_identifier, spec_lchar, spec_string_literal, string_literal, strs_view, tag_msg,
};
use crate::parse::{
    partial, partial_msg, perr, rmap, rval, rview, serr, text_err, text_msg, to_parse_err, ErrKind,
    Msg, MsgV, PErr, PErrV, ParseErr, SRes, Span,
};
use crate::query::parser::ast::{Expr, ExprV};
use crate::query::parser::expr::{expr, keyword, lemma_keyword_text, spec_expr, spec_keyword};
use crate::lexer::{tag_nocase, TagMatch};
use crate::text::{
    char_is_digit, decimal, is_digit, push_decimal, push_range, push_str, skip_spaces, skip_ws,
    string_from_chars, to_chars,
};

verus! {

/// How input records are decoded.
#[derive(Clone, Debug, PartialEq, Eq)]
pub enum Decoder {
    JSON,
    Regex { regex: String },
}

pub enum DecoderV {
    JSON,
    Regex { regex: Seq<char> },
}

impl View for Decoder {
    type V = DecoderV;

    open spec fn view(&self) -> DecoderV {
        match self {
            Decoder::JSON => DecoderV::JSON,
            Decoder::Regex { regex } => DecoderV::Regex { regex: regex@ },
        }
    }
}

/// Where a field of a record is found: by name or by position.
#[derive(Clone, Debug, PartialEq, Eq)]
pub enum FieldLoc {
    Name(String),
    Position(usize),
}

pub enum FieldLocV {
    Name(Seq<char>),
    Position(nat),
}

impl View for FieldLoc {
    type V = FieldLocV;

    open spec fn view(&self) -> FieldLocV {
        match self {
            FieldLoc::Name(n) => FieldLocV::Name(n@),
            FieldLoc::Position(p) => FieldLocV::Position(*p as nat),
        }
    }
}

/// The type of a field.
#[derive(Clone, Debug, PartialEq, Eq)]
pub enum FieldType {
    Auto,
    Number,
    String,
    Const(String),
    Timestamp(Option<String>),
}

pub enum FieldTypeV {
    Auto,
    Number,
    String,
    Const(Seq<char>),
    Timestamp(Option<Seq<char>>),
}

impl View for FieldType {
    type V = FieldTypeV;

    open spec fn view(&self) -> FieldTypeV {
        match self {
            FieldType::Auto => FieldTypeV::Auto,
            FieldType::Number => FieldTypeV::Number,
            FieldType::String => FieldTypeV::String,
            FieldType::Const(c) => FieldTypeV::Const(c@),
            FieldType::Timestamp(f) => FieldTypeV::Timestamp(match f {
                Some(x) => Some(x@),
                None => None,
            }),
        }
    }
}

/// A field definition of a map expression.
#[derive(Clone, Debug, PartialEq, Eq)]
pub struct MapperField {
    pub loc: FieldLoc,
    pub typ: FieldType,
    pub alias: Option<String>,
}

pub struct MapperFieldV {
    pub loc: FieldLocV,
    pub typ: FieldTypeV,
    pub alias: Option<Seq<char>>,
}

impl View for MapperField {
    type V = MapperFieldV;

    open spec fn view(&self) -> MapperFieldV {
        MapperFieldV {
            loc: self.loc@,
            typ: self.typ@,
            alias: match self.alias {
                Some(a) => Some(a@),
                None => None,
            },
        }
    }
}

/// The name a field gets: its alias, else its name, else `f<position>`.
pub open spec fn end_name(f: MapperFieldV) -> Seq<char> {
    match f.alias {
        Some(a) => a,
        None => match f.loc {
            FieldLocV::Name(n) => n,
            FieldLocV::Position(p) => seq!['f'] + decimal(p),
        },
    }
}

impl MapperField {
    /// The name the field gets: its alias, else its name, else `f<position>`.
    pub fn end_name(&self) -> (n: String)
        ensures
            n@ == end_name(self@),
    {
        if let Some(alias) = &self.alias {
            return alias.clone();
        }
        match &self.loc {
            FieldLoc::Name(name) => name.clone(),
            FieldLoc::Position(pos) => {
                let mut v: Vec<char> = Vec::new();
                v.push('f');
                push_decimal(*pos, &mut v);
                assert(v@ =~= seq!['f'] + decimal(*pos as nat));
                string_from_chars(v.as_slice())
            },
        }
    }
}

/// A map expression: its field definitions.
#[derive(Clone, Debug, PartialEq, Eq)]
pub struct Mapper {
    pub fields: Vec<MapperField>,
}

pub open spec fn fields_view(v: Seq<MapperField>) -> Seq<MapperFieldV> {
    v.map_values(|f: MapperField| f@)
}

/// How results are formatted.
#[derive(Clone, Copy, Debug, PartialEq, Eq, Structural)]
pub enum Formatter {
    HumanReadable,
    JSON,
    PromAPI,
}

/// A parsed program.
#[derive(Debug)]
pub struct AST {
    pub decoder: Decoder,
    pub mapper: Option<Mapper>,
    pub query: Option<Expr>,
    pub formatter: Option<Formatter>,
}

pub struct ASTV {
    pub decoder: DecoderV,
    pub mapper: Option<Seq<MapperFieldV>>,
    pub query: Option<ExprV>,
    pub formatter: Option<Formatter>,
}

impl View for AST {
    type V = ASTV;

    open spec fn view(&self) -> ASTV {
        ASTV {
            decoder: self.decoder@,
            mapper: match self.mapper {
                Some(m) => Some(fields_view(m.fields@)),
                None => None,
            },
            query: match self.query {
                Some(q) => Some(q@),
                None => None,
            },
            formatter: self.formatter,
        }
    }
}


/// Index of the first `needle` at or after `i` that is not escaped by a
/// backslash (a backslash escapes the character that follows it).
pub open spec fn find_unescaped(s: Seq<char>, i: int, armed: bool, needle: char) -> Option<int>
    decreases s.len() - i,
{
    if i < 0 || i >= s.len() {
        None
    } else if !armed && s[i] == '\\' {
        find_unescaped(s, i + 1, true, needle)
    } else if !armed && s[i] == needle {
        Some(i)
    } else {
        find_unescaped(s, i + 1, false, needle)
    }
}

pub proof fn lemma_find_unescaped(s: Seq<char>, i: int, armed: bool, needle: char)
    ensures
        find_unescaped(s, i, armed, needle) matches Some(e) ==> i <= e < s.len() && s[e] == needle,
    decreases s.len() - i,
{
    if 0 <= i < s.len() {
        if !armed && s[i] == '\\' {
            lemma_find_unescaped(s, i + 1, true, needle);
        } else if !(!armed && s[i] == needle) {
            lemma_find_unescaped(s, i + 1, false, needle);
        }
    }
}

/// `t` with every `\/` replaced by `/`, from left to right.
pub open spec fn unescape_slashes(t: Seq<char>) -> Seq<char>
    decreases t.len(),
{
    if t.len() == 0 {
        t
    } else if t.len() >= 2 && t[0] == '\\' && t[1] == '/' {
        seq!['/'] + unescape_slashes(t.skip(2))
    } else {
        seq![t[0]] + unescape_slashes(t.skip(1))
    }
}

/// A regex decoder at `pos`: `/.../`, where `\/` stands for `/`.
pub open spec fn spec_decoder_regex(s: Seq<char>, pos: int) -> SRes<DecoderV> {
    match spec_char(s, pos, '/') {
        Err(e) => Err(e),
        Ok((p1, _)) => match find_unescaped(s, p1, false, '/') {
            Some(e) => Ok((e + 1, DecoderV::Regex { regex: unescape_slashes(s.subrange(p1, e)) })),
            None => serr(ErrKind::Failure, p1, partial_msg("regex", "closing '/' symbol")),
        },
    }
}

/// A decoder at `pos`: a regex decoder or `json`.
pub open spec fn spec_decoder(s: Seq<char>, pos: int) -> SRes<DecoderV> {
    let r = spec_decoder_regex(s, pos);
    if r matches Err(e) && e.kind == ErrKind::Error {
        match spec_keyword(s, pos, seq!["json"@], seq![true]) {
            Ok((p, _)) => Ok((p, DecoderV::JSON)),
            Err(e) => Err(e),
        }
    } else {
        r
    }
}

fn unescape_range(s: &Vec<char>, from: usize, to: usize) -> (r: String)
    requires
        from <= to <= s@.len(),
    ensures
        r@ == unescape_slashes(s@.subrange(from as int, to as int)),
{
    let mut out: Vec<char> = Vec::new();
    let mut i = from;
    while i < to
        invariant
            from <= i <= to <= s@.len(),
            out@ + unescape_slashes(s@.subrange(i as int, to as int)) == unescape_slashes(s@.subrange(from as int, to as int)),
        decreases to - i,
    {
        let ghost t = s@.subrange(i as int, to as int);
        if i + 1 < to && s[i] == '\\' && s[i + 1] == '/' {
            out.push('/');
            assert(t.skip(2) =~= s@.subrange(i + 2, to as int));
            assert(out@ + unescape_slashes(s@.subrange(i + 2, to as int)) =~= out@.drop_last() + (seq!['/'] + unescape_slashes(t.skip(2))));
            i = i + 2;
        } else {
            out.push(s[i]);
            assert(t.skip(1) =~= s@.subrange(i + 1, to as int));
            assert(out@ + unescape_slashes(s@.subrange(i + 1, to as int)) =~= out@.drop_last() + (seq![t[0]] + unescape_slashes(t.skip(1))));
            i = i + 1;
        }
    }
    assert(s@.subrange(i as int, to as int) =~= Seq::<char>::empty());
    assert(out@ + Seq::<char>::empty() =~= out@);
    string_from_chars(out.as_slice())
}

fn decoder_regex(s: &Vec<char>, pos: usize) -> (r: Result<(usize, Decoder), PErr>)
    requires
        pos <= s@.len(),
    ensures
        r is Err ==> r->Err_0.pos <= s@.len(),
        rview(r) == spec_decoder_regex(s@, pos as int),
        r is Ok ==> pos < r->Ok_0.0 <= s@.len(),
{
    let (p1, _) = expect_char(s, pos, '/')?;
    let mut i = p1;
    let mut armed = false;
    while i < s.len()
        invariant
            p1 <= i <= s@.len(),
            p1 == pos + 1,
            spec_char(s@, pos as int, '/') == Ok::<(int, ()), PErrV>((p1 as int, ())),
            find_unescaped(s@, i as int, armed, '/') == find_unescaped(s@, p1 as int, false, '/'),
        decreases s@.len() - i,
    {
        let c = s[i];
        if !armed && c == '\\' {
            armed = true;
        } else if !armed && c == '/' {
            assert(find_unescaped(s@, i as int, armed, '/') == Some(i as int));
            let regex = unescape_range(s, p1, i);
            return Ok((i + 1, Decoder::Regex { regex }));
        } else {
            armed = false;
        }
        i = i + 1;
    }
    Err(partial(ErrKind::Failure, p1, "regex", "closing '/' symbol"))
}

fn decoder(s: &Vec<char>, pos: usize) -> (r: Result<(usize, Decoder), PErr>)
    requires
        pos <= s@.len(),
    ensures
        r is Err ==> r->Err_0.pos <= s@.len(),
        rview(r) == spec_decoder(s@, pos as int),
        r is Ok ==> pos <= r->Ok_0.0 <= s@.len(),
{
    let r = decoder_regex(s, pos);
    match &r {
        Err(e) => {
            if e.kind == ErrKind::Error {
                let kws: [&str; 1] = ["json"];
                let vals: [bool; 1] = [true];
                assert(strs_view(kws@) =~= seq!["json"@]);
                assert(vals@ =~= seq![true]);
                return match keyword(s, pos, kws.as_slice(), vals.as_slice()) {
                    Ok((p, _)) => Ok((p, Decoder::JSON)),
                    Err(e) => Err(e),
                };
            }
        },
        Ok(_) => {},
    }
    r
}


/// A field type at `pos`: `:str`, `:num`, `:ts ["format"]`.
pub open spec fn spec_field_type(s: Seq<char>, pos: int) -> SRes<FieldTypeV> {
    match spec_char(s, pos, ':') {
        Err(e) => Err(e),
        Ok((p1, _)) => match spec_keyword(s, skip_ws(s, p1), seq!["str"@, "num"@, "ts"@], seq![0int, 1int, 2int]) {
            Err(e) => if e.kind == ErrKind::Error {
                serr(ErrKind::Failure, p1, partial_msg("map expression", "type (str, num, or ts)"))
            } else {
                Err(e)
            },
            Ok((r, k)) => if k == 0 {
                Ok((r, FieldTypeV::String))
            } else if k == 1 {
                Ok((r, FieldTypeV::Number))
            } else {
                match spec_string_literal(s, skip_ws(s, r)) {
                    Ok((r2, f)) => Ok((r2, FieldTypeV::Timestamp(Some(f)))),
                    Err(_) => Ok((r, FieldTypeV::Timestamp(None))),
                }
            },
        },
    }
}

/// A field alias at `pos`: `as name`.
pub open spec fn spec_field_alias(s: Seq<char>, pos: int) -> SRes<Seq<char>> {
    match spec_keyword(s, pos, seq!["as "@], seq![true]) {
        Err(e) => Err(e),
        Ok((r1, _)) => match spec_identifier(s, skip_ws(s, r1), false) {
            Err(e) => if e.kind == ErrKind::Error {
                serr(ErrKind::Failure, r1, partial_msg("map expression", "alias (identifier)"))
            } else {
                Err(e)
            },
            Ok((r2, a)) => Ok((r2, a)),
        },
    }
}

/// A decimal number at `pos` and its value (no digits: none).
pub open spec fn digits_at(s: Seq<char>, pos: int) -> Option<(int, nat)> {
    let e = crate::duration::digits_end(s, pos);
    if e == pos {
        None
    } else {
        Some((e, crate::duration::digits_value(s, pos, e)))
    }
}

/// A dynamic field at `pos`: `.position` or `.name`, then an optional type and alias.
pub open spec fn spec_field_dynamic(s: Seq<char>, pos: int) -> SRes<MapperFieldV> {
    match spec_char(s, pos, '.') {
        Err(e) => Err(e),
        Ok((p1, _)) => {
            let loc = match digits_at(s, p1) {
                Some((e, n)) => if n > usize::MAX {
                    serr(ErrKind::Abort, p1, text_msg("field position out of range"))
                } else {
                    Ok((e, FieldLocV::Position(n)))
                },
                None => match spec_identifier(s, p1, false) {
                    Ok((e, name)) => Ok((e, FieldLocV::Name(name))),
                    Err(_) => serr(ErrKind::Failure, p1, partial_msg("map expression", "field position (number) or name (identifier)")),
                },
            };
            match loc {
                Err(e) => Err(e),
                Ok((r1, loc)) => {
                    let t = match spec_field_type(s, skip_ws(s, r1)) {
                        Ok((r, t)) => Ok((r, t)),
                        Err(e) => if e.kind == ErrKind::Error { Ok((r1, FieldTypeV::Auto)) } else { Err(e) },
                    };
                    match t {
                        Err(e) => Err(e),
                        Ok((r2, typ)) => {
                            let a = match spec_field_alias(s, skip_ws(s, r2)) {
                                Ok((r, a)) => Ok((r, Some(a))),
                                Err(e) => if e.kind == ErrKind::Error { Ok((r2, None)) } else { Err(e) },
                            };
                            match a {
                                Err(e) => Err(e),
                                Ok((r3, alias)) => Ok((r3, MapperFieldV { loc, typ, alias })),
                            }
                        },
                    }
                },
            }
        },
    }
}

/// A constant field at `pos`: `name: "value"`.
pub open spec fn spec_field_const(s: Seq<char>, pos: int) -> SRes<MapperFieldV> {
    match spec_identifier(s, pos, false) {
        Err(e) => Err(e),
        Ok((r1, name)) => match spec_lchar(s, r1, ':') {
            Err(_) => serr(ErrKind::Failure, r1, partial_msg("map expression", ":")),
            Ok((r2, _)) => match spec_string_literal(s, skip_ws(s, r2)) {
                Err(_) => serr(ErrKind::Failure, r2, partial_msg("map expression", "string literal")),
                Ok((r3, v)) => Ok((r3, MapperFieldV { loc: FieldLocV::Name(name), typ: FieldTypeV::Const(v), alias: None })),
            },
        },
    }
}

/// A field definition at `pos`: dynamic or constant.
pub open spec fn spec_mapper_field(s: Seq<char>, pos: int) -> SRes<MapperFieldV> {
    let d = spec_field_dynamic(s, pos);
    if d matches Err(e) && e.kind == ErrKind::Error {
        spec_field_const(s, pos)
    } else {
        d
    }
}

fn field_type(s: &Vec<char>, pos: usize) -> (r: Result<(usize, FieldType), PErr>)
    requires
        pos <= s@.len(),
    ensures
        r is Err ==> r->Err_0.pos <= s@.len(),
        rview(r) == spec_field_type(s@, pos as int),
        r is Ok ==> pos <= r->Ok_0.0 <= s@.len(),
{
    let (p1, _) = expect_char(s, pos, ':')?;
    let q = skip_spaces(s, p1);
    let kws: [&str; 3] = ["str", "num", "ts"];
    let vals: [u8; 3] = [0, 1, 2];
    assert(strs_view(kws@) =~= seq!["str"@, "num"@, "ts"@]);
    let (r, k) = match keyword(s, q, kws.as_slice(), vals.as_slice()) {
        Ok(x) => x,
        Err(e) => {
            if e.kind == ErrKind::Error {
                return Err(partial(ErrKind::Failure, p1, "map expression", "type (str, num, or ts)"));
            }
            return Err(e);
        },
    };
    proof {
        let ghost sk = spec_keyword(s@, q as int, seq!["str"@, "num"@, "ts"@], seq![0int, 1int, 2int]);
        let ghost ek = spec_keyword(s@, q as int, strs_view(kws@), vals@);
        crate::lexer::lemma_keyword_alt(s@, q as int, seq!["str"@, "num"@, "ts"@]);
        match keyword_alt(s@, q as int, seq!["str"@, "num"@, "ts"@]) {
            Some((i, false)) => {
                assert(sk == Ok::<(int, int), PErrV>((q + seq!["str"@, "num"@, "ts"@][i].len(), seq![0int, 1int, 2int][i])));
                assert(ek == Ok::<(int, u8), PErrV>((q + seq!["str"@, "num"@, "ts"@][i].len(), vals@[i])));
                assert(vals@[i] as int == seq![0int, 1int, 2int][i]);
            },
            _ => {},
        }
    }
    if k == 0 {
        Ok((r, FieldType::String))
    } else if k == 1 {
        Ok((r, FieldType::Number))
    } else {
        let q2 = skip_spaces(s, r);
        match string_literal(s, q2) {
            Ok((r2, f)) => Ok((r2, FieldType::Timestamp(Some(f)))),
            Err(_) => Ok((r, FieldType::Timestamp(None))),
        }
    }
}

fn field_alias(s: &Vec<char>, pos: usize) -> (r: Result<(usize, String), PErr>)
    requires
        pos <= s@.len(),
    ensures
        r is Err ==> r->Err_0.pos <= s@.len(),
        rview(r) == spec_field_alias(s@, pos as int),
        r is Ok ==> pos <= r->Ok_0.0 <= s@.len(),
{
    let kws: [&str; 1] = ["as "];
    let vals: [bool; 1] = [true];
    assert(strs_view(kws@) =~= seq!["as "@]);
    assert(vals@ =~= seq![true]);
    let (r1, _) = keyword(s, pos, kws.as_slice(), vals.as_slice())?;
    let q = skip_spaces(s, r1);
    match label_identifier(s, q) {
        Err(e) => {
            if e.kind == ErrKind::Error {
                Err(partial(ErrKind::Failure, r1, "map expression", "alias (identifier)"))
            } else {
                Err(e)
            }
        },
        Ok(x) => Ok(x),
    }
}

/// Scans the digits at `pos`: their end, and their value when it fits in a `usize`.
fn scan_position(s: &Vec<char>, pos: usize) -> (r: (usize, Option<usize>))
    requires
        pos <= s@.len(),
    ensures
        r.0 == crate::duration::digits_end(s@, pos as int),
        r.0 <= s@.len(),
        match r.1 {
            Some(v) => v == crate::duration::digits_value(s@, pos as int, r.0 as int),
            None => crate::duration::digits_value(s@, pos as int, r.0 as int) > usize::MAX,
        },
{
    let mut i = pos;
    let mut v: Option<usize> = Some(0);
    while i < s.len() && crate::text::char_is_digit(s[i])
        invariant
            pos <= i <= s@.len(),
            crate::duration::digits_end(s@, i as int) == crate::duration::digits_end(s@, pos as int),
            match v {
                Some(x) => x == crate::duration::digits_value(s@, pos as int, i as int),
                None => crate::duration::digits_value(s@, pos as int, i as int) > usize::MAX,
            },
        decreases s@.len() - i,
    {
        let d = (s[i] as u32 - '0' as u32) as usize;
        v = match v {
            Some(x) => {
                if x <= (usize::MAX - d) / 10 {
                    Some(x * 10 + d)
                } else {
                    None
                }
            },
            None => None,
        };
        i = i + 1;
        assert(crate::duration::digits_value(s@, pos as int, i as int)
            == crate::duration::digits_value(s@, pos as int, i - 1) * 10 + ((s@[i - 1] as u32) - ('0' as u32)) as nat);
    }
    (i, v)
}

fn field_dynamic(s: &Vec<char>, pos: usize) -> (r: Result<(usize, MapperField), PErr>)
    requires
        pos <= s@.len(),
    ensures
        r is Err ==> r->Err_0.pos <= s@.len(),
        rview(r) == spec_field_dynamic(s@, pos as int),
        r is Ok ==> pos < r->Ok_0.0 <= s@.len(),
{
    let (p1, _) = expect_char(s, pos, '.')?;
    let (e, val) = scan_position(s, p1);
    proof { crate::duration::lemma_digits_end(s@, p1 as int); }
    let (r1, loc) = if e != p1 {
        match val {
            None => {
                return Err(text_err(ErrKind::Abort, p1, "field position out of range"));
            },
            Some(n) => (e, FieldLoc::Position(n)),
        }
    } else {
        match label_identifier(s, p1) {
            Ok((x, name)) => (x, FieldLoc::Name(name)),
            Err(_) => {
                return Err(partial(ErrKind::Failure, p1, "map expression", "field position (number) or name (identifier)"));
            },
        }
    };
    let q1 = skip_spaces(s, r1);
    let (r2, typ) = match field_type(s, q1) {
        Ok(x) => x,
        Err(err) => {
            if err.kind == ErrKind::Error {
                (r1, FieldType::Auto)
            } else {
                return Err(err);
            }
        },
    };
    let q2 = skip_spaces(s, r2);
    let (r3, alias) = match field_alias(s, q2) {
        Ok((x, a)) => (x, Some(a)),
        Err(err) => {
            if err.kind == ErrKind::Error {
                (r2, None)
            } else {
                return Err(err);
            }
        },
    };
    Ok((r3, MapperField { loc, typ, alias }))
}

fn field_const(s: &Vec<char>, pos: usize) -> (r: Result<(usize, MapperField), PErr>)
    requires
        pos <= s@.len(),
    ensures
        r is Err ==> r->Err_0.pos <= s@.len(),
        rview(r) == spec_field_const(s@, pos as int),
        r is Ok ==> pos < r->Ok_0.0 <= s@.len(),
{
    let (r1, name) = label_identifier(s, pos)?;
    let r2 = match expect_lchar(s, r1, ':') {
        Ok((x, _)) => x,
        Err(_) => {
            return Err(partial(ErrKind::Failure, r1, "map expression", ":"));
        },
    };
    let q = skip_spaces(s, r2);
    match string_literal(s, q) {
        Err(_) => Err(partial(ErrKind::Failure, r2, "map expression", "string literal")),
        Ok((r3, v)) => Ok((r3, MapperField { loc: FieldLoc::Name(name), typ: FieldType::Const(v), alias: None })),
    }
}

fn mapper_field(s: &Vec<char>, pos: usize) -> (r: Result<(usize, MapperField), PErr>)
    requires
        pos <= s@.len(),
    ensures
        r is Err ==> r->Err_0.pos <= s@.len(),
        rview(r) == spec_mapper_field(s@, pos as int),
        r is Ok ==> pos < r->Ok_0.0 <= s@.len(),
{
    let d = field_dynamic(s, pos);
    match &d {
        Err(e) => {
            if e.kind == ErrKind::Error {
                return field_const(s, pos);
            }
        },
        Ok(_) => {},
    }
    d
}


/// The rest of a `{field, ...}` list after `p`, with the fields `items` already read.
pub open spec fn spec_fields_rest(s: Seq<char>, p: int, items: Seq<MapperFieldV>) -> SRes<Seq<MapperFieldV>>
    decreases s.len() - p,
{
    if spec_lchar(s, p, '}') is Ok {
        Ok((spec_lchar(s, p, '}')->Ok_0.0, items))
    } else {
        let sep = if items.len() > 0 {
            match spec_lchar(s, p, ',') {
                Ok((p2, _)) => Ok((p2, ())),
                Err(e) => if e.kind == ErrKind::Error {
                    serr(ErrKind::Failure, p, partial_msg("map expression", "field definition (example: '.foo:str') or '}'"))
                } else {
                    Err(e)
                },
            }
        } else {
            Ok((p, ()))
        };
        match sep {
            Err(e) => Err(e),
            Ok((p2, _)) => if items.len() > 0 && spec_lchar(s, p2, '}') is Ok {
                Ok((spec_lchar(s, p2, '}')->Ok_0.0, items))
            } else {
                match spec_mapper_field(s, skip_ws(s, p2)) {
                    Err(e) => if e.kind == ErrKind::Error {
                        serr(ErrKind::Failure, p2, partial_msg("map expression", "field definition (example: '.foo:str') or '}'"))
                    } else {
                        Err(e)
                    },
                    Ok((p3, f)) => if p < p3 <= s.len() {
                        spec_fields_rest(s, p3, items.push(f))
                    } else {
                        Ok((p3, items.push(f)))
                    },
                }
            },
        }
    }
}

/// A list of field definitions at `pos`: `{}`, `{f1, f2}`, `{f1, f2,}`.
pub open spec fn spec_fields_list(s: Seq<char>, pos: int) -> SRes<Seq<MapperFieldV>> {
    match spec_char(s, pos, '{') {
        Err(e) => Err(e),
        Ok((p1, _)) => spec_fields_rest(s, p1, Seq::empty()),
    }
}

fn fields_list(s: &Vec<char>, pos: usize) -> (r: Result<(usize, Vec<MapperField>), PErr>)
    requires
        pos <= s@.len(),
    ensures
        r is Err ==> r->Err_0.pos <= s@.len(),
        rmap(r, |v: Vec<MapperField>| fields_view(v@)) == spec_fields_list(s@, pos as int),
        r is Ok ==> pos < r->Ok_0.0 <= s@.len(),
{
    let (p1, _) = expect_char(s, pos, '{')?;
    let mut items: Vec<MapperField> = Vec::new();
    assert(fields_view(items@) =~= Seq::<MapperFieldV>::empty());
    let mut p = p1;
    let ghost goal = spec_fields_list(s@, pos as int);
    loop
        invariant
            pos < p <= s@.len(),
            goal == spec_fields_list(s@, pos as int),
            goal == spec_fields_rest(s@, p as int, fields_view(items@)),
        decreases s@.len() - p,
    {
        let ghost iv = fields_view(items@);
        if let Ok((pe, _)) = expect_lchar(s, p, '}') {
            return Ok((pe, items));
        }
        let mut p2 = p;
        if items.len() > 0 {
            p2 = match expect_lchar(s, p, ',') {
                Ok((x, _)) => x,
                Err(e) => {
                    if e.kind == ErrKind::Error {
                        return Err(partial(ErrKind::Failure, p, "map expression", "field definition (example: '.foo:str') or '}'"));
                    }
                    return Err(e);
                },
            };
            if let Ok((pe, _)) = expect_lchar(s, p2, '}') {
                return Ok((pe, items));
            }
        }
        let q = skip_spaces(s, p2);
        match mapper_field(s, q) {
            Err(e) => {
                if e.kind == ErrKind::Error {
                    return Err(partial(ErrKind::Failure, p2, "map expression", "field definition (example: '.foo:str') or '}'"));
                }
                return Err(e);
            },
            Ok((p3, f)) => {
                let ghost fv = f@;
                items.push(f);
                proof {
                    assert(fields_view(items@) =~= iv.push(fv));
                }
                if p3 <= p {
                    return Ok((p3, items));
                }
                p = p3;
            },
        }
    }
}

/// Whether the name at `i` repeats an earlier one.
pub open spec fn repeats_earlier(names: Seq<Seq<char>>, i: int) -> bool {
    exists|j: int| 0 <= j < i && names[j] == names[i]
}

/// The first index from `i` whose name repeats an earlier one.
pub open spec fn first_repeat(names: Seq<Seq<char>>, i: int) -> Option<int>
    decreases names.len() - i,
{
    if i < 0 || i >= names.len() {
        None
    } else if repeats_earlier(names, i) {
        Some(i)
    } else {
        first_repeat(names, i + 1)
    }
}

pub open spec fn is_timestamp(f: MapperFieldV) -> bool {
    f.typ is Timestamp
}

/// Located by name (`by_name`) or by position, and not a constant.
pub open spec fn located(f: MapperFieldV, by_name: bool) -> bool {
    !(f.typ is Const) && (if by_name { f.loc is Name } else { f.loc is Position })
}

pub open spec fn count_timestamps(fs: Seq<MapperFieldV>) -> nat
    decreases fs.len(),
{
    if fs.len() == 0 {
        0
    } else {
        count_timestamps(fs.drop_last()) + if is_timestamp(fs.last()) { 1nat } else { 0nat }
    }
}

pub open spec fn count_located(fs: Seq<MapperFieldV>, by_name: bool) -> nat
    decreases fs.len(),
{
    if fs.len() == 0 {
        0
    } else {
        count_located(fs.drop_last(), by_name) + if located(fs.last(), by_name) { 1nat } else { 0nat }
    }
}

/// Why a list of field definitions is rejected, if it is: a repeated end name
/// (the first one), no field, more than one timestamp, or a mix of fields
/// located by position and by name.
pub open spec fn fields_error(fs: Seq<MapperFieldV>) -> Option<Seq<char>> {
    let names = fs.map_values(|f: MapperFieldV| end_name(f));
    match first_repeat(names, 0) {
        Some(i) => Some("ambiguous field name in map expression '"@ + names[i] + "'"@),
        None => if fs.len() == 0 {
            Some("map expression must have at least one field definition (example: .1:str as some_name)"@)
        } else if count_timestamps(fs) > 1 {
            Some("map expression cannot have more than one timestamp field definition"@)
        } else if count_located(fs, true) > 0 && count_located(fs, false) > 0 {
            Some("all field definition must be either position-based (.0, .1, etc) or name-based (.foo, .bar, etc)"@)
        } else {
            None
        },
    }
}

fn check_fields(fields: &Vec<MapperField>) -> (r: Option<String>)
    ensures
        match r {
            Some(m) => fields_error(fields_view(fields@)) == Some(m@),
            None => fields_error(fields_view(fields@)) is None,
        },
{
    let ghost fs = fields_view(fields@);
    let ghost names = fs.map_values(|f: MapperFieldV| end_name(f));
    let mut seen: Vec<String> = Vec::new();
    let mut n_ts: usize = 0;
    let mut n_name: usize = 0;
    let mut n_pos: usize = 0;
    let mut i: usize = 0;
    while i < fields.len()
        invariant
            i <= fields@.len(),
            fs == fields_view(fields@),
            names == fs.map_values(|f: MapperFieldV| end_name(f)),
            seen@.len() == i,
            forall|j: int| 0 <= j < i ==> (#[trigger] seen@[j])@ == names[j],
            first_repeat(names, 0) == first_repeat(names, i as int),
            n_ts == count_timestamps(fs.take(i as int)),
            n_name == count_located(fs.take(i as int), true),
            n_pos == count_located(fs.take(i as int), false),
            n_ts <= i && n_name <= i && n_pos <= i,
        decreases fields@.len() - i,
    {
        let f = &fields[i];
        let name = f.end_name();
        assert(fs[i as int] == f@);
        assert(names[i as int] == name@);
        let mut j: usize = 0;
        while j < seen.len()
            invariant
                j <= seen@.len(),
                seen@.len() == i,
                i < fields@.len(),
                names.len() == fields@.len(),
                forall|k: int| 0 <= k < i ==> (#[trigger] seen@[k])@ == names[k],
                names[i as int] == name@,
                forall|k: int| 0 <= k < j ==> names[k] != names[i as int],
                fs == fields_view(fields@),
                names == fs.map_values(|f: MapperFieldV| end_name(f)),
                first_repeat(names, 0) == first_repeat(names, i as int),
            decreases seen@.len() - j,
        {
            if seen[j] == name {
                proof {
                    assert(repeats_earlier(names, i as int));
                }
                let mut m: Vec<char> = Vec::new();
                push_str(&mut m, "ambiguous field name in map expression '");
                push_str(&mut m, name.as_str());
                push_str(&mut m, "'");
                assert(first_repeat(names, i as int) == Some(i as int));
                assert(m@ =~= "ambiguous field name in map expression '"@ + names[i as int] + "'"@);
                return Some(string_from_chars(m.as_slice()));
            }
            j = j + 1;
        }
        assert(!repeats_earlier(names, i as int));
        assert(fs.take(i + 1).drop_last() =~= fs.take(i as int));
        match &f.typ {
            FieldType::Timestamp(_) => { n_ts = n_ts + 1; },
            _ => {},
        }
        match &f.typ {
            FieldType::Const(_) => {},
            _ => match &f.loc {
                FieldLoc::Name(_) => { n_name = n_name + 1; },
                FieldLoc::Position(_) => { n_pos = n_pos + 1; },
            },
        }
        seen.push(name);
        i = i + 1;
    }
    assert(fs.take(i as int) =~= fs);
    if fields.len() == 0 {
        return Some("map expression must have at least one field definition (example: .1:str as some_name)".to_owned());
    }
    if n_ts > 1 {
        return Some("map expression cannot have more than one timestamp field definition".to_owned());
    }
    if n_name > 0 && n_pos > 0 {
        return Some("all field definition must be either position-based (.0, .1, etc) or name-based (.foo, .bar, etc)".to_owned());
    }
    None
}

/// A map expression at `pos`: `map {fields}`, checked by `fields_error`.
pub open spec fn spec_mapper(s: Seq<char>, pos: int) -> SRes<Seq<MapperFieldV>> {
    match spec_keyword(s, pos, seq!["map"@], seq![true]) {
        Err(e) => Err(e),
        Ok((r1, _)) => match spec_fields_list(s, skip_ws(s, r1)) {
            Err(e) => if e.kind == ErrKind::Error {
                serr(ErrKind::Failure, r1, partial_msg("map expression", "comma-separated list of fields"))
            } else {
                Err(e)
            },
            Ok((r2, fields)) => match fields_error(fields) {
                Some(m) => serr(ErrKind::Failure, r2, MsgV::Text(m)),
                None => Ok((r2, fields)),
            },
        },
    }
}

fn mapper(s: &Vec<char>, pos: usize) -> (r: Result<(usize, Mapper), PErr>)
    requires
        pos <= s@.len(),
    ensures
        r is Err ==> r->Err_0.pos <= s@.len(),
        rmap(r, |m: Mapper| fields_view(m.fields@)) == spec_mapper(s@, pos as int),
        r is Ok ==> pos <= r->Ok_0.0 <= s@.len(),
{
    let kws: [&str; 1] = ["map"];
    let vals: [bool; 1] = [true];
    assert(strs_view(kws@) =~= seq!["map"@]);
    assert(vals@ =~= seq![true]);
    let (r1, _) = keyword(s, pos, kws.as_slice(), vals.as_slice())?;
    let q = skip_spaces(s, r1);
    let (r2, fields) = match fields_list(s, q) {
        Ok(x) => x,
        Err(e) => {
            if e.kind == ErrKind::Error {
                return Err(partial(ErrKind::Failure, r1, "map expression", "comma-separated list of fields"));
            }
            return Err(e);
        },
    };
    match check_fields(&fields) {
        Some(m) => Err(perr(ErrKind::Failure, r2, Msg::Text(m))),
        None => Ok((r2, Mapper { fields })),
    }
}

/// A query stage at `pos`: `select <expr>`.
pub open spec fn spec_query(s: Seq<char>, pos: int) -> SRes<ExprV> {
    match spec_keyword(s, pos, seq!["select "@], seq![true]) {
        Err(e) => Err(e),
        Ok((r1, _)) => match spec_expr(s, skip_ws(s, r1), None) {
            Err(e) => if e.kind == ErrKind::Error {
                serr(ErrKind::Failure, r1, partial_msg("query", "query expression"))
            } else {
                Err(e)
            },
            Ok((r2, q)) => Ok((r2, q)),
        },
    }
}

fn query(s: &Vec<char>, pos: usize) -> (r: Result<(usize, Expr), PErr>)
    requires
        pos <= s@.len(),
    ensures
        r is Err ==> r->Err_0.pos <= s@.len(),
        rview(r) == spec_query(s@, pos as int),
        r is Ok ==> pos <= r->Ok_0.0 <= s@.len(),
{
    let kws: [&str; 1] = ["select "];
    let vals: [bool; 1] = [true];
    assert(strs_view(kws@) =~= seq!["select "@]);
    assert(vals@ =~= seq![true]);
    let (r1, _) = keyword(s, pos, kws.as_slice(), vals.as_slice())?;
    let q = skip_spaces(s, r1);
    match expr(s, q, None) {
        Err(e) => {
            if e.kind == ErrKind::Error {
                Err(partial(ErrKind::Failure, r1, "query", "query expression"))
            } else {
                Err(e)
            }
        },
        Ok((r2, e)) => Ok((r2, e)),
    }
}

/// A formatter at `pos`: `to_json` or `to_promapi`.
pub open spec fn spec_formatter(s: Seq<char>, pos: int) -> SRes<Formatter> {
    spec_keyword(s, pos, seq!["to_json"@, "to_promapi"@], seq![Formatter::JSON, Formatter::PromAPI])
}

fn formatter(s: &Vec<char>, pos: usize) -> (r: Result<(usize, Formatter), PErr>)
    requires
        pos <= s@.len(),
    ensures
        r is Err ==> r->Err_0.pos <= s@.len(),
        rval(r) == spec_formatter(s@, pos as int),
        r is Ok ==> pos <= r->Ok_0.0 <= s@.len(),
{
    let kws: [&str; 2] = ["to_json", "to_promapi"];
    let vals: [Formatter; 2] = [Formatter::JSON, Formatter::PromAPI];
    assert(strs_view(kws@) =~= seq!["to_json"@, "to_promapi"@]);
    assert(vals@ =~= seq![Formatter::JSON, Formatter::PromAPI]);
    keyword(s, pos, kws.as_slice(), vals.as_slice())
}


/// A stage after `|` at `p`, for a parser `stage` of that stage.
pub open spec fn piped<T>(s: Seq<char>, p: int, stage: spec_fn(Seq<char>, int) -> SRes<T>) -> SRes<Option<T>> {
    match spec_lchar(s, p, '|') {
        Err(e) => if e.kind == ErrKind::Error { Ok((p, None)) } else { Err(e) },
        Ok((p1, _)) => match stage(s, skip_ws(s, p1)) {
            Ok((r, v)) => Ok((r, Some(v))),
            Err(e) => if e.kind == ErrKind::Error { Ok((p, None)) } else { Err(e) },
        },
    }
}

pub open spec fn start_msg() -> Seq<char> {
    "a valid pq program must start from a known parser (supported parsers: regex /.../, json)"@
}

/// A program at the start of `s`: a decoder, then optionally `| map {...}`,
/// `| select <query>` and `| <formatter>`, in this order.
pub open spec fn spec_program(s: Seq<char>) -> SRes<ASTV> {
    match spec_decoder(s, 0) {
        Err(e) => if e.kind == ErrKind::Error {
            serr(ErrKind::Failure, 0, MsgV::Text(start_msg()))
        } else {
            Err(e)
        },
        Ok((r1, decoder)) => match piped(s, r1, |s: Seq<char>, p: int| spec_mapper(s, p)) {
            Err(e) => Err(e),
            Ok((r2, mapper)) => match piped(s, r2, |s: Seq<char>, p: int| spec_query(s, p)) {
                Err(e) => Err(e),
                Ok((r3, query)) => match piped(s, r3, |s: Seq<char>, p: int| spec_formatter(s, p)) {
                    Err(e) => Err(e),
                    Ok((r4, formatter)) => Ok((r4, ASTV { decoder, mapper, query, formatter })),
                },
            },
        },
    }
}

fn do_parse_program(s: &Vec<char>) -> (r: Result<(usize, AST), PErr>)
    ensures
        r is Err ==> r->Err_0.pos <= s@.len(),
        rview(r) == spec_program(s@),
        r is Ok ==> r->Ok_0.0 <= s@.len(),
{
    let (r1, d) = match decoder(s, 0) {
        Ok(x) => x,
        Err(e) => {
            if e.kind == ErrKind::Error {
                return Err(text_err(ErrKind::Failure, 0,
                    "a valid pq program must start from a known parser (supported parsers: regex /.../, json)"));
            }
            return Err(e);
        },
    };
    let (r2, m) = match expect_lchar(s, r1, '|') {
        Err(e) => {
            if e.kind == ErrKind::Error { (r1, None) } else { return Err(e); }
        },
        Ok((p1, _)) => {
            let q = skip_spaces(s, p1);
            match mapper(s, q) {
                Ok((x, m)) => (x, Some(m)),
                Err(e) => {
                    if e.kind == ErrKind::Error { (r1, None) } else { return Err(e); }
                },
            }
        },
    };
    let (r3, qr) = match expect_lchar(s, r2, '|') {
        Err(e) => {
            if e.kind == ErrKind::Error { (r2, None) } else { return Err(e); }
        },
        Ok((p1, _)) => {
            let q = skip_spaces(s, p1);
            match query(s, q) {
                Ok((x, e)) => (x, Some(e)),
                Err(e) => {
                    if e.kind == ErrKind::Error { (r2, None) } else { return Err(e); }
                },
            }
        },
    };
    let (r4, f) = match expect_lchar(s, r3, '|') {
        Err(e) => {
            if e.kind == ErrKind::Error { (r3, None) } else { return Err(e); }
        },
        Ok((p1, _)) => {
            let q = skip_spaces(s, p1);
            match formatter(s, q) {
                Ok((x, f)) => (x, Some(f)),
                Err(e) => {
                    if e.kind == ErrKind::Error { (r3, None) } else { return Err(e); }
                },
            }
        },
    };
    Ok((r4, AST { decoder: d, mapper: m, query: qr, formatter: f }))
}

/// Unicode white space, as `char::is_whitespace` defines it.
pub open spec fn is_whitespace(c: char) -> bool {
    ||| ('\t' <= c && c <= '\r')
    ||| c == ' '
    ||| c == '\u{85}'
    ||| c == '\u{A0}'
    ||| c == '\u{1680}'
    ||| ('\u{2000}' <= c && c <= '\u{200A}')
    ||| c == '\u{2028}'
    ||| c == '\u{2029}'
    ||| c == '\u{202F}'
    ||| c == '\u{205F}'
    ||| c == '\u{3000}'
}

fn char_is_whitespace(c: char) -> (b: bool)
    ensures
        b == is_whitespace(c),
{
    ('\t' <= c && c <= '\r') || c == ' ' || c == '\u{85}' || c == '\u{A0}' || c == '\u{1680}'
        || ('\u{2000}' <= c && c <= '\u{200A}') || c == '\u{2028}' || c == '\u{2029}'
        || c == '\u{202F}' || c == '\u{205F}' || c == '\u{3000}'
}

/// Whether `s` without its leading and trailing white space is `t`.
pub open spec fn is_trim(s: Seq<char>, t: Seq<char>) -> bool {
    exists|a: int, b: int| #![trigger s.subrange(a, b)]
        0 <= a <= b <= s.len() && t == s.subrange(a, b)
        && (forall|i: int| 0 <= i < a ==> is_whitespace(#[trigger] s[i]))
        && (forall|i: int| b <= i < s.len() ==> is_whitespace(#[trigger] s[i]))
        && (t.len() > 0 ==> !is_whitespace(t[0]) && !is_whitespace(t.last()))
}

/// `s` without its leading and trailing white space.
fn trim_chars(s: &Vec<char>) -> (t: Vec<char>)
    ensures
        is_trim(s@, t@),
{
    let mut a: usize = 0;
    while a < s.len() && char_is_whitespace(s[a])
        invariant
            a <= s@.len(),
            forall|i: int| 0 <= i < a ==> is_whitespace(#[trigger] s@[i]),
        decreases s@.len() - a,
    {
        a = a + 1;
    }
    let mut b: usize = s.len();
    while b > a && char_is_whitespace(s[b - 1])
        invariant
            a <= b <= s@.len(),
            forall|i: int| b <= i < s@.len() ==> is_whitespace(#[trigger] s@[i]),
        decreases b,
    {
        b = b - 1;
    }
    let mut t: Vec<char> = Vec::new();
    push_range(&mut t, s, a, b);
    assert(t@ =~= s@.subrange(a as int, b as int));
    proof {
        if t@.len() > 0 {
            assert(t@[0] == s@[a as int]);
            assert(t@.last() == s@[b - 1]);
        }
    }
    t
}

/// Parses a program (its surrounding white space is ignored). Input left over
/// after the program is a failure that expects the end of input.
pub fn parse_program(program: &str) -> (r: Result<AST, ParseErr>)
    ensures
        exists|t: Seq<char>| #![trigger is_trim(program@, t)] is_trim(program@, t) && match r {
            Ok(ast) => spec_program(t) matches Ok((p, v)) && p == t.len() && ast@ == v,
            Err(e) => {
                &&& e.error_spec().span_spec().input() == t
                &&& match spec_program(t) {
                    Ok((p, _)) => p < t.len() && e.kind_spec() == ErrKind::Failure
                        && e.error_spec().span_spec().index() == p
                        && e.error_spec().msg_spec() == partial_msg("program", "EOF"),
                    Err(pe) => e.kind_spec() == pe.kind
                        && e.error_spec().span_spec().index() == pe.pos
                        && e.error_spec().msg_spec() == pe.msg,
                }
            },
        },
{
    let all = to_chars(program);
    let s = trim_chars(&all);
    match do_parse_program(&s) {
        Ok((p, ast)) => {
            if p < s.len() {
                Err(to_parse_err(&s, partial(ErrKind::Failure, p, "program", "EOF")))
            } else {
                Ok(ast)
            }
        },
        Err(e) => Err(to_parse_err(&s, e)),
    }
}


/// A field is named by its alias when it has one, wherever it is read from;
/// without an alias, a named field keeps its name and a positional field is
/// named `f` and its position.
pub proof fn law_field_names(f: MapperFieldV)
    ensures
        f.alias matches Some(a) ==> end_name(f) == a,
        f.alias is None ==> (f.loc matches FieldLocV::Name(n) ==> end_name(f) == n),
        f.alias is None ==> (f.loc matches FieldLocV::Position(p) ==> end_name(f) == seq!['f'] + decimal(p)),
{
}


/// `to_json` gives the JSON formatter and `to_promapi` the Prometheus API one
/// (the keyword spelled at the start, ignoring case).
pub proof fn law_formatter_keyword(s: Seq<char>, pos: int)
    ensures
        spec_formatter(s, pos) matches Ok((_, f)) ==> f != Formatter::HumanReadable,
        spec_formatter(s, pos) matches Ok((_, Formatter::JSON)) ==> tag_nocase(s, pos, "to_json"@) == TagMatch::Yes,
        spec_formatter(s, pos) matches Ok((_, Formatter::PromAPI)) ==> tag_nocase(s, pos, "to_promapi"@) == TagMatch::Yes,
{
    let kws = seq!["to_json"@, "to_promapi"@];
    let vals = seq![Formatter::JSON, Formatter::PromAPI];
    let text = |f: Formatter| if f == Formatter::JSON { "to_json"@ } else if f == Formatter::PromAPI { "to_promapi"@ } else { Seq::<char>::empty() };
    assert(text(vals[0]) == kws[0] && text(vals[1]) == kws[1]);
    lemma_keyword_text(s, pos, kws, vals, text);
    assert(forall|k: int| 0 <= k < vals.len() ==> #[trigger] vals[k] != Formatter::HumanReadable);
}

/// `:str` types a field as a string, `:num` as a number and `:ts` as a
/// timestamp.
pub proof fn law_field_type_keyword(s: Seq<char>, pos: int)
    ensures
        spec_field_type(s, pos) matches Ok((_, FieldTypeV::String))
            ==> tag_nocase(s, skip_ws(s, pos + 1), "str"@) == TagMatch::Yes,
        spec_field_type(s, pos) matches Ok((_, FieldTypeV::Number))
            ==> tag_nocase(s, skip_ws(s, pos + 1), "num"@) == TagMatch::Yes,
        spec_field_type(s, pos) matches Ok((_, FieldTypeV::Timestamp(_)))
            ==> tag_nocase(s, skip_ws(s, pos + 1), "ts"@) == TagMatch::Yes,
        spec_field_type(s, pos) matches Ok((_, t)) ==> !(t is Auto) && !(t is Const),
{
    let kws = seq!["str"@, "num"@, "ts"@];
    let vals = seq![0int, 1int, 2int];
    let text = |k: int| if k == 0 { "str"@ } else if k == 1 { "num"@ } else { "ts"@ };
    assert(text(vals[0]) == kws[0] && text(vals[1]) == kws[1] && text(vals[2]) == kws[2]);
    assert forall|i: int| 0 <= i < kws.len() implies text(#[trigger] vals[i]) == kws[i] by {
        assert(i == 0 || i == 1 || i == 2);
    }
    lemma_keyword_text(s, skip_ws(s, pos + 1), kws, vals, text);
    assert(forall|k: int| 0 <= k < vals.len() ==> 0 <= #[trigger] vals[k] <= 2);
}

} // verus!
