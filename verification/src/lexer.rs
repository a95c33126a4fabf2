//! Tokens of the query and program grammars: blanks, keywords, identifiers,
//! string literals and duration literals.
use vstd::prelude::*;
use crate::parse::{
    partial, partial_msg, perr, rview, serr, text_err, text_msg, ErrKind, Msg, MsgV, PErr, PErrV,
    SRes,
};
use crate::text::{
    char_is_alnum, char_is_alpha, char_is_digit, is_alnum, is_alpha, is_digit, push_range,
    push_str, skip_spaces, skip_ws, string_from_chars,
};

verus! {

/// Keyword match outcome.
#[derive(Clone, Copy, Debug, PartialEq, Eq, Structural)]
pub enum TagMatch {
    No,
    Yes,
    /// The input spells the keyword only through a character (the Kelvin sign,
    /// which lower-cases to `k`) whose encoding is longer than the keyword's.
    Abort,
}

pub const KELVIN: char = '\u{212A}';

/// `c` equals the keyword character `k` (an ASCII lower-case letter or a symbol),
/// ignoring case.
pub open spec fn nocase_eq(c: char, k: char) -> bool {
    ||| c == k
    ||| ('a' <= k && k <= 'z' && (c as u32) == (k as u32) - 32)
    ||| (k == 'k' && c == KELVIN)
}

/// Case-insensitive match of the keyword `kw` at `pos`.
pub open spec fn tag_nocase(s: Seq<char>, pos: int, kw: Seq<char>) -> TagMatch {
    if 0 <= pos && pos + kw.len() <= s.len() && (forall|i: int|
        0 <= i < kw.len() ==> #[trigger] nocase_eq(s[pos + i], kw[i])) {
        if exists|i: int| 0 <= i < kw.len() && #[trigger] s[pos + i] == KELVIN {
            TagMatch::Abort
        } else {
            TagMatch::Yes
        }
    } else {
        TagMatch::No
    }
}

/// Exact match of `t` at `pos`.
pub open spec fn tag_exact(s: Seq<char>, pos: int, t: Seq<char>) -> bool {
    0 <= pos && pos + t.len() <= s.len() && s.subrange(pos, pos + t.len()) == t
}

/// Matches the keyword `kw` (lower-case ASCII) at `pos`, ignoring case.
pub fn match_nocase(s: &Vec<char>, pos: usize, kw: &str) -> (r: TagMatch)
    requires
        pos <= s@.len(),
    ensures
        r == tag_nocase(s@, pos as int, kw@),
{
    let mut k: Vec<char> = Vec::new();
    push_str(&mut k, kw);
    assert(k@ == kw@);
    if k.len() > s.len() - pos {
        return TagMatch::No;
    }
    let mut i: usize = 0;
    let mut kelvin = false;
    while i < k.len()
        invariant
            i <= k@.len(),
            k@ == kw@,
            pos + k@.len() <= s@.len(),
            s@.len() == s.len(),
            forall|j: int| 0 <= j < i ==> #[trigger] nocase_eq(s@[pos + j], k@[j]),
            kelvin == (exists|j: int| 0 <= j < i && #[trigger] s@[pos + j] == KELVIN),
        decreases k@.len() - i,
    {
        let c = s[pos + i];
        let kc = k[i];
        let cu = c as u32;
        let ku = kc as u32;
        let eq = c == kc || ('a' <= kc && kc <= 'z' && cu == ku - 32) || (kc == 'k' && c == KELVIN);
        if !eq {
            assert(!nocase_eq(s@[pos + i], kw@[i as int]));
            return TagMatch::No;
        }
        if c == KELVIN {
            kelvin = true;
        }
        i = i + 1;
        proof {
            if c != KELVIN {
                assert forall|j: int| 0 <= j < i && #[trigger] s@[pos + j] == KELVIN implies j < i - 1 by {}
            }
        }
    }
    if kelvin { TagMatch::Abort } else { TagMatch::Yes }
}

/// Matches `t` exactly at `pos`.
pub fn match_exact(s: &Vec<char>, pos: usize, t: &str) -> (r: bool)
    requires
        pos <= s@.len(),
    ensures
        r == tag_exact(s@, pos as int, t@),
{
    let mut k: Vec<char> = Vec::new();
    push_str(&mut k, t);
    if k.len() > s.len() - pos {
        return false;
    }
    let mut i: usize = 0;
    while i < k.len()
        invariant
            i <= k@.len(),
            k@ == t@,
            pos + k@.len() <= s@.len(),
            s@.len() == s.len(),
            forall|j: int| 0 <= j < i ==> s@[pos + j] == k@[j],
        decreases k@.len() - i,
    {
        if s[pos + i] != k[i] {
            assert(s@.subrange(pos as int, pos + k@.len())[i as int] != t@[i as int]);
            return false;
        }
        i = i + 1;
    }
    assert(s@.subrange(pos as int, pos + k@.len()) =~= t@);
    true
}

/// Message of a missing expected character `c`.
pub open spec fn char_msg(c: char) -> MsgV {
    MsgV::Text("unexpected character '"@ + seq![c] + "'"@)
}

/// Recoverable error for a character `c` expected at `pos`.
pub fn char_err(pos: usize, c: char) -> (e: PErr)
    ensures
        e@ == (PErrV { kind: ErrKind::Error, pos: pos as int, msg: char_msg(c) }),
{
    let mut v: Vec<char> = Vec::new();
    push_str(&mut v, "unexpected character '");
    v.push(c);
    push_str(&mut v, "'");
    assert(v@ =~= "unexpected character '"@ + seq![c] + "'"@);
    perr(ErrKind::Error, pos, Msg::Text(string_from_chars(v.as_slice())))
}

/// The single character `c` at `pos`.
pub open spec fn spec_char(s: Seq<char>, pos: int, c: char) -> SRes<()> {
    if 0 <= pos < s.len() && s[pos] == c {
        Ok((pos + 1, ()))
    } else {
        serr(ErrKind::Error, pos, char_msg(c))
    }
}

pub fn expect_char(s: &Vec<char>, pos: usize, c: char) -> (r: Result<(usize, ()), PErr>)
    requires
        pos <= s@.len(),
    ensures
        r is Err ==> r->Err_0.pos <= s@.len(),
        rview(r) == spec_char(s@, pos as int, c),
        r is Ok ==> r->Ok_0.0 == pos + 1 && r->Ok_0.0 <= s@.len(),
{
    if pos < s.len() && s[pos] == c {
        Ok((pos + 1, ()))
    } else {
        Err(char_err(pos, c))
    }
}

/// The character `c` after optional blanks.
pub open spec fn spec_lchar(s: Seq<char>, pos: int, c: char) -> SRes<()> {
    spec_char(s, skip_ws(s, pos), c)
}

pub fn expect_lchar(s: &Vec<char>, pos: usize, c: char) -> (r: Result<(usize, ()), PErr>)
    requires
        pos <= s@.len(),
    ensures
        r is Err ==> r->Err_0.pos <= s@.len(),
        rview(r) == spec_lchar(s@, pos as int, c),
        r is Ok ==> pos < r->Ok_0.0 <= s@.len(),
{
    let p = skip_spaces(s, pos);
    expect_char(s, p, c)
}

pub open spec fn tag_msg() -> MsgV {
    text_msg("parse error Tag")
}

pub open spec fn is_ident_start(c: char, colon: bool) -> bool {
    is_alpha(c) || c == '_' || (colon && c == ':')
}

pub open spec fn is_ident_char(c: char, colon: bool) -> bool {
    is_alnum(c) || c == '_' || (colon && c == ':')
}

/// End of the run of identifier characters starting at `pos`.
pub open spec fn ident_end(s: Seq<char>, pos: int, colon: bool) -> int
    decreases s.len() - pos,
{
    if 0 <= pos < s.len() && is_ident_char(s[pos], colon) {
        ident_end(s, pos + 1, colon)
    } else {
        pos
    }
}

pub proof fn lemma_ident_end(s: Seq<char>, pos: int, colon: bool)
    requires
        0 <= pos <= s.len(),
    ensures
        pos <= ident_end(s, pos, colon) <= s.len(),
        forall|k: int| pos <= k < ident_end(s, pos, colon) ==> is_ident_char(#[trigger] s[k], colon),
    decreases s.len() - pos,
{
    if pos < s.len() && is_ident_char(s[pos], colon) {
        lemma_ident_end(s, pos + 1, colon);
    }
}

/// An identifier at `pos`: `[a-zA-Z_][a-zA-Z0-9_]*`, or with `colon` also `:`
/// allowed anywhere (metric names).
pub open spec fn spec_identifier(s: Seq<char>, pos: int, colon: bool) -> SRes<Seq<char>> {
    if 0 <= pos < s.len() && is_ident_start(s[pos], colon) {
        let end = ident_end(s, pos + 1, colon);
        Ok((end, s.subrange(pos, end)))
    } else {
        serr(ErrKind::Error, pos, tag_msg())
    }
}

pub fn identifier(s: &Vec<char>, pos: usize, colon: bool) -> (r: Result<(usize, String), PErr>)
    requires
        pos <= s@.len(),
    ensures
        r is Err ==> r->Err_0.pos <= s@.len(),
        rview(r) == spec_identifier(s@, pos as int, colon),
        r is Ok ==> pos < r->Ok_0.0 <= s@.len(),
{
    if pos < s.len() && (char_is_alpha(s[pos]) || s[pos] == '_' || (colon && s[pos] == ':')) {
        let mut end = pos + 1;
        while end < s.len() && (char_is_alnum(s[end]) || s[end] == '_' || (colon && s[end] == ':'))
            invariant
                pos < end <= s@.len(),
                ident_end(s@, end as int, colon) == ident_end(s@, pos + 1, colon),
            decreases s@.len() - end,
        {
            end = end + 1;
        }
        let mut v: Vec<char> = Vec::new();
        push_range(&mut v, s, pos, end);
        assert(v@ =~= s@.subrange(pos as int, end as int));
        Ok((end, string_from_chars(v.as_slice())))
    } else {
        Err(text_err(ErrKind::Error, pos, "parse error Tag"))
    }
}

/// A label name: `[a-zA-Z_][a-zA-Z0-9_]*`.
pub fn label_identifier(s: &Vec<char>, pos: usize) -> (r: Result<(usize, String), PErr>)
    requires
        pos <= s@.len(),
    ensures
        r is Err ==> r->Err_0.pos <= s@.len(),
        rview(r) == spec_identifier(s@, pos as int, false),
        r is Ok ==> pos < r->Ok_0.0 <= s@.len(),
{
    identifier(s, pos, false)
}

/// A metric name: `[a-zA-Z_:][a-zA-Z0-9_:]*`.
pub fn metric_identifier(s: &Vec<char>, pos: usize) -> (r: Result<(usize, String), PErr>)
    requires
        pos <= s@.len(),
    ensures
        r is Err ==> r->Err_0.pos <= s@.len(),
        rview(r) == spec_identifier(s@, pos as int, true),
        r is Ok ==> pos < r->Ok_0.0 <= s@.len(),
{
    identifier(s, pos, true)
}

} // verus!

verus! {

/// Index of the first `"` at or after `p`, or the end of the input.
pub open spec fn quote_end(s: Seq<char>, p: int) -> int
    decreases s.len() - p,
{
    if 0 <= p < s.len() && s[p] != '"' {
        quote_end(s, p + 1)
    } else {
        p
    }
}

pub proof fn lemma_quote_end(s: Seq<char>, p: int)
    requires
        0 <= p <= s.len(),
    ensures
        p <= quote_end(s, p) <= s.len(),
        quote_end(s, p) < s.len() ==> s[quote_end(s, p)] == '"',
    decreases s.len() - p,
{
    if p < s.len() && s[p] != '"' {
        lemma_quote_end(s, p + 1);
    }
}

pub open spec fn all_ascii(t: Seq<char>) -> bool {
    forall|i: int| 0 <= i < t.len() ==> (#[trigger] t[i] as u32) < 0x80
}

pub proof fn lemma_all_ascii_push(t: Seq<char>, c: char)
    ensures
        all_ascii(t.push(c)) == (all_ascii(t) && (c as u32) < 0x80),
{
    if all_ascii(t.push(c)) {
        assert((t.push(c)[t.len() as int] as u32) < 0x80);
        assert forall|i: int| 0 <= i < t.len() implies (#[trigger] t[i] as u32) < 0x80 by {
            assert(t.push(c)[i] == t[i]);
        }
    }
}

/// The value of a string literal with the raw `content` between its quotes:
/// the content itself when it is all ASCII; otherwise, since the literal is cut
/// by its length in bytes, the content followed by the closing quote.
pub open spec fn literal_value(content: Seq<char>) -> Seq<char> {
    if all_ascii(content) {
        content
    } else {
        content.push('"')
    }
}

/// A string literal at `pos`: `"`, any characters but `"`, `"`.
pub open spec fn spec_string_literal(s: Seq<char>, pos: int) -> SRes<Seq<char>> {
    if 0 <= pos < s.len() && s[pos] == '"' {
        let q = quote_end(s, pos + 1);
        if q < s.len() {
            Ok((q + 1, literal_value(s.subrange(pos + 1, q))))
        } else {
            serr(ErrKind::Error, q, char_msg('"'))
        }
    } else {
        serr(ErrKind::Error, pos, char_msg('"'))
    }
}

pub fn string_literal(s: &Vec<char>, pos: usize) -> (r: Result<(usize, String), PErr>)
    requires
        pos <= s@.len(),
    ensures
        r is Err ==> r->Err_0.pos <= s@.len(),
        rview(r) == spec_string_literal(s@, pos as int),
        r is Ok ==> pos < r->Ok_0.0 <= s@.len(),
{
    if pos < s.len() && s[pos] == '"' {
        let mut q = pos + 1;
        let mut ascii = true;
        while q < s.len() && s[q] != '"'
            invariant
                pos < q <= s@.len(),
                quote_end(s@, q as int) == quote_end(s@, pos + 1),
                ascii == all_ascii(s@.subrange(pos + 1, q as int)),
            decreases s@.len() - q,
        {
            if (s[q] as u32) >= 0x80 {
                ascii = false;
            }
            q = q + 1;
            assert(s@.subrange(pos + 1, q as int) == s@.subrange(pos + 1, q - 1).push(s@[q - 1]));
            proof {
                lemma_all_ascii_push(s@.subrange(pos + 1, q - 1), s@[q - 1]);
            }
        }
        if q < s.len() {
            let mut v: Vec<char> = Vec::new();
            push_range(&mut v, s, pos + 1, q);
            if !ascii {
                v.push('"');
            }
            assert(v@ =~= literal_value(s@.subrange(pos + 1, q as int)));
            Ok((q + 1, string_from_chars(v.as_slice())))
        } else {
            Err(char_err(q, '"'))
        }
    } else {
        Err(char_err(pos, '"'))
    }
}


/// The first keyword of `kws` that matches at `pos` ignoring case, by index,
/// and whether the match is an abort.
pub open spec fn keyword_alt(s: Seq<char>, pos: int, kws: Seq<Seq<char>>) -> Option<(int, bool)>
    decreases kws.len(),
{
    if kws.len() == 0 {
        None
    } else {
        match tag_nocase(s, pos, kws[0]) {
            TagMatch::Yes => Some((0, false)),
            TagMatch::Abort => Some((0, true)),
            TagMatch::No => match keyword_alt(s, pos, kws.drop_first()) {
                Some((i, a)) => Some((i + 1, a)),
                None => None,
            },
        }
    }
}

pub proof fn lemma_keyword_alt(s: Seq<char>, pos: int, kws: Seq<Seq<char>>)
    ensures
        keyword_alt(s, pos, kws) matches Some((i, a)) ==> 0 <= i < kws.len()
            && tag_nocase(s, pos, kws[i]) != TagMatch::No
            && a == (tag_nocase(s, pos, kws[i]) == TagMatch::Abort),
    decreases kws.len(),
{
    if kws.len() > 0 {
        lemma_keyword_alt(s, pos, kws.drop_first());
    }
}

pub open spec fn strs_view(v: Seq<&str>) -> Seq<Seq<char>> {
    v.map_values(|k: &str| k@)
}

/// The first keyword of `kws` matching at `pos`: its index and length, and
/// whether the match is an abort.
pub fn match_keywords(s: &Vec<char>, pos: usize, kws: &[&str]) -> (r: Option<(usize, usize, bool)>)
    requires
        pos <= s@.len(),
    ensures
        match r {
            Some((i, l, a)) => keyword_alt(s@, pos as int, strs_view(kws@)) == Some((i as int, a))
                && i < kws@.len() && l == kws@[i as int]@.len() && pos + l <= s@.len(),
            None => keyword_alt(s@, pos as int, strs_view(kws@)) is None,
        },
{
    let mut i: usize = 0;
    let ghost all = strs_view(kws@);
    assert(all.skip(0) =~= all);
    while i < kws.len()
        invariant
            i <= kws@.len(),
            pos <= s@.len(),
            all == strs_view(kws@),
            keyword_alt(s@, pos as int, all) == match keyword_alt(s@, pos as int, all.skip(i as int)) {
                Some((j, a)) => Some((j + i, a)),
                None => None,
            },
        decreases kws@.len() - i,
    {
        let ghost rest = all.skip(i as int);
        assert(rest[0] == kws@[i as int]@);
        assert(rest.drop_first() =~= all.skip(i + 1));
        let m = match_nocase(s, pos, kws[i]);
        if m != TagMatch::No {
            let mut k: Vec<char> = Vec::new();
            push_str(&mut k, kws[i]);
            return Some((i, k.len(), m == TagMatch::Abort));
        }
        i = i + 1;
    }
    assert(all.skip(i as int).len() == 0);
    None
}

} // verus!
