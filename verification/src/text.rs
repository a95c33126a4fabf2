//! Character-level model of the input text: character classes, positions
//! (line and UTF-8 byte offset of a character index) and small scanners.
use vstd::prelude::*;

verus! {

/// Blank characters skipped between tokens: space, tab, carriage return, line feed.
pub open spec fn is_space(c: char) -> bool {
    c == ' ' || c == '\t' || c == '\r' || c == '\n'
}

pub open spec fn is_alpha(c: char) -> bool {
    ('a' <= c && c <= 'z') || ('A' <= c && c <= 'Z')
}

pub open spec fn is_digit(c: char) -> bool {
    '0' <= c && c <= '9'
}

pub open spec fn is_alnum(c: char) -> bool {
    is_alpha(c) || is_digit(c)
}

/// Number of bytes of the UTF-8 encoding of `c`.
pub open spec fn utf8_width(c: char) -> nat {
    if (c as u32) < 0x80 {
        1
    } else if (c as u32) < 0x800 {
        2
    } else if (c as u32) < 0x10000 {
        3
    } else {
        4
    }
}

/// Byte offset of the character index `i` in `s`.
pub open spec fn byte_offset(s: Seq<char>, i: int) -> nat
    decreases i,
{
    if i <= 0 || s.len() == 0 {
        0
    } else if i > s.len() {
        byte_offset(s, s.len() as int)
    } else {
        byte_offset(s, i - 1) + utf8_width(s[i - 1])
    }
}

/// Line number (starting at 1) of the character index `i` in `s`.
pub open spec fn line_at(s: Seq<char>, i: int) -> nat
    decreases i,
{
    if i <= 0 || s.len() == 0 {
        1
    } else if i > s.len() {
        line_at(s, s.len() as int)
    } else {
        line_at(s, i - 1) + if s[i - 1] == '\n' { 1nat } else { 0nat }
    }
}

/// First index at or after `pos` that does not hold a blank character.
pub open spec fn skip_ws(s: Seq<char>, pos: int) -> int
    decreases s.len() - pos,
{
    if 0 <= pos < s.len() && is_space(s[pos]) {
        skip_ws(s, pos + 1)
    } else {
        pos
    }
}

pub proof fn lemma_skip_ws(s: Seq<char>, pos: int)
    requires
        0 <= pos <= s.len(),
    ensures
        pos <= skip_ws(s, pos) <= s.len(),
        forall|k: int| pos <= k < skip_ws(s, pos) ==> is_space(#[trigger] s[k]),
        skip_ws(s, pos) < s.len() ==> !is_space(s[skip_ws(s, pos)]),
    decreases s.len() - pos,
{
    if pos < s.len() && is_space(s[pos]) {
        lemma_skip_ws(s, pos + 1);
    }
}

pub fn char_is_space(c: char) -> (b: bool)
    ensures
        b == is_space(c),
{
    c == ' ' || c == '\t' || c == '\r' || c == '\n'
}

pub fn char_is_alpha(c: char) -> (b: bool)
    ensures
        b == is_alpha(c),
{
    ('a' <= c && c <= 'z') || ('A' <= c && c <= 'Z')
}

pub fn char_is_digit(c: char) -> (b: bool)
    ensures
        b == is_digit(c),
{
    '0' <= c && c <= '9'
}

pub fn char_is_alnum(c: char) -> (b: bool)
    ensures
        b == is_alnum(c),
{
    char_is_alpha(c) || char_is_digit(c)
}

/// Skips blank characters starting at `pos`.
pub fn skip_spaces(s: &Vec<char>, pos: usize) -> (r: usize)
    requires
        pos <= s@.len(),
    ensures
        r == skip_ws(s@, pos as int),
        pos <= r <= s@.len(),
{
    let mut i = pos;
    while i < s.len() && char_is_space(s[i])
        invariant
            pos <= i <= s@.len(),
            skip_ws(s@, i as int) == skip_ws(s@, pos as int),
        decreases s@.len() - i,
    {
        i = i + 1;
    }
    i
}

/// The characters of `s`.
pub fn to_chars(s: &str) -> (v: Vec<char>)
    ensures
        v@ == s@,
{
    let mut v: Vec<char> = Vec::new();
    for c in it: s.chars()
        invariant
            v@ == it.seq().take(it.index() as int),
            it.seq() == s@,
    {
        v.push(c);
    }
    v
}

} // verus!

verus! {

/// The decimal digit character of `d`, for `d < 10`.
pub open spec fn digit_char(d: nat) -> char {
    if d == 0 { '0' } else if d == 1 { '1' } else if d == 2 { '2' } else if d == 3 { '3' }
    else if d == 4 { '4' } else if d == 5 { '5' } else if d == 6 { '6' } else if d == 7 { '7' }
    else if d == 8 { '8' } else { '9' }
}

/// Decimal representation of `n`, without leading zeros.
pub open spec fn decimal(n: nat) -> Seq<char>
    decreases n,
{
    if n < 10 {
        seq![digit_char(n)]
    } else {
        decimal(n / 10).push(digit_char(n % 10))
    }
}

fn exec_digit_char(d: usize) -> (c: char)
    requires
        d < 10,
    ensures
        c == digit_char(d as nat),
{
    match d {
        0 => '0',
        1 => '1',
        2 => '2',
        3 => '3',
        4 => '4',
        5 => '5',
        6 => '6',
        7 => '7',
        8 => '8',
        _ => '9',
    }
}

/// Appends the decimal representation of `n` to `out`.
pub fn push_decimal(n: usize, out: &mut Vec<char>)
    ensures
        final(out)@ == old(out)@ + decimal(n as nat),
    decreases n,
{
    if n >= 10 {
        push_decimal(n / 10, out);
    }
    let c = exec_digit_char(n % 10);
    out.push(c);
    proof {
        if n >= 10 {
            assert(decimal(n as nat) == decimal((n / 10) as nat).push(digit_char((n % 10) as nat)));
        } else {
            assert(decimal(n as nat) == seq![digit_char(n as nat)]);
        }
    }
}

/// Appends the characters of `s` to `out`.
pub fn push_str(out: &mut Vec<char>, s: &str)
    ensures
        final(out)@ == old(out)@ + s@,
{
    let ghost start = out@;
    for c in it: s.chars()
        invariant
            out@ == start + it.seq().take(it.index() as int),
            it.seq() == s@,
    {
        out.push(c);
    }
}

/// Appends the characters of `s[from..to]` to `out`.
pub fn push_range(out: &mut Vec<char>, s: &Vec<char>, from: usize, to: usize)
    requires
        from <= to <= s@.len(),
    ensures
        final(out)@ == old(out)@ + s@.subrange(from as int, to as int),
{
    let ghost start = out@;
    let mut i = from;
    while i < to
        invariant
            from <= i <= to <= s@.len(),
            out@ == start + s@.subrange(from as int, i as int),
        decreases to - i,
    {
        out.push(s[i]);
        i = i + 1;
        assert(s@.subrange(from as int, i as int) == s@.subrange(from as int, i - 1).push(s@[i - 1]));
    }
}

/// A `String` holding the characters of `v`.
#[verifier::external_body]
pub fn string_from_chars(v: &[char]) -> (s: String)
    ensures
        s@ == v@,
{
    v.iter().collect()
}

/// Line (from 1) and UTF-8 byte offset of the character index `pos` of `s`.
pub fn position(s: &Vec<char>, pos: usize) -> (r: (u32, usize))
    requires
        pos <= s@.len(),
        s@.len() < u32::MAX,
        4 * s@.len() <= usize::MAX,
    ensures
        r.0 == line_at(s@, pos as int),
        r.1 == byte_offset(s@, pos as int),
{
    let mut line: u32 = 1;
    let mut off: usize = 0;
    let mut i: usize = 0;
    while i < pos
        invariant
            i <= pos <= s@.len(),
            s@.len() < u32::MAX,
            4 * s@.len() <= usize::MAX,
            line == line_at(s@, i as int),
            off == byte_offset(s@, i as int),
            line <= i + 1,
            off <= 4 * i,
        decreases pos - i,
    {
        let c = s[i];
        if c == '\n' {
            line = line + 1;
        }
        let cu = c as u32;
        let w: usize = if cu < 0x80 { 1 } else if cu < 0x800 { 2 } else if cu < 0x10000 { 3 } else { 4 };
        off = off + w;
        i = i + 1;
        assert(w == utf8_width(s@[i - 1]));
    }
    (line, off)
}

} // verus!
