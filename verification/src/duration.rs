//! Duration literals: `2s`, `1h30m`, `1y2w3d4h5m6s7ms`.
//!
//! A literal is a sequence of `<digits><unit>` terms whose units strictly
//! decrease from left to right; its value, in milliseconds, is the sum of the
//! terms and must be positive.
use vstd::prelude::*;
use crate::lexer::{match_exact, tag_exact, tag_msg};
use crate::parse::{perr, rview, serr, text_err, text_msg, to_parse_err, ErrKind, Msg, PErr, ParseErr, SRes};
use crate::text::{char_is_digit, is_digit, to_chars};

verus! {

/// A duration unit.
#[derive(Clone, Copy, Debug, PartialEq, Eq, Structural)]
pub enum Unit {
    Millisecond,
    Second,
    Minute,
    Hour,
    Day,
    Week,
    Year,
}

impl Unit {
    pub open spec fn spec_millis(self) -> nat {
        match self {
            Unit::Millisecond => 1,
            Unit::Second => 1000,
            Unit::Minute => 60 * 1000,
            Unit::Hour => 60 * 60 * 1000,
            Unit::Day => 24 * 60 * 60 * 1000,
            Unit::Week => 7 * 24 * 60 * 60 * 1000,
            Unit::Year => 365 * 24 * 60 * 60 * 1000,
        }
    }

    /// Rank of the unit, from 0 (milliseconds) to 6 (years).
    pub open spec fn rank(self) -> nat {
        match self {
            Unit::Millisecond => 0,
            Unit::Second => 1,
            Unit::Minute => 2,
            Unit::Hour => 3,
            Unit::Day => 4,
            Unit::Week => 5,
            Unit::Year => 6,
        }
    }

    pub open spec fn spec_descendant(self) -> Option<Unit> {
        match self {
            Unit::Millisecond => None,
            Unit::Second => Some(Unit::Millisecond),
            Unit::Minute => Some(Unit::Second),
            Unit::Hour => Some(Unit::Minute),
            Unit::Day => Some(Unit::Hour),
            Unit::Week => Some(Unit::Day),
            Unit::Year => Some(Unit::Week),
        }
    }

    /// Milliseconds in one unit (a year is always 365 days).
    pub fn milliseconds(&self) -> (ms: u64)
        ensures
            ms == self.spec_millis(),
    {
        match self {
            Unit::Millisecond => 1,
            Unit::Second => 1000,
            Unit::Minute => 60 * 1000,
            Unit::Hour => 60 * 60 * 1000,
            Unit::Day => 24 * 60 * 60 * 1000,
            Unit::Week => 7 * 24 * 60 * 60 * 1000,
            Unit::Year => 365 * 24 * 60 * 60 * 1000,
        }
    }

    /// The next shorter unit.
    pub fn descendant(&self) -> (d: Option<Unit>)
        ensures
            d == self.spec_descendant(),
    {
        match self {
            Unit::Millisecond => None,
            Unit::Second => Some(Unit::Millisecond),
            Unit::Minute => Some(Unit::Second),
            Unit::Hour => Some(Unit::Minute),
            Unit::Day => Some(Unit::Hour),
            Unit::Week => Some(Unit::Day),
            Unit::Year => Some(Unit::Week),
        }
    }
}

pub proof fn lemma_rank_millis(a: Unit, b: Unit)
    ensures
        (a.spec_millis() > b.spec_millis()) == (a.rank() > b.rank()),
{
}

pub proof fn lemma_descendant_rank(a: Unit)
    ensures
        a.spec_descendant() matches Some(d) ==> d.rank() + 1 == a.rank(),
        a.spec_descendant() is None <==> a.rank() == 0,
{
}

/// The unit named at `pos`, and its length: `ms`, `s`, `m`, `h`, `d`, `w`, `y`
/// (tried in this order).
pub open spec fn unit_at(s: Seq<char>, pos: int) -> Option<(Unit, int)> {
    if tag_exact(s, pos, "ms"@) {
        Some((Unit::Millisecond, 2))
    } else if tag_exact(s, pos, "s"@) {
        Some((Unit::Second, 1))
    } else if tag_exact(s, pos, "m"@) {
        Some((Unit::Minute, 1))
    } else if tag_exact(s, pos, "h"@) {
        Some((Unit::Hour, 1))
    } else if tag_exact(s, pos, "d"@) {
        Some((Unit::Day, 1))
    } else if tag_exact(s, pos, "w"@) {
        Some((Unit::Week, 1))
    } else if tag_exact(s, pos, "y"@) {
        Some((Unit::Year, 1))
    } else {
        None
    }
}

/// End of the run of decimal digits starting at `pos`.
pub open spec fn digits_end(s: Seq<char>, pos: int) -> int
    decreases s.len() - pos,
{
    if 0 <= pos < s.len() && is_digit(s[pos]) {
        digits_end(s, pos + 1)
    } else {
        pos
    }
}

/// Decimal value of the digits `s[from..to]`.
pub open spec fn digits_value(s: Seq<char>, from: int, to: int) -> nat
    decreases to - from,
{
    if to <= from {
        0
    } else {
        digits_value(s, from, to - 1) * 10 + ((s[to - 1] as u32) - ('0' as u32)) as nat
    }
}

pub proof fn lemma_digits_end(s: Seq<char>, pos: int)
    requires
        0 <= pos <= s.len(),
    ensures
        pos <= digits_end(s, pos) <= s.len(),
        forall|k: int| pos <= k < digits_end(s, pos) ==> is_digit(#[trigger] s[k]),
    decreases s.len() - pos,
{
    if pos < s.len() && is_digit(s[pos]) {
        lemma_digits_end(s, pos + 1);
    }
}

pub open spec fn invalid_literal_msg() -> crate::parse::MsgV {
    text_msg("invalid duration literal")
}

/// One or more `<digits><unit>` terms at `pos`, whose first unit is at most
/// `max` and whose units then strictly decrease; the value in milliseconds.
pub open spec fn spec_duration_inner(s: Seq<char>, pos: int, max: Unit) -> SRes<nat>
    decreases max.rank(),
{
    let dend = digits_end(s, pos);
    if dend == pos {
        serr(ErrKind::Error, pos, text_msg("parse error Digit"))
    } else {
        match unit_at(s, dend) {
            None => serr(ErrKind::Error, dend, tag_msg()),
            Some((unit, ulen)) => {
                let rest = dend + ulen;
                let n = digits_value(s, pos, dend);
                if unit.rank() > max.rank() {
                    serr(ErrKind::Failure, pos, invalid_literal_msg())
                } else if n > u32::MAX {
                    serr(ErrKind::Abort, pos, text_msg("duration multiplier out of range"))
                } else {
                    let d = unit.spec_millis() * n;
                    match unit.spec_descendant() {
                        None => Ok((rest, d)),
                        Some(next) => {
                            proof {
                                lemma_descendant_rank(unit);
                            }
                            match spec_duration_inner(s, rest, next) {
                                Ok((r2, d2)) => Ok((r2, d + d2)),
                                Err(e) => if e.kind == ErrKind::Error {
                                    Ok((rest, d))
                                } else {
                                    Err(e)
                                },
                            }
                        },
                    }
                }
            },
        }
    }
}

/// A duration literal at `pos`; a zero duration is a failure.
pub open spec fn spec_duration(s: Seq<char>, pos: int) -> SRes<nat> {
    match spec_duration_inner(s, pos, Unit::Year) {
        Ok((r, d)) => if d == 0 {
            serr(ErrKind::Failure, pos, text_msg("duration must be greater than 0"))
        } else {
            Ok((r, d))
        },
        Err(e) => Err(e),
    }
}

/// Largest value a duration literal can have, in milliseconds.
pub open spec fn max_duration(max: Unit) -> nat {
    (max.rank() + 1) * (365 * 24 * 60 * 60 * 1000) * (u32::MAX as nat)
}

pub proof fn lemma_unit_at(s: Seq<char>, pos: int)
    ensures
        unit_at(s, pos) matches Some((u, l)) ==> 1 <= l && pos + l <= s.len(),
{
    reveal_strlit("ms");
    reveal_strlit("s");
    reveal_strlit("m");
    reveal_strlit("h");
    reveal_strlit("d");
    reveal_strlit("w");
    reveal_strlit("y");
}

fn unit_at_exec(s: &Vec<char>, pos: usize) -> (r: Option<(Unit, usize)>)
    requires
        pos <= s@.len(),
    ensures
        match r {
            Some((u, l)) => unit_at(s@, pos as int) == Some((u, l as int)) && pos + l <= s@.len(),
            None => unit_at(s@, pos as int) is None,
        },
{
    proof { lemma_unit_at(s@, pos as int); }
    if match_exact(s, pos, "ms") {
        Some((Unit::Millisecond, 2))
    } else if match_exact(s, pos, "s") {
        Some((Unit::Second, 1))
    } else if match_exact(s, pos, "m") {
        Some((Unit::Minute, 1))
    } else if match_exact(s, pos, "h") {
        Some((Unit::Hour, 1))
    } else if match_exact(s, pos, "d") {
        Some((Unit::Day, 1))
    } else if match_exact(s, pos, "w") {
        Some((Unit::Week, 1))
    } else if match_exact(s, pos, "y") {
        Some((Unit::Year, 1))
    } else {
        None
    }
}

/// Scans the digits at `pos`: their end, and their value when it fits in a `u32`.
fn scan_digits(s: &Vec<char>, pos: usize) -> (r: (usize, Option<u64>))
    requires
        pos <= s@.len(),
    ensures
        r.0 == digits_end(s@, pos as int),
        r.0 <= s@.len(),
        match r.1 {
            Some(v) => v == digits_value(s@, pos as int, r.0 as int) && v <= u32::MAX,
            None => digits_value(s@, pos as int, r.0 as int) > u32::MAX,
        },
{
    let mut i = pos;
    let mut v: Option<u64> = Some(0);
    while i < s.len() && char_is_digit(s[i])
        invariant
            pos <= i <= s@.len(),
            digits_end(s@, i as int) == digits_end(s@, pos as int),
            match v {
                Some(x) => x == digits_value(s@, pos as int, i as int) && x <= u32::MAX,
                None => digits_value(s@, pos as int, i as int) > u32::MAX,
            },
        decreases s@.len() - i,
    {
        let d = (s[i] as u32 - '0' as u32) as u64;
        v = match v {
            Some(x) => {
                let y = x * 10 + d;
                if y <= u32::MAX as u64 { Some(y) } else { None }
            },
            None => None,
        };
        i = i + 1;
        assert(digits_value(s@, pos as int, i as int) == digits_value(s@, pos as int, i - 1) * 10
            + ((s@[i - 1] as u32) - ('0' as u32)) as nat);
    }
    (i, v)
}

fn duration_inner(s: &Vec<char>, pos: usize, max: Unit) -> (r: Result<(usize, u128), PErr>)
    requires
        pos <= s@.len(),
    ensures
        r is Err ==> r->Err_0.pos <= s@.len(),
        match r {
            Ok((p, d)) => spec_duration_inner(s@, pos as int, max) == Ok::<(int, nat), crate::parse::PErrV>((p as int, d as nat))
                && pos < p <= s@.len() && d <= max_duration(max),
            Err(e) => spec_duration_inner(s@, pos as int, max) == Err::<(int, nat), crate::parse::PErrV>(e@),
        },
    decreases max.rank(),
{
    let (dend, val) = scan_digits(s, pos);
    proof { lemma_digits_end(s@, pos as int); }
    if dend == pos {
        return Err(text_err(ErrKind::Error, pos, "parse error Digit"));
    }
    let (unit, ulen) = match unit_at_exec(s, dend) {
        None => { return Err(text_err(ErrKind::Error, dend, "parse error Tag")); },
        Some(x) => x,
    };
    let total = s.len();
    assert(dend + ulen <= total);
    let rest = dend + ulen;
    if unit.milliseconds() > max.milliseconds() {
        proof { lemma_rank_millis(unit, max); }
        return Err(text_err(ErrKind::Failure, pos, "invalid duration literal"));
    }
    proof { lemma_rank_millis(unit, max); }
    let n = match val {
        None => { return Err(text_err(ErrKind::Abort, pos, "duration multiplier out of range")); },
        Some(n) => n,
    };
    assert(unit.spec_millis() * n <= 365 * 24 * 60 * 60 * 1000 * (u32::MAX as nat)) by (nonlinear_arith)
        requires unit.spec_millis() <= 365 * 24 * 60 * 60 * 1000, n <= u32::MAX;
    let d: u128 = (unit.milliseconds() as u128) * (n as u128);
    assert(d <= max_duration(max)) by (nonlinear_arith)
        requires d <= 365 * 24 * 60 * 60 * 1000 * (u32::MAX as nat);
    assert(d as nat == unit.spec_millis() * digits_value(s@, pos as int, dend as int));
    proof { lemma_descendant_rank(unit); }
    match unit.descendant() {
        None => Ok((rest, d)),
        Some(next) => {
            assert(next.rank() < max.rank());
            match duration_inner(s, rest, next) {
                Ok((r2, d2)) => {
                    assert(max_duration(next) + 365 * 24 * 60 * 60 * 1000 * (u32::MAX as nat) <= max_duration(max)) by (nonlinear_arith)
                        requires next.rank() < max.rank();
                    assert(max_duration(max) <= 7 * (365 * 24 * 60 * 60 * 1000) * (u32::MAX as nat)) by (nonlinear_arith)
                        requires max.rank() <= 6;
                    assert(d + d2 <= max_duration(max));
                    Ok((r2, d + d2))
                },
                Err(e) => {
                    if e.kind == ErrKind::Error {
                        Ok((rest, d))
                    } else {
                        Err(e)
                    }
                },
            }
        },
    }
}

/// A duration literal at `pos`, in milliseconds.
pub fn duration(s: &Vec<char>, pos: usize) -> (r: Result<(usize, u128), PErr>)
    requires
        pos <= s@.len(),
    ensures
        r is Err ==> r->Err_0.pos <= s@.len(),
        match r {
            Ok((p, d)) => spec_duration(s@, pos as int) == Ok::<(int, nat), crate::parse::PErrV>((p as int, d as nat))
                && pos < p <= s@.len(),
            Err(e) => spec_duration(s@, pos as int) == Err::<(int, nat), crate::parse::PErrV>(e@),
        },
{
    let (rest, d) = duration_inner(s, pos, Unit::Year)?;
    if d == 0 {
        return Err(text_err(ErrKind::Failure, pos, "duration must be greater than 0"));
    }
    Ok((rest, d))
}

/// Parses a duration literal at the start of `input` (what follows it is
/// ignored), in milliseconds.
pub fn parse_duration(input: &str) -> (r: Result<u128, ParseErr>)
    ensures
        match r {
            Ok(d) => spec_duration(input@, 0) matches Ok((_, v)) && v == d,
            Err(e) => spec_duration(input@, 0) is Err
                && e.kind_spec() == spec_duration(input@, 0)->Err_0.kind
                && e.error_spec().span_spec().input() == input@
                && e.error_spec().span_spec().index() == spec_duration(input@, 0)->Err_0.pos
                && e.error_spec().msg_spec() == spec_duration(input@, 0)->Err_0.msg,
        },
{
    let s = to_chars(input);
    match duration(&s, 0) {
        Ok((p, d)) => {
            assert(spec_duration(input@, 0) == Ok::<(int, nat), crate::parse::PErrV>((p as int, d as nat)));
            Ok(d)
        },
        Err(e) => {
            proof { lemma_err_pos_duration(s@, 0); }
            Err(to_parse_err(&s, e))
        },
    }
}

/// Errors of a duration literal stand within the input.
pub proof fn lemma_err_pos_duration(s: Seq<char>, pos: int)
    requires
        0 <= pos <= s.len(),
    ensures
        spec_duration(s, pos) matches Err(e) ==> pos <= e.pos <= s.len(),
{
    lemma_err_pos_duration_inner(s, pos, Unit::Year);
}

pub proof fn lemma_err_pos_duration_inner(s: Seq<char>, pos: int, max: Unit)
    requires
        0 <= pos <= s.len(),
    ensures
        spec_duration_inner(s, pos, max) matches Err(e) ==> pos <= e.pos <= s.len(),
    decreases max.rank(),
{
    lemma_digits_end(s, pos);
    lemma_unit_at(s, digits_end(s, pos));
    let dend = digits_end(s, pos);
    if dend != pos {
        match unit_at(s, dend) {
            Some((unit, ulen)) => {
                if let Some(next) = unit.spec_descendant() {
                    if next.rank() < max.rank() && dend + ulen <= s.len() {
                        lemma_err_pos_duration_inner(s, dend + ulen, next);
                    }
                }
            },
            None => {},
        }
    }
}


/// A duration literal stands for a positive number of milliseconds.
pub proof fn law_duration_positive(s: Seq<char>, pos: int)
    ensures
        spec_duration(s, pos) matches Ok((_, d)) ==> d > 0,
{
}


/// How each unit is written.
pub open spec fn unit_text(u: Unit) -> Seq<char> {
    match u {
        Unit::Millisecond => "ms"@,
        Unit::Second => "s"@,
        Unit::Minute => "m"@,
        Unit::Hour => "h"@,
        Unit::Day => "d"@,
        Unit::Week => "w"@,
        Unit::Year => "y"@,
    }
}

/// A unit is read as the unit its text spells (`ms` before `m` and `s`).
pub proof fn law_unit_text(s: Seq<char>, pos: int)
    ensures
        unit_at(s, pos) matches Some((u, n)) ==> n == unit_text(u).len() && tag_exact(s, pos, unit_text(u)),
{
    reveal_strlit("ms");
    reveal_strlit("s");
    reveal_strlit("m");
    reveal_strlit("h");
    reveal_strlit("d");
    reveal_strlit("w");
    reveal_strlit("y");
}

/// The sizes of the units: a second is 1000 milliseconds, a minute 60
/// seconds, an hour 60 minutes, a day 24 hours, a week 7 days and a year 365
/// days; each unit but the millisecond is followed by the next smaller one.
pub proof fn law_unit_sizes()
    ensures
        Unit::Millisecond.spec_millis() == 1,
        Unit::Second.spec_millis() == 1000 * Unit::Millisecond.spec_millis(),
        Unit::Minute.spec_millis() == 60 * Unit::Second.spec_millis(),
        Unit::Hour.spec_millis() == 60 * Unit::Minute.spec_millis(),
        Unit::Day.spec_millis() == 24 * Unit::Hour.spec_millis(),
        Unit::Week.spec_millis() == 7 * Unit::Day.spec_millis(),
        Unit::Year.spec_millis() == 365 * Unit::Day.spec_millis(),
        forall|u: Unit| #[trigger] u.spec_descendant() matches Some(d) ==> d.spec_millis() < u.spec_millis()
            && (forall|w: Unit| d.spec_millis() < #[trigger] w.spec_millis() ==> u.spec_millis() <= w.spec_millis()),
        Unit::Millisecond.spec_descendant() is None,
{
}

} // verus!
