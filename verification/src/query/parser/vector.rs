//! Vector selectors: `metric{label="value", ...}[duration]`.
use vstd::prelude::*;
use crate::duration::{duration, spec_duration};
use crate::lexer::{
    char_msg, expect_char, expect_lchar, label_identifier, match_exact, metric_identifier,
    spec_char, spec_identifier, spec_lchar, spec_string_literal, string_literal, tag_exact, tag_msg,
};
use crate::model::labels::{spec_label_matcher_new, LabelMatcher, LabelMatcherV, MatchOp};
use crate::parse::{
    partial, partial_msg, perr, rmap, rval, rview, serr, text_err, ErrKind, Msg, MsgV, PErr, PErrV, SRes,
};
use crate::query::parser::ast::{matchers_view, opt_view, spec_selector_new, VectorSelector, VectorSelectorV};
use crate::text::{skip_spaces, skip_ws};

verus! {

/// A label operator at `pos`: `=~`, `!~`, `!=`, `=` (tried in this order).
pub open spec fn spec_match_op(s: Seq<char>, pos: int) -> SRes<MatchOp> {
    if tag_exact(s, pos, "=~"@) {
        Ok((pos + 2, MatchOp::EqlRe))
    } else if tag_exact(s, pos, "!~"@) {
        Ok((pos + 2, MatchOp::NeqRe))
    } else if tag_exact(s, pos, "!="@) {
        Ok((pos + 2, MatchOp::Neq))
    } else if tag_exact(s, pos, "="@) {
        Ok((pos + 1, MatchOp::Eql))
    } else {
        serr(ErrKind::Error, pos, tag_msg())
    }
}

pub fn match_op(s: &Vec<char>, pos: usize) -> (r: Result<(usize, MatchOp), PErr>)
    requires
        pos <= s@.len(),
    ensures
        r is Err ==> r->Err_0.pos <= s@.len(),
        rval(r) == spec_match_op(s@, pos as int),
        r is Ok ==> r->Ok_0.0 <= s@.len(),
{
    let _n = s.len();
    proof {
        reveal_strlit("=~");
        reveal_strlit("!~");
        reveal_strlit("!=");
        reveal_strlit("=");
    }
    if match_exact(s, pos, "=~") {
        Ok((pos + 2, MatchOp::EqlRe))
    } else if match_exact(s, pos, "!~") {
        Ok((pos + 2, MatchOp::NeqRe))
    } else if match_exact(s, pos, "!=") {
        Ok((pos + 2, MatchOp::Neq))
    } else if match_exact(s, pos, "=") {
        Ok((pos + 1, MatchOp::Eql))
    } else {
        Err(text_err(ErrKind::Error, pos, "parse error Tag"))
    }
}

/// A label matcher at `pos`: `label <op> "value"`.
pub open spec fn spec_label_matcher(s: Seq<char>, pos: int) -> SRes<LabelMatcherV> {
    match spec_identifier(s, pos, false) {
        Err(e) => Err(e),
        Ok((r1, label)) => match spec_match_op(s, skip_ws(s, r1)) {
            Err(_) => serr(ErrKind::Failure, r1, partial_msg("label matching", "one of \"=\", \"!=\", \"=~\", \"!~\"")),
            Ok((r2, op)) => match spec_string_literal(s, skip_ws(s, r2)) {
                Err(_) => serr(ErrKind::Failure, r2, partial_msg("label matching", "label value as string literal")),
                Ok((r3, value)) => match spec_label_matcher_new(label, op, value) {
                    Err(m) => serr(ErrKind::Failure, pos, MsgV::Text(m)),
                    Ok(m) => Ok((r3, m)),
                },
            },
        },
    }
}

pub fn label_matcher(s: &Vec<char>, pos: usize) -> (r: Result<(usize, LabelMatcher), PErr>)
    requires
        pos <= s@.len(),
    ensures
        r is Err ==> r->Err_0.pos <= s@.len(),
        rview(r) == spec_label_matcher(s@, pos as int),
        r is Ok ==> pos < r->Ok_0.0 <= s@.len(),
{
    let (r1, label) = label_identifier(s, pos)?;
    let p1 = skip_spaces(s, r1);
    let (r2, op) = match match_op(s, p1) {
        Ok(x) => x,
        Err(_) => {
            return Err(partial(ErrKind::Failure, r1, "label matching", "one of \"=\", \"!=\", \"=~\", \"!~\""));
        },
    };
    let p2 = skip_spaces(s, r2);
    let (r3, value) = match string_literal(s, p2) {
        Ok(x) => x,
        Err(_) => {
            return Err(partial(ErrKind::Failure, r2, "label matching", "label value as string literal"));
        },
    };
    match LabelMatcher::new(label, op, value) {
        Ok(m) => Ok((r3, m)),
        Err(e) => Err(perr(ErrKind::Failure, pos, Msg::Text(e.message().clone()))),
    }
}

/// The rest of a `{...}` list of label matchers after `p`, with the matchers
/// `items` already read: `}` ends it; otherwise a `,` must separate a next
/// matcher (a trailing `,` before `}` is allowed).
pub open spec fn spec_matchers_rest(s: Seq<char>, p: int, items: Seq<LabelMatcherV>) -> SRes<Seq<LabelMatcherV>>
    decreases s.len() - p,
{
    if spec_lchar(s, p, '}') is Ok {
        Ok((spec_lchar(s, p, '}')->Ok_0.0, items))
    } else {
        let sep = if items.len() > 0 {
            match spec_lchar(s, p, ',') {
                Ok((p2, _)) => Ok((p2, ())),
                Err(e) => if e.kind == ErrKind::Error {
                    serr(ErrKind::Failure, p, partial_msg("label matching", "identifier or \"}\""))
                } else {
                    Err(e)
                },
            }
        } else {
            Ok((p, ()))
        };
        match sep {
            Err(e) => Err(e),
            Ok((p2, _)) => if items.len() > 0 && spec_lchar(s, p2, '}') is Ok {
                Ok((spec_lchar(s, p2, '}')->Ok_0.0, items))
            } else {
                match spec_label_matcher(s, skip_ws(s, p2)) {
                    Err(e) => if e.kind == ErrKind::Error {
                        serr(ErrKind::Failure, p2, partial_msg("label matching", "identifier or \"}\""))
                    } else {
                        Err(e)
                    },
                    Ok((p3, m)) => if p < p3 <= s.len() {
                        spec_matchers_rest(s, p3, items.push(m))
                    } else {
                        Ok((p3, items.push(m)))
                    },
                }
            },
        }
    }
}

/// A list of label matchers at `pos`: `{}`, `{m1, m2}`, `{m1, m2,}`.
pub open spec fn spec_label_matchers(s: Seq<char>, pos: int) -> SRes<Seq<LabelMatcherV>> {
    match spec_char(s, pos, '{') {
        Err(e) => Err(e),
        Ok((p1, _)) => spec_matchers_rest(s, p1, Seq::empty()),
    }
}

pub fn label_matchers(s: &Vec<char>, pos: usize) -> (r: Result<(usize, Vec<LabelMatcher>), PErr>)
    requires
        pos <= s@.len(),
    ensures
        r is Err ==> r->Err_0.pos <= s@.len(),
        rmap(r, |v: Vec<LabelMatcher>| matchers_view(v@)) == spec_label_matchers(s@, pos as int),
        r is Ok ==> pos < r->Ok_0.0 <= s@.len(),
{
    let (p1, _) = expect_char(s, pos, '{')?;
    let mut items: Vec<LabelMatcher> = Vec::new();
    assert(matchers_view(items@) =~= Seq::<LabelMatcherV>::empty());
    let mut p = p1;
    let ghost goal = spec_label_matchers(s@, pos as int);
    loop
        invariant
            pos < p <= s@.len(),
            goal == spec_label_matchers(s@, pos as int),
            goal == spec_matchers_rest(s@, p as int, matchers_view(items@)),
        decreases s@.len() - p,
    {
        let ghost iv = matchers_view(items@);
        if let Ok((pe, _)) = expect_lchar(s, p, '}') {
            return Ok((pe, items));
        }
        let mut p2 = p;
        if items.len() > 0 {
            p2 = match expect_lchar(s, p, ',') {
                Ok((x, _)) => x,
                Err(e) => {
                    if e.kind == ErrKind::Error {
                        return Err(partial(ErrKind::Failure, p, "label matching", "identifier or \"}\""));
                    }
                    return Err(e);
                },
            };
            if let Ok((pe, _)) = expect_lchar(s, p2, '}') {
                return Ok((pe, items));
            }
        }
        let q = skip_spaces(s, p2);
        match label_matcher(s, q) {
            Err(e) => {
                if e.kind == ErrKind::Error {
                    return Err(partial(ErrKind::Failure, p2, "label matching", "identifier or \"}\""));
                }
                return Err(e);
            },
            Ok((p3, m)) => {
                items.push(m);
                proof {
                    assert(matchers_view(items@) =~= iv.push(m@));
                }
                if p3 <= p {
                    return Ok((p3, items));
                }
                p = p3;
            },
        }
    }
}

/// A range duration at `pos`: `[<duration>]`.
pub open spec fn spec_range_duration(s: Seq<char>, pos: int) -> SRes<nat> {
    match spec_char(s, pos, '[') {
        Err(e) => Err(e),
        Ok((p1, _)) => match spec_duration(s, p1) {
            Err(e) => if e.kind == ErrKind::Error {
                serr(ErrKind::Failure, p1, partial_msg("range vector selector", "duration literal"))
            } else {
                Err(e)
            },
            Ok((p2, d)) => match spec_char(s, p2, ']') {
                Err(_) => serr(ErrKind::Failure, p2, partial_msg("range vector selector", "]")),
                Ok((p3, _)) => Ok((p3, d)),
            },
        },
    }
}

pub fn range_duration(s: &Vec<char>, pos: usize) -> (r: Result<(usize, u128), PErr>)
    requires
        pos <= s@.len(),
    ensures
        r is Err ==> r->Err_0.pos <= s@.len(),
        match r {
            Ok((p, d)) => spec_range_duration(s@, pos as int) == Ok::<(int, nat), PErrV>((p as int, d as nat))
                && pos < p <= s@.len(),
            Err(e) => spec_range_duration(s@, pos as int) == Err::<(int, nat), PErrV>(e@),
        },
{
    let (p1, _) = expect_char(s, pos, '[')?;
    let (p2, d) = match duration(s, p1) {
        Ok(x) => x,
        Err(e) => {
            if e.kind == ErrKind::Error {
                return Err(partial(ErrKind::Failure, p1, "range vector selector", "duration literal"));
            }
            return Err(e);
        },
    };
    match expect_char(s, p2, ']') {
        Err(_) => Err(partial(ErrKind::Failure, p2, "range vector selector", "]")),
        Ok((p3, _)) => Ok((p3, d)),
    }
}

/// A vector selector at `pos`: `metric`, `metric{...}`, `{...}`, each with an
/// optional range duration `[...]`.
pub open spec fn spec_vector_selector(s: Seq<char>, pos: int) -> SRes<VectorSelectorV> {
    let (r1, metric) = match spec_identifier(s, pos, true) {
        Ok((r, m)) => (r, Some(m)),
        Err(_) => (pos, None::<Seq<char>>),
    };
    let ms = match spec_label_matchers(s, skip_ws(s, r1)) {
        Ok((r2, ms)) => Ok((r2, ms)),
        Err(e) => if e.kind == ErrKind::Error && metric is Some {
            Ok((r1, Seq::empty()))
        } else {
            Err(e)
        },
    };
    match ms {
        Err(e) => Err(e),
        Ok((r2, ms)) => {
            let d = match spec_range_duration(s, skip_ws(s, r2)) {
                Ok((r3, d)) => Ok((r3, Some(d))),
                Err(e) => if e.kind == ErrKind::Error {
                    Ok((r2, None))
                } else {
                    Err(e)
                },
            };
            match d {
                Err(e) => Err(e),
                Ok((r3, d)) => match spec_selector_new(metric, ms, d) {
                    Err(m) => serr(ErrKind::Failure, pos, MsgV::Text(m)),
                    Ok(v) => Ok((r3, v)),
                },
            }
        },
    }
}

pub fn vector_selector(s: &Vec<char>, pos: usize) -> (r: Result<(usize, VectorSelector), PErr>)
    requires
        pos <= s@.len(),
    ensures
        r is Err ==> r->Err_0.pos <= s@.len(),
        rview(r) == spec_vector_selector(s@, pos as int),
        r is Ok ==> pos <= r->Ok_0.0 <= s@.len(),
{
    let (r1, metric) = match metric_identifier(s, pos) {
        Ok((r, m)) => (r, Some(m)),
        Err(_) => (pos, None),
    };
    let q1 = skip_spaces(s, r1);
    let (r2, ms) = match label_matchers(s, q1) {
        Ok(x) => x,
        Err(e) => {
            if e.kind == ErrKind::Error && metric.is_some() {
                let empty: Vec<LabelMatcher> = Vec::new();
                assert(matchers_view(empty@) =~= Seq::<LabelMatcherV>::empty());
                (r1, empty)
            } else {
                return Err(e);
            }
        },
    };
    let q2 = skip_spaces(s, r2);
    let (r3, d) = match range_duration(s, q2) {
        Ok((x, d)) => (x, Some(d)),
        Err(e) => {
            if e.kind == ErrKind::Error {
                (r2, None)
            } else {
                return Err(e);
            }
        },
    };
    let ghost mv = opt_view(metric);
    match VectorSelector::new(metric, ms, d) {
        Err(e) => Err(perr(ErrKind::Failure, pos, Msg::Text(e.message().clone()))),
        Ok(v) => Ok((r3, v)),
    }
}


/// How each label operator is written.
pub open spec fn match_op_text(op: MatchOp) -> Seq<char> {
    match op {
        MatchOp::Eql => "="@,
        MatchOp::Neq => "!="@,
        MatchOp::EqlRe => "=~"@,
        MatchOp::NeqRe => "!~"@,
    }
}

/// A label operator is read as the operator its text spells: `=` is `Eql`,
/// `!=` is `Neq`, `=~` is `EqlRe`, `!~` is `NeqRe`.
pub proof fn law_match_op_text(s: Seq<char>, pos: int)
    ensures
        spec_match_op(s, pos) matches Ok((r, op)) ==> r == pos + match_op_text(op).len() && tag_exact(s, pos, match_op_text(op)),
{
    reveal_strlit("=~");
    reveal_strlit("!~");
    reveal_strlit("!=");
    reveal_strlit("=");
}

} // verus!
