//! Query expressions: operator precedence, aggregations, function calls,
//! parentheses, unary signs, number literals and vector selectors.
use vstd::prelude::*;
use crate::lexer::{
    char_msg, expect_char, expect_lchar, keyword_alt, label_identifier, match_keywords,
    spec_char, spec_identifier, spec_lchar, spec_string_literal, string_literal, strs_view,
    tag_msg, lemma_keyword_alt, is_ident_char, tag_nocase, TagMatch,
};
use crate::parse::{
    partial, partial_msg, perr, rmap, rval, rview, serr, text_err, text_msg, ErrKind, Msg, MsgV,
    PErr, PErrV, SRes, ParseErr, to_parse_err, unexpected_text,
};
use crate::query::parser::ast::{
    args_view, arg_view, binary_modifiers_ok, opt_view, BinaryOpKind, Precedence, AggregateArgument, AggregateArgumentV, AggregateModifier,
    AggregateModifierV, AggregateOp, AggregateOperation, BinaryOp, BinaryOperation, Expr, ExprV,
    FunctionCall, FunctionCallArg, FunctionCallArgV, FunctionName, GroupModifier, GroupModifierV,
    LabelMatching, LabelMatchingV, UnaryOp,
};
use crate::query::parser::vector::{spec_vector_selector, vector_selector};
use crate::text::{char_is_alnum, push_range, push_str, skip_spaces, skip_ws, string_from_chars, to_chars};

verus! {

pub open spec fn binary_kws() -> Seq<Seq<char>> {
    seq!["+"@, "/"@, "*"@, "%"@, "^"@, "-"@, "=="@, ">="@, ">"@, "<="@, "<"@, "!="@, "and"@,
        "unless"@, "or"@]
}

pub open spec fn binary_ops() -> Seq<BinaryOp> {
    seq![BinaryOp::Add, BinaryOp::Div, BinaryOp::Mul, BinaryOp::Mod, BinaryOp::Pow, BinaryOp::Sub,
        BinaryOp::Eql, BinaryOp::Gte, BinaryOp::Gtr, BinaryOp::Lte, BinaryOp::Lss, BinaryOp::Neq,
        BinaryOp::And, BinaryOp::Unless, BinaryOp::Or]
}

pub open spec fn aggregate_kws() -> Seq<Seq<char>> {
    seq!["avg"@, "bottomk"@, "count_values"@, "count"@, "group"@, "max"@, "min"@, "quantile"@,
        "stddev"@, "stdvar"@, "sum"@, "topk"@]
}

pub open spec fn aggregate_ops() -> Seq<AggregateOp> {
    seq![AggregateOp::Avg, AggregateOp::BottomK, AggregateOp::CountValues, AggregateOp::Count,
        AggregateOp::Group, AggregateOp::Max, AggregateOp::Min, AggregateOp::Quantile,
        AggregateOp::StdDev, AggregateOp::StdVar, AggregateOp::Sum, AggregateOp::TopK]
}

pub open spec fn function_kws() -> Seq<Seq<char>> {
    seq!["clamp_max"@, "clamp_min"@, "clamp"@, "avg_over_time"@, "count_over_time"@,
        "last_over_time"@, "max_over_time"@, "min_over_time"@, "sum_over_time"@]
}

pub open spec fn function_names() -> Seq<FunctionName> {
    seq![FunctionName::ClampMax, FunctionName::ClampMin, FunctionName::Clamp,
        FunctionName::AvgOverTime, FunctionName::CountOverTime, FunctionName::LastOverTime,
        FunctionName::MaxOverTime, FunctionName::MinOverTime, FunctionName::SumOverTime]
}

pub open spec fn kelvin_msg() -> MsgV {
    text_msg("keyword spelled with a Kelvin sign")
}

/// The first keyword of `kws` at `pos` (ignoring case), as the matching entry of `values`.
pub open spec fn spec_keyword<T>(s: Seq<char>, pos: int, kws: Seq<Seq<char>>, values: Seq<T>) -> SRes<T> {
    match keyword_alt(s, pos, kws) {
        None => serr(ErrKind::Error, pos, tag_msg()),
        Some((i, true)) => serr(ErrKind::Abort, pos, kelvin_msg()),
        Some((i, false)) => Ok((pos + kws[i].len(), values[i])),
    }
}

/// The rest of a `(label, ...)` list after `p`, with the labels `items` already read.
pub open spec fn spec_labels_rest(s: Seq<char>, p: int, items: Seq<Seq<char>>) -> SRes<Seq<Seq<char>>>
    decreases s.len() - p,
{
    if spec_lchar(s, p, ')') is Ok {
        Ok((spec_lchar(s, p, ')')->Ok_0.0, items))
    } else {
        let sep = if items.len() > 0 {
            match spec_lchar(s, p, ',') {
                Ok((p2, _)) => Ok((p2, ())),
                Err(e) => if e.kind == ErrKind::Error {
                    serr(ErrKind::Failure, p, partial_msg("grouping labels clause", "label or \")\""))
                } else {
                    Err(e)
                },
            }
        } else {
            Ok((p, ()))
        };
        match sep {
            Err(e) => Err(e),
            Ok((p2, _)) => if items.len() > 0 && spec_lchar(s, p2, ')') is Ok {
                Ok((spec_lchar(s, p2, ')')->Ok_0.0, items))
            } else {
                match spec_identifier(s, skip_ws(s, p2), false) {
                    Err(e) => if e.kind == ErrKind::Error {
                        serr(ErrKind::Failure, p2, partial_msg("grouping labels clause", "label or \")\""))
                    } else {
                        Err(e)
                    },
                    Ok((p3, l)) => if p < p3 <= s.len() {
                        spec_labels_rest(s, p3, items.push(l))
                    } else {
                        Ok((p3, items.push(l)))
                    },
                }
            },
        }
    }
}

/// Grouping labels at `pos`: `()`, `(l1, l2)`, `(l1, l2,)`.
pub open spec fn spec_grouping_labels(s: Seq<char>, pos: int) -> SRes<Seq<Seq<char>>> {
    match spec_char(s, pos, '(') {
        Err(e) => Err(e),
        Ok((p1, _)) => spec_labels_rest(s, p1, Seq::empty()),
    }
}

/// `by (labels)` or `without (labels)` at `pos`.
pub open spec fn spec_aggregate_modifier(s: Seq<char>, pos: int) -> SRes<AggregateModifierV> {
    match spec_keyword(s, pos, seq!["by"@, "without"@], seq![true, false]) {
        Err(e) => Err(e),
        Ok((r1, by)) => match spec_grouping_labels(s, skip_ws(s, r1)) {
            Err(e) => if e.kind == ErrKind::Error {
                serr(ErrKind::Failure, r1, partial_msg("aggregation", "label list"))
            } else {
                Err(e)
            },
            Ok((r2, labels)) => Ok((r2, if by {
                AggregateModifierV::By(labels.to_set())
            } else {
                AggregateModifierV::Without(labels.to_set())
            })),
        },
    }
}

/// `on (labels)` or `ignoring (labels)` at `pos`.
pub open spec fn spec_label_matching(s: Seq<char>, pos: int) -> SRes<LabelMatchingV> {
    match spec_keyword(s, pos, seq!["on"@, "ignoring"@], seq![true, false]) {
        Err(e) => Err(e),
        Ok((r1, on)) => match spec_grouping_labels(s, skip_ws(s, r1)) {
            Err(e) => Err(e),
            Ok((r2, labels)) => Ok((r2, if on {
                LabelMatchingV::On(labels.to_set())
            } else {
                LabelMatchingV::Ignoring(labels.to_set())
            })),
        },
    }
}

/// `group_left [(labels)]` or `group_right [(labels)]` at `pos`.
pub open spec fn spec_group_modifier(s: Seq<char>, pos: int) -> SRes<GroupModifierV> {
    match spec_keyword(s, pos, seq!["group_left"@, "group_right"@], seq![true, false]) {
        Err(e) => Err(e),
        Ok((r1, left)) => {
            let ls = match spec_grouping_labels(s, skip_ws(s, r1)) {
                Ok((r2, labels)) => Ok((r2, labels)),
                Err(e) => if e.kind == ErrKind::Error {
                    Ok((r1, Seq::<Seq<char>>::empty()))
                } else {
                    Err(e)
                },
            };
            match ls {
                Err(e) => Err(e),
                Ok((r2, labels)) => Ok((r2, if left {
                    GroupModifierV::Left(labels)
                } else {
                    GroupModifierV::Right(labels)
                })),
            }
        },
    }
}

/// What the float parser of `nom` (`number::complete::double`) leaves of
/// `input` after a number at its start, if it finds one.
pub uninterp spec fn float_rest(input: Seq<char>) -> Option<Seq<char>>;

/// Runs `nom::number::complete::double` on the characters of `input` and
/// returns what it leaves unconsumed. The contract claims that this is a
/// function of the input (named `float_rest`) and, as the source shows
/// (`input.slice(processed..)`), a suffix of the input.
#[verifier::external_body]
fn nom_double_rest(input: &[char]) -> (r: Option<Vec<char>>)
    ensures
        match r {
            Some(rest) => float_rest(input@) == Some(rest@) && rest@.len() <= input@.len()
                && rest@ == input@.skip(input@.len() - rest@.len()),
            None => float_rest(input@) is None,
        },
{
    let text: String = input.iter().collect();
    match nom::number::complete::double::<&str, nom::error::Error<&str>>(text.as_str()) {
        Ok((rest, _)) => Some(rest.chars().collect()),
        Err(_) => None,
    }
}

/// A number literal at `pos`, kept as its text: what the float parser consumes.
pub open spec fn spec_number_literal(s: Seq<char>, pos: int) -> SRes<Seq<char>> {
    match float_rest(s.skip(pos)) {
        Some(rest) => if 0 <= pos && rest.len() < s.len() - pos {
            Ok((s.len() - rest.len(), s.subrange(pos, s.len() - rest.len())))
        } else {
            serr(ErrKind::Error, pos, text_msg("parse error Float"))
        },
        None => serr(ErrKind::Error, pos, text_msg("parse error Float")),
    }
}

/// Argument kinds of a function.
#[derive(Clone, Copy, Debug, PartialEq, Eq, Structural)]
pub enum ArgKind {
    InstantVector,
    Number,
}

pub open spec fn arg_kinds(name: FunctionName) -> Seq<ArgKind> {
    match name {
        FunctionName::CountOverTime | FunctionName::LastOverTime | FunctionName::MaxOverTime
        | FunctionName::MinOverTime | FunctionName::SumOverTime | FunctionName::AvgOverTime
        | FunctionName::LabelReplace => seq![ArgKind::InstantVector],
        FunctionName::Clamp => seq![ArgKind::InstantVector, ArgKind::Number, ArgKind::Number],
        FunctionName::ClampMax | FunctionName::ClampMin => seq![ArgKind::InstantVector, ArgKind::Number],
        FunctionName::Vector => seq![ArgKind::Number],
    }
}

/// Whether the binary operator at `p` ends the expression whose operands bind
/// tighter than `min_prec`.
pub open spec fn below_min(op: BinaryOp, min_prec: Option<nat>) -> bool {
    op.spec_precedence() <= match min_prec {
        Some(m) => m,
        None => 0,
    }
}

/// An expression at `pos` whose binary operators all bind tighter than `min_prec`.
pub open spec fn spec_expr(s: Seq<char>, pos: int, min_prec: Option<nat>) -> SRes<ExprV>
    decreases s.len() - pos, 2nat, 0nat,
{
    if 0 <= pos <= s.len() {
        match spec_primary(s, pos) {
            Err(e) => Err(e),
            Ok((r, lhs)) => if pos < r <= s.len() {
                spec_expr_loop(s, r, lhs, min_prec)
            } else {
                Ok((r, lhs))
            },
        }
    } else {
        serr(ErrKind::Error, pos, tag_msg())
    }
}

/// The binary operations that follow the operand `lhs` ending at `p`; the
/// expression ends at a closing parenthesis, at the end of the input, or where
/// no binary operator follows.
pub open spec fn spec_expr_loop(s: Seq<char>, p: int, lhs: ExprV, min_prec: Option<nat>) -> SRes<ExprV>
    decreases s.len() - p, 4nat, 0nat,
{
    if !(0 <= p < s.len()) || s[p] == ')' {
        Ok((p, lhs))
    } else {
        match spec_keyword(s, skip_ws(s, p), binary_kws(), binary_ops()) {
            Err(e) => if e.kind == ErrKind::Error { Ok((p, lhs)) } else { Err(e) },
            Ok((r_op, op)) => if below_min(op, min_prec) {
                Ok((p, lhs))
            } else {
                let b = match spec_keyword(s, skip_ws(s, r_op), seq!["bool"@], seq![true]) {
                    Ok((r, _)) => Ok((r, true)),
                    Err(e) => if e.kind == ErrKind::Error { Ok((r_op, false)) } else { Err(e) },
                };
                match b {
                    Err(e) => Err(e),
                    Ok((r_b, bool_modifier)) => {
                        let lm = match spec_label_matching(s, skip_ws(s, r_b)) {
                            Ok((r, m)) => Ok((r, Some(m))),
                            Err(e) => if e.kind == ErrKind::Error { Ok((r_b, None)) } else { Err(e) },
                        };
                        match lm {
                            Err(e) => Err(e),
                            Ok((r_m, label_matching)) => {
                                let gm = match spec_group_modifier(s, skip_ws(s, r_m)) {
                                    Ok((r, g)) => Ok((r, Some(g))),
                                    Err(e) => if e.kind == ErrKind::Error { Ok((r_m, None)) } else { Err(e) },
                                };
                                match gm {
                                    Err(e) => Err(e),
                                    Ok((r_g, group_modifier)) => {
                                        let q = skip_ws(s, r_g);
                                        if p < q <= s.len() {
                                            match spec_expr(s, q, Some(op.spec_precedence())) {
                                                Err(e) => if e.kind == ErrKind::Error {
                                                    serr(ErrKind::Failure, r_g, partial_msg("binary expression", "right-hand expression"))
                                                } else {
                                                    Err(e)
                                                },
                                                Ok((r_rhs, rhs)) => if !binary_modifiers_ok(op, bool_modifier, label_matching is Some, group_modifier is Some) {
                                                    serr(ErrKind::Abort, p, text_msg("invalid binary operation modifiers"))
                                                } else {
                                                    let lhs2 = ExprV::BinaryOperation {
                                                        lhs: Box::new(lhs),
                                                        rhs: Box::new(rhs),
                                                        op,
                                                        bool_modifier,
                                                        label_matching,
                                                        group_modifier,
                                                    };
                                                    if p < r_rhs <= s.len() {
                                                        spec_expr_loop(s, r_rhs, lhs2, min_prec)
                                                    } else {
                                                        Ok((r_rhs, lhs2))
                                                    }
                                                },
                                            }
                                        } else {
                                            Ok((p, lhs))
                                        }
                                    },
                                }
                            },
                        }
                    },
                }
            },
        }
    }
}

/// The first of the primary expressions that recognizes the input at `pos`:
/// aggregation, parentheses, number, unary sign, function call, vector selector.
pub open spec fn spec_primary(s: Seq<char>, pos: int) -> SRes<ExprV>
    decreases s.len() - pos, 1nat, 0nat,
{
    let a = spec_aggregate(s, pos);
    if !(a matches Err(e) && e.kind == ErrKind::Error) {
        a
    } else {
        let b = spec_paren(s, pos);
        if !(b matches Err(e) && e.kind == ErrKind::Error) {
            b
        } else {
            let c = match spec_number_literal(s, pos) {
                Ok((r, t)) => Ok((r, ExprV::NumberLiteral(t))),
                Err(e) => Err(e),
            };
            if !(c matches Err(e) && e.kind == ErrKind::Error) {
                c
            } else {
                let d = spec_unary(s, pos);
                if !(d matches Err(e) && e.kind == ErrKind::Error) {
                    d
                } else {
                    let f = spec_function_call(s, pos);
                    if !(f matches Err(e) && e.kind == ErrKind::Error) {
                        f
                    } else {
                        match spec_vector_selector(s, pos) {
                            Ok((r, v)) => Ok((r, ExprV::VectorSelector(v))),
                            Err(e) => Err(e),
                        }
                    }
                }
            }
        }
    }
}

/// An aggregation at `pos`: `op [modifier] ([argument,] expr) [modifier]`.
pub open spec fn spec_aggregate(s: Seq<char>, pos: int) -> SRes<ExprV>
    decreases s.len() - pos, 0nat, 0nat,
{
    match spec_keyword(s, pos, aggregate_kws(), aggregate_ops()) {
        Err(e) => Err(e),
        Ok((r1, op)) => if 0 <= r1 < s.len() && is_ident_char(s[r1], false) {
            serr(ErrKind::Error, pos, tag_msg())
        } else {
            let m1 = match spec_aggregate_modifier(s, skip_ws(s, r1)) {
                Ok((r, m)) => Ok((r, Some(m))),
                Err(e) => if e.kind == ErrKind::Error { Ok((r1, None)) } else { Err(e) },
            };
            match m1 {
                Err(e) => Err(e),
                Ok((r2, modifier)) => match spec_lchar(s, r2, '(') {
                    Err(_) => serr(ErrKind::Failure, r2, partial_msg("aggregate expression", "(")),
                    Ok((r3, _)) => {
                        let arg = if op == AggregateOp::CountValues {
                            match spec_string_literal(s, skip_ws(s, r3)) {
                                Ok((r, t)) => Ok((r, Some(AggregateArgumentV::String(t)))),
                                Err(_) => serr(ErrKind::Failure, r3, partial_msg("count_values operator", "string literal")),
                            }
                        } else if op == AggregateOp::Quantile || op == AggregateOp::TopK || op == AggregateOp::BottomK {
                            match spec_number_literal(s, skip_ws(s, r3)) {
                                Ok((r, t)) => Ok((r, Some(AggregateArgumentV::Number(t)))),
                                Err(_) => serr(ErrKind::Failure, r3, partial_msg("quantile, topk, or bottomk operator", "number literal")),
                            }
                        } else {
                            Ok((r3, None))
                        };
                        match arg {
                            Err(e) => Err(e),
                            Ok((r4, argument)) => {
                                let comma = if argument is Some {
                                    match spec_lchar(s, r4, ',') {
                                        Ok((r, _)) => Ok((r, ())),
                                        Err(_) => serr(ErrKind::Failure, r4, partial_msg("count_values, quantile, topk, or bottomk operator", ",")),
                                    }
                                } else {
                                    Ok((r4, ()))
                                };
                                match comma {
                                    Err(e) => Err(e),
                                    Ok((r5, _)) => {
                                        let q = skip_ws(s, r5);
                                        if pos < q <= s.len() {
                                            match spec_expr(s, q, None) {
                                                Err(e) => if e.kind == ErrKind::Error {
                                                    serr(ErrKind::Failure, r5, partial_msg("aggregate operator", "valid expression"))
                                                } else {
                                                    Err(e)
                                                },
                                                Ok((r6, inner)) => match spec_lchar(s, r6, ')') {
                                                    Err(_) => serr(ErrKind::Failure, r6, partial_msg("aggregate expression", ")")),
                                                    Ok((r7, _)) => {
                                                        let m2 = if modifier is Some {
                                                            Ok((r7, modifier))
                                                        } else {
                                                            match spec_aggregate_modifier(s, skip_ws(s, r7)) {
                                                                Ok((r, m)) => Ok((r, Some(m))),
                                                                Err(e) => if e.kind == ErrKind::Error { Ok((r7, None)) } else { Err(e) },
                                                            }
                                                        };
                                                        match m2 {
                                                            Err(e) => Err(e),
                                                            Ok((r8, modifier)) => Ok((r8, ExprV::AggregateOperation {
                                                                op,
                                                                expr: Box::new(inner),
                                                                modifier,
                                                                argument,
                                                            })),
                                                        }
                                                    },
                                                },
                                            }
                                        } else {
                                            serr(ErrKind::Failure, r5, partial_msg("aggregate operator", "valid expression"))
                                        }
                                    },
                                }
                            },
                        }
                    },
                },
            }
        },
    }
}

/// A parenthesized expression at `pos`.
pub open spec fn spec_paren(s: Seq<char>, pos: int) -> SRes<ExprV>
    decreases s.len() - pos, 0nat, 0nat,
{
    match spec_char(s, pos, '(') {
        Err(e) => Err(e),
        Ok((r1, _)) => {
            let q = skip_ws(s, r1);
            if pos < q <= s.len() {
                match spec_expr(s, q, None) {
                    Err(e) => if e.kind == ErrKind::Error {
                        serr(ErrKind::Failure, r1, partial_msg("parentheses", "valid expression"))
                    } else {
                        Err(e)
                    },
                    Ok((r2, inner)) => match spec_lchar(s, r2, ')') {
                        Err(_) => serr(ErrKind::Failure, r2, partial_msg("parentheses", ")")),
                        Ok((r3, _)) => Ok((r3, ExprV::Parentheses(Box::new(inner)))),
                    },
                }
            } else {
                serr(ErrKind::Failure, r1, partial_msg("parentheses", "valid expression"))
            }
        },
    }
}

/// A unary sign at `pos` followed by an expression whose operators bind
/// tighter than multiplication.
pub open spec fn spec_unary(s: Seq<char>, pos: int) -> SRes<ExprV>
    decreases s.len() - pos, 0nat, 0nat,
{
    let op = if spec_char(s, pos, '+') is Ok {
        Ok((pos + 1, UnaryOp::Add))
    } else if spec_char(s, pos, '-') is Ok {
        Ok((pos + 1, UnaryOp::Sub))
    } else {
        serr(ErrKind::Error, pos, char_msg('-'))
    };
    match op {
        Err(e) => Err(e),
        Ok((r1, op)) => {
            let q = skip_ws(s, r1);
            if pos < q <= s.len() {
                match spec_expr(s, q, Some(BinaryOp::Mul.spec_precedence())) {
                    Err(e) => Err(e),
                    Ok((r2, inner)) => Ok((r2, ExprV::UnaryOperation(op, Box::new(inner)))),
                }
            } else {
                serr(ErrKind::Error, pos, char_msg('-'))
            }
        },
    }
}

/// An argument of the given kind at `p`.
pub open spec fn spec_func_arg(s: Seq<char>, p: int, kind: ArgKind) -> SRes<FunctionCallArgV>
    decreases s.len() - p, 3nat, 0nat,
{
    match kind {
        ArgKind::InstantVector => if 0 <= p <= s.len() {
            match spec_expr(s, p, None) {
                Ok((r, e)) => Ok((r, FunctionCallArgV::Expr(Box::new(e)))),
                Err(e) => if e.kind == ErrKind::Error {
                    serr(ErrKind::Failure, p, partial_msg("function call", "instant vector"))
                } else {
                    Err(e)
                },
            }
        } else {
            serr(ErrKind::Failure, p, partial_msg("function call", "instant vector"))
        },
        ArgKind::Number => match spec_number_literal(s, p) {
            Ok((r, t)) => Ok((r, FunctionCallArgV::Number(t))),
            Err(_) => serr(ErrKind::Failure, p, partial_msg("function call", "number literal")),
        },
    }
}

/// The arguments of the given kinds from `p`, one directly after the other.
pub open spec fn spec_func_args(s: Seq<char>, p: int, kinds: Seq<ArgKind>) -> SRes<Seq<FunctionCallArgV>>
    decreases s.len() - p, 5nat, kinds.len(),
{
    if kinds.len() == 0 {
        Ok((p, Seq::empty()))
    } else {
        match spec_func_arg(s, p, kinds[0]) {
            Err(e) => Err(e),
            Ok((r, a)) => if p <= r <= s.len() {
                match spec_func_args(s, r, kinds.drop_first()) {
                    Err(e) => Err(e),
                    Ok((r2, rest)) => Ok((r2, seq![a] + rest)),
                }
            } else {
                Ok((r, seq![a]))
            },
        }
    }
}

/// A function call at `pos`: `name(args)`.
pub open spec fn spec_function_call(s: Seq<char>, pos: int) -> SRes<ExprV>
    decreases s.len() - pos, 0nat, 0nat,
{
    match spec_keyword(s, pos, function_kws(), function_names()) {
        Err(e) => Err(e),
        Ok((r1, name)) => match spec_lchar(s, r1, '(') {
            Err(e) => Err(e),
            Ok((r2, _)) => if pos < r2 <= s.len() {
                match spec_func_args(s, r2, arg_kinds(name)) {
                    Err(e) => Err(e),
                    Ok((r3, args)) => match spec_lchar(s, r3, ')') {
                        Err(_) => serr(ErrKind::Failure, r3, partial_msg("function call", ")")),
                        Ok((r4, _)) => Ok((r4, ExprV::FunctionCall { name, args })),
                    },
                }
            } else {
                serr(ErrKind::Failure, r2, partial_msg("function call", "instant vector"))
            },
        },
    }
}


/// The first keyword of `kws` at `pos` (ignoring case), as the matching entry of `values`.
pub fn keyword<T: Copy>(s: &Vec<char>, pos: usize, kws: &[&str], values: &[T]) -> (r: Result<(usize, T), PErr>)
    requires
        pos <= s@.len(),
        kws@.len() == values@.len(),
    ensures
        r is Err ==> r->Err_0.pos <= s@.len(),
        rval(r) == spec_keyword(s@, pos as int, strs_view(kws@), values@),
        r is Ok ==> pos <= r->Ok_0.0 <= s@.len(),
{
    let _n = s.len();
    match match_keywords(s, pos, kws) {
        None => Err(text_err(ErrKind::Error, pos, "parse error Tag")),
        Some((i, l, abort)) => {
            if abort {
                Err(text_err(ErrKind::Abort, pos, "keyword spelled with a Kelvin sign"))
            } else {
                proof {
                    assert(strs_view(kws@)[i as int] == kws@[i as int]@);
                }
                Ok((pos + l, values[i]))
            }
        },
    }
}

pub fn binary_op(s: &Vec<char>, pos: usize) -> (r: Result<(usize, BinaryOp), PErr>)
    requires
        pos <= s@.len(),
    ensures
        r is Err ==> r->Err_0.pos <= s@.len(),
        rval(r) == spec_keyword(s@, pos as int, binary_kws(), binary_ops()),
        r is Ok ==> pos <= r->Ok_0.0 <= s@.len(),
{
    let kws: [&str; 15] = ["+", "/", "*", "%", "^", "-", "==", ">=", ">", "<=", "<", "!=", "and", "unless", "or"];
    let vals: [BinaryOp; 15] = [BinaryOp::Add, BinaryOp::Div, BinaryOp::Mul, BinaryOp::Mod,
        BinaryOp::Pow, BinaryOp::Sub, BinaryOp::Eql, BinaryOp::Gte, BinaryOp::Gtr, BinaryOp::Lte,
        BinaryOp::Lss, BinaryOp::Neq, BinaryOp::And, BinaryOp::Unless, BinaryOp::Or];
    assert(strs_view(kws@) =~= binary_kws());
    assert(vals@ =~= binary_ops());
    keyword(s, pos, kws.as_slice(), vals.as_slice())
}

pub fn aggregate_op(s: &Vec<char>, pos: usize) -> (r: Result<(usize, AggregateOp), PErr>)
    requires
        pos <= s@.len(),
    ensures
        r is Err ==> r->Err_0.pos <= s@.len(),
        rval(r) == spec_keyword(s@, pos as int, aggregate_kws(), aggregate_ops()),
        r is Ok ==> pos <= r->Ok_0.0 <= s@.len(),
{
    let kws: [&str; 12] = ["avg", "bottomk", "count_values", "count", "group", "max", "min",
        "quantile", "stddev", "stdvar", "sum", "topk"];
    let vals: [AggregateOp; 12] = [AggregateOp::Avg, AggregateOp::BottomK, AggregateOp::CountValues,
        AggregateOp::Count, AggregateOp::Group, AggregateOp::Max, AggregateOp::Min,
        AggregateOp::Quantile, AggregateOp::StdDev, AggregateOp::StdVar, AggregateOp::Sum,
        AggregateOp::TopK];
    assert(strs_view(kws@) =~= aggregate_kws());
    assert(vals@ =~= aggregate_ops());
    keyword(s, pos, kws.as_slice(), vals.as_slice())
}

pub fn function_name(s: &Vec<char>, pos: usize) -> (r: Result<(usize, FunctionName), PErr>)
    requires
        pos <= s@.len(),
    ensures
        r is Err ==> r->Err_0.pos <= s@.len(),
        rval(r) == spec_keyword(s@, pos as int, function_kws(), function_names()),
        r is Ok ==> pos <= r->Ok_0.0 <= s@.len(),
{
    let kws: [&str; 9] = ["clamp_max", "clamp_min", "clamp", "avg_over_time", "count_over_time",
        "last_over_time", "max_over_time", "min_over_time", "sum_over_time"];
    let vals: [FunctionName; 9] = [FunctionName::ClampMax, FunctionName::ClampMin,
        FunctionName::Clamp, FunctionName::AvgOverTime, FunctionName::CountOverTime,
        FunctionName::LastOverTime, FunctionName::MaxOverTime, FunctionName::MinOverTime,
        FunctionName::SumOverTime];
    assert(strs_view(kws@) =~= function_kws());
    assert(vals@ =~= function_names());
    keyword(s, pos, kws.as_slice(), vals.as_slice())
}

/// One of two keywords: true for the first.
fn keyword_pair(s: &Vec<char>, pos: usize, first: &'static str, second: &'static str) -> (r: Result<(usize, bool), PErr>)
    requires
        pos <= s@.len(),
    ensures
        r is Err ==> r->Err_0.pos <= s@.len(),
        rval(r) == spec_keyword(s@, pos as int, seq![first@, second@], seq![true, false]),
        r is Ok ==> pos <= r->Ok_0.0 <= s@.len(),
{
    let kws: [&str; 2] = [first, second];
    let vals: [bool; 2] = [true, false];
    assert(strs_view(kws@) =~= seq![first@, second@]);
    assert(vals@ =~= seq![true, false]);
    keyword(s, pos, kws.as_slice(), vals.as_slice())
}

pub fn number_literal(s: &Vec<char>, pos: usize) -> (r: Result<(usize, String), PErr>)
    requires
        pos <= s@.len(),
    ensures
        r is Err ==> r->Err_0.pos <= s@.len(),
        rview(r) == spec_number_literal(s@, pos as int),
        r is Ok ==> pos < r->Ok_0.0 <= s@.len(),
{
    let mut suffix: Vec<char> = Vec::new();
    push_range(&mut suffix, s, pos, s.len());
    assert(suffix@ =~= s@.skip(pos as int));
    match nom_double_rest(suffix.as_slice()) {
        Some(rest) => {
            if rest.len() < s.len() - pos {
                let end = s.len() - rest.len();
                let mut v: Vec<char> = Vec::new();
                push_range(&mut v, s, pos, end);
                Ok((end, string_from_chars(v.as_slice())))
            } else {
                Err(text_err(ErrKind::Error, pos, "parse error Float"))
            }
        },
        None => Err(text_err(ErrKind::Error, pos, "parse error Float")),
    }
}

pub fn grouping_labels(s: &Vec<char>, pos: usize) -> (r: Result<(usize, Vec<String>), PErr>)
    requires
        pos <= s@.len(),
    ensures
        r is Err ==> r->Err_0.pos <= s@.len(),
        rmap(r, |v: Vec<String>| strings_of(v)) == spec_grouping_labels(s@, pos as int),
        r is Ok ==> pos < r->Ok_0.0 <= s@.len(),
{
    let (p1, _) = expect_char(s, pos, '(')?;
    let mut items: Vec<String> = Vec::new();
    assert(strings_of(items) =~= Seq::<Seq<char>>::empty());
    let mut p = p1;
    let ghost goal = spec_grouping_labels(s@, pos as int);
    loop
        invariant
            pos < p <= s@.len(),
            goal == spec_grouping_labels(s@, pos as int),
            goal == spec_labels_rest(s@, p as int, strings_of(items)),
        decreases s@.len() - p,
    {
        let ghost iv = strings_of(items);
        if let Ok((pe, _)) = expect_lchar(s, p, ')') {
            return Ok((pe, items));
        }
        let mut p2 = p;
        if items.len() > 0 {
            p2 = match expect_lchar(s, p, ',') {
                Ok((x, _)) => x,
                Err(e) => {
                    if e.kind == ErrKind::Error {
                        return Err(partial(ErrKind::Failure, p, "grouping labels clause", "label or \")\""));
                    }
                    return Err(e);
                },
            };
            if let Ok((pe, _)) = expect_lchar(s, p2, ')') {
                return Ok((pe, items));
            }
        }
        let q = skip_spaces(s, p2);
        match label_identifier(s, q) {
            Err(e) => {
                if e.kind == ErrKind::Error {
                    return Err(partial(ErrKind::Failure, p2, "grouping labels clause", "label or \")\""));
                }
                return Err(e);
            },
            Ok((p3, l)) => {
                let ghost lv = l@;
                items.push(l);
                proof {
                    assert(strings_of(items) =~= iv.push(lv));
                }
                if p3 <= p {
                    return Ok((p3, items));
                }
                p = p3;
            },
        }
    }
}

pub open spec fn strings_of(v: Vec<String>) -> Seq<Seq<char>> {
    crate::query::parser::ast::strings_view(v@)
}

pub fn aggregate_modifier(s: &Vec<char>, pos: usize) -> (r: Result<(usize, AggregateModifier), PErr>)
    requires
        pos <= s@.len(),
    ensures
        r is Err ==> r->Err_0.pos <= s@.len(),
        rview(r) == spec_aggregate_modifier(s@, pos as int),
        r is Ok ==> pos < r->Ok_0.0 <= s@.len(),
{
    let (r1, by) = keyword_pair(s, pos, "by", "without")?;
    let q = skip_spaces(s, r1);
    match grouping_labels(s, q) {
        Err(e) => {
            if e.kind == ErrKind::Error {
                Err(partial(ErrKind::Failure, r1, "aggregation", "label list"))
            } else {
                Err(e)
            }
        },
        Ok((r2, labels)) => {
            if by {
                Ok((r2, AggregateModifier::By(labels)))
            } else {
                Ok((r2, AggregateModifier::Without(labels)))
            }
        },
    }
}

pub fn label_matching(s: &Vec<char>, pos: usize) -> (r: Result<(usize, LabelMatching), PErr>)
    requires
        pos <= s@.len(),
    ensures
        r is Err ==> r->Err_0.pos <= s@.len(),
        rview(r) == spec_label_matching(s@, pos as int),
        r is Ok ==> pos < r->Ok_0.0 <= s@.len(),
{
    let (r1, on) = keyword_pair(s, pos, "on", "ignoring")?;
    let q = skip_spaces(s, r1);
    let (r2, labels) = grouping_labels(s, q)?;
    if on {
        Ok((r2, LabelMatching::On(labels)))
    } else {
        Ok((r2, LabelMatching::Ignoring(labels)))
    }
}

pub fn group_modifier(s: &Vec<char>, pos: usize) -> (r: Result<(usize, GroupModifier), PErr>)
    requires
        pos <= s@.len(),
    ensures
        r is Err ==> r->Err_0.pos <= s@.len(),
        rview(r) == spec_group_modifier(s@, pos as int),
        r is Ok ==> pos <= r->Ok_0.0 <= s@.len(),
{
    let (r1, left) = keyword_pair(s, pos, "group_left", "group_right")?;
    let q = skip_spaces(s, r1);
    let (r2, labels) = match grouping_labels(s, q) {
        Ok(x) => x,
        Err(e) => {
            if e.kind == ErrKind::Error {
                let empty: Vec<String> = Vec::new();
                assert(strings_of(empty) =~= Seq::<Seq<char>>::empty());
                (r1, empty)
            } else {
                return Err(e);
            }
        },
    };
    if left {
        Ok((r2, GroupModifier::Left(labels)))
    } else {
        Ok((r2, GroupModifier::Right(labels)))
    }
}


pub open spec fn opt_nat(o: Option<usize>) -> Option<nat> {
    match o {
        Some(x) => Some(x as nat),
        None => None,
    }
}

pub open spec fn recoverable<T>(r: SRes<T>) -> bool {
    r matches Err(e) && e.kind == ErrKind::Error
}

fn is_recoverable<T>(r: &Result<(usize, T), PErr>) -> (b: bool)
    ensures
        b == (r matches Err(e) && e.kind == ErrKind::Error),
{
    match r {
        Err(e) => e.kind == ErrKind::Error,
        Ok(_) => false,
    }
}

/// An expression at `pos` whose binary operators all bind tighter than `min_prec`.
pub fn expr(s: &Vec<char>, pos: usize, min_prec: Option<Precedence>) -> (r: Result<(usize, Expr), PErr>)
    requires
        pos <= s@.len(),
    ensures
        r is Err ==> r->Err_0.pos <= s@.len(),
        rview(r) == spec_expr(s@, pos as int, opt_nat(min_prec)),
        r is Ok ==> pos <= r->Ok_0.0 <= s@.len(),
    decreases s@.len() - pos, 2nat, 0nat,
{
    let ghost mp = opt_nat(min_prec);
    let (r, lhs0) = primary(s, pos)?;
    if !(pos < r && r <= s.len()) {
        return Ok((r, lhs0));
    }
    let mut p = r;
    let mut lhs = lhs0;
    loop
        invariant
            pos < p <= s@.len(),
            mp == opt_nat(min_prec),
            spec_expr(s@, pos as int, mp) == spec_expr_loop(s@, p as int, lhs@, mp),
        decreases s@.len() - p,
    {
        if !(p < s.len()) || s[p] == ')' {
            return Ok((p, lhs));
        }
        let q0 = skip_spaces(s, p);
        let (r_op, op) = match binary_op(s, q0) {
            Ok(x) => x,
            Err(e) => {
                if e.kind == ErrKind::Error {
                    return Ok((p, lhs));
                }
                return Err(e);
            },
        };
        let limit: usize = match min_prec {
            Some(m) => m,
            None => 0,
        };
        if op.precedence() <= limit {
            return Ok((p, lhs));
        }
        let q1 = skip_spaces(s, r_op);
        let bkw: [&str; 1] = ["bool"];
        let bval: [bool; 1] = [true];
        assert(strs_view(bkw@) =~= seq!["bool"@]);
        assert(bval@ =~= seq![true]);
        let (r_b, bool_modifier) = match keyword(s, q1, bkw.as_slice(), bval.as_slice()) {
            Ok((x, _)) => (x, true),
            Err(e) => {
                if e.kind == ErrKind::Error {
                    (r_op, false)
                } else {
                    return Err(e);
                }
            },
        };
        let q2 = skip_spaces(s, r_b);
        let (r_m, lm) = match label_matching(s, q2) {
            Ok((x, m)) => (x, Some(m)),
            Err(e) => {
                if e.kind == ErrKind::Error {
                    (r_b, None)
                } else {
                    return Err(e);
                }
            },
        };
        let q3 = skip_spaces(s, r_m);
        let (r_g, gm) = match group_modifier(s, q3) {
            Ok((x, g)) => (x, Some(g)),
            Err(e) => {
                if e.kind == ErrKind::Error {
                    (r_m, None)
                } else {
                    return Err(e);
                }
            },
        };
        let q = skip_spaces(s, r_g);
        if !(p < q && q <= s.len()) {
            return Ok((p, lhs));
        }
        let (r_rhs, rhs) = match expr(s, q, Some(op.precedence())) {
            Ok(x) => x,
            Err(e) => {
                if e.kind == ErrKind::Error {
                    return Err(partial(ErrKind::Failure, r_g, "binary expression", "right-hand expression"));
                }
                return Err(e);
            },
        };
        let k = op.kind();
        if !((!bool_modifier || k == BinaryOpKind::Comparison) && (gm.is_none() || lm.is_some())
            && (gm.is_none() || k != BinaryOpKind::Logical)) {
            return Err(text_err(ErrKind::Abort, p, "invalid binary operation modifiers"));
        }
        let ghost lmv = opt_view(lm);
        let ghost gmv = opt_view(gm);
        let ghost lv = lhs@;
        let ghost rv = rhs@;
        let b = BinaryOperation::new_ex(lhs, op, rhs, bool_modifier, lm, gm);
        let lhs2 = Expr::BinaryOperation(b);
        assert(lhs2@ == ExprV::BinaryOperation {
            lhs: Box::new(lv),
            rhs: Box::new(rv),
            op,
            bool_modifier,
            label_matching: lmv,
            group_modifier: gmv,
        });
        if !(p < r_rhs && r_rhs <= s.len()) {
            return Ok((r_rhs, lhs2));
        }
        p = r_rhs;
        lhs = lhs2;
    }
}

fn primary(s: &Vec<char>, pos: usize) -> (r: Result<(usize, Expr), PErr>)
    requires
        pos <= s@.len(),
    ensures
        r is Err ==> r->Err_0.pos <= s@.len(),
        rview(r) == spec_primary(s@, pos as int),
        r is Ok ==> pos <= r->Ok_0.0 <= s@.len(),
    decreases s@.len() - pos, 1nat, 0nat,
{
    let a = aggregate(s, pos);
    if !is_recoverable(&a) {
        return a;
    }
    let b = paren(s, pos);
    if !is_recoverable(&b) {
        return b;
    }
    let c = match number_literal(s, pos) {
        Ok((x, t)) => Ok((x, Expr::NumberLiteral(t))),
        Err(e) => Err(e),
    };
    if !is_recoverable(&c) {
        return c;
    }
    let d = unary(s, pos);
    if !is_recoverable(&d) {
        return d;
    }
    let f = function_call(s, pos);
    if !is_recoverable(&f) {
        return f;
    }
    match vector_selector(s, pos) {
        Ok((x, v)) => Ok((x, Expr::VectorSelector(v))),
        Err(e) => Err(e),
    }
}

fn aggregate(s: &Vec<char>, pos: usize) -> (r: Result<(usize, Expr), PErr>)
    requires
        pos <= s@.len(),
    ensures
        r is Err ==> r->Err_0.pos <= s@.len(),
        rview(r) == spec_aggregate(s@, pos as int),
        r is Ok ==> pos <= r->Ok_0.0 <= s@.len(),
    decreases s@.len() - pos, 0nat, 0nat,
{
    let (r1, op) = aggregate_op(s, pos)?;
    if r1 < s.len() && (char_is_alnum(s[r1]) || s[r1] == '_') {
        return Err(text_err(ErrKind::Error, pos, "parse error Tag"));
    }
    let q1 = skip_spaces(s, r1);
    let (r2, modifier) = match aggregate_modifier(s, q1) {
        Ok((x, m)) => (x, Some(m)),
        Err(e) => {
            if e.kind == ErrKind::Error {
                (r1, None)
            } else {
                return Err(e);
            }
        },
    };
    let r3 = match expect_lchar(s, r2, '(') {
        Ok((x, _)) => x,
        Err(_) => {
            return Err(partial(ErrKind::Failure, r2, "aggregate expression", "("));
        },
    };
    let q3 = skip_spaces(s, r3);
    let (r4, argument) = if op == AggregateOp::CountValues {
        match string_literal(s, q3) {
            Ok((x, t)) => (x, Some(AggregateArgument::String(t))),
            Err(_) => {
                return Err(partial(ErrKind::Failure, r3, "count_values operator", "string literal"));
            },
        }
    } else if op == AggregateOp::Quantile || op == AggregateOp::TopK || op == AggregateOp::BottomK {
        match number_literal(s, q3) {
            Ok((x, t)) => (x, Some(AggregateArgument::Number(t))),
            Err(_) => {
                return Err(partial(ErrKind::Failure, r3, "quantile, topk, or bottomk operator", "number literal"));
            },
        }
    } else {
        (r3, None)
    };
    let r5 = if argument.is_some() {
        match expect_lchar(s, r4, ',') {
            Ok((x, _)) => x,
            Err(_) => {
                return Err(partial(ErrKind::Failure, r4, "count_values, quantile, topk, or bottomk operator", ","));
            },
        }
    } else {
        r4
    };
    let q = skip_spaces(s, r5);
    if !(pos < q && q <= s.len()) {
        return Err(partial(ErrKind::Failure, r5, "aggregate operator", "valid expression"));
    }
    let (r6, inner) = match expr(s, q, None) {
        Ok(x) => x,
        Err(e) => {
            if e.kind == ErrKind::Error {
                return Err(partial(ErrKind::Failure, r5, "aggregate operator", "valid expression"));
            }
            return Err(e);
        },
    };
    let r7 = match expect_lchar(s, r6, ')') {
        Ok((x, _)) => x,
        Err(_) => {
            return Err(partial(ErrKind::Failure, r6, "aggregate expression", ")"));
        },
    };
    let (r8, modifier) = if modifier.is_some() {
        (r7, modifier)
    } else {
        let q7 = skip_spaces(s, r7);
        match aggregate_modifier(s, q7) {
            Ok((x, m)) => (x, Some(m)),
            Err(e) => {
                if e.kind == ErrKind::Error {
                    (r7, None)
                } else {
                    return Err(e);
                }
            },
        }
    };
    let ghost iv = inner@;
    let a = AggregateOperation::new(op, inner, modifier, argument);
    Ok((r8, Expr::AggregateOperation(a)))
}

fn paren(s: &Vec<char>, pos: usize) -> (r: Result<(usize, Expr), PErr>)
    requires
        pos <= s@.len(),
    ensures
        r is Err ==> r->Err_0.pos <= s@.len(),
        rview(r) == spec_paren(s@, pos as int),
        r is Ok ==> pos <= r->Ok_0.0 <= s@.len(),
    decreases s@.len() - pos, 0nat, 0nat,
{
    let (r1, _) = expect_char(s, pos, '(')?;
    let q = skip_spaces(s, r1);
    if !(pos < q && q <= s.len()) {
        return Err(partial(ErrKind::Failure, r1, "parentheses", "valid expression"));
    }
    let (r2, inner) = match expr(s, q, None) {
        Ok(x) => x,
        Err(e) => {
            if e.kind == ErrKind::Error {
                return Err(partial(ErrKind::Failure, r1, "parentheses", "valid expression"));
            }
            return Err(e);
        },
    };
    match expect_lchar(s, r2, ')') {
        Err(_) => Err(partial(ErrKind::Failure, r2, "parentheses", ")")),
        Ok((r3, _)) => Ok((r3, Expr::Parentheses(Box::new(inner)))),
    }
}

fn unary(s: &Vec<char>, pos: usize) -> (r: Result<(usize, Expr), PErr>)
    requires
        pos <= s@.len(),
    ensures
        r is Err ==> r->Err_0.pos <= s@.len(),
        rview(r) == spec_unary(s@, pos as int),
        r is Ok ==> pos <= r->Ok_0.0 <= s@.len(),
    decreases s@.len() - pos, 0nat, 0nat,
{
    let op = if pos < s.len() && s[pos] == '+' {
        UnaryOp::Add
    } else if pos < s.len() && s[pos] == '-' {
        UnaryOp::Sub
    } else {
        return Err(char_err_minus(pos));
    };
    let q = skip_spaces(s, pos + 1);
    if !(pos < q && q <= s.len()) {
        return Err(char_err_minus(pos));
    }
    let (r2, inner) = expr(s, q, Some(BinaryOp::Mul.precedence()))?;
    Ok((r2, Expr::UnaryOperation(op, Box::new(inner))))
}

fn char_err_minus(pos: usize) -> (e: PErr)
    ensures
        e@ == (PErrV { kind: ErrKind::Error, pos: pos as int, msg: char_msg('-') }),
{
    crate::lexer::char_err(pos, '-')
}

fn func_arg(s: &Vec<char>, p: usize, kind: ArgKind) -> (r: Result<(usize, FunctionCallArg), PErr>)
    requires
        p <= s@.len(),
    ensures
        r is Err ==> r->Err_0.pos <= s@.len(),
        rmap(r, |a: FunctionCallArg| arg_view(a)) == spec_func_arg(s@, p as int, kind),
        r is Ok ==> p <= r->Ok_0.0 <= s@.len(),
    decreases s@.len() - p, 3nat, 0nat,
{
    match kind {
        ArgKind::InstantVector => match expr(s, p, None) {
            Ok((x, e)) => {
                let ghost ev = e@;
                let a = FunctionCallArg::Expr(Box::new(e));
                assert(arg_view(a) == FunctionCallArgV::Expr(Box::new(ev)));
                Ok((x, a))
            },
            Err(e) => {
                if e.kind == ErrKind::Error {
                    Err(partial(ErrKind::Failure, p, "function call", "instant vector"))
                } else {
                    Err(e)
                }
            },
        },
        ArgKind::Number => match number_literal(s, p) {
            Ok((x, t)) => Ok((x, FunctionCallArg::Number(t))),
            Err(_) => Err(partial(ErrKind::Failure, p, "function call", "number literal")),
        },
    }
}

pub open spec fn prepend_args(pre: Seq<FunctionCallArgV>, r: SRes<Seq<FunctionCallArgV>>) -> SRes<Seq<FunctionCallArgV>> {
    match r {
        Ok((p, rest)) => Ok((p, pre + rest)),
        Err(e) => Err(e),
    }
}

fn func_args(s: &Vec<char>, p0: usize, kinds: &Vec<ArgKind>) -> (r: Result<(usize, Vec<FunctionCallArg>), PErr>)
    requires
        p0 <= s@.len(),
    ensures
        r is Err ==> r->Err_0.pos <= s@.len(),
        rmap(r, |v: Vec<FunctionCallArg>| args_view(v@)) == spec_func_args(s@, p0 as int, kinds@),
        r is Ok ==> p0 <= r->Ok_0.0 <= s@.len(),
    decreases s@.len() - p0, 5nat, kinds@.len(),
{
    let mut acc: Vec<FunctionCallArg> = Vec::new();
    let mut p = p0;
    let mut i: usize = 0;
    assert(kinds@.skip(0) =~= kinds@);
    assert(args_view(acc@) =~= Seq::<FunctionCallArgV>::empty());
    assert(prepend_args(args_view(acc@), spec_func_args(s@, p0 as int, kinds@)) =~= spec_func_args(s@, p0 as int, kinds@)) by {
        match spec_func_args(s@, p0 as int, kinds@) {
            Ok((x, rest)) => { assert(Seq::<FunctionCallArgV>::empty() + rest =~= rest); },
            Err(_) => {},
        }
    }
    while i < kinds.len()
        invariant
            i <= kinds@.len(),
            p0 <= p <= s@.len(),
            spec_func_args(s@, p0 as int, kinds@) == prepend_args(args_view(acc@), spec_func_args(s@, p as int, kinds@.skip(i as int))),
        decreases kinds@.len() - i,
    {
        let ghost ks = kinds@.skip(i as int);
        assert(ks[0] == kinds@[i as int]);
        assert(ks.drop_first() =~= kinds@.skip(i + 1));
        let ghost pre = args_view(acc@);
        let ghost old_acc = acc@;
        let (x, a) = func_arg(s, p, kinds[i])?;
        let ghost av = arg_view(a);
        acc.push(a);
        assert(acc@.drop_last() =~= old_acc);
        assert(args_view(acc@) =~= pre.push(av));
        if !(p <= x && x <= s.len()) {
            assert(pre.push(av) =~= pre + seq![av]);
            return Ok((x, acc));
        }
        proof {
            match spec_func_args(s@, x as int, kinds@.skip(i + 1)) {
                Ok((r2, rest)) => {
                    assert(pre + (seq![av] + rest) =~= pre.push(av) + rest);
                },
                Err(_) => {},
            }
        }
        p = x;
        i = i + 1;
    }
    assert(kinds@.skip(i as int) =~= Seq::<ArgKind>::empty());
    assert(args_view(acc@) + Seq::<FunctionCallArgV>::empty() =~= args_view(acc@));
    Ok((p, acc))
}

fn arg_kinds_of(name: FunctionName) -> (v: Vec<ArgKind>)
    ensures
        v@ == arg_kinds(name),
{
    let v = match name {
        FunctionName::CountOverTime | FunctionName::LastOverTime | FunctionName::MaxOverTime
        | FunctionName::MinOverTime | FunctionName::SumOverTime | FunctionName::AvgOverTime
        | FunctionName::LabelReplace => vec![ArgKind::InstantVector],
        FunctionName::Clamp => vec![ArgKind::InstantVector, ArgKind::Number, ArgKind::Number],
        FunctionName::ClampMax | FunctionName::ClampMin => vec![ArgKind::InstantVector, ArgKind::Number],
        FunctionName::Vector => vec![ArgKind::Number],
    };
    assert(v@ =~= arg_kinds(name));
    v
}

fn function_call(s: &Vec<char>, pos: usize) -> (r: Result<(usize, Expr), PErr>)
    requires
        pos <= s@.len(),
    ensures
        r is Err ==> r->Err_0.pos <= s@.len(),
        rview(r) == spec_function_call(s@, pos as int),
        r is Ok ==> pos <= r->Ok_0.0 <= s@.len(),
    decreases s@.len() - pos, 0nat, 0nat,
{
    let (r1, name) = function_name(s, pos)?;
    let (r2, _) = expect_lchar(s, r1, '(')?;
    if !(pos < r2 && r2 <= s.len()) {
        return Err(partial(ErrKind::Failure, r2, "function call", "instant vector"));
    }
    let kinds = arg_kinds_of(name);
    let (r3, args) = func_args(s, r2, &kinds)?;
    match expect_lchar(s, r3, ')') {
        Err(_) => Err(partial(ErrKind::Failure, r3, "function call", ")")),
        Ok((r4, _)) => Ok((r4, Expr::FunctionCall(FunctionCall { name, args }))),
    }
}

/// The operators of an expression bind as their precedence says: each binary
/// operation at the top of `e` does not stand below `min_prec`, and its right
/// operand holds only operations that bind tighter than it (so operators of
/// one precedence group to the left). Parenthesized and other primary
/// expressions are not looked into.
pub open spec fn binds_tighter(e: ExprV, min_prec: Option<nat>) -> bool
    decreases e,
{
    match e {
        ExprV::BinaryOperation { lhs, rhs, op, .. } => !below_min(op, min_prec) && binds_tighter(*lhs, min_prec)
            && binds_tighter(*rhs, Some(op.spec_precedence())),
        _ => true,
    }
}

proof fn lemma_loop_binds(s: Seq<char>, p: int, lhs: ExprV, min_prec: Option<nat>)
    requires
        binds_tighter(lhs, min_prec),
    ensures
        spec_expr_loop(s, p, lhs, min_prec) matches Ok((_, e)) ==> binds_tighter(e, min_prec),
    decreases s.len() - p, 4nat, 0nat,
{
    if !(0 <= p < s.len()) || s[p] == ')' {
    } else {
        match spec_keyword(s, skip_ws(s, p), binary_kws(), binary_ops()) {
            Err(_) => {},
            Ok((r_op, op)) => if !below_min(op, min_prec) {
                let b = match spec_keyword(s, skip_ws(s, r_op), seq!["bool"@], seq![true]) {
                    Ok((r, _)) => Ok((r, true)),
                    Err(e) => if e.kind == ErrKind::Error { Ok((r_op, false)) } else { Err(e) },
                };
                match b {
                    Err(_) => {},
                    Ok((r_b, bool_modifier)) => {
                        let lm = match spec_label_matching(s, skip_ws(s, r_b)) {
                            Ok((r, m)) => Ok((r, Some(m))),
                            Err(e) => if e.kind == ErrKind::Error { Ok((r_b, None)) } else { Err(e) },
                        };
                        match lm {
                            Err(_) => {},
                            Ok((r_m, label_matching)) => {
                                let gm = match spec_group_modifier(s, skip_ws(s, r_m)) {
                                    Ok((r, g)) => Ok((r, Some(g))),
                                    Err(e) => if e.kind == ErrKind::Error { Ok((r_m, None)) } else { Err(e) },
                                };
                                match gm {
                                    Err(_) => {},
                                    Ok((r_g, group_modifier)) => {
                                        let q = skip_ws(s, r_g);
                                        if p < q <= s.len() {
                                            lemma_expr_binds(s, q, Some(op.spec_precedence()));
                                            match spec_expr(s, q, Some(op.spec_precedence())) {
                                                Err(_) => {},
                                                Ok((r_rhs, rhs)) => if binary_modifiers_ok(op, bool_modifier, label_matching is Some, group_modifier is Some) {
                                                    let lhs2 = ExprV::BinaryOperation {
                                                        lhs: Box::new(lhs),
                                                        rhs: Box::new(rhs),
                                                        op,
                                                        bool_modifier,
                                                        label_matching,
                                                        group_modifier,
                                                    };
                                                    assert(binds_tighter(lhs2, min_prec));
                                                    if p < r_rhs <= s.len() {
                                                        lemma_loop_binds(s, r_rhs, lhs2, min_prec);
                                                    }
                                                },
                                            }
                                        }
                                    },
                                }
                            },
                        }
                    },
                }
            },
        }
    }
}

/// A primary expression is no binary operation.
proof fn lemma_primary_not_binary(s: Seq<char>, pos: int)
    ensures
        spec_primary(s, pos) matches Ok((_, e)) ==> !(e is BinaryOperation),
{
    reveal_with_fuel(spec_aggregate, 1);
    reveal_with_fuel(spec_paren, 1);
    reveal_with_fuel(spec_unary, 1);
    reveal_with_fuel(spec_function_call, 1);
}

proof fn lemma_expr_binds(s: Seq<char>, pos: int, min_prec: Option<nat>)
    ensures
        spec_expr(s, pos, min_prec) matches Ok((_, e)) ==> binds_tighter(e, min_prec),
    decreases s.len() - pos, 2nat, 1nat,
{
    if 0 <= pos <= s.len() {
        match spec_primary(s, pos) {
            Err(_) => {},
            Ok((r, lhs)) => if pos < r <= s.len() {
                assert(binds_tighter(lhs, min_prec)) by {
                    lemma_primary_not_binary(s, pos);
                }
                lemma_loop_binds(s, r, lhs, min_prec);
            } else {
                lemma_primary_not_binary(s, pos);
            },
        }
    }
}

/// Operators at one precedence group to the left, and an operator of higher
/// precedence binds tighter than one of lower precedence: in every
/// expression parsed, no binary operation stands directly as the right
/// operand of an operation that binds as tightly or tighter.
pub proof fn law_operator_precedence(s: Seq<char>, pos: int)
    ensures
        spec_expr(s, pos, None) matches Ok((_, e)) ==> binds_tighter(e, None),
{
    lemma_expr_binds(s, pos, None);
}

/// Operators of one precedence group to the left: in a parsed expression, the
/// right operand of a binary operation is never itself, unparenthesized, a
/// binary operation of the same or a lower precedence; so `a - b - c` reads
/// `(a - b) - c`, and `a * b + c` never reads `a * (b + c)`.
pub proof fn law_left_associative(s: Seq<char>, pos: int)
    ensures
        spec_expr(s, pos, None) matches Ok((_, ExprV::BinaryOperation { rhs, op, .. }))
            ==> (*rhs matches ExprV::BinaryOperation { op: op2, .. } ==> op2.spec_precedence() > op.spec_precedence()),
{
    lemma_expr_binds(s, pos, None);
    match spec_expr(s, pos, None) {
        Ok((_, ExprV::BinaryOperation { rhs, op, .. })) => {
            assert(binds_tighter(*rhs, Some(op.spec_precedence())));
        },
        _ => {},
    }
}

/// The message for input left over after a query: what remains of it.
pub open spec fn remaining_msg(rest: Seq<char>) -> MsgV {
    MsgV::Text("unexpected '"@ + unexpected_text(rest) + "'"@)
}

/// Parses a whole query: an expression from the start of `input`; input left
/// over after it is a failure that names what remains.
pub fn parse_query(input: &str) -> (r: Result<Expr, ParseErr>)
    ensures
        match r {
            Ok(e) => spec_expr(input@, 0, None) matches Ok((p, v)) && p == input@.len() && e@ == v,
            Err(pe) => {
                &&& pe.error_spec().span_spec().input() == input@
                &&& match spec_expr(input@, 0, None) {
                    Ok((p, _)) => p < input@.len() && pe.kind_spec() == ErrKind::Failure
                        && pe.error_spec().span_spec().index() == p
                        && pe.error_spec().msg_spec() == remaining_msg(input@.skip(p)),
                    Err(e) => pe.kind_spec() == e.kind
                        && pe.error_spec().span_spec().index() == e.pos
                        && pe.error_spec().msg_spec() == e.msg,
                }
            },
        },
{
    let s = to_chars(input);
    match expr(&s, 0, None) {
        Ok((p, e)) => {
            if p < s.len() {
                let mut m: Vec<char> = Vec::new();
                push_str(&mut m, "unexpected '\"");
                push_range(&mut m, &s, p, s.len());
                push_str(&mut m, "\"'");
                proof {
                    reveal_strlit("\"");
                    reveal_strlit("unexpected '\"");
                    reveal_strlit("unexpected '");
                    reveal_strlit("\"'");
                    reveal_strlit("'");
                    assert(p < s@.len());
                    assert(s@.subrange(p as int, s@.len() as int) =~= s@.skip(p as int));
                    assert(m@ =~= "unexpected '"@ + unexpected_text(s@.skip(p as int)) + "'"@);
                }
                let msg = Msg::Text(string_from_chars(m.as_slice()));
                Err(to_parse_err(&s, perr(ErrKind::Failure, p, msg)))
            } else {
                Ok(e)
            }
        },
        Err(e) => Err(to_parse_err(&s, e)),
    }
}

/// How each binary operator is written.
pub open spec fn binary_op_text(x: BinaryOp) -> Seq<char> {
    match x {
        BinaryOp::Add => "+"@,
        BinaryOp::Div => "/"@,
        BinaryOp::Mul => "*"@,
        BinaryOp::Mod => "%"@,
        BinaryOp::Pow => "^"@,
        BinaryOp::Sub => "-"@,
        BinaryOp::Eql => "=="@,
        BinaryOp::Gte => ">="@,
        BinaryOp::Gtr => ">"@,
        BinaryOp::Lte => "<="@,
        BinaryOp::Lss => "<"@,
        BinaryOp::Neq => "!="@,
        BinaryOp::And => "and"@,
        BinaryOp::Unless => "unless"@,
        BinaryOp::Or => "or"@,
    }
}

/// How each function is called.
pub open spec fn function_text(x: FunctionName) -> Seq<char> {
    match x {
        FunctionName::ClampMax => "clamp_max"@,
        FunctionName::ClampMin => "clamp_min"@,
        FunctionName::Clamp => "clamp"@,
        FunctionName::AvgOverTime => "avg_over_time"@,
        FunctionName::CountOverTime => "count_over_time"@,
        FunctionName::LastOverTime => "last_over_time"@,
        FunctionName::MaxOverTime => "max_over_time"@,
        FunctionName::MinOverTime => "min_over_time"@,
        FunctionName::SumOverTime => "sum_over_time"@,
        FunctionName::LabelReplace => "label_replace"@,
        FunctionName::Vector => "vector"@,
    }
}

/// How each aggregation operator is written.
pub open spec fn aggregate_text(x: AggregateOp) -> Seq<char> {
    match x {
        AggregateOp::Avg => "avg"@,
        AggregateOp::BottomK => "bottomk"@,
        AggregateOp::CountValues => "count_values"@,
        AggregateOp::Count => "count"@,
        AggregateOp::Group => "group"@,
        AggregateOp::Max => "max"@,
        AggregateOp::Min => "min"@,
        AggregateOp::Quantile => "quantile"@,
        AggregateOp::StdDev => "stddev"@,
        AggregateOp::StdVar => "stdvar"@,
        AggregateOp::Sum => "sum"@,
        AggregateOp::TopK => "topk"@,
    }
}

pub proof fn lemma_keyword_text<T>(s: Seq<char>, pos: int, kws: Seq<Seq<char>>, vals: Seq<T>, text: spec_fn(T) -> Seq<char>)
    requires
        kws.len() <= vals.len(),
        forall|i: int| 0 <= i < kws.len() ==> text(#[trigger] vals[i]) == kws[i],
    ensures
        spec_keyword(s, pos, kws, vals) matches Ok((r, x)) ==> r == pos + text(x).len() && tag_nocase(s, pos, text(x)) == TagMatch::Yes,
        spec_keyword(s, pos, kws, vals) matches Ok((_, x)) ==> exists|i: int| 0 <= i < kws.len() && vals[i] == x,
{
    lemma_keyword_alt(s, pos, kws);
    match keyword_alt(s, pos, kws) {
        Some((i, false)) => {
            assert(text(vals[i]) == kws[i]);
        },
        _ => {},
    }
}

/// A binary operator is read as the operator that its text spells (ignoring
/// case): `>=` is `Gte`, `<=` is `Lte`, `and` is `And`, and so on.
pub proof fn law_binary_op_text(s: Seq<char>, pos: int)
    ensures
        spec_keyword(s, pos, binary_kws(), binary_ops()) matches Ok((r, x))
            ==> r == pos + binary_op_text(x).len() && tag_nocase(s, pos, binary_op_text(x)) == TagMatch::Yes,
{
    assert(binary_op_text(binary_ops()[0]) == binary_kws()[0]);
    assert(binary_op_text(binary_ops()[1]) == binary_kws()[1]);
    assert(binary_op_text(binary_ops()[2]) == binary_kws()[2]);
    assert(binary_op_text(binary_ops()[3]) == binary_kws()[3]);
    assert(binary_op_text(binary_ops()[4]) == binary_kws()[4]);
    assert(binary_op_text(binary_ops()[5]) == binary_kws()[5]);
    assert(binary_op_text(binary_ops()[6]) == binary_kws()[6]);
    assert(binary_op_text(binary_ops()[7]) == binary_kws()[7]);
    assert(binary_op_text(binary_ops()[8]) == binary_kws()[8]);
    assert(binary_op_text(binary_ops()[9]) == binary_kws()[9]);
    assert(binary_op_text(binary_ops()[10]) == binary_kws()[10]);
    assert(binary_op_text(binary_ops()[11]) == binary_kws()[11]);
    assert(binary_op_text(binary_ops()[12]) == binary_kws()[12]);
    assert(binary_op_text(binary_ops()[13]) == binary_kws()[13]);
    assert(binary_op_text(binary_ops()[14]) == binary_kws()[14]);
    assert forall|i: int| 0 <= i < binary_kws().len() implies binary_op_text(#[trigger] binary_ops()[i]) == binary_kws()[i] by {
        assert(i == 0 || i == 1 || i == 2 || i == 3 || i == 4 || i == 5 || i == 6 || i == 7 || i == 8 || i == 9 || i == 10 || i == 11 || i == 12 || i == 13 || i == 14);
    }
    lemma_keyword_text(s, pos, binary_kws(), binary_ops(), |x: BinaryOp| binary_op_text(x));
}

/// A function name is read as the function it spells (ignoring case):
/// `max_over_time` is `MaxOverTime`, `min_over_time` is `MinOverTime`, and so on.
pub proof fn law_function_name_text(s: Seq<char>, pos: int)
    ensures
        spec_keyword(s, pos, function_kws(), function_names()) matches Ok((r, x))
            ==> r == pos + function_text(x).len() && tag_nocase(s, pos, function_text(x)) == TagMatch::Yes,
{
    assert(function_text(function_names()[0]) == function_kws()[0]);
    assert(function_text(function_names()[1]) == function_kws()[1]);
    assert(function_text(function_names()[2]) == function_kws()[2]);
    assert(function_text(function_names()[3]) == function_kws()[3]);
    assert(function_text(function_names()[4]) == function_kws()[4]);
    assert(function_text(function_names()[5]) == function_kws()[5]);
    assert(function_text(function_names()[6]) == function_kws()[6]);
    assert(function_text(function_names()[7]) == function_kws()[7]);
    assert(function_text(function_names()[8]) == function_kws()[8]);
    assert forall|i: int| 0 <= i < function_kws().len() implies function_text(#[trigger] function_names()[i]) == function_kws()[i] by {
        assert(i == 0 || i == 1 || i == 2 || i == 3 || i == 4 || i == 5 || i == 6 || i == 7 || i == 8);
    }
    lemma_keyword_text(s, pos, function_kws(), function_names(), |x: FunctionName| function_text(x));
}

/// An aggregation keyword is read as the operator it spells (ignoring case):
/// `max` is `Max`, `avg` is `Avg`, and so on.
pub proof fn law_aggregate_op_text(s: Seq<char>, pos: int)
    ensures
        spec_keyword(s, pos, aggregate_kws(), aggregate_ops()) matches Ok((r, x))
            ==> r == pos + aggregate_text(x).len() && tag_nocase(s, pos, aggregate_text(x)) == TagMatch::Yes,
{
    assert(aggregate_text(aggregate_ops()[0]) == aggregate_kws()[0]);
    assert(aggregate_text(aggregate_ops()[1]) == aggregate_kws()[1]);
    assert(aggregate_text(aggregate_ops()[2]) == aggregate_kws()[2]);
    assert(aggregate_text(aggregate_ops()[3]) == aggregate_kws()[3]);
    assert(aggregate_text(aggregate_ops()[4]) == aggregate_kws()[4]);
    assert(aggregate_text(aggregate_ops()[5]) == aggregate_kws()[5]);
    assert(aggregate_text(aggregate_ops()[6]) == aggregate_kws()[6]);
    assert(aggregate_text(aggregate_ops()[7]) == aggregate_kws()[7]);
    assert(aggregate_text(aggregate_ops()[8]) == aggregate_kws()[8]);
    assert(aggregate_text(aggregate_ops()[9]) == aggregate_kws()[9]);
    assert(aggregate_text(aggregate_ops()[10]) == aggregate_kws()[10]);
    assert(aggregate_text(aggregate_ops()[11]) == aggregate_kws()[11]);
    assert forall|i: int| 0 <= i < aggregate_kws().len() implies aggregate_text(#[trigger] aggregate_ops()[i]) == aggregate_kws()[i] by {
        assert(i == 0 || i == 1 || i == 2 || i == 3 || i == 4 || i == 5 || i == 6 || i == 7 || i == 8 || i == 9 || i == 10 || i == 11);
    }
    lemma_keyword_text(s, pos, aggregate_kws(), aggregate_ops(), |x: AggregateOp| aggregate_text(x));
}

/// `by` gives a `by` modifier and `without` a `without` modifier (the
/// keyword spelled at the start, ignoring case).
pub proof fn law_aggregate_modifier_keyword(s: Seq<char>, pos: int)
    ensures
        spec_aggregate_modifier(s, pos) matches Ok((_, AggregateModifierV::By(_))) ==> tag_nocase(s, pos, "by"@) == TagMatch::Yes,
        spec_aggregate_modifier(s, pos) matches Ok((_, AggregateModifierV::Without(_))) ==> tag_nocase(s, pos, "without"@) == TagMatch::Yes,
{
    let kws = seq!["by"@, "without"@];
    let vals = seq![true, false];
    let text = |b: bool| if b { "by"@ } else { "without"@ };
    assert(text(vals[0]) == kws[0] && text(vals[1]) == kws[1]);
    lemma_keyword_text(s, pos, kws, vals, text);
}

/// `on` gives an `on` clause and `ignoring` an `ignoring` clause.
pub proof fn law_label_matching_keyword(s: Seq<char>, pos: int)
    ensures
        spec_label_matching(s, pos) matches Ok((_, LabelMatchingV::On(_))) ==> tag_nocase(s, pos, "on"@) == TagMatch::Yes,
        spec_label_matching(s, pos) matches Ok((_, LabelMatchingV::Ignoring(_))) ==> tag_nocase(s, pos, "ignoring"@) == TagMatch::Yes,
{
    let kws = seq!["on"@, "ignoring"@];
    let vals = seq![true, false];
    let text = |b: bool| if b { "on"@ } else { "ignoring"@ };
    assert(text(vals[0]) == kws[0] && text(vals[1]) == kws[1]);
    lemma_keyword_text(s, pos, kws, vals, text);
}

/// `group_left` gives a left group modifier and `group_right` a right one.
pub proof fn law_group_modifier_keyword(s: Seq<char>, pos: int)
    ensures
        spec_group_modifier(s, pos) matches Ok((_, GroupModifierV::Left(_))) ==> tag_nocase(s, pos, "group_left"@) == TagMatch::Yes,
        spec_group_modifier(s, pos) matches Ok((_, GroupModifierV::Right(_))) ==> tag_nocase(s, pos, "group_right"@) == TagMatch::Yes,
{
    let kws = seq!["group_left"@, "group_right"@];
    let vals = seq![true, false];
    let text = |b: bool| if b { "group_left"@ } else { "group_right"@ };
    assert(text(vals[0]) == kws[0] && text(vals[1]) == kws[1]);
    lemma_keyword_text(s, pos, kws, vals, text);
}

/// A leading `-` negates and a leading `+` keeps the sign.
pub proof fn law_unary_sign(s: Seq<char>, pos: int)
    ensures
        spec_unary(s, pos) matches Ok((_, ExprV::UnaryOperation(op, _)))
            ==> 0 <= pos < s.len() && s[pos] == (if op == UnaryOp::Sub { '-' } else { '+' }),
{
    reveal_with_fuel(spec_unary, 1);
}

} // verus!
