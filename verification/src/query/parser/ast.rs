//! Syntax tree of queries, with its mathematical view.
use vstd::prelude::*;
use crate::error::Error;
use crate::model::labels::{matcher_accepts, name_label, LabelMatcher, LabelMatcherV, MatchOp};

verus! {

/// Views of a vector of strings.
pub open spec fn strings_view(v: Seq<String>) -> Seq<Seq<char>> {
    v.map_values(|s: String| s@)
}

/// Views of a vector of label matchers.
pub open spec fn matchers_view(v: Seq<LabelMatcher>) -> Seq<LabelMatcherV> {
    v.map_values(|m: LabelMatcher| m@)
}

#[derive(Clone, Copy, Debug, PartialEq, Eq, Structural)]
pub enum UnaryOp {
    Add,
    Sub,
}

#[derive(Clone, Copy, Debug, PartialEq, Eq, Structural)]
pub enum BinaryOp {
    Add,
    Div,
    Mul,
    Mod,
    Pow,
    Sub,
    Eql,
    Gte,
    Gtr,
    Lss,
    Lte,
    Neq,
    And,
    Unless,
    Or,
}

#[derive(Clone, Copy, Debug, PartialEq, Eq, Structural)]
pub enum BinaryOpKind {
    Arithmetic,
    Comparison,
    Logical,
}

pub type Precedence = usize;

impl BinaryOp {
    pub open spec fn spec_precedence(self) -> nat {
        match self {
            BinaryOp::Or => 10,
            BinaryOp::And | BinaryOp::Unless => 20,
            BinaryOp::Eql | BinaryOp::Gte | BinaryOp::Gtr | BinaryOp::Lss | BinaryOp::Lte
            | BinaryOp::Neq => 30,
            BinaryOp::Add | BinaryOp::Sub => 40,
            BinaryOp::Mul | BinaryOp::Div | BinaryOp::Mod => 50,
            BinaryOp::Pow => 60,
        }
    }

    pub open spec fn spec_kind(self) -> BinaryOpKind {
        match self {
            BinaryOp::Add | BinaryOp::Sub | BinaryOp::Mul | BinaryOp::Div | BinaryOp::Mod
            | BinaryOp::Pow => BinaryOpKind::Arithmetic,
            BinaryOp::Eql | BinaryOp::Gte | BinaryOp::Gtr | BinaryOp::Lss | BinaryOp::Lte
            | BinaryOp::Neq => BinaryOpKind::Comparison,
            BinaryOp::And | BinaryOp::Unless | BinaryOp::Or => BinaryOpKind::Logical,
        }
    }

    /// Binding strength: `or` < `and`/`unless` < comparisons < `+ -` < `* / %` < `^`.
    pub fn precedence(self) -> (p: Precedence)
        ensures
            p == self.spec_precedence(),
    {
        match self {
            BinaryOp::Or => 10,
            BinaryOp::And | BinaryOp::Unless => 20,
            BinaryOp::Eql | BinaryOp::Gte | BinaryOp::Gtr | BinaryOp::Lss | BinaryOp::Lte
            | BinaryOp::Neq => 30,
            BinaryOp::Add | BinaryOp::Sub => 40,
            BinaryOp::Mul | BinaryOp::Div | BinaryOp::Mod => 50,
            BinaryOp::Pow => 60,
        }
    }

    pub fn kind(self) -> (k: BinaryOpKind)
        ensures
            k == self.spec_kind(),
    {
        match self {
            BinaryOp::Add | BinaryOp::Sub | BinaryOp::Mul | BinaryOp::Div | BinaryOp::Mod
            | BinaryOp::Pow => BinaryOpKind::Arithmetic,
            BinaryOp::Eql | BinaryOp::Gte | BinaryOp::Gtr | BinaryOp::Lss | BinaryOp::Lte
            | BinaryOp::Neq => BinaryOpKind::Comparison,
            BinaryOp::And | BinaryOp::Unless | BinaryOp::Or => BinaryOpKind::Logical,
        }
    }
}

#[derive(Clone, Copy, Debug, PartialEq, Eq, Structural)]
pub enum AggregateOp {
    Avg,
    BottomK,
    Count,
    CountValues,
    Group,
    Max,
    Min,
    Quantile,
    StdDev,
    StdVar,
    Sum,
    TopK,
}

impl AggregateOp {
    /// Operators that take a leading argument: a string for `count_values`, a
    /// number for `quantile`, `topk` and `bottomk`.
    pub open spec fn needs_argument(self) -> bool {
        self == AggregateOp::CountValues || self == AggregateOp::TopK || self == AggregateOp::BottomK
            || self == AggregateOp::Quantile
    }
}

#[derive(Clone, Copy, Debug, PartialEq, Eq, Structural)]
pub enum FunctionName {
    Clamp,
    ClampMax,
    ClampMin,
    LabelReplace,
    Vector,
    AvgOverTime,
    CountOverTime,
    LastOverTime,
    MaxOverTime,
    MinOverTime,
    SumOverTime,
}

/// `by (labels)` or `without (labels)` of an aggregation; the labels form a set.
#[derive(Clone, Debug, PartialEq, Eq)]
pub enum AggregateModifier {
    By(Vec<String>),
    Without(Vec<String>),
}

pub enum AggregateModifierV {
    By(Set<Seq<char>>),
    Without(Set<Seq<char>>),
}

impl View for AggregateModifier {
    type V = AggregateModifierV;

    open spec fn view(&self) -> AggregateModifierV {
        match self {
            AggregateModifier::By(v) => AggregateModifierV::By(strings_view(v@).to_set()),
            AggregateModifier::Without(v) => AggregateModifierV::Without(strings_view(v@).to_set()),
        }
    }
}

/// The leading argument of an aggregation; a number is kept as its literal text.
#[derive(Clone, Debug, PartialEq, Eq)]
pub enum AggregateArgument {
    String(String),
    Number(String),
}

pub enum AggregateArgumentV {
    String(Seq<char>),
    Number(Seq<char>),
}

impl View for AggregateArgument {
    type V = AggregateArgumentV;

    open spec fn view(&self) -> AggregateArgumentV {
        match self {
            AggregateArgument::String(s) => AggregateArgumentV::String(s@),
            AggregateArgument::Number(s) => AggregateArgumentV::Number(s@),
        }
    }
}

/// `on (labels)` or `ignoring (labels)` of a binary operation; the labels form a set.
#[derive(Clone, Debug, PartialEq, Eq)]
pub enum LabelMatching {
    On(Vec<String>),
    Ignoring(Vec<String>),
}

pub enum LabelMatchingV {
    On(Set<Seq<char>>),
    Ignoring(Set<Seq<char>>),
}

impl View for LabelMatching {
    type V = LabelMatchingV;

    open spec fn view(&self) -> LabelMatchingV {
        match self {
            LabelMatching::On(v) => LabelMatchingV::On(strings_view(v@).to_set()),
            LabelMatching::Ignoring(v) => LabelMatchingV::Ignoring(strings_view(v@).to_set()),
        }
    }
}

/// `group_left (labels)` or `group_right (labels)` of a binary operation.
#[derive(Clone, Debug, PartialEq, Eq)]
pub enum GroupModifier {
    Left(Vec<String>),
    Right(Vec<String>),
}

pub enum GroupModifierV {
    Left(Seq<Seq<char>>),
    Right(Seq<Seq<char>>),
}

impl View for GroupModifier {
    type V = GroupModifierV;

    open spec fn view(&self) -> GroupModifierV {
        match self {
            GroupModifier::Left(v) => GroupModifierV::Left(strings_view(v@)),
            GroupModifier::Right(v) => GroupModifierV::Right(strings_view(v@)),
        }
    }
}

pub open spec fn opt_view<T: View>(o: Option<T>) -> Option<T::V> {
    match o {
        Some(x) => Some(x@),
        None => None,
    }
}

/// A vector selector: label matchers and, for a range selector, a duration in
/// milliseconds.
#[derive(Clone, Debug, PartialEq, Eq)]
pub struct VectorSelector {
    matchers: Vec<LabelMatcher>,
    duration: Option<u128>,
}

pub struct VectorSelectorV {
    pub matchers: Seq<LabelMatcherV>,
    pub duration: Option<nat>,
}

impl View for VectorSelector {
    type V = VectorSelectorV;

    closed spec fn view(&self) -> VectorSelectorV {
        VectorSelectorV {
            matchers: matchers_view(self.matchers@),
            duration: match self.duration {
                Some(d) => Some(d as nat),
                None => None,
            },
        }
    }
}

/// Every matcher accepts the empty value.
pub open spec fn matches_everything(ms: Seq<LabelMatcherV>) -> bool {
    forall|i: int| 0 <= i < ms.len() ==> matcher_accepts(#[trigger] ms[i], Seq::empty())
}

/// Some matcher is on the metric name.
pub open spec fn has_name_matcher(ms: Seq<LabelMatcherV>) -> bool {
    exists|i: int| 0 <= i < ms.len() && (#[trigger] ms[i]).label == name_label()
}

pub open spec fn ambiguous_name_msg() -> Seq<char> {
    "potentially ambiguous metric name match"@
}

pub open spec fn empty_selector_msg() -> Seq<char> {
    "vector selector must contain at least one non-empty matcher"@
}

/// What `VectorSelector::new` gives: a metric name together with a name matcher
/// is ambiguous; a selector without a name must have a matcher that rejects the
/// empty value; the name becomes a last `__name__="name"` matcher.
pub open spec fn spec_selector_new(name: Option<Seq<char>>, ms: Seq<LabelMatcherV>, duration: Option<nat>) -> Result<VectorSelectorV, Seq<char>> {
    if name is Some && has_name_matcher(ms) {
        Err(ambiguous_name_msg())
    } else if name is None && matches_everything(ms) {
        Err(empty_selector_msg())
    } else {
        Ok(VectorSelectorV {
            matchers: match name {
                Some(n) => ms.push(LabelMatcherV { label: name_label(), op: MatchOp::Eql, value: n }),
                None => ms,
            },
            duration,
        })
    }
}

impl VectorSelector {
    pub fn new(name: Option<String>, matchers: Vec<LabelMatcher>, duration: Option<u128>) -> (r: Result<VectorSelector, Error>)
        ensures
            match (r, spec_selector_new(opt_view(name), matchers_view(matchers@), match duration {
                Some(d) => Some(d as nat),
                None => None,
            })) {
                (Ok(v), Ok(w)) => v@ == w,
                (Err(e), Err(m)) => e.message_spec() == m,
                _ => false,
            },
    {
        let mut matchers = matchers;
        let ghost ms = matchers_view(matchers@);
        let mut everything = true;
        let mut has_name = false;
        let mut i: usize = 0;
        while i < matchers.len()
            invariant
                i <= matchers@.len(),
                ms == matchers_view(matchers@),
                everything == (forall|j: int| 0 <= j < i ==> matcher_accepts(#[trigger] ms[j], Seq::empty())),
                has_name == (exists|j: int| 0 <= j < i && (#[trigger] ms[j]).label == name_label()),
            decreases matchers@.len() - i,
        {
            let m = &matchers[i];
            let acc = m.matches("");
            proof { reveal_strlit(""); }
            assert(""@ =~= Seq::<char>::empty());
            everything = everything && acc;
            has_name = has_name || m.is_name_matcher();
            i = i + 1;
            proof {
                assert(ms[i - 1] == matchers@[i - 1]@);
                if !everything {
                    if acc {
                        let j = choose|j: int| 0 <= j < i - 1 && !matcher_accepts(#[trigger] ms[j], Seq::empty());
                        assert(!matcher_accepts(ms[j], Seq::empty()));
                    }
                }
                if has_name {
                    if !(ms[i - 1].label == name_label()) {
                        let j = choose|j: int| 0 <= j < i - 1 && (#[trigger] ms[j]).label == name_label();
                        assert(0 <= j < i && ms[j].label == name_label());
                    }
                }
            }
        }
        match name {
            Some(n) => {
                if has_name {
                    return Err(Error::new("potentially ambiguous metric name match"));
                }
                matchers.push(LabelMatcher::name_matcher(n));
                proof {
                    assert(matchers_view(matchers@) =~= ms.push(LabelMatcherV { label: name_label(), op: MatchOp::Eql, value: n@ }));
                }
                Ok(VectorSelector { matchers, duration })
            },
            None => {
                if everything {
                    return Err(Error::new("vector selector must contain at least one non-empty matcher"));
                }
                Ok(VectorSelector { matchers, duration })
            },
        }
    }

    pub fn matchers(&self) -> (m: &Vec<LabelMatcher>)
        ensures
            matchers_view(m@) == self@.matchers,
    {
        &self.matchers
    }

    /// The range of a range selector, in milliseconds.
    pub fn duration(&self) -> (d: Option<u128>)
        ensures
            match d {
                Some(x) => self@.duration == Some(x as nat),
                None => self@.duration is None,
            },
    {
        self.duration
    }
}


/// A query expression. A number literal is kept as its text.
#[derive(Debug, PartialEq, Eq)]
pub enum Expr {
    AggregateOperation(AggregateOperation),
    BinaryOperation(BinaryOperation),
    FunctionCall(FunctionCall),
    NumberLiteral(String),
    Parentheses(Box<Expr>),
    UnaryOperation(UnaryOp, Box<Expr>),
    VectorSelector(VectorSelector),
}

/// An aggregation: operator, inner expression, optional grouping and argument.
#[derive(Debug, PartialEq, Eq)]
pub struct AggregateOperation {
    pub op: AggregateOp,
    pub expr: Box<Expr>,
    pub modifier: Option<AggregateModifier>,
    pub argument: Option<AggregateArgument>,
}

/// A binary operation with its modifiers.
#[derive(Debug, PartialEq, Eq)]
pub struct BinaryOperation {
    pub lhs: Box<Expr>,
    pub rhs: Box<Expr>,
    pub op: BinaryOp,
    pub bool_modifier: bool,
    pub label_matching: Option<LabelMatching>,
    pub group_modifier: Option<GroupModifier>,
}

/// An argument of a function call; a number is kept as its literal text.
#[derive(Debug, PartialEq, Eq)]
pub enum FunctionCallArg {
    Expr(Box<Expr>),
    Number(String),
    String(String),
}

/// A function call.
#[derive(Debug, PartialEq, Eq)]
pub struct FunctionCall {
    pub name: FunctionName,
    pub args: Vec<FunctionCallArg>,
}

pub enum ExprV {
    AggregateOperation {
        op: AggregateOp,
        expr: Box<ExprV>,
        modifier: Option<AggregateModifierV>,
        argument: Option<AggregateArgumentV>,
    },
    BinaryOperation {
        lhs: Box<ExprV>,
        rhs: Box<ExprV>,
        op: BinaryOp,
        bool_modifier: bool,
        label_matching: Option<LabelMatchingV>,
        group_modifier: Option<GroupModifierV>,
    },
    FunctionCall { name: FunctionName, args: Seq<FunctionCallArgV> },
    NumberLiteral(Seq<char>),
    Parentheses(Box<ExprV>),
    UnaryOperation(UnaryOp, Box<ExprV>),
    VectorSelector(VectorSelectorV),
}

pub enum FunctionCallArgV {
    Expr(Box<ExprV>),
    Number(Seq<char>),
    String(Seq<char>),
}

pub open spec fn expr_view(e: Expr) -> ExprV
    decreases e,
{
    match e {
        Expr::AggregateOperation(a) => ExprV::AggregateOperation {
            op: a.op,
            expr: Box::new(expr_view(*a.expr)),
            modifier: opt_view(a.modifier),
            argument: opt_view(a.argument),
        },
        Expr::BinaryOperation(b) => ExprV::BinaryOperation {
            lhs: Box::new(expr_view(*b.lhs)),
            rhs: Box::new(expr_view(*b.rhs)),
            op: b.op,
            bool_modifier: b.bool_modifier,
            label_matching: opt_view(b.label_matching),
            group_modifier: opt_view(b.group_modifier),
        },
        Expr::FunctionCall(f) => ExprV::FunctionCall { name: f.name, args: args_view(f.args@) },
        Expr::NumberLiteral(n) => ExprV::NumberLiteral(n@),
        Expr::Parentheses(inner) => ExprV::Parentheses(Box::new(expr_view(*inner))),
        Expr::UnaryOperation(op, inner) => ExprV::UnaryOperation(op, Box::new(expr_view(*inner))),
        Expr::VectorSelector(v) => ExprV::VectorSelector(v@),
    }
}

pub open spec fn args_view(args: Seq<FunctionCallArg>) -> Seq<FunctionCallArgV>
    decreases args,
{
    if args.len() == 0 {
        Seq::empty()
    } else {
        args_view(args.drop_last()).push(arg_view(args[args.len() - 1]))
    }
}

pub open spec fn arg_view(a: FunctionCallArg) -> FunctionCallArgV
    decreases a,
{
    match a {
        FunctionCallArg::Expr(e) => FunctionCallArgV::Expr(Box::new(expr_view(*e))),
        FunctionCallArg::Number(n) => FunctionCallArgV::Number(n@),
        FunctionCallArg::String(s) => FunctionCallArgV::String(s@),
    }
}

impl View for Expr {
    type V = ExprV;

    open spec fn view(&self) -> ExprV {
        expr_view(*self)
    }
}


/// The modifiers a binary operation admits: `bool` only on a comparison, a
/// group modifier only with a label matching and not on a logical operator.
pub open spec fn binary_modifiers_ok(op: BinaryOp, bool_modifier: bool, has_matching: bool, has_group: bool) -> bool {
    &&& (!bool_modifier || op.spec_kind() == BinaryOpKind::Comparison)
    &&& (!has_group || has_matching)
    &&& (!has_group || op.spec_kind() != BinaryOpKind::Logical)
}

impl AggregateOperation {
    pub fn new(
        op: AggregateOp,
        expr: Expr,
        modifier: Option<AggregateModifier>,
        argument: Option<AggregateArgument>,
    ) -> (a: AggregateOperation)
        requires
            op.needs_argument() ==> argument is Some,
        ensures
            a.op == op,
            *a.expr == expr,
            a.modifier == modifier,
            a.argument == argument,
    {
        AggregateOperation { op, expr: Box::new(expr), modifier, argument }
    }

    pub fn expr(&self) -> (e: &Expr)
        ensures
            *e == *self.expr,
    {
        &self.expr
    }

    pub fn into_inner(self) -> (r: (AggregateOp, Box<Expr>, Option<AggregateModifier>, Option<AggregateArgument>))
        ensures
            r == (self.op, self.expr, self.modifier, self.argument),
    {
        (self.op, self.expr, self.modifier, self.argument)
    }
}

impl BinaryOperation {
    pub fn new(lhs: Expr, op: BinaryOp, rhs: Expr) -> (b: BinaryOperation)
        ensures
            *b.lhs == lhs,
            *b.rhs == rhs,
            b.op == op,
            !b.bool_modifier,
            b.label_matching is None,
            b.group_modifier is None,
    {
        BinaryOperation::new_ex(lhs, op, rhs, false, None, None)
    }

    pub fn new_ex(
        lhs: Expr,
        op: BinaryOp,
        rhs: Expr,
        bool_modifier: bool,
        label_matching: Option<LabelMatching>,
        group_modifier: Option<GroupModifier>,
    ) -> (b: BinaryOperation)
        requires
            binary_modifiers_ok(op, bool_modifier, label_matching is Some, group_modifier is Some),
        ensures
            *b.lhs == lhs,
            *b.rhs == rhs,
            b.op == op,
            b.bool_modifier == bool_modifier,
            b.label_matching == label_matching,
            b.group_modifier == group_modifier,
    {
        BinaryOperation {
            lhs: Box::new(lhs),
            rhs: Box::new(rhs),
            op,
            bool_modifier,
            label_matching,
            group_modifier,
        }
    }

    pub fn op(&self) -> (o: BinaryOp)
        ensures
            o == self.op,
    {
        self.op
    }

    pub fn lhs(&self) -> (e: &Expr)
        ensures
            *e == *self.lhs,
    {
        &self.lhs
    }

    pub fn rhs(&self) -> (e: &Expr)
        ensures
            *e == *self.rhs,
    {
        &self.rhs
    }

    pub fn into_inner(self) -> (r: (BinaryOp, Box<Expr>, Box<Expr>, bool, Option<LabelMatching>, Option<GroupModifier>))
        ensures
            r == (self.op, self.lhs, self.rhs, self.bool_modifier, self.label_matching, self.group_modifier),
    {
        (self.op, self.lhs, self.rhs, self.bool_modifier, self.label_matching, self.group_modifier)
    }
}

impl FunctionCall {
    pub fn new(name: FunctionName, args: Vec<FunctionCallArg>) -> (f: FunctionCall)
        requires
            name == FunctionName::Vector ==> args@.len() == 1,
        ensures
            f.name == name,
            f.args == args,
    {
        FunctionCall { name, args }
    }

    pub fn function_name(&self) -> (n: FunctionName)
        ensures
            n == self.name,
    {
        self.name
    }

    pub fn args(self) -> (a: Vec<FunctionCallArg>)
        ensures
            a == self.args,
    {
        self.args
    }

    /// The first argument that is an expression (a function has at most one).
    pub fn expr(&self) -> (e: Option<&Expr>)
        ensures
            match e {
                Some(x) => exists|i: int| 0 <= i < self.args@.len()
                    && self.args@[i] == FunctionCallArg::Expr(Box::new(*x))
                    && forall|j: int| 0 <= j < i ==> !(#[trigger] self.args@[j] is Expr),
                None => forall|j: int| 0 <= j < self.args@.len() ==> !(#[trigger] self.args@[j] is Expr),
            },
    {
        let mut i: usize = 0;
        while i < self.args.len()
            invariant
                i <= self.args@.len(),
                forall|j: int| 0 <= j < i ==> !(#[trigger] self.args@[j] is Expr),
            decreases self.args@.len() - i,
        {
            match &self.args[i] {
                FunctionCallArg::Expr(e) => {
                    return Some(&**e);
                },
                _ => {},
            }
            i = i + 1;
        }
        None
    }
}


/// A selector that is made always selects something definite: it has a metric
/// name matcher, or a matcher that rejects the empty value.
pub proof fn law_selector_not_empty(name: Option<Seq<char>>, ms: Seq<LabelMatcherV>, duration: Option<nat>)
    ensures
        spec_selector_new(name, ms, duration) matches Ok(v) ==> has_name_matcher(v.matchers) || !matches_everything(v.matchers),
{
    if let Ok(v) = spec_selector_new(name, ms, duration) {
        if let Some(n) = name {
            let last = v.matchers.len() - 1;
            assert(v.matchers[last].label == name_label());
        }
    }
}


/// The binding strengths of the binary operators are fixed: `or` binds most
/// loosely, then `and` and `unless`, then the comparisons, then `+` and `-`,
/// then `*`, `/` and `%`, and `^` most tightly; the operators of one group bind
/// alike. So a comparison binds more loosely than any arithmetic operator.
pub proof fn law_precedence_order()
    ensures
        forall|a: BinaryOp, b: BinaryOp| a == BinaryOp::Or && b != BinaryOp::Or
            ==> #[trigger] a.spec_precedence() < #[trigger] b.spec_precedence(),
        forall|a: BinaryOp, b: BinaryOp| (a == BinaryOp::And || a == BinaryOp::Unless) && b.spec_kind() != BinaryOpKind::Logical
            ==> #[trigger] a.spec_precedence() < #[trigger] b.spec_precedence(),
        forall|a: BinaryOp, b: BinaryOp| a.spec_kind() == BinaryOpKind::Comparison && b.spec_kind() == BinaryOpKind::Arithmetic
            ==> #[trigger] a.spec_precedence() < #[trigger] b.spec_precedence(),
        forall|a: BinaryOp, b: BinaryOp| (a == BinaryOp::Add || a == BinaryOp::Sub)
            && (b == BinaryOp::Mul || b == BinaryOp::Div || b == BinaryOp::Mod || b == BinaryOp::Pow)
            ==> #[trigger] a.spec_precedence() < #[trigger] b.spec_precedence(),
        forall|a: BinaryOp| (a == BinaryOp::Mul || a == BinaryOp::Div || a == BinaryOp::Mod)
            ==> #[trigger] a.spec_precedence() < BinaryOp::Pow.spec_precedence(),
        forall|a: BinaryOp, b: BinaryOp| a.spec_kind() == BinaryOpKind::Comparison && b.spec_kind() == BinaryOpKind::Comparison
            ==> #[trigger] a.spec_precedence() == #[trigger] b.spec_precedence(),
        BinaryOp::And.spec_precedence() == BinaryOp::Unless.spec_precedence(),
        BinaryOp::Add.spec_precedence() == BinaryOp::Sub.spec_precedence(),
        BinaryOp::Mul.spec_precedence() == BinaryOp::Div.spec_precedence(),
        BinaryOp::Div.spec_precedence() == BinaryOp::Mod.spec_precedence(),
{
}

/// The kinds of the binary operators: `+ - * / % ^` are arithmetic, the six
/// comparisons are comparisons, `and`, `unless` and `or` are logical.
pub proof fn law_operator_kinds(op: BinaryOp)
    ensures
        (op.spec_kind() == BinaryOpKind::Arithmetic) <==> (op == BinaryOp::Add || op == BinaryOp::Sub
            || op == BinaryOp::Mul || op == BinaryOp::Div || op == BinaryOp::Mod || op == BinaryOp::Pow),
        (op.spec_kind() == BinaryOpKind::Comparison) <==> (op == BinaryOp::Eql || op == BinaryOp::Neq
            || op == BinaryOp::Gtr || op == BinaryOp::Gte || op == BinaryOp::Lss || op == BinaryOp::Lte),
        (op.spec_kind() == BinaryOpKind::Logical) <==> (op == BinaryOp::And || op == BinaryOp::Unless || op == BinaryOp::Or),
{
}

} // verus!
