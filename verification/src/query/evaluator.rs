//! The decisions of query evaluation: the step between evaluations, which
//! evaluator a binary operation takes, how two streams of vectors are aligned
//! in time, and the leaf evaluators.
use vstd::prelude::*;
use crate::error::Error;
use crate::query::parser::ast::{BinaryOp, BinaryOpKind, Expr, FunctionCallArg, FunctionName, UnaryOp};
use crate::query::value::{InstantVector, QueryValue, QueryValueKind, Timestamp, kept, scalar_relabel, scalar_outcomes};

verus! {

pub open spec fn min_opt(a: Option<nat>, b: Option<nat>) -> Option<nat> {
    match (a, b) {
        (None, None) => None,
        (Some(x), None) => Some(x),
        (None, Some(y)) => Some(y),
        (Some(x), Some(y)) => Some(if x <= y { x } else { y }),
    }
}

/// The smallest range (in milliseconds) of the range selectors of an
/// expression; of a function call, that of its first expression argument.
pub open spec fn smallest_range(e: &Expr) -> Option<nat>
    decreases e, 0nat,
{
    match e {
        Expr::Parentheses(inner) => smallest_range(inner),
        Expr::AggregateOperation(a) => smallest_range(&a.expr),
        Expr::UnaryOperation(_, inner) => smallest_range(inner),
        Expr::BinaryOperation(b) => min_opt(smallest_range(&b.lhs), smallest_range(&b.rhs)),
        Expr::FunctionCall(f) => smallest_range_args(f.args@, 0),
        Expr::NumberLiteral(_) => None,
        Expr::VectorSelector(sel) => sel@.duration,
    }
}

/// `smallest_range` of the first expression among `args[i..]`.
pub open spec fn smallest_range_args(args: Seq<FunctionCallArg>, i: int) -> Option<nat>
    decreases args, args.len() - i,
{
    if i < 0 || i >= args.len() {
        None
    } else {
        match &args[i] {
            FunctionCallArg::Expr(x) => smallest_range(x),
            _ => smallest_range_args(args, i + 1),
        }
    }
}

proof fn lemma_first_expr(args: Seq<FunctionCallArg>, i: int)
    requires
        0 <= i <= args.len(),
        forall|j: int| 0 <= j < i ==> !(#[trigger] args[j] is Expr),
    ensures
        smallest_range_args(args, 0) == smallest_range_args(args, i),
    decreases i,
{
    if i > 0 {
        lemma_first_expr(args, i - 1);
        assert(!(args[i - 1] is Expr));
    }
}

pub open spec fn opt_nat(o: Option<u128>) -> Option<nat> {
    match o {
        Some(x) => Some(x as nat),
        None => None,
    }
}

/// The smallest range of the range selectors of `node`, in milliseconds.
pub fn find_smallest_range(node: &Expr) -> (r: Option<u128>)
    ensures
        opt_nat(r) == smallest_range(node),
    decreases node,
{
    match node {
        Expr::Parentheses(inner) => find_smallest_range(inner),
        Expr::AggregateOperation(a) => find_smallest_range(&a.expr),
        Expr::UnaryOperation(_, inner) => find_smallest_range(inner),
        Expr::BinaryOperation(b) => {
            let l = find_smallest_range(&b.lhs);
            let r = find_smallest_range(&b.rhs);
            match (l, r) {
                (None, None) => None,
                (Some(x), None) => Some(x),
                (None, Some(y)) => Some(y),
                (Some(x), Some(y)) => Some(if x <= y { x } else { y }),
            }
        },
        Expr::FunctionCall(f) => {
            let mut i: usize = 0;
            while i < f.args.len()
                invariant
                    i <= f.args@.len(),
                    *node == Expr::FunctionCall(*f),
                    forall|j: int| 0 <= j < i ==> !(#[trigger] f.args@[j] is Expr),
                decreases f.args@.len() - i,
            {
                match &f.args[i] {
                    FunctionCallArg::Expr(e) => {
                        proof {
                            lemma_first_expr(f.args@, i as int);
                            assert(f.args@[i as int] == FunctionCallArg::Expr(*e));
                            assert(decreases_to!(f.args@ => f.args@[i as int]));
                            assert(smallest_range_args(f.args@, i as int) == smallest_range(&**e));
                        }
                        let r = find_smallest_range(e);
                        assert(smallest_range(node) == smallest_range_args(f.args@, 0));
                        return r;
                    },
                    _ => {},
                }
                i = i + 1;
            }
            proof { lemma_first_expr(f.args@, i as int); }
            None
        },
        Expr::NumberLiteral(_) => None,
        Expr::VectorSelector(sel) => sel.duration(),
    }
}

/// The step between evaluations when none is given: one second.
pub const DEFAULT_INTERVAL: u128 = 1000;

/// The step between evaluations: the one given, else `DEFAULT_INTERVAL`.
pub open spec fn spec_interval(interval: Option<u128>) -> nat {
    match interval {
        Some(i) => i as nat,
        None => DEFAULT_INTERVAL as nat,
    }
}

/// The tree of evaluators of a query expression (parentheses leave none).
#[derive(Debug)]
pub enum Plan {
    /// A number: the same scalar at every step.
    Number,
    /// A selector without a range: an instant vector at every step.
    InstantSelector,
    /// A selector with a range: a range vector at every step.
    RangeSelector,
    /// An aggregation of the values of its operand.
    Aggregate(Box<Plan>),
    /// A unary operation on the values of its operand.
    Unary(UnaryOp, Box<Plan>),
    /// A binary operation by the evaluator for its operands' kinds.
    Binary(BinaryEvaluatorKind, Box<Plan>, Box<Plan>),
    /// An aggregation over time of the values of its one argument.
    OverTime(FunctionName, Box<Plan>),
}

pub open spec fn aggregate_kind_msg() -> Seq<char> {
    "assertion failed: inner.value_kind() == QueryValueKind::InstantVector"@
}

pub open spec fn coming_soon_msg() -> Seq<char> {
    "not implemented: Coming soon..."@
}

pub open spec fn arg_count_msg() -> Seq<char> {
    "assertion failed: args.len() == 1"@
}

pub open spec fn arg_type_msg() -> Seq<char> {
    "unexpected argument type"@
}

pub open spec fn is_over_time(f: FunctionName) -> bool {
    f == FunctionName::AvgOverTime || f == FunctionName::CountOverTime || f == FunctionName::LastOverTime
        || f == FunctionName::MaxOverTime || f == FunctionName::MinOverTime || f == FunctionName::SumOverTime
}

pub open spec fn binary_result_kind(k: BinaryEvaluatorKind) -> QueryValueKind {
    if k == BinaryEvaluatorKind::ScalarScalar { QueryValueKind::Scalar } else { QueryValueKind::InstantVector }
}

/// The evaluators of an expression and the kind of its values, or the
/// message of the first construction that fails: parentheses are
/// transparent; an aggregation needs an instant-vector operand; a unary
/// operation has the kind of its operand; a binary operation builds its left
/// then its right operand and takes the evaluator for their kinds; a function
/// call builds its expression arguments in order, and only the aggregations
/// over time, with one expression argument, are evaluated; a number is a
/// scalar; a selector is an instant or a range vector by its range.
pub open spec fn spec_plan(e: &Expr) -> Result<(Plan, QueryValueKind), Seq<char>>
    decreases e, 0nat,
{
    match e {
        Expr::Parentheses(inner) => spec_plan(inner),
        Expr::AggregateOperation(a) => match spec_plan(&a.expr) {
            Err(m) => Err(m),
            Ok((p, k)) => if k == QueryValueKind::InstantVector {
                Ok((Plan::Aggregate(Box::new(p)), k))
            } else {
                Err(aggregate_kind_msg())
            },
        },
        Expr::UnaryOperation(op, inner) => match spec_plan(inner) {
            Err(m) => Err(m),
            Ok((p, k)) => Ok((Plan::Unary(*op, Box::new(p)), k)),
        },
        Expr::BinaryOperation(b) => match spec_plan(&b.lhs) {
            Err(m) => Err(m),
            Ok((lp, lk)) => match spec_plan(&b.rhs) {
                Err(m) => Err(m),
                Ok((rp, rk)) => match spec_binary_evaluator(lk, b.op, rk, b.bool_modifier, b.label_matching is Some, b.group_modifier is Some) {
                    None => Err(unsupported_operation_msg()),
                    Some(bk) => Ok((Plan::Binary(bk, Box::new(lp), Box::new(rp)), binary_result_kind(bk))),
                },
            },
        },
        Expr::FunctionCall(f) => match spec_args_error(f.args@, 0) {
            Some(m) => Err(m),
            None => if !is_over_time(f.name) {
                Err(coming_soon_msg())
            } else if f.args@.len() != 1 {
                Err(arg_count_msg())
            } else {
                match &f.args@[0] {
                    FunctionCallArg::Expr(x) => match spec_plan(x) {
                        Err(m) => Err(m),
                        Ok((p, _)) => Ok((Plan::OverTime(f.name, Box::new(p)), QueryValueKind::InstantVector)),
                    },
                    _ => Err(arg_type_msg()),
                }
            },
        },
        Expr::NumberLiteral(_) => Ok((Plan::Number, QueryValueKind::Scalar)),
        Expr::VectorSelector(sel) => if sel@.duration is Some {
            Ok((Plan::RangeSelector, QueryValueKind::RangeVector))
        } else {
            Ok((Plan::InstantSelector, QueryValueKind::InstantVector))
        },
    }
}

/// The message of the first expression among `args[i..]` whose evaluators
/// cannot be built.
pub open spec fn spec_args_error(args: Seq<FunctionCallArg>, i: int) -> Option<Seq<char>>
    decreases args, args.len() - i,
{
    if i < 0 || i >= args.len() {
        None
    } else {
        match &args[i] {
            FunctionCallArg::Expr(x) => match spec_plan(x) {
                Err(m) => Some(m),
                Ok(_) => spec_args_error(args, i + 1),
            },
            _ => spec_args_error(args, i + 1),
        }
    }
}

proof fn lemma_args_ok(args: Seq<FunctionCallArg>, i: int)
    requires
        0 <= i <= args.len(),
        forall|j: int| 0 <= j < i ==> !(#[trigger] args[j] is Expr) || spec_plan(&args[j]->Expr_0) is Ok,
    ensures
        spec_args_error(args, 0) == spec_args_error(args, i),
    decreases i,
{
    if i > 0 {
        lemma_args_ok(args, i - 1);
        assert(!(args[i - 1] is Expr) || spec_plan(&args[i - 1]->Expr_0) is Ok);
    }
}

/// The evaluators of `query` and the kind of its values, or the message of
/// the first of them that cannot be built (see `spec_plan`).
pub fn evaluation_plan(query: &Expr) -> (r: Result<(Plan, QueryValueKind), Error>)
    ensures
        match r {
            Ok((p, k)) => spec_plan(query) == Ok::<(Plan, QueryValueKind), Seq<char>>((p, k)),
            Err(e) => spec_plan(query) == Err::<(Plan, QueryValueKind), Seq<char>>(e.message_spec()),
        },
    decreases query,
{
    match query {
        Expr::Parentheses(inner) => evaluation_plan(inner),
        Expr::AggregateOperation(a) => {
            let (p, k) = evaluation_plan(&a.expr)?;
            if k == QueryValueKind::InstantVector {
                Ok((Plan::Aggregate(Box::new(p)), k))
            } else {
                Err(Error::new("assertion failed: inner.value_kind() == QueryValueKind::InstantVector"))
            }
        },
        Expr::UnaryOperation(op, inner) => {
            let (p, k) = evaluation_plan(inner)?;
            Ok((Plan::Unary(*op, Box::new(p)), k))
        },
        Expr::BinaryOperation(b) => {
            let (lp, lk) = evaluation_plan(&b.lhs)?;
            let (rp, rk) = evaluation_plan(&b.rhs)?;
            let (has_matching, has_group) = (b.label_matching.is_some(), b.group_modifier.is_some());
            if !binary_evaluator_supported(lk, b.op, rk, b.bool_modifier, has_matching, has_group) {
                return Err(Error::new("operation is not supported"));
            }
            let bk = binary_evaluator_kind(lk, b.op, rk, b.bool_modifier, has_matching, has_group);
            let k = if bk == BinaryEvaluatorKind::ScalarScalar { QueryValueKind::Scalar } else { QueryValueKind::InstantVector };
            Ok((Plan::Binary(bk, Box::new(lp), Box::new(rp)), k))
        },
        Expr::FunctionCall(f) => {
            let mut first: Option<Plan> = None;
            let mut i: usize = 0;
            while i < f.args.len()
                invariant
                    i <= f.args@.len(),
                    *query == Expr::FunctionCall(*f),
                    forall|j: int| 0 <= j < i ==> !(#[trigger] f.args@[j] is Expr) || spec_plan(&f.args@[j]->Expr_0) is Ok,
                    i > 0 && f.args@[0] is Expr ==> (first is Some && spec_plan(&f.args@[0]->Expr_0) is Ok && spec_plan(&f.args@[0]->Expr_0)->Ok_0.0 == first->0),
                    i > 0 && !(f.args@[0] is Expr) ==> first is None,
                    i == 0 ==> first is None,
                decreases f.args@.len() - i,
            {
                match &f.args[i] {
                    FunctionCallArg::Expr(e) => {
                        proof {
                            assert(f.args@[i as int] == FunctionCallArg::Expr(*e));
                            assert(decreases_to!(f.args@ => f.args@[i as int]));
                        }
                        match evaluation_plan(e) {
                            Err(m) => {
                                proof {
                                    lemma_args_ok(f.args@, i as int);
                                    assert(spec_plan(&**e) == Err::<(Plan, QueryValueKind), Seq<char>>(m.message_spec()));
                                    assert(spec_args_error(f.args@, i as int) == Some(m.message_spec()));
                                    assert(spec_args_error(f.args@, 0) == Some(m.message_spec()));
                                }
                                return Err(m);
                            },
                            Ok((p, _)) => {
                                if i == 0 {
                                    first = Some(p);
                                }
                            },
                        }
                    },
                    _ => {},
                }
                i = i + 1;
            }
            proof {
                lemma_args_ok(f.args@, i as int);
            }
            let n = f.name;
            let over_time = match n {
                FunctionName::AvgOverTime | FunctionName::CountOverTime | FunctionName::LastOverTime
                | FunctionName::MaxOverTime | FunctionName::MinOverTime | FunctionName::SumOverTime => true,
                _ => false,
            };
            if !over_time {
                return Err(Error::new("not implemented: Coming soon..."));
            }
            if f.args.len() != 1 {
                return Err(Error::new("assertion failed: args.len() == 1"));
            }
            match first {
                Some(p) => Ok((Plan::OverTime(n, Box::new(p)), QueryValueKind::InstantVector)),
                None => Err(Error::new("unexpected argument type")),
            }
        },
        Expr::NumberLiteral(_) => Ok((Plan::Number, QueryValueKind::Scalar)),
        Expr::VectorSelector(sel) => match sel.duration() {
            Some(_) => Ok((Plan::RangeSelector, QueryValueKind::RangeVector)),
            None => Ok((Plan::InstantSelector, QueryValueKind::InstantVector)),
        },
    }
}

/// One call of `QueryEvaluator::next` from the state `drained` of a query
/// whose value is a scalar or not: whether a value is taken, and the next
/// state.
pub open spec fn next_step(drained: bool, scalar: bool) -> (bool, bool) {
    (!drained, drained || scalar)
}

/// What `n` calls of `next` answer, from the state `drained`.
pub open spec fn next_answers(drained: bool, scalar: bool, n: nat) -> Seq<bool>
    decreases n,
{
    if n == 0 {
        Seq::empty()
    } else {
        let (go, d) = next_step(drained, scalar);
        seq![go] + next_answers(d, scalar, (n - 1) as nat)
    }
}

proof fn lemma_drained_answers(scalar: bool, n: nat)
    ensures
        next_answers(true, scalar, n) == Seq::new(n, |i: int| false),
    decreases n,
{
    if n > 0 {
        lemma_drained_answers(scalar, (n - 1) as nat);
        assert(next_answers(true, scalar, n) =~= Seq::new(n, |i: int| false));
    }
}

/// A query whose value is a scalar gives one value and no more; any other
/// query gives a value at every step.
pub proof fn law_scalar_query_yields_once(scalar: bool, n: nat)
    ensures
        next_answers(false, scalar, n) == Seq::new(n, |i: int| !scalar || i == 0),
    decreases n,
{
    if n > 0 {
        if scalar {
            lemma_drained_answers(scalar, (n - 1) as nat);
        } else {
            law_scalar_query_yields_once(scalar, (n - 1) as nat);
        }
        assert(next_answers(false, scalar, n) =~= Seq::new(n, |i: int| !scalar || i == 0));
    }
}

/// The evaluation of a query: its evaluators, its settings and whether it is
/// drained: a query whose value is a scalar gives one value and no more.
pub struct QueryEvaluator {
    plan: Plan,
    interval: u128,
    lookback: u128,
    start_at: Option<Timestamp>,
    scalar: bool,
    drained: bool,
}

impl QueryEvaluator {
    pub closed spec fn plan_spec(&self) -> Plan {
        self.plan
    }

    pub closed spec fn interval_spec(&self) -> nat {
        self.interval as nat
    }

    pub closed spec fn lookback_spec(&self) -> nat {
        self.lookback as nat
    }

    pub closed spec fn start_at_spec(&self) -> Option<Timestamp> {
        self.start_at
    }

    pub closed spec fn drained_spec(&self) -> bool {
        self.drained
    }

    pub closed spec fn scalar_spec(&self) -> bool {
        self.scalar
    }

    /// The evaluation of `query` by its evaluators (see `spec_plan`; an
    /// error when they cannot be built): the step is the one given (which
    /// must not be zero), else one second; the look-back window is the one
    /// given, else the step.
    pub fn new(query: &Expr, interval: Option<u128>, lookback: Option<u128>, start_at: Option<Timestamp>) -> (r: Result<QueryEvaluator, Error>)
        requires
            spec_interval(interval) > 0,
        ensures
            match r {
                Ok(q) => {
                    &&& spec_plan(query) is Ok
                    &&& q.plan_spec() == spec_plan(query)->Ok_0.0
                    &&& q.scalar_spec() == (spec_plan(query)->Ok_0.1 == QueryValueKind::Scalar)
                    &&& q.interval_spec() == spec_interval(interval)
                    &&& q.lookback_spec() == match lookback {
                        Some(l) => l as nat,
                        None => spec_interval(interval),
                    }
                    &&& q.start_at_spec() == start_at
                    &&& !q.drained_spec()
                },
                Err(e) => spec_plan(query) == Err::<(Plan, QueryValueKind), Seq<char>>(e.message_spec()),
            },
    {
        let interval = match interval {
            Some(i) => i,
            None => DEFAULT_INTERVAL,
        };
        let lookback = match lookback {
            Some(l) => l,
            None => interval,
        };
        let (plan, kind) = evaluation_plan(query)?;
        Ok(QueryEvaluator { plan, interval, lookback, start_at, scalar: kind == QueryValueKind::Scalar, drained: false })
    }

    /// The evaluators of the query.
    pub fn plan(&self) -> (p: &Plan)
        ensures
            *p == self.plan_spec(),
    {
        &self.plan
    }

    pub fn interval(&self) -> (i: u128)
        ensures
            i == self.interval_spec(),
    {
        self.interval
    }

    pub fn lookback(&self) -> (l: u128)
        ensures
            l == self.lookback_spec(),
    {
        self.lookback
    }

    pub fn start_at(&self) -> (s: Option<Timestamp>)
        ensures
            s == self.start_at_spec(),
    {
        self.start_at
    }

    /// Whether the next value of the query is to be taken from its evaluator:
    /// not once drained; a scalar query gives one value, and is drained by its
    /// first call.
    pub fn next(&mut self) -> (go: bool)
        ensures
            (go, final(self).drained_spec()) == next_step(old(self).drained_spec(), old(self).scalar_spec()),
            final(self).scalar_spec() == old(self).scalar_spec(),
            final(self).plan_spec() == old(self).plan_spec(),
            final(self).interval_spec() == old(self).interval_spec(),
            final(self).lookback_spec() == old(self).lookback_spec(),
            final(self).start_at_spec() == old(self).start_at_spec(),
    {
        if self.drained {
            return false;
        }
        if self.scalar {
            self.drained = true;
        }
        true
    }
}

/// The evaluators of binary operations, by the kinds of their operands.
#[derive(Clone, Copy, Debug, PartialEq, Eq, Structural)]
pub enum BinaryEvaluatorKind {
    ScalarScalar,
    ScalarVector,
    VectorScalar,
    VectorVector,
}

/// Which evaluator a binary operation takes, and whether its modifiers fit it
/// (`None` when the operation is not supported on these operands, or the
/// modifiers do not fit).
pub open spec fn spec_binary_evaluator(lk: QueryValueKind, op: BinaryOp, rk: QueryValueKind, bool_modifier: bool, has_matching: bool, has_group: bool) -> Option<BinaryEvaluatorKind> {
    let k = op.spec_kind();
    let arith_or_cmp = k == BinaryOpKind::Arithmetic || k == BinaryOpKind::Comparison;
    if lk == QueryValueKind::Scalar && rk == QueryValueKind::Scalar && arith_or_cmp {
        if (k != BinaryOpKind::Comparison || bool_modifier) && !has_matching && !has_group {
            Some(BinaryEvaluatorKind::ScalarScalar)
        } else {
            None
        }
    } else if lk == QueryValueKind::Scalar && rk == QueryValueKind::InstantVector && arith_or_cmp {
        if (!bool_modifier || k == BinaryOpKind::Comparison) && !has_matching && !has_group {
            Some(BinaryEvaluatorKind::ScalarVector)
        } else {
            None
        }
    } else if lk == QueryValueKind::InstantVector && rk == QueryValueKind::Scalar && arith_or_cmp {
        if (!bool_modifier || k == BinaryOpKind::Comparison) && !has_matching && !has_group {
            Some(BinaryEvaluatorKind::VectorScalar)
        } else {
            None
        }
    } else if lk == QueryValueKind::InstantVector && rk == QueryValueKind::InstantVector {
        if (!bool_modifier || k == BinaryOpKind::Comparison) && (!has_group || has_matching) {
            Some(BinaryEvaluatorKind::VectorVector)
        } else {
            None
        }
    } else {
        None
    }
}

pub open spec fn unsupported_operation_msg() -> Seq<char> {
    "operation is not supported"@
}

/// Whether a binary operation with operands of kinds `lk` and `rk`, and
/// these modifiers, has an evaluator.
pub fn binary_evaluator_supported(lk: QueryValueKind, op: BinaryOp, rk: QueryValueKind, bool_modifier: bool, has_matching: bool, has_group: bool) -> (b: bool)
    ensures
        b == spec_binary_evaluator(lk, op, rk, bool_modifier, has_matching, has_group) is Some,
{
    let k = op.kind();
    let arith_or_cmp = k == BinaryOpKind::Arithmetic || k == BinaryOpKind::Comparison;
    if lk == QueryValueKind::Scalar && rk == QueryValueKind::Scalar && arith_or_cmp {
        (k != BinaryOpKind::Comparison || bool_modifier) && !has_matching && !has_group
    } else if lk == QueryValueKind::Scalar && rk == QueryValueKind::InstantVector && arith_or_cmp {
        (!bool_modifier || k == BinaryOpKind::Comparison) && !has_matching && !has_group
    } else if lk == QueryValueKind::InstantVector && rk == QueryValueKind::Scalar && arith_or_cmp {
        (!bool_modifier || k == BinaryOpKind::Comparison) && !has_matching && !has_group
    } else if lk == QueryValueKind::InstantVector && rk == QueryValueKind::InstantVector {
        (!bool_modifier || k == BinaryOpKind::Comparison) && (!has_group || has_matching)
    } else {
        false
    }
}

/// The evaluator of a binary operation with operands of kinds `lk` and `rk`,
/// for a supported combination of kinds and modifiers (the original panics on
/// the others; `binary_evaluator_supported` tells them apart).
pub fn binary_evaluator_kind(lk: QueryValueKind, op: BinaryOp, rk: QueryValueKind, bool_modifier: bool, has_matching: bool, has_group: bool) -> (r: BinaryEvaluatorKind)
    requires
        spec_binary_evaluator(lk, op, rk, bool_modifier, has_matching, has_group) is Some,
    ensures
        spec_binary_evaluator(lk, op, rk, bool_modifier, has_matching, has_group) == Some(r),
{
    let k = op.kind();
    let arith_or_cmp = k == BinaryOpKind::Arithmetic || k == BinaryOpKind::Comparison;
    let ok = if lk == QueryValueKind::Scalar && rk == QueryValueKind::Scalar && arith_or_cmp {
        if (k != BinaryOpKind::Comparison || bool_modifier) && !has_matching && !has_group {
            Some(BinaryEvaluatorKind::ScalarScalar)
        } else {
            None
        }
    } else if lk == QueryValueKind::Scalar && rk == QueryValueKind::InstantVector && arith_or_cmp {
        if (!bool_modifier || k == BinaryOpKind::Comparison) && !has_matching && !has_group {
            Some(BinaryEvaluatorKind::ScalarVector)
        } else {
            None
        }
    } else if lk == QueryValueKind::InstantVector && rk == QueryValueKind::Scalar && arith_or_cmp {
        if (!bool_modifier || k == BinaryOpKind::Comparison) && !has_matching && !has_group {
            Some(BinaryEvaluatorKind::VectorScalar)
        } else {
            None
        }
    } else if lk == QueryValueKind::InstantVector && rk == QueryValueKind::InstantVector {
        if (!bool_modifier || k == BinaryOpKind::Comparison) && (!has_group || has_matching) {
            Some(BinaryEvaluatorKind::VectorVector)
        } else {
            None
        }
    } else {
        None
    };
    match ok {
        Some(e) => e,
        None => {
            assert(false);
            BinaryEvaluatorKind::VectorVector
        },
    }
}

/// How the next vectors of the two operands of a vector-vector operation are
/// aligned: at one instant they are combined; otherwise the one behind in
/// time is consumed and an empty vector at its instant is the result.
#[derive(Clone, Copy, Debug, PartialEq, Eq, Structural)]
pub enum Alignment {
    Combine,
    SkipLeft(Timestamp),
    SkipRight(Timestamp),
}

pub open spec fn spec_align(lt: Timestamp, rt: Timestamp) -> Alignment {
    if lt == rt {
        Alignment::Combine
    } else if lt < rt {
        Alignment::SkipLeft(lt)
    } else {
        Alignment::SkipRight(rt)
    }
}

/// The alignment of the next left vector at `lt` and right vector at `rt`.
pub fn align(lt: Timestamp, rt: Timestamp) -> (a: Alignment)
    ensures
        a == spec_align(lt, rt),
{
    if lt == rt {
        Alignment::Combine
    } else if lt < rt {
        Alignment::SkipLeft(lt)
    } else {
        Alignment::SkipRight(rt)
    }
}

/// One call of `IdentityEvaluator::next` on the value `v`: the scalar it
/// gives, and the value it keeps.
pub open spec fn identity_step<V>(v: V) -> (V, V) {
    (v, v)
}

/// The scalars that `n` calls of `next` give, from the value `v`.
pub open spec fn identity_answers<V>(v: V, n: nat) -> Seq<V>
    decreases n,
{
    if n == 0 {
        Seq::empty()
    } else {
        seq![identity_step(v).0] + identity_answers(identity_step(v).1, (n - 1) as nat)
    }
}

/// A constant gives its value at every step, however many steps are taken.
pub proof fn law_identity_constant<V>(v: V, n: nat)
    ensures
        identity_answers(v, n) == Seq::new(n, |i: int| v),
    decreases n,
{
    if n > 0 {
        law_identity_constant(v, (n - 1) as nat);
        assert(identity_answers(v, n) =~= Seq::new(n, |i: int| v));
    }
}

/// A constant: every pull gives the same scalar.
pub struct IdentityEvaluator<V> {
    val: V,
}

impl<V: Copy> IdentityEvaluator<V> {
    pub closed spec fn value_spec(&self) -> V {
        self.val
    }

    pub fn scalar(val: V) -> (e: IdentityEvaluator<V>)
        ensures
            e.value_spec() == val,
    {
        IdentityEvaluator { val }
    }

    pub fn next(&mut self) -> (r: Option<QueryValue<V>>)
        ensures
            r matches Some(QueryValue::Scalar(v)) && (v, final(self).value_spec()) == identity_step(old(self).value_spec()),
    {
        Some(QueryValue::Scalar(self.val))
    }

    pub fn value_kind(&self) -> (k: QueryValueKind)
        ensures
            k == QueryValueKind::Scalar,
    {
        QueryValueKind::Scalar
    }
}

/// A unary operation on the values of an expression whose values are of
/// `kind`.
pub struct UnaryEvaluator {
    op: UnaryOp,
    kind: QueryValueKind,
}

impl UnaryEvaluator {
    pub closed spec fn op_spec(&self) -> UnaryOp {
        self.op
    }

    pub closed spec fn kind_spec(&self) -> QueryValueKind {
        self.kind
    }

    /// The operation `op` on an operand whose values are of `inner_kind`.
    pub fn new(op: UnaryOp, inner_kind: QueryValueKind) -> (e: UnaryEvaluator)
        ensures
            e.op_spec() == op,
            e.kind_spec() == inner_kind,
    {
        UnaryEvaluator { op, kind: inner_kind }
    }

    /// The kind of the values of the operation: that of its operand.
    pub fn value_kind(&self) -> (k: QueryValueKind)
        ensures
            k == self.kind_spec(),
    {
        self.kind
    }

    /// The value for the next value of the operand: `-` applies `neg` to each
    /// sample, keeping the metric name; `+` leaves the vector as it is.
    pub fn next_value<V: Copy>(&self, value: Option<QueryValue<V>>, neg: impl Fn(V) -> Option<V>) -> (r: Option<QueryValue<V>>)
        requires
            value is None || value matches Some(QueryValue::InstantVector(_)),
            forall|v: V| call_requires(neg, (v,)),
        ensures
            match value {
                None => r is None,
                Some(QueryValue::InstantVector(v)) => r matches Some(QueryValue::InstantVector(w)) && w@.instant == v@.instant
                    && if self.op_spec() == UnaryOp::Sub {
                        exists|outs: Seq<Option<V>>| #[trigger] scalar_outcomes(neg, v@.samples, outs)
                            && w@.samples == kept(v@.samples, outs, scalar_relabel(true))
                    } else {
                        w@.samples == v@.samples
                    },
                _ => false,
            },
    {
        match value {
            Some(QueryValue::InstantVector(v)) => {
                let mut v = v;
                if self.op == UnaryOp::Sub {
                    let w = v.apply_scalar_op(neg, true);
                    Some(QueryValue::InstantVector(w))
                } else {
                    Some(QueryValue::InstantVector(v))
                }
            },
            _ => None,
        }
    }
}


/// Two vectors at one instant are combined; otherwise the one behind in time
/// is skipped, at its own instant.
pub proof fn law_alignment(lt: Timestamp, rt: Timestamp)
    ensures
        (spec_align(lt, rt) == Alignment::Combine) <==> lt == rt,
        spec_align(lt, rt) matches Alignment::SkipLeft(t) ==> t == lt && lt < rt,
        spec_align(lt, rt) matches Alignment::SkipRight(t) ==> t == rt && rt < lt,
{
}

/// The evaluator of a binary operation follows the kinds of its operands: a
/// scalar-scalar evaluator takes two scalars and gives a scalar, the others
/// take an instant vector on the side their name says and give an instant
/// vector; no range vector is an operand; `bool` comes only with comparisons,
/// and a comparison of two scalars needs it; matching clauses come only
/// between two vectors, and a group modifier only with one.
pub proof fn law_binary_evaluator(lk: QueryValueKind, op: BinaryOp, rk: QueryValueKind, bool_modifier: bool, has_matching: bool, has_group: bool)
    ensures
        spec_binary_evaluator(lk, op, rk, bool_modifier, has_matching, has_group) matches Some(k) ==> {
            &&& lk != QueryValueKind::RangeVector && rk != QueryValueKind::RangeVector
            &&& (k == BinaryEvaluatorKind::ScalarScalar <==> (lk == QueryValueKind::Scalar && rk == QueryValueKind::Scalar))
            &&& (k == BinaryEvaluatorKind::ScalarVector <==> (lk == QueryValueKind::Scalar && rk == QueryValueKind::InstantVector))
            &&& (k == BinaryEvaluatorKind::VectorScalar <==> (lk == QueryValueKind::InstantVector && rk == QueryValueKind::Scalar))
            &&& (k == BinaryEvaluatorKind::VectorVector <==> (lk == QueryValueKind::InstantVector && rk == QueryValueKind::InstantVector))
            &&& (binary_result_kind(k) == QueryValueKind::Scalar <==> k == BinaryEvaluatorKind::ScalarScalar)
            &&& (bool_modifier ==> op.spec_kind() == BinaryOpKind::Comparison || k == BinaryEvaluatorKind::ScalarScalar)
            &&& (k == BinaryEvaluatorKind::ScalarScalar && op.spec_kind() == BinaryOpKind::Comparison ==> bool_modifier)
            &&& (has_matching ==> k == BinaryEvaluatorKind::VectorVector)
            &&& (has_group ==> has_matching)
            &&& (k != BinaryEvaluatorKind::VectorVector ==> op.spec_kind() != BinaryOpKind::Logical)
        },
        lk == QueryValueKind::InstantVector && rk == QueryValueKind::InstantVector && !bool_modifier && !has_group
            ==> spec_binary_evaluator(lk, op, rk, bool_modifier, has_matching, has_group) == Some(BinaryEvaluatorKind::VectorVector),
{
}

/// Without a given step, a query is evaluated every second.
pub proof fn law_default_interval()
    ensures
        spec_interval(None) == 1000,
        forall|i: u128| #[trigger] spec_interval(Some(i)) == i,
{
}


/// The functions evaluated are exactly the six aggregations over time.
pub proof fn law_over_time_functions(f: FunctionName)
    ensures
        is_over_time(f) <==> (f == FunctionName::AvgOverTime || f == FunctionName::CountOverTime
            || f == FunctionName::LastOverTime || f == FunctionName::MaxOverTime
            || f == FunctionName::MinOverTime || f == FunctionName::SumOverTime),
{
}

} // verus!
