use pq::parse::{to_parse_err, PErr};
use pq::query::parser::ast::{BinaryOp, Expr, LabelMatching, GroupModifier};
use pq::query::parser::expr::{expr, parse_query};
use pq::text::to_chars;

fn describe(input: &Vec<char>, e: PErr) -> String {
    to_parse_err(input, e).error().message()
}

fn parse(input: &str) -> Expr {
    let s = to_chars(input);
    match expr(&s, 0, None) {
        Ok((_, e)) => e,
        Err(e) => panic!("Got {:?} while parsing {}", describe(&s, e), input),
    }
}

/// A compact rendering of the tree: numbers by value, operations in parentheses.
fn shape(e: &Expr) -> String {
    match e {
        Expr::NumberLiteral(n) => {
            let v: f64 = n.parse().expect("number literal");
            format!("{}", v)
        },
        Expr::BinaryOperation(b) => format!("({} {:?} {})", shape(b.lhs()), b.op(), shape(b.rhs())),
        Expr::UnaryOperation(op, inner) => format!("({:?} {})", op, shape(inner)),
        Expr::Parentheses(inner) => format!("[{}]", shape(inner)),
        Expr::VectorSelector(_) => "sel".to_string(),
        Expr::AggregateOperation(_) => "agg".to_string(),
        Expr::FunctionCall(_) => "call".to_string(),
    }
}

#[test]
fn test_valid_expressions() {
    let tests = [
        "foo{}",
        "-foo{}",
        "- foo{}",
        "+foo{}",
        "+  foo{}",
        "foo and bar",
        "foo unless bar",
        "foo or bar",
        "sum(foo)",
        "sum(foo) by(job)",
        "bar{} + sum(foo) by(job)",
        "avg(foo) without(job,instanse)",
        "sum by(job) (foo)",
        "avg without(job,instanse) (foo)",
        "124 % avg without(job,instanse) (foo)",
        "quantile(0.95, foo)",
        "topk(3, foo)",
        "bottomk(1.0, foo)",
        "(foo)",
        "(1 + 2) * 3",
    ];

    for input in &tests {
        parse(input);
    }
}

#[test]
fn expr_test_valid_expressions_ex() {
    let tests = [
        ("-1 + 2", "(-1 Add 2)"),
        ("-1 * 2", "(-1 Mul 2)"),
        ("-1 ^ 2", "(-1 Pow 2)"),
        ("-1 ^ 2 * 3", "((-1 Pow 2) Mul 3)"),
        ("1 - -2", "(1 Sub -2)"),
        ("-1---2", "(-1 Sub (Sub -2))"),
        ("-1---2+3", "((-1 Sub (Sub -2)) Add 3)"),
        ("1 + -4*2^3 -5", "((1 Add (-4 Mul (2 Pow 3))) Sub 5)"),
    ];

    for (input, expected) in &tests {
        assert_eq!(*expected, shape(&parse(input)), "while parsing {}", input);
    }
}

fn extract_operators(e: &Expr) -> Vec<BinaryOp> {
    match e {
        Expr::BinaryOperation(b) => {
            let mut ops = extract_operators(b.lhs());
            ops.extend(extract_operators(b.rhs()));
            ops.push(b.op());
            ops
        },
        Expr::UnaryOperation(_, inner) => extract_operators(inner),
        _ => vec![],
    }
}

#[test]
fn test_binary_expr_operator_precedence() {
    let tests = [
        ("42 + bar", vec![BinaryOp::Add]),
        ("42.42 + bar", vec![BinaryOp::Add]),
        ("42.42 + bar % 9000", vec![BinaryOp::Mod, BinaryOp::Add]),
        ("-42.42 + -bar % 9000", vec![BinaryOp::Mod, BinaryOp::Add]),
        ("foo + bar", vec![BinaryOp::Add]),
        ("foo + bar - baz", vec![BinaryOp::Add, BinaryOp::Sub]),
        ("foo + bar * baz", vec![BinaryOp::Mul, BinaryOp::Add]),
        ("foo * bar + baz", vec![BinaryOp::Mul, BinaryOp::Add]),
        ("foo * bar ^ baz", vec![BinaryOp::Pow, BinaryOp::Mul]),
        ("foo * bar ^ baz - qux / abc", vec![BinaryOp::Pow, BinaryOp::Mul, BinaryOp::Div, BinaryOp::Sub]),
    ];

    for (input, expected_ops) in &tests {
        assert_eq!(expected_ops, &extract_operators(&parse(input)), "while parsing {}", input);
    }
}

#[test]
fn test_binary_expr_bool_modifier() {
    let tests = [
        ("1 >  bool 1", "foo"),
        ("1 == bool 1", "foo"),
        ("1 < bool 2 - 1 * 2", "foo"),
        ("foo != bool 1", "foo"),
        ("foo != bool bar", "foo"),
    ];

    for (input, _expected_ops) in &tests {
        let ex = parse(input);
        println!("{:?}", ex);
    }
}

#[test]
fn bool_modifier_is_recorded() {
    match parse("foo != bool bar") {
        Expr::BinaryOperation(b) => {
            assert_eq!(BinaryOp::Neq, b.op());
            assert!(b.bool_modifier);
        },
        e => panic!("unexpected {:?}", e),
    }
}

#[test]
fn test_binary_expr_label_matching() {
    let tests = [
        ("foo * on() bar", "foo"),
        ("foo % ignoring() bar", "foo"),
        ("foo + on(abc) bar", "foo"),
        ("foo != on(abc,def) bar", "foo"),
        ("foo > on(abc,def,) bar", "foo"),
        ("foo - on(abc) bar / on(qux, lol) baz", "foo"),
    ];

    for (input, _expected_ops) in &tests {
        let ex = parse(input);
        println!("{:?}", ex);
    }
}

#[test]
fn label_matching_is_recorded() {
    match parse("foo != on(abc,def) bar") {
        Expr::BinaryOperation(b) => {
            assert_eq!(Some(LabelMatching::On(vec!["abc".to_string(), "def".to_string()])), b.label_matching);
        },
        e => panic!("unexpected {:?}", e),
    }
}

#[test]
fn test_group_modifier() {
    let tests = [
        ("foo * on(test) group_left bar", "foo"),
        ("foo * on(test,blub) group_left() bar", "foo"),
        ("foo + ignoring(abc) group_right (qux) bar", "foo"),
        ("foo + ignoring(abc) group_right(def,qux,) bar", "foo"),
    ];

    for (input, _expected_ops) in &tests {
        let ex = parse(input);
        println!("{:?}", ex);
    }
}

#[test]
fn group_modifier_is_recorded() {
    match parse("foo + ignoring(abc) group_right(def,qux,) bar") {
        Expr::BinaryOperation(b) => {
            assert_eq!(Some(LabelMatching::Ignoring(vec!["abc".to_string()])), b.label_matching);
            assert_eq!(Some(GroupModifier::Right(vec!["def".to_string(), "qux".to_string()])), b.group_modifier);
        },
        e => panic!("unexpected {:?}", e),
    }
}

#[test]
fn number_test_valid_expressions_ex() {
    let tests = [
        ("1", 1.0),
        ("1.", 1.0),
        (".1", 0.1),
        ("2e-5", 0.00002),
        ("Inf", f64::INFINITY),
        ("+Inf", f64::INFINITY),
        ("-Inf", f64::NEG_INFINITY),
    ];

    for (input, expected) in &tests {
        match parse(input) {
            Expr::NumberLiteral(n) => {
                let v: f64 = n.parse().expect("number literal");
                assert_eq!(*expected, v, "while parsing {}", input);
            },
            e => panic!("unexpected {:?} while parsing {}", e, input),
        }
    }
}

#[test]
fn over_time_functions_are_not_aggregations() {
    match parse("avg_over_time(foo[5m])") {
        Expr::FunctionCall(f) => assert_eq!(pq::query::parser::ast::FunctionName::AvgOverTime, f.function_name()),
        e => panic!("unexpected {:?}", e),
    }
    match parse("count_values(\"x\", foo)") {
        Expr::AggregateOperation(a) => assert_eq!(pq::query::parser::ast::AggregateOp::CountValues, a.op),
        e => panic!("unexpected {:?}", e),
    }
    match parse("summary") {
        Expr::VectorSelector(_) => {},
        e => panic!("unexpected {:?}", e),
    }
    match parse("sum(sum_over_time(content_len[1s])) by (method) / 1024") {
        Expr::BinaryOperation(b) => assert!(matches!(*b.lhs, Expr::AggregateOperation(_))),
        e => panic!("unexpected {:?}", e),
    }
}

#[test]
fn whole_query_is_parsed() {
    let q = parse_query("sum(foo) by (job) / 2").expect("query");
    assert_eq!("(agg Div 2)", shape(&q));
    let e = parse_query("foo{} bar").expect_err("left over");
    assert_eq!("1:5: parse error: unexpected '\" bar\"'", e.error().message());
    assert!(matches!(e, pq::parse::ParseErr::Failure(_)));
    assert!(parse_query("").is_err());
}
