use pq::query::aggregate::{AggregateEvaluator, AggregationKind};
use pq::query::parser::ast::{AggregateModifier, AggregateOp};
use pq::model::label_set::Labels;
use pq::query::evaluator::{align, binary_evaluator_kind, binary_evaluator_supported, evaluation_plan, find_smallest_range, Alignment, BinaryEvaluatorKind, IdentityEvaluator, Plan, QueryEvaluator, UnaryEvaluator};
use pq::query::parser::ast::{BinaryOp, FunctionName, LabelMatching, UnaryOp};
use pq::query::parser::expr::expr;
use pq::query::sample::{Cursor, Record, Sample, SampleReader};
use pq::query::value::{InstantVector, QueryValue, QueryValueKind, RangeVector};
use pq::text::to_chars;

fn labels(pairs: &[(&str, &str)]) -> Labels {
    Labels::from_pairs(pairs.iter().map(|(n, v)| (n.to_string(), v.to_string())).collect())
}

fn get(l: &Labels, name: &str) -> Option<String> {
    l.get(&name.to_string()).cloned()
}

#[test]
fn labels_insert_replaces() {
    let mut l = labels(&[("a", "1"), ("b", "2")]);
    l.insert("a".to_string(), "3".to_string());
    assert_eq!(Some("3".to_string()), get(&l, "a"));
    assert_eq!(Some("2".to_string()), get(&l, "b"));
    assert_eq!(2, l.entries().len());
}

#[test]
fn labels_with_and_without() {
    let l = labels(&[("__name__", "m"), ("job", "x"), ("instance", "i")]);
    let by = l.with(&vec!["job".to_string()]);
    assert!(by.same(&labels(&[("job", "x")])));
    let without = l.without(&vec!["job".to_string()]);
    assert!(without.same(&labels(&[("instance", "i")])));
    let on_name = l.with(&vec!["__name__".to_string()]);
    assert!(on_name.same(&labels(&[("__name__", "m")])));
}

#[test]
fn labels_name() {
    let mut l = labels(&[("__name__", "m"), ("job", "x")]);
    assert_eq!(Some(&"m".to_string()), l.name());
    l.set_name("n".to_string());
    assert_eq!(Some(&"n".to_string()), l.name());
    l.drop_name();
    assert_eq!(None, l.name());
    assert!(l.same(&labels(&[("job", "x")])));
}

#[test]
fn labels_same_ignores_order() {
    assert!(labels(&[("a", "1"), ("b", "2")]).same(&labels(&[("b", "2"), ("a", "1")])));
    assert!(!labels(&[("a", "1")]).same(&labels(&[("a", "1"), ("b", "2")])));
    assert!(!labels(&[("a", "1")]).same(&labels(&[("a", "2")])));
}

fn vector(t: i64, samples: &[(&[(&str, &str)], f64)]) -> InstantVector<f64> {
    InstantVector::new(t, samples.iter().map(|(l, v)| (labels(l), *v)).collect())
}

fn values(v: &InstantVector<f64>) -> Vec<f64> {
    v.samples().iter().map(|(_, x)| *x).collect()
}

#[test]
fn scalar_op_filters_and_drops_name() {
    let mut v = vector(7, &[(&[("__name__", "m"), ("a", "1")], 1.0), (&[("__name__", "m"), ("a", "2")], 5.0)]);
    let r = v.apply_scalar_op(|x| if x > 2.0 { Some(x * 10.0) } else { None }, false);
    assert_eq!(7, r.timestamp());
    assert_eq!(vec![50.0], values(&r));
    assert!(r.samples()[0].0.same(&labels(&[("a", "2")])));
    let kept = v.apply_scalar_op(|x| Some(-x), true);
    assert_eq!(vec![-1.0, -5.0], values(&kept));
    assert_eq!(Some(&"m".to_string()), kept.samples()[0].0.name());
}

#[test]
fn one_to_one_matches_by_signature() {
    let lhs = vector(1, &[(&[("__name__", "a"), ("job", "x")], 1.0), (&[("__name__", "a"), ("job", "y")], 2.0)]);
    let rhs = vector(1, &[(&[("__name__", "b"), ("job", "y")], 10.0), (&[("__name__", "b"), ("job", "z")], 20.0)]);
    let r = lhs.apply_vector_op_one_to_one(|l, r| Some(l + r), &rhs, None, false);
    assert_eq!(vec![12.0], values(&r));
    assert!(r.samples()[0].0.same(&labels(&[("job", "y")])));
    let named = lhs.apply_vector_op_one_to_one(|l, r| Some(l + r), &rhs, None, true);
    assert!(named.samples()[0].0.same(&labels(&[("__name__", "a"), ("job", "y")])));
}

#[test]
fn one_to_one_with_on_and_ignoring() {
    let lhs = vector(1, &[(&[("job", "x"), ("i", "1")], 1.0)]);
    let rhs = vector(1, &[(&[("job", "x"), ("i", "2")], 5.0)]);
    let on = LabelMatching::On(vec!["job".to_string()]);
    let r = lhs.apply_vector_op_one_to_one(|l, r| Some(l * r), &rhs, Some(&on), false);
    assert_eq!(vec![5.0], values(&r));
    let ignoring = LabelMatching::Ignoring(vec!["i".to_string()]);
    let r = lhs.apply_vector_op_one_to_one(|l, r| Some(l - r), &rhs, Some(&ignoring), false);
    assert_eq!(vec![-4.0], values(&r));
    let r = lhs.try_apply_vector_op_one_to_one(|l, r| Some(l - r), &rhs, None, false).unwrap();
    assert!(r.samples().is_empty());
}

#[test]
fn one_to_one_errors() {
    let lhs = vector(1, &[(&[("job", "x"), ("i", "1")], 1.0), (&[("job", "x"), ("i", "2")], 2.0)]);
    let rhs = vector(1, &[(&[("job", "x")], 5.0)]);
    let on = LabelMatching::On(vec!["job".to_string()]);
    let e = lhs.try_apply_vector_op_one_to_one(|l, r| Some(l + r), &rhs, Some(&on), false).unwrap_err();
    assert_eq!("Many-to-one matching detected! If it's desired, use explicit group_left/group_right modifier", e.message());
    // Only one left sample gives a value: no conflict.
    let r = lhs.try_apply_vector_op_one_to_one(|l, r| if l > 1.0 { Some(l + r) } else { None }, &rhs, Some(&on), false).unwrap();
    assert_eq!(vec![7.0], values(&r));
    let e = rhs.try_apply_vector_op_one_to_one(|l, r| Some(l + r), &lhs, Some(&on), false).unwrap_err();
    assert_eq!("found series collision for matching labels", e.message());
    let later = vector(2, &[]);
    let e = lhs.try_apply_vector_op_one_to_one(|l, r| Some(l + r), &later, None, false).unwrap_err();
    assert_eq!("assertion failed: self.instant == other.instant", e.message());
    let e = lhs.apply_vector_op_one_to_many(|l, r| Some(l + r), &rhs, Some(&on), &vec![]).unwrap_err();
    assert_eq!("not implemented", e.message());
    let e = lhs.apply_vector_op_many_to_one(|l, r| Some(l + r), &later, Some(&on), &vec![]).unwrap_err();
    assert_eq!("assertion failed: self.instant == other.instant", e.message());
}

#[test]
fn range_vector_and_kinds() {
    let rv: RangeVector<f64> = RangeVector::new(9, vec![(labels(&[("a", "1")]), vec![(1.0, 8), (2.0, 9)])]);
    assert_eq!(9, rv.timestamp());
    assert_eq!(2, rv.samples()[0].1.len());
    assert_eq!(QueryValueKind::RangeVector, QueryValue::RangeVector(rv).kind());
    assert_eq!(QueryValueKind::Scalar, QueryValue::<f64>::Scalar(1.0).kind());
}

#[test]
fn sample_carries_its_name() {
    let s = Sample::new("m".to_string(), 1.5, 10, labels(&[("a", "1")]));
    assert_eq!(1.5, s.value());
    assert_eq!(10, s.timestamp());
    assert_eq!(Some(&"m".to_string()), s.label(&"__name__".to_string()));
    assert_eq!(Some(&"1".to_string()), s.label(&"a".to_string()));
    assert_eq!(None, s.label(&"b".to_string()));
}

fn record(ts: Option<i64>, values: &[(&str, f64)]) -> Record<f64> {
    let mut r = Record::new(3, ts, labels(&[("host", "h")]));
    for (n, v) in values {
        r.set(n.to_string(), *v);
    }
    r
}

#[test]
fn record_values_have_distinct_names() {
    let mut r = record(Some(1), &[("x", 1.0), ("y", 2.0)]);
    r.set("x".to_string(), 5.0);
    assert_eq!(vec![("x".to_string(), 5.0), ("y".to_string(), 2.0)], *r.values());
    assert_eq!(3, r.line_no());
    assert_eq!(Some(1), r.timestamp());
    assert_eq!(Some(&"h".to_string()), r.labels().get(&"host".to_string()));
}

fn names(c: &Cursor, r: &mut SampleReader<f64>) -> Vec<(String, f64)> {
    let mut out = vec![];
    while let Some(s) = c.read(r) {
        out.push((s.label(&"__name__".to_string()).unwrap().clone(), s.value()));
    }
    out
}

#[test]
fn every_cursor_reads_every_sample_in_order() {
    let mut reader: SampleReader<f64> = SampleReader::new();
    let a = reader.cursor();
    assert!(a.read(&mut reader).is_none());
    assert!(!reader.refill(&record(None, &[("x", 1.0)]), 3.0));
    assert!(a.read(&mut reader).is_none());
    assert!(reader.refill(&record(Some(5), &[("x", 1.0), ("__line__", 9.0)]), 3.0));
    let b = reader.cursor();
    assert!(reader.refill(&record(Some(6), &[("y", 2.0)]), 4.0));
    assert_eq!(
        vec![("x".to_string(), 1.0), ("__line__".to_string(), 3.0), ("y".to_string(), 2.0), ("__line__".to_string(), 4.0)],
        names(&a, &mut reader)
    );
    assert_eq!(vec![("y".to_string(), 2.0), ("__line__".to_string(), 4.0)], names(&b, &mut reader));
}

#[test]
fn smallest_range_of_a_query() {
    let q = to_chars("avg_over_time(foo[5m]) + bar[1m] * 2");
    let (_, e) = match expr(&q, 0, None) {
        Ok(r) => r,
        Err(e) => panic!("{:?}", pq::parse::to_parse_err(&q, e).error().message()),
    };
    assert_eq!(Some(60 * 1000), find_smallest_range(&e));
    let q = to_chars("1 + 2");
    let (_, e) = expr(&q, 0, None).ok().expect("query");
    assert_eq!(None, find_smallest_range(&e));
    let ev = QueryEvaluator::new(&e, None, None, None).ok().expect("evaluator");
    assert_eq!(1000, ev.interval());
    assert_eq!(1000, ev.lookback());
    // The step is one second unless given, whatever the ranges of the query.
    let q = to_chars("sum_over_time(content_len[5s])");
    let (_, e) = expr(&q, 0, None).ok().expect("query");
    assert_eq!(Some(5000), find_smallest_range(&e));
    let ev = QueryEvaluator::new(&e, None, None, None).ok().expect("evaluator");
    assert_eq!(1000, ev.interval());
}

#[test]
fn scalar_query_is_pulled_once() {
    let q = to_chars("1");
    let (_, e) = expr(&q, 0, None).ok().expect("query");
    let mut ev = QueryEvaluator::new(&e, Some(10), Some(20), Some(3)).ok().expect("evaluator");
    assert_eq!(10, ev.interval());
    assert_eq!(20, ev.lookback());
    assert_eq!(Some(3), ev.start_at());
    assert!(ev.next());
    assert!(!ev.next());
    assert!(!ev.next());
    let q = to_chars("foo");
    let (_, e) = expr(&q, 0, None).ok().expect("query");
    let mut vec_ev = QueryEvaluator::new(&e, Some(10), None, None).ok().expect("evaluator");
    assert!(vec_ev.next());
    assert!(vec_ev.next());
}

#[test]
fn binary_evaluator_choice() {
    let (sc, iv, rv) = (QueryValueKind::Scalar, QueryValueKind::InstantVector, QueryValueKind::RangeVector);
    assert_eq!(BinaryEvaluatorKind::ScalarScalar, binary_evaluator_kind(sc, BinaryOp::Add, sc, false, false, false));
    assert!(!binary_evaluator_supported(sc, BinaryOp::Gtr, sc, false, false, false));
    assert!(binary_evaluator_supported(sc, BinaryOp::Gtr, sc, true, false, false));
    assert_eq!(BinaryEvaluatorKind::ScalarVector, binary_evaluator_kind(sc, BinaryOp::Gtr, iv, false, false, false));
    assert_eq!(BinaryEvaluatorKind::VectorScalar, binary_evaluator_kind(iv, BinaryOp::Mul, sc, false, false, false));
    assert_eq!(BinaryEvaluatorKind::VectorVector, binary_evaluator_kind(iv, BinaryOp::And, iv, false, true, false));
    assert!(!binary_evaluator_supported(iv, BinaryOp::And, sc, false, false, false));
    assert!(!binary_evaluator_supported(rv, BinaryOp::Add, sc, false, false, false));
    assert!(!binary_evaluator_supported(iv, BinaryOp::Add, iv, false, false, true));
    assert!(binary_evaluator_supported(iv, BinaryOp::Add, iv, false, true, true));
}

#[test]
fn alignment_of_vector_streams() {
    assert_eq!(Alignment::Combine, align(5, 5));
    assert_eq!(Alignment::SkipLeft(4), align(4, 5));
    assert_eq!(Alignment::SkipRight(5), align(6, 5));
}

#[test]
fn identity_and_unary() {
    let mut id = IdentityEvaluator::scalar(2.5);
    assert_eq!(QueryValueKind::Scalar, id.value_kind());
    for _ in 0..3 {
        match id.next() {
            Some(QueryValue::Scalar(v)) => assert_eq!(2.5, v),
            _ => panic!("scalar expected"),
        }
    }
    let neg = UnaryEvaluator::new(UnaryOp::Sub, QueryValueKind::InstantVector);
    assert_eq!(QueryValueKind::InstantVector, neg.value_kind());
    let v = vector(1, &[(&[("__name__", "m")], 3.0)]);
    match neg.next_value(Some(QueryValue::InstantVector(v)), |x: f64| Some(-x)) {
        Some(QueryValue::InstantVector(w)) => {
            assert_eq!(vec![-3.0], values(&w));
            assert_eq!(Some(&"m".to_string()), w.samples()[0].0.name());
        },
        _ => panic!("vector expected"),
    }
    let plus = UnaryEvaluator::new(UnaryOp::Add, QueryValueKind::InstantVector);
    let v = vector(1, &[(&[], 3.0)]);
    match plus.next_value(Some(QueryValue::InstantVector(v)), |x: f64| Some(-x)) {
        Some(QueryValue::InstantVector(w)) => assert_eq!(vec![3.0], values(&w)),
        _ => panic!("vector expected"),
    }
    assert!(plus.next_value::<f64>(None, |x: f64| Some(-x)).is_none());
}

#[test]
fn over_time_drops_the_name() {
    let rv: RangeVector<f64> = RangeVector::new(
        9,
        vec![
            (labels(&[("__name__", "m"), ("a", "1")]), vec![(1.0, 8), (2.0, 9)]),
            (labels(&[("__name__", "m"), ("a", "2")]), vec![(5.0, 9)]),
        ],
    );
    let r = rv.apply_over_time(|s: &Vec<(f64, i64)>| s.iter().map(|(v, _)| *v).sum());
    assert_eq!(9, r.timestamp());
    assert_eq!(vec![3.0, 5.0], values(&r));
    assert!(r.samples()[0].0.same(&labels(&[("a", "1")])));
}

#[test]
fn labels_signature_is_sorted() {
    let l = labels(&[("b", "2"), ("__name__", "m"), ("a", "1")]);
    assert_eq!(
        vec![("__name__".to_string(), "m".to_string()), ("a".to_string(), "1".to_string()), ("b".to_string(), "2".to_string())],
        l.to_vec()
    );
}

#[test]
fn aggregation_groups_in_signature_order() {
    let v = vector(
        4,
        &[
            (&[("__name__", "m"), ("job", "z"), ("i", "1")], 1.0),
            (&[("__name__", "m"), ("job", "a"), ("i", "2")], 2.0),
            (&[("__name__", "m"), ("job", "z"), ("i", "3")], 3.0),
        ],
    );
    let by_job = AggregateEvaluator::new(AggregateOp::Sum, Some(AggregateModifier::By(vec!["job".to_string()])), None);
    let groups = by_job.groups(&v);
    assert_eq!(2, groups.len());
    assert!(groups[0].0.same(&labels(&[("job", "a")])));
    assert_eq!(vec![2.0], groups[0].1.iter().map(|(_, x)| *x).collect::<Vec<_>>());
    assert!(groups[1].0.same(&labels(&[("job", "z")])));
    assert_eq!(vec![1.0, 3.0], groups[1].1.iter().map(|(_, x)| *x).collect::<Vec<_>>());
    let all = AggregateEvaluator::new(AggregateOp::Sum, None, None);
    let groups = all.groups(&v);
    assert_eq!(1, groups.len());
    assert!(groups[0].0.same(&labels(&[])));
    assert_eq!(3, groups[0].1.len());
    let without = AggregateEvaluator::new(AggregateOp::Max, Some(AggregateModifier::Without(vec!["i".to_string()])), None);
    let groups = without.groups(&v);
    assert_eq!(2, groups.len());
    assert!(groups[0].0.same(&labels(&[("job", "a")])));
    assert_eq!(AggregateOp::Max, without.op());
}

#[test]
fn aggregation_folds() {
    let v = vector(
        4,
        &[
            (&[("job", "z")], 1.0),
            (&[("job", "a")], 2.0),
            (&[("job", "z")], 3.0),
        ],
    );
    let by_job = AggregateEvaluator::new(AggregateOp::Sum, Some(AggregateModifier::By(vec!["job".to_string()])), None);
    let sums = by_job.next_simple(&v, |a, b| a + b);
    assert_eq!(4, sums.timestamp());
    assert_eq!(vec![2.0, 4.0], values(&sums));
    assert!(sums.samples()[1].0.same(&labels(&[("job", "z")])));
    // `count` starts from the first value, then adds one per sample.
    let counts = by_job.next_simple(&v, |a, _| a + 1.0);
    assert_eq!(vec![2.0, 2.0], values(&counts));
    let avgs = by_job.next_avg(&v, |a, b| a + b, |s, n| s / n as f64);
    assert_eq!(vec![2.0, 2.0], values(&avgs));
}

#[test]
fn aggregation_top_and_bottom_k() {
    let v = vector(
        7,
        &[
            (&[("job", "z"), ("i", "1")], 5.0),
            (&[("job", "a"), ("i", "2")], 2.0),
            (&[("job", "z"), ("i", "3")], 9.0),
            (&[("job", "z"), ("i", "4")], 1.0),
            (&[("job", "a"), ("i", "5")], 4.0),
        ],
    );
    let by_job = AggregateEvaluator::new(AggregateOp::TopK, Some(AggregateModifier::By(vec!["job".to_string()])), None);
    let mut top = values(&by_job.next_top_bottom_k(&v, 2, |a: f64, b: f64| a < b));
    // Group `a` first, then `z`; within a group the kept samples in any order.
    top[0..2].sort_by(|a, b| a.partial_cmp(b).unwrap());
    top[2..4].sort_by(|a, b| a.partial_cmp(b).unwrap());
    assert_eq!(vec![2.0, 4.0, 5.0, 9.0], top);
    let bottom = by_job.next_top_bottom_k(&v, 1, |a: f64, b: f64| a > b);
    assert_eq!(7, bottom.timestamp());
    assert_eq!(vec![2.0, 1.0], values(&bottom));
    assert!(bottom.samples()[1].0.same(&labels(&[("job", "z"), ("i", "4")])));
    // `k` of zero still keeps one sample of each group.
    let zero = by_job.next_top_bottom_k(&v, 0, |a: f64, b: f64| a < b);
    assert_eq!(vec![4.0, 9.0], values(&zero));
}

fn plan_of(text: &str) -> Result<(Plan, QueryValueKind), String> {
    let q = to_chars(text);
    let (_, e) = expr(&q, 0, None).ok().expect("query");
    evaluation_plan(&e).map_err(|e| e.message().clone())
}

#[test]
fn evaluation_plans_of_queries() {
    let (p, k) = plan_of("sum(sum_over_time(content_len[1s])) by (method) / 1024").unwrap();
    assert_eq!(QueryValueKind::InstantVector, k);
    match p {
        Plan::Binary(BinaryEvaluatorKind::VectorScalar, l, r) => {
            match *l {
                Plan::Aggregate(inner) => assert!(matches!(*inner, Plan::OverTime(FunctionName::SumOverTime, ref s) if matches!(**s, Plan::RangeSelector))),
                other => panic!("aggregation expected, got {:?}", other),
            }
            assert!(matches!(*r, Plan::Number));
        },
        other => panic!("binary expected, got {:?}", other),
    }
    let (p, k) = plan_of("-(foo)").unwrap();
    assert_eq!(QueryValueKind::InstantVector, k);
    assert!(matches!(p, Plan::Unary(UnaryOp::Sub, ref x) if matches!(**x, Plan::InstantSelector)));
    let (p, k) = plan_of("1 + 2").unwrap();
    assert_eq!(QueryValueKind::Scalar, k);
    assert!(matches!(p, Plan::Binary(BinaryEvaluatorKind::ScalarScalar, _, _)));
    assert_eq!(QueryValueKind::RangeVector, plan_of("foo[5m]").unwrap().1);
    assert_eq!(
        "assertion failed: inner.value_kind() == QueryValueKind::InstantVector",
        plan_of("sum(foo[1s])").unwrap_err()
    );
    assert_eq!("operation is not supported", plan_of("foo[1s] + 1").unwrap_err());
    assert_eq!("operation is not supported", plan_of("1 > 2").unwrap_err());
    let e = pq::query::parser::ast::Expr::FunctionCall(pq::query::parser::ast::FunctionCall::new(
        FunctionName::Clamp,
        vec![],
    ));
    assert_eq!("not implemented: Coming soon...", evaluation_plan(&e).unwrap_err().message());
    let e = pq::query::parser::ast::Expr::FunctionCall(pq::query::parser::ast::FunctionCall::new(
        FunctionName::SumOverTime,
        vec![],
    ));
    assert_eq!("assertion failed: args.len() == 1", evaluation_plan(&e).unwrap_err().message());
    let e = pq::query::parser::ast::Expr::FunctionCall(pq::query::parser::ast::FunctionCall::new(
        FunctionName::SumOverTime,
        vec![pq::query::parser::ast::FunctionCallArg::Number("1".to_string())],
    ));
    assert_eq!("unexpected argument type", evaluation_plan(&e).unwrap_err().message());
}

#[test]
fn feeding_records_in_parts() {
    let mut reader: SampleReader<f64> = SampleReader::new();
    let a = reader.cursor();
    reader.feed(&vec![(record(Some(5), &[("x", 1.0)]), 1.0), (record(None, &[("z", 7.0)]), 2.0)]);
    let b = reader.cursor();
    let c = reader.cursor();
    reader.feed(&vec![(record(Some(6), &[("y", 2.0)]), 3.0)]);
    assert_eq!(
        vec![("x".to_string(), 1.0), ("__line__".to_string(), 1.0), ("y".to_string(), 2.0), ("__line__".to_string(), 3.0)],
        names(&a, &mut reader)
    );
    assert_eq!(vec![("y".to_string(), 2.0), ("__line__".to_string(), 3.0)], names(&b, &mut reader));
    assert_eq!(vec![("y".to_string(), 2.0), ("__line__".to_string(), 3.0)], names(&c, &mut reader));
}

#[test]
fn vector_operation_by_group_modifier() {
    let lhs = vector(1, &[(&[("job", "x"), ("i", "1")], 1.0)]);
    let rhs = vector(1, &[(&[("job", "x")], 5.0)]);
    let on = LabelMatching::On(vec!["job".to_string()]);
    let r = lhs.try_apply_vector_op(|l, r| Some(l + r), &rhs, Some(&on), None, false).unwrap();
    assert_eq!(vec![6.0], values(&r));
    let left = pq::query::parser::ast::GroupModifier::Left(vec![]);
    let e = lhs.try_apply_vector_op(|l, r| Some(l + r), &rhs, Some(&on), Some(&left), false).unwrap_err();
    assert_eq!("not implemented", e.message());
    let later = vector(2, &[]);
    let right = pq::query::parser::ast::GroupModifier::Right(vec![]);
    let e = lhs.try_apply_vector_op(|l, r| Some(l + r), &later, Some(&on), Some(&right), false).unwrap_err();
    assert_eq!("assertion failed: self.instant == other.instant", e.message());
}

#[test]
fn aggregation_kinds() {
    let kind = |op| AggregateEvaluator::new(op, None, None).kind();
    assert_eq!(AggregationKind::Average, kind(AggregateOp::Avg));
    assert_eq!(AggregationKind::Fold, kind(AggregateOp::Count));
    assert_eq!(AggregationKind::Fold, kind(AggregateOp::Sum));
    assert_eq!(AggregationKind::Selection, kind(AggregateOp::BottomK));
    assert_eq!(AggregationKind::Unsupported, kind(AggregateOp::Quantile));
}
