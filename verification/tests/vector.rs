use pq::lexer::label_identifier;
use pq::model::labels::{LabelMatcher, MatchOp};
use pq::parse::{to_parse_err, ErrKind, PErr, ParseErr};
use pq::query::parser::ast::VectorSelector;
use pq::query::parser::vector::{label_matcher, label_matchers, match_op, vector_selector};
use pq::text::to_chars;

fn op_of(op: &str) -> MatchOp {
    match op {
        "=" => MatchOp::Eql,
        "!=" => MatchOp::Neq,
        "=~" => MatchOp::EqlRe,
        "!~" => MatchOp::NeqRe,
        _ => panic!("bad test data"),
    }
}

fn matcher((label, op, value): (&str, &str, &str)) -> LabelMatcher {
    LabelMatcher::new(label.to_string(), op_of(op), value.to_string()).expect("bad test data")
}

fn matchers(ms: &[(&str, &str, &str)]) -> Vec<LabelMatcher> {
    ms.iter().map(|&t| matcher(t)).collect()
}

/// Kind, message, (line, offset) and remaining input of an error.
fn describe(input: &Vec<char>, e: PErr) -> (ErrKind, String, (u32, usize), String) {
    let pe = to_parse_err(input, e);
    let kind = match &pe {
        ParseErr::Error(_) => ErrKind::Error,
        ParseErr::Failure(_) => ErrKind::Failure,
        ParseErr::Abort(_) => ErrKind::Abort,
    };
    let err = pe.error();
    (kind, err.message(), (err.line(), err.offset()), err.span().fragment())
}

fn partial_message(line: u32, offset: usize, fragment: &str, wherein: &str, expected: &str) -> String {
    let unexpected = if fragment.is_empty() { "EOF".to_string() } else { format!("\"{}\"", fragment) };
    format!("{}:{}: parse error: unexpected '{}' in {}, expected {}", line, offset, unexpected, wherein, expected)
}

#[test]
fn vector_test_vector_selector_valid() {
    let tests: Vec<(&str, Option<&str>, Option<u128>, Vec<(&str, &str, &str)>)> = vec![
        (r#"foo"#, Some("foo"), None, vec![]),
        (r#"foo[1h5m]"#, Some("foo"), Some(3900 * 1000), vec![]),
        (r#"foo or bar"#, Some("foo"), None, vec![]),
        (r#"foo{}"#, Some("foo"), None, vec![]),
        (r#"foo {}"#, Some("foo"), None, vec![]),
        (r#"foo {}[5ms]"#, Some("foo"), Some(5), vec![]),
        (r#"foo {}  [1m3s]"#, Some("foo"), Some(63 * 1000), vec![]),
        (r#"foo  {   }"#, Some("foo"), None, vec![]),
        (r#"{__name__="foo"}"#, None, None, vec![("__name__", "=", "foo")]),
        (r#"{__name__=~"foo"}"#, None, None, vec![("__name__", "=~", "foo")]),
        (r#"{__name__=~"foo",__name__=~"bar"}"#, None, None, vec![("__name__", "=~", "foo"), ("__name__", "=~", "bar")]),
        (r#"foo{name=~"bar"}"#, Some("foo"), None, vec![("name", "=~", "bar")]),
    ];

    for (input, metric, duration, labels) in tests {
        let s = to_chars(input);
        let actual = match vector_selector(&s, 0) {
            Ok((_, sel)) => sel,
            Err(e) => panic!("Got error {:?} while testing input {}", describe(&s, e), input),
        };
        let expected = VectorSelector::new(metric.map(|m| m.to_string()), matchers(&labels), duration)
            .expect("bad test case");
        assert_eq!(expected, actual, "while testing input {}", input);
    }
}

#[test]
fn vector_test_vector_selector_invalid() {
    let tests = [
        (r#"{}"#, "1:0: parse error: vector selector must contain at least one non-empty matcher", (1, 0)),
        (r#"{foo=""}"#, "1:0: parse error: vector selector must contain at least one non-empty matcher", (1, 0)),
        (r#"{foo=~".*"}"#, "1:0: parse error: vector selector must contain at least one non-empty matcher", (1, 0)),
        (r#"{foo!~".+"}"#, "1:0: parse error: vector selector must contain at least one non-empty matcher", (1, 0)),
        (r#"{foo!="bar"}"#, "1:0: parse error: vector selector must contain at least one non-empty matcher", (1, 0)),
        (r#"foo{__name__="foo"}"#, "1:0: parse error: potentially ambiguous metric name match", (1, 0)),
        (r#"foo{__name__="bar"}"#, "1:0: parse error: potentially ambiguous metric name match", (1, 0)),
    ];

    for &(input, err_msg, err_pos) in &tests {
        let s = to_chars(input);
        let (_, msg, pos, _) = match vector_selector(&s, 0) {
            Ok((_, sel)) => panic!("Got result {:?} while testing input {}", sel, input),
            Err(e) => describe(&s, e),
        };
        assert_eq!(err_msg, msg);
        assert_eq!(err_pos, pos);
    }
}

#[test]
fn vector_test_label_matchers_valid() {
    let tests: Vec<(&str, Vec<(&str, &str, &str)>)> = vec![
        (r#"{}"#, vec![]),
        (r#"{ }"#, vec![]),
        (r#"{   }"#, vec![]),
        (r#"{   }  "#, vec![]),
        (r#"{} or"#, vec![]),
        (r#"{foo!~"123 qux"}"#, vec![("foo", "!~", "123 qux")]),
        (r#"{foo!~"123 qux",bar="42"}"#, vec![("foo", "!~", "123 qux"), ("bar", "=", "42")]),
        (r#"{ foo="bar"}"#, vec![("foo", "=", "bar")]),
        (r#"{  foo="bar"}"#, vec![("foo", "=", "bar")]),
        (r#"{foo="bar",}"#, vec![("foo", "=", "bar")]),
        (r#"{foo="bar" ,}"#, vec![("foo", "=", "bar")]),
        (r#"{foo="bar"  ,}"#, vec![("foo", "=", "bar")]),
        (r#"{foo="bar"  , }"#, vec![("foo", "=", "bar")]),
        (r#"{foo="bar"  ,  }"#, vec![("foo", "=", "bar")]),
        (r#"{foo="bar",qux="123"}"#, vec![("foo", "=", "bar"), ("qux", "=", "123")]),
        (r#"{foo="bar", qux="123"}"#, vec![("foo", "=", "bar"), ("qux", "=", "123")]),
        (r#"{foo="bar" , qux="123"}"#, vec![("foo", "=", "bar"), ("qux", "=", "123")]),
        (r#"{foo="bar", qux="123", abc="xyz"}"#, vec![("foo", "=", "bar"), ("qux", "=", "123"), ("abc", "=", "xyz")]),
        (r#"{foo="bar", qux="123" , abc="xyz"}"#, vec![("foo", "=", "bar"), ("qux", "=", "123"), ("abc", "=", "xyz")]),
        (r#"{ foo ="bar"}"#, vec![("foo", "=", "bar")]),
        (r#"{ foo= "bar"}"#, vec![("foo", "=", "bar")]),
        (r#"{ foo = "bar"}"#, vec![("foo", "=", "bar")]),
        (r#"{    foo   =    "bar",   qux    =   "123"    }"#, vec![("foo", "=", "bar"), ("qux", "=", "123")]),
    ];

    for (input, expected) in tests {
        let s = to_chars(input);
        let (_, actual) = match label_matchers(&s, 0) {
            Ok(r) => r,
            Err(e) => panic!("Got error {:?} while testing input {}", describe(&s, e), input),
        };
        assert_eq!(matchers(&expected), actual, "while testing input {}", input);
    }
}

#[test]
fn vector_test_label_matchers_partial() {
    let tests = [
        (r#"{"#, "", (1, 1), r#"identifier or "}""#),
        (r#"{123"#, "123", (1, 1), r#"identifier or "}""#),
        (r#"{,}"#, ",}", (1, 1), r#"identifier or "}""#),
        (r#"{foo!~"123 qux",,}"#, r#",}"#, (1, 16), r#"identifier or "}""#),
        (r#"{foo"#, "", (1, 4), r#"one of "=", "!=", "=~", "!~""#),
        (r#"{foo="bar",f12=}"#, r#"}"#, (1, 15), "label value as string literal"),
        (r#"{foo="bar",baz=~"42",qux!}"#, r#"!}"#, (1, 24), r#"one of "=", "!=", "=~", "!~""#),
    ];

    for &(input, unexpected, error_pos, expected) in &tests {
        let s = to_chars(input);
        let (kind, msg, pos, fragment) = match label_matchers(&s, 0) {
            Err(e) => describe(&s, e),
            Ok(_) => panic!("unexpected result"),
        };
        assert_eq!(ErrKind::Failure, kind, "while testing input {}", input);
        assert_eq!(partial_message(pos.0, pos.1, &fragment, "label matching", expected), msg);
        assert_eq!(unexpected, fragment);
        assert_eq!(error_pos, pos);
    }
}

#[test]
fn vector_test_label_matchers_invalid() {
    let tests = [(
        r#"{foo=~"*"}"#,
        (1, 1),
        "1:1: parse error: regex parse error:\n    ^(?:*)$\n        ^\nerror: repetition operator missing expression",
    )];

    for &(input, err_pos, err_msg) in &tests {
        let s = to_chars(input);
        match label_matchers(&s, 0) {
            Err(e) => {
                let (kind, msg, pos, _) = describe(&s, e);
                assert_eq!(ErrKind::Failure, kind, "nom::Err::Failure expected");
                assert_eq!(err_msg, msg);
                assert_eq!(err_pos, pos);
            },
            Ok(res) => panic!("nom::Err::Failure expected but found {:#?}", res),
        }
    }
}

#[test]
fn vector_test_label_matcher_valid() {
    let tests = [(r#"foo="bar""#, ("foo", "=", "bar")), (r#"foo!~"123 qux""#, ("foo", "!~", "123 qux"))];

    for &(input, expected) in &tests {
        let s = to_chars(input);
        let (_, actual) = match label_matcher(&s, 0) {
            Ok(r) => r,
            Err(e) => panic!("Got error {:?} while testing input {}", describe(&s, e), input),
        };
        assert_eq!(matcher(expected), actual);
    }
}

#[test]
fn vector_test_label_matcher_partial() {
    let tests = [
        ("foo!", "!", r#"one of "=", "!=", "=~", "!~""#, (1, 3)),
        ("foo!=", "", r#"label value as string literal"#, (1, 5)),
        ("foo!= ", " ", r#"label value as string literal"#, (1, 5)),
        ("foo!=,", ",", r#"label value as string literal"#, (1, 5)),
        ("foo!=123", "123", r#"label value as string literal"#, (1, 5)),
    ];

    for &(input, output, expected, error_pos) in &tests {
        let s = to_chars(input);
        let (kind, msg, pos, fragment) = match label_matcher(&s, 0) {
            Err(e) => describe(&s, e),
            Ok(res) => panic!("nom::Err::Failure expected but found {:#?}", res),
        };
        assert_eq!(ErrKind::Failure, kind, "nom::Err::Failure expected");
        assert_eq!(fragment, output);
        assert_eq!(pos, error_pos);
        assert_eq!(partial_message(pos.0, pos.1, &fragment, "label matching", expected), msg);
    }
}

#[test]
fn vector_test_label_matcher_invalid() {
    let tests = ["", ",", "123", "1foo=", r#"foo=~"*""#];

    for input in &tests {
        let s = to_chars(input);
        let res = label_matcher(&s, 0);
        assert!(res.is_err(), "Error expected but found {:#?}", res.ok());
    }
}

#[test]
fn vector_test_label_identifier_valid() {
    let tests = [
        ("l", "l"),
        ("l123", "l123"),
        ("_", "_"),
        ("_1", "_1"),
        ("label", "label"),
        ("_label", "_label"),
        ("label_123", "label_123"),
        ("label_123_", "label_123_"),
        ("label_123_ ", "label_123_"),
        ("label_123_{}", "label_123_"),
        ("label_123_ {}", "label_123_"),
        ("label_123_ {}", "label_123_"),
        ("label_123_ or", "label_123_"),
        ("label_123_-", "label_123_"),
    ];

    for &(input, expected_label) in &tests {
        let s = to_chars(input);
        let (_, actual) = match label_identifier(&s, 0) {
            Ok(r) => r,
            Err(e) => panic!("Got error {:?} while testing input {}", describe(&s, e), input),
        };
        assert_eq!(expected_label, actual);
    }
}

#[test]
fn vector_test_label_identifier_invalid() {
    assert!(label_identifier(&to_chars("1"), 0).is_err());
    assert!(label_identifier(&to_chars("1_"), 0).is_err());
    assert!(label_identifier(&to_chars("123label"), 0).is_err());
}

#[test]
fn vector_test_match_op_valid() {
    let tests = [
        (r#"="foo""#, r#""foo""#, MatchOp::Eql),
        (r#"!="foo""#, r#""foo""#, MatchOp::Neq),
        (r#"=~"foo""#, r#""foo""#, MatchOp::EqlRe),
        (r#"!~"foo""#, r#""foo""#, MatchOp::NeqRe),
    ];

    for &(input, expected_remainder, expected_match_op) in &tests {
        let s = to_chars(input);
        let (rest, actual) = match match_op(&s, 0) {
            Ok(r) => r,
            Err(e) => panic!("Got error {:?} while testing input {}", describe(&s, e), input),
        };
        assert_eq!(expected_match_op, actual);
        let remainder: String = s[rest..].iter().collect();
        assert_eq!(expected_remainder, remainder);
    }
}

#[test]
fn vector_test_match_op_invalid() {
    assert!(match_op(&to_chars("a\"foo\""), 0).is_err());
    assert!(match_op(&to_chars("!\"foo\""), 0).is_err());
    assert!(match_op(&to_chars("~\"foo\""), 0).is_err());
}
