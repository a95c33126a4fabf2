use pq::runner::{Action, Item, Pipeline, PipelineSource, Producer, Runner};
use pq::parse::{partial_outcome, ParseResult};
use pq::query::parser::vector::label_matcher;
use pq::text::to_chars;
use pq::duration::parse_duration;
use pq::parse::ParseErr;
use pq::program::{parse_program, Decoder, Formatter};

fn show(e: &ParseErr) -> String {
    e.error().message()
}

#[test]
fn test_valid_program() {
    let tests = [
        r#"//"#,
        r#"/foo/"#,
        r#"/foo\/bar/"#,
        r#"/.*(\\d+)foo\\s(\\w+).+/"#,
        r#"json"#,
        r#"json | to_json"#,
        r#"json| to_json"#,
        r#"json |to_json"#,
        r#"json|to_json"#,
        r#"json | to_promapi"#,
        r#"/.*(\\d+)foo\\s(\\w+).+/ | to_json"#,
        r#"/.*(\\d+)foo\\s(\\w+).+/ | map {foo: "bar"} | to_json"#,
        r#"/.*(\\d+)foo\\s(\\w+).+/ | map {.0:str, .1:num as qux, .2:ts "%Y-%m-%d", foo: "bar"} | to_json"#,
        r#"/.*(\\d+)foo\\s(\\w+).+/ | map {.foo:str as bar, .qux:num, .ts:ts "%Y-%m-%d", abc: "42"} | to_json"#,
        r#"/.*(\\d+)foo\\s(\\w+).+/ | map {.foo:str as bar, .qux:num, .ts:ts "%Y-%m-%d", abc: "42"} | select {__name__=~"abc|foo"} / 9001 | to_json"#,
    ];

    for input in &tests {
        if let Err(e) = parse_program(input) {
            panic!("Got {:?} while parsing {}", show(&e), input);
        }
    }
}

#[test]
fn test_regex_decoder() {
    let tests = [(r#"//"#, ""), (r#"/foo/"#, "foo"), (r#"/foo\/bar/"#, "foo/bar")];

    for (input, expected) in &tests {
        let ast = match parse_program(input) {
            Ok(ast) => ast,
            Err(e) => panic!("Got {:?} while parsing {}", show(&e), input),
        };
        match ast.decoder {
            Decoder::Regex { regex: actual } => assert_eq!(*expected, actual),
            v => panic!("unexpected decoder {:?} while parsing {}", v, input),
        }
    }
}

#[test]
fn program_stages_are_recognized() {
    let ast = parse_program("json | to_promapi").expect("valid program");
    assert_eq!(Decoder::JSON, ast.decoder);
    assert!(ast.mapper.is_none());
    assert!(ast.query.is_none());
    assert_eq!(Some(Formatter::PromAPI), ast.formatter);
}

#[test]
fn program_surrounding_space_is_ignored() {
    let ast = parse_program("  \n json | to_json \t").expect("valid program");
    assert_eq!(Decoder::JSON, ast.decoder);
    assert_eq!(Some(Formatter::JSON), ast.formatter);
}

#[test]
fn program_unknown_decoder_is_refused() {
    let e = parse_program("yaml").expect_err("refused");
    assert!(matches!(e, ParseErr::Failure(_)));
    assert_eq!(
        "1:0: parse error: a valid pq program must start from a known parser (supported parsers: regex /.../, json)",
        show(&e)
    );
}

#[test]
fn program_trailing_input_is_refused() {
    let e = parse_program("json | to_json foo").expect_err("refused");
    assert!(matches!(e, ParseErr::Failure(_)));
    assert_eq!("1:14: parse error: unexpected '\" foo\"' in program, expected EOF", show(&e));
}

#[test]
fn test_valid_duration() {
    const SECOND: u128 = 1000;
    const MINUTE: u128 = 60 * 1000;
    const HOUR: u128 = 60 * 60 * 1000;
    const DAY: u128 = 24 * 60 * 60 * 1000;
    const WEEK: u128 = 7 * 24 * 60 * 60 * 1000;
    const YEAR: u128 = 365 * 24 * 60 * 60 * 1000;
    let tests = [
        ("1ms", 1),
        ("10s", 10000),
        ("0s500ms", 500),
        ("5s999ms", 5999),
        ("1y2w3d4h5m6s7ms", YEAR + 2 * WEEK + 3 * DAY + 4 * HOUR + 5 * MINUTE + 6 * SECOND + 7),
    ];

    for (input, expected) in &tests {
        match parse_duration(input) {
            Ok(actual) => assert_eq!(*expected, actual, "while parsing {}", input),
            Err(e) => panic!("Got {:?} while parsing {}", show(&e), input),
        }
    }
}

#[test]
fn test_invalid_duration() {
    let tests = ["foo", "0", "0ms", "1ns", "0s0ms", "10m2h"];

    for input in &tests {
        let ret = parse_duration(input);
        assert!(ret.is_err(), "Expected error, got {:?} while parsing {}", ret.ok(), input);
    }
}

#[test]
fn duration_zero_is_a_failure() {
    let e = parse_duration("0s0ms").expect_err("refused");
    assert!(matches!(e, ParseErr::Failure(_)));
    assert_eq!("1:0: parse error: duration must be greater than 0", show(&e));
}

#[test]
fn duration_units_must_decrease() {
    // "10m" is read and "2h" is left over: a larger unit may not follow a smaller one.
    let e = parse_duration("10m2h").expect_err("refused");
    assert!(matches!(e, ParseErr::Failure(_)));
    assert_eq!("1:3: parse error: invalid duration literal", show(&e));
}

#[test]
fn query_ends_where_no_operator_follows() {
    let e = parse_program("json | select foo bar").expect_err("refused");
    assert!(matches!(e, ParseErr::Failure(_)));
    assert_eq!("1:17: parse error: unexpected '\" bar\"' in program, expected EOF", show(&e));
}

#[test]
fn runner_stages_and_actions() {
    let ast = parse_program("json").unwrap();
    let r = Runner::new(&ast, false);
    assert_eq!(Producer::Decoder, r.producer());
    assert_eq!(Formatter::JSON, r.formatter());
    assert_eq!(Action::Skip, r.on_item(Item::Failed));
    assert_eq!(Action::Write, r.on_item(Item::Value));
    assert_eq!(Action::Stop, r.on_item(Item::End));
    assert!(!r.write(0));
    assert!(r.write(3));
    let ast = parse_program(r#"/(\d+)/ | map {.0 as n} | to_json"#).unwrap();
    let r = Runner::new(&ast, true);
    assert_eq!(Producer::Mapper, r.producer());
    assert_eq!(Formatter::JSON, r.formatter());
    assert_eq!(Action::Report, r.on_item(Item::Failed));
    let ast = parse_program(r#"/(\d+)/ | map {.0:num as n} | select n"#).unwrap();
    assert_eq!(Producer::Querier, Runner::new(&ast, true).producer());
    let mut p = Pipeline::new(None);
    assert_eq!(PipelineSource::Entries, p.source());
    assert_eq!(1, p.next_line());
    assert_eq!(2, p.next_line());
    assert_eq!(Action::Stop, p.run(Item::Failed));
    assert_eq!(PipelineSource::Records, Pipeline::new(Some("x".to_string())).source());
}

#[test]
fn partial_outcomes() {
    let s = to_chars("foo!=123");
    match partial_outcome(label_matcher(&s, 0)) {
        Ok((5, ParseResult::Partial(w, e))) => {
            assert_eq!("label matching", w);
            assert_eq!("label value as string literal", e);
        },
        _ => panic!("partial outcome expected"),
    }
    let s = to_chars("foo=\"bar\"");
    assert!(matches!(partial_outcome(label_matcher(&s, 0)), Ok((9, ParseResult::Complete(_)))));
    let s = to_chars("123");
    assert!(partial_outcome(label_matcher(&s, 0)).is_err());
}
