use pq::decoding::{DecodingResult, JSONDecodingStrategy};
use pq::parsing::{Parser, RecordValue, RegexParser};

#[test]
fn regex_parser_groups() {
    let p = RegexParser::new(r"(\d+) (\w+)").unwrap();
    assert_eq!(
        Some(RecordValue::Array(vec!["42".to_string(), "foo".to_string()])),
        p.parse(b"x 42 foo y").unwrap()
    );
    let whole = RegexParser::new(r"\d+").unwrap();
    assert_eq!(Some(RecordValue::Array(vec!["42".to_string()])), whole.parse(b"x 42").unwrap());
    assert_eq!("no match found", p.parse(b"nothing").unwrap_err().message());
    let optional = RegexParser::new(r"(a)|(b)").unwrap();
    assert_eq!("a group took no part in the match", optional.parse(b"a").unwrap_err().message());
    let bytes = RegexParser::new(r"(?-u)(.)").unwrap();
    assert_eq!("only UTF-8 is supported", bytes.parse(&[0xff]).unwrap_err().message());
}

#[test]
fn regex_parser_bad_pattern() {
    let e = RegexParser::new("(").err().expect("refused");
    assert!(e.message().starts_with("bad regex pattern: "), "{}", e.message());
}

#[test]
fn json_arrays_and_objects() {
    let d = JSONDecodingStrategy::new();
    assert_eq!(
        DecodingResult::Tuple(vec!["1".to_string(), "true".to_string(), "null".to_string(), "s".to_string()]),
        d.decode(br#"[1, true, null, "s", [2], {"a": 3}]"#).unwrap()
    );
    assert_eq!(
        DecodingResult::Dict(vec![("a".to_string(), "1.5".to_string()), ("b".to_string(), "false".to_string())]),
        d.decode(br#"{"b": false, "a": 1.5, "c": {}}"#).unwrap()
    );
    assert_eq!("JSON decoder supports only flat arrays and objects", d.decode(b"42").unwrap_err().message());
    assert!(d.decode(b"{").unwrap_err().message().starts_with("JSON decoding failed: "));
}
