//! Line parsers: a regular expression whose groups give the values of a record.
use vstd::prelude::*;
use crate::error::Error;
use crate::text::{push_str, string_from_chars};

verus! {

#[verifier::external_type_specification]
#[verifier::external_body]
pub struct ExBytesRegex(regex::bytes::Regex);

/// The message of the error of `regex::bytes::Regex::new` on `pattern`, if any.
pub uninterp spec fn bytes_regex_error(pattern: Seq<char>) -> Option<Seq<char>>;

/// The groups that the regular expression `pattern` captures in `line` at its
/// first match (group 0 first; `None` for a group that took no part), or
/// `None` when it does not match.
pub uninterp spec fn bytes_captures(pattern: Seq<char>, line: Seq<u8>) -> Option<Seq<Option<Seq<u8>>>>;

/// The text that the bytes `b` encode in UTF-8, or `None` when they are not
/// valid UTF-8.
pub open spec fn utf8_text(b: Seq<u8>) -> Option<Seq<char>> {
    if vstd::utf8::valid_utf8(b) {
        Some(vstd::utf8::decode_utf8(b))
    } else {
        None
    }
}

/// Calls `regex::bytes::Regex::new`. The contract claims that the outcome (the
/// error's text) is a function of the pattern.
#[verifier::external_body]
fn compile_bytes_regex(pattern: &str) -> (r: Result<regex::bytes::Regex, String>)
    ensures
        match r {
            Ok(_) => bytes_regex_error(pattern@) is None,
            Err(m) => bytes_regex_error(pattern@) == Some(m@),
        },
{
    match regex::bytes::Regex::new(pattern) {
        Ok(re) => Ok(re),
        Err(e) => Err(e.to_string()),
    }
}

/// Calls `String::from_utf8` on a copy of `b`. The contract claims what its
/// documentation says: the text that the bytes encode when they are valid
/// UTF-8, and an error otherwise.
#[verifier::external_body]
fn string_from_utf8(b: &[u8]) -> (r: Option<String>)
    ensures
        match r {
            Some(s) => utf8_text(b@) == Some(s@),
            None => utf8_text(b@) is None,
        },
{
    match String::from_utf8(b.to_vec()) {
        Ok(s) => Some(s),
        Err(_) => None,
    }
}

/// The value of a record as a parser gives it.
#[derive(Debug, Clone, PartialEq, Eq)]
pub enum RecordValue {
    Array(Vec<String>),
    Dict(Vec<(String, String)>),
}

/// A parser of lines into record values.
pub trait Parser {
    fn parse(&self, buf: &[u8]) -> Result<Option<RecordValue>, Error>;
}

pub open spec fn no_match_msg() -> Seq<char> {
    "no match found"@
}

pub open spec fn utf8_msg() -> Seq<char> {
    "only UTF-8 is supported"@
}

pub open spec fn missing_group_msg() -> Seq<char> {
    "a group took no part in the match"@
}

/// The groups that give the values: all but the whole match (group 0), when
/// there are groups; else the whole match.
pub open spec fn value_groups(groups: Seq<Option<Seq<u8>>>) -> Seq<Option<Seq<u8>>> {
    if groups.len() > 1 { groups.drop_first() } else { groups }
}

/// The group took part and is valid UTF-8.
pub open spec fn group_ok(o: Option<Seq<u8>>) -> bool {
    match o {
        Some(b) => utf8_text(b) is Some,
        None => false,
    }
}

/// Every group took part and is valid UTF-8.
pub open spec fn groups_ok(g: Seq<Option<Seq<u8>>>) -> bool {
    forall|i: int| 0 <= i < g.len() ==> group_ok(#[trigger] g[i])
}

/// The values of the groups as text (when `groups_ok`).
pub open spec fn groups_text(g: Seq<Option<Seq<u8>>>) -> Seq<Seq<char>> {
    g.map_values(|o: Option<Seq<u8>>| utf8_text(o->0)->0)
}

/// The first group that took no part, or is not valid UTF-8, refuses the line.
pub open spec fn first_bad_is_missing(g: Seq<Option<Seq<u8>>>) -> bool {
    exists|i: int| 0 <= i < g.len() && g[i] is None
        && forall|j: int| 0 <= j < i ==> group_ok(#[trigger] g[j])
}

pub open spec fn bytes_view(v: Seq<Option<Vec<u8>>>) -> Seq<Option<Seq<u8>>> {
    v.map_values(|o: Option<Vec<u8>>| match o {
        Some(b) => Some(b@),
        None => None,
    })
}

/// The record value of the captured groups (group 0 first): the text of the
/// value groups, in order.
pub fn record_of_groups(groups: &Vec<Option<Vec<u8>>>) -> (r: Result<RecordValue, Error>)
    ensures
        match r {
            Ok(RecordValue::Array(items)) => groups_ok(value_groups(bytes_view(groups@)))
                && crate::query::parser::ast::strings_view(items@) == groups_text(value_groups(bytes_view(groups@))),
            Ok(_) => false,
            Err(e) => !groups_ok(value_groups(bytes_view(groups@)))
                && (e.message_spec() == missing_group_msg() <==> first_bad_is_missing(value_groups(bytes_view(groups@))))
                && (e.message_spec() == missing_group_msg() || e.message_spec() == utf8_msg()),
        },
{
    let ghost g = value_groups(bytes_view(groups@));
    let start: usize = if groups.len() > 1 { 1 } else { 0 };
    let mut items: Vec<String> = Vec::new();
    let mut i: usize = start;
    while i < groups.len()
        invariant
            start <= i <= groups@.len(),
            start == (if groups@.len() > 1 { 1usize } else { 0usize }),
            g == value_groups(bytes_view(groups@)),
            g.len() == groups@.len() - start,
            forall|j: int| 0 <= j < g.len() ==> #[trigger] g[j] == bytes_view(groups@)[j + start],
            items@.len() == i - start,
            groups_ok(g.take(i - start)),
            crate::query::parser::ast::strings_view(items@) == groups_text(g.take(i - start)),
        decreases groups@.len() - i,
    {
        let k = i - start;
        assert(g[k as int] == bytes_view(groups@)[i as int]);
        match &groups[i] {
            None => {
                proof {
                    assert(g[k as int] is None);
                    assert forall|j: int| 0 <= j < k implies group_ok(#[trigger] g[j]) by {
                        assert(g.take(k as int)[j] == g[j]);
                    }
                }
                return Err(Error::new("a group took no part in the match"));
            },
            Some(b) => {
                match string_from_utf8(b.as_slice()) {
                    None => {
                        proof {
                            assert(g[k as int] == Some(b@));
                            if first_bad_is_missing(g) {
                                let w = choose|w: int| 0 <= w < g.len() && g[w] is None
                                    && forall|j: int| 0 <= j < w ==> group_ok(#[trigger] g[j]);
                                if w < k {
                                    assert(g.take(k as int)[w] == g[w]);
                                } else if w > k {
                                    assert(group_ok(g[k as int]));
                                }
                            }
                        }
                        proof {
                            reveal_strlit("a group took no part in the match");
                            reveal_strlit("only UTF-8 is supported");
                            assert(missing_group_msg().len() != utf8_msg().len());
                        }
                        return Err(Error::new("only UTF-8 is supported"));
                    },
                    Some(text) => {
                        let ghost before = items@;
                        assert(g[k as int] == Some(b@));
                        items.push(text);
                        proof {
                            assert(groups_text(g.take(k as int)) == crate::query::parser::ast::strings_view(before));
                            assert(groups_text(g.take(k as int).push(g[k as int])) =~= groups_text(g.take(k as int)).push(text@));
                            let t = g.take(k + 1);
                            assert(t =~= g.take(k as int).push(g[k as int]));
                            assert(crate::query::parser::ast::strings_view(items@) =~= groups_text(t));
                        }
                    },
                }
            },
        }
        i = i + 1;
    }
    assert(g.take(i - start) =~= g);
    Ok(RecordValue::Array(items))
}

/// Parses lines with a regular expression: the values are the text of its
/// groups at the first match.
pub struct RegexParser {
    re: regex::bytes::Regex,
    pattern: String,
}

impl RegexParser {
    pub closed spec fn pattern_spec(&self) -> Seq<char> {
        self.pattern@
    }

    /// Calls `regex::bytes::Regex::captures` with the parser's regular
    /// expression, which was compiled from its pattern, and copies each group's
    /// bytes. The contract claims that the outcome is a function of the pattern
    /// and the line.
    #[verifier::external_body]
    fn captures(&self, line: &[u8]) -> (r: Option<Vec<Option<Vec<u8>>>>)
        ensures
            match r {
                Some(g) => bytes_captures(self.pattern_spec(), line@) == Some(bytes_view(g@)),
                None => bytes_captures(self.pattern_spec(), line@) is None,
            },
    {
        match self.re.captures(line) {
            Some(caps) => Some(caps.iter().map(|m| m.map(|m| m.as_bytes().to_vec())).collect()),
            None => None,
        }
    }

    /// A parser of the pattern `re_pattern`; a pattern that does not compile
    /// is refused with the compiler's message.
    pub fn new(re_pattern: &str) -> (r: Result<RegexParser, Error>)
        ensures
            match r {
                Ok(p) => bytes_regex_error(re_pattern@) is None && p.pattern_spec() == re_pattern@,
                Err(e) => bytes_regex_error(re_pattern@) matches Some(m) && e.message_spec() == "bad regex pattern: "@ + m,
            },
    {
        match compile_bytes_regex(re_pattern) {
            Ok(re) => Ok(RegexParser { re, pattern: re_pattern.to_owned() }),
            Err(m) => {
                let mut msg: Vec<char> = Vec::new();
                push_str(&mut msg, "bad regex pattern: ");
                push_str(&mut msg, m.as_str());
                Err(Error::from_string(string_from_chars(msg.as_slice())))
            },
        }
    }
}

impl Parser for RegexParser {
    /// The values of the groups of the first match in `line` (see
    /// `record_of_groups`); a line without a match is refused.
    fn parse(&self, line: &[u8]) -> (r: Result<Option<RecordValue>, Error>)
        ensures
            match bytes_captures(self.pattern_spec(), line@) {
                None => r matches Err(e) && e.message_spec() == no_match_msg(),
                Some(groups) => match r {
                    Ok(Some(RecordValue::Array(items))) => groups_ok(value_groups(groups))
                        && crate::query::parser::ast::strings_view(items@) == groups_text(value_groups(groups)),
                    Ok(_) => false,
                    Err(e) => !groups_ok(value_groups(groups))
                        && (e.message_spec() == missing_group_msg() <==> first_bad_is_missing(value_groups(groups)))
                        && (e.message_spec() == missing_group_msg() || e.message_spec() == utf8_msg()),
                },
            },
    {
        match self.captures(line) {
            None => Err(Error::new("no match found")),
            Some(groups) => match record_of_groups(&groups) {
                Ok(v) => Ok(Some(v)),
                Err(e) => Err(e),
            },
        }
    }
}

} // verus!
