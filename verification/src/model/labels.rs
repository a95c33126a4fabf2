//! Label matchers (`label="value"`, `!=`, `=~`, `!~`) and label sets.
use vstd::prelude::*;
use crate::error::Error;
use crate::text::{push_str, string_from_chars};

verus! {

/// Whether the regular expression `pattern` is rejected, and with what message.
pub uninterp spec fn regex_error(pattern: Seq<char>) -> Option<Seq<char>>;

/// Whether the regular expression `pattern` matches somewhere in `text`.
pub uninterp spec fn regex_matches(pattern: Seq<char>, text: Seq<char>) -> bool;

#[verifier::external_type_specification]
#[verifier::external_body]
pub struct ExRegex(regex::Regex);

/// Calls `regex::Regex::new`. The contract claims that the outcome (the text
/// of the error) is a function of the pattern (named `regex_error`).
#[verifier::external_body]
fn compile_regex(pattern: &str) -> (r: Result<regex::Regex, String>)
    ensures
        match r {
            Ok(_) => regex_error(pattern@) is None,
            Err(m) => regex_error(pattern@) == Some(m@),
        },
{
    regex::Regex::new(pattern).map_err(|e| e.to_string())
}

/// The label operator of a matcher.
#[derive(Clone, Copy, Debug, PartialEq, Eq, Structural)]
pub enum MatchOp {
    Eql,
    Neq,
    EqlRe,
    NeqRe,
}

impl MatchOp {
    pub open spec fn is_regex(self) -> bool {
        self == MatchOp::EqlRe || self == MatchOp::NeqRe
    }
}

/// The pattern a regex matcher runs: the value anchored at both ends.
pub open spec fn anchored(value: Seq<char>) -> Seq<char> {
    "^(?:"@ + value + ")$"@
}

/// A label matcher as a mathematical value.
pub struct LabelMatcherV {
    pub label: Seq<char>,
    pub op: MatchOp,
    pub value: Seq<char>,
}

/// What `LabelMatcher::new` gives for a label, an operator and a value.
pub open spec fn spec_label_matcher_new(label: Seq<char>, op: MatchOp, value: Seq<char>) -> Result<LabelMatcherV, Seq<char>> {
    if op.is_regex() && regex_error(anchored(value)) is Some {
        Err(regex_error(anchored(value))->0)
    } else {
        Ok(LabelMatcherV { label, op, value })
    }
}

/// A regex that compiles and matches `v`.
pub open spec fn regex_accepts(pattern: Seq<char>, v: Seq<char>) -> bool {
    regex_error(pattern) is None && regex_matches(pattern, v)
}

/// Whether the matcher accepts the label value `v`.
pub open spec fn matcher_accepts(m: LabelMatcherV, v: Seq<char>) -> bool {
    match m.op {
        MatchOp::Eql => m.value == v,
        MatchOp::Neq => m.value != v,
        MatchOp::EqlRe => regex_accepts(anchored(m.value), v),
        MatchOp::NeqRe => !regex_accepts(anchored(m.value), v),
    }
}

pub open spec fn name_label() -> Seq<char> {
    "__name__"@
}

/// A matcher of one label against a value or a regular expression (kept
/// compiled, anchored at both ends).
#[derive(Debug)]
pub struct LabelMatcher {
    label: String,
    op: MatchOp,
    value: String,
    re: Option<regex::Regex>,
}

impl PartialEq for LabelMatcher {
    fn eq(&self, other: &LabelMatcher) -> (r: bool) {
        self.label == other.label && self.op == other.op && self.value == other.value
    }
}

impl vstd::std_specs::cmp::PartialEqSpecImpl for LabelMatcher {
    open spec fn obeys_eq_spec() -> bool {
        true
    }

    open spec fn eq_spec(&self, other: &LabelMatcher) -> bool {
        self@ == other@
    }
}

impl Eq for LabelMatcher {}

impl Clone for LabelMatcher {
    fn clone(&self) -> (r: LabelMatcher)
        ensures
            r@ == self@,
    {
        proof {
            use_type_invariant(self);
        }
        LabelMatcher {
            label: self.label.clone(),
            op: self.op,
            value: self.value.clone(),
            re: self.re.clone(),
        }
    }
}

impl View for LabelMatcher {
    type V = LabelMatcherV;

    closed spec fn view(&self) -> LabelMatcherV {
        LabelMatcherV { label: self.label@, op: self.op, value: self.value@ }
    }
}

fn anchored_pattern(value: &str) -> (p: String)
    ensures
        p@ == anchored(value@),
{
    let mut v: Vec<char> = Vec::new();
    push_str(&mut v, "^(?:");
    push_str(&mut v, value);
    push_str(&mut v, ")$");
    string_from_chars(v.as_slice())
}

impl LabelMatcher {
    #[verifier::type_invariant]
    closed spec fn inv(self) -> bool {
        &&& self.op.is_regex() ==> regex_error(anchored(self.value@)) is None
        &&& self.re is Some <==> self.op.is_regex()
    }

    /// A matcher; a regex operator requires the anchored value to compile, and
    /// the compiler's message is the error otherwise.
    pub fn new(label: String, op: MatchOp, value: String) -> (r: Result<LabelMatcher, Error>)
        ensures
            match (r, spec_label_matcher_new(label@, op, value@)) {
                (Ok(m), Ok(v)) => m@ == v,
                (Err(e), Err(msg)) => e.message_spec() == msg,
                _ => false,
            },
    {
        if op == MatchOp::EqlRe || op == MatchOp::NeqRe {
            let p = anchored_pattern(value.as_str());
            match compile_regex(p.as_str()) {
                Ok(re) => Ok(LabelMatcher { label, op, value, re: Some(re) }),
                Err(msg) => Err(Error::from_string(msg)),
            }
        } else {
            Ok(LabelMatcher { label, op, value, re: None })
        }
    }

    /// Calls `regex::Regex::is_match` with the matcher's regular expression,
    /// which was compiled from its anchored value (the type invariant keeps
    /// one exactly for the regex operators, which `requires` asks for). The contract claims that
    /// the answer is a function of that pattern and the text (named
    /// `regex_matches`).
    #[verifier::external_body]
    fn regex_matches_exec(&self, v: &str) -> (b: bool)
        requires
            self@.op.is_regex(),
        ensures
            b == regex_matches(anchored(self@.value), v@),
    {
        self.re.as_ref().map_or(false, |re| re.is_match(v))
    }

    /// `__name__="name"`.
    pub fn name_matcher(name: String) -> (m: LabelMatcher)
        ensures
            m@ == (LabelMatcherV { label: name_label(), op: MatchOp::Eql, value: name@ }),
    {
        LabelMatcher { label: "__name__".to_owned(), op: MatchOp::Eql, value: name, re: None }
    }

    pub fn label(&self) -> (l: &String)
        ensures
            l@ == self@.label,
    {
        &self.label
    }

    pub fn op(&self) -> (o: MatchOp)
        ensures
            o == self@.op,
    {
        self.op
    }

    pub fn value(&self) -> (v: &String)
        ensures
            v@ == self@.value,
    {
        &self.value
    }

    /// Whether the matched label is the metric name.
    pub fn is_name_matcher(&self) -> (b: bool)
        ensures
            b == (self@.label == name_label()),
    {
        self.label == "__name__".to_owned()
    }

    /// Whether the matcher accepts the label value `v`.
    pub fn matches(&self, v: &str) -> (b: bool)
        ensures
            b == matcher_accepts(self@, v@),
    {
        proof {
            use_type_invariant(self);
        }
        match self.op {
            MatchOp::Eql => self.value == v.to_owned(),
            MatchOp::Neq => !(self.value == v.to_owned()),
            MatchOp::EqlRe => self.regex_matches_exec(v),
            MatchOp::NeqRe => !self.regex_matches_exec(v),
        }
    }
}


/// What each label operator accepts: `=` exactly its value, `!=` every other
/// value, `=~` the values its regular expression (anchored at both ends, and
/// compiling) matches, and `!~` exactly the values that `=~` with the same
/// pattern refuses.
pub proof fn law_matcher_semantics(label: Seq<char>, value: Seq<char>, v: Seq<char>)
    ensures
        matcher_accepts(LabelMatcherV { label, op: MatchOp::Eql, value }, v) <==> v == value,
        matcher_accepts(LabelMatcherV { label, op: MatchOp::Neq, value }, v) <==> v != value,
        matcher_accepts(LabelMatcherV { label, op: MatchOp::EqlRe, value }, v)
            <==> (regex_error(anchored(value)) is None && regex_matches(anchored(value), v)),
        matcher_accepts(LabelMatcherV { label, op: MatchOp::NeqRe, value }, v)
            <==> !matcher_accepts(LabelMatcherV { label, op: MatchOp::EqlRe, value }, v),
        anchored(value).subrange(4, 4 + value.len() as int) == value,
        anchored(value).len() == value.len() + 6,
        anchored(value)[0] == '^' && anchored(value)[value.len() + 5int] == '$',
{
    reveal_strlit("^(?:");
    reveal_strlit(")$");
    assert(anchored(value).subrange(4, 4 + value.len() as int) =~= value);
}

} // verus!
