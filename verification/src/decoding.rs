//! Decoding of JSON lines: a flat array gives a tuple of values, a flat object
//! a dictionary; values that are arrays or objects themselves are left out.
use vstd::prelude::*;
use serde_json::Value;
use serde_json::Value::{Array, Bool, Null, Number, Object};
use crate::error::Error;
use crate::query::parser::ast::strings_view;
use crate::text::{push_str, string_from_chars};

verus! {

/// A JSON value inside the top-level array or object: a scalar, or a nested
/// array or object.
#[derive(Clone, Debug, PartialEq, Eq)]
pub enum JsonScalar {
    Bool(bool),
    Null,
    Number(String),
    Text(String),
    Nested,
}

pub enum JsonScalarV {
    Bool(bool),
    Null,
    Number(Seq<char>),
    Text(Seq<char>),
    Nested,
}

impl View for JsonScalar {
    type V = JsonScalarV;

    open spec fn view(&self) -> JsonScalarV {
        match self {
            JsonScalar::Bool(b) => JsonScalarV::Bool(*b),
            JsonScalar::Null => JsonScalarV::Null,
            JsonScalar::Number(n) => JsonScalarV::Number(n@),
            JsonScalar::Text(s) => JsonScalarV::Text(s@),
            JsonScalar::Nested => JsonScalarV::Nested,
        }
    }
}

/// A JSON document: an array, an object (its keys in the order the parser
/// gives them) or anything else.
#[derive(Clone, Debug, PartialEq, Eq)]
pub enum JsonDoc {
    Array(Vec<JsonScalar>),
    Object(Vec<(String, JsonScalar)>),
    Other,
}

pub enum JsonDocV {
    Array(Seq<JsonScalarV>),
    Object(Seq<(Seq<char>, JsonScalarV)>),
    Other,
}

pub open spec fn scalars_view(v: Seq<JsonScalar>) -> Seq<JsonScalarV> {
    v.map_values(|x: JsonScalar| x@)
}

pub open spec fn entries_view(v: Seq<(String, JsonScalar)>) -> Seq<(Seq<char>, JsonScalarV)> {
    v.map_values(|p: (String, JsonScalar)| (p.0@, p.1@))
}

impl View for JsonDoc {
    type V = JsonDocV;

    open spec fn view(&self) -> JsonDocV {
        match self {
            JsonDoc::Array(v) => JsonDocV::Array(scalars_view(v@)),
            JsonDoc::Object(v) => JsonDocV::Object(entries_view(v@)),
            JsonDoc::Other => JsonDocV::Other,
        }
    }
}

/// What `serde_json::from_slice` reads from `line`, or the text of its error.
pub uninterp spec fn json_document(line: Seq<u8>) -> Result<JsonDocV, Seq<char>>;

/// No two entries have one key.
pub open spec fn keys_distinct<X>(v: Seq<(Seq<char>, X)>) -> bool {
    forall|i: int, j: int| 0 <= i < j < v.len() ==> (#[trigger] v[i]).0 != (#[trigger] v[j]).0
}

/// Calls `serde_json::from_slice` into a `serde_json::Value` and copies the
/// document's top level: numbers as `serde_json::Number` prints them. The
/// contract claims that the outcome is a function of the line, and that the
/// keys of an object are distinct (its entries come from a `serde_json::Map`).
#[verifier::external_body]
fn read_json(line: &[u8]) -> (r: Result<JsonDoc, String>)
    ensures
        match r {
            Ok(d) => json_document(line@) == Ok::<JsonDocV, Seq<char>>(d@),
            Err(m) => json_document(line@) == Err::<JsonDocV, Seq<char>>(m@),
        },
        r matches Ok(JsonDoc::Object(o)) ==> keys_distinct(entries_view(o@)),
{
    let f = |v: &Value| match v {
        Bool(b) => JsonScalar::Bool(*b),
        Null => JsonScalar::Null,
        Number(n) => JsonScalar::Number(n.to_string()),
        Value::String(s) => JsonScalar::Text(s.clone()),
        Array(_) => JsonScalar::Nested,
        Object(_) => JsonScalar::Nested
    };
    Ok(match serde_json::from_slice(line).map_err(|e| e.to_string())? {
        Array(t) => JsonDoc::Array(t.iter().map(f).collect()),
        Object(o) => JsonDoc::Object(o.iter().map(|(k, v)| (k.clone(), f(v))).collect()),
        _ => JsonDoc::Other
    })
}

/// The text of a scalar: `true`/`false`, `null`, the number as printed, the
/// string itself; a nested value has none.
pub open spec fn scalar_text(v: JsonScalarV) -> Option<Seq<char>> {
    match v {
        JsonScalarV::Bool(b) => Some(if b { "true"@ } else { "false"@ }),
        JsonScalarV::Null => Some("null"@),
        JsonScalarV::Number(n) => Some(n),
        JsonScalarV::Text(s) => Some(s),
        JsonScalarV::Nested => None,
    }
}

/// The texts of the scalars of an array, in order.
pub open spec fn tuple_texts(v: Seq<JsonScalarV>) -> Seq<Seq<char>>
    decreases v.len(),
{
    if v.len() == 0 {
        Seq::empty()
    } else {
        let prev = tuple_texts(v.drop_last());
        match scalar_text(v.last()) {
            Some(t) => prev.push(t),
            None => prev,
        }
    }
}

/// The keys and texts of the scalars of an object, in order.
pub open spec fn dict_texts(v: Seq<(Seq<char>, JsonScalarV)>) -> Seq<(Seq<char>, Seq<char>)>
    decreases v.len(),
{
    if v.len() == 0 {
        Seq::empty()
    } else {
        let prev = dict_texts(v.drop_last());
        match scalar_text(v.last().1) {
            Some(t) => prev.push((v.last().0, t)),
            None => prev,
        }
    }
}

proof fn lemma_dict_keys(v: Seq<(Seq<char>, JsonScalarV)>)
    ensures
        forall|a: int| 0 <= a < dict_texts(v).len() ==> exists|b: int| 0 <= b < v.len() && (#[trigger] dict_texts(v)[a]).0 == v[b].0,
        keys_distinct(v) ==> keys_distinct(dict_texts(v)),
    decreases v.len(),
{
    if v.len() > 0 {
        let w = v.drop_last();
        lemma_dict_keys(w);
        let prev = dict_texts(w);
        assert forall|a: int| 0 <= a < dict_texts(v).len() implies exists|b: int| 0 <= b < v.len() && (#[trigger] dict_texts(v)[a]).0 == v[b].0 by {
            if a < prev.len() {
                assert(dict_texts(v)[a] == prev[a]);
                let b = choose|b: int| 0 <= b < w.len() && prev[a].0 == w[b].0;
                assert(v[b] == w[b]);
            } else {
                assert(dict_texts(v)[a].0 == v[v.len() - 1].0);
            }
        }
        if keys_distinct(v) {
            assert(keys_distinct(w)) by {
                assert forall|i: int, j: int| 0 <= i < j < w.len() implies (#[trigger] w[i]).0 != (#[trigger] w[j]).0 by {
                    assert(w[i] == v[i] && w[j] == v[j]);
                }
            }
            assert forall|i: int, j: int| 0 <= i < j < dict_texts(v).len() implies (#[trigger] dict_texts(v)[i]).0 != (#[trigger] dict_texts(v)[j]).0 by {
                if j < prev.len() {
                    assert(dict_texts(v)[i] == prev[i] && dict_texts(v)[j] == prev[j]);
                } else {
                    assert(dict_texts(v)[i] == prev[i]);
                    let b = choose|b: int| 0 <= b < w.len() && prev[i].0 == w[b].0;
                    assert(v[b] == w[b]);
                    assert(dict_texts(v)[j].0 == v[v.len() - 1].0);
                    assert(v[b].0 != v[v.len() - 1].0);
                }
            }
        }
    }
}

/// The values of a decoded line.
#[derive(Clone, Debug, PartialEq, Eq)]
pub enum DecodingResult {
    Tuple(Vec<String>),
    Dict(Vec<(String, String)>),
}

pub open spec fn pairs_of(v: Seq<(String, String)>) -> Seq<(Seq<char>, Seq<char>)> {
    v.map_values(|p: (String, String)| (p.0@, p.1@))
}

pub open spec fn flat_msg() -> Seq<char> {
    "JSON decoder supports only flat arrays and objects"@
}

pub open spec fn failed_msg(m: Seq<char>) -> Seq<char> {
    "JSON decoding failed: "@ + m
}

fn scalar_string(v: &JsonScalar) -> (r: Option<String>)
    ensures
        match r {
            Some(s) => scalar_text(v@) == Some(s@),
            None => scalar_text(v@) is None,
        },
{
    match v {
        JsonScalar::Bool(b) => Some(if *b { "true".to_owned() } else { "false".to_owned() }),
        JsonScalar::Null => Some("null".to_owned()),
        JsonScalar::Number(n) => Some(n.clone()),
        JsonScalar::Text(s) => Some(s.clone()),
        JsonScalar::Nested => None,
    }
}

/// Decodes lines of JSON.
pub struct JSONDecodingStrategy {}

impl JSONDecodingStrategy {
    pub fn new() -> (s: JSONDecodingStrategy) {
        JSONDecodingStrategy {}
    }

    fn decode_tuple(&self, t: &Vec<JsonScalar>) -> (r: Vec<String>)
        ensures
            strings_view(r@) == tuple_texts(scalars_view(t@)),
    {
        let ghost v = scalars_view(t@);
        let mut items: Vec<String> = Vec::new();
        let mut i: usize = 0;
        while i < t.len()
            invariant
                i <= t@.len(),
                v == scalars_view(t@),
                strings_view(items@) == tuple_texts(v.take(i as int)),
            decreases t@.len() - i,
        {
            let ghost before = items@;
            assert(v.take(i + 1).drop_last() =~= v.take(i as int));
            assert(v.take(i + 1).last() == t@[i as int]@);
            match scalar_string(&t[i]) {
                Some(s) => {
                    items.push(s);
                    assert(strings_view(items@) =~= strings_view(before).push(s@));
                },
                None => {},
            }
            i = i + 1;
        }
        assert(v.take(i as int) =~= v);
        items
    }

    fn decode_dict(&self, o: &Vec<(String, JsonScalar)>) -> (r: Vec<(String, String)>)
        ensures
            pairs_of(r@) == dict_texts(entries_view(o@)),
    {
        let ghost v = entries_view(o@);
        let mut items: Vec<(String, String)> = Vec::new();
        let mut i: usize = 0;
        while i < o.len()
            invariant
                i <= o@.len(),
                v == entries_view(o@),
                pairs_of(items@) == dict_texts(v.take(i as int)),
            decreases o@.len() - i,
        {
            let ghost before = items@;
            assert(v.take(i + 1).drop_last() =~= v.take(i as int));
            assert(v.take(i + 1).last() == (o@[i as int].0@, o@[i as int].1@));
            match scalar_string(&o[i].1) {
                Some(s) => {
                    let k = o[i].0.clone();
                    items.push((k, s));
                    assert(pairs_of(items@) =~= pairs_of(before).push((o@[i as int].0@, s@)));
                },
                None => {},
            }
            i = i + 1;
        }
        assert(v.take(i as int) =~= v);
        items
    }

    /// Decodes a line: a flat array gives the texts of its scalars, an object
    /// the keys and texts of its scalars; anything else, or text that is not
    /// JSON, is refused.
    pub fn decode(&self, line: &[u8]) -> (r: Result<DecodingResult, Error>)
        ensures
            match json_document(line@) {
                Ok(JsonDocV::Array(t)) => r matches Ok(DecodingResult::Tuple(items)) && strings_view(items@) == tuple_texts(t),
                Ok(JsonDocV::Object(o)) => r matches Ok(DecodingResult::Dict(items)) && pairs_of(items@) == dict_texts(o)
                    && keys_distinct(pairs_of(items@)),
                Ok(JsonDocV::Other) => r matches Err(e) && e.message_spec() == flat_msg(),
                Err(m) => r matches Err(e) && e.message_spec() == failed_msg(m),
            },
    {
        match read_json(line) {
            Ok(JsonDoc::Array(t)) => Ok(DecodingResult::Tuple(self.decode_tuple(&t))),
            Ok(JsonDoc::Object(o)) => {
                proof {
                    lemma_dict_keys(entries_view(o@));
                }
                Ok(DecodingResult::Dict(self.decode_dict(&o)))
            },
            Ok(JsonDoc::Other) => Err(Error::new("JSON decoder supports only flat arrays and objects")),
            Err(m) => {
                let mut msg: Vec<char> = Vec::new();
                push_str(&mut msg, "JSON decoding failed: ");
                push_str(&mut msg, m.as_str());
                Err(Error::from_string(string_from_chars(msg.as_slice())))
            },
        }
    }
}

} // verus!
