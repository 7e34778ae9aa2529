//! A plain-value model of a parsed TOML document, read by the `toml` crate.
use vstd::prelude::*;

use crate::text::str_eq;

verus! {

/// A TOML value as the lints read it: strings, arrays and tables (entries in the
/// order the `toml` crate's table yields them); every other
/// kind of value (numbers, booleans, datetimes) is `Other`.
#[derive(Debug)]
pub enum TomlValue {
    Str(String),
    Array(Vec<TomlValue>),
    Table(Vec<(String, TomlValue)>),
    Other,
}

/// Mathematical value of a [`TomlValue`].
pub enum TomlSpec {
    Str(Seq<char>),
    Array(Seq<TomlSpec>),
    Table(Seq<(Seq<char>, TomlSpec)>),
    Other,
}

pub open spec fn toml_view(v: TomlValue) -> TomlSpec
    decreases v, 1int,
{
    match v {
        TomlValue::Str(s) => TomlSpec::Str(s@),
        TomlValue::Array(items) => TomlSpec::Array(toml_seq_view(items@)),
        TomlValue::Table(entries) => TomlSpec::Table(toml_entries_view(entries@)),
        TomlValue::Other => TomlSpec::Other,
    }
}

pub open spec fn toml_seq_view(s: Seq<TomlValue>) -> Seq<TomlSpec>
    decreases s, 0int,
{
    if s.len() == 0 {
        seq![]
    } else {
        seq![toml_view(s[0])] + toml_seq_view(s.drop_first())
    }
}

pub open spec fn toml_entries_view(s: Seq<(String, TomlValue)>) -> Seq<(Seq<char>, TomlSpec)>
    decreases s, 0int,
{
    if s.len() == 0 {
        seq![]
    } else {
        seq![(s[0].0@, toml_view(s[0].1))] + toml_entries_view(s.drop_first())
    }
}


pub open spec fn opt_toml_view(v: Option<TomlValue>) -> Option<TomlSpec> {
    match v {
        Some(x) => Some(toml_view(x)),
        None => None,
    }
}

#[verifier::external_type_specification]
#[verifier::external_body]
pub struct ExTomlValue(toml::Value);

/// The document `toml::from_str::<toml::Value>` reads from `raw`, or `None` when it
/// reports an error.
pub uninterp spec fn toml_document(raw: Seq<char>) -> Option<TomlSpec>;

/// The reason `toml::from_str` gave for refusing a document.
#[derive(Debug, Clone)]
pub struct TomlError {
    pub message: String,
}

impl TomlValue {
    /// One-for-one copy of a `toml::Value` tree: strings, arrays and tables keep their
    /// shape (table entries in the table's iteration order), all other kinds become
    /// `Other`.
    #[verifier::external_body]
    fn from_toml(v: toml::Value) -> TomlValue {
        match v {
            toml::Value::String(s) => TomlValue::Str(s),
            toml::Value::Array(a) => TomlValue::Array(a.into_iter().map(TomlValue::from_toml).collect()),
            toml::Value::Table(t) => TomlValue::Table(t.into_iter().map(|(k, x)| (k, TomlValue::from_toml(x))).collect()),
            _ => TomlValue::Other,
        }
    }
}

/// Parses a TOML document with `toml::from_str::<toml::Value>`.
/// Trusted: `Ok` exactly when the crate reads the document, with the named document as
/// its value; the error's message is the crate's and is not stated.
#[verifier::external_body]
pub(crate) fn parse_toml(raw: &str) -> (r: Result<TomlValue, TomlError>)
    ensures
        r is Ok <==> toml_document(raw@) is Some,
        r matches Ok(v) ==> toml_document(raw@) == Some(toml_view(v)),
{
    match toml::from_str::<toml::Value>(raw) {
        Ok(v) => Ok(TomlValue::from_toml(v)),
        Err(e) => Err(TomlError { message: e.to_string() }),
    }
}


/// The value of the first entry named `key`.
pub open spec fn entries_get(es: Seq<(Seq<char>, TomlSpec)>, key: Seq<char>) -> Option<TomlSpec>
    decreases es.len(),
{
    if es.len() == 0 {
        None
    } else if es[0].0 == key {
        Some(es[0].1)
    } else {
        entries_get(es.drop_first(), key)
    }
}

/// `toml::Value::get(key)`: the entry of a table, `None` for any other value.
pub open spec fn toml_get(v: TomlSpec, key: Seq<char>) -> Option<TomlSpec> {
    match v {
        TomlSpec::Table(es) => entries_get(es, key),
        _ => None,
    }
}

/// `toml::Value::get(key)` followed by `as_table`.
pub open spec fn get_table(v: TomlSpec, key: Seq<char>) -> Option<Seq<(Seq<char>, TomlSpec)>> {
    match toml_get(v, key) {
        Some(TomlSpec::Table(es)) => Some(es),
        _ => None,
    }
}

/// `toml::Value::get(key)` followed by `as_str`.
pub open spec fn get_str(v: TomlSpec, key: Seq<char>) -> Option<Seq<char>> {
    match toml_get(v, key) {
        Some(TomlSpec::Str(s)) => Some(s),
        _ => None,
    }
}

/// `toml::Value::get(key)` followed by `as_array`.
pub open spec fn get_array(v: TomlSpec, key: Seq<char>) -> Option<Seq<TomlSpec>> {
    match toml_get(v, key) {
        Some(TomlSpec::Array(a)) => Some(a),
        _ => None,
    }
}

pub proof fn lemma_entries_view_index(s: Seq<(String, TomlValue)>, i: int)
    requires
        0 <= i < s.len(),
    ensures
        toml_entries_view(s).len() == s.len(),
        toml_entries_view(s)[i] == (s[i].0@, toml_view(s[i].1)),
    decreases s.len(),
{
    if i > 0 {
        lemma_entries_view_index(s.drop_first(), i - 1);
    } else {
        lemma_entries_len(s.drop_first());
    }
}

pub proof fn lemma_entries_len(s: Seq<(String, TomlValue)>)
    ensures
        toml_entries_view(s).len() == s.len(),
    decreases s.len(),
{
    if s.len() > 0 {
        lemma_entries_len(s.drop_first());
    }
}

pub proof fn lemma_seq_view_index(s: Seq<TomlValue>, i: int)
    requires
        0 <= i < s.len(),
    ensures
        toml_seq_view(s).len() == s.len(),
        toml_seq_view(s)[i] == toml_view(s[i]),
    decreases s.len(),
{
    if i > 0 {
        lemma_seq_view_index(s.drop_first(), i - 1);
    } else {
        lemma_seq_view_len(s.drop_first());
    }
}

pub proof fn lemma_seq_view_len(s: Seq<TomlValue>)
    ensures
        toml_seq_view(s).len() == s.len(),
    decreases s.len(),
{
    if s.len() > 0 {
        lemma_seq_view_len(s.drop_first());
    }
}

/// `entries_get` scanning from position `i` when no earlier key matches.
pub proof fn lemma_entries_get_skip(es: Seq<(Seq<char>, TomlSpec)>, key: Seq<char>, i: int)
    requires
        0 <= i <= es.len(),
        forall|j: int| 0 <= j < i ==> es[j].0 != key,
    ensures
        entries_get(es, key) == entries_get(es.skip(i), key),
    decreases i,
{
    if i > 0 {
        lemma_entries_get_skip(es.drop_first(), key, i - 1);
        assert(es.drop_first().skip(i - 1) =~= es.skip(i));
    } else {
        assert(es.skip(0) =~= es);
    }
}

/// The value of the first entry named `key` (`toml::map::Map::get`).
pub fn entries_lookup<'a>(entries: &'a Vec<(String, TomlValue)>, key: &str) -> (r: Option<&'a TomlValue>)
    ensures
        opt_toml_view(match r { Some(x) => Some(*x), None => None }) == entries_get(toml_entries_view(entries@), key@),
{
    let ghost es = toml_entries_view(entries@);
    proof {
        lemma_entries_len(entries@);
    }
    let mut i: usize = 0;
    while i < entries.len()
        invariant
            es == toml_entries_view(entries@),
            es.len() == entries@.len(),
            i <= entries@.len(),
            forall|j: int| 0 <= j < i ==> es[j].0 != key@,
        decreases entries@.len() - i,
    {
        proof {
            lemma_entries_view_index(entries@, i as int);
        }
        if str_eq(entries[i].0.as_str(), key) {
            proof {
                lemma_entries_get_skip(es, key@, i as int);
                assert(es.skip(i as int)[0] == es[i as int]);
            }
            return Some(&entries[i].1);
        }
        i = i + 1;
    }
    proof {
        lemma_entries_get_skip(es, key@, i as int);
        assert(es.skip(i as int).len() == 0);
    }
    None
}

/// `toml::Value::get(key)`.
pub fn value_get<'a>(v: &'a TomlValue, key: &str) -> (r: Option<&'a TomlValue>)
    ensures
        opt_toml_view(match r { Some(x) => Some(*x), None => None }) == toml_get(toml_view(*v), key@),
{
    match v {
        TomlValue::Table(entries) => entries_lookup(entries, key),
        _ => None,
    }
}

} // verus!
