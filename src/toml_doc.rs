//! The library's own model of a parsed TOML document, holding as plain
//! values what configuration parsing reads.
use vstd::prelude::*;
use crate::text::same_text;

verus! {

/// A TOML value: strings, arrays and tables are kept; other scalars are
/// only known to be present.
#[derive(Debug)]
pub enum TomlValue {
    Str(String),
    Array(Vec<TomlValue>),
    Table(Vec<TomlEntry>),
    Other,
}

/// One key of a table with its value.
#[derive(Debug)]
pub struct TomlEntry {
    pub key: String,
    pub value: TomlValue,
}

#[verifier::external_type_specification]
#[verifier::external_body]
pub struct ExTomlValue(toml::Value);

/// The entries of the top-level table of the TOML document `text`, or
/// `None` where `text` is not a TOML document.
pub uninterp spec fn toml_document(text: Seq<char>) -> Option<Seq<TomlEntry>>;

/// Moves a value that `toml` parsed into the library's own type, variant
/// for variant.
#[verifier::external_body]
fn lift(v: toml::Value) -> TomlValue {
    match v {
        toml::Value::String(s) => TomlValue::Str(s),
        toml::Value::Array(a) => TomlValue::Array(a.into_iter().map(lift).collect()),
        toml::Value::Table(t) => TomlValue::Table(
            t.into_iter().map(|(key, v)| TomlEntry { key, value: lift(v) }).collect(),
        ),
        _ => TomlValue::Other,
    }
}

/// Relies on `toml::Table`'s `FromStr`: parses a document into its
/// top-level table, or fails; the outcome depends on the text alone.
#[verifier::external_body]
pub(crate) fn parse_toml(text: &str) -> (r: Option<Vec<TomlEntry>>)
    ensures
        r is Some <==> toml_document(text@) is Some,
        r matches Some(t) ==> t@ == toml_document(text@)->0,
{
    match text.parse::<toml::Table>() {
        Ok(t) => Some(t.into_iter().map(|(key, v)| TomlEntry { key, value: lift(v) }).collect()),
        Err(_) => None,
    }
}

/// The value of the first entry of `t` under `key`.
pub open spec fn lookup(t: Seq<TomlEntry>, key: Seq<char>) -> Option<TomlValue>
    decreases t.len(),
{
    if t.len() == 0 {
        None
    } else if t[0].key@ == key {
        Some(t[0].value)
    } else {
        lookup(t.drop_first(), key)
    }
}

proof fn lemma_lookup_step(t: Seq<TomlEntry>, i: int, key: Seq<char>)
    requires
        0 <= i < t.len(),
        t[i].key@ != key,
    ensures
        lookup(t.subrange(i, t.len() as int), key) == lookup(t.subrange(i + 1, t.len() as int), key),
{
    assert(t.subrange(i, t.len() as int).drop_first() =~= t.subrange(i + 1, t.len() as int));
}

/// The value under `key` in table `t`.
pub fn get<'a>(t: &'a Vec<TomlEntry>, key: &str) -> (r: Option<&'a TomlValue>)
    ensures
        r is Some <==> lookup(t@, key@) is Some,
        r matches Some(v) ==> *v == lookup(t@, key@)->0,
{
    let mut i: usize = 0;
    assert(t@.subrange(0, t@.len() as int) =~= t@);
    while i < t.len()
        invariant
            i <= t@.len(),
            lookup(t@, key@) == lookup(t@.subrange(i as int, t@.len() as int), key@),
        decreases t.len() - i,
    {
        if same_text(t[i].key.as_str(), key) {
            return Some(&t[i].value);
        }
        proof {
            lemma_lookup_step(t@, i as int, key@);
        }
        i += 1;
    }
    None
}

} // verus!
