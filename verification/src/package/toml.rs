//! A TOML document as plain values, as the `toml` crate parses it.
use vstd::prelude::*;

verus! {

/// A TOML value. A float is kept without its value: nothing the library
/// reads is a float.
#[derive(Debug)]
pub enum TomlValue {
    String(String),
    Integer(i64),
    Float,
    Boolean(bool),
    Datetime(String),
    Array(Vec<TomlValue>),
    Table(Vec<(String, TomlValue)>),
}

#[verifier::external_type_specification]
#[verifier::external_body]
pub struct ExTomlValue(toml::Value);

/// What `toml` parses from a text: the document's root table, or the message
/// of its error.
pub uninterp spec fn toml_document(text: Seq<char>) -> Result<TomlValue, Seq<char>>;

/// Converts a value of the `toml` crate, one variant for one.
#[verifier::external_body]
fn convert_toml(v: toml::Value) -> TomlValue {
    match v {
        toml::Value::String(s) => TomlValue::String(s),
        toml::Value::Integer(i) => TomlValue::Integer(i),
        toml::Value::Float(_) => TomlValue::Float,
        toml::Value::Boolean(b) => TomlValue::Boolean(b),
        toml::Value::Datetime(d) => TomlValue::Datetime(d.to_string()),
        toml::Value::Array(a) => TomlValue::Array(a.into_iter().map(convert_toml).collect()),
        toml::Value::Table(t) => TomlValue::Table(t.into_iter().map(|(k, v)| (k, convert_toml(v))).collect()),
    }
}

/// Parses a TOML document with `toml::Table`'s `FromStr`, which calls
/// `toml::from_str`. The contract names the outcome by `toml_document`, and
/// claims that a parsed document is a table.
#[verifier::external_body]
pub(crate) fn parse_toml(text: &str) -> (r: Result<TomlValue, String>)
    ensures
        match r {
            Ok(v) => toml_document(text@) == Ok::<TomlValue, Seq<char>>(v) && v is Table,
            Err(m) => toml_document(text@) == Err::<TomlValue, Seq<char>>(m@),
        },
{
    match text.parse::<toml::Table>() {
        Ok(t) => Ok(convert_toml(toml::Value::Table(t))),
        Err(e) => Err(e.to_string()),
    }
}

/// The first value under `key` in a table.
pub open spec fn table_get(t: Seq<(String, TomlValue)>, key: Seq<char>) -> Option<TomlValue>
    decreases t.len(),
{
    if t.len() == 0 {
        None
    } else if t[0].0@ == key {
        Some(t[0].1)
    } else {
        table_get(t.drop_first(), key)
    }
}

/// The first key of the table that is not allowed.
pub open spec fn first_unknown_key(t: Seq<(String, TomlValue)>, allowed: Seq<Seq<char>>) -> Option<Seq<char>>
    decreases t.len(),
{
    if t.len() == 0 {
        None
    } else if !allowed.contains(t[0].0@) {
        Some(t[0].0@)
    } else {
        first_unknown_key(t.drop_first(), allowed)
    }
}

/// The value under `key`.
pub fn get<'a>(t: &'a Vec<(String, TomlValue)>, key: &str) -> (r: Option<&'a TomlValue>)
    ensures
        match (r, table_get(t@, key@)) {
            (Some(v), Some(w)) => *v == w,
            (None, None) => true,
            _ => false,
        },
{
    let mut i: usize = 0;
    assert(t@.skip(0) =~= t@);
    while i < t.len()
        invariant
            i <= t@.len(),
            table_get(t@, key@) == table_get(t@.skip(i as int), key@),
        decreases t@.len() - i,
    {
        proof {
            assert(t@.skip(i as int).drop_first() =~= t@.skip(i + 1));
            assert(t@.skip(i as int)[0] == t@[i as int]);
        }
        if crate::text::str_eq(t[i].0.as_str(), key) {
            return Some(&t[i].1);
        }
        i = i + 1;
    }
    None
}

/// The first key that is not among `allowed`.
pub fn find_unknown_key(t: &Vec<(String, TomlValue)>, allowed: &Vec<&str>) -> (r: Option<String>)
    ensures
        match (r, first_unknown_key(t@, allowed@.map_values(|a: &str| a@))) {
            (Some(k), Some(w)) => k@ == w,
            (None, None) => true,
            _ => false,
        },
{
    let ghost av = allowed@.map_values(|a: &str| a@);
    let mut i: usize = 0;
    assert(t@.skip(0) =~= t@);
    while i < t.len()
        invariant
            i <= t@.len(),
            av == allowed@.map_values(|a: &str| a@),
            first_unknown_key(t@, av) == first_unknown_key(t@.skip(i as int), av),
        decreases t@.len() - i,
    {
        proof {
            assert(t@.skip(i as int).drop_first() =~= t@.skip(i + 1));
            assert(t@.skip(i as int)[0] == t@[i as int]);
        }
        let key = t[i].0.as_str();
        let mut found = false;
        let mut j: usize = 0;
        while j < allowed.len()
            invariant
                j <= allowed@.len(),
                av == allowed@.map_values(|a: &str| a@),
                found <==> exists|m: int| 0 <= m < j && av[m] == key@,
            decreases allowed@.len() - j,
        {
            if crate::text::str_eq(allowed[j], key) {
                found = true;
            }
            proof {
                assert(av[j as int] == allowed@[j as int]@);
            }
            j = j + 1;
        }
        if !found {
            proof {
                assert(!av.contains(key@));
            }
            return Some(key.to_owned());
        }
        proof {
            let m = choose|m: int| 0 <= m < allowed@.len() && av[m] == key@;
            assert(av.contains(key@));
        }
        i = i + 1;
    }
    None
}

} // verus!
