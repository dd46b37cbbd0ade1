//! Conversion between TOML and JSON documents.
//!
//! Floating-point numbers are carried as their bit patterns: the library moves them
//! and never computes with them.

use vstd::prelude::*;

verus! {

/// A number of a JSON document, as the two readings that its parser offers: as a
/// signed integer, and as a floating-point number (by its bits).
#[derive(Clone, Copy, Debug, PartialEq, Eq)]
pub struct JsonNumber {
    pub as_i64: Option<i64>,
    pub as_f64: Option<u64>,
}

/// A JSON document. An object lists its members in the order of the document.
#[derive(Debug)]
pub enum Json {
    Null,
    Bool(bool),
    Number(JsonNumber),
    String(String),
    Array(Vec<Json>),
    Object(Vec<(String, Json)>),
}

/// A TOML document. A table lists its entries in the order of the document; a
/// date-time is carried as its text.
#[derive(Debug)]
pub enum Toml {
    String(String),
    Integer(i64),
    Float(u64),
    Boolean(bool),
    Datetime(String),
    Array(Vec<Toml>),
    Table(Vec<(String, Toml)>),
}

/// Whether the bits are those of a finite floating-point number: neither an infinity
/// nor a NaN.
pub open spec fn finite_bits(bits: u64) -> bool {
    (bits >> 52) & 0x7ff != 0x7ff
}

/// Whether the bits are those of a finite floating-point number.
pub fn is_finite_bits(bits: u64) -> (r: bool)
    ensures
        r == finite_bits(bits),
{
    (bits >> 52) & 0x7ff != 0x7ff
}

/// Every floating-point number of the document is finite.
pub open spec fn all_finite(toml: Toml) -> bool
    decreases toml,
{
    match toml {
        Toml::Float(bits) => finite_bits(bits),
        Toml::Array(items) => forall|i: int|
            0 <= i < items@.len() ==> all_finite(#[trigger] items@[i]),
        Toml::Table(entries) => forall|i: int|
            0 <= i < entries@.len() ==> all_finite((#[trigger] entries@[i]).1),
        _ => true,
    }
}

/// `json` is the JSON document that says what the TOML document `toml` says: strings,
/// integers, finite floating-point numbers and booleans as themselves, a date-time as
/// the string of its text, an array item by item and a table entry by entry.
pub open spec fn json_of(toml: Toml, json: Json) -> bool
    decreases toml,
{
    match toml {
        Toml::String(s) => json matches Json::String(t) && t@ == s@,
        Toml::Integer(i) => json == Json::Number(JsonNumber { as_i64: Some(i), as_f64: None }),
        Toml::Float(bits) => json == Json::Number(
            JsonNumber { as_i64: None, as_f64: Some(bits) },
        ),
        Toml::Boolean(b) => json == Json::Bool(b),
        Toml::Datetime(text) => json matches Json::String(t) && t@ == text@,
        Toml::Array(items) => json matches Json::Array(converted) && converted@.len()
            == items@.len() && forall|i: int|
            0 <= i < items@.len() ==> json_of(#[trigger] items@[i], converted@[i]),
        Toml::Table(entries) => json matches Json::Object(members) && members@.len()
            == entries@.len() && forall|i: int|
            0 <= i < entries@.len() ==> (#[trigger] members@[i]).0@ == entries@[i].0@ && json_of(
                entries@[i].1,
                members@[i].1,
            ),
    }
}

/// Whether every floating-point number of the document is finite.
pub fn is_convertible(toml: &Toml) -> (r: bool)
    ensures
        r == all_finite(*toml),
    decreases toml,
{
    match toml {
        Toml::Float(bits) => is_finite_bits(*bits),
        Toml::Array(items) => {
            let mut i: usize = 0;
            while i < items.len()
                invariant
                    i <= items@.len(),
                    *toml == Toml::Array(*items),
                    toml matches Toml::Array(v) && v == items,
                    forall|k: int| 0 <= k < i ==> all_finite(#[trigger] items@[k]),
                decreases items@.len() - i,
            {
                proof {
                    assert(decreases_to!(toml => items));
                    assert(decreases_to!(items => items@));
                    assert(decreases_to!(items@ => items@[i as int]));
                }
                if !is_convertible(&items[i]) {
                    assert(!all_finite(items@[i as int]));
                    return false;
                }
                i += 1;
            }
            true
        },
        Toml::Table(entries) => {
            let mut i: usize = 0;
            while i < entries.len()
                invariant
                    i <= entries@.len(),
                    *toml == Toml::Table(*entries),
                    toml matches Toml::Table(v) && v == entries,
                    forall|k: int| 0 <= k < i ==> all_finite((#[trigger] entries@[k]).1),
                decreases entries@.len() - i,
            {
                proof {
                    assert(decreases_to!(toml => entries));
                    assert(decreases_to!(entries => entries@));
                    assert(decreases_to!(entries@ => entries@[i as int]));
                    assert(decreases_to!(entries@[i as int] => entries@[i as int].1));
                }
                if !is_convertible(&entries[i].1) {
                    assert(!all_finite(entries@[i as int].1));
                    return false;
                }
                i += 1;
            }
            true
        },
        _ => true,
    }
}

/// Converts a TOML document into the JSON document that says the same. JSON has no
/// infinite number and no NaN, so every floating-point number has to be finite.
pub fn toml_to_json(toml: &Toml) -> (json: Json)
    requires
        all_finite(*toml),
    ensures
        json_of(*toml, json),
    decreases toml,
{
    match toml {
        Toml::String(s) => Json::String(s.clone()),
        Toml::Integer(i) => Json::Number(JsonNumber { as_i64: Some(*i), as_f64: None }),
        Toml::Float(bits) => Json::Number(JsonNumber { as_i64: None, as_f64: Some(*bits) }),
        Toml::Boolean(b) => Json::Bool(*b),
        Toml::Datetime(text) => Json::String(text.clone()),
        Toml::Array(items) => {
            let mut converted: Vec<Json> = Vec::new();
            let mut i: usize = 0;
            while i < items.len()
                invariant
                    i <= items@.len(),
                    *toml == Toml::Array(*items),
                    toml matches Toml::Array(v) && v == items,
                    all_finite(*toml),
                    converted@.len() == i,
                    forall|k: int| 0 <= k < i ==> json_of(#[trigger] items@[k], converted@[k]),
                decreases items@.len() - i,
            {
                proof {
                    assert(decreases_to!(toml => items));
                    assert(decreases_to!(items => items@));
                    assert(decreases_to!(items@ => items@[i as int]));
                }
                assert(all_finite(items@[i as int]));
                converted.push(toml_to_json(&items[i]));
                i += 1;
            }
            Json::Array(converted)
        },
        Toml::Table(entries) => {
            let mut members: Vec<(String, Json)> = Vec::new();
            let mut i: usize = 0;
            while i < entries.len()
                invariant
                    i <= entries@.len(),
                    *toml == Toml::Table(*entries),
                    toml matches Toml::Table(v) && v == entries,
                    all_finite(*toml),
                    members@.len() == i,
                    forall|k: int|
                        0 <= k < i ==> (#[trigger] members@[k]).0@ == entries@[k].0@ && json_of(
                            entries@[k].1,
                            members@[k].1,
                        ),
                decreases entries@.len() - i,
            {
                proof {
                    assert(decreases_to!(toml => entries));
                    assert(decreases_to!(entries => entries@));
                    assert(decreases_to!(entries@ => entries@[i as int]));
                    assert(decreases_to!(entries@[i as int] => entries@[i as int].1));
                }
                assert(all_finite(entries@[i as int].1));
                let value = toml_to_json(&entries[i].1);
                members.push((entries[i].0.clone(), value));
                i += 1;
            }
            Json::Object(members)
        },
    }
}

/// Why a JSON document has no TOML form.
#[derive(Clone, Copy, Debug, PartialEq, Eq, Structural)]
pub enum ConversionError {
    /// A number that reads neither as an integer nor as a floating-point number.
    NeitherIntegerNorFloat,
    /// A value that TOML has no form for: null.
    UnsupportedValue,
}

impl ConversionError {
    /// What the error says.
    pub open spec fn spec_message(self) -> Seq<char> {
        match self {
            ConversionError::NeitherIntegerNorFloat => "Number is neither integer nor float"@,
            ConversionError::UnsupportedValue => "Unsupported JSON value"@,
        }
    }

    /// What the error says.
    pub fn message(&self) -> (text: String)
        ensures
            text@ == self.spec_message(),
    {
        match self {
            ConversionError::NeitherIntegerNorFloat => "Number is neither integer nor float".to_owned(),
            ConversionError::UnsupportedValue => "Unsupported JSON value".to_owned(),
        }
    }
}

/// The first value of the document, in document order, that has no TOML form, with
/// the reason; nothing where every value has one.
pub open spec fn first_obstacle(json: Json) -> Option<ConversionError>
    decreases json, 1nat,
{
    match json {
        Json::Null => Some(ConversionError::UnsupportedValue),
        Json::Number(n) => if n.as_i64 is None && n.as_f64 is None {
            Some(ConversionError::NeitherIntegerNorFloat)
        } else {
            None
        },
        Json::Array(items) => first_obstacle_among(json, items@.len() as int),
        Json::Object(members) => first_obstacle_among(json, members@.len() as int),
        _ => None,
    }
}

/// The first obstacle among the first `n` items of an array or members of an object.
pub open spec fn first_obstacle_among(json: Json, n: int) -> Option<ConversionError>
    decreases json, 0nat, n,
{
    if n <= 0 {
        None
    } else {
        match first_obstacle_among(json, n - 1) {
            Some(e) => Some(e),
            None => match json {
                Json::Array(items) => if n <= items@.len() {
                    first_obstacle(items@[n - 1])
                } else {
                    None
                },
                Json::Object(members) => if n <= members@.len() {
                    first_obstacle(members@[n - 1].1)
                } else {
                    None
                },
                _ => None,
            },
        }
    }
}

/// `toml` is the TOML document that says what the JSON document `json` says: strings
/// and booleans as themselves, a number as an integer where it reads as one and as a
/// floating-point number otherwise, an array item by item and an object member by
/// member.
pub open spec fn toml_of(json: Json, toml: Toml) -> bool
    decreases json,
{
    match json {
        Json::Null => false,
        Json::Bool(b) => toml == Toml::Boolean(b),
        Json::Number(n) => match n.as_i64 {
            Some(i) => toml == Toml::Integer(i),
            None => match n.as_f64 {
                Some(bits) => toml == Toml::Float(bits),
                None => false,
            },
        },
        Json::String(s) => toml matches Toml::String(t) && t@ == s@,
        Json::Array(items) => toml matches Toml::Array(converted) && converted@.len()
            == items@.len() && forall|i: int|
            0 <= i < items@.len() ==> toml_of(#[trigger] items@[i], converted@[i]),
        Json::Object(members) => toml matches Toml::Table(entries) && entries@.len()
            == members@.len() && forall|i: int|
            0 <= i < members@.len() ==> (#[trigger] entries@[i]).0@ == members@[i].0@ && toml_of(
                members@[i].1,
                entries@[i].1,
            ),
    }
}

/// Converts a JSON document into the TOML document that says the same. A document
/// with a null, or with a number that reads neither as an integer nor as a
/// floating-point number, has none: the first such value in document order decides
/// the error.
pub fn json_to_toml(json: &Json) -> (r: Result<Toml, ConversionError>)
    ensures
        match first_obstacle(*json) {
            Some(e) => r == Err::<Toml, ConversionError>(e),
            None => r matches Ok(toml) && toml_of(*json, toml),
        },
    decreases json,
{
    match json {
        Json::Null => Err(ConversionError::UnsupportedValue),
        Json::Bool(b) => Ok(Toml::Boolean(*b)),
        Json::Number(n) => match n.as_i64 {
            Some(i) => Ok(Toml::Integer(i)),
            None => match n.as_f64 {
                Some(bits) => Ok(Toml::Float(bits)),
                None => Err(ConversionError::NeitherIntegerNorFloat),
            },
        },
        Json::String(s) => Ok(Toml::String(s.clone())),
        Json::Array(items) => {
            let mut converted: Vec<Toml> = Vec::new();
            let mut i: usize = 0;
            while i < items.len()
                invariant
                    i <= items@.len(),
                    *json == Json::Array(*items),
                    json matches Json::Array(v) && v == items,
                    converted@.len() == i,
                    first_obstacle_among(*json, i as int) is None,
                    forall|k: int| 0 <= k < i ==> toml_of(#[trigger] items@[k], converted@[k]),
                decreases items@.len() - i,
            {
                proof {
                    assert(decreases_to!(json => items));
                    assert(decreases_to!(items => items@));
                    assert(decreases_to!(items@ => items@[i as int]));
                }
                match json_to_toml(&items[i]) {
                    Err(e) => {
                        proof {
                            lemma_obstacle_stays(*json, i + 1, items@.len() as int);
                        }
                        return Err(e);
                    },
                    Ok(item) => {
                        converted.push(item);
                    },
                }
                i += 1;
            }
            Ok(Toml::Array(converted))
        },
        Json::Object(members) => {
            let mut entries: Vec<(String, Toml)> = Vec::new();
            let mut i: usize = 0;
            while i < members.len()
                invariant
                    i <= members@.len(),
                    *json == Json::Object(*members),
                    json matches Json::Object(v) && v == members,
                    entries@.len() == i,
                    first_obstacle_among(*json, i as int) is None,
                    forall|k: int|
                        0 <= k < i ==> (#[trigger] entries@[k]).0@ == members@[k].0@ && toml_of(
                            members@[k].1,
                            entries@[k].1,
                        ),
                decreases members@.len() - i,
            {
                proof {
                    assert(decreases_to!(json => members));
                    assert(decreases_to!(members => members@));
                    assert(decreases_to!(members@ => members@[i as int]));
                    assert(decreases_to!(members@[i as int] => members@[i as int].1));
                }
                match json_to_toml(&members[i].1) {
                    Err(e) => {
                        proof {
                            lemma_obstacle_stays(*json, i + 1, members@.len() as int);
                        }
                        return Err(e);
                    },
                    Ok(value) => {
                        entries.push((members[i].0.clone(), value));
                    },
                }
                i += 1;
            }
            Ok(Toml::Table(entries))
        },
    }
}

proof fn lemma_obstacle_stays(json: Json, n: int, m: int)
    requires
        n <= m,
        first_obstacle_among(json, n) is Some,
    ensures
        first_obstacle_among(json, m) == first_obstacle_among(json, n),
    decreases m - n,
{
    if n < m {
        lemma_obstacle_stays(json, n, m - 1);
    }
}

} // verus!
