//! JSON documents as the `serde_json` crate reads, holds and writes them.
//!
//! The crate is not verified. This module declares its types, gives them a
//! mathematical model and states, item by item, what the rest of the library
//! relies on: how a document is taken apart and put together, and that reading
//! and writing are functions of the text and of the document.

use vstd::prelude::*;
use crate::float::Float;

verus! {

/// `serde_json::Number`, a number of a document. What it holds is named by
/// [`number_model`].
#[verifier::external_type_specification]
#[verifier::external_body]
pub struct ExNumber(serde_json::Number);

/// `serde_json::Value`, a document. What it holds is named by
/// [`value_model`].
#[verifier::external_type_specification]
#[verifier::external_body]
pub struct ExValue(serde_json::Value);

/// `serde_json::Error`, why a text was not read. Nothing is known of what is
/// inside.
#[verifier::external_type_specification]
#[verifier::external_body]
pub struct ExError(serde_json::Error);

/// What a `serde_json::Number` holds: an integer, or a finite double by its
/// bits.
pub enum Numeral {
    Int(int),
    Float(u64),
}

/// A JSON document as mathematics. The members of an object form a map: their
/// order does not count.
pub enum Json {
    Null,
    Bool(bool),
    Str(Seq<char>),
    Float(u64),
    Int(int),
    List(Seq<Json>),
    Object(Map<Seq<char>, Json>),
}

/// What the number holds.
pub uninterp spec fn number_model(n: serde_json::Number) -> Numeral;

/// The bits of the double that `Number::as_f64` reads the number as.
pub uninterp spec fn number_double(n: serde_json::Number) -> u64;

/// What the document holds.
pub uninterp spec fn value_model(v: serde_json::Value) -> Json;

/// The document that `serde_json::from_str` reads from a text, if it reads one.
pub uninterp spec fn json_parse(text: Seq<char>) -> Option<Json>;

/// The text that `serde_json` writes for a document.
pub uninterp spec fn json_text(document: Json) -> Seq<char>;

/// A number as a document.
pub open spec fn numeral_json(numeral: Numeral) -> Json {
    match numeral {
        Numeral::Int(i) => Json::Int(i),
        Numeral::Float(bits) => Json::Float(bits),
    }
}

/// The map that a list of members stands for: a key maps to the value of the
/// first member that carries it.
pub open spec fn members_map(members: Seq<(Seq<char>, Json)>) -> Map<Seq<char>, Json>
    decreases members.len(),
{
    if members.len() == 0 {
        Map::empty()
    } else {
        members_map(members.drop_first()).insert(members[0].0, members[0].1)
    }
}

/// No two members share a key.
pub open spec fn distinct_members(members: Seq<(Seq<char>, Json)>) -> bool {
    forall|i: int, j: int|
        0 <= i < j < members.len() ==> (#[trigger] members[i]).0 != (#[trigger] members[j]).0
}

/// The map of a list of members is finite and holds the keys of the list.
pub proof fn lemma_members_map(members: Seq<(Seq<char>, Json)>)
    ensures
        members_map(members).dom().finite(),
        forall|key: Seq<char>|
            members_map(members).dom().contains(key) <==> exists|i: int|
                0 <= i < members.len() && (#[trigger] members[i]).0 == key,
    decreases members.len(),
{
    if members.len() > 0 {
        let rest = members.drop_first();
        lemma_members_map(rest);
        assert forall|key: Seq<char>|
            members_map(members).dom().contains(key) <==> exists|i: int|
                0 <= i < members.len() && (#[trigger] members[i]).0 == key by {
            if members_map(members).dom().contains(key) {
                if key == members[0].0 {
                    assert(members[0].0 == key);
                } else {
                    let i = choose|i: int| 0 <= i < rest.len() && (#[trigger] rest[i]).0 == key;
                    assert(members[i + 1].0 == key);
                }
            }
            if exists|i: int| 0 <= i < members.len() && (#[trigger] members[i]).0 == key {
                let i = choose|i: int| 0 <= i < members.len() && (#[trigger] members[i]).0 == key;
                if i > 0 {
                    assert(rest[i - 1].0 == key);
                }
            }
        }
    }
}

/// Where the keys are distinct, the map holds each member under its key.
pub proof fn lemma_members_map_at(members: Seq<(Seq<char>, Json)>, at: int)
    requires
        distinct_members(members),
        0 <= at < members.len(),
    ensures
        members_map(members).dom().contains(members[at].0),
        members_map(members)[members[at].0] == members[at].1,
    decreases members.len(),
{
    let rest = members.drop_first();
    if at > 0 {
        assert(distinct_members(rest)) by {
            assert forall|i: int, j: int| 0 <= i < j < rest.len() implies (#[trigger] rest[i]).0
                != (#[trigger] rest[j]).0 by {
                assert(members[i + 1].0 != members[j + 1].0);
            }
        }
        lemma_members_map_at(rest, at - 1);
        assert(rest[at - 1] == members[at]);
        assert(members[0].0 != members[at].0);
    }
}

/// The parts of a document, one level deep, as they lie in it.
pub enum Parts<'a> {
    Null,
    Bool(bool),
    Number(&'a serde_json::Number),
    String(&'a String),
    Array(&'a Vec<serde_json::Value>),
    Object(Vec<(&'a String, &'a serde_json::Value)>),
}

/// The parts of a document to be made, one level deep.
pub enum Pieces {
    Null,
    Bool(bool),
    Number(serde_json::Number),
    String(String),
    Array(Vec<serde_json::Value>),
    Object(Vec<(String, serde_json::Value)>),
}

/// The documents that the items of an array hold.
pub open spec fn item_models(items: Seq<serde_json::Value>) -> Seq<Json> {
    Seq::new(items.len(), |i: int| value_model(items[i]))
}

impl<'a> Parts<'a> {
    /// The members of an object, each with the document it holds.
    pub open spec fn member_models(members: Seq<(&'a String, &'a serde_json::Value)>) -> Seq<
        (Seq<char>, Json),
    > {
        Seq::new(members.len(), |i: int| (members[i].0@, value_model(*members[i].1)))
    }

    /// The document that the parts make up.
    pub open spec fn model(self) -> Json {
        match self {
            Parts::Null => Json::Null,
            Parts::Bool(b) => Json::Bool(b),
            Parts::Number(n) => numeral_json(number_model(*n)),
            Parts::String(s) => Json::Str(s@),
            Parts::Array(items) => Json::List(item_models(items@)),
            Parts::Object(members) => Json::Object(members_map(Self::member_models(members@))),
        }
    }

    /// The members of an object carry distinct keys.
    pub open spec fn distinct(self) -> bool {
        match self {
            Parts::Object(members) => distinct_members(Self::member_models(members@)),
            _ => true,
        }
    }
}

impl Pieces {
    /// The members of an object, each with the document it holds.
    pub open spec fn member_models(members: Seq<(String, serde_json::Value)>) -> Seq<
        (Seq<char>, Json),
    > {
        Seq::new(members.len(), |i: int| (members[i].0@, value_model(members[i].1)))
    }

    /// The document that the pieces make up.
    pub open spec fn model(self) -> Json {
        match self {
            Pieces::Null => Json::Null,
            Pieces::Bool(b) => Json::Bool(b),
            Pieces::Number(n) => numeral_json(number_model(n)),
            Pieces::String(s) => Json::Str(s@),
            Pieces::Array(items) => Json::List(item_models(items@)),
            Pieces::Object(members) => Json::Object(members_map(Self::member_models(members@))),
        }
    }

    /// The members of an object carry distinct keys.
    pub open spec fn distinct(self) -> bool {
        match self {
            Pieces::Object(members) => distinct_members(Self::member_models(members@)),
            _ => true,
        }
    }
}

/// Tells the variants of `serde_json::Value` apart and hands out what the
/// document holds, one level deep: a scalar as it is, the items of an array,
/// and the members of an object, whose keys the crate keeps distinct.
#[verifier::external_body]
pub(crate) fn parts<'a>(v: &'a serde_json::Value) -> (parts: Parts<'a>)
    ensures
        parts.model() == value_model(*v),
        parts.distinct(),
{
    match v {
        serde_json::Value::Null => Parts::Null,
        serde_json::Value::Bool(b) => Parts::Bool(*b),
        serde_json::Value::Number(n) => Parts::Number(n),
        serde_json::Value::String(s) => Parts::String(s),
        serde_json::Value::Array(items) => Parts::Array(items),
        serde_json::Value::Object(members) => Parts::Object(members.iter().collect()),
    }
}

/// Makes a `serde_json::Value` of its parts, variant by variant. The members
/// of an object are collected into the crate's map, which keeps one value for
/// a key: their keys must be distinct for all of them to be kept.
#[verifier::external_body]
pub(crate) fn assemble(pieces: Pieces) -> (v: serde_json::Value)
    requires
        pieces.distinct(),
    ensures
        value_model(v) == pieces.model(),
{
    match pieces {
        Pieces::Null => serde_json::Value::Null,
        Pieces::Bool(b) => serde_json::Value::Bool(b),
        Pieces::Number(n) => serde_json::Value::Number(n),
        Pieces::String(s) => serde_json::Value::String(s),
        Pieces::Array(items) => serde_json::Value::Array(items),
        Pieces::Object(members) => serde_json::Value::Object(members.into_iter().collect()),
    }
}

/// `serde_json::from_str` for a `Value`: the document that the text holds, or
/// an error where the text is no JSON document. Which of the two, and which
/// document, depends on the text alone.
#[verifier::external_body]
pub(crate) fn read(text: &str) -> (document: Result<serde_json::Value, serde_json::Error>)
    ensures
        match document {
            Ok(v) => json_parse(text@) == Some(value_model(v)),
            Err(_) => json_parse(text@) is None,
        },
{
    serde_json::from_str::<serde_json::Value>(text)
}

/// `Value::to_string`: the document in the crate's compact notation, which
/// depends on what the document holds alone.
#[verifier::external_body]
pub(crate) fn render(v: &serde_json::Value) -> (text: String)
    ensures
        text@ == json_text(value_model(*v)),
{
    v.to_string()
}

/// `Number::as_i64`: the integer that the number holds, where it holds one
/// from `i64::MIN` to `i64::MAX`.
pub assume_specification[ serde_json::Number::as_i64 ](n: &serde_json::Number) -> (held: Option<
    i64,
>)
    ensures
        held == match number_model(*n) {
            Numeral::Int(i) => if i64::MIN <= i <= i64::MAX {
                Some(i as i64)
            } else {
                None
            },
            Numeral::Float(_) => None,
        },
;

/// `Number::as_u64`: the integer that the number holds, where it holds one
/// from 0 to `u64::MAX`.
pub assume_specification[ serde_json::Number::as_u64 ](n: &serde_json::Number) -> (held: Option<
    u64,
>)
    ensures
        held == match number_model(*n) {
            Numeral::Int(i) => if 0 <= i <= u64::MAX {
                Some(i as u64)
            } else {
                None
            },
            Numeral::Float(_) => None,
        },
;

/// `Number::from_i128`: the number that holds `i`, which there is from
/// `i64::MIN` to `u64::MAX` and not beyond.
pub assume_specification[ serde_json::Number::from_i128 ](i: i128) -> (made: Option<
    serde_json::Number,
>)
    ensures
        made is Some <==> i64::MIN <= i <= u64::MAX,
        made matches Some(n) ==> number_model(n) == Numeral::Int(i as int),
;

/// `Number::clone`: the same number.
pub assume_specification[ <serde_json::Number as Clone>::clone ](n: &serde_json::Number) -> (same:
    serde_json::Number)
    ensures
        same == *n,
;

/// `Number::as_f64`, by the bits of the double it returns. As the crate is
/// built here every number reads as a double: one that holds a double gives
/// it back, and an integer is converted. The double is finite: a number holds
/// no other, and every integer it holds converts to one.
#[verifier::external_body]
pub(crate) fn number_bits(n: &serde_json::Number) -> (bits: Option<u64>)
    ensures
        bits == Some(number_double(*n)),
        number_model(*n) matches Numeral::Float(held) ==> bits == Some(held),
        bits matches Some(double) ==> (Float { bits: double }).finite(),
{
    n.as_f64().map(|double| double.to_bits())
}

} // verus!
