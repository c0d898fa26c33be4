//! JSON values.

use vstd::prelude::*;
use crate::document::{
    assemble,
    item_models,
    json_parse,
    json_text,
    lemma_members_map,
    lemma_members_map_at,
    members_map,
    number_model,
    numeral_json,
    parts,
    read,
    render,
    value_model,
    Json,
    Parts,
    Pieces,
};
use crate::entries::distinct_keys;
use crate::error::InvalidInput;

verus! {

/// A JSON value. A number is an integer where the document writes one that
/// fits, and otherwise a double, kept as the document reader made it. An
/// object is a list of members: a key stands for its first member.
#[derive(Debug)]
pub enum JsonValue {
    Null,
    Bool(bool),
    Str(String),
    Float(serde_json::Number),
    Int(i128),
    List(Vec<JsonValue>),
    Object(Vec<(String, JsonValue)>),
}

impl View for JsonValue {
    type V = Json;

    /// The document that the value stands for. Two values are structurally
    /// equal when they stand for the same document.
    open spec fn view(&self) -> Json
        decreases self, 1nat,
    {
        match self {
            JsonValue::Null => Json::Null,
            JsonValue::Bool(b) => Json::Bool(*b),
            JsonValue::Str(s) => Json::Str(s@),
            JsonValue::Float(n) => numeral_json(number_model(*n)),
            JsonValue::Int(i) => Json::Int(*i as int),
            JsonValue::List(items) => Json::List(JsonValue::item_views(items@)),
            JsonValue::Object(members) => Json::Object(
                members_map(JsonValue::member_views(members@)),
            ),
        }
    }
}

impl JsonValue {
    /// The documents that the items of a list stand for.
    pub open spec fn item_views(items: Seq<JsonValue>) -> Seq<Json>
        decreases items, 0nat,
    {
        Seq::new(
            items.len(),
            |i: int|
                if 0 <= i < items.len() {
                    items[i].view()
                } else {
                    Json::Null
                },
        )
    }

    /// The members of an object with the documents they stand for.
    pub open spec fn member_views(members: Seq<(String, JsonValue)>) -> Seq<(Seq<char>, Json)>
        decreases members, 0nat,
    {
        Seq::new(
            members.len(),
            |i: int|
                if 0 <= i < members.len() {
                    (members[i].0@, members[i].1.view())
                } else {
                    (Seq::empty(), Json::Null)
                },
        )
    }
}

/// The least integer a document holds.
pub const LEAST_INT: i128 = -0x8000_0000_0000_0000;

/// The greatest integer a document holds.
pub const GREATEST_INT: i128 = 0xffff_ffff_ffff_ffff;

impl JsonValue {
    /// Whether a document can hold the value: its integers lie between
    /// `LEAST_INT` and `GREATEST_INT`, and no object has two members under
    /// one key.
    pub open spec fn encodable(&self) -> bool
        decreases self,
    {
        match self {
            JsonValue::Int(i) => LEAST_INT <= *i <= GREATEST_INT,
            JsonValue::List(items) => forall|i: int|
                0 <= i < items.len() ==> (#[trigger] items[i]).encodable(),
            JsonValue::Object(members) => {
                &&& distinct_keys(members@)
                &&& forall|i: int| 0 <= i < members.len() ==> (#[trigger] members[i]).1.encodable()
            },
            _ => true,
        }
    }

    /// Whether the value has no empty part: no list without an item and no
    /// object without a member, at any depth.
    pub open spec fn filled(&self) -> bool
        decreases self,
    {
        match self {
            JsonValue::List(items) => {
                &&& items.len() > 0
                &&& forall|i: int| 0 <= i < items.len() ==> (#[trigger] items[i]).filled()
            },
            JsonValue::Object(members) => {
                &&& members.len() > 0
                &&& forall|i: int| 0 <= i < members.len() ==> (#[trigger] members[i]).1.filled()
            },
            _ => true,
        }
    }

    /// Whether a document can hold the value.
    #[verifier::loop_isolation(false)]
    pub fn is_encodable(&self) -> (yes: bool)
        ensures
            yes == self.encodable(),
        decreases self,
    {
        match self {
            JsonValue::Int(i) => LEAST_INT <= *i && *i <= GREATEST_INT,
            JsonValue::List(items) => {
                let mut i: usize = 0;
                while i < items.len()
                    invariant
                        i <= items.len(),
                        forall|j: int| 0 <= j < i ==> (#[trigger] items[j]).encodable(),
                    decreases items.len() - i,
                {
                    if !items[i].is_encodable() {
                        return false;
                    }
                    i += 1;
                }
                true
            },
            JsonValue::Object(members) => {
                let mut i: usize = 0;
                while i < members.len()
                    invariant
                        i <= members.len(),
                        forall|j: int| 0 <= j < i ==> (#[trigger] members[j]).1.encodable(),
                        forall|j: int, k: int|
                            0 <= j < k < i ==> (#[trigger] members[j]).0@ != (
                            #[trigger] members[k]).0@,
                    decreases members.len() - i,
                {
                    if !members[i].1.is_encodable() {
                        return false;
                    }
                    let mut k: usize = 0;
                    while k < i
                        invariant
                            k <= i,
                            i < members.len(),
                            forall|j: int|
                                0 <= j < k ==> (#[trigger] members[j]).0@ != members[i as int].0@,
                        decreases i - k,
                    {
                        if members[k].0 == members[i].0 {
                            return false;
                        }
                        k += 1;
                    }
                    i += 1;
                }
                true
            },
            _ => true,
        }
    }
}

impl From<serde_json::Value> for JsonValue {
    /// The value that a document holds.
    fn from(document: serde_json::Value) -> (made: Self)
        ensures
            made@ == value_model(document),
            made.encodable(),
    {
        JsonValue::from_value(&document)
    }
}

/// What `from` makes is stated where it is made, over the document that the
/// value stands for: no value is named here.
impl vstd::std_specs::convert::FromSpecImpl<serde_json::Value> for JsonValue {
    open spec fn obeys_from_spec() -> bool {
        false
    }

    open spec fn from_spec(document: serde_json::Value) -> Self {
        JsonValue::Null
    }
}

impl JsonValue {
    /// The document that holds the value.
    #[verifier::loop_isolation(false)]
    pub fn to_value(&self) -> (document: serde_json::Value)
        requires
            self.encodable(),
        ensures
            value_model(document) == self@,
        decreases self,
    {
        match self {
            JsonValue::Null => assemble(Pieces::Null),
            JsonValue::Bool(b) => assemble(Pieces::Bool(*b)),
            JsonValue::Str(s) => assemble(Pieces::String(s.clone())),
            JsonValue::Float(n) => assemble(Pieces::Number(n.clone())),
            JsonValue::Int(i) => assemble(
                Pieces::Number(serde_json::Number::from_i128(*i).unwrap()),
            ),
            JsonValue::List(items) => {
                let mut made: Vec<serde_json::Value> = Vec::new();
                let mut i: usize = 0;
                while i < items.len()
                    invariant
                        i <= items.len(),
                        made.len() == i,
                        forall|j: int| 0 <= j < i ==> value_model(#[trigger] made[j]) == items[j]@,
                    decreases items.len() - i,
                {
                    made.push(items[i].to_value());
                    i += 1;
                }
                proof {
                    assert(item_models(made@) =~= Self::item_views(items@));
                }
                assemble(Pieces::Array(made))
            },
            JsonValue::Object(members) => {
                let mut made: Vec<(String, serde_json::Value)> = Vec::new();
                let mut i: usize = 0;
                while i < members.len()
                    invariant
                        i <= members.len(),
                        made.len() == i,
                        forall|j: int|
                            0 <= j < i ==> (#[trigger] made[j]).0@ == members[j].0@ && value_model(
                                made[j].1,
                            ) == members[j].1@,
                    decreases members.len() - i,
                {
                    made.push((members[i].0.clone(), members[i].1.to_value()));
                    i += 1;
                }
                proof {
                    assert(Pieces::member_models(made@) =~= Self::member_views(members@));
                }
                assemble(Pieces::Object(made))
            },
        }
    }

    /// The value of a number of a document: an integer where the number holds
    /// one, and the number itself where it holds a double.
    pub fn from_number(n: &serde_json::Number) -> (made: JsonValue)
        ensures
            made@ == numeral_json(number_model(*n)),
            made.encodable(),
            number_model(*n) is Float ==> made == JsonValue::Float(*n),
    {
        if let Some(i) = n.as_i64() {
            JsonValue::Int(i as i128)
        } else if let Some(u) = n.as_u64() {
            JsonValue::Int(u as i128)
        } else {
            JsonValue::Float(n.clone())
        }
    }

    /// The value that a document holds.
    #[verifier::loop_isolation(false)]
    pub fn from_value(document: &serde_json::Value) -> (made: JsonValue)
        ensures
            made@ == value_model(*document),
            made.encodable(),
        decreases value_model(*document),
    {
        match parts(document) {
            Parts::Null => JsonValue::Null,
            Parts::Bool(b) => JsonValue::Bool(b),
            Parts::Number(n) => Self::from_number(n),
            Parts::String(s) => JsonValue::Str(s.clone()),
            Parts::Array(items) => {
                let mut made: Vec<JsonValue> = Vec::new();
                let mut i: usize = 0;
                while i < items.len()
                    invariant
                        i <= items.len(),
                        made.len() == i,
                        forall|j: int|
                            0 <= j < i ==> (#[trigger] made[j])@ == value_model(items[j])
                                && made[j].encodable(),
                    decreases items.len() - i,
                {
                    proof {
                        let models = item_models(items@);
                        assert(models[i as int] == value_model(items[i as int]));
                        assert(value_model(*document) == Json::List(models));
                        let whole = value_model(*document);
                        assert(decreases_to!(whole => whole->List_0[i as int]));
                    }
                    made.push(Self::from_value(&items[i]));
                    i += 1;
                }
                let list = JsonValue::List(made);
                proof {
                    assert(Self::item_views(made@) =~= item_models(items@));
                }
                list
            },
            Parts::Object(members) => {
                let ghost models = Parts::member_models(members@);
                let mut made: Vec<(String, JsonValue)> = Vec::new();
                let mut i: usize = 0;
                proof {
                    lemma_members_map(models);
                }
                while i < members.len()
                    invariant
                        i <= members.len(),
                        made.len() == i,
                        forall|j: int|
                            0 <= j < i ==> (#[trigger] made[j]).0@ == members[j].0@ && made[j].1@
                                == value_model(*members[j].1) && made[j].1.encodable(),
                    decreases members.len() - i,
                {
                    proof {
                        lemma_members_map_at(models, i as int);
                        assert(models[i as int].1 == value_model(*members[i as int].1));
                        let map = members_map(models);
                        assert(value_model(*document) == Json::Object(map));
                        let whole = value_model(*document);
                        assert(decreases_to!(whole => whole->Object_0[models[i as int].0]));
                    }
                    made.push((members[i].0.clone(), Self::from_value(members[i].1)));
                    i += 1;
                }
                let object = JsonValue::Object(made);
                proof {
                    assert(Self::member_views(made@) =~= models);
                    assert forall|j: int, k: int| 0 <= j < k < made.len() implies (
                    #[trigger] made[j]).0@ != (#[trigger] made[k]).0@ by {
                        assert(models[j].0 != models[k].0);
                    }
                }
                object
            },
        }
    }

    /// The value read back from the document that holds it. It stands for the
    /// same document as before: nothing is lost on the way from a value to
    /// its document and back.
    pub fn through_document(&self) -> (back: JsonValue)
        requires
            self.encodable(),
        ensures
            back@ == self@,
            back.encodable(),
    {
        Self::from_value(&self.to_value())
    }

    /// What reading a text came to: the value of the document read, or the
    /// refusal where there was none.
    pub fn from_read(document: Result<serde_json::Value, serde_json::Error>) -> (made: Result<
        JsonValue,
        InvalidInput,
    >)
        ensures
            match document {
                Ok(v) => made matches Ok(value) && value@ == value_model(v) && value.encodable(),
                Err(_) => made matches Err(refusal) && refusal == InvalidInput::Json,
            },
    {
        match document {
            Ok(v) => Ok(Self::from_value(&v)),
            Err(_) => Err(InvalidInput::Json),
        }
    }

    /// Reads a text as JSON: the value of the document where the text is one,
    /// and [`InvalidInput::Json`] where it is none.
    pub fn try_from(text: &str) -> (made: Result<JsonValue, InvalidInput>)
        ensures
            match made {
                Ok(value) => json_parse(text@) == Some(value@) && value.encodable(),
                Err(refusal) => json_parse(text@) is None && refusal == InvalidInput::Json,
            },
    {
        Self::from_read(read(text))
    }

    /// The value as JSON text, in the compact notation of the document writer.
    pub fn to_text(&self) -> (text: String)
        requires
            self.encodable(),
        ensures
            text@ == json_text(self@),
    {
        render(&self.to_value())
    }
}

} // verus!
