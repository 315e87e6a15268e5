//! The JSON data model: an executable value type and its mathematical view.

use vstd::prelude::*;

verus! {

/// Mathematical model of a JSON value.
///
/// Object fields are an ordered sequence of key/value pairs; numbers are
/// carried as their canonical decimal text, so the model is exact and free
/// of rounding concerns.
pub ghost enum Json {
    Null,
    Bool(bool),
    Number(Seq<char>),
    Str(Seq<char>),
    Array(Seq<Json>),
    Object(Seq<(Seq<char>, Json)>),
}

/// A JSON value as the rendering engine receives it.
///
/// A number is stored as its canonical decimal text (the text a JSON
/// serializer would emit for it); the engine only measures, aligns and
/// re-emits numbers, so their text is all it needs.
#[derive(Debug)]
pub enum JsonValue {
    Null,
    Bool(bool),
    Number(String),
    Str(String),
    Array(Vec<JsonValue>),
    Object(Vec<(String, JsonValue)>),
}

impl JsonValue {
    pub open spec fn view(self) -> Json
        decreases self, 1int,
    {
        match self {
            JsonValue::Null => Json::Null,
            JsonValue::Bool(b) => Json::Bool(b),
            JsonValue::Number(s) => Json::Number(s@),
            JsonValue::Str(s) => Json::Str(s@),
            JsonValue::Array(items) => Json::Array(view_elems(items@)),
            JsonValue::Object(fields) => Json::Object(view_fields(fields@)),
        }
    }
}

/// The views of a sequence of values, in order.
pub open spec fn view_elems(s: Seq<JsonValue>) -> Seq<Json>
    decreases s, 0int,
{
    if s.len() == 0 {
        Seq::empty()
    } else {
        view_elems(s.drop_last()).push(s.last().view())
    }
}

/// The views of a sequence of key/value pairs, in order.
pub open spec fn view_fields(s: Seq<(String, JsonValue)>) -> Seq<(Seq<char>, Json)>
    decreases s, 0int,
{
    if s.len() == 0 {
        Seq::empty()
    } else {
        view_fields(s.drop_last()).push((s.last().0@, s.last().1.view()))
    }
}

pub broadcast proof fn lemma_view_elems(s: Seq<JsonValue>)
    ensures
        (#[trigger] view_elems(s)).len() == s.len(),
        forall|i: int| 0 <= i < s.len() ==> view_elems(s)[i] == s[i].view(),
    decreases s.len(),
{
    if s.len() > 0 {
        lemma_view_elems(s.drop_last());
    }
}

pub broadcast proof fn lemma_view_fields(s: Seq<(String, JsonValue)>)
    ensures
        (#[trigger] view_fields(s)).len() == s.len(),
        forall|i: int| 0 <= i < s.len()
            ==> view_fields(s)[i] == (s[i].0@, s[i].1.view()),
    decreases s.len(),
{
    if s.len() > 0 {
        lemma_view_fields(s.drop_last());
    }
}

} // verus!
