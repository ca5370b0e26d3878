//! JSON values, and the reading of JSON text.
//!
//! The text is read by `serde_json`. What it returns is copied into [`Json`],
//! a tree of plain values that verified code can take apart.

use crate::error::DecodeError;
use crate::text::same_text;
use vstd::prelude::*;

verus! {

/// A JSON value.
#[derive(Debug, PartialEq, Eq)]
pub enum Json {
    Null,
    Bool(bool),
    /// A number, as the decimal text that `serde_json` prints for it.
    Number(String),
    Text(String),
    Array(Vec<Json>),
    /// The members of an object, each a key and a value. Where a key stands
    /// more than once, the last member with that key is the one that counts.
    Object(Vec<(String, Json)>),
}

/// What a [`Json`] holds, as sequences.
pub enum JsonView {
    Null,
    Bool(bool),
    Number(Seq<char>),
    Text(Seq<char>),
    Array(Seq<JsonView>),
    Object(Seq<(Seq<char>, JsonView)>),
}

/// What `json` holds: the same tree, with each text as its characters.
pub open spec fn json_view(json: Json) -> JsonView
    decreases json,
{
    match json {
        Json::Null => JsonView::Null,
        Json::Bool(b) => JsonView::Bool(b),
        Json::Number(digits) => JsonView::Number(digits@),
        Json::Text(text) => JsonView::Text(text@),
        Json::Array(items) => JsonView::Array(
            Seq::new(
                items@.len(),
                |i: int|
                    if 0 <= i < items@.len() {
                        json_view(items@[i])
                    } else {
                        JsonView::Null
                    },
            ),
        ),
        Json::Object(members) => JsonView::Object(
            Seq::new(
                members@.len(),
                |i: int|
                    if 0 <= i < members@.len() {
                        (members@[i].0@, json_view(members@[i].1))
                    } else {
                        (Seq::empty(), JsonView::Null)
                    },
            ),
        ),
    }
}

impl View for Json {
    type V = JsonView;

    open spec fn view(&self) -> JsonView {
        json_view(*self)
    }
}

impl JsonView {
    /// The value of the member `key`, where this is an object that has one.
    pub open spec fn member(self, key: Seq<char>) -> Option<JsonView> {
        match self {
            JsonView::Object(members) => last_with_key(members, key),
            _ => None,
        }
    }

    /// The text of the member `key`, where this is an object whose member
    /// `key` is a string.
    pub open spec fn text_member(self, key: Seq<char>) -> Option<Seq<char>> {
        match self.member(key) {
            Some(JsonView::Text(text)) => Some(text),
            _ => None,
        }
    }
}

/// The value of the last of `members` whose key is `key`.
pub open spec fn last_with_key(members: Seq<(Seq<char>, JsonView)>, key: Seq<char>) -> Option<
    JsonView,
>
    decreases members.len(),
{
    if members.len() == 0 {
        None
    } else if members.last().0 == key {
        Some(members.last().1)
    } else {
        last_with_key(members.drop_last(), key)
    }
}

/// What `serde_json` reads from a text: the value that the text denotes, or
/// `None` where `serde_json` refuses the text.
pub uninterp spec fn json_of_text(text: Seq<char>) -> Option<JsonView>;

/// What a value of `serde_json` holds: the same tree, with each number as its
/// decimal text and each object as its members in the order of the map.
pub uninterp spec fn json_of_value(value: serde_json::Value) -> JsonView;

/// How deep a value of `serde_json` nests: more than any value that stands
/// in it.
pub uninterp spec fn depth_of_value(value: serde_json::Value) -> nat;

#[verifier::external_type_specification]
#[verifier::external_body]
pub struct ExValue(serde_json::Value);

#[verifier::external_type_specification]
#[verifier::external_body]
pub struct ExError(serde_json::Error);

/// The top of a `serde_json::Value`: which variant it is, with the values
/// that stand in it as they are.
enum Layer {
    Null,
    Bool(bool),
    Number(String),
    Text(String),
    Array(Vec<serde_json::Value>),
    Object(Vec<(String, serde_json::Value)>),
}

/// What a value holds whose top is `layer`.
spec fn layer_view(layer: Layer) -> JsonView {
    match layer {
        Layer::Null => JsonView::Null,
        Layer::Bool(b) => JsonView::Bool(b),
        Layer::Number(digits) => JsonView::Number(digits@),
        Layer::Text(text) => JsonView::Text(text@),
        Layer::Array(items) => JsonView::Array(
            Seq::new(items@.len(), |i: int| json_of_value(items@[i])),
        ),
        Layer::Object(members) => JsonView::Object(
            Seq::new(members@.len(), |i: int| (members@[i].0@, json_of_value(members@[i].1))),
        ),
    }
}

/// Every value that stands in `layer` nests less deep than `depth`.
spec fn layer_is_below(layer: Layer, depth: nat) -> bool {
    match layer {
        Layer::Array(items) => forall|i: int|
            0 <= i < items@.len() ==> depth_of_value(#[trigger] items@[i]) < depth,
        Layer::Object(members) => forall|i: int|
            0 <= i < members@.len() ==> depth_of_value((#[trigger] members@[i]).1) < depth,
        _ => true,
    }
}

/// `serde_json::from_str`, asked for a `serde_json::Value`.
///
/// Taken on trust: whether the text is accepted, and the value that comes
/// back, depend on the text alone. Nothing is said here of which texts are
/// accepted.
#[verifier::external_body]
fn value_from_str(text: &str) -> (read: Result<serde_json::Value, serde_json::Error>)
    ensures
        match read {
            Ok(value) => json_of_text(text@) == Some(json_of_value(value)),
            Err(_) => json_of_text(text@) is None,
        },
{
    serde_json::from_str::<serde_json::Value>(text)
}

/// Tells the variants of a `serde_json::Value` apart and hands out what the
/// value holds at its top.
///
/// Taken on trust: the layer is the value's own variant with the value's own
/// fields. A number comes as the text that `serde_json` prints for it, an
/// object as the members that its map hands out, in that order. The values
/// that stand in an array or an object nest less deep than the array or
/// object does.
#[verifier::external_body]
fn layer_of_value(value: serde_json::Value) -> (layer: Layer)
    ensures
        json_of_value(value) == layer_view(layer),
        layer_is_below(layer, depth_of_value(value)),
{
    match value {
        serde_json::Value::Null => Layer::Null,
        serde_json::Value::Bool(b) => Layer::Bool(b),
        serde_json::Value::Number(n) => Layer::Number(n.to_string()),
        serde_json::Value::String(s) => Layer::Text(s),
        serde_json::Value::Array(a) => Layer::Array(a),
        serde_json::Value::Object(m) => Layer::Object(m.into_iter().collect()),
    }
}

/// Copies a value of `serde_json` into a [`Json`], layer by layer.
fn json_from_value(value: serde_json::Value) -> (json: Json)
    ensures
        json@ == json_of_value(value),
    decreases depth_of_value(value),
{
    let ghost depth = depth_of_value(value);
    match layer_of_value(value) {
        Layer::Null => Json::Null,
        Layer::Bool(b) => Json::Bool(b),
        Layer::Number(digits) => Json::Number(digits),
        Layer::Text(text) => Json::Text(text),
        Layer::Array(items) => {
            let ghost values = items@;
            let mut copies: Vec<Json> = Vec::new();
            for item in it: items
                invariant
                    depth == depth_of_value(value),
                    it.seq() == values,
                    forall|k: int|
                        0 <= k < values.len() ==> depth_of_value(#[trigger] values[k]) < depth,
                    copies.len() == it.index(),
                    forall|k: int|
                        0 <= k < copies.len() ==> (#[trigger] copies@[k])@ == json_of_value(
                            values[k],
                        ),
            {
                let copy = json_from_value(item);
                copies.push(copy);
            }
            let json = Json::Array(copies);
            assert(json@->Array_0 =~= Seq::new(values.len(), |i: int| json_of_value(values[i])));
            json
        },
        Layer::Object(members) => {
            let ghost values = members@;
            let mut copies: Vec<(String, Json)> = Vec::new();
            for member in it: members
                invariant
                    depth == depth_of_value(value),
                    it.seq() == values,
                    forall|k: int|
                        0 <= k < values.len() ==> depth_of_value((#[trigger] values[k]).1) < depth,
                    copies.len() == it.index(),
                    forall|k: int|
                        0 <= k < copies.len() ==> (#[trigger] copies@[k]).0@ == values[k].0@
                            && copies@[k].1@ == json_of_value(values[k].1),
            {
                let (key, value) = member;
                let copy = json_from_value(value);
                copies.push((key, copy));
            }
            let json = Json::Object(copies);
            assert(json@->Object_0 =~= Seq::new(
                values.len(),
                |i: int| (values[i].0@, json_of_value(values[i].1)),
            ));
            json
        },
    }
}

impl Json {
    /// Reads a JSON text. The text is refused where `serde_json` refuses it.
    pub fn parse(text: &str) -> (read: Result<Json, DecodeError>)
        ensures
            match read {
                Ok(json) => json_of_text(text@) == Some(json@),
                Err(error) => error == DecodeError::Syntax && json_of_text(text@) is None,
            },
    {
        match value_from_str(text) {
            Ok(value) => Ok(json_from_value(value)),
            Err(_) => Err(DecodeError::Syntax),
        }
    }

    /// The value of the member `key`, where this is an object that has one.
    pub fn member(&self, key: &str) -> (found: Option<&Json>)
        ensures
            match found {
                Some(value) => self@.member(key@) == Some(value@),
                None => self@.member(key@) is None,
            },
    {
        match self {
            Json::Object(members) => {
                let ghost all = self@->Object_0;
                let mut i: usize = members.len();
                assert(all.take(i as int) == all);
                while i > 0
                    invariant
                        i <= members.len(),
                        self@.member(key@) == last_with_key(all, key@),
                        all.len() == members@.len(),
                        forall|k: int|
                            0 <= k < all.len() ==> all[k] == (members@[k].0@, members@[k].1@),
                        last_with_key(all, key@) == last_with_key(all.take(i as int), key@),
                    decreases i,
                {
                    i -= 1;
                    proof {
                        assert(all.take(i + 1).last() == all[i as int]);
                        assert(all.take(i + 1).drop_last() == all.take(i as int));
                    }
                    if same_text(members[i].0.as_str(), key) {
                        return Some(&members[i].1);
                    }
                }
                None
            },
            _ => None,
        }
    }

    /// The text of the member `key`, where this is an object whose member
    /// `key` is a string.
    pub fn text_member(&self, key: &str) -> (found: Option<&String>)
        ensures
            match found {
                Some(text) => self@.text_member(key@) == Some(text@),
                None => self@.text_member(key@) is None,
            },
    {
        match self.member(key) {
            Some(Json::Text(text)) => Some(text),
            _ => None,
        }
    }
}

} // verus!
