//! A JSON document as a tree of plain values, objects keeping the order of
//! their members, and the reading of one from bytes.

use crate::entries::entry_views;
use vstd::prelude::*;

verus! {

/// A JSON number, by what a reader of a document asks of it.
#[derive(Debug, PartialEq, Eq)]
pub struct JsonNumber {
    /// The number itself where it is written as an integer from zero to
    /// `u64::MAX`, nothing otherwise.
    pub unsigned: Option<u64>,
    /// The number in decimal: an integer by its numeral, any other number in
    /// the shortest form that reads back as the same double-precision value.
    pub text: String,
}

/// A JSON document.
#[derive(Debug, PartialEq, Eq)]
pub enum Json {
    Null,
    Bool(bool),
    Number(JsonNumber),
    Text(String),
    Array(Vec<Json>),
    /// The members of an object, in the order of the document.
    Object(Vec<(String, Json)>),
}

/// What a `JsonNumber` stands for.
pub struct JsonNumberView {
    pub unsigned: Option<u64>,
    pub text: Seq<char>,
}

/// What a `Json` stands for.
pub enum JsonView {
    Null,
    Bool(bool),
    Number(JsonNumberView),
    Text(Seq<char>),
    Array(Seq<JsonView>),
    Object(Seq<(Seq<char>, JsonView)>),
}

impl View for JsonNumber {
    type V = JsonNumberView;

    open spec fn view(&self) -> JsonNumberView {
        JsonNumberView { unsigned: self.unsigned, text: self.text@ }
    }
}

impl View for Json {
    type V = JsonView;

    open spec fn view(&self) -> JsonView
        decreases self,
    {
        match self {
            Json::Null => JsonView::Null,
            Json::Bool(b) => JsonView::Bool(*b),
            Json::Number(n) => JsonView::Number(n@),
            Json::Text(s) => JsonView::Text(s@),
            Json::Array(items) => JsonView::Array(
                Seq::new(
                    items.len() as nat,
                    |i: int|
                        if 0 <= i < items.len() {
                            items[i]@
                        } else {
                            JsonView::Null
                        },
                ),
            ),
            Json::Object(members) => JsonView::Object(
                Seq::new(
                    members.len() as nat,
                    |i: int|
                        if 0 <= i < members.len() {
                            (members[i].0@, members[i].1@)
                        } else {
                            (Seq::empty(), JsonView::Null)
                        },
                ),
            ),
        }
    }
}

/// `serde_json::Error`, the error of a reading. Nothing is known of what it
/// holds.
#[verifier::external_type_specification]
#[verifier::external_body]
pub struct ExSerdeJsonError(serde_json::Error);

/// `serde_json::Value`, a document as `serde_json` holds it. Nothing is known
/// of what it holds.
#[verifier::external_type_specification]
#[verifier::external_body]
pub struct ExSerdeJsonValue(serde_json::Value);

/// `serde_json::Error::line`: the line of the input at which reading stopped.
/// Nothing is claimed of the number.
pub assume_specification[ serde_json::Error::line ](error: &serde_json::Error) -> (line: usize)
;

/// `serde_json::Error::column`: the column of the input at which reading
/// stopped. Nothing is claimed of the number.
pub assume_specification[ serde_json::Error::column ](error: &serde_json::Error) -> (column: usize)
;

/// The document that `serde_json` reads from `bytes`, where they hold exactly
/// one; nothing where it reports an error. What it reads is a matter of the
/// bytes alone.
pub uninterp spec fn parsed(bytes: Seq<u8>) -> Option<JsonView>;

/// The document that a `serde_json::Value` holds.
pub uninterp spec fn held(value: serde_json::Value) -> JsonView;

/// The outermost level of a `serde_json::Value`: what kind of value it is,
/// and the values inside it as they are.
enum Layer {
    Null,
    Bool(bool),
    Number(JsonNumber),
    Text(String),
    Array(Vec<serde_json::Value>),
    Object(Vec<(String, serde_json::Value)>),
}

/// The elements of an array, each by what it holds.
spec fn held_items(items: Seq<serde_json::Value>) -> Seq<JsonView> {
    items.map_values(|item: serde_json::Value| held(item))
}

/// The members of an object, each by what it holds.
spec fn held_members(members: Seq<(String, serde_json::Value)>) -> Seq<
    (Seq<char>, JsonView),
> {
    members.map_values(|member: (String, serde_json::Value)| (member.0@, held(member.1)))
}

/// What a layer shows of the value that it was taken from.
spec fn shown(layer: Layer) -> JsonView {
    match layer {
        Layer::Null => JsonView::Null,
        Layer::Bool(b) => JsonView::Bool(b),
        Layer::Number(n) => JsonView::Number(n@),
        Layer::Text(s) => JsonView::Text(s@),
        Layer::Array(items) => JsonView::Array(held_items(items@)),
        Layer::Object(members) => JsonView::Object(held_members(members@)),
    }
}

/// `serde_json::from_slice` at the type `serde_json::Value`: the document in
/// `bytes`, or the error that stopped the reading. The contract claims that
/// the outcome is a matter of the bytes alone, and gives it a name; it claims
/// nothing of which bytes are a document.
#[verifier::external_body]
fn read(bytes: &[u8]) -> (outcome: Result<serde_json::Value, serde_json::Error>)
    ensures
        match outcome {
            Ok(value) => parsed(bytes@) == Some(held(value)),
            Err(_) => parsed(bytes@) is None,
        },
{
    serde_json::from_slice(bytes)
}

/// Takes a `serde_json::Value` apart, one level deep. The contract claims
/// that the value holds what its variant shows: nothing, a truth value, a
/// number by `Number::as_u64` and its `Display` text, a string, the elements
/// of an array in their order, or the members of an object in the order in
/// which `serde_json::Map` hands them out.
#[verifier::external_body]
fn open(value: serde_json::Value) -> (layer: Layer)
    ensures
        shown(layer) == held(value),
{
    match value {
        serde_json::Value::Null => Layer::Null,
        serde_json::Value::Bool(b) => Layer::Bool(b),
        serde_json::Value::Number(n) => Layer::Number(
            JsonNumber { unsigned: n.as_u64(), text: n.to_string() },
        ),
        serde_json::Value::String(s) => Layer::Text(s),
        serde_json::Value::Array(items) => Layer::Array(items),
        serde_json::Value::Object(members) => Layer::Object(members.into_iter().collect()),
    }
}

/// Moves a `serde_json::Value` into a `Json`, level by level.
fn plain(value: serde_json::Value) -> (doc: Json)
    ensures
        doc@ == held(value),
    decreases held(value),
{
    let ghost whole = held(value);
    match open(value) {
        Layer::Null => Json::Null,
        Layer::Bool(b) => Json::Bool(b),
        Layer::Number(n) => Json::Number(n),
        Layer::Text(s) => Json::Text(s),
        Layer::Array(items) => {
            let mut docs: Vec<Json> = Vec::new();
            for item in it: items
                invariant
                    whole == held(value),
                    whole == JsonView::Array(held_items(it.seq())),
                    docs@.len() == it.index(),
                    forall|i: int| 0 <= i < docs@.len() ==> (#[trigger] docs@[i])@ == held(it.seq()[i]),
            {
                assert(held(item) == whole->Array_0[it.index() as int]);
                assert(decreases_to!(whole => whole->Array_0[it.index() as int]));
                docs.push(plain(item));
            }
            let doc = Json::Array(docs);
            proof {
                reveal_with_fuel(<Json as View>::view, 2);
                assert(doc@->Array_0 =~= whole->Array_0);
            }
            doc
        },
        Layer::Object(members) => {
            let mut docs: Vec<(String, Json)> = Vec::new();
            for member in it: members
                invariant
                    whole == held(value),
                    whole == JsonView::Object(held_members(it.seq())),
                    docs@.len() == it.index(),
                    forall|i: int|
                        0 <= i < docs@.len() ==> (#[trigger] docs@[i]).0@ == it.seq()[i].0@
                            && docs@[i].1@ == held(it.seq()[i].1),
            {
                let (key, inner) = member;
                assert((key@, held(inner)) == whole->Object_0[it.index() as int]);
                assert(decreases_to!(whole => whole->Object_0[it.index() as int].1));
                docs.push((key, plain(inner)));
            }
            let doc = Json::Object(docs);
            proof {
                reveal_with_fuel(<Json as View>::view, 2);
                assert(doc@->Object_0 =~= whole->Object_0);
            }
            doc
        },
    }
}

/// Where the reading of a document stopped: bytes that are no JSON, or that
/// hold more than one document.
#[derive(Debug, PartialEq, Eq)]
pub struct SyntaxError {
    pub line: usize,
    pub column: usize,
}

impl Json {
    /// Reads the one document that `bytes` hold.
    pub fn from_slice(bytes: &[u8]) -> (outcome: Result<Json, SyntaxError>)
        ensures
            match parsed(bytes@) {
                Some(expected) => outcome matches Ok(doc) && doc@ == expected,
                None => outcome is Err,
            },
    {
        match read(bytes) {
            Ok(value) => Ok(plain(value)),
            Err(error) => Err(SyntaxError { line: error.line(), column: error.column() }),
        }
    }
}

/// The members of an object, each by its view.
pub open spec fn member_views(members: Seq<(String, Json)>) -> Seq<(Seq<char>, JsonView)> {
    entry_views(members)
}

/// An object's view is the views of its members, in their order.
pub proof fn lemma_object_view(doc: Json)
    requires
        doc is Object,
    ensures
        doc@ == JsonView::Object(member_views(doc->Object_0@)),
{
    let members = doc->Object_0;
    let views = doc@->Object_0;
    reveal_with_fuel(<Json as View>::view, 2);
    assert(views.len() == members@.len());
    assert forall|i: int| 0 <= i < views.len() implies views[i] == member_views(members@)[i] by {
        assert(views[i] == (members[i].0@, members[i].1@));
    }
    assert(views =~= member_views(members@));
}

} // verus!
