//! JSON documents as plain values, and the parser that reads them from text.

use vstd::prelude::*;

verus! {

/// A JSON value. Numbers keep the text that `serde_json` writes for them;
/// object members are in the order in which the parser lists them.
#[derive(Debug)]
pub enum Json {
    Null,
    Bool(bool),
    Number(String),
    Str(String),
    Array(Vec<Json>),
    Object(Vec<(String, Json)>),
}

/// The mathematical form of a JSON value.
pub enum JsonView {
    Null,
    Bool(bool),
    Number(Seq<char>),
    Str(Seq<char>),
    Array(Seq<JsonView>),
    Object(Seq<(Seq<char>, JsonView)>),
}

/// The mathematical form of a JSON value: texts as character sequences,
/// arrays and objects as sequences.
pub open spec fn json_view(j: Json) -> JsonView
    decreases j,
{
    match j {
        Json::Null => JsonView::Null,
        Json::Bool(b) => JsonView::Bool(b),
        Json::Number(n) => JsonView::Number(n@),
        Json::Str(s) => JsonView::Str(s@),
        Json::Array(items) => JsonView::Array(
            Seq::new(
                items@.len(),
                |i: int|
                    if 0 <= i < items@.len() {
                        json_view(items@[i])
                    } else {
                        JsonView::Null
                    },
            ),
        ),
        Json::Object(members) => JsonView::Object(
            Seq::new(
                members@.len(),
                |i: int|
                    if 0 <= i < members@.len() {
                        (members@[i].0@, json_view(members@[i].1))
                    } else {
                        (Seq::empty(), JsonView::Null)
                    },
            ),
        ),
    }
}

impl View for Json {
    type V = JsonView;

    open spec fn view(&self) -> JsonView {
        json_view(*self)
    }
}

#[verifier::external_type_specification]
#[verifier::external_body]
pub struct ExJsonDocument(serde_json::Value);

/// What `serde_json` reads in a text: the JSON document it holds, or, when the
/// text is not one JSON document, the parser's error message.
pub uninterp spec fn json_document(text: Seq<char>) -> Result<JsonView, Seq<char>>;

/// Reads the JSON document in `text` (`serde_json::from_str` into a
/// `serde_json::Value`, converted member for member; a parse error becomes
/// its `Display` text). The contract claims only that the outcome depends on
/// the text alone: the document that [`json_document`] names for the text, or
/// the error message it names. What the grammar accepts, what document it
/// builds and the wording of the messages are left to the name.
#[verifier::external_body]
pub(crate) fn parse_json(text: &str) -> (r: Result<Json, String>)
    ensures
        match json_document(text@) {
            Ok(doc) => r matches Ok(v) && v@ == doc,
            Err(message) => r matches Err(m) && m@ == message,
        },
{
    serde_json::from_str::<serde_json::Value>(text).map(json_from_value).map_err(|e| e.to_string())
}

/// Converts a `serde_json::Value` into a [`Json`], variant for variant: a number
/// becomes the text that `serde_json` writes for it, an object its members in
/// the map's order. Nothing is stated of it: it is the result conversion of
/// [`parse_json`], whose contract speaks for both.
#[verifier::external_body]
fn json_from_value(value: serde_json::Value) -> Json {
    match value {
        serde_json::Value::Null => Json::Null,
        serde_json::Value::Bool(b) => Json::Bool(b),
        serde_json::Value::Number(n) => Json::Number(n.to_string()),
        serde_json::Value::String(s) => Json::Str(s),
        serde_json::Value::Array(a) => Json::Array(a.into_iter().map(json_from_value).collect()),
        serde_json::Value::Object(m) => Json::Object(
            m.into_iter().map(|(k, v)| (k, json_from_value(v))).collect(),
        ),
    }
}

/// The item at `index` of an array (`serde_json::Value::get` with an index);
/// `None` for other values and indices past the end.
pub open spec fn item(v: JsonView, index: int) -> Option<JsonView> {
    match v {
        JsonView::Array(items) => if 0 <= index < items.len() {
            Some(items[index])
        } else {
            None
        },
        _ => None,
    }
}

/// The item at `index` of an array, `None` for other values and indices past
/// the end.
pub fn get_item(v: &Json, index: usize) -> (r: Option<&Json>)
    ensures
        match r {
            Some(x) => item(v@, index as int) == Some(x@),
            None => item(v@, index as int) is None,
        },
{
    match v {
        Json::Array(items) => if index < items.len() {
            Some(&items[index])
        } else {
            None
        },
        _ => None,
    }
}

/// Indexing reads an array's items, and nothing of any other value.
pub proof fn lemma_item_reads_arrays(v: JsonView, index: int)
    ensures
        v matches JsonView::Array(items) ==> (0 <= index < items.len() ==> item(v, index) == Some(
            items[index],
        )),
        v matches JsonView::Array(items) ==> (!(0 <= index < items.len()) ==> item(v, index) is None),
        !(v is Array) ==> item(v, index) is None,
{
}

/// The view of a JSON value keeps its kind and contents: texts by their
/// characters, arrays and objects item by item, in order.
pub proof fn lemma_json_view_keeps_contents(j: Json)
    ensures
        j matches Json::Str(s) ==> j@ == JsonView::Str(s@),
        j matches Json::Number(n) ==> j@ == JsonView::Number(n@),
        j matches Json::Bool(b) ==> j@ == JsonView::Bool(b),
        j is Null ==> j@ is Null,
        j matches Json::Array(items) ==> (j@ matches JsonView::Array(v) && v.len() == items@.len()
            && forall|i: int| 0 <= i < v.len() ==> #[trigger] v[i] == items@[i]@),
        j matches Json::Object(members) ==> (j@ matches JsonView::Object(v) && v.len()
            == members@.len() && forall|i: int|
            0 <= i < v.len() ==> #[trigger] v[i] == (members@[i].0@, members@[i].1@)),
{
}

} // verus!
