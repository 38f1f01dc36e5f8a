use vstd::prelude::*;

verus! {

/// `serde_json` reads `text` as a JSON number.
pub uninterp spec fn json_number(text: Seq<char>) -> bool;

/// Whether `serde_json::from_str::<serde_json::Number>` accepts `text`. Claimed:
/// the answer is `json_number` of the text.
#[verifier::external_body]
fn parses_as_number(text: &str) -> (b: bool)
    ensures
        b == json_number(text@),
{
    serde_json::from_str::<serde_json::Number>(text).is_ok()
}

/// The text of a JSON number, one that `serde_json` reads as a number.
#[derive(Debug)]
pub struct JsonNumber {
    text: String,
}

impl View for JsonNumber {
    type V = Seq<char>;

    closed spec fn view(&self) -> Seq<char> {
        self.text@
    }
}

impl JsonNumber {
    /// Every `JsonNumber` holds text that `serde_json` reads as a number.
    #[verifier::type_invariant]
    closed spec fn inv(self) -> bool {
        json_number(self.text@)
    }

    /// The number with this text; `None` when `serde_json` does not read the text
    /// as a number.
    pub fn parse(text: &str) -> (r: Option<JsonNumber>)
        ensures
            r is Some <==> json_number(text@),
            r matches Some(n) ==> n@ == text@,
    {
        if parses_as_number(text) {
            Some(JsonNumber { text: String::from_str(text) })
        } else {
            None
        }
    }

    /// The number's text.
    pub fn text(&self) -> (t: &str)
        ensures
            t@ == self@,
            json_number(t@),
    {
        proof {
            use_type_invariant(self);
        }
        self.text.as_str()
    }

    /// A copy of the number.
    pub fn duplicate(&self) -> (r: JsonNumber)
        ensures
            r@ == self@,
    {
        proof {
            use_type_invariant(self);
        }
        JsonNumber { text: self.text.clone() }
    }
}

/// A JSON document: null, a boolean, an integer, a number given by its JSON
/// text, a string, an array, or an object whose members keep their order.
pub enum JsonValue {
    Null,
    Bool(bool),
    Int(i64),
    Num(JsonNumber),
    Str(String),
    Arr(Vec<JsonValue>),
    Obj(Vec<(String, JsonValue)>),
}

/// A JSON document as a mathematical value.
pub enum JsonModel {
    Null,
    Bool(bool),
    Int(int),
    Num(Seq<char>),
    Str(Seq<char>),
    Arr(Seq<JsonModel>),
    Obj(Seq<(Seq<char>, JsonModel)>),
}

/// The value a document stands for.
pub open spec fn json_model(d: JsonValue) -> JsonModel
    decreases d,
{
    match d {
        JsonValue::Null => JsonModel::Null,
        JsonValue::Bool(b) => JsonModel::Bool(b),
        JsonValue::Int(i) => JsonModel::Int(i as int),
        JsonValue::Num(t) => JsonModel::Num(t@),
        JsonValue::Str(t) => JsonModel::Str(t@),
        JsonValue::Arr(v) => JsonModel::Arr(
            Seq::new(
                v@.len(),
                |i: int|
                    if 0 <= i < v@.len() {
                        json_model(v@[i])
                    } else {
                        JsonModel::Null
                    },
            ),
        ),
        JsonValue::Obj(v) => JsonModel::Obj(
            Seq::new(
                v@.len(),
                |i: int|
                    if 0 <= i < v@.len() {
                        (v@[i].0@, json_model(v@[i].1))
                    } else {
                        (Seq::empty(), JsonModel::Null)
                    },
            ),
        ),
    }
}

/// The members of an object as values.
pub open spec fn fields_model(v: Seq<(String, JsonValue)>) -> Seq<(Seq<char>, JsonModel)> {
    Seq::new(v.len(), |i: int| (v[i].0@, json_model(v[i].1)))
}

/// The items of an array as values.
pub open spec fn items_model(v: Seq<JsonValue>) -> Seq<JsonModel> {
    Seq::new(v.len(), |i: int| json_model(v[i]))
}

/// The object of these members, in order.
pub fn obj(v: Vec<(String, JsonValue)>) -> (r: JsonValue)
    ensures
        json_model(r) == JsonModel::Obj(fields_model(v@)),
{
    let ghost fs = v@;
    let r = JsonValue::Obj(v);
    proof {
        match json_model(r) {
            JsonModel::Obj(x) => assert(x =~= fields_model(fs)),
            _ => {},
        }
    }
    r
}

/// The array of these items, in order.
pub fn arr(v: Vec<JsonValue>) -> (r: JsonValue)
    ensures
        json_model(r) == JsonModel::Arr(items_model(v@)),
{
    let ghost xs = v@;
    let r = JsonValue::Arr(v);
    proof {
        match json_model(r) {
            JsonModel::Arr(x) => assert(x =~= items_model(xs)),
            _ => {},
        }
    }
    r
}

/// Append a member.
pub fn push_member(v: &mut Vec<(String, JsonValue)>, k: &str, x: JsonValue)
    ensures
        fields_model(final(v)@) == fields_model(old(v)@).push((k@, json_model(x))),
{
    let ghost before = v@;
    v.push((String::from_str(k), x));
    assert(fields_model(v@) =~= fields_model(before).push((k@, json_model(x))));
}

/// Append an item.
pub fn push_item(v: &mut Vec<JsonValue>, x: JsonValue)
    ensures
        items_model(final(v)@) == items_model(old(v)@).push(json_model(x)),
{
    let ghost before = v@;
    v.push(x);
    assert(items_model(v@) =~= items_model(before).push(json_model(x)));
}

/// A `serde_json` document.
#[verifier::external_type_specification]
#[verifier::external_body]
pub struct ExSerdeJsonValue(serde_json::Value);

/// The `serde_json::Value` of a document, node for node: an object's members
/// go into a `serde_json::Map` in order (this crate builds `serde_json` with
/// `preserve_order`, so the map keeps that order; a repeated key keeps its
/// first place and takes its last value), and a number's text is read by
/// `serde_json` as a number (the text of a `JsonNumber` always reads as one, so
/// the `null` branch below is never taken). Nothing is claimed about the result
/// here; `json_pretty` states what the whole conversion and printing give.
#[verifier::external_body]
fn to_serde_value(d: &JsonValue) -> serde_json::Value {
    match d {
        JsonValue::Null => serde_json::Value::Null,
        JsonValue::Bool(b) => serde_json::Value::Bool(*b),
        JsonValue::Int(i) => serde_json::Value::from(*i),
        JsonValue::Num(t) => match serde_json::from_str::<serde_json::Number>(&t.text) {
            Ok(n) => serde_json::Value::Number(n),
            Err(_) => serde_json::Value::Null,
        },
        JsonValue::Str(s) => serde_json::Value::String(s.clone()),
        JsonValue::Arr(v) => serde_json::Value::Array(v.iter().map(to_serde_value).collect()),
        JsonValue::Obj(v) => serde_json::Value::Object(
            v.iter().map(|(k, x)| (k.clone(), to_serde_value(x))).collect(),
        ),
    }
}

/// The text `serde_json::to_string_pretty` writes for the `serde_json::Value`
/// of a document (see `to_serde_value`).
pub uninterp spec fn json_text(d: JsonModel) -> Seq<char>;

/// Print a document as pretty JSON with `serde_json::to_string_pretty`, after
/// converting it to a `serde_json::Value`. Claimed: the text is `json_text` of
/// the document, and printing succeeds (a `serde_json::Value` has string keys
/// and finite numbers only, so serialising it into memory cannot fail).
#[verifier::external_body]
pub(crate) fn json_pretty(d: &JsonValue) -> (r: Result<String, String>)
    ensures
        r is Ok,
        r matches Ok(s) ==> s@ == json_text(json_model(*d)),
{
    serde_json::to_string_pretty(&to_serde_value(d)).map_err(|e| e.to_string())
}

} // verus!
