//! JSON objects, as `serde_json` holds and writes them.

use vstd::prelude::*;

verus! {

/// `serde_json::Map`, the fields of a JSON object.
#[verifier::external_type_specification]
#[verifier::external_body]
#[verifier::reject_recursive_types(K)]
#[verifier::reject_recursive_types(V)]
pub struct ExJsonMap<K, V>(serde_json::Map<K, V>);

/// `serde_json::Value`, a JSON value.
#[verifier::external_type_specification]
#[verifier::external_body]
pub struct ExJsonValue(serde_json::Value);

/// The value of a field.
pub enum JsonField {
    Absent,
    Flag(bool),
    Count(u64),
    Signed(i64),
    Text(String),
    Object(serde_json::Map<String, serde_json::Value>),
    List(Vec<serde_json::Map<String, serde_json::Value>>),
    Raw(serde_json::Value),
}

/// What a JSON value holds. Integers, texts, objects and lists of objects are told apart by what is
/// in them; a value of another sort, such as a fraction or a list of texts, by what it is written
/// as.
pub enum FieldView {
    Absent,
    Flag(bool),
    Number(int),
    Text(Seq<char>),
    Object(Map<Seq<char>, FieldView>),
    List(Seq<Map<Seq<char>, FieldView>>),
    Other(Seq<char>),
}

impl View for JsonField {
    type V = FieldView;

    open spec fn view(&self) -> FieldView {
        match *self {
            JsonField::Absent => FieldView::Absent,
            JsonField::Flag(b) => FieldView::Flag(b),
            JsonField::Count(n) => FieldView::Number(n as int),
            JsonField::Signed(n) => FieldView::Number(n as int),
            JsonField::Text(t) => FieldView::Text(t@),
            JsonField::Object(o) => FieldView::Object(object_fields(o)),
            JsonField::List(items) => FieldView::List(fields_of_each(items@)),
            JsonField::Raw(value) => value_view(value),
        }
    }
}

/// The fields that a JSON object holds, by key.
pub uninterp spec fn object_fields(
    object: serde_json::Map<String, serde_json::Value>,
) -> Map<Seq<char>, FieldView>;

/// What a JSON value holds.
pub uninterp spec fn value_view(value: serde_json::Value) -> FieldView;

/// The fields that each object holds.
pub open spec fn fields_of_each(
    items: Seq<serde_json::Map<String, serde_json::Value>>,
) -> Seq<Map<Seq<char>, FieldView>> {
    Seq::new(items.len(), |i: int| object_fields(items[i]))
}

/// Adding an object to a list adds its fields.
pub proof fn lemma_fields_push(
    items: Seq<serde_json::Map<String, serde_json::Value>>,
    item: serde_json::Map<String, serde_json::Value>,
)
    ensures
        fields_of_each(items.push(item)) == fields_of_each(items).push(object_fields(item)),
{
    assert(fields_of_each(items.push(item)) =~= fields_of_each(items).push(object_fields(item)));
}

/// A JSON object with these fields, written without whitespace, the fields in the order of their
/// keys.
pub uninterp spec fn object_text(fields: Map<Seq<char>, FieldView>) -> Seq<char>;

/// `serde_json::Map::new` makes an object without fields.
#[verifier::external_body]
pub(crate) fn empty_object() -> (r: serde_json::Map<String, serde_json::Value>)
    ensures
        object_fields(r) == (Map::<Seq<char>, FieldView>::empty()),
{
    serde_json::Map::new()
}

/// `serde_json::Map::insert` sets a field, in place of the one that had its key.
#[verifier::external_body]
pub(crate) fn set_field(
    object: &mut serde_json::Map<String, serde_json::Value>,
    key: &str,
    field: JsonField,
)
    ensures
        object_fields(*final(object)) == object_fields(*old(object)).insert(key@, field@),
{
    let value = match field {
        JsonField::Absent => serde_json::Value::Null,
        JsonField::Flag(b) => serde_json::Value::Bool(b),
        JsonField::Count(n) => serde_json::Value::from(n),
        JsonField::Signed(n) => serde_json::Value::from(n),
        JsonField::Text(t) => serde_json::Value::String(t),
        JsonField::Object(o) => serde_json::Value::Object(o),
        JsonField::List(items) => items.into_iter().map(serde_json::Value::Object).collect(),
        JsonField::Raw(value) => value,
    };
    object.insert(key.to_string(), value);
}

/// `serde_json::Value::from` takes an object for a JSON value, which holds the object's fields.
#[verifier::external_body]
pub(crate) fn object_value(object: serde_json::Map<String, serde_json::Value>) -> (r:
    serde_json::Value)
    ensures
        value_view(r) == FieldView::Object(object_fields(object)),
{
    serde_json::Value::from(object)
}

/// The text of a `serde_json::Value` that is an object: its fields in the order of their keys,
/// without whitespace. It depends on the fields alone.
#[verifier::external_body]
pub(crate) fn write_object(object: serde_json::Map<String, serde_json::Value>) -> (r: String)
    ensures
        r@ == object_text(object_fields(object)),
{
    serde_json::Value::Object(object).to_string()
}

/// The object with the one field `error`.
pub open spec fn error_fields(message: Seq<char>) -> Map<Seq<char>, FieldView> {
    Map::empty().insert("error"@, FieldView::Text(message))
}

/// The JSON that tells of an error.
pub fn error_json(message: String) -> (r: String)
    ensures
        r@ == object_text(error_fields(message@)),
{
    let mut object = empty_object();
    set_field(&mut object, "error", JsonField::Text(message));
    write_object(object)
}

// --------------------------------------------------------------------- laws

/// A field holds what it was made of, and a list one object for each.
pub proof fn law_fields_hold_what_they_are_made_of(
    flag: bool,
    n: u64,
    m: i64,
    t: String,
    value: serde_json::Value,
    object: serde_json::Map<String, serde_json::Value>,
    items: Vec<serde_json::Map<String, serde_json::Value>>,
)
    ensures
        JsonField::Absent@ == FieldView::Absent,
        JsonField::Flag(flag)@ == FieldView::Flag(flag),
        JsonField::Count(n)@ == FieldView::Number(n as int),
        JsonField::Signed(m)@ == FieldView::Number(m as int),
        JsonField::Text(t)@ == FieldView::Text(t@),
        JsonField::Raw(value)@ == value_view(value),
        JsonField::Object(object)@ == FieldView::Object(object_fields(object)),
        JsonField::List(items)@ matches FieldView::List(list) && list.len() == items@.len()
            && forall|i: int| 0 <= i < list.len() ==> #[trigger] list[i] == object_fields(items@[i]),
{
}

/// The JSON of an error has the message, whole, and no other field.
pub proof fn law_error_json_holds_the_message(message: Seq<char>)
    ensures
        error_fields(message).dom() == set!["error"@],
        error_fields(message)["error"@] == FieldView::Text(message),
{
    assert(error_fields(message).dom() =~= set!["error"@]);
}

} // verus!
