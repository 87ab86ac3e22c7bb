//! Entries as a JSON document: an array with one object per entry, which
//! holds the key and the value as arrays of byte values and the display hint
//! by its name. `serde_json` writes the document out and reads it in.

use crate::sled_manager::{Entry, KeyValue};
use crate::text::same_text;
use crate::value_type::ValueType;
use vstd::prelude::*;

verus! {

#[verifier::external_type_specification]
#[verifier::external_body]
pub struct ExJsonValue(serde_json::Value);

#[verifier::external_type_specification]
#[verifier::external_body]
pub struct ExJsonError(serde_json::Error);

/// A JSON value as a value of the model. A number is an integer; one that
/// is held as a float stands by the bits of that float.
pub enum JsonDoc {
    Null,
    Bool(bool),
    Number(int),
    Float(u64),
    Text(Seq<char>),
    List(Seq<JsonDoc>),
    Record(Map<Seq<char>, JsonDoc>),
}

/// What a `serde_json::Value` holds.
pub uninterp spec fn json_doc(value: serde_json::Value) -> JsonDoc;

/// The text that `serde_json::to_string_pretty` writes for a value, or
/// `None` where it fails on the value.
pub uninterp spec fn json_pretty_text(doc: JsonDoc) -> Option<Seq<char>>;

/// What `serde_json::from_str` reads from a text: the value, or `None` where
/// the text is no JSON.
pub uninterp spec fn json_parsed(text: Seq<char>) -> Option<JsonDoc>;

/// What each of the values holds.
pub open spec fn json_docs(values: Seq<serde_json::Value>) -> Seq<JsonDoc> {
    values.map_values(|v: serde_json::Value| json_doc(v))
}

/// No two of the fields have the same name.
pub open spec fn names_differ(fields: Seq<(Seq<char>, JsonDoc)>) -> bool {
    forall|i: int, j: int| 0 <= i < j < fields.len() ==> fields[i].0 != fields[j].0
}

/// The object with the given fields, a later field replacing an earlier
/// one of the same name.
pub open spec fn record_of(fields: Seq<(Seq<char>, JsonDoc)>) -> Map<Seq<char>, JsonDoc>
    decreases fields.len(),
{
    if fields.len() == 0 {
        Map::empty()
    } else {
        record_of(fields.drop_last()).insert(fields.last().0, fields.last().1)
    }
}

/// The fields as values of the model.
pub open spec fn fields_view(fields: Seq<(String, serde_json::Value)>) -> Seq<(Seq<char>, JsonDoc)> {
    fields.map_values(|f: (String, serde_json::Value)| (f.0@, json_doc(f.1)))
}

/// A byte string as a JSON array of its byte values.
pub open spec fn bytes_doc(bytes: Seq<u8>) -> JsonDoc {
    JsonDoc::List(bytes.map_values(|b: u8| JsonDoc::Number(b as int)))
}

/// Calls `Value::from` on a slice of bytes. The contract claims that the
/// result is the array of the byte values, each as a number.
#[verifier::external_body]
fn json_bytes(bytes: &[u8]) -> (value: serde_json::Value)
    ensures
        json_doc(value) == bytes_doc(bytes@),
{
    serde_json::Value::from(bytes)
}

/// Calls `Value::from` on a text. The contract claims that the result is
/// the string with that text.
#[verifier::external_body]
pub(crate) fn json_string(text: &str) -> (value: serde_json::Value)
    ensures
        json_doc(value) == JsonDoc::Text(text@),
{
    serde_json::Value::from(text)
}

/// Makes `Value::Array` of the items. The contract claims that the result
/// is the array that holds them in their order.
#[verifier::external_body]
pub(crate) fn json_list(items: Vec<serde_json::Value>) -> (value: serde_json::Value)
    ensures
        json_doc(value) == JsonDoc::List(json_docs(items@)),
{
    serde_json::Value::Array(items)
}

/// Collects the fields into a `serde_json::Map` and makes `Value::Object`
/// of it. The contract claims that the result is the object with those
/// fields, where no two of them have the same name.
#[verifier::external_body]
pub(crate) fn json_record(fields: Vec<(String, serde_json::Value)>) -> (value: serde_json::Value)
    requires
        names_differ(fields_view(fields@)),
    ensures
        json_doc(value) == JsonDoc::Record(record_of(fields_view(fields@))),
{
    serde_json::Value::Object(fields.into_iter().collect())
}

/// Calls `serde_json::to_string_pretty`. The contract names the text that
/// comes back, and claims that the call fails exactly where the value has
/// none: it writes into memory, so that nothing but the value decides.
#[verifier::external_body]
fn json_pretty(value: &serde_json::Value) -> (r: Result<String, serde_json::Error>)
    ensures
        match r {
            Ok(text) => json_pretty_text(json_doc(*value)) == Some(text@),
            Err(_) => json_pretty_text(json_doc(*value)) is None,
        },
{
    serde_json::to_string_pretty(value)
}

/// Calls `serde_json::from_str` for a `Value`. The contract names the value
/// that comes back, and claims that the call fails exactly where the text
/// has none.
#[verifier::external_body]
fn json_parse(text: &str) -> (r: Result<serde_json::Value, serde_json::Error>)
    ensures
        match r {
            Ok(value) => json_parsed(text@) == Some(json_doc(value)),
            Err(_) => json_parsed(text@) is None,
        },
{
    serde_json::from_str(text)
}

/// Calls `Value::as_array`. The contract claims that the result is the
/// items of an array, and `None` for every other value.
#[verifier::external_body]
fn json_items(value: &serde_json::Value) -> (r: Option<&Vec<serde_json::Value>>)
    ensures
        match r {
            Some(items) => json_doc(*value) == JsonDoc::List(json_docs(items@)),
            None => !(json_doc(*value) is List),
        },
{
    value.as_array()
}

/// Calls `Value::get` with a name. The contract claims that the result is
/// the field of that name of an object, and `None` where the value is no
/// object or has no such field.
#[verifier::external_body]
fn json_field<'a>(value: &'a serde_json::Value, name: &str) -> (r: Option<&'a serde_json::Value>)
    ensures
        match r {
            Some(field) => json_doc(*value) matches JsonDoc::Record(fields) && fields.contains_key(
                name@,
            ) && fields[name@] == json_doc(*field),
            None => !(json_doc(*value) matches JsonDoc::Record(fields) && fields.contains_key(
                name@,
            )),
        },
{
    value.get(name)
}

/// Calls `Value::as_u64`. The contract claims that the result is the number
/// where the value is an integer from 0 to `u64::MAX`, and `None` for every
/// other value.
#[verifier::external_body]
fn json_number(value: &serde_json::Value) -> (r: Option<u64>)
    ensures
        match r {
            Some(n) => json_doc(*value) == JsonDoc::Number(n as int),
            None => !(json_doc(*value) matches JsonDoc::Number(n) && 0 <= n <= u64::MAX),
        },
{
    value.as_u64()
}

/// Calls `Value::as_str`. The contract claims that the result is the text of
/// a string, and `None` for every other value.
#[verifier::external_body]
fn json_str(value: &serde_json::Value) -> (r: Option<&str>)
    ensures
        match r {
            Some(text) => json_doc(*value) == JsonDoc::Text(text@),
            None => !(json_doc(*value) is Text),
        },
{
    value.as_str()
}

/// The name of the field that holds an entry's key.
pub open spec fn key_field() -> Seq<char> {
    seq!['k', 'e', 'y']
}

/// The name of the field that holds an entry's value.
pub open spec fn value_field() -> Seq<char> {
    seq!['v', 'a', 'l', 'u', 'e']
}

/// The name of the field that holds an entry's display hint.
pub open spec fn type_field() -> Seq<char> {
    seq!['v', 'a', 'l', 'u', 'e', '_', 't', 'y', 'p', 'e']
}

/// The object that stands for an entry.
pub open spec fn entry_doc(entry: Entry) -> JsonDoc {
    JsonDoc::Record(
        Map::<Seq<char>, JsonDoc>::empty().insert(key_field(), bytes_doc(entry.key)).insert(
            value_field(),
            bytes_doc(entry.value),
        ).insert(type_field(), JsonDoc::Text(entry.value_type.label())),
    )
}

/// The document that stands for the entries: the array of their objects.
pub open spec fn export_doc(entries: Seq<Entry>) -> JsonDoc {
    JsonDoc::List(entries.map_values(|e: Entry| entry_doc(e)))
}

/// The byte string that a document stands for: the document is an array of
/// integers from 0 to 255.
pub open spec fn doc_bytes(doc: JsonDoc) -> Option<Seq<u8>> {
    match doc {
        JsonDoc::List(items) => if forall|i: int|
            0 <= i < items.len() ==> is_byte_doc(#[trigger] items[i]) {
            Some(items.map_values(|d: JsonDoc| d->Number_0 as u8))
        } else {
            None
        },
        _ => None,
    }
}

/// The document is an integer from 0 to 255.
pub open spec fn is_byte_doc(doc: JsonDoc) -> bool {
    doc matches JsonDoc::Number(n) && 0 <= n <= 255
}

/// The text names a display hint.
pub open spec fn is_label(text: Seq<char>) -> bool {
    ||| text == ValueType::String.label()
    ||| text == ValueType::Number.label()
    ||| text == ValueType::Boolean.label()
    ||| text == ValueType::Json.label()
    ||| text == ValueType::Binary.label()
}

/// The key and the value that a document stands for: the document is an
/// object whose fields `key` and `value` are byte strings and whose field
/// `value_type` names a display hint.
pub open spec fn doc_entry(doc: JsonDoc) -> Option<(Seq<u8>, Seq<u8>)> {
    match doc {
        JsonDoc::Record(fields) => if fields.contains_key(key_field()) && fields.contains_key(
            value_field(),
        ) && fields.contains_key(type_field()) && doc_bytes(fields[key_field()]) is Some
            && doc_bytes(fields[value_field()]) is Some && (fields[type_field()] matches JsonDoc::Text(
            label,
        ) && is_label(label)) {
            Some((doc_bytes(fields[key_field()])->0, doc_bytes(fields[value_field()])->0))
        } else {
            None
        },
        _ => None,
    }
}

/// The pairs that a document stands for: the document is an array of
/// entries.
pub open spec fn doc_entries(doc: JsonDoc) -> Option<Seq<(Seq<u8>, Seq<u8>)>> {
    match doc {
        JsonDoc::List(items) => if forall|i: int|
            0 <= i < items.len() ==> doc_entry(#[trigger] items[i]) is Some {
            Some(items.map_values(|d: JsonDoc| doc_entry(d)->0))
        } else {
            None
        },
        _ => None,
    }
}

/// The pairs that a JSON text stands for, or `None` where the text is no
/// JSON or no array of entries.
pub open spec fn decoded(text: Seq<char>) -> Option<Seq<(Seq<u8>, Seq<u8>)>> {
    match json_parsed(text) {
        Some(doc) => doc_entries(doc),
        None => None,
    }
}

/// The JSON text for the entries, or `None` where the writer fails on
/// their document.
pub open spec fn encoded(entries: Seq<Entry>) -> Option<Seq<char>> {
    json_pretty_text(export_doc(entries))
}

fn entry_value(entry: &KeyValue) -> (value: serde_json::Value)
    ensures
        json_doc(value) == entry_doc(entry@),
{
    let mut fields: Vec<(String, serde_json::Value)> = Vec::new();
    fields.push(("key".to_owned(), json_bytes(entry.key.as_slice())));
    fields.push(("value".to_owned(), json_bytes(entry.value.as_slice())));
    fields.push(("value_type".to_owned(), json_string(entry.value_type.name())));
    proof {
        reveal_strlit("key");
        reveal_strlit("value");
        reveal_strlit("value_type");
        let shown = fields_view(fields@);
        assert(shown.drop_last().drop_last().drop_last() =~= Seq::empty());
        reveal_with_fuel(record_of, 4);
        assert("key"@ =~= key_field());
        assert("value"@ =~= value_field());
        assert("value_type"@ =~= type_field());
        assert(shown[0].0.len() == 3 && shown[1].0.len() == 5 && shown[2].0.len() == 10);
    }
    json_record(fields)
}

/// Builds the document for the entries.
pub fn export_value(entries: &Vec<KeyValue>) -> (value: serde_json::Value)
    ensures
        json_doc(value) == export_doc(crate::sled_manager::entries_view(entries@)),
{
    let mut items: Vec<serde_json::Value> = Vec::new();
    let mut i: usize = 0;
    while i < entries.len()
        invariant
            i <= entries.len(),
            items.len() == i,
            forall|j: int| 0 <= j < i ==> json_doc(#[trigger] items[j]) == entry_doc(entries[j]@),
        decreases entries.len() - i,
    {
        items.push(entry_value(&entries[i]));
        i += 1;
    }
    proof {
        assert(json_docs(items@) =~= crate::sled_manager::entries_view(entries@).map_values(
            |e: Entry| entry_doc(e),
        ));
    }
    json_list(items)
}

/// Writes the entries out as a JSON text. Fails exactly where the writer
/// fails on their document.
pub fn encode(entries: &Vec<KeyValue>) -> (r: Result<String, serde_json::Error>)
    ensures
        match r {
            Ok(text) => encoded(crate::sled_manager::entries_view(entries@)) == Some(text@),
            Err(_) => encoded(crate::sled_manager::entries_view(entries@)) is None,
        },
{
    let value = export_value(entries);
    json_pretty(&value)
}

fn bytes_of(value: &serde_json::Value) -> (r: Option<Vec<u8>>)
    ensures
        crate::store::bytes_view(r) == doc_bytes(json_doc(*value)),
{
    let items = match json_items(value) {
        Some(items) => items,
        None => {
            return None;
        },
    };
    let ghost docs = json_docs(items@);
    let mut bytes: Vec<u8> = Vec::new();
    let mut i: usize = 0;
    while i < items.len()
        invariant
            i <= items.len(),
            bytes.len() == i,
            docs == json_docs(items@),
            json_doc(*value) == JsonDoc::List(docs),
            forall|j: int| 0 <= j < i ==> is_byte_doc(#[trigger] docs[j]) && bytes[j]
                == docs[j]->Number_0 as u8,
        decreases items.len() - i,
    {
        assert(docs[i as int] == json_doc(items[i as int]));
        match json_number(&items[i]) {
            Some(n) => {
                if n > 255 {
                    assert(!is_byte_doc(docs[i as int]));
                    return None;
                }
                bytes.push(n as u8);
            },
            None => {
                assert(!is_byte_doc(docs[i as int]));
                return None;
            },
        }
        i += 1;
    }
    proof {
        assert(bytes@ =~= docs.map_values(|d: JsonDoc| d->Number_0 as u8));
    }
    Some(bytes)
}

fn label_text(text: &str) -> (known: bool)
    ensures
        known == is_label(text@),
{
    same_text(text, ValueType::String.name()) || same_text(text, ValueType::Number.name())
        || same_text(text, ValueType::Boolean.name()) || same_text(text, ValueType::Json.name())
        || same_text(text, ValueType::Binary.name())
}

fn pair_of(value: &serde_json::Value) -> (r: Option<(Vec<u8>, Vec<u8>)>)
    ensures
        match r {
            Some(pair) => doc_entry(json_doc(*value)) == Some((pair.0@, pair.1@)),
            None => doc_entry(json_doc(*value)) is None,
        },
{
    proof {
        reveal_strlit("key");
        reveal_strlit("value");
        reveal_strlit("value_type");
        assert("key"@ =~= key_field());
        assert("value"@ =~= value_field());
        assert("value_type"@ =~= type_field());
    }
    let key = match json_field(value, "key") {
        Some(field) => match bytes_of(field) {
            Some(bytes) => bytes,
            None => {
                return None;
            },
        },
        None => {
            return None;
        },
    };
    let held = match json_field(value, "value") {
        Some(field) => match bytes_of(field) {
            Some(bytes) => bytes,
            None => {
                return None;
            },
        },
        None => {
            return None;
        },
    };
    match json_field(value, "value_type") {
        Some(field) => match json_str(field) {
            Some(label) => {
                if !label_text(label) {
                    return None;
                }
            },
            None => {
                return None;
            },
        },
        None => {
            return None;
        },
    }
    Some((key, held))
}

/// Reads the pairs that a document stands for.
pub fn import_value(value: &serde_json::Value) -> (r: Option<Vec<(Vec<u8>, Vec<u8>)>>)
    ensures
        match r {
            Some(pairs) => doc_entries(json_doc(*value)) == Some(crate::query::pairs_view(pairs@)),
            None => doc_entries(json_doc(*value)) is None,
        },
{
    let items = match json_items(value) {
        Some(items) => items,
        None => {
            return None;
        },
    };
    let ghost docs = json_docs(items@);
    let mut pairs: Vec<(Vec<u8>, Vec<u8>)> = Vec::new();
    let mut i: usize = 0;
    while i < items.len()
        invariant
            i <= items.len(),
            pairs.len() == i,
            docs == json_docs(items@),
            json_doc(*value) == JsonDoc::List(docs),
            forall|j: int| 0 <= j < i ==> doc_entry(#[trigger] docs[j]) == Some((pairs[j].0@, pairs[j].1@)),
        decreases items.len() - i,
    {
        assert(docs[i as int] == json_doc(items[i as int]));
        match pair_of(&items[i]) {
            Some(pair) => {
                pairs.push(pair);
            },
            None => {
                assert(doc_entry(docs[i as int]) is None);
                return None;
            },
        }
        i += 1;
    }
    proof {
        assert(crate::query::pairs_view(pairs@) =~= docs.map_values(|d: JsonDoc| doc_entry(d)->0));
    }
    Some(pairs)
}

/// Reads the pairs that a JSON text stands for.
pub fn decode(text: &str) -> (r: Result<Vec<(Vec<u8>, Vec<u8>)>, Option<serde_json::Error>>)
    ensures
        match r {
            Ok(pairs) => decoded(text@) == Some(crate::query::pairs_view(pairs@)),
            Err(_) => decoded(text@) is None,
        },
{
    match json_parse(text) {
        Ok(value) => match import_value(&value) {
            Some(pairs) => Ok(pairs),
            None => Err(None),
        },
        Err(e) => Err(Some(e)),
    }
}

} // verus!
