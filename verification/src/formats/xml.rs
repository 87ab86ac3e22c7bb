//! Entries as an XML document: a root element with one `entry` element per
//! entry, which holds the key as its text and the value and the display hint
//! in child elements. Key and value are written as text, malformed UTF-8
//! replaced. `quick_xml` writes the document out; there is no way back in.

use crate::formats::json::{
    fields_view, json_doc, json_docs, json_list, json_record, json_string, record_of, JsonDoc,
};
use crate::sled_manager::{entries_view, Entry, KeyValue};
use crate::text::{show, shown};
use vstd::prelude::*;

verus! {

#[verifier::external_type_specification]
#[verifier::external_body]
pub struct ExXmlError(quick_xml::SeError);

/// The text that `quick_xml::se::to_string_with_root` writes for a root
/// element's name and a value, or `None` where it fails on them.
pub uninterp spec fn xml_text(root: Seq<char>, doc: JsonDoc) -> Option<Seq<char>>;

/// Calls `quick_xml::se::to_string_with_root`. The contract names the text
/// that comes back, and claims that the call fails exactly where the name
/// and the value have none: it writes into memory, so that nothing but they
/// decide.
#[verifier::external_body]
fn xml_render(root: &str, value: &serde_json::Value) -> (r: Result<String, quick_xml::SeError>)
    ensures
        match r {
            Ok(text) => xml_text(root@, json_doc(*value)) == Some(text@),
            Err(_) => xml_text(root@, json_doc(*value)) is None,
        },
{
    quick_xml::se::to_string_with_root(root, value)
}

/// The name of the root element.
pub open spec fn root_name() -> Seq<char> {
    seq!['X', 'm', 'l', 'E', 'x', 'p', 'o', 'r', 't']
}

/// The name of the element of an entry.
pub open spec fn entry_name() -> Seq<char> {
    seq!['e', 'n', 't', 'r', 'y']
}

/// The name under which the serializer takes an element's own text.
pub open spec fn text_name() -> Seq<char> {
    seq!['$', 'v', 'a', 'l', 'u', 'e']
}

/// The element that stands for an entry.
pub open spec fn entry_doc(entry: Entry) -> JsonDoc {
    JsonDoc::Record(
        Map::<Seq<char>, JsonDoc>::empty().insert(
            text_name(),
            JsonDoc::Text(shown(entry.key)),
        ).insert(
            crate::formats::json::value_field(),
            JsonDoc::Text(shown(entry.value)),
        ).insert(crate::formats::json::type_field(), JsonDoc::Text(entry.value_type.label())),
    )
}

/// What the root element holds: the elements of the entries, in order.
pub open spec fn export_doc(entries: Seq<Entry>) -> JsonDoc {
    JsonDoc::Record(
        Map::<Seq<char>, JsonDoc>::empty().insert(
            entry_name(),
            JsonDoc::List(entries.map_values(|e: Entry| entry_doc(e))),
        ),
    )
}

/// The XML text for the entries, or `None` where the writer fails on
/// their document.
pub open spec fn encoded(entries: Seq<Entry>) -> Option<Seq<char>> {
    xml_text(root_name(), export_doc(entries))
}

fn entry_value(entry: &KeyValue) -> (value: serde_json::Value)
    ensures
        json_doc(value) == entry_doc(entry@),
{
    let key = show(entry.key.as_slice());
    let held = show(entry.value.as_slice());
    let mut fields: Vec<(String, serde_json::Value)> = Vec::new();
    fields.push(("$value".to_owned(), json_string(key.as_str())));
    fields.push(("value".to_owned(), json_string(held.as_str())));
    fields.push(("value_type".to_owned(), json_string(entry.value_type.name())));
    proof {
        reveal_strlit("$value");
        reveal_strlit("value");
        reveal_strlit("value_type");
        let shown = fields_view(fields@);
        assert(shown.drop_last().drop_last().drop_last() =~= Seq::empty());
        reveal_with_fuel(record_of, 4);
        assert("$value"@ =~= text_name());
        assert("value"@ =~= crate::formats::json::value_field());
        assert("value_type"@ =~= crate::formats::json::type_field());
        assert(shown[0].0.len() == 6 && shown[1].0.len() == 5 && shown[2].0.len() == 10);
    }
    json_record(fields)
}

/// Builds the document for the entries.
pub fn export_value(entries: &Vec<KeyValue>) -> (value: serde_json::Value)
    ensures
        json_doc(value) == export_doc(entries_view(entries@)),
{
    let mut items: Vec<serde_json::Value> = Vec::new();
    let mut i: usize = 0;
    while i < entries.len()
        invariant
            i <= entries.len(),
            items.len() == i,
            forall|j: int| 0 <= j < i ==> json_doc(#[trigger] items[j]) == entry_doc(entries[j]@),
        decreases entries.len() - i,
    {
        items.push(entry_value(&entries[i]));
        i += 1;
    }
    proof {
        assert(json_docs(items@) =~= entries_view(entries@).map_values(|e: Entry| entry_doc(e)));
    }
    let mut fields: Vec<(String, serde_json::Value)> = Vec::new();
    fields.push(("entry".to_owned(), json_list(items)));
    proof {
        reveal_strlit("entry");
        let shown = fields_view(fields@);
        assert(shown.drop_last() =~= Seq::empty());
        reveal_with_fuel(record_of, 2);
        assert("entry"@ =~= entry_name());
    }
    json_record(fields)
}

/// Writes the entries out as an XML text. Fails exactly where the writer
/// fails on their document.
pub fn encode(entries: &Vec<KeyValue>) -> (r: Result<String, quick_xml::SeError>)
    ensures
        match r {
            Ok(text) => encoded(entries_view(entries@)) == Some(text@),
            Err(_) => encoded(entries_view(entries@)) is None,
        },
{
    let value = export_value(entries);
    proof {
        reveal_strlit("XmlExport");
        assert("XmlExport"@ =~= root_name());
    }
    xml_render("XmlExport", &value)
}

} // verus!
