//! Entries as YAML. Export writes a sequence with one mapping per entry,
//! which holds the key, the value and the display hint as text, malformed
//! UTF-8 replaced. Import reads a mapping, or a sequence of mappings, and
//! takes each pair of a mapping as a key and its value. `yaml_rust2` writes
//! the document out and reads it in.

use crate::formats::plan::{lemma_run_append, lemma_run_one, lemma_run_stops, run, Step};
use crate::query::pairs_view;
use crate::sled_manager::{entries_view, Entry, KeyValue};
use crate::text::{show, shown};
use vstd::prelude::*;
use vstd::utf8::encode_utf8;

verus! {

#[verifier::external_type_specification]
#[verifier::external_body]
pub struct ExYaml(yaml_rust2::Yaml);

#[verifier::external_type_specification]
#[verifier::external_body]
pub struct ExEmitError(yaml_rust2::EmitError);

#[verifier::external_type_specification]
#[verifier::external_body]
pub struct ExScanError(yaml_rust2::ScanError);

/// A YAML node as a value of the model. A mapping holds its pairs in the
/// order in which they were entered.
pub enum YamlDoc {
    Real(Seq<char>),
    Integer(int),
    Text(Seq<char>),
    Boolean(bool),
    List(Seq<YamlDoc>),
    Mapping(Seq<(YamlDoc, YamlDoc)>),
    Alias(nat),
    Null,
    BadValue,
}

/// What a `yaml_rust2::Yaml` holds.
pub uninterp spec fn yaml_doc(node: yaml_rust2::Yaml) -> YamlDoc;

/// The text that a `YamlEmitter` writes for a node, or `None` where it
/// fails on the node.
pub uninterp spec fn yaml_text(doc: YamlDoc) -> Option<Seq<char>>;

/// What `YamlLoader::load_from_str` reads from a text: its documents, or
/// `None` where the text is no YAML.
pub uninterp spec fn yaml_loaded(text: Seq<char>) -> Option<Seq<YamlDoc>>;

/// What each of the nodes holds.
pub open spec fn yaml_docs(nodes: Seq<yaml_rust2::Yaml>) -> Seq<YamlDoc> {
    nodes.map_values(|n: yaml_rust2::Yaml| yaml_doc(n))
}

/// What each pair of nodes holds.
pub open spec fn yaml_pairs(pairs: Seq<(yaml_rust2::Yaml, yaml_rust2::Yaml)>) -> Seq<
    (YamlDoc, YamlDoc),
> {
    pairs.map_values(|p: (yaml_rust2::Yaml, yaml_rust2::Yaml)| (yaml_doc(p.0), yaml_doc(p.1)))
}

/// What each pair of borrowed nodes holds.
pub open spec fn yaml_pair_refs(pairs: Seq<(&yaml_rust2::Yaml, &yaml_rust2::Yaml)>) -> Seq<
    (YamlDoc, YamlDoc),
> {
    pairs.map_values(|p: (&yaml_rust2::Yaml, &yaml_rust2::Yaml)| (yaml_doc(*p.0), yaml_doc(*p.1)))
}

/// No two of the pairs have the same key.
pub open spec fn keys_differ(pairs: Seq<(YamlDoc, YamlDoc)>) -> bool {
    forall|i: int, j: int| 0 <= i < j < pairs.len() ==> pairs[i].0 != pairs[j].0
}

/// Makes `Yaml::String` of a text. The contract claims that the result is
/// the string with that text.
#[verifier::external_body]
fn yaml_string(text: &str) -> (node: yaml_rust2::Yaml)
    ensures
        yaml_doc(node) == YamlDoc::Text(text@),
{
    yaml_rust2::Yaml::String(text.to_string())
}

/// Makes `Yaml::Array` of the items. The contract claims that the result is
/// the sequence that holds them in their order.
#[verifier::external_body]
fn yaml_sequence(items: Vec<yaml_rust2::Yaml>) -> (node: yaml_rust2::Yaml)
    ensures
        yaml_doc(node) == YamlDoc::List(yaml_docs(items@)),
{
    yaml_rust2::Yaml::Array(items)
}

/// Collects the pairs into a `yaml_rust2::yaml::Hash` and makes `Yaml::Hash`
/// of it. The contract claims that the result is the mapping that holds the
/// pairs in their order, where no two of them have the same key.
#[verifier::external_body]
fn yaml_mapping(pairs: Vec<(yaml_rust2::Yaml, yaml_rust2::Yaml)>) -> (node: yaml_rust2::Yaml)
    requires
        keys_differ(yaml_pairs(pairs@)),
    ensures
        yaml_doc(node) == YamlDoc::Mapping(yaml_pairs(pairs@)),
{
    yaml_rust2::Yaml::Hash(pairs.into_iter().collect())
}

/// Writes a node into a new `String` with `YamlEmitter::dump`. The contract
/// names the text that comes back, and claims that the call fails exactly
/// where the node has none: it writes into memory, so that nothing but the
/// node decides.
#[verifier::external_body]
fn yaml_emit(node: &yaml_rust2::Yaml) -> (r: Result<String, yaml_rust2::EmitError>)
    ensures
        match r {
            Ok(text) => yaml_text(yaml_doc(*node)) == Some(text@),
            Err(_) => yaml_text(yaml_doc(*node)) is None,
        },
{
    let mut out = String::new();
    yaml_rust2::YamlEmitter::new(&mut out).dump(node)?;
    Ok(out)
}

/// Calls `YamlLoader::load_from_str`. The contract names the documents that
/// come back, and claims that the call fails exactly where the text has
/// none.
#[verifier::external_body]
fn yaml_load(text: &str) -> (r: Result<Vec<yaml_rust2::Yaml>, yaml_rust2::ScanError>)
    ensures
        match r {
            Ok(nodes) => yaml_loaded(text@) == Some(yaml_docs(nodes@)),
            Err(_) => yaml_loaded(text@) is None,
        },
{
    yaml_rust2::YamlLoader::load_from_str(text)
}

/// Calls `Yaml::as_hash` and collects the pairs that the hash hands out.
/// The contract claims that the result is the pairs of a mapping in their
/// order, and `None` for every other node.
#[verifier::external_body]
fn yaml_entries(node: &yaml_rust2::Yaml) -> (r: Option<
    Vec<(&yaml_rust2::Yaml, &yaml_rust2::Yaml)>,
>)
    ensures
        match r {
            Some(pairs) => yaml_doc(*node) == YamlDoc::Mapping(yaml_pair_refs(pairs@)),
            None => !(yaml_doc(*node) is Mapping),
        },
{
    node.as_hash().map(|hash| hash.iter().collect())
}

/// Calls `Yaml::as_vec`. The contract claims that the result is the items
/// of a sequence, and `None` for every other node.
#[verifier::external_body]
fn yaml_items(node: &yaml_rust2::Yaml) -> (r: Option<&Vec<yaml_rust2::Yaml>>)
    ensures
        match r {
            Some(items) => yaml_doc(*node) == YamlDoc::List(yaml_docs(items@)),
            None => !(yaml_doc(*node) is List),
        },
{
    node.as_vec()
}

/// Calls `Yaml::as_str`. The contract claims that the result is the text of
/// a string, and `None` for every other node.
#[verifier::external_body]
fn yaml_str(node: &yaml_rust2::Yaml) -> (r: Option<&str>)
    ensures
        match r {
            Some(text) => yaml_doc(*node) == YamlDoc::Text(text@),
            None => !(yaml_doc(*node) is Text),
        },
{
    node.as_str()
}

/// The mapping that stands for an entry.
pub open spec fn entry_doc(entry: Entry) -> YamlDoc {
    YamlDoc::Mapping(
        seq![
            (YamlDoc::Text(crate::formats::json::key_field()), YamlDoc::Text(shown(entry.key))),
            (
                YamlDoc::Text(crate::formats::json::value_field()),
                YamlDoc::Text(shown(entry.value)),
            ),
            (
                YamlDoc::Text(crate::formats::json::type_field()),
                YamlDoc::Text(entry.value_type.label()),
            ),
        ],
    )
}

/// The document that stands for the entries: the sequence of their mappings.
pub open spec fn export_doc(entries: Seq<Entry>) -> YamlDoc {
    YamlDoc::List(entries.map_values(|e: Entry| entry_doc(e)))
}

/// The YAML text for the entries, or `None` where the writer fails on
/// their document.
pub open spec fn encoded(entries: Seq<Entry>) -> Option<Seq<char>> {
    yaml_text(export_doc(entries))
}

/// What a pair of a mapping asks for: its key and its value as UTF-8 where
/// both are text; any other pair ends the import.
pub open spec fn pair_step(pair: (YamlDoc, YamlDoc)) -> Step {
    match pair {
        (YamlDoc::Text(key), YamlDoc::Text(value)) => Step::Put(
            encode_utf8(key),
            encode_utf8(value),
        ),
        _ => Step::Stop,
    }
}

/// What the pairs of a mapping ask for.
pub open spec fn mapping_steps(pairs: Seq<(YamlDoc, YamlDoc)>) -> Seq<Step> {
    pairs.map_values(|p: (YamlDoc, YamlDoc)| pair_step(p))
}

/// What an item of a sequence asks for: what its pairs ask for where it is a
/// mapping; any other item ends the import.
pub open spec fn item_steps(item: YamlDoc) -> Seq<Step> {
    match item {
        YamlDoc::Mapping(pairs) => mapping_steps(pairs),
        _ => seq![Step::Stop],
    }
}

/// What the items of a sequence ask for, one after the other.
pub open spec fn list_steps(items: Seq<YamlDoc>) -> Seq<Step>
    decreases items.len(),
{
    if items.len() == 0 {
        Seq::empty()
    } else {
        list_steps(items.drop_last()) + item_steps(items.last())
    }
}

/// What a document asks for: it is a mapping or a sequence of mappings; any
/// other document ends the import before it began.
pub open spec fn doc_steps(doc: YamlDoc) -> Seq<Step> {
    match doc {
        YamlDoc::Mapping(pairs) => mapping_steps(pairs),
        YamlDoc::List(items) => list_steps(items),
        _ => seq![Step::Stop],
    }
}

/// What a YAML text gives to import: what its first document asks for. A
/// text that is no YAML, or has no document, gives nothing and fails.
pub open spec fn decoded(text: Seq<char>) -> (Seq<(Seq<u8>, Seq<u8>)>, bool) {
    match yaml_loaded(text) {
        Some(docs) => if docs.len() > 0 {
            run(doc_steps(docs[0]))
        } else {
            (Seq::empty(), false)
        },
        None => (Seq::empty(), false),
    }
}

fn entry_node(entry: &KeyValue) -> (node: yaml_rust2::Yaml)
    ensures
        yaml_doc(node) == entry_doc(entry@),
{
    let key = show(entry.key.as_slice());
    let held = show(entry.value.as_slice());
    let mut pairs: Vec<(yaml_rust2::Yaml, yaml_rust2::Yaml)> = Vec::new();
    pairs.push((yaml_string("key"), yaml_string(key.as_str())));
    pairs.push((yaml_string("value"), yaml_string(held.as_str())));
    pairs.push((yaml_string("value_type"), yaml_string(entry.value_type.name())));
    proof {
        reveal_strlit("key");
        reveal_strlit("value");
        reveal_strlit("value_type");
        assert("key"@ =~= crate::formats::json::key_field());
        assert("value"@ =~= crate::formats::json::value_field());
        assert("value_type"@ =~= crate::formats::json::type_field());
        let shown = yaml_pairs(pairs@);
        assert(shown[0].0 == YamlDoc::Text(crate::formats::json::key_field()));
        assert(shown[1].0 == YamlDoc::Text(crate::formats::json::value_field()));
        assert(shown[2].0 == YamlDoc::Text(crate::formats::json::type_field()));
        assert(crate::formats::json::key_field().len() == 3);
        assert(crate::formats::json::value_field().len() == 5);
        assert(crate::formats::json::type_field().len() == 10);
        assert(keys_differ(shown));
        assert(YamlDoc::Mapping(shown) =~= entry_doc(entry@)) by {
            assert(shown =~= entry_doc(entry@)->Mapping_0);
        }
    }
    yaml_mapping(pairs)
}

/// Builds the document for the entries.
pub fn export_node(entries: &Vec<KeyValue>) -> (node: yaml_rust2::Yaml)
    ensures
        yaml_doc(node) == export_doc(entries_view(entries@)),
{
    let mut items: Vec<yaml_rust2::Yaml> = Vec::new();
    let mut i: usize = 0;
    while i < entries.len()
        invariant
            i <= entries.len(),
            items.len() == i,
            forall|j: int| 0 <= j < i ==> yaml_doc(#[trigger] items[j]) == entry_doc(entries[j]@),
        decreases entries.len() - i,
    {
        items.push(entry_node(&entries[i]));
        i += 1;
    }
    proof {
        assert(yaml_docs(items@) =~= entries_view(entries@).map_values(|e: Entry| entry_doc(e)));
    }
    yaml_sequence(items)
}

/// Writes the entries out as a YAML text. Fails exactly where the writer
/// fails on their document.
pub fn encode(entries: &Vec<KeyValue>) -> (r: Result<String, yaml_rust2::EmitError>)
    ensures
        match r {
            Ok(text) => encoded(entries_view(entries@)) == Some(text@),
            Err(_) => encoded(entries_view(entries@)) is None,
        },
{
    let node = export_node(entries);
    yaml_emit(&node)
}

/// Adds to `pairs` what the pairs of a mapping give to import. Returns
/// whether every pair was a text under a text.
fn take_mapping(pairs: &mut Vec<(Vec<u8>, Vec<u8>)>, entries: &Vec<(&yaml_rust2::Yaml, &yaml_rust2::Yaml)>) -> (complete: bool)
    ensures
        pairs_view(final(pairs)@) == pairs_view(old(pairs)@) + run(
            mapping_steps(yaml_pair_refs(entries@)),
        ).0,
        complete == run(mapping_steps(yaml_pair_refs(entries@))).1,
{
    let ghost start = pairs_view(pairs@);
    let ghost steps = mapping_steps(yaml_pair_refs(entries@));
    let mut i: usize = 0;
    assert(steps.take(0) =~= Seq::empty());
    assert(start + run(steps.take(0)).0 =~= start);
    while i < entries.len()
        invariant
            i <= entries.len(),
            steps == mapping_steps(yaml_pair_refs(entries@)),
            start == pairs_view(old(pairs)@),
            pairs_view(pairs@) == start + run(steps.take(i as int)).0,
            run(steps.take(i as int)).1,
        decreases entries.len() - i,
    {
        let ghost seen = steps.take(i as int);
        let ghost next = steps.take(i + 1);
        proof {
            assert(next.drop_last() =~= seen);
            assert(next.last() == pair_step(yaml_pair_refs(entries@)[i as int]));
        }
        let key = yaml_str(entries[i].0);
        let held = yaml_str(entries[i].1);
        match (key, held) {
            (Some(key), Some(held)) => {
                let ghost earlier = pairs@;
                pairs.push((key.as_bytes_vec(), held.as_bytes_vec()));
                proof {
                    assert(pairs_view(pairs@) =~= pairs_view(earlier).push(
                        (encode_utf8(key@), encode_utf8(held@)),
                    ));
                    assert(pairs_view(pairs@) =~= start + run(next).0);
                }
            },
            _ => {
                proof {
                    assert(steps[i as int] is Stop);
                    lemma_run_stops(steps, i as int);
                }
                return false;
            },
        }
        i += 1;
    }
    assert(steps.take(i as int) =~= steps);
    true
}

/// Adds to `pairs` what the items of a sequence give to import. Returns
/// whether every item was a mapping of texts.
fn take_list(pairs: &mut Vec<(Vec<u8>, Vec<u8>)>, items: &Vec<yaml_rust2::Yaml>) -> (complete: bool)
    ensures
        pairs_view(final(pairs)@) == pairs_view(old(pairs)@) + run(list_steps(yaml_docs(items@))).0,
        complete == run(list_steps(yaml_docs(items@))).1,
{
    let ghost start = pairs_view(pairs@);
    let ghost docs = yaml_docs(items@);
    let mut i: usize = 0;
    assert(docs.take(0) =~= Seq::empty());
    assert(start + run(list_steps(docs.take(0))).0 =~= start);
    while i < items.len()
        invariant
            i <= items.len(),
            docs == yaml_docs(items@),
            start == pairs_view(old(pairs)@),
            pairs_view(pairs@) == start + run(list_steps(docs.take(i as int))).0,
            run(list_steps(docs.take(i as int))).1,
        decreases items.len() - i,
    {
        let ghost seen = list_steps(docs.take(i as int));
        let ghost here = item_steps(docs[i as int]);
        proof {
            assert(docs.take(i + 1).drop_last() =~= docs.take(i as int));
            assert(docs.take(i + 1).last() == docs[i as int]);
            assert(list_steps(docs.take(i + 1)) == seen + here);
            lemma_run_append(seen, here);
            assert(docs[i as int] == yaml_doc(items[i as int]));
        }
        let complete = match yaml_entries(&items[i]) {
            Some(entries) => take_mapping(pairs, &entries),
            None => {
                proof {
                    lemma_run_one(Step::Stop);
                    assert(pairs_view(pairs@) + Seq::<(Seq<u8>, Seq<u8>)>::empty() =~= pairs_view(
                        pairs@,
                    ));
                }
                false
            },
        };
        proof {
            assert(pairs_view(pairs@) =~= start + run(list_steps(docs.take(i + 1))).0);
        }
        if !complete {
            proof {
                lemma_list_stops(docs, i as int);
            }
            return false;
        }
        i += 1;
    }
    assert(docs.take(i as int) =~= docs);
    true
}

/// Once the items up to one of them have reached a `Stop`, the items after
/// it change nothing.
proof fn lemma_list_stops(docs: Seq<YamlDoc>, at: int)
    requires
        0 <= at < docs.len(),
        !run(list_steps(docs.take(at + 1))).1,
    ensures
        run(list_steps(docs)) == run(list_steps(docs.take(at + 1))),
    decreases docs.len(),
{
    if at == docs.len() - 1 {
        assert(docs.take(at + 1) =~= docs);
    } else {
        assert(docs.drop_last().take(at + 1) =~= docs.take(at + 1));
        lemma_list_stops(docs.drop_last(), at);
        lemma_run_append(list_steps(docs.drop_last()), item_steps(docs.last()));
    }
}

/// Takes from a document what it gives to import: the pairs, and whether
/// the document was a mapping, or a sequence of mappings, with a text under
/// each text.
pub fn import_node(node: &yaml_rust2::Yaml) -> (r: (Vec<(Vec<u8>, Vec<u8>)>, bool))
    ensures
        pairs_view(r.0@) == run(doc_steps(yaml_doc(*node))).0,
        r.1 == run(doc_steps(yaml_doc(*node))).1,
{
    let mut pairs: Vec<(Vec<u8>, Vec<u8>)> = Vec::new();
    assert(pairs_view(pairs@) =~= Seq::empty());
    let ghost steps = doc_steps(yaml_doc(*node));
    let complete = match yaml_entries(node) {
        Some(entries) => take_mapping(&mut pairs, &entries),
        None => match yaml_items(node) {
            Some(items) => take_list(&mut pairs, items),
            None => {
                proof {
                    lemma_run_one(Step::Stop);
                }
                false
            },
        },
    };
    proof {
        assert(Seq::<(Seq<u8>, Seq<u8>)>::empty() + run(steps).0 =~= run(steps).0);
    }
    (pairs, complete)
}

/// Reads what a YAML text gives to import: the pairs, and the description
/// of the failure that ended the reading, if one did.
pub fn decode(text: &str) -> (r: (Vec<(Vec<u8>, Vec<u8>)>, Option<String>))
    ensures
        pairs_view(r.0@) == decoded(text@).0,
        r.1 is None <==> decoded(text@).1,
{
    let nodes = match yaml_load(text) {
        Ok(nodes) => nodes,
        Err(e) => {
            let pairs: Vec<(Vec<u8>, Vec<u8>)> = Vec::new();
            assert(pairs_view(pairs@) =~= Seq::empty());
            return (pairs, Some(e.to_string()));
        },
    };
    if nodes.len() == 0 {
        let pairs: Vec<(Vec<u8>, Vec<u8>)> = Vec::new();
        assert(pairs_view(pairs@) =~= Seq::empty());
        return (pairs, Some("YAML文档为空".to_owned()));
    }
    assert(yaml_docs(nodes@)[0] == yaml_doc(nodes[0]));
    let (pairs, complete) = import_node(&nodes[0]);
    if complete {
        (pairs, None)
    } else {
        (pairs, Some("不支持的YAML格式，需要对象或对象数组".to_owned()))
    }
}

} // verus!
