//! What holds of the commands taken together.

use crate::error::StoreError;
use crate::formats::delimited::{csv_rows, row_step};
use crate::formats::plan::{run, Step};
use crate::formats::yaml::{
    doc_steps, item_steps, list_steps, pair_step, yaml_loaded, YamlDoc,
};
use crate::formats::{import_plan, Format};
use crate::formats::json::{bytes_doc, doc_bytes, doc_entries, doc_entry, entry_doc, export_doc, is_byte_doc, JsonDoc};
use crate::keys::{ascending, in_range, key_lt, listing, lists, prefix_scope, range_scope, has_prefix};
use crate::query::{
    got, inserted, is_page_of, page, prefixed, ranged, was_removed, was_set, whole_scope,
};
use crate::sled_manager::{
    entries_view, in_connection, lists_connections, rejected, typed, ConnectionInfo,
    ConnectionState, Entry, KeyValue, PrefixQuery, QueryResult, RangeQuery,
};
use crate::store::{bytes_view, Tree, Trees};
use vstd::prelude::*;
use vstd::utf8::{encode_utf8, encode_utf8_valid_utf8, valid_utf8};

verus! {

/// A `get` that follows a `set` of the same key in the same tree finds the
/// value that was set, with the hint inferred from it.
pub proof fn law_get_after_set(
    start: Trees,
    middle: Trees,
    end: Trees,
    tree: Seq<u8>,
    key: Seq<u8>,
    value: Seq<u8>,
    previous: Option<Vec<u8>>,
    found: Option<KeyValue>,
)
    requires
        was_set(start, middle, tree, key, value, previous),
        got(middle, end, tree, key, found),
    ensures
        found matches Some(entry) && entry@ == typed((key, value)),
        end == middle,
{
}

/// A `get` that follows a `remove` of the same key in the same tree finds
/// nothing.
pub proof fn law_get_after_remove(
    start: Trees,
    middle: Trees,
    end: Trees,
    tree: Seq<u8>,
    key: Seq<u8>,
    removed: Option<Vec<u8>>,
    found: Option<KeyValue>,
)
    requires
        was_removed(start, middle, tree, key, removed),
        got(middle, end, tree, key, found),
    ensures
        found is None,
        end == middle,
{
}

/// The entries of a page are in strict order of key, ascending, or
/// descending where the query is reversed, each lies within the scope of
/// the query, and each is an entry of the tree.
pub proof fn law_page_is_ordered(
    result: QueryResult,
    trees: Trees,
    tree: Seq<u8>,
    scope: spec_fn(Seq<u8>) -> bool,
    limit: Option<usize>,
    reverse: bool,
)
    requires
        is_page_of(result, trees, tree, scope, limit, reverse),
    ensures
        forall|i: int, j: int|
            0 <= i < j < result.entries.len() ==> if reverse {
                key_lt(#[trigger] result.entries[j].key@, #[trigger] result.entries[i].key@)
            } else {
                key_lt(#[trigger] result.entries[i].key@, #[trigger] result.entries[j].key@)
            },
        forall|i: int|
            0 <= i < result.entries.len() ==> {
                &&& scope((#[trigger] result.entries[i]).key@)
                &&& trees[tree].contains_key(result.entries[i].key@)
                &&& trees[tree][result.entries[i].key@] == result.entries[i].value@
            },
{
    let source = listing(trees[tree], scope);
    let shown = page(source, limit, reverse);
    let n = source.len() as int;
    assert(entries_view(result.entries@).len() == shown.len());
    assert forall|i: int| 0 <= i < result.entries.len() implies (#[trigger] result.entries[i]).key@
        == shown[i].0 && result.entries[i].value@ == shown[i].1 && shown[i] == source[if reverse {
        n - 1 - i
    } else {
        i
    }] by {
        assert(entries_view(result.entries@)[i] == typed(shown[i]));
        assert(entries_view(result.entries@)[i] == result.entries[i]@);
    }
    assert forall|i: int, j: int| 0 <= i < j < result.entries.len() implies if reverse {
        key_lt(#[trigger] result.entries[j].key@, #[trigger] result.entries[i].key@)
    } else {
        key_lt(#[trigger] result.entries[i].key@, #[trigger] result.entries[j].key@)
    } by {
        if reverse {
            assert(key_lt(source[n - 1 - j].0, source[n - 1 - i].0));
        } else {
            assert(key_lt(source[i].0, source[j].0));
        }
    }
}

/// Every key of the result of a range query lies in `[from, to)`, and the
/// keys are in strict ascending order, or descending where the query is
/// reversed.
pub proof fn law_range_query_is_ordered_and_bounded(
    before: Trees,
    after: Trees,
    tree: Seq<u8>,
    query: RangeQuery,
    result: QueryResult,
)
    requires
        ranged(before, after, tree, query, result),
    ensures
        forall|i: int, j: int|
            0 <= i < j < result.entries.len() ==> if query.reverse {
                key_lt(#[trigger] result.entries[j].key@, #[trigger] result.entries[i].key@)
            } else {
                key_lt(#[trigger] result.entries[i].key@, #[trigger] result.entries[j].key@)
            },
        forall|i: int|
            0 <= i < result.entries.len() ==> in_range(
                (#[trigger] result.entries[i]).key@,
                bytes_view(query.from),
                bytes_view(query.to),
            ),
{
    let scope = range_scope(bytes_view(query.from), bytes_view(query.to));
    law_page_is_ordered(result, after, tree, scope, query.limit, query.reverse);
    assert forall|i: int| 0 <= i < result.entries.len() implies in_range(
        (#[trigger] result.entries[i]).key@,
        bytes_view(query.from),
        bytes_view(query.to),
    ) by {
        assert(scope(result.entries[i].key@));
    }
}

/// Every key of the result of a prefix query starts with the prefix, and
/// the keys are in strict ascending order.
pub proof fn law_prefix_query_is_ordered_and_bounded(
    before: Trees,
    after: Trees,
    tree: Seq<u8>,
    query: PrefixQuery,
    result: QueryResult,
)
    requires
        prefixed(before, after, tree, query, result),
    ensures
        forall|i: int, j: int|
            0 <= i < j < result.entries.len() ==> key_lt(
                #[trigger] result.entries[i].key@,
                #[trigger] result.entries[j].key@,
            ),
        forall|i: int|
            0 <= i < result.entries.len() ==> has_prefix(
                (#[trigger] result.entries[i]).key@,
                query.prefix@,
            ),
{
    let scope = prefix_scope(query.prefix@);
    law_page_is_ordered(result, after, tree, scope, query.limit, false);
    assert forall|i: int| 0 <= i < result.entries.len() implies has_prefix(
        (#[trigger] result.entries[i]).key@,
        query.prefix@,
    ) by {
        assert(scope(result.entries[i].key@));
    }
}

/// A page says that there is more exactly where the limit kept entries of
/// the scope out of it: then the page is as long as the limit allows, and
/// otherwise it holds every entry of the scope. The count is that of the
/// whole tree, whatever the scope.
pub proof fn law_has_more_means_cut_by_limit(
    result: QueryResult,
    trees: Trees,
    tree: Seq<u8>,
    scope: spec_fn(Seq<u8>) -> bool,
    limit: Option<usize>,
    reverse: bool,
)
    requires
        is_page_of(result, trees, tree, scope, limit, reverse),
    ensures
        result.has_more <==> result.entries.len() < listing(trees[tree], scope).len(),
        result.has_more ==> limit == Some(result.entries.len()),
        result.entries.len() == match limit {
            Some(n) => if n < listing(trees[tree], scope).len() {
                n as int
            } else {
                listing(trees[tree], scope).len() as int
            },
            None => listing(trees[tree], scope).len() as int,
        },
        !result.has_more ==> forall|key: Seq<u8>| #[trigger]
            trees[tree].contains_key(key) && scope(key) ==> exists|i: int|
                0 <= i < result.entries.len() && (#[trigger] result.entries[i]).key@ == key,
        result.total_count == trees[tree].len(),
{
    let source = listing(trees[tree], scope);
    let shown = page(source, limit, reverse);
    let n = source.len() as int;
    assert(entries_view(result.entries@).len() == shown.len());
    if !result.has_more {
        assert forall|key: Seq<u8>| #[trigger] trees[tree].contains_key(key) && scope(
            key,
        ) implies exists|i: int|
            0 <= i < result.entries.len() && (#[trigger] result.entries[i]).key@ == key by {
            let at = choose|at: int| 0 <= at < source.len() && (#[trigger] source[at]).0 == key;
            let i = if reverse {
                n - 1 - at
            } else {
                at
            };
            assert(shown[i] == source[at]);
            assert(entries_view(result.entries@)[i] == typed(shown[i]));
            assert(entries_view(result.entries@)[i] == result.entries[i]@);
            assert(result.entries[i].key@ == key);
        }
    }
}

/// The count that a page carries is that of the whole tree: two queries on
/// the same tree carry the same count, whatever their scopes, limits and
/// directions.
pub proof fn law_total_count_ignores_the_query(
    first: QueryResult,
    second: QueryResult,
    trees: Trees,
    tree: Seq<u8>,
    first_scope: spec_fn(Seq<u8>) -> bool,
    first_limit: Option<usize>,
    first_reverse: bool,
    second_scope: spec_fn(Seq<u8>) -> bool,
    second_limit: Option<usize>,
    second_reverse: bool,
)
    requires
        is_page_of(first, trees, tree, first_scope, first_limit, first_reverse),
        is_page_of(second, trees, tree, second_scope, second_limit, second_reverse),
    ensures
        first.total_count == trees[tree].len(),
        first.total_count == second.total_count,
{
}

/// A command on a connection that the registry does not hold fails with
/// `NotFound` and changes nothing: it cannot succeed, and it cannot fail in
/// any other way. This is so after the connection was removed, and the list
/// of connections then holds no record of it.
pub proof fn law_removed_connection_is_unknown(
    start: Map<Seq<char>, ConnectionState>,
    before: Map<Seq<char>, ConnectionState>,
    after: Map<Seq<char>, ConnectionState>,
    id: Seq<char>,
    e: StoreError,
    infos: Seq<ConnectionInfo>,
)
    requires
        before == start.remove(id),
        lists_connections(infos, before),
    ensures
        !in_connection(before, after, id),
        rejected(before, after, id, e) ==> e is NotFound && e.detail() == id && after == before,
        forall|i: int| 0 <= i < infos.len() ==> (#[trigger] infos[i]).id@ != id,
{
}

/// The JSON document of a tree's entries stands for exactly the pairs of
/// the tree, and those pairs, written to an empty tree, give the tree
/// again: an import of what `serde_json` reads back from its own text of an
/// export reproduces the tree, byte for byte.
pub proof fn law_json_round_trip(tree: Tree, source: Seq<(Seq<u8>, Seq<u8>)>)
    requires
        lists(source, tree, whole_scope()),
    ensures
        doc_entries(export_doc(source.map_values(|p: (Seq<u8>, Seq<u8>)| typed(p)))) == Some(
            source,
        ),
        inserted(Map::empty(), source) == tree,
{
    let entries = source.map_values(|p: (Seq<u8>, Seq<u8>)| typed(p));
    let items = entries.map_values(|e: Entry| entry_doc(e));
    assert forall|i: int| 0 <= i < items.len() implies doc_entry(#[trigger] items[i]) == Some(
        source[i],
    ) by {
        lemma_entry_doc_round_trip(entries[i]);
    }
    assert(items.map_values(|d: JsonDoc| doc_entry(d)->0) =~= source);
    lemma_inserted_listing(tree, source);
}

/// No text stands for a byte string that is no valid UTF-8. The formats
/// that carry keys and values as text, and read them back as the UTF-8 of
/// that text, therefore never give such a key or value back.
pub proof fn law_text_loses_malformed_bytes(bytes: Seq<u8>, text: Seq<char>)
    requires
        !valid_utf8(bytes),
    ensures
        encode_utf8(text) != bytes,
{
    encode_utf8_valid_utf8(text);
}

/// A step that writes, writes valid UTF-8 under valid UTF-8.
pub open spec fn writes_text(step: Step) -> bool {
    step matches Step::Put(key, value) ==> valid_utf8(key) && valid_utf8(value)
}

/// Every pair that a CSV or a YAML text gives to import holds valid UTF-8
/// as its key and as its value: with the law above, an import from these
/// formats never writes a key or a value that is no valid UTF-8.
pub proof fn law_text_import_writes_valid_utf8(format: Format, text: Seq<char>)
    requires
        format == Format::Csv || format == Format::Yaml,
    ensures
        forall|i: int|
            0 <= i < import_plan(format, text).0.len() ==> valid_utf8(
                (#[trigger] import_plan(format, text).0[i]).0,
            ) && valid_utf8(import_plan(format, text).0[i].1),
{
    if format == Format::Csv {
        let steps = csv_rows(text).map_values(|row: Option<Seq<Seq<char>>>| row_step(row));
        assert forall|i: int| 0 <= i < steps.len() implies writes_text(#[trigger] steps[i]) by {
            lemma_row_step_writes_text(csv_rows(text)[i]);
        }
        lemma_run_writes_text(steps);
    } else {
        match yaml_loaded(text) {
            Some(docs) => {
                if docs.len() > 0 {
                    lemma_doc_steps_write_text(docs[0]);
                    lemma_run_writes_text(doc_steps(docs[0]));
                }
            },
            None => {},
        }
    }
}

proof fn lemma_row_step_writes_text(row: Option<Seq<Seq<char>>>)
    ensures
        writes_text(row_step(row)),
{
    if let Some(fields) = row {
        if fields.len() >= 2 {
            encode_utf8_valid_utf8(fields[0]);
            encode_utf8_valid_utf8(fields[1]);
        }
    }
}

proof fn lemma_pair_step_writes_text(pair: (YamlDoc, YamlDoc))
    ensures
        writes_text(pair_step(pair)),
{
    match pair {
        (YamlDoc::Text(key), YamlDoc::Text(value)) => {
            encode_utf8_valid_utf8(key);
            encode_utf8_valid_utf8(value);
        },
        _ => {},
    }
}

proof fn lemma_item_steps_write_text(item: YamlDoc)
    ensures
        forall|i: int| 0 <= i < item_steps(item).len() ==> writes_text(#[trigger] item_steps(item)[i]),
{
    match item {
        YamlDoc::Mapping(pairs) => {
            assert forall|i: int| 0 <= i < item_steps(item).len() implies writes_text(
                #[trigger] item_steps(item)[i],
            ) by {
                lemma_pair_step_writes_text(pairs[i]);
            }
        },
        _ => {},
    }
}

proof fn lemma_list_steps_write_text(items: Seq<YamlDoc>)
    ensures
        forall|i: int| 0 <= i < list_steps(items).len() ==> writes_text(#[trigger] list_steps(items)[i]),
    decreases items.len(),
{
    if items.len() > 0 {
        let before = list_steps(items.drop_last());
        let here = item_steps(items.last());
        lemma_list_steps_write_text(items.drop_last());
        lemma_item_steps_write_text(items.last());
        assert forall|i: int| 0 <= i < list_steps(items).len() implies writes_text(
            #[trigger] list_steps(items)[i],
        ) by {
            if i < before.len() {
                assert(list_steps(items)[i] == before[i]);
            } else {
                assert(list_steps(items)[i] == here[i - before.len()]);
            }
        }
    }
}

proof fn lemma_doc_steps_write_text(doc: YamlDoc)
    ensures
        forall|i: int| 0 <= i < doc_steps(doc).len() ==> writes_text(#[trigger] doc_steps(doc)[i]),
{
    match doc {
        YamlDoc::Mapping(pairs) => {
            lemma_item_steps_write_text(doc);
            assert(doc_steps(doc) == item_steps(doc));
        },
        YamlDoc::List(items) => {
            lemma_list_steps_write_text(items);
        },
        _ => {
            assert(doc_steps(doc) =~= seq![Step::Stop]);
        },
    }
}

/// The pairs of a run of steps that write text are text.
proof fn lemma_run_writes_text(steps: Seq<Step>)
    requires
        forall|i: int| 0 <= i < steps.len() ==> writes_text(#[trigger] steps[i]),
    ensures
        forall|i: int|
            0 <= i < run(steps).0.len() ==> valid_utf8((#[trigger] run(steps).0[i]).0) && valid_utf8(
                run(steps).0[i].1,
            ),
    decreases steps.len(),
{
    if steps.len() > 0 {
        let rest = steps.drop_last();
        assert forall|i: int| 0 <= i < rest.len() implies writes_text(#[trigger] rest[i]) by {
            assert(rest[i] == steps[i]);
        }
        lemma_run_writes_text(rest);
        let earlier = run(rest).0;
        let last = steps[steps.len() - 1];
        assert(writes_text(last));
        assert forall|i: int| 0 <= i < run(steps).0.len() implies valid_utf8(
            (#[trigger] run(steps).0[i]).0,
        ) && valid_utf8(run(steps).0[i].1) by {
            if i < earlier.len() {
                assert(run(steps).0[i] == earlier[i]);
            }
        }
    }
}

/// The array of a byte string's values stands for the byte string.
proof fn lemma_bytes_doc_round_trip(bytes: Seq<u8>)
    ensures
        doc_bytes(bytes_doc(bytes)) == Some(bytes),
{
    let items = bytes.map_values(|b: u8| JsonDoc::Number(b as int));
    assert forall|i: int| 0 <= i < items.len() implies is_byte_doc(#[trigger] items[i]) by {}
    assert(items.map_values(|d: JsonDoc| d->Number_0 as u8) =~= bytes);
}

/// The object of an entry stands for the entry's key and value.
proof fn lemma_entry_doc_round_trip(entry: Entry)
    ensures
        doc_entry(entry_doc(entry)) == Some((entry.key, entry.value)),
{
    lemma_bytes_doc_round_trip(entry.key);
    lemma_bytes_doc_round_trip(entry.value);
    let key = crate::formats::json::key_field();
    let value = crate::formats::json::value_field();
    let kind = crate::formats::json::type_field();
    assert(key.len() == 3 && value.len() == 5 && kind.len() == 10);
    assert(key != value && key != kind && value != kind);
}

/// The pairs of a listing of a whole tree, written to an empty tree, give
/// the tree.
proof fn lemma_inserted_listing(tree: Tree, source: Seq<(Seq<u8>, Seq<u8>)>)
    requires
        lists(source, tree, whole_scope()),
    ensures
        inserted(Map::empty(), source) == tree,
{
    lemma_inserted_holds(source);
    let built = inserted(Map::empty(), source);
    assert forall|key: Seq<u8>| built.contains_key(key) <==> tree.contains_key(key) by {
        if tree.contains_key(key) {
            assert(whole_scope()(key));
        }
    }
    assert forall|key: Seq<u8>| built.contains_key(key) implies built[key] == tree[key] by {
        let i = choose|i: int| 0 <= i < source.len() && (#[trigger] source[i]).0 == key;
        assert(built[key] == source[i].1);
    }
    assert(built =~= tree);
}

/// A tree built from pairs with strictly ascending keys holds exactly those
/// pairs.
proof fn lemma_inserted_holds(source: Seq<(Seq<u8>, Seq<u8>)>)
    requires
        ascending(source),
    ensures
        forall|key: Seq<u8>|
            inserted(Map::empty(), source).contains_key(key) <==> exists|i: int|
                0 <= i < source.len() && (#[trigger] source[i]).0 == key,
        forall|i: int|
            0 <= i < source.len() ==> inserted(Map::empty(), source)[(#[trigger] source[i]).0]
                == source[i].1,
    decreases source.len(),
{
    if source.len() > 0 {
        let rest = source.drop_last();
        let last = source.last();
        assert(ascending(rest)) by {
            assert forall|i: int, j: int| 0 <= i < j < rest.len() implies key_lt(
                #[trigger] rest[i].0,
                #[trigger] rest[j].0,
            ) by {
                assert(key_lt(source[i].0, source[j].0));
            }
        }
        lemma_inserted_holds(rest);
        let built = inserted(Map::empty(), source);
        let earlier = inserted(Map::empty(), rest);
        assert(built == earlier.insert(last.0, last.1));
        assert forall|key: Seq<u8>| built.contains_key(key) <==> exists|i: int|
            0 <= i < source.len() && (#[trigger] source[i]).0 == key by {
            if built.contains_key(key) {
                if key == last.0 {
                    assert(source[source.len() - 1].0 == key);
                } else {
                    let i = choose|i: int| 0 <= i < rest.len() && (#[trigger] rest[i]).0 == key;
                    assert(source[i].0 == key);
                }
            }
            if exists|i: int| 0 <= i < source.len() && (#[trigger] source[i]).0 == key {
                let i = choose|i: int| 0 <= i < source.len() && (#[trigger] source[i]).0 == key;
                if i < rest.len() {
                    assert(rest[i].0 == key);
                }
            }
        }
        assert forall|i: int| 0 <= i < source.len() implies built[(#[trigger] source[i]).0]
            == source[i].1 by {
            if i < rest.len() {
                assert(key_lt(source[i].0, source[source.len() - 1].0));
                assert(rest[i] == source[i]);
            }
        }
    }
}

} // verus!
