//! The commands: what a caller asks of the registry, one function per
//! request.

use crate::error::StoreError;
use crate::formats::{
    decode, encode, export_text, format_of, import_format_of, import_plan, parse_format,
};
use crate::keys::listing;
use crate::query::{
    got, pairs_of, prefixed, ranged, was_removed, was_set, was_written, whole_scope, written,
};
use crate::sled_manager::{
    counts, default_tree, default_tree_name, in_connection, lists_connections, names_trees, rejected, typed, ConnectionInfo,
    ConnectionState, DbStats, KeyValue, PrefixQuery, QueryResult, RangeQuery, SledManager,
};
use crate::store::with_tree;
use vstd::prelude::*;
use vstd::utf8::encode_utf8;

verus! {

#[derive(Debug)]
pub struct CreateConnectionRequest {
    pub name: String,
    pub path: String,
}

#[derive(Debug)]
pub struct GetRequest {
    pub connection_id: String,
    pub tree_name: Option<String>,
    pub key: Vec<u8>,
}

#[derive(Debug)]
pub struct SetRequest {
    pub connection_id: String,
    pub tree_name: Option<String>,
    pub key: Vec<u8>,
    pub value: Vec<u8>,
}

#[derive(Debug)]
pub struct RemoveRequest {
    pub connection_id: String,
    pub tree_name: Option<String>,
    pub key: Vec<u8>,
}

#[derive(Debug)]
pub struct RangeQueryRequest {
    pub connection_id: String,
    pub tree_name: Option<String>,
    pub query: RangeQuery,
}

#[derive(Debug)]
pub struct PrefixQueryRequest {
    pub connection_id: String,
    pub tree_name: Option<String>,
    pub query: PrefixQuery,
}

#[derive(Debug)]
pub struct ImportRequest {
    pub connection_id: String,
    pub tree_name: Option<String>,
    pub data: Vec<KeyValue>,
}

/// `format` is one of `json`, `csv`, `xml` and `yaml`.
#[derive(Debug)]
pub struct ExportRequest {
    pub connection_id: String,
    pub tree_name: Option<String>,
    pub format: String,
    pub file_path: String,
}

/// `format` is one of `json`, `csv` and `yaml`.
#[derive(Debug)]
pub struct ImportFromPathRequest {
    pub connection_id: String,
    pub tree_name: Option<String>,
    pub file_path: String,
    pub format: String,
}

/// What an export hands over to be written to the file: the text, and how
/// many entries it holds.
#[derive(Debug)]
pub struct Exported {
    pub content: String,
    pub count: usize,
}

/// The name of the tree that a request means: the given name as UTF-8, or
/// `default` where none is given.
pub open spec fn tree_key(name: Option<String>) -> Seq<u8> {
    match name {
        Some(name) => encode_utf8(name@),
        None => default_tree(),
    }
}

/// What an export does to the registry, and what it returns.
pub open spec fn export_outcome(
    before: Map<Seq<char>, ConnectionState>,
    after: Map<Seq<char>, ConnectionState>,
    id: Seq<char>,
    tree: Seq<u8>,
    token: Seq<char>,
    r: Result<Exported, StoreError>,
) -> bool {
    match r {
        Ok(out) => {
            let entries = listing(after[id].trees[tree], whole_scope()).map_values(
                |p: (Seq<u8>, Seq<u8>)| typed(p),
            );
            &&& in_connection(before, after, id)
            &&& after[id].trees == with_tree(before[id].trees, tree)
            &&& format_of(token) matches Some(format) && export_text(format, entries) == Some(
                out.content@,
            )
            &&& out.count == entries.len()
        },
        Err(e) => match e {
            StoreError::UnsupportedFormat(text) => {
                &&& text@ == token
                &&& format_of(token) is None
                &&& in_connection(before, after, id)
                &&& after[id].trees == with_tree(before[id].trees, tree)
            },
            StoreError::Io(_) => {
                &&& in_connection(before, after, id)
                &&& after[id].trees == with_tree(before[id].trees, tree)
                &&& format_of(token) matches Some(format) && export_text(
                    format,
                    listing(after[id].trees[tree], whole_scope()).map_values(
                        |p: (Seq<u8>, Seq<u8>)| typed(p),
                    ),
                ) is None
            },
            _ => rejected(before, after, id, e),
        },
    }
}

/// What an import of a text does to the registry, and what it returns.
pub open spec fn import_outcome(
    before: Map<Seq<char>, ConnectionState>,
    after: Map<Seq<char>, ConnectionState>,
    id: Seq<char>,
    tree: Seq<u8>,
    token: Seq<char>,
    text: Seq<char>,
    r: Result<usize, StoreError>,
) -> bool {
    match r {
        Ok(count) => {
            &&& in_connection(before, after, id)
            &&& import_format_of(token) matches Some(format) && import_plan(format, text).1
                && was_written(
                before[id].trees,
                after[id].trees,
                tree,
                import_plan(format, text).0,
                count,
            )
        },
        Err(e) => match e {
            StoreError::UnsupportedFormat(named) => {
                &&& named@ == token
                &&& import_format_of(token) is None
                &&& in_connection(before, after, id)
                &&& after[id].trees == with_tree(before[id].trees, tree)
            },
            StoreError::Parse(_) => {
                &&& in_connection(before, after, id)
                &&& import_format_of(token) matches Some(format) && !import_plan(format, text).1
                    && after[id].trees == written(
                    before[id].trees,
                    tree,
                    import_plan(format, text).0,
                )
            },
            _ => rejected(before, after, id, e),
        },
    }
}

/// The name of the tree that a request means, as bytes.
pub fn tree_bytes(name: &Option<String>) -> (bytes: &[u8])
    ensures
        bytes@ == tree_key(*name),
{
    match name {
        Some(name) => name.as_str().as_bytes(),
        None => default_tree_name(),
    }
}

/// Opens the store at the request's path and enters it under a fresh id,
/// which is returned.
pub fn create_connection(request: CreateConnectionRequest, manager: &mut SledManager) -> (r:
    Result<String, StoreError>)
    ensures
        match r {
            Ok(id) => {
                &&& id@.len() == 36
                &&& final(manager)@.dom() == old(manager)@.dom().insert(id@)
                &&& final(manager)@.remove(id@) == old(manager)@.remove(id@)
                &&& final(manager)@[id@].name == request.name@
                &&& final(manager)@[id@].path == request.path@
                &&& final(manager)@[id@].created_at == final(manager)@[id@].last_accessed
            },
            Err(e) => e is Open && final(manager)@ == old(manager)@,
        },
{
    manager.add_connection(request.name, request.path)
}

/// Closes the connection and forgets it. An unknown id is no error.
pub fn remove_connection(connection_id: String, manager: &mut SledManager) -> (r: Result<
    (),
    StoreError,
>)
    ensures
        r is Ok,
        final(manager)@ == old(manager)@.remove(connection_id@),
{
    manager.remove_connection(connection_id.as_str())
}

/// What is known of each connection.
pub fn get_connections(manager: &SledManager) -> (r: Result<Vec<ConnectionInfo>, StoreError>)
    ensures
        r matches Ok(infos) && lists_connections(infos@, manager@),
{
    Ok(manager.get_connections())
}

/// What is known of the connection, if there is one of that id.
pub fn get_connection(connection_id: String, manager: &SledManager) -> (r: Result<
    Option<ConnectionInfo>,
    StoreError,
>)
    ensures
        r matches Ok(found) && (found is Some <==> manager@.contains_key(connection_id@)) && (
        found matches Some(info) ==> info.describes(connection_id@, manager@[connection_id@])),
{
    Ok(manager.get_connection(connection_id.as_str()))
}

/// The names of the trees of the connection's store.
pub fn get_trees(connection_id: String, manager: &SledManager) -> (r: Result<
    Vec<String>,
    StoreError,
>)
    ensures
        match r {
            Ok(trees) => manager@.contains_key(connection_id@) && names_trees(
                trees@,
                manager@[connection_id@].trees,
            ),
            Err(e) => rejected(manager@, manager@, connection_id@, e) && e is NotFound,
        },
{
    manager.get_trees(connection_id.as_str())
}

/// A snapshot of the size of the connection's store.
pub fn get_stats(connection_id: String, manager: &SledManager) -> (r: Result<DbStats, StoreError>)
    ensures
        match r {
            Ok(stats) => manager@.contains_key(connection_id@) && counts(
                stats,
                manager@[connection_id@].trees,
            ),
            Err(e) => rejected(manager@, manager@, connection_id@, e),
        },
{
    manager.get_stats(connection_id.as_str())
}

/// Looks the request's key up.
pub fn get(request: GetRequest, manager: &mut SledManager) -> (r: Result<
    Option<KeyValue>,
    StoreError,
>)
    ensures
        match r {
            Ok(found) => in_connection(old(manager)@, final(manager)@, request.connection_id@)
                && got(
                old(manager)@[request.connection_id@].trees,
                final(manager)@[request.connection_id@].trees,
                tree_key(request.tree_name),
                request.key@,
                found,
            ),
            Err(e) => rejected(old(manager)@, final(manager)@, request.connection_id@, e),
        },
{
    manager.get(
        request.connection_id.as_str(),
        tree_bytes(&request.tree_name),
        request.key.as_slice(),
    )
}

/// Puts the request's value under its key. Returns the value that was there
/// before.
pub fn set(request: SetRequest, manager: &mut SledManager) -> (r: Result<
    Option<Vec<u8>>,
    StoreError,
>)
    ensures
        match r {
            Ok(previous) => in_connection(old(manager)@, final(manager)@, request.connection_id@)
                && was_set(
                old(manager)@[request.connection_id@].trees,
                final(manager)@[request.connection_id@].trees,
                tree_key(request.tree_name),
                request.key@,
                request.value@,
                previous,
            ),
            Err(e) => rejected(old(manager)@, final(manager)@, request.connection_id@, e),
        },
{
    manager.set(
        request.connection_id.as_str(),
        tree_bytes(&request.tree_name),
        request.key.as_slice(),
        request.value.as_slice(),
    )
}

/// Takes the request's key out. Returns the value that was there.
pub fn remove(request: RemoveRequest, manager: &mut SledManager) -> (r: Result<
    Option<Vec<u8>>,
    StoreError,
>)
    ensures
        match r {
            Ok(removed) => in_connection(old(manager)@, final(manager)@, request.connection_id@)
                && was_removed(
                old(manager)@[request.connection_id@].trees,
                final(manager)@[request.connection_id@].trees,
                tree_key(request.tree_name),
                request.key@,
                removed,
            ),
            Err(e) => rejected(old(manager)@, final(manager)@, request.connection_id@, e),
        },
{
    manager.remove(
        request.connection_id.as_str(),
        tree_bytes(&request.tree_name),
        request.key.as_slice(),
    )
}

/// Runs the request's range query.
pub fn range_query(request: RangeQueryRequest, manager: &mut SledManager) -> (r: Result<
    QueryResult,
    StoreError,
>)
    ensures
        match r {
            Ok(result) => in_connection(old(manager)@, final(manager)@, request.connection_id@)
                && ranged(
                old(manager)@[request.connection_id@].trees,
                final(manager)@[request.connection_id@].trees,
                tree_key(request.tree_name),
                request.query,
                result,
            ),
            Err(e) => rejected(old(manager)@, final(manager)@, request.connection_id@, e),
        },
{
    manager.range_query(
        request.connection_id.as_str(),
        tree_bytes(&request.tree_name),
        &request.query,
    )
}

/// Runs the request's prefix query.
pub fn prefix_query(request: PrefixQueryRequest, manager: &mut SledManager) -> (r: Result<
    QueryResult,
    StoreError,
>)
    ensures
        match r {
            Ok(result) => in_connection(old(manager)@, final(manager)@, request.connection_id@)
                && prefixed(
                old(manager)@[request.connection_id@].trees,
                final(manager)@[request.connection_id@].trees,
                tree_key(request.tree_name),
                request.query,
                result,
            ),
            Err(e) => rejected(old(manager)@, final(manager)@, request.connection_id@, e),
        },
{
    manager.prefix_query(
        request.connection_id.as_str(),
        tree_bytes(&request.tree_name),
        &request.query,
    )
}

/// Writes the request's entries, one after the other, whatever the tree
/// holds. Returns how many were written.
pub fn import_data(request: ImportRequest, manager: &mut SledManager) -> (r: Result<
    usize,
    StoreError,
>)
    ensures
        match r {
            Ok(count) => in_connection(old(manager)@, final(manager)@, request.connection_id@)
                && was_written(
                old(manager)@[request.connection_id@].trees,
                final(manager)@[request.connection_id@].trees,
                tree_key(request.tree_name),
                pairs_of(request.data@),
                count,
            ),
            Err(e) => rejected(old(manager)@, final(manager)@, request.connection_id@, e),
        },
{
    manager.import_data(
        request.connection_id.as_str(),
        tree_bytes(&request.tree_name),
        &request.data,
    )
}

/// Reads the whole tree and writes its entries out in the request's format.
/// The text is handed back to be written to the request's file. Fails with
/// `UnsupportedFormat`, which carries the format, where it is none of `json`,
/// `csv`, `xml` and `yaml`, and with `Io` where the format's writer fails.
pub fn export_data(request: &ExportRequest, manager: &mut SledManager) -> (r: Result<
    Exported,
    StoreError,
>)
    ensures
        export_outcome(
            old(manager)@,
            final(manager)@,
            request.connection_id@,
            tree_key(request.tree_name),
            request.format@,
            r,
        ),
{
    let entries = match manager.read_all(
        request.connection_id.as_str(),
        tree_bytes(&request.tree_name),
    ) {
        Ok(entries) => entries,
        Err(e) => {
            return Err(e);
        },
    };
    let format = match parse_format(request.format.as_str()) {
        Some(format) => format,
        None => {
            return Err(StoreError::UnsupportedFormat(request.format.clone()));
        },
    };
    match encode(format, &entries) {
        Ok(content) => Ok(Exported { content, count: entries.len() }),
        Err(e) => Err(e),
    }
}

/// Reads `contents`, the text of the request's file, in the request's
/// format, and writes what it gives to the tree. Returns how many pairs were
/// written. Fails with `UnsupportedFormat`, which carries the format, where
/// it is none of `json`, `csv` and `yaml`, and with `Parse` where the text
/// cannot be read to its end: what it gave up to there stays written.
pub fn import_from_path(
    request: &ImportFromPathRequest,
    contents: &str,
    manager: &mut SledManager,
) -> (r: Result<usize, StoreError>)
    ensures
        import_outcome(
            old(manager)@,
            final(manager)@,
            request.connection_id@,
            tree_key(request.tree_name),
            request.format@,
            contents@,
            r,
        ),
{
    let id = request.connection_id.as_str();
    let tree = tree_bytes(&request.tree_name);
    if let Err(e) = manager.create_tree(id, tree) {
        return Err(e);
    }
    let ghost opened = manager@;
    let read = match parse_format(request.format.as_str()) {
        Some(format) => decode(format, contents),
        None => None,
    };
    let read = match read {
        Some(read) => read,
        None => {
            return Err(StoreError::UnsupportedFormat(request.format.clone()));
        },
    };
    let written = manager.write_all(id, tree, &read.pairs);
    proof {
        let before = old(manager)@;
        let after = manager@;
        let state = before[id@];
        assert(with_tree(with_tree(state.trees, tree@), tree@) == with_tree(state.trees, tree@));
        if in_connection(opened, after, id@) {
            assert(after =~= before.insert(
                id@,
                ConnectionState { trees: after[id@].trees, ..before[id@] },
            ));
        }
    }
    match written {
        Ok(count) => match read.failure {
            None => Ok(count),
            Some(failure) => Err(StoreError::Parse(failure)),
        },
        Err(e) => Err(e),
    }
}

/// Opens the tree, and so creates it if the store has none of that name.
pub fn create_tree(connection_id: String, tree_name: String, manager: &mut SledManager) -> (r:
    Result<(), StoreError>)
    ensures
        match r {
            Ok(_) => {
                &&& in_connection(old(manager)@, final(manager)@, connection_id@)
                &&& final(manager)@[connection_id@].trees == with_tree(
                    old(manager)@[connection_id@].trees,
                    encode_utf8(tree_name@),
                )
            },
            Err(e) => rejected(old(manager)@, final(manager)@, connection_id@, e),
        },
{
    manager.open_tree(connection_id.as_str(), tree_name.as_str())
}

/// Drops the tree with all that it holds. A store without such a tree is
/// left as it is.
pub fn remove_tree(connection_id: String, tree_name: String, manager: &mut SledManager) -> (r:
    Result<(), StoreError>)
    ensures
        match r {
            Ok(_) => {
                &&& in_connection(old(manager)@, final(manager)@, connection_id@)
                &&& final(manager)@[connection_id@].trees == old(manager)@[connection_id@].trees.remove(
                    encode_utf8(tree_name@),
                )
            },
            Err(e) => rejected(old(manager)@, final(manager)@, connection_id@, e),
        },
{
    manager.remove_tree(connection_id.as_str(), tree_name.as_str().as_bytes())
}

} // verus!
