//! The registry of connections: which stores are open, under which ids, and
//! the data that commands exchange about them.

use crate::error::StoreError;
use crate::query;
use crate::query::{
    got, pairs_of, prefixed, ranged, was_read, was_removed, was_set, was_written,
};
use crate::keys::same_bytes;
use crate::store::{
    db_trees, open_store, size_on_disk, tree_names, with_tree, Trees,
};
use crate::text::{show, shown};
use crate::value_type::{classify, detect};
pub use crate::value_type::ValueType;
use vstd::prelude::*;
use vstd::utf8::encode_utf8;

verus! {

/// A moment in time: seconds since the start of 1970 in UTC, and the
/// nanoseconds into that second.
#[derive(Debug, Clone, Copy, PartialEq, Eq, Structural)]
pub struct Timestamp {
    pub secs: i64,
    pub nanos: u32,
}

/// What is known of one open store.
#[derive(Debug, Clone)]
pub struct ConnectionInfo {
    pub id: String,
    pub name: String,
    pub path: String,
    pub created_at: Timestamp,
    pub last_accessed: Timestamp,
}

/// One entry of a tree, with the display hint for its value.
#[derive(Debug, Clone)]
pub struct KeyValue {
    pub key: Vec<u8>,
    pub value: Vec<u8>,
    pub value_type: ValueType,
}

/// One page of a query.
#[derive(Debug, Clone)]
pub struct QueryResult {
    pub entries: Vec<KeyValue>,
    pub total_count: usize,
    pub has_more: bool,
}

/// A snapshot of a store's size.
#[derive(Debug, Clone)]
pub struct DbStats {
    pub size_on_disk: u64,
    pub key_count: usize,
    pub tree_count: usize,
    pub last_modified: Timestamp,
}

/// The state of a transaction.
#[derive(Debug, Clone)]
pub struct TransactionStatus {
    pub id: String,
    pub is_active: bool,
    pub operations_count: usize,
    pub created_at: Timestamp,
}

/// The keys of `[from, to)`, a missing bound being open, at most `limit` of
/// them, from the greatest down if `reverse`.
#[derive(Debug, Clone)]
pub struct RangeQuery {
    pub from: Option<Vec<u8>>,
    pub to: Option<Vec<u8>>,
    pub limit: Option<usize>,
    pub reverse: bool,
}

/// The keys that start with `prefix`, at most `limit` of them.
#[derive(Debug, Clone)]
pub struct PrefixQuery {
    pub prefix: Vec<u8>,
    pub limit: Option<usize>,
}

/// An entry as a value of the model.
pub struct Entry {
    pub key: Seq<u8>,
    pub value: Seq<u8>,
    pub value_type: ValueType,
}

impl View for KeyValue {
    type V = Entry;

    open spec fn view(&self) -> Entry {
        Entry { key: self.key@, value: self.value@, value_type: self.value_type }
    }
}

/// The entry that a read of the pair `(key, value)` gives: the pair with the
/// hint inferred from the value.
pub open spec fn typed(pair: (Seq<u8>, Seq<u8>)) -> Entry {
    Entry { key: pair.0, value: pair.1, value_type: classify(pair.1) }
}

/// The entries of a vector, as values of the model.
pub open spec fn entries_view(entries: Seq<KeyValue>) -> Seq<Entry> {
    entries.map_values(|e: KeyValue| e@)
}

/// A connection as a value of the model: what is known of it, and the trees
/// of its store.
pub struct ConnectionState {
    pub name: Seq<char>,
    pub path: Seq<char>,
    pub created_at: Timestamp,
    pub last_accessed: Timestamp,
    pub trees: Trees,
}

impl ConnectionInfo {
    /// A copy of the record.
    pub fn copy(&self) -> (c: ConnectionInfo)
        ensures
            c == *self,
    {
        ConnectionInfo {
            id: self.id.clone(),
            name: self.name.clone(),
            path: self.path.clone(),
            created_at: self.created_at,
            last_accessed: self.last_accessed,
        }
    }

    /// The record says of the connection `id` what `state` holds.
    pub open spec fn describes(self, id: Seq<char>, state: ConnectionState) -> bool {
        &&& self.id@ == id
        &&& self.name@ == state.name
        &&& self.path@ == state.path
        &&& self.created_at == state.created_at
        &&& self.last_accessed == state.last_accessed
    }
}

/// Between `before` and `after` nothing changed but the trees of the
/// connection `id`, which exists.
pub open spec fn in_connection(
    before: Map<Seq<char>, ConnectionState>,
    after: Map<Seq<char>, ConnectionState>,
    id: Seq<char>,
) -> bool {
    &&& before.contains_key(id)
    &&& after == before.insert(id, ConnectionState { trees: after[id].trees, ..before[id] })
}

/// How a command on the connection `id` fails: with `NotFound`, which carries
/// the id, where there is no such connection, and then nothing changes; with
/// `Tree` where the store fails, and then nothing changes but what the store
/// of that connection holds.
pub open spec fn rejected(
    before: Map<Seq<char>, ConnectionState>,
    after: Map<Seq<char>, ConnectionState>,
    id: Seq<char>,
    e: StoreError,
) -> bool {
    match e {
        StoreError::NotFound(text) => text@ == id && !before.contains_key(id) && after == before,
        StoreError::Tree(_) => in_connection(before, after, id),
        _ => false,
    }
}

/// The records list the connections of `state`: one record per connection,
/// which says what the registry holds of it.
pub open spec fn lists_connections(
    infos: Seq<ConnectionInfo>,
    state: Map<Seq<char>, ConnectionState>,
) -> bool {
    &&& forall|i: int|
        0 <= i < infos.len() ==> state.contains_key((#[trigger] infos[i]).id@)
            && infos[i].describes(infos[i].id@, state[infos[i].id@])
    &&& forall|i: int, j: int|
        0 <= i < infos.len() && 0 <= j < infos.len() && i != j ==> infos[i].id@ != infos[j].id@
    &&& forall|id: Seq<char>| #[trigger]
        state.contains_key(id) ==> exists|i: int|
            0 <= i < infos.len() && (#[trigger] infos[i]).id@ == id
    &&& state.dom().finite()
    &&& infos.len() == state.len()
}

/// The texts name the trees: there is a list of the names of the trees,
/// each once, of which each text is one name read as text, malformed UTF-8
/// replaced.
pub open spec fn names_trees(names: Seq<String>, trees: Trees) -> bool {
    exists|raw: Seq<Seq<u8>>|
        {
            &&& raw.no_duplicates()
            &&& raw.to_set() == trees.dom()
            &&& #[trigger] raw.len() == names.len()
            &&& forall|i: int| 0 <= i < raw.len() ==> (#[trigger] names[i])@ == shown(raw[i])
        }
}

/// The name of the tree that a request without a tree name means.
pub open spec fn default_tree() -> Seq<u8> {
    encode_utf8(seq!['d', 'e', 'f', 'a', 'u', 'l', 't'])
}

/// The snapshot counts the entries of the default tree, none where the
/// store has no such tree, and the trees, of which there are finitely many.
pub open spec fn counts(stats: DbStats, trees: Trees) -> bool {
    &&& stats.key_count == if trees.contains_key(default_tree()) {
        trees[default_tree()].len()
    } else {
        0
    }
    &&& trees.contains_key(default_tree()) ==> trees[default_tree()].dom().finite()
    &&& trees.dom().finite()
    &&& stats.tree_count == trees.dom().len()
}

struct Connection {
    info: ConnectionInfo,
    db: sled::Db,
}

impl Connection {
    spec fn state(self) -> ConnectionState {
        ConnectionState {
            name: self.info.name@,
            path: self.info.path@,
            created_at: self.info.created_at,
            last_accessed: self.info.last_accessed,
            trees: db_trees(self.db),
        }
    }
}

/// The registry: the open stores, each under its id. No two connections share
/// an id.
pub struct SledManager {
    connections: Vec<Connection>,
}

/// The name of the default tree, as bytes.
pub fn default_tree_name() -> (name: &'static [u8])
    ensures
        name@ == default_tree(),
{
    proof {
        reveal_strlit("default");
        assert("default"@ =~= seq!['d', 'e', 'f', 'a', 'u', 'l', 't']);
    }
    "default".as_bytes()
}

/// Whether `wanted` is among the names.
fn holds_name(names: &Vec<Vec<u8>>, wanted: &[u8]) -> (found: bool)
    ensures
        found == names.deep_view().contains(wanted@),
{
    let mut i: usize = 0;
    while i < names.len()
        invariant
            i <= names.len(),
            forall|j: int| 0 <= j < i ==> names.deep_view()[j] != wanted@,
        decreases names.len() - i,
    {
        assert(names.deep_view()[i as int] == names[i as int]@);
        if same_bytes(names[i].as_slice(), wanted) {
            return true;
        }
        i += 1;
    }
    false
}

/// Calls `uuid::Uuid::new_v4` and writes the id out with `to_string`. The
/// id is random: the contract claims only the length of its hyphenated form.
#[verifier::external_body]
fn fresh_id() -> (id: String)
    ensures
        id@.len() == 36,
{
    uuid::Uuid::new_v4().to_string()
}

/// Calls `chrono::Utc::now` and takes the moment apart with `timestamp` and
/// `timestamp_subsec_nanos`. Nothing is claimed of the clock.
#[verifier::external_body]
fn now() -> (t: Timestamp) {
    let moment = chrono::Utc::now();
    Timestamp { secs: moment.timestamp(), nanos: moment.timestamp_subsec_nanos() }
}

spec fn ids_distinct(connections: Seq<Connection>) -> bool {
    forall|i: int, j: int|
        0 <= i < connections.len() && 0 <= j < connections.len() && i != j
            ==> connections[i].info.id@ != connections[j].info.id@
}

spec fn position(connections: Seq<Connection>, id: Seq<char>) -> int {
    choose|i: int| 0 <= i < connections.len() && connections[i].info.id@ == id
}

spec fn model(connections: Seq<Connection>) -> Map<Seq<char>, ConnectionState> {
    Map::new(
        |id: Seq<char>|
            exists|i: int| 0 <= i < connections.len() && (#[trigger] connections[i]).info.id@ == id,
        |id: Seq<char>| connections[position(connections, id)].state(),
    )
}

proof fn lemma_model_at(connections: Seq<Connection>, i: int)
    requires
        ids_distinct(connections),
        0 <= i < connections.len(),
    ensures
        model(connections).contains_key(connections[i].info.id@),
        model(connections)[connections[i].info.id@] == connections[i].state(),
{
    let id = connections[i].info.id@;
    assert(connections[i].info.id@ == id);
    let p = position(connections, id);
    assert(0 <= p < connections.len() && connections[p].info.id@ == id);
    assert(p == i);
}

proof fn lemma_model_update(connections: Seq<Connection>, i: int, next: Connection)
    requires
        ids_distinct(connections),
        0 <= i < connections.len(),
        next.info.id@ == connections[i].info.id@,
    ensures
        ids_distinct(connections.update(i, next)),
        model(connections.update(i, next)) == model(connections).insert(
            next.info.id@,
            next.state(),
        ),
{
    let after = connections.update(i, next);
    assert(ids_distinct(after)) by {
        assert forall|a: int, b: int|
            0 <= a < after.len() && 0 <= b < after.len() && a != b implies after[a].info.id@
            != after[b].info.id@ by {
            assert(after[a].info.id@ == connections[a].info.id@);
            assert(after[b].info.id@ == connections[b].info.id@);
        }
    }
    let left = model(after);
    let right = model(connections).insert(next.info.id@, next.state());
    assert forall|id: Seq<char>| left.contains_key(id) <==> right.contains_key(id) by {
        if left.contains_key(id) {
            let k = choose|k: int| 0 <= k < after.len() && (#[trigger] after[k]).info.id@ == id;
            assert(connections[k].info.id@ == id);
        }
        if right.contains_key(id) && id != next.info.id@ {
            let k = choose|k: int|
                0 <= k < connections.len() && (#[trigger] connections[k]).info.id@ == id;
            assert(after[k].info.id@ == id);
        }
        if id == next.info.id@ {
            assert(after[i].info.id@ == id);
        }
    }
    assert forall|id: Seq<char>| left.contains_key(id) implies left[id] == right[id] by {
        let k = choose|k: int| 0 <= k < after.len() && (#[trigger] after[k]).info.id@ == id;
        lemma_model_at(after, k);
        if k != i {
            lemma_model_at(connections, k);
        }
    }
    assert(left =~= right);
}

proof fn lemma_model_push(connections: Seq<Connection>, next: Connection)
    requires
        ids_distinct(connections),
        forall|i: int| 0 <= i < connections.len() ==> connections[i].info.id@ != next.info.id@,
    ensures
        ids_distinct(connections.push(next)),
        model(connections.push(next)) == model(connections).insert(next.info.id@, next.state()),
{
    let after = connections.push(next);
    let left = model(after);
    let right = model(connections).insert(next.info.id@, next.state());
    assert forall|id: Seq<char>| left.contains_key(id) <==> right.contains_key(id) by {
        if left.contains_key(id) {
            let k = choose|k: int| 0 <= k < after.len() && (#[trigger] after[k]).info.id@ == id;
            if k < connections.len() {
                assert(connections[k].info.id@ == id);
            }
        }
        if right.contains_key(id) && id != next.info.id@ {
            let k = choose|k: int|
                0 <= k < connections.len() && (#[trigger] connections[k]).info.id@ == id;
            assert(after[k].info.id@ == id);
        }
        if id == next.info.id@ {
            assert(after[connections.len() as int].info.id@ == id);
        }
    }
    assert forall|id: Seq<char>| left.contains_key(id) implies left[id] == right[id] by {
        let k = choose|k: int| 0 <= k < after.len() && (#[trigger] after[k]).info.id@ == id;
        lemma_model_at(after, k);
        if k < connections.len() {
            lemma_model_at(connections, k);
        }
    }
    assert(left =~= right);
}

proof fn lemma_model_remove(connections: Seq<Connection>, i: int)
    requires
        ids_distinct(connections),
        0 <= i < connections.len(),
    ensures
        ids_distinct(connections.remove(i)),
        model(connections.remove(i)) == model(connections).remove(connections[i].info.id@),
{
    let after = connections.remove(i);
    let gone = connections[i].info.id@;
    assert(ids_distinct(after)) by {
        assert forall|a: int, b: int|
            0 <= a < after.len() && 0 <= b < after.len() && a != b implies after[a].info.id@
            != after[b].info.id@ by {
            let a0 = if a < i { a } else { a + 1 };
            let b0 = if b < i { b } else { b + 1 };
            assert(after[a] == connections[a0]);
            assert(after[b] == connections[b0]);
        }
    }
    let left = model(after);
    let right = model(connections).remove(gone);
    assert forall|id: Seq<char>| left.contains_key(id) <==> right.contains_key(id) by {
        if left.contains_key(id) {
            let k = choose|k: int| 0 <= k < after.len() && (#[trigger] after[k]).info.id@ == id;
            let k0 = if k < i { k } else { k + 1 };
            assert(after[k] == connections[k0]);
            assert(connections[k0].info.id@ == id);
        }
        if right.contains_key(id) {
            let k = choose|k: int|
                0 <= k < connections.len() && (#[trigger] connections[k]).info.id@ == id;
            assert(k != i);
            let k1 = if k < i { k } else { k - 1 };
            assert(after[k1] == connections[k]);
            assert(after[k1].info.id@ == id);
        }
    }
    assert forall|id: Seq<char>| left.contains_key(id) implies left[id] == right[id] by {
        let k = choose|k: int| 0 <= k < after.len() && (#[trigger] after[k]).info.id@ == id;
        let k0 = if k < i { k } else { k + 1 };
        assert(after[k] == connections[k0]);
        lemma_model_at(after, k);
        lemma_model_at(connections, k0);
    }
    assert(left =~= right);
}

proof fn lemma_store_touched(before: Seq<Connection>, after: Seq<Connection>, i: int)
    requires
        ids_distinct(before),
        0 <= i < before.len(),
        after.len() == before.len(),
        forall|j: int| 0 <= j < before.len() && j != i ==> after[j] == before[j],
        after[i].info == before[i].info,
    ensures
        ids_distinct(after),
        in_connection(model(before), model(after), before[i].info.id@),
        model(before)[before[i].info.id@].trees == db_trees(before[i].db),
        model(after)[before[i].info.id@].trees == db_trees(after[i].db),
{
    assert(after =~= before.update(i, after[i]));
    lemma_model_update(before, i, after[i]);
    lemma_model_at(before, i);
    lemma_model_at(after, i);
}

proof fn lemma_model_absent(connections: Seq<Connection>, id: Seq<char>)
    requires
        forall|i: int| 0 <= i < connections.len() ==> connections[i].info.id@ != id,
    ensures
        !model(connections).contains_key(id),
{
}

impl View for SledManager {
    type V = Map<Seq<char>, ConnectionState>;

    /// The connections by id.
    closed spec fn view(&self) -> Map<Seq<char>, ConnectionState> {
        model(self.connections@)
    }
}

impl SledManager {
    #[verifier::type_invariant]
    spec fn unique_ids(self) -> bool {
        ids_distinct(self.connections@)
    }

    /// A registry without connections.
    pub fn new() -> (manager: SledManager)
        ensures
            manager@ == Map::<Seq<char>, ConnectionState>::empty(),
    {
        let manager = SledManager { connections: Vec::new() };
        assert(manager@ =~= Map::<Seq<char>, ConnectionState>::empty());
        manager
    }

    /// Takes the connections out of the registry, to work on them.
    fn take_connections(&mut self) -> (connections: Vec<Connection>)
        ensures
            connections@ == old(self).connections@,
            final(self).connections@.len() == 0,
    {
        let mut connections: Vec<Connection> = Vec::new();
        core::mem::swap(&mut self.connections, &mut connections);
        connections
    }

    /// Puts the connections back.
    fn put_connections(&mut self, connections: Vec<Connection>)
        requires
            ids_distinct(connections@),
        ensures
            final(self).connections@ == connections@,
    {
        let mut connections = connections;
        core::mem::swap(&mut self.connections, &mut connections);
    }

    /// Takes the connections out of the registry to work on the store of the
    /// connection `id`, and says where among them that connection is. Fails,
    /// and takes nothing out, if there is no such connection.
    fn check_out(&mut self, id: &str) -> (r: Result<(Vec<Connection>, usize), StoreError>)
        ensures
            match r {
                Ok(out) => {
                    &&& ids_distinct(out.0@)
                    &&& model(out.0@) == old(self)@
                    &&& out.1 < out.0.len()
                    &&& out.0[out.1 as int].info.id@ == id@
                    &&& old(self)@.contains_key(id@)
                    &&& old(self)@[id@].trees == db_trees(out.0[out.1 as int].db)
                },
                Err(e) => rejected(old(self)@, final(self)@, id@, e) && e is NotFound,
            },
    {
        proof {
            use_type_invariant(&*self);
        }
        match self.find(id) {
            Some(i) => {
                proof {
                    lemma_model_at(self.connections@, i as int);
                }
                let connections = self.take_connections();
                Ok((connections, i))
            },
            None => Err(StoreError::NotFound(id.to_owned())),
        }
    }

    /// Puts the connections back after work on the store of the one at `i`,
    /// which left every other connection, and what is known of that one, as
    /// it was in `before`.
    fn check_in(&mut self, connections: Vec<Connection>, Ghost(before): Ghost<Seq<Connection>>, i: usize)
        requires
            ids_distinct(before),
            i < before.len(),
            connections@.len() == before.len(),
            forall|j: int| 0 <= j < before.len() && j != i ==> connections@[j] == before[j],
            connections@[i as int].info == before[i as int].info,
        ensures
            in_connection(model(before), final(self)@, before[i as int].info.id@),
            final(self)@[before[i as int].info.id@].trees == db_trees(connections@[i as int].db),
    {
        proof {
            lemma_store_touched(before, connections@, i as int);
        }
        self.put_connections(connections);
    }

    /// The place of the connection `id` among the connections, if there is one.
    fn find(&self, id: &str) -> (r: Option<usize>)
        ensures
            match r {
                Some(i) => i < self.connections.len() && self.connections[i as int].info.id@
                    == id@,
                None => forall|j: int|
                    0 <= j < self.connections.len() ==> self.connections[j].info.id@ != id@,
            },
            r is Some <==> self@.contains_key(id@),
    {
        proof {
            use_type_invariant(self);
        }
        let wanted = id.to_owned();
        let mut i: usize = 0;
        while i < self.connections.len()
            invariant
                i <= self.connections.len(),
                wanted@ == id@,
                ids_distinct(self.connections@),
                forall|j: int| 0 <= j < i ==> self.connections[j].info.id@ != id@,
            decreases self.connections.len() - i,
        {
            if self.connections[i].info.id == wanted {
                proof {
                    lemma_model_at(self.connections@, i as int);
                }
                return Some(i);
            }
            i += 1;
        }
        proof {
            lemma_model_absent(self.connections@, id@);
        }
        None
    }

    /// Enters an opened store under the id of its record, in place of the
    /// connection that had that id, if there was one.
    pub fn register(&mut self, info: ConnectionInfo, db: sled::Db)
        ensures
            final(self)@ == old(self)@.insert(
                info.id@,
                ConnectionState {
                    name: info.name@,
                    path: info.path@,
                    created_at: info.created_at,
                    last_accessed: info.last_accessed,
                    trees: db_trees(db),
                },
            ),
    {
        proof {
            use_type_invariant(&*self);
        }
        let found = self.find(info.id.as_str());
        let next = Connection { info, db };
        let mut connections = self.take_connections();
        match found {
            Some(i) => {
                proof {
                    lemma_model_update(connections@, i as int, next);
                }
                connections.set(i, next);
            },
            None => {
                proof {
                    lemma_model_push(connections@, next);
                }
                connections.push(next);
            },
        }
        self.put_connections(connections);
    }

    /// Opens the store at `path`, creating it if there is none, and enters it
    /// under a fresh random id with the label `name`. Returns the id. Fails
    /// with `Open`, and leaves the registry as it was, if the store cannot be
    /// opened.
    pub fn add_connection(&mut self, name: String, path: String) -> (r: Result<String, StoreError>)
        ensures
            match r {
                Ok(id) => {
                    &&& id@.len() == 36
                    &&& final(self)@.dom() == old(self)@.dom().insert(id@)
                    &&& final(self)@.remove(id@) == old(self)@.remove(id@)
                    &&& final(self)@[id@].name == name@
                    &&& final(self)@[id@].path == path@
                    &&& final(self)@[id@].created_at == final(self)@[id@].last_accessed
                },
                Err(e) => e is Open && final(self)@ == old(self)@,
            },
    {
        let id = fresh_id();
        let moment = now();
        match open_store(path.as_str()) {
            Ok(db) => {
                let info = ConnectionInfo {
                    id: id.clone(),
                    name,
                    path,
                    created_at: moment,
                    last_accessed: moment,
                };
                self.register(info, db);
                assert(final(self)@.remove(id@) =~= old(self)@.remove(id@));
                assert(final(self)@.dom() =~= old(self)@.dom().insert(id@));
                Ok(id)
            },
            Err(e) => Err(StoreError::Open(e.to_string())),
        }
    }

    /// Closes the connection `id` and forgets it. An unknown id is no error.
    pub fn remove_connection(&mut self, id: &str) -> (r: Result<(), StoreError>)
        ensures
            r is Ok,
            final(self)@ == old(self)@.remove(id@),
    {
        proof {
            use_type_invariant(&*self);
        }
        match self.find(id) {
            Some(i) => {
                let mut connections = self.take_connections();
                proof {
                    lemma_model_remove(connections@, i as int);
                }
                let _closed = connections.remove(i);
                self.put_connections(connections);
            },
            None => {
                assert(old(self)@.remove(id@) =~= old(self)@);
            },
        }
        Ok(())
    }

    /// A copy of what is known of each connection, one record per connection.
    pub fn get_connections(&self) -> (infos: Vec<ConnectionInfo>)
        ensures
            lists_connections(infos@, self@),
    {
        proof {
            use_type_invariant(self);
        }
        let mut infos: Vec<ConnectionInfo> = Vec::new();
        let mut i: usize = 0;
        while i < self.connections.len()
            invariant
                i <= self.connections.len(),
                infos.len() == i,
                forall|j: int| 0 <= j < i ==> (#[trigger] infos[j]) == self.connections[j].info,
            decreases self.connections.len() - i,
        {
            infos.push(self.connections[i].info.copy());
            i += 1;
        }
        proof {
            assert forall|i: int| 0 <= i < infos.len() implies self@.contains_key(
                (#[trigger] infos[i]).id@,
            ) && infos[i].describes(infos[i].id@, self@[infos[i].id@]) by {
                lemma_model_at(self.connections@, i);
            }
            assert forall|id: Seq<char>| #[trigger] self@.contains_key(id) implies exists|i: int|
                0 <= i < infos.len() && (#[trigger] infos[i]).id@ == id by {
                let k = choose|k: int|
                    0 <= k < self.connections.len() && (#[trigger] self.connections@[k]).info.id@
                        == id;
                assert(infos[k].id@ == id);
            }
            lemma_model_len(self.connections@);
        }
        infos
    }

    /// What is known of the connection `id`, if there is one.
    pub fn get_connection(&self, id: &str) -> (r: Option<ConnectionInfo>)
        ensures
            r is Some <==> self@.contains_key(id@),
            r matches Some(info) ==> info.describes(id@, self@[id@]),
    {
        proof {
            use_type_invariant(self);
        }
        match self.find(id) {
            Some(i) => {
                proof {
                    lemma_model_at(self.connections@, i as int);
                }
                Some(self.connections[i].info.copy())
            },
            None => None,
        }
    }

    /// The store of the connection `id`, to read from. Fails with `NotFound`,
    /// which carries the id, if there is no such connection. What the registry
    /// says of a store holds as long as every write to it goes through the
    /// registry.
    pub fn get_database(&self, id: &str) -> (r: Result<&sled::Db, StoreError>)
        ensures
            match r {
                Ok(db) => self@.contains_key(id@) && db_trees(*db) == self@[id@].trees,
                Err(e) => !self@.contains_key(id@) && e is NotFound && e.detail() == id@,
            },
    {
        proof {
            use_type_invariant(self);
        }
        match self.find(id) {
            Some(i) => {
                proof {
                    lemma_model_at(self.connections@, i as int);
                }
                Ok(&self.connections[i].db)
            },
            None => Err(StoreError::NotFound(id.to_owned())),
        }
    }
    /// Stamps the connection `id` with the present moment as the time of its
    /// last use. An unknown id is no error.
    pub fn update_last_accessed(&mut self, id: &str) -> (r: Result<(), StoreError>)
        ensures
            r is Ok,
            final(self)@ == stamped(old(self)@, id@, final(self)@[id@].last_accessed),
    {
        if self.find(id).is_some() {
            let moment = now();
            self.stamp_last_accessed(id, moment);
        }
        Ok(())
    }

    /// The names of the trees of the connection `id`, each read as text,
    /// malformed UTF-8 replaced: one name per tree, in no particular order.
    pub fn get_trees(&self, connection_id: &str) -> (r: Result<Vec<String>, StoreError>)
        ensures
            match r {
                Ok(trees) => self@.contains_key(connection_id@) && names_trees(
                    trees@,
                    self@[connection_id@].trees,
                ),
                Err(e) => rejected(self@, self@, connection_id@, e) && e is NotFound,
            },
    {
        let db = match self.get_database(connection_id) {
            Ok(db) => db,
            Err(e) => {
                return Err(e);
            },
        };
        let names = tree_names(db);
        let mut trees: Vec<String> = Vec::new();
        let mut i: usize = 0;
        while i < names.len()
            invariant
                i <= names.len(),
                trees.len() == i,
                forall|j: int| 0 <= j < i ==> (#[trigger] trees[j])@ == shown(names[j]@),
            decreases names.len() - i,
        {
            trees.push(show(names[i].as_slice()));
            i += 1;
        }
        proof {
            let witness = names.deep_view();
            assert(witness.len() == trees.len());
            assert forall|i: int| 0 <= i < witness.len() implies (#[trigger] trees[i])@
                == shown(witness[i]) by {
                assert(witness[i] == names[i]@);
            }
        }
        Ok(trees)
    }

    /// Opens the tree `tree_name` of the connection `connection_id`, and so
    /// creates it if the store has none of that name.
    pub fn open_tree(&mut self, connection_id: &str, tree_name: &str) -> (r: Result<(), StoreError>)
        ensures
            match r {
                Ok(_) => {
                    &&& in_connection(old(self)@, final(self)@, connection_id@)
                    &&& final(self)@[connection_id@].trees == with_tree(
                        old(self)@[connection_id@].trees,
                        encode_utf8(tree_name@),
                    )
                },
                Err(e) => rejected(old(self)@, final(self)@, connection_id@, e),
            },
    {
        self.create_tree(connection_id, tree_name.as_bytes())
    }

    /// Opens the tree `tree` of the connection `id`, and so creates it if the
    /// store has none of that name.
    pub fn create_tree(&mut self, id: &str, tree: &[u8]) -> (r: Result<(), StoreError>)
        ensures
            match r {
                Ok(_) => in_connection(old(self)@, final(self)@, id@) && final(self)@[id@].trees
                    == with_tree(old(self)@[id@].trees, tree@),
                Err(e) => rejected(old(self)@, final(self)@, id@, e),
            },
    {
        let (mut connections, i) = match self.check_out(id) {
            Ok(out) => out,
            Err(e) => {
                return Err(e);
            },
        };
        let ghost before = connections@;
        let r = query::open(&mut connections[i].db, tree);
        self.check_in(connections, Ghost(before), i);
        r
    }

    /// Drops the tree `tree` of the connection `id` with all that it holds. A
    /// store without such a tree is left as it is.
    pub fn remove_tree(&mut self, id: &str, tree: &[u8]) -> (r: Result<(), StoreError>)
        ensures
            match r {
                Ok(_) => in_connection(old(self)@, final(self)@, id@) && final(self)@[id@].trees
                    == old(self)@[id@].trees.remove(tree@),
                Err(e) => rejected(old(self)@, final(self)@, id@, e),
            },
    {
        let (mut connections, i) = match self.check_out(id) {
            Ok(out) => out,
            Err(e) => {
                return Err(e);
            },
        };
        let ghost before = connections@;
        let r = query::discard(&mut connections[i].db, tree);
        self.check_in(connections, Ghost(before), i);
        r
    }

    /// A snapshot of the store of the connection `id`: the size of its files,
    /// the number of entries of its default tree, and the number of its trees.
    pub fn get_stats(&self, connection_id: &str) -> (r: Result<DbStats, StoreError>)
        ensures
            match r {
                Ok(stats) => self@.contains_key(connection_id@) && counts(
                    stats,
                    self@[connection_id@].trees,
                ),
                Err(e) => rejected(self@, self@, connection_id@, e),
            },
    {
        let db = match self.get_database(connection_id) {
            Ok(db) => db,
            Err(e) => {
                return Err(e);
            },
        };
        let size_on_disk = match size_on_disk(db) {
            Ok(size) => size,
            Err(e) => {
                proof {
                    let state = self@[connection_id@];
                    assert(self@ =~= self@.insert(
                        connection_id@,
                        ConnectionState { trees: state.trees, ..state },
                    ));
                }
                return Err(StoreError::Tree(e.to_string()));
            },
        };
        let names = tree_names(db);
        proof {
            names.deep_view().unique_seq_to_set();
            vstd::seq_lib::seq_to_set_is_finite(names.deep_view());
        }
        let wanted = default_tree_name();
        let key_count = if holds_name(&names, wanted) {
            match query::count(db, wanted) {
                Ok(count) => count,
                Err(e) => {
                    proof {
                        let state = self@[connection_id@];
                        assert(self@ =~= self@.insert(
                            connection_id@,
                            ConnectionState { trees: state.trees, ..state },
                        ));
                    }
                    return Err(e);
                },
            }
        } else {
            0
        };
        let tree_count = names.len();
        let last_modified = now();
        Ok(DbStats { size_on_disk, key_count, tree_count, last_modified })
    }

    /// Infers the display hint of a value from its bytes.
    pub fn detect_value_type(value: &[u8]) -> (t: ValueType)
        ensures
            t == classify(value@),
    {
        detect(value)
    }

    /// Looks `key` up in the tree `tree` of the connection `id`.
    pub fn get(&mut self, id: &str, tree: &[u8], key: &[u8]) -> (r: Result<
        Option<KeyValue>,
        StoreError,
    >)
        ensures
            match r {
                Ok(found) => in_connection(old(self)@, final(self)@, id@) && got(
                    old(self)@[id@].trees,
                    final(self)@[id@].trees,
                    tree@,
                    key@,
                    found,
                ),
                Err(e) => rejected(old(self)@, final(self)@, id@, e),
            },
    {
        let (mut connections, i) = match self.check_out(id) {
            Ok(out) => out,
            Err(e) => {
                return Err(e);
            },
        };
        let ghost before = connections@;
        let r = query::get(&mut connections[i].db, tree, key);
        self.check_in(connections, Ghost(before), i);
        r
    }

    /// Puts `value` under `key` in the tree `tree` of the connection `id`.
    /// Returns the value that was there before.
    pub fn set(&mut self, id: &str, tree: &[u8], key: &[u8], value: &[u8]) -> (r: Result<
        Option<Vec<u8>>,
        StoreError,
    >)
        ensures
            match r {
                Ok(previous) => in_connection(old(self)@, final(self)@, id@) && was_set(
                    old(self)@[id@].trees,
                    final(self)@[id@].trees,
                    tree@,
                    key@,
                    value@,
                    previous,
                ),
                Err(e) => rejected(old(self)@, final(self)@, id@, e),
            },
    {
        let (mut connections, i) = match self.check_out(id) {
            Ok(out) => out,
            Err(e) => {
                return Err(e);
            },
        };
        let ghost before = connections@;
        let r = query::set(&mut connections[i].db, tree, key, value);
        self.check_in(connections, Ghost(before), i);
        r
    }

    /// Takes `key` out of the tree `tree` of the connection `id`. Returns the
    /// value that was there.
    pub fn remove(&mut self, id: &str, tree: &[u8], key: &[u8]) -> (r: Result<
        Option<Vec<u8>>,
        StoreError,
    >)
        ensures
            match r {
                Ok(removed) => in_connection(old(self)@, final(self)@, id@) && was_removed(
                    old(self)@[id@].trees,
                    final(self)@[id@].trees,
                    tree@,
                    key@,
                    removed,
                ),
                Err(e) => rejected(old(self)@, final(self)@, id@, e),
            },
    {
        let (mut connections, i) = match self.check_out(id) {
            Ok(out) => out,
            Err(e) => {
                return Err(e);
            },
        };
        let ghost before = connections@;
        let r = query::remove(&mut connections[i].db, tree, key);
        self.check_in(connections, Ghost(before), i);
        r
    }

    /// Runs a range query on the tree `tree` of the connection `id`.
    pub fn range_query(&mut self, id: &str, tree: &[u8], query: &RangeQuery) -> (r: Result<
        QueryResult,
        StoreError,
    >)
        ensures
            match r {
                Ok(result) => in_connection(old(self)@, final(self)@, id@) && ranged(
                    old(self)@[id@].trees,
                    final(self)@[id@].trees,
                    tree@,
                    *query,
                    result,
                ),
                Err(e) => rejected(old(self)@, final(self)@, id@, e),
            },
    {
        let (mut connections, i) = match self.check_out(id) {
            Ok(out) => out,
            Err(e) => {
                return Err(e);
            },
        };
        let ghost before = connections@;
        let r = query::range(&mut connections[i].db, tree, query);
        self.check_in(connections, Ghost(before), i);
        r
    }

    /// Runs a prefix query on the tree `tree` of the connection `id`.
    pub fn prefix_query(&mut self, id: &str, tree: &[u8], query: &PrefixQuery) -> (r: Result<
        QueryResult,
        StoreError,
    >)
        ensures
            match r {
                Ok(result) => in_connection(old(self)@, final(self)@, id@) && prefixed(
                    old(self)@[id@].trees,
                    final(self)@[id@].trees,
                    tree@,
                    *query,
                    result,
                ),
                Err(e) => rejected(old(self)@, final(self)@, id@, e),
            },
    {
        let (mut connections, i) = match self.check_out(id) {
            Ok(out) => out,
            Err(e) => {
                return Err(e);
            },
        };
        let ghost before = connections@;
        let r = query::prefix(&mut connections[i].db, tree, query);
        self.check_in(connections, Ghost(before), i);
        r
    }

    /// Reads the whole tree `tree` of the connection `id`: every entry, in
    /// ascending order of key.
    pub fn read_all(&mut self, id: &str, tree: &[u8]) -> (r: Result<Vec<KeyValue>, StoreError>)
        ensures
            match r {
                Ok(entries) => in_connection(old(self)@, final(self)@, id@) && was_read(
                    old(self)@[id@].trees,
                    final(self)@[id@].trees,
                    tree@,
                    entries,
                ),
                Err(e) => rejected(old(self)@, final(self)@, id@, e),
            },
    {
        let (mut connections, i) = match self.check_out(id) {
            Ok(out) => out,
            Err(e) => {
                return Err(e);
            },
        };
        let ghost before = connections@;
        let r = query::read_all(&mut connections[i].db, tree);
        self.check_in(connections, Ghost(before), i);
        r
    }

    /// Inserts the key and the value of each entry into the tree `tree` of the
    /// connection `id`, one after the other. Returns how many were written.
    pub fn import_data(&mut self, id: &str, tree: &[u8], entries: &Vec<KeyValue>) -> (r: Result<
        usize,
        StoreError,
    >)
        ensures
            match r {
                Ok(count) => in_connection(old(self)@, final(self)@, id@) && was_written(
                    old(self)@[id@].trees,
                    final(self)@[id@].trees,
                    tree@,
                    pairs_of(entries@),
                    count,
                ),
                Err(e) => rejected(old(self)@, final(self)@, id@, e),
            },
    {
        let pairs = query::pairs_from(entries);
        self.write_all(id, tree, &pairs)
    }

    /// Inserts the pairs into the tree `tree` of the connection `id`, one
    /// after the other. Returns how many were written.
    pub fn write_all(&mut self, id: &str, tree: &[u8], pairs: &Vec<(Vec<u8>, Vec<u8>)>) -> (r:
        Result<usize, StoreError>)
        ensures
            match r {
                Ok(count) => in_connection(old(self)@, final(self)@, id@) && was_written(
                    old(self)@[id@].trees,
                    final(self)@[id@].trees,
                    tree@,
                    query::pairs_view(pairs@),
                    count,
                ),
                Err(e) => rejected(old(self)@, final(self)@, id@, e),
            },
    {
        let (mut connections, i) = match self.check_out(id) {
            Ok(out) => out,
            Err(e) => {
                return Err(e);
            },
        };
        let ghost before = connections@;
        let r = query::write_all(&mut connections[i].db, tree, pairs);
        self.check_in(connections, Ghost(before), i);
        r
    }
}

/// A registry without connections.
pub fn init_sled_manager() -> (manager: SledManager)
    ensures
        manager@ == Map::<Seq<char>, ConnectionState>::empty(),
{
    SledManager::new()
}

proof fn lemma_model_len(connections: Seq<Connection>)
    requires
        ids_distinct(connections),
    ensures
        model(connections).dom().finite(),
        model(connections).len() == connections.len(),
    decreases connections.len(),
{
    if connections.len() == 0 {
        assert(model(connections).dom() =~= Set::<Seq<char>>::empty());
    } else {
        let i = connections.len() - 1;
        lemma_model_remove(connections, i);
        lemma_model_len(connections.remove(i));
        lemma_model_at(connections, i);
        let rest = model(connections.remove(i));
        assert(model(connections).dom() =~= rest.dom().insert(connections[i].info.id@));
    }
}

/// The connections after the connection `id` was stamped with `moment` as
/// the time of its last use: that connection with the new time and all else
/// as it was, or, without such a connection, nothing changed.
pub open spec fn stamped(
    state: Map<Seq<char>, ConnectionState>,
    id: Seq<char>,
    moment: Timestamp,
) -> Map<Seq<char>, ConnectionState> {
    if state.contains_key(id) {
        state.insert(id, ConnectionState { last_accessed: moment, ..state[id] })
    } else {
        state
    }
}

impl SledManager {
    /// Stamps the connection `id` with `moment` as the time of its last use,
    /// and leaves everything else as it is. Without such a connection nothing
    /// changes.
    pub fn stamp_last_accessed(&mut self, id: &str, moment: Timestamp)
        ensures
            final(self)@ == stamped(old(self)@, id@, moment),
    {
        proof {
            use_type_invariant(&*self);
        }
        if let Some(i) = self.find(id) {
            let mut connections = self.take_connections();
            let ghost before = connections@;
            let Connection { info, db } = connections.remove(i);
            let next = Connection {
                info: ConnectionInfo {
                    id: info.id,
                    name: info.name,
                    path: info.path,
                    created_at: info.created_at,
                    last_accessed: moment,
                },
                db,
            };
            connections.insert(i, next);
            proof {
                assert(connections@ =~= before.update(i as int, next));
                lemma_model_update(before, i as int, next);
                lemma_model_at(before, i as int);
            }
            self.put_connections(connections);
        }
    }
}

} // verus!
