//! The storage engine behind a connection: a `sled::Db` and the trees in it,
//! as far as this library reads and writes them.
//!
//! A store is modelled as a map from tree names to trees, and a tree as a map
//! from keys to values. The model holds for a store that this library alone
//! writes to: every function here that changes what the store holds takes the
//! store by `&mut`, and a cursor keeps the store borrowed while it lives.

use crate::keys::{lists, prefix_scope, range_scope};
use std::ops::Bound;
use vstd::prelude::*;

verus! {

#[verifier::external_type_specification]
#[verifier::external_body]
pub struct ExDb(sled::Db);

#[verifier::external_type_specification]
#[verifier::external_body]
pub struct ExSledError(sled::Error);

/// The engine's own byte string. No contract speaks of it: Verus asks for
/// the declaration with `sled::Iter`, whose iterator hands such strings out.
#[verifier::external_type_specification]
#[verifier::external_body]
pub struct ExIVec(sled::IVec);

#[verifier::external_type_specification]
#[verifier::external_body]
pub struct ExIter(sled::Iter);

/// A tree: its values by key.
pub type Tree = Map<Seq<u8>, Seq<u8>>;

/// The trees of a store: what each holds, by name.
pub type Trees = Map<Seq<u8>, Tree>;

/// The trees that a store holds.
pub uninterp spec fn db_trees(db: sled::Db) -> Map<Seq<u8>, Map<Seq<u8>, Seq<u8>>>;

/// The entries that a cursor has yet to hand out, in ascending order of key.
pub uninterp spec fn cursor_pending(cursor: sled::Iter) -> Seq<(Seq<u8>, Seq<u8>)>;

/// The trees after the tree `name` was opened: as before, with an empty tree
/// under `name` if there was none.
pub open spec fn with_tree(trees: Trees, name: Seq<u8>) -> Trees {
    if trees.contains_key(name) {
        trees
    } else {
        trees.insert(name, Map::empty())
    }
}

/// The value under `key`, if the tree has one.
pub open spec fn lookup(tree: Tree, key: Seq<u8>) -> Option<Seq<u8>> {
    if tree.contains_key(key) {
        Some(tree[key])
    } else {
        None
    }
}

/// An optional byte string, as a sequence.
pub open spec fn bytes_view(bytes: Option<Vec<u8>>) -> Option<Seq<u8>> {
    match bytes {
        Some(b) => Some(b@),
        None => None,
    }
}

/// Calls `sled::open`, which opens the store at `path` and creates it if there
/// is none. Nothing is claimed of the store that comes back: it may hold
/// anything that was written to that path before.
#[verifier::external_body]
pub(crate) fn open_store(path: &str) -> (r: Result<sled::Db, sled::Error>) {
    sled::open(path)
}

/// Calls `Db::open_tree` and lets the handle go. The contract claims that on
/// success the store has a tree of that name: the one it had, or else a new and
/// empty one, with every other tree as it was.
#[verifier::external_body]
pub(crate) fn ensure_tree(db: &mut sled::Db, name: &[u8]) -> (r: Result<(), sled::Error>)
    ensures
        r is Ok ==> db_trees(*final(db)) == with_tree(db_trees(*old(db)), name@),
{
    db.open_tree(name).map(|_| ())
}

/// Calls `Tree::get` on the tree `tree`, reached by `Db::open_tree`. The
/// contract claims that on success the result is the value under `key`, or
/// `None` if the tree has no such key.
#[verifier::external_body]
pub(crate) fn tree_get(db: &sled::Db, tree: &[u8], key: &[u8]) -> (r: Result<
    Option<Vec<u8>>,
    sled::Error,
>)
    requires
        db_trees(*db).contains_key(tree@),
    ensures
        r matches Ok(found) ==> bytes_view(found) == lookup(db_trees(*db)[tree@], key@),
{
    Ok(db.open_tree(tree)?.get(key)?.map(|v| v.to_vec()))
}

/// Calls `Tree::insert` on the tree `tree`, reached by `Db::open_tree`. The
/// contract claims that on success the tree holds `value` under `key` and is
/// otherwise as before, as is every other tree, and that the result is the
/// value that was under `key` before, or `None` if there was none.
#[verifier::external_body]
pub(crate) fn tree_insert(db: &mut sled::Db, tree: &[u8], key: &[u8], value: &[u8]) -> (r:
    Result<Option<Vec<u8>>, sled::Error>)
    requires
        db_trees(*old(db)).contains_key(tree@),
    ensures
        r matches Ok(previous) ==> {
            &&& bytes_view(previous) == lookup(db_trees(*old(db))[tree@], key@)
            &&& db_trees(*final(db)) == db_trees(*old(db)).insert(
                tree@,
                db_trees(*old(db))[tree@].insert(key@, value@),
            )
        },
{
    Ok(db.open_tree(tree)?.insert(key, value)?.map(|v| v.to_vec()))
}

/// Calls `Tree::remove` on the tree `tree`, reached by `Db::open_tree`. The
/// contract claims that on success the tree has no `key` and is otherwise as
/// before, as is every other tree, and that the result is the value that was
/// under `key`, or `None` if there was none.
#[verifier::external_body]
pub(crate) fn tree_remove(db: &mut sled::Db, tree: &[u8], key: &[u8]) -> (r: Result<
    Option<Vec<u8>>,
    sled::Error,
>)
    requires
        db_trees(*old(db)).contains_key(tree@),
    ensures
        r matches Ok(removed) ==> {
            &&& bytes_view(removed) == lookup(db_trees(*old(db))[tree@], key@)
            &&& db_trees(*final(db)) == db_trees(*old(db)).insert(
                tree@,
                db_trees(*old(db))[tree@].remove(key@),
            )
        },
{
    Ok(db.open_tree(tree)?.remove(key)?.map(|v| v.to_vec()))
}

/// Calls `Db::tree_names`. The contract claims that the result holds the name
/// of each tree of the store once, and nothing else. Their order is left open.
#[verifier::external_body]
pub(crate) fn tree_names(db: &sled::Db) -> (names: Vec<Vec<u8>>)
    ensures
        names.deep_view().no_duplicates(),
        names.deep_view().to_set() == db_trees(*db).dom(),
{
    db.tree_names().into_iter().map(|name| name.to_vec()).collect()
}

/// Calls `Db::drop_tree`. The contract claims that on success the store has no
/// tree of that name and every other tree is as before, and that the result
/// says whether there was such a tree.
#[verifier::external_body]
pub(crate) fn drop_tree(db: &mut sled::Db, name: &[u8]) -> (r: Result<bool, sled::Error>)
    ensures
        r matches Ok(existed) ==> {
            &&& existed == db_trees(*old(db)).contains_key(name@)
            &&& db_trees(*final(db)) == db_trees(*old(db)).remove(name@)
        },
{
    db.drop_tree(name)
}

/// Calls `Db::size_on_disk`. Nothing is claimed of the number: it depends on
/// what the engine has written out so far.
#[verifier::external_body]
pub(crate) fn size_on_disk(db: &sled::Db) -> (r: Result<u64, sled::Error>) {
    db.size_on_disk()
}

/// Calls `Tree::range` on the tree `tree`, reached by `Db::open_tree`, with
/// `from` as the inclusive lower bound and `to` as the exclusive upper bound,
/// each open where it is `None`. The contract claims that on success the
/// cursor has the tree's entries with a key in that range to hand out.
#[verifier::external_body]
fn range_iter(db: &sled::Db, tree: &[u8], from: &Option<Vec<u8>>, to: &Option<Vec<u8>>) -> (r:
    Result<sled::Iter, sled::Error>)
    requires
        db_trees(*db).contains_key(tree@),
    ensures
        r matches Ok(cursor) ==> lists(
            cursor_pending(cursor),
            db_trees(*db)[tree@],
            range_scope(bytes_view(*from), bytes_view(*to)),
        ),
{
    let lo = from.as_deref().map_or(Bound::Unbounded, Bound::Included);
    let hi = to.as_deref().map_or(Bound::Unbounded, Bound::Excluded);
    Ok(db.open_tree(tree)?.range::<&[u8], _>((lo, hi)))
}

/// Calls `Tree::scan_prefix` on the tree `tree`, reached by `Db::open_tree`.
/// The contract claims that on success the cursor has the tree's entries
/// whose key starts with `prefix` to hand out.
#[verifier::external_body]
fn prefix_iter(db: &sled::Db, tree: &[u8], prefix: &[u8]) -> (r: Result<sled::Iter, sled::Error>)
    requires
        db_trees(*db).contains_key(tree@),
    ensures
        r matches Ok(cursor) ==> lists(
            cursor_pending(cursor),
            db_trees(*db)[tree@],
            prefix_scope(prefix@),
        ),
{
    Ok(db.open_tree(tree)?.scan_prefix(prefix))
}

/// Calls `Iter::next`. The contract claims that an entry that comes back is
/// the first of those pending and leaves the rest pending, and that `None`
/// comes back only when none is pending. Nothing is claimed after a failure.
#[verifier::external_body]
fn iter_next(cursor: &mut sled::Iter) -> (r: Option<Result<(Vec<u8>, Vec<u8>), sled::Error>>)
    ensures
        match r {
            Some(Ok(entry)) => {
                &&& cursor_pending(*old(cursor)).len() > 0
                &&& (entry.0@, entry.1@) == cursor_pending(*old(cursor)).first()
                &&& cursor_pending(*final(cursor)) == cursor_pending(*old(cursor)).drop_first()
            },
            Some(Err(_)) => true,
            None => cursor_pending(*old(cursor)).len() == 0 && cursor_pending(*final(cursor))
                == cursor_pending(*old(cursor)),
        },
{
    cursor.next().map(|item| item.map(|(k, v)| (k.to_vec(), v.to_vec())))
}

/// Calls `Iter::next_back`. The contract claims that an entry that comes back
/// is the last of those pending and leaves the rest pending, and that `None`
/// comes back only when none is pending. Nothing is claimed after a failure.
#[verifier::external_body]
fn iter_next_back(cursor: &mut sled::Iter) -> (r: Option<Result<(Vec<u8>, Vec<u8>), sled::Error>>)
    ensures
        match r {
            Some(Ok(entry)) => {
                &&& cursor_pending(*old(cursor)).len() > 0
                &&& (entry.0@, entry.1@) == cursor_pending(*old(cursor)).last()
                &&& cursor_pending(*final(cursor)) == cursor_pending(*old(cursor)).drop_last()
            },
            Some(Err(_)) => true,
            None => cursor_pending(*old(cursor)).len() == 0 && cursor_pending(*final(cursor))
                == cursor_pending(*old(cursor)),
        },
{
    cursor.next_back().map(|item| item.map(|(k, v)| (k.to_vec(), v.to_vec())))
}

/// A walk over part of a tree, from either end. It holds the store borrowed
/// for as long as it lives, so that nothing writes to the tree under it.
pub struct Cursor<'a> {
    inner: sled::Iter,
    #[allow(dead_code)]
    source: &'a sled::Db,
}

impl<'a> Cursor<'a> {
    /// The entries that the cursor has yet to hand out, in ascending order of key.
    pub closed spec fn pending(&self) -> Seq<(Seq<u8>, Seq<u8>)> {
        cursor_pending(self.inner)
    }

    /// A cursor over the entries of the tree `tree` with a key in `[from, to)`.
    pub(crate) fn over_range(
        db: &'a sled::Db,
        tree: &[u8],
        from: &Option<Vec<u8>>,
        to: &Option<Vec<u8>>,
    ) -> (r: Result<Cursor<'a>, sled::Error>)
        requires
            db_trees(*db).contains_key(tree@),
        ensures
            r matches Ok(cursor) ==> lists(
                cursor.pending(),
                db_trees(*db)[tree@],
                range_scope(bytes_view(*from), bytes_view(*to)),
            ),
    {
        match range_iter(db, tree, from, to) {
            Ok(inner) => Ok(Cursor { inner, source: db }),
            Err(e) => Err(e),
        }
    }

    /// A cursor over the entries of the tree `tree` whose key starts with `prefix`.
    pub(crate) fn over_prefix(db: &'a sled::Db, tree: &[u8], prefix: &[u8]) -> (r: Result<
        Cursor<'a>,
        sled::Error,
    >)
        requires
            db_trees(*db).contains_key(tree@),
        ensures
            r matches Ok(cursor) ==> lists(
                cursor.pending(),
                db_trees(*db)[tree@],
                prefix_scope(prefix@),
            ),
    {
        match prefix_iter(db, tree, prefix) {
            Ok(inner) => Ok(Cursor { inner, source: db }),
            Err(e) => Err(e),
        }
    }

    /// Hands out the pending entry with the least key (`backward` false) or
    /// with the greatest key (`backward` true).
    pub(crate) fn step(&mut self, backward: bool) -> (r: Option<
        Result<(Vec<u8>, Vec<u8>), sled::Error>,
    >)
        ensures
            match r {
                Some(Ok(entry)) => {
                    &&& old(self).pending().len() > 0
                    &&& (entry.0@, entry.1@) == if backward {
                        old(self).pending().last()
                    } else {
                        old(self).pending().first()
                    }
                    &&& final(self).pending() == if backward {
                        old(self).pending().drop_last()
                    } else {
                        old(self).pending().drop_first()
                    }
                },
                Some(Err(_)) => true,
                None => old(self).pending().len() == 0 && final(self).pending() == old(
                    self,
                ).pending(),
            },
    {
        if backward {
            iter_next_back(&mut self.inner)
        } else {
            iter_next(&mut self.inner)
        }
    }
}

} // verus!
