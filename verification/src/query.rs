//! Reads, writes and ordered walks on one tree of a store.

use crate::error::StoreError;
use crate::keys::{
    lemma_lists_is_listing, lemma_whole_listing_counts, listing, lists, prefix_scope, range_scope,
};
use crate::sled_manager::{entries_view, typed, KeyValue, PrefixQuery, QueryResult, RangeQuery};
use crate::store::{
    bytes_view, db_trees, drop_tree, ensure_tree, lookup, tree_get, tree_insert, tree_remove,
    with_tree, Cursor, Tree, Trees,
};
use crate::value_type::detect;
use vstd::prelude::*;
use vstd::slice::slice_to_vec;

verus! {

/// The page of a query over the entries `source`, which are in ascending order
/// of key: all of them or the first `limit`, counted from the greatest key
/// down if `reverse`.
pub open spec fn page(source: Seq<(Seq<u8>, Seq<u8>)>, limit: Option<usize>, reverse: bool) -> Seq<
    (Seq<u8>, Seq<u8>),
> {
    let ordered = if reverse {
        source.reverse()
    } else {
        source
    };
    match limit {
        Some(n) => if n < ordered.len() {
            ordered.take(n as int)
        } else {
            ordered
        },
        None => ordered,
    }
}

/// The limit stops the query before the entries `source` are used up.
pub open spec fn cut_short(source: Seq<(Seq<u8>, Seq<u8>)>, limit: Option<usize>) -> bool {
    limit matches Some(n) && n < source.len()
}

/// Every key, as a predicate.
pub open spec fn whole_scope() -> spec_fn(Seq<u8>) -> bool {
    range_scope(None, None)
}

/// The tree after the pairs were inserted one after the other.
pub open spec fn inserted(tree: Tree, pairs: Seq<(Seq<u8>, Seq<u8>)>) -> Tree
    decreases pairs.len(),
{
    if pairs.len() == 0 {
        tree
    } else {
        inserted(tree, pairs.drop_last()).insert(pairs.last().0, pairs.last().1)
    }
}

/// The key and the value of each entry.
pub open spec fn pairs_of(entries: Seq<KeyValue>) -> Seq<(Seq<u8>, Seq<u8>)> {
    entries.map_values(|e: KeyValue| (e.key@, e.value@))
}

/// The key and the value of each pair, as sequences.
pub open spec fn pairs_view(pairs: Seq<(Vec<u8>, Vec<u8>)>) -> Seq<(Seq<u8>, Seq<u8>)> {
    pairs.map_values(|p: (Vec<u8>, Vec<u8>)| (p.0@, p.1@))
}

/// What a page holds and whether the limit cut it short, for a query that
/// ran on the trees `trees`, in which `tree` exists.
pub open spec fn is_page_of(
    result: QueryResult,
    trees: Trees,
    tree: Seq<u8>,
    scope: spec_fn(Seq<u8>) -> bool,
    limit: Option<usize>,
    reverse: bool,
) -> bool {
    let source = listing(trees[tree], scope);
    &&& lists(source, trees[tree], scope)
    &&& entries_view(result.entries@) == page(source, limit, reverse).map_values(
        |p: (Seq<u8>, Seq<u8>)| typed(p),
    )
    &&& result.has_more == cut_short(source, limit)
    &&& trees[tree].dom().finite()
    &&& result.total_count == trees[tree].len()
}

/// What `get` does: the tree exists afterwards, nothing else changes, and
/// `found` is the entry under `key`, with the hint for its value.
pub open spec fn got(before: Trees, after: Trees, tree: Seq<u8>, key: Seq<u8>, found: Option<KeyValue>) -> bool {
    let trees = with_tree(before, tree);
    &&& after == trees
    &&& match found {
        Some(entry) => trees[tree].contains_key(key) && entry@ == typed((key, trees[tree][key])),
        None => !trees[tree].contains_key(key),
    }
}

/// What `set` does: the tree exists afterwards and holds `value` under `key`,
/// nothing else changes, and `previous` is the value that was there.
pub open spec fn was_set(
    before: Trees,
    after: Trees,
    tree: Seq<u8>,
    key: Seq<u8>,
    value: Seq<u8>,
    previous: Option<Vec<u8>>,
) -> bool {
    let trees = with_tree(before, tree);
    &&& after == trees.insert(tree, trees[tree].insert(key, value))
    &&& bytes_view(previous) == lookup(trees[tree], key)
}

/// What `remove` does: the tree exists afterwards and has no `key`, nothing
/// else changes, and `removed` is the value that was there.
pub open spec fn was_removed(
    before: Trees,
    after: Trees,
    tree: Seq<u8>,
    key: Seq<u8>,
    removed: Option<Vec<u8>>,
) -> bool {
    let trees = with_tree(before, tree);
    &&& after == trees.insert(tree, trees[tree].remove(key))
    &&& bytes_view(removed) == lookup(trees[tree], key)
}

/// What a range query does: the tree exists afterwards, nothing else changes,
/// and the result is the page of the entries with a key in `[from, to)`.
pub open spec fn ranged(before: Trees, after: Trees, tree: Seq<u8>, query: RangeQuery, result: QueryResult) -> bool {
    &&& after == with_tree(before, tree)
    &&& is_page_of(
        result,
        after,
        tree,
        range_scope(bytes_view(query.from), bytes_view(query.to)),
        query.limit,
        query.reverse,
    )
}

/// What a prefix query does: the tree exists afterwards, nothing else
/// changes, and the result is the page of the entries whose key starts with
/// the prefix, in ascending order.
pub open spec fn prefixed(
    before: Trees,
    after: Trees,
    tree: Seq<u8>,
    query: PrefixQuery,
    result: QueryResult,
) -> bool {
    &&& after == with_tree(before, tree)
    &&& is_page_of(result, after, tree, prefix_scope(query.prefix@), query.limit, false)
}

/// What reading a whole tree does: the tree exists afterwards, nothing else
/// changes, and `entries` are all its entries in ascending order of key.
pub open spec fn was_read(before: Trees, after: Trees, tree: Seq<u8>, entries: Vec<KeyValue>) -> bool {
    &&& after == with_tree(before, tree)
    &&& lists(listing(after[tree], whole_scope()), after[tree], whole_scope())
    &&& entries_view(entries@) == listing(after[tree], whole_scope()).map_values(
        |p: (Seq<u8>, Seq<u8>)| typed(p),
    )
}

/// What writing pairs does: the tree exists afterwards and holds the pairs,
/// a later one over an earlier one with the same key, nothing else changes,
/// and `count` is the number of pairs.
pub open spec fn was_written(
    before: Trees,
    after: Trees,
    tree: Seq<u8>,
    pairs: Seq<(Seq<u8>, Seq<u8>)>,
    count: usize,
) -> bool {
    &&& after == written(before, tree, pairs)
    &&& count == pairs.len()
}

/// The trees after the pairs were written to the tree `tree`: the tree
/// exists and holds the pairs, a later one over an earlier one with the same
/// key, and nothing else has changed.
pub open spec fn written(before: Trees, tree: Seq<u8>, pairs: Seq<(Seq<u8>, Seq<u8>)>) -> Trees {
    let trees = with_tree(before, tree);
    trees.insert(tree, inserted(trees[tree], pairs))
}

/// Walks the cursor from its first pending entry, or from its last if
/// `backward`, and gathers the entries up to `limit`. The flag says whether
/// the limit stopped the walk while an entry was still pending.
pub(crate) fn gather(cursor: &mut Cursor, limit: Option<usize>, backward: bool) -> (r: Result<
    (Vec<KeyValue>, bool),
    sled::Error,
>)
    ensures
        r matches Ok(out) ==> {
            &&& entries_view(out.0@) == page(old(cursor).pending(), limit, backward).map_values(
                |p: (Seq<u8>, Seq<u8>)| typed(p),
            )
            &&& out.1 == cut_short(old(cursor).pending(), limit)
            &&& final(cursor).pending() == left_pending(old(cursor).pending(), limit, backward)
        },
{
    let ghost source = cursor.pending();
    let ghost ordered = if backward {
        source.reverse()
    } else {
        source
    };
    let ghost mut taken: Seq<(Seq<u8>, Seq<u8>)> = Seq::empty();
    let mut entries: Vec<KeyValue> = Vec::new();
    let mut has_more = false;
    loop
        invariant_except_break
            !has_more,
            taken.len() == entries.len(),
            limit matches Some(n) ==> entries.len() <= n,
            ordered.len() == source.len(),
            taken.len() + cursor.pending().len() == source.len(),
            forall|i: int| 0 <= i < taken.len() ==> taken[i] == #[trigger] ordered[i],
            !backward ==> cursor.pending() == source.skip(taken.len() as int),
            backward ==> cursor.pending() == source.take(source.len() - taken.len()),
            entries_view(entries@) == taken.map_values(|p: (Seq<u8>, Seq<u8>)| typed(p)),
            ordered == if backward {
                source.reverse()
            } else {
                source
            },
        ensures
            entries_view(entries@) == page(source, limit, backward).map_values(
                |p: (Seq<u8>, Seq<u8>)| typed(p),
            ),
            has_more == cut_short(source, limit),
            cursor.pending() == left_pending(source, limit, backward),
        decreases cursor.pending().len(),
    {
        let ghost before = cursor.pending();
        match cursor.step(backward) {
            None => {
                proof {
                    assert(taken =~= ordered);
                    assert(cursor.pending() =~= left_pending(source, limit, backward));
                }
                break ;
            },
            Some(Err(e)) => {
                return Err(e);
            },
            Some(Ok(pair)) => {
                let (key, value) = pair;
                let ghost item = (key@, value@);
                proof {
                    assert(item == ordered[taken.len() as int]) by {
                        if backward {
                            assert(before.last() == source[source.len() - taken.len() - 1]);
                        } else {
                            assert(before.first() == source[taken.len() as int]);
                        }
                    }
                }
                if let Some(n) = limit {
                    if entries.len() >= n {
                        has_more = true;
                        proof {
                            assert(before.len() > 0);
                            assert(taken.len() == n);
                            assert(taken =~= ordered.take(n as int));
                            assert(cursor.pending() =~= left_pending(source, limit, backward));
                        }
                        break ;
                    }
                }
                let value_type = detect(value.as_slice());
                let ghost earlier = entries@;
                entries.push(KeyValue { key, value, value_type });
                proof {
                    let shown = taken.map_values(|p: (Seq<u8>, Seq<u8>)| typed(p));
                    assert(entries_view(earlier) == shown);
                    taken = taken.push(item);
                    assert forall|i: int| 0 <= i < entries.len() implies entries_view(entries@)[i]
                        == typed(taken[i]) by {
                        if i < earlier.len() {
                            assert(entries_view(earlier)[i] == shown[i]);
                        }
                    }
                    assert(entries_view(entries@) =~= taken.map_values(
                        |p: (Seq<u8>, Seq<u8>)| typed(p),
                    ));
                    if backward {
                        assert(cursor.pending() =~= source.take(source.len() - taken.len()));
                    } else {
                        assert(cursor.pending() =~= source.skip(taken.len() as int));
                    }
                }
            },
        }
    }
    Ok((entries, has_more))
}

/// Counts the entries of the tree `tree` by a walk over all of it. Fails
/// where the store fails on the way, or where there are more entries than a
/// `usize` can count.
pub(crate) fn count(db: &sled::Db, tree: &[u8]) -> (r: Result<usize, StoreError>)
    requires
        db_trees(*db).contains_key(tree@),
    ensures
        match r {
            Ok(n) => db_trees(*db)[tree@].dom().finite() && n == db_trees(*db)[tree@].len(),
            Err(e) => e is Tree,
        },
{
    let mut cursor = match Cursor::over_range(db, tree, &None, &None) {
        Ok(cursor) => cursor,
        Err(e) => {
            return Err(StoreError::Tree(e.to_string()));
        },
    };
    let ghost source = cursor.pending();
    proof {
        lemma_whole_listing_counts(source, db_trees(*db)[tree@]);
    }
    let mut n: usize = 0;
    loop
        invariant_except_break
            n + cursor.pending().len() == source.len(),
        ensures
            n == source.len(),
        decreases cursor.pending().len(),
    {
        match cursor.step(false) {
            None => {
                break ;
            },
            Some(Err(e)) => {
                return Err(StoreError::Tree(e.to_string()));
            },
            Some(Ok(_)) => {
                if n == usize::MAX {
                    return Err(
                        StoreError::Tree("the tree holds more entries than can be counted".to_owned()),
                    );
                }
                n += 1;
            },
        }
    }
    Ok(n)
}

/// Opens the tree `tree`, and so creates it if the store has none of that name.
pub(crate) fn open(db: &mut sled::Db, tree: &[u8]) -> (r: Result<(), StoreError>)
    ensures
        match r {
            Ok(_) => db_trees(*final(db)) == with_tree(db_trees(*old(db)), tree@),
            Err(e) => e is Tree,
        },
{
    match ensure_tree(db, tree) {
        Ok(_) => Ok(()),
        Err(e) => Err(StoreError::Tree(e.to_string())),
    }
}

/// Drops the tree `tree` with all that it holds. A store without such a tree
/// is left as it is.
pub(crate) fn discard(db: &mut sled::Db, tree: &[u8]) -> (r: Result<(), StoreError>)
    ensures
        match r {
            Ok(_) => db_trees(*final(db)) == db_trees(*old(db)).remove(tree@),
            Err(e) => e is Tree,
        },
{
    match drop_tree(db, tree) {
        Ok(_) => Ok(()),
        Err(e) => Err(StoreError::Tree(e.to_string())),
    }
}

/// Looks `key` up in the tree `tree`, which is opened, and so created, first.
pub(crate) fn get(db: &mut sled::Db, tree: &[u8], key: &[u8]) -> (r: Result<
    Option<KeyValue>,
    StoreError,
>)
    ensures
        match r {
            Ok(found) => got(db_trees(*old(db)), db_trees(*final(db)), tree@, key@, found),
            Err(e) => e is Tree,
        },
{
    if let Err(e) = ensure_tree(db, tree) {
        return Err(StoreError::Tree(e.to_string()));
    }
    match tree_get(db, tree, key) {
        Ok(Some(value)) => {
            let value_type = detect(value.as_slice());
            Ok(Some(KeyValue { key: slice_to_vec(key), value, value_type }))
        },
        Ok(None) => Ok(None),
        Err(e) => Err(StoreError::Tree(e.to_string())),
    }
}

/// Puts `value` under `key` in the tree `tree`, which is opened, and so
/// created, first. Returns the value that was there before.
pub(crate) fn set(db: &mut sled::Db, tree: &[u8], key: &[u8], value: &[u8]) -> (r: Result<
    Option<Vec<u8>>,
    StoreError,
>)
    ensures
        match r {
            Ok(previous) => was_set(
                db_trees(*old(db)),
                db_trees(*final(db)),
                tree@,
                key@,
                value@,
                previous,
            ),
            Err(e) => e is Tree,
        },
{
    if let Err(e) = ensure_tree(db, tree) {
        return Err(StoreError::Tree(e.to_string()));
    }
    match tree_insert(db, tree, key, value) {
        Ok(previous) => Ok(previous),
        Err(e) => Err(StoreError::Tree(e.to_string())),
    }
}

/// Takes `key` out of the tree `tree`, which is opened, and so created,
/// first. Returns the value that was there.
pub(crate) fn remove(db: &mut sled::Db, tree: &[u8], key: &[u8]) -> (r: Result<
    Option<Vec<u8>>,
    StoreError,
>)
    ensures
        match r {
            Ok(removed) => was_removed(db_trees(*old(db)), db_trees(*final(db)), tree@, key@, removed),
            Err(e) => e is Tree,
        },
{
    if let Err(e) = ensure_tree(db, tree) {
        return Err(StoreError::Tree(e.to_string()));
    }
    match tree_remove(db, tree, key) {
        Ok(removed) => Ok(removed),
        Err(e) => Err(StoreError::Tree(e.to_string())),
    }
}

/// Runs a range query on the tree `tree`, which is opened, and so created,
/// first.
pub(crate) fn range(db: &mut sled::Db, tree: &[u8], query: &RangeQuery) -> (r: Result<
    QueryResult,
    StoreError,
>)
    ensures
        match r {
            Ok(result) => ranged(db_trees(*old(db)), db_trees(*final(db)), tree@, *query, result),
            Err(e) => e is Tree,
        },
{
    if let Err(e) = ensure_tree(db, tree) {
        return Err(StoreError::Tree(e.to_string()));
    }
    let gathered = match Cursor::over_range(db, tree, &query.from, &query.to) {
        Ok(mut cursor) => {
            proof {
                lemma_lists_is_listing(
                    cursor.pending(),
                    db_trees(*db)[tree@],
                    range_scope(bytes_view(query.from), bytes_view(query.to)),
                );
            }
            gather(&mut cursor, query.limit, query.reverse)
        },
        Err(e) => Err(e),
    };
    match gathered {
        Ok((entries, has_more)) => match count(db, tree) {
            Ok(total_count) => Ok(QueryResult { entries, total_count, has_more }),
            Err(e) => Err(e),
        },
        Err(e) => Err(StoreError::Tree(e.to_string())),
    }
}

/// Runs a prefix query on the tree `tree`, which is opened, and so created,
/// first.
pub(crate) fn prefix(db: &mut sled::Db, tree: &[u8], query: &PrefixQuery) -> (r: Result<
    QueryResult,
    StoreError,
>)
    ensures
        match r {
            Ok(result) => prefixed(db_trees(*old(db)), db_trees(*final(db)), tree@, *query, result),
            Err(e) => e is Tree,
        },
{
    if let Err(e) = ensure_tree(db, tree) {
        return Err(StoreError::Tree(e.to_string()));
    }
    let gathered = match Cursor::over_prefix(db, tree, query.prefix.as_slice()) {
        Ok(mut cursor) => {
            proof {
                lemma_lists_is_listing(
                    cursor.pending(),
                    db_trees(*db)[tree@],
                    prefix_scope(query.prefix@),
                );
            }
            gather(&mut cursor, query.limit, false)
        },
        Err(e) => Err(e),
    };
    match gathered {
        Ok((entries, has_more)) => match count(db, tree) {
            Ok(total_count) => Ok(QueryResult { entries, total_count, has_more }),
            Err(e) => Err(e),
        },
        Err(e) => Err(StoreError::Tree(e.to_string())),
    }
}

/// Reads the whole tree `tree`, which is opened, and so created, first: every
/// entry, in ascending order of key.
pub(crate) fn read_all(db: &mut sled::Db, tree: &[u8]) -> (r: Result<Vec<KeyValue>, StoreError>)
    ensures
        match r {
            Ok(entries) => was_read(db_trees(*old(db)), db_trees(*final(db)), tree@, entries),
            Err(e) => e is Tree,
        },
{
    if let Err(e) = ensure_tree(db, tree) {
        return Err(StoreError::Tree(e.to_string()));
    }
    let gathered = match Cursor::over_range(db, tree, &None, &None) {
        Ok(mut cursor) => {
            proof {
                lemma_lists_is_listing(cursor.pending(), db_trees(*db)[tree@], whole_scope());
            }
            gather(&mut cursor, None, false)
        },
        Err(e) => Err(e),
    };
    match gathered {
        Ok((entries, _)) => Ok(entries),
        Err(e) => Err(StoreError::Tree(e.to_string())),
    }
}

/// Inserts the pairs into the tree `tree`, which is opened, and so created,
/// first, one after the other, a later pair replacing an earlier one with the
/// same key. Returns how many were written.
pub(crate) fn write_all(db: &mut sled::Db, tree: &[u8], pairs: &Vec<(Vec<u8>, Vec<u8>)>) -> (r:
    Result<usize, StoreError>)
    ensures
        match r {
            Ok(count) => was_written(
                db_trees(*old(db)),
                db_trees(*final(db)),
                tree@,
                pairs_view(pairs@),
                count,
            ),
            Err(e) => e is Tree,
        },
{
    if let Err(e) = ensure_tree(db, tree) {
        return Err(StoreError::Tree(e.to_string()));
    }
    let ghost trees = db_trees(*db);
    let mut count: usize = 0;
    assert(trees =~= trees.insert(tree@, inserted(trees[tree@], pairs_view(pairs@).take(0))));
    while count < pairs.len()
        invariant
            count <= pairs.len(),
            trees.contains_key(tree@),
            db_trees(*db) == trees.insert(
                tree@,
                inserted(trees[tree@], pairs_view(pairs@).take(count as int)),
            ),
        decreases pairs.len() - count,
    {
        let ghost done = pairs_view(pairs@).take(count as int);
        match tree_insert(db, tree, pairs[count].0.as_slice(), pairs[count].1.as_slice()) {
            Ok(_) => {
                proof {
                    let next = pairs_view(pairs@).take(count + 1);
                    assert(next.drop_last() =~= done);
                    assert(next.last() == (pairs[count as int].0@, pairs[count as int].1@));
                    assert(db_trees(*db) =~= trees.insert(tree@, inserted(trees[tree@], next)));
                }
            },
            Err(e) => {
                return Err(StoreError::Tree(e.to_string()));
            },
        }
        count += 1;
    }
    assert(pairs_view(pairs@).take(count as int) =~= pairs_view(pairs@));
    Ok(count)
}

/// The key and the value of each entry, copied out.
pub fn pairs_from(entries: &Vec<KeyValue>) -> (pairs: Vec<(Vec<u8>, Vec<u8>)>)
    ensures
        pairs_view(pairs@) == pairs_of(entries@),
{
    let mut pairs: Vec<(Vec<u8>, Vec<u8>)> = Vec::new();
    let mut i: usize = 0;
    while i < entries.len()
        invariant
            i <= entries.len(),
            pairs.len() == i,
            forall|j: int|
                0 <= j < i ==> (#[trigger] pairs[j]).0@ == entries[j].key@ && pairs[j].1@
                    == entries[j].value@,
        decreases entries.len() - i,
    {
        pairs.push(
            (slice_to_vec(entries[i].key.as_slice()), slice_to_vec(entries[i].value.as_slice())),
        );
        i += 1;
    }
    assert(pairs_view(pairs@) =~= pairs_of(entries@));
    pairs
}

/// The entries that a walk over the entries `source` leaves pending. Where
/// the limit stops it, it has taken as many entries as the limit allows and
/// one more, which showed that there was more, from the end at which it
/// walks; otherwise it has taken them all.
pub open spec fn left_pending(
    source: Seq<(Seq<u8>, Seq<u8>)>,
    limit: Option<usize>,
    backward: bool,
) -> Seq<(Seq<u8>, Seq<u8>)> {
    let taken: int = match limit {
        Some(n) => if n < source.len() {
            n + 1
        } else {
            source.len() as int
        },
        None => source.len() as int,
    };
    if backward {
        source.take(source.len() - taken)
    } else {
        source.skip(taken)
    }
}

} // verus!
