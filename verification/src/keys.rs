//! The order of keys: byte strings compared lexicographically, and what it
//! means for a sequence of entries to list part of a tree.

use vstd::prelude::*;

verus! {

/// Whether two byte strings are the same.
pub fn same_bytes(a: &[u8], b: &[u8]) -> (same: bool)
    ensures
        same == (a@ == b@),
{
    if a.len() != b.len() {
        return false;
    }
    let mut i: usize = 0;
    while i < a.len()
        invariant
            i <= a.len(),
            a.len() == b.len(),
            forall|j: int| 0 <= j < i ==> a@[j] == b@[j],
        decreases a.len() - i,
    {
        if a[i] != b[i] {
            return false;
        }
        i += 1;
    }
    assert(a@ =~= b@);
    true
}

/// Lexicographic `<=` on byte strings: the order in which a tree holds its keys.
pub open spec fn key_le(a: Seq<u8>, b: Seq<u8>) -> bool
    decreases a.len(),
{
    if a.len() == 0 {
        true
    } else if b.len() == 0 {
        false
    } else if a[0] != b[0] {
        a[0] < b[0]
    } else {
        key_le(a.skip(1), b.skip(1))
    }
}

/// Strict lexicographic order on byte strings.
pub open spec fn key_lt(a: Seq<u8>, b: Seq<u8>) -> bool {
    key_le(a, b) && a != b
}

/// `key` starts with `prefix`.
pub open spec fn has_prefix(key: Seq<u8>, prefix: Seq<u8>) -> bool {
    prefix.len() <= key.len() && key.subrange(0, prefix.len() as int) == prefix
}

/// `key` lies in the half-open range `[from, to)`, where a missing bound is open.
pub open spec fn in_range(key: Seq<u8>, from: Option<Seq<u8>>, to: Option<Seq<u8>>) -> bool {
    &&& from matches Some(lo) ==> key_le(lo, key)
    &&& to matches Some(hi) ==> key_lt(key, hi)
}

/// The keys of `[from, to)`, as a predicate.
pub open spec fn range_scope(from: Option<Seq<u8>>, to: Option<Seq<u8>>) -> spec_fn(Seq<u8>) -> bool {
    |key: Seq<u8>| in_range(key, from, to)
}

/// The keys that start with `prefix`, as a predicate.
pub open spec fn prefix_scope(prefix: Seq<u8>) -> spec_fn(Seq<u8>) -> bool {
    |key: Seq<u8>| has_prefix(key, prefix)
}

/// The keys of `entries` strictly increase.
pub open spec fn ascending(entries: Seq<(Seq<u8>, Seq<u8>)>) -> bool {
    forall|i: int, j: int| 0 <= i < j < entries.len() ==> key_lt(#[trigger] entries[i].0, #[trigger] entries[j].0)
}

/// `entries` holds exactly the entries of `tree` whose key is in `scope`, in
/// ascending order of key.
pub open spec fn lists(
    entries: Seq<(Seq<u8>, Seq<u8>)>,
    tree: Map<Seq<u8>, Seq<u8>>,
    scope: spec_fn(Seq<u8>) -> bool,
) -> bool {
    &&& ascending(entries)
    &&& forall|i: int| 0 <= i < entries.len() ==> {
        &&& scope((#[trigger] entries[i]).0)
        &&& tree.contains_key(entries[i].0)
        &&& tree[entries[i].0] == entries[i].1
    }
    &&& forall|key: Seq<u8>| #[trigger] tree.contains_key(key) && scope(key) ==> exists|i: int|
        0 <= i < entries.len() && (#[trigger] entries[i]).0 == key
}

/// The entries of `tree` whose key is in `scope`, in ascending order of key.
pub open spec fn listing(tree: Map<Seq<u8>, Seq<u8>>, scope: spec_fn(Seq<u8>) -> bool) -> Seq<(Seq<u8>, Seq<u8>)> {
    choose|entries: Seq<(Seq<u8>, Seq<u8>)>| lists(entries, tree, scope)
}

proof fn lemma_key_le_antisym(a: Seq<u8>, b: Seq<u8>)
    requires
        key_le(a, b),
        key_le(b, a),
    ensures
        a == b,
    decreases a.len(),
{
    if a.len() == 0 {
        assert(b.len() == 0);
        assert(a =~= b);
    } else {
        lemma_key_le_antisym(a.skip(1), b.skip(1));
        assert(a =~= seq![a[0]] + a.skip(1));
        assert(b =~= seq![b[0]] + b.skip(1));
    }
}

proof fn lemma_key_le_trans(a: Seq<u8>, b: Seq<u8>, c: Seq<u8>)
    requires
        key_le(a, b),
        key_le(b, c),
    ensures
        key_le(a, c),
    decreases a.len(),
{
    if a.len() > 0 && a[0] == b[0] && b[0] == c[0] {
        lemma_key_le_trans(a.skip(1), b.skip(1), c.skip(1));
    }
}

proof fn lemma_key_le_total(a: Seq<u8>, b: Seq<u8>)
    ensures
        key_le(a, b) || key_le(b, a),
    decreases a.len(),
{
    if a.len() > 0 && b.len() > 0 && a[0] == b[0] {
        lemma_key_le_total(a.skip(1), b.skip(1));
    }
}

/// The keys are in a strict total order: no key is below itself, no two
/// keys are below each other, a key below a second that is below a third is
/// below the third, and of two different keys one is below the other.
pub proof fn lemma_key_order(a: Seq<u8>, b: Seq<u8>, c: Seq<u8>)
    ensures
        !key_lt(a, a),
        key_lt(a, b) ==> !key_lt(b, a),
        key_lt(a, b) && key_lt(b, c) ==> key_lt(a, c),
        a == b || key_lt(a, b) || key_lt(b, a),
{
    lemma_key_le_total(a, b);
    if key_le(a, b) && key_le(b, a) {
        lemma_key_le_antisym(a, b);
    }
    if key_lt(a, b) && key_lt(b, c) {
        lemma_key_le_trans(a, b, c);
        if a == c {
            lemma_key_le_antisym(a, b);
        }
    }
}

/// A tree has one listing per scope: two sequences that both list it are equal.
pub proof fn lemma_lists_unique(
    first: Seq<(Seq<u8>, Seq<u8>)>,
    second: Seq<(Seq<u8>, Seq<u8>)>,
    tree: Map<Seq<u8>, Seq<u8>>,
    scope: spec_fn(Seq<u8>) -> bool,
)
    requires
        lists(first, tree, scope),
        lists(second, tree, scope),
    ensures
        first == second,
    decreases first.len(),
{
    if first.len() == 0 {
        if second.len() > 0 {
            assert(tree.contains_key(second[0].0) && scope(second[0].0));
        }
        assert(first =~= second);
    } else if second.len() == 0 {
        assert(tree.contains_key(first[0].0) && scope(first[0].0));
    } else {
        // The two last entries agree: each is the greatest key in scope.
        let a = first.last();
        let b = second.last();
        assert(tree.contains_key(a.0) && scope(a.0));
        assert(tree.contains_key(b.0) && scope(b.0));
        let i = choose|i: int| 0 <= i < second.len() && (#[trigger] second[i]).0 == a.0;
        let j = choose|j: int| 0 <= j < first.len() && (#[trigger] first[j]).0 == b.0;
        if i < second.len() - 1 {
            assert(key_lt(second[i].0, second[second.len() - 1].0));
            if j < first.len() - 1 {
                assert(key_lt(first[j].0, first[first.len() - 1].0));
                lemma_key_order(a.0, b.0, a.0);
            }
        }
        assert(a.0 == b.0);
        assert(a == b);
        // Without them the rest lists the tree without that key.
        let rest = tree.remove(a.0);
        let f = first.drop_last();
        let s = second.drop_last();
        lemma_drop_last_lists(first, tree, scope);
        lemma_drop_last_lists(second, tree, scope);
        lemma_lists_unique(f, s, rest, scope);
        assert(first =~= f.push(a));
        assert(second =~= s.push(b));
    }
}

/// Without its last entry a listing lists the tree without that entry's key.
proof fn lemma_drop_last_lists(
    entries: Seq<(Seq<u8>, Seq<u8>)>,
    tree: Map<Seq<u8>, Seq<u8>>,
    scope: spec_fn(Seq<u8>) -> bool,
)
    requires
        lists(entries, tree, scope),
        entries.len() > 0,
    ensures
        lists(entries.drop_last(), tree.remove(entries.last().0), scope),
{
    let rest = entries.drop_last();
    let last = entries.last();
    let cut = tree.remove(last.0);
    assert forall|i: int, j: int| 0 <= i < j < rest.len() implies key_lt(#[trigger] rest[i].0, #[trigger] rest[j].0) by {
        assert(key_lt(entries[i].0, entries[j].0));
    }
    assert forall|i: int| 0 <= i < rest.len() implies {
        &&& scope((#[trigger] rest[i]).0)
        &&& cut.contains_key(rest[i].0)
        &&& cut[rest[i].0] == rest[i].1
    } by {
        assert(rest[i] == entries[i]);
        assert(key_lt(entries[i].0, entries[entries.len() - 1].0));
    }
    assert forall|key: Seq<u8>| #[trigger] cut.contains_key(key) && scope(key) implies exists|i: int|
        0 <= i < rest.len() && (#[trigger] rest[i]).0 == key by {
        assert(tree.contains_key(key));
        let i = choose|i: int| 0 <= i < entries.len() && (#[trigger] entries[i]).0 == key;
        assert(i < rest.len());
        assert(rest[i] == entries[i]);
    }
}

/// A tree that has a listing of all its keys is finite, and has as many
/// entries as the listing.
pub proof fn lemma_whole_listing_counts(entries: Seq<(Seq<u8>, Seq<u8>)>, tree: Map<Seq<u8>, Seq<u8>>)
    requires
        lists(entries, tree, range_scope(None, None)),
    ensures
        tree.dom().finite(),
        tree.len() == entries.len(),
{
    let keys = entries.map_values(|entry: (Seq<u8>, Seq<u8>)| entry.0);
    assert(keys.no_duplicates()) by {
        assert forall|i: int, j: int| 0 <= i < keys.len() && 0 <= j < keys.len() && i != j implies keys[i]
            != keys[j] by {
            if i < j {
                assert(key_lt(entries[i].0, entries[j].0));
            } else {
                assert(key_lt(entries[j].0, entries[i].0));
            }
        }
    }
    assert(keys.to_set() =~= tree.dom()) by {
        assert forall|key: Seq<u8>| keys.to_set().contains(key) <==> tree.dom().contains(key) by {
            if keys.to_set().contains(key) {
                let i = choose|i: int| 0 <= i < keys.len() && keys[i] == key;
                assert(entries[i].0 == key);
            }
            if tree.dom().contains(key) {
                assert(tree.contains_key(key) && range_scope(None, None)(key));
                let i = choose|i: int| 0 <= i < entries.len() && (#[trigger] entries[i]).0 == key;
                assert(keys[i] == key);
            }
        }
    }
    keys.unique_seq_to_set();
    vstd::seq_lib::seq_to_set_is_finite(keys);
}

/// What lists a tree is its listing.
pub proof fn lemma_lists_is_listing(
    entries: Seq<(Seq<u8>, Seq<u8>)>,
    tree: Map<Seq<u8>, Seq<u8>>,
    scope: spec_fn(Seq<u8>) -> bool,
)
    requires
        lists(entries, tree, scope),
    ensures
        entries == listing(tree, scope),
{
    lemma_lists_unique(entries, listing(tree, scope), tree, scope);
}

} // verus!
