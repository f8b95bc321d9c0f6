use vstd::prelude::*;

verus! {

/// A cache key and a cached value, each as its sequence of characters.
pub type Entry = (Seq<char>, Seq<char>);

/// Whether no key stands twice in `order`.
pub open spec fn keys_distinct(order: Seq<Entry>) -> bool {
    forall|i: int, j: int| 0 <= i < j < order.len() ==> order[i].0 != order[j].0
}

/// Whether `order` holds an entry under `key`.
pub open spec fn contains_key(order: Seq<Entry>, key: Seq<char>) -> bool {
    exists|i: int| 0 <= i < order.len() && #[trigger] order[i].0 == key
}

/// The place of the entry under `key`; meaningful where `order` holds one.
pub open spec fn position_of(order: Seq<Entry>, key: Seq<char>) -> int {
    choose|i: int| 0 <= i < order.len() && #[trigger] order[i].0 == key
}

/// The value cached under `key`, if there is one.
pub open spec fn lookup(order: Seq<Entry>, key: Seq<char>) -> Option<Seq<char>> {
    if contains_key(order, key) {
        Some(order[position_of(order, key)].1)
    } else {
        None
    }
}

/// The order after a `get` of `key`: the entry under `key`, if there is one,
/// moves to the most recently used end, and nothing else changes.
pub open spec fn touched(order: Seq<Entry>, key: Seq<char>) -> Seq<Entry> {
    if contains_key(order, key) {
        let at = position_of(order, key);
        order.remove(at).push(order[at])
    } else {
        order
    }
}

/// The order after an `insert` of `value` under `key` into a cache that holds
/// up to `capacity` entries.
///
/// A cache of capacity zero takes nothing. In any other, an entry under
/// `key` is replaced and moves to the most recently used end. Otherwise the
/// new entry is added at that end, after the least recently used entry has
/// been dropped if the cache was full.
pub open spec fn inserted(order: Seq<Entry>, capacity: nat, key: Seq<char>, value: Seq<char>) -> Seq<
    Entry,
> {
    if capacity == 0 {
        order
    } else if contains_key(order, key) {
        order.remove(position_of(order, key)).push((key, value))
    } else if order.len() >= capacity {
        order.drop_first().push((key, value))
    } else {
        order.push((key, value))
    }
}

/// A `get` keeps the keys distinct and the number of entries.
pub proof fn get_keeps_keys_distinct(order: Seq<Entry>, key: Seq<char>)
    requires
        keys_distinct(order),
    ensures
        keys_distinct(touched(order, key)),
        touched(order, key).len() == order.len(),
{
    if contains_key(order, key) {
        let at = position_of(order, key);
        let after = touched(order, key);
        assert forall|i: int, j: int| 0 <= i < j < after.len() implies after[i].0 != after[j].0 by {
            let from_i = if i < at { i } else { i + 1 };
            assert(after[i] == order[from_i]);
            if j < after.len() - 1 {
                let from_j = if j < at { j } else { j + 1 };
                assert(after[j] == order[from_j]);
            } else {
                assert(after[j] == order[at]);
            }
        }
    }
}

/// An `insert` keeps the keys distinct and the cache within its capacity.
pub proof fn insert_keeps_invariant(
    order: Seq<Entry>,
    capacity: nat,
    key: Seq<char>,
    value: Seq<char>,
)
    requires
        keys_distinct(order),
        order.len() <= capacity,
    ensures
        keys_distinct(inserted(order, capacity, key, value)),
        inserted(order, capacity, key, value).len() <= capacity,
{
    lemma_inserted_keeps_distinct(order, capacity, key, value);
}

/// One call on the cache.
pub enum CacheOp {
    /// A `get` of a key.
    Get { key: Seq<char> },
    /// An `insert` of a value under a key.
    Insert { key: Seq<char>, value: Seq<char> },
}

impl CacheOp {
    /// The key that the call names.
    pub open spec fn key(self) -> Seq<char> {
        match self {
            CacheOp::Get { key } => key,
            CacheOp::Insert { key, .. } => key,
        }
    }
}

/// The order after one call on a cache of the given capacity.
pub open spec fn after_op(order: Seq<Entry>, capacity: nat, op: CacheOp) -> Seq<Entry> {
    match op {
        CacheOp::Get { key } => touched(order, key),
        CacheOp::Insert { key, value } => inserted(order, capacity, key, value),
    }
}

/// The order of a cache of the given capacity that started empty and then
/// took the calls `ops` one after the other.
pub open spec fn after_ops(capacity: nat, ops: Seq<CacheOp>) -> Seq<Entry>
    decreases ops.len(),
{
    if ops.len() == 0 {
        Seq::empty()
    } else {
        after_op(after_ops(capacity, ops.drop_last()), capacity, ops.last())
    }
}

/// The number of the last call among `ops` that names `key`, counted from
/// zero, or -1 if none does.
pub open spec fn last_touch(ops: Seq<CacheOp>, key: Seq<char>) -> int
    decreases ops.len(),
{
    if ops.len() == 0 {
        -1
    } else if ops.last().key() == key {
        ops.len() - 1
    } else {
        last_touch(ops.drop_last(), key)
    }
}

/// Whatever calls a cache takes, it never caches a key twice and never holds
/// more entries than its capacity.
pub proof fn cache_stays_within_capacity(capacity: nat, ops: Seq<CacheOp>)
    ensures
        keys_distinct(after_ops(capacity, ops)),
        after_ops(capacity, ops).len() <= capacity,
    decreases ops.len(),
{
    if ops.len() > 0 {
        let before = after_ops(capacity, ops.drop_last());
        cache_stays_within_capacity(capacity, ops.drop_last());
        match ops.last() {
            CacheOp::Get { key } => {
                get_keeps_keys_distinct(before, key);
            },
            CacheOp::Insert { key, value } => {
                insert_keeps_invariant(before, capacity, key, value);
            },
        }
    }
}

/// Every entry of `after` but the last stood in `before`, at the place that
/// `source` gives and so in the same order, under another key than `key`; the
/// last entry of `after` is cached under `key`.
spec fn moved_to_back(
    before: Seq<Entry>,
    after: Seq<Entry>,
    key: Seq<char>,
    source: spec_fn(int) -> int,
) -> bool {
    &&& after.len() >= 1
    &&& after.last().0 == key
    &&& forall|i: int|
        0 <= i < after.len() - 1 ==> 0 <= #[trigger] source(i) < before.len() && before[source(i)]
            == after[i] && before[source(i)].0 != key
    &&& forall|i: int, j: int|
        0 <= i < j < after.len() - 1 ==> #[trigger] source(i) < #[trigger] source(j)
}

proof fn lemma_hit_moves_to_back(order: Seq<Entry>, at: int, entry: Entry)
    requires
        keys_distinct(order),
        0 <= at < order.len(),
        entry.0 == order[at].0,
    ensures
        moved_to_back(
            order,
            order.remove(at).push(entry),
            entry.0,
            |i: int|
                if i < at {
                    i
                } else {
                    i + 1
                },
        ),
{
    let after = order.remove(at).push(entry);
    let source = |i: int|
        if i < at {
            i
        } else {
            i + 1
        };
    assert forall|i: int| 0 <= i < after.len() - 1 implies 0 <= #[trigger] source(i) < order.len()
        && order[source(i)] == after[i] && order[source(i)].0 != entry.0 by {
        let k = source(i);
        assert(order[k] == after[i]);
        if k < at {
            assert(order[k].0 != order[at].0);
        } else {
            assert(order[at].0 != order[k].0);
        }
    }
}

proof fn lemma_miss_moves_to_back(order: Seq<Entry>, shift: int, entry: Entry)
    requires
        !contains_key(order, entry.0),
        0 <= shift <= order.len(),
    ensures
        moved_to_back(order, order.skip(shift).push(entry), entry.0, |i: int| i + shift),
{
    let after = order.skip(shift).push(entry);
    let source = |i: int| i + shift;
    assert forall|i: int| 0 <= i < after.len() - 1 implies 0 <= #[trigger] source(i) < order.len()
        && order[source(i)] == after[i] && order[source(i)].0 != entry.0 by {
        assert(order[i + shift] == after[i]);
    }
}

/// Whether the entries of `order` stand by the time of the last call that
/// named their key, the one that has gone longest without a call first.
pub open spec fn ordered_by_last_touch(order: Seq<Entry>, ops: Seq<CacheOp>) -> bool {
    &&& forall|i: int| 0 <= i < order.len() ==> 0 <= last_touch(ops, #[trigger] order[i].0)
    &&& forall|i: int, j: int|
        0 <= i < j < order.len() ==> last_touch(ops, #[trigger] order[i].0) < last_touch(
            ops,
            #[trigger] order[j].0,
        )
}

proof fn lemma_last_touch_bounds(ops: Seq<CacheOp>, key: Seq<char>)
    ensures
        -1 <= last_touch(ops, key) < ops.len(),
    decreases ops.len(),
{
    if ops.len() > 0 && ops.last().key() != key {
        lemma_last_touch_bounds(ops.drop_last(), key);
    }
}

proof fn lemma_moved_to_back_keeps_order(
    before: Seq<Entry>,
    after: Seq<Entry>,
    ops: Seq<CacheOp>,
    source: spec_fn(int) -> int,
)
    requires
        ops.len() > 0,
        ordered_by_last_touch(before, ops.drop_last()),
        moved_to_back(before, after, ops.last().key(), source),
    ensures
        ordered_by_last_touch(after, ops),
{
    let key = ops.last().key();
    let earlier = ops.drop_last();
    assert forall|i: int| 0 <= i < after.len() implies 0 <= last_touch(
        ops,
        #[trigger] after[i].0,
    ) by {
        if i < after.len() - 1 {
            assert(0 <= last_touch(earlier, before[source(i)].0));
        }
    }
    assert forall|i: int, j: int| 0 <= i < j < after.len() implies last_touch(
        ops,
        #[trigger] after[i].0,
    ) < last_touch(ops, #[trigger] after[j].0) by {
        lemma_last_touch_bounds(earlier, before[source(i)].0);
        if j < after.len() - 1 {
            assert(source(i) < source(j));
            assert(last_touch(earlier, before[source(i)].0) < last_touch(
                earlier,
                before[source(j)].0,
            ));
        }
    }
}

/// Whatever calls a cache takes, its entries stand by the time of the last
/// `get` or `insert` that named their key: the first entry, which is the one
/// that a full cache drops, has gone longest without such a call.
pub proof fn cache_orders_by_last_touch(capacity: nat, ops: Seq<CacheOp>)
    ensures
        ordered_by_last_touch(after_ops(capacity, ops), ops),
    decreases ops.len(),
{
    if ops.len() > 0 {
        let before = after_ops(capacity, ops.drop_last());
        let after = after_ops(capacity, ops);
        let key = ops.last().key();
        cache_orders_by_last_touch(capacity, ops.drop_last());
        cache_stays_within_capacity(capacity, ops.drop_last());
        if capacity == 0 {
            assert(before.len() == 0);
            assert(after =~= before);
        } else if contains_key(before, key) {
            let at = position_of(before, key);
            let source = |i: int|
                if i < at {
                    i
                } else {
                    i + 1
                };
            match ops.last() {
                CacheOp::Get { key } => {
                    lemma_hit_moves_to_back(before, at, before[at]);
                },
                CacheOp::Insert { key, value } => {
                    lemma_hit_moves_to_back(before, at, (key, value));
                },
            }
            lemma_moved_to_back_keeps_order(before, after, ops, source);
        } else {
            match ops.last() {
                CacheOp::Get { key } => {
                    assert forall|i: int| 0 <= i < before.len() implies last_touch(
                        ops,
                        #[trigger] before[i].0,
                    ) == last_touch(ops.drop_last(), before[i].0) by {}
                },
                CacheOp::Insert { key, value } => {
                    let shift: int = if before.len() >= capacity {
                        1
                    } else {
                        0
                    };
                    assert(before.skip(shift).push((key, value)) =~= after);
                    lemma_miss_moves_to_back(before, shift, (key, value));
                    lemma_moved_to_back_keeps_order(before, after, ops, |i: int| i + shift);
                },
            }
        }
    }
}

/// The entry that an `insert` drops to make room is, of all entries, the one
/// that has gone longest without a `get` or an `insert` naming its key.
pub proof fn eviction_takes_least_recently_touched(
    capacity: nat,
    ops: Seq<CacheOp>,
    key: Seq<char>,
    value: Seq<char>,
)
    requires
        !contains_key(after_ops(capacity, ops), key),
        capacity >= 1,
        after_ops(capacity, ops).len() >= capacity,
    ensures
        inserted(after_ops(capacity, ops), capacity, key, value) == after_ops(
            capacity,
            ops,
        ).drop_first().push((key, value)),
        forall|i: int|
            0 < i < after_ops(capacity, ops).len() ==> last_touch(
                ops,
                after_ops(capacity, ops)[0].0,
            ) < last_touch(ops, #[trigger] after_ops(capacity, ops)[i].0),
{
    cache_orders_by_last_touch(capacity, ops);
}

/// A cache of capacity zero stays empty and finds nothing, whatever calls it
/// takes.
pub proof fn cache_of_capacity_zero_holds_nothing(ops: Seq<CacheOp>, key: Seq<char>)
    ensures
        after_ops(0, ops) == Seq::<Entry>::empty(),
        lookup(after_ops(0, ops), key) is None,
{
    cache_stays_within_capacity(0, ops);
    assert(after_ops(0, ops) =~= Seq::<Entry>::empty());
}

/// A value that was just inserted into a cache that holds anything at all
/// is what a lookup of its key finds.
pub proof fn lookup_finds_inserted(
    order: Seq<Entry>,
    capacity: nat,
    key: Seq<char>,
    value: Seq<char>,
)
    requires
        keys_distinct(order),
        capacity >= 1,
    ensures
        lookup(inserted(order, capacity, key, value), key) == Some(value),
{
    let after = inserted(order, capacity, key, value);
    lemma_inserted_keeps_distinct(order, capacity, key, value);
    assert(after.last() == (key, value));
    assert(after[after.len() - 1].0 == key);
    let at = position_of(after, key);
    if at != after.len() - 1 {
        assert(after[at].0 != after[after.len() - 1].0);
    }
}

proof fn lemma_inserted_keeps_distinct(
    order: Seq<Entry>,
    capacity: nat,
    key: Seq<char>,
    value: Seq<char>,
)
    requires
        keys_distinct(order),
    ensures
        keys_distinct(inserted(order, capacity, key, value)),
{
    let after = inserted(order, capacity, key, value);
    if capacity > 0 {
        let source: spec_fn(int) -> int;
        if contains_key(order, key) {
            let at = position_of(order, key);
            source = |i: int|
                if i < at {
                    i
                } else {
                    i + 1
                };
            lemma_hit_moves_to_back(order, at, (key, value));
        } else {
            let shift: int = if order.len() >= capacity { 1 } else { 0 };
            source = |i: int| i + shift;
            assert(order.skip(shift).push((key, value)) =~= after);
            lemma_miss_moves_to_back(order, shift, (key, value));
        }
        assert(moved_to_back(order, after, key, source));
        assert forall|i: int, j: int| 0 <= i < j < after.len() implies after[i].0 != after[j].0 by {
            assert(order[source(i)] == after[i]);
            if j < after.len() - 1 {
                assert(source(i) < source(j));
                assert(order[source(j)] == after[j]);
            }
        }
    }
}

/// A `get` changes no cached value: every key is cached after it exactly if
/// it was before, and under the same value.
pub proof fn get_changes_no_value(order: Seq<Entry>, key: Seq<char>, other: Seq<char>)
    requires
        keys_distinct(order),
    ensures
        lookup(touched(order, key), other) == lookup(order, other),
{
    let after = touched(order, key);
    get_keeps_keys_distinct(order, key);
    if contains_key(order, key) {
        let at = position_of(order, key);
        if contains_key(order, other) {
            let from = position_of(order, other);
            let to = if from == at {
                after.len() - 1
            } else if from < at {
                from
            } else {
                from - 1
            };
            assert(after[to] == order[from]);
            let found = position_of(after, other);
            if found != to {
                if found < to {
                    assert(after[found].0 != after[to].0);
                } else {
                    assert(after[to].0 != after[found].0);
                }
            }
        } else if contains_key(after, other) {
            let found = position_of(after, other);
            let from = if found == after.len() - 1 {
                at
            } else if found < at {
                found
            } else {
                found + 1
            };
            assert(order[from] == after[found]);
        }
    }
}

} // verus!
