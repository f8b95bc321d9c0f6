use crate::cache::model::{
    contains_key, inserted, keys_distinct, insert_keeps_invariant,
    get_keeps_keys_distinct, lookup, position_of, touched, Entry,
};
use crate::text::str_eq;
use vstd::prelude::*;
use vstd::string::StringSliceAdditionalSpecFns;
use vstd::utf8::encode_utf8;

verus! {

/// One cached thumbnail, and its neighbours in the order of use.
struct Slot {
    key: String,
    value: String,
    /// The slot that was used just before this one, if there is one.
    prev: Option<usize>,
    /// The slot that was used just after this one, if there is one.
    next: Option<usize>,
}

/// The link to the slot at place `p` of `order`; none past either end.
spec fn link(order: Seq<int>, p: int) -> Option<usize> {
    if 0 <= p < order.len() {
        Some(order[p] as usize)
    } else {
        None
    }
}

/// Whether the slot at place `p` of `order` is linked to the slots at the
/// places before and after it.
spec fn linked_at(slots: Seq<Slot>, order: Seq<int>, p: int) -> bool {
    &&& slots[order[p]].prev == link(order, p - 1)
    &&& slots[order[p]].next == link(order, p + 1)
}

/// Whether `order` names slots, and none twice.
spec fn names_slots(order: Seq<int>, count: int) -> bool {
    &&& forall|p: int| 0 <= p < order.len() ==> 0 <= #[trigger] order[p] < count
    &&& forall|p: int, q: int|
        0 <= p < q < order.len() ==> #[trigger] order[p] != #[trigger] order[q]
}

/// Whether the slots named in `order` form a list in that order, from
/// `head` to `tail`: each is linked to the one before and the one after.
spec fn chained(slots: Seq<Slot>, head: Option<usize>, tail: Option<usize>, order: Seq<int>) -> bool {
    &&& slots.len() <= usize::MAX
    &&& names_slots(order, slots.len() as int)
    &&& forall|p: int| 0 <= p < order.len() ==> #[trigger] linked_at(slots, order, p)
    &&& head == link(order, 0)
    &&& tail == link(order, order.len() - 1)
}

/// Whether two sequences of slots hold the same keys and values.
spec fn same_entries(before: Seq<Slot>, after: Seq<Slot>) -> bool {
    &&& after.len() == before.len()
    &&& forall|i: int|
        0 <= i < before.len() ==> (#[trigger] after[i]).key == before[i].key && after[i].value
            == before[i].value
}

/// Whether `after` is `before` with the slot at place `p` taken out of the
/// list: its neighbours are linked to each other, and no other link has
/// changed.
spec fn bypassed(before: Seq<Slot>, after: Seq<Slot>, order: Seq<int>, p: int) -> bool {
    &&& same_entries(before, after)
    &&& forall|i: int|
        0 <= i < before.len() ==> (#[trigger] after[i]).next == if p > 0 && i == order[p - 1] {
            link(order, p + 1)
        } else {
            before[i].next
        }
    &&& forall|i: int|
        0 <= i < before.len() ==> (#[trigger] after[i]).prev == if p + 1 < order.len() && i
            == order[p + 1] {
            link(order, p - 1)
        } else {
            before[i].prev
        }
}

proof fn lemma_remove_names_slots(order: Seq<int>, count: int, p: int)
    requires
        names_slots(order, count),
        0 <= p < order.len(),
    ensures
        names_slots(order.remove(p), count),
        forall|q: int| 0 <= q < order.len() - 1 && q < p ==> order.remove(p)[q] == order[q],
        forall|q: int| 0 <= q < order.len() - 1 && q >= p ==> order.remove(p)[q] == order[q + 1],
{
    let rest = order.remove(p);
    assert forall|q: int| 0 <= q < rest.len() implies 0 <= #[trigger] rest[q] < count by {
        if q < p {
            assert(rest[q] == order[q]);
        } else {
            assert(rest[q] == order[q + 1]);
        }
    }
    assert forall|q: int, r: int| 0 <= q < r < rest.len() implies #[trigger] rest[q]
        != #[trigger] rest[r] by {
        let from_q = if q < p { q } else { q + 1 };
        let from_r = if r < p { r } else { r + 1 };
        assert(rest[q] == order[from_q] && rest[r] == order[from_r]);
    }
}

proof fn lemma_bypassed_stays_chained(
    before: Seq<Slot>,
    after: Seq<Slot>,
    head: Option<usize>,
    tail: Option<usize>,
    order: Seq<int>,
    p: int,
)
    requires
        chained(before, head, tail, order),
        0 <= p < order.len(),
        bypassed(before, after, order, p),
    ensures
        chained(
            after,
            if p == 0 {
                link(order, 1)
            } else {
                head
            },
            if p == order.len() - 1 {
                link(order, p - 1)
            } else {
                tail
            },
            order.remove(p),
        ),
{
    let rest = order.remove(p);
    lemma_remove_names_slots(order, before.len() as int, p);
    assert forall|q: int| 0 <= q < rest.len() implies #[trigger] linked_at(after, rest, q) by {
        let from = if q < p { q } else { q + 1 };
        assert(rest[q] == order[from]);
        assert(linked_at(before, order, from));
        let slot = order[from];
        assert(0 <= slot < before.len());
        // The link to the slot after.
        if p > 0 && slot == order[p - 1] {
            if from != p - 1 {
                if from < p - 1 {
                    assert(order[from] != order[p - 1]);
                } else {
                    assert(order[p - 1] != order[from]);
                }
            }
            assert(after[slot].next == link(order, p + 1));
            assert(link(rest, q + 1) == link(order, p + 1));
        } else {
            assert(after[slot].next == before[slot].next);
            assert(from != p - 1);
            assert(link(rest, q + 1) == link(order, from + 1));
        }
        // The link to the slot before.
        if p + 1 < order.len() && slot == order[p + 1] {
            if from != p + 1 {
                if from < p + 1 {
                    assert(order[from] != order[p + 1]);
                } else {
                    assert(order[p + 1] != order[from]);
                }
            }
            assert(after[slot].prev == link(order, p - 1));
            assert(link(rest, q - 1) == link(order, p - 1));
        } else {
            assert(after[slot].prev == before[slot].prev);
            assert(from != p + 1);
            assert(link(rest, q - 1) == link(order, from - 1));
        }
    }
}

/// Takes the slot `s`, which stands at place `p`, out of the list.
fn detach(
    slots: &mut Vec<Slot>,
    head: &mut Option<usize>,
    tail: &mut Option<usize>,
    s: usize,
    Ghost(order): Ghost<Seq<int>>,
    Ghost(p): Ghost<int>,
)
    requires
        chained(old(slots)@, *old(head), *old(tail), order),
        0 <= p < order.len(),
        order[p] == s,
    ensures
        chained(final(slots)@, *final(head), *final(tail), order.remove(p)),
        same_entries(old(slots)@, final(slots)@),
{
    assert(linked_at(slots@, order, p));
    let prev = slots[s].prev;
    let next = slots[s].next;
    match prev {
        Some(before) => {
            slots[before].next = next;
        },
        None => {
            *head = next;
        },
    }
    match next {
        Some(after) => {
            slots[after].prev = prev;
        },
        None => {
            *tail = prev;
        },
    }
    proof {
        if p > 0 && p + 1 < order.len() {
            assert(order[p - 1] != order[p + 1]);
        }
        assert(bypassed(old(slots)@, slots@, order, p));
        lemma_bypassed_stays_chained(old(slots)@, slots@, *old(head), *old(tail), order, p);
    }
}

/// Whether `after` is `before` with the slot `s` put behind the slot
/// `last`, if there is one, and no other link changed.
spec fn appended(before: Seq<Slot>, after: Seq<Slot>, last: Option<usize>, s: int) -> bool {
    &&& same_entries(before, after)
    &&& after[s].prev == last
    &&& after[s].next is None
    &&& forall|i: int|
        0 <= i < before.len() && i != s ==> (#[trigger] after[i]).prev == before[i].prev
            && after[i].next == if last == Some(i as usize) {
            Some(s as usize)
        } else {
            before[i].next
        }
}

proof fn lemma_appended_stays_chained(
    before: Seq<Slot>,
    after: Seq<Slot>,
    head: Option<usize>,
    tail: Option<usize>,
    order: Seq<int>,
    s: int,
)
    requires
        chained(before, head, tail, order),
        0 <= s < before.len(),
        forall|p: int| 0 <= p < order.len() ==> #[trigger] order[p] != s,
        appended(before, after, tail, s),
    ensures
        chained(
            after,
            if order.len() == 0 {
                Some(s as usize)
            } else {
                head
            },
            Some(s as usize),
            order.push(s),
        ),
{
    let grown = order.push(s);
    assert forall|q: int| 0 <= q < grown.len() implies 0 <= #[trigger] grown[q] < after.len() by {
        if q < order.len() {
            assert(grown[q] == order[q]);
        }
    }
    assert forall|q: int, r: int| 0 <= q < r < grown.len() implies #[trigger] grown[q]
        != #[trigger] grown[r] by {
        assert(grown[q] == order[q]);
        if r < order.len() {
            assert(grown[r] == order[r]);
        }
    }
    assert forall|q: int| 0 <= q < grown.len() implies #[trigger] linked_at(after, grown, q) by {
        if q < order.len() {
            assert(grown[q] == order[q]);
            assert(linked_at(before, order, q));
            let slot = order[q];
            assert(slot != s);
            if q == order.len() - 1 {
                assert(tail == Some(slot as usize));
                assert(after[slot].next == Some(s as usize));
            } else {
                assert(order[q] != order[order.len() - 1]);
                assert(grown[q + 1] == order[q + 1]);
            }
            if q > 0 {
                assert(grown[q - 1] == order[q - 1]);
            }
        } else {
            assert(grown[q] == s);
            if q > 0 {
                assert(grown[q - 1] == order[q - 1]);
            }
        }
    }
    assert(grown[0] == if order.len() == 0 { s } else { order[0] });
}

/// Puts the slot `s`, which is in no list, at the end of the list.
fn attach_back(
    slots: &mut Vec<Slot>,
    head: &mut Option<usize>,
    tail: &mut Option<usize>,
    s: usize,
    Ghost(order): Ghost<Seq<int>>,
)
    requires
        chained(old(slots)@, *old(head), *old(tail), order),
        s < old(slots)@.len(),
        forall|p: int| 0 <= p < order.len() ==> #[trigger] order[p] != s,
    ensures
        chained(final(slots)@, *final(head), *final(tail), order.push(s as int)),
        same_entries(old(slots)@, final(slots)@),
{
    let last = *tail;
    slots[s].prev = last;
    slots[s].next = None;
    match last {
        Some(before) => {
            assert(before == order[order.len() - 1]);
            slots[before].next = Some(s);
        },
        None => {
            *head = Some(s);
        },
    }
    *tail = Some(s);
    proof {
        assert(appended(old(slots)@, slots@, last, s as int));
        lemma_appended_stays_chained(old(slots)@, slots@, *old(head), *old(tail), order, s as int);
    }
}

/// The modulus of the hash of a key.
const HASH_MODULUS: u64 = 1_000_003;

/// Most buckets that the index of a cache has.
const MAX_BUCKETS: usize = 4096;

/// The hash of the bytes of a key.
spec fn hash_of(bytes: Seq<u8>) -> nat
    decreases bytes.len(),
{
    if bytes.len() == 0 {
        0
    } else {
        ((hash_of(bytes.drop_last()) * 31 + bytes.last()) % (HASH_MODULUS as int)) as nat
    }
}

/// The bucket that a key is filed in, of `count` buckets.
spec fn bucket_of(key: Seq<char>, count: int) -> int {
    hash_of(encode_utf8(key)) as int % count
}

/// The bucket that `key` is filed in, of `count` buckets.
fn bucket_for(key: &str, count: usize) -> (bucket: usize)
    requires
        count > 0,
    ensures
        bucket == bucket_of(key@, count as int),
        bucket < count,
{
    let bytes = key.as_bytes();
    let mut hash: u64 = 0;
    let mut i: usize = 0;
    while i < bytes.len()
        invariant
            i <= bytes@.len(),
            hash < HASH_MODULUS,
            hash == hash_of(bytes@.take(i as int)),
        decreases bytes@.len() - i,
    {
        proof {
            assert(bytes@.take(i + 1).drop_last() =~= bytes@.take(i as int));
        }
        hash = (hash * 31 + bytes[i] as u64) % HASH_MODULUS;
        i += 1;
    }
    proof {
        assert(bytes@.take(i as int) =~= bytes@);
    }
    (hash % (count as u64)) as usize
}

/// Whether the entry `k` of bucket `b` names a slot whose key belongs
/// there.
spec fn filed_rightly(slots: Seq<Slot>, buckets: Seq<Vec<usize>>, b: int, k: int) -> bool {
    &&& buckets[b]@[k] < slots.len()
    &&& bucket_of(slots[buckets[b]@[k] as int].key@, buckets.len() as int) == b
}

/// Whether the slot `s` is named in the bucket of its key.
spec fn is_filed(slots: Seq<Slot>, buckets: Seq<Vec<usize>>, s: int) -> bool {
    buckets[bucket_of(slots[s].key@, buckets.len() as int)]@.contains(s as usize)
}

/// Whether no bucket names a slot twice.
spec fn filed_once(buckets: Seq<Vec<usize>>) -> bool {
    forall|b: int, k: int, l: int|
        0 <= b < buckets.len() && 0 <= k < l < buckets[b]@.len() ==> #[trigger] buckets[b]@[k]
            != #[trigger] buckets[b]@[l]
}

/// Whether the buckets index the slots by key: every slot is named once,
/// in the bucket of its key, and nothing else is named.
spec fn indexed(slots: Seq<Slot>, buckets: Seq<Vec<usize>>) -> bool {
    &&& buckets.len() > 0
    &&& forall|b: int, k: int|
        0 <= b < buckets.len() && 0 <= k < buckets[b]@.len() ==> #[trigger] filed_rightly(
            slots,
            buckets,
            b,
            k,
        )
    &&& forall|s: int| 0 <= s < slots.len() ==> #[trigger] is_filed(slots, buckets, s)
    &&& filed_once(buckets)
}

/// Whether no two slots hold the same key.
spec fn slot_keys_distinct(slots: Seq<Slot>) -> bool {
    forall|i: int, j: int|
        0 <= i < j < slots.len() ==> (#[trigger] slots[i]).key@ != (#[trigger] slots[j]).key@
}

/// Whether slot `s` stands somewhere in `order`.
spec fn placed(order: Seq<int>, s: int) -> bool {
    exists|p: int| 0 <= p < order.len() && #[trigger] order[p] == s
}

/// A bounded cache of thumbnails that forgets the least recently used one
/// when it is full.
///
/// The entries stand in slots that are linked in the order of their last
/// use and indexed by the hash of their key, so that a lookup, and the move
/// to the most recently used end that goes with it, take the same time
/// however many entries the cache holds.
pub struct ThumbnailMemoryCache {
    slots: Vec<Slot>,
    /// The least recently used slot.
    head: Option<usize>,
    /// The most recently used slot.
    tail: Option<usize>,
    /// The numbers of the slots, by the hash of their key.
    buckets: Vec<Vec<usize>>,
    max_size: usize,
    /// The numbers of the slots from the least to the most recently used.
    order: Ghost<Seq<int>>,
}

impl View for ThumbnailMemoryCache {
    type V = Seq<Entry>;

    /// The cached entries, from the least to the most recently used.
    closed spec fn view(&self) -> Seq<Entry> {
        entries_in(self.slots@, self.order@)
    }
}

/// The keys and values of the slots in the given order.
spec fn entries_in(slots: Seq<Slot>, order: Seq<int>) -> Seq<Entry> {
    Seq::new(order.len(), |p: int| (slots[order[p]].key@, slots[order[p]].value@))
}

impl ThumbnailMemoryCache {
    /// The number of entries that the cache was made to hold.
    pub closed spec fn capacity(&self) -> nat {
        self.max_size as nat
    }

    /// Whether the slots, their links and their index fit together.
    pub closed spec fn built_well(&self) -> bool {
        &&& chained(self.slots@, self.head, self.tail, self.order@)
        &&& self.order@.len() == self.slots@.len()
        &&& forall|s: int| 0 <= s < self.slots@.len() ==> #[trigger] placed(self.order@, s)
        &&& slot_keys_distinct(self.slots@)
        &&& indexed(self.slots@, self.buckets@)
    }

    /// The invariant of the cache: no key is cached twice, and the cache holds
    /// no more entries than its capacity.
    pub open spec fn wf(&self) -> bool {
        &&& self.built_well()
        &&& keys_distinct(self@)
        &&& self@.len() <= self.capacity()
    }

    /// An empty cache that holds up to `max_size` thumbnails.
    pub fn new(max_size: usize) -> (cache: Self)
        ensures
            cache.wf(),
            cache@ == Seq::<Entry>::empty(),
            cache.capacity() == max_size,
    {
        let count = if max_size == 0 {
            1
        } else if max_size > MAX_BUCKETS {
            MAX_BUCKETS
        } else {
            max_size
        };
        let mut buckets: Vec<Vec<usize>> = Vec::new();
        let mut b: usize = 0;
        while b < count
            invariant
                b <= count,
                buckets@.len() == b,
                forall|i: int| 0 <= i < b ==> (#[trigger] buckets@[i])@.len() == 0,
            decreases count - b,
        {
            buckets.push(Vec::new());
            b += 1;
        }
        let cache = ThumbnailMemoryCache {
            slots: Vec::new(),
            head: None,
            tail: None,
            buckets,
            max_size,
            order: Ghost(Seq::empty()),
        };
        assert(cache@ =~= Seq::<Entry>::empty());
        cache
    }

    /// The number of cached entries.
    pub fn len(&self) -> (count: usize)
        requires
            self.wf(),
        ensures
            count == self@.len(),
    {
        self.slots.len()
    }

    /// The slot that holds `key`, if one does.
    fn find(&self, key: &str) -> (found: Option<usize>)
        requires
            self.built_well(),
        ensures
            match found {
                Some(s) => s < self.slots@.len() && self.slots@[s as int].key@ == key@,
                None => forall|s: int| 0 <= s < self.slots@.len() ==> (#[trigger] self.slots@[s]).key@ != key@,
            },
    {
        let b = bucket_for(key, self.buckets.len());
        let bucket = &self.buckets[b];
        let mut k: usize = 0;
        while k < bucket.len()
            invariant
                self.built_well(),
                b < self.buckets@.len(),
                bucket == &self.buckets@[b as int],
                k <= bucket@.len(),
                forall|l: int| 0 <= l < k ==> self.slots@[(#[trigger] bucket@[l]) as int].key@ != key@,
            decreases bucket@.len() - k,
        {
            assert(filed_rightly(self.slots@, self.buckets@, b as int, k as int));
            let s = bucket[k];
            if str_eq(self.slots[s].key.as_str(), key) {
                return Some(s);
            }
            k += 1;
        }
        proof {
            assert forall|s: int| 0 <= s < self.slots@.len() implies (#[trigger] self.slots@[s]).key@
                != key@ by {
                if self.slots@[s].key@ == key@ {
                    assert(is_filed(self.slots@, self.buckets@, s));
                    let l = choose|l: int| 0 <= l < bucket@.len() && bucket@[l] == s as usize;
                    assert(self.slots@[bucket@[l] as int].key@ != key@);
                }
            }
        }
        None
    }
}

/// Names the slot `s` in bucket `b`.
fn file(buckets: &mut Vec<Vec<usize>>, b: usize, s: usize)
    requires
        b < old(buckets)@.len(),
    ensures
        final(buckets)@.len() == old(buckets)@.len(),
        final(buckets)@[b as int]@ == old(buckets)@[b as int]@.push(s),
        forall|c: int|
            0 <= c < old(buckets)@.len() && c != b ==> #[trigger] final(buckets)@[c] == old(
                buckets,
            )@[c],
{
    buckets[b].push(s);
}

/// Strikes the slot `s` from bucket `b`, which names it once.
fn unfile(buckets: &mut Vec<Vec<usize>>, b: usize, s: usize) -> (at: Ghost<int>)
    requires
        b < old(buckets)@.len(),
        old(buckets)@[b as int]@.contains(s),
    ensures
        final(buckets)@.len() == old(buckets)@.len(),
        0 <= at@ < old(buckets)@[b as int]@.len(),
        old(buckets)@[b as int]@[at@] == s,
        final(buckets)@[b as int]@ == old(buckets)@[b as int]@.remove(at@),
        forall|c: int|
            0 <= c < old(buckets)@.len() && c != b ==> #[trigger] final(buckets)@[c] == old(
                buckets,
            )@[c],
{
    let mut k: usize = 0;
    let count = buckets[b].len();
    proof {
        let l = choose|l: int| 0 <= l < buckets@[b as int]@.len() && buckets@[b as int]@[l] == s;
        assert(0 <= l);
    }
    while buckets[b][k] != s
        invariant
            buckets@ == old(buckets)@,
            count == buckets@[b as int]@.len(),
            b < buckets@.len(),
            k < buckets@[b as int]@.len(),
            exists|l: int| k <= l < buckets@[b as int]@.len() && buckets@[b as int]@[l] == s,
        decreases buckets@[b as int]@.len() - k,
    {
        proof {
            let l = choose|l: int| k <= l < buckets@[b as int]@.len() && buckets@[b as int]@[l] == s;
            assert(k + 1 <= l < buckets@[b as int]@.len() && buckets@[b as int]@[l] == s);
        }
        k += 1;
    }
    buckets[b].remove(k);
    Ghost(k as int)
}

/// Whether two sequences of slots hold the same keys.
spec fn same_keys(before: Seq<Slot>, after: Seq<Slot>) -> bool {
    &&& after.len() == before.len()
    &&& forall|i: int| 0 <= i < before.len() ==> (#[trigger] after[i]).key == before[i].key
}

/// Whether two sequences of slots are linked alike.
spec fn same_links(before: Seq<Slot>, after: Seq<Slot>) -> bool {
    &&& after.len() == before.len()
    &&& forall|i: int|
        0 <= i < before.len() ==> (#[trigger] after[i]).prev == before[i].prev && after[i].next
            == before[i].next
}

proof fn lemma_links_keep_chain(
    before: Seq<Slot>,
    after: Seq<Slot>,
    head: Option<usize>,
    tail: Option<usize>,
    order: Seq<int>,
)
    requires
        chained(before, head, tail, order),
        same_links(before, after),
    ensures
        chained(after, head, tail, order),
{
    assert forall|p: int| 0 <= p < order.len() implies #[trigger] linked_at(after, order, p) by {
        assert(linked_at(before, order, p));
    }
}

proof fn lemma_keys_keep_index(before: Seq<Slot>, after: Seq<Slot>, buckets: Seq<Vec<usize>>)
    requires
        same_keys(before, after),
        indexed(before, buckets),
        slot_keys_distinct(before),
    ensures
        indexed(after, buckets),
        slot_keys_distinct(after),
{
    assert forall|b: int, k: int|
        0 <= b < buckets.len() && 0 <= k < buckets[b]@.len() implies #[trigger] filed_rightly(
        after,
        buckets,
        b,
        k,
    ) by {
        assert(filed_rightly(before, buckets, b, k));
    }
    assert forall|s: int| 0 <= s < after.len() implies #[trigger] is_filed(after, buckets, s) by {
        assert(is_filed(before, buckets, s));
    }
    assert forall|i: int, j: int| 0 <= i < j < after.len() implies (#[trigger] after[i]).key@ != (
    #[trigger] after[j]).key@ by {
        assert(before[i].key@ != before[j].key@);
    }
}

proof fn lemma_found_at(entries: Seq<Entry>, p: int)
    requires
        keys_distinct(entries),
        0 <= p < entries.len(),
    ensures
        contains_key(entries, entries[p].0),
        position_of(entries, entries[p].0) == p,
{
    assert(entries[p].0 == entries[p].0);
    let q = position_of(entries, entries[p].0);
    if q < p {
        assert(entries[q].0 != entries[p].0);
    } else if p < q {
        assert(entries[p].0 != entries[q].0);
    }
}

proof fn lemma_not_found(slots: Seq<Slot>, order: Seq<int>, key: Seq<char>)
    requires
        names_slots(order, slots.len() as int),
        forall|s: int| 0 <= s < slots.len() ==> (#[trigger] slots[s]).key@ != key,
    ensures
        !contains_key(entries_in(slots, order), key),
{
    let entries = entries_in(slots, order);
    assert forall|i: int| 0 <= i < entries.len() implies #[trigger] entries[i].0 != key by {
        assert(slots[order[i]].key@ != key);
    }
}

proof fn lemma_moved_entries(before: Seq<Slot>, after: Seq<Slot>, order: Seq<int>, p: int)
    requires
        same_entries(before, after),
        names_slots(order, before.len() as int),
        0 <= p < order.len(),
    ensures
        entries_in(after, order.remove(p).push(order[p])) == entries_in(before, order).remove(
            p,
        ).push(entries_in(before, order)[p]),
{
    let moved = order.remove(p).push(order[p]);
    let entries = entries_in(before, order);
    let wanted = entries.remove(p).push(entries[p]);
    assert forall|q: int| 0 <= q < moved.len() implies entries_in(after, moved)[q] == wanted[q] by {
        if q < order.len() - 1 {
            let from = if q < p { q } else { q + 1 };
            assert(moved[q] == order[from]);
            assert(wanted[q] == entries[from]);
            assert(after[order[from]].key == before[order[from]].key);
        } else {
            assert(moved[q] == order[p]);
            assert(after[order[p]].key == before[order[p]].key);
        }
    }
    assert(entries_in(after, moved) =~= wanted);
}

proof fn lemma_moved_placed(order: Seq<int>, p: int, count: int)
    requires
        0 <= p < order.len(),
        forall|s: int| 0 <= s < count ==> #[trigger] placed(order, s),
    ensures
        forall|s: int| 0 <= s < count ==> #[trigger] placed(order.remove(p).push(order[p]), s),
{
    let moved = order.remove(p).push(order[p]);
    assert forall|s: int| 0 <= s < count implies #[trigger] placed(moved, s) by {
        assert(placed(order, s));
        let q = choose|q: int| 0 <= q < order.len() && #[trigger] order[q] == s;
        let to = if q == p {
            order.len() - 1
        } else if q < p {
            q
        } else {
            q - 1
        };
        assert(moved[to] == s);
    }
}

proof fn lemma_removed_names_no_more(order: Seq<int>, count: int, p: int)
    requires
        names_slots(order, count),
        0 <= p < order.len(),
    ensures
        forall|q: int| 0 <= q < order.len() - 1 ==> #[trigger] order.remove(p)[q] != order[p],
{
    assert forall|q: int| 0 <= q < order.len() - 1 implies #[trigger] order.remove(p)[q]
        != order[p] by {
        let from = if q < p { q } else { q + 1 };
        assert(order.remove(p)[q] == order[from]);
        if from < p {
            assert(order[from] != order[p]);
        } else {
            assert(order[p] != order[from]);
        }
    }
}

impl ThumbnailMemoryCache {
    /// Moves the slot `s` to the most recently used end.
    fn promote(&mut self, s: usize)
        requires
            old(self).built_well(),
            s < old(self).slots@.len(),
        ensures
            final(self).built_well(),
            final(self).max_size == old(self).max_size,
            final(self).slots@.len() == old(self).slots@.len(),
            same_entries(old(self).slots@, final(self).slots@),
            exists|p: int|
                0 <= p < old(self)@.len() && old(self).order@[p] == s && #[trigger] final(self)@
                    == old(self)@.remove(p).push(old(self)@[p]),
    {
        let ghost order = self.order@;
        assert(placed(order, s as int));
        let ghost p = choose|p: int| 0 <= p < order.len() && #[trigger] order[p] == s as int;
        detach(&mut self.slots, &mut self.head, &mut self.tail, s, Ghost(order), Ghost(p));
        proof {
            lemma_removed_names_no_more(order, old(self).slots@.len() as int, p);
        }
        attach_back(&mut self.slots, &mut self.head, &mut self.tail, s, Ghost(order.remove(p)));
        self.order = Ghost(order.remove(p).push(s as int));
        proof {
            lemma_moved_placed(order, p, old(self).slots@.len() as int);
            lemma_keys_keep_index(old(self).slots@, self.slots@, self.buckets@);
            lemma_moved_entries(old(self).slots@, self.slots@, order, p);
        }
    }

    /// Looks `key` up and, if it is cached, marks it as the most recently
    /// used entry and returns a copy of its value.
    pub fn get(&mut self, key: &str) -> (value: Option<String>)
        requires
            old(self).wf(),
        ensures
            final(self).wf(),
            final(self).capacity() == old(self).capacity(),
            final(self)@ == touched(old(self)@, key@),
            match value {
                Some(v) => lookup(old(self)@, key@) == Some(v@),
                None => lookup(old(self)@, key@) is None,
            },
    {
        match self.find(key) {
            Some(s) => {
                self.promote(s);
                let value = self.slots[s].value.clone();
                proof {
                    let p = choose|p: int|
                        0 <= p < old(self)@.len() && old(self).order@[p] == s && #[trigger] self@
                            == old(self)@.remove(p).push(old(self)@[p]);
                    lemma_found_at(old(self)@, p);
                    get_keeps_keys_distinct(old(self)@, key@);
                }
                Some(value)
            },
            None => {
                proof {
                    lemma_not_found(self.slots@, self.order@, key@);
                }
                None
            },
        }
    }
}

proof fn lemma_grown_keeps_chain(
    slots: Seq<Slot>,
    slot: Slot,
    head: Option<usize>,
    tail: Option<usize>,
    order: Seq<int>,
)
    requires
        chained(slots, head, tail, order),
        slots.len() < usize::MAX,
    ensures
        chained(slots.push(slot), head, tail, order),
{
    let grown = slots.push(slot);
    assert forall|p: int| 0 <= p < order.len() implies #[trigger] linked_at(grown, order, p) by {
        assert(linked_at(slots, order, p));
        assert(grown[order[p]] == slots[order[p]]);
    }
}

/// Whether `after` is `before` with the slot `s` named at the end of
/// bucket `b` in addition.
spec fn filed_in_addition(before: Seq<Vec<usize>>, after: Seq<Vec<usize>>, b: int, s: usize) -> bool {
    &&& after.len() == before.len()
    &&& 0 <= b < before.len()
    &&& after[b]@ == before[b]@.push(s)
    &&& forall|c: int| 0 <= c < before.len() && c != b ==> #[trigger] after[c] == before[c]
}

/// Whether `after` is `before` without entry `at` of bucket `b`.
spec fn struck_from(before: Seq<Vec<usize>>, after: Seq<Vec<usize>>, b: int, at: int) -> bool {
    &&& after.len() == before.len()
    &&& 0 <= b < before.len()
    &&& 0 <= at < before[b]@.len()
    &&& after[b]@ == before[b]@.remove(at)
    &&& forall|c: int| 0 <= c < before.len() && c != b ==> #[trigger] after[c] == before[c]
}

/// Whether the buckets index every slot but `h`, which they do not name.
spec fn indexed_but(slots: Seq<Slot>, buckets: Seq<Vec<usize>>, h: int) -> bool {
    &&& buckets.len() > 0
    &&& forall|b: int, k: int|
        0 <= b < buckets.len() && 0 <= k < buckets[b]@.len() ==> #[trigger] filed_rightly(
            slots,
            buckets,
            b,
            k,
        ) && buckets[b]@[k] != h
    &&& forall|s: int| 0 <= s < slots.len() && s != h ==> #[trigger] is_filed(slots, buckets, s)
    &&& filed_once(buckets)
}

proof fn lemma_struck_leaves_rest(
    slots: Seq<Slot>,
    before: Seq<Vec<usize>>,
    after: Seq<Vec<usize>>,
    h: int,
    at: int,
)
    requires
        indexed(slots, before),
        0 <= h < slots.len(),
        slots.len() <= usize::MAX,
        struck_from(before, after, bucket_of(slots[h].key@, before.len() as int), at),
        before[bucket_of(slots[h].key@, before.len() as int)]@[at] == h,
    ensures
        indexed_but(slots, after, h),
{
    let home = bucket_of(slots[h].key@, before.len() as int);
    assert forall|b: int, k: int|
        0 <= b < after.len() && 0 <= k < after[b]@.len() implies #[trigger] filed_rightly(
        slots,
        after,
        b,
        k,
    ) && after[b]@[k] != h by {
        if b == home {
            let from = if k < at { k } else { k + 1 };
            assert(after[b]@[k] == before[b]@[from]);
            assert(filed_rightly(slots, before, b, from));
            if from < at {
                assert(before[b]@[from] != before[b]@[at]);
            } else {
                assert(before[b]@[at] != before[b]@[from]);
            }
        } else {
            assert(after[b] == before[b]);
            assert(filed_rightly(slots, before, b, k));
        }
    }
    assert forall|s: int| 0 <= s < slots.len() && s != h implies #[trigger] is_filed(
        slots,
        after,
        s,
    ) by {
        assert(is_filed(slots, before, s));
        let b = bucket_of(slots[s].key@, before.len() as int);
        let k = choose|k: int| 0 <= k < before[b]@.len() && before[b]@[k] == s as usize;
        if b == home {
            assert(k != at);
            let to = if k < at { k } else { k - 1 };
            assert(after[b]@[to] == before[b]@[k]);
            assert(after[b]@[to] == s as usize);
        } else {
            assert(after[b] == before[b]);
            assert(after[b]@[k] == s as usize);
        }
    }
    assert forall|b: int, k: int, l: int|
        0 <= b < after.len() && 0 <= k < l < after[b]@.len() implies #[trigger] after[b]@[k]
        != #[trigger] after[b]@[l] by {
        if b == home {
            let from_k = if k < at { k } else { k + 1 };
            let from_l = if l < at { l } else { l + 1 };
            assert(after[b]@[k] == before[b]@[from_k] && after[b]@[l] == before[b]@[from_l]);
            assert(before[b]@[from_k] != before[b]@[from_l]);
        } else {
            assert(after[b] == before[b]);
            assert(before[b]@[k] != before[b]@[l]);
        }
    }
}

proof fn lemma_filed_completes(
    old_slots: Seq<Slot>,
    slots: Seq<Slot>,
    before: Seq<Vec<usize>>,
    after: Seq<Vec<usize>>,
    h: int,
)
    requires
        indexed_but(old_slots, before, h),
        0 <= h < slots.len(),
        slots.len() <= usize::MAX,
        slots.len() == old_slots.len() || (slots.len() == old_slots.len() + 1 && h
            == old_slots.len()),
        forall|i: int| 0 <= i < old_slots.len() && i != h ==> (#[trigger] slots[i]).key == old_slots[i].key,
        filed_in_addition(before, after, bucket_of(slots[h].key@, before.len() as int), h as usize),
    ensures
        indexed(slots, after),
{
    let home = bucket_of(slots[h].key@, before.len() as int);
    assert forall|b: int, k: int|
        0 <= b < after.len() && 0 <= k < after[b]@.len() implies #[trigger] filed_rightly(
        slots,
        after,
        b,
        k,
    ) by {
        if b == home && k == before[b]@.len() {
            assert(after[b]@[k] == h as usize);
        } else {
            if b != home {
                assert(after[b] == before[b]);
            }
            assert(after[b]@[k] == before[b]@[k]);
            assert(filed_rightly(old_slots, before, b, k));
            assert(slots[before[b]@[k] as int].key == old_slots[before[b]@[k] as int].key);
        }
    }
    assert forall|s: int| 0 <= s < slots.len() implies #[trigger] is_filed(slots, after, s) by {
        if s == h {
            assert(after[home]@[before[home]@.len() as int] == h as usize);
        } else {
            assert(is_filed(old_slots, before, s));
            assert(slots[s].key == old_slots[s].key);
            let b = bucket_of(slots[s].key@, before.len() as int);
            let k = choose|k: int| 0 <= k < before[b]@.len() && before[b]@[k] == s as usize;
            if b != home {
                assert(after[b] == before[b]);
            }
            assert(after[b]@[k] == s as usize);
        }
    }
    assert forall|b: int, k: int, l: int|
        0 <= b < after.len() && 0 <= k < l < after[b]@.len() implies #[trigger] after[b]@[k]
        != #[trigger] after[b]@[l] by {
        if b != home {
            assert(after[b] == before[b]);
            assert(before[b]@[k] != before[b]@[l]);
        } else {
            assert(after[b]@[k] == before[b]@[k]);
            assert(filed_rightly(old_slots, before, b, k));
            if l < before[b]@.len() {
                assert(after[b]@[l] == before[b]@[l]);
                assert(before[b]@[k] != before[b]@[l]);
            } else {
                assert(after[b]@[l] == h as usize);
            }
        }
    }
}

proof fn lemma_whole_index_names_all(slots: Seq<Slot>, buckets: Seq<Vec<usize>>, h: int)
    requires
        indexed(slots, buckets),
        h >= slots.len(),
    ensures
        indexed_but(slots, buckets, h),
{
    assert forall|b: int, k: int|
        0 <= b < buckets.len() && 0 <= k < buckets[b]@.len() implies #[trigger] filed_rightly(
        slots,
        buckets,
        b,
        k,
    ) && buckets[b]@[k] != h by {
        assert(filed_rightly(slots, buckets, b, k));
    }
}

impl ThumbnailMemoryCache {
    /// Puts a new entry into a new slot, at the most recently used end.
    fn append(&mut self, key: String, value: String)
        requires
            old(self).built_well(),
            old(self).slots@.len() < usize::MAX,
            forall|s: int|
                0 <= s < old(self).slots@.len() ==> (#[trigger] old(self).slots@[s]).key@ != key@,
        ensures
            final(self).built_well(),
            final(self).max_size == old(self).max_size,
            final(self)@ == old(self)@.push((key@, value@)),
    {
        let ghost order = self.order@;
        let s = self.slots.len();
        let bucket = bucket_for(key.as_str(), self.buckets.len());
        let slot = Slot { key, value, prev: None, next: None };
        self.slots.push(slot);
        proof {
            lemma_grown_keeps_chain(old(self).slots@, slot, self.head, self.tail, order);
            lemma_whole_index_names_all(old(self).slots@, self.buckets@, s as int);
        }
        file(&mut self.buckets, bucket, s);
        proof {
            lemma_filed_completes(
                old(self).slots@,
                self.slots@,
                old(self).buckets@,
                self.buckets@,
                s as int,
            );
        }
        let ghost grown = self.slots@;
        attach_back(&mut self.slots, &mut self.head, &mut self.tail, s, Ghost(order));
        self.order = Ghost(order.push(s as int));
        proof {
            lemma_keys_keep_index_only(grown, self.slots@, self.buckets@);
            assert forall|i: int, j: int| 0 <= i < j < self.slots@.len() implies (
            #[trigger] self.slots@[i]).key@ != (#[trigger] self.slots@[j]).key@ by {
                assert(self.slots@[i].key == grown[i].key && self.slots@[j].key == grown[j].key);
                if j < s {
                    assert(old(self).slots@[i].key@ != old(self).slots@[j].key@);
                } else {
                    assert(old(self).slots@[i].key@ != key@);
                }
            }
            assert forall|t: int| 0 <= t < self.slots@.len() implies #[trigger] placed(
                self.order@,
                t,
            ) by {
                if t < s {
                    assert(placed(order, t));
                    let q = choose|q: int| 0 <= q < order.len() && #[trigger] order[q] == t;
                    assert(self.order@[q] == t);
                } else {
                    assert(self.order@[order.len() as int] == t);
                }
            }
            assert(self@ =~= old(self)@.push((key@, value@))) by {
                assert forall|q: int| 0 <= q < self.order@.len() implies self@[q] == old(self)@.push(
                    (key@, value@),
                )[q] by {
                    if q < order.len() {
                        assert(self.order@[q] == order[q]);
                        assert(self.slots@[order[q]].key == grown[order[q]].key);
                        assert(self.slots@[order[q]].value == grown[order[q]].value);
                    } else {
                        assert(self.slots@[s as int].key == grown[s as int].key);
                        assert(self.slots@[s as int].value == grown[s as int].value);
                    }
                }
            }
        }
    }
}

proof fn lemma_keys_keep_index_only(before: Seq<Slot>, after: Seq<Slot>, buckets: Seq<Vec<usize>>)
    requires
        same_entries(before, after),
        indexed(before, buckets),
    ensures
        indexed(after, buckets),
{
    assert forall|b: int, k: int|
        0 <= b < buckets.len() && 0 <= k < buckets[b]@.len() implies #[trigger] filed_rightly(
        after,
        buckets,
        b,
        k,
    ) by {
        assert(filed_rightly(before, buckets, b, k));
    }
    assert forall|s: int| 0 <= s < after.len() implies #[trigger] is_filed(after, buckets, s) by {
        assert(is_filed(before, buckets, s));
    }
}

impl ThumbnailMemoryCache {
    /// Replaces the value of the slot `s`.
    fn replace_value(&mut self, s: usize, value: String)
        requires
            old(self).built_well(),
            s < old(self).slots@.len(),
        ensures
            final(self).built_well(),
            final(self).max_size == old(self).max_size,
            final(self).order@ == old(self).order@,
            final(self).slots@.len() == old(self).slots@.len(),
            final(self).slots@[s as int].key == old(self).slots@[s as int].key,
            forall|p: int|
                0 <= p < old(self)@.len() ==> #[trigger] final(self)@[p] == if old(self).order@[p]
                    == s {
                    (old(self)@[p].0, value@)
                } else {
                    old(self)@[p]
                },
            final(self)@.len() == old(self)@.len(),
    {
        self.slots[s].value = value;
        proof {
            lemma_links_keep_chain(
                old(self).slots@,
                self.slots@,
                self.head,
                self.tail,
                self.order@,
            );
            lemma_keys_keep_index(old(self).slots@, self.slots@, self.buckets@);
        }
    }

    /// Puts a new entry into the slot of the least recently used entry, at
    /// the most recently used end.
    fn recycle(&mut self, key: String, value: String)
        requires
            old(self).built_well(),
            old(self).slots@.len() > 0,
            forall|s: int|
                0 <= s < old(self).slots@.len() ==> (#[trigger] old(self).slots@[s]).key@ != key@,
        ensures
            final(self).built_well(),
            final(self).max_size == old(self).max_size,
            final(self)@ == old(self)@.drop_first().push((key@, value@)),
    {
        let ghost order = self.order@;
        let ghost slots0 = self.slots@;
        let ghost buckets0 = self.buckets@;
        assert(self.head == link(order, 0));
        let h = self.head.unwrap();
        detach(&mut self.slots, &mut self.head, &mut self.tail, h, Ghost(order), Ghost(0));
        let ghost slots1 = self.slots@;
        let ghost rest = order.remove(0);
        proof {
            lemma_removed_names_no_more(order, slots0.len() as int, 0);
            lemma_keys_keep_index(slots0, slots1, buckets0);
            assert(is_filed(slots1, buckets0, h as int));
        }
        let old_bucket = bucket_for(self.slots[h].key.as_str(), self.buckets.len());
        let at = unfile(&mut self.buckets, old_bucket, h);
        let ghost buckets1 = self.buckets@;
        proof {
            lemma_struck_leaves_rest(slots1, buckets0, buckets1, h as int, at@);
        }
        let new_bucket = bucket_for(key.as_str(), self.buckets.len());
        self.slots[h].key = key;
        self.slots[h].value = value;
        let ghost slots2 = self.slots@;
        file(&mut self.buckets, new_bucket, h);
        proof {
            lemma_links_keep_chain(slots1, slots2, self.head, self.tail, rest);
            lemma_filed_completes(slots1, slots2, buckets1, self.buckets@, h as int);
        }
        attach_back(&mut self.slots, &mut self.head, &mut self.tail, h, Ghost(rest));
        self.order = Ghost(rest.push(h as int));
        proof {
            lemma_keys_keep_index_only(slots2, self.slots@, self.buckets@);
            assert forall|i: int, j: int| 0 <= i < j < self.slots@.len() implies (
            #[trigger] self.slots@[i]).key@ != (#[trigger] self.slots@[j]).key@ by {
                assert(self.slots@[i].key == slots2[i].key && self.slots@[j].key == slots2[j].key);
                if i == h {
                    assert(slots2[j].key == slots1[j].key);
                    assert(slots0[j].key@ != key@);
                } else if j == h {
                    assert(slots2[i].key == slots1[i].key);
                    assert(slots0[i].key@ != key@);
                } else {
                    assert(slots2[i].key == slots1[i].key && slots2[j].key == slots1[j].key);
                    assert(slots0[i].key@ != slots0[j].key@);
                }
            }
            lemma_moved_placed(order, 0, slots0.len() as int);
            assert(self@ =~= old(self)@.drop_first().push((key@, value@))) by {
                assert forall|q: int| 0 <= q < self.order@.len() implies self@[q] == old(
                    self,
                )@.drop_first().push((key@, value@))[q] by {
                    if q < order.len() - 1 {
                        assert(self.order@[q] == order[q + 1]);
                        assert(order[0] != order[q + 1]);
                        let t = order[q + 1];
                        assert(self.slots@[t].key == slots2[t].key);
                        assert(self.slots@[t].value == slots2[t].value);
                        assert(slots1[t].key == slots0[t].key);
                        assert(slots1[t].value == slots0[t].value);
                    } else {
                        assert(self.order@[q] == h);
                        assert(self.slots@[h as int].key == slots2[h as int].key);
                        assert(self.slots@[h as int].value == slots2[h as int].value);
                    }
                }
            }
        }
    }

    /// Caches `value` under `key` as the most recently used entry. A value
    /// cached under `key` before is replaced; otherwise, if the cache is
    /// full, the least recently used entry makes room. A cache of capacity
    /// zero takes nothing.
    pub fn insert(&mut self, key: String, value: String)
        requires
            old(self).wf(),
        ensures
            final(self).wf(),
            final(self).capacity() == old(self).capacity(),
            final(self)@ == inserted(old(self)@, old(self).capacity(), key@, value@),
    {
        if self.max_size == 0 {
            return ;
        }
        match self.find(key.as_str()) {
            Some(s) => {
                self.replace_value(s, value);
                let ghost replaced = self@;
                self.promote(s);
                proof {
                    let p = choose|p: int|
                        0 <= p < replaced.len() && old(self).order@[p] == s && #[trigger] self@
                            == replaced.remove(p).push(replaced[p]);
                    lemma_found_at(old(self)@, p);
                    assert(self@ =~= old(self)@.remove(p).push((key@, value@))) by {
                        assert forall|q: int| 0 <= q < self@.len() implies self@[q] == old(
                            self,
                        )@.remove(p).push((key@, value@))[q] by {
                            if q < self@.len() - 1 {
                                let from = if q < p { q } else { q + 1 };
                                assert(self@[q] == replaced[from]);
                                assert(old(self).order@[from] != old(self).order@[p]) by {
                                    if from < p {
                                        assert(old(self).order@[from] != old(self).order@[p]);
                                    } else {
                                        assert(old(self).order@[p] != old(self).order@[from]);
                                    }
                                }
                            }
                        }
                    }
                }
            },
            None => {
                proof {
                    lemma_not_found(self.slots@, self.order@, key@);
                }
                if self.slots.len() >= self.max_size {
                    self.recycle(key, value);
                } else {
                    self.append(key, value);
                }
            },
        }
        proof {
            insert_keeps_invariant(old(self)@, old(self).capacity(), key@, value@);
        }
    }
}

} // verus!
