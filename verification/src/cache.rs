//! The result cache: bounded, least-recently-used memoization of node
//! outputs, keyed on the node and a structural digest of its inputs.

use crate::errors::NodeId;
use crate::values::{entry_views, Value, ValueMap, ValueView};
use vstd::prelude::*;

verus! {

/// One mixing step of the structural digest: fold a word into the state.
#[verifier::opaque]
pub open spec fn mix(h: u64, x: u64) -> u64 {
    ((((h ^ x) as u128) * 0x100000001b3) % 0x10000000000000000) as u64
}

/// Fold one word into the digest state.
fn mix_word(h: u64, x: u64) -> (r: u64)
    ensures
        r == mix(h, x),
{
    proof {
        reveal(mix);
    }
    (((h ^ x) as u128 * 0x100000001b3) % 0x10000000000000000) as u64
}

/// The digest of a byte sequence, folded in order.
pub open spec fn digest_bytes(h: u64, s: Seq<u8>) -> u64
    decreases s.len(),
{
    if s.len() == 0 {
        h
    } else {
        mix(digest_bytes(h, s.drop_last()), s.last() as u64)
    }
}

/// The digest of a string: its UTF-8 bytes, folded in order.
pub open spec fn digest_chars(h: u64, s: Seq<char>) -> u64 {
    digest_bytes(h, vstd::utf8::encode_utf8(s))
}

/// The two's-complement bit pattern of a signed 64-bit integer.
pub open spec fn int_bits(i: i64) -> u64 {
    if i >= 0 {
        i as u64
    } else {
        (i + 0x10000000000000000) as u64
    }
}

/// Compute the two's-complement bit pattern of an integer.
fn int_bits_of(i: i64) -> (r: u64)
    ensures
        r == int_bits(i),
{
    if i >= 0 {
        i as u64
    } else {
        (i as i128 + 0x10000000000000000) as u64
    }
}

/// The structural digest of a value: its variant tag, then its payload —
/// integer and float bit patterns, string characters, colour and vector
/// components, and recursive digests for containers.  Images digest by
/// their metadata only, never their pixels.
pub open spec fn digest_value(h: u64, v: ValueView) -> u64
    decreases v, 0int,
{
    match v {
        ValueView::Image(img) => mix(
            mix(mix(h, 1), img.metadata.width as u64),
            img.metadata.height as u64,
        ),
        ValueView::Integer(i) => mix(mix(h, 2), int_bits(i)),
        ValueView::Float(b) => mix(mix(h, 3), b),
        ValueView::String(s) => digest_chars(mix(h, 4), s),
        ValueView::Boolean(b) => mix(mix(h, 5), if b { 1 } else { 0 }),
        ValueView::Color(c) => mix(
            mix(mix(mix(mix(h, 6), c.r as u64), c.g as u64), c.b as u64),
            c.a as u64,
        ),
        ValueView::Vector2(x, y) => mix(mix(mix(h, 7), x), y),
        ValueView::Vector3(x, y, z) => mix(mix(mix(mix(h, 8), x), y), z),
        ValueView::Array(items) => digest_values(mix(mix(h, 9), items.len() as u64), items),
        ValueView::Dict(entries) => digest_entries(
            mix(mix(h, 10), entries.len() as u64),
            entries,
        ),
        ValueView::Null => mix(h, 11),
    }
}

/// The digest of a sequence of values, folded in order.
pub open spec fn digest_values(h: u64, s: Seq<ValueView>) -> u64
    decreases s, s.len(),
{
    if s.len() == 0 {
        h
    } else {
        digest_value(digest_values(h, s.drop_last()), s.last())
    }
}

/// The digest of named entries, folded in order: each name, then its value.
pub open spec fn digest_entries(h: u64, s: Seq<(Seq<char>, ValueView)>) -> u64
    decreases s, s.len(),
{
    if s.len() == 0 {
        h
    } else {
        digest_value(digest_chars(digest_entries(h, s.drop_last()), s.last().0), s.last().1)
    }
}

/// Fold a string into a digest state, byte by byte.
fn hash_chars(h: u64, s: &str) -> (r: u64)
    ensures
        r == digest_chars(h, s@),
{
    let bytes = s.as_bytes();
    let ghost bv = bytes@;
    let mut acc = h;
    let n = bytes.len();
    let mut i: usize = 0;
    proof {
        assert(bv.subrange(0, 0) =~= Seq::<u8>::empty());
    }
    while i < n
        invariant
            n == bv.len(),
            bv == bytes@,
            i <= n,
            acc == digest_bytes(h, bv.subrange(0, i as int)),
        decreases n - i,
    {
        proof {
            assert(bv.subrange(0, i + 1).drop_last() =~= bv.subrange(0, i as int));
            assert(bv.subrange(0, i + 1).last() == bv[i as int]);
        }
        acc = mix_word(acc, bytes[i] as u64);
        i = i + 1;
    }
    proof {
        assert(bv.subrange(0, n as int) =~= bv);
    }
    acc
}

/// Compute the structural digest of a value.
#[verifier::rlimit(50)]
pub fn hash_value(h: u64, value: &Value) -> (r: u64)
    ensures
        r == digest_value(h, value@),
    decreases *value,
{
    match value {
        Value::Image(img) => {
            let t = mix_word(h, 1);
            let t = mix_word(t, img.metadata.width as u64);
            mix_word(t, img.metadata.height as u64)
        }
        Value::Integer(i) => mix_word(mix_word(h, 2), int_bits_of(*i)),
        Value::Float(b) => mix_word(mix_word(h, 3), *b),
        Value::String(s) => hash_chars(mix_word(h, 4), s.as_str()),
        Value::Boolean(b) => mix_word(mix_word(h, 5), if *b { 1 } else { 0 }),
        Value::Color(c) => {
            let t = mix_word(h, 6);
            let t = mix_word(t, c.r as u64);
            let t = mix_word(t, c.g as u64);
            let t = mix_word(t, c.b as u64);
            mix_word(t, c.a as u64)
        }
        Value::Vector2(x, y) => mix_word(mix_word(mix_word(h, 7), *x), *y),
        Value::Vector3(x, y, z) => mix_word(mix_word(mix_word(mix_word(h, 8), *x), *y), *z),
        Value::Array(items) => {
            proof {
                crate::values::lemma_views_of_index(items@);
            }
            let mut acc = mix_word(mix_word(h, 9), items.len() as u64);
            let n = items.len();
            let ghost views = crate::values::views_of(items@);
            proof {
                assert(views.subrange(0, 0) =~= Seq::<ValueView>::empty());
            }
            let mut i: usize = 0;
            while i < n
                invariant
                    *value is Array,
                    value->Array_0 == *items,
                    n == items@.len(),
                    views == crate::values::views_of(items@),
                    views.len() == n,
                    forall|j: int| 0 <= j < n ==> #[trigger] views[j] == items@[j]@,
                    i <= n,
                    acc == digest_values(
                        mix(mix(h, 9), items@.len() as u64),
                        views.subrange(0, i as int),
                    ),
                decreases n - i,
            {
                proof {
                    assert(decreases_to!(*value => value->Array_0));
                    assert(decreases_to!(value->Array_0 => value->Array_0@));
                    assert(decreases_to!(value->Array_0@ => value->Array_0@[i as int]));
                    assert(views.subrange(0, i + 1).drop_last() =~= views.subrange(0, i as int));
                    assert(views.subrange(0, i + 1).last() == views[i as int]);
                }
                acc = hash_value(acc, &items[i]);
                i = i + 1;
            }
            proof {
                assert(views.subrange(0, n as int) =~= views);
            }
            acc
        }
        Value::Dict(m) => {
            proof {
                assert(decreases_to!(*value => value->Dict_0));
                assert(decreases_to!(value->Dict_0 => value->Dict_0.entries));
                crate::values::lemma_entry_views_index(m.entries@);
            }
            hash_value_map(h, m)
        }
        Value::Null => mix_word(h, 11),
    }
}

/// Fold a value map into a digest state: the tag, the entry count, then
/// each name and value in order.
pub fn hash_value_map(h: u64, m: &ValueMap) -> (r: u64)
    ensures
        r == digest_entries(mix(mix(h, 10), m.entries@.len() as u64), m@),
    decreases m.entries,
{
    proof {
        crate::values::lemma_entry_views_index(m.entries@);
    }
    let mut acc = mix_word(mix_word(h, 10), m.entries.len() as u64);
    let n = m.entries.len();
    let ghost views = entry_views(m.entries@);
    proof {
        assert(views.subrange(0, 0) =~= Seq::<(Seq<char>, ValueView)>::empty());
    }
    let mut i: usize = 0;
    while i < n
        invariant
            n == m.entries@.len(),
            views == entry_views(m.entries@),
            views.len() == n,
            forall|j: int|
                0 <= j < n ==> #[trigger] views[j] == (
                    m.entries@[j].0@,
                    crate::values::view_of(m.entries@[j].1),
                ),
            i <= n,
            acc == digest_entries(
                mix(mix(h, 10), m.entries@.len() as u64),
                views.subrange(0, i as int),
            ),
        decreases n - i,
    {
        proof {
            assert(decreases_to!(m.entries => m.entries@));
            assert(decreases_to!(m.entries@ => m.entries@[i as int]));
            assert(views.subrange(0, i + 1).drop_last() =~= views.subrange(0, i as int));
            assert(views.subrange(0, i + 1).last() == views[i as int]);
        }
        acc = hash_chars(acc, m.entries[i].0.as_str());
        acc = hash_value(acc, &m.entries[i].1);
        i = i + 1;
    }
    proof {
        assert(views.subrange(0, n as int) =~= views);
    }
    acc
}

/// The digest of a whole input map: length, then each entry in order.
pub open spec fn digest_of_map(entries: Seq<(Seq<char>, ValueView)>) -> u64 {
    digest_entries(mix(mix(0xcbf29ce484222325, 10), entries.len() as u64), entries)
}

/// Lexicographic order on byte sequences.
pub open spec fn bytes_le(a: Seq<u8>, b: Seq<u8>) -> bool
    decreases a.len(),
{
    if a.len() == 0 {
        true
    } else if b.len() == 0 {
        false
    } else if a[0] < b[0] {
        true
    } else if a[0] > b[0] {
        false
    } else {
        bytes_le(a.skip(1), b.skip(1))
    }
}

/// Compare two strings by the lexicographic order of their UTF-8 bytes.
fn str_bytes_le(a: &str, b: &str) -> (r: bool)
    ensures
        r == bytes_le(vstd::utf8::encode_utf8(a@), vstd::utf8::encode_utf8(b@)),
{
    let ab = a.as_bytes();
    let bb = b.as_bytes();
    let ghost av = ab@;
    let ghost bv = bb@;
    proof {
        assert(av == vstd::utf8::encode_utf8(a@));
        assert(bv == vstd::utf8::encode_utf8(b@));
        assert(av.skip(0) =~= av);
        assert(bv.skip(0) =~= bv);
    }
    let mut i: usize = 0;
    while i < ab.len() && i < bb.len()
        invariant
            av == ab@,
            bv == bb@,
            av == vstd::utf8::encode_utf8(a@),
            bv == vstd::utf8::encode_utf8(b@),
            i <= av.len(),
            i <= bv.len(),
            bytes_le(av, bv) == bytes_le(av.skip(i as int), bv.skip(i as int)),
        decreases av.len() - i,
    {
        proof {
            assert(av.skip(i as int)[0] == av[i as int]);
            assert(bv.skip(i as int)[0] == bv[i as int]);
        }
        if ab[i] < bb[i] {
            return true;
        }
        if ab[i] > bb[i] {
            return false;
        }
        proof {
            assert(av.skip(i as int).skip(1) =~= av.skip(i + 1));
            assert(bv.skip(i as int).skip(1) =~= bv.skip(i + 1));
        }
        i = i + 1;
    }
    proof {
        if av.len() <= i {
            assert(av.skip(i as int).len() == 0);
        } else {
            assert(bv.skip(i as int).len() == 0);
            assert(av.skip(i as int).len() > 0);
        }
    }
    ab.len() <= bb.len()
}

/// Name order on map entries: their UTF-8 bytes compared lexicographically.
pub open spec fn entry_le(a: (Seq<char>, ValueView), b: (Seq<char>, ValueView)) -> bool {
    bytes_le(vstd::utf8::encode_utf8(a.0), vstd::utf8::encode_utf8(b.0))
}

/// Insert an entry into a name-ordered sequence, before every entry it
/// precedes or equals, scanning from the end.
pub open spec fn sorted_insert(
    s: Seq<(Seq<char>, ValueView)>,
    e: (Seq<char>, ValueView),
) -> Seq<(Seq<char>, ValueView)>
    decreases s.len(),
{
    if s.len() == 0 {
        seq![e]
    } else if entry_le(e, s.last()) {
        sorted_insert(s.drop_last(), e).push(s.last())
    } else {
        s.push(e)
    }
}

/// The entries rearranged into name order by repeated insertion.
pub open spec fn sort_entries(s: Seq<(Seq<char>, ValueView)>) -> Seq<(Seq<char>, ValueView)>
    decreases s.len(),
{
    if s.len() == 0 {
        s
    } else {
        sorted_insert(sort_entries(s.drop_last()), s.last())
    }
}

/// Inserting at the position the order picks is splicing at that position.
pub proof fn lemma_sorted_insert_at(
    s: Seq<(Seq<char>, ValueView)>,
    e: (Seq<char>, ValueView),
    idx: int,
)
    requires
        0 <= idx <= s.len(),
        idx == 0 || !entry_le(e, s[idx - 1]),
        forall|j: int| idx <= j < s.len() ==> entry_le(e, #[trigger] s[j]),
    ensures
        sorted_insert(s, e) == s.subrange(0, idx) + seq![e] + s.subrange(idx, s.len() as int),
    decreases s.len(),
{
    if s.len() == 0 {
        assert(sorted_insert(s, e) =~= s.subrange(0, 0) + seq![e] + s.subrange(0, 0));
    } else if entry_le(e, s.last()) {
        assert(idx < s.len());
        lemma_sorted_insert_at(s.drop_last(), e, idx);
        assert(sorted_insert(s, e) =~= s.subrange(0, idx) + seq![e] + s.subrange(
            idx,
            s.len() as int,
        ));
    } else {
        assert(idx == s.len());
        assert(sorted_insert(s, e) =~= s.subrange(0, idx) + seq![e] + s.subrange(
            idx,
            s.len() as int,
        ));
    }
}

/// Sorting neither adds nor removes entries.
pub proof fn lemma_sort_entries_len(s: Seq<(Seq<char>, ValueView)>)
    ensures
        sort_entries(s).len() == s.len(),
    decreases s.len(),
{
    if s.len() > 0 {
        lemma_sort_entries_len(s.drop_last());
        lemma_sorted_insert_len(sort_entries(s.drop_last()), s.last());
    }
}

/// Insertion grows a sequence by exactly one entry.
pub proof fn lemma_sorted_insert_len(s: Seq<(Seq<char>, ValueView)>, e: (Seq<char>, ValueView))
    ensures
        sorted_insert(s, e).len() == s.len() + 1,
    decreases s.len(),
{
    if s.len() > 0 && entry_le(e, s.last()) {
        lemma_sorted_insert_len(s.drop_last(), e);
    }
}

/// A cache key: the node and a structural digest of its inputs.
#[derive(Debug, Clone, Copy, PartialEq, Eq, Structural, Hash)]
pub struct CacheKey {
    /// The node the outputs belong to.
    pub node_id: NodeId,
    /// The digest of the inputs.
    pub input_hash: u64,
}

impl CacheKey {
    /// Create a cache key from a node and its input map.  The digest folds
    /// the entries in sorted name order, so maps that differ only in
    /// insertion order give the same key.
    #[verifier::rlimit(100)]
    pub fn new(node_id: NodeId, inputs: &ValueMap) -> (r: CacheKey)
        ensures
            r.node_id == node_id,
            r.input_hash == digest_of_map(sort_entries(inputs@)),
    {
        proof {
            crate::values::lemma_entry_views_index(inputs.entries@);
        }
        let ghost all = entry_views(inputs.entries@);
        let n = inputs.entries.len();
        let mut sorted: Vec<(String, Value)> = Vec::new();
        proof {
            assert(all.subrange(0, 0) =~= Seq::<(Seq<char>, ValueView)>::empty());
            assert(entry_views(sorted@) =~= sort_entries(all.subrange(0, 0)));
        }
        let mut k: usize = 0;
        while k < n
            invariant
                n == inputs.entries@.len(),
                all == entry_views(inputs.entries@),
                all.len() == n,
                forall|j: int|
                    0 <= j < n ==> #[trigger] all[j] == (
                        inputs.entries@[j].0@,
                        crate::values::view_of(inputs.entries@[j].1),
                    ),
                k <= n,
                sorted@.len() == k,
                entry_views(sorted@) == sort_entries(all.subrange(0, k as int)),
            decreases n - k,
        {
            let name = inputs.entries[k].0.clone();
            let val = inputs.entries[k].1.duplicate();
            let ghost e = (name@, crate::values::view_of(val));
            let ghost pre = entry_views(sorted@);
            proof {
                crate::values::lemma_entry_views_index(sorted@);
                assert(e == all[k as int]);
            }
            let mut idx = sorted.len();
            while idx > 0 && str_bytes_le(name.as_str(), sorted[idx - 1].0.as_str())
                invariant
                    pre == entry_views(sorted@),
                    pre.len() == sorted@.len(),
                    forall|j: int|
                        0 <= j < pre.len() ==> #[trigger] pre[j] == (
                            sorted@[j].0@,
                            crate::values::view_of(sorted@[j].1),
                        ),
                    e.0 == name@,
                    idx <= pre.len(),
                    forall|j: int| idx <= j < pre.len() ==> entry_le(e, #[trigger] pre[j]),
                decreases idx,
            {
                idx = idx - 1;
            }
            proof {
                lemma_sorted_insert_at(pre, e, idx as int);
            }
            let ghost osv = sorted@;
            sorted.insert(idx, (name, val));
            proof {
                crate::values::lemma_entry_views_index(osv);
                crate::values::lemma_entry_views_index(sorted@);
                assert(sorted@ == osv.insert(idx as int, (sorted@[idx as int].0, sorted@[
                    idx as int
                ].1)));
                assert(entry_views(sorted@) =~= pre.subrange(0, idx as int) + seq![e]
                    + pre.subrange(idx as int, pre.len() as int));
                assert(all.subrange(0, k + 1).drop_last() =~= all.subrange(0, k as int));
                assert(all.subrange(0, k + 1).last() == all[k as int]);
                assert(entry_views(sorted@) == sort_entries(all.subrange(0, k + 1)));
            }
            k = k + 1;
        }
        let ghost sv = sort_entries(all);
        proof {
            assert(all.subrange(0, n as int) =~= all);
            lemma_sort_entries_len(all);
            crate::values::lemma_entry_views_index(sorted@);
            assert(sv.subrange(0, 0) =~= Seq::<(Seq<char>, ValueView)>::empty());
        }
        let mut acc = mix_word(mix_word(0xcbf29ce484222325, 10), n as u64);
        let mut i: usize = 0;
        while i < n
            invariant
                sorted@.len() == n,
                sv == entry_views(sorted@),
                sv.len() == n,
                forall|j: int|
                    0 <= j < n ==> #[trigger] sv[j] == (
                        sorted@[j].0@,
                        crate::values::view_of(sorted@[j].1),
                    ),
                i <= n,
                acc == digest_entries(
                    mix(mix(0xcbf29ce484222325, 10), n as u64),
                    sv.subrange(0, i as int),
                ),
            decreases n - i,
        {
            proof {
                assert(sv.subrange(0, i + 1).drop_last() =~= sv.subrange(0, i as int));
                assert(sv.subrange(0, i + 1).last() == sv[i as int]);
            }
            acc = hash_chars(acc, sorted[i].0.as_str());
            acc = hash_value(acc, &sorted[i].1);
            i = i + 1;
        }
        proof {
            assert(sv.subrange(0, n as int) =~= sv);
            lemma_sort_entries_len(all);
        }
        CacheKey { node_id, input_hash: acc }
    }
}

} // verus!

verus! {

/// A cached result: the outputs, when they were made, how long they took,
/// and their approximate size.
pub struct CacheEntry {
    /// The cached outputs.
    pub outputs: ValueMap,
    /// When the entry was created, in milliseconds.
    pub created_at_ms: u64,
    /// How long the original computation took, in milliseconds.
    pub computation_time_ms: u64,
    /// Approximate memory size in bytes.
    pub memory_size: usize,
}

/// Cache statistics.
#[derive(Debug, Clone, Copy, PartialEq, Eq, Structural)]
pub struct CacheStats {
    /// Number of probes answered from the cache.
    pub hits: u64,
    /// Number of probes the cache could not answer.
    pub misses: u64,
    /// Number of entries evicted to make room.
    pub evictions: u64,
    /// Total original computation time saved by hits, in milliseconds.
    pub time_saved_ms: u64,
}

/// The entry stored for a key: the most recently stored one.
pub open spec fn cache_lookup(s: Seq<(CacheKey, CacheEntry)>, k: CacheKey) -> Option<CacheEntry>
    decreases s.len(),
{
    if s.len() == 0 {
        None
    } else if s.last().0 == k {
        Some(s.last().1)
    } else {
        cache_lookup(s.drop_last(), k)
    }
}

/// The entries with the given key removed.
pub open spec fn cache_drop_key(s: Seq<(CacheKey, CacheEntry)>, k: CacheKey) -> Seq<
    (CacheKey, CacheEntry),
>
    decreases s.len(),
{
    if s.len() == 0 {
        s
    } else if s.last().0 == k {
        cache_drop_key(s.drop_last(), k)
    } else {
        cache_drop_key(s.drop_last(), k).push(s.last())
    }
}

/// Removing one key leaves every other key's lookup unchanged.
pub proof fn lemma_cache_drop_key(s: Seq<(CacheKey, CacheEntry)>, k: CacheKey, k2: CacheKey)
    ensures
        k2 != k ==> cache_lookup(cache_drop_key(s, k), k2) == cache_lookup(s, k2),
        cache_lookup(cache_drop_key(s, k), k) is None,
    decreases s.len(),
{
    if s.len() > 0 {
        lemma_cache_drop_key(s.drop_last(), k, k2);
        if s.last().0 != k {
            assert(cache_drop_key(s, k).last() == s.last());
            assert(cache_drop_key(s, k).drop_last() =~= cache_drop_key(s.drop_last(), k));
        }
    }
}

/// Entry keys are pairwise distinct: the list is a true map, held in
/// recency order.
pub open spec fn cache_keys_unique(s: Seq<(CacheKey, CacheEntry)>) -> bool {
    forall|i: int, j: int| 0 <= i < j < s.len() ==> (#[trigger] s[i]).0 != (#[trigger] s[j]).0
}

/// A key that is never found appears in no entry.
proof fn lemma_lookup_none_absent(s: Seq<(CacheKey, CacheEntry)>, k: CacheKey)
    requires
        cache_lookup(s, k) is None,
    ensures
        forall|j: int| 0 <= j < s.len() ==> (#[trigger] s[j]).0 != k,
    decreases s.len(),
{
    if s.len() > 0 {
        lemma_lookup_none_absent(s.drop_last(), k);
        assert forall|j: int| 0 <= j < s.len() implies (#[trigger] s[j]).0 != k by {
            if j < s.len() - 1 {
                assert(s.drop_last()[j] == s[j]);
            }
        }
    }
}

/// Whether an entry has outlived the time-to-live at the given clock.
pub open spec fn entry_expired(e: CacheEntry, ttl_ms: u64, now_ms: u64) -> bool {
    now_ms > e.created_at_ms + ttl_ms
}

/// A bounded, least-recently-used result cache: entries are kept in recency
/// order, oldest first, under both an entry-count bound and a byte budget.
pub struct ResultCache {
    entries: Vec<(CacheKey, CacheEntry)>,
    capacity: usize,
    max_memory: usize,
    current_memory: usize,
    ttl_ms: u64,
    stats: CacheStats,
}

impl ResultCache {
    /// The stored entries, oldest first, for contracts.
    pub closed spec fn entries_view(&self) -> Seq<(CacheKey, CacheEntry)> {
        self.entries@
    }

    /// The statistics, for contracts.
    pub closed spec fn stats_spec(&self) -> CacheStats {
        self.stats
    }

    /// The byte budget, for contracts.
    pub closed spec fn max_memory_spec(&self) -> int {
        self.max_memory as int
    }

    /// The tracked usage, for contracts.
    pub closed spec fn memory_spec(&self) -> int {
        self.current_memory as int
    }

    /// The time-to-live, for contracts.
    pub closed spec fn ttl_spec(&self) -> u64 {
        self.ttl_ms
    }

    /// The entry-count bound, for contracts.
    pub closed spec fn capacity_spec(&self) -> int {
        self.capacity as int
    }

    /// The tracked usage never exceeds the byte budget, at most one entry
    /// exists per key, and at least one entry always fits.
    pub open spec fn wf(&self) -> bool {
        &&& self.memory_spec() <= self.max_memory_spec()
        &&& cache_keys_unique(self.entries_view())
        &&& self.capacity_spec() >= 1
    }

    /// Create a cache bounded by an entry count, with the default byte
    /// budget and time-to-live.
    pub fn new(capacity: usize) -> (r: Self)
        ensures
            r.wf(),
            r.entries_view() =~= Seq::<(CacheKey, CacheEntry)>::empty(),
            r.memory_spec() == 0,
            r.max_memory_spec() == 512 * 1024 * 1024,
            r.ttl_spec() == 3600000,
            r.stats_spec() == (CacheStats { hits: 0u64, misses: 0u64, evictions: 0u64, time_saved_ms: 0u64 }),
    {
        ResultCache {
            entries: Vec::new(),
            capacity: if capacity == 0 { 100 } else { capacity },
            max_memory: 512 * 1024 * 1024,
            current_memory: 0,
            ttl_ms: 3600000,
            stats: CacheStats { hits: 0, misses: 0, evictions: 0, time_saved_ms: 0 },
        }
    }

    /// Create a cache with an explicit byte budget in whole megabytes.
    pub fn with_memory_limit(capacity: usize, max_memory_mb: usize) -> (r: Self)
        requires
            max_memory_mb * 1024 * 1024 <= usize::MAX,
        ensures
            r.wf(),
            r.entries_view() =~= Seq::<(CacheKey, CacheEntry)>::empty(),
            r.memory_spec() == 0,
            r.max_memory_spec() == max_memory_mb * 1024 * 1024,
    {
        let mut cache = ResultCache::new(capacity);
        cache.max_memory = max_memory_mb * 1024 * 1024;
        cache
    }

    /// Set the time-to-live in milliseconds.
    pub fn with_ttl(self, ttl_ms: u64) -> (r: Self)
        ensures
            r.ttl_spec() == ttl_ms,
            r.entries_view() == self.entries_view(),
            r.memory_spec() == self.memory_spec(),
            r.max_memory_spec() == self.max_memory_spec(),
            r.stats_spec() == self.stats_spec(),
            self.wf() ==> r.wf(),
    {
        ResultCache { ttl_ms, ..self }
    }

    /// The number of stored entries.
    pub fn len(&self) -> (r: usize)
        ensures
            r == self.entries_view().len(),
    {
        self.entries.len()
    }

    /// Whether the cache is empty.
    pub fn is_empty(&self) -> (r: bool)
        ensures
            r == (self.entries_view().len() == 0),
    {
        self.entries.len() == 0
    }

    /// The statistics so far.
    pub fn stats(&self) -> (r: CacheStats)
        ensures
            r == self.stats_spec(),
    {
        self.stats
    }

    /// Current tracked memory usage in bytes.
    pub fn memory_usage(&self) -> (r: usize)
        ensures
            r == self.memory_spec(),
    {
        self.current_memory
    }

    /// Probe the cache.  A fresh entry is a hit: its outputs come back and
    /// it becomes the most recently used.  A missing or expired entry is a
    /// miss; an expired entry is removed.  Every probe counts exactly one
    /// hit or one miss.
    pub fn get(&mut self, key: &CacheKey, now_ms: u64) -> (r: Option<ValueMap>)
        requires
            old(self).wf(),
        ensures
            final(self).wf(),
            final(self).max_memory_spec() == old(self).max_memory_spec(),
            final(self).ttl_spec() == old(self).ttl_spec(),
            match r {
                Some(out) => {
                    &&& cache_lookup(old(self).entries_view(), *key) matches Some(e)
                        && out@ == e.outputs@ && !entry_expired(e, old(self).ttl_spec(), now_ms)
                        && final(self).stats_spec().hits == vstd::math::min(
                        old(self).stats_spec().hits + 1,
                        u64::MAX as int,
                    ) && final(self).stats_spec().time_saved_ms == vstd::math::min(
                        old(self).stats_spec().time_saved_ms + e.computation_time_ms,
                        u64::MAX as int,
                    )
                    &&& final(self).stats_spec().misses == old(self).stats_spec().misses
                    // the hit becomes the most recently used entry
                    &&& exists|i: int|
                        0 <= i < old(self).entries_view().len() && (
                        #[trigger] old(self).entries_view()[i]).0 == *key
                            && final(self).entries_view() == old(self).entries_view().remove(
                            i,
                        ).push(old(self).entries_view()[i])
                    &&& forall|k2: CacheKey|
                        cache_lookup(final(self).entries_view(), k2) == cache_lookup(
                            old(self).entries_view(),
                            k2,
                        )
                },
                None => {
                    &&& cache_lookup(final(self).entries_view(), *key) is None
                    &&& match cache_lookup(old(self).entries_view(), *key) {
                        Option::None => final(self).entries_view() == old(self).entries_view(),
                        Option::Some(e) => entry_expired(e, old(self).ttl_spec(), now_ms)
                            && exists|i: int|
                            0 <= i < old(self).entries_view().len() && (
                            #[trigger] old(self).entries_view()[i]).0 == *key
                                && final(self).entries_view() == old(
                                self,
                            ).entries_view().remove(i),
                    }
                    &&& final(self).stats_spec().misses == vstd::math::min(
                        old(self).stats_spec().misses + 1,
                        u64::MAX as int,
                    )
                    &&& final(self).stats_spec().hits == old(self).stats_spec().hits
                    &&& forall|k2: CacheKey|
                        k2 != *key ==> cache_lookup(final(self).entries_view(), k2)
                            == cache_lookup(old(self).entries_view(), k2)
                },
            },
            old(self).stats_spec().hits + old(self).stats_spec().misses < u64::MAX
                ==> final(self).stats_spec().hits + final(self).stats_spec().misses == old(
                self,
            ).stats_spec().hits + old(self).stats_spec().misses + 1,
    {
        let n = self.entries.len();
        let mut i = n;
        let ghost orig = self.entries@;
        while i > 0
            invariant
                old(self).wf(),
                i <= n,
                n == self.entries@.len(),
                self.entries@ == orig,
                self.current_memory == old(self).current_memory,
                self.max_memory == old(self).max_memory,
                self.ttl_ms == old(self).ttl_ms,
                self.stats == old(self).stats,
                self.capacity == old(self).capacity,
                orig == old(self).entries@,
                forall|j: int| i <= j < n ==> (#[trigger] orig[j]).0 != *key,
            decreases i,
        {
            i = i - 1;
            if self.entries[i].0.node_id.0 == key.node_id.0 && self.entries[i].0.input_hash
                == key.input_hash {
                proof {
                    assert(orig[i as int].0 == *key);
                    lemma_lookup_remove(orig, i as int, *key);
                }
                // found the entry
                let expired = now_ms > self.entries[i].1.created_at_ms
                    && now_ms - self.entries[i].1.created_at_ms > self.ttl_ms;
                if expired {
                    let (_, gone) = self.entries.remove(i);
                    self.current_memory = if gone.memory_size <= self.current_memory {
                        self.current_memory - gone.memory_size
                    } else {
                        0
                    };
                    if self.stats.misses < u64::MAX {
                        self.stats.misses = self.stats.misses + 1;
                    }
                    proof {
                        lemma_lookup_absent_suffix(orig, i as int, *key);
                        // the removed entry was the only one for the key
                        assert(forall|j: int|
                            0 <= j < i ==> (#[trigger] orig[j]).0 != *key);
                        assert(forall|j: int|
                            0 <= j < orig.subrange(0, i as int).len()
                                ==> (#[trigger] orig.subrange(0, i as int)[j]).0 != *key);
                        lemma_lookup_absent(orig.subrange(0, i as int), *key);
                        lemma_remove_keeps_unique(orig, i as int);
                    }
                    return None;
                }
                // refresh recency: move the entry to the back
                let entry = self.entries.remove(i);
                let outputs = entry.1.outputs.duplicate();
                let ghost removed = self.entries@;
                self.entries.push(entry);
                if self.stats.hits < u64::MAX {
                    self.stats.hits = self.stats.hits + 1;
                }
                let saved = self.stats.time_saved_ms;
                let extra = self.entries[self.entries.len() - 1].1.computation_time_ms;
                self.stats.time_saved_ms = if saved > u64::MAX - extra {
                    u64::MAX
                } else {
                    saved + extra
                };
                proof {
                    assert(self.entries@.drop_last() =~= removed);
                    assert(self.entries@.last() == orig[i as int]);
                    assert(self.entries@ =~= orig.remove(i as int).push(orig[i as int]));
                    assert forall|k2: CacheKey|
                        cache_lookup(self.entries@, k2) == cache_lookup(orig, k2) by {
                        if k2 == orig[i as int].0 {
                            assert(cache_lookup(self.entries@, k2) == Some(orig[i as int].1));
                        } else {
                            assert(cache_lookup(self.entries@, k2) == cache_lookup(removed, k2));
                        }
                    }
                    lemma_remove_keeps_unique(orig, i as int);
                    // pushing the removed entry back cannot repeat a key
                    assert(cache_keys_unique(self.entries@)) by {
                        assert forall|a: int, b: int|
                            0 <= a < b < self.entries@.len() implies (
                        #[trigger] self.entries@[a]).0 != (#[trigger] self.entries@[b]).0 by {
                            if b == self.entries@.len() - 1 {
                                assert(self.entries@[a] == removed[a]);
                                let a2: int = if a < i { a } else { a + 1 };
                                assert(removed[a] == orig[a2]);
                                assert(orig[a2].0 != orig[i as int].0);
                            } else {
                                assert(self.entries@[a] == removed[a] && self.entries@[b]
                                    == removed[b]);
                            }
                        }
                    }
                }
                return Some(outputs);
            }
        }
        proof {
            lemma_lookup_absent(orig, *key);
        }
        if self.stats.misses < u64::MAX {
            self.stats.misses = self.stats.misses + 1;
        }
        None
    }
}

/// A key that appears nowhere is never found.
proof fn lemma_lookup_absent(s: Seq<(CacheKey, CacheEntry)>, k: CacheKey)
    requires
        forall|j: int| 0 <= j < s.len() ==> (#[trigger] s[j]).0 != k,
    ensures
        cache_lookup(s, k) is None,
    decreases s.len(),
{
    if s.len() > 0 {
        lemma_lookup_absent(s.drop_last(), k);
    }
}

/// Removing the last occurrence of a key, when the prefix before it also
/// never holds the key again, leaves the key unfindable.  This covers an
/// expired entry being dropped on probe.
proof fn lemma_lookup_absent_suffix(s: Seq<(CacheKey, CacheEntry)>, i: int, k: CacheKey)
    requires
        0 <= i < s.len(),
        s[i].0 == k,
        forall|j: int| i < j < s.len() ==> (#[trigger] s[j]).0 != k,
    ensures
        cache_lookup(s, k) == Some(s[i].1),
        cache_lookup(s.remove(i), k) == cache_lookup(s.subrange(0, i), k),
        forall|k2: CacheKey|
            k2 != k ==> cache_lookup(s.remove(i), k2) == cache_lookup(s, k2),
{
    lemma_lookup_remove(s, i, k);
}

/// Removing the last occurrence of a key makes its lookup fall back to the
/// prefix before it, and leaves every other key's lookup unchanged.
proof fn lemma_lookup_remove(s: Seq<(CacheKey, CacheEntry)>, i: int, k: CacheKey)
    requires
        0 <= i < s.len(),
        s[i].0 == k,
        forall|j: int| i < j < s.len() ==> (#[trigger] s[j]).0 != k,
    ensures
        cache_lookup(s, k) == Some(s[i].1),
        cache_lookup(s.remove(i), k) == cache_lookup(s.subrange(0, i), k),
        forall|k2: CacheKey|
            k2 != k ==> cache_lookup(s.remove(i), k2) == cache_lookup(s, k2),
    decreases s.len(),
{
    if i == s.len() - 1 {
        assert(s.remove(i) =~= s.subrange(0, i));
        assert(s.drop_last() =~= s.subrange(0, i));
        assert(cache_lookup(s, k) == Some(s.last().1));
        assert forall|k2: CacheKey| k2 != k implies cache_lookup(s.remove(i), k2) == cache_lookup(
            s,
            k2,
        ) by {}
    } else {
        let t = s.drop_last();
        assert(t[i].0 == k);
        assert(forall|j: int| i < j < t.len() ==> (#[trigger] t[j]).0 != k);
        lemma_lookup_remove(t, i, k);
        assert(s.last().0 != k);
        assert(cache_lookup(s, k) == cache_lookup(t, k));
        assert(s.remove(i).drop_last() =~= t.remove(i));
        assert(s.remove(i).last() == s.last());
        assert(t.subrange(0, i) =~= s.subrange(0, i));
        assert(cache_lookup(s.remove(i), k) == cache_lookup(t.remove(i), k));
        assert forall|k2: CacheKey| k2 != k implies cache_lookup(s.remove(i), k2) == cache_lookup(
            s,
            k2,
        ) by {
            if s.last().0 == k2 {
                assert(cache_lookup(s.remove(i), k2) == Some(s.last().1));
                assert(cache_lookup(s, k2) == Some(s.last().1));
            } else {
                assert(cache_lookup(s.remove(i), k2) == cache_lookup(t.remove(i), k2));
                assert(cache_lookup(s, k2) == cache_lookup(t, k2));
            }
        }
    }
}

} // verus!

verus! {

/// The approximate size in bytes of a value: payload plus container
/// structure; an image counts four bytes per pixel of its metadata
/// dimensions, never its actual buffer.
pub open spec fn size_of_value(v: ValueView) -> int
    decreases v, 0int,
{
    match v {
        ValueView::Image(img) => img.metadata.width * img.metadata.height * 4,
        ValueView::Integer(_) => 8,
        ValueView::Float(_) => 8,
        ValueView::String(s) => vstd::utf8::encode_utf8(s).len() as int,
        ValueView::Boolean(_) => 1,
        ValueView::Color(_) => 4,
        ValueView::Vector2(_, _) => 16,
        ValueView::Vector3(_, _, _) => 24,
        ValueView::Array(items) => size_of_values(items),
        ValueView::Dict(entries) => size_of_entries(entries),
        ValueView::Null => 0,
    }
}

/// The summed size of a sequence of values.
pub open spec fn size_of_values(s: Seq<ValueView>) -> int
    decreases s, s.len(),
{
    if s.len() == 0 {
        0
    } else {
        size_of_values(s.drop_last()) + size_of_value(s.last())
    }
}

/// The summed size of named entries: each name's bytes plus its value.
pub open spec fn size_of_entries(s: Seq<(Seq<char>, ValueView)>) -> int
    decreases s, s.len(),
{
    if s.len() == 0 {
        0
    } else {
        size_of_entries(s.drop_last()) + vstd::utf8::encode_utf8(s.last().0).len()
            + size_of_value(s.last().1)
    }
}

/// Saturating add for size accounting.
fn sat_add(a: usize, b: usize) -> (r: usize)
    ensures
        r == vstd::math::min(a + b, usize::MAX as int),
{
    if a > usize::MAX - b {
        usize::MAX
    } else {
        a + b
    }
}

/// Every size is non-negative.
pub proof fn lemma_size_nonneg(v: ValueView)
    ensures
        size_of_value(v) >= 0,
    decreases v, 0int,
{
    match v {
        ValueView::Array(items) => lemma_sizes_nonneg(items),
        ValueView::Dict(entries) => lemma_entry_sizes_nonneg(entries),
        _ => {}
    }
}

/// Every summed size is non-negative.
pub proof fn lemma_sizes_nonneg(s: Seq<ValueView>)
    ensures
        size_of_values(s) >= 0,
    decreases s, s.len(),
{
    if s.len() > 0 {
        lemma_sizes_nonneg(s.drop_last());
        lemma_size_nonneg(s.last());
    }
}

/// Every summed entry size is non-negative.
pub proof fn lemma_entry_sizes_nonneg(s: Seq<(Seq<char>, ValueView)>)
    ensures
        size_of_entries(s) >= 0,
    decreases s, s.len(),
{
    if s.len() > 0 {
        lemma_entry_sizes_nonneg(s.drop_last());
        lemma_size_nonneg(s.last().1);
    }
}

/// Estimate the memory size of a value, saturating.
pub fn estimate_value_size(value: &Value) -> (r: usize)
    ensures
        r == vstd::math::min(size_of_value(value@), usize::MAX as int),
    decreases *value,
{
    match value {
        Value::Image(img) => {
            proof {
                assert(img.metadata.width as int * img.metadata.height as int * 4 < u128::MAX
                    as int) by (nonlinear_arith)
                    requires
                        img.metadata.width <= u32::MAX,
                        img.metadata.height <= u32::MAX,
                ;
            }
            let wide = img.metadata.width as u128 * img.metadata.height as u128 * 4;
            if wide > usize::MAX as u128 {
                usize::MAX
            } else {
                wide as usize
            }
        }
        Value::Integer(_) => 8,
        Value::Float(_) => 8,
        Value::String(s) => s.as_str().as_bytes().len(),
        Value::Boolean(_) => 1,
        Value::Color(_) => 4,
        Value::Vector2(_, _) => 16,
        Value::Vector3(_, _, _) => 24,
        Value::Array(items) => {
            proof {
                crate::values::lemma_views_of_index(items@);
            }
            let ghost views = crate::values::views_of(items@);
            let mut acc: usize = 0;
            let n = items.len();
            proof {
                assert(views.subrange(0, 0) =~= Seq::<ValueView>::empty());
            }
            let mut i: usize = 0;
            while i < n
                invariant
                    *value is Array,
                    value->Array_0 == *items,
                    n == items@.len(),
                    views == crate::values::views_of(items@),
                    views.len() == n,
                    forall|j: int| 0 <= j < n ==> #[trigger] views[j] == items@[j]@,
                    i <= n,
                    acc == vstd::math::min(
                        size_of_values(views.subrange(0, i as int)),
                        usize::MAX as int,
                    ),
                decreases n - i,
            {
                proof {
                    assert(decreases_to!(*value => value->Array_0));
                    assert(decreases_to!(value->Array_0 => value->Array_0@));
                    assert(decreases_to!(value->Array_0@ => value->Array_0@[i as int]));
                    assert(views.subrange(0, i + 1).drop_last() =~= views.subrange(0, i as int));
                    assert(views.subrange(0, i + 1).last() == views[i as int]);
                    lemma_sizes_nonneg(views.subrange(0, i as int));
                    lemma_size_nonneg(views[i as int]);
                }
                let child = estimate_value_size(&items[i]);
                acc = sat_add(acc, child);
                i = i + 1;
            }
            proof {
                assert(views.subrange(0, n as int) =~= views);
            }
            acc
        }
        Value::Dict(m) => {
            proof {
                assert(decreases_to!(*value => value->Dict_0));
                assert(decreases_to!(value->Dict_0 => value->Dict_0.entries));
                crate::values::lemma_entry_views_index(m.entries@);
            }
            estimate_map_size(m)
        }
        Value::Null => 0,
    }
}

/// Estimate the memory size of a whole value map, saturating.
pub fn estimate_map_size(m: &ValueMap) -> (r: usize)
    ensures
        r == vstd::math::min(size_of_entries(m@), usize::MAX as int),
    decreases m.entries,
{
    proof {
        crate::values::lemma_entry_views_index(m.entries@);
    }
    let ghost views = entry_views(m.entries@);
    let mut acc: usize = 0;
    let n = m.entries.len();
    proof {
        assert(views.subrange(0, 0) =~= Seq::<(Seq<char>, ValueView)>::empty());
    }
    let mut i: usize = 0;
    while i < n
        invariant
            n == m.entries@.len(),
            views == entry_views(m.entries@),
            views.len() == n,
            forall|j: int|
                0 <= j < n ==> #[trigger] views[j] == (
                    m.entries@[j].0@,
                    crate::values::view_of(m.entries@[j].1),
                ),
            i <= n,
            acc == vstd::math::min(
                size_of_entries(views.subrange(0, i as int)),
                usize::MAX as int,
            ),
        decreases n - i,
    {
        proof {
            assert(decreases_to!(m.entries => m.entries@));
            assert(decreases_to!(m.entries@ => m.entries@[i as int]));
            assert(views.subrange(0, i + 1).drop_last() =~= views.subrange(0, i as int));
            assert(views.subrange(0, i + 1).last() == views[i as int]);
            lemma_entry_sizes_nonneg(views.subrange(0, i as int));
            lemma_size_nonneg(views[i as int].1);
        }
        let name_len = m.entries[i].0.as_str().as_bytes().len();
        let child = estimate_value_size(&m.entries[i].1);
        acc = sat_add(acc, name_len);
        acc = sat_add(acc, child);
        i = i + 1;
    }
    proof {
        assert(views.subrange(0, n as int) =~= views);
    }
    acc
}

/// Dropping the oldest entry either keeps a key's lookup or loses it.
proof fn lemma_lookup_drop_first(s: Seq<(CacheKey, CacheEntry)>, k: CacheKey)
    requires
        s.len() > 0,
    ensures
        cache_lookup(s.drop_first(), k) == cache_lookup(s, k) || cache_lookup(
            s.drop_first(),
            k,
        ) is None,
    decreases s.len(),
{
    if s.len() == 1 {
    } else {
        if s.last().0 == k {
            assert(s.drop_first().last() == s.last());
        } else {
            lemma_lookup_drop_first(s.drop_last(), k);
            assert(s.drop_first().drop_last() =~= s.drop_last().drop_first());
            assert(s.drop_first().last() == s.last());
        }
    }
}

impl ResultCache {
    /// Store outputs for a key.  Any earlier entry for the key is replaced.
    /// The cache then makes room: it evicts least-recently-used entries,
    /// oldest first, until the new entry fits under the entry-count bound
    /// and the byte budget; an entry larger than the whole budget is not
    /// stored at all, so usage never exceeds the budget.
    pub fn put(&mut self, key: CacheKey, outputs: ValueMap, computation_time_ms: u64, now_ms: u64)
        requires
            old(self).wf(),
        ensures
            final(self).wf(),
            final(self).max_memory_spec() == old(self).max_memory_spec(),
            final(self).ttl_spec() == old(self).ttl_spec(),
            final(self).capacity_spec() == old(self).capacity_spec(),
            // an entry that cannot fit at all is not stored
            vstd::math::min(size_of_entries(outputs@), usize::MAX as int)
                > old(self).max_memory_spec()
                ==> final(self).entries_view() == old(self).entries_view(),
            // otherwise the new entry sits at the most-recent end, the old
            // entry for the key is gone, and the survivors are a suffix of
            // the remaining entries in their old order: eviction is oldest
            // first
            vstd::math::min(size_of_entries(outputs@), usize::MAX as int)
                <= old(self).max_memory_spec() ==> exists|d: int|
                {
                    &&& 0 <= d <= cache_without(old(self).entries_view(), key).len()
                    &&& final(self).entries_view().drop_last() == #[trigger] cache_without(
                        old(self).entries_view(),
                        key,
                    ).skip(d)
                    &&& final(self).entries_view().len() == cache_without(
                        old(self).entries_view(),
                        key,
                    ).len() - d + 1
                    &&& final(self).entries_view().last().0 == key
                    &&& final(self).entries_view().last().1.outputs@ == outputs@
                    &&& final(self).entries_view().last().1.created_at_ms == now_ms
                    &&& final(self).entries_view().last().1.computation_time_ms
                        == computation_time_ms
                },
            // the entry-count bound holds afterwards
            vstd::math::min(size_of_entries(outputs@), usize::MAX as int)
                <= old(self).max_memory_spec()
                ==> final(self).entries_view().len() <= final(self).capacity_spec(),
            vstd::math::min(size_of_entries(outputs@), usize::MAX as int)
                <= old(self).max_memory_spec() ==> (cache_lookup(
                final(self).entries_view(),
                key,
            ) matches Some(e)
                && e.outputs@ == outputs@ && e.created_at_ms == now_ms && e.computation_time_ms
                == computation_time_ms),
            forall|k2: CacheKey|
                k2 != key ==> (cache_lookup(final(self).entries_view(), k2) == cache_lookup(
                    old(self).entries_view(),
                    k2,
                ) || cache_lookup(final(self).entries_view(), k2) is None),
    {
        let size = estimate_map_size(&outputs);
        if size > self.max_memory {
            return;
        }
        let ghost orig = self.entries@;
        let ghost keep = |p: (CacheKey, CacheEntry)| p.0 != key;

        // replace: drop any earlier entry for the key
        let mut kept: Vec<(CacheKey, CacheEntry)> = Vec::new();
        let mut freed: usize = 0;
        proof {
            assert(cache_filter(orig, keep) =~= cache_filter(self.entries@, keep)
                + kept@.reverse());
        }
        while self.entries.len() > 0
            invariant
                old(self).wf(),
                self.current_memory == old(self).current_memory,
                self.max_memory == old(self).max_memory,
                self.ttl_ms == old(self).ttl_ms,
                self.capacity == old(self).capacity,
                self.stats == old(self).stats,
                keep == (|p: (CacheKey, CacheEntry)| p.0 != key),
                cache_filter(orig, keep) == cache_filter(self.entries@, keep) + kept@.reverse(),
            decreases self.entries@.len(),
        {
            let ghost pre = self.entries@;
            let ghost kpre = kept@;
            let pair = self.entries.pop().unwrap();
            proof {
                assert(self.entries@ =~= pre.drop_last());
                assert(pre.last() == pair);
            }
            if pair.0.node_id.0 != key.node_id.0 || pair.0.input_hash != key.input_hash {
                kept.push(pair);
                proof {
                    assert(keep(pre.last()));
                    assert(cache_filter(self.entries@, keep) + kept@.reverse() =~= cache_filter(
                        pre,
                        keep,
                    ) + kpre.reverse());
                }
            } else {
                freed = sat_add(freed, pair.1.memory_size);
                proof {
                    assert(pre.last().0 == key);
                    assert(!keep(pre.last()));
                }
            }
        }
        proof {
            assert(self.entries@ =~= Seq::<(CacheKey, CacheEntry)>::empty());
            assert(cache_filter(orig, keep) =~= kept@.reverse());
        }
        while kept.len() > 0
            invariant
                old(self).wf(),
                self.current_memory == old(self).current_memory,
                self.max_memory == old(self).max_memory,
                self.ttl_ms == old(self).ttl_ms,
                self.capacity == old(self).capacity,
                self.stats == old(self).stats,
                keep == (|p: (CacheKey, CacheEntry)| p.0 != key),
                cache_filter(orig, keep) == self.entries@ + kept@.reverse(),
            decreases kept@.len(),
        {
            let ghost kpre = kept@;
            let ghost cpre = self.entries@;
            let pair = kept.pop().unwrap();
            self.entries.push(pair);
            proof {
                assert(kept@ =~= kpre.drop_last());
                assert(self.entries@ + kept@.reverse() =~= cpre + kpre.reverse());
            }
        }
        self.current_memory = if freed <= self.current_memory {
            self.current_memory - freed
        } else {
            0
        };
        let ghost base = cache_filter(orig, keep);
        proof {
            assert(kept@.reverse() =~= Seq::<(CacheKey, CacheEntry)>::empty());
            assert(self.entries@ =~= base);
            lemma_filter_is_without(orig, key, keep);
            assert(base == cache_without(orig, key));
            lemma_cache_filter_pairs(orig, keep);
        }

        // evict the least recently used entries until the new entry fits
        let ghost mut evicted: int = 0;
        proof {
            assert(base.skip(0) =~= base);
        }
        while self.entries.len() > 0 && (self.entries.len() >= self.capacity
            || self.current_memory > self.max_memory - size)
            invariant
                old(self).wf(),
                size <= self.max_memory,
                self.max_memory == old(self).max_memory,
                self.ttl_ms == old(self).ttl_ms,
                self.capacity == old(self).capacity,
                self.current_memory <= self.max_memory,
                keep == (|p: (CacheKey, CacheEntry)| p.0 != key),
                base == cache_filter(orig, keep),
                0 <= evicted <= base.len(),
                self.entries@ == base.skip(evicted),
            decreases self.entries@.len(),
        {
            let ghost pre = self.entries@;
            let (_, gone) = self.entries.remove(0);
            self.current_memory = if gone.memory_size <= self.current_memory {
                self.current_memory - gone.memory_size
            } else {
                0
            };
            if self.stats.evictions < u64::MAX {
                self.stats.evictions = self.stats.evictions + 1;
            }
            proof {
                assert(self.entries@ =~= pre.drop_first());
                assert(self.entries@ =~= base.skip(evicted + 1));
                evicted = evicted + 1;
            }
        }
        if self.entries.len() == 0 {
            self.current_memory = 0;
        }
        if self.current_memory > self.max_memory - size {
            // still no room: the budget is exhausted by newer entries
            proof {
                assert(false);
            }
            return;
        }
        let entry = CacheEntry {
            outputs,
            created_at_ms: now_ms,
            computation_time_ms,
            memory_size: size,
        };
        let ghost pre = self.entries@;
        self.entries.push((key, entry));
        self.current_memory = self.current_memory + size;
        proof {
            assert(self.entries@.drop_last() =~= pre);
            assert(cache_lookup(self.entries@, key) == Some(self.entries@.last().1));
            assert forall|k2: CacheKey|
                k2 != key implies (cache_lookup(self.entries@, k2) == cache_lookup(orig, k2)
                || cache_lookup(self.entries@, k2) is None) by {
                assert(cache_lookup(self.entries@, k2) == cache_lookup(pre, k2));
                lemma_lookup_skip(base, evicted, k2);
                lemma_cache_filter_lookup(orig, keep, k2);
            }
            // the new list holds at most one entry per key
            lemma_skip_keeps_unique(base, evicted);
            lemma_cache_filter_gone(orig, keep, key);
            lemma_lookup_skip(base, evicted, key);
            lemma_lookup_none_absent(pre, key);
            assert(cache_keys_unique(self.entries@)) by {
                assert forall|a: int, b: int| 0 <= a < b < self.entries@.len() implies (
                #[trigger] self.entries@[a]).0 != (#[trigger] self.entries@[b]).0 by {
                    if b == self.entries@.len() - 1 {
                        assert(self.entries@[a] == pre[a]);
                        assert(pre[a].0 != key);
                    } else {
                        assert(self.entries@[a] == pre[a] && self.entries@[b] == pre[b]);
                        assert(pre[a] == base[a + evicted] && pre[b] == base[b + evicted]);
                    }
                }
            }
        }
    }

    /// Drop the entry for one key, if present.
    pub fn invalidate(&mut self, key: &CacheKey)
        requires
            old(self).wf(),
        ensures
            final(self).wf(),
            final(self).max_memory_spec() == old(self).max_memory_spec(),
            final(self).ttl_spec() == old(self).ttl_spec(),
            cache_lookup(final(self).entries_view(), *key) is None,
            match cache_lookup(old(self).entries_view(), *key) {
                Option::None => final(self).entries_view() == old(self).entries_view(),
                Option::Some(_) => exists|i: int|
                    0 <= i < old(self).entries_view().len() && (
                    #[trigger] old(self).entries_view()[i]).0 == *key
                        && final(self).entries_view() == old(self).entries_view().remove(i),
            },
            forall|k2: CacheKey|
                k2 != *key ==> cache_lookup(final(self).entries_view(), k2) == cache_lookup(
                    old(self).entries_view(),
                    k2,
                ),
    {
        let n = self.entries.len();
        let mut i = n;
        let ghost orig = self.entries@;
        while i > 0
            invariant
                old(self).wf(),
                i <= n,
                n == self.entries@.len(),
                self.entries@ == orig,
                self.current_memory == old(self).current_memory,
                self.max_memory == old(self).max_memory,
                self.ttl_ms == old(self).ttl_ms,
                self.capacity == old(self).capacity,
                orig == old(self).entries@,
                forall|j: int| i <= j < n ==> (#[trigger] orig[j]).0 != *key,
            decreases i,
        {
            i = i - 1;
            if self.entries[i].0.node_id.0 == key.node_id.0 && self.entries[i].0.input_hash
                == key.input_hash {
                proof {
                    assert(orig[i as int].0 == *key);
                    lemma_lookup_remove(orig, i as int, *key);
                }
                let (_, gone) = self.entries.remove(i);
                self.current_memory = if gone.memory_size <= self.current_memory {
                    self.current_memory - gone.memory_size
                } else {
                    0
                };
                proof {
                    // the removed entry was the only one for the key
                    assert(forall|j: int| 0 <= j < i ==> (#[trigger] orig[j]).0 != *key);
                    assert(forall|j: int|
                        0 <= j < orig.subrange(0, i as int).len()
                            ==> (#[trigger] orig.subrange(0, i as int)[j]).0 != *key);
                    lemma_lookup_absent(orig.subrange(0, i as int), *key);
                    lemma_remove_keeps_unique(orig, i as int);
                }
                return;
            }
        }
        proof {
            lemma_lookup_absent(orig, *key);
        }
    }

    /// Drop every entry belonging to a node: exactly the other nodes'
    /// entries survive, in their old order.
    pub fn invalidate_node(&mut self, node_id: NodeId)
        requires
            old(self).wf(),
        ensures
            final(self).wf(),
            final(self).max_memory_spec() == old(self).max_memory_spec(),
            final(self).ttl_spec() == old(self).ttl_spec(),
            final(self).entries_view() == cache_filter(
                old(self).entries_view(),
                |p: (CacheKey, CacheEntry)| p.0.node_id != node_id,
            ),
            forall|k2: CacheKey|
                k2.node_id == node_id ==> cache_lookup(final(self).entries_view(), k2) is None,
            forall|k2: CacheKey|
                k2.node_id != node_id ==> cache_lookup(final(self).entries_view(), k2)
                    == cache_lookup(old(self).entries_view(), k2),
    {
        let ghost orig = self.entries@;
        let mut kept: Vec<(CacheKey, CacheEntry)> = Vec::new();
        let mut freed: usize = 0;
        let ghost keep = |p: (CacheKey, CacheEntry)| p.0.node_id != node_id;
        proof {
            assert(cache_filter(orig, keep) =~= cache_filter(self.entries@, keep)
                + kept@.reverse());
        }
        while self.entries.len() > 0
            invariant
                old(self).wf(),
                self.current_memory == old(self).current_memory,
                self.max_memory == old(self).max_memory,
                self.ttl_ms == old(self).ttl_ms,
                self.capacity == old(self).capacity,
                keep == (|p: (CacheKey, CacheEntry)| p.0.node_id != node_id),
                cache_filter(orig, keep) == cache_filter(self.entries@, keep) + kept@.reverse(),
            decreases self.entries@.len(),
        {
            let ghost pre = self.entries@;
            let ghost kpre = kept@;
            let pair = self.entries.pop().unwrap();
            proof {
                assert(self.entries@ =~= pre.drop_last());
                assert(pre.last() == pair);
            }
            if pair.0.node_id.0 != node_id.0 {
                kept.push(pair);
                proof {
                    assert(keep(pre.last()));
                    assert(cache_filter(self.entries@, keep) + kept@.reverse() =~= cache_filter(
                        pre,
                        keep,
                    ) + kpre.reverse());
                }
            } else {
                freed = sat_add(freed, pair.1.memory_size);
                proof {
                    assert(!keep(pre.last()));
                }
            }
        }
        proof {
            assert(self.entries@ =~= Seq::<(CacheKey, CacheEntry)>::empty());
            assert(cache_filter(orig, keep) =~= kept@.reverse());
        }
        while kept.len() > 0
            invariant
                old(self).wf(),
                self.current_memory == old(self).current_memory,
                self.max_memory == old(self).max_memory,
                self.ttl_ms == old(self).ttl_ms,
                self.capacity == old(self).capacity,
                keep == (|p: (CacheKey, CacheEntry)| p.0.node_id != node_id),
                cache_filter(orig, keep) == self.entries@ + kept@.reverse(),
            decreases kept@.len(),
        {
            let ghost kpre = kept@;
            let ghost cpre = self.entries@;
            let pair = kept.pop().unwrap();
            self.entries.push(pair);
            proof {
                assert(kept@ =~= kpre.drop_last());
                assert(self.entries@ + kept@.reverse() =~= cpre + kpre.reverse());
            }
        }
        proof {
            assert(kept@.reverse() =~= Seq::<(CacheKey, CacheEntry)>::empty());
            assert(self.entries@ =~= cache_filter(orig, keep));
            lemma_filter_congruent(
                orig,
                keep,
                |p: (CacheKey, CacheEntry)| p.0.node_id != node_id,
            );
            lemma_cache_filter_pairs(orig, keep);
            assert forall|k2: CacheKey| k2.node_id != node_id implies cache_lookup(
                self.entries@,
                k2,
            ) == cache_lookup(orig, k2) by {
                lemma_cache_filter_lookup(orig, keep, k2);
            }
            assert forall|k2: CacheKey| k2.node_id == node_id implies cache_lookup(
                self.entries@,
                k2,
            ) is None by {
                lemma_cache_filter_gone(orig, keep, k2);
            }
        }
        self.current_memory = if freed <= self.current_memory {
            self.current_memory - freed
        } else {
            0
        };
    }

    /// Drop everything.
    pub fn clear(&mut self)
        requires
            old(self).wf(),
        ensures
            final(self).wf(),
            final(self).entries_view() =~= Seq::<(CacheKey, CacheEntry)>::empty(),
            final(self).memory_spec() == 0,
            final(self).max_memory_spec() == old(self).max_memory_spec(),
            final(self).ttl_spec() == old(self).ttl_spec(),
    {
        self.entries.clear();
        self.current_memory = 0;
    }
}

/// The entries that survive dropping one key, in order.
pub open spec fn cache_without(s: Seq<(CacheKey, CacheEntry)>, key: CacheKey) -> Seq<
    (CacheKey, CacheEntry),
>
    decreases s.len(),
{
    if s.len() == 0 {
        s
    } else if s.last().0 == key {
        cache_without(s.drop_last(), key)
    } else {
        cache_without(s.drop_last(), key).push(s.last())
    }
}

/// A filter that keeps exactly the other keys computes `cache_without`.
proof fn lemma_filter_is_without(
    s: Seq<(CacheKey, CacheEntry)>,
    key: CacheKey,
    keep: spec_fn((CacheKey, CacheEntry)) -> bool,
)
    requires
        forall|p: (CacheKey, CacheEntry)| #[trigger] keep(p) == (p.0 != key),
    ensures
        cache_filter(s, keep) == cache_without(s, key),
    decreases s.len(),
{
    if s.len() > 0 {
        lemma_filter_is_without(s.drop_last(), key, keep);
        assert(keep(s.last()) == (s.last().0 != key));
    }
}

/// The cache entries a predicate keeps, in order.
pub open spec fn cache_filter(
    s: Seq<(CacheKey, CacheEntry)>,
    keep: spec_fn((CacheKey, CacheEntry)) -> bool,
) -> Seq<(CacheKey, CacheEntry)>
    decreases s.len(),
{
    if s.len() == 0 {
        s
    } else if keep(s.last()) {
        cache_filter(s.drop_last(), keep).push(s.last())
    } else {
        cache_filter(s.drop_last(), keep)
    }
}

/// Filtering by a key property leaves lookups of keys with that property
/// unchanged.
proof fn lemma_cache_filter_lookup(
    s: Seq<(CacheKey, CacheEntry)>,
    keep: spec_fn((CacheKey, CacheEntry)) -> bool,
    k: CacheKey,
)
    requires
        forall|p: (CacheKey, CacheEntry)| p.0 == k ==> #[trigger] keep(p),
    ensures
        cache_lookup(cache_filter(s, keep), k) == cache_lookup(s, k),
    decreases s.len(),
{
    if s.len() > 0 {
        lemma_cache_filter_lookup(s.drop_last(), keep, k);
        if keep(s.last()) {
            assert(cache_filter(s, keep).last() == s.last());
            assert(cache_filter(s, keep).drop_last() =~= cache_filter(s.drop_last(), keep));
        } else {
            assert(s.last().0 != k);
        }
    }
}

} // verus!

verus! {

/// Removing one entry keeps the remaining keys pairwise distinct.
proof fn lemma_remove_keeps_unique(s: Seq<(CacheKey, CacheEntry)>, i: int)
    requires
        cache_keys_unique(s),
        0 <= i < s.len(),
    ensures
        cache_keys_unique(s.remove(i)),
{
    let cut = s.remove(i);
    assert forall|a: int, b: int| 0 <= a < b < cut.len() implies (#[trigger] cut[a]).0 != (
    #[trigger] cut[b]).0 by {
        let a2: int = if a < i { a } else { a + 1 };
        let b2: int = if b < i { b } else { b + 1 };
        assert(cut[a] == s[a2] && cut[b] == s[b2]);
        assert(s[a2].0 != s[b2].0);
    }
}

/// Dropping a prefix keeps the remaining keys pairwise distinct, and keeps
/// only entries of the original.
proof fn lemma_skip_keeps_unique(s: Seq<(CacheKey, CacheEntry)>, d: int)
    requires
        cache_keys_unique(s),
        0 <= d <= s.len(),
    ensures
        cache_keys_unique(s.skip(d)),
        forall|j: int| 0 <= j < s.skip(d).len() ==> #[trigger] s.skip(d)[j] == s[j + d],
{
    assert forall|a: int, b: int| 0 <= a < b < s.skip(d).len() implies (
    #[trigger] s.skip(d)[a]).0 != (#[trigger] s.skip(d)[b]).0 by {
        assert(s.skip(d)[a] == s[a + d] && s.skip(d)[b] == s[b + d]);
        assert(s[a + d].0 != s[b + d].0);
    }
}

/// Filtering keeps only elements of the original, in order, so pairwise
/// distinct keys stay pairwise distinct.
proof fn lemma_cache_filter_pairs(
    s: Seq<(CacheKey, CacheEntry)>,
    keep: spec_fn((CacheKey, CacheEntry)) -> bool,
)
    ensures
        cache_filter(s, keep).len() <= s.len(),
        forall|i: int|
            0 <= i < cache_filter(s, keep).len() ==> keep(#[trigger] cache_filter(s, keep)[i]),
        forall|i: int, j: int|
            0 <= i < j < cache_filter(s, keep).len() ==> exists|k: int, l: int|
                0 <= k < l < s.len() && #[trigger] cache_filter(s, keep)[i] == s[k]
                    && #[trigger] cache_filter(s, keep)[j] == s[l],
        forall|i: int|
            0 <= i < cache_filter(s, keep).len() ==> exists|k: int|
                0 <= k < s.len() && #[trigger] cache_filter(s, keep)[i] == s[k],
        cache_keys_unique(s) ==> cache_keys_unique(cache_filter(s, keep)),
    decreases s.len(),
{
    if s.len() > 0 {
        let pre = s.drop_last();
        lemma_cache_filter_pairs(pre, keep);
        let f = cache_filter(s, keep);
        let fp = cache_filter(pre, keep);
        assert forall|i: int| 0 <= i < f.len() implies keep(#[trigger] f[i]) && exists|k: int|
            0 <= k < s.len() && f[i] == s[k] by {
            if keep(s.last()) && i == f.len() - 1 {
                assert(f[i] == s[s.len() - 1]);
            } else {
                assert(f[i] == fp[i]);
                let k = choose|k: int| 0 <= k < pre.len() && fp[i] == pre[k];
                assert(f[i] == s[k]);
            }
        }
        assert forall|i: int, j: int| 0 <= i < j < f.len() implies exists|k: int, l: int|
            0 <= k < l < s.len() && #[trigger] f[i] == s[k] && #[trigger] f[j] == s[l] by {
            if keep(s.last()) && j == f.len() - 1 {
                assert(f[i] == fp[i]);
                let k = choose|k: int| 0 <= k < pre.len() && fp[i] == pre[k];
                assert(f[i] == s[k] && f[j] == s[s.len() - 1]);
            } else {
                assert(f[i] == fp[i] && f[j] == fp[j]);
                let (k, l): (int, int) = choose|k: int, l: int|
                    0 <= k < l < pre.len() && #[trigger] fp[i] == pre[k] && #[trigger] fp[j]
                        == pre[l];
                assert(f[i] == s[k] && f[j] == s[l]);
            }
        }
        if cache_keys_unique(s) {
            assert forall|a: int, b: int| 0 <= a < b < f.len() implies (#[trigger] f[a]).0 != (
            #[trigger] f[b]).0 by {
                let (k, l): (int, int) = choose|k: int, l: int|
                    0 <= k < l < s.len() && #[trigger] f[a] == s[k] && #[trigger] f[b] == s[l];
                assert(s[k].0 != s[l].0);
            }
        }
    }
}

/// Two filters that agree pointwise keep the same entries.
proof fn lemma_filter_congruent(
    s: Seq<(CacheKey, CacheEntry)>,
    k1: spec_fn((CacheKey, CacheEntry)) -> bool,
    k2: spec_fn((CacheKey, CacheEntry)) -> bool,
)
    requires
        forall|p: (CacheKey, CacheEntry)| #[trigger] k1(p) == k2(p),
    ensures
        cache_filter(s, k1) == cache_filter(s, k2),
    decreases s.len(),
{
    if s.len() > 0 {
        lemma_filter_congruent(s.drop_last(), k1, k2);
    }
}

/// Filtering away every entry of a key leaves it unfindable.
proof fn lemma_cache_filter_gone(
    s: Seq<(CacheKey, CacheEntry)>,
    keep: spec_fn((CacheKey, CacheEntry)) -> bool,
    k: CacheKey,
)
    requires
        forall|p: (CacheKey, CacheEntry)| p.0 == k ==> !(#[trigger] keep(p)),
    ensures
        cache_lookup(cache_filter(s, keep), k) is None,
    decreases s.len(),
{
    if s.len() > 0 {
        lemma_cache_filter_gone(s.drop_last(), keep, k);
        if keep(s.last()) {
            assert(cache_filter(s, keep).last() == s.last());
            assert(cache_filter(s, keep).drop_last() =~= cache_filter(s.drop_last(), keep));
            assert(s.last().0 != k);
        }
    }
}

/// A key's lookup in a suffix equals its lookup in the whole, or is gone.
proof fn lemma_lookup_skip(s: Seq<(CacheKey, CacheEntry)>, d: int, k: CacheKey)
    requires
        0 <= d <= s.len(),
    ensures
        cache_lookup(s.skip(d), k) == cache_lookup(s, k) || cache_lookup(s.skip(d), k) is None,
    decreases d,
{
    if d > 0 {
        lemma_lookup_skip(s, d - 1, k);
        if s.skip(d - 1).len() > 0 {
            lemma_lookup_drop_first(s.skip(d - 1), k);
            assert(s.skip(d - 1).drop_first() =~= s.skip(d));
        } else {
            assert(s.skip(d) =~= s.skip(d - 1));
        }
    } else {
        assert(s.skip(0) =~= s);
    }
}

} // verus!
