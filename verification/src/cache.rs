use vstd::prelude::*;
use crate::text::str_eq;

verus! {

broadcast use vstd::string::group_string_axioms;

/// When the cache is filled ahead of requests.
#[derive(Debug, Clone, Copy, PartialEq, Eq, Structural)]
pub enum WarmupStrategy {
    /// Entries are made on first request.
    Lazy,
    /// Entries are made at start.
    Eager,
    /// Entries are made every `interval_ms` milliseconds.
    Scheduled { interval_ms: u64 },
}

/// The settings of the two cache levels. `ttl_ms` is how long an entry stays fresh, in
/// milliseconds.
#[derive(Debug, Clone, Copy, PartialEq, Eq, Structural)]
pub struct CacheConfig {
    pub l1_capacity: usize,
    pub l2_capacity: usize,
    pub ttl_ms: u64,
    pub enable_l2: bool,
    pub warmup_strategy: WarmupStrategy,
}

impl Default for CacheConfig {
    fn default() -> (r: Self)
        ensures
            r == (CacheConfig {
                l1_capacity: 1000,
                l2_capacity: 10000,
                ttl_ms: 3_600_000,
                enable_l2: true,
                warmup_strategy: WarmupStrategy::Lazy,
            }),
    {
        CacheConfig {
            l1_capacity: 1000,
            l2_capacity: 10000,
            ttl_ms: 3_600_000,
            enable_l2: true,
            warmup_strategy: WarmupStrategy::Lazy,
        }
    }
}

/// Settings of the access-pattern analysis. `history_retention_ms` is how long accesses are
/// remembered, in milliseconds.
#[derive(Debug, Clone, Copy, PartialEq, Eq, Structural)]
pub struct AnalyzerConfig {
    pub history_retention_ms: u64,
    pub max_history_size: usize,
    pub interval_window_size: usize,
}

impl Default for AnalyzerConfig {
    fn default() -> (r: Self)
        ensures
            r == (AnalyzerConfig {
                history_retention_ms: 86_400_000,
                max_history_size: 10000,
                interval_window_size: 10,
            }),
    {
        AnalyzerConfig {
            history_retention_ms: 86_400_000,
            max_history_size: 10000,
            interval_window_size: 10,
        }
    }
}

/// Identifies a cached chunking: the document, its version and the strategy used.
#[derive(Debug, Clone, Hash, PartialEq, Eq)]
pub struct CacheKey {
    pub document_id: String,
    pub version: u64,
    pub strategy: String,
}

/// The value of a key.
pub type KeyV = (Seq<char>, u64, Seq<char>);

pub open spec fn key_view(k: CacheKey) -> KeyV {
    (k.document_id@, k.version, k.strategy@)
}

/// Whether two keys are equal.
pub fn same_key(a: &CacheKey, b: &CacheKey) -> (r: bool)
    ensures
        r == (key_view(*a) == key_view(*b)),
{
    a.version == b.version && str_eq(a.document_id.as_str(), b.document_id.as_str()) && str_eq(
        a.strategy.as_str(),
        b.strategy.as_str(),
    )
}

/// A copy of a key.
pub fn copy_key(k: &CacheKey) -> (r: CacheKey)
    ensures
        key_view(r) == key_view(*k),
{
    CacheKey {
        document_id: k.document_id.as_str().to_owned(),
        version: k.version,
        strategy: k.strategy.as_str().to_owned(),
    }
}

/// Whether `s` holds an entry for `k`.
pub open spec fn has_key<V>(s: Seq<(KeyV, V)>, k: KeyV) -> bool {
    exists|i: int| 0 <= i < s.len() && (#[trigger] s[i]).0 == k
}

/// The index of the entry for `k` (meaningful when there is one).
pub open spec fn key_index<V>(s: Seq<(KeyV, V)>, k: KeyV) -> int {
    choose|i: int| 0 <= i < s.len() && (#[trigger] s[i]).0 == k
}

/// No key occurs twice.
pub open spec fn distinct_keys<V>(s: Seq<(KeyV, V)>) -> bool {
    forall|i: int, j: int| 0 <= i < j < s.len() ==> (#[trigger] s[i]).0 != (#[trigger] s[j]).0
}

/// The value stored for `k`.
pub open spec fn lookup<V>(s: Seq<(KeyV, V)>, k: KeyV) -> Option<V> {
    if has_key(s, k) {
        Some(s[key_index(s, k)].1)
    } else {
        None
    }
}

/// The entries after `k` is used: its entry moves to the most recent place.
pub open spec fn lru_touch<V>(s: Seq<(KeyV, V)>, k: KeyV) -> Seq<(KeyV, V)> {
    if has_key(s, k) {
        s.remove(key_index(s, k)).push(s[key_index(s, k)])
    } else {
        s
    }
}

/// Storing `v` under `k` with room for `capacity` entries: when `k` is new and the cache is
/// full, the least recently used entry leaves first (and is answered); an old entry for `k`
/// is replaced; the new entry is the most recent.
pub open spec fn lru_put<V>(s: Seq<(KeyV, V)>, k: KeyV, v: V, capacity: nat) -> (Seq<(KeyV, V)>, Option<V>) {
    let evict = !has_key(s, k) && s.len() >= capacity && s.len() > 0;
    let s1 = if evict {
        s.drop_first()
    } else {
        s
    };
    let s2 = if has_key(s1, k) {
        s1.remove(key_index(s1, k))
    } else {
        s1
    };
    (s2.push((k, v)), if evict {
        Some(s[0].1)
    } else {
        None
    })
}

/// Removing the entry for `k`, answered if there was one.
pub open spec fn lru_pop<V>(s: Seq<(KeyV, V)>, k: KeyV) -> (Seq<(KeyV, V)>, Option<V>) {
    if has_key(s, k) {
        (s.remove(key_index(s, k)), Some(s[key_index(s, k)].1))
    } else {
        (s, None)
    }
}

/// The entries of `s` that do not belong to document `doc`, in order.
pub open spec fn without_document<V>(s: Seq<(KeyV, V)>, doc: Seq<char>) -> Seq<(KeyV, V)>
    decreases s.len(),
{
    if s.len() == 0 {
        s
    } else {
        let rest = without_document(s.drop_last(), doc);
        if s.last().0.0 == doc {
            rest
        } else {
            rest.push(s.last())
        }
    }
}

/// Dropping a document's entries keeps the rest distinct, leaves none of the document, and
/// does not grow the table.
pub proof fn lemma_without_document<V>(s: Seq<(KeyV, V)>, doc: Seq<char>)
    requires
        distinct_keys(s),
    ensures
        distinct_keys(without_document(s, doc)),
        without_document(s, doc).len() <= s.len(),
        forall|i: int| 0 <= i < without_document(s, doc).len() ==> (#[trigger] without_document(s, doc)[i]).0.0 != doc,
        forall|x: (KeyV, V)| without_document(s, doc).contains(x) ==> s.contains(x),
    decreases s.len(),
{
    if s.len() > 0 {
        let d = s.drop_last();
        assert(distinct_keys(d)) by {
            assert forall|i: int, j: int| 0 <= i < j < d.len() implies (#[trigger] d[i]).0 != (#[trigger] d[j]).0 by {
                assert(d[i] == s[i] && d[j] == s[j]);
            }
        }
        lemma_without_document(d, doc);
        let rest = without_document(d, doc);
        if s.last().0.0 != doc {
            let r = rest.push(s.last());
            assert forall|x: (KeyV, V)| r.contains(x) implies s.contains(x) by {
                let i = choose|i: int| 0 <= i < r.len() && r[i] == x;
                if i == rest.len() {
                    assert(s[s.len() - 1] == x);
                } else {
                    assert(rest.contains(x));
                    assert(d.contains(x));
                    let j = choose|j: int| 0 <= j < d.len() && d[j] == x;
                    assert(s[j] == x);
                }
            }
            assert forall|a: int, b: int| 0 <= a < b < r.len() implies (#[trigger] r[a]).0 != (#[trigger] r[b]).0 by {
                if b == rest.len() {
                    assert(rest.contains(r[a]));
                    assert(d.contains(r[a]));
                    let j = choose|j: int| 0 <= j < d.len() && d[j] == r[a];
                    assert(s[j] == r[a]);
                    assert(r[b] == s[s.len() - 1]);
                } else {
                    assert(r[a] == rest[a] && r[b] == rest[b]);
                }
            }
            assert forall|i: int| 0 <= i < r.len() implies (#[trigger] r[i]).0.0 != doc by {
                if i < rest.len() {
                    assert(r[i] == rest[i]);
                }
            }
        } else {
            assert forall|x: (KeyV, V)| rest.contains(x) implies s.contains(x) by {
                assert(d.contains(x));
                let j = choose|j: int| 0 <= j < d.len() && d[j] == x;
                assert(s[j] == x);
            }
        }
    }
}

/// The most entries a cache of capacity `capacity` holds: the capacity, but at least one.
pub open spec fn room(capacity: nat) -> nat {
    if capacity > 0 {
        capacity
    } else {
        1
    }
}

/// A least-recently-used cache: entries from the least to the most recently used.
pub struct SimpleLruCache<V> {
    capacity: usize,
    entries: Vec<(CacheKey, V)>,
}

impl<V> View for SimpleLruCache<V> {
    type V = Seq<(KeyV, V)>;

    closed spec fn view(&self) -> Seq<(KeyV, V)> {
        Seq::new(self.entries@.len(), |i: int| (key_view(self.entries@[i].0), self.entries@[i].1))
    }
}

impl<V> SimpleLruCache<V> {
    /// The capacity the cache was made with.
    pub closed spec fn spec_capacity(&self) -> nat {
        self.capacity as nat
    }

    /// The cache's invariant: keys are distinct and the entries fit.
    pub open spec fn wf(&self) -> bool {
        distinct_keys(self@) && self@.len() <= room(self.spec_capacity())
    }

    /// An empty cache with room for `capacity` entries.
    pub fn new(capacity: usize) -> (r: Self)
        ensures
            r@ == Seq::<(KeyV, V)>::empty(),
            r.spec_capacity() == capacity,
            r.wf(),
    {
        let r = SimpleLruCache { capacity, entries: Vec::new() };
        assert(r@ =~= Seq::<(KeyV, V)>::empty());
        r
    }

    /// The number of entries.
    pub fn len(&self) -> (r: usize)
        ensures
            r == self@.len(),
    {
        self.entries.len()
    }

    fn position(&self, key: &CacheKey) -> (r: Option<usize>)
        requires
            distinct_keys(self@),
        ensures
            match r {
                Some(i) => has_key(self@, key_view(*key)) && i == key_index(self@, key_view(*key)),
                None => !has_key(self@, key_view(*key)),
            },
    {
        let mut i: usize = 0;
        while i < self.entries.len()
            invariant
                i <= self.entries@.len(),
                distinct_keys(self@),
                forall|j: int| 0 <= j < i ==> (#[trigger] self@[j]).0 != key_view(*key),
            decreases self.entries.len() - i,
        {
            if same_key(&self.entries[i].0, key) {
                assert(self@[i as int].0 == key_view(*key));
                let ghost c = key_index(self@, key_view(*key));
                assert(self@[c].0 == key_view(*key));
                assert(c == i) by {
                    if c < i {
                        assert(self@[c].0 != key_view(*key));
                    } else if c > i {
                        assert(self@[i as int].0 != self@[c].0);
                    }
                }
                return Some(i);
            }
            i += 1;
        }
        None
    }

    /// Looks up `key`; a hit makes its entry the most recently used.
    pub fn get(&mut self, key: &CacheKey) -> (r: Option<&V>)
        requires
            old(self).wf(),
        ensures
            final(self).wf(),
            final(self).spec_capacity() == old(self).spec_capacity(),
            final(self)@ == lru_touch(old(self)@, key_view(*key)),
            match lookup(old(self)@, key_view(*key)) {
                Some(v) => r matches Some(x) && *x == v,
                None => r is None,
            },
    {
        match self.position(key) {
            Some(i) => {
                let ghost before = self@;
                let e = self.entries.remove(i);
                self.entries.push(e);
                proof {
                    assert(self@ =~= before.remove(i as int).push(before[i as int]));
                    lemma_touch_keeps(before, key_view(*key));
                }
                let n = self.entries.len();
                Some(&self.entries[n - 1].1)
            },
            None => None,
        }
    }

    /// Stores `value` under `key` (see [`lru_put`]); answers the entry that had to leave.
    pub fn put(&mut self, key: CacheKey, value: V) -> (r: Option<V>)
        requires
            old(self).wf(),
        ensures
            final(self).wf(),
            final(self).spec_capacity() == old(self).spec_capacity(),
            (final(self)@, r) == lru_put(old(self)@, key_view(key), value, old(self).spec_capacity()),
    {
        let ghost s = self@;
        let ghost k = key_view(key);
        let found = self.position(&key);
        let mut evicted: Option<V> = None;
        if found.is_none() && self.entries.len() >= self.capacity && self.entries.len() > 0 {
            let (_, old_value) = self.entries.remove(0);
            evicted = Some(old_value);
            assert(self@ =~= s.drop_first());
        }
        let ghost s1 = self@;
        proof {
            if s1 != s {
                lemma_distinct_skip(s, 1);
                assert(s.skip(1) =~= s.drop_first());
            }
        }
        match self.position(&key) {
            Some(i) => {
                self.entries.remove(i);
                assert(self@ =~= s1.remove(i as int));
            },
            None => {},
        }
        let ghost s2 = self@;
        self.entries.push((key, value));
        assert(self@ =~= s2.push((k, value)));
        proof {
            law_put_keeps_distinct(s, k, value, self.capacity as nat);
            law_put_fits(s, k, value, self.capacity as nat);
        }
        evicted
    }

    /// Removes the entry for `key`, answering its value.
    pub fn pop(&mut self, key: &CacheKey) -> (r: Option<V>)
        requires
            old(self).wf(),
        ensures
            final(self).wf(),
            final(self).spec_capacity() == old(self).spec_capacity(),
            (final(self)@, r) == lru_pop(old(self)@, key_view(*key)),
    {
        let ghost s = self@;
        match self.position(key) {
            Some(i) => {
                let (_, v) = self.entries.remove(i);
                assert(self@ =~= s.remove(i as int));
                proof {
                    lemma_distinct_remove(s, i as int);
                }
                Some(v)
            },
            None => None,
        }
    }

    /// Removes every entry.
    pub fn clear(&mut self)
        requires
            old(self).wf(),
        ensures
            final(self).wf(),
            final(self).spec_capacity() == old(self).spec_capacity(),
            final(self)@ == Seq::<(KeyV, V)>::empty(),
    {
        self.entries = Vec::new();
        assert(self@ =~= Seq::<(KeyV, V)>::empty());
    }

    /// Removes every entry of document `document_id`, keeping the order of the others.
    pub fn remove_document(&mut self, document_id: &str)
        requires
            old(self).wf(),
        ensures
            final(self).wf(),
            final(self).spec_capacity() == old(self).spec_capacity(),
            final(self)@ == without_document(old(self)@, document_id@),
    {
        let ghost s = self@;
        let ghost cap = self.capacity;
        let mut old_entries: Vec<(CacheKey, V)> = Vec::new();
        std::mem::swap(&mut self.entries, &mut old_entries);
        let ghost oe = old_entries@;
        assert(table_view(oe) =~= s);
        assert(s.take(0) =~= Seq::<(KeyV, V)>::empty());
        for e in it: old_entries
            invariant
                it.seq() == oe,
                table_view(oe) == s,
                distinct_keys(s),
                table_view(self.entries@) == without_document(s.take(it.index() as int), document_id@),
                self.capacity == cap,
                s.len() <= room(cap as nat),
        {
            let ghost i = it.index();
            assert(s.take(i + 1).drop_last() =~= s.take(i as int));
            assert(s.take(i + 1).last() == s[i as int]);
            assert(s[i as int] == (key_view(e.0), e.1));
            let ghost before = self.entries@;
            if !str_eq(e.0.document_id.as_str(), document_id) {
                self.entries.push(e);
                assert(table_view(self.entries@) =~= table_view(before).push(s[i as int]));
            }
        }
        assert(s.take(s.len() as int) =~= s);
        assert(self@ =~= table_view(self.entries@));
        proof {
            lemma_without_document(s, document_id@);
        }
    }

    /// The keys, from the least to the most recently used.
    pub fn keys(&self) -> (r: Vec<CacheKey>)
        ensures
            r@.len() == self@.len(),
            forall|i: int| 0 <= i < r@.len() ==> key_view(#[trigger] r@[i]) == self@[i].0,
    {
        let mut out: Vec<CacheKey> = Vec::new();
        let mut i: usize = 0;
        while i < self.entries.len()
            invariant
                i <= self.entries@.len(),
                out@.len() == i,
                forall|j: int| 0 <= j < i ==> key_view(#[trigger] out@[j]) == self@[j].0,
            decreases self.entries.len() - i,
        {
            let k = copy_key(&self.entries[i].0);
            out.push(k);
            i += 1;
        }
        out
    }
}

/// Dropping the first `f` entries keeps keys distinct.
proof fn lemma_distinct_skip<V>(s: Seq<(KeyV, V)>, f: int)
    requires
        distinct_keys(s),
        0 <= f <= s.len(),
    ensures
        distinct_keys(s.skip(f)),
{
    let t = s.skip(f);
    assert forall|i: int, j: int| 0 <= i < j < t.len() implies (#[trigger] t[i]).0 != (#[trigger] t[j]).0 by {
        assert(t[i] == s[i + f] && t[j] == s[j + f]);
    }
}

/// Removing one entry keeps keys distinct.
proof fn lemma_distinct_remove<V>(s: Seq<(KeyV, V)>, f: int)
    requires
        distinct_keys(s),
        0 <= f < s.len(),
    ensures
        distinct_keys(s.remove(f)),
{
    let t = s.remove(f);
    assert forall|i: int, j: int| 0 <= i < j < t.len() implies (#[trigger] t[i]).0 != (#[trigger] t[j]).0 by {
        let a = if i < f { i } else { i + 1 };
        let b = if j < f { j } else { j + 1 };
        assert(t[i] == s[a] && t[j] == s[b]);
    }
}

proof fn lemma_touch_keeps<V>(s: Seq<(KeyV, V)>, k: KeyV)
    requires
        distinct_keys(s),
    ensures
        distinct_keys(lru_touch(s, k)),
        lru_touch(s, k).len() == s.len(),
{
    if has_key(s, k) {
        let i = key_index(s, k);
        let r = s.remove(i);
        let t = r.push(s[i]);
        assert forall|a: int, b: int| 0 <= a < b < t.len() implies (#[trigger] t[a]).0 != (#[trigger] t[b]).0 by {
            let x = if a < i { a } else { a + 1 };
            if b == t.len() - 1 {
                assert(t[a] == s[x]);
                assert(t[b] == s[i]);
            } else {
                let y = if b < i { b } else { b + 1 };
                assert(t[a] == s[x] && t[b] == s[y]);
            }
        }
    }
}

/// Storing an entry keeps keys distinct.
pub proof fn law_put_keeps_distinct<V>(s: Seq<(KeyV, V)>, k: KeyV, v: V, capacity: nat)
    requires
        distinct_keys(s),
    ensures
        distinct_keys(lru_put(s, k, v, capacity).0),
{
    let evict = !has_key(s, k) && s.len() >= capacity && s.len() > 0;
    let s1 = if evict { s.drop_first() } else { s };
    if evict {
        lemma_distinct_skip(s, 1);
        assert(s.skip(1) =~= s.drop_first());
    }
    let s2 = if has_key(s1, k) { s1.remove(key_index(s1, k)) } else { s1 };
    if has_key(s1, k) {
        lemma_distinct_remove(s1, key_index(s1, k));
    }
    assert(!has_key(s2, k)) by {
        if has_key(s2, k) {
            let j = choose|j: int| 0 <= j < s2.len() && (#[trigger] s2[j]).0 == k;
            if has_key(s1, k) {
                let i = key_index(s1, k);
                let jj = if j < i { j } else { j + 1 };
                assert(s2[j] == s1[jj]);
            } else {
                assert(s2[j] == s1[j]);
            }
        }
    }
    let t = s2.push((k, v));
    assert forall|a: int, b: int| 0 <= a < b < t.len() implies (#[trigger] t[a]).0 != (#[trigger] t[b]).0 by {
        if b == t.len() - 1 {
            assert(t[a] == s2[a]);
        } else {
            assert(t[a] == s2[a] && t[b] == s2[b]);
        }
    }
}

/// A cache never holds more entries than its room.
pub proof fn law_put_fits<V>(s: Seq<(KeyV, V)>, k: KeyV, v: V, capacity: nat)
    requires
        distinct_keys(s),
        s.len() <= room(capacity),
    ensures
        lru_put(s, k, v, capacity).0.len() <= room(capacity),
{
    let evict = !has_key(s, k) && s.len() >= capacity && s.len() > 0;
    let s1 = if evict { s.drop_first() } else { s };
    if !evict && has_key(s1, k) {
        assert(s1.remove(key_index(s1, k)).len() == s1.len() - 1);
    }
}

/// After storing `v` under `k`, looking `k` up answers `v`.
pub proof fn law_get_after_put<V>(s: Seq<(KeyV, V)>, k: KeyV, v: V, capacity: nat)
    requires
        distinct_keys(s),
    ensures
        lookup(lru_put(s, k, v, capacity).0, k) == Some(v),
{
    law_put_keeps_distinct(s, k, v, capacity);
    let t = lru_put(s, k, v, capacity).0;
    let n = t.len() - 1;
    assert(t[n].0 == k);
    assert(has_key(t, k));
    let i = key_index(t, k);
    assert(i == n) by {
        if i != n {
            assert(t[i].0 == t[n].0);
        }
    }
}

/// When an entry must leave, it is the least recently used one, and its key is gone.
pub proof fn law_put_evicts_least_recent<V>(s: Seq<(KeyV, V)>, k: KeyV, v: V, capacity: nat)
    requires
        distinct_keys(s),
        lru_put(s, k, v, capacity).1 is Some,
    ensures
        s.len() > 0,
        lru_put(s, k, v, capacity).1 == Some(s[0].1),
        s[0].0 != k,
        !has_key(lru_put(s, k, v, capacity).0, s[0].0),
{
    let t = lru_put(s, k, v, capacity).0;
    let s1 = s.drop_first();
    assert(!has_key(s, k));
    if s[0].0 == k {
        assert(has_key(s, k));
    }
    assert(!has_key(s1, k)) by {
        if has_key(s1, k) {
            let j = choose|j: int| 0 <= j < s1.len() && (#[trigger] s1[j]).0 == k;
            assert(s[j + 1].0 == k);
        }
    }
    assert(t =~= s1.push((k, v)));
    if has_key(t, s[0].0) {
        let j = choose|j: int| 0 <= j < t.len() && (#[trigger] t[j]).0 == s[0].0;
        if j < s1.len() {
            assert(t[j] == s[j + 1]);
            assert(s[0].0 != s[j + 1].0);
        }
    }
}

/// After a removal the key is gone, and the removed value is the one that was stored.
pub proof fn law_pop_removes<V>(s: Seq<(KeyV, V)>, k: KeyV)
    requires
        distinct_keys(s),
    ensures
        !has_key(lru_pop(s, k).0, k),
        lru_pop(s, k).1 == lookup(s, k),
{
    if has_key(s, k) {
        let i = key_index(s, k);
        let t = s.remove(i);
        if has_key(t, k) {
            let j = choose|j: int| 0 <= j < t.len() && (#[trigger] t[j]).0 == k;
            let jj = if j < i { j } else { j + 1 };
            assert(t[j] == s[jj]);
        }
    }
}

/// A cached value with its bookkeeping; times are milliseconds of a monotonic clock.
#[derive(Debug)]
pub struct CacheEntry<V> {
    pub data: V,
    pub created_at: u64,
    pub access_count: u64,
    pub last_accessed: u64,
}

/// A copy of an entry, its value cloned.
pub fn copy_entry<V: Clone>(e: &CacheEntry<V>) -> (r: CacheEntry<V>)
    ensures
        cloned(e.data, r.data),
        r.created_at == e.created_at,
        r.access_count == e.access_count,
        r.last_accessed == e.last_accessed,
{
    CacheEntry {
        data: e.data.clone(),
        created_at: e.created_at,
        access_count: e.access_count,
        last_accessed: e.last_accessed,
    }
}

/// Counts of cache use. (The mean response time is fractional and kept by the caller.)
#[derive(Debug, Clone, Copy, PartialEq, Eq, Structural)]
pub struct CacheStats {
    pub l1_hits: u64,
    pub l1_misses: u64,
    pub l2_hits: u64,
    pub l2_misses: u64,
    pub total_requests: u64,
    pub evictions: u64,
}

impl CacheStats {
    /// All counts zero.
    pub fn zero() -> (r: Self)
        ensures
            r == (CacheStats { l1_hits: 0, l1_misses: 0, l2_hits: 0, l2_misses: 0, total_requests: 0, evictions: 0 }),
    {
        CacheStats { l1_hits: 0, l1_misses: 0, l2_hits: 0, l2_misses: 0, total_requests: 0, evictions: 0 }
    }
}

/// How long ago `created` was at `now`, zero for a time ahead of `now`.
pub open spec fn elapsed(created: u64, now: u64) -> int {
    if now >= created {
        now - created
    } else {
        0
    }
}

/// Whether an entry made at `created` is still fresh at `now`.
pub open spec fn fresh(created: u64, now: u64, ttl: u64) -> bool {
    elapsed(created, now) < ttl
}

/// The entries of a table.
pub open spec fn table_view<T>(v: Seq<(CacheKey, T)>) -> Seq<(KeyV, T)> {
    Seq::new(v.len(), |i: int| (key_view(v[i].0), v[i].1))
}

fn table_find<T>(v: &Vec<(CacheKey, T)>, key: &CacheKey) -> (r: Option<usize>)
    requires
        distinct_keys(table_view(v@)),
    ensures
        match r {
            Some(i) => has_key(table_view(v@), key_view(*key)) && i == key_index(table_view(v@), key_view(*key)) && i < v@.len(),
            None => !has_key(table_view(v@), key_view(*key)),
        },
{
    let ghost tv = table_view(v@);
    let mut i: usize = 0;
    while i < v.len()
        invariant
            i <= v@.len(),
            tv == table_view(v@),
            distinct_keys(tv),
            forall|j: int| 0 <= j < i ==> (#[trigger] tv[j]).0 != key_view(*key),
        decreases v.len() - i,
    {
        if same_key(&v[i].0, key) {
            assert(tv[i as int].0 == key_view(*key));
            let ghost c = key_index(tv, key_view(*key));
            assert(c == i) by {
                if c < i {
                    assert(tv[c].0 != key_view(*key));
                } else if c > i {
                    assert(tv[i as int].0 != tv[c].0);
                }
            }
            return Some(i);
        }
        i += 1;
    }
    None
}

/// The table without the entry for `k`.
pub open spec fn table_without<T>(s: Seq<(KeyV, T)>, k: KeyV) -> Seq<(KeyV, T)> {
    lru_pop(s, k).0
}

/// The table with `v` stored under `k`: in place of an old entry, or added at the end.
pub open spec fn table_with<T>(s: Seq<(KeyV, T)>, k: KeyV, v: T) -> Seq<(KeyV, T)> {
    if has_key(s, k) {
        s.update(key_index(s, k), (k, v))
    } else {
        s.push((k, v))
    }
}

fn table_remove<T>(v: &mut Vec<(CacheKey, T)>, key: &CacheKey) -> (r: Option<T>)
    requires
        distinct_keys(table_view(old(v)@)),
    ensures
        distinct_keys(table_view(final(v)@)),
        table_view(final(v)@) == table_without(table_view(old(v)@), key_view(*key)),
        r == lookup(table_view(old(v)@), key_view(*key)),
{
    let ghost s = table_view(v@);
    match table_find(v, key) {
        Some(i) => {
            let (_, x) = v.remove(i);
            assert(table_view(v@) =~= s.remove(i as int));
            proof {
                lemma_distinct_remove(s, i as int);
            }
            Some(x)
        },
        None => None,
    }
}

fn table_insert<T>(v: &mut Vec<(CacheKey, T)>, key: CacheKey, value: T)
    requires
        distinct_keys(table_view(old(v)@)),
    ensures
        distinct_keys(table_view(final(v)@)),
        table_view(final(v)@) == table_with(table_view(old(v)@), key_view(key), value),
{
    let ghost s = table_view(v@);
    let ghost k = key_view(key);
    match table_find(v, &key) {
        Some(i) => {
            v.set(i, (key, value));
            assert(table_view(v@) =~= s.update(i as int, (k, value)));
            assert forall|a: int, b: int| 0 <= a < b < table_view(v@).len() implies (#[trigger] table_view(v@)[a]).0 != (#[trigger] table_view(v@)[b]).0 by {
                assert(table_view(v@)[a].0 == s[a].0 && table_view(v@)[b].0 == s[b].0);
            }
        },
        None => {
            v.push((key, value));
            assert(table_view(v@) =~= s.push((k, value)));
            assert forall|a: int, b: int| 0 <= a < b < table_view(v@).len() implies (#[trigger] table_view(v@)[a]).0 != (#[trigger] table_view(v@)[b]).0 by {
                if b == s.len() {
                    assert(table_view(v@)[a] == s[a]);
                    if s[a].0 == k {
                        assert(has_key(s, k));
                    }
                } else {
                    assert(table_view(v@)[a] == s[a] && table_view(v@)[b] == s[b]);
                }
            }
        },
    }
}

/// Whether entry `i` was used least recently of the table (ties go to the earlier entry).
pub open spec fn is_oldest<V>(s: Seq<(KeyV, CacheEntry<V>)>, i: int) -> bool {
    &&& 0 <= i < s.len()
    &&& forall|j: int| 0 <= j < s.len() ==> s[i].1.last_accessed <= (#[trigger] s[j]).1.last_accessed
}

fn oldest_index<V>(v: &Vec<(CacheKey, CacheEntry<V>)>) -> (r: Option<usize>)
    ensures
        match r {
            Some(i) => is_oldest(table_view(v@), i as int),
            None => v@.len() == 0,
        },
{
    if v.len() == 0 {
        return None;
    }
    let ghost tv = table_view(v@);
    let mut best: usize = 0;
    let mut i: usize = 1;
    while i < v.len()
        invariant
            1 <= i <= v@.len(),
            best < i,
            tv == table_view(v@),
            forall|j: int| 0 <= j < i ==> tv[best as int].1.last_accessed <= (#[trigger] tv[j]).1.last_accessed,
        decreases v.len() - i,
    {
        if v[i].1.last_accessed < v[best].1.last_accessed {
            best = i;
        }
        i += 1;
    }
    Some(best)
}

/// A two-level cache of chunking results: a small least-recently-used level in front of a
/// larger level, entries expiring `ttl_ms` after they were made.
pub struct ChunkingCache<V> {
    l1: SimpleLruCache<CacheEntry<V>>,
    l2: Vec<(CacheKey, CacheEntry<V>)>,
    config: CacheConfig,
    stats: CacheStats,
}

impl<V> ChunkingCache<V> {
    /// The entries of the first level, least recently used first.
    pub closed spec fn level1(&self) -> Seq<(KeyV, CacheEntry<V>)> {
        self.l1@
    }

    /// The entries of the second level.
    pub closed spec fn level2(&self) -> Seq<(KeyV, CacheEntry<V>)> {
        table_view(self.l2@)
    }

    /// The counts of use so far.
    pub closed spec fn spec_stats(&self) -> CacheStats {
        self.stats
    }

    /// The settings the cache was made with.
    pub closed spec fn spec_config(&self) -> CacheConfig {
        self.config
    }

    /// The cache's invariant: no key twice in a level, the first level fits its room, and the
    /// counts agree with each other (see [`stats_consistent`]).
    pub closed spec fn wf(&self) -> bool {
        &&& self.l1.wf()
        &&& self.l1.spec_capacity() == self.config.l1_capacity
        &&& distinct_keys(table_view(self.l2@))
        &&& stats_consistent(self.stats, self.config.enable_l2)
    }

    /// An empty cache with zero counts.
    pub fn new(config: CacheConfig) -> (r: Self)
        ensures
            r.wf(),
            r.spec_config() == config,
            r.level1().len() == 0,
            r.level2().len() == 0,
            r.spec_stats() == (CacheStats { l1_hits: 0, l1_misses: 0, l2_hits: 0, l2_misses: 0, total_requests: 0, evictions: 0 }),
            stats_consistent(r.spec_stats(), r.spec_config().enable_l2),
    {
        let r = ChunkingCache {
            l1: SimpleLruCache::new(config.l1_capacity),
            l2: Vec::new(),
            config,
            stats: CacheStats::zero(),
        };
        assert(table_view(r.l2@) =~= Seq::<(KeyV, CacheEntry<V>)>::empty());
        r
    }

    /// The settings the cache was made with.
    pub fn config(&self) -> (r: CacheConfig)
        ensures
            r == self.spec_config(),
    {
        self.config
    }

    /// The counts of use so far.
    pub fn get_stats(&self) -> (r: CacheStats)
        ensures
            r == self.spec_stats(),
    {
        self.stats
    }
}

/// Every key other than `k` finds what it found before.
pub open spec fn others_same<V>(after: Seq<(KeyV, V)>, before: Seq<(KeyV, V)>, k: KeyV) -> bool {
    forall|k2: KeyV| k2 != k ==> #[trigger] lookup(after, k2) == lookup(before, k2)
}

/// Every key other than `k` finds what it found before, save `gone` when `can_go` holds,
/// whose entry may only have left.
pub open spec fn others_same_but<V>(after: Seq<(KeyV, V)>, before: Seq<(KeyV, V)>, k: KeyV, gone: KeyV, can_go: bool) -> bool {
    forall|k2: KeyV|
        k2 != k ==> #[trigger] lookup(after, k2) == lookup(before, k2) || (can_go && k2 == gone && lookup(after, k2) is None)
}

/// The second level after storing under `k`: every other key finds what it found before,
/// save, when the level was full (`full`), one least recently accessed entry that left.
pub open spec fn level2_kept<V>(after: Seq<(KeyV, CacheEntry<V>)>, before: Seq<(KeyV, CacheEntry<V>)>, k: KeyV, full: bool) -> bool {
    exists|g: KeyV|
        (full ==> exists|i: int| #[trigger] is_oldest(before, i) && before[i].0 == g)
            && #[trigger] others_same_but(after, before, k, g, full)
}

/// The first level's victim when a lookup of `k` copies an entry up: the least recently used
/// entry other than `k`, evicted only when that level is full without `k`.
pub open spec fn promote_victim<V>(s: Seq<(KeyV, V)>, k: KeyV) -> KeyV {
    lru_pop(s, k).0[0].0
}

/// An entry after a hit at `now`: one more access, last used now.
pub open spec fn touched<V>(e: CacheEntry<V>, now: u64) -> CacheEntry<V> {
    CacheEntry { data: e.data, created_at: e.created_at, access_count: (e.access_count + 1) as u64, last_accessed: now }
}

/// Whether storing a new key evicts from a full first level.
pub open spec fn evicts<V>(s: Seq<(KeyV, V)>, k: KeyV, capacity: nat) -> bool {
    !has_key(s, k) && s.len() >= capacity && s.len() > 0
}

/// Counters that can still be incremented.
pub open spec fn counts_below_max(s: CacheStats) -> bool {
    &&& s.l1_hits < u64::MAX
    &&& s.l1_misses < u64::MAX
    &&& s.l2_hits < u64::MAX
    &&& s.l2_misses < u64::MAX
    &&& s.total_requests < u64::MAX
    &&& s.evictions < u64::MAX - 1
}

/// Whether the counts agree with each other: every request hit or missed the first level,
/// and, with the second level enabled, every first-level miss hit or missed the second
/// (without it, the second level counts nothing).
pub open spec fn stats_consistent(s: CacheStats, l2_enabled: bool) -> bool {
    &&& s.total_requests == s.l1_hits + s.l1_misses
    &&& l2_enabled ==> s.l1_misses == s.l2_hits + s.l2_misses
    &&& !l2_enabled ==> s.l2_hits == 0 && s.l2_misses == 0
}

/// The counts after a lookup that hit the first level (`hit1`), the second (`hit2`), or
/// missed, the second level being enabled or not.
pub open spec fn stats_after_get(s: CacheStats, hit1: bool, hit2: bool, l2_enabled: bool) -> CacheStats {
    CacheStats {
        l1_hits: if hit1 { (s.l1_hits + 1) as u64 } else { s.l1_hits },
        l1_misses: if hit1 { s.l1_misses } else { (s.l1_misses + 1) as u64 },
        l2_hits: if hit2 { (s.l2_hits + 1) as u64 } else { s.l2_hits },
        l2_misses: if !hit1 && l2_enabled && !hit2 { (s.l2_misses + 1) as u64 } else { s.l2_misses },
        total_requests: (s.total_requests + 1) as u64,
        evictions: s.evictions,
    }
}

/// The counts of a cache stay consistent over any sequence of calls: a new or cleared cache
/// counts nothing, a lookup counts one request as a hit or a miss of each level it reaches,
/// and storing, invalidating or evicting changes no request count.
pub proof fn law_stats_consistent(s: CacheStats, l2_enabled: bool, hit1: bool, hit2: bool, evictions: u64)
    requires
        stats_consistent(s, l2_enabled),
        counts_below_max(s),
        hit2 ==> !hit1 && l2_enabled,
    ensures
        stats_consistent(CacheStats { l1_hits: 0, l1_misses: 0, l2_hits: 0, l2_misses: 0, total_requests: 0, evictions: 0 }, l2_enabled),
        stats_consistent(stats_after_get(s, hit1, hit2, l2_enabled), l2_enabled),
        stats_consistent(CacheStats { evictions, ..s }, l2_enabled),
{
}

/// The counts of a well-formed cache agree with each other, whatever calls it has seen: the
/// invariant holds for a new cache and every call keeps it.
pub proof fn law_stats_always_consistent<V>(c: &ChunkingCache<V>)
    requires
        c.wf(),
    ensures
        stats_consistent(c.spec_stats(), c.spec_config().enable_l2),
{
}

impl<V: Clone> ChunkingCache<V> {
    /// Looks `key` up at time `now`: a fresh entry of the first level is answered; else a
    /// fresh entry of the second level (when enabled) is answered and copied to the first;
    /// stale entries met on the way are dropped. Counts requests, hits and misses.
    pub fn get(&mut self, key: &CacheKey, now: u64) -> (r: Option<V>)
        requires
            old(self).wf(),
            counts_below_max(old(self).spec_stats()),
            lookup(old(self).level1(), key_view(*key)) matches Some(e) ==> e.access_count < u64::MAX,
            lookup(old(self).level2(), key_view(*key)) matches Some(e) ==> e.access_count < u64::MAX,
        ensures
            final(self).wf(),
            final(self).spec_config() == old(self).spec_config(),
            stats_consistent(old(self).spec_stats(), old(self).spec_config().enable_l2) ==> stats_consistent(final(self).spec_stats(), final(self).spec_config().enable_l2),
            ({
                let k = key_view(*key);
                let ttl = old(self).spec_config().ttl_ms;
                let on = old(self).spec_config().enable_l2;
                let o1 = lookup(old(self).level1(), k);
                let o2 = lookup(old(self).level2(), k);
                let hit1 = o1 matches Some(e) && fresh(e.created_at, now, ttl);
                let hit2 = !hit1 && on && (o2 matches Some(e) && fresh(e.created_at, now, ttl));
                &&& final(self).spec_stats() == stats_after_get(old(self).spec_stats(), hit1, hit2, on)
                &&& others_same(final(self).level2(), old(self).level2(), k)
                &&& others_same_but(final(self).level1(), old(self).level1(), k, promote_victim(old(self).level1(), k),
                    evicts(lru_pop(old(self).level1(), k).0, k, old(self).spec_config().l1_capacity as nat))
                &&& hit1 ==> {
                    &&& (r matches Some(d) && cloned(o1->0.data, d))
                    &&& lookup(final(self).level1(), k) == Some(touched(o1->0, now))
                    &&& final(self).level2() == old(self).level2()
                }
                &&& hit2 ==> {
                    &&& (r matches Some(d) && cloned(o2->0.data, d))
                    &&& lookup(final(self).level2(), k) == Some(touched(o2->0, now))
                    &&& (lookup(final(self).level1(), k) matches Some(p) && p.created_at == o2->0.created_at
                        && p.last_accessed == now && cloned(o2->0.data, p.data))
                }
                &&& !hit1 && !hit2 ==> {
                    &&& r is None
                    &&& lookup(final(self).level1(), k) is None
                    &&& on ==> lookup(final(self).level2(), k) is None
                    &&& !on ==> final(self).level2() == old(self).level2()
                }
            }),
    {
        let ghost k = key_view(*key);
        let ghost s1 = self.l1@;
        let ghost s2 = table_view(self.l2@);
        let ttl = self.config.ttl_ms;
        self.stats.total_requests = self.stats.total_requests + 1;
        match self.l1.pop(key) {
            Some(e) => {
                let age = if now >= e.created_at { now - e.created_at } else { 0 };
                if age < ttl {
                    let mut e = e;
                    e.access_count = e.access_count + 1;
                    e.last_accessed = now;
                    self.stats.l1_hits = self.stats.l1_hits + 1;
                    let d = e.data.clone();
                    let ghost popped = self.l1@;
                    let ghost ev = e;
                    proof {
                        law_pop_removes(s1, k);
                        lemma_pop_shrinks(s1, k);
                    }
                    self.l1.put(copy_key(key), e);
                    proof {
                        law_get_after_put(popped, k, ev, self.config.l1_capacity as nat);
                        lemma_promote_frame(s1, k, ev, self.config.l1_capacity as nat);
                    }
                    return Some(d);
                }
                proof {
                    law_pop_removes(s1, k);
                }
            },
            None => {
                proof {
                    law_pop_removes(s1, k);
                }
            },
        }
        self.stats.l1_misses = self.stats.l1_misses + 1;
        proof {
            lemma_promote_frame(s1, k, s1[0].1, self.config.l1_capacity as nat);
        }
        if self.config.enable_l2 {
            match table_find(&self.l2, key) {
                Some(i) => {
                    let created = self.l2[i].1.created_at;
                    let age = if now >= created { now - created } else { 0 };
                    let (k2, mut e) = self.l2.remove(i);
                    if age < ttl {
                        e.access_count = e.access_count + 1;
                        e.last_accessed = now;
                        self.stats.l2_hits = self.stats.l2_hits + 1;
                        let promoted = copy_entry(&e);
                        let d = e.data.clone();
                        let ghost ev = e;
                        self.l2.insert(i, (k2, e));
                        proof {
                            assert(table_view(self.l2@) =~= s2.update(i as int, (k, ev)));
                            lemma_update_same_key(s2, i as int, ev);
                            assert forall|k2: KeyV| k2 != k implies #[trigger] lookup(table_view(self.l2@), k2) == lookup(s2, k2) by {
                                lemma_lookup_update_other(s2, i as int, ev, k2);
                            }
                        }
                        let ghost before_put = self.l1@;
                        let ghost pv = promoted;
                        self.l1.put(copy_key(key), promoted);
                        proof {
                            law_get_after_put(before_put, k, pv, self.config.l1_capacity as nat);
                            lemma_promote_frame(s1, k, pv, self.config.l1_capacity as nat);
                        }
                        return Some(d);
                    } else {
                        proof {
                            assert(table_view(self.l2@) =~= s2.remove(i as int));
                            lemma_distinct_remove(s2, i as int);
                            law_pop_removes(s2, k);
                            assert forall|k2: KeyV| k2 != k implies #[trigger] lookup(table_view(self.l2@), k2) == lookup(s2, k2) by {
                                lemma_lookup_remove(s2, i as int, k2);
                            }
                        }
                    }
                },
                None => {},
            }
            self.stats.l2_misses = self.stats.l2_misses + 1;
        }
        None
    }
}

/// Removing an entry takes one away.
proof fn lemma_pop_shrinks<V>(s: Seq<(KeyV, V)>, k: KeyV)
    requires
        has_key(s, k),
    ensures
        lru_pop(s, k).0.len() == s.len() - 1,
{
}

/// Replacing the value of entry `i` keeps keys distinct and is what a lookup of its key finds.
proof fn lemma_update_same_key<V>(s: Seq<(KeyV, V)>, i: int, v: V)
    requires
        distinct_keys(s),
        0 <= i < s.len(),
    ensures
        distinct_keys(s.update(i, (s[i].0, v))),
        lookup(s.update(i, (s[i].0, v)), s[i].0) == Some(v),
{
    let t = s.update(i, (s[i].0, v));
    assert forall|a: int, b: int| 0 <= a < b < t.len() implies (#[trigger] t[a]).0 != (#[trigger] t[b]).0 by {
        assert(t[a].0 == s[a].0 && t[b].0 == s[b].0);
    }
    assert(t[i].0 == s[i].0);
    let c = key_index(t, s[i].0);
    assert(c == i) by {
        if c != i {
            assert(t[c].0 == t[i].0);
        }
    }
}

impl<V: Clone> ChunkingCache<V> {
    /// Stores `value` under `key` at time `now`: a copy goes to the first level (which may
    /// evict its least recently used entry) and, when enabled, the value to the second level
    /// (a full second level first drops its least recently accessed entry). Counts evictions.
    pub fn set(&mut self, key: CacheKey, value: V, now: u64)
        requires
            old(self).wf(),
            counts_below_max(old(self).spec_stats()),
        ensures
            final(self).wf(),
            final(self).spec_config() == old(self).spec_config(),
            stats_consistent(old(self).spec_stats(), old(self).spec_config().enable_l2) ==> stats_consistent(final(self).spec_stats(), final(self).spec_config().enable_l2),
            ({
                let k = key_view(key);
                let c = old(self).spec_config();
                let ev1 = evicts(old(self).level1(), k, c.l1_capacity as nat);
                let ev2 = c.enable_l2 && old(self).level2().len() >= c.l2_capacity && old(self).level2().len() > 0;
                let st = old(self).spec_stats();
                &&& (lookup(final(self).level1(), k) matches Some(x) && x.created_at == now && x.access_count == 1
                    && x.last_accessed == now && cloned(value, x.data))
                &&& c.enable_l2 ==> lookup(final(self).level2(), k) == Some(
                    CacheEntry { data: value, created_at: now, access_count: 1, last_accessed: now },
                )
                &&& !c.enable_l2 ==> final(self).level2() == old(self).level2()
                &&& others_same_but(final(self).level1(), old(self).level1(), k, old(self).level1()[0].0, ev1)
                &&& c.enable_l2 ==> level2_kept(final(self).level2(), old(self).level2(), k, ev2)
                &&& final(self).spec_stats() == CacheStats {
                    evictions: (st.evictions + (if ev1 { 1int } else { 0 }) + (if ev2 { 1int } else { 0 })) as u64,
                    ..st
                }
            }),
    {
        let ghost k = key_view(key);
        let entry = CacheEntry { data: value, created_at: now, access_count: 1, last_accessed: now };
        let copy = copy_entry(&entry);
        let ghost cv = copy;
        let ghost s1 = self.l1@;
        let evicted = self.l1.put(copy_key(&key), copy);
        proof {
            law_get_after_put(s1, k, cv, self.config.l1_capacity as nat);
            assert forall|k2: KeyV| k2 != k implies #[trigger] lookup(self.l1@, k2) == lookup(s1, k2)
                || (evicts(s1, k, self.config.l1_capacity as nat) && k2 == s1[0].0 && lookup(self.l1@, k2) is None) by {
                lemma_lookup_put(s1, k, cv, self.config.l1_capacity as nat, k2);
            }
            assert(others_same_but(self.l1@, s1, k, s1[0].0, evicts(s1, k, self.config.l1_capacity as nat)));
        }
        let ghost l1_after = self.l1@;
        if evicted.is_some() {
            self.stats.evictions = self.stats.evictions + 1;
        }
        if self.config.enable_l2 {
            let ghost s2 = table_view(self.l2@);
            let ghost mut g: KeyV = k;
            if self.l2.len() >= self.config.l2_capacity {
                match oldest_index(&self.l2) {
                    Some(i) => {
                        self.l2.remove(i);
                        proof {
                            assert(table_view(self.l2@) =~= s2.remove(i as int));
                            lemma_distinct_remove(s2, i as int);
                            g = s2[i as int].0;
                            assert(is_oldest(s2, i as int) && s2[i as int].0 == g);
                            assert forall|k2: KeyV| k2 != k implies #[trigger] lookup(table_view(self.l2@), k2) == lookup(s2, k2)
                                || (k2 == g && lookup(table_view(self.l2@), k2) is None) by {
                                if k2 == g {
                                    lemma_lookup_remove_same(s2, i as int);
                                } else {
                                    lemma_lookup_remove(s2, i as int, k2);
                                }
                            }
                        }
                        self.stats.evictions = self.stats.evictions + 1;
                    },
                    None => {},
                }
            }
            let ghost s3 = table_view(self.l2@);
            table_insert(&mut self.l2, key, entry);
            proof {
                lemma_lookup_with(s3, k, entry);
                let ev2 = self.config.enable_l2 && s2.len() >= self.config.l2_capacity && s2.len() > 0;
                assert forall|k2: KeyV| k2 != k implies #[trigger] lookup(table_view(self.l2@), k2) == lookup(s2, k2)
                    || (ev2 && k2 == g && lookup(table_view(self.l2@), k2) is None) by {
                    lemma_lookup_with_other(s3, k, entry, k2);
                }
                assert(others_same_but(table_view(self.l2@), s2, k, g, ev2));
                assert(ev2 ==> exists|i: int| #[trigger] is_oldest(s2, i) && s2[i].0 == g);
                assert(level2_kept(table_view(self.l2@), s2, k, ev2));
                assert(self.l1@ == l1_after);
            }
        }
    }

    /// Drops the entries of `key` from both levels.
    pub fn invalidate(&mut self, key: &CacheKey)
        requires
            old(self).wf(),
        ensures
            final(self).wf(),
            final(self).spec_config() == old(self).spec_config(),
            final(self).spec_stats() == old(self).spec_stats(),
            lookup(final(self).level1(), key_view(*key)) is None,
            old(self).spec_config().enable_l2 ==> lookup(final(self).level2(), key_view(*key)) is None,
            !old(self).spec_config().enable_l2 ==> final(self).level2() == old(self).level2(),
            others_same(final(self).level1(), old(self).level1(), key_view(*key)),
            others_same(final(self).level2(), old(self).level2(), key_view(*key)),
    {
        let ghost s1 = self.l1@;
        let ghost s2 = table_view(self.l2@);
        self.l1.pop(key);
        proof {
            law_pop_removes(s1, key_view(*key));
            assert forall|k2: KeyV| k2 != key_view(*key) implies #[trigger] lookup(self.l1@, k2) == lookup(s1, k2) by {
                lemma_lookup_pop(s1, key_view(*key), k2);
            }
        }
        if self.config.enable_l2 {
            table_remove(&mut self.l2, key);
            proof {
                law_pop_removes(s2, key_view(*key));
                assert forall|k2: KeyV| k2 != key_view(*key) implies #[trigger] lookup(table_view(self.l2@), k2) == lookup(s2, k2) by {
                    lemma_lookup_pop(s2, key_view(*key), k2);
                }
            }
        }
    }

    /// Drops every entry of document `document_id` from both levels.
    pub fn invalidate_document(&mut self, document_id: &str)
        requires
            old(self).wf(),
        ensures
            final(self).wf(),
            final(self).spec_config() == old(self).spec_config(),
            final(self).spec_stats() == old(self).spec_stats(),
            final(self).level1() == without_document(old(self).level1(), document_id@),
            old(self).spec_config().enable_l2 ==> final(self).level2() == without_document(old(self).level2(), document_id@),
            !old(self).spec_config().enable_l2 ==> final(self).level2() == old(self).level2(),
    {
        self.l1.remove_document(document_id);
        if self.config.enable_l2 {
            let ghost s = table_view(self.l2@);
            let ghost cfg = self.config;
            let ghost st = self.stats;
            let ghost l1s = self.l1;
            let mut old_entries: Vec<(CacheKey, CacheEntry<V>)> = Vec::new();
            std::mem::swap(&mut self.l2, &mut old_entries);
            let ghost oe = old_entries@;
            assert(s.take(0) =~= Seq::<(KeyV, CacheEntry<V>)>::empty());
            assert(table_view(self.l2@) =~= Seq::<(KeyV, CacheEntry<V>)>::empty());
            for e in it: old_entries
                invariant
                    it.seq() == oe,
                    table_view(oe) == s,
                    table_view(self.l2@) == without_document(s.take(it.index() as int), document_id@),
                    self.config == cfg,
                    self.stats == st,
                    self.l1 == l1s,
            {
                let ghost i = it.index();
                assert(s.take(i + 1).drop_last() =~= s.take(i as int));
                assert(s.take(i + 1).last() == s[i as int]);
                assert(s[i as int] == (key_view(e.0), e.1));
                let ghost before = self.l2@;
                if !str_eq(e.0.document_id.as_str(), document_id) {
                    self.l2.push(e);
                    assert(table_view(self.l2@) =~= table_view(before).push(s[i as int]));
                }
            }
            assert(s.take(s.len() as int) =~= s);
            proof {
                lemma_without_document(s, document_id@);
            }
        }
    }

    /// Drops every entry and sets the counts back to zero.
    pub fn clear(&mut self)
        requires
            old(self).wf(),
        ensures
            final(self).wf(),
            final(self).spec_config() == old(self).spec_config(),
            final(self).level1().len() == 0,
            old(self).spec_config().enable_l2 ==> final(self).level2().len() == 0,
            !old(self).spec_config().enable_l2 ==> final(self).level2() == old(self).level2(),
            final(self).spec_stats() == (CacheStats { l1_hits: 0, l1_misses: 0, l2_hits: 0, l2_misses: 0, total_requests: 0, evictions: 0 }),
    {
        self.l1.clear();
        if self.config.enable_l2 {
            self.l2 = Vec::new();
            assert(table_view(self.l2@) =~= Seq::<(KeyV, CacheEntry<V>)>::empty());
        }
        self.stats = CacheStats::zero();
    }
}

/// What a lookup finds right after a value was stored.
proof fn lemma_lookup_with<T>(s: Seq<(KeyV, T)>, k: KeyV, v: T)
    requires
        distinct_keys(s),
        distinct_keys(table_with(s, k, v)),
    ensures
        lookup(table_with(s, k, v), k) == Some(v),
{
    let t = table_with(s, k, v);
    if has_key(s, k) {
        let i = key_index(s, k);
        assert(t[i] == (k, v));
        let c = key_index(t, k);
        assert(c == i) by {
            if c != i {
                assert(t[c].0 == t[i].0);
            }
        }
    } else {
        let n = s.len() as int;
        assert(t[n] == (k, v));
        let c = key_index(t, k);
        assert(c == n) by {
            if c != n {
                assert(t[c].0 == t[n].0);
            }
        }
    }
}

/// In a table without repeated keys, the entry at `j` is what a lookup of its key finds.
proof fn lemma_lookup_at<V>(s: Seq<(KeyV, V)>, j: int)
    requires
        distinct_keys(s),
        0 <= j < s.len(),
    ensures
        lookup(s, s[j].0) == Some(s[j].1),
{
    assert(has_key(s, s[j].0));
    let c = key_index(s, s[j].0);
    assert(c == j) by {
        if c != j {
            assert(s[c].0 == s[j].0);
        }
    }
}

/// Removing entry `f` changes what no other key finds.
proof fn lemma_lookup_remove<V>(s: Seq<(KeyV, V)>, f: int, k2: KeyV)
    requires
        distinct_keys(s),
        0 <= f < s.len(),
        s[f].0 != k2,
    ensures
        lookup(s.remove(f), k2) == lookup(s, k2),
{
    let t = s.remove(f);
    lemma_distinct_remove(s, f);
    if has_key(s, k2) {
        let j = key_index(s, k2);
        let j2 = if j < f { j } else { j - 1 };
        assert(j != f);
        assert(t[j2] == s[j]);
        lemma_lookup_at(s, j);
        lemma_lookup_at(t, j2);
    } else {
        if has_key(t, k2) {
            let j = key_index(t, k2);
            let j2 = if j < f { j } else { j + 1 };
            assert(t[j] == s[j2]);
        }
    }
}

/// Removing the entry of `k2` leaves nothing for it.
proof fn lemma_lookup_remove_same<V>(s: Seq<(KeyV, V)>, f: int)
    requires
        distinct_keys(s),
        0 <= f < s.len(),
    ensures
        lookup(s.remove(f), s[f].0) is None,
{
    let t = s.remove(f);
    if has_key(t, s[f].0) {
        let j = key_index(t, s[f].0);
        let j2 = if j < f { j } else { j + 1 };
        assert(t[j] == s[j2]);
        assert(s[j2].0 == s[f].0);
    }
}

/// Adding an entry for another key changes what no other key finds.
proof fn lemma_lookup_push<V>(s: Seq<(KeyV, V)>, x: (KeyV, V), k2: KeyV)
    requires
        distinct_keys(s),
        !has_key(s, x.0),
        x.0 != k2,
    ensures
        lookup(s.push(x), k2) == lookup(s, k2),
{
    let t = s.push(x);
    assert forall|a: int, b: int| 0 <= a < b < t.len() implies (#[trigger] t[a]).0 != (#[trigger] t[b]).0 by {
        assert(t[a] == s[a]);
        if b < s.len() {
            assert(t[b] == s[b]);
        }
    }
    if has_key(s, k2) {
        let j = key_index(s, k2);
        assert(t[j] == s[j]);
        lemma_lookup_at(s, j);
        lemma_lookup_at(t, j);
    } else if has_key(t, k2) {
        let j = key_index(t, k2);
        if j < s.len() {
            assert(t[j] == s[j]);
        }
    }
}

/// Removing an entry by key changes what no other key finds.
proof fn lemma_lookup_pop<V>(s: Seq<(KeyV, V)>, k: KeyV, k2: KeyV)
    requires
        distinct_keys(s),
        k2 != k,
    ensures
        lookup(lru_pop(s, k).0, k2) == lookup(s, k2),
{
    if has_key(s, k) {
        lemma_lookup_remove(s, key_index(s, k), k2);
    }
}

/// Touching an entry changes what no key finds.
proof fn lemma_lookup_touch<V>(s: Seq<(KeyV, V)>, k: KeyV, k2: KeyV)
    requires
        distinct_keys(s),
        k2 != k,
    ensures
        lookup(lru_touch(s, k), k2) == lookup(s, k2),
{
    if has_key(s, k) {
        let i = key_index(s, k);
        lemma_lookup_remove(s, i, k2);
        lemma_distinct_remove(s, i);
        lemma_lookup_remove_same(s, i);
        lemma_lookup_push(s.remove(i), s[i], k2);
    }
}

/// Storing under `k` changes what no other key finds, save the least recently used entry
/// when it is evicted to make room.
proof fn lemma_lookup_put<V>(s: Seq<(KeyV, V)>, k: KeyV, v: V, capacity: nat, k2: KeyV)
    requires
        distinct_keys(s),
        k2 != k,
    ensures
        lookup(lru_put(s, k, v, capacity).0, k2) == lookup(s, k2)
            || (evicts(s, k, capacity) && k2 == s[0].0 && lookup(lru_put(s, k, v, capacity).0, k2) is None),
{
    let evict = !has_key(s, k) && s.len() >= capacity && s.len() > 0;
    let s1 = if evict { s.drop_first() } else { s };
    if evict {
        assert(s.drop_first() =~= s.remove(0));
        lemma_distinct_remove(s, 0);
        if s[0].0 != k2 {
            lemma_lookup_remove(s, 0, k2);
        } else {
            lemma_lookup_remove_same(s, 0);
        }
    }
    let s2 = if has_key(s1, k) { s1.remove(key_index(s1, k)) } else { s1 };
    if has_key(s1, k) {
        lemma_lookup_remove(s1, key_index(s1, k), k2);
        lemma_distinct_remove(s1, key_index(s1, k));
        lemma_lookup_remove_same(s1, key_index(s1, k));
    }
    lemma_lookup_push(s2, (k, v), k2);
}

/// Storing a value under `k` in a table changes what no other key finds.
proof fn lemma_lookup_with_other<T>(s: Seq<(KeyV, T)>, k: KeyV, v: T, k2: KeyV)
    requires
        distinct_keys(s),
        k2 != k,
    ensures
        lookup(table_with(s, k, v), k2) == lookup(s, k2),
{
    if has_key(s, k) {
        let i = key_index(s, k);
        let t = s.update(i, (k, v));
        lemma_update_same_key(s, i, v);
        if has_key(s, k2) {
            let j = key_index(s, k2);
            assert(t[j] == s[j]);
            lemma_lookup_at(s, j);
            lemma_lookup_at(t, j);
        } else if has_key(t, k2) {
            let j = key_index(t, k2);
            assert(t[j].0 == s[j].0);
        }
    } else {
        lemma_lookup_push(s, (k, v), k2);
    }
}

/// Replacing the value of entry `i` changes what no other key finds.
proof fn lemma_lookup_update_other<T>(s: Seq<(KeyV, T)>, i: int, v: T, k2: KeyV)
    requires
        distinct_keys(s),
        0 <= i < s.len(),
        s[i].0 != k2,
    ensures
        lookup(s.update(i, (s[i].0, v)), k2) == lookup(s, k2),
{
    let t = s.update(i, (s[i].0, v));
    lemma_update_same_key(s, i, v);
    if has_key(s, k2) {
        let j = key_index(s, k2);
        assert(t[j] == s[j]);
        lemma_lookup_at(s, j);
        lemma_lookup_at(t, j);
    } else if has_key(t, k2) {
        let j = key_index(t, k2);
        assert(t[j].0 == s[j].0);
    }
}

/// A lookup that pops `k` from the first level and may store it again keeps every other
/// entry, save the least recently used one when storing evicts it.
proof fn lemma_promote_frame<V>(s: Seq<(KeyV, V)>, k: KeyV, x: V, capacity: nat)
    requires
        distinct_keys(s),
    ensures
        others_same_but(lru_pop(s, k).0, s, k, promote_victim(s, k), evicts(lru_pop(s, k).0, k, capacity)),
        others_same_but(lru_put(lru_pop(s, k).0, k, x, capacity).0, s, k, promote_victim(s, k), evicts(lru_pop(s, k).0, k, capacity)),
{
    let p = lru_pop(s, k).0;
    if has_key(s, k) {
        lemma_distinct_remove(s, key_index(s, k));
    }
    assert forall|k2: KeyV| k2 != k implies #[trigger] lookup(p, k2) == lookup(s, k2) by {
        lemma_lookup_pop(s, k, k2);
    }
    assert forall|k2: KeyV| k2 != k implies #[trigger] lookup(lru_put(p, k, x, capacity).0, k2) == lookup(s, k2)
        || (evicts(p, k, capacity) && k2 == promote_victim(s, k) && lookup(lru_put(p, k, x, capacity).0, k2) is None) by {
        lemma_lookup_pop(s, k, k2);
        lemma_lookup_put(p, k, x, capacity, k2);
    }
}

} // verus!
