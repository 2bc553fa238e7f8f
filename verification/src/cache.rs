//! A bounded memoization cache: a map that empties itself when it is full
//! and an insertion finds it more than three-quarters used.

use vstd::prelude::*;
use crate::dependency::CacheKey;

verus! {

/// Keys a cache can hold: compared and copied by their views.
pub trait CacheKeyType: View + Sized {
    /// Whether two keys are the same.
    fn same_key(&self, other: &Self) -> (b: bool)
        ensures
            b == (self@ == other@),
    ;

    /// A copy of the key.
    fn copy_key(&self) -> (r: Self)
        ensures
            r@ == self@,
    ;
}

impl CacheKeyType for String {
    fn same_key(&self, other: &Self) -> (b: bool) {
        *self == *other
    }

    fn copy_key(&self) -> (r: Self) {
        self.clone()
    }
}

impl View for CacheKey {
    type V = CacheKey;

    open spec fn view(&self) -> CacheKey {
        *self
    }
}

impl CacheKeyType for CacheKey {
    fn same_key(&self, other: &Self) -> (b: bool) {
        self.content_hash == other.content_hash && self.constraint_hash == other.constraint_hash
            && self.state_hash == other.state_hash
    }

    fn copy_key(&self) -> (r: Self) {
        *self
    }
}

/// Distinct keys.
pub open spec fn distinct_keys<KV, V>(s: Seq<(KV, V)>) -> bool {
    forall|i: int, j: int| 0 <= i < j < s.len() ==> #[trigger] s[i].0 != #[trigger] s[j].0
}

/// The map of a sequence of entries with distinct keys.
pub open spec fn pairs_map<KV, V>(s: Seq<(KV, V)>) -> Map<KV, V>
    decreases s.len(),
{
    if s.len() == 0 {
        Map::empty()
    } else {
        pairs_map(s.drop_last()).insert(s.last().0, s.last().1)
    }
}

/// Membership and lookup in the map of entries with distinct keys.
pub proof fn lemma_pairs_map<KV, V>(s: Seq<(KV, V)>)
    requires
        distinct_keys(s),
    ensures
        forall|k: KV| #[trigger] pairs_map(s).contains_key(k) <==> exists|i: int| 0 <= i < s.len() && #[trigger] s[i].0 == k,
        forall|i: int| 0 <= i < s.len() ==> #[trigger] pairs_map(s)[s[i].0] == s[i].1,
    decreases s.len(),
{
    if s.len() > 0 {
        let t = s.drop_last();
        let n = s.len() - 1;
        assert(distinct_keys(t));
        lemma_pairs_map(t);
        assert(pairs_map(s) == pairs_map(t).insert(s[n].0, s[n].1));
        assert forall|k: KV| #[trigger] pairs_map(s).contains_key(k) <==> exists|i: int| 0 <= i < s.len() && #[trigger] s[i].0 == k by {
            if pairs_map(t).contains_key(k) {
                let i = choose|i: int| 0 <= i < t.len() && #[trigger] t[i].0 == k;
                assert(s[i].0 == k);
            }
            if exists|i: int| 0 <= i < s.len() && #[trigger] s[i].0 == k {
                let i = choose|i: int| 0 <= i < s.len() && #[trigger] s[i].0 == k;
                if i < n {
                    assert(t[i].0 == k);
                }
            }
        }
        assert forall|i: int| 0 <= i < s.len() implies #[trigger] pairs_map(s)[s[i].0] == s[i].1 by {
            if i < n {
                assert(t[i] == s[i]);
                assert(s[i].0 != s[n].0);
            }
        }
    }
}

/// Index of the last entry under `k`, or -1 where there is none.
pub open spec fn key_index<KV, V>(s: Seq<(KV, V)>, k: KV) -> int
    decreases s.len(),
{
    if s.len() == 0 {
        -1
    } else if s.last().0 == k {
        s.len() - 1
    } else {
        key_index(s.drop_last(), k)
    }
}

/// `key_index` finds the entry under `k` where there is one, and is the
/// only such entry when keys are distinct.
pub proof fn lemma_key_index<KV, V>(s: Seq<(KV, V)>, k: KV)
    ensures
        -1 <= key_index(s, k) < s.len(),
        key_index(s, k) >= 0 ==> s[key_index(s, k)].0 == k,
        key_index(s, k) < 0 ==> forall|i: int| 0 <= i < s.len() ==> #[trigger] s[i].0 != k,
        distinct_keys(s) ==> forall|i: int| 0 <= i < s.len() && #[trigger] s[i].0 == k ==> i == key_index(s, k),
    decreases s.len(),
{
    if s.len() > 0 {
        let t = s.drop_last();
        let n = s.len() - 1;
        lemma_key_index(t, k);
        if s.last().0 != k {
            assert forall|i: int| 0 <= i < s.len() && key_index(s, k) < 0 implies #[trigger] s[i].0
                != k by {
                if i < n {
                    assert(t[i] == s[i]);
                }
            }
            if distinct_keys(s) {
                assert(distinct_keys(t)) by {
                    assert forall|a: int, b: int| 0 <= a < b < t.len() implies #[trigger] t[a].0
                        != #[trigger] t[b].0 by {
                        assert(t[a] == s[a]);
                        assert(t[b] == s[b]);
                    }
                }
                assert forall|i: int| 0 <= i < s.len() && #[trigger] s[i].0 == k implies i
                    == key_index(s, k) by {
                    if i < n {
                        assert(t[i] == s[i]);
                    }
                }
            }
        } else {
            if distinct_keys(s) {
                assert forall|i: int| 0 <= i < s.len() && #[trigger] s[i].0 == k implies i
                    == key_index(s, k) by {
                    if i < n {
                        assert(s[i].0 != s[n].0);
                    }
                }
            }
        }
    }
}

/// Removing entry `i` removes its key from the map.
pub proof fn lemma_pairs_map_remove<KV, V>(s: Seq<(KV, V)>, i: int)
    requires
        distinct_keys(s),
        0 <= i < s.len(),
    ensures
        distinct_keys(s.remove(i)),
        pairs_map(s.remove(i)) == pairs_map(s).remove(s[i].0),
{
    let t = s.remove(i);
    assert(distinct_keys(t)) by {
        assert forall|a: int, b: int| 0 <= a < b < t.len() implies #[trigger] t[a].0 != #[trigger] t[b].0 by {
            let a2 = if a < i { a } else { a + 1 };
            let b2 = if b < i { b } else { b + 1 };
            assert(t[a] == s[a2]);
            assert(t[b] == s[b2]);
        }
    }
    lemma_pairs_map(s);
    lemma_pairs_map(t);
    assert forall|k: KV| #[trigger] pairs_map(t).contains_key(k) == pairs_map(s).remove(s[i].0).contains_key(k) by {
        if pairs_map(t).contains_key(k) {
            let a = choose|a: int| 0 <= a < t.len() && #[trigger] t[a].0 == k;
            let a2 = if a < i { a } else { a + 1 };
            assert(s[a2].0 == k);
        }
        if pairs_map(s).contains_key(k) && k != s[i].0 {
            let a = choose|a: int| 0 <= a < s.len() && #[trigger] s[a].0 == k;
            let a2 = if a < i { a } else { a - 1 };
            assert(t[a2].0 == k);
        }
    }
    assert forall|k: KV| #[trigger] pairs_map(t).contains_key(k) implies pairs_map(t)[k] == pairs_map(s)[k] by {
        let a = choose|a: int| 0 <= a < t.len() && #[trigger] t[a].0 == k;
        let a2 = if a < i { a } else { a + 1 };
        assert(t[a] == s[a2]);
    }
    assert(pairs_map(t) =~= pairs_map(s).remove(s[i].0));
}

/// Setting entry `i`'s value sets its key's value in the map.
pub proof fn lemma_pairs_map_update<KV, V>(s: Seq<(KV, V)>, i: int, v: V)
    requires
        distinct_keys(s),
        0 <= i < s.len(),
    ensures
        distinct_keys(s.update(i, (s[i].0, v))),
        pairs_map(s.update(i, (s[i].0, v))) == pairs_map(s).insert(s[i].0, v),
{
    let t = s.update(i, (s[i].0, v));
    assert(distinct_keys(t)) by {
        assert forall|a: int, b: int| 0 <= a < b < t.len() implies #[trigger] t[a].0 != #[trigger] t[b].0 by {
            assert(t[a].0 == s[a].0);
            assert(t[b].0 == s[b].0);
        }
    }
    lemma_pairs_map(s);
    lemma_pairs_map(t);
    assert forall|k: KV| #[trigger] pairs_map(t).contains_key(k) == pairs_map(s).insert(s[i].0, v).contains_key(k) by {
        if pairs_map(t).contains_key(k) {
            let a = choose|a: int| 0 <= a < t.len() && #[trigger] t[a].0 == k;
            assert(s[a].0 == k);
        }
        if pairs_map(s).contains_key(k) {
            let a = choose|a: int| 0 <= a < s.len() && #[trigger] s[a].0 == k;
            assert(t[a].0 == k);
        }
    }
    assert forall|k: KV| #[trigger] pairs_map(t).contains_key(k) implies pairs_map(t)[k] == pairs_map(s).insert(s[i].0, v)[k] by {
        let a = choose|a: int| 0 <= a < t.len() && #[trigger] t[a].0 == k;
        if a != i {
            assert(t[a] == s[a]);
        }
    }
    assert(pairs_map(t) =~= pairs_map(s).insert(s[i].0, v));
}

/// A memoization cache with an entry limit and a memory limit.
pub struct MemoizationCache<K, V> {
    storage: Vec<(K, V)>,
    max_entries: usize,
    memory_usage: usize,
    memory_limit: usize,
}

impl<K: CacheKeyType, V> MemoizationCache<K, V> {
    /// The stored entries, keys by their views, in storage order.
    pub closed spec fn entry_seq(&self) -> Seq<(K::V, V)> {
        self.storage@.map_values(|e: (K, V)| (e.0@, e.1))
    }

    /// The cache's contents.
    pub open spec fn contents(&self) -> Map<K::V, V> {
        pairs_map(self.entry_seq())
    }

    /// Entry limit.
    pub closed spec fn spec_max_entries(&self) -> usize {
        self.max_entries
    }

    /// Tracked memory usage in bytes.
    pub closed spec fn spec_memory_usage(&self) -> usize {
        self.memory_usage
    }

    /// Memory limit in bytes.
    pub closed spec fn spec_memory_limit(&self) -> usize {
        self.memory_limit
    }

    /// Well-formed: keys distinct, the eviction threshold computable, and
    /// no memory tracked (no operation adds to the tracked usage).
    pub closed spec fn wf(&self) -> bool {
        &&& distinct_keys(self.entry_seq())
        &&& self.max_entries <= usize::MAX / 3
        &&& self.memory_usage == 0
    }

    /// A well-formed cache tracks no memory, so it counts as full by memory
    /// exactly when its memory limit is zero.
    pub proof fn lemma_no_tracked_usage(&self)
        requires
            self.wf(),
        ensures
            self.spec_memory_usage() == 0,
            self.evicts_on_insert() <==> (self.entry_seq().len() >= self.spec_max_entries()
                || self.spec_memory_limit() == 0) && self.entry_seq().len() > self.spec_max_entries() * 3
                / 4,
    {
    }

    /// Whether an insertion into this cache first empties it: the cache is
    /// full (by entries or by memory) and holds more than three-quarters of
    /// its entry limit.
    pub open spec fn evicts_on_insert(&self) -> bool {
        (self.entry_seq().len() >= self.spec_max_entries() || self.spec_memory_usage()
            >= self.spec_memory_limit()) && self.entry_seq().len() > self.spec_max_entries() * 3 / 4
    }

    /// Number of entries after inserting under `k`: one where the cache
    /// first empties, as many as before where `k` is held, one more
    /// otherwise.
    pub open spec fn entries_after_insert(&self, k: K::V) -> nat {
        if self.evicts_on_insert() {
            1
        } else if key_index(self.entry_seq(), k) >= 0 {
            self.entry_seq().len()
        } else {
            self.entry_seq().len() + 1
        }
    }

    /// The bounded-cache law: in a cache with room for at least one entry
    /// and a nonzero memory limit that holds no more entries than its
    /// limit, an insertion first empties the cache exactly when the cache
    /// is at its entry limit, and afterwards the cache holds at least one
    /// and at most its limit of entries.
    pub proof fn law_bounded_insert(&self, k: K::V)
        requires
            self.wf(),
            self.spec_max_entries() >= 1,
            self.spec_memory_limit() >= 1,
            self.entry_seq().len() <= self.spec_max_entries(),
        ensures
            self.evicts_on_insert() <==> self.entry_seq().len() == self.spec_max_entries(),
            1 <= self.entries_after_insert(k) <= self.spec_max_entries(),
    {
        let m = self.spec_max_entries() as int;
        assert(m * 3 / 4 < m) by (nonlinear_arith)
            requires
                m >= 1,
        ;
        lemma_key_index(self.entry_seq(), k);
    }

    /// The cache's map reads its entries: a key is held exactly when some
    /// entry carries it, and its value is that entry's.
    pub proof fn lemma_entries(&self, k: K::V)
        requires
            self.wf(),
        ensures
            distinct_keys(self.entry_seq()),
            self.contents().contains_key(k) <==> key_index(self.entry_seq(), k) >= 0,
            key_index(self.entry_seq(), k) >= 0 ==> self.contents()[k] == self.entry_seq()[key_index(
                self.entry_seq(),
                k,
            )].1,
    {
        lemma_pairs_map(self.entry_seq());
        lemma_key_index(self.entry_seq(), k);
        if self.contents().contains_key(k) {
            let i = choose|i: int| 0 <= i < self.entry_seq().len() && #[trigger] self.entry_seq()[i].0 == k;
        }
    }

    /// An empty cache holding at most `max_entries` entries under a limit of
    /// `memory_limit_mb` megabytes.
    pub fn new(max_entries: usize, memory_limit_mb: usize) -> (c: Self)
        requires
            max_entries <= usize::MAX / 3,
            memory_limit_mb * 1048576 <= usize::MAX,
        ensures
            c.wf(),
            c.contents() == Map::<K::V, V>::empty(),
            c.entry_seq().len() == 0,
            c.spec_max_entries() == max_entries,
            c.spec_memory_usage() == 0,
            c.spec_memory_limit() == memory_limit_mb * 1024 * 1024,
    {
        let c = MemoizationCache {
            storage: Vec::with_capacity(max_entries / 4),
            max_entries,
            memory_usage: 0,
            memory_limit: memory_limit_mb * 1024 * 1024,
        };
        proof {
            assert(c.entry_seq() =~= Seq::<(K::V, V)>::empty());
        }
        c
    }

    /// Index of the entry under `key`.
    fn find(&self, key: &K) -> (r: Option<usize>)
        requires
            self.wf(),
        ensures
            r is Some <==> self.contents().contains_key(key@),
            r is Some ==> r.unwrap() < self.entry_seq().len() && self.entry_seq()[r.unwrap() as int].0 == key@,
    {
        proof {
            lemma_pairs_map(self.entry_seq());
        }
        let n = self.storage.len();
        let mut i: usize = 0;
        while i < n
            invariant
                self.wf(),
                n == self.entry_seq().len(),
                i <= n,
                forall|j: int| 0 <= j < i ==> #[trigger] self.entry_seq()[j].0 != key@,
            decreases n - i,
        {
            let same = self.storage[i].0.same_key(key);
            proof {
                assert(self.entry_seq()[i as int].0 == self.storage@[i as int].0@);
            }
            if same {
                proof {
                    lemma_pairs_map(self.entry_seq());
                    assert(self.entry_seq()[i as int].0 == key@);
                    assert(pairs_map(self.entry_seq()).contains_key(key@));
                }
                return Some(i);
            }
            i += 1;
        }
        proof {
            if self.contents().contains_key(key@) {
                let j = choose|j: int| 0 <= j < self.entry_seq().len() && #[trigger] self.entry_seq()[j].0 == key@;
            }
        }
        None
    }

    /// The value under `key`, if any.
    pub fn get(&self, key: &K) -> (r: Option<&V>)
        requires
            self.wf(),
        ensures
            r is Some <==> self.contents().contains_key(key@),
            r is Some ==> *r.unwrap() == self.contents()[key@],
    {
        proof {
            lemma_pairs_map(self.entry_seq());
        }
        match self.find(key) {
            Some(i) => Some(&self.storage[i].1),
            None => None,
        }
    }

    /// Inserts `value` under `key`, returning the value it replaces. When
    /// the cache is full by entries or memory and more than three-quarters
    /// used, it is emptied first (and nothing is replaced).
    pub fn insert(&mut self, key: K, value: V) -> (r: Option<V>)
        requires
            old(self).wf(),
        ensures
            final(self).wf(),
            final(self).spec_max_entries() == old(self).spec_max_entries(),
            final(self).spec_memory_limit() == old(self).spec_memory_limit(),
            old(self).evicts_on_insert() ==> {
                &&& final(self).contents() == Map::<K::V, V>::empty().insert(key@, value)
                &&& final(self).spec_memory_usage() == 0
                &&& r is None
            },
            !old(self).evicts_on_insert() ==> {
                &&& final(self).contents() == old(self).contents().insert(key@, value)
                &&& final(self).spec_memory_usage() == old(self).spec_memory_usage()
                &&& r is Some <==> old(self).contents().contains_key(key@)
                &&& r is Some ==> r.unwrap() == old(self).contents()[key@]
            },
            old(self).evicts_on_insert() ==> final(self).entry_seq() == seq![(key@, value)],
            !old(self).evicts_on_insert() && key_index(old(self).entry_seq(), key@) >= 0
                ==> final(self).entry_seq() == old(self).entry_seq().update(
                key_index(old(self).entry_seq(), key@),
                (key@, value),
            ),
            !old(self).evicts_on_insert() && key_index(old(self).entry_seq(), key@) < 0
                ==> final(self).entry_seq() == old(self).entry_seq().push((key@, value)),
            final(self).entry_seq().len() == old(self).entries_after_insert(key@),
    {
        if self.storage.len() >= self.max_entries || self.memory_usage >= self.memory_limit {
            self.evict_entries();
        }
        let ghost before = self.entry_seq();
        proof {
            lemma_pairs_map(before);
            lemma_key_index(before, key@);
            if old(self).evicts_on_insert() {
                assert(before.len() == 0);
            }
        }
        match self.find(&key) {
            Some(i) => {
                let k = self.storage[i].0.copy_key();
                let ghost kv = k@;
                let (_, previous) = self.storage.remove(i);
                self.storage.insert(i, (k, value));
                proof {
                    assert(self.entry_seq() =~= before.update(i as int, (before[i as int].0, value)));
                    lemma_pairs_map_update(before, i as int, value);
                }
                Some(previous)
            },
            None => {
                let ghost kv = key@;
                self.storage.push((key, value));
                proof {
                    assert(self.entry_seq() =~= before.push((kv, value)));
                    assert(self.entry_seq().drop_last() =~= before);
                    assert forall|a: int, b: int| 0 <= a < b < self.entry_seq().len() implies #[trigger] self.entry_seq()[a].0 != #[trigger] self.entry_seq()[b].0 by {
                        if b == before.len() {
                            assert(before[a].0 != kv);
                        } else {
                            assert(before[a].0 != before[b].0);
                        }
                    }
                }
                None
            },
        }
    }

    /// Removes and returns the value under `key`.
    pub fn remove(&mut self, key: &K) -> (r: Option<V>)
        requires
            old(self).wf(),
        ensures
            final(self).wf(),
            final(self).contents() == old(self).contents().remove(key@),
            r is Some <==> old(self).contents().contains_key(key@),
            r is Some ==> r.unwrap() == old(self).contents()[key@],
            final(self).spec_max_entries() == old(self).spec_max_entries(),
            final(self).spec_memory_usage() == old(self).spec_memory_usage(),
            final(self).spec_memory_limit() == old(self).spec_memory_limit(),
            key_index(old(self).entry_seq(), key@) >= 0 ==> final(self).entry_seq() == old(
                self,
            ).entry_seq().remove(key_index(old(self).entry_seq(), key@)),
            key_index(old(self).entry_seq(), key@) < 0 ==> final(self).entry_seq() == old(
                self,
            ).entry_seq(),
    {
        let ghost before = self.entry_seq();
        proof {
            lemma_pairs_map(before);
            lemma_key_index(before, key@);
        }
        match self.find(key) {
            Some(i) => {
                let (_, v) = self.storage.remove(i);
                proof {
                    assert(self.entry_seq() =~= before.remove(i as int));
                    lemma_pairs_map_remove(before, i as int);
                }
                Some(v)
            },
            None => {
                proof {
                    assert(self.contents() =~= old(self).contents().remove(key@));
                }
                None
            },
        }
    }

    /// Replaces the value under `key` where there is one, without
    /// eviction, and returns the previous value; an absent key leaves the
    /// cache as it is and gives `None`.
    pub fn replace(&mut self, key: &K, value: V) -> (r: Option<V>)
        requires
            old(self).wf(),
        ensures
            final(self).wf(),
            final(self).spec_max_entries() == old(self).spec_max_entries(),
            final(self).spec_memory_usage() == old(self).spec_memory_usage(),
            final(self).spec_memory_limit() == old(self).spec_memory_limit(),
            key_index(old(self).entry_seq(), key@) >= 0 ==> {
                &&& final(self).entry_seq() == old(self).entry_seq().update(
                    key_index(old(self).entry_seq(), key@),
                    (key@, value),
                )
                &&& final(self).contents() == old(self).contents().insert(key@, value)
                &&& r == Some(old(self).entry_seq()[key_index(old(self).entry_seq(), key@)].1)
            },
            key_index(old(self).entry_seq(), key@) < 0 ==> {
                &&& final(self).entry_seq() == old(self).entry_seq()
                &&& r is None
            },
    {
        let ghost before = self.entry_seq();
        proof {
            lemma_pairs_map(before);
            lemma_key_index(before, key@);
        }
        match self.find(key) {
            Some(i) => {
                let (k, previous) = self.storage.remove(i);
                self.storage.insert(i, (k, value));
                proof {
                    assert(self.entry_seq() =~= before.update(i as int, (before[i as int].0, value)));
                    lemma_pairs_map_update(before, i as int, value);
                }
                Some(previous)
            },
            None => {
                proof {
                    if key_index(before, key@) >= 0 {
                        assert(pairs_map(before).contains_key(key@));
                    }
                }
                None
            },
        }
    }

    /// Number of entries.
    pub fn len(&self) -> (n: usize)
        requires
            self.wf(),
        ensures
            n == self.contents().len(),
            n == self.entry_seq().len(),
    {
        proof {
            lemma_pairs_map_len(self.entry_seq());
        }
        self.storage.len()
    }

    /// Whether the cache is empty.
    pub fn is_empty(&self) -> (b: bool)
        requires
            self.wf(),
        ensures
            b == (self.contents().len() == 0),
    {
        proof {
            lemma_pairs_map_len(self.entry_seq());
        }
        self.storage.len() == 0
    }

    /// Removes every entry and resets the memory usage.
    pub fn clear(&mut self)
        ensures
            final(self).wf() == (old(self).spec_max_entries() <= usize::MAX / 3),
            final(self).contents() == Map::<K::V, V>::empty(),
            final(self).entry_seq().len() == 0,
            final(self).spec_memory_usage() == 0,
            final(self).spec_max_entries() == old(self).spec_max_entries(),
            final(self).spec_memory_limit() == old(self).spec_memory_limit(),
    {
        self.storage.clear();
        self.memory_usage = 0;
        proof {
            assert(self.entry_seq() =~= Seq::<(K::V, V)>::empty());
        }
    }

    /// Empties the cache when it holds more than three-quarters of its
    /// entry limit.
    fn evict_entries(&mut self)
        requires
            old(self).wf(),
        ensures
            final(self).wf(),
            final(self).spec_max_entries() == old(self).spec_max_entries(),
            final(self).spec_memory_limit() == old(self).spec_memory_limit(),
            old(self).entry_seq().len() > old(self).spec_max_entries() * 3 / 4 ==> {
                &&& final(self).entry_seq().len() == 0
                &&& final(self).spec_memory_usage() == 0
            },
            old(self).entry_seq().len() <= old(self).spec_max_entries() * 3 / 4 ==> *final(self) == *old(self),
    {
        let target_size = self.max_entries * 3 / 4;
        if self.storage.len() > target_size {
            self.clear();
        }
    }

    /// The `i`-th entry in storage order.
    pub fn entry_at(&self, i: usize) -> (r: (&K, &V))
        requires
            i < self.entry_seq().len(),
        ensures
            r.0@ == self.entry_seq()[i as int].0,
            *r.1 == self.entry_seq()[i as int].1,
    {
        let e = &self.storage[i];
        (&e.0, &e.1)
    }

    /// Replaces the value of the `i`-th entry, keeping its key.
    pub fn set_value_at(&mut self, i: usize, value: V)
        requires
            old(self).wf(),
            i < old(self).entry_seq().len(),
        ensures
            final(self).wf(),
            final(self).entry_seq() == old(self).entry_seq().update(i as int, (old(self).entry_seq()[i as int].0, value)),
            final(self).contents() == old(self).contents().insert(old(self).entry_seq()[i as int].0, value),
            final(self).spec_max_entries() == old(self).spec_max_entries(),
            final(self).spec_memory_usage() == old(self).spec_memory_usage(),
            final(self).spec_memory_limit() == old(self).spec_memory_limit(),
    {
        let ghost before = self.entry_seq();
        let (k, _) = self.storage.remove(i);
        self.storage.insert(i, (k, value));
        proof {
            assert(self.entry_seq() =~= before.update(i as int, (before[i as int].0, value)));
            lemma_pairs_map_update(before, i as int, value);
        }
    }
}

/// The map of entries with distinct keys has one key per entry.
pub proof fn lemma_pairs_map_len<KV, V>(s: Seq<(KV, V)>)
    requires
        distinct_keys(s),
    ensures
        pairs_map(s).len() == s.len(),
        pairs_map(s).dom().finite(),
    decreases s.len(),
{
    if s.len() > 0 {
        let t = s.drop_last();
        assert(distinct_keys(t));
        lemma_pairs_map_len(t);
        lemma_pairs_map(t);
        if pairs_map(t).contains_key(s.last().0) {
            let i = choose|i: int| 0 <= i < t.len() && #[trigger] t[i].0 == s.last().0;
            assert(s[i].0 != s[s.len() - 1].0);
        }
    }
}

} // verus!
