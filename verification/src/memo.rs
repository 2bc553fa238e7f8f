//! The memoization system's bookkeeping: compilation modes, lookup
//! outcomes, counters, the spatial index of cache keys, and the system that
//! ties the cache, the dependency graph and the macro and register trackers
//! together.
use vstd::prelude::*;
use crate::cache::{MemoizationCache, key_index, lemma_key_index, pairs_map, distinct_keys, lemma_pairs_map};
use crate::dependency::{CacheKey, DependencyGraph, DependencyKey, DependencyKeyView, dependents_of, without_edge};
use crate::digests::{spec_siphash13, siphash13_128};
use crate::encoding::{decimal, enc_bool, enc_u128, push_bool, push_decimal, push_u128};
use crate::hashing::{HashComputation, HashInput, MathParamBits, ParagraphParamBits};
use crate::macros::{MacroStatistics, MacroTracker, usage_total};
use crate::registers::{GlueValue, RegisterStatistics, RegisterTracker, change_dependency};
use crate::string_map::{StringMap, string_views};
use crate::text::{push_chars, string_from_chars};

verus! {

/// TeX compilation modes.
#[derive(Clone, Copy, Debug, PartialEq, Eq, Structural)]
pub enum TeXMode {
    /// Horizontal mode (normal text)
    Horizontal,
    /// Vertical mode (page/column building)
    Vertical,
    /// Math mode (inline or display)
    Math { display: bool },
    /// Restricted horizontal mode (inside vbox)
    RestrictedHorizontal,
    /// Internal vertical mode (inside hbox)
    InternalVertical,
}

/// Language-specific settings.
#[derive(Clone, Debug)]
pub struct LanguageSettings {
    /// Language code (en, de, fr, etc.)
    pub language: String,
    /// Hyphenation enabled
    pub hyphenation: bool,
    /// Left-to-right text direction
    pub ltr: bool,
}

/// Error types for memoization operations.
#[derive(Debug)]
pub enum MemoizationError {
    InsufficientMemory { needed: usize, available: usize },
    InvalidConstraints { reason: String },
    DependencyError { message: String },
}

/// Memory usage statistics.
#[derive(Clone, Debug)]
pub struct MemoryStatistics {
    /// Current memory usage in bytes
    pub current_usage: usize,
    /// Peak memory usage in bytes
    pub peak_usage: usize,
    /// Number of allocations
    pub allocations: u64,
    /// Number of deallocations
    pub deallocations: u64,
}

impl Default for MemoryStatistics {
    /// All counters at zero.
    fn default() -> (r: Self)
        ensures
            r.current_usage == 0,
            r.peak_usage == 0,
            r.allocations == 0,
            r.deallocations == 0,
    {
        MemoryStatistics { current_usage: 0, peak_usage: 0, allocations: 0, deallocations: 0 }
    }
}

/// Types of cache matches that can occur during lookup.
#[derive(Clone, Copy, Debug, PartialEq, Eq, Structural)]
pub enum CacheMatchType {
    /// Exact match on content, constraints, and state
    Exact,
    /// Content and state match, constraints are compatible via subsumption
    Subsumption,
    /// Content and state match, constraints are compatible within tolerance
    Compatible,
    /// Different content but same dependencies
    DependencyBased,
}

/// The counters of a cache: lookups and their outcomes, stores, evictions,
/// and the time spent on misses.
#[derive(Clone, Copy, Debug)]
pub struct CacheCounters {
    pub total_entries: usize,
    pub current_size: usize,
    pub total_lookups: usize,
    pub exact_hits: usize,
    pub compatible_hits: usize,
    pub partial_hits: usize,
    pub misses: usize,
    pub memory_usage_bytes: usize,
    pub memory_limit_bytes: usize,
    pub evictions: usize,
    pub stores: usize,
    pub total_cache_time_us: u64,
}

impl Default for CacheCounters {
    /// All counters at zero.
    fn default() -> (r: Self)
        ensures
            r.is_zero(),
    {
        CacheCounters::new()
    }
}

impl CacheCounters {
    /// Whether every counter is zero.
    pub open spec fn is_zero(&self) -> bool {
        &&& self.total_entries == 0
        &&& self.current_size == 0
        &&& self.total_lookups == 0
        &&& self.exact_hits == 0
        &&& self.compatible_hits == 0
        &&& self.partial_hits == 0
        &&& self.misses == 0
        &&& self.memory_usage_bytes == 0
        &&& self.memory_limit_bytes == 0
        &&& self.evictions == 0
        &&& self.stores == 0
        &&& self.total_cache_time_us == 0
    }

    /// Whether a lookup can be counted without overflow.
    pub open spec fn can_count_lookup(&self) -> bool {
        &&& self.total_lookups < usize::MAX
        &&& self.exact_hits < usize::MAX
        &&& self.misses < usize::MAX
        &&& self.total_cache_time_us <= u64::MAX - 10
    }

    /// All counters at zero.
    pub fn new() -> (r: Self)
        ensures
            r.is_zero(),
    {
        CacheCounters {
            total_entries: 0,
            current_size: 0,
            total_lookups: 0,
            exact_hits: 0,
            compatible_hits: 0,
            partial_hits: 0,
            misses: 0,
            memory_usage_bytes: 0,
            memory_limit_bytes: 0,
            evictions: 0,
            stores: 0,
            total_cache_time_us: 0,
        }
    }

    /// Counts a lookup that hit.
    pub fn record_hit(&mut self)
        requires
            old(self).total_lookups < usize::MAX,
            old(self).exact_hits < usize::MAX,
        ensures
            *final(self) == (CacheCounters {
                total_lookups: (old(self).total_lookups + 1) as usize,
                exact_hits: (old(self).exact_hits + 1) as usize,
                ..*old(self)
            }),
    {
        self.total_lookups = self.total_lookups + 1;
        self.exact_hits = self.exact_hits + 1;
    }

    /// Counts a lookup that missed.
    pub fn record_miss(&mut self)
        requires
            old(self).total_lookups < usize::MAX,
            old(self).misses < usize::MAX,
        ensures
            *final(self) == (CacheCounters {
                total_lookups: (old(self).total_lookups + 1) as usize,
                misses: (old(self).misses + 1) as usize,
                ..*old(self)
            }),
    {
        self.total_lookups = self.total_lookups + 1;
        self.misses = self.misses + 1;
    }

    /// Counts an eviction; the entry count goes down by one, but not below
    /// zero.
    pub fn record_eviction(&mut self)
        requires
            old(self).evictions < usize::MAX,
        ensures
            *final(self) == (CacheCounters {
                evictions: (old(self).evictions + 1) as usize,
                total_entries: if old(self).total_entries > 0 {
                    (old(self).total_entries - 1) as usize
                } else {
                    0
                },
                ..*old(self)
            }),
    {
        self.evictions = self.evictions + 1;
        self.total_entries = self.total_entries.saturating_sub(1);
    }

    /// Counts a store.
    pub fn record_store(&mut self)
        requires
            old(self).stores < usize::MAX,
            old(self).total_entries < usize::MAX,
        ensures
            *final(self) == (CacheCounters {
                stores: (old(self).stores + 1) as usize,
                total_entries: (old(self).total_entries + 1) as usize,
                ..*old(self)
            }),
    {
        self.stores = self.stores + 1;
        self.total_entries = self.total_entries + 1;
    }
}

/// The keys of an index's buckets, concatenated in bucket order.
pub open spec fn indexed_keys(buckets: Seq<(Seq<char>, Seq<CacheKey>)>) -> Seq<CacheKey>
    decreases buckets.len(),
{
    if buckets.len() == 0 {
        Seq::empty()
    } else {
        indexed_keys(buckets.drop_last()) + buckets.last().1
    }
}

/// The keys among `keys` with the given content and state hashes, in order.
pub open spec fn keys_matching(keys: Seq<CacheKey>, content_hash: u128, state_hash: u128) -> Seq<
    CacheKey,
>
    decreases keys.len(),
{
    if keys.len() == 0 {
        Seq::empty()
    } else {
        let rest = keys_matching(keys.drop_last(), content_hash, state_hash);
        if keys.last().content_hash == content_hash && keys.last().state_hash == state_hash {
            rest.push(keys.last())
        } else {
            rest
        }
    }
}

/// `keys_matching` distributes over concatenation.
pub proof fn lemma_keys_matching_concat(a: Seq<CacheKey>, b: Seq<CacheKey>, c: u128, s: u128)
    ensures
        keys_matching(a + b, c, s) == keys_matching(a, c, s) + keys_matching(b, c, s),
    decreases b.len(),
{
    if b.len() == 0 {
        assert(a + b =~= a);
        assert(keys_matching(a, c, s) + keys_matching(b, c, s) =~= keys_matching(a, c, s));
    } else {
        lemma_keys_matching_concat(a, b.drop_last(), c, s);
        assert((a + b).drop_last() =~= a + b.drop_last());
        assert((a + b).last() == b.last());
        assert(keys_matching(a, c, s) + keys_matching(b, c, s) =~= if b.last().content_hash == c
            && b.last().state_hash == s {
            (keys_matching(a, c, s) + keys_matching(b.drop_last(), c, s)).push(b.last())
        } else {
            keys_matching(a, c, s) + keys_matching(b.drop_last(), c, s)
        });
    }
}

/// `keys` without any copy of `key`.
pub open spec fn without_key(keys: Seq<CacheKey>, key: CacheKey) -> Seq<CacheKey>
    decreases keys.len(),
{
    if keys.len() == 0 {
        Seq::empty()
    } else {
        let rest = without_key(keys.drop_last(), key);
        if keys.last() == key {
            rest
        } else {
            rest.push(keys.last())
        }
    }
}

/// Index of cache keys by the spatial key of their constraints.
pub struct SpatialIndex {
    constraint_map: StringMap<Vec<CacheKey>>,
}

impl SpatialIndex {
    /// The buckets in spatial-key order, each with its keys in insertion
    /// order.
    pub closed spec fn buckets(&self) -> Seq<(Seq<char>, Seq<CacheKey>)> {
        self.constraint_map.entry_seq()
    }

    /// The index as a map from spatial key to its keys.
    pub closed spec fn contents(&self) -> Map<Seq<char>, Seq<CacheKey>> {
        self.constraint_map.contents()
    }

    /// The index's invariant: buckets sorted by spatial key.
    pub closed spec fn wf(&self) -> bool {
        self.constraint_map.wf()
    }

    /// The contents of the index with the given buckets after filing `key`
    /// under `spatial_key`.
    pub open spec fn filed(
        buckets: Seq<(Seq<char>, Seq<CacheKey>)>,
        spatial_key: Seq<char>,
        key: CacheKey,
    ) -> Map<Seq<char>, Seq<CacheKey>> {
        let m = crate::string_map::entries_map(buckets);
        m.insert(
            spatial_key,
            if m.contains_key(spatial_key) {
                m[spatial_key].push(key)
            } else {
                seq![key]
            },
        )
    }

    /// An empty index.
    pub fn new() -> (r: Self)
        ensures
            r.wf(),
            r.buckets() == Seq::<(Seq<char>, Seq<CacheKey>)>::empty(),
            r.contents() == Map::<Seq<char>, Seq<CacheKey>>::empty(),
    {
        let r = SpatialIndex { constraint_map: StringMap::new() };
        proof {
            assert(r.contents() =~= Map::<Seq<char>, Seq<CacheKey>>::empty());
        }
        r
    }

    /// Files `key` under `spatial_key`, after the keys already there.
    pub fn insert(&mut self, key: CacheKey, spatial_key: String)
        requires
            old(self).wf(),
        ensures
            final(self).wf(),
            final(self).contents() == old(self).contents().insert(
                spatial_key@,
                if old(self).contents().contains_key(spatial_key@) {
                    old(self).contents()[spatial_key@].push(key)
                } else {
                    seq![key]
                },
            ),
    {
        let mut bucket: Vec<CacheKey> = Vec::new();
        match self.constraint_map.get(spatial_key.as_str()) {
            Some(existing) => {
                let n = existing.len();
                let mut i: usize = 0;
                while i < n
                    invariant
                        n == existing@.len(),
                        i <= n,
                        bucket@ == existing@.take(i as int),
                    decreases n - i,
                {
                    bucket.push(existing[i]);
                    i = i + 1;
                    assert(bucket@ =~= existing@.take(i as int));
                }
                assert(existing@.take(n as int) =~= existing@);
                assert(existing.deep_view() =~= existing@);
            },
            None => {},
        }
        bucket.push(key);
        proof {
            assert(bucket.deep_view() =~= bucket@);
            if old(self).contents().contains_key(spatial_key@) {
                assert(bucket@ =~= old(self).contents()[spatial_key@].push(key));
            } else {
                assert(bucket@ =~= seq![key]);
            }
        }
        self.constraint_map.insert(spatial_key, bucket);
    }

    /// The keys filed under `spatial_key`, in insertion order.
    pub fn find_compatible(&self, spatial_key: &str) -> (r: Vec<&CacheKey>)
        requires
            self.wf(),
        ensures
            r@.map_values(|k: &CacheKey| *k) == if self.contents().contains_key(spatial_key@) {
                self.contents()[spatial_key@]
            } else {
                Seq::<CacheKey>::empty()
            },
    {
        let mut r: Vec<&CacheKey> = Vec::new();
        match self.constraint_map.get(spatial_key) {
            Some(existing) => {
                let n = existing.len();
                let mut i: usize = 0;
                while i < n
                    invariant
                        n == existing@.len(),
                        i <= n,
                        r@.map_values(|k: &CacheKey| *k) == existing@.take(i as int),
                    decreases n - i,
                {
                    let ghost prev = r@;
                    let kr = &existing[i];
                    r.push(kr);
                    proof {
                        assert(*kr == existing@[i as int]);
                        assert(r@ == prev.push(kr));
                        assert(prev.map_values(|k: &CacheKey| *k) == existing@.take(i as int));
                        assert(prev.map_values(|k: &CacheKey| *k).len() == prev.len());
                        assert(prev.len() == i);
                        assert(r@.len() == i + 1);
                        assert forall|j: int| 0 <= j < i + 1 implies *#[trigger] r@[j]
                            == existing@.take(i + 1)[j] by {
                            if j < i {
                                assert(r@[j] == prev[j]);
                                assert(prev.map_values(|k: &CacheKey| *k)[j] == existing@.take(
                                    i as int,
                                )[j]);
                            }
                        }
                    }
                    i = i + 1;
                    assert(r@.map_values(|k: &CacheKey| *k) =~= existing@.take(i as int));
                }
                assert(existing@.take(n as int) =~= existing@);
                assert(existing.deep_view() =~= existing@);
            },
            None => {
                assert(r@.map_values(|k: &CacheKey| *k) =~= Seq::<CacheKey>::empty());
            },
        }
        r
    }

    /// Drops every filing of `key`, leaving the buckets in place.
    pub fn remove_key(&mut self, key: &CacheKey)
        requires
            old(self).wf(),
        ensures
            final(self).wf(),
            final(self).buckets().len() == old(self).buckets().len(),
            forall|i: int|
                0 <= i < old(self).buckets().len() ==> #[trigger] final(self).buckets()[i] == (
                old(self).buckets()[i].0,
                without_key(old(self).buckets()[i].1, *key),
            ),
    {
        let nb = self.constraint_map.len();
        let ghost before = self.buckets();
        let mut b: usize = 0;
        while b < nb
            invariant
                nb == before.len(),
                b <= nb,
                self.wf(),
                self.buckets().len() == nb,
                forall|i: int| 0 <= i < b ==> #[trigger] self.buckets()[i] == (before[i].0, without_key(before[i].1, *key)),
                forall|i: int| b <= i < nb ==> #[trigger] self.buckets()[i] == before[i],
            decreases nb - b,
        {
            let bucket = self.constraint_map.value_at(b);
            let mut kept: Vec<CacheKey> = Vec::new();
            let n = bucket.len();
            let mut i: usize = 0;
            while i < n
                invariant
                    n == bucket@.len(),
                    i <= n,
                    kept@ == without_key(bucket@.take(i as int), *key),
                decreases n - i,
            {
                let k = bucket[i];
                if k.content_hash != key.content_hash || k.constraint_hash != key.constraint_hash
                    || k.state_hash != key.state_hash {
                    kept.push(k);
                }
                proof {
                    assert(bucket@.take(i + 1).drop_last() =~= bucket@.take(i as int));
                }
                i = i + 1;
            }
            proof {
                assert(bucket@.take(n as int) =~= bucket@);
                assert(bucket.deep_view() =~= bucket@);
                assert(kept.deep_view() =~= kept@);
            }
            self.constraint_map.replace_value_at(b, kept);
            b = b + 1;
        }
    }

    /// Every indexed key with the given content and state hashes, bucket by
    /// bucket in spatial-key order.
    pub fn content_matches(&self, content_hash: u128, state_hash: u128) -> (r: Vec<CacheKey>)
        ensures
            r@ == keys_matching(indexed_keys(self.buckets()), content_hash, state_hash),
    {
        let mut r: Vec<CacheKey> = Vec::new();
        let nb = self.constraint_map.len();
        let mut b: usize = 0;
        while b < nb
            invariant
                nb == self.buckets().len(),
                b <= nb,
                r@ == keys_matching(
                    indexed_keys(self.buckets().take(b as int)),
                    content_hash,
                    state_hash,
                ),
            decreases nb - b,
        {
            let bucket = self.constraint_map.value_at(b);
            let ghost before = r@;
            let n = bucket.len();
            let mut i: usize = 0;
            while i < n
                invariant
                    n == bucket@.len(),
                    i <= n,
                    r@ == before + keys_matching(bucket@.take(i as int), content_hash, state_hash),
                decreases n - i,
            {
                let k = bucket[i];
                if k.content_hash == content_hash && k.state_hash == state_hash {
                    r.push(k);
                }
                proof {
                    assert(bucket@.take(i + 1).drop_last() =~= bucket@.take(i as int));
                }
                i = i + 1;
            }
            proof {
                assert(bucket@.take(n as int) =~= bucket@);
                assert(bucket.deep_view() =~= bucket@);
                let prefix = self.buckets().take(b as int);
                let next = self.buckets().take(b + 1);
                assert(next.drop_last() =~= prefix);
                assert(next.last().1 == bucket@);
                lemma_keys_matching_concat(indexed_keys(prefix), bucket@, content_hash, state_hash);
            }
            b = b + 1;
        }
        proof {
            assert(self.buckets().take(nb as int) =~= self.buckets());
        }
        r
    }
}

/// What the cache keeps for a memoized computation, apart from the
/// spatial constraints it was computed under.
pub struct MemoEntry {
    /// Hash of the computation's result
    pub result_hash: u128,
    /// Dependencies read during the computation
    pub dependencies: Vec<DependencyKey>,
    /// Source position the entry was generated at
    pub source_position: usize,
    /// Compilation context (paragraph, math, etc.)
    pub context_type: String,
    /// Size of the original result, for memory tracking
    pub result_size_bytes: usize,
    /// Time the computation took (microseconds)
    pub computation_time_us: u64,
    /// Memory the computation allocated
    pub memory_used_bytes: usize,
    /// Number of TeX operations performed
    pub tex_operations: u32,
    /// When the entry was created
    pub timestamp: u64,
    /// Number of lookups that returned the entry
    pub access_count: u64,
    /// When the entry was last returned
    pub last_access: u64,
}

/// The abstract value of a `MemoEntry`.
pub struct MemoEntryView {
    pub result_hash: u128,
    pub dependencies: Seq<DependencyKeyView>,
    pub source_position: usize,
    pub context_type: Seq<char>,
    pub result_size_bytes: usize,
    pub computation_time_us: u64,
    pub memory_used_bytes: usize,
    pub tex_operations: u32,
    pub timestamp: u64,
    pub access_count: u64,
    pub last_access: u64,
}

/// The views of a sequence of dependency keys.
pub open spec fn dependency_views(s: Seq<DependencyKey>) -> Seq<DependencyKeyView> {
    s.map_values(|d: DependencyKey| d@)
}

impl View for MemoEntry {
    type V = MemoEntryView;

    open spec fn view(&self) -> MemoEntryView {
        MemoEntryView {
            result_hash: self.result_hash,
            dependencies: dependency_views(self.dependencies@),
            source_position: self.source_position,
            context_type: self.context_type@,
            result_size_bytes: self.result_size_bytes,
            computation_time_us: self.computation_time_us,
            memory_used_bytes: self.memory_used_bytes,
            tex_operations: self.tex_operations,
            timestamp: self.timestamp,
            access_count: self.access_count,
            last_access: self.last_access,
        }
    }
}

/// A copy of a list of dependency keys.
pub fn copy_dependencies(deps: &Vec<DependencyKey>) -> (r: Vec<DependencyKey>)
    ensures
        dependency_views(r@) == dependency_views(deps@),
{
    let mut r: Vec<DependencyKey> = Vec::new();
    let n = deps.len();
    let mut i: usize = 0;
    while i < n
        invariant
            n == deps@.len(),
            i <= n,
            r@.len() == i,
            dependency_views(r@) == dependency_views(deps@.take(i as int)),
        decreases n - i,
    {
        let ghost prev = r@;
        let d = deps[i].duplicate();
        r.push(d);
        proof {
            assert(r@ == prev.push(d));
            assert forall|j: int| 0 <= j < i + 1 implies #[trigger] dependency_views(r@)[j]
                == dependency_views(deps@.take(i + 1))[j] by {
                if j < i {
                    assert(r@[j] == prev[j]);
                    assert(dependency_views(prev)[j] == dependency_views(deps@.take(i as int))[j]);
                }
            }
        }
        i = i + 1;
        assert(dependency_views(r@) =~= dependency_views(deps@.take(i as int)));
    }
    assert(deps@.take(n as int) =~= deps@);
    r
}

impl MemoEntry {
    /// A copy with the same view.
    pub fn duplicate(&self) -> (r: MemoEntry)
        ensures
            r@ == self@,
    {
        MemoEntry {
            result_hash: self.result_hash,
            dependencies: copy_dependencies(&self.dependencies),
            source_position: self.source_position,
            context_type: self.context_type.clone(),
            result_size_bytes: self.result_size_bytes,
            computation_time_us: self.computation_time_us,
            memory_used_bytes: self.memory_used_bytes,
            tex_operations: self.tex_operations,
            timestamp: self.timestamp,
            access_count: self.access_count,
            last_access: self.last_access,
        }
    }
}

/// A cache lookup that found an entry: how it matched, and the entry as it
/// was found.
pub struct MemoLookup {
    /// The key the entry was found under
    pub key: CacheKey,
    /// Type of cache match that was found
    pub match_type: CacheMatchType,
    /// The entry, before this lookup was counted on it
    pub entry: MemoEntry,
}

/// Total result size of the entries of a cache.
pub open spec fn entry_sizes(s: Seq<(CacheKey, MemoEntry)>) -> nat
    decreases s.len(),
{
    if s.len() == 0 {
        0
    } else {
        entry_sizes(s.drop_last()) + s.last().1.result_size_bytes as nat
    }
}

/// Sizes under appending, replacing and removing an entry.
pub proof fn lemma_entry_sizes(s: Seq<(CacheKey, MemoEntry)>, i: int, e: (CacheKey, MemoEntry))
    ensures
        entry_sizes(s.push(e)) == entry_sizes(s) + e.1.result_size_bytes,
        0 <= i < s.len() ==> entry_sizes(s.update(i, e)) == entry_sizes(s) - s[i].1.result_size_bytes
            + e.1.result_size_bytes,
        0 <= i < s.len() ==> entry_sizes(s.remove(i)) == entry_sizes(s) - s[i].1.result_size_bytes,
        0 <= i < s.len() ==> s[i].1.result_size_bytes <= entry_sizes(s),
    decreases s.len(),
{
    assert(s.push(e).drop_last() =~= s);
    if 0 <= i < s.len() {
        if i == s.len() - 1 {
            assert(s.update(i, e).drop_last() =~= s.drop_last());
            assert(s.remove(i) =~= s.drop_last());
        } else {
            let t = s.drop_last();
            lemma_entry_sizes(t, i, e);
            assert(s.update(i, e).drop_last() =~= t.update(i, e));
            assert(s.remove(i).drop_last() =~= t.remove(i));
            assert(s.remove(i).last() == s.last());
            assert(t[i] == s[i]);
        }
    }
}

/// The keys whose entries a list of changed dependencies invalidates, in
/// the order the dependencies are listed and, for each, the order recorded.
pub open spec fn invalidated_keys(
    graph: Seq<(CacheKey, DependencyKeyView)>,
    changed: Seq<DependencyKeyView>,
) -> Seq<CacheKey>
    decreases changed.len(),
{
    if changed.len() == 0 {
        Seq::empty()
    } else {
        invalidated_keys(graph, changed.drop_last()) + dependents_of(graph, changed.last())
    }
}

/// The bytes of the comprehensive state hash: the macro state hash, then
/// the register snapshot hash.
pub open spec fn comprehensive_state_bytes(macro_hash: u128, register_hash: u128) -> Seq<u8> {
    enc_u128(macro_hash) + enc_u128(register_hash)
}

/// The entry a lookup returns, with the kind of match: the exact key if it
/// is cached, else the first cached candidate, else none.
pub open spec fn memo_hit(
    cached: Map<CacheKey, MemoEntry>,
    key: CacheKey,
    cands: Seq<(CacheKey, CacheMatchType)>,
) -> Option<(CacheKey, CacheMatchType)> {
    if cached.contains_key(key) {
        Some((key, CacheMatchType::Exact))
    } else if first_cached(cached, cands) >= 0 {
        Some(cands[first_cached(cached, cands)])
    } else {
        None
    }
}

/// Index of the first candidate whose key is cached, or -1.
pub open spec fn first_cached(cached: Map<CacheKey, MemoEntry>, cands: Seq<(CacheKey, CacheMatchType)>) -> int
    decreases cands.len(),
{
    if cands.len() == 0 {
        -1
    } else {
        let j = first_cached(cached, cands.drop_last());
        if j >= 0 {
            j
        } else if cached.contains_key(cands.last().0) {
            cands.len() - 1
        } else {
            -1
        }
    }
}

/// The first cached candidate is a candidate, and is cached.
pub proof fn lemma_first_cached_is_cached(
    cached: Map<CacheKey, MemoEntry>,
    cands: Seq<(CacheKey, CacheMatchType)>,
)
    ensures
        -1 <= first_cached(cached, cands) < cands.len(),
        first_cached(cached, cands) >= 0 ==> cached.contains_key(cands[first_cached(cached, cands)].0),
    decreases cands.len(),
{
    if cands.len() > 0 {
        let t = cands.drop_last();
        lemma_first_cached_is_cached(cached, t);
        if first_cached(cached, t) >= 0 {
            assert(t[first_cached(cached, t)] == cands[first_cached(cached, t)]);
        }
    }
}

/// A cached candidate with none cached before it is the first cached one.
pub proof fn lemma_first_cached(cached: Map<CacheKey, MemoEntry>, cands: Seq<(CacheKey, CacheMatchType)>, i: int)
    requires
        0 <= i < cands.len(),
        cached.contains_key(cands[i].0),
        forall|t: int| 0 <= t < i ==> !cached.contains_key(#[trigger] cands[t].0),
    ensures
        first_cached(cached, cands) == i,
    decreases cands.len(),
{
    if i < cands.len() - 1 {
        let t = cands.drop_last();
        assert forall|u: int| 0 <= u < i implies !cached.contains_key(#[trigger] t[u].0) by {
            assert(t[u] == cands[u]);
        }
        assert(t[i] == cands[i]);
        lemma_first_cached(cached, t, i);
    } else {
        lemma_first_cached_none(cached, cands.drop_last());
    }
}

/// With no candidate cached, there is no first cached one.
pub proof fn lemma_first_cached_none(cached: Map<CacheKey, MemoEntry>, cands: Seq<(CacheKey, CacheMatchType)>)
    requires
        forall|t: int| 0 <= t < cands.len() ==> !cached.contains_key(#[trigger] cands[t].0),
    ensures
        first_cached(cached, cands) == -1,
    decreases cands.len(),
{
    if cands.len() > 0 {
        let t = cands.drop_last();
        assert forall|u: int| 0 <= u < t.len() implies !cached.contains_key(#[trigger] t[u].0) by {
            assert(t[u] == cands[u]);
        }
        lemma_first_cached_none(cached, t);
        assert(!cached.contains_key(cands[cands.len() - 1].0));
    }
}

/// The keys invalidated by a prefix of the changes, one change longer.
pub proof fn lemma_invalidated_keys_prefix(
    graph: Seq<(CacheKey, DependencyKeyView)>,
    changed: Seq<DependencyKeyView>,
    d: int,
)
    requires
        0 <= d < changed.len(),
    ensures
        invalidated_keys(graph, changed.take(d + 1)) == invalidated_keys(graph, changed.take(d))
            + dependents_of(graph, changed[d]),
        invalidated_keys(graph, changed.take(d + 1)).len() <= invalidated_keys(graph, changed).len(),
    decreases changed.len(),
{
    assert(changed.take(d + 1).drop_last() =~= changed.take(d));
    if d + 1 < changed.len() {
        lemma_invalidated_keys_prefix(graph, changed.drop_last(), d);
        assert(changed.drop_last().take(d + 1) =~= changed.take(d + 1));
        assert(changed.drop_last().take(d) =~= changed.take(d));
    } else {
        assert(changed.take(d + 1) =~= changed);
    }
}

/// The edges left after dropping, for each of `deps` in turn, every edge
/// from `key` to it.
pub open spec fn without_edges(
    graph: Seq<(CacheKey, DependencyKeyView)>,
    key: CacheKey,
    deps: Seq<DependencyKeyView>,
) -> Seq<(CacheKey, DependencyKeyView)>
    decreases deps.len(),
{
    if deps.len() == 0 {
        graph
    } else {
        without_edge(without_edges(graph, key, deps.drop_last()), key, deps.last())
    }
}

/// The buckets after dropping every filing of `key`.
pub open spec fn buckets_without(buckets: Seq<(Seq<char>, Seq<CacheKey>)>, key: CacheKey) -> Seq<
    (Seq<char>, Seq<CacheKey>),
> {
    Seq::new(buckets.len(), |i: int| (buckets[i].0, without_key(buckets[i].1, key)))
}

/// Whether `evicted`, in eviction order, is a least-recently-used eviction
/// from the cache `before` that leaves `after` and makes room for
/// `required` bytes: the evicted entries were cached, the rest stay, none
/// evicted was used later than any that stays, and eviction went on just
/// until the evicted sizes reached `required` or nothing was left.
pub open spec fn lru_eviction(
    before: Map<CacheKey, MemoEntry>,
    after: Map<CacheKey, MemoEntry>,
    evicted: Seq<(CacheKey, MemoEntry)>,
    required: nat,
) -> bool {
    &&& forall|i: int| 0 <= i < evicted.len() ==> #[trigger] before.contains_key(evicted[i].0)
        && before[evicted[i].0] == evicted[i].1
    &&& forall|i: int, j: int| 0 <= i < j < evicted.len() ==> #[trigger] evicted[i].0 != #[trigger] evicted[j].0
    &&& after == before.remove_keys(evicted.map_values(|e: (CacheKey, MemoEntry)| e.0).to_set())
    &&& forall|i: int, k: CacheKey|
        0 <= i < evicted.len() && #[trigger] after.contains_key(k) ==> #[trigger] evicted[i].1.last_access
            <= after[k].last_access
    &&& entry_sizes(evicted) >= required || after.len() == 0
    &&& evicted.len() > 0 ==> entry_sizes(evicted.drop_last()) < required
}

/// The dependency edges left after removing the evicted entries in turn.
pub open spec fn graph_without_entries(
    graph: Seq<(CacheKey, DependencyKeyView)>,
    evicted: Seq<(CacheKey, MemoEntry)>,
) -> Seq<(CacheKey, DependencyKeyView)>
    decreases evicted.len(),
{
    if evicted.len() == 0 {
        graph
    } else {
        without_edges(
            graph_without_entries(graph, evicted.drop_last()),
            evicted.last().0,
            dependency_views(evicted.last().1.dependencies@),
        )
    }
}

/// The index buckets left after dropping the evicted keys in turn.
pub open spec fn buckets_without_entries(
    buckets: Seq<(Seq<char>, Seq<CacheKey>)>,
    evicted: Seq<(CacheKey, MemoEntry)>,
) -> Seq<(Seq<char>, Seq<CacheKey>)>
    decreases evicted.len(),
{
    if evicted.len() == 0 {
        buckets
    } else {
        buckets_without(buckets_without_entries(buckets, evicted.drop_last()), evicted.last().0)
    }
}

/// The keys of a sequence of entries, as a set.
pub open spec fn entry_keys(evicted: Seq<(CacheKey, MemoEntry)>) -> Set<CacheKey> {
    evicted.map_values(|e: (CacheKey, MemoEntry)| e.0).to_set()
}

/// The entries evicted so far were cached with those values, carry
/// distinct keys, are what `before` lost to become `after`, and none was
/// used later than any entry that stays.
#[verifier::opaque]
spec fn evicted_so_far(
    before: Map<CacheKey, MemoEntry>,
    after: Map<CacheKey, MemoEntry>,
    evicted: Seq<(CacheKey, MemoEntry)>,
) -> bool {
    &&& forall|i: int| 0 <= i < evicted.len() ==> #[trigger] before.contains_key(evicted[i].0)
        && before[evicted[i].0] == evicted[i].1
    &&& forall|i: int, j: int| 0 <= i < j < evicted.len() ==> #[trigger] evicted[i].0 != #[trigger] evicted[j].0
    &&& after == before.remove_keys(entry_keys(evicted))
    &&& forall|i: int, k: CacheKey|
        0 <= i < evicted.len() && #[trigger] after.contains_key(k) ==> #[trigger] evicted[i].1.last_access
            <= after[k].last_access
}

/// Nothing evicted yet: the cache is as it was.
proof fn lemma_evicted_none(before: Map<CacheKey, MemoEntry>)
    ensures
        evicted_so_far(before, before, Seq::empty()),
{
    reveal(evicted_so_far);
    let e: Seq<(CacheKey, MemoEntry)> = Seq::empty();
    assert(entry_keys(e) =~= Set::empty());
    assert(before.remove_keys(entry_keys(e)) =~= before);
}

/// Evicting a cached entry that no cached entry predates extends an
/// eviction by that entry.
proof fn lemma_evict_step(
    before: Map<CacheKey, MemoEntry>,
    cur: Map<CacheKey, MemoEntry>,
    evicted: Seq<(CacheKey, MemoEntry)>,
    key: CacheKey,
    entry: MemoEntry,
)
    requires
        evicted_so_far(before, cur, evicted),
        cur.contains_key(key),
        cur[key] == entry,
        forall|k: CacheKey| #[trigger] cur.contains_key(k) ==> entry.last_access <= cur[k].last_access,
    ensures
        evicted_so_far(before, cur.remove(key), evicted.push((key, entry))),
{
    reveal(evicted_so_far);
    let next = evicted.push((key, entry));
    let ks0 = evicted.map_values(|e: (CacheKey, MemoEntry)| e.0);
    let ks1 = next.map_values(|e: (CacheKey, MemoEntry)| e.0);
    assert forall|t: int| 0 <= t < evicted.len() implies #[trigger] evicted[t].0 != key by {
        assert(ks0[t] == evicted[t].0);
        assert(ks0.to_set().contains(evicted[t].0));
    }
    assert(ks1 =~= ks0.push(key));
    assert forall|x: CacheKey| #[trigger] ks1.contains(x) == (ks0.contains(x) || x == key) by {
        if ks1.contains(x) {
            let t = choose|t: int| 0 <= t < ks1.len() && ks1[t] == x;
            if t < ks0.len() {
                assert(ks0[t] == x);
            }
        }
        if ks0.contains(x) {
            let t = choose|t: int| 0 <= t < ks0.len() && ks0[t] == x;
            assert(ks1[t] == x);
        }
        if x == key {
            assert(ks1[ks0.len() as int] == x);
        }
    }
    assert(ks1.to_set() =~= ks0.to_set().insert(key));
    assert(cur.remove(key) =~= before.remove_keys(entry_keys(next)));
    assert forall|i: int| 0 <= i < next.len() implies #[trigger] before.contains_key(next[i].0)
        && before[next[i].0] == next[i].1 by {
        if i == evicted.len() {
            assert(next[i] == (key, entry));
        } else {
            assert(next[i] == evicted[i]);
        }
    }
    assert forall|i: int, j: int| 0 <= i < j < next.len() implies #[trigger] next[i].0 != #[trigger] next[j].0 by {
        assert(next[i] == evicted[i]);
        if j < evicted.len() {
            assert(next[j] == evicted[j]);
        }
    }
    assert forall|i: int, k: CacheKey|
        0 <= i < next.len() && #[trigger] cur.remove(key).contains_key(k) implies #[trigger] next[i].1.last_access
            <= cur.remove(key)[k].last_access by {
        if i < evicted.len() {
            assert(next[i] == evicted[i]);
        }
    }
}

/// An eviction that stopped once the evicted sizes reached `required`, or
/// the cache was empty, and not before, is a least-recently-used eviction.
proof fn lemma_evicted_done(
    before: Map<CacheKey, MemoEntry>,
    after: Map<CacheKey, MemoEntry>,
    evicted: Seq<(CacheKey, MemoEntry)>,
    required: nat,
)
    requires
        evicted_so_far(before, after, evicted),
        entry_sizes(evicted) >= required || after.len() == 0,
        evicted.len() > 0 ==> entry_sizes(evicted.drop_last()) < required,
    ensures
        lru_eviction(before, after, evicted, required),
{
    reveal(evicted_so_far);
}

/// The message of a failed eviction.
pub open spec fn space_message(required: nat, freed: nat) -> Seq<char> {
    "Unable to free enough space. Required: "@ + decimal(required) + ", Freed: "@ + decimal(freed)
}

/// The memoization system: the cache of computation results, the spatial
/// index and dependency graph over its keys, the macro and register
/// trackers, the counters, and the memory accounting.
pub struct MemoizationSystem {
    cache: MemoizationCache<CacheKey, MemoEntry>,
    spatial_index: SpatialIndex,
    dependency_graph: DependencyGraph,
    macro_tracker: MacroTracker,
    register_tracker: RegisterTracker,
    stats: CacheCounters,
    current_memory_usage: usize,
    memory_limit: usize,
}

impl MemoizationSystem {
    /// The cached entries, in storage order.
    pub closed spec fn entries(&self) -> Seq<(CacheKey, MemoEntry)> {
        self.cache.entry_seq()
    }

    /// The cache as a map.
    pub closed spec fn cached(&self) -> Map<CacheKey, MemoEntry> {
        self.cache.contents()
    }

    /// The spatial index.
    pub closed spec fn index(&self) -> SpatialIndex {
        self.spatial_index
    }

    /// The dependency graph's recorded edges.
    pub closed spec fn graph(&self) -> Seq<(CacheKey, DependencyKeyView)> {
        self.dependency_graph@
    }

    /// The macro tracker.
    pub closed spec fn macros(&self) -> MacroTracker {
        self.macro_tracker
    }

    /// The register tracker.
    pub closed spec fn registers(&self) -> RegisterTracker {
        self.register_tracker
    }

    /// The cache counters.
    pub closed spec fn counters(&self) -> CacheCounters {
        self.stats
    }

    /// Bytes the stored entries are accounted for.
    pub closed spec fn memory_usage(&self) -> nat {
        self.current_memory_usage as nat
    }

    /// Memory limit in bytes.
    pub closed spec fn memory_limit(&self) -> nat {
        self.memory_limit as nat
    }

    /// The cache's entry limit.
    pub closed spec fn cache_max_entries(&self) -> nat {
        self.cache.spec_max_entries() as nat
    }

    /// The cache's memory limit in bytes.
    pub closed spec fn cache_memory_limit(&self) -> nat {
        self.cache.spec_memory_limit() as nat
    }

    /// Whether an insertion into a cache of this system's limits holding
    /// `len` entries first empties it: it is full (by entries, or its
    /// memory limit is zero) and holds more than three-quarters of its
    /// entry limit.
    pub open spec fn cache_evicts_at(&self, len: int) -> bool {
        (len >= self.cache_max_entries() || self.cache_memory_limit() == 0) && len
            > self.cache_max_entries() * 3 / 4
    }

    /// The system's invariant: its parts are well formed, and the memory
    /// accounted for covers the result sizes of the entries held.
    pub closed spec fn wf(&self) -> bool {
        &&& self.cache.wf()
        &&& self.macro_tracker.wf()
        &&& self.spatial_index.wf()
        &&& self.current_memory_usage >= entry_sizes(self.cache.entry_seq())
    }

    /// Everything but the macro tracker is as in `other`.
    pub closed spec fn same_but_macros(&self, other: &Self) -> bool {
        &&& self.cache == other.cache
        &&& self.spatial_index == other.spatial_index
        &&& self.dependency_graph == other.dependency_graph
        &&& self.register_tracker == other.register_tracker
        &&& self.stats == other.stats
        &&& self.current_memory_usage == other.current_memory_usage
        &&& self.memory_limit == other.memory_limit
    }

    /// Everything but the register tracker is as in `other`.
    pub closed spec fn same_but_registers(&self, other: &Self) -> bool {
        &&& self.cache == other.cache
        &&& self.spatial_index == other.spatial_index
        &&& self.dependency_graph == other.dependency_graph
        &&& self.macro_tracker == other.macro_tracker
        &&& self.stats == other.stats
        &&& self.current_memory_usage == other.current_memory_usage
        &&& self.memory_limit == other.memory_limit
    }

    /// A system with an empty cache holding up to `max_cache_entries`
    /// entries within `memory_limit_mb` megabytes, empty trackers and index,
    /// and zeroed counters.
    pub fn new(max_cache_entries: usize, memory_limit_mb: usize) -> (r: Self)
        requires
            max_cache_entries <= usize::MAX / 3,
            memory_limit_mb * 1048576 <= usize::MAX,
        ensures
            r.wf(),
            r.entries().len() == 0,
            r.cached() == Map::<CacheKey, MemoEntry>::empty(),
            r.index().buckets().len() == 0,
            r.graph().len() == 0,
            r.macros().macro_definitions.entry_seq().len() == 0,
            r.macros().expansion_stack@.len() == 0,
            r.macros().macro_state_hash == 0,
            !r.macros().dirty,
            r.registers().count_registers.entry_seq().len() == 0,
            r.registers().dimen_registers.entry_seq().len() == 0,
            r.registers().skip_registers.entry_seq().len() == 0,
            r.registers().glue_registers.entry_seq().len() == 0,
            r.registers().dirty_registers@.len() == 0,
            r.registers().change_sequence == 0,
            r.registers().can_write(),
            r.counters().is_zero(),
            r.memory_usage() == 0,
            r.memory_limit() == memory_limit_mb * 1048576,
    {
        let memory_limit = memory_limit_mb * 1024 * 1024;
        MemoizationSystem {
            cache: MemoizationCache::new(max_cache_entries, memory_limit_mb),
            spatial_index: SpatialIndex::new(),
            dependency_graph: DependencyGraph::new(),
            macro_tracker: MacroTracker::new(),
            register_tracker: RegisterTracker::new(),
            stats: CacheCounters::new(),
            current_memory_usage: 0,
            memory_limit,
        }
    }

    /// Records a macro definition, as `MacroTracker::define_macro` does.
    pub fn define_macro(&mut self, name: String, definition: String, param_count: u8, now_us: u64)
        requires
            old(self).wf(),
        ensures
            final(self).wf(),
            MacroTracker::defines(old(self).macros(), final(self).macros(), name@, definition@, param_count, now_us),
            final(self).same_but_macros(old(self)),
    {
        self.macro_tracker.define_macro(name, definition, param_count, now_us);
    }

    /// Begins tracking a macro expansion, as
    /// `MacroTracker::begin_expansion` does.
    pub fn begin_macro_expansion(
        &mut self,
        macro_name: String,
        arguments: Vec<String>,
        source_position: usize,
        now_us: u64,
    ) -> (r: Option<usize>)
        requires
            old(self).wf(),
            old(self).macros().can_expand(),
        ensures
            final(self).wf(),
            MacroTracker::begins_expansion(
                old(self).macros(),
                final(self).macros(),
                macro_name@,
                string_views(arguments@),
                source_position,
                now_us,
                r,
            ),
            final(self).same_but_macros(old(self)),
    {
        self.macro_tracker.begin_expansion(macro_name, arguments, source_position, now_us)
    }

    /// Completes a macro expansion, as `MacroTracker::end_expansion` does.
    pub fn end_macro_expansion(&mut self, expansion_id: usize, expanded_content: &str) -> (r: Option<u128>)
        requires
            old(self).wf(),
        ensures
            final(self).wf(),
            MacroTracker::ends_expansion(
                old(self).macros(),
                final(self).macros(),
                expansion_id,
                expanded_content@,
                r,
            ),
            final(self).same_but_macros(old(self)),
    {
        self.macro_tracker.end_expansion(expansion_id, expanded_content)
    }

    /// Whether a macro definition changed since the macro tracker was last
    /// marked clean.
    pub fn has_dependency_changes(&self) -> (b: bool)
        ensures
            b == self.macros().dirty,
    {
        self.macro_tracker.has_changes()
    }

    /// The cache counters and the macro usage statistics.
    pub fn get_statistics(&self) -> (r: (CacheCounters, MacroStatistics))
        requires
            self.wf(),
            usage_total(self.macros().macro_definitions.entry_seq()) <= u64::MAX,
        ensures
            r.0 == self.counters(),
            self.macros().describes_usage(r.1),
    {
        (self.stats.clone(), self.macro_tracker.get_usage_statistics())
    }

    /// The macro state hash.
    pub fn get_macro_state_hash(&self) -> (h: u128)
        ensures
            h == self.macros().macro_state_hash,
    {
        self.macro_tracker.get_state_hash()
    }

    /// Sets a count register, as `RegisterTracker::set_count` does.
    pub fn set_count_register(&mut self, register: i32, value: i32, source_position: Option<usize>, now_us: u64)
        requires
            old(self).wf(),
            old(self).registers().can_write(),
        ensures
            final(self).wf(),
            RegisterTracker::sets_count(old(self).registers(), final(self).registers(), register, value, source_position, now_us),
            final(self).same_but_registers(old(self)),
    {
        self.register_tracker.set_count(register, value, source_position, now_us);
    }

    /// Sets a dimension register, as `RegisterTracker::set_dimen` does.
    pub fn set_dimen_register(&mut self, register: i32, value: i32, source_position: Option<usize>, now_us: u64)
        requires
            old(self).wf(),
            old(self).registers().can_write(),
        ensures
            final(self).wf(),
            RegisterTracker::sets_dimen(old(self).registers(), final(self).registers(), register, value, source_position, now_us),
            final(self).same_but_registers(old(self)),
    {
        self.register_tracker.set_dimen(register, value, source_position, now_us);
    }

    /// Sets a skip register, as `RegisterTracker::set_skip` does.
    pub fn set_skip_register(&mut self, register: i32, value: GlueValue, source_position: Option<usize>, now_us: u64)
        requires
            old(self).wf(),
            old(self).registers().can_write(),
        ensures
            final(self).wf(),
            RegisterTracker::sets_skip(old(self).registers(), final(self).registers(), register, value, source_position, now_us),
            final(self).same_but_registers(old(self)),
    {
        self.register_tracker.set_skip(register, value, source_position, now_us);
    }

    /// Whether a register changed since the last snapshot.
    pub fn has_register_changes(&self) -> (b: bool)
        ensures
            b == (self.registers().dirty_registers@.len() > 0),
    {
        self.register_tracker.has_changes()
    }

    /// Takes a register snapshot and returns its hash.
    pub fn get_register_state_hash(&mut self) -> (r: u128)
        requires
            old(self).wf(),
        ensures
            final(self).wf(),
            RegisterTracker::snapshot_taken(old(self).registers(), final(self).registers(), r),
            final(self).same_but_registers(old(self)),
    {
        self.register_tracker.create_snapshot()
    }

    /// One register dependency per change logged since the last snapshot.
    pub fn get_all_changed_dependencies(&self) -> (r: Vec<DependencyKey>)
        ensures
            r@.len() == self.registers().dirty_registers@.len(),
            forall|i: int|
                0 <= i < r@.len() ==> #[trigger] r@[i]@ == change_dependency(
                    self.registers().dirty_registers@[i],
                ),
    {
        self.register_tracker.get_register_dependencies()
    }

    /// Hash of the macro state together with a fresh register snapshot; the
    /// snapshot is taken as `get_register_state_hash` takes it.
    pub fn generate_comprehensive_state_hash(&mut self) -> (r: u128)
        requires
            old(self).wf(),
        ensures
            final(self).wf(),
            r == spec_siphash13(
                comprehensive_state_bytes(
                    old(self).macros().macro_state_hash,
                    spec_siphash13(old(self).registers().snapshot_bytes()),
                ),
            ),
            RegisterTracker::snapshot_taken(
                old(self).registers(),
                final(self).registers(),
                spec_siphash13(old(self).registers().snapshot_bytes()),
            ),
            final(self).same_but_registers(old(self)),
    {
        let macro_hash = self.get_macro_state_hash();
        let register_hash = self.get_register_state_hash();
        let mut bytes: Vec<u8> = Vec::new();
        push_u128(&mut bytes, macro_hash);
        push_u128(&mut bytes, register_hash);
        proof {
            assert(bytes@ =~= comprehensive_state_bytes(macro_hash, register_hash));
        }
        siphash13_128(bytes.as_slice())
    }

    /// The comprehensive state hash of a system, as
    /// `generate_comprehensive_state_hash` computes it.
    pub open spec fn state_hash(&self) -> u128 {
        spec_siphash13(
            comprehensive_state_bytes(
                self.macros().macro_state_hash,
                spec_siphash13(self.registers().snapshot_bytes()),
            ),
        )
    }

    /// The state hash for typesetting a paragraph: the comprehensive state
    /// hash followed by the hash of the paragraph parameters.  The register
    /// snapshot is taken as `generate_comprehensive_state_hash` takes it.
    pub fn generate_paragraph_state_hash(&mut self, par_params: &ParagraphParamBits) -> (r: u128)
        requires
            old(self).wf(),
        ensures
            final(self).wf(),
            r == spec_siphash13(
                enc_u128(old(self).state_hash()) + enc_u128(spec_siphash13(par_params.hash_bytes())),
            ),
            RegisterTracker::snapshot_taken(
                old(self).registers(),
                final(self).registers(),
                spec_siphash13(old(self).registers().snapshot_bytes()),
            ),
            final(self).same_but_registers(old(self)),
    {
        let state = self.generate_comprehensive_state_hash();
        let params = HashComputation::hash_content(par_params);
        let mut bytes: Vec<u8> = Vec::new();
        push_u128(&mut bytes, state);
        push_u128(&mut bytes, params);
        proof {
            assert(bytes@ =~= enc_u128(old(self).state_hash()) + enc_u128(
                spec_siphash13(par_params.hash_bytes()),
            ));
        }
        siphash13_128(bytes.as_slice())
    }

    /// The state hash for typesetting math: the comprehensive state hash,
    /// the hash of the math parameters where there are any, and the display
    /// flag.  The register snapshot is taken as
    /// `generate_comprehensive_state_hash` takes it.
    pub fn generate_math_state_hash(&mut self, math_params: &Option<MathParamBits>, is_display: bool) -> (r:
        u128)
        requires
            old(self).wf(),
        ensures
            final(self).wf(),
            r == spec_siphash13(
                enc_u128(old(self).state_hash()) + match *math_params {
                    Some(m) => enc_u128(spec_siphash13(m.hash_bytes())),
                    None => Seq::<u8>::empty(),
                } + enc_bool(is_display),
            ),
            RegisterTracker::snapshot_taken(
                old(self).registers(),
                final(self).registers(),
                spec_siphash13(old(self).registers().snapshot_bytes()),
            ),
            final(self).same_but_registers(old(self)),
    {
        let state = self.generate_comprehensive_state_hash();
        let mut bytes: Vec<u8> = Vec::new();
        push_u128(&mut bytes, state);
        match math_params {
            Some(m) => {
                let params = HashComputation::hash_content(m);
                push_u128(&mut bytes, params);
            },
            None => {},
        }
        push_bool(&mut bytes, is_display);
        proof {
            assert(bytes@ =~= enc_u128(old(self).state_hash()) + match *math_params {
                Some(m) => enc_u128(spec_siphash13(m.hash_bytes())),
                None => Seq::<u8>::empty(),
            } + enc_bool(is_display));
        }
        siphash13_128(bytes.as_slice())
    }

    /// The cache counters, the macro usage statistics and the register
    /// statistics.
    pub fn get_comprehensive_statistics(&self) -> (r: (CacheCounters, MacroStatistics, RegisterStatistics))
        requires
            self.wf(),
            usage_total(self.macros().macro_definitions.entry_seq()) <= u64::MAX,
        ensures
            r.0 == self.counters(),
            self.macros().describes_usage(r.1),
            self.registers().describes_statistics(r.2),
    {
        (self.stats.clone(), self.macro_tracker.get_usage_statistics(), self.register_tracker.get_statistics())
    }

    /// Whether the entries a lookup of `key` with the given candidates may
    /// hit can count another access: the entry under `key` and each cached
    /// candidate.
    pub open spec fn can_count_access(&self, key: CacheKey, compatible: Seq<(CacheKey, CacheMatchType)>) -> bool {
        &&& self.cached().contains_key(key) ==> self.cached()[key].access_count < u64::MAX
        &&& forall|t: int|
            0 <= t < compatible.len() && #[trigger] self.cached().contains_key(compatible[t].0)
                ==> self.cached()[compatible[t].0].access_count < u64::MAX
    }

    /// Cached keys with the given content and state hashes, from the
    /// spatial index.
    pub fn find_content_matches(&self, content_hash: u128, state_hash: u128) -> (r: Vec<CacheKey>)
        ensures
            r@ == keys_matching(indexed_keys(self.index().buckets()), content_hash, state_hash),
    {
        self.spatial_index.content_matches(content_hash, state_hash)
    }

    /// The cache counters.
    pub fn cache_counters(&self) -> (r: CacheCounters)
        ensures
            r == self.counters(),
    {
        self.stats
    }

    /// The memory accounted for the cached entries, in bytes.
    pub fn memory_in_use(&self) -> (r: usize)
        ensures
            r == self.memory_usage(),
    {
        self.current_memory_usage
    }

    /// The number of cached entries.
    pub fn entry_count(&self) -> (r: usize)
        requires
            self.wf(),
        ensures
            r == self.entries().len(),
    {
        self.cache.len()
    }

    /// The entry cached under `key`, if there is one.
    pub fn cached_entry(&self, key: &CacheKey) -> (r: Option<&MemoEntry>)
        requires
            self.wf(),
        ensures
            r is Some <==> self.cached().contains_key(*key),
            r matches Some(e) ==> *e == self.cached()[*key],
    {
        self.cache.get(key)
    }

    /// Counts an access to the entry under `key`, which is cached: one more
    /// access, at time `now_us`.
    fn touch(&mut self, key: &CacheKey, now_us: u64)
        requires
            old(self).wf(),
            old(self).cached().contains_key(*key),
            old(self).cached()[*key].access_count < u64::MAX,
        ensures
            final(self).wf(),
            final(self).cached().dom() == old(self).cached().dom(),
            forall|k: CacheKey| k != *key && #[trigger] old(self).cached().contains_key(k) ==> final(self).cached()[k] == old(self).cached()[k],
            final(self).cached()[*key]@ == (MemoEntryView {
                access_count: (old(self).cached()[*key].access_count + 1) as u64,
                last_access: now_us,
                ..old(self).cached()[*key]@
            }),
            final(self).spatial_index == old(self).spatial_index,
            final(self).dependency_graph == old(self).dependency_graph,
            final(self).macro_tracker == old(self).macro_tracker,
            final(self).register_tracker == old(self).register_tracker,
            final(self).stats == old(self).stats,
            final(self).current_memory_usage == old(self).current_memory_usage,
            final(self).memory_limit == old(self).memory_limit,
            final(self).cache.spec_max_entries() == old(self).cache.spec_max_entries(),
            final(self).cache.spec_memory_limit() == old(self).cache.spec_memory_limit(),
            final(self).cache.spec_memory_usage() == old(self).cache.spec_memory_usage(),
    {
        proof {
            self.cache.lemma_entries(*key);
            lemma_key_index(self.cache.entry_seq(), *key);
        }
        let found = self.cache.get(key);
        let mut updated = match found {
            Some(e) => e.duplicate(),
            None => {
                assert(false);
                return;
            },
        };
        updated.access_count = updated.access_count + 1;
        updated.last_access = now_us;
        let ghost before = self.cache.entry_seq();
        let ghost i = key_index(before, *key);
        let ghost u = updated;
        self.cache.replace(key, updated);
        proof {
            lemma_entry_sizes(before, i, (*key, u));
            assert(before[i] == (*key, old(self).cached()[*key]));
            assert(self.cache.contents() == old(self).cache.contents().insert(*key, u));
        }
    }

    /// Looks up a computation result.  The entry under the exact key comes
    /// first; then, in the order given, the first of the `compatible`
    /// candidates (keys whose constraints the caller found compatible with
    /// the required ones, with the kind of match) that is cached.  A hit is
    /// counted on the entry, whose last access becomes `now_us` (the current
    /// time in microseconds, as the caller reads it), and in the counters; a miss is counted, with ten
    /// microseconds of lookup time.
    pub fn check_memo(
        &mut self,
        content_hash: u128,
        constraint_hash: u128,
        state_hash: u128,
        source_position: usize,
        compatible: &[(CacheKey, CacheMatchType)],
        now_us: u64,
    ) -> (r: Option<MemoLookup>)
        requires
            old(self).wf(),
            old(self).counters().can_count_lookup(),
            old(self).can_count_access(CacheKey { content_hash, constraint_hash, state_hash }, compatible@),
        ensures
            final(self).wf(),
            final(self).index() == old(self).index(),
            final(self).graph() == old(self).graph(),
            final(self).macros() == old(self).macros(),
            final(self).registers() == old(self).registers(),
            final(self).memory_usage() == old(self).memory_usage(),
            final(self).memory_limit() == old(self).memory_limit(),
            memo_hit(old(self).cached(), CacheKey { content_hash, constraint_hash, state_hash }, compatible@)
                matches Some(h) ==> {
                &&& r matches Some(l) && l.key == h.0 && l.match_type == h.1 && l.entry@ == old(
                    self,
                ).cached()[h.0]@
                &&& final(self).counters() == (CacheCounters {
                    total_lookups: (old(self).counters().total_lookups + 1) as usize,
                    exact_hits: (old(self).counters().exact_hits + 1) as usize,
                    ..old(self).counters()
                })
                &&& final(self).cached().dom() == old(self).cached().dom()
                &&& final(self).cached()[h.0]@ == (MemoEntryView {
                    access_count: (old(self).cached()[h.0].access_count + 1) as u64,
                    last_access: now_us,
                    ..old(self).cached()[h.0]@
                })
            },
            memo_hit(old(self).cached(), CacheKey { content_hash, constraint_hash, state_hash }, compatible@)
                matches Some(h) ==> forall|k2: CacheKey|
                k2 != h.0 && #[trigger] old(self).cached().contains_key(k2) ==> final(self).cached()[k2]
                    == old(self).cached()[k2],
            memo_hit(old(self).cached(), CacheKey { content_hash, constraint_hash, state_hash }, compatible@)
                is None ==> {
                &&& r is None
                &&& final(self).counters() == (CacheCounters {
                    total_lookups: (old(self).counters().total_lookups + 1) as usize,
                    misses: (old(self).counters().misses + 1) as usize,
                    total_cache_time_us: (old(self).counters().total_cache_time_us + 10) as u64,
                    ..old(self).counters()
                })
                &&& final(self).cached() == old(self).cached()
            },
    {
        let key = CacheKey { content_hash, constraint_hash, state_hash };
        let found = match self.cache.get(&key) {
            Some(e) => Some(e.duplicate()),
            None => None,
        };
        match found {
            Some(entry) => {
                self.stats.record_hit();
                self.touch(&key, now_us);
                return Some(MemoLookup { key, match_type: CacheMatchType::Exact, entry });
            },
            None => {},
        }
        let n = compatible.len();
        let mut i: usize = 0;
        while i < n
            invariant
                n == compatible@.len(),
                i <= n,
                forall|t: int| 0 <= t < i ==> !old(self).cached().contains_key(#[trigger] compatible@[t].0),
                *self == *old(self),
                old(self).wf(),
                old(self).counters().can_count_lookup(),
                old(self).can_count_access(key, compatible@),
                !old(self).cached().contains_key(key),
                key == (CacheKey { content_hash, constraint_hash, state_hash }),
            decreases n - i,
        {
            let (candidate, match_type) = compatible[i];
            let found = match self.cache.get(&candidate) {
                Some(e) => Some(e.duplicate()),
                None => None,
            };
            match found {
                Some(entry) => {
                    proof {
                        lemma_first_cached(old(self).cached(), compatible@, i as int);
                    }
                    self.stats.record_hit();
                    self.touch(&candidate, now_us);
                    let r = Some(MemoLookup { key: candidate, match_type, entry });
                    proof {
                        assert(memo_hit(old(self).cached(), key, compatible@) == Some((candidate, match_type)));
                    }
                    return r;
                },
                None => {},
            }
            i = i + 1;
        }
        proof {
            lemma_first_cached_none(old(self).cached(), compatible@);
        }
        self.stats.record_miss();
        self.stats.total_cache_time_us = self.stats.total_cache_time_us + 10;
        None
    }

    /// Drops the cache entries that depend on any of the changed
    /// dependencies, counting one eviction per dependent recorded (whether
    /// or not its entry was still cached).
    pub fn invalidate_dependencies(&mut self, changed_dependencies: &[DependencyKey])
        requires
            old(self).wf(),
            old(self).counters().evictions + invalidated_keys(
                old(self).graph(),
                dependency_views(changed_dependencies@),
            ).len() <= usize::MAX,
        ensures
            final(self).wf(),
            ({
                let gone = invalidated_keys(old(self).graph(), dependency_views(changed_dependencies@));
                &&& final(self).cached() == old(self).cached().remove_keys(gone.to_set())
                &&& final(self).counters() == (CacheCounters {
                    evictions: (old(self).counters().evictions + gone.len()) as usize,
                    total_entries: if old(self).counters().total_entries >= gone.len() {
                        (old(self).counters().total_entries - gone.len()) as usize
                    } else {
                        0
                    },
                    ..old(self).counters()
                })
            }),
            final(self).index() == old(self).index(),
            final(self).graph() == old(self).graph(),
            final(self).macros() == old(self).macros(),
            final(self).registers() == old(self).registers(),
            final(self).memory_usage() == old(self).memory_usage(),
            final(self).memory_limit() == old(self).memory_limit(),
    {
        let ghost changed = dependency_views(changed_dependencies@);
        let n = changed_dependencies.len();
        let mut d: usize = 0;
        while d < n
            invariant
                n == changed_dependencies@.len(),
                changed == dependency_views(changed_dependencies@),
                d <= n,
                self.wf(),
                self.dependency_graph == old(self).dependency_graph,
                self.spatial_index == old(self).spatial_index,
                self.macro_tracker == old(self).macro_tracker,
                self.register_tracker == old(self).register_tracker,
                self.current_memory_usage == old(self).current_memory_usage,
                self.memory_limit == old(self).memory_limit,
                old(self).counters().evictions + invalidated_keys(old(self).graph(), changed).len() <= usize::MAX,
                ({
                    let done = invalidated_keys(old(self).graph(), changed.take(d as int));
                    &&& self.cached() == old(self).cached().remove_keys(done.to_set())
                    &&& self.counters() == (CacheCounters {
                        evictions: (old(self).counters().evictions + done.len()) as usize,
                        total_entries: if old(self).counters().total_entries >= done.len() {
                            (old(self).counters().total_entries - done.len()) as usize
                        } else {
                            0
                        },
                        ..old(self).counters()
                    })
                }),
            decreases n - d,
        {
            let ghost done_before = invalidated_keys(old(self).graph(), changed.take(d as int));
            proof {
                assert(changed.take(d + 1).drop_last() =~= changed.take(d as int));
                assert(changed.take(d + 1).last() == changed_dependencies@[d as int]@);
                lemma_invalidated_keys_prefix(old(self).graph(), changed, d as int);
            }
            let dependents = self.dependency_graph.get_dependents(&changed_dependencies[d]);
            let ghost deps_seq = dependents@.map_values(|k: &CacheKey| *k);
            let m = dependents.len();
            let mut j: usize = 0;
            while j < m
                invariant
                    m == dependents@.len(),
                    deps_seq == dependents@.map_values(|k: &CacheKey| *k),
                    deps_seq == dependents_of(old(self).graph(), changed[d as int]),
                    j <= m,
                    d < n,
                    n == changed_dependencies@.len(),
                    changed == dependency_views(changed_dependencies@),
                    self.wf(),
                    self.dependency_graph == old(self).dependency_graph,
                    self.spatial_index == old(self).spatial_index,
                    self.macro_tracker == old(self).macro_tracker,
                    self.register_tracker == old(self).register_tracker,
                    self.current_memory_usage == old(self).current_memory_usage,
                    self.memory_limit == old(self).memory_limit,
                    done_before == invalidated_keys(old(self).graph(), changed.take(d as int)),
                    invalidated_keys(old(self).graph(), changed.take(d + 1)) == done_before + deps_seq,
                    old(self).counters().evictions + invalidated_keys(old(self).graph(), changed).len() <= usize::MAX,
                    invalidated_keys(old(self).graph(), changed.take(d + 1)).len() <= invalidated_keys(old(self).graph(), changed).len(),
                    ({
                        let done = done_before + deps_seq.take(j as int);
                        &&& self.cached() == old(self).cached().remove_keys(done.to_set())
                        &&& self.counters() == (CacheCounters {
                            evictions: (old(self).counters().evictions + done.len()) as usize,
                            total_entries: if old(self).counters().total_entries >= done.len() {
                                (old(self).counters().total_entries - done.len()) as usize
                            } else {
                                0
                            },
                            ..old(self).counters()
                        })
                    }),
                decreases m - j,
            {
                let k: CacheKey = *dependents[j];
                proof {
                    assert(deps_seq[j as int] == k);
                }
                let ghost before_entries = self.cache.entry_seq();
                let ghost cached_before = self.cached();
                let ghost done = done_before + deps_seq.take(j as int);
                let ghost done_next = done_before + deps_seq.take(j + 1);
                proof {
                    assert(done_next =~= done.push(k));
                    assert forall|x: CacheKey| #[trigger] done_next.contains(x) == (done.contains(x) || x == k) by {
                        if done_next.contains(x) {
                            let t = choose|t: int| 0 <= t < done_next.len() && done_next[t] == x;
                            if t < done.len() {
                                assert(done[t] == x);
                            }
                        }
                        if done.contains(x) {
                            let t = choose|t: int| 0 <= t < done.len() && done[t] == x;
                            assert(done_next[t] == x);
                        }
                        if x == k {
                            assert(done_next[done.len() as int] == x);
                        }
                    }
                    assert(done_next.to_set() =~= done.to_set().insert(k));
                    self.cache.lemma_entries(k);
                    lemma_key_index(before_entries, k);
                    if key_index(before_entries, k) >= 0 {
                        lemma_entry_sizes(before_entries, key_index(before_entries, k), (k, before_entries[0].1));
                    }
                }
                self.cache.remove(&k);
                self.stats.record_eviction();
                proof {
                    assert(self.cached() =~= old(self).cached().remove_keys(done_next.to_set()));
                }
                j = j + 1;
            }
            proof {
                assert(deps_seq.take(m as int) =~= deps_seq);
            }
            d = d + 1;
        }
        proof {
            assert(changed.take(n as int) =~= changed);
        }
    }

    /// Removes the entry under `key` with everything that refers to it: its
    /// filings in the spatial index, its dependency edges and its share of
    /// the memory accounted for; counts the eviction.  Nothing happens for
    /// an uncached key.
    fn remove_entry(&mut self, key: &CacheKey)
        requires
            old(self).wf(),
            old(self).stats.evictions < usize::MAX,
        ensures
            final(self).wf(),
            final(self).macro_tracker == old(self).macro_tracker,
            final(self).register_tracker == old(self).register_tracker,
            final(self).memory_limit == old(self).memory_limit,
            final(self).cache.spec_max_entries() == old(self).cache.spec_max_entries(),
            final(self).cache.spec_memory_limit() == old(self).cache.spec_memory_limit(),
            final(self).cache.spec_memory_usage() == old(self).cache.spec_memory_usage(),
            old(self).cached().contains_key(*key) ==> {
                let e = old(self).cached()[*key];
                &&& final(self).cache.entry_seq() == old(self).cache.entry_seq().remove(
                    key_index(old(self).cache.entry_seq(), *key),
                )
                &&& final(self).cached() == old(self).cached().remove(*key)
                &&& final(self).current_memory_usage == old(self).current_memory_usage - e.result_size_bytes
                &&& final(self).graph() == without_edges(old(self).graph(), *key, dependency_views(e.dependencies@))
                &&& final(self).spatial_index.buckets() == buckets_without(old(self).spatial_index.buckets(), *key)
                &&& final(self).stats == (CacheCounters {
                    evictions: (old(self).stats.evictions + 1) as usize,
                    total_entries: if old(self).stats.total_entries > 0 {
                        (old(self).stats.total_entries - 1) as usize
                    } else {
                        0
                    },
                    ..old(self).stats
                })
            },
            !old(self).cached().contains_key(*key) ==> {
                &&& final(self).cache.entry_seq() == old(self).cache.entry_seq()
                &&& final(self).cached() == old(self).cached()
                &&& final(self).current_memory_usage == old(self).current_memory_usage
                &&& final(self).dependency_graph == old(self).dependency_graph
                &&& final(self).spatial_index == old(self).spatial_index
                &&& final(self).stats == old(self).stats
            },
    {
        let ghost entries = self.cache.entry_seq();
        proof {
            self.cache.lemma_entries(*key);
            lemma_key_index(entries, *key);
            if key_index(entries, *key) >= 0 {
                lemma_entry_sizes(entries, key_index(entries, *key), entries[0]);
            }
        }
        match self.cache.remove(key) {
            None => {},
            Some(entry) => {
                self.current_memory_usage = self.current_memory_usage - entry.result_size_bytes;
                self.spatial_index.remove_key(key);
                let ghost graph0 = self.dependency_graph@;
                let ghost index0 = self.spatial_index;
                let ghost cache0 = self.cache;
                let ghost usage0 = self.current_memory_usage;
                let ghost stats0 = self.stats;
                let n = entry.dependencies.len();
                let mut i: usize = 0;
                while i < n
                    invariant
                        n == entry.dependencies@.len(),
                        i <= n,
                        self.spatial_index == index0,
                        self.cache == cache0,
                        self.current_memory_usage == usage0,
                        self.stats == stats0,
                        self.macro_tracker == old(self).macro_tracker,
                        self.register_tracker == old(self).register_tracker,
                        self.memory_limit == old(self).memory_limit,
                        self.dependency_graph@ == without_edges(
                            graph0,
                            *key,
                            dependency_views(entry.dependencies@).take(i as int),
                        ),
                    decreases n - i,
                {
                    self.dependency_graph.remove_dependency(&entry.dependencies[i], key);
                    proof {
                        let v = dependency_views(entry.dependencies@);
                        assert(v.take(i + 1).drop_last() =~= v.take(i as int));
                        assert(v.take(i + 1).last() == entry.dependencies@[i as int]@);
                    }
                    i = i + 1;
                }
                proof {
                    assert(dependency_views(entry.dependencies@).take(n as int) =~= dependency_views(
                        entry.dependencies@,
                    ));
                    assert(self.spatial_index.buckets() =~= buckets_without(
                        old(self).spatial_index.buckets(),
                        *key,
                    ));
                }
                self.stats.record_eviction();
            },
        }
    }

    /// Index of the least recently used entry (the first among equals).
    fn lru_index(&self) -> (r: usize)
        requires
            self.cache.wf(),
            self.cache.entry_seq().len() > 0,
        ensures
            r < self.cache.entry_seq().len(),
            forall|j: int|
                0 <= j < self.cache.entry_seq().len() ==> self.cache.entry_seq()[r as int].1.last_access
                    <= #[trigger] self.cache.entry_seq()[j].1.last_access,
    {
        let n = self.cache.len();
        let mut best: usize = 0;
        let mut best_access = self.cache.entry_at(0).1.last_access;
        let mut i: usize = 1;
        while i < n
            invariant
                n == self.cache.entry_seq().len(),
                1 <= i <= n,
                best < i,
                best_access == self.cache.entry_seq()[best as int].1.last_access,
                forall|j: int| 0 <= j < i ==> best_access <= #[trigger] self.cache.entry_seq()[j].1.last_access,
            decreases n - i,
        {
            let a = self.cache.entry_at(i).1.last_access;
            if a < best_access {
                best = i;
                best_access = a;
            }
            i = i + 1;
        }
        best
    }

    /// How an eviction for `required_space` bytes that returned `r` left
    /// the system, with `evicted` the entries it evicted in order.
    spec fn evicted_by(
        before: Self,
        after: Self,
        evicted: Seq<(CacheKey, MemoEntry)>,
        required_space: usize,
        r: Result<(), String>,
    ) -> bool {
        &&& lru_eviction(before.cached(), after.cached(), evicted, required_space as nat)
        &&& after.cache.entry_seq().len() + evicted.len() == before.cache.entry_seq().len()
        &&& after.current_memory_usage == before.current_memory_usage - entry_sizes(evicted)
        &&& after.stats.evictions == before.stats.evictions + evicted.len()
        &&& after.stats == (CacheCounters {
            evictions: after.stats.evictions,
            total_entries: if before.stats.total_entries >= evicted.len() {
                (before.stats.total_entries - evicted.len()) as usize
            } else {
                0
            },
            ..before.stats
        })
        &&& after.graph() == graph_without_entries(before.graph(), evicted)
        &&& after.spatial_index.buckets() == buckets_without_entries(
            before.spatial_index.buckets(),
            evicted,
        )
        &&& (r is Err <==> entry_sizes(evicted) < required_space)
        &&& r matches Err(m) ==> m@ == space_message(required_space as nat, entry_sizes(evicted))
    }

    /// Evicts least recently used entries until their result sizes reach
    /// `required_space`; fails, with everything evicted, when the cache
    /// holds less than that.
    fn evict_entries_for_space(&mut self, required_space: usize) -> (r: Result<(), String>)
        requires
            old(self).wf(),
            old(self).stats.evictions + old(self).cache.entry_seq().len() <= usize::MAX,
        ensures
            final(self).wf(),
            final(self).macro_tracker == old(self).macro_tracker,
            final(self).register_tracker == old(self).register_tracker,
            final(self).memory_limit == old(self).memory_limit,
            final(self).cache.spec_max_entries() == old(self).cache.spec_max_entries(),
            final(self).cache.spec_memory_limit() == old(self).cache.spec_memory_limit(),
            final(self).cache.spec_memory_usage() == old(self).cache.spec_memory_usage(),
            exists|evicted: Seq<(CacheKey, MemoEntry)>| Self::evicted_by(*old(self), *final(self), evicted, required_space, r),
    {
        let mut freed: usize = 0;
        let ghost mut evicted: Seq<(CacheKey, MemoEntry)> = Seq::empty();
        proof {
            lemma_evicted_none(old(self).cached());
        }
        while freed < required_space && self.cache.len() > 0
            invariant
                self.wf(),
                self.macro_tracker == old(self).macro_tracker,
                self.register_tracker == old(self).register_tracker,
                self.memory_limit == old(self).memory_limit,
                self.cache.spec_max_entries() == old(self).cache.spec_max_entries(),
                self.cache.spec_memory_limit() == old(self).cache.spec_memory_limit(),
                self.cache.spec_memory_usage() == old(self).cache.spec_memory_usage(),
                freed == entry_sizes(evicted),
                self.current_memory_usage + freed == old(self).current_memory_usage,
                self.stats.evictions == old(self).stats.evictions + evicted.len(),
                self.stats == (CacheCounters {
                    evictions: self.stats.evictions,
                    total_entries: if old(self).stats.total_entries >= evicted.len() {
                        (old(self).stats.total_entries - evicted.len()) as usize
                    } else {
                        0
                    },
                    ..old(self).stats
                }),
                self.graph() == graph_without_entries(old(self).graph(), evicted),
                self.spatial_index.buckets() == buckets_without_entries(
                    old(self).spatial_index.buckets(),
                    evicted,
                ),
                self.cache.entry_seq().len() + evicted.len() == old(self).cache.entry_seq().len(),
                old(self).stats.evictions + old(self).cache.entry_seq().len() <= usize::MAX,
                evicted_so_far(old(self).cached(), self.cached(), evicted),
                evicted.len() > 0 ==> entry_sizes(evicted.drop_last()) < required_space,
            decreases self.cache.entry_seq().len(),
        {
            let i = self.lru_index();
            let (kr, er) = self.cache.entry_at(i);
            let key: CacheKey = *kr;
            let size = er.result_size_bytes;
            let ghost entry = self.cache.entry_seq()[i as int].1;
            let ghost cached_before = self.cached();
            proof {
                let s = self.cache.entry_seq();
                self.cache.lemma_entries(key);
                lemma_key_index(s, key);
                assert(key_index(s, key) == i);
                lemma_entry_sizes(s, i as int, s[0]);
                lemma_pairs_map(s);
                assert(cached_before[key] == entry);
                assert forall|k: CacheKey| #[trigger] cached_before.contains_key(k) implies entry.last_access
                    <= cached_before[k].last_access by {
                    let j = choose|j: int| 0 <= j < s.len() && #[trigger] s[j].0 == k;
                    assert(cached_before[s[j].0] == s[j].1);
                }
                lemma_evict_step(old(self).cached(), cached_before, evicted, key, entry);
            }
            self.remove_entry(&key);
            proof {
                let next = evicted.push((key, entry));
                assert(next.drop_last() =~= evicted);
                assert(next.last() == (key, entry));
                evicted = next;
            }
            freed = freed + size;
        }
        if freed < required_space {
            let mut message: Vec<char> = Vec::new();
            push_chars(&mut message, "Unable to free enough space. Required: ");
            push_decimal(&mut message, required_space as u64);
            push_chars(&mut message, ", Freed: ");
            push_decimal(&mut message, freed as u64);
            let m = string_from_chars(&message);
            proof {
                assert(m@ =~= space_message(required_space as nat, entry_sizes(evicted)));
                lemma_evicted_done(old(self).cached(), self.cached(), evicted, required_space as nat);
                assert(Self::evicted_by(*old(self), *self, evicted, required_space, Err(m)));
            }
            return Err(m);
        }
        proof {
            lemma_evicted_done(old(self).cached(), self.cached(), evicted, required_space as nat);
            assert(Self::evicted_by(*old(self), *self, evicted, required_space, Ok(())));
        }
        Ok(())
    }

    /// How storing an entry under `key` that is accounted for `est` bytes,
    /// at time `now_us`, and that returned `r`, left the system, with
    /// `evicted` the entries evicted first to make room, in order.
    pub open spec fn stored(
        before: Self,
        after: Self,
        key: CacheKey,
        spatial_key: Seq<char>,
        result_hash: u128,
        source_position: usize,
        computation_time_us: u64,
        memory_used_bytes: usize,
        tex_operations: u32,
        dependencies: Seq<DependencyKeyView>,
        est: int,
        now_us: u64,
        evicted: Seq<(CacheKey, MemoEntry)>,
        r: Result<(), String>,
    ) -> bool {
        let mid = before.cached().remove_keys(entry_keys(evicted));
        let mid_graph = graph_without_entries(before.graph(), evicted);
        let mid_buckets = buckets_without_entries(before.index().buckets(), evicted);
        let mid_counters = CacheCounters {
            evictions: (before.counters().evictions + evicted.len()) as usize,
            total_entries: if before.counters().total_entries >= evicted.len() {
                (before.counters().total_entries - evicted.len()) as usize
            } else {
                0
            },
            ..before.counters()
        };
        &&& after.cache_max_entries() == before.cache_max_entries()
        &&& after.memory_limit() == before.memory_limit()
        &&& after.cache_memory_limit() == before.cache_memory_limit()
        &&& (before.memory_usage() + est <= before.memory_limit() ==> evicted.len() == 0)
        &&& (before.memory_usage() + est > before.memory_limit() ==> lru_eviction(
            before.cached(),
            mid,
            evicted,
            est as nat,
        ))
        &&& (r is Err <==> (before.memory_usage() + est > before.memory_limit()
            && entry_sizes(evicted) < est))
        &&& r matches Err(m) ==> {
            &&& m@ == space_message(est as nat, entry_sizes(evicted))
            &&& after.cached() == mid
            &&& after.graph() == mid_graph
            &&& after.index().buckets() == mid_buckets
            &&& after.counters() == mid_counters
            &&& after.memory_usage() == before.memory_usage() - entry_sizes(evicted)
        }
        &&& r is Ok ==> {
            let e = after.cached()[key];
            &&& after.cached().contains_key(key)
            &&& e@ == (MemoEntryView {
                result_hash,
                dependencies: dependencies,
                source_position,
                context_type: "tex_compilation"@,
                result_size_bytes: memory_used_bytes,
                computation_time_us,
                memory_used_bytes,
                tex_operations,
                timestamp: now_us,
                access_count: 0,
                last_access: now_us,
            })
            &&& after.cached() == if before.cache_evicts_at(before.entries().len() - evicted.len()) {
                map![key => e]
            } else {
                mid.insert(key, e)
            }
            &&& after.graph() == mid_graph + Seq::new(
                dependencies.len(),
                |i: int| (key, dependencies[i]),
            )
            &&& after.index().contents() == SpatialIndex::filed(mid_buckets, spatial_key, key)
            &&& after.counters() == (CacheCounters {
                stores: (mid_counters.stores + 1) as usize,
                total_entries: (mid_counters.total_entries + 1) as usize,
                ..mid_counters
            })
            &&& after.memory_usage() == before.memory_usage() - entry_sizes(evicted) + est
        }
    }

    /// Stores the result of a computation under its content, constraint and
    /// state hashes.  The entry is accounted for `entry_overhead` bytes, plus
    /// `dependency_size` per dependency, plus the memory the computation
    /// used.  Where that would take the memory accounted for past the limit,
    /// least recently used entries are evicted first until their sizes make
    /// room; if even evicting everything does not, the store fails with a
    /// message naming the bytes required and freed.  A stored entry is filed
    /// under `spatial_key` in the spatial index, and one dependency edge is
    /// recorded per dependency.  The entry is created and last accessed at
    /// `now_us`, the current time in microseconds as the caller reads it.
    /// Where the cache is full, as `MemoizationCache::insert` judges it, it
    /// empties itself before taking the entry.
    pub fn store_memo(
        &mut self,
        content_hash: u128,
        constraint_hash: u128,
        spatial_key: String,
        state_hash: u128,
        result_hash: u128,
        source_position: usize,
        computation_time_us: u64,
        memory_used_bytes: usize,
        tex_operations: u32,
        dependencies: Vec<DependencyKey>,
        entry_overhead: usize,
        dependency_size: usize,
        now_us: u64,
    ) -> (r: Result<(), String>)
        requires
            old(self).wf(),
            entry_overhead + dependencies@.len() * dependency_size + memory_used_bytes <= usize::MAX,
            old(self).memory_usage() + entry_overhead + dependencies@.len() * dependency_size
                + memory_used_bytes <= usize::MAX,
            old(self).counters().evictions + old(self).entries().len() <= usize::MAX,
            old(self).counters().stores < usize::MAX,
            old(self).counters().total_entries < usize::MAX,
        ensures
            final(self).wf(),
            final(self).macros() == old(self).macros(),
            final(self).registers() == old(self).registers(),
            final(self).memory_limit() == old(self).memory_limit(),
            exists|evicted: Seq<(CacheKey, MemoEntry)>|
                #[trigger] Self::stored(
                *old(self),
                *final(self),
                CacheKey { content_hash, constraint_hash, state_hash },
                spatial_key@,
                result_hash,
                source_position,
                computation_time_us,
                memory_used_bytes,
                tex_operations,
                dependency_views(dependencies@),
                entry_overhead + dependencies@.len() * dependency_size + memory_used_bytes,
                now_us,
                evicted,
                r,
            ),
    {
        let est = entry_overhead + dependencies.len() * dependency_size + memory_used_bytes;
        let key = CacheKey { content_hash, constraint_hash, state_hash };
        let ghost sk = spatial_key@;
        let ghost deps = dependency_views(dependencies@);
        let ghost mut evicted: Seq<(CacheKey, MemoEntry)> = Seq::empty();
        if self.current_memory_usage + est > self.memory_limit {
            let res = self.evict_entries_for_space(est);
            proof {
                evicted = choose|ev: Seq<(CacheKey, MemoEntry)>| Self::evicted_by(*old(self), *self, ev, est, res);
            }
            match res {
                Ok(()) => {},
                Err(m) => {
                    proof {
                        assert(Self::stored(
                            *old(self),
                            *self,
                            key,
                            sk,
                            result_hash,
                            source_position,
                            computation_time_us,
                            memory_used_bytes,
                            tex_operations,
                            deps,
                            est as int,
                            now_us,
                            evicted,
                            Err(m),
                        ));
                    }
                    return Err(m);
                },
            }
        } else {
            proof {
                assert(entry_keys(evicted) =~= Set::<CacheKey>::empty());
                assert(old(self).cached().remove_keys(entry_keys(evicted)) =~= old(self).cached());
            }
        }
        let now = now_us;
        let entry = MemoEntry {
            result_hash,
            dependencies: copy_dependencies(&dependencies),
            source_position,
            context_type: "tex_compilation".to_owned(),
            result_size_bytes: memory_used_bytes,
            computation_time_us,
            memory_used_bytes,
            tex_operations,
            timestamp: now,
            access_count: 0,
            last_access: now,
        };
        let ghost mid_entries = self.cache.entry_seq();
        let ghost stored = entry;
        let ghost evicts = self.cache.evicts_on_insert();
        proof {
            self.cache.lemma_no_tracked_usage();
            assert(mid_entries.len() == old(self).cache.entry_seq().len() - evicted.len());
            assert(evicts == old(self).cache_evicts_at(old(self).entries().len() - evicted.len()));
            lemma_key_index(mid_entries, key);
            if key_index(mid_entries, key) >= 0 {
                lemma_entry_sizes(mid_entries, key_index(mid_entries, key), (key, stored));
            }
            lemma_entry_sizes(mid_entries, 0, (key, stored));
            lemma_entry_sizes(Seq::<(CacheKey, MemoEntry)>::empty(), 0, (key, stored));
        }
        self.cache.insert(key, entry);
        self.spatial_index.insert(key, spatial_key);
        let ghost graph_mid = self.dependency_graph@;
        let ghost cache_now = self.cache;
        let ghost index_now = self.spatial_index;
        let ghost usage_now = self.current_memory_usage;
        let ghost stats_now = self.stats;
        let n = dependencies.len();
        let mut i: usize = 0;
        while i < n
            invariant
                n == dependencies@.len(),
                i <= n,
                self.cache == cache_now,
                self.spatial_index == index_now,
                self.current_memory_usage == usage_now,
                self.stats == stats_now,
                self.macro_tracker == old(self).macro_tracker,
                self.register_tracker == old(self).register_tracker,
                self.memory_limit == old(self).memory_limit,
                self.dependency_graph@ == graph_mid + Seq::new(i as nat, |t: int| (key, dependencies@[t]@)),
            decreases n - i,
        {
            self.dependency_graph.add_dependency(key, dependencies[i].duplicate());
            i = i + 1;
            assert(self.dependency_graph@ =~= graph_mid + Seq::new(i as nat, |t: int| (key, dependencies@[t]@)));
        }
        self.current_memory_usage = self.current_memory_usage + est;
        self.stats.record_store();
        proof {
            let mid = old(self).cached().remove_keys(entry_keys(evicted));
            let mid_graph = graph_without_entries(old(self).graph(), evicted);
            let mid_buckets = buckets_without_entries(old(self).index().buckets(), evicted);
            assert(old(self).memory_usage() + est <= old(self).memory_limit() ==> evicted.len() == 0);
            assert(old(self).memory_usage() + est > old(self).memory_limit() ==> lru_eviction(
                old(self).cached(), mid, evicted, est as nat));
            let e = self.cached()[key];
            assert(self.cached().contains_key(key));
            assert(e@ == (MemoEntryView {
                result_hash,
                dependencies: deps,
                source_position,
                context_type: "tex_compilation"@,
                result_size_bytes: memory_used_bytes,
                computation_time_us,
                memory_used_bytes,
                tex_operations,
                timestamp: now_us,
                access_count: 0,
                last_access: now_us,
            }));
            if evicts {
                assert(self.cached() =~= map![key => e]);
            } else {
                assert(self.cached() =~= mid.insert(key, e));
            }
            assert(self.graph() == mid_graph + Seq::new(deps.len(), |i: int| (key, deps[i])));
            assert(self.index().contents() == SpatialIndex::filed(mid_buckets, sk, key));
            assert(self.memory_usage() == old(self).memory_usage() - entry_sizes(evicted) + est);
            assert(Self::stored(
                *old(self),
                *self,
                key,
                sk,
                result_hash,
                source_position,
                computation_time_us,
                memory_used_bytes,
                tex_operations,
                deps,
                est as int,
                now_us,
                evicted,
                Ok(()),
            ));
        }
        Ok(())
    }

    /// Marks a paragraph boundary; the system keeps no state for it.
    pub fn notify_paragraph_break(&mut self, _position: usize)
        ensures
            *final(self) == *old(self),
    {
    }

    /// Marks a page boundary; the system keeps no state for it.
    pub fn notify_page_break(&mut self, _page_number: i32, _position: usize)
        ensures
            *final(self) == *old(self),
    {
    }
}

} // verus!
