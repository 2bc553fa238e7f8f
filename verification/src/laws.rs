//! Laws that relate several calls of the library: hashes that do not depend
//! on the order things were recorded in, state hashes that repeat, and what
//! a lookup finds after a store or an invalidation.
use vstd::prelude::*;
use crate::dependency::{CacheKey, DependencyKeyView, dependencies_of, dependents_of};
use crate::digests::spec_siphash13;
use crate::hashing::{
    dependency_lists_bytes, macro_record_bytes, named_i32_bytes, package_records, sha256_u128,
};
use crate::memo::{
    CacheMatchType, MemoEntry, MemoizationSystem, comprehensive_state_bytes, graph_without_entries,
    invalidated_keys, lemma_first_cached_is_cached, memo_hit,
};
use crate::registers::{GlueValue, RegisterTracker, RegisterValue, bank_bytes, write_changes};
use crate::hashing::HashInput;
use crate::macros::{MacroDefinitionView, MacroTracker, definition_texts};
use vstd::utf8::encode_utf8;
use crate::encoding::{enc_i32, enc_u128, lemma_enc_i32_injective, lemma_enc_u128_injective};
use crate::string_map::{
    StringMap, entries_map, key_le_rel, key_lt, keys_increasing, lemma_entries_map_contains,
    lemma_entries_map_index, lemma_key_le_total_ordering, lemma_sorted_entries_canonical,
    sorted_strings,
};
use crate::int_map::{int_entries_map, int_keys_increasing, lemma_int_entries_canonical, lemma_int_entries_map};

verus! {

/// Macro definitions hash the same whatever order they were recorded in:
/// two maps with the same definitions give the same hash.
pub proof fn law_macro_hash_ignores_definition_order(a: StringMap<String>, b: StringMap<String>)
    requires
        a.wf(),
        b.wf(),
        a.contents() == b.contents(),
    ensures
        sha256_u128(macro_record_bytes(a.entry_seq())) == sha256_u128(
            macro_record_bytes(b.entry_seq()),
        ),
{
    lemma_sorted_entries_canonical(a.entry_seq(), b.entry_seq());
}

/// Register parameters hash the same whatever order they were recorded in.
pub proof fn law_register_state_hash_ignores_order(
    ints_a: StringMap<i32>,
    dimens_a: StringMap<i32>,
    ints_b: StringMap<i32>,
    dimens_b: StringMap<i32>,
)
    requires
        ints_a.wf(),
        dimens_a.wf(),
        ints_b.wf(),
        dimens_b.wf(),
        ints_a.contents() == ints_b.contents(),
        dimens_a.contents() == dimens_b.contents(),
    ensures
        spec_siphash13(named_i32_bytes(ints_a.entry_seq()) + named_i32_bytes(dimens_a.entry_seq()))
            == spec_siphash13(
            named_i32_bytes(ints_b.entry_seq()) + named_i32_bytes(dimens_b.entry_seq()),
        ),
{
    lemma_sorted_entries_canonical(ints_a.entry_seq(), ints_b.entry_seq());
    lemma_sorted_entries_canonical(dimens_a.entry_seq(), dimens_b.entry_seq());
}

/// Key-sorted entry sequences over the same keys carry those keys in the
/// same places.
proof fn lemma_same_keys_same_places<V>(a: Seq<(Seq<char>, V)>, b: Seq<(Seq<char>, V)>)
    requires
        keys_increasing(a),
        keys_increasing(b),
        entries_map(a).dom() == entries_map(b).dom(),
    ensures
        a.len() == b.len(),
        forall|i: int| 0 <= i < a.len() ==> #[trigger] a[i].0 == b[i].0,
{
    let ka = a.map_values(|e: (Seq<char>, V)| (e.0, 0u8));
    let kb = b.map_values(|e: (Seq<char>, V)| (e.0, 0u8));
    assert(keys_increasing(ka)) by {
        assert forall|i: int, j: int| 0 <= i < j < ka.len() implies key_lt(#[trigger] ka[i].0, #[trigger] ka[j].0) by {
            assert(ka[i].0 == a[i].0 && ka[j].0 == a[j].0);
        }
    }
    assert(keys_increasing(kb)) by {
        assert forall|i: int, j: int| 0 <= i < j < kb.len() implies key_lt(#[trigger] kb[i].0, #[trigger] kb[j].0) by {
            assert(kb[i].0 == b[i].0 && kb[j].0 == b[j].0);
        }
    }
    lemma_entries_map_index(ka);
    lemma_entries_map_index(kb);
    assert forall|k: Seq<char>| #[trigger] entries_map(ka).contains_key(k) == entries_map(kb).contains_key(k) by {
        lemma_entries_map_contains(ka, k);
        lemma_entries_map_contains(kb, k);
        lemma_entries_map_contains(a, k);
        lemma_entries_map_contains(b, k);
        if exists|i: int| 0 <= i < ka.len() && #[trigger] ka[i].0 == k {
            let i = choose|i: int| 0 <= i < ka.len() && #[trigger] ka[i].0 == k;
            assert(a[i].0 == k);
            assert(entries_map(b).contains_key(k));
            let j = choose|j: int| 0 <= j < b.len() && #[trigger] b[j].0 == k;
            assert(kb[j].0 == k);
        }
        if exists|i: int| 0 <= i < kb.len() && #[trigger] kb[i].0 == k {
            let i = choose|i: int| 0 <= i < kb.len() && #[trigger] kb[i].0 == k;
            assert(b[i].0 == k);
            assert(entries_map(a).contains_key(k));
            let j = choose|j: int| 0 <= j < a.len() && #[trigger] a[j].0 == k;
            assert(ka[j].0 == k);
        }
    }
    assert forall|k: Seq<char>| #[trigger] entries_map(ka).contains_key(k) implies entries_map(ka)[k] == entries_map(kb)[k] by {
        lemma_entries_map_contains(ka, k);
        lemma_entries_map_contains(kb, k);
        let i = choose|i: int| 0 <= i < ka.len() && #[trigger] ka[i].0 == k;
        let j = choose|j: int| 0 <= j < kb.len() && #[trigger] kb[j].0 == k;
    }
    assert(entries_map(ka) =~= entries_map(kb));
    lemma_sorted_entries_canonical(ka, kb);
    assert forall|i: int| 0 <= i < a.len() implies #[trigger] a[i].0 == b[i].0 by {
        assert(ka[i].0 == a[i].0);
        assert(kb[i].0 == b[i].0);
    }
}

/// Dependency lists that agree name by name, up to the order of each
/// list, give the same bytes.
proof fn lemma_dependency_bytes_up_to_order(
    a: Seq<(Seq<char>, Seq<Seq<char>>)>,
    b: Seq<(Seq<char>, Seq<Seq<char>>)>,
)
    requires
        a.len() == b.len(),
        forall|i: int| 0 <= i < a.len() ==> #[trigger] a[i].0 == b[i].0 && sorted_strings(a[i].1)
            == sorted_strings(b[i].1),
    ensures
        dependency_lists_bytes(a) == dependency_lists_bytes(b),
    decreases a.len(),
{
    if a.len() > 0 {
        let n = a.len() - 1;
        assert forall|i: int| 0 <= i < a.drop_last().len() implies #[trigger] a.drop_last()[i].0 == b.drop_last()[i].0
            && sorted_strings(a.drop_last()[i].1) == sorted_strings(b.drop_last()[i].1) by {
            assert(a.drop_last()[i] == a[i]);
            assert(b.drop_last()[i] == b[i]);
        }
        lemma_dependency_bytes_up_to_order(a.drop_last(), b.drop_last());
        assert(a[n].0 == b[n].0);
    }
}

/// Counter states hash the same whatever order the counters, auxiliary
/// counters and dependency lists were recorded in, and whatever order each
/// counter's dependencies were listed in: the same counters, the same
/// auxiliary counters, and for each counter the same dependencies counted
/// with repetition give the same hash.
pub proof fn law_counter_hash_ignores_order(
    counters_a: StringMap<i32>,
    aux_a: StringMap<i32>,
    deps_a: StringMap<Vec<String>>,
    counters_b: StringMap<i32>,
    aux_b: StringMap<i32>,
    deps_b: StringMap<Vec<String>>,
)
    requires
        counters_a.wf(),
        aux_a.wf(),
        deps_a.wf(),
        counters_b.wf(),
        aux_b.wf(),
        deps_b.wf(),
        counters_a.contents() == counters_b.contents(),
        aux_a.contents() == aux_b.contents(),
        deps_a.contents().dom() == deps_b.contents().dom(),
        forall|k: Seq<char>| #[trigger] deps_a.contents().contains_key(k) ==> deps_a.contents()[k].to_multiset()
            == deps_b.contents()[k].to_multiset(),
    ensures
        spec_siphash13(
            named_i32_bytes(counters_a.entry_seq()) + named_i32_bytes(aux_a.entry_seq())
                + dependency_lists_bytes(deps_a.entry_seq()),
        ) == spec_siphash13(
            named_i32_bytes(counters_b.entry_seq()) + named_i32_bytes(aux_b.entry_seq())
                + dependency_lists_bytes(deps_b.entry_seq()),
        ),
{
    lemma_sorted_entries_canonical(counters_a.entry_seq(), counters_b.entry_seq());
    lemma_sorted_entries_canonical(aux_a.entry_seq(), aux_b.entry_seq());
    let a = deps_a.entry_seq();
    let b = deps_b.entry_seq();
    lemma_same_keys_same_places(a, b);
    lemma_entries_map_index(a);
    lemma_entries_map_index(b);
    lemma_key_le_total_ordering();
    assert forall|i: int| 0 <= i < a.len() implies #[trigger] a[i].0 == b[i].0 && sorted_strings(a[i].1)
        == sorted_strings(b[i].1) by {
        assert(a[i].0 == b[i].0);
        assert(deps_a.contents().contains_key(a[i].0));
        a[i].1.lemma_sort_by_ensures(key_le_rel());
        b[i].1.lemma_sort_by_ensures(key_le_rel());
        vstd::seq_lib::lemma_sorted_unique(
            a[i].1.sort_by(key_le_rel()),
            b[i].1.sort_by(key_le_rel()),
            key_le_rel(),
        );
    }
    lemma_dependency_bytes_up_to_order(a, b);
}

/// The package state hashes the same whatever order the packages were
/// loaded in: the same packages, counted with repetition, and the same
/// versions give the same hash.
pub proof fn law_package_hash_ignores_load_order(
    packages_a: Seq<Seq<char>>,
    packages_b: Seq<Seq<char>>,
    versions: Map<Seq<char>, Seq<char>>,
)
    requires
        packages_a.to_multiset() == packages_b.to_multiset(),
    ensures
        sha256_u128(package_records(sorted_strings(packages_a), versions)) == sha256_u128(
            package_records(sorted_strings(packages_b), versions),
        ),
{
    lemma_key_le_total_ordering();
    packages_a.lemma_sort_by_ensures(key_le_rel());
    packages_b.lemma_sort_by_ensures(key_le_rel());
    vstd::seq_lib::lemma_sorted_unique(
        packages_a.sort_by(key_le_rel()),
        packages_b.sort_by(key_le_rel()),
        key_le_rel(),
    );
}

/// A register snapshot hashes the registers alone: two trackers whose
/// banks hold the same registers take snapshots of the same bytes, however
/// the registers came to be written.
pub proof fn law_snapshot_depends_only_on_registers(a: RegisterTracker, b: RegisterTracker)
    requires
        a.count_registers.sorted(),
        a.dimen_registers.sorted(),
        a.skip_registers.sorted(),
        a.glue_registers.sorted(),
        b.count_registers.sorted(),
        b.dimen_registers.sorted(),
        b.skip_registers.sorted(),
        b.glue_registers.sorted(),
        a.count_registers.contents() == b.count_registers.contents(),
        a.dimen_registers.contents() == b.dimen_registers.contents(),
        a.skip_registers.contents() == b.skip_registers.contents(),
        a.glue_registers.contents() == b.glue_registers.contents(),
    ensures
        a.snapshot_bytes() == b.snapshot_bytes(),
{
    lemma_int_entries_canonical(a.count_registers.entry_seq(), b.count_registers.entry_seq());
    lemma_int_entries_canonical(a.dimen_registers.entry_seq(), b.dimen_registers.entry_seq());
    lemma_int_entries_canonical(a.skip_registers.entry_seq(), b.skip_registers.entry_seq());
    lemma_int_entries_canonical(a.glue_registers.entry_seq(), b.glue_registers.entry_seq());
}

/// The comprehensive state hash repeats: taking it leaves the macro state
/// and the registers as they were, so taking it again gives the same value.
pub proof fn law_state_hash_repeats(first: MemoizationSystem, second: MemoizationSystem, h: u128)
    requires
        RegisterTracker::snapshot_taken(first.registers(), second.registers(), h),
        second.macros() == first.macros(),
    ensures
        spec_siphash13(
            comprehensive_state_bytes(
                second.macros().macro_state_hash,
                spec_siphash13(second.registers().snapshot_bytes()),
            ),
        ) == spec_siphash13(
            comprehensive_state_bytes(
                first.macros().macro_state_hash,
                spec_siphash13(first.registers().snapshot_bytes()),
            ),
        ),
{
}

/// A key that an edge records is among the dependents of that edge's
/// dependency.
proof fn lemma_edge_is_listed(edges: Seq<(CacheKey, DependencyKeyView)>, i: int)
    requires
        0 <= i < edges.len(),
    ensures
        dependents_of(edges, edges[i].1).contains(edges[i].0),
    decreases edges.len(),
{
    let d = edges[i].1;
    let rest = dependents_of(edges.drop_last(), d);
    if i == edges.len() - 1 {
        assert(rest.push(edges[i].0)[rest.len() as int] == edges[i].0);
    } else {
        lemma_edge_is_listed(edges.drop_last(), i);
        assert(edges.drop_last()[i] == edges[i]);
        let w = choose|t: int| 0 <= t < rest.len() && rest[t] == edges[i].0;
        if edges.last().1 == d {
            assert(rest.push(edges.last().0)[w] == edges[i].0);
        }
    }
}

/// What a successful store wrote, a lookup of the same key reads back: the
/// entry is an exact hit, with the stored result, dependencies and source
/// position; one more store is counted (where the counter has room); the key is among the dependents of
/// each of its dependencies; and a system within its memory limit stays
/// within it.
pub proof fn law_stored_entry_is_found(
    before: MemoizationSystem,
    after: MemoizationSystem,
    key: CacheKey,
    spatial_key: Seq<char>,
    result_hash: u128,
    source_position: usize,
    computation_time_us: u64,
    memory_used_bytes: usize,
    tex_operations: u32,
    dependencies: Seq<DependencyKeyView>,
    est: int,
    now_us: u64,
    evicted: Seq<(CacheKey, MemoEntry)>,
    candidates: Seq<(CacheKey, CacheMatchType)>,
)
    requires
        MemoizationSystem::stored(
            before,
            after,
            key,
            spatial_key,
            result_hash,
            source_position,
            computation_time_us,
            memory_used_bytes,
            tex_operations,
            dependencies,
            est,
            now_us,
            evicted,
            Ok(()),
        ),
    ensures
        memo_hit(after.cached(), key, candidates) == Some((key, CacheMatchType::Exact)),
        after.cached()[key]@.result_hash == result_hash,
        after.cached()[key]@.dependencies == dependencies,
        after.cached()[key]@.source_position == source_position,
        before.counters().stores < usize::MAX ==> after.counters().stores == before.counters().stores + 1,
        forall|j: int| 0 <= j < dependencies.len() ==> dependents_of(after.graph(), #[trigger] dependencies[j]).contains(key),
        before.memory_usage() <= before.memory_limit() ==> after.memory_usage() <= after.memory_limit(),
{
    let mid_graph = graph_without_entries(before.graph(), evicted);
    let tail = Seq::new(dependencies.len(), |t: int| (key, dependencies[t]));
    assert forall|j: int| 0 <= j < dependencies.len() implies dependents_of(after.graph(), #[trigger] dependencies[j]).contains(key) by {
        let g = after.graph();
        assert(g == mid_graph + tail);
        assert(g[mid_graph.len() + j] == (key, dependencies[j]));
        lemma_edge_is_listed(g, mid_graph.len() + j);
    }
}

/// The keys a list of changes invalidates include every key recorded
/// against any one of the changes.
pub proof fn lemma_invalidated_keys_cover(
    graph: Seq<(CacheKey, DependencyKeyView)>,
    changed: Seq<DependencyKeyView>,
    i: int,
    k: CacheKey,
)
    requires
        0 <= i < changed.len(),
        dependents_of(graph, changed[i]).contains(k),
    ensures
        invalidated_keys(graph, changed).contains(k),
    decreases changed.len(),
{
    let rest = invalidated_keys(graph, changed.drop_last());
    let last = dependents_of(graph, changed.last());
    assert(invalidated_keys(graph, changed) == rest + last);
    if i < changed.len() - 1 {
        assert(changed.drop_last()[i] == changed[i]);
        lemma_invalidated_keys_cover(graph, changed.drop_last(), i, k);
        let t = choose|t: int| 0 <= t < rest.len() && rest[t] == k;
        assert((rest + last)[t] == k);
    } else {
        let t = choose|t: int| 0 <= t < last.len() && last[t] == k;
        assert((rest + last)[rest.len() + t] == k);
    }
}

/// After an invalidation, no entry recorded against a changed dependency
/// is found.
pub proof fn law_invalidated_entries_are_gone(
    graph: Seq<(CacheKey, DependencyKeyView)>,
    changed: Seq<DependencyKeyView>,
    before: Map<CacheKey, MemoEntry>,
    after: Map<CacheKey, MemoEntry>,
    i: int,
    k: CacheKey,
    candidates: Seq<(CacheKey, CacheMatchType)>,
)
    requires
        after == before.remove_keys(invalidated_keys(graph, changed).to_set()),
        0 <= i < changed.len(),
        dependents_of(graph, changed[i]).contains(k),
    ensures
        !after.contains_key(k),
        memo_hit(after, k, candidates) matches Some(h) ==> h.0 != k,
{
    lemma_invalidated_keys_cover(graph, changed, i, k);
    lemma_first_cached_is_cached(after, candidates);
}

/// A recorded dependency is listed: after recording that `key` read `dep`,
/// `key` is the last of the keys depending on `dep`, and `dep` the last of
/// the dependencies of `key`.
pub proof fn law_recorded_dependency_is_listed(
    edges: Seq<(CacheKey, DependencyKeyView)>,
    key: CacheKey,
    dep: DependencyKeyView,
)
    ensures
        dependents_of(edges.push((key, dep)), dep) == dependents_of(edges, dep).push(key),
        dependencies_of(edges.push((key, dep)), key) == dependencies_of(edges, key).push(dep),
{
    assert(edges.push((key, dep)).drop_last() =~= edges);
}

/// The register numbers and value hashes of a bank's entries, in order.
pub open spec fn bank_records<T>(s: Seq<(i32, RegisterValue<T>)>) -> Seq<(i32, u128)> {
    s.map_values(|e: (i32, RegisterValue<T>)| (e.0, e.1.value_hash))
}

/// Two banks hold the same registers, each with the same value hash.
pub open spec fn same_value_hashes<T>(a: Map<i32, RegisterValue<T>>, b: Map<i32, RegisterValue<T>>) -> bool {
    &&& a.dom() == b.dom()
    &&& forall|k: i32| #[trigger] a.contains_key(k) ==> a[k].value_hash == b[k].value_hash
}

/// Each register of a bank takes twenty bytes of a snapshot.
proof fn lemma_bank_bytes_len<T>(s: Seq<(i32, RegisterValue<T>)>)
    ensures
        bank_bytes(s).len() == 20 * s.len(),
    decreases s.len(),
{
    if s.len() > 0 {
        lemma_bank_bytes_len(s.drop_last());
        lemma_enc_i32_injective(s.last().0, s.last().0);
        lemma_enc_u128_injective(s.last().1.value_hash, s.last().1.value_hash);
    }
}

/// A bank's snapshot bytes are determined by its records, and determine
/// them.
proof fn lemma_bank_bytes_records<T>(s: Seq<(i32, RegisterValue<T>)>, t: Seq<(i32, RegisterValue<T>)>)
    ensures
        bank_bytes(s) == bank_bytes(t) <==> bank_records(s) == bank_records(t),
    decreases s.len(),
{
    lemma_bank_bytes_len(s);
    lemma_bank_bytes_len(t);
    if s.len() == 0 || t.len() == 0 {
        if bank_records(s) == bank_records(t) {
            assert(bank_records(s).len() == s.len());
        }
        if s.len() == 0 && t.len() == 0 {
            assert(bank_records(s) =~= bank_records(t));
        }
    } else {
        let (s0, t0) = (s.drop_last(), t.drop_last());
        lemma_bank_bytes_records(s0, t0);
        lemma_bank_bytes_len(s0);
        lemma_bank_bytes_len(t0);
        let (ks, kt) = (s.last().0, t.last().0);
        let (hs, ht) = (s.last().1.value_hash, t.last().1.value_hash);
        lemma_enc_i32_injective(ks, kt);
        lemma_enc_u128_injective(hs, ht);
        lemma_enc_u128_injective(ht, hs);
        lemma_enc_i32_injective(kt, ks);
        assert(bank_records(s) =~= bank_records(s0).push((ks, hs)));
        assert(bank_records(t) =~= bank_records(t0).push((kt, ht)));
        let bs = bank_bytes(s);
        let bt = bank_bytes(t);
        assert(bs == bank_bytes(s0) + enc_i32(ks) + enc_u128(hs));
        assert(bt == bank_bytes(t0) + enc_i32(kt) + enc_u128(ht));
        if bs == bt {
            let n: int = 20 * s0.len() as int;
            assert(s0.len() == t0.len());
            assert(bs.subrange(0, n) =~= bank_bytes(s0));
            assert(bt.subrange(0, n) =~= bank_bytes(t0));
            assert(bs.subrange(n, n + 4) =~= enc_i32(ks));
            assert(bt.subrange(n, n + 4) =~= enc_i32(kt));
            assert(bs.subrange(n + 4, n + 20) =~= enc_u128(hs));
            assert(bt.subrange(n + 4, n + 20) =~= enc_u128(ht));
        }
        if bank_records(s) == bank_records(t) {
            assert(bank_records(s).drop_last() =~= bank_records(s0));
            assert(bank_records(t).drop_last() =~= bank_records(t0));
            assert(bank_records(s).last() == (ks, hs));
            assert(bank_records(t).last() == (kt, ht));
        }
    }
}

/// For key-sorted banks, equal records are the same registers with the
/// same value hashes.
proof fn lemma_records_hashes<T>(s: Seq<(i32, RegisterValue<T>)>, t: Seq<(i32, RegisterValue<T>)>)
    requires
        int_keys_increasing(s),
        int_keys_increasing(t),
    ensures
        bank_records(s) == bank_records(t) <==> same_value_hashes(int_entries_map(s), int_entries_map(t)),
{
    let rs = bank_records(s);
    let rt = bank_records(t);
    lemma_int_entries_map(s);
    lemma_int_entries_map(t);
    assert(int_keys_increasing(rs)) by {
        assert forall|i: int, j: int| 0 <= i < j < rs.len() implies #[trigger] rs[i].0 < #[trigger] rs[j].0 by {
            assert(rs[i].0 == s[i].0 && rs[j].0 == s[j].0);
        }
    }
    assert(int_keys_increasing(rt)) by {
        assert forall|i: int, j: int| 0 <= i < j < rt.len() implies #[trigger] rt[i].0 < #[trigger] rt[j].0 by {
            assert(rt[i].0 == t[i].0 && rt[j].0 == t[j].0);
        }
    }
    lemma_int_entries_map(rs);
    lemma_int_entries_map(rt);
    let ms = int_entries_map(s);
    let mt = int_entries_map(t);
    if rs == rt {
        assert forall|k: i32| ms.contains_key(k) <==> mt.contains_key(k) by {
            if ms.contains_key(k) {
                let i = choose|i: int| 0 <= i < s.len() && #[trigger] s[i].0 == k;
                assert(rs[i].0 == k && rt[i].0 == t[i].0);
            }
            if mt.contains_key(k) {
                let i = choose|i: int| 0 <= i < t.len() && #[trigger] t[i].0 == k;
                assert(rt[i].0 == k && rs[i].0 == s[i].0);
            }
        }
        assert(ms.dom() =~= mt.dom());
        assert forall|k: i32| #[trigger] ms.contains_key(k) implies ms[k].value_hash == mt[k].value_hash by {
            let i = choose|i: int| 0 <= i < s.len() && #[trigger] s[i].0 == k;
            assert(rs[i] == rt[i]);
            assert(t[i].0 == k);
        }
    }
    if same_value_hashes(ms, mt) {
        let mrs = int_entries_map(rs);
        let mrt = int_entries_map(rt);
        assert forall|k: i32| mrs.contains_key(k) <==> mrt.contains_key(k) by {
            if mrs.contains_key(k) {
                let i = choose|i: int| 0 <= i < rs.len() && #[trigger] rs[i].0 == k;
                assert(s[i].0 == k);
                assert(ms.contains_key(k));
                let j = choose|j: int| 0 <= j < t.len() && #[trigger] t[j].0 == k;
                assert(rt[j].0 == k);
            }
            if mrt.contains_key(k) {
                let i = choose|i: int| 0 <= i < rt.len() && #[trigger] rt[i].0 == k;
                assert(t[i].0 == k);
                assert(mt.contains_key(k));
                let j = choose|j: int| 0 <= j < s.len() && #[trigger] s[j].0 == k;
                assert(rs[j].0 == k);
            }
        }
        assert forall|k: i32| #[trigger] mrs.contains_key(k) implies mrs[k] == mrt[k] by {
            let i = choose|i: int| 0 <= i < rs.len() && #[trigger] rs[i].0 == k;
            assert(s[i].0 == k);
            assert(ms.contains_key(k));
            let j = choose|j: int| 0 <= j < t.len() && #[trigger] t[j].0 == k;
            assert(rt[j].0 == k);
            assert(mrs[rs[i].0] == rs[i].1);
            assert(mrt[rt[j].0] == rt[j].1);
        }
        assert(mrs =~= mrt);
        lemma_int_entries_canonical(rs, rt);
    }
}

/// A register snapshot reads every register bank: where two trackers'
/// snapshots are the same bytes and three of the four banks (count, dimen,
/// skip and glue) hold the same registers with the same value hashes, so
/// does the fourth.
pub proof fn law_snapshot_reads_every_bank(a: RegisterTracker, b: RegisterTracker)
    requires
        a.count_registers.sorted(),
        a.dimen_registers.sorted(),
        a.skip_registers.sorted(),
        a.glue_registers.sorted(),
        b.count_registers.sorted(),
        b.dimen_registers.sorted(),
        b.skip_registers.sorted(),
        b.glue_registers.sorted(),
        a.snapshot_bytes() == b.snapshot_bytes(),
    ensures
        same_value_hashes(a.count_registers.contents(), b.count_registers.contents())
            && same_value_hashes(a.dimen_registers.contents(), b.dimen_registers.contents())
            && same_value_hashes(a.glue_registers.contents(), b.glue_registers.contents())
            ==> same_value_hashes(a.skip_registers.contents(), b.skip_registers.contents()),
        same_value_hashes(a.dimen_registers.contents(), b.dimen_registers.contents())
            && same_value_hashes(a.skip_registers.contents(), b.skip_registers.contents())
            && same_value_hashes(a.glue_registers.contents(), b.glue_registers.contents())
            ==> same_value_hashes(a.count_registers.contents(), b.count_registers.contents()),
        same_value_hashes(a.count_registers.contents(), b.count_registers.contents())
            && same_value_hashes(a.skip_registers.contents(), b.skip_registers.contents())
            && same_value_hashes(a.glue_registers.contents(), b.glue_registers.contents())
            ==> same_value_hashes(a.dimen_registers.contents(), b.dimen_registers.contents()),
        same_value_hashes(a.count_registers.contents(), b.count_registers.contents())
            && same_value_hashes(a.dimen_registers.contents(), b.dimen_registers.contents())
            && same_value_hashes(a.skip_registers.contents(), b.skip_registers.contents())
            ==> same_value_hashes(a.glue_registers.contents(), b.glue_registers.contents()),
{
    let (ca, da, sa, ga) = (
        a.count_registers.entry_seq(),
        a.dimen_registers.entry_seq(),
        a.skip_registers.entry_seq(),
        a.glue_registers.entry_seq(),
    );
    let (cb, db, sb, gb) = (
        b.count_registers.entry_seq(),
        b.dimen_registers.entry_seq(),
        b.skip_registers.entry_seq(),
        b.glue_registers.entry_seq(),
    );
    lemma_records_hashes(ca, cb);
    lemma_records_hashes(da, db);
    lemma_records_hashes(sa, sb);
    lemma_records_hashes(ga, gb);
    lemma_bank_bytes_records(ca, cb);
    lemma_bank_bytes_records(da, db);
    lemma_bank_bytes_records(sa, sb);
    lemma_bank_bytes_records(ga, gb);
    let (xc, xd, xs, xg) = (bank_bytes(ca), bank_bytes(da), bank_bytes(sa), bank_bytes(ga));
    let (yc, yd, ys, yg) = (bank_bytes(cb), bank_bytes(db), bank_bytes(sb), bank_bytes(gb));
    let x = a.snapshot_bytes();
    assert(x == xc + xd + xs + xg);
    assert(b.snapshot_bytes() == yc + yd + ys + yg);
    let (lc, ld, ls, lg) = (xc.len() as int, xd.len() as int, xs.len() as int, xg.len() as int);
    let (mc, md, ms, mg) = (yc.len() as int, yd.len() as int, ys.len() as int, yg.len() as int);
    assert(x.len() == lc + ld + ls + lg);
    if xc == yc && xd == yd && xg == yg {
        assert(x.subrange(lc + ld, lc + ld + ls) =~= xs);
        assert(x.subrange(mc + md, mc + md + ms) =~= ys);
    }
    if xd == yd && xs == ys && xg == yg {
        assert(x.subrange(0, lc) =~= xc);
        assert(x.subrange(0, mc) =~= yc);
    }
    if xc == yc && xs == ys && xg == yg {
        assert(x.subrange(lc, lc + ld) =~= xd);
        assert(x.subrange(mc, mc + md) =~= yd);
    }
    if xc == yc && xd == yd && xs == ys {
        assert(x.subrange(lc + ld + ls, x.len() as int) =~= xg);
        assert(x.subrange(mc + md + ms, x.len() as int) =~= yg);
    }
}

/// Writing a register so that its value hash changes (or that it is new)
/// changes the bytes its banks' snapshot reads, and so the register state
/// that the snapshot hash is taken over: shown here for a skip register.
pub proof fn law_skip_write_changes_snapshot(
    before: RegisterTracker,
    after: RegisterTracker,
    register: i32,
    value: GlueValue,
    source_position: Option<usize>,
    now_us: u64,
)
    requires
        before.count_registers.sorted(),
        before.dimen_registers.sorted(),
        before.skip_registers.sorted(),
        before.glue_registers.sorted(),
        after.count_registers.sorted(),
        after.dimen_registers.sorted(),
        after.skip_registers.sorted(),
        after.glue_registers.sorted(),
        RegisterTracker::sets_skip(before, after, register, value, source_position, now_us),
        write_changes(before.skip_registers.contents(), register, spec_siphash13(value.hash_bytes())),
    ensures
        before.snapshot_bytes() != after.snapshot_bytes(),
{
    if before.snapshot_bytes() == after.snapshot_bytes() {
        law_snapshot_reads_every_bank(before, after);
        assert(after.skip_registers.contents().contains_key(register));
    }
}

/// The same for a count register.
pub proof fn law_count_write_changes_snapshot(
    before: RegisterTracker,
    after: RegisterTracker,
    register: i32,
    value: i32,
    source_position: Option<usize>,
    now_us: u64,
)
    requires
        before.count_registers.sorted(),
        before.dimen_registers.sorted(),
        before.skip_registers.sorted(),
        before.glue_registers.sorted(),
        after.count_registers.sorted(),
        after.dimen_registers.sorted(),
        after.skip_registers.sorted(),
        after.glue_registers.sorted(),
        RegisterTracker::sets_count(before, after, register, value, source_position, now_us),
        write_changes(before.count_registers.contents(), register, spec_siphash13(enc_i32(value))),
    ensures
        before.snapshot_bytes() != after.snapshot_bytes(),
{
    if before.snapshot_bytes() == after.snapshot_bytes() {
        law_snapshot_reads_every_bank(before, after);
        assert(after.count_registers.contents().contains_key(register));
    }
}

/// The same for a dimen register.
pub proof fn law_dimen_write_changes_snapshot(
    before: RegisterTracker,
    after: RegisterTracker,
    register: i32,
    value: i32,
    source_position: Option<usize>,
    now_us: u64,
)
    requires
        before.count_registers.sorted(),
        before.dimen_registers.sorted(),
        before.skip_registers.sorted(),
        before.glue_registers.sorted(),
        after.count_registers.sorted(),
        after.dimen_registers.sorted(),
        after.skip_registers.sorted(),
        after.glue_registers.sorted(),
        RegisterTracker::sets_dimen(before, after, register, value, source_position, now_us),
        write_changes(before.dimen_registers.contents(), register, spec_siphash13(enc_i32(value))),
    ensures
        before.snapshot_bytes() != after.snapshot_bytes(),
{
    if before.snapshot_bytes() == after.snapshot_bytes() {
        law_snapshot_reads_every_bank(before, after);
        assert(after.dimen_registers.contents().contains_key(register));
    }
}

/// The bytes of records concatenated are the records' bytes concatenated.
proof fn lemma_record_bytes_concat(x: Seq<(Seq<char>, Seq<char>)>, y: Seq<(Seq<char>, Seq<char>)>)
    ensures
        macro_record_bytes(x + y) == macro_record_bytes(x) + macro_record_bytes(y),
    decreases y.len(),
{
    if y.len() == 0 {
        assert(x + y =~= x);
    } else {
        lemma_record_bytes_concat(x, y.drop_last());
        assert((x + y).drop_last() =~= x + y.drop_last());
        assert((x + y).last() == y.last());
    }
}

/// The macro state hash is taken over one `name=body;` record for every
/// definition, in name order: after a definition there is a list of records,
/// one per defined macro carrying that macro's name and body, whose bytes the
/// state hash is the SHA-256 prefix of.
pub proof fn law_macro_state_hash_covers_every_definition(
    before: MacroTracker,
    after: MacroTracker,
    name: Seq<char>,
    definition: Seq<char>,
    param_count: u8,
    now_us: u64,
)
    requires
        MacroTracker::defines(before, after, name, definition, param_count, now_us),
    ensures
        exists|records: Seq<(Seq<char>, Seq<char>)>|
            {
                &&& records.len() == after.macro_definitions.entry_seq().len()
                &&& forall|i: int|
                    0 <= i < records.len() ==> #[trigger] records[i] == (
                        after.macro_definitions.entry_seq()[i].0,
                        after.macro_definitions.entry_seq()[i].1.definition,
                    )
                &&& after.macro_state_hash == sha256_u128(macro_record_bytes(records))
            },
{
    let records = definition_texts(after.macro_definitions.entry_seq());
    assert(records.len() == after.macro_definitions.entry_seq().len());
    assert(forall|i: int|
        0 <= i < records.len() ==> #[trigger] records[i] == (
            after.macro_definitions.entry_seq()[i].0,
            after.macro_definitions.entry_seq()[i].1.definition,
        ));
}

/// The bytes the macro state hash is taken over tell a redefinition apart:
/// two lists of definitions with the same names in the same order, whose
/// bodies agree but at one place where they differ, give different bytes.
pub proof fn law_macro_state_bytes_see_each_body(
    a: Seq<(Seq<char>, MacroDefinitionView)>,
    b: Seq<(Seq<char>, MacroDefinitionView)>,
    i: int,
)
    requires
        a.len() == b.len(),
        0 <= i < a.len(),
        forall|j: int| 0 <= j < a.len() ==> #[trigger] a[j].0 == b[j].0,
        forall|j: int| 0 <= j < a.len() && j != i ==> #[trigger] a[j].1.definition == b[j].1.definition,
        a[i].1.definition != b[i].1.definition,
    ensures
        macro_record_bytes(definition_texts(a)) != macro_record_bytes(definition_texts(b)),
{
    let ta = definition_texts(a);
    let tb = definition_texts(b);
    let (pa, pb) = (ta.subrange(0, i), tb.subrange(0, i));
    let (sa, sb) = (ta.subrange(i + 1, ta.len() as int), tb.subrange(i + 1, tb.len() as int));
    assert(pa =~= pb);
    assert(sa =~= sb);
    assert(ta =~= pa + seq![ta[i]] + sa);
    assert(tb =~= pb + seq![tb[i]] + sb);
    lemma_record_bytes_concat(pa + seq![ta[i]], sa);
    lemma_record_bytes_concat(pa, seq![ta[i]]);
    lemma_record_bytes_concat(pb + seq![tb[i]], sb);
    lemma_record_bytes_concat(pb, seq![tb[i]]);
    let n = encode_utf8(a[i].0);
    let da = encode_utf8(a[i].1.definition);
    let db = encode_utf8(b[i].1.definition);
    assert(seq![ta[i]].drop_last() =~= Seq::<(Seq<char>, Seq<char>)>::empty());
    assert(seq![tb[i]].drop_last() =~= Seq::<(Seq<char>, Seq<char>)>::empty());
    let p = macro_record_bytes(pa);
    let q = macro_record_bytes(sa);
    let xa = p + (n + seq![61u8] + da + seq![59u8]) + q;
    let xb = p + (n + seq![61u8] + db + seq![59u8]) + q;
    assert(ta[i] == (a[i].0, a[i].1.definition));
    assert(tb[i] == (b[i].0, b[i].1.definition));
    assert(a[i].0 == b[i].0);
    assert(macro_record_bytes(Seq::<(Seq<char>, Seq<char>)>::empty()) =~= Seq::<u8>::empty());
    assert(macro_record_bytes(seq![ta[i]]) =~= n + seq![61u8] + da + seq![59u8]);
    assert(macro_record_bytes(seq![tb[i]]) =~= n + seq![61u8] + db + seq![59u8]);
    assert(macro_record_bytes(ta) =~= xa);
    assert(macro_record_bytes(tb) =~= xb);
    if xa == xb {
        assert(xa.len() == p.len() + n.len() + 1 + da.len() + 1 + q.len());
        assert(xb.len() == p.len() + n.len() + 1 + db.len() + 1 + q.len());
        assert(da.len() == db.len());
        let start: int = p.len() + n.len() + 1int;
        assert(xa.subrange(start, start + da.len() as int) =~= da);
        assert(xb.subrange(start, start + db.len() as int) =~= db);
        vstd::utf8::encode_utf8_decode_utf8(a[i].1.definition);
        vstd::utf8::encode_utf8_decode_utf8(b[i].1.definition);
    }
}

/// Redefining a macro with a different body changes the bytes that the
/// macro state hash is taken over.
pub proof fn law_redefinition_changes_macro_state_bytes(
    before: MacroTracker,
    after: MacroTracker,
    name: Seq<char>,
    definition: Seq<char>,
    param_count: u8,
    now_us: u64,
)
    requires
        before.wf(),
        after.wf(),
        MacroTracker::defines(before, after, name, definition, param_count, now_us),
        before.macro_definitions.contents().contains_key(name),
        before.macro_definitions.contents()[name].definition != definition,
    ensures
        macro_record_bytes(definition_texts(before.macro_definitions.entry_seq())) != macro_record_bytes(
            definition_texts(after.macro_definitions.entry_seq()),
        ),
{
    let a = before.macro_definitions.entry_seq();
    let b = after.macro_definitions.entry_seq();
    assert(entries_map(a).dom() =~= entries_map(b).dom());
    lemma_same_keys_same_places(a, b);
    lemma_entries_map_index(a);
    lemma_entries_map_index(b);
    lemma_entries_map_contains(a, name);
    let i = choose|i: int| 0 <= i < a.len() && #[trigger] a[i].0 == name;
    assert forall|j: int| 0 <= j < a.len() && j != i implies #[trigger] a[j].1.definition == b[j].1.definition by {
        crate::string_map::lemma_key_lt_irreflexive(name);
        if a[j].0 == name {
            if j < i {
                assert(key_lt(a[j].0, a[i].0));
            } else {
                assert(key_lt(a[i].0, a[j].0));
            }
        }
        assert(b[j].0 == a[j].0);
        assert(entries_map(a).contains_key(a[j].0));
        assert(entries_map(b).contains_key(b[j].0));
        assert(entries_map(a)[a[j].0] == a[j].1);
        assert(entries_map(b)[b[j].0] == b[j].1);
    }
    assert(b[i].0 == name);
    assert(entries_map(b).contains_key(b[i].0));
    assert(entries_map(b)[b[i].0] == b[i].1);
    assert(entries_map(a).contains_key(a[i].0));
    assert(entries_map(a)[a[i].0] == a[i].1);
    law_macro_state_bytes_see_each_body(a, b, i);
}

} // verus!
