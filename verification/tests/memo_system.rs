use std::time::{SystemTime, UNIX_EPOCH};
use tectonic_wasm::dependency::{CacheKey, DependencyKey, DependencyType};
use tectonic_wasm::hashing::{ConstraintDimensions, HashComputation};
use tectonic_wasm::memo::{CacheMatchType, MemoizationSystem, SpatialIndex};
use tectonic_wasm::registers::GlueValue;

fn micros() -> u128 {
    SystemTime::now().duration_since(UNIX_EPOCH).unwrap().as_micros()
}

/// The current time in microseconds, as an application passes it in.
fn now() -> u64 {
    micros() as u64
}

/// Waits until the clock has moved on, so that later accesses carry later
/// timestamps.
fn tick() {
    let start = micros();
    while micros() < start + 3 {}
}

fn dep(name: &str) -> DependencyKey {
    DependencyKey { dep_type: DependencyType::File, identifier: name.to_string(), value_hash: 7 }
}

fn store(system: &mut MemoizationSystem, content: u128, size: usize, deps: Vec<DependencyKey>) -> Result<(), String> {
    system.store_memo(content, 1, "w:None".to_string(), 2, content * 10, 5, 100, size, 3, deps, 0, 0, now())
}

#[test]
fn test_memoization_system_with_registers() {
    let mut memo_system = MemoizationSystem::new(1000, 100);

    memo_system.set_count_register(0, 1, Some(100), now());
    memo_system.set_dimen_register(1, 65536, Some(200), now());

    assert!(memo_system.has_register_changes());

    let (_cache_stats, _macro_stats, register_stats) = memo_system.get_comprehensive_statistics();
    assert_eq!(register_stats.total_count_registers, 1);
    assert_eq!(register_stats.total_dimen_registers, 1);
    assert_eq!(register_stats.total_changes, 2);

    let state_hash = memo_system.get_register_state_hash();
    assert!(!memo_system.has_register_changes());

    memo_system.set_count_register(0, 2, Some(300), now());
    let new_state_hash = memo_system.get_register_state_hash();
    assert_ne!(state_hash, new_state_hash);
}

#[test]
fn test_comprehensive_state_hash_generation() {
    let mut memo_system = MemoizationSystem::new(1000, 100);

    let initial_hash = memo_system.generate_comprehensive_state_hash();

    memo_system.define_macro("testmacro".to_string(), "\\textbf{#1}".to_string(), 1, now());

    let hash_after_macro = memo_system.generate_comprehensive_state_hash();
    assert_ne!(initial_hash, hash_after_macro);

    memo_system.set_count_register(42, 100, Some(123), now());

    let hash_after_register = memo_system.generate_comprehensive_state_hash();
    assert_ne!(hash_after_macro, hash_after_register);

    let hash_repeat = memo_system.generate_comprehensive_state_hash();
    assert_eq!(hash_after_register, hash_repeat);
}

#[test]
fn store_then_exact_lookup_hits() {
    let mut system = MemoizationSystem::new(1000, 100);
    let content = HashComputation::hash_tex_source("\\textbf{Hello World}");
    system
        .store_memo(content, 55, "w:Some(100.0)".to_string(), 12345, 98765, 100, 5000, 2048, 10, vec![], 64, 16, now())
        .unwrap();

    let found = system.check_memo(content, 55, 12345, 100, &[], now()).unwrap();
    assert_eq!(found.match_type, CacheMatchType::Exact);
    assert_eq!(found.entry.result_hash, 98765);
    assert_eq!(found.entry.context_type, "tex_compilation");
    assert_eq!(found.entry.result_size_bytes, 2048);
    assert_eq!(found.entry.access_count, 0);

    let again = system.check_memo(content, 55, 12345, 100, &[], now()).unwrap();
    assert_eq!(again.entry.access_count, 1);

    let (stats, _) = system.get_statistics();
    assert_eq!(stats.exact_hits, 2);
    assert_eq!(stats.total_lookups, 2);
    assert_eq!(stats.misses, 0);
    assert_eq!(stats.stores, 1);
    assert_eq!(stats.total_entries, 1);
}

#[test]
fn lookup_miss_is_counted() {
    let mut system = MemoizationSystem::new(1000, 100);
    let content = HashComputation::hash_tex_source("\\textit{Not cached}");
    assert!(system.check_memo(content, 1, 99999, 300, &[], now()).is_none());
    let (stats, _) = system.get_statistics();
    assert_eq!(stats.misses, 1);
    assert_eq!(stats.total_lookups, 1);
    assert_eq!(stats.exact_hits, 0);
    assert_eq!(stats.total_cache_time_us, 10);
}

#[test]
fn compatible_candidate_is_returned_in_order() {
    let mut system = MemoizationSystem::new(1000, 100);
    store(&mut system, 77, 10, vec![]).unwrap();
    let cached = CacheKey { content_hash: 77, constraint_hash: 1, state_hash: 2 };
    let absent = CacheKey { content_hash: 77, constraint_hash: 9, state_hash: 2 };

    assert_eq!(system.find_content_matches(77, 2), vec![cached]);
    assert!(system.find_content_matches(77, 3).is_empty());

    let found = system
        .check_memo(77, 5, 2, 0, &[(absent, CacheMatchType::Compatible), (cached, CacheMatchType::Subsumption)], now())
        .unwrap();
    assert_eq!(found.match_type, CacheMatchType::Subsumption);
    assert_eq!(found.entry.result_hash, 770);
}

#[test]
fn invalidation_drops_dependent_entries() {
    let mut system = MemoizationSystem::new(1000, 100);
    store(&mut system, 1, 10, vec![dep("a.tex")]).unwrap();
    store(&mut system, 2, 10, vec![dep("b.tex")]).unwrap();
    store(&mut system, 3, 10, vec![dep("a.tex"), dep("b.tex")]).unwrap();

    system.invalidate_dependencies(&[dep("a.tex")]);

    assert!(system.check_memo(1, 1, 2, 0, &[], now()).is_none());
    assert!(system.check_memo(2, 1, 2, 0, &[], now()).is_some());
    assert!(system.check_memo(3, 1, 2, 0, &[], now()).is_none());
    let (stats, _) = system.get_statistics();
    assert_eq!(stats.evictions, 2);
    assert_eq!(stats.total_entries, 1);
}

#[test]
fn least_recently_used_entry_is_evicted() {
    // One megabyte of memory.
    let mut system = MemoizationSystem::new(1000, 1);
    store(&mut system, 1, 400_000, vec![]).unwrap();
    tick();
    store(&mut system, 2, 400_000, vec![]).unwrap();
    tick();
    // Using the first entry makes the second the least recently used.
    assert!(system.check_memo(1, 1, 2, 0, &[], now()).is_some());
    tick();
    store(&mut system, 3, 400_000, vec![]).unwrap();

    assert!(system.check_memo(2, 1, 2, 0, &[], now()).is_none());
    assert!(system.check_memo(1, 1, 2, 0, &[], now()).is_some());
    assert!(system.check_memo(3, 1, 2, 0, &[], now()).is_some());
    let (stats, _) = system.get_statistics();
    assert_eq!(stats.evictions, 1);
}

#[test]
fn store_fails_when_nothing_can_make_room() {
    let mut system = MemoizationSystem::new(1000, 1);
    store(&mut system, 1, 600_000, vec![]).unwrap();
    let err = store(&mut system, 2, 2_000_000, vec![]).unwrap_err();
    assert_eq!(err, "Unable to free enough space. Required: 2000000, Freed: 600000");
    assert!(system.check_memo(1, 1, 2, 0, &[], now()).is_none());
    assert!(system.check_memo(2, 1, 2, 0, &[], now()).is_none());
}

#[test]
fn macro_expansion_through_the_system() {
    let mut system = MemoizationSystem::new(10, 1);
    system.define_macro("greeting".to_string(), "\\textbf{#1}".to_string(), 1, now());
    assert!(system.has_dependency_changes());
    let id = system.begin_macro_expansion("greeting".to_string(), vec!["Hi".to_string()], 4, now()).unwrap();
    assert_eq!(system.end_macro_expansion(id, "\\textbf{Hi}"), Some(HashComputation::hash_tex_source("\\textbf{Hi}")));
    assert!(system.begin_macro_expansion("unknown".to_string(), vec![], 0, now()).is_none());
    let (_, macros) = system.get_statistics();
    assert_eq!(macros.total_macros, 1);
    assert_eq!(macros.total_expansions, 1);
    assert_ne!(system.get_macro_state_hash(), 0);
}

#[test]
fn changed_registers_become_dependencies() {
    let mut system = MemoizationSystem::new(10, 1);
    system.set_skip_register(3, GlueValue { width: 1, stretch: 2, shrink: 3, stretch_order: 0, shrink_order: 0 }, None, now());
    system.set_count_register(5, 9, None, now());
    let deps = system.get_all_changed_dependencies();
    assert_eq!(deps.len(), 2);
    assert_eq!(deps[0].identifier, "Skip[3]");
    assert_eq!(deps[1].identifier, "Count[5]");
    assert_eq!(deps[0].dep_type, DependencyType::Register);
}

#[test]
fn spatial_index_files_keys_by_spatial_key() {
    let mut index = SpatialIndex::new();
    let a = CacheKey { content_hash: 1, constraint_hash: 2, state_hash: 3 };
    let b = CacheKey { content_hash: 1, constraint_hash: 4, state_hash: 3 };
    let c = CacheKey { content_hash: 5, constraint_hash: 2, state_hash: 3 };
    index.insert(a, "w:Some(1.0)".to_string());
    index.insert(c, "w:None".to_string());
    index.insert(b, "w:Some(1.0)".to_string());
    assert_eq!(index.find_compatible("w:Some(1.0)"), vec![&a, &b]);
    assert!(index.find_compatible("w:Some(2.0)").is_empty());
    // Buckets in key order: "w:None" before "w:Some(1.0)".
    assert_eq!(index.content_matches(1, 3), vec![a, b]);
    index.remove_key(&a);
    assert_eq!(index.find_compatible("w:Some(1.0)"), vec![&b]);
}

fn dims(min_w: f64, max_w: f64, avail_w: f64, natural_w: f64, stretch: f64, shrink: f64, spacing: f64) -> ConstraintDimensions {
    ConstraintDimensions {
        min_width: Some(min_w.to_bits()),
        max_width: Some(max_w.to_bits()),
        available_width: Some(avail_w.to_bits()),
        min_height: None,
        max_height: None,
        available_height: None,
        natural_width: Some(natural_w.to_bits()),
        stretch: Some(stretch.to_bits()),
        shrink: Some(shrink.to_bits()),
        line_spacing: Some(spacing.to_bits()),
    }
}

fn hit_rate(system: &MemoizationSystem) -> f64 {
    let (stats, _) = system.get_statistics();
    if stats.total_lookups == 0 {
        0.0
    } else {
        stats.exact_hits as f64 / stats.total_lookups as f64
    }
}

#[test]
fn test_check_memo_exact_match() {
    let mut memo_system = MemoizationSystem::new(1000, 100);

    let constraints = dims(100.0, 200.0, 150.0, 120.0, 10.0, 5.0, 1.2);
    let content_hash = HashComputation::hash_tex_source("\\textbf{Hello World}");
    let state_hash = 12345u128;
    let constraint_hash = HashComputation::hash_constraints(&constraints);

    memo_system
        .store_memo(
            content_hash,
            constraint_hash,
            "w:Some(100.0)-Some(200.0)_h:None-None_nw:Some(120.0)".to_string(),
            state_hash,
            98765u128,
            100,
            5000,
            2048,
            10,
            vec![],
            0,
            0,
            now(),
        )
        .unwrap();

    let result = memo_system.check_memo(content_hash, constraint_hash, state_hash, 100, &[], now());

    assert!(result.is_some());
    let memo_result = result.unwrap();
    assert_eq!(memo_result.entry.result_hash, 98765u128);
    assert_eq!(memo_result.match_type, CacheMatchType::Exact);
    assert_eq!(memo_result.key.constraint_hash, constraint_hash);

    let (stats, _) = memo_system.get_statistics();
    assert_eq!(stats.exact_hits, 1);
    assert_eq!(stats.total_lookups, 1);
}

#[test]
fn test_check_memo_constraint_subsumption() {
    let mut memo_system = MemoizationSystem::new(1000, 100);

    let cached_constraints = dims(50.0, 300.0, 200.0, 120.0, 10.0, 5.0, 1.2);
    let required_constraints = dims(100.0, 200.0, 150.0, 120.0, 10.0, 5.0, 1.2);

    let content_hash = HashComputation::hash_tex_source("\\section{Test}");
    let state_hash = 54321u128;
    let cached_hash = HashComputation::hash_constraints(&cached_constraints);

    memo_system
        .store_memo(
            content_hash,
            cached_hash,
            "w:Some(50.0)-Some(300.0)_h:None-None_nw:Some(120.0)".to_string(),
            state_hash,
            11111u128,
            200,
            3000,
            1024,
            5,
            vec![],
            0,
            0,
            now(),
        )
        .unwrap();

    // The spatial index yields the entry with the same content and state;
    // its constraints subsume the required ones.
    let candidates = memo_system.find_content_matches(content_hash, state_hash);
    assert_eq!(candidates.len(), 1);
    assert_eq!(candidates[0].constraint_hash, cached_hash);
    let compatible = [(candidates[0], CacheMatchType::Subsumption)];

    let required_hash = HashComputation::hash_constraints(&required_constraints);
    let result = memo_system.check_memo(content_hash, required_hash, state_hash, 200, &compatible, now());

    assert!(result.is_some());
    let memo_result = result.unwrap();
    assert_eq!(memo_result.entry.result_hash, 11111u128);
    assert_eq!(memo_result.match_type, CacheMatchType::Subsumption);

    let (stats, _) = memo_system.get_statistics();
    assert_eq!(stats.exact_hits, 1);
    assert_eq!(stats.total_lookups, 1);
}

#[test]
fn test_check_memo_cache_miss() {
    let mut memo_system = MemoizationSystem::new(1000, 100);

    let constraints = dims(100.0, 200.0, 150.0, 120.0, 10.0, 5.0, 1.2);
    let content_hash = HashComputation::hash_tex_source("\\textit{Not cached}");
    let state_hash = 99999u128;

    let result =
        memo_system.check_memo(content_hash, HashComputation::hash_constraints(&constraints), state_hash, 300, &[], now());

    assert!(result.is_none());

    let (stats, _) = memo_system.get_statistics();
    assert_eq!(stats.misses, 1);
    assert_eq!(stats.total_lookups, 1);
    assert_eq!(hit_rate(&memo_system), 0.0);
}

#[test]
fn test_check_memo_compatible_constraints() {
    let mut memo_system = MemoizationSystem::new(1000, 100);

    let cached_constraints = dims(100.1, 199.9, 150.05, 119.95, 10.02, 4.98, 1.201);
    let required_constraints = dims(100.0, 200.0, 150.0, 120.0, 10.0, 5.0, 1.2);

    let content_hash = HashComputation::hash_tex_source("\\emph{Compatible}");
    let state_hash = 77777u128;
    let cached_hash = HashComputation::hash_constraints(&cached_constraints);

    memo_system
        .store_memo(
            content_hash,
            cached_hash,
            "w:Some(100.1)-Some(199.9)_h:None-None_nw:Some(119.95)".to_string(),
            state_hash,
            22222u128,
            400,
            2000,
            512,
            3,
            vec![],
            0,
            0,
            now(),
        )
        .unwrap();

    // The entry's constraints are within tolerance of the required ones.
    let candidates = memo_system.find_content_matches(content_hash, state_hash);
    assert_eq!(candidates.len(), 1);
    let compatible = [(candidates[0], CacheMatchType::Compatible)];

    let required_hash = HashComputation::hash_constraints(&required_constraints);
    assert_ne!(required_hash, cached_hash);
    let result = memo_system.check_memo(content_hash, required_hash, state_hash, 400, &compatible, now());

    assert!(result.is_some());
    let memo_result = result.unwrap();
    assert_eq!(memo_result.entry.result_hash, 22222u128);
    assert_eq!(memo_result.match_type, CacheMatchType::Compatible);

    let (stats, _) = memo_system.get_statistics();
    assert_eq!(stats.exact_hits, 1);
    assert_eq!(stats.total_lookups, 1);
}

#[test]
fn test_check_memo_access_statistics_update() {
    let mut memo_system = MemoizationSystem::new(1000, 100);

    let constraints = dims(100.0, 200.0, 150.0, 120.0, 10.0, 5.0, 1.2);
    let content_hash = HashComputation::hash_tex_source("\\textbf{Access Test}");
    let state_hash = 33333u128;
    let constraint_hash = HashComputation::hash_constraints(&constraints);

    let cache_key = CacheKey { content_hash, constraint_hash, state_hash };

    memo_system
        .store_memo(
            content_hash,
            constraint_hash,
            "w:Some(100.0)-Some(200.0)_h:None-None_nw:Some(120.0)".to_string(),
            state_hash,
            44444u128,
            500,
            1000,
            256,
            2,
            vec![],
            0,
            0,
            now(),
        )
        .unwrap();
    assert_eq!(memo_system.cached_entry(&cache_key).unwrap().access_count, 0);

    // First access
    let result1 = memo_system.check_memo(content_hash, constraint_hash, state_hash, 500, &[], now());
    assert!(result1.is_some());

    // Verify access count was updated
    let entry_after_first = memo_system.cached_entry(&cache_key).unwrap();
    assert_eq!(entry_after_first.access_count, 1);
    assert!(entry_after_first.last_access > 0);

    // Second access
    let result2 = memo_system.check_memo(content_hash, constraint_hash, state_hash, 500, &[], now());
    assert!(result2.is_some());

    // Verify access count was incremented
    let entry_after_second = memo_system.cached_entry(&cache_key).unwrap();
    assert_eq!(entry_after_second.access_count, 2);

    // Verify multiple hits recorded
    let (stats, _) = memo_system.get_statistics();
    assert_eq!(stats.exact_hits, 2);
    assert_eq!(stats.total_lookups, 2);
    assert_eq!(hit_rate(&memo_system), 1.0);
}

#[test]
fn store_into_a_full_cache_empties_it_first() {
    let mut system = MemoizationSystem::new(2, 100);
    store(&mut system, 1, 10, vec![]).unwrap();
    store(&mut system, 2, 10, vec![]).unwrap();
    assert!(system.cached_entry(&CacheKey { content_hash: 1, constraint_hash: 1, state_hash: 2 }).is_some());
    // The cache holds its limit of two entries, so the third store empties it.
    store(&mut system, 3, 10, vec![]).unwrap();
    assert!(system.cached_entry(&CacheKey { content_hash: 1, constraint_hash: 1, state_hash: 2 }).is_none());
    assert!(system.cached_entry(&CacheKey { content_hash: 2, constraint_hash: 1, state_hash: 2 }).is_none());
    let third = system.cached_entry(&CacheKey { content_hash: 3, constraint_hash: 1, state_hash: 2 }).unwrap();
    assert_eq!(third.result_hash, 30);
}

#[test]
fn store_and_lookup_record_the_given_times() {
    let mut system = MemoizationSystem::new(10, 1);
    system.store_memo(7, 1, "w".to_string(), 2, 70, 0, 1, 8, 1, vec![], 0, 0, 1_000).unwrap();
    let key = CacheKey { content_hash: 7, constraint_hash: 1, state_hash: 2 };
    assert_eq!(system.cached_entry(&key).unwrap().timestamp, 1_000);
    assert_eq!(system.cached_entry(&key).unwrap().last_access, 1_000);
    assert!(system.check_memo(7, 1, 2, 0, &[], 2_500).is_some());
    assert_eq!(system.cached_entry(&key).unwrap().last_access, 2_500);
    assert_eq!(system.cached_entry(&key).unwrap().timestamp, 1_000);
}

#[test]
fn getters_report_usage_entries_and_counters() {
    let mut system = MemoizationSystem::new(10, 1);
    assert_eq!(system.memory_in_use(), 0);
    assert_eq!(system.entry_count(), 0);
    system.store_memo(7, 1, "w".to_string(), 2, 70, 0, 1, 8, 1, vec![dep("a.tex")], 100, 16, 5).unwrap();
    assert_eq!(system.memory_in_use(), 100 + 16 + 8);
    assert_eq!(system.entry_count(), 1);
    assert!(system.check_memo(9, 1, 2, 0, &[], 6).is_none());
    let counters = system.cache_counters();
    assert_eq!(counters.stores, 1);
    assert_eq!(counters.misses, 1);
    assert_eq!(counters.total_lookups, 1);
}
