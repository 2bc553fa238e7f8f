use tectonic_wasm::cache::MemoizationCache;
use tectonic_wasm::dependency::{CacheKey, DependencyGraph, DependencyKey, DependencyType};
use tectonic_wasm::hashing::{ConstraintDimensions, FontMetricsBits, FontState, HashComputation};
use tectonic_wasm::macros::MacroTracker;
use tectonic_wasm::memo::TeXMode;
use tectonic_wasm::registers::{GlueValue, RegisterTracker, RegisterType};
use tectonic_wasm::string_map::StringMap;

/// The current time in microseconds, as an application passes it in.
fn now() -> u64 {
    std::time::SystemTime::now().duration_since(std::time::UNIX_EPOCH).unwrap().as_micros() as u64
}

fn sample_font_state() -> FontState {
    FontState {
        cur_f: 12,
        cur_c: 65,
        cur_size: 12000,
        char_base: vec![100, 200, 300, 400],
        width_base: vec![1000, 2000, 3000],
        height_base: vec![800, 900, 1000],
        depth_base: vec![200, 250, 300],
        italic_base: vec![50, 75, 100],
        param_base: vec![1000, 500, 250],
        font_mem_size: 10000,
        font_max: 255,
        fmem_ptr: 5000,
    }
}

#[test]
fn test_cache_basic_operations() {
    let mut cache: MemoizationCache<String, i32> = MemoizationCache::new(100, 10);

    assert_eq!(cache.get(&"key1".to_string()), None);
    cache.insert("key1".to_string(), 42);
    assert_eq!(cache.get(&"key1".to_string()), Some(&42));

    let removed = cache.remove(&"key1".to_string());
    assert_eq!(removed, Some(42));
    assert_eq!(cache.get(&"key1".to_string()), None);
}

#[test]
fn test_hash_computation() {
    let content = "test content";
    let hash1 = HashComputation::hash_content(&content);
    let hash2 = HashComputation::hash_content(&content);
    assert_eq!(hash1, hash2);

    let different_content = "different content";
    let hash3 = HashComputation::hash_content(&different_content);
    assert_ne!(hash1, hash3);
}

#[test]
fn test_tex_source_hashing() {
    let source1 = r"\documentclass{article}\begin{document}Hello World\end{document}";
    let source2 = r"\documentclass{article}\begin{document}Hello World\end{document}";
    let source3 = r"\documentclass{article}\begin{document}Hello Mars\end{document}";

    let hash1 = HashComputation::hash_tex_source(source1);
    let hash2 = HashComputation::hash_tex_source(source2);
    let hash3 = HashComputation::hash_tex_source(source3);

    assert_eq!(hash1, hash2);
    assert_ne!(hash1, hash3);
}

#[test]
fn test_macro_definition_hashing() {
    let mut macros1 = StringMap::new();
    macros1.insert("newcommand".to_string(), r"\def\hello{world}".to_string());
    macros1.insert("title".to_string(), r"My Document".to_string());

    let mut macros2 = StringMap::new();
    macros2.insert("title".to_string(), r"My Document".to_string());
    macros2.insert("newcommand".to_string(), r"\def\hello{world}".to_string());

    let mut macros3 = StringMap::new();
    macros3.insert("newcommand".to_string(), r"\def\hello{universe}".to_string());
    macros3.insert("title".to_string(), r"My Document".to_string());

    let hash1 = HashComputation::hash_macro_definitions(&macros1);
    let hash2 = HashComputation::hash_macro_definitions(&macros2);
    let hash3 = HashComputation::hash_macro_definitions(&macros3);

    assert_eq!(hash1, hash2);
    assert_ne!(hash1, hash3);
}

#[test]
fn test_register_state_hashing() {
    let mut int_params1 = StringMap::new();
    int_params1.insert("page".to_string(), 1);
    int_params1.insert("chapter".to_string(), 5);

    let mut dimen_params1 = StringMap::new();
    dimen_params1.insert("textwidth".to_string(), 345000);
    dimen_params1.insert("textheight".to_string(), 550000);

    let mut int_params2 = StringMap::new();
    int_params2.insert("chapter".to_string(), 5);
    int_params2.insert("page".to_string(), 1);

    let mut dimen_params2 = StringMap::new();
    dimen_params2.insert("textheight".to_string(), 550000);
    dimen_params2.insert("textwidth".to_string(), 345000);

    let hash1 = HashComputation::hash_register_state(&int_params1, &dimen_params1);
    let hash2 = HashComputation::hash_register_state(&int_params2, &dimen_params2);

    assert_eq!(hash1, hash2);
}

#[test]
fn test_incremental_hash_updating() {
    let base_hash = 12345u128;
    let component = "font_size";
    let new_value = 67890u128;

    let hash1 = HashComputation::update_incremental_hash(base_hash, component, new_value);
    let hash2 = HashComputation::update_incremental_hash(base_hash, component, new_value);
    let hash3 = HashComputation::update_incremental_hash(base_hash, component, 99999u128);

    assert_eq!(hash1, hash2);
    assert_ne!(hash1, hash3);
}

#[test]
fn test_file_fingerprint_hashing() {
    let file_path = "/path/to/document.tex";
    let content = b"Hello World";
    let modified_time = 1609459200;

    let hash1 = HashComputation::hash_file_fingerprint(file_path, content, modified_time);
    let hash2 = HashComputation::hash_file_fingerprint(file_path, content, modified_time);
    let hash3 = HashComputation::hash_file_fingerprint(file_path, content, modified_time + 1);

    assert_eq!(hash1, hash2);
    assert_ne!(hash1, hash3);
}

#[test]
fn test_package_state_hashing() {
    let packages1 = vec!["amsmath".to_string(), "graphicx".to_string(), "hyperref".to_string()];
    let mut versions1 = StringMap::new();
    versions1.insert("amsmath".to_string(), "2.17e".to_string());
    versions1.insert("graphicx".to_string(), "1.2a".to_string());

    let packages2 = vec!["hyperref".to_string(), "amsmath".to_string(), "graphicx".to_string()];
    let mut versions2 = StringMap::new();
    versions2.insert("graphicx".to_string(), "1.2a".to_string());
    versions2.insert("amsmath".to_string(), "2.17e".to_string());

    let hash1 = HashComputation::hash_package_state(&packages1, &versions1);
    let hash2 = HashComputation::hash_package_state(&packages2, &versions2);

    assert_eq!(hash1, hash2);
}

#[test]
fn test_macro_tracker_definition() {
    let mut tracker = MacroTracker::new();

    tracker.define_macro("hello".to_string(), r"\textbf{Hello World}".to_string(), 0, now());

    assert_eq!(tracker.macro_definitions.len(), 1);
    assert!(tracker.has_changes());

    let macro_def = tracker.macro_definitions.get("hello").unwrap();
    assert_eq!(macro_def.name, "hello");
    assert_eq!(macro_def.param_count, 0);
    assert_eq!(macro_def.usage_count, 0);
}

#[test]
fn test_macro_tracker_expansion() {
    let mut tracker = MacroTracker::new();

    tracker.define_macro("greeting".to_string(), r"\textbf{#1}".to_string(), 1, now());

    let expansion_id = tracker.begin_expansion("greeting".to_string(), vec!["Hello".to_string()], 100, now());

    assert!(expansion_id.is_some());
    assert_eq!(tracker.expansion_stack.len(), 1);

    let expansion_hash = tracker.end_expansion(expansion_id.unwrap(), r"\textbf{Hello}");
    assert!(expansion_hash.is_some());

    let macro_def = tracker.macro_definitions.get("greeting").unwrap();
    assert_eq!(macro_def.usage_count, 1);
}

#[test]
fn test_macro_dependency_tracking() {
    let mut tracker = MacroTracker::new();

    tracker.define_macro("base".to_string(), r"\textbf{Base}".to_string(), 0, now());
    tracker.define_macro("dependent".to_string(), r"\base with extra".to_string(), 0, now());

    let dependent_macros = tracker.get_dependent_macros("base");
    assert_eq!(dependent_macros.len(), 1);
    assert!(dependent_macros.contains(&"dependent".to_string()));
}

#[test]
fn test_macro_invalidation() {
    let mut tracker = MacroTracker::new();

    tracker.define_macro("title".to_string(), r"\Large\textbf{#1}".to_string(), 1, now());

    let invalidated = tracker.get_invalidated_dependencies("title");
    assert_eq!(invalidated.len(), 1);
    assert_eq!(invalidated[0].dep_type, DependencyType::Macro);
    assert_eq!(invalidated[0].identifier, "title");
}

#[test]
fn test_macro_statistics() {
    let mut tracker = MacroTracker::new();

    tracker.define_macro("macro1".to_string(), r"\textbf{1}".to_string(), 0, now());
    tracker.define_macro("macro2".to_string(), r"\textit{2}".to_string(), 0, now());
    tracker.define_macro("macro3".to_string(), r"\underline{3}".to_string(), 0, now());

    tracker.begin_expansion("macro2".to_string(), vec![], 0, now());
    tracker.begin_expansion("macro2".to_string(), vec![], 50, now());
    tracker.begin_expansion("macro1".to_string(), vec![], 100, now());

    let stats = tracker.get_usage_statistics();
    assert_eq!(stats.total_macros, 3);
    assert_eq!(stats.total_expansions, 3);
    assert_eq!(stats.current_expansion_depth, 3);

    let (most_used_name, usage_count) = stats.most_used_macro.unwrap();
    assert_eq!(most_used_name, "macro2");
    assert_eq!(usage_count, 2);
}

#[test]
fn test_macro_state_hash_changes() {
    let mut tracker = MacroTracker::new();

    let initial_hash = tracker.get_state_hash();

    tracker.define_macro("test".to_string(), r"\textbf{Test}".to_string(), 0, now());
    let hash_after_define = tracker.get_state_hash();

    assert_ne!(initial_hash, hash_after_define);
    assert!(tracker.has_changes());

    tracker.mark_clean();
    assert!(!tracker.has_changes());

    tracker.define_macro("test".to_string(), r"\textit{Test}".to_string(), 0, now());
    let hash_after_redefine = tracker.get_state_hash();

    assert_ne!(hash_after_define, hash_after_redefine);
    assert!(tracker.has_changes());
}

#[test]
fn test_font_state_hashing() {
    let font_state = sample_font_state();

    let hash1 = HashComputation::hash_font_state(&font_state);
    let hash2 = HashComputation::hash_font_state(&font_state);

    assert_eq!(hash1, hash2);

    let mut font_state2 = font_state.clone();
    font_state2.cur_f = 13;
    let hash3 = HashComputation::hash_font_state(&font_state2);
    assert_ne!(hash1, hash3);
}

#[test]
fn test_i32_array_checksum() {
    let array1 = vec![1, 2, 3, 4, 5];
    let array2 = vec![1, 2, 3, 4, 5];
    let array3 = vec![1, 2, 3, 4, 6];
    let array4 = vec![1, 2, 3, 4, 5, 6];

    let checksum1 = HashComputation::hash_i32_array_checksum(&array1);
    let checksum2 = HashComputation::hash_i32_array_checksum(&array2);
    let checksum3 = HashComputation::hash_i32_array_checksum(&array3);
    let checksum4 = HashComputation::hash_i32_array_checksum(&array4);

    assert_eq!(checksum1, checksum2);
    assert_ne!(checksum1, checksum3);
    assert_ne!(checksum1, checksum4);
}

#[test]
fn test_register_tracker_count_registers() {
    let mut tracker = RegisterTracker::new();

    tracker.set_count(0, 1, Some(100), now());
    tracker.set_count(255, 42, Some(200), now());

    assert_eq!(tracker.count_registers.len(), 2);
    assert!(tracker.has_changes());

    let count0 = tracker.count_registers.get(&0).unwrap();
    assert_eq!(count0.value, 1);
    assert_eq!(count0.modification_count, 1);
    assert_eq!(count0.last_modified_source, Some(100));

    tracker.set_count(0, 5, Some(300), now());
    let count0_updated = tracker.count_registers.get(&0).unwrap();
    assert_eq!(count0_updated.value, 5);
    assert_eq!(count0_updated.modification_count, 2);

    let changes = tracker.get_changes_since_snapshot();
    assert_eq!(changes.len(), 3);
}

#[test]
fn test_register_tracker_dimen_registers() {
    let mut tracker = RegisterTracker::new();

    tracker.set_dimen(1, 65536, Some(50), now());
    tracker.set_dimen(2, 720896, Some(75), now());

    assert_eq!(tracker.dimen_registers.len(), 2);

    let dimen1 = tracker.dimen_registers.get(&1).unwrap();
    assert_eq!(dimen1.value, 65536);

    let snapshot_hash = tracker.create_snapshot();
    assert!(!tracker.has_changes());

    tracker.set_dimen(1, 131072, Some(100), now());
    assert!(tracker.has_changes());

    let new_snapshot = tracker.create_snapshot();
    assert_ne!(snapshot_hash, new_snapshot);
}

#[test]
fn test_register_tracker_skip_registers() {
    let mut tracker = RegisterTracker::new();

    let glue_value = GlueValue { width: 65536, stretch: 32768, shrink: 16384, stretch_order: 0, shrink_order: 0 };

    tracker.set_skip(0, glue_value.clone(), Some(200), now());

    assert_eq!(tracker.skip_registers.len(), 1);
    let skip0 = tracker.skip_registers.get(&0).unwrap();
    assert_eq!(skip0.value, glue_value);
}

#[test]
fn test_register_dependencies() {
    let mut tracker = RegisterTracker::new();

    tracker.set_count(0, 1, None, now());
    tracker.set_dimen(1, 65536, None, now());
    tracker.set_count(0, 2, None, now());

    let dependencies = tracker.get_register_dependencies();
    assert_eq!(dependencies.len(), 3);

    let count_deps: Vec<_> = dependencies
        .iter()
        .filter(|dep| dep.dep_type == DependencyType::Register && dep.identifier.starts_with("Count"))
        .collect();
    assert_eq!(count_deps.len(), 2);

    let dimen_deps: Vec<_> = dependencies
        .iter()
        .filter(|dep| dep.dep_type == DependencyType::Register && dep.identifier.starts_with("Dimen"))
        .collect();
    assert_eq!(dimen_deps.len(), 1);
}

#[test]
fn test_register_statistics() {
    let mut tracker = RegisterTracker::new();

    tracker.set_count(0, 1, None, now());
    tracker.set_count(1, 2, None, now());
    tracker.set_dimen(0, 65536, None, now());
    tracker.set_skip(0, GlueValue { width: 0, stretch: 65536, shrink: 0, stretch_order: 1, shrink_order: 0 }, None, now());

    tracker.set_count(0, 2, None, now());
    tracker.set_count(0, 3, None, now());
    tracker.set_count(0, 4, None, now());

    let stats = tracker.get_statistics();
    assert_eq!(stats.total_count_registers, 2);
    assert_eq!(stats.total_dimen_registers, 1);
    assert_eq!(stats.total_skip_registers, 1);
    assert_eq!(stats.total_glue_registers, 0);
    assert_eq!(stats.total_changes, 7);

    let (reg_type, reg_num, mod_count) = stats.most_modified_register.unwrap();
    assert_eq!(reg_type, RegisterType::Count);
    assert_eq!(reg_num, 0);
    assert_eq!(mod_count, 4);
}

#[test]
fn test_glue_value_hashing() {
    let glue1 = GlueValue { width: 65536, stretch: 32768, shrink: 16384, stretch_order: 0, shrink_order: 0 };
    let glue2 = GlueValue { width: 65536, stretch: 32768, shrink: 16384, stretch_order: 0, shrink_order: 0 };
    let glue3 = GlueValue { width: 65536, stretch: 32768, shrink: 16384, stretch_order: 1, shrink_order: 0 };

    let hash1 = HashComputation::hash_content(&glue1);
    let hash2 = HashComputation::hash_content(&glue2);
    let hash3 = HashComputation::hash_content(&glue3);

    assert_eq!(hash1, hash2);
    assert_ne!(hash1, hash3);
}

#[test]
fn test_dependency_graph() {
    let mut graph = DependencyGraph::new();

    let cache_key = CacheKey { content_hash: 123, constraint_hash: 456, state_hash: 789 };

    let dep_key = DependencyKey { dep_type: DependencyType::File, identifier: "test.tex".to_string(), value_hash: 999 };

    graph.add_dependency(cache_key.clone(), dep_key.clone());

    let dependents = graph.get_dependents(&dep_key);
    assert_eq!(dependents.len(), 1);
    assert_eq!(dependents[0], &cache_key);

    let dependencies = graph.get_dependencies(&cache_key);
    assert_eq!(dependencies.len(), 1);
    assert_eq!(dependencies[0], &dep_key);
}

#[test]
fn test_tex_mode_enum_variants() {
    let horizontal = TeXMode::Horizontal;
    let vertical = TeXMode::Vertical;
    let inline_math = TeXMode::Math { display: false };
    let display_math = TeXMode::Math { display: true };
    let restricted = TeXMode::RestrictedHorizontal;
    let internal = TeXMode::InternalVertical;

    assert_eq!(horizontal, TeXMode::Horizontal);
    assert_eq!(vertical, TeXMode::Vertical);
    assert_eq!(inline_math, TeXMode::Math { display: false });
    assert_eq!(display_math, TeXMode::Math { display: true });
    assert_eq!(restricted, TeXMode::RestrictedHorizontal);
    assert_eq!(internal, TeXMode::InternalVertical);

    assert_ne!(inline_math, display_math);
}

#[test]
fn test_font_metrics_with_constraints() {
    let font_state = FontState {
        cur_f: 10,
        cur_c: 97, // 'a'
        cur_size: 10000, // 10pt
        char_base: vec![1, 2, 3],
        width_base: vec![1000],
        height_base: vec![800],
        depth_base: vec![200],
        italic_base: vec![50],
        param_base: vec![1000],
        font_mem_size: 8000,
        font_max: 100,
        fmem_ptr: 4000,
    };

    let constraints = ConstraintDimensions {
        min_width: Some(100.0f64.to_bits()),
        max_width: Some(400.0f64.to_bits()),
        available_width: Some(300.0f64.to_bits()),
        natural_width: Some(250.0f64.to_bits()),
        line_spacing: Some(1.2f64.to_bits()),
        min_height: None,
        max_height: None,
        available_height: None,
        stretch: None,
        shrink: None,
    };
    let font_metrics = Some(FontMetricsBits {
        size: 10.0f64.to_bits(),
        family: "Computer Modern".to_string(),
        char_width: Some(5.5f64.to_bits()),
        line_height: 1.2f64.to_bits(),
        x_height: 4.3f64.to_bits(),
        baseline_skip: 12.0f64.to_bits(),
    });

    let hash1 = HashComputation::hash_font_metrics_with_constraints(&font_state, &constraints, &font_metrics);
    let hash2 = HashComputation::hash_font_metrics_with_constraints(&font_state, &constraints, &font_metrics);

    assert_eq!(hash1, hash2);

    // Change font size in constraints
    let mut font_metrics2 = font_metrics.clone();
    if let Some(ref mut m) = font_metrics2 {
        m.size = 12.0f64.to_bits();
    }
    let hash3 = HashComputation::hash_font_metrics_with_constraints(&font_state, &constraints, &font_metrics2);
    assert_ne!(hash1, hash3);
}

#[test]
fn bounded_cache_empties_only_at_its_limit() {
    let mut cache: MemoizationCache<String, i32> = MemoizationCache::new(4, 1);
    for i in 0..4 {
        assert_eq!(cache.insert(format!("k{}", i), i), None);
        assert_eq!(cache.len(), (i + 1) as usize);
    }
    // Replacing a held key below the limit keeps every entry.
    let mut small: MemoizationCache<String, i32> = MemoizationCache::new(4, 1);
    small.insert("a".to_string(), 1);
    assert_eq!(small.insert("a".to_string(), 2), Some(1));
    assert_eq!(small.len(), 1);
    // At the limit, the cache first empties and holds the new entry alone.
    assert_eq!(cache.insert("k4".to_string(), 4), None);
    assert_eq!(cache.len(), 1);
    assert_eq!(cache.get(&"k4".to_string()), Some(&4));
    assert_eq!(cache.get(&"k0".to_string()), None);
}
