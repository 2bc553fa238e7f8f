//! The library feeds SipHash the byte stream that `std::hash::Hash` writes;
//! these tests hash the same values through `Hash` and compare.

use sha2::{Digest, Sha256};
use siphasher::sip128::{Hasher128, SipHasher13};
use std::hash::Hash;
use tectonic_wasm::hashing::{
    ConstraintDimensions, EqtbState, FontMetricsBits, FontPropertiesBits, FontState, HashComputation,
    MathParamBits, ParagraphParamBits, TeXEngineState,
};
use tectonic_wasm::int_map::IntMap;
use tectonic_wasm::memo::MemoizationSystem;
use tectonic_wasm::registers::GlueValue;
use tectonic_wasm::string_map::StringMap;

/// The current time in microseconds, as an application passes it in.
fn now() -> u64 {
    std::time::SystemTime::now().duration_since(std::time::UNIX_EPOCH).unwrap().as_micros() as u64
}

fn std_hash<T: Hash + ?Sized>(value: &T) -> u128 {
    let mut hasher = SipHasher13::new();
    value.hash(&mut hasher);
    hasher.finish128().as_u128()
}

#[derive(Hash)]
struct Glue {
    width: i32,
    stretch: i32,
    shrink: i32,
    stretch_order: i8,
    shrink_order: i8,
}

#[test]
fn str_stream_matches_std() {
    assert_eq!(HashComputation::hash_content(&"test content"), std_hash("test content"));
    assert_eq!(HashComputation::hash_content(&""), std_hash(""));
    assert_eq!(HashComputation::hash_content(&"é∑"), std_hash("é∑"));
}

#[test]
fn integer_streams_match_std() {
    assert_eq!(HashComputation::hash_content(&-7i32), std_hash(&-7i32));
    assert_eq!(HashComputation::hash_content(&123456789u64), std_hash(&123456789u64));
    assert_eq!(HashComputation::hash_content(&(u128::MAX - 5)), std_hash(&(u128::MAX - 5)));
    assert_eq!(HashComputation::hash_content(&42usize), std_hash(&42usize));
    assert_eq!(HashComputation::hash_content(&true), std_hash(&true));
}

#[test]
fn glue_stream_matches_std() {
    let g = GlueValue { width: 65536, stretch: -32768, shrink: 16384, stretch_order: 2, shrink_order: -1 };
    let s = Glue { width: 65536, stretch: -32768, shrink: 16384, stretch_order: 2, shrink_order: -1 };
    assert_eq!(HashComputation::hash_content(&g), std_hash(&s));
}

#[test]
fn register_state_stream_matches_sorted_std_hashing() {
    let mut ints = StringMap::new();
    ints.insert("page".to_string(), 1);
    ints.insert("chapter".to_string(), -5);
    let mut dimens = StringMap::new();
    dimens.insert("textwidth".to_string(), 345000);

    let mut hasher = SipHasher13::new();
    for (k, v) in [("chapter", -5i32), ("page", 1)] {
        k.hash(&mut hasher);
        v.hash(&mut hasher);
    }
    "textwidth".hash(&mut hasher);
    345000i32.hash(&mut hasher);
    assert_eq!(HashComputation::hash_register_state(&ints, &dimens), hasher.finish128().as_u128());
}

#[test]
fn incremental_update_stream_matches_std() {
    let mut hasher = SipHasher13::new();
    12345u128.hash(&mut hasher);
    "font_size".hash(&mut hasher);
    67890u128.hash(&mut hasher);
    assert_eq!(
        HashComputation::update_incremental_hash(12345, "font_size", 67890),
        hasher.finish128().as_u128()
    );
}

#[test]
fn tex_content_with_state_stream_matches_std() {
    let content_hash = HashComputation::hash_tex_source("x");
    let mut hasher = SipHasher13::new();
    content_hash.hash(&mut hasher);
    77u128.hash(&mut hasher);
    assert_eq!(HashComputation::hash_tex_content_with_state("x", 77), hasher.finish128().as_u128());
}

#[test]
fn sha_prefix_is_big_endian() {
    let digest = Sha256::digest(b"abc");
    let mut bytes = [0u8; 16];
    bytes.copy_from_slice(&digest[0..16]);
    assert_eq!(HashComputation::hash_tex_source("abc"), u128::from_be_bytes(bytes));
}

#[test]
fn font_state_stream_matches_std() {
    let f = FontState {
        cur_f: 1,
        cur_c: 2,
        cur_size: 3,
        char_base: vec![4],
        width_base: vec![5, 6],
        height_base: vec![],
        depth_base: vec![7],
        italic_base: vec![8],
        param_base: vec![9],
        font_mem_size: 10,
        font_max: 11,
        fmem_ptr: 12,
    };
    let mut hasher = SipHasher13::new();
    1i32.hash(&mut hasher);
    2i32.hash(&mut hasher);
    3i32.hash(&mut hasher);
    for table in [&f.char_base, &f.width_base, &f.height_base, &f.depth_base, &f.italic_base, &f.param_base] {
        HashComputation::hash_i32_array_checksum(table).hash(&mut hasher);
    }
    10i32.hash(&mut hasher);
    11i32.hash(&mut hasher);
    12i32.hash(&mut hasher);
    assert_eq!(HashComputation::hash_font_state(&f), hasher.finish128().as_u128());
}

#[test]
fn array_checksum_exact_value() {
    // c = ((((0*31+1)*31+2)*31+3)) = 1026, then 1026*17 + 3.
    assert_eq!(HashComputation::hash_i32_array_checksum(&[1, 2, 3]), 1026 * 17 + 3);
    // Negative values are sign-extended.
    assert_eq!(HashComputation::hash_i32_array_checksum(&[-1]), (u64::MAX).wrapping_mul(17).wrapping_add(1));
}

#[test]
fn constraint_stream_matches_std() {
    let dims = ConstraintDimensions {
        min_width: Some(100.0f64.to_bits()),
        max_width: Some(200.0f64.to_bits()),
        available_width: Some(150.0f64.to_bits()),
        min_height: None,
        max_height: None,
        available_height: None,
        natural_width: Some(120.0f64.to_bits()),
        stretch: Some(10.0f64.to_bits()),
        shrink: Some(5.0f64.to_bits()),
        line_spacing: Some(1.2f64.to_bits()),
    };
    let mut hasher = SipHasher13::new();
    for v in [
        dims.min_width,
        dims.max_width,
        dims.available_width,
        dims.min_height,
        dims.max_height,
        dims.available_height,
        dims.natural_width,
        dims.stretch,
        dims.shrink,
        dims.line_spacing,
    ] {
        v.hash(&mut hasher);
    }
    assert_eq!(HashComputation::hash_constraints(&dims), hasher.finish128().as_u128());
}

#[test]
fn paragraph_hash_reads_big_endian_floats() {
    let values = [400.0f64, 10.0, 5.0, 20.0, 6.0, 12.0, 1.2];
    let params = ParagraphParamBits {
        line_width: values[0].to_bits(),
        left_indent: values[1].to_bits(),
        right_indent: values[2].to_bits(),
        first_line_indent: values[3].to_bits(),
        par_skip: values[4].to_bits(),
        baseline_skip: values[5].to_bits(),
        line_spacing: values[6].to_bits(),
    };
    let mut hasher = Sha256::new();
    hasher.update("Some paragraph".as_bytes());
    for v in values {
        hasher.update(&v.to_be_bytes());
    }
    let digest = hasher.finalize();
    let mut bytes = [0u8; 16];
    bytes.copy_from_slice(&digest[0..16]);
    assert_eq!(HashComputation::hash_paragraph_content("Some paragraph", &params), u128::from_be_bytes(bytes));
}

#[test]
fn math_hash_appends_the_display_flag() {
    let mut hasher = Sha256::new();
    hasher.update(b"x^2");
    hasher.update(&[1u8]);
    let digest = hasher.finalize();
    let mut bytes = [0u8; 16];
    bytes.copy_from_slice(&digest[0..16]);
    assert_eq!(HashComputation::hash_math_content("x^2", true), u128::from_be_bytes(bytes));
    assert_ne!(HashComputation::hash_math_content("x^2", true), HashComputation::hash_math_content("x^2", false));
}

#[test]
fn package_records_follow_name_order() {
    let packages = vec!["b".to_string(), "a".to_string()];
    let mut versions = StringMap::new();
    versions.insert("b".to_string(), "2.0".to_string());
    let mut hasher = Sha256::new();
    hasher.update(b"a;b@2.0;");
    let digest = hasher.finalize();
    let mut bytes = [0u8; 16];
    bytes.copy_from_slice(&digest[0..16]);
    assert_eq!(HashComputation::hash_package_state(&packages, &versions), u128::from_be_bytes(bytes));
}

#[test]
fn macro_expansion_tracking_record() {
    let mut context = StringMap::new();
    context.insert("y".to_string(), "2".to_string());
    context.insert("x".to_string(), "1".to_string());
    let mut hasher = Sha256::new();
    hasher.update(b"MACRO:");
    hasher.update(b"sec");
    hasher.update(b"@DEPTH:");
    hasher.update(&3u32.to_be_bytes());
    hasher.update(b"@CONTENT:");
    hasher.update(b"body");
    hasher.update(b"@CONTEXT:");
    hasher.update(b"x=1;y=2;");
    let digest = hasher.finalize();
    let mut bytes = [0u8; 16];
    bytes.copy_from_slice(&digest[0..16]);
    assert_eq!(HashComputation::hash_macro_expansion_tracking("sec", 3, "body", &context), u128::from_be_bytes(bytes));
}

#[derive(Hash)]
struct MetricsBits {
    size: u64,
    family: String,
    char_width: Option<u64>,
    line_height: u64,
    x_height: u64,
    baseline_skip: u64,
}

#[test]
fn font_metrics_stream_matches_std() {
    let font_state = FontState {
        cur_f: 3,
        cur_c: 66,
        cur_size: 9000,
        char_base: vec![1],
        width_base: vec![2, 3],
        height_base: vec![],
        depth_base: vec![4],
        italic_base: vec![],
        param_base: vec![5],
        font_mem_size: 6,
        font_max: 7,
        fmem_ptr: 8,
    };
    let dims = ConstraintDimensions {
        min_width: None,
        max_width: Some(300.0f64.to_bits()),
        available_width: None,
        min_height: None,
        max_height: None,
        available_height: None,
        natural_width: None,
        stretch: None,
        shrink: None,
        line_spacing: None,
    };
    let metrics = FontMetricsBits {
        size: 11.0f64.to_bits(),
        family: "Latin Modern".to_string(),
        char_width: None,
        line_height: 1.5f64.to_bits(),
        x_height: 4.0f64.to_bits(),
        baseline_skip: 13.0f64.to_bits(),
    };
    let reference = Some(MetricsBits {
        size: metrics.size,
        family: metrics.family.clone(),
        char_width: metrics.char_width,
        line_height: metrics.line_height,
        x_height: metrics.x_height,
        baseline_skip: metrics.baseline_skip,
    });
    let font_hash = HashComputation::hash_font_state(&font_state);
    let constraint_hash = HashComputation::hash_constraints(&dims);

    let mut hasher = SipHasher13::new();
    font_hash.hash(&mut hasher);
    constraint_hash.hash(&mut hasher);
    reference.hash(&mut hasher);
    assert_eq!(
        HashComputation::hash_font_metrics_with_constraints(&font_state, &dims, &Some(metrics)),
        hasher.finish128().as_u128()
    );

    let mut hasher = SipHasher13::new();
    font_hash.hash(&mut hasher);
    constraint_hash.hash(&mut hasher);
    None::<MetricsBits>.hash(&mut hasher);
    assert_eq!(
        HashComputation::hash_font_metrics_with_constraints(&font_state, &dims, &None),
        hasher.finish128().as_u128()
    );
}

fn sample_system() -> MemoizationSystem {
    let mut system = MemoizationSystem::new(100, 10);
    system.define_macro("emph".to_string(), "\\textit{#1}".to_string(), 1, now());
    system.set_count_register(3, 42, None, now());
    system
}

#[derive(Hash)]
struct ParagraphMirror(u64, u64, u64, u64, u64, u64, u64);

#[derive(Hash)]
struct MathMirror(u64, u64, u64, u64, Option<u64>, u64);

#[test]
fn paragraph_state_hash_matches_std() {
    let values = [400.0f64, 10.0, 5.0, 20.0, 6.0, 12.0, 1.2];
    let params = ParagraphParamBits {
        line_width: values[0].to_bits(),
        left_indent: values[1].to_bits(),
        right_indent: values[2].to_bits(),
        first_line_indent: values[3].to_bits(),
        par_skip: values[4].to_bits(),
        baseline_skip: values[5].to_bits(),
        line_spacing: values[6].to_bits(),
    };
    let mirror = ParagraphMirror(
        params.line_width,
        params.left_indent,
        params.right_indent,
        params.first_line_indent,
        params.par_skip,
        params.baseline_skip,
        params.line_spacing,
    );
    let state = sample_system().generate_comprehensive_state_hash();

    let mut hasher = SipHasher13::new();
    state.hash(&mut hasher);
    std_hash(&mirror).hash(&mut hasher);
    let expected = hasher.finish128().as_u128();

    let mut system = sample_system();
    assert_eq!(system.generate_paragraph_state_hash(&params), expected);
    // The snapshot leaves the state as it was: asking again repeats.
    assert_eq!(system.generate_paragraph_state_hash(&params), expected);
}

#[test]
fn math_state_hash_matches_std() {
    let params = MathParamBits {
        math_surround: 1.0f64.to_bits(),
        thin_space: 3.0f64.to_bits(),
        med_space: 4.0f64.to_bits(),
        thick_space: 5.0f64.to_bits(),
        display_width: Some(300.0f64.to_bits()),
        display_indent: 0.0f64.to_bits(),
    };
    let mirror = MathMirror(
        params.math_surround,
        params.thin_space,
        params.med_space,
        params.thick_space,
        params.display_width,
        params.display_indent,
    );
    let state = sample_system().generate_comprehensive_state_hash();

    let mut hasher = SipHasher13::new();
    state.hash(&mut hasher);
    std_hash(&mirror).hash(&mut hasher);
    true.hash(&mut hasher);
    let expected_display = hasher.finish128().as_u128();

    let mut hasher = SipHasher13::new();
    state.hash(&mut hasher);
    false.hash(&mut hasher);
    let expected_inline_without_params = hasher.finish128().as_u128();

    let mut system = sample_system();
    assert_eq!(system.generate_math_state_hash(&Some(params), true), expected_display);
    assert_eq!(system.generate_math_state_hash(&None, false), expected_inline_without_params);
    assert_ne!(expected_display, expected_inline_without_params);
}

#[test]
fn macro_expansion_hash_matches_std() {
    let args = vec!["Hello".to_string(), "world".to_string()];
    let mut hasher = SipHasher13::new();
    "textbf".hash(&mut hasher);
    for a in &args {
        a.hash(&mut hasher);
    }
    3u32.hash(&mut hasher);
    assert_eq!(HashComputation::hash_macro_expansion("textbf", &args, 3), hasher.finish128().as_u128());
    assert_ne!(
        HashComputation::hash_macro_expansion("textbf", &args, 3),
        HashComputation::hash_macro_expansion("textbf", &args, 4)
    );
}

#[test]
fn engine_state_hash_matches_std() {
    let mut int_params = StringMap::new();
    int_params.insert("tolerance".to_string(), 200);
    let state = TeXEngineState {
        memory_snapshot: vec![1, 2, 3],
        eqtb_state: EqtbState { int_params, dimen_params: StringMap::new() },
        font_state: FontState {
            cur_f: 1,
            cur_c: 2,
            cur_size: 3,
            char_base: vec![4],
            width_base: vec![],
            height_base: vec![],
            depth_base: vec![],
            italic_base: vec![],
            param_base: vec![],
            font_mem_size: 5,
            font_max: 6,
            fmem_ptr: 7,
        },
    };
    let font = FontPropertiesBits {
        font_id: 3,
        size_pt: 10.0f64.to_bits(),
        family_name: "cmr".to_string(),
        char_width: 5.0f64.to_bits(),
        line_height: 12.0f64.to_bits(),
        x_height: 4.3f64.to_bits(),
        baseline_skip: 12.0f64.to_bits(),
    };
    let mut macros = StringMap::new();
    macros.insert("b".to_string(), ("\\textbf{#1}".to_string(), 1usize));
    macros.insert("a".to_string(), ("A".to_string(), 0usize));
    let mut count = IntMap::new();
    count.insert(5, 50);
    count.insert(1, 10);
    let mut dimen = IntMap::new();
    dimen.insert(2, 3.5f64.to_bits());
    let mut skip = IntMap::new();
    skip.insert(0, (1.0f64.to_bits(), 2.0f64.to_bits(), 3.0f64.to_bits()));

    let mut h = SipHasher13::new();
    3i32.hash(&mut h);
    font.size_pt.hash(&mut h);
    "cmr".hash(&mut h);
    font.char_width.hash(&mut h);
    font.line_height.hash(&mut h);
    font.x_height.hash(&mut h);
    font.baseline_skip.hash(&mut h);
    let font_hash = h.finish128().as_u128();

    let mut h = SipHasher13::new();
    for (name, (body, argc)) in [("a", ("A", 0usize)), ("b", ("\\textbf{#1}", 1usize))] {
        name.hash(&mut h);
        body.hash(&mut h);
        argc.hash(&mut h);
    }
    let macro_hash = h.finish128().as_u128();

    let mut h = SipHasher13::new();
    for (r, v) in [(1i32, 10i32), (5, 50)] {
        r.hash(&mut h);
        v.hash(&mut h);
    }
    2i32.hash(&mut h);
    3.5f64.to_bits().hash(&mut h);
    0i32.hash(&mut h);
    1.0f64.to_bits().hash(&mut h);
    2.0f64.to_bits().hash(&mut h);
    3.0f64.to_bits().hash(&mut h);
    let register_hash = h.finish128().as_u128();

    let mut h = SipHasher13::new();
    HashComputation::hash_tex_state(&state).hash(&mut h);
    font_hash.hash(&mut h);
    macro_hash.hash(&mut h);
    register_hash.hash(&mut h);
    assert_eq!(
        HashComputation::hash_tex_engine_state(&state, &font, &macros, &count, &dimen, &skip),
        h.finish128().as_u128()
    );
}
