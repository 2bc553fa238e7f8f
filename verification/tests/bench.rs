use tectonic_wasm::bench::{calculate_checksum, MockTeXEngineState};

fn reference_checksum(data: &[u8]) -> u32 {
    data.iter().fold(0u32, |acc, &byte| acc.wrapping_mul(31).wrapping_add(byte as u32))
}

#[test]
fn checksum_of_small_inputs() {
    assert_eq!(calculate_checksum(&[]), 0);
    assert_eq!(calculate_checksum(&[1]), 1);
    assert_eq!(calculate_checksum(&[1, 2]), 33);
    assert_eq!(calculate_checksum(b"abc"), 96354);
}

#[test]
fn checksum_wraps_like_the_fold() {
    let data: Vec<u8> = (0..5000u32).map(|i| (i * 37 % 256) as u8).collect();
    assert_eq!(calculate_checksum(&data), reference_checksum(&data));
    assert_eq!(calculate_checksum(&[255u8; 64]), reference_checksum(&[255u8; 64]));
}

#[test]
fn large_mock_state_layout() {
    let state = MockTeXEngineState::new_large();
    assert_eq!(state.memory_snapshot.len(), 1024 * 1024);
    assert_eq!(state.eqtb_data.len(), 256 * 1024);
    assert_eq!(state.buffer_data.len(), 64 * 1024);
    assert_eq!(state.font_data.len(), 128 * 1024);
    assert!(state.memory_snapshot.iter().all(|b| *b == 0));
    assert!(state.integer_params.iter().all(|v| *v == 42));
    assert_eq!(state.checksum, 0x12345678);
    assert_eq!(state.timestamp, 1234567890);
    assert_eq!(calculate_checksum(&state.font_data), 0);
}
