use tectonic_wasm::simd::{
    align_up, generate_randoms, memcpy_simd, generate_randoms_scalar, generate_randoms_simd, glyph_result_count,
    prepare_glyph_buffer, SIMDAllocator, SIMDBuffer, SIMDMemoryPool,
};

#[test]
fn test_simd_allocator() {
    let result = SIMDAllocator::allocate_aligned(64);
    assert!(result.is_ok());

    let block = result.unwrap();
    assert_eq!(block.as_slice().as_ptr() as usize % 16, 0);
    assert_eq!(block.len(), 64);
}

#[test]
fn test_simd_memory_pool() {
    let mut pool = SIMDMemoryPool::new();

    let result = pool.get_aligned_memory(32);
    assert!(result.is_ok());

    let ptr = result.unwrap();
    let (total, peak, count) = pool.get_stats();

    assert!(total >= 32);
    assert!(peak >= 32);
    assert_eq!(count, 1);

    pool.return_memory(ptr, 32);

    let result2 = pool.get_aligned_memory(32);
    assert!(result2.is_ok());

    let (total2, _peak2, count2) = pool.get_stats();
    assert_eq!(total2, total);
    assert_eq!(count2, 1);
}

#[test]
fn test_simd_buffer() {
    let result = SIMDBuffer::new(256);
    assert!(result.is_ok());

    let mut buffer = result.unwrap();
    assert_eq!(buffer.capacity(), 256);
    assert_eq!(buffer.size(), 0);

    let resize_result = buffer.resize(128);
    assert!(resize_result.is_ok());
    assert_eq!(buffer.size(), 128);

    let exceed_result = buffer.resize(512);
    assert!(exceed_result.is_err());
}

#[test]
fn test_scalar_random_generation() {
    let mut randoms = vec![100i32; 60];

    for i in 0..60 {
        randoms[i] = i as i32 * 100;
    }

    generate_randoms_scalar(&mut randoms);

    for i in 0..24 {
        if i + 31 < randoms.len() {
            assert_ne!(randoms[i], i as i32 * 100);
        }
    }
}

#[test]
fn test_glyph_data_processing() {
    let test_data = vec![1u8, 2, 3, 4, 5, 6, 7, 8, 9, 10, 11, 12, 13, 14, 15, 16];

    let count = glyph_result_count(&test_data);

    assert!(count > 0);
    assert_eq!(count, test_data.len() / 4);
}

#[test]
fn test_optimized_glyph_processing() {
    let test_data = vec![0u8; 32];

    let buffer_result = SIMDBuffer::new(64);
    assert!(buffer_result.is_ok());

    let mut buffer = buffer_result.unwrap();
    let results = prepare_glyph_buffer(&test_data, &mut buffer);

    assert!(results.is_ok());
    let output = results.unwrap();
    assert!(output > 0);
}

#[test]
fn test_memory_pool_initialization() {
    let pool = SIMDMemoryPool::new();

    let (allocated, peak, _count) = pool.get_stats();

    assert!(allocated <= peak);
}

#[test]
fn test_buffer_too_small() {
    let large_data = vec![0u8; 1024];
    let buffer_result = SIMDBuffer::new(128);

    assert!(buffer_result.is_ok());
    let mut buffer = buffer_result.unwrap();

    let result = prepare_glyph_buffer(&large_data, &mut buffer);
    assert!(result.is_err());
}

#[test]
fn scalar_refill_values_are_exact() {
    let mut randoms: Vec<i32> = (0..60).map(|i| i * 100).collect();
    generate_randoms_scalar(&mut randoms);
    // Entry 0 is 0 - 3100, negative, so the modulus is added.
    assert_eq!(randoms[0], 0x10000000 - 3100);
    assert_eq!(randoms[23], 2300 - 5400 + 0x10000000);
    // Entries from 24 on are untouched.
    assert_eq!(randoms[24], 2400);
    assert_eq!(randoms[59], 5900);
}

#[test]
fn scalar_refill_positive_difference_kept() {
    let mut randoms: Vec<i32> = vec![0; 40];
    randoms[0] = 500;
    randoms[31] = 200;
    generate_randoms_scalar(&mut randoms);
    assert_eq!(randoms[0], 300);
    // Entry 8 has partner 39, the last one; entry 9 has none.
    assert_eq!(randoms[8], 0);
    assert_eq!(randoms[9], 0);
}

#[test]
fn lane_refill_matches_scalar_on_full_tables() {
    let base: Vec<i32> = (0..60).map(|i| (i * 7919) % 0x10000000).collect();
    let mut scalar = base.clone();
    let mut lanes = base.clone();
    generate_randoms_scalar(&mut scalar);
    generate_randoms_simd(&mut lanes);
    assert_eq!(scalar, lanes);
}

#[test]
fn simd_refill_finishes_partial_chunks_with_scalar_steps() {
    // With 33 entries no whole chunk has its partners inside the table, so
    // entries 0 and 1 are refilled by the scalar steps, as the scalar pass
    // refills them.
    let base: Vec<i32> = (0..33).map(|i| i * 10).collect();
    let mut scalar = base.clone();
    let mut lanes = base.clone();
    generate_randoms_scalar(&mut scalar);
    generate_randoms_simd(&mut lanes);
    assert_eq!(lanes, scalar);
    assert_eq!(lanes[0], 0x10000000 - 310);
    assert_eq!(lanes[1], 10 - 320 + 0x10000000);
    assert_eq!(lanes[2], 20);
}

#[test]
fn simd_refill_agrees_with_scalar_for_every_length() {
    for len in 0..70 {
        let base: Vec<i32> = (0..len).map(|i| (i * 7919 + 13) % 0x10000000).collect();
        let mut scalar = base.clone();
        let mut lanes = base.clone();
        generate_randoms_scalar(&mut scalar);
        generate_randoms_simd(&mut lanes);
        assert_eq!(scalar, lanes, "length {}", len);
    }
}

#[test]
fn lane_refill_wraps_on_overflow() {
    let mut lanes = vec![0i32; 60];
    lanes[0] = i32::MIN;
    lanes[31] = 1;
    generate_randoms_simd(&mut lanes);
    // i32::MIN - 1 wraps to i32::MAX, which is not negative.
    assert_eq!(lanes[0], i32::MAX);
}

#[test]
fn dispatcher_uses_the_scalar_pass() {
    let base: Vec<i32> = (0..50).map(|i| i * 3).collect();
    let mut a = base.clone();
    let mut b = base.clone();
    generate_randoms(&mut a);
    generate_randoms_scalar(&mut b);
    assert_eq!(a, b);
}

#[test]
fn pool_reuses_the_most_recent_block_of_a_size() {
    let mut pool = SIMDMemoryPool::new();
    let a = pool.get_aligned_memory(20).unwrap();
    assert_eq!(a.len(), 32);
    let b = pool.get_aligned_memory(48).unwrap();
    assert_eq!(b.len(), 48);
    assert_eq!(pool.get_stats(), (80, 80, 2));
    pool.return_memory(a, 20);
    pool.return_memory(b, 48);
    // A request that rounds to 32 takes the returned 32-byte block.
    let c = pool.get_aligned_memory(17).unwrap();
    assert_eq!(c.len(), 32);
    assert_eq!(pool.get_stats(), (80, 80, 2));
    // No 16-byte block waits, so this one is allocated.
    let d = pool.get_aligned_memory(1).unwrap();
    assert_eq!(d.len(), 16);
    assert_eq!(pool.get_stats(), (96, 96, 3));
    pool.clear();
    assert_eq!(pool.get_stats(), (0, 96, 0));
}

#[test]
fn allocator_refuses_oversized_layouts() {
    let r = SIMDAllocator::allocate_aligned(isize::MAX as usize);
    assert_eq!(r.err(), Some("Invalid layout for SIMD allocation"));
}

#[test]
fn allocated_blocks_are_zeroed() {
    let block = SIMDAllocator::allocate_aligned(40).unwrap();
    assert!(block.as_slice().iter().all(|b| *b == 0));
}

#[test]
fn align_up_rounds_to_sixteen() {
    assert_eq!(align_up(0), 0);
    assert_eq!(align_up(1), 16);
    assert_eq!(align_up(16), 16);
    assert_eq!(align_up(17), 32);
}

#[test]
fn glyph_buffer_copies_and_pads() {
    let mut buffer = SIMDBuffer::new(64).unwrap();
    let data = vec![9u8, 8, 7, 6, 5];
    let n = prepare_glyph_buffer(&data, &mut buffer).unwrap();
    assert_eq!(n, 4);
    assert_eq!(buffer.size(), 16);
    let mut expected = data.clone();
    expected.resize(16, 0);
    assert_eq!(buffer.as_slice(), expected.as_slice());
}

#[test]
fn buffer_from_pool_and_release() {
    let mut pool = SIMDMemoryPool::new();
    let buffer = SIMDBuffer::from_pool(&mut pool, 100).unwrap();
    assert_eq!(buffer.capacity(), 100);
    assert_eq!(pool.get_stats(), (112, 112, 1));
    buffer.release(&mut pool);
    let again = SIMDBuffer::from_pool(&mut pool, 100).unwrap();
    assert_eq!(again.capacity(), 100);
    assert_eq!(pool.get_stats(), (112, 112, 1));
}

#[test]
fn resize_error_message() {
    let mut buffer = SIMDBuffer::new(8).unwrap();
    assert_eq!(buffer.resize(9), Err("Size exceeds buffer capacity"));
    assert_eq!(buffer.size(), 0);
}

#[test]
fn glyph_count_of_unaligned_data() {
    let data = vec![1u8; 8];
    assert_eq!(glyph_result_count(&data), 4);
}

#[test]
fn memcpy_simd_copies_whole_blocks_and_tail() {
    let src: Vec<u8> = (0u8..37).collect();
    let mut dest = vec![0xAAu8; 37];
    memcpy_simd(&mut dest, &src);
    assert_eq!(dest, src);

    let mut empty: Vec<u8> = Vec::new();
    memcpy_simd(&mut empty, &[]);
    assert!(empty.is_empty());

    let block: Vec<u8> = (100u8..116).collect();
    let mut out = vec![0u8; 16];
    memcpy_simd(&mut out, &block);
    assert_eq!(out, block);
}

#[test]
fn simd_buffer_as_mut_slice_writes_contents() {
    let mut buffer = SIMDBuffer::new(64).unwrap();
    buffer.resize(5).unwrap();
    {
        let bytes = buffer.as_mut_slice();
        assert_eq!(bytes.len(), 5);
        bytes.copy_from_slice(&[1, 2, 3, 4, 5]);
    }
    assert_eq!(buffer.as_slice(), &[1, 2, 3, 4, 5]);
    assert_eq!(buffer.size(), 5);
    assert_eq!(buffer.capacity(), 64);
}
