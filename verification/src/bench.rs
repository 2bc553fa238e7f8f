//! The mock engine state and the byte checksum that the state-capture
//! benchmarks time.
use vstd::prelude::*;

verus! {

/// The multiplicative checksum of a byte string: starting from zero, each
/// byte folds in as `acc * 31 + byte`, modulo 2^32.
pub open spec fn checksum31(s: Seq<u8>) -> u32
    decreases s.len(),
{
    if s.len() == 0 {
        0
    } else {
        ((checksum31(s.drop_last()) as nat * 31 + s.last() as nat) % 0x1_0000_0000) as u32
    }
}

/// The multiplicative checksum of `data`, with wrapping `u32` arithmetic.
pub fn calculate_checksum(data: &[u8]) -> (r: u32)
    ensures
        r == checksum31(data@),
{
    let mut acc: u32 = 0;
    let n = data.len();
    for i in 0..n
        invariant
            n == data@.len(),
            acc == checksum31(data@.take(i as int)),
    {
        let byte = data[i];
        let scaled = acc.wrapping_mul(31);
        let next = scaled.wrapping_add(byte as u32);
        proof {
            let prefix = data@.take(i + 1);
            assert(prefix.drop_last() =~= data@.take(i as int));
            assert(prefix.last() == byte);
            assert(scaled == (acc as int * 31) % 0x1_0000_0000);
            assert(next == (scaled as int + byte as int) % 0x1_0000_0000);
            vstd::arithmetic::div_mod::lemma_add_mod_noop(acc as int * 31, byte as int, 0x1_0000_0000);
            vstd::arithmetic::div_mod::lemma_small_mod(byte as nat, 0x1_0000_0000);
            assert(next == checksum31(prefix));
        }
        acc = next;
    }
    assert(data@.take(n as int) =~= data@);
    acc
}

/// Size of the mock memory snapshot (1 MiB).
pub const MOCK_MEMORY_BYTES: usize = 1048576;

/// Size of the mock equivalents table (256 KiB).
pub const MOCK_EQTB_BYTES: usize = 262144;

/// Size of the mock input buffer (64 KiB).
pub const MOCK_BUFFER_BYTES: usize = 65536;

/// Size of the mock font data (128 KiB).
pub const MOCK_FONT_BYTES: usize = 131072;

/// A stand-in for the engine state, sized like a real capture.
#[derive(Clone)]
pub struct MockTeXEngineState {
    pub memory_snapshot: Vec<u8>,
    pub eqtb_data: Vec<u8>,
    pub buffer_data: Vec<u8>,
    pub font_data: Vec<u8>,
    pub integer_params: [i32; 1000],
    pub checksum: u32,
    pub timestamp: u64,
}

/// `len` zero bytes.
pub open spec fn zeros(len: nat) -> Seq<u8> {
    Seq::new(len, |i: int| 0u8)
}

/// `len` zero bytes in a vector.
fn zero_vec(len: usize) -> (v: Vec<u8>)
    ensures
        v@ == zeros(len as nat),
{
    let mut v: Vec<u8> = Vec::new();
    let mut i: usize = 0;
    while i < len
        invariant
            i <= len,
            v@ == zeros(i as nat),
        decreases len - i,
    {
        v.push(0u8);
        i = i + 1;
        assert(v@ =~= zeros(i as nat));
    }
    v
}

impl MockTeXEngineState {
    /// A full-size mock state: zeroed memory (1 MiB), equivalents table
    /// (256 KiB), input buffer (64 KiB) and font data (128 KiB), a thousand
    /// integer parameters set to 42, and fixed checksum and timestamp.
    pub fn new_large() -> (r: Self)
        ensures
            r.memory_snapshot@ == zeros(1048576),
            r.eqtb_data@ == zeros(262144),
            r.buffer_data@ == zeros(65536),
            r.font_data@ == zeros(131072),
            forall|i: int| 0 <= i < 1000 ==> #[trigger] r.integer_params@[i] == 42i32,
            r.checksum == 0x12345678u32,
            r.timestamp == 1234567890u64,
    {
        MockTeXEngineState {
            memory_snapshot: zero_vec(MOCK_MEMORY_BYTES),
            eqtb_data: zero_vec(MOCK_EQTB_BYTES),
            buffer_data: zero_vec(MOCK_BUFFER_BYTES),
            font_data: zero_vec(MOCK_FONT_BYTES),
            integer_params: [42i32; 1000],
            checksum: 0x12345678,
            timestamp: 1234567890,
        }
    }
}

} // verus!
