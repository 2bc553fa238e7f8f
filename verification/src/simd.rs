//! Lane-parallel kernels of the typesetter and the pool of zeroed memory
//! blocks that feeds them (block sizes are rounded up to 16 bytes; the
//! blocks are plain vectors, with no guarantee on their address).
//!
//! The refill of TeX's lagged-Fibonacci random table comes in two forms: a
//! scalar pass, and a vector pass that rewrites whole chunks of four entries
//! with wrapping lane arithmetic and the entries left over with scalar
//! steps.  Both are written here in safe Rust; the vector form keeps the
//! exact chunking of the vector kernel, so that its contract (and the law
//! relating it to the scalar pass) says what the vector kernel computes.
use vstd::prelude::*;
use std::collections::HashMap;

verus! {

/// Additive modulus of the random table (2^28).
pub const RANDOM_MODULUS: i32 = 0x10000000;

/// Number of leading table entries that one refill pass may rewrite.
pub const REFILL_SPAN: usize = 24;

/// Distance between an entry and the entry subtracted from it.
pub const REFILL_LAG: usize = 31;

/// Number of lanes of the vector kernel.
pub const LANES: usize = 4;

/// The refilled value of an entry `a` whose lagged partner is `b`, computed
/// without wrapping.
pub open spec fn refill_value(a: i32, b: i32) -> int {
    let d = a - b;
    if d < 0 {
        d + RANDOM_MODULUS
    } else {
        d
    }
}

/// The refilled value as the vector lanes compute it: a wrapping difference,
/// corrected by a wrapping addition of the modulus where it is negative.
pub open spec fn lane_value(a: i32, b: i32) -> i32 {
    let d = vstd::wrapping::i32_specs::wrapping_sub(a, b);
    if d < 0 {
        vstd::wrapping::i32_specs::wrapping_add(d, RANDOM_MODULUS)
    } else {
        d
    }
}

/// Whether the scalar pass rewrites entry `k` of a table of `len` entries.
pub open spec fn scalar_rewrites(k: int, len: int) -> bool {
    0 <= k < REFILL_SPAN && k + REFILL_LAG < len
}

/// Whether the four-lane pass rewrites entry `k`: its whole chunk of four,
/// together with the chunk's lagged partners, must lie inside the table.
pub open spec fn lanes_rewrite(k: int, len: int) -> bool {
    0 <= k < REFILL_SPAN && (k - k % 4) + 3 + REFILL_LAG < len
}

/// No difference that the scalar pass computes leaves the range of `i32`.
pub open spec fn refill_fits(s: Seq<i32>) -> bool {
    forall|k: int|
        #![trigger s[k]]
        scalar_rewrites(k, s.len() as int) ==> i32::MIN <= s[k] - s[k + REFILL_LAG] <= i32::MAX
}

/// The table after the scalar pass.
pub open spec fn scalar_refill(s: Seq<i32>) -> Seq<i32> {
    Seq::new(
        s.len(),
        |k: int|
            if scalar_rewrites(k, s.len() as int) {
                refill_value(s[k], s[k + REFILL_LAG]) as i32
            } else {
                s[k]
            },
    )
}

/// The table after the whole four-lane chunks alone.
pub open spec fn lane_refill(s: Seq<i32>) -> Seq<i32> {
    Seq::new(
        s.len(),
        |k: int|
            if lanes_rewrite(k, s.len() as int) {
                lane_value(s[k], s[k + REFILL_LAG])
            } else {
                s[k]
            },
    )
}

/// No difference that the scalar steps of the vector pass compute leaves the
/// range of `i32`: those are the entries the scalar pass rewrites outside
/// whole four-lane chunks.
pub open spec fn remainder_fits(s: Seq<i32>) -> bool {
    forall|k: int|
        #![trigger s[k]]
        scalar_rewrites(k, s.len() as int) && !lanes_rewrite(k, s.len() as int) ==> i32::MIN <= s[k]
            - s[k + REFILL_LAG] <= i32::MAX
}

/// The table after the vector pass: whole four-lane chunks as the lanes
/// compute them, the remaining entries that the scalar pass rewrites as it
/// does, the rest unchanged.
pub open spec fn simd_refill(s: Seq<i32>) -> Seq<i32> {
    Seq::new(
        s.len(),
        |k: int|
            if lanes_rewrite(k, s.len() as int) {
                lane_value(s[k], s[k + REFILL_LAG])
            } else if scalar_rewrites(k, s.len() as int) {
                refill_value(s[k], s[k + REFILL_LAG]) as i32
            } else {
                s[k]
            },
    )
}

/// Refills the leading entries of the random table, one entry at a time:
/// each of the first 24 entries whose partner 31 places on lies inside the
/// table becomes its difference with that partner, taken modulo 2^28.
pub fn generate_randoms_scalar(randoms: &mut [i32])
    requires
        refill_fits(old(randoms)@),
    ensures
        final(randoms)@ == scalar_refill(old(randoms)@),
{
    let n = randoms.len();
    let end: usize = if n < REFILL_SPAN {
        n
    } else {
        REFILL_SPAN
    };
    let ghost s = randoms@;
    for k in 0..end
        invariant
            n == s.len(),
            end <= REFILL_SPAN,
            end <= n,
            randoms@.len() == n,
            refill_fits(s),
            forall|j: int| 0 <= j < k ==> #[trigger] randoms@[j] == scalar_refill(s)[j],
            forall|j: int| k <= j < n ==> #[trigger] randoms@[j] == s[j],
    {
        if k + REFILL_LAG < n {
            assert(scalar_rewrites(k as int, n as int));
            assert(s[k as int] == randoms@[k as int]);
            assert(s[k + REFILL_LAG] == randoms@[k + REFILL_LAG]);
            let mut x = randoms[k] - randoms[k + REFILL_LAG];
            if x < 0 {
                x += RANDOM_MODULUS;
            }
            randoms[k] = x;
        }
    }
    assert(randoms@ =~= scalar_refill(s));
}

/// Rewrites the whole four-lane chunks: chunks start at 0, 4, ..., 20, and
/// a chunk is rewritten only when it and its lagged partners lie wholly
/// inside the table.  Lane arithmetic wraps.
fn refill_lane_chunks(randoms: &mut [i32])
    ensures
        final(randoms)@ == lane_refill(old(randoms)@),
{
    let n = randoms.len();
    let ghost s = randoms@;
    let mut i: usize = 0;
    while i < REFILL_SPAN
        invariant
            n == s.len(),
            randoms@.len() == n,
            i % 4 == 0,
            i <= REFILL_SPAN,
            forall|j: int| 0 <= j < i && j < n ==> #[trigger] randoms@[j] == lane_refill(s)[j],
            forall|j: int| i <= j < n ==> #[trigger] randoms@[j] == s[j],
        decreases REFILL_SPAN - i,
    {
        if i + 3 < n && i + REFILL_LAG + 3 < n {
            let mut lane: usize = 0;
            while lane < LANES
                invariant
                    n == s.len(),
                    randoms@.len() == n,
                    i % 4 == 0,
                    i < REFILL_SPAN,
                    i + REFILL_LAG + 3 < n,
                    lane <= LANES,
                    forall|j: int| 0 <= j < i + lane && j < n ==> #[trigger] randoms@[j]
                        == lane_refill(s)[j],
                    forall|j: int| i + lane <= j < n ==> #[trigger] randoms@[j] == s[j],
                decreases LANES - lane,
            {
                let k = i + lane;
                assert(k % 4 == lane) by (nonlinear_arith)
                    requires
                        k == i + lane,
                        i % 4 == 0,
                        lane < 4,
                ;
                assert(lanes_rewrite(k as int, n as int));
                assert(s[k as int] == randoms@[k as int]);
                assert(s[k + REFILL_LAG] == randoms@[k + REFILL_LAG]);
                let diff = randoms[k].wrapping_sub(randoms[k + REFILL_LAG]);
                let corrected = if diff < 0 {
                    diff.wrapping_add(RANDOM_MODULUS)
                } else {
                    diff
                };
                randoms[k] = corrected;
                lane = lane + 1;
            }
        } else {
            assert forall|j: int| i <= j < i + 4 && j < n implies #[trigger] randoms@[j]
                == lane_refill(s)[j] by {
                assert(j - j % 4 == i) by (nonlinear_arith)
                    requires
                        i <= j < i + 4,
                        i % 4 == 0,
                ;
                assert(!lanes_rewrite(j, n as int));
            }
        }
        i = i + LANES;
    }
    assert(randoms@ =~= lane_refill(s));
}

/// Refills the leading entries of the random table as the vector kernel
/// does: whole chunks of four entries (with their lagged partners inside
/// the table) four lanes at a time with wrapping arithmetic, then the
/// remaining entries that have a partner with scalar steps.
pub fn generate_randoms_simd(randoms: &mut [i32])
    requires
        remainder_fits(old(randoms)@),
    ensures
        final(randoms)@ == simd_refill(old(randoms)@),
{
    let ghost s = randoms@;
    refill_lane_chunks(randoms);
    let n = randoms.len();
    let end: usize = if n < REFILL_SPAN {
        n
    } else {
        REFILL_SPAN
    };
    for k in 0..end
        invariant
            n == s.len(),
            end <= REFILL_SPAN,
            end <= n,
            randoms@.len() == n,
            remainder_fits(s),
            forall|j: int| 0 <= j < k ==> #[trigger] randoms@[j] == simd_refill(s)[j],
            forall|j: int| k <= j < n ==> #[trigger] randoms@[j] == lane_refill(s)[j],
    {
        let c = k - k % LANES;
        let whole_chunk = c + 3 < n && c + REFILL_LAG + 3 < n;
        assert(c == k - k % 4);
        assert(c <= k < c + 4) by (nonlinear_arith)
            requires
                c == k - k % 4,
        ;
        assert(whole_chunk == lanes_rewrite(k as int, n as int));
        if !whole_chunk && k + REFILL_LAG < n {
            assert(scalar_rewrites(k as int, n as int));
            assert(randoms@[k as int] == lane_refill(s)[k as int]);
            assert(randoms@[k + REFILL_LAG] == lane_refill(s)[k + REFILL_LAG]);
            assert(!lanes_rewrite(k + REFILL_LAG, n as int));
            assert(s[k as int] == randoms@[k as int]);
            assert(s[k + REFILL_LAG] == randoms@[k + REFILL_LAG]);
            let mut x = randoms[k] - randoms[k + REFILL_LAG];
            if x < 0 {
                x += RANDOM_MODULUS;
            }
            randoms[k] = x;
        } else {
            assert(randoms@[k as int] == lane_refill(s)[k as int]);
        }
    }
    assert forall|j: int| 0 <= j < n implies #[trigger] randoms@[j] == simd_refill(s)[j] by {
        if j >= end {
            assert(!scalar_rewrites(j, n as int));
            assert(!lanes_rewrite(j, n as int));
            assert(randoms@[j] == lane_refill(s)[j]);
        }
    }
    assert(randoms@ =~= simd_refill(s));
}

/// Refills the random table with the portable kernel.
pub fn generate_randoms(randoms: &mut [i32])
    requires
        refill_fits(old(randoms)@),
    ensures
        final(randoms)@ == scalar_refill(old(randoms)@),
{
    generate_randoms_scalar(randoms);
}

/// The two refill passes agree, for a table of any length, wherever no
/// difference that the scalar pass computes overflows.
pub proof fn lemma_simd_refill_matches_scalar(s: Seq<i32>)
    requires
        refill_fits(s),
    ensures
        remainder_fits(s),
        simd_refill(s) == scalar_refill(s),
{
    let n = s.len() as int;
    assert forall|k: int| 0 <= k < n implies #[trigger] simd_refill(s)[k] == scalar_refill(s)[k] by {
        let c = k - k % 4;
        assert(c <= k < c + 4) by (nonlinear_arith)
            requires
                c == k - k % 4,
                0 <= k,
        ;
        if scalar_rewrites(k, n) {
            let a = s[k];
            let b = s[k + REFILL_LAG];
            assert(i32::MIN <= a - b <= i32::MAX);
        }
    }
    assert(simd_refill(s) =~= scalar_refill(s));
}

/// Copies `src` into `dest`, which must be as long: sixteen bytes at a time,
/// then the bytes that do not fill a whole block.
pub fn memcpy_simd(dest: &mut [u8], src: &[u8])
    requires
        old(dest)@.len() == src@.len(),
    ensures
        final(dest)@ == src@,
{
    let len = src.len();
    let chunks = len / 16;
    let mut i: usize = 0;
    while i < chunks
        invariant
            len == src@.len(),
            dest@.len() == len,
            chunks == len / 16,
            i <= chunks,
            forall|j: int| 0 <= j < 16 * i ==> #[trigger] dest@[j] == src@[j],
        decreases chunks - i,
    {
        let base = 16 * i;
        let mut k: usize = 0;
        while k < 16
            invariant
                len == src@.len(),
                dest@.len() == len,
                chunks == len / 16,
                i < chunks,
                base == 16 * i,
                k <= 16,
                forall|j: int| 0 <= j < base + k ==> #[trigger] dest@[j] == src@[j],
            decreases 16 - k,
        {
            dest[base + k] = src[base + k];
            k = k + 1;
        }
        i = i + 1;
    }
    let mut r: usize = 16 * chunks;
    while r < len
        invariant
            len == src@.len(),
            dest@.len() == len,
            16 * chunks <= r <= len,
            forall|j: int| 0 <= j < r ==> #[trigger] dest@[j] == src@[j],
        decreases len - r,
    {
        dest[r] = src[r];
        r = r + 1;
    }
    assert(dest@ =~= src@);
}

// ---------------------------------------------------------------------------
// Memory blocks
// ---------------------------------------------------------------------------

/// Granularity, in bytes, to which block sizes are rounded up: the width
/// of a vector register.
pub const SIMD_ALIGN: usize = 16;

/// `size` rounded up to the next multiple of 16.
pub open spec fn aligned_size(size: int) -> int {
    (size + 15) / 16 * 16
}

/// Whether a layout of `size` bytes with 16-byte alignment would exist (the
/// limit the allocator's layout check imposes): rounded up to 16, the size
/// must not exceed `isize::MAX`.
pub open spec fn layout_fits(size: int) -> bool {
    size <= isize::MAX - 15
}

/// `len` zero bytes.
pub open spec fn zero_bytes(len: int) -> Seq<u8> {
    Seq::new(len as nat, |i: int| 0u8)
}

/// Rounds `size` up to the next multiple of 16.
pub fn align_up(size: usize) -> (r: usize)
    requires
        size <= usize::MAX - 15,
    ensures
        r == aligned_size(size as int),
        size <= r < size + 16,
        r % 16 == 0,
{
    let r = (size + 15) / SIMD_ALIGN * SIMD_ALIGN;
    assert(size <= r < size + 16 && r % 16 == 0) by (nonlinear_arith)
        requires
            r == (size + 15) / 16 * 16,
    ;
    r
}

/// Asks the allocator, through `Vec::try_reserve_exact`, for room for `len`
/// bytes.  Whether the allocator grants the request depends on the machine,
/// so nothing is said of which outcome comes back; a granted vector is empty.
#[verifier::external_body]
fn reserve_bytes(len: usize) -> (r: Option<Vec<u8>>)
    ensures
        r matches Some(v) ==> v@.len() == 0,
{
    let mut v: Vec<u8> = Vec::new();
    match v.try_reserve_exact(len) {
        Ok(()) => Some(v),
        Err(_) => None,
    }
}

/// An owned, zero-initialised block of memory for the vector kernels: a
/// plain byte vector, with no guarantee on its address.
pub struct SimdBlock {
    bytes: Vec<u8>,
}

impl View for SimdBlock {
    type V = Seq<u8>;

    closed spec fn view(&self) -> Seq<u8> {
        self.bytes@
    }
}

impl SimdBlock {
    /// Number of bytes in the block.
    pub fn len(&self) -> (r: usize)
        ensures
            r == self@.len(),
    {
        self.bytes.len()
    }

    /// The bytes of the block.
    pub fn as_slice(&self) -> (r: &[u8])
        ensures
            r@ == self@,
    {
        self.bytes.as_slice()
    }
}

/// A block of `len` zero bytes, or `None` where the allocator refuses.
fn zeroed_block(len: usize) -> (r: Option<SimdBlock>)
    ensures
        r matches Some(b) ==> b@ == zero_bytes(len as int),
{
    match reserve_bytes(len) {
        None => None,
        Some(mut bytes) => {
            let mut i: usize = 0;
            while i < len
                invariant
                    i <= len,
                    bytes@ == zero_bytes(i as int),
                decreases len - i,
            {
                bytes.push(0u8);
                i = i + 1;
                assert(bytes@ =~= zero_bytes(i as int));
            }
            Some(SimdBlock { bytes })
        },
    }
}

/// Allocator of zero-initialised blocks for the vector kernels.
pub struct SIMDAllocator;

impl SIMDAllocator {
    /// Allocates a zeroed block of `size` bytes.  A size that no 16-byte
    /// aligned layout admits is refused with "Invalid layout for SIMD
    /// allocation"; otherwise the block comes back, unless the allocator has
    /// no room, which is reported as "Failed to allocate SIMD-aligned memory".
    /// The block is a plain byte vector: nothing is promised of its address.
    pub fn allocate_aligned(size: usize) -> (r: Result<SimdBlock, &'static str>)
        ensures
            !layout_fits(size as int) ==> (r matches Err(e) && e@
                == "Invalid layout for SIMD allocation"@),
            layout_fits(size as int) ==> match r {
                Ok(b) => b@ == zero_bytes(size as int),
                Err(e) => e@ == "Failed to allocate SIMD-aligned memory"@,
            },
    {
        let limit: usize = (isize::MAX as usize) - 15;
        if size > limit {
            return Err("Invalid layout for SIMD allocation");
        }
        match zeroed_block(size) {
            Some(b) => Ok(b),
            None => Err("Failed to allocate SIMD-aligned memory"),
        }
    }
}

/// The contents of a list of blocks.
pub open spec fn block_views(v: Seq<SimdBlock>) -> Seq<Seq<u8>> {
    v.map_values(|b: SimdBlock| b@)
}

/// Pool of blocks for the vector kernels, reused by rounded size.
///
/// Blocks handed back wait in a free list for their rounded size; a request
/// takes the most recently returned block of its rounded size, and only
/// when there is none does the pool allocate, counting the bytes and the
/// allocation.
pub struct SIMDMemoryPool {
    pools: HashMap<usize, Vec<SimdBlock>>,
    total_allocated: usize,
    peak_usage: usize,
    allocation_count: u32,
}

impl SIMDMemoryPool {
    /// The free lists by rounded size, each oldest first.
    pub closed spec fn free_lists(&self) -> Map<usize, Seq<Seq<u8>>> {
        self.pools@.map_values(|v: Vec<SimdBlock>| block_views(v@))
    }

    /// The free list for rounded size `s`, empty where there is none.
    pub open spec fn free_list(&self, s: int) -> Seq<Seq<u8>> {
        if 0 <= s <= usize::MAX && self.free_lists().contains_key(s as usize) {
            self.free_lists()[s as usize]
        } else {
            Seq::empty()
        }
    }

    /// Whether a block of rounded size `s` is waiting for reuse.
    pub open spec fn has_free(&self, s: int) -> bool {
        self.free_list(s).len() > 0
    }

    /// Bytes allocated since the pool was created or last cleared.
    pub closed spec fn total(&self) -> nat {
        self.total_allocated as nat
    }

    /// Highest value that `total` has reached.
    pub closed spec fn peak(&self) -> nat {
        self.peak_usage as nat
    }

    /// Allocations made since the pool was created or last cleared.
    pub closed spec fn count(&self) -> nat {
        self.allocation_count as nat
    }

    /// The pool's invariant: the allocated total never exceeds its peak,
    /// and every waiting block is as long as the size it waits under.
    pub open spec fn wf(&self) -> bool {
        &&& self.total() <= self.peak()
        &&& self.peak() <= usize::MAX
        &&& self.count() <= u32::MAX
        &&& forall|k: usize, i: int|
            #![trigger self.free_lists()[k][i]]
            self.free_lists().contains_key(k) && 0 <= i < self.free_lists()[k].len()
                ==> self.free_lists()[k][i].len() == k
    }

    /// Whether a request of `size` bytes would have to allocate, and the
    /// counters then have room for it.
    pub open spec fn can_allocate(&self, size: int) -> bool {
        !self.has_free(aligned_size(size)) && layout_fits(aligned_size(size)) ==> self.total()
            + aligned_size(size) <= usize::MAX && self.count() < u32::MAX
    }

    /// An empty pool with zeroed statistics.
    pub fn new() -> (r: Self)
        ensures
            r.wf(),
            r.free_lists() == Map::<usize, Seq<Seq<u8>>>::empty(),
            r.total() == 0,
            r.peak() == 0,
            r.count() == 0,
    {
        let r = SIMDMemoryPool {
            pools: HashMap::new(),
            total_allocated: 0,
            peak_usage: 0,
            allocation_count: 0,
        };
        assert(r.free_lists() =~= Map::<usize, Seq<Seq<u8>>>::empty());
        r
    }

    /// Hands out a zeroed block of `size` bytes rounded up to 16.  The most
    /// recently returned block of that size is reused when there is one, and
    /// the statistics stay as they are; otherwise a fresh block is allocated
    /// and counted, and the peak follows the total.
    pub fn get_aligned_memory(&mut self, size: usize) -> (r: Result<SimdBlock, &'static str>)
        requires
            old(self).wf(),
            size <= usize::MAX - 15,
            old(self).can_allocate(size as int),
        ensures
            final(self).wf(),
            ({
                let s = aligned_size(size as int);
                if old(self).has_free(s) {
                    &&& r matches Ok(b) && b@ == old(self).free_list(s).last()
                    &&& final(self).free_lists() == old(self).free_lists().insert(
                        s as usize,
                        old(self).free_list(s).drop_last(),
                    )
                    &&& final(self).total() == old(self).total()
                    &&& final(self).peak() == old(self).peak()
                    &&& final(self).count() == old(self).count()
                } else if !layout_fits(s) {
                    &&& r matches Err(e) && e@ == "Invalid layout for SIMD allocation"@
                    &&& final(self).free_lists() == old(self).free_lists()
                    &&& final(self).total() == old(self).total()
                    &&& final(self).peak() == old(self).peak()
                    &&& final(self).count() == old(self).count()
                } else {
                    &&& final(self).free_lists() == old(self).free_lists()
                    &&& match r {
                        Ok(b) => {
                            &&& b@ == zero_bytes(s)
                            &&& final(self).total() == old(self).total() + s
                            &&& final(self).count() == old(self).count() + 1
                            &&& final(self).peak() == if old(self).total() + s > old(self).peak() {
                                old(self).total() + s
                            } else {
                                old(self).peak() as int
                            }
                        },
                        Err(e) => {
                            &&& e@ == "Failed to allocate SIMD-aligned memory"@
                            &&& final(self).total() == old(self).total()
                            &&& final(self).peak() == old(self).peak()
                            &&& final(self).count() == old(self).count()
                        },
                    }
                }
            }),
    {
        broadcast use vstd::std_specs::hash::group_hash_axioms;
        let aligned = align_up(size);
        let ghost lists = self.free_lists();
        match self.pools.remove(&aligned) {
            Some(mut list) => {
                let ghost views = block_views(list@);
                assert(lists.contains_key(aligned) && lists[aligned] == views);
                if list.len() > 0 {
                    let b = list.pop().unwrap();
                    self.pools.insert(aligned, list);
                    proof {
                        assert(block_views(list@) =~= views.drop_last());
                        assert(self.free_lists() =~= lists.insert(aligned, views.drop_last()));
                        assert(b@ == views.last());
                        assert forall|k: usize, i: int|
                            #![trigger self.free_lists()[k][i]]
                            self.free_lists().contains_key(k) && 0 <= i < self.free_lists()[k].len()
                                implies self.free_lists()[k][i].len() == k by {
                            if k == aligned {
                                assert(self.free_lists()[k][i] == lists[k][i]);
                            } else {
                                assert(self.free_lists()[k] == lists[k]);
                            }
                        }
                    }
                    return Ok(b);
                }
                self.pools.insert(aligned, list);
                assert(self.free_lists() =~= lists);
            },
            None => {
                assert(!lists.contains_key(aligned));
                assert(self.free_lists() =~= lists);
            },
        }
        match SIMDAllocator::allocate_aligned(aligned) {
            Err(e) => Err(e),
            Ok(b) => {
                self.total_allocated = self.total_allocated + aligned;
                self.allocation_count = self.allocation_count + 1;
                if self.total_allocated > self.peak_usage {
                    self.peak_usage = self.total_allocated;
                }
                Ok(b)
            },
        }
    }

    /// Hands `block`, obtained for a request of `size` bytes, back to the
    /// pool for reuse: it goes to the end of the free list of its rounded
    /// size.
    pub fn return_memory(&mut self, block: SimdBlock, size: usize)
        requires
            old(self).wf(),
            size <= usize::MAX - 15,
            block@.len() == aligned_size(size as int),
        ensures
            final(self).wf(),
            final(self).free_lists() == old(self).free_lists().insert(
                aligned_size(size as int) as usize,
                old(self).free_list(aligned_size(size as int)).push(block@),
            ),
            final(self).total() == old(self).total(),
            final(self).peak() == old(self).peak(),
            final(self).count() == old(self).count(),
    {
        broadcast use vstd::std_specs::hash::group_hash_axioms;
        let aligned = align_up(size);
        let ghost lists = self.free_lists();
        let ghost b = block@;
        let mut list = match self.pools.remove(&aligned) {
            Some(l) => l,
            None => Vec::new(),
        };
        let ghost views = block_views(list@);
        assert(views == old(self).free_list(aligned as int));
        list.push(block);
        self.pools.insert(aligned, list);
        proof {
            assert(block_views(list@) =~= views.push(b));
            assert(self.free_lists() =~= lists.insert(aligned, views.push(b)));
        }
    }

    /// The allocated total, its peak and the number of allocations.
    pub fn get_stats(&self) -> (r: (usize, usize, u32))
        ensures
            r.0 == self.total(),
            r.1 == self.peak(),
            r.2 == self.count(),
    {
        (self.total_allocated, self.peak_usage, self.allocation_count)
    }

    /// Releases every waiting block and resets the total and the count; the
    /// peak is kept.
    pub fn clear(&mut self)
        requires
            old(self).wf(),
        ensures
            final(self).wf(),
            final(self).free_lists() == Map::<usize, Seq<Seq<u8>>>::empty(),
            final(self).total() == 0,
            final(self).count() == 0,
            final(self).peak() == old(self).peak(),
    {
        self.pools.clear();
        self.total_allocated = 0;
        self.allocation_count = 0;
        assert(self.free_lists() =~= Map::<usize, Seq<Seq<u8>>>::empty());
    }
}

/// A block returned to the pool is the very block that the next request of
/// the same rounded size receives, and taking it leaves the free lists as
/// they were before the return (a size that had no list keeps an empty
/// one).
pub proof fn lemma_returned_block_is_reused(pool: SIMDMemoryPool, returned: SIMDMemoryPool, block: Seq<u8>, size: int)
    requires
        0 <= aligned_size(size) <= usize::MAX,
        returned.free_lists() == pool.free_lists().insert(
            aligned_size(size) as usize,
            pool.free_list(aligned_size(size)).push(block),
        ),
    ensures
        returned.has_free(aligned_size(size)),
        returned.free_list(aligned_size(size)).last() == block,
        returned.free_lists().insert(
            aligned_size(size) as usize,
            returned.free_list(aligned_size(size)).drop_last(),
        ) == pool.free_lists().insert(aligned_size(size) as usize, pool.free_list(aligned_size(size))),
{
    let s = aligned_size(size) as usize;
    assert(returned.free_list(aligned_size(size)) == pool.free_list(aligned_size(size)).push(block));
    assert(pool.free_list(aligned_size(size)).push(block).drop_last() =~= pool.free_list(aligned_size(size)));
    assert(returned.free_lists().insert(s, returned.free_list(aligned_size(size)).drop_last()) =~= pool.free_lists().insert(s, pool.free_list(aligned_size(size))));
}

// ---------------------------------------------------------------------------
// Reusable buffers
// ---------------------------------------------------------------------------

/// A buffer over a block from the allocator or the pool: `capacity` bytes were asked for, the
/// block holds that many rounded up to 16, and the first `size` bytes are in
/// use.
pub struct SIMDBuffer {
    block: SimdBlock,
    size: usize,
    capacity: usize,
}

impl SIMDBuffer {
    /// The bytes in use.
    pub closed spec fn contents(&self) -> Seq<u8> {
        self.block@.take(self.size as int)
    }

    /// The whole underlying block.
    pub closed spec fn storage(&self) -> Seq<u8> {
        self.block@
    }

    /// The capacity that was asked for.
    pub closed spec fn cap(&self) -> nat {
        self.capacity as nat
    }

    /// The buffer's invariant: the block is the capacity rounded up to 16,
    /// and no more than the capacity is in use.
    pub closed spec fn wf(&self) -> bool {
        &&& self.size <= self.capacity
        &&& self.capacity <= usize::MAX - 15
        &&& self.block@.len() == aligned_size(self.capacity as int)
    }

    /// An empty buffer of the given capacity over a freshly allocated block.
    /// The errors are those of `SIMDAllocator::allocate_aligned` on the
    /// rounded capacity.
    pub fn new(capacity: usize) -> (r: Result<Self, &'static str>)
        requires
            capacity <= usize::MAX - 15,
        ensures
            !layout_fits(aligned_size(capacity as int)) ==> (r matches Err(e) && e@
                == "Invalid layout for SIMD allocation"@),
            layout_fits(aligned_size(capacity as int)) ==> match r {
                Ok(b) => {
                    &&& b.wf()
                    &&& b.cap() == capacity
                    &&& b.contents() == Seq::<u8>::empty()
                    &&& b.storage() == zero_bytes(aligned_size(capacity as int))
                },
                Err(e) => e@ == "Failed to allocate SIMD-aligned memory"@,
            },
    {
        let aligned = align_up(capacity);
        match SIMDAllocator::allocate_aligned(aligned) {
            Err(e) => Err(e),
            Ok(block) => {
                let b = SIMDBuffer { block, size: 0, capacity };
                assert(b.contents() =~= Seq::<u8>::empty());
                Ok(b)
            },
        }
    }

    /// An empty buffer of the given capacity over a block taken from `pool`,
    /// as `SIMDMemoryPool::get_aligned_memory` hands it out: the most
    /// recently returned block of the rounded capacity when there is one,
    /// which always succeeds; otherwise a fresh block, refused as that
    /// allocation is refused.
    pub fn from_pool(pool: &mut SIMDMemoryPool, capacity: usize) -> (r: Result<
        Self,
        &'static str,
    >)
        requires
            old(pool).wf(),
            capacity <= usize::MAX - 15,
            old(pool).can_allocate(capacity as int),
        ensures
            final(pool).wf(),
            r matches Ok(b) ==> b.wf() && b.cap() == capacity && b.contents() == Seq::<u8>::empty(),
            ({
                let s = aligned_size(capacity as int);
                if old(pool).has_free(s) {
                    &&& r matches Ok(b) && b.storage() == old(pool).free_list(s).last()
                    &&& final(pool).free_lists() == old(pool).free_lists().insert(
                        s as usize,
                        old(pool).free_list(s).drop_last(),
                    )
                    &&& final(pool).total() == old(pool).total()
                    &&& final(pool).peak() == old(pool).peak()
                    &&& final(pool).count() == old(pool).count()
                } else if !layout_fits(s) {
                    &&& r matches Err(e) && e@ == "Invalid layout for SIMD allocation"@
                    &&& final(pool).free_lists() == old(pool).free_lists()
                    &&& final(pool).total() == old(pool).total()
                    &&& final(pool).peak() == old(pool).peak()
                    &&& final(pool).count() == old(pool).count()
                } else {
                    &&& final(pool).free_lists() == old(pool).free_lists()
                    &&& match r {
                        Ok(b) => {
                            &&& b.storage() == zero_bytes(s)
                            &&& final(pool).total() == old(pool).total() + s
                            &&& final(pool).count() == old(pool).count() + 1
                            &&& final(pool).peak() == if old(pool).total() + s > old(pool).peak() {
                                old(pool).total() + s
                            } else {
                                old(pool).peak() as int
                            }
                        },
                        Err(e) => {
                            &&& e@ == "Failed to allocate SIMD-aligned memory"@
                            &&& final(pool).total() == old(pool).total()
                            &&& final(pool).peak() == old(pool).peak()
                            &&& final(pool).count() == old(pool).count()
                        },
                    }
                }
            }),
    {
        match pool.get_aligned_memory(capacity) {
            Err(e) => Err(e),
            Ok(block) => {
                let b = SIMDBuffer { block, size: 0, capacity };
                assert(b.contents() =~= Seq::<u8>::empty());
                Ok(b)
            },
        }
    }

    /// Hands the buffer's block back to `pool` for reuse.
    pub fn release(self, pool: &mut SIMDMemoryPool)
        requires
            self.wf(),
            old(pool).wf(),
        ensures
            final(pool).wf(),
            final(pool).free_lists() == old(pool).free_lists().insert(
                aligned_size(self.cap() as int) as usize,
                old(pool).free_list(aligned_size(self.cap() as int)).push(self.storage()),
            ),
            final(pool).total() == old(pool).total(),
            final(pool).peak() == old(pool).peak(),
            final(pool).count() == old(pool).count(),
    {
        let capacity = self.capacity;
        pool.return_memory(self.block, capacity);
    }

    /// Sets the number of bytes in use, up to the capacity; a larger size is
    /// refused with "Size exceeds buffer capacity" and changes nothing.
    pub fn resize(&mut self, new_size: usize) -> (r: Result<(), &'static str>)
        requires
            old(self).wf(),
        ensures
            final(self).wf(),
            final(self).cap() == old(self).cap(),
            final(self).storage() == old(self).storage(),
            new_size > old(self).cap() ==> (r matches Err(e) && e@
                == "Size exceeds buffer capacity"@
                && final(self).contents() == old(self).contents()),
            new_size <= old(self).cap() ==> (r is Ok
                && final(self).contents() == old(self).storage().take(new_size as int)),
    {
        if new_size > self.capacity {
            return Err("Size exceeds buffer capacity");
        }
        self.size = new_size;
        Ok(())
    }

    /// Number of bytes in use.
    pub fn size(&self) -> (r: usize)
        requires
            self.wf(),
        ensures
            r == self.contents().len(),
    {
        proof {
            assert(self.block@.len() >= self.capacity) by (nonlinear_arith)
                requires
                    self.block@.len() == aligned_size(self.capacity as int),
            ;
        }
        self.size
    }

    /// The capacity that was asked for.
    pub fn capacity(&self) -> (r: usize)
        ensures
            r == self.cap(),
    {
        self.capacity
    }

    /// The bytes in use, for writing in place.  Whatever is written through
    /// the slice, without changing its length, becomes the buffer's contents;
    /// the size, the capacity and the bytes past the size stay as they were.
    pub fn as_mut_slice(&mut self) -> (r: &mut [u8])
        requires
            old(self).wf(),
        ensures
            r@ == old(self).contents(),
            final(self).cap() == old(self).cap(),
            final(r)@.len() == r@.len() ==> {
                &&& final(self).wf()
                &&& final(self).contents() == final(r)@
                &&& final(self).storage() == final(r)@ + old(self).storage().skip(
                    old(self).contents().len() as int,
                )
            },
    {
        proof {
            assert(self.block@.len() >= self.capacity) by (nonlinear_arith)
                requires
                    self.block@.len() == aligned_size(self.capacity as int),
            ;
        }
        let all = self.block.bytes.as_mut_slice();
        let (front, _rest) = all.split_at_mut(self.size);
        front
    }

    /// The bytes in use.
    pub fn as_slice(&self) -> (r: &[u8])
        requires
            self.wf(),
        ensures
            r@ == self.contents(),
    {
        proof {
            assert(self.block@.len() >= self.capacity) by (nonlinear_arith)
                requires
                    self.block@.len() == aligned_size(self.capacity as int),
            ;
        }
        let all = self.block.as_slice();
        let r = vstd::slice::slice_subrange(all, 0, self.size);
        assert(r@ =~= self.contents());
        r
    }
}

/// Loads glyph data into `buffer` for the vector kernel: the data is copied
/// to the front of the buffer and zero-padded to a multiple of 16, and the
/// number of four-byte lanes so filled is returned.  A buffer whose capacity
/// is below the padded length is refused with "Buffer too small for glyph
/// data" and left as it was.
pub fn prepare_glyph_buffer(glyph_data: &[u8], buffer: &mut SIMDBuffer) -> (r: Result<
    usize,
    &'static str,
>)
    requires
        old(buffer).wf(),
        glyph_data@.len() <= usize::MAX - 15,
    ensures
        final(buffer).wf(),
        final(buffer).cap() == old(buffer).cap(),
        (r is Err) <==> old(buffer).cap() < aligned_size(glyph_data@.len() as int),
        r matches Err(e) ==> e@ == "Buffer too small for glyph data"@ && final(buffer).contents()
            == old(buffer).contents() && final(buffer).storage() == old(buffer).storage(),
        r matches Ok(n) ==> n == aligned_size(glyph_data@.len() as int) / 4
            && final(buffer).contents() == glyph_data@ + zero_bytes(
            aligned_size(glyph_data@.len() as int) - glyph_data@.len()),
{
    let len = glyph_data.len();
    let required = align_up(len);
    if buffer.capacity < required {
        return Err("Buffer too small for glyph data");
    }
    proof {
        assert(buffer.block@.len() >= buffer.capacity) by (nonlinear_arith)
            requires
                buffer.block@.len() == aligned_size(buffer.capacity as int),
        ;
    }
    buffer.size = required;
    let ghost target = glyph_data@ + zero_bytes(required - len);
    let mut i: usize = 0;
    while i < required
        invariant
            len == glyph_data@.len(),
            len <= required,
            required <= buffer.capacity,
            buffer.capacity == old(buffer).capacity,
            buffer.size == required,
            buffer.wf(),
            buffer.block@.len() >= required,
            target == glyph_data@ + zero_bytes(required - len),
            i <= required,
            forall|j: int| 0 <= j < i ==> #[trigger] buffer.block@[j] == target[j],
        decreases required - i,
    {
        let byte: u8 = if i < len {
            glyph_data[i]
        } else {
            0u8
        };
        buffer.block.bytes.set(i, byte);
        i = i + 1;
    }
    assert(buffer.contents() =~= target);
    Ok(required / 4)
}

/// Number of glyph results for `glyph_data`: the data goes through a fresh
/// buffer of its padded length, giving one result per four padded bytes;
/// where no such buffer can be had, one result per four bytes of the data.
pub fn glyph_result_count(glyph_data: &[u8]) -> (r: usize)
    requires
        glyph_data@.len() <= usize::MAX - 31,
    ensures
        r == aligned_size(glyph_data@.len() as int) / 4 || r == glyph_data@.len() / 4,
        !layout_fits(aligned_size(glyph_data@.len() as int)) ==> r == glyph_data@.len() / 4,
{
    let len = glyph_data.len();
    let buffer_size = align_up(len);
    proof {
        assert(aligned_size(buffer_size as int) == buffer_size) by (nonlinear_arith)
            requires
                buffer_size % 16 == 0,
                buffer_size >= 0,
        ;
    }
    match SIMDBuffer::new(buffer_size) {
        Ok(mut buffer) => match prepare_glyph_buffer(glyph_data, &mut buffer) {
            Ok(n) => n,
            Err(_) => len / 4,
        },
        Err(_) => len / 4,
    }
}

} // verus!
