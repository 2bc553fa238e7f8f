//! Content and state hashing. Fast structural hashes are SipHash-1-3
//! (128-bit) over the byte stream that `std::hash::Hash` would feed the
//! hasher; text hashes are the first sixteen bytes of SHA-256, read
//! big-endian.

use vstd::prelude::*;
use vstd::utf8::encode_utf8;
use crate::encoding::{enc_tag, push_tag, le_bytes, push_le_bytes, be_bytes, push_be_bytes, enc_i32, enc_u64, enc_u128, enc_usize, enc_bool, enc_str, be_value, push_i32, push_u64, push_u128, push_usize, push_bool, push_bytes, push_utf8, push_str, u128_from_be_prefix};
use crate::digests::{spec_siphash13, spec_sha256, siphash13_128, sha256_digest};
use crate::string_map::{StringMap, sort_strings, sorted_strings, string_views};
use crate::macros::MacroTracker;
use crate::int_map::IntMap;

verus! {

/// A value that can be fed to a hasher: the bytes it contributes.
pub trait HashInput {
    /// The bytes that hashing this value writes.
    spec fn hash_bytes(&self) -> Seq<u8>;

    /// Appends `hash_bytes()` to `out`.
    fn append_hash_bytes(&self, out: &mut Vec<u8>)
        ensures
            final(out)@ == old(out)@ + self.hash_bytes(),
    ;
}

impl HashInput for i32 {
    open spec fn hash_bytes(&self) -> Seq<u8> {
        enc_i32(*self)
    }

    fn append_hash_bytes(&self, out: &mut Vec<u8>) {
        push_i32(out, *self);
    }
}

impl HashInput for u64 {
    open spec fn hash_bytes(&self) -> Seq<u8> {
        enc_u64(*self)
    }

    fn append_hash_bytes(&self, out: &mut Vec<u8>) {
        push_u64(out, *self);
    }
}

impl HashInput for u128 {
    open spec fn hash_bytes(&self) -> Seq<u8> {
        enc_u128(*self)
    }

    fn append_hash_bytes(&self, out: &mut Vec<u8>) {
        push_u128(out, *self);
    }
}

impl HashInput for usize {
    open spec fn hash_bytes(&self) -> Seq<u8> {
        enc_usize(*self)
    }

    fn append_hash_bytes(&self, out: &mut Vec<u8>) {
        push_usize(out, *self);
    }
}

impl HashInput for bool {
    open spec fn hash_bytes(&self) -> Seq<u8> {
        enc_bool(*self)
    }

    fn append_hash_bytes(&self, out: &mut Vec<u8>) {
        push_bool(out, *self);
    }
}

impl HashInput for String {
    open spec fn hash_bytes(&self) -> Seq<u8> {
        enc_str(self@)
    }

    fn append_hash_bytes(&self, out: &mut Vec<u8>) {
        push_str(out, self.as_str());
    }
}

impl<'a> HashInput for &'a str {
    open spec fn hash_bytes(&self) -> Seq<u8> {
        enc_str((*self)@)
    }

    fn append_hash_bytes(&self, out: &mut Vec<u8>) {
        push_str(out, *self);
    }
}

/// The first sixteen bytes of the SHA-256 digest of `data`, big-endian.
pub open spec fn sha256_u128(data: Seq<u8>) -> u128 {
    be_value(spec_sha256(data).subrange(0, 16)) as u128
}

/// Hash of a TeX source text.
pub open spec fn tex_source_hash(source: Seq<char>) -> u128 {
    sha256_u128(encode_utf8(source))
}

/// `name=definition;` records of macro definitions, in the given order.
pub open spec fn macro_record_bytes(s: Seq<(Seq<char>, Seq<char>)>) -> Seq<u8>
    decreases s.len(),
{
    if s.len() == 0 {
        Seq::empty()
    } else {
        macro_record_bytes(s.drop_last()) + encode_utf8(s.last().0) + seq![61u8] + encode_utf8(
            s.last().1,
        ) + seq![59u8]
    }
}

/// The hashed bytes of named integers: each name, then its value.
pub open spec fn named_i32_bytes(s: Seq<(Seq<char>, i32)>) -> Seq<u8>
    decreases s.len(),
{
    if s.len() == 0 {
        Seq::empty()
    } else {
        named_i32_bytes(s.drop_last()) + enc_str(s.last().0) + enc_i32(s.last().1)
    }
}

/// The hashed bytes of a list of strings, each framed.
pub open spec fn string_list_bytes(s: Seq<Seq<char>>) -> Seq<u8>
    decreases s.len(),
{
    if s.len() == 0 {
        Seq::empty()
    } else {
        string_list_bytes(s.drop_last()) + enc_str(s.last())
    }
}

/// The hashed bytes of counter dependency lists: each counter name, then
/// its dependency names in byte order.
pub open spec fn dependency_lists_bytes(s: Seq<(Seq<char>, Seq<Seq<char>>)>) -> Seq<u8>
    decreases s.len(),
{
    if s.len() == 0 {
        Seq::empty()
    } else {
        dependency_lists_bytes(s.drop_last()) + enc_str(s.last().0) + string_list_bytes(
            sorted_strings(s.last().1),
        )
    }
}

/// An `i32` widened to `u64` by sign extension, as `v as u64` does.
pub open spec fn i32_sign_extended(v: i32) -> nat {
    if v >= 0 {
        v as nat
    } else {
        (v + 0x1_0000_0000_0000_0000) as nat
    }
}

/// The running value `c := c * 31 + v` (mod 2^64) over the elements.
pub open spec fn checksum_fold(s: Seq<i32>) -> nat
    decreases s.len(),
{
    if s.len() == 0 {
        0
    } else {
        (checksum_fold(s.drop_last()) * 31 + i32_sign_extended(s.last())) % 0x1_0000_0000_0000_0000
    }
}

/// Checksum of an integer array: the running value over at most its first
/// 1000 elements, then mixed with the array's length.
pub open spec fn array_checksum(s: Seq<i32>) -> u64 {
    let sampled = if s.len() <= 1000 {
        s
    } else {
        s.subrange(0, 1000)
    };
    ((checksum_fold(sampled) * 17 + s.len()) % 0x1_0000_0000_0000_0000) as u64
}

/// Font loading and metrics state captured from the engine.
#[derive(Clone, Debug)]
pub struct FontState {
    pub char_base: Vec<i32>,
    pub width_base: Vec<i32>,
    pub height_base: Vec<i32>,
    pub depth_base: Vec<i32>,
    pub italic_base: Vec<i32>,
    pub param_base: Vec<i32>,
    pub cur_f: i32,
    pub cur_c: i32,
    pub font_mem_size: i32,
    pub font_max: i32,
    pub cur_size: i32,
    pub fmem_ptr: i32,
}

impl FontState {
    /// The bytes `hash_font_state` hashes.
    pub open spec fn hash_bytes(&self) -> Seq<u8> {
        enc_i32(self.cur_f) + enc_i32(self.cur_c) + enc_i32(self.cur_size) + enc_u64(
            array_checksum(self.char_base@),
        ) + enc_u64(array_checksum(self.width_base@)) + enc_u64(
            array_checksum(self.height_base@),
        ) + enc_u64(array_checksum(self.depth_base@)) + enc_u64(
            array_checksum(self.italic_base@),
        ) + enc_u64(array_checksum(self.param_base@)) + enc_i32(self.font_mem_size) + enc_i32(
            self.font_max,
        ) + enc_i32(self.fmem_ptr)
    }
}

/// Equivalence-table parameters captured from the engine.
#[derive(Clone, Debug)]
pub struct EqtbState {
    pub int_params: StringMap<i32>,
    pub dimen_params: StringMap<i32>,
}

/// The parts of a captured engine state that state hashing reads.
#[derive(Clone, Debug)]
pub struct TeXEngineState {
    pub memory_snapshot: Vec<u8>,
    pub eqtb_state: EqtbState,
    pub font_state: FontState,
}

impl TeXEngineState {
    /// The bytes `hash_tex_state` hashes: the memory snapshot as a
    /// length-prefixed byte slice, the integer then dimension parameters
    /// in key order, then the font state's hash.
    pub open spec fn hash_bytes(&self) -> Seq<u8> {
        enc_usize(self.memory_snapshot@.len() as usize) + self.memory_snapshot@ + named_i32_bytes(
            self.eqtb_state.int_params.entry_seq(),
        ) + named_i32_bytes(self.eqtb_state.dimen_params.entry_seq()) + enc_u128(
            spec_siphash13(self.font_state.hash_bytes()),
        )
    }
}

/// Appends the hashed bytes of named integers in key order.
fn push_named_i32(out: &mut Vec<u8>, m: &StringMap<i32>)
    ensures
        final(out)@ == old(out)@ + named_i32_bytes(m.entry_seq()),
{
    let ghost start = out@;
    let n = m.len();
    let mut i: usize = 0;
    while i < n
        invariant
            n == m.entry_seq().len(),
            i <= n,
            out@ == start + named_i32_bytes(m.entry_seq().subrange(0, i as int)),
        decreases n - i,
    {
        push_str(out, m.key_at(i).as_str());
        push_i32(out, *m.value_at(i));
        proof {
            let t = m.entry_seq().subrange(0, i + 1);
            assert(t.drop_last() =~= m.entry_seq().subrange(0, i as int));
        }
        i += 1;
    }
    proof {
        assert(m.entry_seq().subrange(0, n as int) =~= m.entry_seq());
    }
}

/// Appends the framed strings of `v` in order.
fn push_string_list(out: &mut Vec<u8>, v: &[String])
    ensures
        final(out)@ == old(out)@ + string_list_bytes(string_views(v@)),
{
    let ghost start = out@;
    let n = v.len();
    let mut i: usize = 0;
    while i < n
        invariant
            n == v@.len(),
            i <= n,
            out@ == start + string_list_bytes(string_views(v@).subrange(0, i as int)),
        decreases n - i,
    {
        push_str(out, v[i].as_str());
        proof {
            let t = string_views(v@).subrange(0, i + 1);
            assert(t.drop_last() =~= string_views(v@).subrange(0, i as int));
        }
        i += 1;
    }
    proof {
        assert(string_views(v@).subrange(0, n as int) =~= string_views(v@));
    }
}

/// Hash computations for cache keys.
pub struct HashComputation;

impl HashComputation {
    /// 128-bit SipHash-1-3 of a hashable value.
    pub fn hash_content<T: HashInput>(content: &T) -> (r: u128)
        ensures
            r == spec_siphash13(content.hash_bytes()),
    {
        let mut bytes: Vec<u8> = Vec::new();
        content.append_hash_bytes(&mut bytes);
        proof {
            assert(bytes@ =~= content.hash_bytes());
        }
        siphash13_128(bytes.as_slice())
    }

    /// First sixteen bytes of SHA-256 over `data`, big-endian.
    pub(crate) fn sha256_prefix(data: &[u8]) -> (r: u128)
        ensures
            r == sha256_u128(data@),
    {
        let d = sha256_digest(data);
        let r = u128_from_be_prefix(d.as_slice());
        r
    }

    /// SHA-256 based hash of TeX source text.
    pub fn hash_tex_source(source: &str) -> (r: u128)
        ensures
            r == tex_source_hash(source@),
    {
        Self::hash_tex_source_bytes(source)
    }

    fn hash_tex_source_bytes(source: &str) -> (r: u128)
        ensures
            r == tex_source_hash(source@),
    {
        let mut bytes: Vec<u8> = Vec::new();
        push_utf8(&mut bytes, source);
        proof {
            assert(bytes@ =~= encode_utf8(source@));
        }
        Self::sha256_prefix(bytes.as_slice())
    }

    /// Combines the SHA-256 content hash of `source` with `state_hash`.
    pub fn hash_tex_content_with_state(source: &str, state_hash: u128) -> (r: u128)
        ensures
            r == spec_siphash13(enc_u128(tex_source_hash(source@)) + enc_u128(state_hash)),
    {
        let content_hash = Self::hash_tex_source(source);
        let mut bytes: Vec<u8> = Vec::new();
        push_u128(&mut bytes, content_hash);
        push_u128(&mut bytes, state_hash);
        proof {
            assert(bytes@ =~= enc_u128(tex_source_hash(source@)) + enc_u128(state_hash));
        }
        siphash13_128(bytes.as_slice())
    }

    /// SHA-256 based hash of macro definitions, taken in name order.
    pub fn hash_macro_definitions(macros: &StringMap<String>) -> (r: u128)
        ensures
            r == sha256_u128(macro_record_bytes(macros.entry_seq())),
    {
        let mut bytes: Vec<u8> = Vec::new();
        let n = macros.len();
        let mut i: usize = 0;
        while i < n
            invariant
                n == macros.entry_seq().len(),
                i <= n,
                bytes@ == macro_record_bytes(macros.entry_seq().subrange(0, i as int)),
            decreases n - i,
        {
            push_utf8(&mut bytes, macros.key_at(i).as_str());
            bytes.push(61u8);
            push_utf8(&mut bytes, macros.value_at(i).as_str());
            bytes.push(59u8);
            proof {
                let t = macros.entry_seq().subrange(0, i + 1);
                assert(t.drop_last() =~= macros.entry_seq().subrange(0, i as int));
                assert(bytes@ =~= macro_record_bytes(t));
            }
            i += 1;
        }
        proof {
            assert(macros.entry_seq().subrange(0, n as int) =~= macros.entry_seq());
        }
        Self::sha256_prefix(bytes.as_slice())
    }

    /// SipHash of integer then dimension parameters, each in name order.
    pub fn hash_register_state(int_params: &StringMap<i32>, dimen_params: &StringMap<i32>) -> (r:
        u128)
        ensures
            r == spec_siphash13(
                named_i32_bytes(int_params.entry_seq()) + named_i32_bytes(dimen_params.entry_seq()),
            ),
    {
        let mut bytes: Vec<u8> = Vec::new();
        push_named_i32(&mut bytes, int_params);
        push_named_i32(&mut bytes, dimen_params);
        proof {
            assert(bytes@ =~= named_i32_bytes(int_params.entry_seq()) + named_i32_bytes(
                dimen_params.entry_seq(),
            ));
        }
        siphash13_128(bytes.as_slice())
    }

    /// Fast checksum of an integer array: `c := c * 31 + v` (wrapping) over
    /// at most the first 1000 elements, then `c * 17 + len`.
    pub fn hash_i32_array_checksum(array: &[i32]) -> (r: u64)
        ensures
            r == array_checksum(array@),
    {
        let n = array.len();
        let limit: usize = if n <= 1000 {
            n
        } else {
            1000
        };
        let ghost sampled = if array@.len() <= 1000 {
            array@
        } else {
            array@.subrange(0, 1000)
        };
        let mut checksum: u64 = 0;
        let mut i: usize = 0;
        while i < limit
            invariant
                n == array@.len(),
                limit == sampled.len(),
                limit <= n,
                sampled == array@.subrange(0, limit as int),
                i <= limit,
                checksum as nat == checksum_fold(sampled.subrange(0, i as int)),
            decreases limit - i,
        {
            let v = array[i];
            let widened: u64 = if v >= 0 {
                v as u64
            } else {
                (v as i128 + 0x1_0000_0000_0000_0000i128) as u64
            };
            let t: u128 = checksum as u128 * 31 + widened as u128;
            checksum = (t % 0x1_0000_0000_0000_0000u128) as u64;
            proof {
                let s = sampled.subrange(0, i + 1);
                assert(s.drop_last() =~= sampled.subrange(0, i as int));
                assert(s.last() == v);
            }
            i += 1;
        }
        proof {
            assert(sampled.subrange(0, limit as int) =~= sampled);
            if n <= 1000 {
                assert(sampled =~= array@);
            }
        }
        let t: u128 = checksum as u128 * 17 + n as u128;
        (t % 0x1_0000_0000_0000_0000u128) as u64
    }

    /// SipHash of font state: current font, character and size, checksums
    /// of the six metric tables, then the font memory counters.
    pub fn hash_font_state(font_state: &FontState) -> (r: u128)
        ensures
            r == spec_siphash13(font_state.hash_bytes()),
    {
        let mut bytes: Vec<u8> = Vec::new();
        push_i32(&mut bytes, font_state.cur_f);
        push_i32(&mut bytes, font_state.cur_c);
        push_i32(&mut bytes, font_state.cur_size);
        push_u64(&mut bytes, Self::hash_i32_array_checksum(font_state.char_base.as_slice()));
        push_u64(&mut bytes, Self::hash_i32_array_checksum(font_state.width_base.as_slice()));
        push_u64(&mut bytes, Self::hash_i32_array_checksum(font_state.height_base.as_slice()));
        push_u64(&mut bytes, Self::hash_i32_array_checksum(font_state.depth_base.as_slice()));
        push_u64(&mut bytes, Self::hash_i32_array_checksum(font_state.italic_base.as_slice()));
        push_u64(&mut bytes, Self::hash_i32_array_checksum(font_state.param_base.as_slice()));
        push_i32(&mut bytes, font_state.font_mem_size);
        push_i32(&mut bytes, font_state.font_max);
        push_i32(&mut bytes, font_state.fmem_ptr);
        proof {
            assert(bytes@ =~= font_state.hash_bytes());
        }
        siphash13_128(bytes.as_slice())
    }

    /// SipHash of an engine state: memory snapshot, parameters, font hash.
    pub fn hash_tex_state(state: &TeXEngineState) -> (r: u128)
        ensures
            r == spec_siphash13(state.hash_bytes()),
    {
        let mut bytes: Vec<u8> = Vec::new();
        push_usize(&mut bytes, state.memory_snapshot.len());
        push_bytes(&mut bytes, state.memory_snapshot.as_slice());
        push_named_i32(&mut bytes, &state.eqtb_state.int_params);
        push_named_i32(&mut bytes, &state.eqtb_state.dimen_params);
        let font_hash = Self::hash_font_state(&state.font_state);
        push_u128(&mut bytes, font_hash);
        proof {
            assert(bytes@ =~= state.hash_bytes());
        }
        siphash13_128(bytes.as_slice())
    }

    /// Folds a changed component into a base hash.
    pub fn update_incremental_hash(base_hash: u128, changed_component: &str, new_value_hash: u128)
        -> (r: u128)
        ensures
            r == spec_siphash13(
                enc_u128(base_hash) + enc_str(changed_component@) + enc_u128(new_value_hash),
            ),
    {
        let mut bytes: Vec<u8> = Vec::new();
        push_u128(&mut bytes, base_hash);
        push_str(&mut bytes, changed_component);
        push_u128(&mut bytes, new_value_hash);
        proof {
            assert(bytes@ =~= enc_u128(base_hash) + enc_str(changed_component@) + enc_u128(
                new_value_hash,
            ));
        }
        siphash13_128(bytes.as_slice())
    }

    /// SipHash of counters, auxiliary counters and counter dependencies,
    /// each in name order, dependency lists sorted.
    pub fn hash_counter_states(
        counters: &StringMap<i32>,
        auxiliary_counters: &StringMap<i32>,
        counter_dependencies: &StringMap<Vec<String>>,
    ) -> (r: u128)
        ensures
            r == spec_siphash13(
                named_i32_bytes(counters.entry_seq()) + named_i32_bytes(
                    auxiliary_counters.entry_seq(),
                ) + dependency_lists_bytes(counter_dependencies.entry_seq()),
            ),
    {
        let mut bytes: Vec<u8> = Vec::new();
        push_named_i32(&mut bytes, counters);
        push_named_i32(&mut bytes, auxiliary_counters);
        let ghost prefix = bytes@;
        let n = counter_dependencies.len();
        let mut i: usize = 0;
        while i < n
            invariant
                n == counter_dependencies.entry_seq().len(),
                i <= n,
                bytes@ == prefix + dependency_lists_bytes(
                    counter_dependencies.entry_seq().subrange(0, i as int),
                ),
            decreases n - i,
        {
            push_str(&mut bytes, counter_dependencies.key_at(i).as_str());
            let deps = counter_dependencies.value_at(i);
            let sorted = sort_strings(deps);
            push_string_list(&mut bytes, sorted.as_slice());
            proof {
                let t = counter_dependencies.entry_seq().subrange(0, i + 1);
                assert(t.drop_last() =~= counter_dependencies.entry_seq().subrange(0, i as int));
                assert(deps.deep_view() =~= string_views(deps@));
                assert(bytes@ =~= prefix + dependency_lists_bytes(t));
            }
            i += 1;
        }
        proof {
            assert(counter_dependencies.entry_seq().subrange(0, n as int)
                =~= counter_dependencies.entry_seq());
        }
        siphash13_128(bytes.as_slice())
    }

    /// SipHash of an engine state hash, a macro definitions hash, a counter
    /// hash and the current source position.
    pub fn hash_complete_tex_state(
        engine_state: &TeXEngineState,
        macro_expansions: &StringMap<String>,
        counter_state: &StringMap<i32>,
        current_position: usize,
    ) -> (r: u128)
        ensures
            r == spec_siphash13(
                enc_u128(spec_siphash13(engine_state.hash_bytes())) + enc_u128(
                    sha256_u128(macro_record_bytes(macro_expansions.entry_seq())),
                ) + enc_u128(spec_siphash13(counter_list_bytes(counter_state.entry_seq())))
                    + enc_usize(current_position),
            ),
    {
        let base = Self::hash_tex_state(engine_state);
        let macro_hash = Self::hash_macro_definitions(macro_expansions);
        let counter_hash = Self::hash_counter_list(counter_state);
        let mut bytes: Vec<u8> = Vec::new();
        push_u128(&mut bytes, base);
        push_u128(&mut bytes, macro_hash);
        push_u128(&mut bytes, counter_hash);
        push_usize(&mut bytes, current_position);
        proof {
            assert(bytes@ =~= enc_u128(spec_siphash13(engine_state.hash_bytes())) + enc_u128(
                sha256_u128(macro_record_bytes(macro_expansions.entry_seq())),
            ) + enc_u128(spec_siphash13(counter_list_bytes(counter_state.entry_seq())))
                + enc_usize(current_position));
        }
        siphash13_128(bytes.as_slice())
    }

    /// SipHash of named counters hashed as a list of pairs in name order.
    fn hash_counter_list(counters: &StringMap<i32>) -> (r: u128)
        ensures
            r == spec_siphash13(counter_list_bytes(counters.entry_seq())),
    {
        let mut bytes: Vec<u8> = Vec::new();
        push_usize(&mut bytes, counters.len());
        push_named_i32(&mut bytes, counters);
        siphash13_128(bytes.as_slice())
    }

    /// SHA-256 based fingerprint of an external file: path, modification
    /// time (big-endian) and content.
    pub fn hash_file_fingerprint(file_path: &str, content: &[u8], modified_time: u64) -> (r: u128)
        ensures
            r == sha256_u128(
                encode_utf8(file_path@) + be_bytes(modified_time as nat, 8) + content@,
            ),
    {
        let mut bytes: Vec<u8> = Vec::new();
        push_utf8(&mut bytes, file_path);
        push_be_bytes(&mut bytes, modified_time as u128, 8);
        push_bytes(&mut bytes, content);
        proof {
            assert(bytes@ =~= encode_utf8(file_path@) + be_bytes(modified_time as nat, 8) + content@);
        }
        Self::sha256_prefix(bytes.as_slice())
    }

    /// SHA-256 based hash of math content and its display flag.
    pub fn hash_math_content(content: &str, is_display: bool) -> (r: u128)
        ensures
            r == sha256_u128(encode_utf8(content@) + enc_bool(is_display)),
    {
        let mut bytes: Vec<u8> = Vec::new();
        push_utf8(&mut bytes, content);
        push_bool(&mut bytes, is_display);
        Self::sha256_prefix(bytes.as_slice())
    }
}

/// The records that a package-state hash reads: each package name, then
/// `@` and its version where one is known, then `;`.
pub open spec fn package_records(packages: Seq<Seq<char>>, versions: Map<Seq<char>, Seq<char>>) -> Seq<
    u8,
>
    decreases packages.len(),
{
    if packages.len() == 0 {
        Seq::empty()
    } else {
        let p = packages.last();
        package_records(packages.drop_last(), versions) + encode_utf8(p) + if versions.contains_key(
            p,
        ) {
            seq![64u8] + encode_utf8(versions[p])
        } else {
            Seq::empty()
        } + seq![59u8]
    }
}

/// The records that a macro-expansion hash reads for the context variables:
/// `name=value;` in name order.
pub open spec fn context_records(s: Seq<(Seq<char>, Seq<char>)>) -> Seq<u8> {
    macro_record_bytes(s)
}

/// The bytes hashed to identify a macro expansion.
pub open spec fn expansion_tracking_bytes(
    macro_name: Seq<char>,
    expansion_depth: u32,
    expanded_content: Seq<char>,
    context: Seq<(Seq<char>, Seq<char>)>,
) -> Seq<u8> {
    encode_utf8(MACRO_TAG@) + encode_utf8(macro_name) + encode_utf8(DEPTH_TAG@) + be_bytes(
        expansion_depth as nat,
        4,
    ) + encode_utf8(CONTENT_TAG@) + encode_utf8(expanded_content) + encode_utf8(CONTEXT_TAG@)
        + context_records(context)
}

/// Tag in front of the macro name of an expansion record.
pub const MACRO_TAG: &'static str = "MACRO:";

/// Tag in front of the expansion depth.
pub const DEPTH_TAG: &'static str = "@DEPTH:";

/// Tag in front of the expanded content.
pub const CONTENT_TAG: &'static str = "@CONTENT:";

/// Tag in front of the context variables.
pub const CONTEXT_TAG: &'static str = "@CONTEXT:";

impl HashComputation {
    /// SHA-256 based hash of the loaded packages, taken in byte order of
    /// their names so that the order of loading does not matter, each with
    /// its version where one is known.
    pub fn hash_package_state(packages: &Vec<String>, package_versions: &StringMap<String>) -> (r:
        u128)
        requires
            package_versions.wf(),
        ensures
            r == sha256_u128(
                package_records(sorted_strings(string_views(packages@)), package_versions.contents()),
            ),
    {
        let sorted = sort_strings(packages);
        let mut bytes: Vec<u8> = Vec::new();
        let n = sorted.len();
        let mut i: usize = 0;
        while i < n
            invariant
                package_versions.wf(),
                n == sorted@.len(),
                i <= n,
                bytes@ == package_records(
                    string_views(sorted@).subrange(0, i as int),
                    package_versions.contents(),
                ),
            decreases n - i,
        {
            let package = &sorted[i];
            push_utf8(&mut bytes, package.as_str());
            match package_versions.get(package.as_str()) {
                Some(version) => {
                    bytes.push(64u8);
                    push_utf8(&mut bytes, version.as_str());
                },
                None => {},
            }
            bytes.push(59u8);
            proof {
                let t = string_views(sorted@).subrange(0, i + 1);
                assert(t.drop_last() =~= string_views(sorted@).subrange(0, i as int));
                assert(t.last() == package@);
                assert(bytes@ =~= package_records(t, package_versions.contents()));
            }
            i += 1;
        }
        proof {
            assert(string_views(sorted@).subrange(0, n as int) =~= string_views(sorted@));
        }
        Self::sha256_prefix(bytes.as_slice())
    }

    /// SHA-256 based hash of a macro expansion: the macro's name, the
    /// expansion depth (big-endian), the expanded content and the context
    /// variables in name order, each part behind its tag.
    pub fn hash_macro_expansion_tracking(
        macro_name: &str,
        expansion_depth: u32,
        expanded_content: &str,
        context_vars: &StringMap<String>,
    ) -> (r: u128)
        ensures
            r == sha256_u128(
                expansion_tracking_bytes(
                    macro_name@,
                    expansion_depth,
                    expanded_content@,
                    context_vars.entry_seq(),
                ),
            ),
    {
        let mut bytes: Vec<u8> = Vec::new();
        push_utf8(&mut bytes, MACRO_TAG);
        push_utf8(&mut bytes, macro_name);
        push_utf8(&mut bytes, DEPTH_TAG);
        push_be_bytes(&mut bytes, expansion_depth as u128, 4);
        push_utf8(&mut bytes, CONTENT_TAG);
        push_utf8(&mut bytes, expanded_content);
        push_utf8(&mut bytes, CONTEXT_TAG);
        let ghost prefix = bytes@;
        let n = context_vars.len();
        let mut i: usize = 0;
        while i < n
            invariant
                n == context_vars.entry_seq().len(),
                i <= n,
                bytes@ == prefix + macro_record_bytes(context_vars.entry_seq().subrange(0, i as int)),
            decreases n - i,
        {
            push_utf8(&mut bytes, context_vars.key_at(i).as_str());
            bytes.push(61u8);
            push_utf8(&mut bytes, context_vars.value_at(i).as_str());
            bytes.push(59u8);
            proof {
                let t = context_vars.entry_seq().subrange(0, i + 1);
                assert(t.drop_last() =~= context_vars.entry_seq().subrange(0, i as int));
                assert(bytes@ =~= prefix + macro_record_bytes(t));
            }
            i += 1;
        }
        proof {
            assert(context_vars.entry_seq().subrange(0, n as int) =~= context_vars.entry_seq());
            assert(bytes@ =~= expansion_tracking_bytes(
                macro_name@,
                expansion_depth,
                expanded_content@,
                context_vars.entry_seq(),
            ));
        }
        Self::sha256_prefix(bytes.as_slice())
    }

    /// SipHash of a macro expansion: the macro's name, each argument in
    /// order, then the nesting depth of the expansion.
    pub fn hash_macro_expansion(macro_name: &str, args: &[String], expansion_depth: u32) -> (r: u128)
        ensures
            r == spec_siphash13(
                enc_str(macro_name@) + string_list_bytes(string_views(args@)) + le_bytes(
                    expansion_depth as nat,
                    4,
                ),
            ),
    {
        let mut bytes: Vec<u8> = Vec::new();
        push_str(&mut bytes, macro_name);
        push_string_list(&mut bytes, args);
        push_le_bytes(&mut bytes, expansion_depth as u128, 4);
        proof {
            assert(bytes@ =~= enc_str(macro_name@) + string_list_bytes(string_views(args@)) + le_bytes(
                expansion_depth as nat,
                4,
            ));
        }
        siphash13_128(bytes.as_slice())
    }

    /// SHA-256 based hash of TeX content under the current engine state:
    /// the content, then the macro state hash, the font state hash, the
    /// counter hash (with no auxiliary counters or dependencies) and the
    /// register state hash, each big-endian.
    pub fn compute_tex_content_hash(
        content: &str,
        macro_tracker: &MacroTracker,
        font_state: &FontState,
        counter_states: &StringMap<i32>,
        register_state_hash: u128,
    ) -> (r: u128)
        ensures
            r == sha256_u128(
                encode_utf8(content@) + be_bytes(macro_tracker.macro_state_hash as nat, 16) + be_bytes(
                    spec_siphash13(font_state.hash_bytes()) as nat,
                    16,
                ) + be_bytes(
                    spec_siphash13(named_i32_bytes(counter_states.entry_seq())) as nat,
                    16,
                ) + be_bytes(register_state_hash as nat, 16),
            ),
    {
        let macro_state_hash = macro_tracker.get_state_hash();
        let font_hash = Self::hash_font_state(font_state);
        let no_counters: StringMap<i32> = StringMap::new();
        let no_dependencies: StringMap<Vec<String>> = StringMap::new();
        let counter_hash = Self::hash_counter_states(counter_states, &no_counters, &no_dependencies);
        proof {
            assert(named_i32_bytes(no_counters.entry_seq()) =~= Seq::<u8>::empty());
            assert(dependency_lists_bytes(no_dependencies.entry_seq()) =~= Seq::<u8>::empty());
            assert(named_i32_bytes(counter_states.entry_seq()) + named_i32_bytes(
                no_counters.entry_seq(),
            ) + dependency_lists_bytes(no_dependencies.entry_seq()) =~= named_i32_bytes(
                counter_states.entry_seq(),
            ));
        }
        let mut bytes: Vec<u8> = Vec::new();
        push_utf8(&mut bytes, content);
        push_be_bytes(&mut bytes, macro_state_hash, 16);
        push_be_bytes(&mut bytes, font_hash, 16);
        push_be_bytes(&mut bytes, counter_hash, 16);
        push_be_bytes(&mut bytes, register_state_hash, 16);
        Self::sha256_prefix(bytes.as_slice())
    }
}

/// The bytes `Hash` writes for an optional `u64`: the tag (the
/// discriminant, pointer-wide), then the value when there is one.
pub open spec fn enc_option_u64(v: Option<u64>) -> Seq<u8> {
    match v {
        None => enc_tag(0),
        Some(x) => enc_tag(1) + enc_u64(x),
    }
}

impl HashInput for Option<u64> {
    open spec fn hash_bytes(&self) -> Seq<u8> {
        enc_option_u64(*self)
    }

    fn append_hash_bytes(&self, out: &mut Vec<u8>) {
        match self {
            None => push_tag(out, 0),
            Some(x) => {
                push_tag(out, 1);
                push_u64(out, *x);
            },
        }
    }
}

/// The layout dimensions of a set of spatial constraints, each as the bit
/// pattern of its `f64` value (`f64::to_bits`).
#[derive(Clone, Copy, Debug)]
pub struct ConstraintDimensions {
    pub min_width: Option<u64>,
    pub max_width: Option<u64>,
    pub available_width: Option<u64>,
    pub min_height: Option<u64>,
    pub max_height: Option<u64>,
    pub available_height: Option<u64>,
    pub natural_width: Option<u64>,
    pub stretch: Option<u64>,
    pub shrink: Option<u64>,
    pub line_spacing: Option<u64>,
}

impl ConstraintDimensions {
    /// The bytes hashed for the dimensions, in field order.
    pub open spec fn hash_bytes(&self) -> Seq<u8> {
        enc_option_u64(self.min_width) + enc_option_u64(self.max_width) + enc_option_u64(
            self.available_width,
        ) + enc_option_u64(self.min_height) + enc_option_u64(self.max_height) + enc_option_u64(
            self.available_height,
        ) + enc_option_u64(self.natural_width) + enc_option_u64(self.stretch) + enc_option_u64(
            self.shrink,
        ) + enc_option_u64(self.line_spacing)
    }
}

/// The formatting parameters of a paragraph, each as the bit pattern of its
/// `f64` value (`f64::to_bits`).
#[derive(Clone, Copy, Debug)]
pub struct ParagraphParamBits {
    pub line_width: u64,
    pub left_indent: u64,
    pub right_indent: u64,
    pub first_line_indent: u64,
    pub par_skip: u64,
    pub baseline_skip: u64,
    pub line_spacing: u64,
}

impl ParagraphParamBits {
    /// The big-endian bytes of the parameters, in field order
    /// (`f64::to_be_bytes` of each value).
    pub open spec fn be_bytes(&self) -> Seq<u8> {
        be_bytes(self.line_width as nat, 8) + be_bytes(self.left_indent as nat, 8) + be_bytes(
            self.right_indent as nat,
            8,
        ) + be_bytes(self.first_line_indent as nat, 8) + be_bytes(self.par_skip as nat, 8)
            + be_bytes(self.baseline_skip as nat, 8) + be_bytes(self.line_spacing as nat, 8)
    }
}

impl HashInput for ParagraphParamBits {
    /// Each parameter's bit pattern in field order, as `Hash` writes a `u64`.
    open spec fn hash_bytes(&self) -> Seq<u8> {
        enc_u64(self.line_width) + enc_u64(self.left_indent) + enc_u64(self.right_indent) + enc_u64(
            self.first_line_indent,
        ) + enc_u64(self.par_skip) + enc_u64(self.baseline_skip) + enc_u64(self.line_spacing)
    }

    fn append_hash_bytes(&self, out: &mut Vec<u8>) {
        let ghost start = out@;
        push_u64(out, self.line_width);
        push_u64(out, self.left_indent);
        push_u64(out, self.right_indent);
        push_u64(out, self.first_line_indent);
        push_u64(out, self.par_skip);
        push_u64(out, self.baseline_skip);
        push_u64(out, self.line_spacing);
        assert(out@ =~= start + self.hash_bytes());
    }
}

/// Math spacing parameters, each floating-point value as its bit pattern
/// (`f64::to_bits`).
#[derive(Clone, Copy, Debug)]
pub struct MathParamBits {
    pub math_surround: u64,
    pub thin_space: u64,
    pub med_space: u64,
    pub thick_space: u64,
    pub display_width: Option<u64>,
    pub display_indent: u64,
}

impl HashInput for MathParamBits {
    /// The fields in order, as `Hash` writes each.
    open spec fn hash_bytes(&self) -> Seq<u8> {
        enc_u64(self.math_surround) + enc_u64(self.thin_space) + enc_u64(self.med_space) + enc_u64(
            self.thick_space,
        ) + enc_option_u64(self.display_width) + enc_u64(self.display_indent)
    }

    fn append_hash_bytes(&self, out: &mut Vec<u8>) {
        let ghost start = out@;
        push_u64(out, self.math_surround);
        push_u64(out, self.thin_space);
        push_u64(out, self.med_space);
        push_u64(out, self.thick_space);
        self.display_width.append_hash_bytes(out);
        push_u64(out, self.display_indent);
        assert(out@ =~= start + self.hash_bytes());
    }
}

impl HashComputation {
    /// SipHash of the layout dimensions of spatial constraints, each hashed
    /// as an optional bit pattern.
    pub fn hash_constraints(constraints: &ConstraintDimensions) -> (r: u128)
        ensures
            r == spec_siphash13(constraints.hash_bytes()),
    {
        let mut bytes: Vec<u8> = Vec::new();
        constraints.min_width.append_hash_bytes(&mut bytes);
        constraints.max_width.append_hash_bytes(&mut bytes);
        constraints.available_width.append_hash_bytes(&mut bytes);
        constraints.min_height.append_hash_bytes(&mut bytes);
        constraints.max_height.append_hash_bytes(&mut bytes);
        constraints.available_height.append_hash_bytes(&mut bytes);
        constraints.natural_width.append_hash_bytes(&mut bytes);
        constraints.stretch.append_hash_bytes(&mut bytes);
        constraints.shrink.append_hash_bytes(&mut bytes);
        constraints.line_spacing.append_hash_bytes(&mut bytes);
        proof {
            assert(bytes@ =~= constraints.hash_bytes());
        }
        siphash13_128(bytes.as_slice())
    }

    /// SHA-256 based hash of paragraph content with its formatting
    /// parameters.
    pub fn hash_paragraph_content(content: &str, par_params: &ParagraphParamBits) -> (r: u128)
        ensures
            r == sha256_u128(encode_utf8(content@) + par_params.be_bytes()),
    {
        let mut bytes: Vec<u8> = Vec::new();
        push_utf8(&mut bytes, content);
        push_be_bytes(&mut bytes, par_params.line_width as u128, 8);
        push_be_bytes(&mut bytes, par_params.left_indent as u128, 8);
        push_be_bytes(&mut bytes, par_params.right_indent as u128, 8);
        push_be_bytes(&mut bytes, par_params.first_line_indent as u128, 8);
        push_be_bytes(&mut bytes, par_params.par_skip as u128, 8);
        push_be_bytes(&mut bytes, par_params.baseline_skip as u128, 8);
        push_be_bytes(&mut bytes, par_params.line_spacing as u128, 8);
        proof {
            assert(bytes@ =~= encode_utf8(content@) + par_params.be_bytes());
        }
        Self::sha256_prefix(bytes.as_slice())
    }

    /// SipHash of a font state hash, a constraint hash, and the font metrics
    /// that the constraints carry: two calls on the same font state and
    /// constraints agree, and constraints whose font metrics differ give
    /// different streams.
    pub fn hash_font_metrics_with_constraints(
        font_state: &FontState,
        constraints: &ConstraintDimensions,
        font_metrics: &Option<FontMetricsBits>,
    ) -> (r: u128)
        ensures
            r == spec_siphash13(
                enc_u128(spec_siphash13(font_state.hash_bytes())) + enc_u128(
                    spec_siphash13(constraints.hash_bytes()),
                ) + enc_option_font_metrics(*font_metrics),
            ),
    {
        let font_hash = Self::hash_font_state(font_state);
        let constraint_hash = Self::hash_constraints(constraints);
        let mut bytes: Vec<u8> = Vec::new();
        push_u128(&mut bytes, font_hash);
        push_u128(&mut bytes, constraint_hash);
        let ghost prefix = bytes@;
        match font_metrics {
            None => push_tag(&mut bytes, 0),
            Some(m) => {
                push_tag(&mut bytes, 1);
                m.append_hash_bytes(&mut bytes);
            },
        }
        proof {
            assert(bytes@ =~= enc_u128(spec_siphash13(font_state.hash_bytes())) + enc_u128(
                spec_siphash13(constraints.hash_bytes()),
            ) + enc_option_font_metrics(*font_metrics));
        }
        siphash13_128(bytes.as_slice())
    }
}

/// The font metrics of a set of constraints, each floating-point value as
/// its bit pattern (`f64::to_bits`).
#[derive(Clone, Debug)]
pub struct FontMetricsBits {
    pub size: u64,
    pub family: String,
    pub char_width: Option<u64>,
    pub line_height: u64,
    pub x_height: u64,
    pub baseline_skip: u64,
}

impl HashInput for FontMetricsBits {
    /// The fields in order, as `Hash` writes each.
    open spec fn hash_bytes(&self) -> Seq<u8> {
        enc_u64(self.size) + enc_str(self.family@) + enc_option_u64(self.char_width) + enc_u64(
            self.line_height,
        ) + enc_u64(self.x_height) + enc_u64(self.baseline_skip)
    }

    fn append_hash_bytes(&self, out: &mut Vec<u8>) {
        let ghost start = out@;
        push_u64(out, self.size);
        push_str(out, self.family.as_str());
        self.char_width.append_hash_bytes(out);
        push_u64(out, self.line_height);
        push_u64(out, self.x_height);
        push_u64(out, self.baseline_skip);
        assert(out@ =~= start + self.hash_bytes());
    }
}

/// The bytes `Hash` writes for optional font metrics: the tag (the
/// discriminant, pointer-wide), then the metrics when there are some.
pub open spec fn enc_option_font_metrics(m: Option<FontMetricsBits>) -> Seq<u8> {
    match m {
        None => enc_tag(0),
        Some(x) => enc_tag(1) + x.hash_bytes(),
    }
}

/// The hashed bytes of named integers as a list of pairs: the count, then
/// each name and value.
pub open spec fn counter_list_bytes(s: Seq<(Seq<char>, i32)>) -> Seq<u8> {
    enc_usize(s.len() as usize) + named_i32_bytes(s)
}

/// Font properties, each floating-point value as its bit pattern
/// (`f64::to_bits`).
#[derive(Clone, Debug)]
pub struct FontPropertiesBits {
    pub font_id: i32,
    pub size_pt: u64,
    pub family_name: String,
    pub char_width: u64,
    pub line_height: u64,
    pub x_height: u64,
    pub baseline_skip: u64,
}

impl HashInput for FontPropertiesBits {
    /// The fields in order, as `Hash` writes each.
    open spec fn hash_bytes(&self) -> Seq<u8> {
        enc_i32(self.font_id) + enc_u64(self.size_pt) + enc_str(self.family_name@) + enc_u64(
            self.char_width,
        ) + enc_u64(self.line_height) + enc_u64(self.x_height) + enc_u64(self.baseline_skip)
    }

    fn append_hash_bytes(&self, out: &mut Vec<u8>) {
        let ghost start = out@;
        push_i32(out, self.font_id);
        push_u64(out, self.size_pt);
        push_str(out, self.family_name.as_str());
        push_u64(out, self.char_width);
        push_u64(out, self.line_height);
        push_u64(out, self.x_height);
        push_u64(out, self.baseline_skip);
        assert(out@ =~= start + self.hash_bytes());
    }
}

/// The bytes hashed for macro definitions with their argument counts, in
/// name order: each name, its body, then its argument count.
pub open spec fn macro_arity_bytes(s: Seq<(Seq<char>, (Seq<char>, usize))>) -> Seq<u8>
    decreases s.len(),
{
    if s.len() == 0 {
        Seq::empty()
    } else {
        macro_arity_bytes(s.drop_last()) + enc_str(s.last().0) + enc_str(s.last().1.0) + enc_usize(
            s.last().1.1,
        )
    }
}

/// The bytes hashed for count registers in number order: each number, then
/// its value.
pub open spec fn count_bank_bytes(s: Seq<(i32, i32)>) -> Seq<u8>
    decreases s.len(),
{
    if s.len() == 0 {
        Seq::empty()
    } else {
        count_bank_bytes(s.drop_last()) + enc_i32(s.last().0) + enc_i32(s.last().1)
    }
}

/// The bytes hashed for dimension registers in number order: each number,
/// then the bit pattern of its value.
pub open spec fn dimen_bank_bytes(s: Seq<(i32, u64)>) -> Seq<u8>
    decreases s.len(),
{
    if s.len() == 0 {
        Seq::empty()
    } else {
        dimen_bank_bytes(s.drop_last()) + enc_i32(s.last().0) + enc_u64(s.last().1)
    }
}

/// The bytes hashed for skip registers in number order: each number, then
/// the bit patterns of its base, stretch and shrink.
pub open spec fn skip_bank_bytes(s: Seq<(i32, (u64, u64, u64))>) -> Seq<u8>
    decreases s.len(),
{
    if s.len() == 0 {
        Seq::empty()
    } else {
        skip_bank_bytes(s.drop_last()) + enc_i32(s.last().0) + enc_u64(s.last().1.0) + enc_u64(
            s.last().1.1,
        ) + enc_u64(s.last().1.2)
    }
}

/// The bytes of the register hash that the engine-state hash reads: the
/// count, dimension and skip banks.
pub open spec fn register_banks_bytes(
    count: Seq<(i32, i32)>,
    dimen: Seq<(i32, u64)>,
    skip: Seq<(i32, (u64, u64, u64))>,
) -> Seq<u8> {
    count_bank_bytes(count) + dimen_bank_bytes(dimen) + skip_bank_bytes(skip)
}

/// Appends the hashed bytes of macro definitions with argument counts.
fn push_macro_arities(out: &mut Vec<u8>, m: &StringMap<(String, usize)>)
    ensures
        final(out)@ == old(out)@ + macro_arity_bytes(m.entry_seq()),
{
    let ghost start = out@;
    let n = m.len();
    let mut i: usize = 0;
    while i < n
        invariant
            n == m.entry_seq().len(),
            i <= n,
            out@ == start + macro_arity_bytes(m.entry_seq().subrange(0, i as int)),
        decreases n - i,
    {
        let v = m.value_at(i);
        push_str(out, m.key_at(i).as_str());
        push_str(out, v.0.as_str());
        push_usize(out, v.1);
        proof {
            let t = m.entry_seq().subrange(0, i + 1);
            assert(t.drop_last() =~= m.entry_seq().subrange(0, i as int));
            assert(out@ =~= start + macro_arity_bytes(t));
        }
        i += 1;
    }
    proof {
        assert(m.entry_seq().subrange(0, n as int) =~= m.entry_seq());
    }
}

/// Appends the hashed bytes of the count registers.
fn push_count_bank(out: &mut Vec<u8>, m: &IntMap<i32>)
    ensures
        final(out)@ == old(out)@ + count_bank_bytes(m.entry_seq()),
{
    let ghost start = out@;
    let n = m.len();
    let mut i: usize = 0;
    while i < n
        invariant
            n == m.entry_seq().len(),
            i <= n,
            out@ == start + count_bank_bytes(m.entry_seq().subrange(0, i as int)),
        decreases n - i,
    {
        push_i32(out, m.key_at(i));
        push_i32(out, *m.value_at(i));
        proof {
            let t = m.entry_seq().subrange(0, i + 1);
            assert(t.drop_last() =~= m.entry_seq().subrange(0, i as int));
            assert(out@ =~= start + count_bank_bytes(t));
        }
        i += 1;
    }
    proof {
        assert(m.entry_seq().subrange(0, n as int) =~= m.entry_seq());
    }
}

/// Appends the hashed bytes of the dimension registers.
fn push_dimen_bank(out: &mut Vec<u8>, m: &IntMap<u64>)
    ensures
        final(out)@ == old(out)@ + dimen_bank_bytes(m.entry_seq()),
{
    let ghost start = out@;
    let n = m.len();
    let mut i: usize = 0;
    while i < n
        invariant
            n == m.entry_seq().len(),
            i <= n,
            out@ == start + dimen_bank_bytes(m.entry_seq().subrange(0, i as int)),
        decreases n - i,
    {
        push_i32(out, m.key_at(i));
        push_u64(out, *m.value_at(i));
        proof {
            let t = m.entry_seq().subrange(0, i + 1);
            assert(t.drop_last() =~= m.entry_seq().subrange(0, i as int));
            assert(out@ =~= start + dimen_bank_bytes(t));
        }
        i += 1;
    }
    proof {
        assert(m.entry_seq().subrange(0, n as int) =~= m.entry_seq());
    }
}

/// Appends the hashed bytes of the skip registers.
fn push_skip_bank(out: &mut Vec<u8>, m: &IntMap<(u64, u64, u64)>)
    ensures
        final(out)@ == old(out)@ + skip_bank_bytes(m.entry_seq()),
{
    let ghost start = out@;
    let n = m.len();
    let mut i: usize = 0;
    while i < n
        invariant
            n == m.entry_seq().len(),
            i <= n,
            out@ == start + skip_bank_bytes(m.entry_seq().subrange(0, i as int)),
        decreases n - i,
    {
        let g = m.value_at(i);
        push_i32(out, m.key_at(i));
        push_u64(out, g.0);
        push_u64(out, g.1);
        push_u64(out, g.2);
        proof {
            let t = m.entry_seq().subrange(0, i + 1);
            assert(t.drop_last() =~= m.entry_seq().subrange(0, i as int));
            assert(out@ =~= start + skip_bank_bytes(t));
        }
        i += 1;
    }
    proof {
        assert(m.entry_seq().subrange(0, n as int) =~= m.entry_seq());
    }
}

impl HashComputation {
    /// SipHash of the whole engine state: the hash of the captured engine
    /// state, of the font properties, of the macro definitions with their
    /// argument counts, and of the count, dimension and skip registers.
    pub fn hash_tex_engine_state(
        tex_state: &TeXEngineState,
        font_state: &FontPropertiesBits,
        macros: &StringMap<(String, usize)>,
        count_registers: &IntMap<i32>,
        dimen_registers: &IntMap<u64>,
        skip_registers: &IntMap<(u64, u64, u64)>,
    ) -> (r: u128)
        ensures
            r == spec_siphash13(
                enc_u128(spec_siphash13(tex_state.hash_bytes())) + enc_u128(
                    spec_siphash13(font_state.hash_bytes()),
                ) + enc_u128(spec_siphash13(macro_arity_bytes(macros.entry_seq()))) + enc_u128(
                    spec_siphash13(
                        register_banks_bytes(
                            count_registers.entry_seq(),
                            dimen_registers.entry_seq(),
                            skip_registers.entry_seq(),
                        ),
                    ),
                ),
            ),
    {
        let state_hash = Self::hash_tex_state(tex_state);
        let font_hash = Self::hash_content(font_state);
        let mut macro_bytes: Vec<u8> = Vec::new();
        push_macro_arities(&mut macro_bytes, macros);
        let macro_hash = siphash13_128(macro_bytes.as_slice());
        let mut register_bytes: Vec<u8> = Vec::new();
        push_count_bank(&mut register_bytes, count_registers);
        push_dimen_bank(&mut register_bytes, dimen_registers);
        push_skip_bank(&mut register_bytes, skip_registers);
        proof {
            assert(register_bytes@ =~= register_banks_bytes(
                count_registers.entry_seq(),
                dimen_registers.entry_seq(),
                skip_registers.entry_seq(),
            ));
        }
        let register_hash = siphash13_128(register_bytes.as_slice());
        let mut bytes: Vec<u8> = Vec::new();
        push_u128(&mut bytes, state_hash);
        push_u128(&mut bytes, font_hash);
        push_u128(&mut bytes, macro_hash);
        push_u128(&mut bytes, register_hash);
        proof {
            assert(bytes@ =~= enc_u128(spec_siphash13(tex_state.hash_bytes())) + enc_u128(
                spec_siphash13(font_state.hash_bytes()),
            ) + enc_u128(spec_siphash13(macro_arity_bytes(macros.entry_seq()))) + enc_u128(
                spec_siphash13(
                    register_banks_bytes(
                        count_registers.entry_seq(),
                        dimen_registers.entry_seq(),
                        skip_registers.entry_seq(),
                    ),
                ),
            ));
        }
        siphash13_128(bytes.as_slice())
    }
}

} // verus!
