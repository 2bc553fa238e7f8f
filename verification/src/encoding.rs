//! Byte-level encodings: the little-endian integer layouts and string
//! framing that `std::hash::Hash` feeds a hasher on a little-endian target
//! (`usize`, and the tags of enums, take the target's pointer width),
//! big-endian decoding, and decimal rendering of integers.

use vstd::prelude::*;
use vstd::utf8::encode_utf8;
use vstd::string::StringSliceAdditionalSpecFns;

verus! {

/// The `n` little-endian bytes of `v` (its low `8 * n` bits).
pub open spec fn le_bytes(v: nat, n: nat) -> Seq<u8>
    decreases n,
{
    if n == 0 {
        Seq::empty()
    } else {
        seq![(v % 256) as u8] + le_bytes(v / 256, (n - 1) as nat)
    }
}

/// Two's-complement value of a signed 32-bit integer as an unsigned number.
pub open spec fn i32_bits(v: i32) -> nat {
    if v >= 0 {
        v as nat
    } else {
        (v + 0x1_0000_0000) as nat
    }
}

/// Two's-complement value of a signed 8-bit integer as an unsigned number.
pub open spec fn i8_bits(v: i8) -> nat {
    if v >= 0 {
        v as nat
    } else {
        (v + 0x100) as nat
    }
}

/// The bytes hashed for an `i32`.
pub open spec fn enc_i32(v: i32) -> Seq<u8> {
    le_bytes(i32_bits(v), 4)
}

/// The bytes hashed for an `i8`.
pub open spec fn enc_i8(v: i8) -> Seq<u8> {
    le_bytes(i8_bits(v), 1)
}

/// The bytes hashed for a `u64`.
pub open spec fn enc_u64(v: u64) -> Seq<u8> {
    le_bytes(v as nat, 8)
}

/// Width in bytes of a `usize` (and an `isize`) on the target.
pub open spec fn usize_width() -> nat {
    (usize::BITS / 8) as nat
}

/// The bytes hashed for a `usize`: as many as the target's pointer width.
pub open spec fn enc_usize(v: usize) -> Seq<u8> {
    le_bytes(v as nat, usize_width())
}

/// The bytes hashed for the tag of an enum value: its discriminant as an
/// `isize`, which for the small non-negative discriminants here are the
/// bytes of the same `usize`.
pub open spec fn enc_tag(t: usize) -> Seq<u8> {
    enc_usize(t)
}

/// The bytes hashed for a `u128`.
pub open spec fn enc_u128(v: u128) -> Seq<u8> {
    le_bytes(v as nat, 16)
}

/// The bytes hashed for a `bool`.
pub open spec fn enc_bool(b: bool) -> Seq<u8> {
    seq![if b { 1u8 } else { 0u8 }]
}

/// The bytes hashed for a string: its UTF-8 encoding followed by `0xff`.
pub open spec fn enc_str(s: Seq<char>) -> Seq<u8> {
    encode_utf8(s) + seq![0xffu8]
}

/// Big-endian value of a byte sequence.
pub open spec fn be_value(b: Seq<u8>) -> nat
    decreases b.len(),
{
    if b.len() == 0 {
        0
    } else {
        be_value(b.drop_last()) * 256 + (b.last() as nat)
    }
}

/// Appends the `n` little-endian bytes of `v` to `out`.
pub fn push_le_bytes(out: &mut Vec<u8>, v: u128, n: usize)
    ensures
        final(out)@ == old(out)@ + le_bytes(v as nat, n as nat),
    decreases n,
{
    if n > 0 {
        out.push((v % 256) as u8);
        push_le_bytes(out, v / 256, n - 1);
        proof {
            assert(le_bytes(v as nat, n as nat) =~= seq![(v % 256) as u8] + le_bytes(
                (v / 256) as nat,
                (n - 1) as nat,
            ));
        }
    }
}

/// The `n` big-endian bytes of `v` (its low `8 * n` bits).
pub open spec fn be_bytes(v: nat, n: nat) -> Seq<u8>
    decreases n,
{
    if n == 0 {
        Seq::empty()
    } else {
        be_bytes(v / 256, (n - 1) as nat) + seq![(v % 256) as u8]
    }
}

/// Appends the `n` big-endian bytes of `v` to `out`.
pub fn push_be_bytes(out: &mut Vec<u8>, v: u128, n: usize)
    ensures
        final(out)@ == old(out)@ + be_bytes(v as nat, n as nat),
    decreases n,
{
    if n > 0 {
        push_be_bytes(out, v / 256, n - 1);
        out.push((v % 256) as u8);
        proof {
            assert(final(out)@ =~= old(out)@ + be_bytes(v as nat, n as nat));
        }
    }
}

/// Appends the hashed bytes of an `i32`.
pub fn push_i32(out: &mut Vec<u8>, v: i32)
    ensures
        final(out)@ == old(out)@ + enc_i32(v),
{
    let bits: u128 = if v >= 0 {
        v as u128
    } else {
        (v as i64 + 0x1_0000_0000i64) as u128
    };
    push_le_bytes(out, bits, 4);
}

/// Appends the hashed bytes of an `i8`.
pub fn push_i8(out: &mut Vec<u8>, v: i8)
    ensures
        final(out)@ == old(out)@ + enc_i8(v),
{
    let bits: u128 = if v >= 0 {
        v as u128
    } else {
        (v as i16 + 0x100i16) as u128
    };
    push_le_bytes(out, bits, 1);
}

/// Appends the hashed bytes of a `u64`.
pub fn push_u64(out: &mut Vec<u8>, v: u64)
    ensures
        final(out)@ == old(out)@ + enc_u64(v),
{
    push_le_bytes(out, v as u128, 8);
}

/// Appends the hashed bytes of a `usize`.
pub fn push_usize(out: &mut Vec<u8>, v: usize)
    ensures
        final(out)@ == old(out)@ + enc_usize(v),
{
    let width: usize = (usize::BITS / 8) as usize;
    push_le_bytes(out, v as u128, width);
}

/// Appends the hashed bytes of the tag of an enum value.
pub fn push_tag(out: &mut Vec<u8>, t: usize)
    ensures
        final(out)@ == old(out)@ + enc_tag(t),
{
    push_usize(out, t);
}

/// Appends the hashed bytes of a `u128`.
pub fn push_u128(out: &mut Vec<u8>, v: u128)
    ensures
        final(out)@ == old(out)@ + enc_u128(v),
{
    push_le_bytes(out, v, 16);
}

/// Appends the hashed byte of a `bool`.
pub fn push_bool(out: &mut Vec<u8>, b: bool)
    ensures
        final(out)@ == old(out)@ + enc_bool(b),
{
    out.push(if b { 1u8 } else { 0u8 });
    proof {
        assert(final(out)@ =~= old(out)@ + enc_bool(b));
    }
}

/// Appends a slice of bytes.
pub fn push_bytes(out: &mut Vec<u8>, bytes: &[u8])
    ensures
        final(out)@ == old(out)@ + bytes@,
{
    let ghost start = out@;
    let n = bytes.len();
    let mut i: usize = 0;
    while i < n
        invariant
            n == bytes@.len(),
            i <= n,
            out@ == start + bytes@.subrange(0, i as int),
        decreases n - i,
    {
        out.push(bytes[i]);
        i += 1;
        proof {
            assert(out@ =~= start + bytes@.subrange(0, i as int));
        }
    }
    proof {
        assert(bytes@.subrange(0, n as int) =~= bytes@);
    }
}

/// Appends the UTF-8 bytes of `s`, without framing.
pub fn push_utf8(out: &mut Vec<u8>, s: &str)
    ensures
        final(out)@ == old(out)@ + encode_utf8(s@),
{
    let b = s.as_bytes();
    push_bytes(out, b);
}

/// Appends the hashed bytes of a string: UTF-8 then `0xff`.
pub fn push_str(out: &mut Vec<u8>, s: &str)
    ensures
        final(out)@ == old(out)@ + enc_str(s@),
{
    push_utf8(out, s);
    out.push(0xffu8);
    proof {
        assert(final(out)@ =~= old(out)@ + enc_str(s@));
    }
}

/// Reads the first sixteen bytes of `b` as a big-endian `u128`.
pub fn u128_from_be_prefix(b: &[u8]) -> (r: u128)
    requires
        b@.len() >= 16,
    ensures
        r as nat == be_value(b@.subrange(0, 16)),
{
    let mut acc: u128 = 0;
    let mut i: usize = 0;
    while i < 16
        invariant
            b@.len() >= 16,
            i <= 16,
            acc as nat == be_value(b@.subrange(0, i as int)),
            acc as nat <= pow256(i as nat) - 1,
        decreases 16 - i,
    {
        proof {
            let s = b@.subrange(0, (i + 1) as int);
            assert(s.drop_last() =~= b@.subrange(0, i as int));
            assert(s.last() == b@[i as int]);
            lemma_pow256_step(i as nat);
            assert(acc * 256 + b@[i as int] <= pow256((i + 1) as nat) - 1) by (nonlinear_arith)
                requires
                    acc <= pow256(i as nat) - 1,
                    b@[i as int] <= 255,
                    pow256((i + 1) as nat) == pow256(i as nat) * 256,
            ;
            lemma_pow256_16();
            lemma_pow256_mono((i + 1) as nat, 16);
        }
        acc = acc * 256 + b[i] as u128;
        i += 1;
    }
    acc
}

/// `256^n`.
pub open spec fn pow256(n: nat) -> nat
    decreases n,
{
    if n == 0 {
        1
    } else {
        256 * pow256((n - 1) as nat)
    }
}

proof fn lemma_pow256_step(n: nat)
    ensures
        pow256(n + 1) == pow256(n) * 256,
{
}

proof fn lemma_pow256_16()
    ensures
        pow256(16) == 0x1_0000_0000_0000_0000_0000_0000_0000_0000,
{
    reveal_with_fuel(pow256, 17);
}

proof fn lemma_pow256_mono(a: nat, b: nat)
    requires
        a <= b,
    ensures
        pow256(a) <= pow256(b),
    decreases b,
{
    if a < b {
        lemma_pow256_mono(a, (b - 1) as nat);
    }
}

/// `le_bytes(v, n)` has `n` bytes.
pub proof fn lemma_le_bytes_len(v: nat, n: nat)
    ensures
        le_bytes(v, n).len() == n,
    decreases n,
{
    if n > 0 {
        lemma_le_bytes_len(v / 256, (n - 1) as nat);
    }
}

/// Numbers below `256^n` have distinct `n`-byte little-endian encodings.
pub proof fn lemma_le_bytes_injective(v: nat, w: nat, n: nat)
    requires
        v < pow256(n),
        w < pow256(n),
        le_bytes(v, n) == le_bytes(w, n),
    ensures
        v == w,
    decreases n,
{
    if n > 0 {
        let m = (n - 1) as nat;
        let a = le_bytes(v, n);
        let b = le_bytes(w, n);
        assert(a[0] == (v % 256) as u8);
        assert(b[0] == (w % 256) as u8);
        assert(a.skip(1) =~= le_bytes(v / 256, m));
        assert(b.skip(1) =~= le_bytes(w / 256, m));
        assert(pow256(n) == 256 * pow256(m));
        assert(v / 256 < pow256(m)) by (nonlinear_arith)
            requires
                v < 256 * pow256(m),
        ;
        assert(w / 256 < pow256(m)) by (nonlinear_arith)
            requires
                w < 256 * pow256(m),
        ;
        lemma_le_bytes_injective(v / 256, w / 256, m);
        assert(v == 256 * (v / 256) + v % 256);
        assert(w == 256 * (w / 256) + w % 256);
    }
}

/// The hashed bytes of an `i32` are four, and different values give
/// different bytes.
pub proof fn lemma_enc_i32_injective(a: i32, b: i32)
    ensures
        enc_i32(a).len() == 4,
        enc_i32(a) == enc_i32(b) ==> a == b,
{
    lemma_le_bytes_len(i32_bits(a), 4);
    reveal_with_fuel(pow256, 5);
    if enc_i32(a) == enc_i32(b) {
        lemma_le_bytes_injective(i32_bits(a), i32_bits(b), 4);
    }
}

/// The hashed bytes of a `u128` are sixteen, and different values give
/// different bytes.
pub proof fn lemma_enc_u128_injective(a: u128, b: u128)
    ensures
        enc_u128(a).len() == 16,
        enc_u128(a) == enc_u128(b) ==> a == b,
{
    lemma_le_bytes_len(a as nat, 16);
    lemma_pow256_16();
    if enc_u128(a) == enc_u128(b) {
        lemma_le_bytes_injective(a as nat, b as nat, 16);
    }
}

/// Decimal digits of `n`, most significant first, with no leading zeros
/// (a single `'0'` for zero).
pub open spec fn decimal(n: nat) -> Seq<char>
    decreases n,
{
    if n < 10 {
        seq![digit_char(n)]
    } else {
        decimal(n / 10) + seq![digit_char(n % 10)]
    }
}

/// The ASCII digit for `d < 10`.
pub open spec fn digit_char(d: nat) -> char {
    if d == 0 { '0' }
    else if d == 1 { '1' }
    else if d == 2 { '2' }
    else if d == 3 { '3' }
    else if d == 4 { '4' }
    else if d == 5 { '5' }
    else if d == 6 { '6' }
    else if d == 7 { '7' }
    else if d == 8 { '8' }
    else { '9' }
}

/// Signed decimal rendering, with a leading `'-'` for negative numbers.
pub open spec fn signed_decimal(v: int) -> Seq<char> {
    if v < 0 {
        seq!['-'] + decimal((-v) as nat)
    } else {
        decimal(v as nat)
    }
}

fn digit(d: u64) -> (c: char)
    requires
        d < 10,
    ensures
        c == digit_char(d as nat),
{
    if d == 0 { '0' }
    else if d == 1 { '1' }
    else if d == 2 { '2' }
    else if d == 3 { '3' }
    else if d == 4 { '4' }
    else if d == 5 { '5' }
    else if d == 6 { '6' }
    else if d == 7 { '7' }
    else if d == 8 { '8' }
    else { '9' }
}

/// Appends the decimal digits of `n` to `out`.
pub fn push_decimal(out: &mut Vec<char>, n: u64)
    ensures
        final(out)@ == old(out)@ + decimal(n as nat),
    decreases n,
{
    if n < 10 {
        out.push(digit(n));
        proof {
            assert(final(out)@ =~= old(out)@ + decimal(n as nat));
        }
    } else {
        push_decimal(out, n / 10);
        out.push(digit(n % 10));
        proof {
            assert(final(out)@ =~= old(out)@ + decimal(n as nat));
        }
    }
}

/// Appends the signed decimal rendering of `v` to `out`.
pub fn push_signed_decimal(out: &mut Vec<char>, v: i64)
    requires
        v > i64::MIN,
    ensures
        final(out)@ == old(out)@ + signed_decimal(v as int),
{
    if v < 0 {
        out.push('-');
        push_decimal(out, (-v) as u64);
        proof {
            assert(final(out)@ =~= old(out)@ + signed_decimal(v as int));
        }
    } else {
        push_decimal(out, v as u64);
    }
}

/// The ASCII bytes of a sequence of ASCII characters.
pub open spec fn ascii_bytes(s: Seq<char>) -> Seq<u8> {
    s.map_values(|c: char| c as u8)
}

/// Appends the UTF-8 bytes of the decimal digits of `n` to `out`.
pub fn push_decimal_utf8(out: &mut Vec<u8>, n: u64)
    ensures
        final(out)@ == old(out)@ + encode_utf8(decimal(n as nat)),
{
    let mut digits: Vec<char> = Vec::new();
    push_decimal(&mut digits, n);
    assert(digits@ =~= decimal(n as nat));
    let s = crate::text::string_from_chars(&digits);
    push_utf8(out, s.as_str());
}

/// Ten to the power `k`.
pub open spec fn pow10(k: nat) -> nat
    decreases k,
{
    if k == 0 {
        1
    } else {
        10 * pow10((k - 1) as nat)
    }
}

/// A number below `10^k` has at most `k` decimal digits.
pub proof fn lemma_decimal_len_below(n: nat, k: nat)
    requires
        k >= 1,
        n < pow10(k),
    ensures
        decimal(n).len() <= k,
    decreases k,
{
    if n >= 10 {
        assert(k >= 2) by {
            if k == 1 {
                assert(pow10(1) == 10) by {
                    reveal_with_fuel(pow10, 2);
                }
            }
        }
        assert(n / 10 < pow10((k - 1) as nat)) by (nonlinear_arith)
            requires
                n < pow10(k),
                pow10(k) == 10 * pow10((k - 1) as nat),
        ;
        lemma_decimal_len_below(n / 10, (k - 1) as nat);
    }
}

/// A `u64` has at most twenty decimal digits.
pub proof fn lemma_decimal_len(n: nat)
    requires
        n <= u64::MAX,
    ensures
        decimal(n).len() <= 20,
{
    assert(pow10(20) == 100000000000000000000) by {
        reveal_with_fuel(pow10, 21);
    }
    lemma_decimal_len_below(n, 20);
}

} // verus!
