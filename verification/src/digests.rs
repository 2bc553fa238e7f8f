//! The outside hash and encoding functions the library calls: SipHash-1-3
//! with 128-bit output and zero keys (`siphasher`), SHA-256 (`sha2`) and
//! standard padded base64 (`base64`).

use vstd::prelude::*;
use siphasher::sip128::SipHasher13;
use sha2::{Digest, Sha256};
use base64::Engine;

verus! {

/// The 128-bit SipHash-1-3 value, under the keys `(0, 0)`, of the byte
/// stream `data`, read as a `u128` with `h1` in the low half.
pub uninterp spec fn spec_siphash13(data: Seq<u8>) -> u128;

/// The 32-byte SHA-256 digest of `data`.
pub uninterp spec fn spec_sha256(data: Seq<u8>) -> Seq<u8>;

/// Trusted: `siphasher::sip128::SipHasher13::new().hash(data).as_u128()`.
/// The contract claims only that the value is a function of the bytes
/// alone. `SipHasher13` is a streaming hasher (`write` buffers its tail),
/// so this is also the value after writing the same bytes in any number
/// of pieces and calling `finish128`.
#[verifier::external_body]
pub(crate) fn siphash13_128(data: &[u8]) -> (r: u128)
    ensures
        r == spec_siphash13(data@),
{
    SipHasher13::new().hash(data).as_u128()
}

/// Trusted: `sha2::Sha256::digest(data)`, copied into a vector. The
/// contract claims that the digest is a function of the bytes alone and
/// is 32 bytes long, as the output type `GenericArray<u8, U32>` fixes.
#[verifier::external_body]
pub(crate) fn sha256_digest(data: &[u8]) -> (r: Vec<u8>)
    ensures
        r@ == spec_sha256(data@),
        r@.len() == 32,
{
    Sha256::digest(data).to_vec()
}

/// The character of the standard base64 alphabet for a value below 64.
pub open spec fn base64_char(v: nat) -> char {
    if v < 26 {
        (v + 65) as char
    } else if v < 52 {
        (v - 26 + 97) as char
    } else if v < 62 {
        (v - 52 + 48) as char
    } else if v == 62 {
        '+'
    } else {
        '/'
    }
}

/// Standard base64 with `=` padding (RFC 4648, section 4).
pub open spec fn base64_standard(d: Seq<u8>) -> Seq<char>
    decreases d.len(),
{
    if d.len() == 0 {
        Seq::empty()
    } else if d.len() == 1 {
        seq![base64_char(d[0] as nat / 4), base64_char((d[0] as nat % 4) * 16), '=', '=']
    } else if d.len() == 2 {
        seq![
            base64_char(d[0] as nat / 4),
            base64_char((d[0] as nat % 4) * 16 + d[1] as nat / 16),
            base64_char((d[1] as nat % 16) * 4),
            '=',
        ]
    } else {
        seq![
            base64_char(d[0] as nat / 4),
            base64_char((d[0] as nat % 4) * 16 + d[1] as nat / 16),
            base64_char((d[1] as nat % 16) * 4 + d[2] as nat / 64),
            base64_char(d[2] as nat % 64),
        ] + base64_standard(d.skip(3))
    }
}

/// Trusted: `base64::engine::general_purpose::STANDARD.encode(data)`.
/// The contract claims the RFC 4648 standard alphabet with `=` padding,
/// which is what that engine is configured with. `requires` keeps the
/// encoded length within `usize`, where `encode` would otherwise panic.
#[verifier::external_body]
pub(crate) fn base64_encode(data: &[u8]) -> (r: String)
    requires
        data@.len() / 3 * 4 + 4 <= usize::MAX,
    ensures
        r@ == base64_standard(data@),
{
    base64::engine::general_purpose::STANDARD.encode(data)
}

} // verus!
