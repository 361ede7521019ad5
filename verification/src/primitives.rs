//! The hash functions, the hex encoding, the lossy text decoding and the
//! source of randomness that the library takes from elsewhere. Their
//! contracts are believed, not proved.

use rand::rngs::OsRng;
use rand::RngCore;
use sha2::Digest;
use sha2::Sha512;
use sha3::Sha3_256;
use vstd::prelude::*;
use vstd::utf8::*;

verus! {

/// The SHA-512 digest of a byte sequence.
pub uninterp spec fn sha512_of(data: Seq<u8>) -> Seq<u8>;

/// The SHA3-256 digest of a byte sequence.
pub uninterp spec fn sha3_256_of(data: Seq<u8>) -> Seq<u8>;

/// The text that lossy decoding makes of a byte sequence that is not valid
/// UTF-8.
pub uninterp spec fn lossy_text_of(bytes: Seq<u8>) -> Seq<char>;

/// The sixteen lowercase hex digits.
pub open spec fn hex_digits() -> Seq<char> {
    seq!['0', '1', '2', '3', '4', '5', '6', '7', '8', '9', 'a', 'b', 'c', 'd', 'e', 'f']
}

/// A character is a lowercase hex digit.
pub open spec fn is_lower_hex(c: char) -> bool {
    ('0' <= c && c <= '9') || ('a' <= c && c <= 'f')
}

/// The lowercase hex encoding of a byte sequence: two digits for each byte,
/// the high half first.
pub open spec fn hex_text(data: Seq<u8>) -> Seq<char> {
    Seq::new(
        2 * data.len(),
        |i: int|
            if i % 2 == 0 {
                hex_digits()[data[i / 2] as int / 16]
            } else {
                hex_digits()[data[i / 2] as int % 16]
            },
    )
}

/// The text of a byte sequence: its decoding where it is valid UTF-8, and
/// the lossy repair otherwise.
pub open spec fn text_of(bytes: Seq<u8>) -> Seq<char> {
    if valid_utf8(bytes) {
        decode_utf8(bytes)
    } else {
        lossy_text_of(bytes)
    }
}

/// Calls `sha2::Sha512::digest`. Claimed: the result is the SHA-512 digest
/// of `data`, a function of `data` alone, and has 64 bytes.
#[verifier::external_body]
pub(crate) fn sha512(data: &[u8]) -> (out: Vec<u8>)
    ensures
        out@ == sha512_of(data@),
        out@.len() == 64,
{
    Sha512::digest(data).to_vec()
}

/// Calls `sha3::Sha3_256::digest`. Claimed: the result is the SHA3-256
/// digest of `data`, a function of `data` alone, and has 32 bytes.
#[verifier::external_body]
pub(crate) fn sha3_256(data: &[u8]) -> (out: Vec<u8>)
    ensures
        out@ == sha3_256_of(data@),
        out@.len() == 32,
{
    Sha3_256::digest(data).to_vec()
}

/// Calls `hex::encode`. Claimed: every byte becomes two lowercase hex
/// digits, the high half first, in the order of the bytes.
#[verifier::external_body]
pub(crate) fn hex_encode(data: &[u8]) -> (out: String)
    ensures
        out@ == hex_text(data@),
{
    hex::encode(data)
}

/// Calls `String::from_utf8_lossy`. Claimed: valid UTF-8 is decoded as it
/// stands; of other input only that the result is a function of the bytes.
#[verifier::external_body]
pub(crate) fn decode_lossy(bytes: &[u8]) -> (out: String)
    ensures
        valid_utf8(bytes@) ==> out@ == decode_utf8(bytes@),
        !valid_utf8(bytes@) ==> out@ == lossy_text_of(bytes@),
{
    String::from_utf8_lossy(bytes).into_owned()
}

/// Calls `next_u64` of `rand::rngs::OsRng`, which draws eight bytes from the
/// operating system and reads them as a little-endian integer. Nothing is
/// claimed of the value. Where the system has no randomness to give, the
/// call does not return.
#[verifier::external_body]
pub(crate) fn random_u64() -> u64 {
    OsRng.next_u64()
}

/// Every character of a hex encoding is a lowercase hex digit, and there are
/// two for each byte.
pub proof fn lemma_hex_text_shape(data: Seq<u8>)
    ensures
        hex_text(data).len() == 2 * data.len(),
        forall|i: int| 0 <= i < hex_text(data).len() ==> is_lower_hex(#[trigger] hex_text(data)[i]),
{
    assert forall|i: int| 0 <= i < hex_text(data).len() implies is_lower_hex(
        #[trigger] hex_text(data)[i],
    ) by {
        let b = data[i / 2] as int;
        let d = if i % 2 == 0 {
            b / 16
        } else {
            b % 16
        };
        assert(0 <= d < 16);
        assert(hex_text(data)[i] == hex_digits()[d]);
        lemma_hex_digit_is_lower_hex(d);
    }
}

proof fn lemma_hex_digit_is_lower_hex(d: int)
    requires
        0 <= d < 16,
    ensures
        is_lower_hex(hex_digits()[d]),
{
    let h = hex_digits();
    assert(is_lower_hex(h[0]) && is_lower_hex(h[1]) && is_lower_hex(h[2]) && is_lower_hex(h[3]));
    assert(is_lower_hex(h[4]) && is_lower_hex(h[5]) && is_lower_hex(h[6]) && is_lower_hex(h[7]));
    assert(is_lower_hex(h[8]) && is_lower_hex(h[9]) && is_lower_hex(h[10]) && is_lower_hex(h[11]));
    assert(is_lower_hex(h[12]) && is_lower_hex(h[13]) && is_lower_hex(h[14]) && is_lower_hex(
        h[15],
    ));
}

/// The lowercase hex encoding of `data`.
pub fn to_hex(data: &[u8]) -> (out: String)
    ensures
        out@ == hex_text(data@),
        out@.len() == 2 * data@.len(),
        forall|i: int| 0 <= i < out@.len() ==> is_lower_hex(#[trigger] out@[i]),
{
    proof {
        lemma_hex_text_shape(data@);
    }
    hex_encode(data)
}

} // verus!
