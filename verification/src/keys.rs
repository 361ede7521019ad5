//! Key pairs derived from a passphrase, and the keystream cipher that a
//! public key and a nonce define.

use crate::engine::{promoters, sga_engine, N_ITERATIONS};
use crate::primitives::{
    decode_lossy, hex_text, is_lower_hex, lemma_hex_text_shape, random_u64, sha3_256, sha3_256_of,
    text_of, to_hex,
};
use crate::seed::{derive_seed, seed_of};
use vstd::prelude::*;
use vstd::string::*;
use vstd::utf8::*;

verus! {

/// The largest number of values in a trace.
pub const TRACE_LEN: usize = 1_000_000;

/// A public key: the text `PKEY:1:` and 64 lowercase hex digits.
#[derive(Debug, Clone)]
pub struct PublicKey(pub String);

/// A private key: the trace that the public key is the hash of.
#[derive(Debug, Clone)]
pub struct PrivateKey(pub Vec<u64>);

/// A nonce and the ciphertext made with it.
#[derive(Debug, Clone)]
pub struct EncryptedPackage {
    pub nonce: u64,
    pub ciphertext: Vec<u8>,
}

/// The text that every public key begins with.
pub open spec fn key_prefix() -> Seq<char> {
    seq!['P', 'K', 'E', 'Y', ':', '1', ':']
}

/// The shape of every public key text: the prefix, then 64 lowercase hex
/// digits.
pub open spec fn is_public_key_text(text: Seq<char>) -> bool {
    &&& text.len() == 7 + 64
    &&& text.subrange(0, 7) == key_prefix()
    &&& forall|i: int| 7 <= i < 71 ==> is_lower_hex(#[trigger] text[i])
}

/// Byte `k` of a 64-bit value, counted from the low end.
pub open spec fn le_byte(x: u64, k: u64) -> u8 {
    ((x >> (8 * k) as u64) & 0xff) as u8
}

/// The eight bytes of a 64-bit value, the lowest first.
pub open spec fn le_bytes(x: u64) -> Seq<u8> {
    seq![
        le_byte(x, 0),
        le_byte(x, 1),
        le_byte(x, 2),
        le_byte(x, 3),
        le_byte(x, 4),
        le_byte(x, 5),
        le_byte(x, 6),
        le_byte(x, 7),
    ]
}

/// The bytes of a trace: those of its values, in order.
pub open spec fn trace_bytes(trace: Seq<u64>) -> Seq<u8>
    decreases trace.len(),
{
    if trace.len() == 0 {
        Seq::empty()
    } else {
        trace_bytes(trace.drop_last()) + le_bytes(trace.last())
    }
}

/// The first `limit` values of a sequence, or all of it where it has fewer.
pub open spec fn at_most(s: Seq<u64>, limit: int) -> Seq<u64> {
    if s.len() <= limit {
        s
    } else {
        s.subrange(0, limit)
    }
}

/// The trace of a passphrase: the first promoted candidates of the run that
/// the seed of its bytes starts.
pub open spec fn trace_of(pass: Seq<char>) -> Seq<u64> {
    at_most(promoters(seed_of(encode_utf8(pass)), N_ITERATIONS), TRACE_LEN as int)
}

/// A trace with `salt` mixed into its first value.
pub open spec fn salted_trace(trace: Seq<u64>, salt: u64) -> Seq<u64>
    recommends
        trace.len() > 0,
{
    trace.update(0, trace[0] ^ salt)
}

/// The text of the public key of a trace.
pub open spec fn public_key_text(trace: Seq<u64>) -> Seq<char> {
    key_prefix() + hex_text(sha3_256_of(trace_bytes(trace)))
}

/// The first block of the keystream of a public key and a nonce.
pub open spec fn first_block(key: Seq<char>, nonce: u64) -> Seq<u8> {
    sha3_256_of(encode_utf8(key) + le_bytes(nonce))
}

/// A keystream after `blocks` extensions: each appends the hash of the 32
/// bytes before it.
pub open spec fn stretched(first: Seq<u8>, blocks: nat) -> Seq<u8>
    decreases blocks,
{
    if blocks == 0 {
        first
    } else {
        let so_far = stretched(first, (blocks - 1) as nat);
        so_far + sha3_256_of(so_far.subrange(so_far.len() - 32, so_far.len() as int))
    }
}

/// The number of extensions that a message of `len` bytes asks for.
pub open spec fn extensions_for(len: nat) -> nat {
    if len <= 32 {
        0
    } else {
        ((len - 1) / 32) as nat
    }
}

/// The keystream for a message of `len` bytes.
pub open spec fn keystream_of(key: Seq<char>, nonce: u64, len: nat) -> Seq<u8> {
    stretched(first_block(key, nonce), extensions_for(len))
}

/// Byte by byte, `data` XOR the keystream.
pub open spec fn masked(data: Seq<u8>, stream: Seq<u8>) -> Seq<u8> {
    Seq::new(data.len(), |i: int| data[i] ^ stream[i])
}

/// The ciphertext of a message under a public key and a nonce.
pub open spec fn ciphertext_of(key: Seq<char>, nonce: u64, message: Seq<char>) -> Seq<u8> {
    masked(encode_utf8(message), keystream_of(key, nonce, encode_utf8(message).len()))
}

/// The text that a ciphertext decrypts to under a public key and a nonce.
pub open spec fn plaintext_of(key: Seq<char>, nonce: u64, ciphertext: Seq<u8>) -> Seq<char> {
    text_of(masked(ciphertext, keystream_of(key, nonce, ciphertext.len())))
}

/// Masking twice with the same stream gives the data back.
pub proof fn lemma_masked_twice(data: Seq<u8>, stream: Seq<u8>)
    ensures
        masked(masked(data, stream), stream) == data,
{
    assert forall|i: int| 0 <= i < data.len() implies masked(masked(data, stream), stream)[i]
        == data[i] by {
        let d = data[i];
        let s = stream[i];
        assert((d ^ s) ^ s == d) by (bit_vector);
    }
    assert(masked(masked(data, stream), stream) =~= data);
}

/// Decrypting what was encrypted under the same public key gives the
/// message back, whatever the nonce.
pub proof fn lemma_round_trip(key: Seq<char>, nonce: u64, message: Seq<char>)
    ensures
        plaintext_of(key, nonce, ciphertext_of(key, nonce, message)) == message,
{
    let bytes = encode_utf8(message);
    let stream = keystream_of(key, nonce, bytes.len());
    lemma_masked_twice(bytes, stream);
    encode_utf8_valid_utf8(message);
    encode_utf8_decode_utf8(message);
}

/// Every public key text is the prefix and 64 lowercase hex digits, given
/// that the hash has 32 bytes.
pub proof fn lemma_public_key_shape(hash: Seq<u8>)
    requires
        hash.len() == 32,
    ensures
        is_public_key_text(key_prefix() + hex_text(hash)),
{
    lemma_hex_text_shape(hash);
    let t = key_prefix() + hex_text(hash);
    assert(t.subrange(0, 7) =~= key_prefix());
    assert forall|i: int| 7 <= i < 71 implies is_lower_hex(#[trigger] t[i]) by {
        assert(t[i] == hex_text(hash)[i - 7]);
    }
}

fn byte_at(x: u64, k: u64) -> (b: u8)
    requires
        k < 8,
    ensures
        b == le_byte(x, k),
{
    let shift: u64 = 8 * k;
    let low: u64 = (x >> shift) & 0xff;
    proof {
        assert(((x >> shift) & 0xff) <= 0xff) by (bit_vector);
    }
    low as u8
}

fn push_le_bytes(out: &mut Vec<u8>, x: u64)
    ensures
        final(out)@ == old(out)@ + le_bytes(x),
{
    out.push(byte_at(x, 0));
    out.push(byte_at(x, 1));
    out.push(byte_at(x, 2));
    out.push(byte_at(x, 3));
    out.push(byte_at(x, 4));
    out.push(byte_at(x, 5));
    out.push(byte_at(x, 6));
    out.push(byte_at(x, 7));
    proof {
        assert(out@ =~= old(out)@ + le_bytes(x));
    }
}

/// Writes the values of a trace as bytes, each value lowest byte first.
pub fn serialize_trace(trace: &[u64]) -> (out: Vec<u8>)
    ensures
        out@ == trace_bytes(trace@),
{
    let mut out: Vec<u8> = Vec::new();
    let mut i: usize = 0;
    while i < trace.len()
        invariant
            i <= trace@.len(),
            out@ == trace_bytes(trace@.take(i as int)),
        decreases trace@.len() - i,
    {
        proof {
            assert(trace@.take(i + 1).drop_last() =~= trace@.take(i as int));
        }
        push_le_bytes(&mut out, trace[i]);
        i += 1;
    }
    proof {
        assert(trace@.take(i as int) =~= trace@);
    }
    out
}

/// The trace of a passphrase. It is never empty, and its first value is 2.
pub fn build_trace(pass: &str) -> (trace: Vec<u64>)
    ensures
        trace@ == trace_of(pass@),
        1 <= trace@.len() <= TRACE_LEN,
        trace@[0] == 2,
{
    let seed = derive_seed(pass.as_bytes());
    let mut trace = sga_engine(seed, N_ITERATIONS);
    trace.truncate(TRACE_LEN);
    trace
}

/// The public key of a trace.
pub fn public_key_for(trace: &[u64]) -> (key: PublicKey)
    ensures
        key.0@ == public_key_text(trace@),
        is_public_key_text(key.0@),
{
    let bytes = serialize_trace(trace);
    let hash = sha3_256(bytes.as_slice());
    let digits = to_hex(hash.as_slice());
    proof {
        reveal_strlit("PKEY:1:");
        assert("PKEY:1:"@ =~= key_prefix());
        lemma_public_key_shape(hash@);
    }
    let text = String::from_str("PKEY:1:").concat(digits.as_str());
    PublicKey(text)
}

/// The key pair of a passphrase and a salt: the salt is mixed into the first
/// value of the trace, the trace is the private key, and its hash the public
/// one.
pub fn keypair_with_salt(pass: &str, salt: u64) -> (keys: (PublicKey, PrivateKey))
    ensures
        keys.1.0@ == salted_trace(trace_of(pass@), salt),
        keys.0.0@ == public_key_text(keys.1.0@),
        is_public_key_text(keys.0.0@),
{
    let mut trace = build_trace(pass);
    let first: u64 = trace[0] ^ salt;
    trace.set(0, first);
    let key = public_key_for(trace.as_slice());
    (key, PrivateKey(trace))
}

/// A fresh key pair of a passphrase: a random salt is drawn, and the pair is
/// the one of the passphrase and that salt.
pub fn generate_keypair(pass: &str) -> (keys: (PublicKey, PrivateKey))
    ensures
        exists|salt: u64| keys.1.0@ == salted_trace(trace_of(pass@), salt),
        keys.0.0@ == public_key_text(keys.1.0@),
        is_public_key_text(keys.0.0@),
{
    let salt = random_u64();
    keypair_with_salt(pass, salt)
}

/// The keystream of a public key and a nonce for `len` bytes.
pub fn keystream(key: &PublicKey, nonce: u64, len: usize) -> (stream: Vec<u8>)
    ensures
        stream@ == keystream_of(key.0@, nonce, len as nat),
        stream@.len() >= len,
{
    let mut seedtext: Vec<u8> = Vec::new();
    seedtext.extend_from_slice(key.0.as_str().as_bytes());
    push_le_bytes(&mut seedtext, nonce);
    proof {
        assert(seedtext@ =~= encode_utf8(key.0@) + le_bytes(nonce));
    }
    let mut last = sha3_256(seedtext.as_slice());
    let mut stream: Vec<u8> = Vec::new();
    stream.extend_from_slice(last.as_slice());
    let ghost first = last@;
    let ghost mut blocks: nat = 0;
    proof {
        assert(stream@ =~= first);
    }
    while stream.len() < len
        invariant
            first == first_block(key.0@, nonce),
            stream@ == stretched(first, blocks),
            stream@.len() == 32 * (blocks + 1),
            last@ == stream@.subrange(stream@.len() - 32, stream@.len() as int),
            blocks == 0 || 32 * blocks < len,
        decreases
                if stream@.len() < len {
                    len - stream@.len()
                } else {
                    0
                },
    {
        let ghost before = stream@;
        last = sha3_256(last.as_slice());
        stream.extend_from_slice(last.as_slice());
        proof {
            blocks = blocks + 1;
            assert(stream@ =~= before + last@);
            assert(last@ =~= stream@.subrange(stream@.len() - 32, stream@.len() as int));
        }
    }
    proof {
        assert(blocks == extensions_for(len as nat));
    }
    stream
}

fn mask(data: &[u8], stream: &[u8]) -> (out: Vec<u8>)
    requires
        stream@.len() >= data@.len(),
    ensures
        out@ == masked(data@, stream@),
{
    let mut out: Vec<u8> = Vec::new();
    let mut i: usize = 0;
    while i < data.len()
        invariant
            i <= data@.len() <= stream@.len(),
            out@.len() == i,
            forall|j: int| 0 <= j < i ==> out@[j] == data@[j] ^ stream@[j],
        decreases data@.len() - i,
    {
        out.push(data[i] ^ stream[i]);
        i += 1;
    }
    proof {
        assert(out@ =~= masked(data@, stream@));
    }
    out
}

/// Encrypts `message` under a public key with the given nonce.
pub fn encrypt_with_nonce(pub_key: &PublicKey, message: &str, nonce: u64) -> (pkg:
    EncryptedPackage)
    ensures
        pkg.nonce == nonce,
        pkg.ciphertext@ == ciphertext_of(pub_key.0@, nonce, message@),
        pkg.ciphertext@.len() == encode_utf8(message@).len(),
        plaintext_of(pub_key.0@, nonce, pkg.ciphertext@) == message@,
{
    let bytes = message.as_bytes();
    let stream = keystream(pub_key, nonce, bytes.len());
    let ciphertext = mask(bytes, stream.as_slice());
    proof {
        lemma_round_trip(pub_key.0@, nonce, message@);
    }
    EncryptedPackage { nonce, ciphertext }
}

/// Encrypts `message` under a public key with a nonce drawn at random. The
/// package holds the nonce, and decrypts to the message under the same key.
pub fn encrypt(pub_key: &PublicKey, message: &str) -> (pkg: EncryptedPackage)
    ensures
        pkg.ciphertext@ == ciphertext_of(pub_key.0@, pkg.nonce, message@),
        pkg.ciphertext@.len() == encode_utf8(message@).len(),
        plaintext_of(pub_key.0@, pkg.nonce, pkg.ciphertext@) == message@,
{
    let nonce = random_u64();
    encrypt_with_nonce(pub_key, message, nonce)
}

/// Decrypts a package under a public key. Bytes that are no valid text are
/// repaired, never refused.
pub fn decrypt(pub_key: &PublicKey, pkg: &EncryptedPackage) -> (text: String)
    ensures
        text@ == plaintext_of(pub_key.0@, pkg.nonce, pkg.ciphertext@),
{
    let stream = keystream(pub_key, pkg.nonce, pkg.ciphertext.len());
    let plain = mask(pkg.ciphertext.as_slice(), stream.as_slice());
    decode_lossy(plain.as_slice())
}

} // verus!
