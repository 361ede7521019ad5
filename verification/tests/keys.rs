use promoter_core::keys::{
    build_trace, encrypt_with_nonce, keypair_with_salt, keystream, public_key_for, serialize_trace,
};
use promoter_core::{decrypt, encrypt, generate_keypair, EncryptedPackage, PublicKey};

fn unhex(s: &str) -> Vec<u8> {
    hex::decode(s).unwrap()
}

#[test]
fn pubkey_prefix_is_correct() {
    let (pk, _sk) = generate_keypair("syntaxos");
    assert!(pk.0.starts_with("PKEY:1:"));
    assert_eq!(pk.0.len(), "PKEY:1:".len() + 64); // sha3-256 hex = 64
}

#[test]
fn encrypt_decrypt_roundtrip() {
    let (pk, _sk) = generate_keypair("syntaxos");
    let msg = "hello, world!";
    let pkg: EncryptedPackage = encrypt(&pk, msg);
    let out = decrypt(&pk, &pkg);
    assert_eq!(out, msg);
}

#[test]
fn pubkey_tail_is_lowercase_hex() {
    let (pk, sk) = generate_keypair("");
    assert!(pk.0[7..].chars().all(|c| matches!(c, '0'..='9' | 'a'..='f')));
    assert_eq!(pk.0, public_key_for(&sk.0).0);
}

#[test]
fn trace_of_passphrase_is_known() {
    let trace = build_trace("syntaxos");
    assert_eq!(trace.len(), 995120);
    assert_eq!(&trace[..5], &[2, 3, 5, 6, 7]);
    assert_eq!(trace[trace.len() - 1], 1000001);
}

#[test]
fn keypair_with_known_salt() {
    let (pk, sk) = keypair_with_salt("syntaxos", 0x0123456789abcdef);
    assert_eq!(sk.0[0], 81985529216486893);
    assert_eq!(sk.0[1], 3);
    assert_eq!(sk.0.len(), 995120);
    assert_eq!(pk.0, "PKEY:1:9d7a2e485f538b4907054f0b14a773567f933dca3ce5cecd1db1988f9010656e");
}

#[test]
fn public_key_of_short_trace_is_known() {
    assert_eq!(
        public_key_for(&[2, 3, 5]).0,
        "PKEY:1:3b7fbd042973a138e543817acaab0d731fd3014724cf5cdbb05cee4c49940dc1"
    );
}

#[test]
fn trace_bytes_are_little_endian() {
    assert_eq!(
        serialize_trace(&[0x0102030405060708, 1]),
        vec![8, 7, 6, 5, 4, 3, 2, 1, 1, 0, 0, 0, 0, 0, 0, 0]
    );
    assert_eq!(serialize_trace(&[]), Vec::<u8>::new());
}

#[test]
fn ciphertext_with_known_nonce() {
    let pk = PublicKey(String::from("PKEY:1:00"));
    let pkg = encrypt_with_nonce(&pk, "hello, world!", 42);
    assert_eq!(pkg.nonce, 42);
    assert_eq!(pkg.ciphertext, unhex("b81189db56e83bf57867ec5d74"));
    assert_eq!(decrypt(&pk, &pkg), "hello, world!");
}

#[test]
fn ciphertext_longer_than_one_block() {
    let pk = PublicKey(String::from("PKEY:1:00"));
    let msg = "a".repeat(70);
    let pkg = encrypt_with_nonce(&pk, &msg, 7);
    assert_eq!(
        pkg.ciphertext,
        unhex("1dc244b5b94f091328759e51d03b5128e59098229d49886138d4396409d5ba866751374c837a783e585a65c524af06c380225ce94e2477b194c93ea33e9f7396284d86412517")
    );
    assert_eq!(decrypt(&pk, &pkg), msg);
}

#[test]
fn keystream_grows_by_whole_blocks() {
    let pk = PublicKey(String::from("PKEY:1:00"));
    assert_eq!(keystream(&pk, 1, 0).len(), 32);
    assert_eq!(keystream(&pk, 1, 32).len(), 32);
    assert_eq!(keystream(&pk, 1, 33).len(), 64);
    assert_eq!(keystream(&pk, 1, 64).len(), 64);
    assert_eq!(keystream(&pk, 1, 65).len(), 96);
    let long = keystream(&pk, 1, 65);
    assert_eq!(&long[..32], &keystream(&pk, 1, 0)[..]);
}

#[test]
fn empty_message_round_trips() {
    let pk = PublicKey(String::from("PKEY:1:00"));
    let pkg = encrypt(&pk, "");
    assert!(pkg.ciphertext.is_empty());
    assert_eq!(decrypt(&pk, &pkg), "");
}

#[test]
fn non_ascii_message_round_trips() {
    let pk = PublicKey(String::from("PKEY:1:abc"));
    let msg = "gr\u{fc}\u{df}e, \u{4e16}\u{754c} \u{1f30d}";
    let pkg = encrypt(&pk, msg);
    assert_eq!(pkg.ciphertext.len(), msg.len());
    assert_eq!(decrypt(&pk, &pkg), msg);
}

#[test]
fn two_encryptions_both_decrypt() {
    let pk = PublicKey(String::from("PKEY:1:abc"));
    let a = encrypt(&pk, "same message");
    let b = encrypt(&pk, "same message");
    assert_eq!(decrypt(&pk, &a), "same message");
    assert_eq!(decrypt(&pk, &b), "same message");
}

#[test]
fn invalid_text_is_repaired() {
    let pk = PublicKey(String::from("PKEY:1:00"));
    let stream = keystream(&pk, 5, 2);
    let pkg = EncryptedPackage { nonce: 5, ciphertext: vec![stream[0] ^ 0xff, stream[1] ^ b'a'] };
    assert_eq!(decrypt(&pk, &pkg), "\u{fffd}a");
}
