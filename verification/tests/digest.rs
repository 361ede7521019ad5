use promoter_core::digest::{collect_final_promoters, fingerprint, preimage};
use promoter_core::p_hash;
use promoter_core::primitives::to_hex;
use promoter_core::seed::{derive_digest_seed, derive_seed};

fn is_lower_hex(s: &str) -> bool {
    s.chars().all(|c| matches!(c, '0'..='9' | 'a'..='f'))
}

#[test]
fn digest_len_is_128_hex() {
    assert_eq!(p_hash(b"").len(), 128);
}

#[test]
fn repeatability() {
    let x1 = p_hash(b"syntaxos");
    let x2 = p_hash(b"syntaxos");
    assert_eq!(x1, x2);
}

#[test]
fn different_inputs_differ() {
    let a = p_hash(b"hello");
    let b = p_hash(b"world");
    assert_ne!(a, b);
}

#[test]
fn digest_is_lowercase_hex() {
    let d = p_hash(b"hello");
    assert_eq!(d.len(), 128);
    assert!(is_lower_hex(&d));
}

#[test]
fn digest_of_hello_is_known() {
    assert_eq!(
        p_hash(b"hello"),
        "09c3b8c0398018a58142f9cb1221aa818eda3d76723a7bdf03ffefecf0ece54eda3a30c521cb9a6f8d8bf09d71c326245b1767607099625e2a6f8b0d7ed59b9f"
    );
}

#[test]
fn digest_of_empty_input_is_known() {
    let d = p_hash(b"");
    assert!(is_lower_hex(&d));
    assert_eq!(
        d,
        "ab771747894d9a3ce33e29bb188870695ffbc50f6b1664fe9e06dacc13174983e38bde328e738328a52e5ab471040881898995856fd9a97d673eb538b4226ec4"
    );
}

#[test]
fn seed_of_empty_is_one() {
    assert_eq!(derive_seed(b""), 1);
}

#[test]
fn seed_of_known_inputs() {
    assert_eq!(derive_seed(b"abc"), 929468009);
    assert_eq!(derive_seed(b"hello"), 597841928);
    assert_eq!(derive_seed(&[200u8]), 4482397);
}

#[test]
fn digest_seed_uses_sentinel_for_empty() {
    assert_eq!(derive_digest_seed(b""), 65467);
    assert_eq!(derive_digest_seed(b"abc"), 929468009);
}

#[test]
fn byte_index_wraps_at_table_length() {
    assert_eq!(derive_seed(&[168u8]), derive_seed(&[0u8]));
    assert_eq!(derive_digest_seed(&[0u8]), derive_digest_seed(b""));
}

#[test]
fn final_promoters_are_padded_with_filler() {
    let got = collect_final_promoters(&[2, 3]);
    let mut want: Vec<u64> = vec![3, 2];
    let filler = [2u64, 3, 5, 7];
    for k in 0..30 {
        want.push(filler[k % 4]);
    }
    assert_eq!(got, want);
}

#[test]
fn final_promoters_of_empty_are_all_filler() {
    let got = collect_final_promoters(&[]);
    assert_eq!(got.len(), 32);
    assert_eq!(&got[..5], &[2, 3, 5, 7, 2]);
    assert_eq!(got[31], 7);
}

#[test]
fn final_promoters_take_last_32_reversed() {
    let prom: Vec<u64> = (100..140).collect();
    let got = collect_final_promoters(&prom);
    let want: Vec<u64> = (108..140).rev().collect();
    assert_eq!(got, want);
}

#[test]
fn preimage_of_short_run() {
    let got = preimage(&[2, 3]);
    assert_eq!(
        String::from_utf8(got).unwrap(),
        "3,2,2,3,5,7,2,3,5,7,2,3,5,7,2,3,5,7,2,3,5,7,2,3,5,7,2,3,5,7,2,3:2,2,3,1,5"
    );
}

#[test]
fn preimage_of_long_run() {
    let prom: Vec<u64> = (100..140).collect();
    let got = preimage(&prom);
    assert_eq!(
        String::from_utf8(got).unwrap(),
        "139,138,137,136,135,134,133,132,131,130,129,128,127,126,125,124,123,122,121,120,119,118,117,116,115,114,113,112,111,110,109,108:40,40,139,39,4780"
    );
}

#[test]
fn preimage_writes_large_values_in_full() {
    let got = String::from_utf8(preimage(&[u64::MAX, 0, 10])).unwrap();
    assert!(got.starts_with("10,0,18446744073709551615,2,3,5,7,"));
    assert!(got.ends_with(":3,3,18446744073709551615,18446744073709551615,854501430"));
}

#[test]
fn fingerprint_of_short_run_is_known() {
    assert_eq!(
        fingerprint(&[2, 3]),
        "9318fae9c075912899689c5dfb9d3efcac989336b46c6569911d10f8af6105edc84bb38a0fcc596abeea8abd8850b9a0570964368e6a83e7b675eeea5b29b7a5"
    );
}

#[test]
fn fingerprint_of_empty_run_is_known() {
    assert_eq!(
        fingerprint(&[]),
        "5f9c1db435552e373cc07bc8e03184240f6fea2a19ae753a2f29ebcfbbfc9616b30ddcf5267c85c7c466fdc6ddbe17ad6cfac19a05488bb08134b8e6daa91923"
    );
}

#[test]
fn hex_is_lowercase_two_digits_per_byte() {
    assert_eq!(to_hex(&[1, 2, 3, 15, 16]), "0102030f10");
    assert_eq!(to_hex(&[0xf9, 0xb4, 0xca]), "f9b4ca");
    assert_eq!(to_hex(&[]), "");
}
