use span::crypto::encode_hex;
use span::hex::{decode_hex, decode_hex_panics};

#[test]
fn hex_encodes_two_lower_case_digits_per_byte() {
    assert_eq!(encode_hex(&[]), "");
    assert_eq!(encode_hex(&[0x00, 0x0f, 0xa5, 0xff]), "000fa5ff");
}

#[test]
fn hex_round_trip() {
    let bytes: Vec<u8> = (0..=255).collect();
    assert_eq!(decode_hex(&encode_hex(&bytes)), Some(bytes));
}

#[test]
fn hex_decoding_is_lenient_like_a_radix_parser() {
    assert_eq!(decode_hex("  AbCd\n"), Some(vec![0xab, 0xcd]));
    assert_eq!(decode_hex("+a"), Some(vec![10]));
    assert_eq!(decode_hex(""), Some(vec![]));
    assert_eq!(decode_hex("abc"), None);
    assert_eq!(decode_hex("-a"), None);
    assert_eq!(decode_hex("zz"), None);
    assert_eq!(decode_hex("a b "), None);
}

#[test]
fn hex_decoding_counts_utf8_bytes() {
    // "é" is two bytes: an odd total is refused before any pair is read.
    assert_eq!(decode_hex("éa"), None);
    // A two-byte character forms one pair, which is not a number.
    assert_eq!(decode_hex("éé"), None);
    assert!(!decode_hex_panics("éé"));
    // A window of two bytes that would split a character cannot be read.
    assert!(decode_hex_panics("aé0"));
    assert!(decode_hex_panics("€0"));
    assert!(!decode_hex_panics("zzé0"));
    assert_eq!(decode_hex("zzé0"), None);
}
