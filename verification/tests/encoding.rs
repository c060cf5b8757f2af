//! Crockford base32, hash codes and key text forms.

use std::str::FromStr;

use gnunet::data::{crockford_decode, crockford_encode, CrockfordDecodeError};
use gnunet::{EcdsaPrivateKey, EcdsaPublicKey, HashCode};

fn decode_encode(s0: &str, n: usize) {
    let buf = crockford_decode(s0, n).unwrap();
    let s1 = crockford_encode(&buf);
    assert!(s0 == &s1[..], "s0 == \"{}\", s1 == \"{}\"", s0, s1);
}

#[test]
fn tests() {
    decode_encode("ABCDEFG", 4);
    decode_encode("ABCDEFGH", 5);
    decode_encode("ABCDEFGHJ4", 6);
}

#[test]
fn crockford_size_mismatch() {
    assert!(matches!(
        crockford_decode("ABCDEFG", 5),
        Err(CrockfordDecodeError::SizeMismatch { encoded_size: 7, target_size: 5 })
    ));
}

#[test]
fn crockford_invalid_char() {
    assert!(matches!(
        crockford_decode("AB!DEFG", 4),
        Err(CrockfordDecodeError::InvalidChar { ch: '!' })
    ));
}

#[test]
fn crockford_trailing_bits() {
    // "ABCDEFZ" ends in 1-bits past the 32nd data bit
    assert!(matches!(
        crockford_decode("ABCDEFZ", 4),
        Err(CrockfordDecodeError::TrailingBits)
    ));
}

#[test]
fn crockford_aliases_decode_alike() {
    assert_eq!(
        crockford_decode("o1abcdg", 4).unwrap(),
        crockford_decode("0IABCDG", 4).unwrap()
    );
}

#[test]
fn test_hashcode_to_from_string() {
    let s0: &str = "RMKN0V1JNA3PVC1148D6J10STVG94A8A651N0K849CF1RT6BGF26AMMT14GMDMNRDFSJRJME61KJ31DFBV12R1TPQJE64155132QN5G";
    let hc: HashCode = FromStr::from_str(s0).unwrap();
    let s: String = hc.to_text();
    let s1: &str = &s[..];
    assert!(s0 == s1, "s0 == {}, s1 == {}", s0, s1);
}

#[test]
fn test_ecdsa_to_from_string() {
    let s0: &str = "JK55QA8J1A164MB08VM209KE93M9JBB07M2VB8M3M03FKRFSV0MG";
    let key: EcdsaPublicKey = FromStr::from_str(s0).unwrap();
    let s1: String = key.to_text();
    println!("{} {}", s0, s0.len());
    println!("{} {}", s1, s1.len());
    assert!(s0 == &s1[..]);
}

#[test]
fn sha512_known_digest() {
    let hc = HashCode::from_buffer(&vec![b'a', b'b', b'c']);
    assert_eq!(
        hc.to_text(),
        "VPQKB8CKC5XBNK21ED4TW821649EDYJEH6MQX8GAKVQECJTNTED234MS58KMZGD86TX3R8X3ZVNVTHAD8GHP8F781RN9NJAFMN6A97R"
    );
    assert_eq!(hc.to_bytes().len(), 64);
}

#[test]
fn hashcode_bits_and_words() {
    let hc = HashCode::from_bytes((0u8..64).collect());
    assert_eq!(hc.to_text(), "000G40R40M30E209185GR38E1W8124GK2GAHC5RR34D1P70X3RFJ08924CJ2A9H750MJMASC5MQ2YC1H68SK8D9P6WW3JEHV7GYKWFR");
    // byte 0 is zero: its bits are clear; byte 1 is one: its lowest bit is set
    assert!(!hc.get_bit(0));
    assert!(hc.get_bit(8));
    assert!(!hc.get_bit(9));
    let same = HashCode::from_bytes((0u8..64).collect());
    assert_eq!(hc.matching_prefix_len(&same), 512);
    assert_eq!(hc.distance(&same), 0);
    let other = HashCode::from_bytes(vec![0xFF; 64]);
    // the first byte differs already in its lowest bit
    assert_eq!(hc.matching_prefix_len(&other), 0);
    assert_eq!(hc.distance(&other), 114599126);
    assert_eq!(hc.xor_cmp(&same, &other), std::cmp::Ordering::Less);
    assert_eq!(hc.xor_cmp(&other, &same), std::cmp::Ordering::Greater);
    assert_eq!(hc.xor_cmp(&other, &other), std::cmp::Ordering::Equal);
}

#[test]
fn derived_public_key_differs_from_scalar() {
    let sk = EcdsaPrivateKey::anonymous();
    let pk = sk.get_public();
    assert_eq!(pk.to_bytes().len(), 32);
    assert_ne!(pk.to_bytes(), sk.to_bytes());
    // derivation is a function of the scalar alone
    let again = EcdsaPrivateKey::anonymous().get_public();
    assert_eq!(pk.to_bytes(), again.to_bytes());
}

#[test]
fn key_serialize_appends_bytes() {
    let sk = EcdsaPrivateKey::from_bytes((0u8..32).collect());
    let mut out: Vec<u8> = vec![9];
    sk.serialize(&mut out);
    assert_eq!(out.len(), 33);
    assert_eq!(out[0], 9);
    assert_eq!(&out[1..], (0u8..32).collect::<Vec<u8>>().as_slice());
}
