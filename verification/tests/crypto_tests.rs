use ed25519_dalek::{Signer, SigningKey, VerifyingKey};
use sha2::{Digest, Sha256};

use guardlib::crypto::{
    constant_time_eq, spki_sha256_hex, validate_certificate_fingerprint, validate_certificate_utf8,
    verify_once,
    verify_signature_multi,
};
use guardlib::key::{
    reconstruct_key_v1, reconstruct_key_v2, reconstruct_key_v3, reconstruct_key_v4,
    reconstruct_key_v5,
};

const TRUSTED_KEY: [u8; 32] = [
    0x8b, 0x10, 0xbe, 0x42, 0xc8, 0x0b, 0x2a, 0xd7, 0xc0, 0x50, 0x70, 0xab, 0xa5, 0x3a, 0xaa, 0x96,
    0x6c, 0x42, 0x85, 0x18, 0xd0, 0xa5, 0xee, 0x4c, 0x30, 0xf7, 0x73, 0x1e, 0xd6, 0x7b, 0xde, 0xcf,
];

fn tlv(tag: u8, content: &[u8]) -> Vec<u8> {
    let mut out = vec![tag];
    let n = content.len();
    if n < 0x80 {
        out.push(n as u8);
    } else if n < 0x100 {
        out.push(0x81);
        out.push(n as u8);
    } else {
        out.push(0x82);
        out.push((n >> 8) as u8);
        out.push(n as u8);
    }
    out.extend_from_slice(content);
    out
}

fn sample_spki() -> Vec<u8> {
    let mut key = vec![0u8];
    key.extend_from_slice(&[0x11u8; 32]);
    let mut body = tlv(0x30, &tlv(0x06, &[0x2b, 0x65, 0x70]));
    body.extend(tlv(0x03, &key));
    tlv(0x30, &body)
}

fn sample_cert(with_version: bool) -> Vec<u8> {
    let mut tbs = Vec::new();
    if with_version {
        tbs.extend(tlv(0xa0, &tlv(0x02, &[2])));
    }
    tbs.extend(tlv(0x02, &[1, 2, 3, 4]));
    tbs.extend(tlv(0x30, &tlv(0x06, &[0x2b, 0x65, 0x70])));
    tbs.extend(tlv(0x30, &[0x41u8; 200]));
    tbs.extend(tlv(0x30, &tlv(0x17, b"250101000000Z")));
    tbs.extend(tlv(0x30, &[0x42u8; 20]));
    tbs.extend(sample_spki());
    tbs.extend(tlv(0xa3, &tlv(0x30, &[])));
    let mut cert = tlv(0x30, &tbs);
    cert.extend(tlv(0x30, &tlv(0x06, &[0x2b, 0x65, 0x70])));
    cert.extend(tlv(0x03, &[0, 9, 9, 9]));
    tlv(0x30, &cert)
}

fn expected_fingerprint(spki: &[u8]) -> String {
    let digest = Sha256::digest(spki);
    digest.iter().map(|b| format!("{:02X}", b)).collect::<Vec<_>>().join(":")
}

#[test]
fn every_reconstruction_gives_the_trusted_key() {
    assert_eq!(reconstruct_key_v1(), TRUSTED_KEY);
    assert_eq!(reconstruct_key_v2(), TRUSTED_KEY);
    assert_eq!(reconstruct_key_v3(), TRUSTED_KEY);
    assert_eq!(reconstruct_key_v4(), TRUSTED_KEY);
    assert_eq!(reconstruct_key_v5(), TRUSTED_KEY);
}

#[test]
fn constant_time_eq_compares_contents() {
    assert!(constant_time_eq(b"AA:BB", b"AA:BB"));
    assert!(!constant_time_eq(b"AA:BB", b"AA:BC"));
    assert!(!constant_time_eq(b"AA:BB", b"AA:B"));
    assert!(constant_time_eq(b"", b""));
}

#[test]
fn verify_once_accepts_a_genuine_signature() {
    let signing = SigningKey::from_bytes(&[7u8; 32]);
    let key = signing.verifying_key().to_bytes();
    let msg = br#"{"api_url":"https://example.com","api_fingerprint":"AA:BB"}"#;
    let sig = signing.sign(msg).to_bytes();
    assert!(verify_once(msg, &sig, key));
}

#[test]
fn verify_once_rejects_a_tampered_message_or_signature() {
    let signing = SigningKey::from_bytes(&[7u8; 32]);
    let key = signing.verifying_key().to_bytes();
    let msg = b"config body";
    let sig = signing.sign(msg).to_bytes();
    assert!(!verify_once(b"config bodY", &sig, key));
    let mut bad = sig;
    bad[3] ^= 1;
    assert!(!verify_once(msg, &bad, key));
}

#[test]
fn verify_once_rejects_wrong_signature_lengths() {
    let signing = SigningKey::from_bytes(&[7u8; 32]);
    let key = signing.verifying_key().to_bytes();
    let msg = b"config body";
    let sig = signing.sign(msg).to_bytes();
    assert!(!verify_once(msg, &sig[..63], key));
    let mut long = sig.to_vec();
    long.push(0);
    assert!(!verify_once(msg, &long, key));
    assert!(!verify_once(msg, &[], key));
}

#[test]
fn verify_once_rejects_a_key_that_does_not_decode() {
    let signing = SigningKey::from_bytes(&[7u8; 32]);
    let msg = b"config body";
    let sig = signing.sign(msg).to_bytes();
    let bad_key = (0u8..=255)
        .map(|b| [b; 32])
        .find(|k| VerifyingKey::from_bytes(k).is_err())
        .expect("some byte pattern is not a point");
    assert!(!verify_once(msg, &sig, bad_key));
}

#[test]
fn verify_signature_multi_rejects_foreign_signatures() {
    let signing = SigningKey::from_bytes(&[9u8; 32]);
    let msg = br#"{"api_url":"https://example.com","api_fingerprint":"AA:BB:CC:DD"}"#;
    let sig = signing.sign(msg).to_bytes();
    assert!(!verify_signature_multi(msg, &sig));
    assert!(!verify_signature_multi(msg, &[0u8; 64]));
    assert!(!verify_signature_multi(msg, &sig[..32]));
}

#[test]
fn spki_fingerprint_of_a_v3_certificate() {
    let cert = sample_cert(true);
    let fp = spki_sha256_hex(&cert).expect("certificate parses");
    assert_eq!(fp, expected_fingerprint(&sample_spki()));
    assert_eq!(fp.len(), 32 * 3 - 1);
}

#[test]
fn spki_fingerprint_of_a_certificate_without_version() {
    let cert = sample_cert(false);
    assert_eq!(spki_sha256_hex(&cert), Some(expected_fingerprint(&sample_spki())));
}

#[test]
fn trailing_bytes_do_not_change_the_fingerprint() {
    let cert = sample_cert(true);
    let mut padded = cert.clone();
    padded.extend_from_slice(&[0x30, 0x82, 0xff, 0xff, 1, 2, 3]);
    assert_eq!(spki_sha256_hex(&padded), spki_sha256_hex(&cert));
}

#[test]
fn spki_fingerprint_of_malformed_input_is_none() {
    assert_eq!(spki_sha256_hex(&[]), None);
    assert_eq!(spki_sha256_hex(&[0x30]), None);
    assert_eq!(spki_sha256_hex(&[0x31, 0x00]), None);
    let cert = sample_cert(true);
    assert_eq!(spki_sha256_hex(&cert[..cert.len() / 2]), None);
}

#[test]
fn certificate_validates_against_its_own_fingerprint() {
    let cert = sample_cert(true);
    let fp = spki_sha256_hex(&cert).unwrap();
    assert!(validate_certificate_fingerprint(&cert, &fp));
}

#[test]
fn fingerprint_comparison_ignores_ascii_case() {
    let cert = sample_cert(true);
    let fp = spki_sha256_hex(&cert).unwrap();
    assert!(validate_certificate_fingerprint(&cert, &fp.to_lowercase()));
}

#[test]
fn wrong_fingerprint_or_bad_certificate_fails_validation() {
    let cert = sample_cert(true);
    let fp = spki_sha256_hex(&cert).unwrap();
    let mut wrong = fp.clone();
    wrong.replace_range(0..2, if &fp[0..2] == "00" { "01" } else { "00" });
    assert!(!validate_certificate_fingerprint(&cert, &wrong));
    assert!(!validate_certificate_fingerprint(&cert, &fp[..fp.len() - 3]));
    assert!(!validate_certificate_fingerprint(&[0x30, 0x00], &fp));
}

#[test]
fn fingerprint_layout() {
    let fp = spki_sha256_hex(&sample_cert(true)).unwrap();
    assert_eq!(fp.len(), 95);
    for (k, c) in fp.chars().enumerate() {
        if k % 3 == 2 {
            assert_eq!(c, ':');
        } else {
            assert!(c.is_ascii_digit() || ('A'..='F').contains(&c));
        }
    }
}

#[test]
fn expected_fingerprint_bytes_must_be_utf8() {
    let cert = sample_cert(true);
    let fp = spki_sha256_hex(&cert).unwrap();
    assert_eq!(validate_certificate_utf8(&cert, fp.as_bytes()), Some(true));
    assert_eq!(validate_certificate_utf8(&cert, b"AA:BB"), Some(false));
    assert_eq!(validate_certificate_utf8(&cert, &[0xff, 0xfe]), None);
}
