//! Signature checking against the embedded key, and SPKI SHA-256
//! fingerprints of certificates.

use vstd::prelude::*;
use vstd::utf8::*;

use ed25519_dalek::{Signature, Verifier, VerifyingKey};
use sha2::{Digest, Sha256};

use crate::der::{extract_spki, spki_of};
use crate::key::{
    reconstruct_key_v1,
    reconstruct_key_v2,
    reconstruct_key_v3,
    reconstruct_key_v4,
    reconstruct_key_v5,
    trusted_key,
};
use crate::text::{ascii_uppercase, from_utf8, push_char, to_uppercase, unicode_uppercase};

verus! {

/// Whether ed25519-dalek's `VerifyingKey::from_bytes` accepts these 32 bytes
/// as a public key (they decompress to a curve point).
pub uninterp spec fn ed25519_key_decodes(key: Seq<u8>) -> bool;

/// Whether ed25519-dalek's `VerifyingKey::verify` (its `Verifier` impl)
/// accepts the 64-byte signature `sig` over `msg` under the public key whose
/// bytes are `key`.
pub uninterp spec fn ed25519_verify_accepts(key: Seq<u8>, msg: Seq<u8>, sig: Seq<u8>) -> bool;

/// The SHA-256 digest of `data`, as sha2's `Sha256` computes it.
pub uninterp spec fn sha256_digest(data: Seq<u8>) -> Seq<u8>;

/// Calls `VerifyingKey::from_bytes`; true when it returns `Ok`.
#[verifier::external_body]
fn decode_verifying_key(key: &[u8; 32]) -> (ok: bool)
    ensures
        ok == ed25519_key_decodes(key@),
{
    VerifyingKey::from_bytes(key).is_ok()
}

/// Calls `VerifyingKey::verify` on the key decoded from `key` (which must
/// decode), the message, and the signature built by `Signature::from_bytes`;
/// true when it returns `Ok`.
#[verifier::external_body]
fn ed25519_verify(key: &[u8; 32], msg: &[u8], sig: &[u8; 64]) -> (ok: bool)
    requires
        ed25519_key_decodes(key@),
    ensures
        ok == ed25519_verify_accepts(key@, msg@, sig@),
{
    match VerifyingKey::from_bytes(key) {
        Ok(vk) => vk.verify(msg, &Signature::from_bytes(sig)).is_ok(),
        Err(_) => false,
    }
}

/// SHA-256 of `data`, by sha2's `Sha256::digest`.
#[verifier::external_body]
pub(crate) fn sha256(data: &[u8]) -> (digest: [u8; 32])
    ensures
        digest@ == sha256_digest(data@),
{
    Sha256::digest(data).into()
}

/// An Ed25519 check of `sig` over `msg` under the public key `key` passes:
/// the key decodes, the signature has 64 bytes, and verification succeeds.
pub open spec fn signature_valid_under(key: Seq<u8>, msg: Seq<u8>, sig: Seq<u8>) -> bool {
    &&& ed25519_key_decodes(key)
    &&& sig.len() == 64
    &&& ed25519_verify_accepts(key, msg, sig)
}

/// One Ed25519 check of `sig_bytes` over `msg` under `key_bytes`.
pub fn verify_once(msg: &[u8], sig_bytes: &[u8], key_bytes: [u8; 32]) -> (ok: bool)
    ensures
        ok == signature_valid_under(key_bytes@, msg@, sig_bytes@),
{
    if !decode_verifying_key(&key_bytes) {
        return false;
    }
    if sig_bytes.len() != 64 {
        return false;
    }
    let mut sig_arr = [0u8; 64];
    let mut i: usize = 0;
    while i < 64
        invariant
            sig_bytes@.len() == 64,
            i <= 64,
            forall|j: int| 0 <= j < i ==> #[trigger] sig_arr@[j] == sig_bytes@[j],
        decreases 64 - i,
    {
        sig_arr[i] = sig_bytes[i];
        i += 1;
    }
    assert(sig_arr@ =~= sig_bytes@);
    ed25519_verify(&key_bytes, msg, &sig_arr)
}

/// The signature is a valid Ed25519 signature of the message under the
/// embedded trusted key.
pub open spec fn config_signature_valid(message: Seq<u8>, signature: Seq<u8>) -> bool {
    signature_valid_under(trusted_key(), message, signature)
}

/// Check the signature of a message against the embedded key five times,
/// with the key rebuilt by each of the five reconstruction routines; every
/// check runs, and all must pass.
pub fn verify_signature_multi(message: &[u8], signature: &[u8]) -> (ok: bool)
    ensures
        ok == config_signature_valid(message@, signature@),
{
    let r1 = verify_once(message, signature, reconstruct_key_v1());
    let r2 = verify_once(message, signature, reconstruct_key_v2());
    let r3 = verify_once(message, signature, reconstruct_key_v3());
    let r4 = verify_once(message, signature, reconstruct_key_v4());
    let r5 = verify_once(message, signature, reconstruct_key_v5());
    // All five checks have run by now; combining their results cannot skip one.
    r1 && r2 && r3 && r4 && r5
}

/// A signature whose length is not 64 bytes is never accepted, whatever the
/// message.
pub proof fn lemma_wrong_length_signature_rejected(message: Seq<u8>, signature: Seq<u8>)
    requires
        signature.len() != 64,
    ensures
        !config_signature_valid(message, signature),
{
}

/// The uppercase hexadecimal digit for `d` (0 to 15).
pub open spec fn hex_digit(d: int) -> char {
    if d < 10 {
        (('0' as int) + d) as char
    } else {
        (('A' as int) + d - 10) as char
    }
}

/// A byte as two uppercase hexadecimal digits.
pub open spec fn byte_hex(b: u8) -> Seq<char> {
    seq![hex_digit(b as int / 16), hex_digit(b as int % 16)]
}

/// Bytes as uppercase hexadecimal pairs separated by colons, `"AA:BB:..."`.
pub open spec fn colon_hex(bytes: Seq<u8>) -> Seq<char>
    decreases bytes.len(),
{
    if bytes.len() == 0 {
        seq![]
    } else if bytes.len() == 1 {
        byte_hex(bytes[0])
    } else {
        colon_hex(bytes.drop_last()) + seq![':'] + byte_hex(bytes.last())
    }
}

/// The SPKI SHA-256 fingerprint of a DER certificate, as colon-separated
/// uppercase hex, when its SPKI can be located.
pub open spec fn spki_fingerprint(cert_der: Seq<u8>) -> Option<Seq<char>> {
    match spki_of(cert_der) {
        Some(spki) => Some(colon_hex(sha256_digest(spki))),
        None => None,
    }
}

fn hex_char(d: u8) -> (c: char)
    requires
        d < 16,
    ensures
        c == hex_digit(d as int),
{
    if d < 10 {
        (('0' as u8) + d) as char
    } else {
        (('A' as u8) + d - 10) as char
    }
}

/// Colon-separated uppercase hex of `bytes`.
fn colon_hex_string(bytes: &[u8]) -> (s: String)
    ensures
        s@ == colon_hex(bytes@),
{
    let mut s = String::new();
    let mut i: usize = 0;
    while i < bytes.len()
        invariant
            i <= bytes@.len(),
            s@ == colon_hex(bytes@.subrange(0, i as int)),
        decreases bytes@.len() - i,
    {
        let b = bytes[i];
        if i > 0 {
            push_char(&mut s, ':');
        }
        push_char(&mut s, hex_char(b / 16));
        push_char(&mut s, hex_char(b % 16));
        proof {
            let prefix = bytes@.subrange(0, i + 1);
            assert(prefix.drop_last() =~= bytes@.subrange(0, i as int));
            assert(prefix.last() == b);
            if i == 0 {
                assert(s@ =~= byte_hex(b));
            } else {
                assert(s@ =~= colon_hex(bytes@.subrange(0, i as int)) + seq![':'] + byte_hex(b));
            }
        }
        i += 1;
    }
    assert(bytes@.subrange(0, bytes@.len() as int) =~= bytes@);
    s
}

/// Compute the SPKI SHA-256 fingerprint of a DER certificate: uppercase hex,
/// colon-separated; `None` when the SPKI cannot be located.
pub fn spki_sha256_hex(cert_der: &[u8]) -> (r: Option<String>)
    ensures
        match r {
            Some(fp) => spki_fingerprint(cert_der@) == Some(fp@) && fingerprint_layout(fp@, 32),
            None => spki_fingerprint(cert_der@) is None,
        },
{
    let spki = match extract_spki(cert_der) {
        Some(s) => s,
        None => return None,
    };
    let hash = sha256(spki);
    proof {
        lemma_colon_hex_layout(hash@);
    }
    Some(colon_hex_string(hash.as_slice()))
}

proof fn lemma_or_xor_zero(d: u8, x: u8, y: u8)
    by (bit_vector)
    ensures
        ((d | (x ^ y)) == 0u8) == (d == 0u8 && x == y),
{
}

/// Compare two byte strings in time that depends only on their lengths.
pub fn constant_time_eq(a: &[u8], b: &[u8]) -> (eq: bool)
    ensures
        eq == (a@ == b@),
{
    if a.len() != b.len() {
        return false;
    }
    let mut diff: u8 = 0;
    let mut i: usize = 0;
    while i < a.len()
        invariant
            a@.len() == b@.len(),
            i <= a@.len(),
            (diff == 0) == (forall|j: int| 0 <= j < i ==> a@[j] == b@[j]),
        decreases a@.len() - i,
    {
        proof {
            lemma_or_xor_zero(diff, a@[i as int], b@[i as int]);
        }
        diff = diff | (a[i] ^ b[i]);
        i += 1;
    }
    if diff == 0 {
        assert(a@ =~= b@);
    }
    diff == 0
}

/// Whether a certificate's fingerprint matches the expected one, taken as
/// uppercased by `str::to_uppercase`.
pub open spec fn fingerprint_matches(cert_der: Seq<u8>, expected: Seq<char>) -> bool {
    spki_fingerprint(cert_der) == Some(unicode_uppercase(expected))
}

/// Validate a certificate against an expected fingerprint (uppercase hex,
/// colon-separated; compared after uppercasing, in constant time).
pub fn validate_certificate_fingerprint(cert_der: &[u8], expected_fp: &str) -> (ok: bool)
    ensures
        ok == fingerprint_matches(cert_der@, expected_fp@),
        is_ascii_chars(expected_fp@) ==> ok == (spki_fingerprint(cert_der@) == Some(
            ascii_uppercase(expected_fp@),
        )),
{
    let actual = match spki_sha256_hex(cert_der) {
        Some(a) => a,
        None => return false,
    };
    let expected_upper = to_uppercase(expected_fp);
    let eq = constant_time_eq(actual.as_str().as_bytes(), expected_upper.as_str().as_bytes());
    proof {
        encode_utf8_decode_utf8(actual@);
        encode_utf8_decode_utf8(expected_upper@);
    }
    eq
}

/// Validate a certificate against an expected fingerprint given as bytes:
/// `None` when the bytes are not UTF-8, else whether the fingerprint
/// matches.
pub fn validate_certificate_utf8(cert_der: &[u8], expected_fp: &[u8]) -> (r: Option<bool>)
    ensures
        r is None <==> !valid_utf8(expected_fp@),
        r matches Some(ok) ==> ok == fingerprint_matches(cert_der@, decode_utf8(expected_fp@)),
{
    match from_utf8(expected_fp) {
        Some(fp) => Some(validate_certificate_fingerprint(cert_der, fp)),
        None => None,
    }
}

/// A character that can occur in a fingerprint: a decimal digit, an
/// uppercase hex letter, or the colon separator.
pub open spec fn fingerprint_char(c: char) -> bool {
    ('0' <= c <= '9') || ('A' <= c <= 'F') || c == ':'
}

/// An uppercase hexadecimal digit.
pub open spec fn hex_upper(c: char) -> bool {
    ('0' <= c <= '9') || ('A' <= c <= 'F')
}

/// The layout of the fingerprint of `n` bytes: `3n - 1` characters, a colon
/// at every third place, uppercase hex digits elsewhere.
pub open spec fn fingerprint_layout(fp: Seq<char>, n: int) -> bool {
    &&& fp.len() == 3 * n - 1
    &&& forall|k: int|
        0 <= k < fp.len() ==> if k % 3 == 2 {
            #[trigger] fp[k] == ':'
        } else {
            hex_upper(fp[k])
        }
}

proof fn lemma_hex_digit_upper(d: int)
    requires
        0 <= d < 16,
    ensures
        hex_upper(hex_digit(d)),
{
}

proof fn lemma_colon_hex_layout(bytes: Seq<u8>)
    requires
        bytes.len() > 0,
    ensures
        fingerprint_layout(colon_hex(bytes), bytes.len() as int),
    decreases bytes.len(),
{
    let whole = colon_hex(bytes);
    let last = bytes.last();
    lemma_hex_digit_upper(last as int / 16);
    lemma_hex_digit_upper(last as int % 16);
    if bytes.len() == 1 {
        assert(whole == byte_hex(bytes[0]));
    } else {
        lemma_colon_hex_layout(bytes.drop_last());
        let prev = colon_hex(bytes.drop_last());
        assert forall|k: int| 0 <= k < whole.len() implies if k % 3 == 2 {
            #[trigger] whole[k] == ':'
        } else {
            hex_upper(whole[k])
        } by {
            if k < prev.len() {
                assert(whole[k] == prev[k]);
            } else if k == prev.len() {
                assert(whole[k] == ':');
            } else if k == prev.len() + 1 {
                assert(whole[k] == hex_digit(last as int / 16));
            } else {
                assert(whole[k] == hex_digit(last as int % 16));
            }
        }
    }
}

proof fn lemma_colon_hex_chars(bytes: Seq<u8>)
    ensures
        forall|i: int| 0 <= i < colon_hex(bytes).len() ==> #[trigger] fingerprint_char(colon_hex(bytes)[i]),
    decreases bytes.len(),
{
    if bytes.len() > 1 {
        lemma_colon_hex_chars(bytes.drop_last());
        let prev = colon_hex(bytes.drop_last());
        let whole = colon_hex(bytes);
        assert forall|i: int| 0 <= i < whole.len() implies #[trigger] fingerprint_char(whole[i]) by {
            if i < prev.len() {
                assert(whole[i] == prev[i]);
            }
        }
    }
}

/// A certificate validates against its own fingerprint: the fingerprint is
/// ASCII, and uppercasing it leaves it unchanged, so
/// `validate_certificate_fingerprint(cert, fp)` holds for `fp` as
/// `spki_sha256_hex(cert)` returns it.
pub proof fn lemma_own_fingerprint_validates(cert_der: Seq<u8>)
    requires
        spki_fingerprint(cert_der) is Some,
    ensures
        is_ascii_chars(spki_fingerprint(cert_der).unwrap()),
        spki_fingerprint(cert_der) == Some(ascii_uppercase(spki_fingerprint(cert_der).unwrap())),
{
    let fp = spki_fingerprint(cert_der).unwrap();
    lemma_colon_hex_chars(sha256_digest(spki_of(cert_der).unwrap()));
    assert forall|i: int| 0 <= i < fp.len() implies '\0' <= #[trigger] fp[i] <= '\u{7f}' by {
        assert(fingerprint_char(fp[i]));
    }
    assert forall|i: int| 0 <= i < fp.len() implies #[trigger] ascii_uppercase(fp)[i] == fp[i] by {
        assert(fingerprint_char(fp[i]));
    }
    assert(ascii_uppercase(fp) =~= fp);
}

} // verus!
