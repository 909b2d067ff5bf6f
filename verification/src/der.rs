//! Locating the SubjectPublicKeyInfo inside a DER-encoded X.509 certificate.
//!
//! Only as much of DER is read as is needed to walk to the SPKI: a tag byte,
//! then length octets (short form, or long form with 1 to 127 length bytes),
//! then the contents.

use vstd::prelude::*;

verus! {

/// The `usize` that shifting `bytes` in big-endian order into an initially
/// zero `usize` produces: the big-endian number they form, with the bits that
/// do not fit the width of `usize` dropped.
pub open spec fn be_usize(bytes: Seq<u8>) -> usize
    decreases bytes.len(),
{
    if bytes.len() == 0 {
        0
    } else {
        (be_usize(bytes.drop_last()) * 256 + bytes.last()) as usize
    }
}

/// The length octets that start at `pos`: the position just after them and
/// the content length they encode.
pub open spec fn spec_read_length(der: Seq<u8>, pos: int) -> Option<(int, int)> {
    if pos < 0 || pos >= der.len() {
        None
    } else if der[pos] < 0x80 {
        Some((pos + 1, der[pos] as int))
    } else {
        let n = der[pos] - 0x80;
        if n == 0 || pos + 1 + n > der.len() {
            None
        } else {
            Some((pos + 1 + n, be_usize(der.subrange(pos + 1, pos + 1 + n)) as int))
        }
    }
}

/// The element whose tag is at `pos`: the start of its contents and its total
/// length (tag, length octets and contents). A total that does not fit in a
/// `usize` is refused.
pub open spec fn spec_element_total_length(der: Seq<u8>, pos: int) -> Option<(int, int)> {
    if pos < 0 || pos + 1 >= der.len() {
        None
    } else {
        match spec_read_length(der, pos + 1) {
            Some((start, len)) => if (start - pos) + len > usize::MAX {
                None
            } else {
                Some((start, (start - pos) + len))
            },
            None => None,
        }
    }
}

/// The position just after the element whose tag is at `pos`.
pub open spec fn spec_skip_element(der: Seq<u8>, pos: int) -> Option<int> {
    match spec_element_total_length(der, pos) {
        Some((_, total)) => if pos + total > usize::MAX {
            None
        } else {
            Some(pos + total)
        },
        None => None,
    }
}

/// The start of the contents of the SEQUENCE whose tag is at `pos`.
pub open spec fn spec_enter_sequence(der: Seq<u8>, pos: int) -> Option<int> {
    if pos < 0 || pos >= der.len() || der[pos] != 0x30 {
        None
    } else {
        match spec_read_length(der, pos + 1) {
            Some((start, _)) => Some(start),
            None => None,
        }
    }
}

/// The position after `n` consecutive elements starting at `pos`.
pub open spec fn spec_skip_elements(der: Seq<u8>, pos: int, n: nat) -> Option<int>
    decreases n,
{
    if n == 0 {
        Some(pos)
    } else {
        match spec_skip_element(der, pos) {
            Some(next) => spec_skip_elements(der, next, (n - 1) as nat),
            None => None,
        }
    }
}

/// The position after the optional `[0]` version element at `pos`.
pub open spec fn spec_skip_version(der: Seq<u8>, pos: int) -> Option<int> {
    if 0 <= pos < der.len() && der[pos] == 0xa0 {
        spec_skip_element(der, pos)
    } else {
        Some(pos)
    }
}

/// Where the SubjectPublicKeyInfo lies in a certificate: enter the
/// Certificate and TBSCertificate SEQUENCEs, skip the optional version, skip
/// serialNumber, signature, issuer, validity and subject; the next element,
/// whole, is the SPKI. `Some((start, end))` when it lies within `der`.
pub open spec fn spki_range(der: Seq<u8>) -> Option<(int, int)> {
    match spec_enter_sequence(der, 0) {
        Some(cert) => match spec_enter_sequence(der, cert) {
            Some(tbs) => match spec_skip_version(der, tbs) {
                Some(fields) => match spec_skip_elements(der, fields, 5) {
                    Some(start) => match spec_element_total_length(der, start) {
                        Some((_, total)) => if start + total > der.len() {
                            None
                        } else {
                            Some((start, start + total))
                        },
                        None => None,
                    },
                    None => None,
                },
                None => None,
            },
            None => None,
        },
        None => None,
    }
}

/// The bytes of the SubjectPublicKeyInfo element of a certificate, if it can
/// be located.
pub open spec fn spki_of(der: Seq<u8>) -> Option<Seq<u8>> {
    match spki_range(der) {
        Some((start, end)) => Some(der.subrange(start, end)),
        None => None,
    }
}

proof fn lemma_skip_elements_advance(der: Seq<u8>, pos: int, n: nat)
    requires
        pos >= 0,
    ensures
        spec_skip_elements(der, pos, n) matches Some(p) ==> p >= pos,
    decreases n,
{
    if n > 0 {
        if let Some(next) = spec_skip_element(der, pos) {
            lemma_skip_elements_advance(der, next, (n - 1) as nat);
        }
    }
}

/// The SubjectPublicKeyInfo found lies within the certificate, after the
/// two SEQUENCE headers, and is a whole element: its total length is the
/// one its own header gives.
pub proof fn lemma_spki_within(der: Seq<u8>)
    ensures
        spki_range(der) matches Some((start, end)) ==> {
            &&& 2 <= start < end <= der.len()
            &&& spec_element_total_length(der, start) matches Some((_, total)) && end == start + total
        },
{
    if let Some(cert) = spec_enter_sequence(der, 0) {
        if let Some(tbs) = spec_enter_sequence(der, cert) {
            if let Some(fields) = spec_skip_version(der, tbs) {
                lemma_skip_elements_advance(der, fields, 5);
            }
        }
    }
}

proof fn lemma_read_length_extends(der: Seq<u8>, extra: Seq<u8>, pos: int)
    ensures
        spec_read_length(der, pos) is Some ==> spec_read_length(der + extra, pos) == spec_read_length(
            der,
            pos,
        ),
{
    let ext = der + extra;
    if spec_read_length(der, pos) is Some {
        assert(ext[pos] == der[pos]);
        if der[pos] >= 0x80 {
            let n = der[pos] - 0x80;
            assert(ext.subrange(pos + 1, pos + 1 + n) =~= der.subrange(pos + 1, pos + 1 + n));
        }
    }
}

proof fn lemma_skip_element_extends(der: Seq<u8>, extra: Seq<u8>, pos: int)
    ensures
        spec_element_total_length(der, pos) is Some ==> spec_element_total_length(der + extra, pos)
            == spec_element_total_length(der, pos),
        spec_skip_element(der, pos) is Some ==> spec_skip_element(der + extra, pos)
            == spec_skip_element(der, pos),
{
    lemma_read_length_extends(der, extra, pos + 1);
}

proof fn lemma_skip_elements_extends(der: Seq<u8>, extra: Seq<u8>, pos: int, n: nat)
    ensures
        spec_skip_elements(der, pos, n) is Some ==> spec_skip_elements(der + extra, pos, n)
            == spec_skip_elements(der, pos, n),
    decreases n,
{
    if n > 0 {
        lemma_skip_element_extends(der, extra, pos);
        if let Some(next) = spec_skip_element(der, pos) {
            lemma_skip_elements_extends(der, extra, next, (n - 1) as nat);
        }
    }
}

/// Bytes appended after a certificate do not change where its
/// SubjectPublicKeyInfo is found, once it is found.
pub proof fn lemma_spki_range_ignores_trailing_bytes(der: Seq<u8>, extra: Seq<u8>)
    requires
        spki_range(der) is Some,
    ensures
        spki_range(der + extra) == spki_range(der),
        spki_of(der + extra) == spki_of(der),
{
    let ext = der + extra;
    let cert = spec_enter_sequence(der, 0).unwrap();
    lemma_read_length_extends(der, extra, 1);
    assert(spec_enter_sequence(ext, 0) == Some(cert));
    let tbs = spec_enter_sequence(der, cert).unwrap();
    lemma_read_length_extends(der, extra, cert + 1);
    assert(ext[cert] == der[cert]);
    assert(spec_enter_sequence(ext, cert) == Some(tbs));
    let fields = spec_skip_version(der, tbs).unwrap();
    if tbs >= der.len() {
        // No element starts at or past the end, so nothing could be skipped.
        assert(spec_skip_element(der, tbs) is None);
        assert(false);
    }
    assert(ext[tbs] == der[tbs]);
    lemma_skip_element_extends(der, extra, tbs);
    assert(spec_skip_version(ext, tbs) == Some(fields));
    lemma_skip_elements_extends(der, extra, fields, 5);
    let start = spec_skip_elements(der, fields, 5).unwrap();
    lemma_skip_element_extends(der, extra, start);
    let (s, e) = spki_range(der).unwrap();
    assert(ext.subrange(s, e) =~= der.subrange(s, e));
}

/// DER length octets read as the standard defines them: a byte below 0x80
/// is the length itself; `0x81 b` is the length `b`; `0x82 b1 b2` is the
/// length `b1 * 256 + b2`. The contents start right after the octets.
pub proof fn lemma_read_length_forms(der: Seq<u8>, pos: int)
    requires
        0 <= pos < der.len(),
    ensures
        der[pos] < 0x80 ==> spec_read_length(der, pos) == Some((pos + 1, der[pos] as int)),
        der[pos] == 0x81 && pos + 2 <= der.len() ==> spec_read_length(der, pos) == Some(
            (pos + 2, der[pos + 1] as int),
        ),
        der[pos] == 0x82 && pos + 3 <= der.len() ==> spec_read_length(der, pos) == Some(
            (pos + 3, der[pos + 1] * 256 + der[pos + 2]),
        ),
        der[pos] == 0x80 ==> spec_read_length(der, pos) is None,
{
    if der[pos] == 0x81 && pos + 2 <= der.len() {
        let b = der.subrange(pos + 1, pos + 2);
        assert(b.drop_last() =~= Seq::<u8>::empty());
        assert(be_usize(b) == der[pos + 1]) by {
            reveal_with_fuel(be_usize, 2);
        }
    }
    if der[pos] == 0x82 && pos + 3 <= der.len() {
        let b = der.subrange(pos + 1, pos + 3);
        assert(b.drop_last() =~= der.subrange(pos + 1, pos + 2));
        assert(b.drop_last().drop_last() =~= Seq::<u8>::empty());
        assert(be_usize(b.drop_last()) == der[pos + 1]) by {
            reveal_with_fuel(be_usize, 2);
        }
        assert(be_usize(b) == der[pos + 1] * 256 + der[pos + 2]);
    }
}

/// The total length of an element is its tag byte, all of its length
/// octets, and its contents: the contents start where the length octets end,
/// and the element ends where its contents end.
pub proof fn lemma_element_total_is_whole_tlv(der: Seq<u8>, pos: int)
    ensures
        spec_element_total_length(der, pos) matches Some((start, total)) ==> {
            &&& spec_read_length(der, pos + 1) matches Some((after_len, content_len))
            &&& start == after_len
            &&& total == 1 + (after_len - (pos + 1)) + content_len
        },
{
}

/// An element with a two-byte long-form length (`tag 0x82 b1 b2 ...`), as
/// an RSA-2048 SubjectPublicKeyInfo has, spans 4 header bytes plus
/// `b1 * 256 + b2` content bytes; with a one-byte long form (`tag 0x81 b`),
/// 3 plus `b`; with a short form (`tag b`, `b < 0x80`), 2 plus `b`.
pub proof fn lemma_element_total_forms(der: Seq<u8>, pos: int)
    requires
        0 <= pos,
        pos + 2 <= der.len(),
    ensures
        der[pos + 1] < 0x80 ==> spec_element_total_length(der, pos) == Some(
            (pos + 2, 2 + der[pos + 1] as int),
        ),
        der[pos + 1] == 0x81 && pos + 3 <= der.len() ==> spec_element_total_length(der, pos)
            == Some((pos + 3, 3 + der[pos + 2] as int)),
        der[pos + 1] == 0x82 && pos + 4 <= der.len() ==> spec_element_total_length(der, pos)
            == Some((pos + 4, 4 + der[pos + 2] * 256 + der[pos + 3])),
{
    lemma_read_length_forms(der, pos + 1);
}

proof fn lemma_read_length_window(der: Seq<u8>, a: int, b: int, p: int)
    requires
        0 <= a,
        0 <= p,
        a + p < b <= der.len(),
        spec_read_length(der, a + p) matches Some((c, _)) && c <= b,
    ensures
        spec_read_length(der.subrange(a, b), p) matches Some((c, l)) && spec_read_length(der, a + p)
            == Some((c + a, l)),
{
    let w = der.subrange(a, b);
    assert(w[p] == der[a + p]);
    if der[a + p] >= 0x80 {
        let n = der[a + p] - 0x80;
        assert(w.subrange(p + 1, p + 1 + n) =~= der.subrange(a + p + 1, a + p + 1 + n));
    }
}

/// The SubjectPublicKeyInfo found is exactly one DER element: its own
/// length octets give a content length that ends precisely at its last
/// byte, whatever the form of those octets.
pub proof fn lemma_spki_is_one_element(der: Seq<u8>)
    ensures
        spki_of(der) matches Some(spki) ==> {
            &&& spki.len() >= 2
            &&& spec_read_length(spki, 1) matches Some((start, len))
            &&& spki.len() == start + len
        },
{
    if let Some((s, e)) = spki_range(der) {
        lemma_spki_within(der);
        let (cs, len) = spec_read_length(der, s + 1).unwrap();
        lemma_read_length_window(der, s, e, 1);
    }
}

/// `r` is the executable form of the position `s`.
pub open spec fn usize_matches(r: Option<usize>, s: Option<int>) -> bool {
    match r {
        Some(a) => s == Some(a as int),
        None => s is None,
    }
}

/// `r` is the executable form of the pair of positions `s`.
pub open spec fn usize_pair_matches(r: Option<(usize, usize)>, s: Option<(int, int)>) -> bool {
    match r {
        Some((a, b)) => s == Some((a as int, b as int)),
        None => s is None,
    }
}

proof fn lemma_shift_in_byte(len: usize, b: u8)
    by (bit_vector)
    ensures
        ((len << 8usize) | (b as usize)) == ((len * 256 + b) as usize),
{
}

proof fn lemma_length_octet(first: u8)
    by (bit_vector)
    ensures
        (first & 0x80u8 == 0u8) == (first < 0x80u8),
        first >= 0x80u8 ==> (first & 0x7fu8) == first - 0x80u8,
{
}

/// Read the length octets at `pos`; returns the position after them and the
/// content length.
pub fn read_length(der: &[u8], pos: usize) -> (r: Option<(usize, usize)>)
    ensures
        usize_pair_matches(r, spec_read_length(der@, pos as int)),
{
    if pos >= der.len() {
        return None;
    }
    let first = der[pos];
    proof {
        lemma_length_octet(first);
    }
    if first & 0x80 == 0 {
        Some((pos + 1, first as usize))
    } else {
        let num_bytes = (first & 0x7f) as usize;
        if num_bytes == 0 || num_bytes > der.len() - pos - 1 {
            return None;
        }
        let mut len: usize = 0;
        let mut i: usize = 0;
        while i < num_bytes
            invariant
                der@.len() == der.len(),
                pos + 1 + num_bytes <= der@.len(),
                i <= num_bytes,
                len == be_usize(der@.subrange(pos + 1, pos + 1 + i)),
            decreases num_bytes - i,
        {
            let b = der[pos + 1 + i];
            proof {
                lemma_shift_in_byte(len, b);
                let next = der@.subrange(pos + 1, pos + 1 + i + 1);
                assert(next.drop_last() =~= der@.subrange(pos + 1, pos + 1 + i));
                assert(next.last() == b);
            }
            len = (len << 8) | (b as usize);
            i += 1;
        }
        Some((pos + 1 + num_bytes, len))
    }
}

/// The start of the contents and the total length of the element at `pos`.
pub fn element_total_length(der: &[u8], pos: usize) -> (r: Option<(usize, usize)>)
    ensures
        usize_pair_matches(r, spec_element_total_length(der@, pos as int)),
{
    if der.len() == 0 || pos >= der.len() - 1 {
        return None;
    }
    let (content_start, content_len) = match read_length(der, pos + 1) {
        Some(v) => v,
        None => return None,
    };
    let header = content_start - pos;
    if content_len > usize::MAX - header {
        return None;
    }
    Some((content_start, header + content_len))
}

/// The position just after the element at `pos`.
pub fn skip_element(der: &[u8], pos: usize) -> (r: Option<usize>)
    ensures
        usize_matches(r, spec_skip_element(der@, pos as int)),
{
    let (_, total) = match element_total_length(der, pos) {
        Some(v) => v,
        None => return None,
    };
    if total > usize::MAX - pos {
        return None;
    }
    Some(pos + total)
}

/// The start of the contents of the SEQUENCE at `pos`.
pub fn enter_sequence(der: &[u8], pos: usize) -> (r: Option<usize>)
    ensures
        usize_matches(r, spec_enter_sequence(der@, pos as int)),
{
    if pos >= der.len() || der[pos] != 0x30 {
        return None;
    }
    match read_length(der, pos + 1) {
        Some((content_start, _)) => Some(content_start),
        None => None,
    }
}

/// The SubjectPublicKeyInfo element, whole, of a DER-encoded X.509
/// certificate.
pub fn extract_spki(der: &[u8]) -> (r: Option<&[u8]>)
    ensures
        match r {
            Some(spki) => spki_of(der@) == Some(spki@),
            None => spki_of(der@) is None,
        },
{
    let cert = match enter_sequence(der, 0) {
        Some(p) => p,
        None => return None,
    };
    let tbs = match enter_sequence(der, cert) {
        Some(p) => p,
        None => return None,
    };
    let mut pos = tbs;
    if pos < der.len() && der[pos] == 0xa0 {
        pos = match skip_element(der, pos) {
            Some(p) => p,
            None => return None,
        };
    }
    assert(spec_skip_version(der@, tbs as int) == Some(pos as int));
    let fields = pos;
    let mut skipped: usize = 0;
    while skipped < 5
        invariant
            skipped <= 5,
            spec_enter_sequence(der@, 0) == Some(cert as int),
            spec_enter_sequence(der@, cert as int) == Some(tbs as int),
            spec_skip_version(der@, tbs as int) == Some(fields as int),
            spec_skip_elements(der@, fields as int, 5) == spec_skip_elements(
                der@,
                pos as int,
                (5 - skipped) as nat,
            ),
        decreases 5 - skipped,
    {
        let ghost before = pos;
        pos = match skip_element(der, pos) {
            Some(p) => p,
            None => {
                assert(spec_skip_elements(der@, before as int, (5 - skipped) as nat) is None);
                return None;
            },
        };
        assert(spec_skip_elements(der@, before as int, (5 - skipped) as nat)
            == spec_skip_elements(der@, pos as int, (5 - skipped - 1) as nat));
        skipped += 1;
    }
    let spki_start = pos;
    let (_, total_len) = match element_total_length(der, spki_start) {
        Some(v) => v,
        None => return None,
    };
    if total_len > der.len() - spki_start {
        return None;
    }
    Some(vstd::slice::slice_subrange(der, spki_start, spki_start + total_len))
}

} // verus!
