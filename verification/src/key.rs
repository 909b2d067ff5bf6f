//! The embedded Ed25519 public key.
//!
//! The 32-byte key is stored as five parts, each XOR-masked with a mask of
//! its own (`part[i] = key_byte ^ mask[i % mask.len()]`). Five independent
//! reconstruction routines rebuild it; all five are proved to give the same
//! key.

use vstd::prelude::*;

verus! {

pub const MASK_A: [u8; 7] = [0xDE, 0xAD, 0xBE, 0xEF, 0x13, 0x37, 0x42];
pub const MASK_B: [u8; 7] = [0xCA, 0xFE, 0xBA, 0xBE, 0x55, 0xAA, 0x11];
pub const MASK_C: [u8; 6] = [0xFE, 0xED, 0xFA, 0xCE, 0x77, 0x88];
pub const MASK_D: [u8; 6] = [0xAB, 0xCD, 0xEF, 0x01, 0x23, 0x45];
pub const MASK_E: [u8; 6] = [0x99, 0x88, 0x77, 0x66, 0x55, 0x44];

pub const KEY_PART_A: [u8; 7] = [
    0x8b ^ 0xDE, 0x10 ^ 0xAD, 0xbe ^ 0xBE, 0x42 ^ 0xEF,
    0xc8 ^ 0x13, 0x0b ^ 0x37, 0x2a ^ 0x42,
];
pub const KEY_PART_B: [u8; 7] = [
    0xd7 ^ 0xCA, 0xc0 ^ 0xFE, 0x50 ^ 0xBA, 0x70 ^ 0xBE,
    0xab ^ 0x55, 0xa5 ^ 0xAA, 0x3a ^ 0x11,
];
pub const KEY_PART_C: [u8; 6] = [
    0xaa ^ 0xFE, 0x96 ^ 0xED, 0x6c ^ 0xFA, 0x42 ^ 0xCE,
    0x85 ^ 0x77, 0x18 ^ 0x88,
];
pub const KEY_PART_D: [u8; 6] = [
    0xd0 ^ 0xAB, 0xa5 ^ 0xCD, 0xee ^ 0xEF, 0x4c ^ 0x01,
    0x30 ^ 0x23, 0xf7 ^ 0x45,
];
pub const KEY_PART_E: [u8; 6] = [
    0x73 ^ 0x99, 0x1e ^ 0x88, 0xd6 ^ 0x77, 0x7b ^ 0x66,
    0xde ^ 0x55, 0xcf ^ 0x44,
];

/// The trusted Ed25519 public key, byte by byte.
pub open spec fn trusted_key() -> Seq<u8> {
    seq![
        0x8bu8, 0x10, 0xbe, 0x42, 0xc8, 0x0b, 0x2a, 0xd7,
        0xc0, 0x50, 0x70, 0xab, 0xa5, 0x3a, 0xaa, 0x96,
        0x6c, 0x42, 0x85, 0x18, 0xd0, 0xa5, 0xee, 0x4c,
        0x30, 0xf7, 0x73, 0x1e, 0xd6, 0x7b, 0xde, 0xcf,
    ]
}

/// XOR every byte of `part` with the mask, the mask repeating as needed.
/// Masking and unmasking are the same operation.
pub open spec fn unmask(part: Seq<u8>, mask: Seq<u8>) -> Seq<u8> {
    Seq::new(part.len(), |i: int| part[i] ^ mask[i % (mask.len() as int)])
}

/// The key that the stored parts and masks describe: the parts, unmasked,
/// concatenated in order A, B, C, D, E.
pub open spec fn reconstructed_key() -> Seq<u8> {
    unmask(KEY_PART_A@, MASK_A@) + unmask(KEY_PART_B@, MASK_B@) + unmask(KEY_PART_C@, MASK_C@)
        + unmask(KEY_PART_D@, MASK_D@) + unmask(KEY_PART_E@, MASK_E@)
}

proof fn lemma_xor_twice()
    ensures
        forall|b: u8, m: u8| #[trigger] ((b ^ m) ^ m) == b,
{
    assert(forall|b: u8, m: u8| #[trigger] ((b ^ m) ^ m) == b) by (bit_vector);
}

/// The stored parts, unmasked and concatenated, are exactly the trusted key.
pub proof fn lemma_reconstructed_key_is_trusted_key()
    ensures
        reconstructed_key() == trusted_key(),
        reconstructed_key().len() == 32,
{
    lemma_xor_twice();
    assert(reconstructed_key() =~= trusted_key());
}

/// Masking a key segment and unmasking it with the same non-empty mask gives
/// the segment back: the scheme by which key parts are produced is undone by
/// the reconstruction.
pub proof fn lemma_unmask_undoes_mask(segment: Seq<u8>, mask: Seq<u8>)
    requires
        mask.len() > 0,
    ensures
        unmask(unmask(segment, mask), mask) == segment,
{
    lemma_xor_twice();
    assert(unmask(unmask(segment, mask), mask) =~= segment);
}

/// The stored part `k` (0 to 4, for A to E).
pub open spec fn stored_part(k: int) -> Seq<u8> {
    if k == 0 {
        KEY_PART_A@
    } else if k == 1 {
        KEY_PART_B@
    } else if k == 2 {
        KEY_PART_C@
    } else if k == 3 {
        KEY_PART_D@
    } else {
        KEY_PART_E@
    }
}

/// The mask of part `k` (0 to 4, for A to E).
pub open spec fn stored_mask(k: int) -> Seq<u8> {
    if k == 0 {
        MASK_A@
    } else if k == 1 {
        MASK_B@
    } else if k == 2 {
        MASK_C@
    } else if k == 3 {
        MASK_D@
    } else {
        MASK_E@
    }
}

/// The start of part `k` (0 to 4) in the key, and 32 for `k == 5`.
pub open spec fn part_offset(k: int) -> int {
    if k <= 0 { 0 } else if k == 1 { 7 } else if k == 2 { 14 } else if k == 3 { 20 } else if k == 4 { 26 } else { 32 }
}

/// Byte `i` of part `k`, unmasked, is the key's byte at the part's offset
/// plus `i`.
proof fn lemma_key_byte(k: int, i: int)
    requires
        0 <= k < 5,
        0 <= i < stored_part(k).len(),
    ensures
        stored_part(k).len() == part_offset(k + 1) - part_offset(k),
        stored_mask(k).len() > 0,
        (stored_part(k)[i] ^ stored_mask(k)[i % (stored_mask(k).len() as int)]) == trusted_key()[part_offset(k) + i],
{
    lemma_reconstructed_key_is_trusted_key();
    assert(reconstructed_key()[part_offset(k) + i] == unmask(stored_part(k), stored_mask(k))[i]);
}

/// Rebuild the key part by part, in order A to E.
#[inline(never)]
pub fn reconstruct_key_v1() -> (key: [u8; 32])
    ensures
        key@ == trusted_key(),
{
    let mut key = [0u8; 32];
    let mut i: usize = 0;
    while i < KEY_PART_A.len()
        invariant
            i <= KEY_PART_A@.len(),
            forall|j: int| 0 <= j < 0 + i ==> #[trigger] key@[j] == trusted_key()[j],
        decreases KEY_PART_A@.len() - i,
    {
        proof {
            lemma_key_byte(0, i as int);
        }
        key[0 + i] = KEY_PART_A[i] ^ MASK_A[i % MASK_A.len()];
        i += 1;
    }
    let mut i: usize = 0;
    while i < KEY_PART_B.len()
        invariant
            i <= KEY_PART_B@.len(),
            forall|j: int| 0 <= j < 7 + i ==> #[trigger] key@[j] == trusted_key()[j],
        decreases KEY_PART_B@.len() - i,
    {
        proof {
            lemma_key_byte(1, i as int);
        }
        key[7 + i] = KEY_PART_B[i] ^ MASK_B[i % MASK_B.len()];
        i += 1;
    }
    let mut i: usize = 0;
    while i < KEY_PART_C.len()
        invariant
            i <= KEY_PART_C@.len(),
            forall|j: int| 0 <= j < 14 + i ==> #[trigger] key@[j] == trusted_key()[j],
        decreases KEY_PART_C@.len() - i,
    {
        proof {
            lemma_key_byte(2, i as int);
        }
        key[14 + i] = KEY_PART_C[i] ^ MASK_C[i % MASK_C.len()];
        i += 1;
    }
    let mut i: usize = 0;
    while i < KEY_PART_D.len()
        invariant
            i <= KEY_PART_D@.len(),
            forall|j: int| 0 <= j < 20 + i ==> #[trigger] key@[j] == trusted_key()[j],
        decreases KEY_PART_D@.len() - i,
    {
        proof {
            lemma_key_byte(3, i as int);
        }
        key[20 + i] = KEY_PART_D[i] ^ MASK_D[i % MASK_D.len()];
        i += 1;
    }
    let mut i: usize = 0;
    while i < KEY_PART_E.len()
        invariant
            i <= KEY_PART_E@.len(),
            forall|j: int| 0 <= j < 26 + i ==> #[trigger] key@[j] == trusted_key()[j],
        decreases KEY_PART_E@.len() - i,
    {
        proof {
            lemma_key_byte(4, i as int);
        }
        key[26 + i] = KEY_PART_E[i] ^ MASK_E[i % MASK_E.len()];
        i += 1;
    }
    assert(key@ =~= trusted_key());
    key
}

/// Rebuild the key part by part, in reverse order E to A.
#[inline(never)]
pub fn reconstruct_key_v2() -> (key: [u8; 32])
    ensures
        key@ == trusted_key(),
{
    let mut key = [0u8; 32];
    let mut i: usize = 0;
    while i < KEY_PART_E.len()
        invariant
            i <= KEY_PART_E@.len(),
            forall|j: int|
                (26 <= j < 26 + i || part_offset(5) <= j < 32) ==> #[trigger] key@[j]
                    == trusted_key()[j],
        decreases KEY_PART_E@.len() - i,
    {
        proof {
            lemma_key_byte(4, i as int);
        }
        key[26 + i] = KEY_PART_E[i] ^ MASK_E[i % MASK_E.len()];
        i += 1;
    }
    let mut i: usize = 0;
    while i < KEY_PART_D.len()
        invariant
            i <= KEY_PART_D@.len(),
            forall|j: int|
                (20 <= j < 20 + i || part_offset(4) <= j < 32) ==> #[trigger] key@[j]
                    == trusted_key()[j],
        decreases KEY_PART_D@.len() - i,
    {
        proof {
            lemma_key_byte(3, i as int);
        }
        key[20 + i] = KEY_PART_D[i] ^ MASK_D[i % MASK_D.len()];
        i += 1;
    }
    let mut i: usize = 0;
    while i < KEY_PART_C.len()
        invariant
            i <= KEY_PART_C@.len(),
            forall|j: int|
                (14 <= j < 14 + i || part_offset(3) <= j < 32) ==> #[trigger] key@[j]
                    == trusted_key()[j],
        decreases KEY_PART_C@.len() - i,
    {
        proof {
            lemma_key_byte(2, i as int);
        }
        key[14 + i] = KEY_PART_C[i] ^ MASK_C[i % MASK_C.len()];
        i += 1;
    }
    let mut i: usize = 0;
    while i < KEY_PART_B.len()
        invariant
            i <= KEY_PART_B@.len(),
            forall|j: int|
                (7 <= j < 7 + i || part_offset(2) <= j < 32) ==> #[trigger] key@[j]
                    == trusted_key()[j],
        decreases KEY_PART_B@.len() - i,
    {
        proof {
            lemma_key_byte(1, i as int);
        }
        key[7 + i] = KEY_PART_B[i] ^ MASK_B[i % MASK_B.len()];
        i += 1;
    }
    let mut i: usize = 0;
    while i < KEY_PART_A.len()
        invariant
            i <= KEY_PART_A@.len(),
            forall|j: int|
                (0 <= j < 0 + i || part_offset(1) <= j < 32) ==> #[trigger] key@[j]
                    == trusted_key()[j],
        decreases KEY_PART_A@.len() - i,
    {
        proof {
            lemma_key_byte(0, i as int);
        }
        key[0 + i] = KEY_PART_A[i] ^ MASK_A[i % MASK_A.len()];
        i += 1;
    }
    assert(key@ =~= trusted_key());
    key
}

/// Rebuild the key byte by byte, each byte written as its own XOR.
#[inline(never)]
pub fn reconstruct_key_v3() -> (key: [u8; 32])
    ensures
        key@ == trusted_key(),
{
    let key = [
        KEY_PART_A[0] ^ MASK_A[0], KEY_PART_A[1] ^ MASK_A[1], KEY_PART_A[2] ^ MASK_A[2],
        KEY_PART_A[3] ^ MASK_A[3], KEY_PART_A[4] ^ MASK_A[4], KEY_PART_A[5] ^ MASK_A[5],
        KEY_PART_A[6] ^ MASK_A[6],
        KEY_PART_B[0] ^ MASK_B[0], KEY_PART_B[1] ^ MASK_B[1], KEY_PART_B[2] ^ MASK_B[2],
        KEY_PART_B[3] ^ MASK_B[3], KEY_PART_B[4] ^ MASK_B[4], KEY_PART_B[5] ^ MASK_B[5],
        KEY_PART_B[6] ^ MASK_B[6],
        KEY_PART_C[0] ^ MASK_C[0], KEY_PART_C[1] ^ MASK_C[1], KEY_PART_C[2] ^ MASK_C[2],
        KEY_PART_C[3] ^ MASK_C[3], KEY_PART_C[4] ^ MASK_C[4], KEY_PART_C[5] ^ MASK_C[5],
        KEY_PART_D[0] ^ MASK_D[0], KEY_PART_D[1] ^ MASK_D[1], KEY_PART_D[2] ^ MASK_D[2],
        KEY_PART_D[3] ^ MASK_D[3], KEY_PART_D[4] ^ MASK_D[4], KEY_PART_D[5] ^ MASK_D[5],
        KEY_PART_E[0] ^ MASK_E[0], KEY_PART_E[1] ^ MASK_E[1], KEY_PART_E[2] ^ MASK_E[2],
        KEY_PART_E[3] ^ MASK_E[3], KEY_PART_E[4] ^ MASK_E[4], KEY_PART_E[5] ^ MASK_E[5],
    ];
    proof {
        lemma_xor_twice();
        assert(key@ =~= trusted_key());
    }
    key
}

/// The table of (part, mask, offset) that drives the table-based reconstructions.
spec fn part_table_matches(parts: Seq<(&[u8], &[u8], usize)>) -> bool {
    &&& parts.len() == 5
    &&& parts[0].0@ == KEY_PART_A@ && parts[0].1@ == MASK_A@
    &&& parts[1].0@ == KEY_PART_B@ && parts[1].1@ == MASK_B@
    &&& parts[2].0@ == KEY_PART_C@ && parts[2].1@ == MASK_C@
    &&& parts[3].0@ == KEY_PART_D@ && parts[3].1@ == MASK_D@
    &&& parts[4].0@ == KEY_PART_E@ && parts[4].1@ == MASK_E@
    &&& forall|k: int| 0 <= k < 5 ==> #[trigger] parts[k].2 == part_offset(k)
}

/// Rebuild the key from a table of parts, masks and offsets.
#[inline(never)]
pub fn reconstruct_key_v4() -> (key: [u8; 32])
    ensures
        key@ == trusted_key(),
{
    let parts: [(&[u8], &[u8], usize); 5] = [
        (KEY_PART_A.as_slice(), MASK_A.as_slice(), 0),
        (KEY_PART_B.as_slice(), MASK_B.as_slice(), 7),
        (KEY_PART_C.as_slice(), MASK_C.as_slice(), 14),
        (KEY_PART_D.as_slice(), MASK_D.as_slice(), 20),
        (KEY_PART_E.as_slice(), MASK_E.as_slice(), 26),
    ];
    proof {
        lemma_reconstructed_key_is_trusted_key();
        assert(part_table_matches(parts@));
    }
    let mut key = [0u8; 32];
    let mut k: usize = 0;
    while k < 5
        invariant
            k <= 5,
            part_table_matches(parts@),
            reconstructed_key() == trusted_key(),
            forall|j: int| 0 <= j < part_offset(k as int) ==> #[trigger] key@[j] == trusted_key()[j],
        decreases 5 - k,
    {
        let (part, mask, offset) = parts[k];
        assert(part@ == stored_part(k as int) && mask@ == stored_mask(k as int));
        for i in 0..part.len()
            invariant
                k < 5,
                part_table_matches(parts@),
                part@ == stored_part(k as int),
                mask@ == stored_mask(k as int),
                offset == part_offset(k as int),
                forall|j: int| 0 <= j < offset + i ==> #[trigger] key@[j] == trusted_key()[j],
        {
            proof {
                lemma_key_byte(k as int, i as int);
            }
            key[offset + i] = part[i] ^ mask[i % mask.len()];
        }
        proof {
            lemma_key_byte(k as int, 0);
        }
        k += 1;
    }
    assert(key@ =~= trusted_key());
    key
}

/// Rebuild the key from the table of parts, unmasking each byte in place.
#[inline(never)]
pub fn reconstruct_key_v5() -> (key: [u8; 32])
    ensures
        key@ == trusted_key(),
{
    let mut key = [0u8; 32];
    let table = [
        (KEY_PART_A.as_slice(), MASK_A.as_slice(), 0usize),
        (KEY_PART_B.as_slice(), MASK_B.as_slice(), 7),
        (KEY_PART_C.as_slice(), MASK_C.as_slice(), 14),
        (KEY_PART_D.as_slice(), MASK_D.as_slice(), 20),
        (KEY_PART_E.as_slice(), MASK_E.as_slice(), 26),
    ];
    proof {
        lemma_reconstructed_key_is_trusted_key();
        assert(part_table_matches(table@));
    }
    let mut k: usize = 0;
    while k < table.len()
        invariant
            k <= 5,
            table@.len() == 5,
            part_table_matches(table@),
            reconstructed_key() == trusted_key(),
            forall|j: int| 0 <= j < part_offset(k as int) ==> #[trigger] key@[j] == trusted_key()[j],
        decreases 5 - k,
    {
        let part = table[k].0;
        let mask = table[k].1;
        let offset = table[k].2;
        let mut i: usize = 0;
        while i < part.len()
            invariant
                k < 5,
                i <= part@.len(),
                part_table_matches(table@),
                part@ == table@[k as int].0@,
                mask@ == table@[k as int].1@,
                offset == part_offset(k as int),
                offset + part@.len() == part_offset(k + 1),
                reconstructed_key() == trusted_key(),
                forall|j: int| 0 <= j < offset + i ==> #[trigger] key@[j] == trusted_key()[j],
            decreases part@.len() - i,
        {
            let b = part[i] ^ mask[i % mask.len()];
            assert(b == unmask(part@, mask@)[i as int]);
            assert(reconstructed_key()[offset + i] == unmask(part@, mask@)[i as int]);
            key[offset + i] = b;
            i += 1;
        }
        k += 1;
    }
    assert(key@ =~= trusted_key());
    key
}

} // verus!
