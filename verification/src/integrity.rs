//! Self-integrity: whether the library's code region still hashes to the
//! value recorded after the release build.
//!
//! Reading the code region and ending the process are the caller's work;
//! this module decides what to do and compares the digest.

use vstd::prelude::*;

use crate::crypto::{sha256, sha256_digest};

verus! {

/// The SHA-256 of the integrity-critical region, recorded after the final
/// build. All zeros means it has not been recorded, and the check is
/// skipped.
pub const EXPECTED_HASH: [u8; 32] = [
    0, 0, 0, 0, 0, 0, 0, 0, 0, 0, 0, 0, 0, 0, 0, 0,
    0, 0, 0, 0, 0, 0, 0, 0, 0, 0, 0, 0, 0, 0, 0, 0,
];

/// While set, the integrity check is skipped (development builds).
pub const INTEGRITY_CHECK_DISABLED: bool = true;

/// The number of bytes of code, starting at the check itself, that are
/// hashed.
pub const INTEGRITY_REGION_SIZE: usize = 4096;

/// What the integrity check does next.
#[derive(Debug, Clone, Copy, PartialEq, Eq)]
pub enum IntegrityStep {
    /// Nothing: the check is disabled, or no hash was recorded.
    Skip,
    /// Hash the code region and compare it with the recorded hash; a
    /// mismatch means the code was patched.
    CheckRegion,
}

/// The recorded hash is the all-zero placeholder.
pub open spec fn is_unset(hash: Seq<u8>) -> bool {
    forall|i: int| 0 <= i < hash.len() ==> #[trigger] hash[i] == 0
}

/// The step for the given setting and recorded hash: the check runs only
/// when it is enabled and a hash has been recorded.
pub open spec fn spec_integrity_step(disabled: bool, expected: Seq<u8>) -> IntegrityStep {
    if disabled || is_unset(expected) {
        IntegrityStep::Skip
    } else {
        IntegrityStep::CheckRegion
    }
}

/// Decide what the integrity check does.
pub fn integrity_step(disabled: bool, expected: &[u8; 32]) -> (step: IntegrityStep)
    ensures
        step == spec_integrity_step(disabled, expected@),
{
    if disabled {
        return IntegrityStep::Skip;
    }
    let mut unset = true;
    let mut i: usize = 0;
    while i < 32
        invariant
            i <= 32,
            expected@.len() == 32,
            unset == (forall|k: int| 0 <= k < i ==> #[trigger] expected@[k] == 0),
        decreases 32 - i,
    {
        if expected[i] != 0 {
            unset = false;
        }
        i += 1;
    }
    if unset {
        IntegrityStep::Skip
    } else {
        IntegrityStep::CheckRegion
    }
}

/// Whether the code region hashes to the recorded value.
pub fn region_intact(region: &[u8], expected: &[u8; 32]) -> (intact: bool)
    ensures
        intact == (sha256_digest(region@) == expected@),
{
    let computed = sha256(region);
    let mut same = true;
    let mut i: usize = 0;
    while i < 32
        invariant
            i <= 32,
            computed@.len() == 32,
            expected@.len() == 32,
            same == (forall|k: int| 0 <= k < i ==> #[trigger] computed@[k] == expected@[k]),
        decreases 32 - i,
    {
        if computed[i] != expected[i] {
            same = false;
        }
        i += 1;
    }
    if same {
        assert(computed@ =~= expected@);
    }
    same
}

} // verus!
