use sha2::{Digest, Sha256};

use guardlib::detect::DetectionResult;
use guardlib::handle::init_outcome;
use guardlib::integrity::{integrity_step, region_intact, IntegrityStep, EXPECTED_HASH};
use guardlib::text::{i32_to_decimal, usize_to_decimal};

#[test]
fn decimal_rendering() {
    assert_eq!(usize_to_decimal(0), "0");
    assert_eq!(usize_to_decimal(9), "9");
    assert_eq!(usize_to_decimal(10), "10");
    assert_eq!(usize_to_decimal(4096), "4096");
    assert_eq!(i32_to_decimal(-1), "-1");
    assert_eq!(i32_to_decimal(i32::MIN), "-2147483648");
    assert_eq!(i32_to_decimal(i32::MAX), "2147483647");
}

#[test]
fn integrity_steps() {
    let zero = [0u8; 32];
    let mut set = [0u8; 32];
    set[31] = 1;
    assert_eq!(integrity_step(true, &set), IntegrityStep::Skip);
    assert_eq!(integrity_step(true, &zero), IntegrityStep::Skip);
    assert_eq!(integrity_step(false, &zero), IntegrityStep::Skip);
    assert_eq!(integrity_step(false, &set), IntegrityStep::CheckRegion);
    assert_eq!(EXPECTED_HASH, zero);
}

#[test]
fn region_digest_comparison() {
    let region = b"machine code bytes";
    let digest: [u8; 32] = Sha256::digest(region).into();
    assert!(region_intact(region, &digest));
    let mut patched = region.to_vec();
    patched[0] ^= 0x90;
    assert!(!region_intact(&patched, &digest));
}

#[test]
fn initialisation_outcome() {
    assert!(init_outcome(&DetectionResult::clean()).is_ok());
    match init_outcome(&DetectionResult::found("Frida: port 27042 open")) {
        Err(m) => assert_eq!(m, "Detection failed: Frida: port 27042 open"),
        Ok(_) => panic!("detection must stop initialisation"),
    }
}
