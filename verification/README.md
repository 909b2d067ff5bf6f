# guardlib

Signed-configuration verification and certificate pinning, verified with
Verus.

- `src/key.rs` — the embedded Ed25519 public key, stored as five XOR-masked
  parts, and five reconstruction routines, each proved to give the key.
- `src/crypto.rs` — Ed25519 checks (through `ed25519-dalek`), SHA-256
  (through `sha2`), SPKI fingerprints as colon-separated uppercase hex, and
  certificate validation against an expected fingerprint.
- `src/der.rs` — walking a DER X.509 certificate to its
  SubjectPublicKeyInfo.
- `src/config.rs` — verifying a signed configuration and reading its
  `api_url` and `api_fingerprint`.
- `src/detect.rs` — the decisions of runtime threat detection (Frida, root,
  jailbreak, debugger), given what the caller read from the system.
- `src/integrity.rs` — the self-integrity decision and digest comparison.
- `src/handle.rs` — the opaque handle and the initialisation outcome.
- `src/text.rs` — string helpers and the standard-library text operations
  the library relies on.
- `app/` — the C ABI (`guard_init`, `guard_verify_config`,
  `guard_validate_certificate`, ...), the thread-local last error, and the
  system work (reading `/proc`, probing paths, reading the library's own
  code) whose results the library judges.
