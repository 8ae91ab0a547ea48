use ed25519_dalek::Signer as _;
use k256::ecdsa::signature::hazmat::{PrehashSigner as _, PrehashVerifier as _};
use primitive_bench::digest::{run_keccak, run_sha256};
use primitive_bench::payload::prepare_payloads;
use primitive_bench::scenario::{run_guest, Commitment, GuestError, Header, Scenario};
use primitive_bench::signature::{run_ecdsa, run_eddsa, RecordError};
use sha2::Digest as _;
use tiny_keccak::Hasher as _;

fn keccak(data: &[u8]) -> [u8; 32] {
    let mut h = tiny_keccak::Keccak::v256();
    h.update(data);
    let mut out = [0u8; 32];
    h.finalize(&mut out);
    out
}

fn sha(data: &[u8]) -> [u8; 32] {
    sha2::Sha256::digest(data).into()
}

fn hex(s: &str) -> Vec<u8> {
    (0..s.len()).step_by(2).map(|i| u8::from_str_radix(&s[i..i + 2], 16).unwrap()).collect()
}

#[test]
fn keccak_of_zero_block_matches_known_digest() {
    let out = run_keccak(1, &[0u8; 32]);
    assert_eq!(out.to_vec(), hex("290decd9548b62a8d60345a988386fc84ba6bc95484008f6362f93160ef3e563"));
}

#[test]
fn sha256_of_zero_block_matches_known_digest() {
    let out = run_sha256(1, &[0u8; 32]);
    assert_eq!(out.to_vec(), hex("66687aadf862bd776c8fc18b8e9f8e20089714856ee233b3902a591d0d5f2925"));
}

#[test]
fn zero_rounds_commit_first_32_bytes() {
    let input: Vec<u8> = (0u8..40).collect();
    assert_eq!(run_keccak(0, &input).to_vec(), input[..32].to_vec());
    assert_eq!(run_sha256(0, &input).to_vec(), input[..32].to_vec());
}

#[test]
fn chains_hash_repeatedly_and_ignore_bytes_past_32() {
    let input: Vec<u8> = (0u8..48).collect();
    let mut k = [0u8; 32];
    k.copy_from_slice(&input[..32]);
    let mut s = k;
    for _ in 0..5 {
        k = keccak(&k);
        s = sha(&s);
    }
    assert_eq!(run_keccak(5, &input), k);
    assert_eq!(run_sha256(5, &input), s);
    assert_eq!(run_keccak(5, &input[..32]), k);
}

#[test]
fn keccak_chain_composes() {
    let input = [7u8; 32];
    let three = run_keccak(3, &input);
    assert_eq!(run_keccak(2, &three), run_keccak(5, &input));
    let three = run_sha256(3, &input);
    assert_eq!(run_sha256(2, &three), run_sha256(5, &input));
}

#[test]
fn ecdsa_prepared_records_all_verify() {
    let p = prepare_payloads(4);
    assert_eq!(run_ecdsa(4, &p.ecdsa), Ok(4));
    assert_eq!(run_ecdsa(2, &p.ecdsa[..2 * 129]), Ok(2));
    assert_eq!(run_ecdsa(0, &[]), Ok(0));
}

#[test]
fn ecdsa_wrong_message_is_counted_as_unverified() {
    let p = prepare_payloads(3);
    let mut payload = p.ecdsa.clone();
    payload[129 + 100] ^= 1; // message digest of record 1
    assert_eq!(run_ecdsa(3, &payload), Ok(2));
}

#[test]
fn ecdsa_bad_key_is_reported_with_its_index() {
    let p = prepare_payloads(3);
    let mut payload = p.ecdsa.clone();
    for b in &mut payload[2 * 129..2 * 129 + 33] {
        *b = 0;
    }
    assert_eq!(run_ecdsa(3, &payload), Err(RecordError::PublicKey(2)));
    assert_eq!(run_ecdsa(2, &payload), Ok(2));
}

#[test]
fn ecdsa_bad_signature_is_reported_with_its_index() {
    let p = prepare_payloads(3);
    let mut payload = p.ecdsa.clone();
    for b in &mut payload[129 + 33..129 + 97] {
        *b = 0;
    }
    assert_eq!(run_ecdsa(3, &payload), Err(RecordError::Signature(1)));
}

#[test]
fn eddsa_prepared_records_all_verify() {
    let p = prepare_payloads(4);
    assert_eq!(run_eddsa(4, &p.eddsa), Ok(4));
    assert_eq!(run_eddsa(1, &p.eddsa[..128]), Ok(1));
}

#[test]
fn eddsa_tampered_signature_is_counted_as_unverified() {
    let p = prepare_payloads(3);
    let mut payload = p.eddsa.clone();
    payload[40] ^= 0x80;
    payload[2 * 128 + 120] ^= 1;
    assert_eq!(run_eddsa(3, &payload), Ok(1));
}

fn undecodable_ed25519_key() -> [u8; 32] {
    for y in 2u8..=255 {
        let mut k = [0u8; 32];
        k[0] = y;
        if ed25519_dalek::VerifyingKey::from_bytes(&k).is_err() {
            return k;
        }
    }
    panic!("no undecodable key found");
}

#[test]
fn eddsa_bad_key_is_reported_with_its_index() {
    let p = prepare_payloads(2);
    let mut payload = p.eddsa.clone();
    payload[128..160].copy_from_slice(&undecodable_ed25519_key());
    assert_eq!(run_eddsa(2, &payload), Err(RecordError::PublicKey(1)));
}

#[test]
fn eddsa_record_signed_outside_verifies() {
    let sk = ed25519_dalek::SigningKey::from_bytes(&[9u8; 32]);
    let msg = [3u8; 32];
    let mut record = Vec::new();
    record.extend_from_slice(&sk.verifying_key().to_bytes());
    record.extend_from_slice(&sk.sign(&msg).to_bytes());
    record.extend_from_slice(&msg);
    assert_eq!(run_eddsa(1, &record), Ok(1));
    record[96] ^= 1;
    assert_eq!(run_eddsa(1, &record), Ok(0));
}

#[test]
fn guest_runs_each_scenario() {
    let p = prepare_payloads(2);
    let h = Header { scenario: Scenario::Keccak, n: 3 };
    match run_guest(&h, &p.seed) {
        Ok(Commitment::Digest(d)) => assert_eq!(d, run_keccak(3, &p.seed)),
        other => panic!("unexpected {:?}", other),
    }
    let h = Header { scenario: Scenario::Sha256, n: 3 };
    match run_guest(&h, &p.seed) {
        Ok(Commitment::Digest(d)) => assert_eq!(d, run_sha256(3, &p.seed)),
        other => panic!("unexpected {:?}", other),
    }
    let h = Header { scenario: Scenario::Ecdsa, n: 2 };
    assert!(matches!(run_guest(&h, &p.ecdsa), Ok(Commitment::VerifiedCount(2))));
    let h = Header { scenario: Scenario::Eddsa, n: 2 };
    assert!(matches!(run_guest(&h, &p.eddsa), Ok(Commitment::VerifiedCount(2))));
}

#[test]
fn guest_rejects_short_inputs() {
    let h = Header { scenario: Scenario::Keccak, n: 1 };
    assert!(matches!(run_guest(&h, &[0u8; 31]), Err(GuestError::InputTooShort)));
    let h = Header { scenario: Scenario::Sha256, n: 0 };
    assert!(matches!(run_guest(&h, &[]), Err(GuestError::InputTooShort)));
    let p = prepare_payloads(2);
    let h = Header { scenario: Scenario::Ecdsa, n: 3 };
    assert!(matches!(run_guest(&h, &p.ecdsa), Err(GuestError::PayloadTooShort)));
    let h = Header { scenario: Scenario::Eddsa, n: 2 };
    assert!(matches!(run_guest(&h, &p.eddsa[..255]), Err(GuestError::PayloadTooShort)));
}

#[test]
fn guest_reports_record_errors() {
    let p = prepare_payloads(1);
    let mut payload = p.ecdsa.clone();
    payload[0] = 0x07;
    let h = Header { scenario: Scenario::Ecdsa, n: 1 };
    assert!(matches!(run_guest(&h, &payload), Err(GuestError::Record(RecordError::PublicKey(0)))));
}

#[test]
fn ecdsa_record_made_outside_verifies() {
    let sk = k256::ecdsa::SigningKey::from_bytes(&[5u8; 32].into()).unwrap();
    let msg = sha(b"outside");
    let sig: k256::ecdsa::Signature = sk.sign_prehash(&msg).unwrap();
    assert!(sk.verifying_key().verify_prehash(&msg, &sig).is_ok());
    let mut record = Vec::new();
    record.extend_from_slice(&sk.verifying_key().to_sec1_bytes());
    record.extend_from_slice(&sig.to_bytes());
    record.extend_from_slice(&msg);
    assert_eq!(run_ecdsa(1, &record), Ok(1));
}

#[test]
fn ecdsa_digest_is_not_hashed_again() {
    let sk = k256::ecdsa::SigningKey::from_bytes(&[5u8; 32].into()).unwrap();
    let msg = sha(b"outside");
    // Signed over SHA-256(msg) rather than over msg itself: not counted.
    let sig: k256::ecdsa::Signature = k256::ecdsa::signature::Signer::sign(&sk, &msg);
    let mut record = Vec::new();
    record.extend_from_slice(&sk.verifying_key().to_sec1_bytes());
    record.extend_from_slice(&sig.to_bytes());
    record.extend_from_slice(&msg);
    assert_eq!(run_ecdsa(1, &record), Ok(0));
}

const SECP256K1_ORDER: &str = "fffffffffffffffffffffffffffffffebaaedce6af48a03bbfd25e8cd0364141";

#[test]
fn ecdsa_signature_scalars_must_be_below_the_order() {
    let p = prepare_payloads(1);
    let mut payload = p.ecdsa.clone();
    let mut r_one = [0u8; 32];
    r_one[31] = 1;
    payload[33..65].copy_from_slice(&r_one);
    payload[65..97].copy_from_slice(&hex(SECP256K1_ORDER));
    assert_eq!(run_ecdsa(1, &payload), Err(RecordError::Signature(0)));
    let mut below = hex(SECP256K1_ORDER);
    below[31] -= 1;
    payload[65..97].copy_from_slice(&below);
    assert_eq!(run_ecdsa(1, &payload), Ok(0));
    payload[33..65].copy_from_slice(&[0u8; 32]);
    assert_eq!(run_ecdsa(1, &payload), Err(RecordError::Signature(0)));
}

#[test]
fn counts_add_over_concatenated_payloads() {
    let p = prepare_payloads(3);
    let mut a = p.ecdsa[..2 * 129].to_vec();
    a[100] ^= 1;
    let b = p.ecdsa[2 * 129..].to_vec();
    let ab = [a.clone(), b.clone()].concat();
    assert_eq!(run_ecdsa(2, &a), Ok(1));
    assert_eq!(run_ecdsa(1, &b), Ok(1));
    assert_eq!(run_ecdsa(3, &ab), Ok(2));
    let mut c = p.eddsa[..128].to_vec();
    c[40] ^= 0x80;
    let d = p.eddsa[128..].to_vec();
    let cd = [c.clone(), d.clone()].concat();
    assert_eq!(run_eddsa(1, &c), Ok(0));
    assert_eq!(run_eddsa(2, &d), Ok(2));
    assert_eq!(run_eddsa(3, &cd), Ok(2));
}
