//! Batch signature verification: the ECDSA (secp256k1) and Ed25519 workloads.
//!
//! A payload is a run of fixed-size records. An ECDSA record is a 33-byte
//! SEC1 public key, a 64-byte `r || s` signature and a 32-byte message
//! digest; an Ed25519 record is a 32-byte public key, a 64-byte signature and
//! a 32-byte message. The workloads count the records whose signature
//! verifies, and stop at the first record whose key or signature does not
//! decode.

use crate::ecdsa::{
    ecdsa_key_from_sec1, ecdsa_key_valid, ecdsa_low_s, ecdsa_signature_from_slice, ecdsa_signature_valid,
    ecdsa_verifies, ecdsa_verify, is_low_s,
};
use crate::ed25519::{
    ed25519_key_from_bytes, ed25519_key_valid, ed25519_signature_from_bytes, ed25519_verifies, ed25519_verify,
};
use crate::ecdsa::{be_value, secp256k1_order};
use crate::records::{copy_array, lemma_record_concat, lemma_record_prefix, record};
use vstd::prelude::*;

verus! {

/// Size of one ECDSA record: key, signature, message digest.
pub const ECDSA_RECORD: usize = 129;

/// Size of one Ed25519 record: key, signature, message.
pub const EDDSA_RECORD: usize = 128;

// ---------------------------------------------------------------------------
// ECDSA records
// ---------------------------------------------------------------------------

/// What checking one ECDSA record comes to.
#[derive(PartialEq, Eq, Structural, Clone, Copy, Debug)]
pub enum EcdsaCheck {
    /// The public key bytes are not a valid SEC1 point.
    KeyRejected,
    /// The key decoded, the signature bytes did not.
    SignatureRejected,
    /// Both decoded; the flag says whether the signature verifies.
    Checked(bool),
}

/// The outcome of checking `(sec1, sig, digest)`, in the order the workload
/// decodes: key first, then signature, then verification, which accepts only
/// low-S signatures.
pub open spec fn ecdsa_check_spec(sec1: Seq<u8>, sig: Seq<u8>, digest: Seq<u8>) -> EcdsaCheck {
    if !ecdsa_key_valid(sec1) {
        EcdsaCheck::KeyRejected
    } else if !ecdsa_signature_valid(sig) {
        EcdsaCheck::SignatureRejected
    } else {
        EcdsaCheck::Checked(ecdsa_low_s(sig) && ecdsa_verifies(sec1, digest, sig))
    }
}

/// Record `i` of an ECDSA payload.
pub open spec fn ecdsa_record(payload: Seq<u8>, i: int) -> Seq<u8> {
    record(payload, i, 129)
}

/// The outcome of checking record `i` of an ECDSA payload.
pub open spec fn ecdsa_outcome(payload: Seq<u8>, i: int) -> EcdsaCheck {
    let r = ecdsa_record(payload, i);
    ecdsa_check_spec(r.subrange(0, 33), r.subrange(33, 97), r.subrange(97, 129))
}

/// Number of the first `k` ECDSA records whose signature verifies.
pub open spec fn ecdsa_verified_count(payload: Seq<u8>, k: nat) -> nat
    decreases k,
{
    if k == 0 {
        0
    } else {
        ecdsa_verified_count(payload, (k - 1) as nat) + if ecdsa_outcome(payload, k - 1)
            == EcdsaCheck::Checked(true) {
            1nat
        } else {
            0nat
        }
    }
}

// ---------------------------------------------------------------------------
// Ed25519 records
// ---------------------------------------------------------------------------

/// Record `i` of an Ed25519 payload.
pub open spec fn eddsa_record(payload: Seq<u8>, i: int) -> Seq<u8> {
    record(payload, i, 128)
}

/// Whether the key of Ed25519 record `i` decodes.
pub open spec fn eddsa_key_ok(payload: Seq<u8>, i: int) -> bool {
    ed25519_key_valid(eddsa_record(payload, i).subrange(0, 32))
}

/// Whether Ed25519 record `i` holds a valid key and a signature that verifies.
pub open spec fn eddsa_verified(payload: Seq<u8>, i: int) -> bool {
    let r = eddsa_record(payload, i);
    eddsa_key_ok(payload, i) && ed25519_verifies(r.subrange(0, 32), r.subrange(96, 128), r.subrange(32, 96))
}

/// Number of the first `k` Ed25519 records whose signature verifies.
pub open spec fn eddsa_verified_count(payload: Seq<u8>, k: nat) -> nat
    decreases k,
{
    if k == 0 {
        0
    } else {
        eddsa_verified_count(payload, (k - 1) as nat) + if eddsa_verified(payload, k - 1) {
            1nat
        } else {
            0nat
        }
    }
}

// ---------------------------------------------------------------------------
// Laws of the counts
// ---------------------------------------------------------------------------

/// A workload never counts more verified records than it checks.
pub proof fn lemma_verified_count_bounded(payload: Seq<u8>, k: nat)
    ensures
        ecdsa_verified_count(payload, k) <= k,
        eddsa_verified_count(payload, k) <= k,
    decreases k,
{
    if k > 0 {
        lemma_verified_count_bounded(payload, (k - 1) as nat);
    }
}

proof fn lemma_ecdsa_count_congruent(a: Seq<u8>, b: Seq<u8>, k: nat)
    requires
        forall|i: int| 0 <= i < k ==> ecdsa_outcome(a, i) == ecdsa_outcome(b, i),
    ensures
        ecdsa_verified_count(a, k) == ecdsa_verified_count(b, k),
    decreases k,
{
    if k > 0 {
        assert(ecdsa_outcome(a, k - 1) == ecdsa_outcome(b, k - 1));
        lemma_ecdsa_count_congruent(a, b, (k - 1) as nat);
    }
}

proof fn lemma_eddsa_count_congruent(a: Seq<u8>, b: Seq<u8>, k: nat)
    requires
        forall|i: int| 0 <= i < k ==> eddsa_verified(a, i) == eddsa_verified(b, i),
    ensures
        eddsa_verified_count(a, k) == eddsa_verified_count(b, k),
    decreases k,
{
    if k > 0 {
        assert(eddsa_verified(a, k - 1) == eddsa_verified(b, k - 1));
        lemma_eddsa_count_congruent(a, b, (k - 1) as nat);
    }
}

/// A workload over `n` records reads only the first `n` records: a payload
/// cut to those records (what the host hands a cell of size `n`) gives the
/// same outcomes and the same counts as the full payload.
pub proof fn lemma_records_prefix(payload: Seq<u8>, n: nat)
    ensures
        payload.len() >= n * 129 ==> {
            &&& forall|i: int| 0 <= i < n ==> #[trigger] ecdsa_outcome(payload.take(n as int * 129), i) == ecdsa_outcome(payload, i)
            &&& ecdsa_verified_count(payload.take(n as int * 129), n) == ecdsa_verified_count(payload, n)
        },
        payload.len() >= n * 128 ==> {
            &&& forall|i: int| 0 <= i < n ==> #[trigger] eddsa_record(payload.take(n as int * 128), i) == eddsa_record(payload, i)
            &&& eddsa_verified_count(payload.take(n as int * 128), n) == eddsa_verified_count(payload, n)
        },
{
    if payload.len() >= n * 129 {
        lemma_record_prefix(payload, n, 129);
        let cut = payload.take(n as int * 129);
        assert forall|i: int| 0 <= i < n implies #[trigger] ecdsa_outcome(cut, i) == ecdsa_outcome(payload, i) by {
            assert(record(cut, i, 129) == record(payload, i, 129));
        }
        lemma_ecdsa_count_congruent(cut, payload, n);
    }
    if payload.len() >= n * 128 {
        lemma_record_prefix(payload, n, 128);
        let cut = payload.take(n as int * 128);
        assert forall|i: int| 0 <= i < n implies eddsa_verified(cut, i) == eddsa_verified(payload, i) by {
            assert(record(cut, i, 128) == record(payload, i, 128));
        }
        lemma_eddsa_count_congruent(cut, payload, n);
    }
}

proof fn lemma_ecdsa_count_concat(a: Seq<u8>, b: Seq<u8>, n1: nat, k: nat)
    requires
        a.len() == n1 * 129,
        b.len() >= k * 129,
    ensures
        ecdsa_verified_count(a + b, n1 + k) == ecdsa_verified_count(a, n1) + ecdsa_verified_count(b, k),
    decreases k,
{
    lemma_record_concat(a, b, n1, 129);
    if k == 0 {
        assert forall|i: int| 0 <= i < n1 implies ecdsa_outcome(a + b, i) == ecdsa_outcome(a, i) by {
            assert(record(a + b, i, 129) == record(a, i, 129));
        }
        lemma_ecdsa_count_congruent(a + b, a, n1);
    } else {
        vstd::arithmetic::mul::lemma_mul_inequality(k - 1, k as int, 129);
        lemma_ecdsa_count_concat(a, b, n1, (k - 1) as nat);
        crate::records::lemma_record_in_bounds(k - 1, k as int, 129);
        assert(record(a + b, n1 + (k - 1), 129) == record(b, k - 1, 129));
        assert(ecdsa_outcome(a + b, n1 + k - 1) == ecdsa_outcome(b, k - 1));
    }
}

proof fn lemma_eddsa_count_concat(a: Seq<u8>, b: Seq<u8>, n1: nat, k: nat)
    requires
        a.len() == n1 * 128,
        b.len() >= k * 128,
    ensures
        eddsa_verified_count(a + b, n1 + k) == eddsa_verified_count(a, n1) + eddsa_verified_count(b, k),
    decreases k,
{
    lemma_record_concat(a, b, n1, 128);
    if k == 0 {
        assert forall|i: int| 0 <= i < n1 implies eddsa_verified(a + b, i) == eddsa_verified(a, i) by {
            assert(record(a + b, i, 128) == record(a, i, 128));
        }
        lemma_eddsa_count_congruent(a + b, a, n1);
    } else {
        vstd::arithmetic::mul::lemma_mul_inequality(k - 1, k as int, 128);
        lemma_eddsa_count_concat(a, b, n1, (k - 1) as nat);
        crate::records::lemma_record_in_bounds(k - 1, k as int, 128);
        assert(record(a + b, n1 + (k - 1), 128) == record(b, k - 1, 128));
        assert(eddsa_verified(a + b, n1 + k - 1) == eddsa_verified(b, k - 1));
    }
}

/// Records are checked independently and counted: the count over `a ++ b`,
/// with `a` holding exactly `n1` records, is the count over `a` plus the
/// count over the first `n2` records of `b`.
pub proof fn lemma_counts_add(a: Seq<u8>, b: Seq<u8>, n1: nat, n2: nat)
    ensures
        a.len() == n1 * 129 && b.len() >= n2 * 129 ==> ecdsa_verified_count(a + b, n1 + n2)
            == ecdsa_verified_count(a, n1) + ecdsa_verified_count(b, n2),
        a.len() == n1 * 128 && b.len() >= n2 * 128 ==> eddsa_verified_count(a + b, n1 + n2)
            == eddsa_verified_count(a, n1) + eddsa_verified_count(b, n2),
{
    if a.len() == n1 * 129 && b.len() >= n2 * 129 {
        lemma_ecdsa_count_concat(a, b, n1, n2);
    }
    if a.len() == n1 * 128 && b.len() >= n2 * 128 {
        lemma_eddsa_count_concat(a, b, n1, n2);
    }
}

/// Only a low-S signature is ever counted: an ECDSA record counts as
/// verified only when its key and signature decode and its `s` is at most
/// half the group order, so the high-S twin `(r, n - s)` of a counted
/// signature is checked and not counted.
pub proof fn lemma_ecdsa_counted_only_low_s(payload: Seq<u8>, i: int)
    ensures
        ({
            let r = ecdsa_record(payload, i);
            let sig = r.subrange(33, 97);
            &&& ecdsa_outcome(payload, i) == EcdsaCheck::Checked(true) ==> {
                &&& ecdsa_key_valid(r.subrange(0, 33))
                &&& ecdsa_signature_valid(sig)
                &&& be_value(sig.skip(32)) <= secp256k1_order() / 2
            }
            &&& ecdsa_key_valid(r.subrange(0, 33)) && ecdsa_signature_valid(sig) && be_value(sig.skip(32))
                > secp256k1_order() / 2 ==> ecdsa_outcome(payload, i) == EcdsaCheck::Checked(false)
        }),
{
}

/// Of two signatures that differ only in `s` and `n - s`, at most one is
/// counted: `s` and `n - s` cannot both be at most half the (odd) order.
pub proof fn lemma_ecdsa_twins_not_both_counted(sec1: Seq<u8>, digest: Seq<u8>, sig: Seq<u8>, twin: Seq<u8>)
    requires
        sig.len() == 64,
        twin.len() == 64,
        sig.take(32) == twin.take(32),
        0 < be_value(sig.skip(32)) < secp256k1_order(),
        be_value(twin.skip(32)) == secp256k1_order() - be_value(sig.skip(32)),
    ensures
        !(ecdsa_check_spec(sec1, sig, digest) == EcdsaCheck::Checked(true) && ecdsa_check_spec(sec1, twin, digest)
            == EcdsaCheck::Checked(true)),
{
}

// ---------------------------------------------------------------------------
// The workloads
// ---------------------------------------------------------------------------

/// A record whose key or signature did not decode, by its index.
#[derive(PartialEq, Eq, Structural, Clone, Copy, Debug)]
pub enum RecordError {
    /// The public key of this record was rejected.
    PublicKey(usize),
    /// The signature of this record was rejected.
    Signature(usize),
}

impl RecordError {
    /// The index of the offending record.
    pub open spec fn index(self) -> usize {
        match self {
            RecordError::PublicKey(i) => i,
            RecordError::Signature(i) => i,
        }
    }
}

/// Checks the first `n` ECDSA records of `payload` in order and returns how
/// many verify; fails at the first record whose key or signature does not
/// decode.
pub fn run_ecdsa(n: usize, payload: &[u8]) -> (r: Result<u32, RecordError>)
    requires
        payload@.len() >= n * 129,
        n <= u32::MAX,
    ensures
        r is Ok <==> forall|i: int| 0 <= i < n ==> ecdsa_outcome(payload@, i) is Checked,
        r matches Ok(c) ==> c == ecdsa_verified_count(payload@, n as nat),
        r matches Err(e) ==> {
            &&& e.index() < n
            &&& forall|j: int| 0 <= j < e.index() ==> ecdsa_outcome(payload@, j) is Checked
            &&& (e is PublicKey) == (ecdsa_outcome(payload@, e.index() as int) == EcdsaCheck::KeyRejected)
            &&& (e is Signature) == (ecdsa_outcome(payload@, e.index() as int) == EcdsaCheck::SignatureRejected)
        },
{
    let len = payload.len();
    let mut ok: u32 = 0;
    let mut i: usize = 0;
    while i < n
        invariant
            i <= n,
            n <= u32::MAX,
            len == payload@.len(),
            payload@.len() >= n * 129,
            ok == ecdsa_verified_count(payload@, i as nat),
            ok <= i,
            forall|j: int| 0 <= j < i ==> ecdsa_outcome(payload@, j) is Checked,
        decreases n - i,
    {
        assert(i * 129 + 129 <= n * 129) by (nonlinear_arith)
            requires i < n;
        let base = i * 129;
        let rec = &payload[base..base + 129];
        assert(rec@ == ecdsa_record(payload@, i as int));
        let key = match ecdsa_key_from_sec1(&rec[0..33]) {
            Ok(key) => key,
            Err(_) => {
                assert(!(ecdsa_outcome(payload@, i as int) is Checked));
                return Err(RecordError::PublicKey(i));
            },
        };
        let sig = match ecdsa_signature_from_slice(&rec[33..97]) {
            Ok(sig) => sig,
            Err(_) => {
                assert(!(ecdsa_outcome(payload@, i as int) is Checked));
                return Err(RecordError::Signature(i));
            },
        };
        let msg = &rec[97..129];
        let s_half = &rec[65..97];
        assert(s_half@ =~= rec@.subrange(33, 97).skip(32));
        if is_low_s(s_half) && ecdsa_verify(&key, msg, &sig) {
            ok = ok + 1;
        }
        i = i + 1;
    }
    Ok(ok)
}

/// Checks the first `n` Ed25519 records of `payload` in order and returns how
/// many verify; fails at the first record whose key does not decode.
pub fn run_eddsa(n: usize, payload: &[u8]) -> (r: Result<u32, RecordError>)
    requires
        payload@.len() >= n * 128,
        n <= u32::MAX,
    ensures
        r is Ok <==> forall|i: int| 0 <= i < n ==> eddsa_key_ok(payload@, i),
        r matches Ok(c) ==> c == eddsa_verified_count(payload@, n as nat),
        r matches Err(e) ==> {
            &&& e is PublicKey
            &&& e.index() < n
            &&& forall|j: int| 0 <= j < e.index() ==> eddsa_key_ok(payload@, j)
            &&& !eddsa_key_ok(payload@, e.index() as int)
        },
{
    let len = payload.len();
    let mut ok: u32 = 0;
    let mut i: usize = 0;
    while i < n
        invariant
            i <= n,
            n <= u32::MAX,
            len == payload@.len(),
            payload@.len() >= n * 128,
            ok == eddsa_verified_count(payload@, i as nat),
            ok <= i,
            forall|j: int| 0 <= j < i ==> eddsa_key_ok(payload@, j),
        decreases n - i,
    {
        assert(i * 128 + 128 <= n * 128) by (nonlinear_arith)
            requires i < n;
        let base = i * 128;
        let rec = &payload[base..base + 128];
        assert(rec@ == eddsa_record(payload@, i as int));
        let key_bytes: [u8; 32] = copy_array(rec, 0);
        let key = match ed25519_key_from_bytes(&key_bytes) {
            Ok(key) => key,
            Err(_) => {
                assert(!eddsa_key_ok(payload@, i as int));
                return Err(RecordError::PublicKey(i));
            },
        };
        let sig_bytes: [u8; 64] = copy_array(rec, 32);
        let sig = ed25519_signature_from_bytes(&sig_bytes);
        let msg = &rec[96..128];
        if ed25519_verify(&key, msg, &sig) {
            ok = ok + 1;
        }
        i = i + 1;
    }
    Ok(ok)
}

} // verus!
