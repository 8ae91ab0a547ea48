//! The host's test vectors: a seed, and ECDSA and Ed25519 payloads signed
//! under keys derived from it, laid out as the guest reads them.

use crate::digest::{sha256, sha256_digest};
use crate::primitive::Primitive;
use crate::ecdsa::{
    ecdsa_key_valid, ecdsa_low_s, ecdsa_public_key, ecdsa_public_key_sec1, ecdsa_sign, ecdsa_signature, ecdsa_signature_valid,
    ecdsa_signing_key_from_seed, ecdsa_verifies,
};
use crate::ed25519::{
    ed25519_key_to_bytes, ed25519_key_valid, ed25519_public_key, ed25519_sign, ed25519_signature,
    ed25519_signature_to_bytes, ed25519_signing_key, ed25519_verifies, ed25519_verifying_key,
};
use crate::records::{append, lemma_record_of_push, lemma_split_index, record};
use crate::signature::{
    ecdsa_check_spec, ecdsa_outcome, ecdsa_record, ecdsa_verified_count, eddsa_key_ok, eddsa_record, eddsa_verified,
    eddsa_verified_count, lemma_records_prefix, EcdsaCheck,
};
use vstd::prelude::*;
use vstd::string::StringSliceAdditionalSpecFns;

verus! {

// ---------------------------------------------------------------------------
// Layout
// ---------------------------------------------------------------------------

/// The `width` least significant bytes of `x`, least significant first.
pub open spec fn le_bytes(x: nat, width: nat) -> Seq<u8>
    decreases width,
{
    if width == 0 {
        seq![]
    } else {
        seq![(x % 256) as u8] + le_bytes(x / 256, (width - 1) as nat)
    }
}

/// The native little-endian bytes of a `usize` (`usize::to_le_bytes`).
pub open spec fn usize_le_bytes(x: nat) -> Seq<u8> {
    le_bytes(x, (usize::BITS / 8) as nat)
}

/// `usize::to_le_bytes`, as a vector.
pub fn usize_to_le_bytes(x: usize) -> (b: Vec<u8>)
    ensures
        b@ == usize_le_bytes(x as nat),
{
    let width: u32 = usize::BITS / 8;
    let mut b: Vec<u8> = Vec::new();
    let mut rest: usize = x;
    let mut k: u32 = 0;
    while k < width
        invariant
            width == usize::BITS / 8,
            k <= width,
            b@ + le_bytes(rest as nat, (width - k) as nat) == usize_le_bytes(x as nat),
        decreases width - k,
    {
        let ghost before = b@;
        b.push((rest % 256) as u8);
        assert(b@ == before + seq![(rest % 256) as u8]);
        assert(le_bytes(rest as nat, (width - k) as nat) == seq![(rest % 256) as u8] + le_bytes(
            (rest / 256) as nat,
            (width - k - 1) as nat,
        ));
        assert(before + (seq![(rest % 256) as u8] + le_bytes((rest / 256) as nat, (width - k - 1) as nat))
            == b@ + le_bytes((rest / 256) as nat, (width - k - 1) as nat));
        rest = rest / 256;
        k = k + 1;
    }
    assert(b@ + le_bytes(rest as nat, 0) == b@);
    b
}

/// The label hashed into the seed.
pub open spec fn seed_label() -> Seq<u8> {
    "bench-seed".spec_bytes()
}

/// The seed all test vectors derive from.
pub open spec fn bench_seed() -> Seq<u8> {
    sha256_digest(seed_label())
}

/// The message digest of ECDSA record `i`.
pub open spec fn ecdsa_message(seed: Seq<u8>, i: nat) -> Seq<u8> {
    sha256_digest(seed + usize_le_bytes(i))
}

/// The Ed25519 secret derived from the seed.
pub open spec fn eddsa_secret(seed: Seq<u8>) -> Seq<u8> {
    sha256_digest(seed + "eddsa".spec_bytes())
}

/// The message of Ed25519 record `i`.
pub open spec fn eddsa_message(seed: Seq<u8>, i: nat) -> Seq<u8> {
    sha256_digest(seed + "-ed-".spec_bytes() + usize_le_bytes(i))
}

/// The seed and the two signature payloads, each of as many records as the
/// largest repetition count of the run.
pub struct Payloads {
    pub seed: [u8; 32],
    pub ecdsa: Vec<u8>,
    pub eddsa: Vec<u8>,
}

/// Whether `key` is a compressed SEC1 public key that decodes: 33 bytes,
/// tag 2 or 3.
pub open spec fn compressed_sec1_key(key: Seq<u8>) -> bool {
    &&& key.len() == 33
    &&& (key[0] == 2 || key[0] == 3)
    &&& ecdsa_key_valid(key)
}

/// Whether `payload` holds `n` ECDSA records, all under the key drawn from
/// a generator seeded with `seed`, record `i` signing the digest of the seed
/// and `i`. The key is held in compressed SEC1 form: 33 bytes, tag 2 or 3.
pub open spec fn ecdsa_payload_laid_out(payload: Seq<u8>, seed: Seq<u8>, n: nat) -> bool {
    &&& compressed_sec1_key(ecdsa_public_key(seed))
    &&& ecdsa_records_laid_out(payload, seed, n)
}

/// Whether `payload` is `n` ECDSA records under the key of `seed`, record
/// `i` signing the digest of the seed and `i`.
pub open spec fn ecdsa_records_laid_out(payload: Seq<u8>, seed: Seq<u8>, n: nat) -> bool {
    &&& payload.len() == n * 129
    &&& forall|i: int|
        #![trigger ecdsa_record(payload, i)]
        0 <= i < n ==> {
            let r = ecdsa_record(payload, i);
            &&& r.subrange(0, 33) == ecdsa_public_key(seed)
            &&& r.subrange(33, 97) == ecdsa_signature(seed, ecdsa_message(seed, i as nat))
            &&& r.subrange(97, 129) == ecdsa_message(seed, i as nat)
        }
}

/// Whether `payload` holds `n` Ed25519 records, all under the key of the
/// secret derived from `seed`, record `i` signing its own message.
pub open spec fn eddsa_payload_laid_out(payload: Seq<u8>, seed: Seq<u8>, n: nat) -> bool {
    let secret = eddsa_secret(seed);
    &&& payload.len() == n * 128
    &&& forall|i: int|
        #![trigger eddsa_record(payload, i)]
        0 <= i < n ==> {
            let r = eddsa_record(payload, i);
            &&& r.subrange(0, 32) == ed25519_public_key(secret)
            &&& r.subrange(32, 96) == ed25519_signature(secret, eddsa_message(seed, i as nat))
            &&& r.subrange(96, 128) == eddsa_message(seed, i as nat)
        }
}

/// Whether each of the first `n` ECDSA records decodes and verifies.
pub open spec fn ecdsa_records_verify(payload: Seq<u8>, n: nat) -> bool {
    forall|i: int| 0 <= i < n ==> #[trigger] ecdsa_outcome(payload, i) == EcdsaCheck::Checked(true)
}

/// Whether each of the first `n` Ed25519 records decodes and verifies.
pub open spec fn eddsa_records_verify(payload: Seq<u8>, n: nat) -> bool {
    forall|i: int| 0 <= i < n ==> #[trigger] eddsa_verified(payload, i)
}

/// What `prepare_payloads(n)` returns: the seed, and `n` records of each
/// kind laid out from it, every one of which verifies.
pub open spec fn prepared(p: Payloads, n: nat) -> bool {
    &&& p.seed@ == bench_seed()
    &&& ecdsa_payload_laid_out(p.ecdsa@, p.seed@, n)
    &&& eddsa_payload_laid_out(p.eddsa@, p.seed@, n)
    &&& ecdsa_records_verify(p.ecdsa@, n)
    &&& eddsa_records_verify(p.eddsa@, n)
}

/// Appending record `i`, signed as the layout says, to `i` laid-out records
/// that verify gives `i + 1` laid-out records that verify.
proof fn lemma_ecdsa_push(before: Seq<u8>, pk: Seq<u8>, sig: Seq<u8>, msg: Seq<u8>, seed: Seq<u8>, i: nat)
    requires
        ecdsa_records_laid_out(before, seed, i),
        ecdsa_records_verify(before, i),
        pk == ecdsa_public_key(seed),
        pk.len() == 33,
        ecdsa_key_valid(pk),
        msg == ecdsa_message(seed, i),
        msg.len() == 32,
        sig == ecdsa_signature(seed, msg),
        sig.len() == 64,
        ecdsa_signature_valid(sig),
        ecdsa_low_s(sig),
        ecdsa_verifies(pk, msg, sig),
    ensures
        ecdsa_records_laid_out(before + (pk + sig + msg), seed, i + 1),
        ecdsa_records_verify(before + (pk + sig + msg), i + 1),
{
    let rec = pk + sig + msg;
    let after = before + rec;
    assert(rec.subrange(0, 33) =~= pk);
    assert(rec.subrange(33, 97) =~= sig);
    assert(rec.subrange(97, 129) =~= msg);
    lemma_record_of_push(before, rec, i, 129);
    vstd::arithmetic::mul::lemma_mul_is_distributive_add_other_way(129, i as int, 1);
    assert forall|j: int| 0 <= j < i + 1 implies {
        let r = #[trigger] ecdsa_record(after, j);
        &&& r.subrange(0, 33) == ecdsa_public_key(seed)
        &&& r.subrange(33, 97) == ecdsa_signature(seed, ecdsa_message(seed, j as nat))
        &&& r.subrange(97, 129) == ecdsa_message(seed, j as nat)
    } by {
        if j < i {
            assert(record(after, j, 129) == record(before, j, 129));
            assert(ecdsa_record(before, j) == record(before, j, 129));
        }
    }
    assert forall|j: int| 0 <= j < i + 1 implies #[trigger] ecdsa_outcome(after, j) == EcdsaCheck::Checked(true) by {
        if j < i {
            assert(record(after, j, 129) == record(before, j, 129));
            assert(ecdsa_outcome(before, j) == EcdsaCheck::Checked(true));
        }
    }
}

/// The Ed25519 counterpart of `lemma_ecdsa_push`.
proof fn lemma_eddsa_push(before: Seq<u8>, pk: Seq<u8>, sig: Seq<u8>, msg: Seq<u8>, seed: Seq<u8>, i: nat)
    requires
        eddsa_payload_laid_out(before, seed, i),
        eddsa_records_verify(before, i),
        pk == ed25519_public_key(eddsa_secret(seed)),
        pk.len() == 32,
        ed25519_key_valid(pk),
        msg == eddsa_message(seed, i),
        msg.len() == 32,
        sig == ed25519_signature(eddsa_secret(seed), msg),
        sig.len() == 64,
        ed25519_verifies(pk, msg, sig),
    ensures
        eddsa_payload_laid_out(before + (pk + sig + msg), seed, i + 1),
        eddsa_records_verify(before + (pk + sig + msg), i + 1),
{
    let rec = pk + sig + msg;
    let after = before + rec;
    let secret = eddsa_secret(seed);
    assert(rec.subrange(0, 32) =~= pk);
    assert(rec.subrange(32, 96) =~= sig);
    assert(rec.subrange(96, 128) =~= msg);
    lemma_record_of_push(before, rec, i, 128);
    vstd::arithmetic::mul::lemma_mul_is_distributive_add_other_way(128, i as int, 1);
    assert forall|j: int| 0 <= j < i + 1 implies {
        let r = #[trigger] eddsa_record(after, j);
        &&& r.subrange(0, 32) == ed25519_public_key(secret)
        &&& r.subrange(32, 96) == ed25519_signature(secret, eddsa_message(seed, j as nat))
        &&& r.subrange(96, 128) == eddsa_message(seed, j as nat)
    } by {
        if j < i {
            assert(record(after, j, 128) == record(before, j, 128));
            assert(eddsa_record(before, j) == record(before, j, 128));
        }
    }
    assert forall|j: int| 0 <= j < i + 1 implies #[trigger] eddsa_verified(after, j) by {
        if j < i {
            assert(record(after, j, 128) == record(before, j, 128));
            assert(eddsa_verified(before, j));
        }
    }
}

/// The seed: the SHA-256 digest of the label.
fn make_seed() -> (seed: [u8; 32])
    ensures
        seed@ == bench_seed(),
{
    let label: &str = "bench-seed";
    sha256(label.as_bytes())
}

/// `a + b`, freshly allocated.
fn concat(a: &[u8], b: &[u8]) -> (c: Vec<u8>)
    ensures
        c@ == a@ + b@,
{
    let mut c: Vec<u8> = Vec::new();
    append(&mut c, a);
    append(&mut c, b);
    c
}

/// Builds the test vectors: the seed (SHA-256 of a fixed label), `n_max`
/// ECDSA records under a key drawn from a generator seeded with it, and
/// `n_max` Ed25519 records under a key whose secret is hashed from it.
pub fn prepare_payloads(n_max: usize) -> (p: Payloads)
    requires
        n_max * 129 <= usize::MAX,
    ensures
        prepared(p, n_max as nat),
{
    let seed = make_seed();

    let mut ecdsa: Vec<u8> = Vec::with_capacity(n_max * 129);
    let key = ecdsa_signing_key_from_seed(&seed);
    let pk = ecdsa_public_key_sec1(&key);
    let mut i: usize = 0;
    while i < n_max
        invariant
            i <= n_max,
            n_max * 129 <= usize::MAX,
            key.seed() == seed@,
            pk@ == ecdsa_public_key(seed@),
            pk@.len() == 33,
            pk@[0] == 2 || pk@[0] == 3,
            ecdsa_key_valid(pk@),
            ecdsa_payload_laid_out(ecdsa@, seed@, i as nat),
            ecdsa_records_verify(ecdsa@, i as nat),
        decreases n_max - i,
    {
        let counter = usize_to_le_bytes(i);
        let seeded = concat(&seed, &counter);
        let msg = sha256(&seeded);
        assert(msg@.len() == 32);
        let sig = ecdsa_sign(&key, &msg);
        let ghost before = ecdsa@;
        append(&mut ecdsa, &pk);
        append(&mut ecdsa, &sig);
        append(&mut ecdsa, &msg);
        proof {
            assert(msg@ == ecdsa_message(seed@, i as nat));
            assert(ecdsa@ =~= before + (pk@ + sig@ + msg@));
            lemma_ecdsa_push(before, pk@, sig@, msg@, seed@, i as nat);
        }
        i = i + 1;
    }

    let mut eddsa: Vec<u8> = Vec::with_capacity(n_max * 128);
    let eddsa_label: &str = "eddsa";
    let seeded_secret = concat(&seed, eddsa_label.as_bytes());
    let sk_bytes = sha256(&seeded_secret);
    let sk = ed25519_signing_key(&sk_bytes);
    let vk = ed25519_verifying_key(&sk);
    let ed_pk = ed25519_key_to_bytes(&vk);
    let mut i: usize = 0;
    while i < n_max
        invariant
            i <= n_max,
            n_max * 129 <= usize::MAX,
            sk.secret() == eddsa_secret(seed@),
            ed_pk@ == ed25519_public_key(eddsa_secret(seed@)),
            ed25519_key_valid(ed_pk@),
            eddsa_payload_laid_out(eddsa@, seed@, i as nat),
            eddsa_records_verify(eddsa@, i as nat),
        decreases n_max - i,
    {
        let tag: &str = "-ed-";
        let prefix = concat(&seed, tag.as_bytes());
        let counter = usize_to_le_bytes(i);
        let seeded = concat(&prefix, &counter);
        let msg = sha256(&seeded);
        let signature = ed25519_sign(&sk, &msg);
        let sig = ed25519_signature_to_bytes(&signature);
        let ghost before = eddsa@;
        append(&mut eddsa, &ed_pk);
        append(&mut eddsa, &sig);
        append(&mut eddsa, &msg);
        proof {
            assert(prefix@ == seed@ + "-ed-".spec_bytes());
            assert(seeded@ == seed@ + "-ed-".spec_bytes() + usize_le_bytes(i as nat));
            assert(msg@ == eddsa_message(seed@, i as nat));
            assert(eddsa@ =~= before + (ed_pk@ + sig@ + msg@));
            lemma_eddsa_push(before, ed_pk@, sig@, msg@, seed@, i as nat);
        }
        i = i + 1;
    }

    Payloads { seed, ecdsa, eddsa }
}

/// The payload a benchmark cell hands the guest: the seed for the hash
/// workloads, and the first `n` records for the signature workloads.
pub fn payload_for<'a>(prim: Primitive, n: usize, p: &'a Payloads) -> (r: &'a [u8])
    requires
        prim == Primitive::Ecdsa ==> n * 129 <= p.ecdsa@.len(),
        prim == Primitive::Eddsa ==> n * 128 <= p.eddsa@.len(),
    ensures
        match prim {
            Primitive::Keccak | Primitive::Sha256 => r@ == p.seed@,
            Primitive::Ecdsa => r@ == p.ecdsa@.take(n * 129),
            Primitive::Eddsa => r@ == p.eddsa@.take(n * 128),
        },
{
    match prim {
        Primitive::Keccak | Primitive::Sha256 => {
            let s: &[u8] = p.seed.as_slice();
            s
        },
        Primitive::Ecdsa => {
            let s = p.ecdsa.as_slice();
            let len = s.len();
            assert(n * 129 <= len);
            let r = &s[0..n * 129];
            assert(r@ =~= p.ecdsa@.take(n * 129));
            r
        },
        Primitive::Eddsa => {
            let s = p.eddsa.as_slice();
            let len = s.len();
            assert(n * 128 <= len);
            let r = &s[0..n * 128];
            assert(r@ =~= p.eddsa@.take(n * 128));
            r
        },
    }
}

// ---------------------------------------------------------------------------
// Laws of the test vectors
// ---------------------------------------------------------------------------

proof fn lemma_ecdsa_count_all(payload: Seq<u8>, k: nat)
    requires
        forall|i: int| 0 <= i < k ==> #[trigger] ecdsa_outcome(payload, i) == EcdsaCheck::Checked(true),
    ensures
        ecdsa_verified_count(payload, k) == k,
    decreases k,
{
    if k > 0 {
        assert(ecdsa_outcome(payload, k - 1) == EcdsaCheck::Checked(true));
        lemma_ecdsa_count_all(payload, (k - 1) as nat);
    }
}

proof fn lemma_eddsa_count_all(payload: Seq<u8>, k: nat)
    requires
        forall|i: int| 0 <= i < k ==> #[trigger] eddsa_verified(payload, i),
    ensures
        eddsa_verified_count(payload, k) == k,
    decreases k,
{
    if k > 0 {
        assert(eddsa_verified(payload, k - 1));
        lemma_eddsa_count_all(payload, (k - 1) as nat);
    }
}

/// Every prepared record verifies: a cell of size `n <= n_max` hands the
/// guest `n` records of each kind, all of which decode and verify, so the
/// guest counts `n`.
pub proof fn lemma_prepared_cells_verify(p: Payloads, n_max: nat, n: nat)
    requires
        prepared(p, n_max),
        n <= n_max,
    ensures
        ecdsa_verified_count(p.ecdsa@.take(n as int * 129), n) == n,
        eddsa_verified_count(p.eddsa@.take(n as int * 128), n) == n,
        forall|i: int| 0 <= i < n ==> #[trigger] ecdsa_outcome(p.ecdsa@.take(n as int * 129), i) is Checked,
        forall|i: int| 0 <= i < n ==> #[trigger] eddsa_key_ok(p.eddsa@.take(n as int * 128), i),
{
    vstd::arithmetic::mul::lemma_mul_inequality(n as int, n_max as int, 129);
    vstd::arithmetic::mul::lemma_mul_inequality(n as int, n_max as int, 128);
    lemma_records_prefix(p.ecdsa@, n);
    lemma_records_prefix(p.eddsa@, n);
    lemma_ecdsa_count_all(p.ecdsa@, n);
    lemma_eddsa_count_all(p.eddsa@, n);
    assert forall|i: int| 0 <= i < n implies #[trigger] ecdsa_outcome(p.ecdsa@.take(n as int * 129), i) is Checked by {
        assert(ecdsa_outcome(p.ecdsa@, i) == EcdsaCheck::Checked(true));
    }
    assert forall|i: int| 0 <= i < n implies #[trigger] eddsa_key_ok(p.eddsa@.take(n as int * 128), i) by {
        assert(eddsa_record(p.eddsa@.take(n as int * 128), i) == eddsa_record(p.eddsa@, i));
        assert(eddsa_verified(p.eddsa@, i));
    }
}

/// What the guest checks in a cell of size `n` is what the host signed:
/// record `i` of the ECDSA payload handed to the cell is checked against the
/// seeded key, its own signature and its own digest.
pub proof fn lemma_guest_checks_prepared_ecdsa(payload: Seq<u8>, seed: Seq<u8>, n_max: nat, n: nat, i: int)
    requires
        ecdsa_payload_laid_out(payload, seed, n_max),
        n <= n_max,
        0 <= i < n,
    ensures
        ({
            let msg = ecdsa_message(seed, i as nat);
            ecdsa_outcome(payload.take(n as int * 129), i) == ecdsa_check_spec(
                ecdsa_public_key(seed),
                ecdsa_signature(seed, msg),
                msg,
            )
        }),
{
    vstd::arithmetic::mul::lemma_mul_inequality(n as int, n_max as int, 129);
    lemma_records_prefix(payload, n);
    assert(ecdsa_outcome(payload.take(n as int * 129), i) == ecdsa_outcome(payload, i));
    let r = ecdsa_record(payload, i);
    assert(r.subrange(0, 33) == ecdsa_public_key(seed));
}

/// The Ed25519 counterpart: record `i` of the payload handed to a cell of
/// size `n` counts exactly when the derived key decodes and accepts its
/// signature over its message.
pub proof fn lemma_guest_checks_prepared_eddsa(payload: Seq<u8>, seed: Seq<u8>, n_max: nat, n: nat, i: int)
    requires
        eddsa_payload_laid_out(payload, seed, n_max),
        n <= n_max,
        0 <= i < n,
    ensures
        ({
            let secret = eddsa_secret(seed);
            let msg = eddsa_message(seed, i as nat);
            let pk = ed25519_public_key(secret);
            &&& eddsa_key_ok(payload.take(n as int * 128), i) == ed25519_key_valid(pk)
            &&& eddsa_verified(payload.take(n as int * 128), i) == (ed25519_key_valid(pk) && ed25519_verifies(
                pk,
                msg,
                ed25519_signature(secret, msg),
            ))
        }),
{
    vstd::arithmetic::mul::lemma_mul_inequality(n as int, n_max as int, 128);
    lemma_records_prefix(payload, n);
    assert(eddsa_record(payload.take(n as int * 128), i) == eddsa_record(payload, i));
    let r = eddsa_record(payload, i);
    assert(r.subrange(0, 32) == ed25519_public_key(eddsa_secret(seed)));
}

proof fn lemma_laid_out_prefix(p: Seq<u8>, q: Seq<u8>, n: nat, m: nat, w: int)
    requires
        w == 128 || w == 129,
        p.len() == n * w,
        q.len() == m * w,
        n <= m,
        forall|i: int| 0 <= i < n ==> #[trigger] record(p, i, w) == record(q, i, w),
    ensures
        p == q.take(n * w),
{
    vstd::arithmetic::mul::lemma_mul_inequality(n as int, m as int, w);
    assert forall|j: int| 0 <= j < n * w implies #[trigger] p[j] == q[j] by {
        lemma_split_index(j, w, n as int);
        let i = j / w;
        let k = j % w;
        crate::records::lemma_record_in_bounds(i, n as int, w);
        assert(record(p, i, w)[k] == p[j]);
        assert(record(q, i, w)[k] == q[j]);
    }
    assert(p =~= q.take(n * w));
}

/// The test vectors depend on the seed and the record index alone: the
/// payloads prepared for `m` records are the first `m` records of those
/// prepared for any `n >= m`, with the same seed; for `m == n` two
/// preparations are equal.
pub proof fn lemma_prepared_prefix(a: Payloads, b: Payloads, m: nat, n: nat)
    requires
        prepared(a, m),
        prepared(b, n),
        m <= n,
    ensures
        a.seed@ == b.seed@,
        a.ecdsa@ == b.ecdsa@.take(m as int * 129),
        a.eddsa@ == b.eddsa@.take(m as int * 128),
        m == n ==> a.seed@ == b.seed@ && a.ecdsa@ == b.ecdsa@ && a.eddsa@ == b.eddsa@,
{
    let seed = a.seed@;
    assert forall|i: int| 0 <= i < m implies #[trigger] record(a.ecdsa@, i, 129) == record(b.ecdsa@, i, 129) by {
        let r = ecdsa_record(a.ecdsa@, i);
        let t = ecdsa_record(b.ecdsa@, i);
        crate::records::lemma_record_in_bounds(i, m as int, 129);
        crate::records::lemma_record_in_bounds(i, n as int, 129);
        assert(r =~= r.subrange(0, 33) + r.subrange(33, 97) + r.subrange(97, 129));
        assert(t =~= t.subrange(0, 33) + t.subrange(33, 97) + t.subrange(97, 129));
    }
    lemma_laid_out_prefix(a.ecdsa@, b.ecdsa@, m, n, 129);
    assert forall|i: int| 0 <= i < m implies #[trigger] record(a.eddsa@, i, 128) == record(b.eddsa@, i, 128) by {
        let r = eddsa_record(a.eddsa@, i);
        let t = eddsa_record(b.eddsa@, i);
        crate::records::lemma_record_in_bounds(i, m as int, 128);
        crate::records::lemma_record_in_bounds(i, n as int, 128);
        assert(r =~= r.subrange(0, 32) + r.subrange(32, 96) + r.subrange(96, 128));
        assert(t =~= t.subrange(0, 32) + t.subrange(32, 96) + t.subrange(96, 128));
    }
    lemma_laid_out_prefix(a.eddsa@, b.eddsa@, m, n, 128);
    if m == n {
        assert(b.ecdsa@.take(m as int * 129) =~= b.ecdsa@);
        assert(b.eddsa@.take(m as int * 128) =~= b.eddsa@);
    }
}

} // verus!
