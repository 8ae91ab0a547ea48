//! ECDSA over secp256k1, through k256: decoding and verifying records, and
//! the host's seeded key and signatures. Messages are 32-byte digests, used
//! as the prehash as they are (no further hashing).

use k256::ecdsa::signature::hazmat::{PrehashSigner, PrehashVerifier};
use rand::{rngs::StdRng, SeedableRng};
use vstd::prelude::*;

verus! {

/// Whether `k256::ecdsa::VerifyingKey::from_sec1_bytes` accepts these bytes
/// (a SEC1 encoding of a point of the curve other than the identity).
pub uninterp spec fn ecdsa_key_valid(sec1: Seq<u8>) -> bool;

/// Whether the key decoded from `sec1` accepts the signature decoded from
/// `sig` over the 32-byte digest `digest`, taken as the prehash itself
/// (`PrehashVerifier::verify_prehash` returns `Ok`; high-S signatures are
/// refused).
pub uninterp spec fn ecdsa_verifies(sec1: Seq<u8>, digest: Seq<u8>, sig: Seq<u8>) -> bool;

/// The compressed SEC1 encoding of the public key of the signing key that
/// `k256::ecdsa::SigningKey::random` draws from a `rand::rngs::StdRng` seeded
/// with `seed`.
pub uninterp spec fn ecdsa_public_key(seed: Seq<u8>) -> Seq<u8>;

/// The fixed-size `r || s` signature (RFC 6979 nonce, low-S) that the
/// signing key drawn from `seed` makes over `digest`, taken as the prehash.
pub uninterp spec fn ecdsa_signature(seed: Seq<u8>, digest: Seq<u8>) -> Seq<u8>;

/// The order of the secp256k1 group.
pub open spec fn secp256k1_order() -> int {
    0xFFFFFFFFFFFFFFFFFFFFFFFFFFFFFFFEBAAEDCE6AF48A03BBFD25E8CD0364141int
}

/// The big-endian value of a byte string.
pub open spec fn be_value(s: Seq<u8>) -> nat
    decreases s.len(),
{
    if s.len() == 0 {
        0
    } else {
        (be_value(s.drop_last()) * 256 + s.last()) as nat
    }
}

/// Whether `k256::ecdsa::Signature::from_slice` accepts these bytes: 64
/// bytes, `r` (the first 32, big-endian) and `s` (the last 32) both in
/// `1..n` for the group order `n`.
pub open spec fn ecdsa_signature_valid(sig: Seq<u8>) -> bool {
    &&& sig.len() == 64
    &&& 0 < be_value(sig.take(32)) < secp256k1_order()
    &&& 0 < be_value(sig.skip(32)) < secp256k1_order()
}

/// Whether the `s` half of a 64-byte `r || s` signature is "low": at most
/// half the group order. k256 refuses any other signature when verifying,
/// and its signer only makes low-S signatures.
pub open spec fn ecdsa_low_s(sig: Seq<u8>) -> bool {
    be_value(sig.skip(32)) <= secp256k1_order() / 2
}

/// The big-endian bytes of half the group order (rounded down).
pub open spec fn half_order_bytes() -> Seq<u8> {
    seq![
        0x7fu8, 0xffu8, 0xffu8, 0xffu8, 0xffu8, 0xffu8, 0xffu8, 0xffu8, 0xffu8, 0xffu8, 0xffu8, 0xffu8, 0xffu8,
        0xffu8, 0xffu8, 0xffu8, 0x5du8, 0x57u8, 0x6eu8, 0x73u8, 0x57u8, 0xa4u8, 0x50u8, 0x1du8, 0xdfu8, 0xe9u8,
        0x2fu8, 0x46u8, 0x68u8, 0x1bu8, 0x20u8, 0xa0u8,
    ]
}

/// Three-way comparison of two big-endian byte strings of one length, read
/// from the most significant byte: negative, zero or positive.
pub open spec fn be_order(a: Seq<u8>, b: Seq<u8>) -> int
    decreases a.len(),
{
    if a.len() == 0 || b.len() == 0 {
        0
    } else {
        let c = be_order(a.drop_last(), b.drop_last());
        if c != 0 {
            c
        } else if a.last() < b.last() {
            -1
        } else if a.last() > b.last() {
            1
        } else {
            0
        }
    }
}

/// For strings of one length, `be_order` orders them as their values.
pub proof fn lemma_be_order(a: Seq<u8>, b: Seq<u8>)
    requires
        a.len() == b.len(),
    ensures
        (be_order(a, b) < 0) == (be_value(a) < be_value(b)),
        (be_order(a, b) == 0) == (be_value(a) == be_value(b)),
    decreases a.len(),
{
    if a.len() > 0 {
        lemma_be_order(a.drop_last(), b.drop_last());
    }
}

/// Half the group order, as the value of its bytes.
proof fn lemma_half_order_bytes()
    ensures
        half_order_bytes().len() == 32,
        be_value(half_order_bytes()) == secp256k1_order() / 2,
{
    reveal_with_fuel(be_value, 33);
    assert(be_value(half_order_bytes()) == secp256k1_order() / 2);
}

/// Whether the 32 bytes `s` (big-endian) are at most half the group order.
pub fn is_low_s(s: &[u8]) -> (low: bool)
    requires
        s@.len() == 32,
    ensures
        low == (be_value(s@) <= secp256k1_order() / 2),
{
    let h: [u8; 32] = [
        0x7f, 0xff, 0xff, 0xff, 0xff, 0xff, 0xff, 0xff, 0xff, 0xff, 0xff, 0xff, 0xff, 0xff, 0xff, 0xff, 0x5d, 0x57,
        0x6e, 0x73, 0x57, 0xa4, 0x50, 0x1d, 0xdf, 0xe9, 0x2f, 0x46, 0x68, 0x1b, 0x20, 0xa0,
    ];
    proof {
        lemma_half_order_bytes();
        assert(h@ =~= half_order_bytes());
    }
    let mut c: i8 = 0;
    let mut k: usize = 0;
    while k < 32
        invariant
            k <= 32,
            s@.len() == 32,
            h@ == half_order_bytes(),
            c == be_order(s@.take(k as int), h@.take(k as int)),
        decreases 32 - k,
    {
        assert(s@.take(k + 1).drop_last() =~= s@.take(k as int));
        assert(h@.take(k + 1).drop_last() =~= h@.take(k as int));
        if c == 0 {
            if s[k] < h[k] {
                c = -1;
            } else if s[k] > h[k] {
                c = 1;
            }
        }
        k = k + 1;
    }
    proof {
        assert(s@.take(32) =~= s@);
        assert(h@.take(32) =~= h@);
        lemma_be_order(s@, h@);
    }
    c <= 0
}

/// A k256 verifying key, held opaque: its type is generic over a curve whose
/// bounds name traits Verus cannot be told about, so it cannot be declared.
#[verifier::external_body]
pub struct K256VerifyingKey(k256::ecdsa::VerifyingKey);

/// A k256 fixed-size signature, held opaque for the same reason.
#[verifier::external_body]
pub struct K256Signature(k256::ecdsa::Signature);

/// A k256 signing key, held opaque for the same reason.
#[verifier::external_body]
pub struct K256SigningKey(k256::ecdsa::SigningKey);

/// A decoded ECDSA public key together with the bytes it was decoded from.
/// Built only by `ecdsa_key_from_sec1`.
pub struct EcdsaKey {
    inner: K256VerifyingKey,
    encoding: Ghost<Seq<u8>>,
}

/// A decoded ECDSA signature together with the bytes it was decoded from.
/// Built only by `ecdsa_signature_from_slice`.
pub struct EcdsaSignature {
    inner: K256Signature,
    encoding: Ghost<Seq<u8>>,
}

/// An ECDSA signing key together with the seed of the generator it was
/// drawn from. Built only by `ecdsa_signing_key_from_seed`.
pub struct EcdsaSigningKey {
    inner: K256SigningKey,
    seed: Ghost<Seq<u8>>,
}

impl EcdsaKey {
    /// The bytes this key was decoded from.
    pub closed spec fn encoding(&self) -> Seq<u8> {
        self.encoding@
    }
}

impl EcdsaSignature {
    /// The bytes this signature was decoded from.
    pub closed spec fn encoding(&self) -> Seq<u8> {
        self.encoding@
    }
}

impl EcdsaSigningKey {
    /// The seed of the generator this key was drawn from.
    pub closed spec fn seed(&self) -> Seq<u8> {
        self.seed@
    }
}

/// Wraps `k256::ecdsa::VerifyingKey::from_sec1_bytes`. Claimed: it succeeds
/// exactly when the bytes are a valid SEC1 encoding of a point of the curve
/// (a function of the bytes alone), and the key carries the bytes.
#[verifier::external_body]
pub(crate) fn ecdsa_key_from_sec1(bytes: &[u8]) -> (r: Result<EcdsaKey, k256::ecdsa::Error>)
    ensures
        r is Ok <==> ecdsa_key_valid(bytes@),
        r matches Ok(k) ==> k.encoding() == bytes@,
{
    k256::ecdsa::VerifyingKey::from_sec1_bytes(bytes).map(
        |key| EcdsaKey { inner: K256VerifyingKey(key), encoding: Ghost(bytes@) },
    )
}

/// Wraps `k256::ecdsa::Signature::from_slice`. Claimed: it succeeds exactly
/// when the bytes are 64 long with `r` and `s` in `1..n`, and the signature
/// carries the bytes.
#[verifier::external_body]
pub(crate) fn ecdsa_signature_from_slice(bytes: &[u8]) -> (r: Result<EcdsaSignature, k256::ecdsa::Error>)
    ensures
        r is Ok <==> ecdsa_signature_valid(bytes@),
        r matches Ok(s) ==> s.encoding() == bytes@,
{
    k256::ecdsa::Signature::from_slice(bytes).map(
        |sig| EcdsaSignature { inner: K256Signature(sig), encoding: Ghost(bytes@) },
    )
}

/// Wraps `PrehashVerifier::verify_prehash` of `k256::ecdsa::VerifyingKey`:
/// the digest is the prehash as it is, with no hashing, and high-S
/// signatures are refused. Claimed: the result is `Ok` exactly when
/// `ecdsa_verifies` holds of the key's bytes, the digest and the signature's
/// bytes, and only for a low-S signature.
#[verifier::external_body]
pub(crate) fn ecdsa_verify(key: &EcdsaKey, digest: &[u8], sig: &EcdsaSignature) -> (ok: bool)
    ensures
        ok == ecdsa_verifies(key.encoding(), digest@, sig.encoding()),
        ok ==> ecdsa_low_s(sig.encoding()),
{
    key.inner.0.verify_prehash(digest, &sig.inner.0).is_ok()
}

/// Wraps `rand::rngs::StdRng::from_seed` and one draw of
/// `k256::ecdsa::SigningKey::random` from that generator (the generator
/// serves this one draw and nothing else). Claimed: the key carries the seed;
/// what it signs is a function of the seed, as `ecdsa_public_key` and
/// `ecdsa_signature` name it.
#[verifier::external_body]
pub(crate) fn ecdsa_signing_key_from_seed(seed: &[u8; 32]) -> (k: EcdsaSigningKey)
    ensures
        k.seed() == seed@,
{
    let mut rng = StdRng::from_seed(*seed);
    EcdsaSigningKey { inner: K256SigningKey(k256::ecdsa::SigningKey::random(&mut rng)), seed: Ghost(seed@) }
}

/// Wraps `SigningKey::verifying_key` and `VerifyingKey::to_sec1_bytes`.
/// Claimed: the encoding is the key's public key in compressed form
/// (secp256k1 compresses points): 33 bytes, tag 2 or 3, and it decodes.
#[verifier::external_body]
pub(crate) fn ecdsa_public_key_sec1(k: &EcdsaSigningKey) -> (pk: Vec<u8>)
    ensures
        pk@ == ecdsa_public_key(k.seed()),
        pk@.len() == 33,
        pk@[0] == 2 || pk@[0] == 3,
        ecdsa_key_valid(pk@),
{
    k.inner.0.verifying_key().to_sec1_bytes().into_vec()
}

/// Wraps `PrehashSigner::sign_prehash` of `k256::ecdsa::SigningKey` (the
/// 32-byte digest is the prehash as it is; deterministic RFC 6979 nonce,
/// low-S) and `Signature::to_bytes`. Claimed: the 64 bytes are the key's
/// signature over the digest; they decode, are low-S, and the key's own
/// public key accepts them over the digest.
#[verifier::external_body]
pub(crate) fn ecdsa_sign(k: &EcdsaSigningKey, digest: &[u8]) -> (sig: [u8; 64])
    requires
        digest@.len() == 32,
    ensures
        sig@ == ecdsa_signature(k.seed(), digest@),
        ecdsa_signature_valid(sig@),
        ecdsa_low_s(sig@),
        ecdsa_verifies(ecdsa_public_key(k.seed()), digest@, sig@),
{
    let signature: k256::ecdsa::Signature = k.inner.0.sign_prehash(digest).unwrap();
    signature.to_bytes().into()
}

} // verus!
