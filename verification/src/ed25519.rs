//! Ed25519 through ed25519-dalek: decoding and verifying records, and the
//! host's key and signatures.

use ed25519_dalek::{Signer, Verifier};
use vstd::prelude::*;

verus! {

#[verifier::external_type_specification]
#[verifier::external_body]
pub struct ExSignatureError(ed25519_dalek::SignatureError);

#[verifier::external_type_specification]
#[verifier::external_body]
pub struct ExEdVerifyingKey(ed25519_dalek::VerifyingKey);

#[verifier::external_type_specification]
#[verifier::external_body]
pub struct ExEdSignature(ed25519_dalek::Signature);

#[verifier::external_type_specification]
#[verifier::external_body]
pub struct ExEdSigningKey(ed25519_dalek::SigningKey);

/// Whether `ed25519_dalek::VerifyingKey::from_bytes` accepts these 32 bytes.
pub uninterp spec fn ed25519_key_valid(key: Seq<u8>) -> bool;

/// Whether the key decoded from `key` accepts the signature `sig` over `msg`
/// (`Verifier::verify`, which hashes with SHA-512, returns `Ok`).
pub uninterp spec fn ed25519_verifies(key: Seq<u8>, msg: Seq<u8>, sig: Seq<u8>) -> bool;

/// The 32-byte public key of the Ed25519 signing key with this secret.
pub uninterp spec fn ed25519_public_key(secret: Seq<u8>) -> Seq<u8>;

/// The 64-byte Ed25519 signature that the signing key with this secret makes
/// over `msg`.
pub uninterp spec fn ed25519_signature(secret: Seq<u8>, msg: Seq<u8>) -> Seq<u8>;

/// A decoded Ed25519 public key together with its 32-byte encoding. Built
/// only by `ed25519_key_from_bytes` and `ed25519_verifying_key`.
pub struct EdKey {
    inner: ed25519_dalek::VerifyingKey,
    encoding: Ghost<Seq<u8>>,
}

/// An Ed25519 signature together with its 64-byte encoding. Built only by
/// `ed25519_signature_from_bytes` and `ed25519_sign`.
pub struct EdSignature {
    inner: ed25519_dalek::Signature,
    encoding: Ghost<Seq<u8>>,
}

/// An Ed25519 signing key together with the secret it was made from. Built
/// only by `ed25519_signing_key`.
pub struct EdSigningKey {
    inner: ed25519_dalek::SigningKey,
    secret: Ghost<Seq<u8>>,
}

impl EdKey {
    /// The encoding of this key.
    pub closed spec fn encoding(&self) -> Seq<u8> {
        self.encoding@
    }
}

impl EdSignature {
    /// The encoding of this signature.
    pub closed spec fn encoding(&self) -> Seq<u8> {
        self.encoding@
    }
}

impl EdSigningKey {
    /// The secret this key was made from.
    pub closed spec fn secret(&self) -> Seq<u8> {
        self.secret@
    }
}

/// Wraps `ed25519_dalek::VerifyingKey::from_bytes`. Claimed: it succeeds
/// exactly when the bytes decode to a point (a function of the bytes alone),
/// and the key carries the bytes it came from.
#[verifier::external_body]
pub(crate) fn ed25519_key_from_bytes(bytes: &[u8; 32]) -> (r: Result<EdKey, ed25519_dalek::SignatureError>)
    ensures
        r is Ok <==> ed25519_key_valid(bytes@),
        r matches Ok(k) ==> k.encoding() == bytes@,
{
    ed25519_dalek::VerifyingKey::from_bytes(bytes).map(|inner| EdKey { inner, encoding: Ghost(bytes@) })
}

/// Wraps `ed25519_dalek::Signature::from_bytes`, which only splits the 64
/// bytes into `R` and `s` and cannot fail. Claimed: the signature carries the
/// bytes it was read from.
#[verifier::external_body]
pub(crate) fn ed25519_signature_from_bytes(bytes: &[u8; 64]) -> (s: EdSignature)
    ensures
        s.encoding() == bytes@,
{
    EdSignature { inner: ed25519_dalek::Signature::from_bytes(bytes), encoding: Ghost(bytes@) }
}

/// Wraps `Verifier::verify` of `ed25519_dalek::VerifyingKey`. Claimed: the
/// result is `Ok` exactly when `ed25519_verifies` holds of the key's bytes,
/// the message and the signature's bytes.
#[verifier::external_body]
pub(crate) fn ed25519_verify(key: &EdKey, msg: &[u8], sig: &EdSignature) -> (ok: bool)
    ensures
        ok == ed25519_verifies(key.encoding(), msg@, sig.encoding()),
{
    key.inner.verify(msg, &sig.inner).is_ok()
}

/// Wraps `ed25519_dalek::SigningKey::from_bytes`, which accepts any 32 bytes.
/// Claimed: the key carries the secret it was made from.
#[verifier::external_body]
pub(crate) fn ed25519_signing_key(secret: &[u8; 32]) -> (k: EdSigningKey)
    ensures
        k.secret() == secret@,
{
    EdSigningKey { inner: ed25519_dalek::SigningKey::from_bytes(secret), secret: Ghost(secret@) }
}

/// Wraps `ed25519_dalek::SigningKey::verifying_key`. Claimed: the key's
/// encoding is the public key of the secret, the compression of a point, so
/// it decodes.
#[verifier::external_body]
pub(crate) fn ed25519_verifying_key(k: &EdSigningKey) -> (v: EdKey)
    ensures
        v.encoding() == ed25519_public_key(k.secret()),
        ed25519_key_valid(v.encoding()),
{
    EdKey { inner: k.inner.verifying_key(), encoding: Ghost(ed25519_public_key(k.secret())) }
}

/// Wraps `ed25519_dalek::VerifyingKey::to_bytes`, which returns the
/// compressed point the key holds. Claimed: those are the key's encoding.
#[verifier::external_body]
pub(crate) fn ed25519_key_to_bytes(v: &EdKey) -> (b: [u8; 32])
    ensures
        b@ == v.encoding(),
{
    v.inner.to_bytes()
}

/// Wraps `Signer::sign` of `ed25519_dalek::SigningKey` (deterministic
/// Ed25519). Claimed: the signature's encoding is the signature of the
/// secret over the message, and the secret's public key accepts it.
#[verifier::external_body]
pub(crate) fn ed25519_sign(k: &EdSigningKey, msg: &[u8]) -> (s: EdSignature)
    ensures
        s.encoding() == ed25519_signature(k.secret(), msg@),
        ed25519_verifies(ed25519_public_key(k.secret()), msg@, s.encoding()),
{
    EdSignature { inner: k.inner.sign(msg), encoding: Ghost(ed25519_signature(k.secret(), msg@)) }
}

/// Wraps `ed25519_dalek::Signature::to_bytes` (`R || s`). Claimed: those are
/// the signature's encoding.
#[verifier::external_body]
pub(crate) fn ed25519_signature_to_bytes(s: &EdSignature) -> (b: [u8; 64])
    ensures
        b@ == s.encoding(),
{
    s.inner.to_bytes()
}

} // verus!
