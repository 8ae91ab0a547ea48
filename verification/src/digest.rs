//! Hash chains over a 32-byte buffer: the Keccak-256 and SHA-256 workloads.

use sha2::{Digest, Sha256};
use tiny_keccak::{Hasher, Keccak};
use vstd::prelude::*;

verus! {

/// The Keccak-256 digest of `data` (Keccak padding, as Ethereum uses it, not SHA3-256).
pub uninterp spec fn keccak256_digest(data: Seq<u8>) -> Seq<u8>;

/// The SHA-256 digest of `data`.
pub uninterp spec fn sha256_digest(data: Seq<u8>) -> Seq<u8>;

/// Wraps `tiny_keccak::Keccak::v256` with one `update` and one `finalize`
/// into a 32-byte buffer. Claimed: the 32 bytes written are the Keccak-256
/// digest of the input, a function of the input alone.
#[verifier::external_body]
pub(crate) fn keccak256(data: &[u8; 32]) -> (out: [u8; 32])
    ensures
        out@ == keccak256_digest(data@),
{
    let mut hasher = Keccak::v256();
    hasher.update(data);
    let mut out = [0u8; 32];
    hasher.finalize(&mut out);
    out
}

/// Wraps `sha2::Sha256::digest` (the `Digest` trait's one-shot function).
/// Claimed: the 32 bytes returned are the SHA-256 digest of the input, a
/// function of the input alone.
#[verifier::external_body]
pub(crate) fn sha256(data: &[u8]) -> (out: [u8; 32])
    ensures
        out@ == sha256_digest(data@),
{
    let digest = Sha256::digest(data);
    let mut out = [0u8; 32];
    out.copy_from_slice(&digest);
    out
}

/// `start` hashed `n` times over with Keccak-256, each digest fed back as the next input.
pub open spec fn keccak_chain(n: nat, start: Seq<u8>) -> Seq<u8>
    decreases n,
{
    if n == 0 {
        start
    } else {
        keccak256_digest(keccak_chain((n - 1) as nat, start))
    }
}

/// `start` hashed `n` times over with SHA-256.
pub open spec fn sha256_chain(n: nat, start: Seq<u8>) -> Seq<u8>
    decreases n,
{
    if n == 0 {
        start
    } else {
        sha256_digest(sha256_chain((n - 1) as nat, start))
    }
}

/// The first 32 bytes of `input`, as a fixed buffer.
fn first_32(input: &[u8]) -> (buf: [u8; 32])
    requires
        input@.len() >= 32,
    ensures
        buf@ == input@.take(32),
{
    let mut buf = [0u8; 32];
    let mut i: usize = 0;
    while i < 32
        invariant
            i <= 32,
            input@.len() >= 32,
            buf@.len() == 32,
            forall|j: int| 0 <= j < i ==> buf@[j] == input@[j],
        decreases 32 - i,
    {
        buf[i] = input[i];
        i = i + 1;
    }
    assert(buf@ =~= input@.take(32));
    buf
}

/// Hashes the first 32 bytes of `input` `n` times with Keccak-256 and returns
/// the final digest (the value the guest program commits).
pub fn run_keccak(n: usize, input: &[u8]) -> (out: [u8; 32])
    requires
        input@.len() >= 32,
    ensures
        out@ == keccak_chain(n as nat, input@.take(32)),
{
    let mut buf = first_32(input);
    let mut k: usize = 0;
    while k < n
        invariant
            k <= n,
            buf@ == keccak_chain(k as nat, input@.take(32)),
        decreases n - k,
    {
        buf = keccak256(&buf);
        k = k + 1;
    }
    buf
}

/// Hashes the first 32 bytes of `input` `n` times with SHA-256 and returns
/// the final digest (the value the guest program commits).
pub fn run_sha256(n: usize, input: &[u8]) -> (out: [u8; 32])
    requires
        input@.len() >= 32,
    ensures
        out@ == sha256_chain(n as nat, input@.take(32)),
{
    let mut buf = first_32(input);
    let mut k: usize = 0;
    while k < n
        invariant
            k <= n,
            buf@ == sha256_chain(k as nat, input@.take(32)),
        decreases n - k,
    {
        buf = sha256(&buf);
        k = k + 1;
    }
    buf
}

/// Chaining composes: hashing `m` times and then `n` more times is hashing
/// `n + m` times, so a guest run of `n + m` rounds commits what a run of `n`
/// rounds commits when started from the digest a run of `m` rounds commits.
pub proof fn lemma_keccak_chain_compose(n: nat, m: nat, start: Seq<u8>)
    ensures
        keccak_chain(n + m, start) == keccak_chain(n, keccak_chain(m, start)),
    decreases n,
{
    if n > 0 {
        lemma_keccak_chain_compose((n - 1) as nat, m, start);
        assert((n + m - 1) as nat == (n - 1) as nat + m);
    }
}

/// Chaining composes for SHA-256 as it does for Keccak-256.
pub proof fn lemma_sha256_chain_compose(n: nat, m: nat, start: Seq<u8>)
    ensures
        sha256_chain(n + m, start) == sha256_chain(n, sha256_chain(m, start)),
    decreases n,
{
    if n > 0 {
        lemma_sha256_chain_compose((n - 1) as nat, m, start);
        assert((n + m - 1) as nat == (n - 1) as nat + m);
    }
}

/// Zero rounds commit the first 32 input bytes unchanged.
pub proof fn lemma_zero_rounds_commit_input(input: Seq<u8>)
    ensures
        keccak_chain(0, input.take(32)) == input.take(32),
        sha256_chain(0, input.take(32)) == input.take(32),
{
}

} // verus!
