//! The guest program: one header naming a workload and a repetition count,
//! one raw payload, and the value the program commits.

use crate::digest::{keccak_chain, run_keccak, run_sha256, sha256_chain};
use crate::signature::{
    ecdsa_outcome, ecdsa_verified_count, eddsa_key_ok, eddsa_verified_count, run_ecdsa, run_eddsa,
    EcdsaCheck, RecordError,
};
use vstd::prelude::*;

verus! {

/// The workload a guest run performs.
#[derive(PartialEq, Eq, Structural, Clone, Copy, Debug)]
pub enum Scenario {
    Keccak,
    Sha256,
    Ecdsa,
    Eddsa,
}

/// The first input chunk of a guest run.
#[derive(PartialEq, Eq, Structural, Clone, Copy, Debug)]
pub struct Header {
    pub scenario: Scenario,
    pub n: u32,
}

/// What a guest run commits: the final digest of a hash chain, or the number
/// of records whose signature verified.
#[derive(Clone, Copy, Debug)]
pub enum Commitment {
    Digest([u8; 32]),
    VerifiedCount(u32),
}

/// Why a guest run stops without committing.
#[derive(PartialEq, Eq, Structural, Clone, Copy, Debug)]
pub enum GuestError {
    /// A hash workload got fewer than 32 input bytes.
    InputTooShort,
    /// A signature workload got fewer bytes than `n` records take.
    PayloadTooShort,
    /// A record's key or signature did not decode.
    Record(RecordError),
}

/// Runs the workload that `header` names on `payload`, `header.n` times over
/// (hash chains) or over the first `header.n` records (signatures), and
/// returns what the program commits.
pub fn run_guest(header: &Header, payload: &[u8]) -> (r: Result<Commitment, GuestError>)
    ensures
        match header.scenario {
            Scenario::Keccak => if payload@.len() < 32 {
                r == Err::<Commitment, GuestError>(GuestError::InputTooShort)
            } else {
                r matches Ok(Commitment::Digest(d)) && d@ == keccak_chain(header.n as nat, payload@.take(32))
            },
            Scenario::Sha256 => if payload@.len() < 32 {
                r == Err::<Commitment, GuestError>(GuestError::InputTooShort)
            } else {
                r matches Ok(Commitment::Digest(d)) && d@ == sha256_chain(header.n as nat, payload@.take(32))
            },
            Scenario::Ecdsa => if payload@.len() < header.n * 129 {
                r == Err::<Commitment, GuestError>(GuestError::PayloadTooShort)
            } else if forall|i: int| 0 <= i < header.n ==> ecdsa_outcome(payload@, i) is Checked {
                r == Ok::<Commitment, GuestError>(Commitment::VerifiedCount(ecdsa_verified_count(payload@, header.n as nat) as u32))
            } else {
                r matches Err(GuestError::Record(e)) && {
                    &&& e.index() < header.n
                    &&& forall|j: int| 0 <= j < e.index() ==> ecdsa_outcome(payload@, j) is Checked
                    &&& (e is PublicKey) == (ecdsa_outcome(payload@, e.index() as int) == EcdsaCheck::KeyRejected)
                    &&& (e is Signature) == (ecdsa_outcome(payload@, e.index() as int) == EcdsaCheck::SignatureRejected)
                }
            },
            Scenario::Eddsa => if payload@.len() < header.n * 128 {
                r == Err::<Commitment, GuestError>(GuestError::PayloadTooShort)
            } else if forall|i: int| 0 <= i < header.n ==> eddsa_key_ok(payload@, i) {
                r == Ok::<Commitment, GuestError>(Commitment::VerifiedCount(eddsa_verified_count(payload@, header.n as nat) as u32))
            } else {
                r matches Err(GuestError::Record(e)) && {
                    &&& e is PublicKey
                    &&& e.index() < header.n
                    &&& forall|j: int| 0 <= j < e.index() ==> eddsa_key_ok(payload@, j)
                    &&& !eddsa_key_ok(payload@, e.index() as int)
                }
            },
        },
{
    let n = header.n as usize;
    let len = payload.len();
    match header.scenario {
        Scenario::Keccak => {
            if len < 32 {
                Err(GuestError::InputTooShort)
            } else {
                Ok(Commitment::Digest(run_keccak(n, payload)))
            }
        },
        Scenario::Sha256 => {
            if len < 32 {
                Err(GuestError::InputTooShort)
            } else {
                Ok(Commitment::Digest(run_sha256(n, payload)))
            }
        },
        Scenario::Ecdsa => {
            if len / 129 < n {
                assert(len < n * 129) by (nonlinear_arith)
                    requires len / 129 < n;
                Err(GuestError::PayloadTooShort)
            } else {
                assert(len >= n * 129) by (nonlinear_arith)
                    requires len / 129 >= n;
                match run_ecdsa(n, payload) {
                    Ok(c) => Ok(Commitment::VerifiedCount(c)),
                    Err(e) => Err(GuestError::Record(e)),
                }
            }
        },
        Scenario::Eddsa => {
            if len / 128 < n {
                assert(len < n * 128) by (nonlinear_arith)
                    requires len / 128 < n;
                Err(GuestError::PayloadTooShort)
            } else {
                assert(len >= n * 128) by (nonlinear_arith)
                    requires len / 128 >= n;
                match run_eddsa(n, payload) {
                    Ok(c) => Ok(Commitment::VerifiedCount(c)),
                    Err(e) => Err(GuestError::Record(e)),
                }
            }
        },
    }
}

} // verus!
