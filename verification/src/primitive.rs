//! The four benchmarked primitives, their report names, and the tag the host
//! writes into a guest header.

use crate::scenario::Scenario;
use vstd::prelude::*;

verus! {

/// A benchmarked primitive.
#[derive(PartialEq, Eq, Structural, Clone, Copy, Debug)]
pub enum Primitive {
    Keccak,
    Sha256,
    Ecdsa,
    Eddsa,
}

impl Primitive {
    /// The name of the primitive in reports.
    pub open spec fn spec_name(self) -> Seq<char> {
        match self {
            Primitive::Keccak => "keccak256"@,
            Primitive::Sha256 => "sha256"@,
            Primitive::Ecdsa => "ecdsa-secp256k1"@,
            Primitive::Eddsa => "eddsa-ed25519"@,
        }
    }

    /// The name of the primitive in reports.
    pub fn name(self) -> (s: &'static str)
        ensures
            s@ == self.spec_name(),
    {
        match self {
            Primitive::Keccak => "keccak256",
            Primitive::Sha256 => "sha256",
            Primitive::Ecdsa => "ecdsa-secp256k1",
            Primitive::Eddsa => "eddsa-ed25519",
        }
    }

    /// The guest workload that benchmarks this primitive.
    pub open spec fn workload(self) -> Scenario {
        match self {
            Primitive::Keccak => Scenario::Keccak,
            Primitive::Sha256 => Scenario::Sha256,
            Primitive::Ecdsa => Scenario::Ecdsa,
            Primitive::Eddsa => Scenario::Eddsa,
        }
    }
}

/// The benchmarked primitives, in the order the host runs and reports them.
pub fn primitives() -> (ps: [Primitive; 4])
    ensures
        ps@ == seq![Primitive::Keccak, Primitive::Sha256, Primitive::Ecdsa, Primitive::Eddsa],
{
    let ps = [Primitive::Keccak, Primitive::Sha256, Primitive::Ecdsa, Primitive::Eddsa];
    assert(ps@ =~= seq![Primitive::Keccak, Primitive::Sha256, Primitive::Ecdsa, Primitive::Eddsa]);
    ps
}

/// The host's copy of the guest's `Scenario`, as written into a header. The
/// header encoding is positional, so the variants must stand in the same
/// order as the guest's.
#[derive(PartialEq, Eq, Structural, Clone, Copy, Debug)]
pub enum ScenarioTag {
    Keccak,
    Sha256,
    Ecdsa,
    Eddsa,
}

/// Position of a tag's variant in its enum.
pub open spec fn tag_position(t: ScenarioTag) -> nat {
    match t {
        ScenarioTag::Keccak => 0,
        ScenarioTag::Sha256 => 1,
        ScenarioTag::Ecdsa => 2,
        ScenarioTag::Eddsa => 3,
    }
}

/// Position of a guest scenario's variant in its enum.
pub open spec fn scenario_position(s: Scenario) -> nat {
    match s {
        Scenario::Keccak => 0,
        Scenario::Sha256 => 1,
        Scenario::Ecdsa => 2,
        Scenario::Eddsa => 3,
    }
}

/// The tag for each primitive.
pub open spec fn tag_of(p: Primitive) -> ScenarioTag {
    match p {
        Primitive::Keccak => ScenarioTag::Keccak,
        Primitive::Sha256 => ScenarioTag::Sha256,
        Primitive::Ecdsa => ScenarioTag::Ecdsa,
        Primitive::Eddsa => ScenarioTag::Eddsa,
    }
}

impl From<Primitive> for ScenarioTag {
    fn from(p: Primitive) -> (t: Self) {
        match p {
            Primitive::Keccak => ScenarioTag::Keccak,
            Primitive::Sha256 => ScenarioTag::Sha256,
            Primitive::Ecdsa => ScenarioTag::Ecdsa,
            Primitive::Eddsa => ScenarioTag::Eddsa,
        }
    }
}

impl vstd::std_specs::convert::FromSpecImpl<Primitive> for ScenarioTag {
    open spec fn obeys_from_spec() -> bool {
        true
    }

    open spec fn from_spec(p: Primitive) -> ScenarioTag {
        tag_of(p)
    }
}

/// The tag the host writes for a primitive decodes, position for position,
/// to the guest scenario that runs that primitive's workload.
pub proof fn lemma_tag_mirrors_workload(p: Primitive)
    ensures
        tag_position(tag_of(p)) == scenario_position(p.workload()),
{
}

/// Distinct primitives get distinct tags, so no two cells of the benchmark
/// run the same guest workload.
pub proof fn lemma_tags_distinct(p: Primitive, q: Primitive)
    requires
        p != q,
    ensures
        tag_of(p) != tag_of(q),
        p.workload() != q.workload(),
{
}

} // verus!
