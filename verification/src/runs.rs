//! Repeated executions of one benchmark cell: the cycle and gas counts are
//! pinned by the first run and must match on every later one; only the
//! wall-clock time varies, and the cell reports its median.

use crate::report::Row;
use vstd::prelude::*;
use vstd::relations::{sorted_by, total_ordering};

verus! {

/// `a <= b` on wall-clock samples.
pub open spec fn ms_leq() -> spec_fn(u128, u128) -> bool {
    |a: u128, b: u128| a <= b
}

/// The median of the samples: the middle element (the upper one for an even
/// count) of the samples in ascending order.
pub open spec fn median_spec(samples: Seq<u128>) -> u128 {
    samples.sort_by(ms_leq())[samples.len() as int / 2]
}

proof fn lemma_ms_leq_total()
    ensures
        total_ordering(ms_leq()),
{
}

/// The samples in ascending order.
pub fn sorted_samples(v: &Vec<u128>) -> (out: Vec<u128>)
    ensures
        sorted_by(out@, ms_leq()),
        out@.to_multiset() == v@.to_multiset(),
        out@ == v@.sort_by(ms_leq()),
{
    broadcast use vstd::seq_lib::group_to_multiset_ensures;

    let mut out: Vec<u128> = Vec::new();
    let mut i: usize = 0;
    while i < v.len()
        invariant
            i <= v@.len(),
            sorted_by(out@, ms_leq()),
            out@.to_multiset() == v@.take(i as int).to_multiset(),
        decreases v@.len() - i,
    {
        let x = v[i];
        let mut pos: usize = 0;
        while pos < out.len() && out[pos] <= x
            invariant
                pos <= out@.len(),
                forall|j: int| 0 <= j < pos ==> out@[j] <= x,
            decreases out@.len() - pos,
        {
            pos = pos + 1;
        }
        let ghost before = out@;
        out.insert(pos, x);
        proof {
            assert(out@ == before.insert(pos as int, x));
            assert forall|a: int, b: int| 0 <= a < b < out@.len() implies #[trigger] (ms_leq())(out@[a], out@[b]) by {
                if b < pos {
                    assert((ms_leq())(before[a], before[b]));
                } else if a < pos && b == pos {
                } else if a < pos && b > pos {
                    assert((ms_leq())(before[a], before[b - 1]));
                } else if a == pos {
                    assert(pos < before.len());
                    assert(!(before[pos as int] <= x));
                    if b - 1 > pos {
                        assert((ms_leq())(before[pos as int], before[b - 1]));
                    }
                } else {
                    assert((ms_leq())(before[a - 1], before[b - 1]));
                }
            }
            assert(v@.take(i + 1) =~= v@.take(i as int).push(x));
            vstd::seq_lib::to_multiset_insert(before, pos as int, x);
            vstd::seq_lib::to_multiset_build(v@.take(i as int), x);
        }
        i = i + 1;
    }
    proof {
        assert(v@.take(v@.len() as int) =~= v@);
        lemma_ms_leq_total();
        v@.lemma_sort_by_ensures(ms_leq());
        vstd::seq_lib::lemma_sorted_unique(out@, v@.sort_by(ms_leq()), ms_leq());
    }
    out
}

/// Why a later run of a cell is refused.
#[derive(PartialEq, Eq, Structural, Clone, Copy, Debug)]
pub enum Drift {
    /// The cycle count differs from the first run's.
    Cycles { pinned: u64, observed: u64 },
    /// The prover gas differs from the first run's.
    Gas { pinned: u64, observed: u64 },
}

/// The accepted runs of one cell.
pub struct RunStats {
    pinned: Option<(u64, u64)>,
    ms_samples: Vec<u128>,
    runs: Ghost<Seq<(u64, u64, u128)>>,
}

/// Whether every run agrees with the first on cycles and gas.
pub open spec fn runs_agree(runs: Seq<(u64, u64, u128)>) -> bool {
    forall|i: int| 0 <= i < runs.len() ==> (#[trigger] runs[i]).0 == runs[0].0 && runs[i].1 == runs[0].1
}

impl View for RunStats {
    type V = Seq<(u64, u64, u128)>;

    /// The accepted runs, in order: cycles, prover gas, wall-clock ms.
    closed spec fn view(&self) -> Seq<(u64, u64, u128)> {
        self.runs@
    }
}

impl RunStats {
    /// The internal invariant: the pinned counts are those of the first run,
    /// the samples are the runs' times, and every run agrees with the first.
    pub closed spec fn wf(&self) -> bool {
        &&& self.ms_samples@.len() == self.runs@.len()
        &&& forall|i: int| 0 <= i < self.runs@.len() ==> self.ms_samples@[i] == (#[trigger] self.runs@[i]).2
        &&& (self.pinned is None <==> self.runs@.len() == 0)
        &&& self.pinned matches Some((c, g)) ==> c == self.runs@[0].0 && g == self.runs@[0].1
        &&& runs_agree(self.runs@)
    }

    /// The wall-clock samples of the accepted runs.
    pub open spec fn samples(&self) -> Seq<u128> {
        self@.map_values(|r: (u64, u64, u128)| r.2)
    }

    /// No runs yet.
    pub fn new() -> (s: Self)
        ensures
            s.wf(),
            s@ == Seq::<(u64, u64, u128)>::empty(),
    {
        RunStats { pinned: None, ms_samples: Vec::new(), runs: Ghost(Seq::empty()) }
    }

    /// Records one run. The first run pins cycles and gas; a later run is
    /// accepted only with the same cycles and then the same gas, and is
    /// otherwise refused with the first count that differs.
    pub fn record(&mut self, cycles: u64, gas: u64, ms: u128) -> (r: Result<(), Drift>)
        requires
            old(self).wf(),
        ensures
            final(self).wf(),
            old(self)@.len() == 0 ==> r is Ok,
            old(self)@.len() > 0 ==> {
                let (c, g, _) = old(self)@[0];
                &&& c != cycles ==> r == Err::<(), Drift>(Drift::Cycles { pinned: c, observed: cycles })
                &&& c == cycles && g != gas ==> r == Err::<(), Drift>(Drift::Gas { pinned: g, observed: gas })
                &&& c == cycles && g == gas ==> r is Ok
            },
            r is Ok ==> final(self)@ == old(self)@.push((cycles, gas, ms)),
            r is Err ==> final(self)@ == old(self)@,
    {
        match self.pinned {
            None => {
                self.pinned = Some((cycles, gas));
            },
            Some((c, g)) => {
                if c != cycles {
                    return Err(Drift::Cycles { pinned: c, observed: cycles });
                }
                if g != gas {
                    return Err(Drift::Gas { pinned: g, observed: gas });
                }
            },
        }
        self.ms_samples.push(ms);
        self.runs = Ghost(self.runs@.push((cycles, gas, ms)));
        Ok(())
    }

    /// Number of accepted runs.
    pub fn len(&self) -> (n: usize)
        requires
            self.wf(),
        ensures
            n == self@.len(),
    {
        self.ms_samples.len()
    }

    /// The median wall-clock time of the accepted runs.
    pub fn median_ms(&self) -> (m: u128)
        requires
            self.wf(),
            self@.len() > 0,
        ensures
            m == median_spec(self.samples()),
    {
        assert(self.ms_samples@ =~= self.samples());
        let sorted = sorted_samples(&self.ms_samples);
        let mid = sorted.len() / 2;
        proof {
            self.ms_samples@.lemma_sort_by_ensures(ms_leq());
            assert(sorted@.len() == self.ms_samples@.len()) by {
                vstd::seq_lib::to_multiset_len(sorted@);
                vstd::seq_lib::to_multiset_len(self.ms_samples@);
            }
        }
        sorted[mid]
    }

    /// The report row of the cell: the pinned cycles and gas, and the median
    /// wall-clock time.
    pub fn into_row(self, primitive: String, n: u32) -> (row: Row)
        requires
            self.wf(),
            self@.len() > 0,
        ensures
            row.primitive == primitive,
            row.n == n,
            row.cycles == self@[0].0,
            row.prover_gas == self@[0].1,
            row.exec_ms_median == median_spec(self.samples()),
    {
        let m = self.median_ms();
        let (cycles, gas) = match self.pinned {
            Some(p) => p,
            None => (0, 0),
        };
        Row { primitive, n, cycles, prover_gas: gas, exec_ms_median: m }
    }
}

/// The median is one of the samples.
pub proof fn lemma_median_is_a_sample(samples: Seq<u128>)
    requires
        samples.len() > 0,
    ensures
        samples.contains(median_spec(samples)),
{
    broadcast use vstd::seq_lib::group_to_multiset_ensures;

    lemma_ms_leq_total();
    samples.lemma_sort_by_ensures(ms_leq());
    let sorted = samples.sort_by(ms_leq());
    vstd::seq_lib::to_multiset_len(sorted);
    vstd::seq_lib::to_multiset_len(samples);
    assert(sorted.contains(sorted[samples.len() as int / 2]));
}

/// Every run a cell accepted has the cycles and gas of its first run.
pub proof fn lemma_accepted_runs_agree(s: RunStats, i: int)
    requires
        s.wf(),
        0 <= i < s@.len(),
    ensures
        s@[i].0 == s@[0].0,
        s@[i].1 == s@[0].1,
{
}

/// The largest of the repetition counts, or 1 when there are none: how many
/// records each signature payload holds.
pub fn max_count(ns: &Vec<u32>) -> (m: u32)
    ensures
        ns@.len() == 0 ==> m == 1,
        ns@.len() > 0 ==> ns@.contains(m) && forall|i: int| 0 <= i < ns@.len() ==> ns@[i] <= m,
{
    if ns.len() == 0 {
        return 1;
    }
    let mut m = ns[0];
    let mut i: usize = 1;
    while i < ns.len()
        invariant
            1 <= i <= ns@.len(),
            ns@.contains(m),
            forall|j: int| 0 <= j < i ==> ns@[j] <= m,
        decreases ns@.len() - i,
    {
        if ns[i] > m {
            m = ns[i];
        }
        i = i + 1;
    }
    m
}

} // verus!
