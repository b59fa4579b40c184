//! Which metric families are computed and published.
use vstd::prelude::*;

verus! {

/// One published metric family.
#[derive(Debug, Clone, Copy, PartialEq, Eq, Structural)]
pub enum Dimension {
    JobCpus,
    JobCount,
    JobNodes,
    JobTasks,
    Partitions,
}

/// Five independent switches, one per metric family, set once at startup.
#[derive(Debug, Clone, Copy, PartialEq, Eq, Structural)]
pub struct MetricSelection {
    pub job_cpus: bool,
    pub job_count: bool,
    pub job_nodes: bool,
    pub job_tasks: bool,
    pub partitions: bool,
}

impl MetricSelection {
    pub open spec fn enabled(&self, d: Dimension) -> bool {
        match d {
            Dimension::JobCpus => self.job_cpus,
            Dimension::JobCount => self.job_count,
            Dimension::JobNodes => self.job_nodes,
            Dimension::JobTasks => self.job_tasks,
            Dimension::Partitions => self.partitions,
        }
    }

    /// Whether the family `d` is computed and published.
    pub fn is_enabled(&self, d: Dimension) -> (r: bool)
        ensures
            r == self.enabled(d),
    {
        match d {
            Dimension::JobCpus => self.job_cpus,
            Dimension::JobCount => self.job_count,
            Dimension::JobNodes => self.job_nodes,
            Dimension::JobTasks => self.job_tasks,
            Dimension::Partitions => self.partitions,
        }
    }

    /// The enabled families, each once.
    pub fn selected_families(&self) -> (r: Vec<Dimension>)
        ensures
            forall|d: Dimension| r@.contains(d) <==> self.enabled(d),
            r@.no_duplicates(),
    {
        let mut out: Vec<Dimension> = Vec::new();
        let mut i: usize = 0;
        while i < 5
            invariant
                i <= 5,
                forall|d: Dimension| out@.contains(d) <==> (self.enabled(d) && rank(d) < i),
                forall|j: int| 0 <= j < out@.len() ==> rank(#[trigger] out@[j]) < i,
                forall|j: int, k: int|
                    0 <= j < k < out@.len() ==> rank(#[trigger] out@[j]) < rank(#[trigger] out@[k]),
            decreases 5 - i,
        {
            let d = dimension_of_rank(i);
            let ghost old_out = out@;
            if self.is_enabled(d) {
                out.push(d);
                assert(out@[out@.len() - 1] == d);
            }
            proof {
                assert forall|e: Dimension|
                    out@.contains(e) <==> (self.enabled(e) && rank(e) < i + 1) by {
                    if out@.contains(e) {
                        let j = choose|j: int| 0 <= j < out@.len() && out@[j] == e;
                        if j < old_out.len() {
                            assert(old_out[j] == e);
                        }
                    }
                    if self.enabled(e) && rank(e) < i + 1 {
                        if rank(e) < i {
                            let j = choose|j: int| 0 <= j < old_out.len() && old_out[j] == e;
                            assert(out@[j] == e);
                        } else {
                            assert(e == d);
                            assert(out@[out@.len() - 1] == e);
                        }
                    }
                }
            }
            i = i + 1;
        }
        assert forall|j: int, k: int| 0 <= j < out@.len() && 0 <= k < out@.len() && j != k implies
            out@[j] != out@[k] by {
            if j < k {
                assert(rank(out@[j]) < rank(out@[k]));
            } else {
                assert(rank(out@[k]) < rank(out@[j]));
            }
        }
        out
    }
}

/// The place of each family in the order in which they are registered.
pub open spec fn rank(d: Dimension) -> int {
    match d {
        Dimension::JobNodes => 0,
        Dimension::JobTasks => 1,
        Dimension::JobCpus => 2,
        Dimension::JobCount => 3,
        Dimension::Partitions => 4,
    }
}

fn dimension_of_rank(i: usize) -> (d: Dimension)
    requires
        i < 5,
    ensures
        rank(d) == i,
{
    match i {
        0 => Dimension::JobNodes,
        1 => Dimension::JobTasks,
        2 => Dimension::JobCpus,
        3 => Dimension::JobCount,
        _ => Dimension::Partitions,
    }
}

} // verus!
