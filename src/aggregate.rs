//! Folding the lines of one query's output into per-key totals.
use vstd::prelude::*;

use crate::error::CollectError;
use crate::record::{
    job_line, lemma_job_line_nonneg, parse_job_line, parse_partition_line, partition_line, JobView,
};
use crate::selection::{Dimension, MetricSelection};
use crate::text::string_views;
use crate::table::{
    add_to, lemma_tally_append, lemma_tally_permutation, sum_tables, tally, total_at, CountTable,
    GroupKey,
};

verus! {

/// What one job adds to the family `d`: its nodes, tasks or CPUs, or one
/// for the job count.
pub open spec fn job_amount(v: JobView, d: Dimension) -> int {
    match d {
        Dimension::JobNodes => v.nodes as int,
        Dimension::JobTasks => v.tasks as int,
        Dimension::JobCpus => v.cpus as int,
        Dimension::JobCount => 1,
        Dimension::Partitions => 0,
    }
}

/// Where and how much a job line adds to the family `d`.
pub open spec fn job_contribution(d: Dimension) -> spec_fn(Seq<char>) -> Option<(GroupKey, int)> {
    |line: Seq<char>|
        match job_line(line) {
            Some(v) => Some(((v.cluster, v.partition, v.state), job_amount(v, d))),
            None => None,
        }
}

/// Where a partition line adds one host.
pub open spec fn partition_contribution() -> spec_fn(Seq<char>) -> Option<(GroupKey, int)> {
    |line: Seq<char>|
        match partition_line(line) {
            Some(v) => Some(((v.cluster, v.partition, v.state), 1int)),
            None => None,
        }
}

/// The totals of the family `d` over the job lines `lines`.
pub open spec fn job_totals(lines: Seq<Seq<char>>, d: Dimension) -> Map<GroupKey, int> {
    tally(lines, job_contribution(d))
}

/// The number of hosts in each (cluster, partition, state) over the
/// partition lines `lines`.
pub open spec fn partition_totals(lines: Seq<Seq<char>>) -> Map<GroupKey, int> {
    tally(lines, partition_contribution())
}

/// A table that exists exactly when its family is enabled, and then holds
/// the totals `m`.
pub open spec fn holds_totals(t: Option<CountTable>, on: bool, m: Map<GroupKey, int>) -> bool {
    if on {
        t matches Some(x) && x.wf() && x@ == m
    } else {
        t is None
    }
}

/// Every line reads as a job line.
pub open spec fn all_job_lines(lines: Seq<Seq<char>>) -> bool {
    forall|i: int| 0 <= i < lines.len() ==> job_line(#[trigger] lines[i]) is Some
}

/// Every line reads as a partition line.
pub open spec fn all_partition_lines(lines: Seq<Seq<char>>) -> bool {
    forall|i: int| 0 <= i < lines.len() ==> partition_line(#[trigger] lines[i]) is Some
}

/// `e` reports the line `i` of `lines`, the first that does not read.
pub open spec fn reports_first_bad_job_line(e: CollectError, lines: Seq<Seq<char>>) -> bool {
    exists|i: int|
        0 <= i < lines.len() && job_line(#[trigger] lines[i]) is None && all_job_lines(
            lines.take(i),
        ) && (e matches CollectError::MalformedRecord(l) && l@ == lines[i])
}

/// `e` reports the first line of `lines` that does not read as a partition
/// line.
pub open spec fn reports_first_bad_partition_line(e: CollectError, lines: Seq<Seq<char>>) -> bool {
    exists|i: int|
        0 <= i < lines.len() && partition_line(#[trigger] lines[i]) is None
            && all_partition_lines(lines.take(i)) && (e matches CollectError::MalformedRecord(l)
            && l@ == lines[i])
}

/// Every total of `m` lies between zero and `n` times the largest `i64`.
pub open spec fn bounded(m: Map<GroupKey, int>, n: int) -> bool {
    forall|k: GroupKey| #[trigger] m.contains_key(k) ==> 0 <= m[k] <= n * (i64::MAX as int)
}

proof fn lemma_add_bounded(m: Map<GroupKey, int>, k: GroupKey, a: int, n: int)
    requires
        bounded(m, n),
        0 <= a <= i64::MAX,
        0 <= n < usize::MAX,
    ensures
        bounded(add_to(m, k, a), n + 1),
        total_at(m, k) + a <= i128::MAX,
{
    assert((n + 1) * (i64::MAX as int) == n * (i64::MAX as int) + i64::MAX) by (nonlinear_arith);
    assert(0 <= n * (i64::MAX as int)) by (nonlinear_arith)
        requires
            0 <= n,
    ;
    assert((n + 1) * (i64::MAX as int) <= i128::MAX) by (nonlinear_arith)
        requires
            0 <= n < usize::MAX,
    ;
}

/// The per-line step of one job family: adds the job to the family's
/// table, where the family is enabled and so has one.
fn add_job(
    table: &mut Option<CountTable>,
    v: &crate::record::JobRecord,
    amount: i64,
    d: Dimension,
    n: Ghost<int>,
)
    requires
        *old(table) matches Some(t) ==> t.wf() && bounded(t@, n@),
        0 <= n@ < usize::MAX,
        0 <= amount,
        amount == job_amount(v@, d),
    ensures
        (*final(table)) is Some <==> (*old(table)) is Some,
        *final(table) matches Some(t) ==> t.wf() && t@ == add_to(
            old(table).unwrap()@,
            (v.cluster@, v.partition@, v.state@),
            job_amount(v@, d),
        ) && bounded(t@, n@ + 1),
{
    match table {
        Some(t) => {
            proof {
                lemma_add_bounded(t@, (v.cluster@, v.partition@, v.state@), amount as int, n@);
            }
            t.add(&v.cluster, &v.partition, &v.state, amount as i128);
        },
        None => {},
    }
}

/// An empty table where the family is enabled, none where it is not.
fn table_if(on: bool) -> (r: Option<CountTable>)
    ensures
        holds_totals(r, on, Map::empty()),
{
    if on {
        Some(CountTable::new())
    } else {
        None
    }
}

/// The totals of each enabled job family over `lines`, or the first line
/// that does not read as a job.
pub fn aggregate_job_lines(lines: &Vec<String>, selection: &MetricSelection) -> (r: Result<
    JobTables,
    CollectError,
>)
    ensures
        r is Ok <==> all_job_lines(string_views(lines@)),
        r matches Err(e) ==> reports_first_bad_job_line(e, string_views(lines@)),
        r matches Ok(t) ==> {
            &&& holds_totals(
                t.nodes,
                selection.job_nodes,
                job_totals(string_views(lines@), Dimension::JobNodes),
            )
            &&& holds_totals(
                t.tasks,
                selection.job_tasks,
                job_totals(string_views(lines@), Dimension::JobTasks),
            )
            &&& holds_totals(
                t.cpus,
                selection.job_cpus,
                job_totals(string_views(lines@), Dimension::JobCpus),
            )
            &&& holds_totals(
                t.count,
                selection.job_count,
                job_totals(string_views(lines@), Dimension::JobCount),
            )
        },
{
    let ghost lv = string_views(lines@);
    let mut nodes = table_if(selection.job_nodes);
    let mut tasks = table_if(selection.job_tasks);
    let mut cpus = table_if(selection.job_cpus);
    let mut count = table_if(selection.job_count);
    assert(lv.take(0) =~= Seq::<Seq<char>>::empty());
    let mut i: usize = 0;
    while i < lines.len()
        invariant
            i <= lines.len(),
            lv == string_views(lines@),
            all_job_lines(lv.take(i as int)),
            holds_totals(nodes, selection.job_nodes, job_totals(lv.take(i as int), Dimension::JobNodes)),
            holds_totals(tasks, selection.job_tasks, job_totals(lv.take(i as int), Dimension::JobTasks)),
            holds_totals(cpus, selection.job_cpus, job_totals(lv.take(i as int), Dimension::JobCpus)),
            holds_totals(count, selection.job_count, job_totals(lv.take(i as int), Dimension::JobCount)),
            nodes matches Some(t) ==> bounded(t@, i as int),
            tasks matches Some(t) ==> bounded(t@, i as int),
            cpus matches Some(t) ==> bounded(t@, i as int),
            count matches Some(t) ==> bounded(t@, i as int),
        decreases lines.len() - i,
    {
        let line = lines[i].as_str();
        assert(lv[i as int] == line@);
        assert(lv.take(i + 1).drop_last() =~= lv.take(i as int));
        assert(lv.take(i + 1).last() == line@);
        let v = match parse_job_line(line) {
            Ok(v) => v,
            Err(e) => {
                assert(reports_first_bad_job_line(e, lv)) by {
                    assert(job_line(lv[i as int]) is None);
                }
                proof {
                    assert(!all_job_lines(lv));
                }
                return Err(e);
            },
        };
        proof {
            lemma_job_line_nonneg(line@);
        }
        add_job(&mut nodes, &v, v.nodes, Dimension::JobNodes, Ghost(i as int));
        add_job(&mut tasks, &v, v.tasks, Dimension::JobTasks, Ghost(i as int));
        add_job(&mut cpus, &v, v.cpus, Dimension::JobCpus, Ghost(i as int));
        add_job(&mut count, &v, 1, Dimension::JobCount, Ghost(i as int));
        i = i + 1;
        assert forall|j: int| 0 <= j < i implies job_line(#[trigger] lv.take(i as int)[j]) is Some by {
            if j < i - 1 {
                assert(lv.take(i as int)[j] == lv.take(i - 1)[j]);
            }
        }
    }
    assert(lv.take(lines.len() as int) =~= lv);
    Ok(JobTables { nodes, tasks, cpus, count })
}

/// The tables of one job scrape; a disabled family has none.
pub struct JobTables {
    pub nodes: Option<CountTable>,
    pub tasks: Option<CountTable>,
    pub cpus: Option<CountTable>,
    pub count: Option<CountTable>,
}

/// The number of hosts in each (cluster, partition, state) over `lines`, or
/// the first line that does not read as a partition line.
pub fn aggregate_partition_lines(lines: &Vec<String>) -> (r: Result<CountTable, CollectError>)
    ensures
        r is Ok <==> all_partition_lines(string_views(lines@)),
        r matches Err(e) ==> reports_first_bad_partition_line(e, string_views(lines@)),
        r matches Ok(t) ==> t.wf() && t@ == partition_totals(string_views(lines@)),
{
    let ghost lv = string_views(lines@);
    let mut hosts = CountTable::new();
    let mut i: usize = 0;
    while i < lines.len()
        invariant
            i <= lines.len(),
            lv == string_views(lines@),
            all_partition_lines(lv.take(i as int)),
            hosts.wf(),
            hosts@ == partition_totals(lv.take(i as int)),
            bounded(hosts@, i as int),
        decreases lines.len() - i,
    {
        let line = lines[i].as_str();
        assert(lv[i as int] == line@);
        assert(lv.take(i + 1).drop_last() =~= lv.take(i as int));
        assert(lv.take(i + 1).last() == line@);
        let v = match parse_partition_line(line) {
            Ok(v) => v,
            Err(e) => {
                assert(reports_first_bad_partition_line(e, lv)) by {
                    assert(partition_line(lv[i as int]) is None);
                }
                proof {
                    assert(!all_partition_lines(lv));
                }
                return Err(e);
            },
        };
        proof {
            lemma_add_bounded(hosts@, (v.cluster@, v.partition@, v.state@), 1, i as int);
        }
        hosts.add(&v.cluster, &v.partition, &v.state, 1);
        i = i + 1;
        assert forall|j: int| 0 <= j < i implies partition_line(#[trigger] lv.take(i as int)[j])
            is Some by {
            if j < i - 1 {
                assert(lv.take(i as int)[j] == lv.take(i - 1)[j]);
            }
        }
    }
    assert(lv.take(lines.len() as int) =~= lv);
    Ok(hosts)
}

/// Reordering the job lines in any way changes no total of any family.
pub proof fn lemma_job_totals_order_independent(
    a: Seq<Seq<char>>,
    b: Seq<Seq<char>>,
    d: Dimension,
)
    requires
        a.to_multiset() == b.to_multiset(),
    ensures
        job_totals(a, d) == job_totals(b, d),
{
    lemma_tally_permutation(a, b, job_contribution(d));
}

/// Reordering the partition lines in any way changes no host count.
pub proof fn lemma_partition_totals_order_independent(a: Seq<Seq<char>>, b: Seq<Seq<char>>)
    requires
        a.to_multiset() == b.to_multiset(),
    ensures
        partition_totals(a) == partition_totals(b),
{
    lemma_tally_permutation(a, b, partition_contribution());
}

/// The totals over the job lines `a` followed by `b` are the key-by-key sums
/// of the totals over `a` and over `b`.
pub proof fn lemma_job_totals_additive(a: Seq<Seq<char>>, b: Seq<Seq<char>>, d: Dimension)
    ensures
        job_totals(a + b, d) == sum_tables(job_totals(a, d), job_totals(b, d)),
{
    lemma_tally_append(a, b, job_contribution(d));
}

/// The host counts over the partition lines `a` followed by `b` are the
/// key-by-key sums of the counts over `a` and over `b`.
pub proof fn lemma_partition_totals_additive(a: Seq<Seq<char>>, b: Seq<Seq<char>>)
    ensures
        partition_totals(a + b) == sum_tables(partition_totals(a), partition_totals(b)),
{
    lemma_tally_append(a, b, partition_contribution());
}

} // verus!
