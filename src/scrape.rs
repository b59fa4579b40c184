//! One scrape: what to ask the workload manager, and what to do with each
//! answer.
use vstd::prelude::*;
use vstd::utf8::{decode_utf8, valid_utf8};

use crate::aggregate::{
    job_contribution, lemma_job_totals_additive, lemma_job_totals_order_independent,
    lemma_partition_totals_additive, lemma_partition_totals_order_independent,
    partition_contribution,
    aggregate_job_lines, aggregate_partition_lines, all_job_lines, all_partition_lines,
    holds_totals, job_totals, partition_totals, reports_first_bad_job_line,
    reports_first_bad_partition_line, JobTables,
};
use crate::error::CollectError;
use crate::record::lemma_job_line_nonneg;
use crate::exporter::{appends_totals, gauge_value, writes_totals, Exporter};
use crate::output::{lines_of, output_lines, CommandOutput};
use crate::selection::{Dimension, MetricSelection};
use crate::table::{lemma_tally_at_least, total_at, CountTable, GroupKey};

verus! {

/// Where a scrape stands.
#[derive(Debug, Clone, Copy, PartialEq, Eq, Structural)]
pub enum ScrapeStage {
    /// The partition query is to be run and its output handed to
    /// `update_partition_metrics`.
    QueryPartitions,
    /// The job query is to be run and its output handed to
    /// `update_job_metrics`.
    QueryJobs,
    /// Every query succeeded: the answer is the encoded registry.
    Encode,
    /// A query failed: the answer is empty, and the gauges keep the values
    /// of the last scrape that set them.
    Abandon,
}

/// The first stage of a scrape: the partition query where partitions are
/// exported, else the job query.
pub fn first_stage(selection: &MetricSelection) -> (r: ScrapeStage)
    ensures
        r == if selection.partitions {
            ScrapeStage::QueryPartitions
        } else {
            ScrapeStage::QueryJobs
        },
{
    if selection.partitions {
        ScrapeStage::QueryPartitions
    } else {
        ScrapeStage::QueryJobs
    }
}

/// The stage after a query stage, by whether its update succeeded.
pub fn next_stage(stage: ScrapeStage, succeeded: bool) -> (r: ScrapeStage)
    ensures
        !succeeded ==> r == ScrapeStage::Abandon,
        succeeded && stage == ScrapeStage::QueryPartitions ==> r == ScrapeStage::QueryJobs,
        succeeded && stage == ScrapeStage::QueryJobs ==> r == ScrapeStage::Encode,
        succeeded && (stage == ScrapeStage::Encode || stage == ScrapeStage::Abandon) ==> r == stage,
{
    if !succeeded {
        return ScrapeStage::Abandon;
    }
    match stage {
        ScrapeStage::QueryPartitions => ScrapeStage::QueryJobs,
        ScrapeStage::QueryJobs => ScrapeStage::Encode,
        other => other,
    }
}

/// `prefix` followed by `rest`.
fn concat(prefix: &str, rest: &str) -> (r: String)
    ensures
        r@ == prefix@ + rest@,
{
    let mut s = prefix.to_owned();
    s.append(rest);
    s
}

/// The arguments of the partition query for the clusters `clusters`.
pub fn partition_query_args(clusters: &str) -> (r: Vec<String>)
    ensures
        r@.len() == 3,
        r@[0]@ == "--noheader"@,
        r@[1]@ == "--Format=Cluster,Partition,NodeHost,StateLong"@,
        r@[2]@ == "--clusters="@ + clusters@,
{
    let mut v: Vec<String> = Vec::new();
    v.push("--noheader".to_owned());
    v.push("--Format=Cluster,Partition,NodeHost,StateLong".to_owned());
    v.push(concat("--clusters=", clusters));
    v
}

/// The arguments of the job query for the clusters `clusters`.
pub fn job_query_args(clusters: &str) -> (r: Vec<String>)
    ensures
        r@.len() == 4,
        r@[0]@ == "--noheader"@,
        r@[1]@ == "--Format=Cluster,Partition,State,NumNodes,NumTasks,NumCPUs"@,
        r@[2]@ == "--clusters="@ + clusters@,
        r@[3]@ == "--all"@,
{
    let mut v: Vec<String> = Vec::new();
    v.push("--noheader".to_owned());
    v.push("--Format=Cluster,Partition,State,NumNodes,NumTasks,NumCPUs".to_owned());
    v.push(concat("--clusters=", clusters));
    v.push("--all".to_owned());
    v
}

/// The lines that `output` holds, where the command succeeded and printed
/// text.
pub open spec fn output_ok(output: CommandOutput) -> bool {
    output.status == Some(0i32) && valid_utf8(output.stdout@)
}

pub open spec fn printed_lines(output: CommandOutput) -> Seq<Seq<char>> {
    lines_of(decode_utf8(output.stdout@))
}

/// The family `d` of `after` is that of `before` followed by writes that set
/// exactly the totals `m`, where `on`; where not, it is unchanged.
pub open spec fn published(
    before: Exporter,
    after: Exporter,
    d: Dimension,
    on: bool,
    m: Map<GroupKey, int>,
) -> bool {
    if on {
        appends_totals(before.writes(d), after.writes(d), m)
    } else {
        after.writes(d) == before.writes(d)
    }
}

/// No gauge of `after` has been set since `before`.
pub open spec fn untouched(before: Exporter, after: Exporter) -> bool {
    forall|d: Dimension| #[trigger] after.writes(d) == before.writes(d)
}

/// Reads the partition query's output, counts the hosts of each
/// (cluster, partition, state) and sets the partition gauges to the counts.
/// Nothing is set unless every line reads.
pub fn update_partition_metrics(exporter: &mut Exporter, output: CommandOutput) -> (r: Result<
    CountTable,
    CollectError,
>)
    requires
        old(exporter).wf(),
    ensures
        final(exporter).wf(),
        final(exporter).registry_names() == old(exporter).registry_names(),
        !output_ok(output) ==> r matches Err(CollectError::CollectionFailure(_)),
        output_ok(output) && !all_partition_lines(printed_lines(output)) ==> (r matches Err(e)
            && reports_first_bad_partition_line(e, printed_lines(output))),
        output_ok(output) && all_partition_lines(printed_lines(output)) ==> r is Ok,
        r is Err ==> untouched(*old(exporter), *final(exporter)),
        r matches Ok(t) ==> {
            &&& output_ok(output)
            &&& t.wf()
            &&& t@ == partition_totals(printed_lines(output))
            &&& published(
                *old(exporter),
                *final(exporter),
                Dimension::Partitions,
                true,
                partition_totals(printed_lines(output)),
            )
            &&& forall|d: Dimension|
                d != Dimension::Partitions ==> #[trigger] final(exporter).writes(d) == old(
                    exporter,
                ).writes(d)
        },
{
    let lines = output_lines(output)?;
    let table = aggregate_partition_lines(&lines)?;
    exporter.publish(Dimension::Partitions, &table);
    Ok(table)
}

/// Publishes the table of one job family, where it was computed.
fn publish_job_table(exporter: &mut Exporter, d: Dimension, table: &Option<CountTable>)
    requires
        old(exporter).wf(),
        *table matches Some(t) ==> t.wf(),
    ensures
        final(exporter).wf(),
        final(exporter).registry_names() == old(exporter).registry_names(),
        *table matches Some(t) ==> appends_totals(
            old(exporter).writes(d),
            final(exporter).writes(d),
            t@,
        ),
        table is None ==> final(exporter).writes(d) == old(exporter).writes(d),
        forall|d2: Dimension| d2 != d ==> #[trigger] final(exporter).writes(d2) == old(
            exporter,
        ).writes(d2),
{
    match table {
        Some(t) => exporter.publish(d, t),
        None => {},
    }
}

/// Reads the job query's output, sums the nodes, tasks and CPUs and counts
/// the jobs of each (cluster, partition, state), each only where its family
/// is enabled, and sets the gauges of the enabled families to the totals.
/// Nothing is set unless every line reads.
pub fn update_job_metrics(
    exporter: &mut Exporter,
    output: CommandOutput,
    selection: &MetricSelection,
) -> (r: Result<JobTables, CollectError>)
    requires
        old(exporter).wf(),
    ensures
        final(exporter).wf(),
        final(exporter).registry_names() == old(exporter).registry_names(),
        !output_ok(output) ==> r matches Err(CollectError::CollectionFailure(_)),
        output_ok(output) && !all_job_lines(printed_lines(output)) ==> (r matches Err(e)
            && reports_first_bad_job_line(e, printed_lines(output))),
        output_ok(output) && all_job_lines(printed_lines(output)) ==> r is Ok,
        r is Err ==> untouched(*old(exporter), *final(exporter)),
        r matches Ok(t) ==> {
            &&& output_ok(output)
            &&& holds_totals(
                t.nodes,
                selection.job_nodes,
                job_totals(printed_lines(output), Dimension::JobNodes),
            )
            &&& holds_totals(
                t.tasks,
                selection.job_tasks,
                job_totals(printed_lines(output), Dimension::JobTasks),
            )
            &&& holds_totals(
                t.cpus,
                selection.job_cpus,
                job_totals(printed_lines(output), Dimension::JobCpus),
            )
            &&& holds_totals(
                t.count,
                selection.job_count,
                job_totals(printed_lines(output), Dimension::JobCount),
            )
            &&& published(
                *old(exporter),
                *final(exporter),
                Dimension::JobNodes,
                selection.job_nodes,
                job_totals(printed_lines(output), Dimension::JobNodes),
            )
            &&& published(
                *old(exporter),
                *final(exporter),
                Dimension::JobTasks,
                selection.job_tasks,
                job_totals(printed_lines(output), Dimension::JobTasks),
            )
            &&& published(
                *old(exporter),
                *final(exporter),
                Dimension::JobCpus,
                selection.job_cpus,
                job_totals(printed_lines(output), Dimension::JobCpus),
            )
            &&& published(
                *old(exporter),
                *final(exporter),
                Dimension::JobCount,
                selection.job_count,
                job_totals(printed_lines(output), Dimension::JobCount),
            )
            &&& final(exporter).writes(Dimension::Partitions) == old(exporter).writes(
                Dimension::Partitions,
            )
        },
{
    let lines = output_lines(output)?;
    let tables = aggregate_job_lines(&lines, selection)?;
    let ghost e0 = *exporter;
    publish_job_table(exporter, Dimension::JobNodes, &tables.nodes);
    let ghost e1 = *exporter;
    publish_job_table(exporter, Dimension::JobTasks, &tables.tasks);
    let ghost e2 = *exporter;
    publish_job_table(exporter, Dimension::JobCpus, &tables.cpus);
    let ghost e3 = *exporter;
    publish_job_table(exporter, Dimension::JobCount, &tables.count);
    assert(exporter.writes(Dimension::JobNodes) == e1.writes(Dimension::JobNodes));
    assert(exporter.writes(Dimension::JobTasks) == e2.writes(Dimension::JobTasks));
    assert(exporter.writes(Dimension::JobCpus) == e3.writes(Dimension::JobCpus));
    assert(e1.writes(Dimension::JobCount) == e0.writes(Dimension::JobCount));
    assert(e2.writes(Dimension::JobCount) == e0.writes(Dimension::JobCount));
    assert(e1.writes(Dimension::JobCpus) == e0.writes(Dimension::JobCpus));
    assert(e2.writes(Dimension::JobCpus) == e0.writes(Dimension::JobCpus));
    assert(e1.writes(Dimension::JobTasks) == e0.writes(Dimension::JobTasks));
    Ok(tables)
}

/// The value that `w` sets at `k`, or zero where it sets none.
pub open spec fn written_at(w: Seq<(GroupKey, i64)>, k: GroupKey) -> int {
    if exists|i: int| 0 <= i < w.len() && #[trigger] w[i].0 == k {
        w[choose|i: int| 0 <= i < w.len() && #[trigger] w[i].0 == k].1 as int
    } else {
        0
    }
}

/// Whether `w` sets the gauge at `k`.
pub open spec fn sets_key(w: Seq<(GroupKey, i64)>, k: GroupKey) -> bool {
    exists|i: int| 0 <= i < w.len() && #[trigger] w[i].0 == k
}

proof fn lemma_written_at(w: Seq<(GroupKey, i64)>, m: Map<GroupKey, int>, k: GroupKey)
    requires
        writes_totals(w, m),
    ensures
        sets_key(w, k) <==> m.contains_key(k),
        written_at(w, k) == if m.contains_key(k) {
            gauge_value(m[k]) as int
        } else {
            0
        },
{
    if m.contains_key(k) {
        assert(sets_key(w, k));
    }
}

/// Two write runs that each set exactly the totals `m` set the same
/// (labels, value) pairs.
pub proof fn lemma_writes_same_pairs(
    w1: Seq<(GroupKey, i64)>,
    w2: Seq<(GroupKey, i64)>,
    m: Map<GroupKey, int>,
)
    requires
        writes_totals(w1, m),
        writes_totals(w2, m),
    ensures
        forall|p: (GroupKey, i64)| w1.contains(p) <==> w2.contains(p),
{
    assert forall|p: (GroupKey, i64)| w1.contains(p) implies w2.contains(p) by {
        let i = choose|i: int| 0 <= i < w1.len() && w1[i] == p;
        assert(m.contains_key(w1[i].0));
        let j = choose|j: int| 0 <= j < w2.len() && #[trigger] w2[j].0 == p.0;
        assert(w2[j] == p);
    }
    assert forall|p: (GroupKey, i64)| w2.contains(p) implies w1.contains(p) by {
        let i = choose|i: int| 0 <= i < w2.len() && w2[i] == p;
        assert(m.contains_key(w2[i].0));
        let j = choose|j: int| 0 <= j < w1.len() && #[trigger] w1[j].0 == p.0;
        assert(w1[j] == p);
    }
}

/// Publishing the totals of job lines `a`, and of any reordering `b` of
/// them, sets the same (labels, value) pairs in the family `d`.
pub proof fn lemma_job_publish_order_independent(
    a: Seq<Seq<char>>,
    b: Seq<Seq<char>>,
    d: Dimension,
    wa: Seq<(GroupKey, i64)>,
    wb: Seq<(GroupKey, i64)>,
)
    requires
        a.to_multiset() == b.to_multiset(),
        writes_totals(wa, job_totals(a, d)),
        writes_totals(wb, job_totals(b, d)),
    ensures
        forall|p: (GroupKey, i64)| wa.contains(p) <==> wb.contains(p),
{
    lemma_job_totals_order_independent(a, b, d);
    lemma_writes_same_pairs(wa, wb, job_totals(a, d));
}

/// Publishing the host counts of partition lines `a`, and of any
/// reordering `b` of them, sets the same (labels, value) pairs.
pub proof fn lemma_partition_publish_order_independent(
    a: Seq<Seq<char>>,
    b: Seq<Seq<char>>,
    wa: Seq<(GroupKey, i64)>,
    wb: Seq<(GroupKey, i64)>,
)
    requires
        a.to_multiset() == b.to_multiset(),
        writes_totals(wa, partition_totals(a)),
        writes_totals(wb, partition_totals(b)),
    ensures
        forall|p: (GroupKey, i64)| wa.contains(p) <==> wb.contains(p),
{
    lemma_partition_totals_order_independent(a, b);
    lemma_writes_same_pairs(wa, wb, partition_totals(a));
}

/// Publishing the totals of job lines `a ++ b` sets, in the family `d`, the
/// gauges that publishing `a` or `b` alone sets, each to the sum of the two
/// values, wherever that sum fits in a gauge.
pub proof fn lemma_job_publish_additive(
    a: Seq<Seq<char>>,
    b: Seq<Seq<char>>,
    d: Dimension,
    wa: Seq<(GroupKey, i64)>,
    wb: Seq<(GroupKey, i64)>,
    wab: Seq<(GroupKey, i64)>,
)
    requires
        writes_totals(wa, job_totals(a, d)),
        writes_totals(wb, job_totals(b, d)),
        writes_totals(wab, job_totals(a + b, d)),
        forall|k: GroupKey| #[trigger] total_at(job_totals(a + b, d), k) <= i64::MAX,
    ensures
        forall|k: GroupKey| #[trigger]
            sets_key(wab, k) <==> sets_key(wa, k) || sets_key(wb, k),
        forall|k: GroupKey| #[trigger]
            written_at(wab, k) == written_at(wa, k) + written_at(wb, k),
{
    let ma = job_totals(a, d);
    let mb = job_totals(b, d);
    let mab = job_totals(a + b, d);
    lemma_job_totals_additive(a, b, d);
    assert forall|line: Seq<char>| (#[trigger] job_contribution(d)(line) matches Some(c) ==> c.1
        >= 0) by {
        lemma_job_line_nonneg(line);
    }
    lemma_tally_at_least(a, job_contribution(d), 0);
    lemma_tally_at_least(b, job_contribution(d), 0);
    assert forall|k: GroupKey| #[trigger] sets_key(wab, k) <==> sets_key(wa, k) || sets_key(wb, k) by {
        lemma_written_at(wa, ma, k);
        lemma_written_at(wb, mb, k);
        lemma_written_at(wab, mab, k);
    }
    assert forall|k: GroupKey| #[trigger] written_at(wab, k) == written_at(wa, k) + written_at(wb, k) by {
        lemma_written_at(wa, ma, k);
        lemma_written_at(wb, mb, k);
        lemma_written_at(wab, mab, k);
        assert(total_at(mab, k) <= i64::MAX);
    }
}

/// Publishing the host counts of partition lines `a ++ b` sets the gauges
/// that publishing `a` or `b` alone sets, each to the sum of the two values,
/// wherever that sum fits in a gauge.
pub proof fn lemma_partition_publish_additive(
    a: Seq<Seq<char>>,
    b: Seq<Seq<char>>,
    wa: Seq<(GroupKey, i64)>,
    wb: Seq<(GroupKey, i64)>,
    wab: Seq<(GroupKey, i64)>,
)
    requires
        writes_totals(wa, partition_totals(a)),
        writes_totals(wb, partition_totals(b)),
        writes_totals(wab, partition_totals(a + b)),
        forall|k: GroupKey| #[trigger] total_at(partition_totals(a + b), k) <= i64::MAX,
    ensures
        forall|k: GroupKey| #[trigger]
            sets_key(wab, k) <==> sets_key(wa, k) || sets_key(wb, k),
        forall|k: GroupKey| #[trigger]
            written_at(wab, k) == written_at(wa, k) + written_at(wb, k),
{
    let ma = partition_totals(a);
    let mb = partition_totals(b);
    let mab = partition_totals(a + b);
    lemma_partition_totals_additive(a, b);
    lemma_tally_at_least(a, partition_contribution(), 0);
    lemma_tally_at_least(b, partition_contribution(), 0);
    assert forall|k: GroupKey| #[trigger] sets_key(wab, k) <==> sets_key(wa, k) || sets_key(wb, k) by {
        lemma_written_at(wa, ma, k);
        lemma_written_at(wb, mb, k);
        lemma_written_at(wab, mab, k);
    }
    assert forall|k: GroupKey| #[trigger] written_at(wab, k) == written_at(wa, k) + written_at(wb, k) by {
        lemma_written_at(wa, ma, k);
        lemma_written_at(wb, mb, k);
        lemma_written_at(wab, mab, k);
        assert(total_at(mab, k) <= i64::MAX);
    }
}

/// Publishing job totals sets no negative value, and sets every job count
/// to at least one.
pub proof fn lemma_job_writes_in_range(a: Seq<Seq<char>>, d: Dimension, w: Seq<(GroupKey, i64)>)
    requires
        writes_totals(w, job_totals(a, d)),
    ensures
        forall|i: int| 0 <= i < w.len() ==> #[trigger] w[i].1 >= 0,
        d == Dimension::JobCount ==> forall|i: int| 0 <= i < w.len() ==> #[trigger] w[i].1 >= 1,
{
    let lo: int = if d == Dimension::JobCount {
        1
    } else {
        0
    };
    assert forall|line: Seq<char>| (#[trigger] job_contribution(d)(line) matches Some(c) ==> c.1
        >= lo) by {
        lemma_job_line_nonneg(line);
    }
    lemma_tally_at_least(a, job_contribution(d), lo);
    assert forall|i: int| 0 <= i < w.len() implies #[trigger] w[i].1 >= lo by {
        assert(job_totals(a, d).contains_key(w[i].0));
    }
}

} // verus!
