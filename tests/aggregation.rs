use slurm_exporter::aggregate::{aggregate_job_lines, aggregate_partition_lines};
use slurm_exporter::error::CollectError;
use slurm_exporter::selection::{Dimension, MetricSelection};
use slurm_exporter::table::CountTable;

fn s(x: &str) -> String {
    x.to_string()
}

fn lines(v: &[&str]) -> Vec<String> {
    v.iter().map(|l| l.to_string()).collect()
}

fn all_on() -> MetricSelection {
    MetricSelection { job_cpus: true, job_count: true, job_nodes: true, job_tasks: true, partitions: true }
}

fn get(t: &CountTable, c: &str, p: &str, st: &str) -> i128 {
    t.get(&s(c), &s(p), &s(st))
}

fn rows(t: &CountTable) -> Vec<(String, String, String, i128)> {
    let mut v: Vec<_> = t
        .entries()
        .iter()
        .map(|e| (e.cluster.clone(), e.partition.clone(), e.state.clone(), e.total))
        .collect();
    v.sort();
    v
}

#[test]
fn two_jobs_of_one_group_add_up() {
    let l = lines(&["cluster1 part1 RUNNING 2 4 8", "cluster1 part1 RUNNING 1 2 4"]);
    let t = aggregate_job_lines(&l, &all_on()).unwrap();
    assert_eq!(get(t.nodes.as_ref().unwrap(), "cluster1", "part1", "RUNNING"), 3);
    assert_eq!(get(t.tasks.as_ref().unwrap(), "cluster1", "part1", "RUNNING"), 6);
    assert_eq!(get(t.cpus.as_ref().unwrap(), "cluster1", "part1", "RUNNING"), 12);
    assert_eq!(get(t.count.as_ref().unwrap(), "cluster1", "part1", "RUNNING"), 2);
    assert_eq!(t.count.as_ref().unwrap().entries().len(), 1);
}

#[test]
fn groups_are_kept_apart() {
    let l = lines(&[
        "c1 part1 RUNNING 1 1 1",
        "c1 part1 PENDING 2 2 2",
        "c1 part2 RUNNING 4 4 4",
        "c2 part1 RUNNING 8 8 8",
    ]);
    let t = aggregate_job_lines(&l, &all_on()).unwrap();
    let n = t.nodes.as_ref().unwrap();
    assert_eq!(n.entries().len(), 4);
    assert_eq!(get(n, "c1", "part1", "PENDING"), 2);
    assert_eq!(get(n, "c2", "part1", "RUNNING"), 8);
    assert_eq!(get(n, "c2", "part2", "RUNNING"), 0);
}

#[test]
fn empty_output_gives_empty_tables() {
    let t = aggregate_job_lines(&Vec::new(), &all_on()).unwrap();
    assert!(t.nodes.unwrap().entries().is_empty());
    let p = aggregate_partition_lines(&Vec::new()).unwrap();
    assert!(p.entries().is_empty());
}

#[test]
fn order_of_lines_does_not_matter() {
    let a = lines(&["c1 part1 R 1 2 3", "c1 part2 R 4 5 6", "c1 part1 R 7 8 9", "c2 part1 P 1 1 1"]);
    let b = lines(&["c1 part1 R 7 8 9", "c2 part1 P 1 1 1", "c1 part1 R 1 2 3", "c1 part2 R 4 5 6"]);
    let ta = aggregate_job_lines(&a, &all_on()).unwrap();
    let tb = aggregate_job_lines(&b, &all_on()).unwrap();
    assert_eq!(rows(ta.cpus.as_ref().unwrap()), rows(tb.cpus.as_ref().unwrap()));
    assert_eq!(rows(ta.count.as_ref().unwrap()), rows(tb.count.as_ref().unwrap()));
    assert_eq!(get(ta.cpus.as_ref().unwrap(), "c1", "part1", "R"), 12);
}

#[test]
fn aggregation_is_additive() {
    let a = lines(&["c1 part1 R 1 2 3", "c1 part2 R 4 5 6"]);
    let b = lines(&["c1 part1 R 10 20 30", "c3 part1 R 1 1 1"]);
    let mut ab = a.clone();
    ab.extend(b.clone());
    let ta = aggregate_job_lines(&a, &all_on()).unwrap();
    let tb = aggregate_job_lines(&b, &all_on()).unwrap();
    let tab = aggregate_job_lines(&ab, &all_on()).unwrap();
    for (c, p, st) in [("c1", "part1", "R"), ("c1", "part2", "R"), ("c3", "part1", "R")] {
        let sum = get(ta.tasks.as_ref().unwrap(), c, p, st) + get(tb.tasks.as_ref().unwrap(), c, p, st);
        assert_eq!(get(tab.tasks.as_ref().unwrap(), c, p, st), sum);
    }
    assert_eq!(get(tab.tasks.as_ref().unwrap(), "c1", "part1", "R"), 22);
    assert_eq!(tab.tasks.as_ref().unwrap().entries().len(), 3);
}

#[test]
fn disabled_families_have_no_table() {
    let sel = MetricSelection { job_cpus: false, job_count: true, job_nodes: false, job_tasks: true, partitions: false };
    assert!(!sel.is_enabled(Dimension::JobCpus));
    assert!(sel.is_enabled(Dimension::JobCount));
    let l = lines(&["c1 part1 R 1 2 3"]);
    let t = aggregate_job_lines(&l, &sel).unwrap();
    assert!(t.nodes.is_none());
    assert!(t.cpus.is_none());
    assert_eq!(get(t.tasks.as_ref().unwrap(), "c1", "part1", "R"), 2);
    assert_eq!(get(t.count.as_ref().unwrap(), "c1", "part1", "R"), 1);
    assert_eq!(sel.selected_families(), vec![Dimension::JobTasks, Dimension::JobCount]);
}

#[test]
fn malformed_line_aborts_the_whole_aggregation() {
    let l = lines(&["cluster1 part1 RUNNING 2 4 8", "cluster1 part1 RUNNING 2 4 NaN", "bad"]);
    let r = aggregate_job_lines(&l, &all_on());
    assert_eq!(r.err(), Some(CollectError::MalformedRecord(s("cluster1 part1 RUNNING 2 4 NaN"))));
}

#[test]
fn partition_hosts_are_counted() {
    let l = lines(&[
        "cluster1 gpu* node03 idle",
        "cluster1 gpu node04 idle",
        "cluster1 gpu node05 mixed",
        "cluster1 batch node03 idle",
    ]);
    let t = aggregate_partition_lines(&l).unwrap();
    assert_eq!(get(&t, "cluster1", "gpu", "idle"), 2);
    assert_eq!(get(&t, "cluster1", "gpu", "mixed"), 1);
    assert_eq!(get(&t, "cluster1", "batch", "idle"), 1);
    assert_eq!(get(&t, "cluster1", "gpu*", "idle"), 0);
}

#[test]
fn single_partition_line_counts_one() {
    let t = aggregate_partition_lines(&lines(&["cluster1 gpu* node03 idle"])).unwrap();
    assert_eq!(rows(&t), vec![(s("cluster1"), s("gpu"), s("idle"), 1)]);
}

#[test]
fn malformed_partition_line_is_reported() {
    let r = aggregate_partition_lines(&lines(&["c1 part1 n1 idle", "c1 part1 n2"]));
    assert_eq!(r.err(), Some(CollectError::MalformedRecord(s("c1 part1 n2"))));
}

#[test]
fn large_totals_do_not_overflow() {
    let l = lines(&["c p s 9223372036854775807 0 0", "c p s 9223372036854775807 0 0"]);
    let t = aggregate_job_lines(&l, &all_on()).unwrap();
    assert_eq!(get(t.nodes.as_ref().unwrap(), "c", "p", "s"), 2 * (i64::MAX as i128));
}

#[test]
fn table_add_and_get() {
    let mut t = CountTable::new();
    t.add(&s("a"), &s("b"), &s("c"), 5);
    t.add(&s("a"), &s("b"), &s("c"), -2);
    t.add(&s("a"), &s("b"), &s("d"), 1);
    assert_eq!(get(&t, "a", "b", "c"), 3);
    assert_eq!(t.entries().len(), 2);
}
