use slurm_exporter::error::CollectError;
use slurm_exporter::exporter::{gauge_value_of, register, Exporter};
use slurm_exporter::output::{output_lines, CommandOutput};
use slurm_exporter::scrape::{
    first_stage, job_query_args, next_stage, partition_query_args, update_job_metrics,
    update_partition_metrics, ScrapeStage,
};
use slurm_exporter::selection::{Dimension, MetricSelection};

fn all_on() -> MetricSelection {
    MetricSelection { job_cpus: true, job_count: true, job_nodes: true, job_tasks: true, partitions: true }
}

fn ok_output(text: &str) -> CommandOutput {
    CommandOutput { status: Some(0), stdout: text.as_bytes().to_vec() }
}

#[test]
fn failed_command_is_a_collection_failure() {
    let mut e = Exporter::new().unwrap();
    let out = CommandOutput { status: Some(1), stdout: b"c1 part1 R 1 1 1\n".to_vec() };
    let r = update_job_metrics(&mut e, out, &all_on());
    assert!(matches!(r, Err(CollectError::CollectionFailure(_))));
    let out = CommandOutput { status: None, stdout: Vec::new() };
    assert!(matches!(update_partition_metrics(&mut e, out), Err(CollectError::CollectionFailure(_))));
}

#[test]
fn invalid_text_is_a_collection_failure() {
    let out = CommandOutput { status: Some(0), stdout: vec![0x66, 0xff, 0x0a] };
    assert!(matches!(output_lines(out), Err(CollectError::CollectionFailure(_))));
}

#[test]
fn output_lines_of_valid_text() {
    let out = ok_output("c1 part1 n1 idle\nc1 part1 n2 idle\n");
    assert_eq!(output_lines(out).unwrap(), vec!["c1 part1 n1 idle".to_string(), "c1 part1 n2 idle".to_string()]);
}

#[test]
fn published_values_appear_in_the_exposition() {
    let mut e = Exporter::new().unwrap();
    let fams = register(&mut e, &all_on()).unwrap();
    assert_eq!(fams.len(), 5);
    update_partition_metrics(&mut e, ok_output("cluster1 gpu* node03 idle\n")).unwrap();
    update_job_metrics(&mut e, ok_output("cluster1 part1 RUNNING 2 4 8\ncluster1 part1 RUNNING 1 2 4\n"), &all_on()).unwrap();
    let text = e.encode().unwrap();
    assert!(text.contains("slurm_job_nodes{cluster=\"cluster1\",partition=\"part1\",state=\"RUNNING\"} 3"));
    assert!(text.contains("slurm_job_tasks{cluster=\"cluster1\",partition=\"part1\",state=\"RUNNING\"} 6"));
    assert!(text.contains("slurm_job_cpus{cluster=\"cluster1\",partition=\"part1\",state=\"RUNNING\"} 12"));
    assert!(text.contains("slurm_job_count{cluster=\"cluster1\",partition=\"part1\",state=\"RUNNING\"} 2"));
    assert!(text.contains("partition_states{cluster=\"cluster1\",partition=\"gpu\",state=\"idle\"} 1"));
}

#[test]
fn failed_scrape_leaves_gauges_untouched() {
    let mut e = Exporter::new().unwrap();
    register(&mut e, &all_on()).unwrap();
    update_job_metrics(&mut e, ok_output("c1 part1 R 5 5 5\n"), &all_on()).unwrap();
    let before = e.encode().unwrap();
    let bad = CommandOutput { status: Some(1), stdout: b"c1 part1 R 9 9 9\n".to_vec() };
    assert!(matches!(update_job_metrics(&mut e, bad, &all_on()), Err(CollectError::CollectionFailure(_))));
    let malformed = ok_output("c1 part1 R 7 7 7\ncluster1 part1 RUNNING 2 4 NaN\n");
    let r = update_job_metrics(&mut e, malformed, &all_on());
    assert_eq!(r.err(), Some(CollectError::MalformedRecord("cluster1 part1 RUNNING 2 4 NaN".to_string())));
    assert_eq!(e.encode().unwrap(), before);
    assert!(before.contains("slurm_job_cpus{cluster=\"c1\",partition=\"part1\",state=\"R\"} 5"));
}

#[test]
fn disabled_families_are_not_registered() {
    let mut e = Exporter::new().unwrap();
    let sel = MetricSelection { job_cpus: false, job_count: true, job_nodes: true, job_tasks: false, partitions: false };
    let fams = register(&mut e, &sel).unwrap();
    assert_eq!(fams, vec![Dimension::JobNodes, Dimension::JobCount]);
    let t = update_job_metrics(&mut e, ok_output("c1 part1 R 1 2 3\n"), &sel).unwrap();
    assert!(t.cpus.is_none());
    assert!(t.tasks.is_none());
    let text = e.encode().unwrap();
    assert!(text.contains("slurm_job_nodes"));
    assert!(text.contains("slurm_job_count"));
    assert!(!text.contains("slurm_job_cpus"));
    assert!(!text.contains("slurm_job_tasks"));
    assert!(!text.contains("partition_states"));
}

#[test]
fn registering_twice_fails() {
    let mut e = Exporter::new().unwrap();
    register(&mut e, &all_on()).unwrap();
    assert!(matches!(register(&mut e, &all_on()), Err(CollectError::PublishFailure(_))));
}

#[test]
fn gauge_values_are_held_to_i64() {
    assert_eq!(gauge_value_of(42), 42);
    assert_eq!(gauge_value_of(i64::MAX as i128 + 1), i64::MAX);
    assert_eq!(gauge_value_of(i64::MIN as i128 - 1), i64::MIN);
}

#[test]
fn query_arguments() {
    assert_eq!(
        partition_query_args("c1,c2"),
        vec!["--noheader", "--Format=Cluster,Partition,NodeHost,StateLong", "--clusters=c1,c2"]
    );
    assert_eq!(
        job_query_args("all"),
        vec!["--noheader", "--Format=Cluster,Partition,State,NumNodes,NumTasks,NumCPUs", "--clusters=all", "--all"]
    );
}

#[test]
fn scrape_stages() {
    let mut sel = all_on();
    assert_eq!(first_stage(&sel), ScrapeStage::QueryPartitions);
    sel.partitions = false;
    assert_eq!(first_stage(&sel), ScrapeStage::QueryJobs);
    assert_eq!(next_stage(ScrapeStage::QueryPartitions, true), ScrapeStage::QueryJobs);
    assert_eq!(next_stage(ScrapeStage::QueryJobs, true), ScrapeStage::Encode);
    assert_eq!(next_stage(ScrapeStage::QueryPartitions, false), ScrapeStage::Abandon);
    assert_eq!(next_stage(ScrapeStage::QueryJobs, false), ScrapeStage::Abandon);
}

#[test]
fn no_family_enabled_registers_nothing() {
    let mut e = Exporter::new().unwrap();
    let sel = MetricSelection { job_cpus: false, job_count: false, job_nodes: false, job_tasks: false, partitions: false };
    assert_eq!(register(&mut e, &sel).unwrap(), vec![]);
    assert_eq!(e.encode().unwrap(), "");
}

#[test]
fn job_lines_keep_the_partition_marker_in_gauges() {
    let mut e = Exporter::new().unwrap();
    register(&mut e, &all_on()).unwrap();
    update_job_metrics(&mut e, ok_output("cluster1 gpu* RUNNING 1 2 4\n"), &all_on()).unwrap();
    let text = e.encode().unwrap();
    assert!(text.contains("slurm_job_count{cluster=\"cluster1\",partition=\"gpu*\",state=\"RUNNING\"} 1"));
}

#[test]
fn empty_job_output_sets_nothing() {
    let mut e = Exporter::new().unwrap();
    register(&mut e, &all_on()).unwrap();
    let t = update_job_metrics(&mut e, ok_output(""), &all_on()).unwrap();
    assert!(t.nodes.unwrap().entries().is_empty());
    assert!(!e.encode().unwrap().contains("slurm_job_nodes{"));
}

#[test]
fn registering_other_families_later_succeeds() {
    let mut e = Exporter::new().unwrap();
    let only_cpus = MetricSelection { job_cpus: true, job_count: false, job_nodes: false, job_tasks: false, partitions: false };
    let only_nodes = MetricSelection { job_cpus: false, job_count: false, job_nodes: true, job_tasks: false, partitions: false };
    assert_eq!(register(&mut e, &only_cpus).unwrap(), vec![Dimension::JobCpus]);
    assert_eq!(register(&mut e, &only_nodes).unwrap(), vec![Dimension::JobNodes]);
    assert!(matches!(register(&mut e, &only_cpus), Err(CollectError::PublishFailure(_))));
    update_job_metrics(&mut e, ok_output("c1 part1 R 1 2 3\n"), &all_on()).unwrap();
    let text = e.encode().unwrap();
    assert!(text.contains("slurm_job_cpus{cluster=\"c1\",partition=\"part1\",state=\"R\"} 3"));
    assert!(text.contains("slurm_job_nodes{cluster=\"c1\",partition=\"part1\",state=\"R\"} 1"));
    assert!(!text.contains("slurm_job_tasks"));
}
