use slurm_exporter::error::CollectError;
use slurm_exporter::output::split_lines;
use slurm_exporter::record::{
    parse_job_line, parse_partition_line, split_job_state_line, split_part_state_line, JobRecord,
};
use slurm_exporter::text::{chars_of, parse_decimal, split_fields, string_of};

fn s(x: &str) -> String {
    x.to_string()
}

#[test]
fn job_line_gives_six_fields() {
    let r = parse_job_line("cluster1 part1 RUNNING 2 4 8").unwrap();
    assert_eq!(
        r,
        JobRecord {
            cluster: s("cluster1"),
            partition: s("part1"),
            state: s("RUNNING"),
            nodes: 2,
            tasks: 4,
            cpus: 8,
        }
    );
}

#[test]
fn job_line_round_trips_through_its_layout() {
    let line = "clu-ster part_1 COMPLETING 10 200 3000";
    let r = parse_job_line(line).unwrap();
    assert_eq!(r.to_line(), line);
    let r = parse_job_line("c  p\ts 0 9223372036854775807 10").unwrap();
    assert_eq!(r.to_line(), "c p s 0 9223372036854775807 10");
    assert_eq!(parse_job_line(&r.to_line()).unwrap(), r);
}

#[test]
fn leading_zeros_are_not_kept() {
    let r = parse_job_line("c p s 007 0 00").unwrap();
    assert_eq!((r.nodes, r.tasks, r.cpus), (7, 0, 0));
    assert_eq!(r.to_line(), "c p s 7 0 0");
}

#[test]
fn job_line_with_padding_and_tabs() {
    let r = split_job_state_line("  c1\tpart1   PENDING  1 1   16   \r").unwrap();
    assert_eq!(r, (s("c1"), s("part1"), s("PENDING"), 1, 1, 16));
}

#[test]
fn job_line_keeps_partition_marker() {
    let r = parse_job_line("c1 gpu* RUNNING 1 1 1").unwrap();
    assert_eq!(r.partition, "gpu*");
}

#[test]
fn job_line_with_non_numeric_cpus_is_malformed() {
    let line = "cluster1 part1 RUNNING 2 4 NaN";
    assert_eq!(parse_job_line(line), Err(CollectError::MalformedRecord(s(line))));
}

#[test]
fn job_line_with_too_few_fields_is_malformed() {
    let line = "cluster1 part1 RUNNING 2 4";
    assert_eq!(parse_job_line(line), Err(CollectError::MalformedRecord(s(line))));
    assert_eq!(split_job_state_line(""), None);
}

#[test]
fn job_line_with_too_many_fields_is_malformed() {
    assert_eq!(split_job_state_line("c p s 1 2 3 4"), None);
}

#[test]
fn job_line_numbers_must_be_plain_non_negative_decimals() {
    assert_eq!(split_job_state_line("c p s -1 2 3"), None);
    assert_eq!(split_job_state_line("c p s + 2 3"), None);
    assert_eq!(split_job_state_line("c p s - 2 3"), None);
    assert_eq!(split_job_state_line("c p s -01 2 3"), None);
    assert_eq!(split_job_state_line("c p s -0 2 -000").unwrap(), (s("c"), s("p"), s("s"), 0, 2, 0));
    assert_eq!(split_job_state_line("c p s +1 2 3").unwrap().3, 1);
    assert_eq!(split_job_state_line("c p s 1 2x 3"), None);
    assert_eq!(split_job_state_line("c p s 1 2 9223372036854775808"), None);
    let r = split_job_state_line("c p s 0 007 9223372036854775807").unwrap();
    assert_eq!((r.3, r.4, r.5), (0, 7, i64::MAX));
}

#[test]
fn partition_line_strips_default_marker() {
    let r = parse_partition_line("cluster1 gpu* node03 idle").unwrap();
    assert_eq!(r.cluster, "cluster1");
    assert_eq!(r.partition, "gpu");
    assert_eq!(r.host, "node03");
    assert_eq!(r.state, "idle");
}

#[test]
fn partition_line_without_marker_is_unchanged() {
    let r = split_part_state_line("c1 batch-long n-01 drained*").unwrap();
    assert_eq!(r, (s("c1"), s("batch-long"), s("n-01"), s("drained*")));
}

#[test]
fn partition_marker_is_stripped_once() {
    let r = split_part_state_line("c1 gpu** n1 idle").unwrap();
    assert_eq!(r.1, "gpu*");
    let r = split_part_state_line("c1 * n1 idle").unwrap();
    assert_eq!(r.1, "");
}

#[test]
fn partition_line_shape_mismatch_is_malformed() {
    let line = "c1 gpu n1";
    assert_eq!(parse_partition_line(line), Err(CollectError::MalformedRecord(s(line))));
    assert_eq!(split_part_state_line("c1 gpu n1 idle extra"), None);
}

#[test]
fn fields_split_on_blank_runs() {
    let f = split_fields(&chars_of(" a  bc\td \n"));
    let f: Vec<String> = f.iter().map(|w| string_of(w)).collect();
    assert_eq!(f, vec![s("a"), s("bc"), s("d")]);
    assert!(split_fields(&chars_of("   ")).is_empty());
}

#[test]
fn decimal_fields() {
    assert_eq!(parse_decimal(&chars_of("12345")), Some(12345));
    assert_eq!(parse_decimal(&chars_of("")), None);
    assert_eq!(parse_decimal(&chars_of("1.5")), None);
    assert_eq!(parse_decimal(&chars_of("99999999999999999999")), None);
}

#[test]
fn lines_of_output() {
    assert_eq!(split_lines("a b\nc d\n"), vec![s("a b"), s("c d")]);
    assert_eq!(split_lines("a\n\nb"), vec![s("a"), s(""), s("b")]);
    assert_eq!(split_lines("x\r\n"), vec![s("x\r")]);
    assert!(split_lines("").is_empty());
    assert_eq!(split_lines("\n"), vec![s("")]);
}

#[test]
fn unicode_white_space_separates_fields() {
    let r = split_job_state_line("c1 part1 R 1 2 3\u{0b}").unwrap();
    assert_eq!(r.5, 3);
    let r = split_part_state_line("c1\u{3000}gpu*\u{a0}n1 idle\u{0b}").unwrap();
    assert_eq!(r, (s("c1"), s("gpu"), s("n1"), s("idle")));
    let r = split_part_state_line("c1 gpu n1 idle\u{2028}").unwrap();
    assert_eq!(r.3, "idle");
}
