//! The records that one line of job or partition query output holds.
use vstd::prelude::*;

use crate::error::CollectError;
use crate::text::{
    push_decimal, chars_of, decimal_of, decimal_text, is_field, join_fields, lemma_decimal_nonneg,
    lemma_decimal_round_trip, lemma_fields_of_join, fields_of, parse_decimal, split_fields, string_of, views,
};

verus! {

/// One line of job query output.
#[derive(Debug, Clone, PartialEq, Eq)]
pub struct JobRecord {
    pub cluster: String,
    pub partition: String,
    pub state: String,
    pub nodes: i64,
    pub tasks: i64,
    pub cpus: i64,
}

/// One line of partition query output. The host is read but counts for
/// nothing: it is not a dimension of any metric.
#[derive(Debug, Clone, PartialEq, Eq)]
pub struct PartitionRecord {
    pub cluster: String,
    pub partition: String,
    pub host: String,
    pub state: String,
}

pub struct JobView {
    pub cluster: Seq<char>,
    pub partition: Seq<char>,
    pub state: Seq<char>,
    pub nodes: i64,
    pub tasks: i64,
    pub cpus: i64,
}

pub struct PartitionView {
    pub cluster: Seq<char>,
    pub partition: Seq<char>,
    pub host: Seq<char>,
    pub state: Seq<char>,
}

impl View for JobRecord {
    type V = JobView;

    open spec fn view(&self) -> JobView {
        JobView {
            cluster: self.cluster@,
            partition: self.partition@,
            state: self.state@,
            nodes: self.nodes,
            tasks: self.tasks,
            cpus: self.cpus,
        }
    }
}

impl View for PartitionRecord {
    type V = PartitionView;

    open spec fn view(&self) -> PartitionView {
        PartitionView {
            cluster: self.cluster@,
            partition: self.partition@,
            host: self.host@,
            state: self.state@,
        }
    }
}

/// The record that a job line holds: exactly six fields, the last three
/// non-negative decimal integers that fit in an `i64`.
pub open spec fn job_line(line: Seq<char>) -> Option<JobView> {
    let f = fields_of(line);
    if f.len() == 6 && decimal_of(f[3]) is Some && decimal_of(f[4]) is Some
        && decimal_of(f[5]) is Some {
        Some(
            JobView {
                cluster: f[0],
                partition: f[1],
                state: f[2],
                nodes: decimal_of(f[3]).unwrap(),
                tasks: decimal_of(f[4]).unwrap(),
                cpus: decimal_of(f[5]).unwrap(),
            },
        )
    } else {
        None
    }
}

/// A partition name without the one trailing `*` that marks the default
/// partition, where it has one.
pub open spec fn strip_marker(p: Seq<char>) -> Seq<char> {
    if p.len() > 0 && p.last() == '*' {
        p.drop_last()
    } else {
        p
    }
}

/// The record that a partition line holds: exactly four fields.
pub open spec fn partition_line(line: Seq<char>) -> Option<PartitionView> {
    let f = fields_of(line);
    if f.len() == 4 {
        Some(
            PartitionView {
                cluster: f[0],
                partition: strip_marker(f[1]),
                host: f[2],
                state: f[3],
            },
        )
    } else {
        None
    }
}

pub open spec fn job_tuple_view(t: (String, String, String, i64, i64, i64)) -> JobView {
    JobView { cluster: t.0@, partition: t.1@, state: t.2@, nodes: t.3, tasks: t.4, cpus: t.5 }
}

pub open spec fn partition_tuple_view(t: (String, String, String, String)) -> PartitionView {
    PartitionView { cluster: t.0@, partition: t.1@, host: t.2@, state: t.3@ }
}

/// Splits a job line into cluster, partition, state, nodes, tasks and CPUs.
pub fn split_job_state_line(s: &str) -> (r: Option<(String, String, String, i64, i64, i64)>)
    ensures
        r is Some <==> job_line(s@) is Some,
        r is Some ==> job_tuple_view(r.unwrap()) == job_line(s@).unwrap(),
{
    let chars = chars_of(s);
    let f = split_fields(&chars);
    assert(views(f@).len() == f@.len());
    if f.len() != 6 {
        return None;
    }
    assert(forall|i: int| 0 <= i < 6 ==> #[trigger] views(f@)[i] == f@[i]@);
    let nodes = match parse_decimal(&f[3]) {
        Some(v) => v,
        None => return None,
    };
    let tasks = match parse_decimal(&f[4]) {
        Some(v) => v,
        None => return None,
    };
    let cpus = match parse_decimal(&f[5]) {
        Some(v) => v,
        None => return None,
    };
    Some((string_of(&f[0]), string_of(&f[1]), string_of(&f[2]), nodes, tasks, cpus))
}

/// Splits a partition line into cluster, partition, host and state; the
/// default partition's trailing `*` is taken off the partition.
pub fn split_part_state_line(s: &str) -> (r: Option<(String, String, String, String)>)
    ensures
        r is Some <==> partition_line(s@) is Some,
        r is Some ==> partition_tuple_view(r.unwrap()) == partition_line(s@).unwrap(),
{
    let chars = chars_of(s);
    let f = split_fields(&chars);
    assert(views(f@).len() == f@.len());
    if f.len() != 4 {
        return None;
    }
    assert(forall|i: int| 0 <= i < 4 ==> #[trigger] views(f@)[i] == f@[i]@);
    let mut partition = string_of(&f[1]);
    let n = f[1].len();
    if n > 0 && f[1][n - 1] == '*' {
        let mut stripped = f[1].clone();
        stripped.pop();
        assert(stripped@ =~= f@[1]@.drop_last());
        partition = string_of(&stripped);
    }
    Some((string_of(&f[0]), partition, string_of(&f[2]), string_of(&f[3])))
}

/// Reads one line of job query output.
pub fn parse_job_line(line: &str) -> (r: Result<JobRecord, CollectError>)
    ensures
        match job_line(line@) {
            Some(v) => r is Ok && r.unwrap()@ == v,
            None => r matches Err(CollectError::MalformedRecord(l)) && l@ == line@,
        },
{
    match split_job_state_line(line) {
        Some((cluster, partition, state, nodes, tasks, cpus)) => Ok(
            JobRecord { cluster, partition, state, nodes, tasks, cpus },
        ),
        None => Err(CollectError::MalformedRecord(line.to_owned())),
    }
}

/// Reads one line of partition query output.
pub fn parse_partition_line(line: &str) -> (r: Result<PartitionRecord, CollectError>)
    ensures
        match partition_line(line@) {
            Some(v) => r is Ok && r.unwrap()@ == v,
            None => r matches Err(CollectError::MalformedRecord(l)) && l@ == line@,
        },
{
    match split_part_state_line(line) {
        Some((cluster, partition, host, state)) => Ok(
            PartitionRecord { cluster, partition, host, state },
        ),
        None => Err(CollectError::MalformedRecord(line.to_owned())),
    }
}

/// The numbers of a job line are never negative.
pub proof fn lemma_job_line_nonneg(line: Seq<char>)
    ensures
        job_line(line) matches Some(v) ==> v.nodes >= 0 && v.tasks >= 0 && v.cpus >= 0,
{
    let f = fields_of(line);
    if f.len() == 6 {
        lemma_decimal_nonneg(f[3]);
        lemma_decimal_nonneg(f[4]);
        lemma_decimal_nonneg(f[5]);
    }
}

/// A job record written out in the layout of the job query: six fields,
/// single spaces, the numbers in decimal.
pub open spec fn format_job_line(v: JobView) -> Seq<char> {
    join_fields(
        seq![
            v.cluster,
            v.partition,
            v.state,
            decimal_text(v.nodes as nat),
            decimal_text(v.tasks as nat),
            decimal_text(v.cpus as nat),
        ],
    )
}

/// `f` written out with single spaces, where each of its first `k` items is
/// followed by the next.
proof fn lemma_join_step(f: Seq<Seq<char>>, k: int)
    requires
        1 <= k < f.len(),
    ensures
        join_fields(f.take(k + 1)) == join_fields(f.take(k)) + seq![' '] + f[k],
{
    assert(f.take(k + 1).drop_last() =~= f.take(k));
}

impl JobRecord {
    /// The record in the layout of the job query: its six fields with one
    /// space between two neighbours, the numbers in decimal.
    pub fn to_line(&self) -> (r: String)
        requires
            self.nodes >= 0,
            self.tasks >= 0,
            self.cpus >= 0,
        ensures
            r@ == format_job_line(self@),
    {
        let ghost f = seq![
            self.cluster@,
            self.partition@,
            self.state@,
            decimal_text(self.nodes as nat),
            decimal_text(self.tasks as nat),
            decimal_text(self.cpus as nat),
        ];
        proof {
            reveal_strlit(" ");
        }
        assert(" "@ =~= seq![' ']);
        let mut out = self.cluster.clone();
        assert(f.take(1) =~= seq![f[0]]);
        assert(out@ == join_fields(f.take(1)));
        out.append(" ");
        out.append(self.partition.as_str());
        proof {
            lemma_join_step(f, 1);
        }
        assert(out@ =~= join_fields(f.take(2)));
        out.append(" ");
        out.append(self.state.as_str());
        proof {
            lemma_join_step(f, 2);
        }
        assert(out@ =~= join_fields(f.take(3)));
        out.append(" ");
        push_decimal(&mut out, self.nodes as u64);
        proof {
            lemma_join_step(f, 3);
        }
        assert(out@ =~= join_fields(f.take(4)));
        out.append(" ");
        push_decimal(&mut out, self.tasks as u64);
        proof {
            lemma_join_step(f, 4);
        }
        assert(out@ =~= join_fields(f.take(5)));
        out.append(" ");
        push_decimal(&mut out, self.cpus as u64);
        proof {
            lemma_join_step(f, 5);
        }
        assert(f.take(6) =~= f);
        out
    }
}

/// Reading a well-formed job line gives back exactly its six fields, the
/// last three as integers; writing that record out again gives the same
/// line, character for character.
pub proof fn lemma_job_line_round_trip(v: JobView)
    requires
        is_field(v.cluster),
        is_field(v.partition),
        is_field(v.state),
        v.nodes >= 0,
        v.tasks >= 0,
        v.cpus >= 0,
    ensures
        job_line(format_job_line(v)) == Some(v),
        format_job_line(job_line(format_job_line(v)).unwrap()) == format_job_line(v),
{
    let f = seq![
        v.cluster,
        v.partition,
        v.state,
        decimal_text(v.nodes as nat),
        decimal_text(v.tasks as nat),
        decimal_text(v.cpus as nat),
    ];
    lemma_decimal_round_trip(v.nodes);
    lemma_decimal_round_trip(v.tasks);
    lemma_decimal_round_trip(v.cpus);
    crate::text::lemma_decimal_text(v.nodes as nat);
    crate::text::lemma_decimal_text(v.tasks as nat);
    crate::text::lemma_decimal_text(v.cpus as nat);
    assert forall|i: int| 0 <= i < f.len() implies is_field(#[trigger] f[i]) by {
        if i >= 3 {
            let d = f[i];
            assert forall|j: int| 0 <= j < d.len() implies !crate::text::is_blank(#[trigger] d[j]) by {
                assert(crate::text::is_digit(d[j]));
            }
        }
    }
    lemma_fields_of_join(f);
}

/// Of a partition line with four well-formed fields, the partition read is
/// the field without its last character where that is `*`, and the field
/// unchanged otherwise; the other fields are read as they stand.
pub proof fn lemma_partition_marker(f: Seq<Seq<char>>)
    requires
        f.len() == 4,
        forall|i: int| 0 <= i < 4 ==> is_field(#[trigger] f[i]),
    ensures
        partition_line(join_fields(f)) matches Some(v) && v.cluster == f[0] && v.host == f[2]
            && v.state == f[3] && v.partition == if f[1].last() == '*' {
            f[1].drop_last()
        } else {
            f[1]
        },
{
    lemma_fields_of_join(f);
    assert(is_field(f[1]));
}

} // verus!
