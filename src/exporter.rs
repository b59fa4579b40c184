//! The gauge families and the registry that the metrics are published in.
use vstd::prelude::*;

use prometheus::proto::MetricFamily;
use prometheus::{IntGaugeVec, Opts, Registry, TextEncoder};

use crate::constants;
use crate::error::CollectError;
use crate::selection::{Dimension, MetricSelection};
use crate::table::{CountEntry, CountTable, GroupKey};
use crate::text::is_digit;

verus! {

#[verifier::external_type_specification]
#[verifier::external_body]
pub struct ExRegistry(Registry);

/// One gauge family, labelled by cluster, partition and state. Verus cannot
/// be told of prometheus's gauge vector type, whose builder type is private,
/// so the family is held here out of Verus's sight.
#[verifier::external_body]
pub struct GaugeFamily {
    family: IntGaugeVec,
}

/// What has been handed to the gauges of a family, in order: the three
/// label values of each `set` and the value it set. Only `set_gauge`
/// lengthens it.
pub uninterp spec fn gauge_writes(f: GaugeFamily) -> Seq<(GroupKey, i64)>;

/// Whether `c` may begin a metric name (with `colon`) or a label name.
pub open spec fn ident_start(c: char, colon: bool) -> bool {
    ('a' <= c && c <= 'z') || ('A' <= c && c <= 'Z') || c == '_' || (colon && c == ':')
}

/// A metric name (with `colon`) or a label name as prometheus accepts it.
pub open spec fn ident_ok(s: Seq<char>, colon: bool) -> bool {
    &&& s.len() > 0
    &&& ident_start(s[0], colon)
    &&& forall|i: int| 1 <= i < s.len() ==> ident_start(#[trigger] s[i], colon) || is_digit(s[i])
}

#[verifier::external_type_specification]
#[verifier::external_body]
pub struct ExMetricFamily(MetricFamily);


/// The fully-qualified names of the families registered in `r`.
pub uninterp spec fn registered_names(r: Registry) -> Set<Seq<char>>;

/// The descriptor ids registered in `r`.
pub uninterp spec fn registered_ids(r: Registry) -> Set<u64>;

/// The descriptor id that prometheus gives a metric of this name without
/// constant labels: a hash of the name.
pub uninterp spec fn descriptor_id(name: Seq<char>) -> u64;

/// The name that a family was made with.
pub uninterp spec fn family_name(f: GaugeFamily) -> Seq<char>;

/// Relies on prometheus's Registry::new: an empty registry.
#[verifier::external_body]
fn new_registry() -> (r: Registry)
    ensures
        registered_names(r) == Set::<Seq<char>>::empty(),
        registered_ids(r) == Set::<u64>::empty(),
{
    Registry::new()
}

/// Relies on prometheus's Opts::new, which only holds the name and help,
/// and IntGaugeVec::new, which fails only on an empty help text, an invalid
/// metric or label name, or a label name given twice. A new family has had
/// nothing set.
#[verifier::external_body]
fn new_gauge_family(
    name: &str,
    help: &str,
    label1: &str,
    label2: &str,
    label3: &str,
) -> (r: Result<GaugeFamily, String>)
    ensures
        help@.len() > 0 && ident_ok(name@, true) && ident_ok(label1@, false) && ident_ok(
            label2@,
            false,
        ) && ident_ok(label3@, false) && label1@ != label2@ && label1@ != label3@ && label2@
            != label3@ ==> r is Ok,
        r matches Ok(f) ==> gauge_writes(f) == Seq::<(GroupKey, i64)>::empty() && family_name(f)
            == name@,
{
    match IntGaugeVec::new(Opts::new(name, help), &[label1, label2, label3]) {
        Ok(family) => Ok(GaugeFamily { family }),
        Err(e) => Err(e.to_string()),
    }
}

/// Relies on prometheus's Registry::register (RegistryCore::register): the
/// family's one descriptor, with no constant labels, has the id
/// `descriptor_id` of its name. Registration fails where that id is
/// registered already, and so where the name is; it succeeds where the id is
/// new, since every collector registered here has one descriptor and so its
/// descriptor's id as its collector id. Only success adds the name and id.
#[verifier::external_body]
fn register_family(registry: &mut Registry, family: &GaugeFamily) -> (r: Result<(), String>)
    ensures
        registered_names(*old(registry)).contains(family_name(*family)) ==> r is Err,
        !registered_ids(*old(registry)).contains(descriptor_id(family_name(*family))) ==> r is Ok,
        r is Ok ==> registered_names(*final(registry)) == registered_names(*old(registry)).insert(
            family_name(*family),
        ) && registered_ids(*final(registry)) == registered_ids(*old(registry)).insert(
            descriptor_id(family_name(*family)),
        ),
        r is Err ==> registered_names(*final(registry)) == registered_names(*old(registry))
            && registered_ids(*final(registry)) == registered_ids(*old(registry)),
{
    registry.register(Box::new(family.family.clone())).map_err(|e| e.to_string())
}

/// Relies on prometheus's MetricVec::get_metric_with_label_values, which
/// gives the family's gauge for these label values (made at zero where it is
/// new) and fails only where their number differs from the family's three
/// label names, and on the gauge's `set`. The gauge type cannot be named to
/// Verus, so the two calls stand together.
#[verifier::external_body]
fn set_gauge(
    family: &mut GaugeFamily,
    cluster: &str,
    partition: &str,
    state: &str,
    value: i64,
) -> (r: Result<(), String>)
    ensures
        r is Ok,
        family_name(*final(family)) == family_name(*old(family)),
        gauge_writes(*final(family)) == gauge_writes(*old(family)).push(
            ((cluster@, partition@, state@), value),
        ),
{
    match family.family.get_metric_with_label_values(&[cluster, partition, state]) {
        Ok(gauge) => Ok(gauge.set(value)),
        Err(e) => Err(e.to_string()),
    }
}

/// Relies on prometheus's Registry::gather: the current values of the
/// registered families.
#[verifier::external_body]
fn gather(registry: &Registry) -> Vec<MetricFamily> {
    registry.gather()
}

/// Relies on prometheus's TextEncoder::encode_to_string: the families in
/// the text exposition format.
#[verifier::external_body]
fn encode_text(families: &Vec<MetricFamily>) -> Result<String, String> {
    TextEncoder.encode_to_string(families).map_err(|e| e.to_string())
}

/// What a gauge shows for `total`: the total, held to the range of `i64`.
pub open spec fn gauge_value(total: int) -> i64 {
    if total > i64::MAX {
        i64::MAX
    } else if total < i64::MIN {
        i64::MIN
    } else {
        total as i64
    }
}

pub fn gauge_value_of(total: i128) -> (r: i64)
    ensures
        r == gauge_value(total as int),
{
    if total > i64::MAX as i128 {
        i64::MAX
    } else if total < i64::MIN as i128 {
        i64::MIN
    } else {
        total as i64
    }
}

/// `w` sets the gauge of each key of `m` once, to `gauge_value` of the
/// key's total, and sets no other gauge.
pub open spec fn writes_totals(w: Seq<(GroupKey, i64)>, m: Map<GroupKey, int>) -> bool {
    &&& forall|i: int, j: int| 0 <= i < j < w.len() ==> #[trigger] w[i].0 != #[trigger] w[j].0
    &&& forall|i: int|
        0 <= i < w.len() ==> m.contains_key(#[trigger] w[i].0) && w[i].1 == gauge_value(m[w[i].0])
    &&& forall|k: GroupKey| #[trigger]
        m.contains_key(k) ==> exists|i: int| 0 <= i < w.len() && #[trigger] w[i].0 == k
}

/// `after` is `before` followed by writes that set exactly the totals `m`.
pub open spec fn appends_totals(
    before: Seq<(GroupKey, i64)>,
    after: Seq<(GroupKey, i64)>,
    m: Map<GroupKey, int>,
) -> bool {
    &&& before.len() <= after.len()
    &&& after.take(before.len() as int) == before
    &&& writes_totals(after.skip(before.len() as int), m)
}

/// The writes that setting each row of `es` makes, in order.
pub open spec fn entry_writes(es: Seq<CountEntry>) -> Seq<(GroupKey, i64)> {
    es.map_values(|e: CountEntry| (e.key(), gauge_value(e.total as int)))
}

/// The registry and one gauge family per metric. It is made once and
/// shared by every scrape and by the exposition of the metrics.
pub struct Exporter {
    registry: Registry,
    job_nodes: GaugeFamily,
    job_tasks: GaugeFamily,
    job_cpus: GaugeFamily,
    job_count: GaugeFamily,
    partitions: GaugeFamily,
}

fn publish_error(message: String) -> (r: CollectError)
    ensures
        r matches CollectError::PublishFailure(m) && m@ == message@,
{
    CollectError::PublishFailure(message)
}

/// A gauge family labelled by cluster, partition and state.
fn make_family(name: &str, help: &str) -> (r: Result<GaugeFamily, CollectError>)
    requires
        help@.len() > 0,
        ident_ok(name@, true),
    ensures
        r matches Ok(f) && gauge_writes(f) == Seq::<(GroupKey, i64)>::empty() && family_name(f)
            == name@,
{
    proof {
        reveal_strlit("cluster");
        reveal_strlit("partition");
        reveal_strlit("state");
    }
    assert(ident_ok(constants::LABEL_CLUSTER@, false));
    assert(ident_ok(constants::LABEL_PARTITION@, false));
    assert(ident_ok(constants::LABEL_STATE@, false));
    assert(constants::LABEL_CLUSTER@[0] != constants::LABEL_PARTITION@[0]);
    assert(constants::LABEL_CLUSTER@.len() != constants::LABEL_STATE@.len());
    assert(constants::LABEL_PARTITION@[0] != constants::LABEL_STATE@[0]);
    match new_gauge_family(
        name,
        help,
        constants::LABEL_CLUSTER,
        constants::LABEL_PARTITION,
        constants::LABEL_STATE,
    ) {
        Ok(f) => Ok(f),
        Err(m) => Err(publish_error(m)),
    }
}

/// Sets the gauge of each row of `table` in `family` to the row's total.
fn publish_family(family: &mut GaugeFamily, table: &CountTable)
    requires
        table.wf(),
    ensures
        appends_totals(gauge_writes(*old(family)), gauge_writes(*final(family)), table@),
        family_name(*final(family)) == family_name(*old(family)),
{
    let ghost before = gauge_writes(*family);
    let entries: &Vec<CountEntry> = table.entries();
    let mut i: usize = 0;
    while i < entries.len()
        invariant
            i <= entries.len(),
            gauge_writes(*family) == before + entry_writes(entries@.take(i as int)),
            family_name(*family) == family_name(*old(family)),
        decreases entries.len() - i,
    {
        let e = &entries[i];
        let value = gauge_value_of(e.total);
        let _ = set_gauge(family, e.cluster.as_str(), e.partition.as_str(), e.state.as_str(), value);
        assert(entry_writes(entries@.take(i + 1)) =~= entry_writes(entries@.take(i as int)).push(
            (e.key(), value),
        ));
        i = i + 1;
    }
    assert(entries@.take(entries.len() as int) =~= entries@);
    let ghost w = entry_writes(entries@);
    let ghost after = gauge_writes(*family);
    assert(after.take(before.len() as int) =~= before);
    assert(after.skip(before.len() as int) =~= w);
    assert forall|k: GroupKey| #[trigger] table@.contains_key(k) implies exists|i: int|
        0 <= i < w.len() && #[trigger] w[i].0 == k by {
        let i = choose|i: int| 0 <= i < entries@.len() && #[trigger] entries@[i].key() == k;
        assert(w[i].0 == k);
    }
}

impl Exporter {
    pub closed spec fn family_spec(&self, d: Dimension) -> GaugeFamily {
        match d {
            Dimension::JobNodes => self.job_nodes,
            Dimension::JobTasks => self.job_tasks,
            Dimension::JobCpus => self.job_cpus,
            Dimension::JobCount => self.job_count,
            Dimension::Partitions => self.partitions,
        }
    }

    /// Each family carries the name of its metric.
    pub closed spec fn wf(&self) -> bool {
        forall|d: Dimension| #[trigger] family_name(self.family_spec(d)) == metric_name(d)
    }

    /// The names of the families registered so far.
    pub closed spec fn registry_names(&self) -> Set<Seq<char>> {
        registered_names(self.registry)
    }

    /// The descriptor ids registered so far.
    pub closed spec fn registry_ids(&self) -> Set<u64> {
        registered_ids(self.registry)
    }

    /// What has been handed to the gauges of the family `d`, in order: the
    /// writes, not what the exposition shows (prometheus finds a gauge by a
    /// hash of its label values run together, so two label triples may
    /// share one).
    pub open spec fn writes(&self, d: Dimension) -> Seq<(GroupKey, i64)> {
        gauge_writes(self.family_spec(d))
    }

    /// Makes the five gauge families and an empty registry; nothing is
    /// registered or set yet.
    pub fn new() -> (r: Result<Exporter, CollectError>)
        ensures
            r matches Ok(e) && e.wf() && e.registry_names() == Set::<Seq<char>>::empty()
                && e.registry_ids() == Set::<u64>::empty() && forall|d: Dimension| #[trigger]
                e.writes(d) == Seq::<(GroupKey, i64)>::empty(),
    {
        proof {
            reveal_strlit("slurm_job_nodes");
            reveal_strlit("slurm_job_tasks");
            reveal_strlit("slurm_job_cpus");
            reveal_strlit("slurm_job_count");
            reveal_strlit("partition_states");
            reveal_strlit("SLURM jobs number of allocated or requested nodes");
            reveal_strlit("SLURM jobs number of allocated or requested tasks");
            reveal_strlit("SLURM jobs number of allocated or requested CPUs");
            reveal_strlit("SLURM jobs number of jobs");
            reveal_strlit("State of partitions of each cluster");
        }
        let job_nodes = make_family(
            constants::METRIC_JOBS_NODES_NAME,
            constants::METRIC_JOBS_NODES_HELP,
        )?;
        let job_tasks = make_family(
            constants::METRIC_JOBS_TASKS_NAME,
            constants::METRIC_JOBS_TASKS_HELP,
        )?;
        let job_cpus = make_family(
            constants::METRIC_JOBS_CPUS_NAME,
            constants::METRIC_JOBS_CPUS_HELP,
        )?;
        let job_count = make_family(
            constants::METRIC_JOBS_COUNT_NAME,
            constants::METRIC_JOBS_COUNT_HELP,
        )?;
        let partitions = make_family(
            constants::METRIC_PARTITIONS_NAME,
            constants::METRIC_PARTITIONS_HELP,
        )?;
        let e = Exporter {
            registry: new_registry(),
            job_nodes,
            job_tasks,
            job_cpus,
            job_count,
            partitions,
        };
        assert(forall|d: Dimension| #[trigger] family_name(e.family_spec(d)) == metric_name(d));
        Ok(e)
    }

    /// Hands the gauge of each row of `table` in the family `d` the row's
    /// total (see `gauge_value`), once each, and hands nothing else.
    pub fn publish(&mut self, d: Dimension, table: &CountTable)
        requires
            old(self).wf(),
            table.wf(),
        ensures
            final(self).wf(),
            final(self).registry_names() == old(self).registry_names(),
            final(self).registry_ids() == old(self).registry_ids(),
            appends_totals(old(self).writes(d), final(self).writes(d), table@),
            forall|d2: Dimension| d2 != d ==> #[trigger] final(self).writes(d2) == old(self).writes(d2),
    {
        match d {
            Dimension::JobNodes => publish_family(&mut self.job_nodes, table),
            Dimension::JobTasks => publish_family(&mut self.job_tasks, table),
            Dimension::JobCpus => publish_family(&mut self.job_cpus, table),
            Dimension::JobCount => publish_family(&mut self.job_count, table),
            Dimension::Partitions => publish_family(&mut self.partitions, table),
        }
        assert forall|d2: Dimension| #[trigger] family_name(self.family_spec(d2)) == metric_name(d2) by {
            assert(family_name(old(self).family_spec(d2)) == metric_name(d2));
        }
    }

    /// The registered families and their values in the text exposition
    /// format.
    pub fn encode(&self) -> (r: Result<String, CollectError>)
        ensures
            r matches Err(e) ==> e is PublishFailure,
    {
        let families = gather(&self.registry);
        match encode_text(&families) {
            Ok(text) => Ok(text),
            Err(m) => Err(publish_error(m)),
        }
    }
}

/// The name of the metric of the family `d`.
pub open spec fn metric_name(d: Dimension) -> Seq<char> {
    match d {
        Dimension::JobNodes => constants::METRIC_JOBS_NODES_NAME@,
        Dimension::JobTasks => constants::METRIC_JOBS_TASKS_NAME@,
        Dimension::JobCpus => constants::METRIC_JOBS_CPUS_NAME@,
        Dimension::JobCount => constants::METRIC_JOBS_COUNT_NAME@,
        Dimension::Partitions => constants::METRIC_PARTITIONS_NAME@,
    }
}

/// The names of the enabled families.
pub open spec fn enabled_names(selection: MetricSelection) -> Set<Seq<char>> {
    Set::new(|n: Seq<char>| exists|d: Dimension| selection.enabled(d) && metric_name(d) == n)
}

/// The descriptor ids of the enabled families.
pub open spec fn enabled_ids(selection: MetricSelection) -> Set<u64> {
    Set::new(
        |id: u64| exists|d: Dimension| selection.enabled(d) && descriptor_id(metric_name(d)) == id,
    )
}

/// The names of the families among the first `i` of `v`.
pub open spec fn names_of(v: Seq<Dimension>, i: int) -> Set<Seq<char>> {
    Set::new(|n: Seq<char>| exists|j: int| 0 <= j < i && #[trigger] metric_name(v[j]) == n)
}

/// The descriptor ids of the families among the first `i` of `v`.
pub open spec fn ids_of(v: Seq<Dimension>, i: int) -> Set<u64> {
    Set::new(|id: u64| exists|j: int| 0 <= j < i && #[trigger] descriptor_id(metric_name(v[j])) == id)
}

/// Registers the family `d` in the exporter's registry.
fn register_dimension(exporter: &mut Exporter, d: Dimension) -> (r: Result<(), String>)
    requires
        old(exporter).wf(),
    ensures
        final(exporter).wf(),
        forall|d2: Dimension| #[trigger] final(exporter).writes(d2) == old(exporter).writes(d2),
        old(exporter).registry_names().contains(metric_name(d)) ==> r is Err,
        !old(exporter).registry_ids().contains(descriptor_id(metric_name(d))) ==> r is Ok,
        r is Ok ==> final(exporter).registry_names() == old(exporter).registry_names().insert(
            metric_name(d),
        ) && final(exporter).registry_ids() == old(exporter).registry_ids().insert(
            descriptor_id(metric_name(d)),
        ),
        r is Err ==> final(exporter).registry_names() == old(exporter).registry_names()
            && final(exporter).registry_ids() == old(exporter).registry_ids(),
{
    proof {
        assert(family_name(exporter.family_spec(d)) == metric_name(d));
    }
    let r = match d {
        Dimension::JobNodes => register_family(&mut exporter.registry, &exporter.job_nodes),
        Dimension::JobTasks => register_family(&mut exporter.registry, &exporter.job_tasks),
        Dimension::JobCpus => register_family(&mut exporter.registry, &exporter.job_cpus),
        Dimension::JobCount => register_family(&mut exporter.registry, &exporter.job_count),
        Dimension::Partitions => register_family(&mut exporter.registry, &exporter.partitions),
    };
    assert forall|d2: Dimension| #[trigger] family_name(exporter.family_spec(d2)) == metric_name(d2) by {
        assert(family_name(old(exporter).family_spec(d2)) == metric_name(d2));
    }
    r
}

/// Registers the family of each enabled metric, and no other, in the
/// exporter's registry, and returns them in order. A disabled family is
/// never registered. Registration succeeds where no enabled family's
/// descriptor id is registered yet and the enabled families' ids differ,
/// and fails where an enabled family's name is registered already.
pub fn register(exporter: &mut Exporter, selection: &MetricSelection) -> (r: Result<
    Vec<Dimension>,
    CollectError,
>)
    requires
        old(exporter).wf(),
    ensures
        final(exporter).wf(),
        forall|d: Dimension| #[trigger] final(exporter).writes(d) == old(exporter).writes(d),
        r matches Ok(v) ==> (forall|d: Dimension| v@.contains(d) <==> selection.enabled(d))
            && v@.no_duplicates(),
        r is Ok ==> final(exporter).registry_names() == old(exporter).registry_names()
            + enabled_names(*selection) && final(exporter).registry_ids()
            == old(exporter).registry_ids() + enabled_ids(*selection),
        final(exporter).registry_names().subset_of(
            old(exporter).registry_names() + enabled_names(*selection),
        ),
        r matches Err(e) ==> e is PublishFailure,
        (forall|d: Dimension| #[trigger] selection.enabled(d) ==> !old(exporter).registry_ids().contains(
            descriptor_id(metric_name(d)),
        )) && (forall|d1: Dimension, d2: Dimension|
            #![trigger selection.enabled(d1), selection.enabled(d2)]
            selection.enabled(d1) && selection.enabled(d2) && d1 != d2 ==> descriptor_id(
                metric_name(d1),
            ) != descriptor_id(metric_name(d2))) ==> r is Ok,
        (exists|d: Dimension| #[trigger] selection.enabled(d) && old(exporter).registry_names().contains(
            metric_name(d),
        )) ==> r is Err,
        (forall|d: Dimension| !selection.enabled(d)) ==> (r matches Ok(v) && v@.len() == 0),
{
    let families = selection.selected_families();
    let ghost v = families@;
    let ghost names0 = exporter.registry_names();
    let ghost ids0 = exporter.registry_ids();
    proof {
        if families@.len() > 0 {
            assert(families@.contains(families@[0]));
            assert(selection.enabled(families@[0]));
        }
        assert(names_of(v, 0) =~= Set::<Seq<char>>::empty());
        assert(ids_of(v, 0) =~= Set::<u64>::empty());
        assert(names0 + names_of(v, 0) =~= names0);
        assert(ids0 + ids_of(v, 0) =~= ids0);
    }
    let mut i: usize = 0;
    while i < families.len()
        invariant
            i <= families.len(),
            v == families@,
            forall|d: Dimension| v.contains(d) <==> selection.enabled(d),
            v.no_duplicates(),
            v.len() > 0 ==> selection.enabled(v[0]),
            exporter.wf(),
            forall|d: Dimension| #[trigger] exporter.writes(d) == old(exporter).writes(d),
            names0 == old(exporter).registry_names(),
            ids0 == old(exporter).registry_ids(),
            exporter.registry_names() == names0 + names_of(v, i as int),
            exporter.registry_ids() == ids0 + ids_of(v, i as int),
            forall|j: int| 0 <= j < i ==> !names0.contains(#[trigger] metric_name(v[j])),
        decreases families.len() - i,
    {
        let d = families[i];
        let ghost before_ids = exporter.registry_ids();
        assert(v.contains(d));
        let res = register_dimension(exporter, d);
        proof {
            if (forall|d1: Dimension| #[trigger] selection.enabled(d1) ==> !ids0.contains(
                descriptor_id(metric_name(d1)),
            )) && (forall|d1: Dimension, d2: Dimension|
                #![trigger selection.enabled(d1), selection.enabled(d2)]
                selection.enabled(d1) && selection.enabled(d2) && d1 != d2 ==> descriptor_id(
                    metric_name(d1),
                ) != descriptor_id(metric_name(d2))) {
                assert forall|j: int| 0 <= j < i implies descriptor_id(metric_name(v[j]))
                    != descriptor_id(metric_name(d)) by {
                    assert(v.contains(v[j]));
                    assert(v[j] != v[i as int]);
                }
                assert(!before_ids.contains(descriptor_id(metric_name(d))));
                assert(res is Ok);
            }
        }
        match res {
            Ok(()) => {},
            Err(m) => {
                proof {
                    assert forall|n: Seq<char>| exporter.registry_names().contains(n) implies (
                    names0 + enabled_names(*selection)).contains(n) by {
                        if !names0.contains(n) {
                            let j = choose|j: int| 0 <= j < i && #[trigger] metric_name(v[j]) == n;
                            assert(v.contains(v[j]));
                            assert(selection.enabled(v[j]));
                        }
                    }
                    if exists|d2: Dimension| #[trigger] selection.enabled(d2) && names0.contains(
                        metric_name(d2),
                    ) {
                    }
                }
                return Err(publish_error(m));
            },
        }
        proof {
            assert(exporter.registry_names() =~= names0 + names_of(v, i + 1));
            assert(exporter.registry_ids() =~= ids0 + ids_of(v, i + 1));
        }
        i = i + 1;
    }
    proof {
        assert forall|n: Seq<char>| names_of(v, v.len() as int).contains(n) <==> enabled_names(
            *selection,
        ).contains(n) by {
            if names_of(v, v.len() as int).contains(n) {
                let j = choose|j: int| 0 <= j < v.len() && #[trigger] metric_name(v[j]) == n;
                assert(v.contains(v[j]));
            }
            if enabled_names(*selection).contains(n) {
                let d = choose|d: Dimension| selection.enabled(d) && metric_name(d) == n;
                assert(v.contains(d));
                let j = choose|j: int| 0 <= j < v.len() && v[j] == d;
                assert(metric_name(v[j]) == n);
            }
        }
        assert forall|id: u64| ids_of(v, v.len() as int).contains(id) <==> enabled_ids(
            *selection,
        ).contains(id) by {
            if ids_of(v, v.len() as int).contains(id) {
                let j = choose|j: int| 0 <= j < v.len() && #[trigger] descriptor_id(metric_name(v[j])) == id;
                assert(v.contains(v[j]));
            }
            if enabled_ids(*selection).contains(id) {
                let d = choose|d: Dimension| selection.enabled(d) && descriptor_id(metric_name(d)) == id;
                assert(v.contains(d));
                let j = choose|j: int| 0 <= j < v.len() && v[j] == d;
                assert(descriptor_id(metric_name(v[j])) == id);
            }
        }
        assert(names_of(v, v.len() as int) =~= enabled_names(*selection));
        assert(ids_of(v, v.len() as int) =~= enabled_ids(*selection));
        assert(forall|d: Dimension| !(#[trigger] selection.enabled(d) && names0.contains(metric_name(d)))) by {
            assert forall|d: Dimension| #[trigger] selection.enabled(d) implies !names0.contains(metric_name(d)) by {
                assert(v.contains(d));
                let j = choose|j: int| 0 <= j < v.len() && v[j] == d;
                assert(!names0.contains(metric_name(v[j])));
            }
        }
    }
    Ok(families)
}

} // verus!
