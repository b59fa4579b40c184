//! Names, defaults and texts of the exporter.
use vstd::prelude::*;

verus! {

pub const NAME: &'static str = "prometheus-slurm-exporter";

pub const VERSION: &'static str = "1.0.0-20220327";

pub const DEFAULT_LISTEN_ADDRESS: &'static str = "localhost:9703";

pub const DEFAULT_METRICS_PATH: &'static str = "metrics";

/// The cluster selection used when none is given: every cluster.
pub const SLURM_CLUSTERS: &'static str = "all";

pub const ROOT_HTML: &'static str = "<html>\n<head><title>SLURM exporter</title></head>\n<body>\n<h1>SLURM exporter</h1>\n<p><a href=\"/metric\">Metrics</a></p>\n</body>\n</html>\n";

/// The labels of every published gauge.
pub const LABEL_CLUSTER: &'static str = "cluster";

pub const LABEL_PARTITION: &'static str = "partition";

pub const LABEL_STATE: &'static str = "state";

pub const METRIC_PARTITIONS_NAME: &'static str = "partition_states";

pub const METRIC_PARTITIONS_HELP: &'static str = "State of partitions of each cluster";

pub const METRIC_JOBS_NODES_NAME: &'static str = "slurm_job_nodes";

pub const METRIC_JOBS_NODES_HELP: &'static str = "SLURM jobs number of allocated or requested nodes";

pub const METRIC_JOBS_TASKS_NAME: &'static str = "slurm_job_tasks";

pub const METRIC_JOBS_TASKS_HELP: &'static str = "SLURM jobs number of allocated or requested tasks";

pub const METRIC_JOBS_CPUS_NAME: &'static str = "slurm_job_cpus";

pub const METRIC_JOBS_CPUS_HELP: &'static str = "SLURM jobs number of allocated or requested CPUs";

pub const METRIC_JOBS_COUNT_NAME: &'static str = "slurm_job_count";

pub const METRIC_JOBS_COUNT_HELP: &'static str = "SLURM jobs number of jobs";

} // verus!
