//! Workload-manager metrics: the job and partition query output is read
//! line by line, folded into totals per (cluster, partition, state), and
//! published as labelled gauges, each family only where it is enabled.
pub mod aggregate;
pub mod constants;
pub mod error;
pub mod exporter;
pub mod output;
pub mod record;
pub mod scrape;
pub mod selection;
pub mod table;
pub mod text;
