//! Runs of the workload engine and the notes attached to them.

use vstd::prelude::*;
use crate::model::time::UtcTimestamp;
use crate::model::workload::WorkloadKind;

verus! {

/// One workload as it ran inside a run, with the configuration it ran with.
#[derive(Debug, Clone)]
pub struct RunWorkload {
    pub id: String,
    pub run_id: String,
    pub workload_id: String,
    pub kind: WorkloadKind,
    pub config_snapshot_json: String,
}

/// One execution of a scenario or of an ad-hoc configuration.
#[derive(Debug, Clone)]
pub struct Run {
    pub id: String,
    pub scenario_id: Option<String>,
    pub name: String,
    pub tags: Vec<String>,
    pub description: String,
    pub status: RunStatus,
    pub started_at: UtcTimestamp,
    pub stopped_at: Option<UtcTimestamp>,
    pub workloads: Vec<RunWorkload>,
    pub baseline_of_scenario_id: Option<String>,
}

/// A note on a run's timeline, possibly tied to one of its workloads.
#[derive(Debug, Clone)]
pub struct Annotation {
    pub id: String,
    pub run_id: String,
    pub run_workload_id: Option<String>,
    pub ts: UtcTimestamp,
    pub category: AnnotationCategory,
    pub title: String,
    pub detail: String,
}

/// Where a run is in its life.
#[derive(Debug, Clone, Copy, PartialEq, Eq, Structural)]
pub enum RunStatus {
    Pending,
    Running,
    Completed,
    Stopped,
    Failed,
}

/// Where a note on a run's timeline comes from.
#[derive(Debug, Clone, Copy, PartialEq, Eq, Structural)]
pub enum AnnotationCategory {
    Manual,
    BrokerEvent,
    SlaBreach,
    ConfigChange,
}

} // verus!
