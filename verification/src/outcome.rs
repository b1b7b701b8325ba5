//! Per-step and per-run observability records: what a run reports about
//! each step and about itself.

use vstd::prelude::*;

verus! {

/// The lifecycle of one step.
#[derive(Clone, Copy, Debug, PartialEq, Eq, Structural)]
pub enum StepStatus {
    Pending,
    Running,
    Success,
    Failed,
}

/// The lifecycle of one run.
#[derive(Clone, Copy, Debug, PartialEq, Eq, Structural)]
pub enum ExecutionStatus {
    NotStarted,
    Running,
    Completed,
    Failed,
}

/// One step's outcome in a run's trace.
#[derive(Debug)]
pub struct WorkflowStep {
    /// One-based position in execution order.
    pub step_number: usize,
    /// The step's name.
    pub name: String,
    /// The step's language tag.
    pub language: String,
    /// The rendered output on success, or the failure description.
    pub output: Option<String>,
    /// How the step ended.
    pub status: StepStatus,
    /// How long the step ran.
    pub duration_ms: Option<u64>,
}

/// A whole run's trace: ordered step outcomes plus the overall status.
#[derive(Debug)]
pub struct WorkflowExecution {
    /// The workflow's name.
    pub workflow_name: String,
    /// How the run ended.
    pub status: ExecutionStatus,
    /// Per-step outcomes, in execution order.
    pub steps: Vec<WorkflowStep>,
    /// The whole run's duration.
    pub total_duration_ms: Option<u64>,
    /// The triggering error when the run failed.
    pub error: Option<String>,
}

} // verus!
