//! The sequential scheduler: runs a topologically ordered workflow one
//! step at a time as a state machine. The surrounding program asks for the
//! current task, executes it with its runner, and records the outcome; the
//! machine gathers each step's inputs from the result store, publishes
//! each output exactly once, and stops at the first failure, keeping the
//! outcomes of everything executed so far.

use vstd::prelude::*;
use crate::json::{JsonValue, JsonView};
use crate::outcome::{ExecutionStatus, StepStatus, WorkflowExecution, WorkflowStep};
use crate::resolve::{spec_is_topo_order, spec_views};
use crate::step::{Step, StepView, spec_unique_names};
use crate::store::{
    lemma_store_get_entry, spec_gathered, spec_store_get, spec_store_view, ResultStore,
};
use crate::text::concat_strs;

verus! {

/// One run of a workflow, executed in order.
pub struct RunState {
    /// The steps, topologically ordered.
    pub order: Vec<Step>,
    /// How many steps have been recorded.
    pub executed: usize,
    /// The outputs published so far.
    pub store: ResultStore,
    /// The per-step trace so far.
    pub outcomes: Vec<WorkflowStep>,
    /// The run's status.
    pub status: ExecutionStatus,
    /// The triggering error when the run failed.
    pub error: Option<String>,
}

impl RunState {
    /// The machine's invariant: the trace matches the executed prefix, the
    /// store's keys all come from it, and the status reflects progress.
    pub open spec fn inv(self) -> bool {
        &&& spec_unique_names(spec_views(self.order@))
        &&& spec_is_topo_order(spec_views(self.order@))
        &&& self.executed <= self.order@.len()
        &&& self.outcomes@.len() == self.executed
        &&& forall|e: int|
            0 <= e < self.store@.len() ==> exists|i: int|
                0 <= i < self.executed && spec_views(self.order@)[i].name == (#[trigger] self.store@[
                e]).0
        &&& (self.status is NotStarted ==> self.executed == 0)
        &&& (self.status is Completed ==> self.executed == self.order@.len())
        &&& (self.status is Failed <==> self.error is Some)
        &&& (self.status is Running ==> self.executed < self.order@.len())
    }

    /// Whether a next task exists: the run has not failed and steps remain.
    pub open spec fn spec_has_task(self) -> bool {
        !(self.status is Failed) && self.executed < self.order@.len()
    }

    /// A fresh run over a topologically ordered step list.
    pub fn start(order: Vec<Step>) -> (r: RunState)
        requires
            spec_unique_names(spec_views(order@)),
            spec_is_topo_order(spec_views(order@)),
        ensures
            r.inv(),
            r.order@ == order@,
            r.executed == 0,
            r.store@ == Seq::<(Seq<char>, JsonView)>::empty(),
            r.outcomes@ == Seq::<WorkflowStep>::empty(),
            r.status is NotStarted,
            r.error is None,
    {
        RunState {
            order,
            executed: 0,
            store: ResultStore::new(),
            outcomes: Vec::new(),
            status: ExecutionStatus::NotStarted,
            error: None,
        }
    }

    /// The next step to run, with exactly its dependencies' outputs as
    /// inputs; nothing when the run has failed or finished.
    pub fn current_task(&self) -> (r: Option<(Step, Vec<(String, JsonValue)>)>)
        requires
            self.inv(),
        ensures
            r is Some <==> self.spec_has_task(),
            r matches Some(t) ==> t.0@ == spec_views(self.order@)[self.executed as int]
                && spec_store_view(t.1@) == spec_gathered(
                self.store@,
                spec_views(self.order@)[self.executed as int].depends_on,
            ),
    {
        if matches!(self.status, ExecutionStatus::Failed) {
            return None;
        }
        if self.executed >= self.order.len() {
            return None;
        }
        let step = self.order[self.executed].duplicate();
        let inputs = self.store.gather_inputs(&step.depends_on);
        proof {
            assert(step@.depends_on == spec_views(self.order@)[self.executed as int].depends_on);
        }
        Some((step, inputs))
    }

    /// Records the current step's success: publishes its output under its
    /// name, appends a success outcome, and advances; the run completes
    /// when this was the last step.
    pub fn record_success(&mut self, output: JsonValue, rendered: String, duration_ms: u64)
        requires
            old(self).inv(),
            old(self).spec_has_task(),
        ensures
            final(self).inv(),
            final(self).order@ == old(self).order@,
            final(self).executed == old(self).executed + 1,
            final(self).store@ == old(self).store@.push(
                (spec_views(old(self).order@)[old(self).executed as int].name, output@),
            ),
            final(self).outcomes@.len() == old(self).outcomes@.len() + 1,
            final(self).outcomes@.subrange(0, old(self).outcomes@.len() as int) == old(
                self,
            ).outcomes@,
            ({
                let rec = final(self).outcomes@.last();
                &&& rec.step_number == old(self).executed + 1
                &&& rec.name@ == spec_views(old(self).order@)[old(self).executed as int].name
                &&& rec.language@ == spec_views(old(self).order@)[old(self).executed as int].language
                &&& rec.output matches Some(o) && o@ == rendered@
                &&& rec.status is Success
                &&& rec.duration_ms == Some(duration_ms)
            }),
            final(self).status is Completed <==> old(self).executed + 1 == old(self).order@.len(),
            final(self).status is Completed || final(self).status is Running,
            final(self).error is None,
    {
        let ghost sv = spec_views(self.order@);
        let i = self.executed;
        let order_len = self.order.len();
        assert(i < order_len);
        let num = i + 1;
        let step = &self.order[i];
        proof {
            if spec_store_get(self.store@, step.name@) is Some {
                lemma_store_get_entry(self.store@, step.name@);
                let e = choose|e: int|
                    0 <= e < self.store@.len() && (#[trigger] self.store@[e]).0 == step.name@;
                let j = choose|j: int|
                    0 <= j < self.executed && spec_views(self.order@)[j].name == self.store@[e].0;
                assert(sv[j].name != sv[i as int].name);
            }
        }
        let name_copy = step.name.clone();
        let language_copy = step.language.clone();
        self.store.publish(name_copy, output);
        let rec = WorkflowStep {
            step_number: num,
            name: self.order[i].name.clone(),
            language: language_copy,
            output: Some(rendered),
            status: StepStatus::Success,
            duration_ms: Some(duration_ms),
        };
        let ghost outcomes_before = self.outcomes@;
        self.outcomes.push(rec);
        self.executed = i + 1;
        self.status = if self.executed == self.order.len() {
            ExecutionStatus::Completed
        } else {
            ExecutionStatus::Running
        };
        self.error = None;
        proof {
            assert(final(self).outcomes@.subrange(0, outcomes_before.len() as int)
                =~= outcomes_before);
        }
    }

    /// Records the current step's failure: the run is failed with that
    /// message, the step's outcome says so, nothing is published, and no
    /// further task exists.
    pub fn record_failure(&mut self, message: String, duration_ms: u64)
        requires
            old(self).inv(),
            old(self).spec_has_task(),
        ensures
            final(self).inv(),
            final(self).order@ == old(self).order@,
            final(self).executed == old(self).executed + 1,
            final(self).store@ == old(self).store@,
            final(self).outcomes@.len() == old(self).outcomes@.len() + 1,
            final(self).outcomes@.subrange(0, old(self).outcomes@.len() as int) == old(
                self,
            ).outcomes@,
            ({
                let rec = final(self).outcomes@.last();
                &&& rec.step_number == old(self).executed + 1
                &&& rec.name@ == spec_views(old(self).order@)[old(self).executed as int].name
                &&& rec.output matches Some(o) && o@ == "Error: "@ + message@
                &&& rec.status is Failed
                &&& rec.duration_ms == Some(duration_ms)
            }),
            final(self).status is Failed,
            final(self).error matches Some(m) && m@ == message@,
            !final(self).spec_has_task(),
    {
        let i = self.executed;
        let order_len = self.order.len();
        assert(i < order_len);
        let num = i + 1;
        let rec = WorkflowStep {
            step_number: num,
            name: self.order[i].name.clone(),
            language: self.order[i].language.clone(),
            output: Some(concat_strs("Error: ", message.as_str())),
            status: StepStatus::Failed,
            duration_ms: Some(duration_ms),
        };
        let ghost outcomes_before = self.outcomes@;
        self.outcomes.push(rec);
        self.executed = i + 1;
        self.status = ExecutionStatus::Failed;
        self.error = Some(message);
        proof {
            assert(final(self).outcomes@.subrange(0, outcomes_before.len() as int)
                =~= outcomes_before);
        }
    }

    /// The run's trace: its outcomes and final status, for observers.
    pub fn into_execution(self, workflow_name: String, total_duration_ms: u64) -> (r:
        WorkflowExecution)
        requires
            self.inv(),
        ensures
            r.workflow_name@ == workflow_name@,
            r.status == (if self.status is Failed {
                ExecutionStatus::Failed
            } else {
                ExecutionStatus::Completed
            }),
            r.steps@ == self.outcomes@,
            r.total_duration_ms == Some(total_duration_ms),
            r.error == self.error,
    {
        let status = if matches!(self.status, ExecutionStatus::Failed) {
            ExecutionStatus::Failed
        } else {
            ExecutionStatus::Completed
        };
        WorkflowExecution {
            workflow_name,
            status,
            steps: self.outcomes,
            total_duration_ms: Some(total_duration_ms),
            error: self.error,
        }
    }
}

/// Failure propagation: once a run has failed, it offers no further task,
/// so no later step ever executes.
pub proof fn lemma_failure_stops_run(s: RunState)
    requires
        s.inv(),
        s.status is Failed,
    ensures
        !s.spec_has_task(),
{
}

} // verus!
