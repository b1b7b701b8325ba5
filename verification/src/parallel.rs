//! The parallel scheduler's decision core: a state machine over execution
//! levels. The surrounding program launches one task per step of the
//! current level (any concurrency limit only slows them down, it never
//! reorders levels), then hands all of the level's results back at once.
//! A step's inputs are read from the store as the level is planned, so a
//! step never starts before every earlier level — and so every one of its
//! dependencies — has published. A failed level fails the run and no later
//! level is ever planned, while the completed siblings' outputs stay
//! published and every outcome stays in the trace.

use vstd::prelude::*;
use crate::json::{JsonValue, JsonView};
use crate::outcome::{ExecutionStatus, StepStatus, WorkflowStep};
use crate::resolve::{spec_good_levels, spec_level_views, spec_views};
use crate::step::{Step, StepView};
use crate::store::{
    lemma_store_get_entry, spec_gathered, spec_store_get, spec_store_view, ResultStore,
};
use crate::text::concat_strs;

verus! {

/// One step of the current level, with its input snapshot.
pub struct LevelTask {
    /// The step to run.
    pub step: Step,
    /// Its dependencies' published outputs, gathered when the level was
    /// planned.
    pub inputs: Vec<(String, JsonValue)>,
}

/// How one task of a level ended.
pub enum TaskOutcome {
    /// The step's output, its rendered form, and the task's duration.
    Success { output: JsonValue, rendered: String, duration_ms: u64 },
    /// The failure description and the task's duration.
    Failure { message: String, duration_ms: u64 },
}

/// The published entries a level's results add to the store: one entry per
/// success, keyed by the step's name, in level order.
pub open spec fn spec_published(
    row: Seq<StepView>,
    results: Seq<TaskOutcome>,
    t: int,
) -> Seq<(Seq<char>, JsonView)>
    decreases t,
{
    if t <= 0 {
        Seq::empty()
    } else {
        let rest = spec_published(row, results, t - 1);
        match results[t - 1] {
            TaskOutcome::Success { output, .. } => rest.push((row[t - 1].name, output@)),
            TaskOutcome::Failure { .. } => rest,
        }
    }
}

/// Whether some result of the level failed.
pub open spec fn spec_any_failure(results: Seq<TaskOutcome>) -> bool {
    exists|x: int| 0 <= x < results.len() && (#[trigger] results[x]) is Failure
}

/// Every store key is the name of a step in a level below the bound.
pub open spec fn spec_keys_from(
    store: Seq<(Seq<char>, JsonView)>,
    lv: Seq<Seq<StepView>>,
    bound: int,
) -> bool {
    forall|e: int|
        0 <= e < store.len() ==> exists|q: int, x: int|
            0 <= q < bound && 0 <= x < lv[q].len() && (#[trigger] store[e]).0 == lv[q][x].name
}

/// One parallel run of a workflow, level by level.
pub struct ParallelRun {
    /// The execution levels.
    pub levels: Vec<Vec<Step>>,
    /// How many levels have completed.
    pub next_level: usize,
    /// The outputs published so far.
    pub store: ResultStore,
    /// The per-step trace so far.
    pub outcomes: Vec<WorkflowStep>,
    /// How many steps have been recorded.
    pub executed: usize,
    /// The run's status.
    pub status: ExecutionStatus,
    /// The triggering error when the run failed.
    pub error: Option<String>,
}

impl ParallelRun {
    /// The level table's views.
    pub open spec fn lv(self) -> Seq<Seq<StepView>> {
        spec_level_views(self.levels@)
    }

    /// The machine's invariant: the store's keys come from completed
    /// levels, and while the run is healthy it holds every completed
    /// level's output.
    pub open spec fn inv(self) -> bool {
        &&& crate::resolve::spec_levels_names_unique(self.lv())
        &&& self.next_level <= self.lv().len()
        &&& self.outcomes@.len() == self.executed
        &&& (!(self.status is Failed) ==> spec_keys_from(
            self.store@,
            self.lv(),
            self.next_level as int,
        ))
        &&& (self.status is Failed ==> spec_keys_from(
            self.store@,
            self.lv(),
            self.next_level + 1,
        ))
        &&& (!(self.status is Failed) ==> forall|q: int, x: int|
            0 <= q < self.next_level && 0 <= x < self.lv()[q].len() ==> spec_store_get(
                self.store@,
                (#[trigger] self.lv()[q][x]).name,
            ) is Some)
        &&& (self.status is NotStarted ==> self.next_level == 0)
        &&& (self.status is Completed ==> self.next_level == self.lv().len())
        &&& (self.status is Failed <==> self.error is Some)
        &&& (self.status is Running ==> self.next_level < self.lv().len())
    }

    /// Whether a next level exists: the run has not failed and levels
    /// remain.
    pub open spec fn spec_has_level(self) -> bool {
        !(self.status is Failed) && self.next_level < self.lv().len()
    }

    /// A fresh run over a level partition of some step set.
    pub fn start(levels: Vec<Vec<Step>>) -> (r: ParallelRun)
        requires
            exists|sv: Seq<StepView>| spec_good_levels(sv, spec_level_views(levels@)),
        ensures
            r.inv(),
            r.levels@ == levels@,
            r.next_level == 0,
            r.store@ == Seq::<(Seq<char>, JsonView)>::empty(),
            r.outcomes@ == Seq::<WorkflowStep>::empty(),
            r.status is NotStarted,
            r.error is None,
    {
        proof {
            let sv = choose|sv: Seq<StepView>| spec_good_levels(sv, spec_level_views(levels@));
        }
        ParallelRun {
            levels,
            next_level: 0,
            store: ResultStore::new(),
            outcomes: Vec::new(),
            executed: 0,
            status: ExecutionStatus::NotStarted,
            error: None,
        }
    }

    /// Plans the current level: one task per step, each holding exactly its
    /// dependencies' published outputs. Nothing when the run has failed or
    /// finished. Because the whole plan is drawn before any result comes
    /// back, a step's inputs never see a sibling of its own level.
    pub fn plan_level(&self) -> (r: Option<Vec<LevelTask>>)
        requires
            self.inv(),
        ensures
            r is Some <==> self.spec_has_level(),
            r matches Some(ts) ==> {
                &&& ts@.len() == self.lv()[self.next_level as int].len()
                &&& forall|x: int|
                    0 <= x < ts@.len() ==> (#[trigger] ts@[x]).step@ == self.lv()[self.next_level as int][x]
                        && spec_store_view(ts@[x].inputs@) == spec_gathered(
                        self.store@,
                        self.lv()[self.next_level as int][x].depends_on,
                    )
            },
    {
        if matches!(self.status, ExecutionStatus::Failed) {
            return None;
        }
        if self.next_level >= self.levels.len() {
            return None;
        }
        let row = &self.levels[self.next_level];
        let mut ts: Vec<LevelTask> = Vec::new();
        let mut x: usize = 0;
        while x < row.len()
            invariant
                x <= row@.len(),
                self.inv(),
                self.next_level < self.levels@.len(),
                row@ == self.levels@[self.next_level as int]@,
                ts@.len() == x,
                forall|y: int|
                    0 <= y < x ==> (#[trigger] ts@[y]).step@ == self.lv()[self.next_level as int][y]
                        && spec_store_view(ts@[y].inputs@) == spec_gathered(
                        self.store@,
                        self.lv()[self.next_level as int][y].depends_on,
                    ),
            decreases row@.len() - x,
        {
            let step = row[x].duplicate();
            let inputs = self.store.gather_inputs(&step.depends_on);
            proof {
                assert(step@ == self.lv()[self.next_level as int][x as int]);
            }
            ts.push(LevelTask { step, inputs });
            x = x + 1;
        }
        Some(ts)
    }

    /// Completes the current level with its results, one per step.
    /// Successes are published even when a sibling failed; a failure marks
    /// the run failed with the first failing message and no later level is
    /// planned; otherwise the run advances, completing after the last
    /// level.
    #[verifier::rlimit(100)]
    pub fn complete_level(&mut self, results: Vec<TaskOutcome>)
        requires
            old(self).inv(),
            old(self).spec_has_level(),
            results@.len() == old(self).lv()[old(self).next_level as int].len(),
            old(self).executed + results@.len() <= usize::MAX,
        ensures
            final(self).inv(),
            final(self).levels@ == old(self).levels@,
            final(self).store@ == old(self).store@ + spec_published(
                old(self).lv()[old(self).next_level as int],
                results@,
                results@.len() as int,
            ),
            final(self).outcomes@.len() == old(self).outcomes@.len() + results@.len(),
            final(self).outcomes@.subrange(0, old(self).outcomes@.len() as int) == old(
                self,
            ).outcomes@,
            forall|x: int|
                0 <= x < results@.len() ==> {
                    let rec = #[trigger] final(self).outcomes@[old(self).outcomes@.len() + x];
                    &&& rec.name@ == old(self).lv()[old(self).next_level as int][x].name
                    &&& rec.step_number == old(self).executed + x + 1
                    &&& (rec.status is Success <==> results@[x] is Success)
                    &&& (results@[x] matches TaskOutcome::Success { duration_ms, .. }
                        ==> rec.duration_ms == Some(duration_ms))
                    &&& (results@[x] matches TaskOutcome::Failure { duration_ms, .. }
                        ==> rec.duration_ms == Some(duration_ms))
                },
            spec_any_failure(results@) ==> final(self).status is Failed && final(self).next_level
                == old(self).next_level && !final(self).spec_has_level(),
            !spec_any_failure(results@) ==> final(self).status is Completed == (old(
                self,
            ).next_level + 1 == old(self).lv().len()) && final(self).next_level == old(
                self,
            ).next_level + 1 && final(self).error is None,
    {
        let ghost lv = self.lv();
        let p = self.next_level;
        let row_len = self.levels[p].len();
        let mut x: usize = 0;
        let mut first_error: Option<String> = None;
        let ghost store_entry = self.store@;
        let ghost outcomes_entry = self.outcomes@;
        let executed_entry = self.executed;
        while x < row_len
            invariant
                x <= row_len,
                self.levels@ == old(self).levels@,
                self.lv() == lv,
                p == old(self).next_level,
                self.next_level == p,
                p < lv.len(),
                row_len == lv[p as int].len(),
                results@.len() == row_len,
                crate::resolve::spec_levels_names_unique(lv),
                self.status == old(self).status,
                self.error == old(self).error,
                !(self.status is Failed),
                self.executed == executed_entry + x,
                self.outcomes@.len() == self.executed,
                outcomes_entry.len() == executed_entry,
                self.store@ == store_entry + spec_published(lv[p as int], results@, x as int),
                self.outcomes@.subrange(0, outcomes_entry.len() as int) == outcomes_entry,
                forall|y: int|
                    0 <= y < x ==> {
                        let rec = #[trigger] self.outcomes@[outcomes_entry.len() + y];
                        &&& rec.name@ == lv[p as int][y].name
                        &&& rec.step_number == executed_entry + y + 1
                        &&& (rec.status is Success <==> results@[y] is Success)
                        &&& (results@[y] matches TaskOutcome::Success { duration_ms, .. }
                            ==> rec.duration_ms == Some(duration_ms))
                        &&& (results@[y] matches TaskOutcome::Failure { duration_ms, .. }
                            ==> rec.duration_ms == Some(duration_ms))
                    },
                executed_entry + row_len <= usize::MAX,
                first_error is Some <==> spec_any_failure(results@.subrange(0, x as int)),
                forall|e: int|
                    0 <= e < self.store@.len() ==> exists|q: int, y: int|
                        0 <= q <= p && 0 <= y < lv[q].len() && (q < p || y < x) && (
                        #[trigger] self.store@[e]).0 == lv[q][y].name,
                forall|q: int, y: int|
                    0 <= q < p && 0 <= y < lv[q].len() ==> spec_store_get(
                        self.store@,
                        (#[trigger] lv[q][y]).name,
                    ) is Some,
            decreases row_len - x,
        {
            let ghost store_before = self.store@;
            let num = self.executed + 1;
            let name = self.levels[p][x].name.clone();
            let language = self.levels[p][x].language.clone();
            proof {
                assert(lv[p as int][x as int] == self.levels@[p as int]@[x as int]@);
                assert(name@ == lv[p as int][x as int].name);
            }
            match &results[x] {
                TaskOutcome::Success { output, rendered, duration_ms } => {
                    proof {
                        if spec_store_get(self.store@, name@) is Some {
                            lemma_store_get_entry(self.store@, name@);
                            let e = choose|e: int|
                                0 <= e < self.store@.len() && (#[trigger] self.store@[e]).0
                                    == name@;
                            let qy = choose|q: int, y: int|
                                0 <= q <= p && 0 <= y < lv[q].len() && (q < p || y < x as int)
                                    && self.store@[e].0 == lv[q][y].name;
                            assert(lv[qy.0][qy.1].name != lv[p as int][x as int].name);
                            assert(false);
                        }
                    }
                    self.store.publish(name.clone(), crate::json::json_clone(output));
                    let rec = WorkflowStep {
                        step_number: num,
                        name,
                        language,
                        output: Some(rendered.clone()),
                        status: StepStatus::Success,
                        duration_ms: Some(*duration_ms),
                    };
                    self.outcomes.push(rec);
                }
                TaskOutcome::Failure { message, duration_ms } => {
                    let rec = WorkflowStep {
                        step_number: num,
                        name,
                        language,
                        output: Some(concat_strs("Error: ", message.as_str())),
                        status: StepStatus::Failed,
                        duration_ms: Some(*duration_ms),
                    };
                    self.outcomes.push(rec);
                    if first_error.is_none() {
                        first_error = Some(message.clone());
                    }
                }
            }
            self.executed = self.executed + 1;
            proof {
                assert(results@.subrange(0, x as int + 1).drop_last() =~= results@.subrange(
                    0,
                    x as int,
                ));
                assert(results@.subrange(0, x as int + 1).last() == results@[x as int]);
                assert(self.store@ =~= store_entry + spec_published(
                    lv[p as int],
                    results@,
                    x as int + 1,
                ));
                assert(self.outcomes@.subrange(0, outcomes_entry.len() as int)
                    =~= outcomes_entry);
                assert forall|q: int, y: int|
                    0 <= q < p && 0 <= y < lv[q].len() implies spec_store_get(
                    self.store@,
                    (#[trigger] lv[q][y]).name,
                ) is Some by {
                    assert(spec_store_get(store_before, lv[q][y].name) is Some);
                    if self.store@ != store_before {
                        assert(self.store@ =~= store_before + seq![self.store@.last()]);
                        lemma_get_push_preserved(
                            store_before,
                            seq![self.store@.last()],
                            lv[q][y].name,
                        );
                    }
                }
                if results@[x as int] is Failure {
                    assert(results@.subrange(0, x as int + 1)[x as int] is Failure);
                    assert(spec_any_failure(results@.subrange(0, x as int + 1)));
                } else {
                    if spec_any_failure(results@.subrange(0, x as int + 1)) {
                        let y = choose|y: int|
                            0 <= y < x as int + 1 && (#[trigger] results@.subrange(
                                0,
                                x as int + 1,
                            )[y]) is Failure;
                        assert(results@.subrange(0, x as int)[y] == results@.subrange(
                            0,
                            x as int + 1,
                        )[y]);
                        assert(spec_any_failure(results@.subrange(0, x as int)));
                    }
                    if spec_any_failure(results@.subrange(0, x as int)) {
                        let y = choose|y: int|
                            0 <= y < x as int && (#[trigger] results@.subrange(
                                0,
                                x as int,
                            )[y]) is Failure;
                        assert(results@.subrange(0, x as int + 1)[y] is Failure);
                    }
                }
            }
            x = x + 1;
        }
        proof {
            assert(results@.subrange(0, results@.len() as int) =~= results@);
        }
        match first_error {
            Some(m) => {
                self.status = ExecutionStatus::Failed;
                self.error = Some(m);
            }
            None => {
                assert(p < self.levels.len());
                self.next_level = p + 1;
                self.status = if self.next_level == self.levels.len() {
                    ExecutionStatus::Completed
                } else {
                    ExecutionStatus::Running
                };
                proof {
                    assert forall|q: int, y: int|
                        0 <= q < self.next_level && 0 <= y < lv[q].len() implies spec_store_get(
                        self.store@,
                        (#[trigger] lv[q][y]).name,
                    ) is Some by {
                        if q < p as int {
                            assert(spec_store_get(store_entry, lv[q][y].name) is Some);
                            lemma_get_push_preserved(
                                store_entry,
                                spec_published(lv[p as int], results@, results@.len() as int),
                                lv[q][y].name,
                            );
                        } else {
                            lemma_published_complete(lv[p as int], results@, y);
                            lemma_get_in_suffix(
                                store_entry,
                                spec_published(lv[p as int], results@, results@.len() as int),
                                lv[q][y].name,
                            );
                        }
                    }
                }
            }
        }
    }
}

/// A key the store answers for is still answered after entries are added.
proof fn lemma_get_push_preserved(
    s: Seq<(Seq<char>, JsonView)>,
    more: Seq<(Seq<char>, JsonView)>,
    name: Seq<char>,
)
    requires
        spec_store_get(s, name) is Some,
    ensures
        spec_store_get(s + more, name) is Some,
    decreases s.len(),
{
    if s.len() > 0 {
        assert((s + more).drop_first() =~= s.drop_first() + more);
        if s[0].0 != name {
            lemma_get_push_preserved(s.drop_first(), more, name);
        }
    }
}

/// A key among the added entries is answered by the extended store.
proof fn lemma_get_in_suffix(
    s: Seq<(Seq<char>, JsonView)>,
    more: Seq<(Seq<char>, JsonView)>,
    name: Seq<char>,
)
    requires
        exists|e: int| 0 <= e < more.len() && (#[trigger] more[e]).0 == name,
    ensures
        spec_store_get(s + more, name) is Some,
    decreases s.len(), more.len(),
{
    if s.len() > 0 {
        if s[0].0 == name {
        } else {
            assert((s + more).drop_first() =~= s.drop_first() + more);
            lemma_get_in_suffix(s.drop_first(), more, name);
        }
    } else {
        assert(s + more =~= more);
        let e = choose|e: int| 0 <= e < more.len() && (#[trigger] more[e]).0 == name;
        if more[0].0 == name {
        } else {
            assert(more.drop_first()[e - 1].0 == name);
            lemma_get_in_suffix(Seq::empty(), more.drop_first(), name);
            assert(Seq::<(Seq<char>, JsonView)>::empty() + more.drop_first()
                =~= more.drop_first());
        }
    }
}

/// A successful step of the level appears among the published entries.
proof fn lemma_published_complete(row: Seq<StepView>, results: Seq<TaskOutcome>, y: int)
    requires
        0 <= y < results.len(),
        results.len() <= row.len(),
        !(results[y] is Failure),
    ensures
        exists|e: int|
            0 <= e < spec_published(row, results, results.len() as int).len()
                && (#[trigger] spec_published(row, results, results.len() as int)[e]).0 == row[y].name,
    decreases results.len(),
{
    let t = results.len() as int;
    if y == t - 1 {
        let pubs = spec_published(row, results, t);
        assert(pubs[pubs.len() - 1].0 == row[y].name);
    } else {
        lemma_published_prefix_entry(row, results, y, t);
    }
}

/// A successful step below the bound appears among the published entries.
proof fn lemma_published_prefix_entry(
    row: Seq<StepView>,
    results: Seq<TaskOutcome>,
    y: int,
    t: int,
)
    requires
        0 <= y < t <= results.len(),
        t <= row.len(),
        !(results[y] is Failure),
    ensures
        exists|e: int|
            0 <= e < spec_published(row, results, t).len() && (#[trigger] spec_published(
                row,
                results,
                t,
            )[e]).0 == row[y].name,
    decreases t,
{
    let pubs = spec_published(row, results, t);
    if y == t - 1 {
        assert(pubs[pubs.len() - 1].0 == row[y].name);
    } else {
        lemma_published_prefix_entry(row, results, y, t - 1);
        let prev = spec_published(row, results, t - 1);
        let e = choose|e: int| 0 <= e < prev.len() && (#[trigger] prev[e]).0 == row[y].name;
        assert(pubs[e].0 == row[y].name);
    }
}

/// Failure propagation: once a run has failed, it plans no further level,
/// so no step of a later level ever starts, while everything already
/// published stays in the store and the trace.
pub proof fn lemma_failed_run_plans_nothing(s: ParallelRun)
    requires
        s.inv(),
        s.status is Failed,
    ensures
        !s.spec_has_level(),
{
}

} // verus!
