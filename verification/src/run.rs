//! Running a pipeline: task results, the summary, and the scheduler that decides what to start,
//! roll back, cancel and skip as task outcomes arrive.
//!
//! The scheduler is a state machine. The runner that owns the async tasks feeds it outcomes and
//! performs the actions it returns, in order: emit an event, start a task, publish a task's
//! outputs to its dependents, run a rollback handler, cancel a running task.
use vstd::prelude::*;
use crate::graph::{
    build_adjacency, dep_names, deps_exist, depends, describes_graph_error, acyclic, is_adjacency,
    is_execution_order, GraphError,
};
use crate::task::Task;
use crate::pipeline::{task_names, FailurePolicy, Pipeline, RollbackPolicy};
use crate::text::{lemma_text_irreflexive, str_eq, str_to_string, strs, text_strictly_sorted};
use crate::pipeline::tasks_in_order;

verus! {

/// Where a task stands in a run.
#[derive(Clone, Copy, Debug, PartialEq, Eq, Structural)]
pub enum TaskStatus {
    Pending,
    Running,
    Cached,
    Completed,
    Failed,
    Skipped,
    Cancelled,
    RolledBack,
}

/// How a rollback handler ended.
#[derive(Clone, Copy, Debug, PartialEq, Eq, Structural)]
pub enum RollbackStatus {
    Completed,
    Failed,
}

/// The result of one task. Durations are in nanoseconds.
#[derive(Clone, Debug)]
pub struct TaskResult {
    pub name: String,
    pub status: TaskStatus,
    pub duration: Option<u64>,
    pub error: Option<String>,
    pub cache_hit: bool,
    pub cache_reason: Option<String>,
    pub rollback_status: Option<RollbackStatus>,
    pub rollback_error: Option<String>,
}

impl TaskResult {
    /// A result that has not started.
    pub open spec fn is_pending_result(&self, name: Seq<char>) -> bool {
        &&& self.name@ == name
        &&& self.status == TaskStatus::Pending
        &&& self.duration is None
        &&& self.error is None
        &&& !self.cache_hit
        &&& self.cache_reason is None
        &&& self.rollback_status is None
        &&& self.rollback_error is None
    }

    /// A pending result for the named task.
    pub fn pending(name: &str) -> (res: TaskResult)
        ensures
            res.is_pending_result(name@),
    {
        TaskResult {
            name: str_to_string(name),
            status: TaskStatus::Pending,
            duration: None,
            error: None,
            cache_hit: false,
            cache_reason: None,
            rollback_status: None,
            rollback_error: None,
        }
    }
}

/// Counts of task outcomes for a pipeline run.
#[derive(Clone, Debug, PartialEq, Eq)]
pub struct PipelineSummary {
    pub name: String,
    pub success: bool,
    pub completed: usize,
    pub failed: usize,
    pub skipped: usize,
    pub cached: usize,
    pub cancelled: usize,
    pub rolled_back: usize,
    pub rollback_failed: usize,
}

/// The result of a pipeline run: per-task results in name order and the summary.
#[derive(Clone, Debug)]
pub struct PipelineResult {
    pub name: String,
    pub duration: u64,
    pub tasks: Vec<TaskResult>,
    pub summary: PipelineSummary,
}

/// Lifecycle events of a run. Durations are in nanoseconds.
#[derive(Clone, Debug)]
pub enum PipelineEvent {
    PipelineStarted { name: String, task_count: usize },
    TaskQueued { name: String },
    TaskStarted { name: String },
    TaskCached { name: String, reason: String },
    TaskCompleted { name: String, duration: u64 },
    TaskFailed { name: String, error: String },
    TaskSkipped { name: String, reason: String },
    TaskCancelled { name: String },
    TaskRollbackStarted { name: String },
    TaskRollbackCompleted { name: String },
    TaskRollbackFailed { name: String, error: String },
    PipelineFinished { result: PipelineSummary },
}

/// What the runner must do next.
#[derive(Clone, Debug)]
pub enum RunAction {
    /// Report an event.
    Emit(PipelineEvent),
    /// Start executing the named task.
    Start(String),
    /// The named task completed: its outputs become readable by other tasks.
    Publish(String),
    /// Run the named task's rollback handler and report back; `mark_rolled_back` is handed
    /// back with the outcome.
    Rollback { name: String, mark_rolled_back: bool },
    /// Abort the named running task.
    Cancel(String),
}

// ---------------------------------------------------------------------------------------------
// Views for contracts.

pub struct SummaryView {
    pub name: Seq<char>,
    pub success: bool,
    pub completed: nat,
    pub failed: nat,
    pub skipped: nat,
    pub cached: nat,
    pub cancelled: nat,
    pub rolled_back: nat,
    pub rollback_failed: nat,
}

pub enum EventView {
    PipelineStarted(Seq<char>, nat),
    TaskQueued(Seq<char>),
    TaskStarted(Seq<char>),
    TaskCached(Seq<char>, Seq<char>),
    TaskCompleted(Seq<char>, nat),
    TaskFailed(Seq<char>, Seq<char>),
    TaskSkipped(Seq<char>, Seq<char>),
    TaskCancelled(Seq<char>),
    TaskRollbackStarted(Seq<char>),
    TaskRollbackCompleted(Seq<char>),
    TaskRollbackFailed(Seq<char>, Seq<char>),
    PipelineFinished(SummaryView),
}

pub enum ActionView {
    Emit(EventView),
    Start(Seq<char>),
    Publish(Seq<char>),
    Rollback(Seq<char>, bool),
    Cancel(Seq<char>),
}

pub open spec fn summary_view(s: PipelineSummary) -> SummaryView {
    SummaryView {
        name: s.name@,
        success: s.success,
        completed: s.completed as nat,
        failed: s.failed as nat,
        skipped: s.skipped as nat,
        cached: s.cached as nat,
        cancelled: s.cancelled as nat,
        rolled_back: s.rolled_back as nat,
        rollback_failed: s.rollback_failed as nat,
    }
}

pub open spec fn event_view(e: PipelineEvent) -> EventView {
    match e {
        PipelineEvent::PipelineStarted { name, task_count } => EventView::PipelineStarted(
            name@,
            task_count as nat,
        ),
        PipelineEvent::TaskQueued { name } => EventView::TaskQueued(name@),
        PipelineEvent::TaskStarted { name } => EventView::TaskStarted(name@),
        PipelineEvent::TaskCached { name, reason } => EventView::TaskCached(name@, reason@),
        PipelineEvent::TaskCompleted { name, duration } => EventView::TaskCompleted(name@, duration as nat),
        PipelineEvent::TaskFailed { name, error } => EventView::TaskFailed(name@, error@),
        PipelineEvent::TaskSkipped { name, reason } => EventView::TaskSkipped(name@, reason@),
        PipelineEvent::TaskCancelled { name } => EventView::TaskCancelled(name@),
        PipelineEvent::TaskRollbackStarted { name } => EventView::TaskRollbackStarted(name@),
        PipelineEvent::TaskRollbackCompleted { name } => EventView::TaskRollbackCompleted(name@),
        PipelineEvent::TaskRollbackFailed { name, error } => EventView::TaskRollbackFailed(name@, error@),
        PipelineEvent::PipelineFinished { result } => EventView::PipelineFinished(summary_view(result)),
    }
}

pub open spec fn action_view(a: RunAction) -> ActionView {
    match a {
        RunAction::Emit(e) => ActionView::Emit(event_view(e)),
        RunAction::Start(n) => ActionView::Start(n@),
        RunAction::Publish(n) => ActionView::Publish(n@),
        RunAction::Rollback { name, mark_rolled_back } => ActionView::Rollback(name@, mark_rolled_back),
        RunAction::Cancel(n) => ActionView::Cancel(n@),
    }
}

pub open spec fn actions_view(a: Seq<RunAction>) -> Seq<ActionView> {
    a.map_values(|x: RunAction| action_view(x))
}

// ---------------------------------------------------------------------------------------------
// The summary.

/// How many results have this status.
pub open spec fn count_status(results: Seq<TaskResult>, s: TaskStatus) -> nat
    decreases results.len(),
{
    if results.len() == 0 {
        0
    } else {
        count_status(results.drop_last(), s) + if results.last().status == s {
            1nat
        } else {
            0nat
        }
    }
}

/// How many results record a failed rollback.
pub open spec fn count_rollback_failed(results: Seq<TaskResult>) -> nat
    decreases results.len(),
{
    if results.len() == 0 {
        0
    } else {
        count_rollback_failed(results.drop_last()) + if results.last().rollback_status == Some(
            RollbackStatus::Failed,
        ) {
            1nat
        } else {
            0nat
        }
    }
}

proof fn lemma_counts_bounded(results: Seq<TaskResult>, s: TaskStatus)
    ensures
        count_status(results, s) <= results.len(),
        count_rollback_failed(results) <= results.len(),
    decreases results.len(),
{
    if results.len() > 0 {
        lemma_counts_bounded(results.drop_last(), s);
    }
}

/// The summary of a run's results.
pub open spec fn summary_of(name: Seq<char>, results: Seq<TaskResult>) -> SummaryView {
    let failed = count_status(results, TaskStatus::Failed);
    let skipped = count_status(results, TaskStatus::Skipped);
    let cancelled = count_status(results, TaskStatus::Cancelled);
    let rollback_failed = count_rollback_failed(results);
    SummaryView {
        name,
        success: failed == 0 && skipped == 0 && cancelled == 0 && rollback_failed == 0,
        completed: count_status(results, TaskStatus::Completed),
        failed,
        skipped,
        cached: count_status(results, TaskStatus::Cached),
        cancelled,
        rolled_back: count_status(results, TaskStatus::RolledBack),
        rollback_failed,
    }
}

/// Counts the results by status; the run succeeded when nothing failed, was skipped, was
/// cancelled or had a failed rollback.
pub fn summarize(name: &str, tasks: &Vec<TaskResult>) -> (res: PipelineSummary)
    ensures
        summary_view(res) == summary_of(name@, tasks@),
{
    let mut summary = PipelineSummary {
        name: str_to_string(name),
        success: true,
        completed: 0,
        failed: 0,
        skipped: 0,
        cached: 0,
        cancelled: 0,
        rolled_back: 0,
        rollback_failed: 0,
    };
    let mut i: usize = 0;
    while i < tasks.len()
        invariant
            i <= tasks@.len(),
            summary.name@ == name@,
            summary.completed == count_status(tasks@.take(i as int), TaskStatus::Completed),
            summary.failed == count_status(tasks@.take(i as int), TaskStatus::Failed),
            summary.skipped == count_status(tasks@.take(i as int), TaskStatus::Skipped),
            summary.cached == count_status(tasks@.take(i as int), TaskStatus::Cached),
            summary.cancelled == count_status(tasks@.take(i as int), TaskStatus::Cancelled),
            summary.rolled_back == count_status(tasks@.take(i as int), TaskStatus::RolledBack),
            summary.rollback_failed == count_rollback_failed(tasks@.take(i as int)),
        decreases tasks@.len() - i,
    {
        proof {
            let t = tasks@.take(i + 1);
            assert(t.drop_last() =~= tasks@.take(i as int));
            lemma_counts_bounded(tasks@.take(i as int), TaskStatus::Completed);
            lemma_counts_bounded(tasks@.take(i as int), TaskStatus::Failed);
            lemma_counts_bounded(tasks@.take(i as int), TaskStatus::Skipped);
            lemma_counts_bounded(tasks@.take(i as int), TaskStatus::Cached);
            lemma_counts_bounded(tasks@.take(i as int), TaskStatus::Cancelled);
            lemma_counts_bounded(tasks@.take(i as int), TaskStatus::RolledBack);
        }
        match tasks[i].status {
            TaskStatus::Completed => summary.completed = summary.completed + 1,
            TaskStatus::Failed => summary.failed = summary.failed + 1,
            TaskStatus::Skipped => summary.skipped = summary.skipped + 1,
            TaskStatus::Cached => summary.cached = summary.cached + 1,
            TaskStatus::Cancelled => summary.cancelled = summary.cancelled + 1,
            TaskStatus::RolledBack => summary.rolled_back = summary.rolled_back + 1,
            TaskStatus::Pending | TaskStatus::Running => {},
        }
        let rf = match tasks[i].rollback_status {
            Some(RollbackStatus::Failed) => true,
            _ => false,
        };
        if rf {
            summary.rollback_failed = summary.rollback_failed + 1;
        }
        i = i + 1;
    }
    assert(tasks@.take(tasks@.len() as int) =~= tasks@);
    summary.success = summary.failed == 0 && summary.skipped == 0 && summary.cancelled == 0
        && summary.rollback_failed == 0;
    summary
}

// ---------------------------------------------------------------------------------------------
// The scheduler.

/// How many dependencies in `row` have not been released (completed and handed on).
pub open spec fn unreleased(row: Seq<usize>, released: Seq<bool>) -> nat
    decreases row.len(),
{
    if row.len() == 0 {
        0
    } else {
        unreleased(row.drop_last(), released) + if released[row.last() as int] {
            0nat
        } else {
            1nat
        }
    }
}

/// How many times `d` occurs in `row`.
pub open spec fn occurrences(row: Seq<usize>, d: usize) -> nat
    decreases row.len(),
{
    if row.len() == 0 {
        0
    } else {
        occurrences(row.drop_last(), d) + if row.last() == d {
            1nat
        } else {
            0nat
        }
    }
}

proof fn lemma_unreleased_bound(row: Seq<usize>, released: Seq<bool>)
    ensures
        unreleased(row, released) <= row.len(),
    decreases row.len(),
{
    if row.len() > 0 {
        lemma_unreleased_bound(row.drop_last(), released);
    }
}

proof fn lemma_unreleased_zero(row: Seq<usize>, released: Seq<bool>, m: int)
    requires
        unreleased(row, released) == 0,
        0 <= m < row.len(),
    ensures
        released[row[m] as int],
    decreases row.len(),
{
    if m < row.len() - 1 {
        lemma_unreleased_zero(row.drop_last(), released, m);
    }
}

proof fn lemma_release(row: Seq<usize>, released: Seq<bool>, d: usize)
    requires
        0 <= d < released.len(),
        !released[d as int],
        forall|m: int| 0 <= m < row.len() ==> #[trigger] row[m] < released.len(),
    ensures
        unreleased(row, released.update(d as int, true)) + occurrences(row, d) == unreleased(
            row,
            released,
        ),
    decreases row.len(),
{
    if row.len() > 0 {
        lemma_release(row.drop_last(), released, d);
    }
}

/// The indices below `k`, ascending, whose flag went from unset to set.
pub open spec fn newly_set(old: Seq<bool>, new: Seq<bool>, k: int) -> Seq<int>
    decreases k,
{
    if k <= 0 {
        Seq::empty()
    } else {
        newly_set(old, new, k - 1) + if !old[k - 1] && new[k - 1] {
            seq![k - 1]
        } else {
            Seq::empty()
        }
    }
}

/// Queue then start each of the given tasks, in order.
pub open spec fn queue_actions(names: Seq<Seq<char>>, ix: Seq<int>) -> Seq<ActionView>
    decreases ix.len(),
{
    if ix.len() == 0 {
        Seq::empty()
    } else {
        queue_actions(names, ix.drop_last()) + seq![
            ActionView::Emit(EventView::TaskQueued(names[ix.last()])),
            ActionView::Start(names[ix.last()]),
        ]
    }
}

/// Cancel each of the given tasks and report it, in order.
pub open spec fn cancel_actions(names: Seq<Seq<char>>, ix: Seq<int>) -> Seq<ActionView>
    decreases ix.len(),
{
    if ix.len() == 0 {
        Seq::empty()
    } else {
        cancel_actions(names, ix.drop_last()) + seq![
            ActionView::Cancel(names[ix.last()]),
            ActionView::Emit(EventView::TaskCancelled(names[ix.last()])),
        ]
    }
}

/// Roll back each of the given tasks (marking them rolled back on success), in order.
pub open spec fn rollback_actions(names: Seq<Seq<char>>, ix: Seq<int>) -> Seq<ActionView>
    decreases ix.len(),
{
    if ix.len() == 0 {
        Seq::empty()
    } else {
        rollback_actions(names, ix.drop_last()) + seq![
            ActionView::Emit(EventView::TaskRollbackStarted(names[ix.last()])),
            ActionView::Rollback(names[ix.last()], true),
        ]
    }
}

/// A result with a different status.
pub open spec fn with_status(r: TaskResult, s: TaskStatus) -> TaskResult {
    TaskResult { status: s, ..r }
}

/// The indices of `ix`, in reverse, that satisfy `keep`.
pub open spec fn reverse_filter(ix: Seq<usize>, keep: Seq<bool>) -> Seq<int>
    decreases ix.len(),
{
    if ix.len() == 0 {
        Seq::empty()
    } else {
        (if keep[ix.last() as int] {
            seq![ix.last() as int]
        } else {
            Seq::empty()
        }) + reverse_filter(ix.drop_last(), keep)
    }
}

/// The reason recorded on tasks skipped after a failure.
pub open spec fn skip_reason(policy: FailurePolicy) -> Seq<char> {
    match policy {
        FailurePolicy::ContinueIndependent => "dependency failed"@,
        FailurePolicy::FinishRunning => "pipeline stopped scheduling after failure"@,
        FailurePolicy::FailFast => "pipeline failed fast"@,
    }
}

/// The scheduling state of one pipeline run.
pub struct RunState {
    name: String,
    names: Vec<String>,
    deps: Vec<Vec<usize>>,
    has_rollback: Vec<bool>,
    failure_policy: FailurePolicy,
    rollback_policy: RollbackPolicy,
    results: Vec<TaskResult>,
    dep_counts: Vec<usize>,
    scheduled: Vec<bool>,
    active: Vec<bool>,
    completed: Vec<bool>,
    released: Vec<bool>,
    executed: Vec<usize>,
    failed: bool,
    stopped: bool,
}

impl RunState {
    pub closed spec fn spec_name(&self) -> Seq<char> {
        self.name@
    }

    /// Task names, in name order; task `i` below is the task of `spec_names()[i]`.
    pub closed spec fn spec_names(&self) -> Seq<Seq<char>> {
        strs(self.names@)
    }

    /// `spec_deps()[i]` lists the indices of task `i`'s dependencies.
    pub closed spec fn spec_deps(&self) -> Seq<Seq<usize>> {
        self.deps@.map_values(|a: Vec<usize>| a@)
    }

    pub closed spec fn spec_has_rollback(&self) -> Seq<bool> {
        self.has_rollback@
    }

    pub closed spec fn spec_failure_policy(&self) -> FailurePolicy {
        self.failure_policy
    }

    pub closed spec fn spec_rollback_policy(&self) -> RollbackPolicy {
        self.rollback_policy
    }

    pub closed spec fn spec_results(&self) -> Seq<TaskResult> {
        self.results@
    }

    /// Tasks handed to the runner to start.
    pub closed spec fn spec_scheduled(&self) -> Seq<bool> {
        self.scheduled@
    }

    /// Tasks started and not yet finished.
    pub closed spec fn spec_active(&self) -> Seq<bool> {
        self.active@
    }

    /// Tasks that completed or were restored from the cache.
    pub closed spec fn spec_completed(&self) -> Seq<bool> {
        self.completed@
    }

    /// Completed tasks whose dependents have been told.
    pub closed spec fn spec_released(&self) -> Seq<bool> {
        self.released@
    }

    /// Tasks that ran to completion (not restored from the cache), in completion order.
    pub closed spec fn spec_executed(&self) -> Seq<usize> {
        self.executed@
    }

    /// Some task failed.
    pub closed spec fn spec_failed(&self) -> bool {
        self.failed
    }

    /// The run stopped waiting for outcomes (after a failure under `FailFast`).
    pub closed spec fn spec_stopped(&self) -> bool {
        self.stopped
    }

    /// The state is consistent.
    pub closed spec fn wf(&self) -> bool {
        let n = self.names@.len();
        &&& self.deps@.len() == n
        &&& self.has_rollback@.len() == n
        &&& self.results@.len() == n
        &&& self.dep_counts@.len() == n
        &&& self.scheduled@.len() == n
        &&& self.active@.len() == n
        &&& self.completed@.len() == n
        &&& self.released@.len() == n
        &&& forall|i: int, m: int| 0 <= i < n && 0 <= m < self.deps@[i]@.len() ==> #[trigger] self.deps@[i]@[m] < n
        &&& forall|i: int| 0 <= i < n ==> (#[trigger] self.results@[i]).name@ == self.names@[i]@
        &&& forall|i: int| 0 <= i < n ==> #[trigger] self.dep_counts@[i] == unreleased(self.deps@[i]@, self.released@)
        &&& forall|i: int| 0 <= i < n ==> (#[trigger] self.scheduled@[i] <==> self.dep_counts@[i] == 0)
        &&& forall|i: int| 0 <= i < n && #[trigger] self.released@[i] ==> self.completed@[i]
        &&& forall|i: int| 0 <= i < n && #[trigger] self.active@[i] ==> self.scheduled@[i] && self.results@[i].status == TaskStatus::Running
        &&& forall|i: int| 0 <= i < n && #[trigger] self.completed@[i] ==> self.scheduled@[i] && !self.active@[i]
        &&& forall|i: int| 0 <= i < n && #[trigger] self.completed@[i] ==> self.results@[i].status != TaskStatus::Pending && self.results@[i].status != TaskStatus::Running
        &&& forall|i: int| 0 <= i < n && !#[trigger] self.scheduled@[i] ==> self.results@[i].status == TaskStatus::Pending
        &&& forall|k: int| 0 <= k < self.executed@.len() ==> #[trigger] self.executed@[k] < n
        &&& self.stopped ==> self.failed && self.failure_policy == FailurePolicy::FailFast
        &&& text_strictly_sorted(strs(self.names@))
    }

    /// A task is only ever started once all of its dependencies completed (or were restored
    /// from the cache).
    pub proof fn lemma_started_after_dependencies(&self, i: int, m: int)
        requires
            self.wf(),
            0 <= i < self.spec_names().len(),
            self.spec_scheduled()[i],
            0 <= m < self.spec_deps()[i].len(),
        ensures
            self.spec_completed()[self.spec_deps()[i][m] as int],
    {
        assert(self.deps@.map_values(|a: Vec<usize>| a@)[i] == self.deps@[i]@);
        lemma_unreleased_zero(self.deps@[i]@, self.released@, m);
    }

    /// A task that has not completed (for instance one that failed) lets none of its
    /// dependents start.
    pub proof fn lemma_dependents_wait(&self, i: int, m: int)
        requires
            self.wf(),
            0 <= i < self.spec_names().len(),
            0 <= m < self.spec_deps()[i].len(),
            !self.spec_completed()[self.spec_deps()[i][m] as int],
        ensures
            !self.spec_scheduled()[i],
            self.spec_results()[i].status == TaskStatus::Pending,
    {
        if self.spec_scheduled()[i] {
            self.lemma_started_after_dependencies(i, m);
        }
    }

    /// Everything of `wf` but the dependency counts and what they decide.
    closed spec fn consistent(&self) -> bool {
        let n = self.names@.len();
        &&& self.deps@.len() == n
        &&& self.has_rollback@.len() == n
        &&& self.results@.len() == n
        &&& self.dep_counts@.len() == n
        &&& self.scheduled@.len() == n
        &&& self.active@.len() == n
        &&& self.completed@.len() == n
        &&& self.released@.len() == n
        &&& forall|i: int, m: int| 0 <= i < n && 0 <= m < self.deps@[i]@.len() ==> #[trigger] self.deps@[i]@[m] < n
        &&& forall|i: int| 0 <= i < n ==> (#[trigger] self.results@[i]).name@ == self.names@[i]@
        &&& forall|i: int| 0 <= i < n && #[trigger] self.released@[i] ==> self.completed@[i]
        &&& forall|i: int| 0 <= i < n && #[trigger] self.active@[i] ==> self.scheduled@[i] && self.results@[i].status == TaskStatus::Running
        &&& forall|i: int| 0 <= i < n && #[trigger] self.completed@[i] ==> self.scheduled@[i] && !self.active@[i]
        &&& forall|i: int| 0 <= i < n && #[trigger] self.completed@[i] ==> self.results@[i].status != TaskStatus::Pending && self.results@[i].status != TaskStatus::Running
        &&& forall|i: int| 0 <= i < n && !#[trigger] self.scheduled@[i] ==> self.results@[i].status == TaskStatus::Pending
        &&& forall|k: int| 0 <= k < self.executed@.len() ==> #[trigger] self.executed@[k] < n
        &&& self.stopped ==> self.failed && self.failure_policy == FailurePolicy::FailFast
        &&& text_strictly_sorted(strs(self.names@))
    }

    /// The index of the named task.
    fn index_of(&self, name: &str) -> (res: Option<usize>)
        ensures
            match res {
                Some(i) => i < self.names@.len() && self.names@[i as int]@ == name@,
                None => forall|i: int| 0 <= i < self.names@.len() ==> #[trigger] self.names@[i]@ != name@,
            },
    {
        let mut i: usize = 0;
        while i < self.names.len()
            invariant
                i <= self.names@.len(),
                forall|j: int| 0 <= j < i ==> #[trigger] self.names@[j]@ != name@,
            decreases self.names@.len() - i,
        {
            if str_eq(self.names[i].as_str(), name) {
                return Some(i);
            }
            i = i + 1;
        }
        None
    }
}

/// A copy of a summary.
pub fn copy_summary(s: &PipelineSummary) -> (res: PipelineSummary)
    ensures
        res == *s,
{
    PipelineSummary {
        name: s.name.clone(),
        success: s.success,
        completed: s.completed,
        failed: s.failed,
        skipped: s.skipped,
        cached: s.cached,
        cancelled: s.cancelled,
        rolled_back: s.rolled_back,
        rollback_failed: s.rollback_failed,
    }
}

/// A copy of a result.
pub fn copy_result(r: &TaskResult) -> (res: TaskResult)
    ensures
        res == *r,
{
    TaskResult {
        name: r.name.clone(),
        status: r.status,
        duration: r.duration,
        error: match &r.error {
            Some(e) => Some(e.clone()),
            None => None,
        },
        cache_hit: r.cache_hit,
        cache_reason: match &r.cache_reason {
            Some(e) => Some(e.clone()),
            None => None,
        },
        rollback_status: r.rollback_status,
        rollback_error: match &r.rollback_error {
            Some(e) => Some(e.clone()),
            None => None,
        },
    }
}

pub open spec fn all_false(n: nat) -> Seq<bool> {
    Seq::new(n, |i: int| false)
}

/// A run of the pipeline has just started: every task is pending but those without
/// dependencies, which are running; the run reports that it started, then queues and starts
/// those tasks in name order.
pub open spec fn run_started(pipeline: Pipeline, st: RunState, actions: Seq<ActionView>) -> bool {
    let t = pipeline.spec_tasks();
    &&& st.wf()
    &&& st.spec_name() == pipeline.spec_name()
    &&& st.spec_names() == task_names(t)
    &&& is_adjacency(t, st.spec_deps())
    &&& (forall|i: int| 0 <= i < t.len() ==> #[trigger] st.spec_has_rollback()[i] == t[i].rollback_handler)
    &&& st.spec_failure_policy() == pipeline.spec_failure_policy()
    &&& st.spec_rollback_policy() == pipeline.spec_rollback_policy()
    &&& (forall|i: int| 0 <= i < t.len() ==> (#[trigger] st.spec_scheduled()[i] <==> st.spec_deps()[i].len() == 0))
    &&& st.spec_active() == st.spec_scheduled()
    &&& st.spec_completed() == all_false(t.len())
    &&& st.spec_released() == all_false(t.len())
    &&& (forall|i: int| 0 <= i < t.len() ==> #[trigger] st.spec_results()[i] == with_status(st.spec_results()[i], if st.spec_scheduled()[i] { TaskStatus::Running } else { TaskStatus::Pending })
        && with_status(st.spec_results()[i], TaskStatus::Pending).is_pending_result(t[i].name@))
    &&& st.spec_executed().len() == 0
    &&& !st.spec_failed()
    &&& !st.spec_stopped()
    &&& actions == seq![ActionView::Emit(EventView::PipelineStarted(pipeline.spec_name(), t.len()))]
        + queue_actions(st.spec_names(), newly_set(all_false(t.len()), st.spec_scheduled(), t.len() as int))
}

impl RunState {
    /// Validates the pipeline and starts a run: every task pending, then each task without
    /// dependencies queued and started, in name order.
    pub fn start(pipeline: &Pipeline) -> (res: Result<(RunState, Vec<RunAction>), GraphError>)
        ensures
            match res {
                Ok((st, actions)) => run_started(*pipeline, st, actions_view(actions@)),
                Err(e) => describes_graph_error(pipeline.spec_tasks(), e),
            },
            res is Ok <==> deps_exist(pipeline.spec_tasks()) && acyclic(pipeline.spec_tasks()),
    {
        if let Err(e) = pipeline.execution_order() {
            return Err(e);
        }
        let tasks = pipeline.tasks();
        let adj = match build_adjacency(tasks) {
            Ok(a) => a,
            Err(e) => {
                proof {
                    if let GraphError::MissingDependency { .. } = e {
                        let (i, m) = choose|i: int, m: int| 0 <= i < tasks@.len() && 0 <= m < crate::graph::dep_names(tasks@[i]).len() && #[trigger] crate::graph::is_missing(tasks@, i, m);
                    }
                }
                assert(false);
                return Err(e);
            },
        };
        let ghost t = tasks@;
        let n = tasks.len();
        let mut names: Vec<String> = Vec::new();
        let mut has_rollback: Vec<bool> = Vec::new();
        let mut results: Vec<TaskResult> = Vec::new();
        let mut dep_counts: Vec<usize> = Vec::new();
        let mut scheduled: Vec<bool> = Vec::new();
        let mut active: Vec<bool> = Vec::new();
        let mut completed: Vec<bool> = Vec::new();
        let mut released: Vec<bool> = Vec::new();
        let mut i: usize = 0;
        while i < n
            invariant
                n == t.len(),
                t == tasks@,
                adj@.len() == n,
                is_adjacency(t, adj@.map_values(|a: Vec<usize>| a@)),
                i <= n,
                names@.len() == i,
                has_rollback@.len() == i,
                results@.len() == i,
                dep_counts@.len() == i,
                scheduled@.len() == i,
                active@.len() == i,
                completed@.len() == i,
                released@.len() == i,
                forall|k: int| 0 <= k < i ==> #[trigger] names@[k]@ == t[k].name@,
                forall|k: int| 0 <= k < i ==> #[trigger] has_rollback@[k] == t[k].rollback_handler,
                forall|k: int| 0 <= k < i ==> (#[trigger] results@[k]).is_pending_result(t[k].name@),
                forall|k: int| 0 <= k < i ==> #[trigger] dep_counts@[k] == adj@[k]@.len(),
                forall|k: int| 0 <= k < i ==> !#[trigger] scheduled@[k],
                forall|k: int| 0 <= k < i ==> !#[trigger] active@[k],
                forall|k: int| 0 <= k < i ==> !#[trigger] completed@[k],
                forall|k: int| 0 <= k < i ==> !#[trigger] released@[k],
            decreases n - i,
        {
            names.push(tasks[i].name.clone());
            has_rollback.push(tasks[i].rollback_handler);
            results.push(TaskResult::pending(tasks[i].name.as_str()));
            proof {
                assert(adj@.map_values(|a: Vec<usize>| a@)[i as int] == adj@[i as int]@);
            }
            dep_counts.push(adj[i].len());
            scheduled.push(false);
            active.push(false);
            completed.push(false);
            released.push(false);
            i = i + 1;
        }
        let mut st = RunState {
            name: str_to_string(pipeline.name()),
            names,
            deps: adj,
            has_rollback,
            failure_policy: pipeline.get_failure_policy(),
            rollback_policy: pipeline.get_rollback_policy(),
            results,
            dep_counts,
            scheduled,
            active,
            completed,
            released,
            executed: Vec::new(),
            failed: false,
            stopped: false,
        };
        let mut actions: Vec<RunAction> = Vec::new();
        actions.push(RunAction::Emit(PipelineEvent::PipelineStarted { name: str_to_string(pipeline.name()), task_count: n }));
        let ghost a0 = actions_view(actions@);
        proof {
            assert forall|k: int| 0 <= k < n implies #[trigger] st.dep_counts@[k] == unreleased(st.deps@[k]@, st.released@) by {
                assert forall|m: int| 0 <= m < st.deps@[k]@.len() implies #[trigger] st.deps@[k]@[m] < st.released@.len() by {
                    assert(st.deps@.map_values(|a: Vec<usize>| a@)[k] == st.deps@[k]@);
                    assert(st.deps@.map_values(|a: Vec<usize>| a@)[k][m] < t.len());
                }
                lemma_all_unreleased(st.deps@[k]@, st.released@);
            }
            assert forall|a: int, m: int| 0 <= a < n && 0 <= m < st.deps@[a]@.len() implies #[trigger] st.deps@[a]@[m] < n by {
                assert(st.deps@.map_values(|a: Vec<usize>| a@)[a] == st.deps@[a]@);
                assert(st.deps@.map_values(|a: Vec<usize>| a@)[a][m] < t.len());
            }
            assert forall|k: int| 0 <= k < n implies (#[trigger] st.results@[k]).name@ == st.names@[k]@ by {}
            assert(strs(st.names@) =~= task_names(t));
            assert(st.consistent());
            assert(a0 =~= seq![ActionView::Emit(EventView::PipelineStarted(pipeline.spec_name(), t.len()))]);
        }
        let mut j: usize = 0;
        while j < n
            invariant
                n == t.len(),
                st.names@.len() == n,
                st.consistent(),
                is_adjacency(t, st.deps@.map_values(|a: Vec<usize>| a@)),
                forall|k: int| 0 <= k < n ==> #[trigger] st.has_rollback@[k] == t[k].rollback_handler,
                st.name@ == pipeline.spec_name(),
                st.failure_policy == pipeline.spec_failure_policy(),
                st.rollback_policy == pipeline.spec_rollback_policy(),
                j <= n,
                forall|k: int| 0 <= k < n ==> #[trigger] st.dep_counts@[k] == unreleased(st.deps@[k]@, st.released@),
                forall|k: int| 0 <= k < j ==> (#[trigger] st.scheduled@[k] <==> st.dep_counts@[k] == 0),
                forall|k: int| j <= k < n ==> !#[trigger] st.scheduled@[k],
                st.active@ == st.scheduled@,
                forall|k: int| 0 <= k < n ==> !#[trigger] st.completed@[k],
                forall|k: int| 0 <= k < n ==> !#[trigger] st.released@[k],
                forall|k: int| 0 <= k < n ==> (#[trigger] st.results@[k]) == with_status(st.results@[k], if st.scheduled@[k] { TaskStatus::Running } else { TaskStatus::Pending })
                    && with_status(st.results@[k], TaskStatus::Pending).is_pending_result(t[k].name@),
                forall|k: int| 0 <= k < n ==> #[trigger] st.names@[k]@ == t[k].name@,
                st.executed@.len() == 0,
                !st.failed,
                !st.stopped,
                actions_view(actions@) == a0 + queue_actions(strs(st.names@), newly_set(all_false(n as nat), st.scheduled@, j as int)),
            decreases n - j,
        {
            if st.dep_counts[j] == 0 {
                let ghost before = st.scheduled@;
                let ghost acts = actions_view(actions@);
                st.schedule(j, &mut actions);
                proof {
                    assert(newly_set(all_false(n as nat), st.scheduled@, j as int) =~= newly_set(all_false(n as nat), before, j as int)) by {
                        lemma_newly_set_prefix(all_false(n as nat), before, st.scheduled@, j as int);
                    }
                    assert(newly_set(all_false(n as nat), st.scheduled@, j + 1) =~= newly_set(all_false(n as nat), st.scheduled@, j as int).push(j as int));
                    lemma_queue_actions_push(strs(st.names@), newly_set(all_false(n as nat), st.scheduled@, j as int), j as int);
                }
            } else {
                proof {
                    assert(newly_set(all_false(n as nat), st.scheduled@, j + 1) =~= newly_set(all_false(n as nat), st.scheduled@, j as int));
                }
            }
            j = j + 1;
        }
        proof {
            assert forall|k: int| 0 <= k < n implies (#[trigger] st.scheduled@[k] <==> st.deps@.map_values(|a: Vec<usize>| a@)[k].len() == 0) by {
                assert(st.deps@.map_values(|a: Vec<usize>| a@)[k] == st.deps@[k]@);
                lemma_all_unreleased(st.deps@[k]@, st.released@);
                assert forall|m: int| 0 <= m < st.deps@[k]@.len() implies #[trigger] st.deps@[k]@[m] < st.released@.len() by {}
            }
            assert(st.completed@ =~= all_false(n as nat));
            assert(st.released@ =~= all_false(n as nat));
            assert(strs(st.names@) =~= task_names(t));
            assert(st.wf());
            assert(st.spec_names() == task_names(t));
            assert(is_adjacency(t, st.spec_deps()));
            assert(st.spec_active() == st.spec_scheduled());
            assert(forall|i: int| 0 <= i < t.len() ==> #[trigger] st.spec_has_rollback()[i] == t[i].rollback_handler);
            assert(actions_view(actions@) == seq![ActionView::Emit(EventView::PipelineStarted(pipeline.spec_name(), t.len()))]
                        + queue_actions(st.spec_names(), newly_set(all_false(t.len()), st.spec_scheduled(), t.len() as int)));
        }
        Ok((st, actions))
    }

    /// Queues and starts task `j`.
    fn schedule(&mut self, j: usize, actions: &mut Vec<RunAction>)
        requires
            old(self).consistent(),
            j < old(self).names@.len(),
            !old(self).scheduled@[j as int],
            old(self).dep_counts@[j as int] == 0,
        ensures
            final(self).consistent(),
            final(self).scheduled@ == old(self).scheduled@.update(j as int, true),
            final(self).active@ == old(self).active@.update(j as int, true),
            final(self).results@ == old(self).results@.update(j as int, with_status(old(self).results@[j as int], TaskStatus::Running)),
            final(self).names@ == old(self).names@,
            final(self).deps@ == old(self).deps@,
            final(self).has_rollback@ == old(self).has_rollback@,
            final(self).dep_counts@ == old(self).dep_counts@,
            final(self).completed@ == old(self).completed@,
            final(self).released@ == old(self).released@,
            final(self).executed@ == old(self).executed@,
            final(self).failed == old(self).failed,
            final(self).stopped == old(self).stopped,
            final(self).name == old(self).name,
            final(self).failure_policy == old(self).failure_policy,
            final(self).rollback_policy == old(self).rollback_policy,
            actions_view(final(actions)@) == actions_view(old(actions)@) + seq![
                ActionView::Emit(EventView::TaskQueued(old(self).names@[j as int]@)),
                ActionView::Start(old(self).names@[j as int]@),
            ],
    {
        let ghost a0 = actions@;
        actions.push(RunAction::Emit(PipelineEvent::TaskQueued { name: self.names[j].clone() }));
        let r = copy_result(&self.results[j]);
        self.results.set(j, TaskResult { status: TaskStatus::Running, ..r });
        self.active.set(j, true);
        self.scheduled.set(j, true);
        actions.push(RunAction::Start(self.names[j].clone()));
        proof {
            assert(actions_view(actions@) =~= actions_view(a0) + seq![
                ActionView::Emit(EventView::TaskQueued(self.names@[j as int]@)),
                ActionView::Start(self.names@[j as int]@),
            ]);
            assert(!self.completed@[j as int]);
        }
    }
}

proof fn lemma_all_unreleased(row: Seq<usize>, released: Seq<bool>)
    requires
        forall|m: int| 0 <= m < row.len() ==> #[trigger] row[m] < released.len(),
        forall|k: int| 0 <= k < released.len() ==> !#[trigger] released[k],
    ensures
        unreleased(row, released) == row.len(),
    decreases row.len(),
{
    if row.len() > 0 {
        lemma_all_unreleased(row.drop_last(), released);
    }
}

proof fn lemma_newly_set_prefix(old: Seq<bool>, a: Seq<bool>, b: Seq<bool>, k: int)
    requires
        forall|i: int| 0 <= i < k ==> #[trigger] a[i] == b[i],
    ensures
        newly_set(old, a, k) == newly_set(old, b, k),
    decreases k,
{
    if k > 0 {
        lemma_newly_set_prefix(old, a, b, k - 1);
    }
}

proof fn lemma_queue_actions_push(names: Seq<Seq<char>>, ix: Seq<int>, j: int)
    ensures
        queue_actions(names, ix.push(j)) == queue_actions(names, ix) + seq![
            ActionView::Emit(EventView::TaskQueued(names[j])),
            ActionView::Start(names[j]),
        ],
{
    assert(ix.push(j).drop_last() =~= ix);
}

/// The outcomes agree in everything but the name.
pub open spec fn same_outcome(a: TaskResult, b: TaskResult) -> bool {
    TaskResult { name: b.name, ..a } == b
}

/// The error reported for a failed task: its error, else "task failed".
pub open spec fn failure_text(error: Option<String>) -> Seq<char> {
    match error {
        Some(e) => e@,
        None => "task failed"@,
    }
}

/// How many times `d` occurs in `row`.
fn count_occurrences(row: &Vec<usize>, d: usize) -> (res: usize)
    ensures
        res == occurrences(row@, d),
{
    let mut c: usize = 0;
    let mut m: usize = 0;
    while m < row.len()
        invariant
            m <= row@.len(),
            c == occurrences(row@.take(m as int), d),
            c <= m,
        decreases row@.len() - m,
    {
        assert(row@.take(m + 1).drop_last() =~= row@.take(m as int));
        if row[m] == d {
            c = c + 1;
        }
        m = m + 1;
    }
    assert(row@.take(row@.len() as int) =~= row@);
    c
}

impl RunState {
    /// Tells the dependents of the completed task `i` that it completed; those with no
    /// dependency left are queued and started, in name order.
    fn release(&mut self, i: usize, actions: &mut Vec<RunAction>)
        requires
            old(self).wf(),
            i < old(self).names@.len(),
            old(self).completed@[i as int],
            !old(self).released@[i as int],
        ensures
            final(self).wf(),
            final(self).released@ == old(self).released@.update(i as int, true),
            forall|j: int| 0 <= j < old(self).names@.len() ==> old(self).scheduled@[j] ==> #[trigger] final(self).scheduled@[j],
            forall|j: int| 0 <= j < old(self).names@.len() ==> #[trigger] final(self).results@[j] == if !old(self).scheduled@[j] && final(self).scheduled@[j] {
                with_status(old(self).results@[j], TaskStatus::Running)
            } else {
                old(self).results@[j]
            },
            forall|j: int| 0 <= j < old(self).names@.len() ==> #[trigger] final(self).active@[j] == (old(self).active@[j] || (!old(self).scheduled@[j] && final(self).scheduled@[j])),
            final(self).names@ == old(self).names@,
            final(self).deps@ == old(self).deps@,
            final(self).has_rollback@ == old(self).has_rollback@,
            final(self).completed@ == old(self).completed@,
            final(self).executed@ == old(self).executed@,
            final(self).failed == old(self).failed,
            final(self).stopped == old(self).stopped,
            final(self).name == old(self).name,
            final(self).failure_policy == old(self).failure_policy,
            final(self).rollback_policy == old(self).rollback_policy,
            actions_view(final(actions)@) == actions_view(old(actions)@) + queue_actions(strs(old(self).names@), newly_set(old(self).scheduled@, final(self).scheduled@, old(self).names@.len() as int)),
    {
        let ghost o_sched = self.scheduled@;
        let ghost o_results = self.results@;
        let ghost o_active = self.active@;
        let ghost o_released = self.released@;
        let ghost a0 = actions_view(actions@);
        self.released.set(i, true);
        let n = self.names.len();
        let mut j: usize = 0;
        while j < n
            invariant
                n == self.names@.len(),
                i < n,
                self.consistent(),
                o_sched.len() == n,
                o_released.len() == n,
                !o_released[i as int],
                self.released@ == o_released.update(i as int, true),
                j <= n,
                forall|k: int| 0 <= k < j ==> #[trigger] self.dep_counts@[k] == unreleased(self.deps@[k]@, self.released@),
                forall|k: int| 0 <= k < j ==> (#[trigger] self.scheduled@[k] <==> self.dep_counts@[k] == 0),
                forall|k: int| j <= k < n ==> #[trigger] self.dep_counts@[k] == unreleased(self.deps@[k]@, o_released),
                forall|k: int| j <= k < n ==> #[trigger] self.scheduled@[k] == o_sched[k],
                forall|k: int| j <= k < n ==> (#[trigger] o_sched[k] <==> self.dep_counts@[k] == 0),
                forall|k: int| 0 <= k < n ==> o_sched[k] ==> #[trigger] self.scheduled@[k],
                forall|k: int| 0 <= k < n ==> #[trigger] self.results@[k] == if !o_sched[k] && self.scheduled@[k] {
                    with_status(o_results[k], TaskStatus::Running)
                } else {
                    o_results[k]
                },
                forall|k: int| 0 <= k < n ==> #[trigger] self.active@[k] == (o_active[k] || (!o_sched[k] && self.scheduled@[k])),
                self.names@ == old(self).names@,
                self.deps@ == old(self).deps@,
                self.has_rollback@ == old(self).has_rollback@,
                self.completed@ == old(self).completed@,
                self.executed@ == old(self).executed@,
                self.failed == old(self).failed,
                self.stopped == old(self).stopped,
                self.name == old(self).name,
                self.failure_policy == old(self).failure_policy,
                self.rollback_policy == old(self).rollback_policy,
                o_sched == old(self).scheduled@,
                o_results == old(self).results@,
                o_active == old(self).active@,
                actions_view(actions@) == a0 + queue_actions(strs(self.names@), newly_set(o_sched, self.scheduled@, j as int)),
            decreases n - j,
        {
            let k = count_occurrences(&self.deps[j], i);
            proof {
                assert forall|m: int| 0 <= m < self.deps@[j as int]@.len() implies #[trigger] self.deps@[j as int]@[m] < o_released.len() by {}
                lemma_release(self.deps@[j as int]@, o_released, i);
                lemma_unreleased_bound(self.deps@[j as int]@, self.released@);
            }
            if k > 0 {
                let c = self.dep_counts[j] - k;
                self.dep_counts.set(j, c);
                if c == 0 {
                    let ghost before = self.scheduled@;
                    self.schedule(j, actions);
                    proof {
                        lemma_newly_set_prefix(o_sched, before, self.scheduled@, j as int);
                        assert(newly_set(o_sched, self.scheduled@, j + 1) =~= newly_set(o_sched, self.scheduled@, j as int).push(j as int));
                        lemma_queue_actions_push(strs(self.names@), newly_set(o_sched, self.scheduled@, j as int), j as int);
                    }
                } else {
                    assert(newly_set(o_sched, self.scheduled@, j + 1) =~= newly_set(o_sched, self.scheduled@, j as int));
                }
            } else {
                assert(newly_set(o_sched, self.scheduled@, j + 1) =~= newly_set(o_sched, self.scheduled@, j as int));
            }
            j = j + 1;
        }
    }

    /// Records the outcome of a started task and says what to do next.
    ///
    /// A completed or cached task is published and, unless the run failed and keeps to
    /// `FailFast`/`FinishRunning`, its dependents whose dependencies are all done are queued and
    /// started. A failed task fails the run; under `FailedTaskOnly` its rollback handler runs;
    /// under `FailFast` every other running task is cancelled and the run stops. An outcome for
    /// a task that is not running changes nothing.
    pub fn on_task_finished(&mut self, name: &str, execution: TaskResult) -> (actions: Vec<RunAction>)
        requires
            old(self).wf(),
        ensures
            final(self).wf(),
            final(self).spec_names() == old(self).spec_names(),
            final(self).spec_deps() == old(self).spec_deps(),
            final(self).spec_has_rollback() == old(self).spec_has_rollback(),
            final(self).spec_name() == old(self).spec_name(),
            final(self).spec_failure_policy() == old(self).spec_failure_policy(),
            final(self).spec_rollback_policy() == old(self).spec_rollback_policy(),
            (forall|i: int| 0 <= i < old(self).spec_names().len() ==> !(old(self).spec_names()[i] == name@ && #[trigger] old(self).spec_active()[i])) ==> {
                &&& actions@.len() == 0
                &&& final(self).spec_results() == old(self).spec_results()
                &&& final(self).spec_scheduled() == old(self).spec_scheduled()
                &&& final(self).spec_active() == old(self).spec_active()
                &&& final(self).spec_completed() == old(self).spec_completed()
                &&& final(self).spec_released() == old(self).spec_released()
                &&& final(self).spec_executed() == old(self).spec_executed()
                &&& final(self).spec_failed() == old(self).spec_failed()
                &&& final(self).spec_stopped() == old(self).spec_stopped()
            },
            forall|i: int| 0 <= i < old(self).spec_names().len() && old(self).spec_names()[i] == name@ && #[trigger] old(self).spec_active()[i] ==> {
                let o = *old(self);
                let f = *final(self);
                let n = o.spec_names().len();
                &&& !f.spec_active()[i]
                &&& f.spec_results()[i].name@ == name@
                &&& same_outcome(execution, f.spec_results()[i])
                &&& match execution.status {
                    TaskStatus::Completed | TaskStatus::Cached => {
                        let release = !o.spec_failed() || o.spec_failure_policy() == FailurePolicy::ContinueIndependent;
                        &&& f.spec_completed() == o.spec_completed().update(i, true)
                        &&& f.spec_executed() == if execution.status == TaskStatus::Completed { o.spec_executed().push(i as usize) } else { o.spec_executed() }
                        &&& f.spec_failed() == o.spec_failed()
                        &&& f.spec_stopped() == o.spec_stopped()
                        &&& f.spec_released() == if release { o.spec_released().update(i, true) } else { o.spec_released() }
                        &&& (!release ==> f.spec_scheduled() == o.spec_scheduled())
                        &&& (forall|j: int| 0 <= j < n ==> o.spec_scheduled()[j] ==> #[trigger] f.spec_scheduled()[j])
                        &&& (forall|j: int| 0 <= j < n && j != i ==> #[trigger] f.spec_results()[j] == if !o.spec_scheduled()[j] && f.spec_scheduled()[j] {
                                with_status(o.spec_results()[j], TaskStatus::Running)
                            } else {
                                o.spec_results()[j]
                            })
                        &&& (forall|j: int| 0 <= j < n && j != i ==> #[trigger] f.spec_active()[j] == (o.spec_active()[j] || (!o.spec_scheduled()[j] && f.spec_scheduled()[j])))
                        &&& actions_view(actions@) == seq![ActionView::Publish(name@)] + queue_actions(o.spec_names(), newly_set(o.spec_scheduled(), f.spec_scheduled(), n as int))
                    },
                    TaskStatus::Failed => {
                        let cancel = o.spec_failure_policy() == FailurePolicy::FailFast;
                        let still = o.spec_active().update(i, false);
                        &&& f.spec_failed()
                        &&& f.spec_stopped() == (o.spec_stopped() || cancel)
                        &&& f.spec_completed() == o.spec_completed()
                        &&& f.spec_released() == o.spec_released()
                        &&& f.spec_scheduled() == o.spec_scheduled()
                        &&& f.spec_executed() == o.spec_executed()
                        &&& f.spec_active() == if cancel { all_false(n) } else { still }
                        &&& (forall|j: int| 0 <= j < n && j != i ==> #[trigger] f.spec_results()[j] == if cancel && o.spec_active()[j] {
                                with_status(o.spec_results()[j], TaskStatus::Cancelled)
                            } else {
                                o.spec_results()[j]
                            })
                        &&& actions_view(actions@) == seq![ActionView::Emit(EventView::TaskFailed(name@, failure_text(execution.error)))]
                            + (if o.spec_rollback_policy() == RollbackPolicy::FailedTaskOnly && o.spec_has_rollback()[i] {
                                seq![ActionView::Emit(EventView::TaskRollbackStarted(name@)), ActionView::Rollback(name@, false)]
                            } else {
                                Seq::empty()
                            })
                            + (if cancel { cancel_actions(o.spec_names(), newly_set(all_false(n), still, n as int)) } else { Seq::empty() })
                    },
                    _ => {
                        &&& actions@.len() == 0
                        &&& f.spec_failed() == o.spec_failed()
                        &&& f.spec_stopped() == o.spec_stopped()
                        &&& f.spec_completed() == o.spec_completed()
                        &&& f.spec_released() == o.spec_released()
                        &&& f.spec_scheduled() == o.spec_scheduled()
                        &&& f.spec_executed() == o.spec_executed()
                        &&& f.spec_active() == o.spec_active().update(i, false)
                        &&& (forall|j: int| 0 <= j < n && j != i ==> #[trigger] f.spec_results()[j] == o.spec_results()[j])
                    },
                }
            },
    {
        let mut actions: Vec<RunAction> = Vec::new();
        let i = match self.index_of(name) {
            Some(i) => i,
            None => {
                return actions;
            },
        };
        if !self.active[i] {
            proof {
                assert forall|k: int| 0 <= k < self.names@.len() && strs(self.names@)[k] == name@ implies k == i by {
                    if k != i {
                        assert(strs(self.names@)[k] == strs(self.names@)[i as int]);
                        lemma_text_irreflexive(name@);
                    }
                }
            }
            return actions;
        }
        let ghost o = *self;
        proof {
            assert forall|k: int| 0 <= k < self.names@.len() && strs(self.names@)[k] == name@ && #[trigger] self.active@[k] implies k == i by {
                if k != i {
                    assert(strs(self.names@)[k] == strs(self.names@)[i as int]);
                    lemma_text_irreflexive(name@);
                }
            }
        }
        self.active.set(i, false);
        let status = execution.status;
        let stored = TaskResult { name: self.names[i].clone(), ..execution };
        match status {
            TaskStatus::Completed | TaskStatus::Cached => {
                self.completed.set(i, true);
                self.results.set(i, stored);
                actions.push(RunAction::Publish(self.names[i].clone()));
                if status == TaskStatus::Completed {
                    self.executed.push(i);
                }
                assert(self.wf());
                let release = !self.failed || self.failure_policy == FailurePolicy::ContinueIndependent;
                if release {
                    self.release(i, &mut actions);
                } else {
                    assert(newly_set(o.scheduled@, self.scheduled@, self.names@.len() as int) =~= Seq::<int>::empty()) by {
                        lemma_newly_set_none(o.scheduled@, self.names@.len() as int);
                    }
                }
                proof {
                    assert(actions_view(actions@) =~= seq![ActionView::Publish(name@)] + queue_actions(strs(o.names@), newly_set(o.scheduled@, self.scheduled@, self.names@.len() as int)));
                }
            },
            TaskStatus::Failed => {
                self.failed = true;
                let error = match &stored.error {
                    Some(e) => e.clone(),
                    None => str_to_string("task failed"),
                };
                actions.push(RunAction::Emit(PipelineEvent::TaskFailed { name: self.names[i].clone(), error }));
                self.results.set(i, stored);
                if self.rollback_policy == RollbackPolicy::FailedTaskOnly && self.has_rollback[i] {
                    actions.push(RunAction::Emit(PipelineEvent::TaskRollbackStarted { name: self.names[i].clone() }));
                    actions.push(RunAction::Rollback { name: self.names[i].clone(), mark_rolled_back: false });
                }
                let ghost mid = actions_view(actions@);
                if self.failure_policy == FailurePolicy::FailFast {
                    self.cancel_active(&mut actions);
                    self.stopped = true;
                } else {
                    assert(actions_view(actions@) =~= mid + Seq::<ActionView>::empty());
                }
            },
            _ => {
                self.results.set(i, stored);
            },
        }
        proof {
            assert(o.spec_names()[i as int] == name@ && o.spec_active()[i as int]);
        }
        actions
    }

    /// Cancels every running task, in name order.
    fn cancel_active(&mut self, actions: &mut Vec<RunAction>)
        requires
            old(self).consistent(),
        ensures
            final(self).consistent(),
            final(self).active@ == all_false(old(self).names@.len()),
            forall|j: int| 0 <= j < old(self).names@.len() ==> #[trigger] final(self).results@[j] == if old(self).active@[j] {
                with_status(old(self).results@[j], TaskStatus::Cancelled)
            } else {
                old(self).results@[j]
            },
            final(self).names@ == old(self).names@,
            final(self).deps@ == old(self).deps@,
            final(self).has_rollback@ == old(self).has_rollback@,
            final(self).dep_counts@ == old(self).dep_counts@,
            final(self).scheduled@ == old(self).scheduled@,
            final(self).completed@ == old(self).completed@,
            final(self).released@ == old(self).released@,
            final(self).executed@ == old(self).executed@,
            final(self).failed == old(self).failed,
            final(self).stopped == old(self).stopped,
            final(self).name == old(self).name,
            final(self).failure_policy == old(self).failure_policy,
            final(self).rollback_policy == old(self).rollback_policy,
            actions_view(final(actions)@) == actions_view(old(actions)@) + cancel_actions(strs(old(self).names@), newly_set(all_false(old(self).names@.len()), old(self).active@, old(self).names@.len() as int)),
    {
        let ghost o_active = self.active@;
        let ghost o_results = self.results@;
        let ghost a0 = actions_view(actions@);
        let n = self.names.len();
        let mut j: usize = 0;
        while j < n
            invariant
                n == self.names@.len(),
                self.consistent(),
                j <= n,
                o_active.len() == n,
                forall|k: int| 0 <= k < j ==> !#[trigger] self.active@[k],
                forall|k: int| j <= k < n ==> #[trigger] self.active@[k] == o_active[k],
                forall|k: int| 0 <= k < n ==> #[trigger] self.results@[k] == if k < j && o_active[k] {
                    with_status(o_results[k], TaskStatus::Cancelled)
                } else {
                    o_results[k]
                },
                self.names@ == old(self).names@,
                self.deps@ == old(self).deps@,
                self.has_rollback@ == old(self).has_rollback@,
                self.dep_counts@ == old(self).dep_counts@,
                self.scheduled@ == old(self).scheduled@,
                self.completed@ == old(self).completed@,
                self.released@ == old(self).released@,
                self.executed@ == old(self).executed@,
                self.failed == old(self).failed,
                self.stopped == old(self).stopped,
                self.name == old(self).name,
                self.failure_policy == old(self).failure_policy,
                self.rollback_policy == old(self).rollback_policy,
                o_active == old(self).active@,
                o_results == old(self).results@,
                actions_view(actions@) == a0 + cancel_actions(strs(self.names@), newly_set(all_false(n as nat), o_active, j as int)),
            decreases n - j,
        {
            if self.active[j] {
                self.active.set(j, false);
                let r = copy_result(&self.results[j]);
                self.results.set(j, TaskResult { status: TaskStatus::Cancelled, ..r });
                let ghost acts = actions_view(actions@);
                actions.push(RunAction::Cancel(self.names[j].clone()));
                actions.push(RunAction::Emit(PipelineEvent::TaskCancelled { name: self.names[j].clone() }));
                proof {
                    let ix = newly_set(all_false(n as nat), o_active, j as int);
                    assert(newly_set(all_false(n as nat), o_active, j + 1) =~= ix.push(j as int));
                    assert(ix.push(j as int).drop_last() =~= ix);
                    assert(actions_view(actions@) =~= acts + seq![ActionView::Cancel(strs(self.names@)[j as int]), ActionView::Emit(EventView::TaskCancelled(strs(self.names@)[j as int]))]);
                }
            } else {
                assert(newly_set(all_false(n as nat), o_active, j + 1) =~= newly_set(all_false(n as nat), o_active, j as int));
            }
            j = j + 1;
        }
        assert(self.active@ =~= all_false(n as nat));
    }
}

proof fn lemma_newly_set_none(a: Seq<bool>, k: int)
    ensures
        newly_set(a, a, k) == Seq::<int>::empty(),
    decreases k,
{
    if k > 0 {
        lemma_newly_set_none(a, k - 1);
    }
}

/// The indices below `k` whose result is still pending, ascending.
pub open spec fn pending_indices(results: Seq<TaskResult>, k: int) -> Seq<int>
    decreases k,
{
    if k <= 0 {
        Seq::empty()
    } else {
        pending_indices(results, k - 1) + if results[k - 1].status == TaskStatus::Pending {
            seq![k - 1]
        } else {
            Seq::empty()
        }
    }
}

/// Report each of the given tasks as skipped, in order.
pub open spec fn skip_actions(names: Seq<Seq<char>>, ix: Seq<int>, reason: Seq<char>) -> Seq<ActionView>
    decreases ix.len(),
{
    if ix.len() == 0 {
        Seq::empty()
    } else {
        skip_actions(names, ix.drop_last(), reason) + seq![
            ActionView::Emit(EventView::TaskSkipped(names[ix.last()], reason)),
        ]
    }
}

pub open spec fn opt_text(o: Option<String>) -> Option<Seq<char>> {
    match o {
        Some(s) => Some(s@),
        None => None,
    }
}

impl RunState {
    /// The run stopped waiting for further outcomes.
    pub fn is_stopped(&self) -> (res: bool)
        ensures
            res == self.spec_stopped(),
    {
        self.stopped
    }

    /// Records how a rollback handler ended. On success the task's rollback is recorded as
    /// completed and, when asked (and the task had completed), the task is marked rolled back;
    /// on failure the rollback error is recorded and the task's status stays as it was.
    pub fn on_rollback_finished(&mut self, name: &str, outcome: Result<(), String>, mark_rolled_back: bool) -> (actions: Vec<RunAction>)
        requires
            old(self).wf(),
        ensures
            final(self).wf(),
            final(self).spec_names() == old(self).spec_names(),
            final(self).spec_deps() == old(self).spec_deps(),
            final(self).spec_has_rollback() == old(self).spec_has_rollback(),
            final(self).spec_name() == old(self).spec_name(),
            final(self).spec_failure_policy() == old(self).spec_failure_policy(),
            final(self).spec_rollback_policy() == old(self).spec_rollback_policy(),
            final(self).spec_scheduled() == old(self).spec_scheduled(),
            final(self).spec_active() == old(self).spec_active(),
            final(self).spec_completed() == old(self).spec_completed(),
            final(self).spec_released() == old(self).spec_released(),
            final(self).spec_executed() == old(self).spec_executed(),
            final(self).spec_failed() == old(self).spec_failed(),
            final(self).spec_stopped() == old(self).spec_stopped(),
            (forall|i: int| 0 <= i < old(self).spec_names().len() ==> #[trigger] old(self).spec_names()[i] != name@) ==> {
                &&& actions@.len() == 0
                &&& final(self).spec_results() == old(self).spec_results()
            },
            forall|i: int| 0 <= i < old(self).spec_names().len() && #[trigger] old(self).spec_names()[i] == name@ ==> {
                let r = old(self).spec_results()[i];
                &&& (forall|j: int| 0 <= j < old(self).spec_names().len() && j != i ==> #[trigger] final(self).spec_results()[j] == old(self).spec_results()[j])
                &&& match outcome {
                    Ok(()) => {
                        &&& final(self).spec_results()[i] == TaskResult {
                            rollback_status: Some(RollbackStatus::Completed),
                            status: if mark_rolled_back && old(self).spec_completed()[i] { TaskStatus::RolledBack } else { r.status },
                            ..r
                        }
                        &&& actions_view(actions@) == seq![ActionView::Emit(EventView::TaskRollbackCompleted(name@))]
                    },
                    Err(e) => {
                        &&& final(self).spec_results()[i] == TaskResult {
                            rollback_status: Some(RollbackStatus::Failed),
                            rollback_error: Some(e),
                            ..r
                        }
                        &&& actions_view(actions@) == seq![ActionView::Emit(EventView::TaskRollbackFailed(name@, e@))]
                    },
                }
            },
    {
        let mut actions: Vec<RunAction> = Vec::new();
        let i = match self.index_of(name) {
            Some(i) => i,
            None => {
                return actions;
            },
        };
        proof {
            assert forall|k: int| 0 <= k < self.names@.len() && strs(self.names@)[k] == name@ implies k == i by {
                if k != i {
                    assert(strs(self.names@)[k] == strs(self.names@)[i as int]);
                    lemma_text_irreflexive(name@);
                }
            }
        }
        let ghost o = *self;
        let r = copy_result(&self.results[i]);
        match outcome {
            Ok(()) => {
                let status = if mark_rolled_back && self.completed[i] {
                    TaskStatus::RolledBack
                } else {
                    r.status
                };
                self.results.set(i, TaskResult { rollback_status: Some(RollbackStatus::Completed), status, ..r });
                actions.push(RunAction::Emit(PipelineEvent::TaskRollbackCompleted { name: self.names[i].clone() }));
            },
            Err(e) => {
                actions.push(RunAction::Emit(PipelineEvent::TaskRollbackFailed { name: self.names[i].clone(), error: e.clone() }));
                self.results.set(i, TaskResult { rollback_status: Some(RollbackStatus::Failed), rollback_error: Some(e), ..r });
            },
        }
        proof {
            assert(o.spec_names()[i as int] == name@);
        }
        actions
    }

    /// After a failure under `CompletedTasksReverseOrder`, the rollbacks to run: tasks that ran
    /// to completion and have a rollback handler, latest completion first. Otherwise none.
    pub fn final_rollbacks(&self) -> (actions: Vec<RunAction>)
        requires
            self.wf(),
        ensures
            actions_view(actions@) == if self.spec_failed() && self.spec_rollback_policy() == RollbackPolicy::CompletedTasksReverseOrder {
                rollback_actions(self.spec_names(), reverse_filter(self.spec_executed(), self.spec_has_rollback()))
            } else {
                Seq::empty()
            },
    {
        let mut actions: Vec<RunAction> = Vec::new();
        if !(self.failed && self.rollback_policy == RollbackPolicy::CompletedTasksReverseOrder) {
            return actions;
        }
        let n = self.executed.len();
        let mut k: usize = n;
        while k > 0
            invariant
                self.wf(),
                n == self.executed@.len(),
                k <= n,
                actions_view(actions@) == rollback_actions(strs(self.names@), reverse_filter(self.executed@.subrange(k as int, n as int), self.has_rollback@)),
            decreases k,
        {
            k = k - 1;
            let idx = self.executed[k];
            let ghost acts = actions_view(actions@);
            if self.has_rollback[idx] {
                actions.push(RunAction::Emit(PipelineEvent::TaskRollbackStarted { name: self.names[idx].clone() }));
                actions.push(RunAction::Rollback { name: self.names[idx].clone(), mark_rolled_back: true });
            }
            proof {
                lemma_reverse_filter_front(self.executed@, k as int, n as int, self.has_rollback@);
                let ix = reverse_filter(self.executed@.subrange(k + 1, n as int), self.has_rollback@);
                if self.has_rollback@[idx as int] {
                    lemma_rollback_actions_prepend(strs(self.names@), ix, idx as int);
                    assert(ix + seq![idx as int] =~= ix.push(idx as int));
                    assert(actions_view(actions@) =~= acts + seq![
                        ActionView::Emit(EventView::TaskRollbackStarted(strs(self.names@)[idx as int])),
                        ActionView::Rollback(strs(self.names@)[idx as int], true),
                    ]);
                } else {
                    assert(ix + Seq::<int>::empty() =~= ix);
                }
            }
        }
        assert(self.executed@.subrange(0, n as int) =~= self.executed@);
        actions
    }
}

/// Walking back from the end: the element at `k` comes after those behind it.
proof fn lemma_reverse_filter_front(ex: Seq<usize>, k: int, n: int, keep: Seq<bool>)
    requires
        0 <= k < n <= ex.len(),
    ensures
        reverse_filter(ex.subrange(k, n), keep) == reverse_filter(ex.subrange(k + 1, n), keep) + if keep[ex[k] as int] {
            seq![ex[k] as int]
        } else {
            Seq::empty()
        },
    decreases n - k,
{
    let s = ex.subrange(k, n);
    if k + 1 == n {
        assert(s.drop_last() =~= Seq::<usize>::empty());
        assert(ex.subrange(k + 1, n) =~= Seq::<usize>::empty());
    } else {
        lemma_reverse_filter_front(ex, k, n - 1, keep);
        assert(s.drop_last() =~= ex.subrange(k, n - 1));
        assert(ex.subrange(k + 1, n).drop_last() =~= ex.subrange(k + 1, n - 1));
        assert(s.last() == ex[n - 1]);
        assert(ex.subrange(k + 1, n).last() == ex[n - 1]);
    }
}

proof fn lemma_rollback_actions_prepend(names: Seq<Seq<char>>, ix: Seq<int>, j: int)
    ensures
        rollback_actions(names, ix.push(j)) == rollback_actions(names, ix) + seq![
            ActionView::Emit(EventView::TaskRollbackStarted(names[j])),
            ActionView::Rollback(names[j], true),
        ],
{
    assert(ix.push(j).drop_last() =~= ix);
}

/// What ending the run gives: each task still pending after a failure is skipped, with the
/// reason the failure policy gives, every other result is kept, and the summary counts the
/// results; the actions report the skipped tasks, then the summary.
pub open spec fn run_finished(st: RunState, duration: u64, result: PipelineResult, actions: Seq<ActionView>) -> bool {
    let n = st.spec_names().len();
    let reason = skip_reason(st.spec_failure_policy());
    let rs = result.tasks@;
    &&& result.name@ == st.spec_name()
    &&& result.duration == duration
    &&& rs.len() == n
    &&& (forall|j: int| 0 <= j < n ==> {
        let r = st.spec_results()[j];
        if st.spec_failed() && r.status == TaskStatus::Pending {
            &&& #[trigger] rs[j] == TaskResult { status: TaskStatus::Skipped, error: rs[j].error, ..r }
            &&& opt_text(rs[j].error) == Some(reason)
        } else {
            rs[j] == r
        }
    })
    &&& summary_view(result.summary) == summary_of(st.spec_name(), rs)
    &&& actions == (if st.spec_failed() {
        skip_actions(st.spec_names(), pending_indices(st.spec_results(), n as int), reason)
    } else {
        Seq::empty()
    }) + seq![ActionView::Emit(EventView::PipelineFinished(summary_of(st.spec_name(), rs)))]
}

impl RunState {
    /// Ends the run. After a failure every task still pending is skipped, with the reason the
    /// failure policy gives; then the summary is reported. `duration` is the run's length in
    /// nanoseconds.
    pub fn finish(self, duration: u64) -> (res: (PipelineResult, Vec<RunAction>))
        requires
            self.wf(),
        ensures
            run_finished(self, duration, res.0, actions_view(res.1@)),
    {
        let ghost old_results = self.results@;
        let ghost names = strs(self.names@);
        let RunState { name, names: task_names_vec, failure_policy, mut results, failed, .. } = self;
        let mut actions: Vec<RunAction> = Vec::new();
        let n = results.len();
        if failed {
            let reason = match failure_policy {
                FailurePolicy::ContinueIndependent => str_to_string("dependency failed"),
                FailurePolicy::FinishRunning => str_to_string("pipeline stopped scheduling after failure"),
                FailurePolicy::FailFast => str_to_string("pipeline failed fast"),
            };
            let mut j: usize = 0;
            while j < n
                invariant
                    n == results@.len(),
                    n == old_results.len(),
                    n == task_names_vec@.len(),
                    names == strs(task_names_vec@),
                    reason@ == skip_reason(failure_policy),
                    j <= n,
                    forall|k: int| 0 <= k < n ==> {
                        let r = old_results[k];
                        if k < j && r.status == TaskStatus::Pending {
                            &&& #[trigger] results@[k] == TaskResult { status: TaskStatus::Skipped, error: results@[k].error, ..r }
                            &&& opt_text(results@[k].error) == Some(reason@)
                        } else {
                            results@[k] == r
                        }
                    },
                    actions_view(actions@) == skip_actions(names, pending_indices(old_results, j as int), reason@),
                decreases n - j,
            {
                let ghost acts = actions_view(actions@);
                if results[j].status == TaskStatus::Pending {
                    let r = copy_result(&results[j]);
                    results.set(j, TaskResult { status: TaskStatus::Skipped, error: Some(reason.clone()), ..r });
                    actions.push(RunAction::Emit(PipelineEvent::TaskSkipped { name: task_names_vec[j].clone(), reason: reason.clone() }));
                    proof {
                        let ix = pending_indices(old_results, j as int);
                        assert(pending_indices(old_results, j + 1) =~= ix.push(j as int));
                        assert(ix.push(j as int).drop_last() =~= ix);
                        assert(actions_view(actions@) =~= acts + seq![ActionView::Emit(EventView::TaskSkipped(names[j as int], reason@))]);
                    }
                } else {
                    assert(pending_indices(old_results, j + 1) =~= pending_indices(old_results, j as int));
                }
                j = j + 1;
            }
        } else {
            assert(actions_view(actions@) =~= Seq::<ActionView>::empty());
        }
        let summary = summarize(name.as_str(), &results);
        let ghost acts = actions_view(actions@);
        actions.push(RunAction::Emit(PipelineEvent::PipelineFinished { result: copy_summary(&summary) }));
        proof {
            assert(actions_view(actions@) =~= acts + seq![ActionView::Emit(EventView::PipelineFinished(summary_of(name@, results@)))]);
        }
        (PipelineResult { name, duration, tasks: results, summary }, actions)
    }
}


/// The names of the results, in order.
pub open spec fn result_names(rs: Seq<TaskResult>) -> Seq<Seq<char>> {
    rs.map_values(|r: TaskResult| r.name@)
}

/// At the end of a run in which no task is left running (every started task reported back),
/// the result lists every task once, in name order; no task is running; after a failure no
/// task is pending either; each count of the summary is the number of tasks with that status
/// (failed rollbacks counted by rollback status); and the run succeeded exactly when no task
/// failed, was skipped or was cancelled and no rollback failed.
pub proof fn lemma_run_end(st: RunState, duration: u64, result: PipelineResult, actions: Seq<ActionView>)
    requires
        st.wf(),
        run_finished(st, duration, result, actions),
        forall|i: int| 0 <= i < st.spec_names().len() ==> #[trigger] st.spec_results()[i].status
            != TaskStatus::Running,
    ensures
        result.name@ == st.spec_name(),
        result_names(result.tasks@) == st.spec_names(),
        text_strictly_sorted(result_names(result.tasks@)),
        forall|j: int| 0 <= j < result.tasks@.len() ==> #[trigger] result.tasks@[j].status != TaskStatus::Running,
        st.spec_failed() ==> forall|j: int| 0 <= j < result.tasks@.len() ==> #[trigger] result.tasks@[j].status
            != TaskStatus::Pending,
        result.summary.completed == count_status(result.tasks@, TaskStatus::Completed),
        result.summary.failed == count_status(result.tasks@, TaskStatus::Failed),
        result.summary.skipped == count_status(result.tasks@, TaskStatus::Skipped),
        result.summary.cached == count_status(result.tasks@, TaskStatus::Cached),
        result.summary.cancelled == count_status(result.tasks@, TaskStatus::Cancelled),
        result.summary.rolled_back == count_status(result.tasks@, TaskStatus::RolledBack),
        result.summary.rollback_failed == count_rollback_failed(result.tasks@),
        result.summary.success <==> (result.summary.failed == 0 && result.summary.skipped == 0
            && result.summary.cancelled == 0 && result.summary.rollback_failed == 0),
{
    let rs = result.tasks@;
    let n = st.spec_names().len();
    assert forall|j: int| 0 <= j < n implies #[trigger] result_names(rs)[j] == st.spec_names()[j] by {
        let r = st.spec_results()[j];
        assert(st.results@[j] == r);
        if st.spec_failed() && r.status == TaskStatus::Pending {
            assert(rs[j] == TaskResult { status: TaskStatus::Skipped, error: rs[j].error, ..r });
        } else {
            assert(rs[j] == r);
        }
    }
    assert(result_names(rs) =~= st.spec_names());
}

proof fn lemma_unreleased_none(row: Seq<usize>, released: Seq<bool>)
    requires
        forall|m: int| 0 <= m < row.len() ==> released[#[trigger] row[m] as int],
    ensures
        unreleased(row, released) == 0,
    decreases row.len(),
{
    if row.len() > 0 {
        assert(released[row[row.len() - 1] as int]);
        lemma_unreleased_none(row.drop_last(), released);
    }
}

impl RunState {
    proof fn lemma_started_prefix(&self, tasks: Seq<Task>, order: Seq<int>, k: int)
        requires
            self.wf(),
            is_adjacency(tasks, self.spec_deps()),
            is_execution_order(tasks, order),
            forall|i: int| 0 <= i < self.spec_names().len() && #[trigger] self.spec_scheduled()[i]
                ==> self.spec_completed()[i],
            forall|i: int| 0 <= i < self.spec_names().len() && #[trigger] self.spec_completed()[i]
                ==> self.spec_released()[i],
            0 <= k <= order.len(),
        ensures
            forall|k2: int| 0 <= k2 < k ==> #[trigger] self.spec_scheduled()[order[k2]],
        decreases k,
    {
        if k > 0 {
            self.lemma_started_prefix(tasks, order, k - 1);
            let i = order[k - 1];
            let row = self.deps@[i]@;
            assert(self.spec_deps()[i] == row);
            assert forall|m: int| 0 <= m < row.len() implies self.released@[#[trigger] row[m] as int] by {
                let d = row[m] as int;
                assert(dep_names(tasks[i])[m] == tasks[d].name@);
                assert(depends(tasks, i, d));
                assert(order.contains(d));
                let j = choose|j: int| 0 <= j < order.len() && order[j] == d;
                assert(depends(tasks, order[k - 1], order[j]));
                assert(self.spec_scheduled()[order[j]]);
            }
            lemma_unreleased_none(row, self.released@);
        }
    }

    /// A run cannot stall: once every task that was started has completed (or was restored
    /// from the cache) and its dependents were told, every task of the pipeline — whose
    /// dependencies admit an execution order — has been started and completed, and none is
    /// left pending or running.
    pub proof fn lemma_run_drains(&self, tasks: Seq<Task>, order: Seq<int>)
        requires
            self.wf(),
            is_adjacency(tasks, self.spec_deps()),
            is_execution_order(tasks, order),
            forall|i: int| 0 <= i < self.spec_names().len() && #[trigger] self.spec_scheduled()[i]
                ==> self.spec_completed()[i],
            forall|i: int| 0 <= i < self.spec_names().len() && #[trigger] self.spec_completed()[i]
                ==> self.spec_released()[i],
        ensures
            forall|i: int| 0 <= i < self.spec_names().len() ==> #[trigger] self.spec_completed()[i],
            forall|i: int| 0 <= i < self.spec_names().len() ==> #[trigger] self.spec_results()[i].status
                != TaskStatus::Pending,
            forall|i: int| 0 <= i < self.spec_names().len() ==> #[trigger] self.spec_results()[i].status
                != TaskStatus::Running,
    {
        self.lemma_started_prefix(tasks, order, order.len() as int);
        assert forall|i: int| 0 <= i < self.spec_names().len() implies #[trigger] self.completed@[i] by {
            assert(order.contains(i));
            let k = choose|k: int| 0 <= k < order.len() && order[k] == i;
            assert(self.spec_scheduled()[order[k]]);
        }
        assert forall|i: int| 0 <= i < self.spec_names().len() implies #[trigger] self.spec_results()[i].status
            != TaskStatus::Pending && self.spec_results()[i].status != TaskStatus::Running by {
            assert(self.completed@[i]);
        }
    }
}

} // verus!
