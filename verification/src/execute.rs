//! Executing one task: consulting the cache, running the action, storing the new entry.
//!
//! Each step takes what the runner observed (the task's cache eligibility, the cache lookup,
//! the outcome of the action, the outcome of saving) and says what to do next.
use vstd::prelude::*;
use crate::cache::{
    env_value, hash_outcome, lemma_identity_determined, looks_up, read_of, saves, scan_of,
    task_file_name_text, CacheEligibility, CacheEntry, CacheLookup, CacheManager, InputSnapshot,
    StoredEntry,
};
use crate::task::Task;
use crate::paths::join_path_text;
use crate::run::{PipelineEvent, TaskResult, TaskStatus};
use crate::text::{push_text, str_to_string, strs};

verus! {

/// What the runner does next while executing a task.
#[derive(Clone, Debug)]
pub enum ExecStep<O> {
    /// Look the identity hash up in the cache and hand the lookup to `after_lookup`.
    Lookup { hash: String, reason: String },
    /// The stored outputs become the task's outputs; report the event; the task is done.
    Restore { outputs: O, result: TaskResult, event: PipelineEvent },
    /// Report the event, run the task's action and hand its outcome to `after_action`; `save`
    /// holds the hash and reason to store once the action succeeds.
    Run { result: TaskResult, save: Option<(String, String)>, event: PipelineEvent },
    /// Store the task's outputs under the hash and hand the outcome to `after_save`.
    Save { hash: String, reason: String, result: TaskResult },
    /// The task is done; report the event, if any.
    Finished { result: TaskResult, event: Option<PipelineEvent> },
}

/// A result for the named task with no rollback recorded.
pub open spec fn unrolled(r: TaskResult, name: Seq<char>) -> bool {
    &&& r.name@ == name
    &&& r.rollback_status is None
    &&& r.rollback_error is None
}

/// The optional text holds exactly `t`.
pub open spec fn holds_text(o: Option<String>, t: Seq<char>) -> bool {
    o matches Some(s) && s@ == t
}

/// A result that has not run yet, with the given cache reason.
pub open spec fn ready_to_run(r: TaskResult, name: Seq<char>, cache_reason: Seq<char>) -> bool {
    &&& unrolled(r, name)
    &&& r.status == TaskStatus::Pending
    &&& r.duration is None
    &&& r.error is None
    &&& !r.cache_hit
    &&& holds_text(r.cache_reason, cache_reason)
}

/// The event that a task has started.
pub open spec fn started_event(e: PipelineEvent, name: Seq<char>) -> bool {
    e matches PipelineEvent::TaskStarted { name: n } && n@ == name
}

/// The event that a task was restored from the cache.
pub open spec fn cached_event(e: PipelineEvent, name: Seq<char>, reason: Seq<char>) -> bool {
    e matches PipelineEvent::TaskCached { name: n, reason: r } && n@ == name && r@ == reason
}

/// The event that a task completed after running for `d` nanoseconds.
pub open spec fn completed_event(e: Option<PipelineEvent>, name: Seq<char>, d: u64) -> bool {
    e matches Some(PipelineEvent::TaskCompleted { name: n, duration: x }) && n@ == name && x == d
}

/// The same result apart from status, duration and error.
pub open spec fn same_cache_fields(r: TaskResult, before: TaskResult) -> bool {
    &&& r.name@ == before.name@
    &&& r.cache_hit == before.cache_hit
    &&& r.cache_reason == before.cache_reason
    &&& r.rollback_status == before.rollback_status
    &&& r.rollback_error == before.rollback_error
}

/// The first step: a task whose identity could not be computed fails; a task that is not
/// cached runs; a cached task is looked up.
pub fn begin_execution<O>(name: &str, eligibility: Result<CacheEligibility, String>) -> (res: ExecStep<O>)
    ensures
        match eligibility {
            Err(e) => res matches ExecStep::Finished { result, event } && event is None && unrolled(result, name@)
                && result.status == TaskStatus::Failed && result.duration is None && holds_text(
                result.error,
                "Failed to compute cache hash: "@ + e@,
            ) && !result.cache_hit && result.cache_reason is None,
            Ok(CacheEligibility::Disabled(reason)) => res matches ExecStep::Run { result, save, event } && save is None
                && ready_to_run(result, name@, reason@) && started_event(event, name@),
            Ok(CacheEligibility::Enabled { hash, reason }) => res matches ExecStep::Lookup { hash: h, reason: r } && h@
                == hash@ && r@ == reason@,
        },
{
    match eligibility {
        Err(e) => {
            let mut result = TaskResult::pending(name);
            let mut msg = str_to_string("Failed to compute cache hash: ");
            push_text(&mut msg, e.as_str());
            result.status = TaskStatus::Failed;
            result.error = Some(msg);
            ExecStep::Finished { result, event: None }
        },
        Ok(CacheEligibility::Disabled(reason)) => {
            let mut result = TaskResult::pending(name);
            result.cache_reason = Some(reason);
            ExecStep::Run { result, save: None, event: PipelineEvent::TaskStarted { name: str_to_string(name) } }
        },
        Ok(CacheEligibility::Enabled { hash, reason }) => ExecStep::Lookup { hash, reason },
    }
}

/// The step after a lookup: a hit restores the stored outputs and the task counts as cached
/// (no duration, no error); a miss runs the task and remembers the hash and reason to store.
pub open spec fn after_lookup_step<O>(name: Seq<char>, hash: Seq<char>, reason: Seq<char>, lookup: CacheLookup<O>, res: ExecStep<O>) -> bool {
    match lookup {
        CacheLookup::Hit { reason: r, outputs } => res matches ExecStep::Restore { outputs: o, result, event } && o
            == outputs && unrolled(result, name) && result.status == TaskStatus::Cached && result.duration
            == Some(0u64) && result.error is None && result.cache_hit && holds_text(result.cache_reason, r@)
            && cached_event(event, name, r@),
        CacheLookup::Miss { reason: r } => res matches ExecStep::Run { result, save, event } && save matches Some(
            (h, sr),
        ) && h@ == hash && sr@ == reason && ready_to_run(result, name, r@) && started_event(event, name),
    }
}

/// What a run stores, the next run with the same identity restores: the entry saved for a
/// task under a hash, read back from the task's entry file and looked up under that hash, is a
/// hit, and the task is then restored with the saved outputs and counted as cached with no
/// duration, without its action running.
pub proof fn lemma_cache_round_trip<O>(
    manager: CacheManager,
    name: Seq<char>,
    hash: Seq<char>,
    timestamp: u64,
    outputs: O,
    saved: (String, CacheEntry<O>),
    lookup: CacheLookup<O>,
    reason: Seq<char>,
    step: ExecStep<O>,
)
    requires
        saves(manager, name, hash, timestamp, outputs, saved),
        looks_up(hash, StoredEntry::Found(saved.1), lookup),
        after_lookup_step(name, hash, reason, lookup, step),
    ensures
        saved.0@ == join_path_text(manager.spec_dir(), task_file_name_text(name) + ".json"@),
        step matches ExecStep::Restore { outputs: o, result, event } && o == outputs && result.status
            == TaskStatus::Cached && result.cache_hit && result.duration == Some(0u64) && result.error is None
            && cached_event(event, name, "cache entry hash matches current task identity"@),
{
}

/// An unchanged task is restored by the next run: when one run saved the task's entry under
/// the hash of its identity, and the next run of the same pipeline finds the same environment
/// values, the same pattern expansions and the same file contents, the next run computes the
/// same hash, its lookup of the saved entry is a hit, and the task is restored with the saved
/// outputs and counted as cached with no duration, without its action running.
pub proof fn lemma_unchanged_task_cached<O>(
    manager: CacheManager,
    pipeline_name: Seq<char>,
    task: Task,
    first: InputSnapshot,
    second: InputSnapshot,
    hash: Seq<char>,
    next_hash: Seq<char>,
    timestamp: u64,
    outputs: O,
    saved: (String, CacheEntry<O>),
    lookup: CacheLookup<O>,
    reason: Seq<char>,
    step: ExecStep<O>,
)
    requires
        forall|k: Seq<char>| #[trigger] strs(task.env_vars@).contains(k) ==> env_value(first.env@, k)
            == env_value(second.env@, k),
        forall|p: Seq<char>| #[trigger] strs(task.inputs@).contains(p) ==> scan_of(first.patterns@, p)
            == scan_of(second.patterns@, p),
        forall|f: Seq<char>| #[trigger] read_of(first.files@, f) == read_of(second.files@, f),
        hash_outcome(pipeline_name, task, first) == Ok::<Seq<char>, Seq<char>>(hash),
        hash_outcome(pipeline_name, task, second) == Ok::<Seq<char>, Seq<char>>(next_hash),
        saves(manager, task.name@, hash, timestamp, outputs, saved),
        looks_up(next_hash, StoredEntry::Found(saved.1), lookup),
        after_lookup_step(task.name@, next_hash, reason, lookup, step),
    ensures
        next_hash == hash,
        step matches ExecStep::Restore { outputs: o, result, event } && o == outputs && result.status
            == TaskStatus::Cached && result.cache_hit && result.duration == Some(0u64) && result.error is None
            && cached_event(event, task.name@, "cache entry hash matches current task identity"@),
{
    lemma_identity_determined(pipeline_name, task, task, first, second);
    lemma_cache_round_trip(manager, task.name@, hash, timestamp, outputs, saved, lookup, reason, step);
}

/// After the lookup: a hit restores the stored outputs and the task counts as cached; a miss
/// runs the task and remembers to store its entry.
pub fn after_lookup<O>(name: &str, hash: String, reason: String, lookup: CacheLookup<O>) -> (res: ExecStep<O>)
    ensures
        after_lookup_step(name@, hash@, reason@, lookup, res),
{
    match lookup {
        CacheLookup::Hit { reason: r, outputs } => {
            let mut result = TaskResult::pending(name);
            let event = PipelineEvent::TaskCached { name: str_to_string(name), reason: r.clone() };
            result.status = TaskStatus::Cached;
            result.duration = Some(0);
            result.cache_hit = true;
            result.cache_reason = Some(r);
            ExecStep::Restore { outputs, result, event }
        },
        CacheLookup::Miss { reason: r } => {
            let mut result = TaskResult::pending(name);
            result.cache_reason = Some(r);
            ExecStep::Run {
                result,
                save: Some((hash, reason)),
                event: PipelineEvent::TaskStarted { name: str_to_string(name) },
            }
        },
    }
}

/// After the action ran for `duration` nanoseconds: a failure ends the task with the error; a
/// success stores the entry if the task is cached, else completes the task.
pub fn after_action<O>(result: TaskResult, duration: u64, outcome: Result<(), String>, save: Option<(String, String)>) -> (res: ExecStep<O>)
    ensures
        match outcome {
            Err(e) => res matches ExecStep::Finished { result: r, event } && event is None && same_cache_fields(r, result)
                && r.status == TaskStatus::Failed && r.duration == Some(duration) && holds_text(r.error, e@),
            Ok(()) => match save {
                Some((h, reason)) => res matches ExecStep::Save { hash, reason: sr, result: r } && hash@ == h@ && sr@
                    == reason@ && same_cache_fields(r, result) && r.status == result.status && r.duration == Some(
                    duration,
                ) && r.error == result.error,
                None => res matches ExecStep::Finished { result: r, event } && same_cache_fields(r, result) && r.status
                    == TaskStatus::Completed && r.duration == Some(duration) && r.error == result.error
                    && completed_event(event, result.name@, duration),
            },
        },
{
    let mut result = result;
    result.duration = Some(duration);
    match outcome {
        Err(e) => {
            result.status = TaskStatus::Failed;
            result.error = Some(e);
            ExecStep::Finished { result, event: None }
        },
        Ok(()) => match save {
            Some((hash, reason)) => ExecStep::Save { hash, reason, result },
            None => {
                result.status = TaskStatus::Completed;
                let event = PipelineEvent::TaskCompleted { name: result.name.clone(), duration };
                ExecStep::Finished { result, event: Some(event) }
            },
        },
    }
}

/// The duration recorded in a result, zero if none.
pub open spec fn recorded_duration(r: TaskResult) -> u64 {
    match r.duration {
        Some(d) => d,
        None => 0,
    }
}

/// The cache reason after saving: the reason, followed by the error if saving failed.
pub open spec fn saved_reason(reason: Seq<char>, saved: Result<(), String>) -> Seq<char> {
    match saved {
        Ok(()) => reason,
        Err(e) => reason + "; failed to save cache: "@ + e@,
    }
}

/// After storing the entry: the task completes, and its cache reason says whether saving failed.
pub fn after_save<O>(result: TaskResult, reason: String, saved: Result<(), String>) -> (res: ExecStep<O>)
    ensures
        res matches ExecStep::Finished { result: r, event } && r.name@ == result.name@ && r.status
            == TaskStatus::Completed && r.duration == result.duration && r.error == result.error && r.cache_hit
            == result.cache_hit && r.rollback_status == result.rollback_status && r.rollback_error
            == result.rollback_error && completed_event(event, result.name@, recorded_duration(result))
            && holds_text(r.cache_reason, saved_reason(reason@, saved)),
{
    let mut result = result;
    let text = match saved {
        Ok(()) => reason,
        Err(e) => {
            let mut t = reason;
            push_text(&mut t, "; failed to save cache: ");
            push_text(&mut t, e.as_str());
            t
        },
    };
    result.cache_reason = Some(text);
    result.status = TaskStatus::Completed;
    let duration = match result.duration {
        Some(d) => d,
        None => 0,
    };
    let event = PipelineEvent::TaskCompleted { name: result.name.clone(), duration };
    ExecStep::Finished { result, event: Some(event) }
}

} // verus!
