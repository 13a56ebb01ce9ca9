use runkernel::execute::{after_action, after_lookup, after_save, begin_execution, ExecStep};
use runkernel::cache::{CacheEligibility, CacheLookup};
use runkernel::outputs::OutputStore;
use runkernel::pipeline::{FailurePolicy, Pipeline, RollbackPolicy};
use runkernel::protocol::{
    finish_result, graph_to_text, list, metadata, parse_protocol, require_json_format,
    ProtocolCommand,
};
use runkernel::rote;
use runkernel::run::{
    summarize, PipelineEvent, PipelineResult, RollbackStatus, RunAction, RunState, TaskResult,
    TaskStatus,
};
use runkernel::task::{Shell, Task};
use std::collections::VecDeque;

/// How a simulated task ends, and how its rollback handler ends.
struct Behaviour {
    fails: Vec<&'static str>,
    rollback_fails: Vec<&'static str>,
}

/// Runs a pipeline on the scheduler, tasks finishing in the order they were started.
fn simulate(p: &Pipeline, b: &Behaviour) -> Result<(PipelineResult, Vec<PipelineEvent>), String> {
    let (mut state, actions) = RunState::start(p).map_err(|e| e.message())?;
    let mut events = Vec::new();
    let mut running: VecDeque<String> = VecDeque::new();
    let mut pending_actions: VecDeque<RunAction> = actions.into_iter().collect();
    loop {
        while let Some(action) = pending_actions.pop_front() {
            match action {
                RunAction::Emit(e) => events.push(e),
                RunAction::Start(name) => running.push_back(name),
                RunAction::Publish(_) => {}
                RunAction::Rollback { name, mark_rolled_back } => {
                    let outcome = if b.rollback_fails.contains(&name.as_str()) {
                        Err("rollback failed".to_string())
                    } else {
                        Ok(())
                    };
                    pending_actions.extend(state.on_rollback_finished(&name, outcome, mark_rolled_back));
                }
                RunAction::Cancel(name) => running.retain(|n| n != &name),
            }
        }
        if state.is_stopped() {
            break;
        }
        let Some(name) = running.pop_front() else { break };
        let mut result = TaskResult::pending(&name);
        result.duration = Some(1);
        if b.fails.contains(&name.as_str()) {
            result.status = TaskStatus::Failed;
            result.error = Some("nope".to_string());
        } else {
            result.status = TaskStatus::Completed;
        }
        pending_actions.extend(state.on_task_finished(&name, result));
    }
    let rollbacks = state.final_rollbacks();
    let mut queue: VecDeque<RunAction> = rollbacks.into_iter().collect();
    while let Some(action) = queue.pop_front() {
        match action {
            RunAction::Emit(e) => events.push(e),
            RunAction::Rollback { name, mark_rolled_back } => {
                let outcome = if b.rollback_fails.contains(&name.as_str()) {
                    Err("rollback failed".to_string())
                } else {
                    Ok(())
                };
                queue.extend(state.on_rollback_finished(&name, outcome, mark_rolled_back));
            }
            _ => {}
        }
    }
    let (result, finish_actions) = state.finish(10);
    for action in finish_actions {
        if let RunAction::Emit(e) = action {
            events.push(e);
        }
    }
    Ok((result, events))
}

fn status(result: &PipelineResult, name: &str) -> TaskStatus {
    result.tasks.iter().find(|task| task.name == name).unwrap().status
}

fn ok() -> Behaviour {
    Behaviour { fails: Vec::new(), rollback_fails: Vec::new() }
}

#[test]
fn test_shell_command_parts() {
    let (program, args) = Shell::Bash.command_parts("cargo test");
    assert_eq!(program, "bash");
    assert_eq!(args, vec!["-c", "cargo test"]);
}

#[test]
fn shell_command_parts_of_every_shell() {
    assert_eq!(Shell::Sh.command_parts("x"), ("sh".to_string(), vec!["-c".to_string(), "x".to_string()]));
    assert_eq!(Shell::Zsh.command_parts("x").0, "zsh");
    assert_eq!(
        Shell::PowerShell.command_parts("x"),
        ("pwsh".to_string(), vec!["-Command".to_string(), "x".to_string()])
    );
    assert_eq!(Shell::Cmd.command_parts("x"), ("cmd".to_string(), vec!["/C".to_string(), "x".to_string()]));
    let custom = Shell::Custom { program: "nu".to_string(), args: vec!["-c".to_string()] };
    assert_eq!(custom.command_parts("x"), ("nu".to_string(), vec!["-c".to_string(), "x".to_string()]));
}

#[test]
fn pipeline_test_dag_success() {
    let mut p = Pipeline::new("test");
    p.add(Task::new("t1").exec("echo 't1'"));
    p.add(Task::new("t2").depends_on(&["t1"]).exec("echo 't2'"));
    let (res, _) = simulate(&p, &ok()).unwrap();
    assert!(res.summary.success);
    assert_eq!(status(&res, "t1"), TaskStatus::Completed);
    assert_eq!(status(&res, "t2"), TaskStatus::Completed);

    let mut rote_pipeline = rote::Pipeline::new("test");
    rote_pipeline.add(rote::Task::new("t1").exec("echo 't1'"));
    rote_pipeline.add(rote::Task::new("t2").depends_on(&["t1"]).exec("echo 't2'"));
    assert!(rote_pipeline.start().is_ok());
}

#[test]
fn pipeline_test_cycle_detection() {
    let mut p = Pipeline::new("test_cycle");
    p.add(Task::new("t1").depends_on(&["t2"]).exec("echo 't1'"));
    p.add(Task::new("t2").depends_on(&["t1"]).exec("echo 't2'"));
    let err = simulate(&p, &ok()).unwrap_err();
    assert!(err.contains("Circular dependency detected"));
    assert_eq!(err, "Circular dependency detected: t1 -> t2 -> t1");

    let mut rote_pipeline = rote::Pipeline::new("test_cycle");
    rote_pipeline.add(rote::Task::new("t1").depends_on(&["t2"]).exec("echo 't1'"));
    rote_pipeline.add(rote::Task::new("t2").depends_on(&["t1"]).exec("echo 't2'"));
    assert!(rote_pipeline.start().err().unwrap().contains("Circular dependency detected"));
}

#[test]
fn first_cycle_met_is_reported() {
    let mut p = Pipeline::new("cycles");
    p.add(Task::new("d").depends_on(&["c"]).exec("true"));
    p.add(Task::new("c").depends_on(&["d"]).exec("true"));
    p.add(Task::new("b").depends_on(&["x", "c"]).exec("true"));
    p.add(Task::new("x").depends_on(&["b"]).exec("true"));
    p.add(Task::new("a").depends_on(&["b"]).exec("true"));
    let err = p.graph().unwrap_err().message();
    assert_eq!(err, "Circular dependency detected: c -> d -> c");
}

#[test]
fn pipeline_test_missing_dependency() {
    let mut p = Pipeline::new("test_missing");
    p.add(Task::new("t1").depends_on(&["nonexistent"]).exec("echo 't1'"));
    let err = simulate(&p, &ok()).unwrap_err();
    assert!(err.contains("does not exist in the pipeline"));
    assert_eq!(err, "Task 't1' depends on 'nonexistent', which does not exist in the pipeline");

    let mut rote_pipeline = rote::Pipeline::new("test_missing");
    rote_pipeline.add(rote::Task::new("t1").depends_on(&["nonexistent"]).exec("echo 't1'"));
    assert!(rote_pipeline.start().err().unwrap().contains("does not exist in the pipeline"));
}

#[test]
fn pipeline_test_rollback_on_failure() {
    let mut p = Pipeline::new("test_failure");
    p.add(Task::new("fail-task").exec_fn().on_failure());
    let b = Behaviour { fails: vec!["fail-task"], rollback_fails: Vec::new() };
    let (res, events) = simulate(&p, &b).unwrap();
    assert!(!res.summary.success);
    assert_eq!(status(&res, "fail-task"), TaskStatus::Failed);
    assert!(events
        .iter()
        .any(|e| matches!(e, PipelineEvent::TaskRollbackStarted { name } if name == "fail-task")));
    let task = res.tasks.iter().find(|t| t.name == "fail-task").unwrap();
    assert_eq!(task.rollback_status, Some(RollbackStatus::Completed));
}

#[test]
fn test_continue_independent_policy() {
    let mut p = Pipeline::new("continue").failure_policy(FailurePolicy::ContinueIndependent);
    p.add(Task::new("fail").exec_fn());
    p.add(Task::new("blocked").depends_on(&["fail"]).exec("echo blocked"));
    p.add(Task::new("independent").exec("echo independent"));
    let b = Behaviour { fails: vec!["fail"], rollback_fails: Vec::new() };
    let (res, _) = simulate(&p, &b).unwrap();
    assert_eq!(status(&res, "fail"), TaskStatus::Failed);
    assert_eq!(status(&res, "blocked"), TaskStatus::Skipped);
    assert_eq!(status(&res, "independent"), TaskStatus::Completed);
    let blocked = res.tasks.iter().find(|t| t.name == "blocked").unwrap();
    assert_eq!(blocked.error.as_deref(), Some("dependency failed"));
}

#[test]
fn test_finish_running_policy_skips_new_tasks() {
    let mut p = Pipeline::new("finish").failure_policy(FailurePolicy::FinishRunning);
    p.add(Task::new("fail").exec_fn());
    p.add(Task::new("blocked").depends_on(&["fail"]).exec("echo blocked"));
    let b = Behaviour { fails: vec!["fail"], rollback_fails: Vec::new() };
    let (res, _) = simulate(&p, &b).unwrap();
    assert_eq!(status(&res, "fail"), TaskStatus::Failed);
    assert_eq!(status(&res, "blocked"), TaskStatus::Skipped);
}

#[test]
fn test_run_task_executes_only_dependency_closure() {
    let mut p = Pipeline::new("selected-task");
    p.add(Task::new("build").exec_fn());
    p.add(Task::new("deploy").depends_on(&["build"]).exec_fn());
    p.add(Task::new("unrelated").exec_fn());
    let selected = p.select("deploy").unwrap();
    let (res, _) = simulate(&selected, &ok()).unwrap();
    assert_eq!(res.tasks.len(), 2);
    assert_eq!(status(&res, "build"), TaskStatus::Completed);
    assert_eq!(status(&res, "deploy"), TaskStatus::Completed);
    assert!(res.tasks.iter().all(|t| t.name != "unrelated"));
}

#[test]
fn run_task_rejects_unknown_task() {
    let mut p = Pipeline::new("p");
    p.add(Task::new("build"));
    p.add(Task::new("test"));
    let err = p.select("missing").err().unwrap().message();
    assert_eq!(err, "Unknown task 'missing'.\n\nAvailable tasks:\n  build\n  test");
}

#[test]
fn test_reverse_rollback_marks_completed_task() {
    let mut p = Pipeline::new("rollback-reverse")
        .rollback_policy(RollbackPolicy::CompletedTasksReverseOrder);
    p.add(Task::new("done").exec_fn().rollback());
    p.add(Task::new("fail").depends_on(&["done"]).exec_fn());
    let b = Behaviour { fails: vec!["fail"], rollback_fails: Vec::new() };
    let (res, _) = simulate(&p, &b).unwrap();
    assert_eq!(status(&res, "done"), TaskStatus::RolledBack);
    assert_eq!(res.summary.rolled_back, 1);
}

#[test]
fn test_rollback_failure_is_recorded() {
    let mut p = Pipeline::new("rollback-failure")
        .rollback_policy(RollbackPolicy::CompletedTasksReverseOrder);
    p.add(Task::new("done").exec_fn().rollback());
    p.add(Task::new("fail").depends_on(&["done"]).exec_fn());
    let b = Behaviour { fails: vec!["fail"], rollback_fails: vec!["done"] };
    let (res, _) = simulate(&p, &b).unwrap();
    let done = res.tasks.iter().find(|task| task.name == "done").unwrap();
    assert_eq!(done.rollback_status, Some(RollbackStatus::Failed));
    assert_eq!(done.rollback_error.as_deref(), Some("rollback failed"));
    assert_eq!(res.summary.rollback_failed, 1);
    assert!(!res.summary.success);
}

#[test]
fn test_fail_fast_cancels_active_task() {
    let mut p = Pipeline::new("fail-fast").failure_policy(FailurePolicy::FailFast);
    p.add(Task::new("fail").exec_fn());
    p.add(Task::new("slow").exec_fn());
    let b = Behaviour { fails: vec!["fail"], rollback_fails: Vec::new() };
    let (res, _) = simulate(&p, &b).unwrap();
    assert_eq!(status(&res, "fail"), TaskStatus::Failed);
    assert_eq!(status(&res, "slow"), TaskStatus::Cancelled);
}

#[test]
fn test_events_match_result_transitions() {
    let mut p = Pipeline::new("events");
    p.add(Task::new("task").exec_fn());
    let (res, events) = simulate(&p, &ok()).unwrap();
    assert_eq!(status(&res, "task"), TaskStatus::Completed);
    assert!(events.iter().any(|e| matches!(e, PipelineEvent::TaskQueued { name } if name == "task")));
    assert!(events
        .iter()
        .any(|e| matches!(e, PipelineEvent::PipelineFinished { result } if result.success)));
    assert!(matches!(&events[0], PipelineEvent::PipelineStarted { name, task_count: 1 } if name == "events"));
}

#[test]
fn ready_tasks_start_in_name_order() {
    let mut p = Pipeline::new("order");
    p.add(Task::new("c"));
    p.add(Task::new("a"));
    p.add(Task::new("b").depends_on(&["a"]));
    let (_, actions) = RunState::start(&p).unwrap();
    let started: Vec<String> = actions
        .into_iter()
        .filter_map(|a| match a {
            RunAction::Start(n) => Some(n),
            _ => None,
        })
        .collect();
    assert_eq!(started, vec!["a", "c"]);
}

#[test]
fn summary_counts_and_success() {
    let mut done = TaskResult::pending("a");
    done.status = TaskStatus::Completed;
    let mut cached = TaskResult::pending("b");
    cached.status = TaskStatus::Cached;
    let ok_summary = summarize("p", &vec![done.clone(), cached]);
    assert!(ok_summary.success);
    assert_eq!((ok_summary.completed, ok_summary.cached), (1, 1));
    let mut failed = TaskResult::pending("c");
    failed.status = TaskStatus::Failed;
    let bad = summarize("p", &vec![done, failed]);
    assert!(!bad.success);
    assert_eq!(bad.failed, 1);
}

#[test]
fn test_to_dot_exports_validated_graph() {
    let mut p = Pipeline::new("graph");
    p.add(Task::new("build").exec("cargo build"));
    p.add(Task::new("test").depends_on(&["build"]).exec("cargo test"));
    let dot = p.to_dot().unwrap();
    assert!(dot.contains("digraph \"graph\""));
    assert!(dot.contains("\"build\" -> \"test\""));
}

#[test]
fn test_to_dot_rejects_invalid_graph() {
    let mut p = Pipeline::new("bad-graph");
    p.add(Task::new("test").depends_on(&["missing"]).exec("cargo test"));
    let err = p.to_dot().unwrap_err();
    assert!(err.message().contains("does not exist in the pipeline"));
}

#[test]
fn dot_escapes_quotes_and_backslashes() {
    let p = Pipeline::new("a\"b\\c");
    assert_eq!(p.to_dot().unwrap(), "digraph \"a\\\"b\\\\c\" {\n  rankdir=LR;\n}\n");
}

#[test]
fn test_explain_task_reports_public_shape() {
    let mut p = Pipeline::new("explain").shell(Shell::Bash);
    p.add(
        Task::new("build")
            .exec("cargo build")
            .inputs(&["src/**/*.rs"])
            .env_vars(&["PROFILE"])
            .cache_key("build-v1")
            .rollback(),
    );
    p.add(Task::new("test").depends_on(&["build"]).exec("cargo test"));
    let explanation = p.explain_task("build").unwrap();
    assert_eq!(explanation.name, "build");
    assert_eq!(explanation.dependents, vec!["test"]);
    assert_eq!(explanation.action, "shell");
    assert_eq!(explanation.cache_mode, "explicit:build-v1");
    assert_eq!(explanation.shell, Some("Bash".to_string()));
    assert!(explanation.has_rollback);
    assert_eq!(
        p.explain("missing").unwrap_err().message(),
        "Task 'missing' does not exist in the pipeline"
    );
}

fn support_pipeline() -> Pipeline {
    let mut pipeline = Pipeline::new("support-test");
    pipeline.add(Task::new("lint").description("Run lint").exec("true"));
    pipeline.add(Task::new("test").description("Run tests").depends_on(&["lint"]).exec("true"));
    pipeline
}

#[test]
fn test_metadata_shape() {
    let metadata = metadata(&support_pipeline(), "0.1.0");
    assert_eq!(metadata.protocol_version, 1);
    assert_eq!(metadata.workflow_name, "support-test");
    assert!(metadata.supports.list);
}

#[test]
fn test_list_shape() {
    let list = list(&support_pipeline());
    assert_eq!(list.tasks.len(), 2);
    assert_eq!(list.tasks[0].name, "lint");
    assert_eq!(list.tasks[0].description.as_deref(), Some("Run lint"));
    assert_eq!(list.tasks[1].dependencies, vec!["lint"]);
}

#[test]
fn test_graph_to_text() {
    let graph = support_pipeline().graph().unwrap();
    assert_eq!(graph_to_text(&graph), "lint -> test");
}

#[test]
fn protocol_arguments() {
    let args = |v: &[&str]| v.iter().map(|s| s.to_string()).collect::<Vec<_>>();
    assert!(matches!(parse_protocol(&args(&[])), Ok(ProtocolCommand::RunPipeline)));
    assert!(matches!(parse_protocol(&args(&["build"])), Ok(ProtocolCommand::RunPipeline)));
    assert!(matches!(parse_protocol(&args(&["__runkernel", "list"])), Ok(ProtocolCommand::List)));
    assert!(matches!(
        parse_protocol(&args(&["__runkernel", "graph", "--format", "json"])),
        Ok(ProtocolCommand::Graph)
    ));
    assert_eq!(
        parse_protocol(&args(&["__runkernel", "metadata", "--format", "yaml"])).err().unwrap(),
        "Only '--format json' is supported for __runkernel protocol commands"
    );
    assert!(matches!(
        parse_protocol(&args(&["__runkernel", "explain", "build"])),
        Ok(ProtocolCommand::Explain(t)) if t == "build"
    ));
    assert_eq!(
        parse_protocol(&args(&["__runkernel", "explain"])).err().unwrap(),
        "Missing task for __runkernel explain"
    );
    assert!(matches!(
        parse_protocol(&args(&["__runkernel", "run", "--", "x"])),
        Ok(ProtocolCommand::Run(None, a)) if a == vec!["x".to_string()]
    ));
    assert!(matches!(
        parse_protocol(&args(&["__runkernel", "run", "deploy"])),
        Ok(ProtocolCommand::Run(Some(t), a)) if t == "deploy" && a.is_empty()
    ));
    assert!(matches!(
        parse_protocol(&args(&["__runkernel", "run", "build", "--", "--target", "test"])),
        Ok(ProtocolCommand::Run(Some(t), a)) if t == "build" && a == vec!["--target".to_string(), "test".to_string()]
    ));
    assert!(matches!(
        parse_protocol(&args(&["__runkernel", "run", "build", "stray"])),
        Ok(ProtocolCommand::Run(Some(t), a)) if t == "build" && a.is_empty()
    ));
    assert_eq!(
        parse_protocol(&args(&["__runkernel", "frob"])).err().unwrap(),
        "Unknown __runkernel command 'frob'"
    );
    assert_eq!(parse_protocol(&args(&["__runkernel"])).err().unwrap(), "Missing __runkernel command");
    assert_eq!(require_json_format(&[]), Ok(()));
}

#[test]
fn finish_result_reports_summary() {
    let mut failed = TaskResult::pending("t");
    failed.status = TaskStatus::Failed;
    let tasks = vec![failed];
    let summary = summarize("p", &tasks);
    let result = PipelineResult { name: "p".to_string(), duration: 0, tasks, summary };
    assert_eq!(
        finish_result(&result).unwrap_err(),
        "pipeline failed: PipelineSummary { name: \"p\", success: false, completed: 0, failed: 1, skipped: 0, cached: 0, cancelled: 0, rolled_back: 0, rollback_failed: 0 }"
    );
}

#[test]
fn test_output_passing() {
    let mut store: OutputStore<String> = OutputStore::new();
    store.set_output("build", "artifact", "dist/app.wasm".to_string());
    store.mark_completed("build");
    assert_eq!(store.output_from("build", "artifact").unwrap(), "dist/app.wasm");
    assert_eq!(
        store.output_from("build", "other").unwrap_err(),
        "Task 'build' has no output named 'other'"
    );
}

#[test]
fn test_premature_output_read_fails() {
    let mut store: OutputStore<String> = OutputStore::new();
    assert_eq!(
        store.output_from("build", "artifact").unwrap_err(),
        "Output from task 'build' is not available because the task has not completed"
    );
    store.set_output("build", "artifact", "x".to_string());
    assert!(store.output_from("build", "artifact").is_err());
    store.mark_completed("other");
    assert_eq!(store.output_from("other", "k").unwrap_err(), "Task 'other' has no outputs");
}

#[test]
fn restored_outputs_replace_and_list() {
    let mut store: OutputStore<u32> = OutputStore::new();
    store.set_output("build", "old", 1);
    store.replace_outputs("build", vec![("a".to_string(), 2), ("a".to_string(), 3), ("b".to_string(), 4)]);
    store.set_output("build", "b", 5);
    store.mark_completed("build");
    assert!(store.output_from("build", "old").is_err());
    assert_eq!(*store.output_from("build", "a").unwrap(), 3);
    assert_eq!(*store.output_from("build", "b").unwrap(), 5);
    let listed: Vec<(String, u32)> =
        store.outputs_of("build").into_iter().map(|(k, v)| (k, *v)).collect();
    let mut last = std::collections::HashMap::new();
    for (k, v) in listed {
        last.insert(k, v);
    }
    assert_eq!(last.len(), 2);
    assert_eq!(last["a"], 3);
    assert_eq!(last["b"], 5);
}

#[test]
fn test_cache_hit_restores_outputs() {
    let step: ExecStep<Vec<(String, String)>> = after_lookup(
        "build",
        "h".to_string(),
        "r".to_string(),
        CacheLookup::Hit {
            reason: "cache entry hash matches current task identity".to_string(),
            outputs: vec![("artifact".to_string(), "dist/app.wasm".to_string())],
        },
    );
    match step {
        ExecStep::Restore { outputs, result, event } => {
            assert_eq!(result.status, TaskStatus::Cached);
            assert_eq!(result.duration, Some(0));
            assert!(result.cache_hit);
            assert!(matches!(event, PipelineEvent::TaskCached { name, .. } if name == "build"));
            let mut store: OutputStore<String> = OutputStore::new();
            store.replace_outputs("build", outputs);
            store.mark_completed("build");
            assert_eq!(store.output_from("build", "artifact").unwrap(), "dist/app.wasm");
        }
        _ => panic!("expected the outputs to be restored"),
    }
}

#[test]
fn execution_steps() {
    let failed: ExecStep<()> = begin_execution("t", Err("bad glob".to_string()));
    match failed {
        ExecStep::Finished { result, event } => {
            assert_eq!(result.status, TaskStatus::Failed);
            assert_eq!(result.error.as_deref(), Some("Failed to compute cache hash: bad glob"));
            assert!(event.is_none());
        }
        _ => panic!("expected a failure"),
    }
    let disabled: ExecStep<()> = begin_execution("t", Ok(CacheEligibility::Disabled("off".to_string())));
    let (result, save) = match disabled {
        ExecStep::Run { result, save, event } => {
            assert!(matches!(event, PipelineEvent::TaskStarted { name } if name == "t"));
            (result, save)
        }
        _ => panic!("expected a run"),
    };
    assert_eq!(result.cache_reason.as_deref(), Some("off"));
    match after_action::<()>(result.clone(), 5, Ok(()), save) {
        ExecStep::Finished { result, event } => {
            assert_eq!(result.status, TaskStatus::Completed);
            assert_eq!(result.duration, Some(5));
            assert!(matches!(event, Some(PipelineEvent::TaskCompleted { duration: 5, .. })));
        }
        _ => panic!("expected completion"),
    }
    match after_action::<()>(result, 5, Err("boom".to_string()), None) {
        ExecStep::Finished { result, .. } => {
            assert_eq!(result.status, TaskStatus::Failed);
            assert_eq!(result.error.as_deref(), Some("boom"));
        }
        _ => panic!("expected failure"),
    }
    let lookup: ExecStep<()> = begin_execution(
        "t",
        Ok(CacheEligibility::Enabled { hash: "h".to_string(), reason: "why".to_string() }),
    );
    assert!(matches!(lookup, ExecStep::Lookup { ref hash, .. } if hash == "h"));
    let miss: ExecStep<()> = after_lookup(
        "t",
        "h".to_string(),
        "why".to_string(),
        CacheLookup::Miss { reason: "no cache entry found".to_string() },
    );
    let (result, save) = match miss {
        ExecStep::Run { result, save, .. } => (result, save),
        _ => panic!("expected a run"),
    };
    let (hash, reason, result) = match after_action::<()>(result, 7, Ok(()), save) {
        ExecStep::Save { hash, reason, result } => (hash, reason, result),
        _ => panic!("expected a save"),
    };
    assert_eq!(hash, "h");
    match after_save::<()>(result, reason, Err("disk full".to_string())) {
        ExecStep::Finished { result, event } => {
            assert_eq!(result.status, TaskStatus::Completed);
            assert_eq!(result.cache_reason.as_deref(), Some("why; failed to save cache: disk full"));
            assert!(matches!(event, Some(PipelineEvent::TaskCompleted { duration: 7, .. })));
        }
        _ => panic!("expected completion"),
    }
}

#[test]
fn rote_task_steps_and_events() {
    let task = rote::Task::new("t").exec("make");
    assert!(!task.is_cacheable());
    assert!(matches!(rote::begin_task(&task), rote::TaskStep::Run { save: None, .. }));
    let cacheable = rote::Task::new("t").env_vars(&["A"]);
    assert!(matches!(rote::begin_task(&cacheable), rote::TaskStep::ComputeHash));
    match rote::after_hash(Err("bad".to_string())) {
        rote::TaskStep::Finished { outcome, .. } => {
            assert_eq!(outcome, Err("Failed to compute cache hash: bad".to_string()))
        }
        _ => panic!("expected failure"),
    }
    assert!(matches!(
        rote::after_lookup("t", "h".to_string(), true),
        rote::TaskStep::Finished { outcome: Ok(true), .. }
    ));
    let (warning, _) = rote::after_save("t", 3, Err("disk".to_string()));
    assert_eq!(warning.as_deref(), Some("Warning: failed to save cache for task 't': disk"));
    let result = rote::task_result("t", Err("x".to_string()));
    assert_eq!(result.status, TaskStatus::Failed);
    let started = PipelineEvent::TaskRollbackStarted { name: "t".to_string() };
    assert!(matches!(rote::rote_event(&started), Some(rote::PipelineEvent::TaskRollback { .. })));
    assert!(rote::rote_event(&PipelineEvent::TaskQueued { name: "t".to_string() }).is_none());
}

#[test]
fn rote_pipeline_runs_with_default_policies() {
    let mut p = rote::Pipeline::new("rote-run");
    p.add(rote::Task::new("fail-task").exec_fn().on_failure());
    p.add(rote::Task::new("after").depends_on(&["fail-task"]));
    let (mut state, actions) = p.start().unwrap();
    assert!(actions.iter().any(|a| matches!(a, RunAction::Start(n) if n == "fail-task")));
    let followups = state.on_task_finished("fail-task", rote::task_result("fail-task", Err("forced failure".to_string())));
    assert!(followups.iter().any(|a| matches!(a, RunAction::Rollback { name, .. } if name == "fail-task")));
    assert!(!followups.iter().any(|a| matches!(a, RunAction::Start(_))));
    let (result, _) = state.finish(5);
    let (event, outcome) = rote::finished(&result);
    assert!(matches!(event, rote::PipelineEvent::PipelineFinished { failed: 1, completed: 0, .. }));
    assert_eq!(outcome, Err("Pipeline execution failed due to errors in tasks.".to_string()));
    assert_eq!(p.task("fail-task").unwrap().failure_handler, true);
}
