use runkernel::cache::CacheManager;
use runkernel::cli::{
    available_workflows, build_cargo_command, exit_code, format_workflows, init_config,
    is_blank, manifest_not_found, referenced_paths, resolve_workflow, run_cache_command, run_cli, run_protocol_args,
    select_workflow, selected_workflow, status_outcome, validate_manifest, with_manifest,
    CacheCommand, Cli, CliOutcome, CliStep, Command, JsonRequest, ResolvedWorkflow,
    RunkernelManifest, WorkflowConfig,
};
use runkernel::graph::{GraphEdge, GraphNode, PipelineGraph, TaskExplanation};
use runkernel::protocol::{
    check_protocol, ExplainResponse, ListResponse, MetadataResponse, ProtocolSupport, TaskListItem,
};
use runkernel::render::{
    format_explain, format_graph, format_graph_text, format_list, graph_to_dot, graph_to_mermaid,
    join_or_none, GraphFormat,
};

fn config(package: Option<&str>) -> WorkflowConfig {
    WorkflowConfig {
        package: package.map(|p| p.to_string()),
        bin: None,
        manifest_path: None,
        working_dir: None,
        default_task: None,
        description: None,
    }
}

fn cli(command: Command) -> Cli {
    Cli {
        config: None,
        workflow: None,
        verbose: false,
        release: false,
        features: None,
        all_features: false,
        no_default_features: false,
        command,
    }
}

fn fixture_manifest() -> RunkernelManifest {
    RunkernelManifest {
        workflow: vec![(
            "default".to_string(),
            WorkflowConfig {
                package: Some("ops".to_string()),
                bin: Some("ops".to_string()),
                manifest_path: Some("Cargo.toml".to_string()),
                working_dir: Some(".".to_string()),
                default_task: Some("deploy".to_string()),
                description: Some("Ops workflow".to_string()),
            },
        )],
    }
}

#[test]
fn test_select_default_workflow() {
    // [workflow.ops] package = "ops"; [workflow.default] package = "default" (keys in name order)
    let manifest = RunkernelManifest {
        workflow: vec![
            ("default".to_string(), config(Some("default"))),
            ("ops".to_string(), config(Some("ops"))),
        ],
    };
    let (name, workflow) = select_workflow(&manifest, None).unwrap();
    assert_eq!(name, "default");
    assert_eq!(workflow.package.as_deref(), Some("default"));
}

#[test]
fn test_unknown_workflow_lists_available() {
    let manifest = RunkernelManifest { workflow: vec![("ops".to_string(), config(Some("ops")))] };
    let err = select_workflow(&manifest, Some("release")).unwrap_err();
    assert!(err.contains("Unknown workflow 'release'"));
    assert!(err.contains("ops"));
}

#[test]
fn selection_of_single_and_ambiguous_workflows() {
    let single = RunkernelManifest { workflow: vec![("ops".to_string(), config(Some("ops")))] };
    assert_eq!(select_workflow(&single, None).unwrap().0, "ops");
    let many = RunkernelManifest {
        workflow: vec![
            ("a".to_string(), config(None)),
            ("b".to_string(), config(None)),
        ],
    };
    assert_eq!(available_workflows(&many), "a\n  b");
    assert_eq!(
        select_workflow(&many, None).unwrap_err(),
        "No workflow selected.\n\nThis project defines multiple workflows:\n  a\n  b\n\nUse:\n  runkernel run --workflow <name> <task>"
    );
    assert_eq!(select_workflow(&many, Some("b")).unwrap().0, "b");
}

#[test]
fn manifest_validation_errors() {
    let empty = RunkernelManifest { workflow: Vec::new() };
    assert_eq!(
        validate_manifest(&empty, ".", &Vec::new()),
        Err("runkernel.toml must define at least one [workflow.<name>] entry".to_string())
    );
    let blank_name = RunkernelManifest { workflow: vec![(" \t".to_string(), config(None))] };
    assert_eq!(
        validate_manifest(&blank_name, ".", &Vec::new()),
        Err("Workflow names must be non-empty".to_string())
    );
    let blank_package = RunkernelManifest { workflow: vec![("ops".to_string(), config(Some("  ")))] };
    assert_eq!(
        validate_manifest(&blank_package, ".", &Vec::new()),
        Err("Workflow 'ops' has an empty package field".to_string())
    );
    let manifest = fixture_manifest();
    let paths = referenced_paths(&manifest, "/proj");
    assert_eq!(paths, vec!["/proj/Cargo.toml".to_string(), "/proj/.".to_string()]);
    assert_eq!(
        validate_manifest(&manifest, "/proj", &Vec::new()),
        Err("Workflow 'default' references manifest_path 'Cargo.toml', but that file does not exist."
            .to_string())
    );
    assert_eq!(
        validate_manifest(&manifest, "/proj", &vec!["/proj/Cargo.toml".to_string()]),
        Err("Workflow 'default' references working_dir '.', but that directory does not exist."
            .to_string())
    );
    assert_eq!(validate_manifest(&manifest, "/proj", &paths), Ok(()));
}

#[test]
fn blank_text_is_whitespace_only() {
    assert!(is_blank(""));
    assert!(is_blank(" \t\n\u{3000}"));
    assert!(!is_blank(" a "));
}

#[test]
fn resolve_defaults_to_config_dir() {
    let resolved = resolve_workflow("/proj", "ops", &config(Some("ops"))).unwrap();
    assert_eq!(resolved.manifest_path, "/proj/Cargo.toml");
    assert_eq!(resolved.working_dir, "/proj");
    assert_eq!(resolved.package.as_deref(), Some("ops"));
    let mut absolute = config(None);
    absolute.manifest_path = Some("/elsewhere/Cargo.toml".to_string());
    absolute.working_dir = Some("sub".to_string());
    let resolved = resolve_workflow("/proj", "ops", &absolute).unwrap();
    assert_eq!(resolved.manifest_path, "/elsewhere/Cargo.toml");
    assert_eq!(resolved.working_dir, "/proj/sub");
}

#[test]
fn test_build_cargo_command_ordering() {
    let workflow = ResolvedWorkflow {
        name: "ops".to_string(),
        package: Some("ops".to_string()),
        bin: Some("ops".to_string()),
        manifest_path: "/tmp/project/examples/ops/Cargo.toml".to_string(),
        working_dir: "/tmp/project".to_string(),
        default_task: Some("deploy".to_string()),
        description: None,
    };
    let cli = Cli {
        config: None,
        workflow: Some("ops".to_string()),
        verbose: false,
        release: true,
        features: Some("cloud,edge".to_string()),
        all_features: false,
        no_default_features: true,
        command: Command::Run { task: Some("deploy".to_string()), args: Vec::new() },
    };
    let command = build_cargo_command(
        &workflow,
        &[
            "__runkernel".to_string(),
            "run".to_string(),
            "deploy".to_string(),
            "--".to_string(),
            "--target".to_string(),
            "prod".to_string(),
        ],
        &cli,
    );
    assert_eq!(command.program, "cargo");
    assert_eq!(command.current_dir, "/tmp/project");
    assert_eq!(
        command.args,
        vec![
            "run",
            "--quiet",
            "--release",
            "--features",
            "cloud,edge",
            "--no-default-features",
            "--manifest-path",
            "/tmp/project/examples/ops/Cargo.toml",
            "--package",
            "ops",
            "--bin",
            "ops",
            "--",
            "__runkernel",
            "run",
            "deploy",
            "--",
            "--target",
            "prod"
        ]
    );
}

#[test]
fn run_protocol_args_use_default_task_and_forward_args() {
    let workflow = resolve_workflow(".", "ops", &fixture_manifest().workflow[0].1).unwrap();
    assert_eq!(
        run_protocol_args(&None, &vec!["--target".to_string(), "prod".to_string()], &workflow),
        vec!["__runkernel", "run", "deploy", "--", "--target", "prod"]
    );
    assert_eq!(
        run_protocol_args(&Some("build".to_string()), &Vec::new(), &workflow),
        vec!["__runkernel", "run", "build"]
    );
}

#[test]
fn test_format_list() {
    let output = format_list(
        "ops",
        &ListResponse {
            tasks: vec![TaskListItem {
                name: "deploy".to_string(),
                description: Some("Deploy".to_string()),
                dependencies: vec!["build".to_string()],
                cacheable: false,
            }],
        },
    );
    assert!(output.contains("Workflow: ops"));
    assert!(output.contains("deploy  Deploy"));
}

#[test]
fn test_format_graph_variants() {
    let graph = PipelineGraph {
        nodes: vec![
            GraphNode { id: "lint".to_string(), label: "lint".to_string() },
            GraphNode { id: "test".to_string(), label: "test".to_string() },
        ],
        edges: vec![GraphEdge { from: "lint".to_string(), to: "test".to_string() }],
    };
    assert_eq!(format_graph("ops", &graph, GraphFormat::Text).unwrap(), "lint -> test");
    assert!(format_graph("ops", &graph, GraphFormat::Dot).unwrap().contains("\"lint\" -> \"test\""));
    assert!(format_graph("ops", &graph, GraphFormat::Mermaid).unwrap().contains("lint --> test"));
    assert!(format_graph("ops", &graph, GraphFormat::Json).is_none());
    assert_eq!(
        graph_to_dot("ops", &graph).unwrap(),
        "digraph \"ops\" {\n  rankdir=LR;\n  \"lint\";\n  \"test\";\n  \"lint\" -> \"test\";\n}\n"
    );
    assert_eq!(
        graph_to_mermaid(&graph),
        "graph TD\n  lint[\"lint\"]\n  test[\"test\"]\n  lint --> test"
    );
}

fn fixture_graph() -> PipelineGraph {
    let node = |id: &str| GraphNode { id: id.to_string(), label: id.to_string() };
    PipelineGraph {
        nodes: vec![node("build"), node("fail"), node("prepare"), node("solo")],
        edges: vec![GraphEdge { from: "prepare".to_string(), to: "build".to_string() }],
    }
}

#[test]
fn graph_text_lists_tasks_when_some_have_no_edges() {
    let text = format_graph("default", &fixture_graph(), GraphFormat::Text).unwrap();
    assert!(text.contains("Tasks:\n  build\n  fail\n  prepare\n  solo"));
    assert!(text.contains("prepare -> build"));
    assert_eq!(text, "Tasks:\n  build\n  fail\n  prepare\n  solo\n\nprepare -> build");
    let lonely = PipelineGraph { nodes: vec![GraphNode { id: "a".to_string(), label: "a".to_string() }], edges: vec![] };
    assert_eq!(format_graph_text(&lonely), "Tasks:\n  a");
}

#[test]
fn mermaid_declares_every_task() {
    let text = format_graph("default", &fixture_graph(), GraphFormat::Mermaid).unwrap();
    assert!(text.contains("solo[\"solo\"]"));
    assert!(text.contains("prepare --> build"));
    assert!(text.starts_with("graph TD\n  build[\"build\"]"));
}

fn metadata_with_version(version: u32) -> MetadataResponse {
    MetadataResponse {
        protocol_version: version,
        workflow_name: "default".to_string(),
        description: None,
        runkernel_version: "0.1.0".to_string(),
        supports: ProtocolSupport { list: true, graph: true, explain: true, run_task: true, run_all: true },
    }
}

#[test]
fn protocol_check_messages() {
    assert_eq!(check_protocol("default", Ok(metadata_with_version(1))), Ok(()));
    let wrong = check_protocol("default", Ok(metadata_with_version(99))).unwrap_err();
    assert!(wrong.contains("Expected 1, got 99"));
    let silent = check_protocol("default", Err("expected value at line 1 column 1".to_string())).unwrap_err();
    assert!(silent.contains("does not appear to support"));
    assert_eq!(
        silent,
        "Workflow 'default' does not appear to support the runkernel protocol: expected value at line 1 column 1"
    );
}

#[test]
fn missing_manifest_message() {
    assert_eq!(
        manifest_not_found("/tmp/x"),
        "No runkernel.toml found.\n\nSearched from:\n  /tmp/x\n\nCreate one with:\n  runkernel init"
    );
}

#[test]
fn test_format_explain() {
    let output = format_explain(&ExplainResponse {
        task: TaskExplanation {
            name: "deploy".to_string(),
            description: Some("Deploy app".to_string()),
            dependencies: vec!["build".to_string()],
            dependents: Vec::new(),
            cacheable: false,
            action: "shell".to_string(),
            cache_mode: "disabled".to_string(),
            inputs: Vec::new(),
            env_vars: vec!["TARGET".to_string()],
            shell: Some("Sh".to_string()),
            has_rollback: true,
        },
    });
    assert!(output.contains("Task: deploy"));
    assert!(output.contains("Deploy app"));
    assert!(output.contains("TARGET"));
    assert_eq!(
        output,
        "Task: deploy\n\nDescription:\n  Deploy app\n\nDependencies:\n  build\n\nDependents:\n  none\n\nCache:\n  disabled\n\nRollback:\n  enabled\n\nInputs:\n  none\n\nEnvironment:\n  TARGET"
    );
}

#[test]
fn join_or_none_joins_with_indent() {
    assert_eq!(join_or_none(&[]), "none");
    assert_eq!(join_or_none(&["a".to_string(), "b".to_string()]), "a\n  b");
}

#[test]
fn workflows_listing() {
    assert_eq!(format_workflows(&fixture_manifest()), "Workflows:\n  default  Ops workflow");
}

#[test]
fn init_refuses_existing_manifest() {
    assert!(init_config(true).unwrap_err().contains("already exists"));
    assert!(init_config(false).unwrap().starts_with("[workflow.default]\npackage = \"ops\""));
}

#[test]
fn cache_command_reports() {
    let manager = CacheManager::new();
    assert_eq!(
        run_cache_command(CacheCommand::Clean, &manager, true),
        CliOutcome { output: "Removed cache path: .runkernel/cache".to_string(), exit_code: 0 }
    );
    assert_eq!(
        run_cache_command(CacheCommand::Clean, &manager, false).output,
        "No cache found at cache path: .runkernel/cache"
    );
    assert_eq!(
        run_cache_command(CacheCommand::Status, &manager, false).output,
        "Cache root: .runkernel/cache\nExists: false"
    );
}

#[test]
fn exit_codes() {
    assert_eq!(exit_code(Some(3)), 3);
    assert_eq!(exit_code(None), 1);
    assert_eq!(status_outcome(Some(0)), CliOutcome { output: String::new(), exit_code: 0 });
}

#[test]
fn dispatch_steps() {
    assert!(matches!(run_cli(&cli(Command::Init)), CliStep::Init));
    assert!(matches!(
        run_cli(&cli(Command::Cache { command: CacheCommand::Status })),
        CliStep::Cache(CacheCommand::Status)
    ));
    assert!(matches!(run_cli(&cli(Command::List)), CliStep::LoadManifest));

    let manifest = fixture_manifest();
    let existing = referenced_paths(&manifest, "/proj");
    match with_manifest(&cli(Command::Workflows), &manifest, "/proj", &existing).unwrap() {
        CliStep::Done(outcome) => assert_eq!(outcome.output, "Workflows:\n  default  Ops workflow"),
        _ => panic!("expected an answer"),
    }
    match with_manifest(&cli(Command::List), &manifest, "/proj", &existing).unwrap() {
        CliStep::RunJson { workflow, metadata, command, request } => {
            assert_eq!(workflow.name, "default");
            assert_eq!(
                metadata.args[metadata.args.len() - 4..].to_vec(),
                vec!["__runkernel", "metadata", "--format", "json"]
            );
            assert!(matches!(request, JsonRequest::List));
            assert_eq!(
                command.args[command.args.len() - 4..].to_vec(),
                vec!["__runkernel", "list", "--format", "json"]
            );
        }
        _ => panic!("expected a JSON request"),
    }
    match with_manifest(&cli(Command::Explain { task: "build".to_string() }), &manifest, "/proj", &existing)
        .unwrap()
    {
        CliStep::RunJson { command, request, .. } => {
            assert!(matches!(request, JsonRequest::Explain));
            assert_eq!(
                command.args[command.args.len() - 5..].to_vec(),
                vec!["__runkernel", "explain", "build", "--format", "json"]
            );
        }
        _ => panic!("expected a JSON request"),
    }
    match with_manifest(
        &cli(Command::Run { task: None, args: vec!["x".to_string()] }),
        &manifest,
        "/proj",
        &existing,
    )
    .unwrap()
    {
        CliStep::RunStatus { command, .. } => {
            assert_eq!(
                command.args[command.args.len() - 5..].to_vec(),
                vec!["__runkernel", "run", "deploy", "--", "x"]
            );
        }
        _ => panic!("expected a run"),
    }
    let mut unknown = cli(Command::List);
    unknown.workflow = Some("missing".to_string());
    assert!(with_manifest(&unknown, &manifest, "/proj", &existing)
        .unwrap_err()
        .contains("Unknown workflow 'missing'"));
    assert!(selected_workflow(&unknown, &manifest, "/proj", &Vec::new())
        .unwrap_err()
        .contains("does not exist"));
}
