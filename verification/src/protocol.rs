//! The `__runkernel` protocol that a workflow binary answers: its commands, the responses it
//! gives, and how a run's result decides the binary's exit.
use vstd::prelude::*;
use vstd::slice::slice_subrange;
use crate::fmt::{debug_str, decimal, decimal_text, str_debug_text};
use crate::graph::{clone_opt, clone_strings, join_text, opt_view, PipelineGraph, GraphEdge, TaskExplanation};
use crate::pipeline::{Pipeline, tasks_in_order};
use crate::run::{PipelineResult, PipelineSummary};
use crate::task::Task;
use crate::text::{push_text, str_eq, str_to_string, strs};

verus! {

/// The protocol version this library speaks.
pub const PROTOCOL_VERSION: u32 = 1;

/// Which protocol commands a workflow binary answers.
#[derive(Clone, Debug, PartialEq, Eq)]
pub struct ProtocolSupport {
    pub list: bool,
    pub graph: bool,
    pub explain: bool,
    pub run_task: bool,
    pub run_all: bool,
}

/// The answer to `__runkernel metadata`.
#[derive(Clone, Debug, PartialEq, Eq)]
pub struct MetadataResponse {
    pub protocol_version: u32,
    pub workflow_name: String,
    pub description: Option<String>,
    pub runkernel_version: String,
    pub supports: ProtocolSupport,
}

/// One task in the answer to `__runkernel list`.
#[derive(Clone, Debug, PartialEq, Eq)]
pub struct TaskListItem {
    pub name: String,
    pub description: Option<String>,
    pub dependencies: Vec<String>,
    pub cacheable: bool,
}

/// The answer to `__runkernel list`.
#[derive(Clone, Debug, PartialEq, Eq)]
pub struct ListResponse {
    pub tasks: Vec<TaskListItem>,
}

/// The answer to `__runkernel explain <task>`.
#[derive(Clone, Debug, PartialEq, Eq)]
pub struct ExplainResponse {
    pub task: TaskExplanation,
}

/// The metadata of a pipeline's workflow binary; `runkernel_version` is the library's version.
pub fn metadata(pipeline: &Pipeline, runkernel_version: &str) -> (res: MetadataResponse)
    ensures
        res.protocol_version == PROTOCOL_VERSION,
        res.workflow_name@ == pipeline.spec_name(),
        res.description is None,
        res.runkernel_version@ == runkernel_version@,
        res.supports == (ProtocolSupport { list: true, graph: true, explain: true, run_task: true, run_all: true }),
{
    MetadataResponse {
        protocol_version: PROTOCOL_VERSION,
        workflow_name: str_to_string(pipeline.name()),
        description: None,
        runkernel_version: str_to_string(runkernel_version),
        supports: ProtocolSupport { list: true, graph: true, explain: true, run_task: true, run_all: true },
    }
}

/// The list item that describes a task.
pub open spec fn lists(item: TaskListItem, t: Task) -> bool {
    &&& item.name@ == t.name@
    &&& opt_view(item.description) == opt_view(t.description)
    &&& strs(item.dependencies@) == strs(t.dependencies@)
    &&& item.cacheable == t.spec_is_cacheable()
}

/// The pipeline's tasks, in name order.
pub fn list(pipeline: &Pipeline) -> (res: ListResponse)
    ensures
        res.tasks@.len() == pipeline.spec_tasks().len(),
        forall|i: int| 0 <= i < res.tasks@.len() ==> lists(#[trigger] res.tasks@[i], pipeline.spec_tasks()[i]),
{
    let tasks = pipeline.tasks();
    let mut items: Vec<TaskListItem> = Vec::new();
    let mut i: usize = 0;
    while i < tasks.len()
        invariant
            i <= tasks@.len(),
            items@.len() == i,
            forall|k: int| 0 <= k < i ==> lists(#[trigger] items@[k], tasks@[k]),
        decreases tasks@.len() - i,
    {
        let t = &tasks[i];
        items.push(
            TaskListItem {
                name: t.name.clone(),
                description: clone_opt(&t.description),
                dependencies: clone_strings(&t.dependencies),
                cacheable: t.cacheable(),
            },
        );
        i = i + 1;
    }
    ListResponse { tasks: items }
}

/// Protocol arguments after the command are accepted only when absent or `--format json`.
pub open spec fn json_format_args(args: Seq<Seq<char>>) -> bool {
    args.len() == 0 || args =~= seq!["--format"@, "json"@]
}

/// Accepts no arguments, or exactly `--format json`.
pub fn require_json_format(args: &[String]) -> (res: Result<(), String>)
    ensures
        json_format_args(strs(args@)) ==> res is Ok,
        !json_format_args(strs(args@)) ==> (res matches Err(e)
            && e@ == "Only '--format json' is supported for __runkernel protocol commands"@),
{
    if args.len() == 0 {
        return Ok(());
    }
    if args.len() == 2 && str_eq(args[0].as_str(), "--format") && str_eq(args[1].as_str(), "json") {
        proof {
            assert(strs(args@) =~= seq!["--format"@, "json"@]);
        }
        return Ok(());
    }
    proof {
        if json_format_args(strs(args@)) {
            assert(strs(args@)[0] == "--format"@);
            assert(strs(args@)[1] == "json"@);
        }
    }
    Err(str_to_string("Only '--format json' is supported for __runkernel protocol commands"))
}

/// What a workflow binary was asked to do.
#[derive(Clone, Debug)]
pub enum ProtocolCommand {
    /// No protocol command: run the whole pipeline.
    RunPipeline,
    Metadata,
    List,
    Graph,
    Explain(String),
    /// Run the named task and its dependencies, or the whole pipeline; the arguments after
    /// `--` are handed to the tasks.
    Run(Option<String>, Vec<String>),
}

/// The command the arguments ask for, or the error that refuses them.
pub open spec fn protocol_outcome(args: Seq<Seq<char>>) -> Result<ProtocolView, Seq<char>> {
    if args.len() == 0 || args[0] != "__runkernel"@ {
        Ok(ProtocolView::RunPipeline)
    } else if args.len() < 2 {
        Err("Missing __runkernel command"@)
    } else {
        let c = args[1];
        if c == "metadata"@ || c == "list"@ || c == "graph"@ {
            if !json_format_args(args.skip(2)) {
                Err("Only '--format json' is supported for __runkernel protocol commands"@)
            } else if c == "metadata"@ {
                Ok(ProtocolView::Metadata)
            } else if c == "list"@ {
                Ok(ProtocolView::List)
            } else {
                Ok(ProtocolView::Graph)
            }
        } else if c == "explain"@ {
            if args.len() < 3 {
                Err("Missing task for __runkernel explain"@)
            } else if !json_format_args(args.skip(3)) {
                Err("Only '--format json' is supported for __runkernel protocol commands"@)
            } else {
                Ok(ProtocolView::Explain(args[2]))
            }
        } else if c == "run"@ {
            if args.len() < 3 || args[2] == "--"@ {
                Ok(ProtocolView::Run(None, forwarded_args(args.skip(2))))
            } else {
                Ok(ProtocolView::Run(Some(args[2]), forwarded_args(args.skip(3))))
            }
        } else {
            Err("Unknown __runkernel command '"@ + c + "'"@)
        }
    }
}

/// The arguments handed to tasks: what follows a leading `--`, else none.
pub open spec fn forwarded_args(rest: Seq<Seq<char>>) -> Seq<Seq<char>> {
    if rest.len() > 0 && rest[0] == "--"@ {
        rest.skip(1)
    } else {
        Seq::empty()
    }
}

/// A protocol command with its texts as views.
pub enum ProtocolView {
    RunPipeline,
    Metadata,
    List,
    Graph,
    Explain(Seq<char>),
    Run(Option<Seq<char>>, Seq<Seq<char>>),
}

pub open spec fn protocol_view(c: ProtocolCommand) -> ProtocolView {
    match c {
        ProtocolCommand::RunPipeline => ProtocolView::RunPipeline,
        ProtocolCommand::Metadata => ProtocolView::Metadata,
        ProtocolCommand::List => ProtocolView::List,
        ProtocolCommand::Graph => ProtocolView::Graph,
        ProtocolCommand::Explain(t) => ProtocolView::Explain(t@),
        ProtocolCommand::Run(t, a) => ProtocolView::Run(opt_view(t), strs(a@)),
    }
}

/// The arguments after a `--` at `start`, else none.
fn forwarded_from(args: &Vec<String>, start: usize) -> (res: Vec<String>)
    requires
        start <= args@.len(),
    ensures
        strs(res@) == forwarded_args(strs(args@).skip(start as int)),
{
    let mut out: Vec<String> = Vec::new();
    if start < args.len() && str_eq(args[start].as_str(), "--") {
        let mut i = start + 1;
        assert(strs(out@) =~= strs(args@).skip(start as int).skip(1).take(0));
        while i < args.len()
            invariant
                start + 1 <= i <= args@.len(),
                strs(out@) == strs(args@).skip(start as int).skip(1).take(i - start - 1),
            decreases args@.len() - i,
        {
            let ghost before = out@;
            out.push(str_to_string(args[i].as_str()));
            assert(out@ == before.push(out@.last()));
            assert(strs(out@) =~= strs(before).push(args@[i as int]@));
            assert(strs(args@).skip(start as int).skip(1)[i - start - 1] == args@[i as int]@);
            assert(strs(out@) =~= strs(args@).skip(start as int).skip(1).take(i + 1 - start - 1));
            i = i + 1;
        }
        assert(strs(args@).skip(start as int).skip(1).take(i - start - 1) =~= strs(args@).skip(start as int).skip(1));
        assert(strs(args@).skip(start as int)[0] == args@[start as int]@);
    } else {
        proof {
            if start < args@.len() {
                assert(strs(args@).skip(start as int)[0] == args@[start as int]@);
            }
        }
        assert(strs(out@) =~= Seq::<Seq<char>>::empty());
    }
    out
}

/// Reads a workflow binary's arguments (without the program name).
pub fn parse_protocol(args: &Vec<String>) -> (res: Result<ProtocolCommand, String>)
    ensures
        match protocol_outcome(strs(args@)) {
            Ok(v) => res matches Ok(c) && protocol_view(c) == v,
            Err(e) => res matches Err(m) && m@ == e,
        },
{
    let ghost a = strs(args@);
    if args.len() == 0 || !str_eq(args[0].as_str(), "__runkernel") {
        return Ok(ProtocolCommand::RunPipeline);
    }
    if args.len() < 2 {
        return Err(str_to_string("Missing __runkernel command"));
    }
    let c = args[1].as_str();
    assert(a[1] == c@);
    if str_eq(c, "metadata") || str_eq(c, "list") || str_eq(c, "graph") {
        let rest = slice_subrange(args.as_slice(), 2, args.len());
        assert(strs(rest@) =~= a.skip(2));
        match require_json_format(rest) {
            Err(e) => return Err(e),
            Ok(()) => {},
        }
        if str_eq(c, "metadata") {
            return Ok(ProtocolCommand::Metadata);
        } else if str_eq(c, "list") {
            return Ok(ProtocolCommand::List);
        } else {
            return Ok(ProtocolCommand::Graph);
        }
    }
    if str_eq(c, "explain") {
        if args.len() < 3 {
            return Err(str_to_string("Missing task for __runkernel explain"));
        }
        let rest = slice_subrange(args.as_slice(), 3, args.len());
        assert(strs(rest@) =~= a.skip(3));
        match require_json_format(rest) {
            Err(e) => return Err(e),
            Ok(()) => {},
        }
        return Ok(ProtocolCommand::Explain(args[2].clone()));
    }
    if str_eq(c, "run") {
        if args.len() < 3 || str_eq(args[2].as_str(), "--") {
            let forwarded = forwarded_from(args, 2);
            return Ok(ProtocolCommand::Run(None, forwarded));
        }
        let forwarded = forwarded_from(args, 3);
        return Ok(ProtocolCommand::Run(Some(args[2].clone()), forwarded));
    }
    let mut msg = str_to_string("Unknown __runkernel command '");
    push_text(&mut msg, c);
    push_text(&mut msg, "'");
    Err(msg)
}

/// `true` or `false`.
pub open spec fn bool_text(b: bool) -> Seq<char> {
    if b {
        "true"@
    } else {
        "false"@
    }
}

/// The `Debug` rendering of a summary.
pub open spec fn summary_debug_text(s: PipelineSummary) -> Seq<char> {
    "PipelineSummary { name: "@ + str_debug_text(s.name@) + ", success: "@ + bool_text(s.success)
        + ", completed: "@ + decimal_text(s.completed as nat) + ", failed: "@ + decimal_text(
        s.failed as nat,
    ) + ", skipped: "@ + decimal_text(s.skipped as nat) + ", cached: "@ + decimal_text(
        s.cached as nat,
    ) + ", cancelled: "@ + decimal_text(s.cancelled as nat) + ", rolled_back: "@ + decimal_text(
        s.rolled_back as nat,
    ) + ", rollback_failed: "@ + decimal_text(s.rollback_failed as nat) + " }"@
}

fn push_count(out: &mut String, label: &str, n: usize)
    ensures
        final(out)@ == old(out)@ + label@ + decimal_text(n as nat),
{
    push_text(out, label);
    let d = decimal(n as u64);
    push_text(out, d.as_str());
}

/// The `Debug` rendering of a summary, as the failure message shows it.
pub fn summary_debug(s: &PipelineSummary) -> (res: String)
    ensures
        res@ == summary_debug_text(*s),
{
    let mut out = str_to_string("PipelineSummary { name: ");
    let name = debug_str(s.name.as_str());
    push_text(&mut out, name.as_str());
    push_text(&mut out, ", success: ");
    if s.success {
        push_text(&mut out, "true");
    } else {
        push_text(&mut out, "false");
    }
    push_count(&mut out, ", completed: ", s.completed);
    push_count(&mut out, ", failed: ", s.failed);
    push_count(&mut out, ", skipped: ", s.skipped);
    push_count(&mut out, ", cached: ", s.cached);
    push_count(&mut out, ", cancelled: ", s.cancelled);
    push_count(&mut out, ", rolled_back: ", s.rolled_back);
    push_count(&mut out, ", rollback_failed: ", s.rollback_failed);
    push_text(&mut out, " }");
    out
}

/// A successful run ends the binary normally; a failed one ends it with the summary.
pub fn finish_result(result: &PipelineResult) -> (res: Result<(), String>)
    ensures
        result.summary.success ==> res is Ok,
        !result.summary.success ==> (res matches Err(e) && e@ == "pipeline failed: "@ + summary_debug_text(
            result.summary,
        )),
{
    if result.summary.success {
        Ok(())
    } else {
        let mut msg = str_to_string("pipeline failed: ");
        let d = summary_debug(&result.summary);
        push_text(&mut msg, d.as_str());
        Err(msg)
    }
}

/// Each edge as `from -> to`.
pub open spec fn edge_lines(edges: Seq<GraphEdge>) -> Seq<Seq<char>> {
    edges.map_values(|e: GraphEdge| e.from@ + " -> "@ + e.to@)
}

/// The graph's edges, one per line, as `from -> to`.
pub fn graph_to_text(graph: &PipelineGraph) -> (res: String)
    ensures
        res@ == join_text(edge_lines(graph.edges@), "\n"@),
{
    let mut out = String::new();
    let mut i: usize = 0;
    assert(edge_lines(graph.edges@.take(0)) =~= Seq::<Seq<char>>::empty());
    while i < graph.edges.len()
        invariant
            i <= graph.edges@.len(),
            out@ == join_text(edge_lines(graph.edges@.take(i as int)), "\n"@),
        decreases graph.edges@.len() - i,
    {
        let e = &graph.edges[i];
        let ghost before = edge_lines(graph.edges@.take(i as int));
        if i > 0 {
            push_text(&mut out, "\n");
        }
        push_text(&mut out, e.from.as_str());
        push_text(&mut out, " -> ");
        push_text(&mut out, e.to.as_str());
        proof {
            let after = edge_lines(graph.edges@.take(i + 1));
            assert(after.drop_last() =~= before);
            assert(after.last() == e.from@ + " -> "@ + e.to@);
            if i == 0 {
                assert(after.len() == 1);
                assert(out@ =~= after[0]);
            } else {
                assert(out@ =~= join_text(before, "\n"@) + "\n"@ + after.last());
            }
        }
        i = i + 1;
    }
    assert(graph.edges@.take(graph.edges@.len() as int) =~= graph.edges@);
    out
}


/// What checking a workflow's metadata answer gives: an error when the answer could not be
/// read as metadata, or one that names another protocol version.
pub open spec fn protocol_check(workflow: Seq<char>, metadata: Result<MetadataResponse, String>) -> Option<Seq<char>> {
    match metadata {
        Err(e) => Some(
            "Workflow '"@ + workflow + "' does not appear to support the runkernel protocol: "@ + e@,
        ),
        Ok(m) => if m.protocol_version == PROTOCOL_VERSION {
            None
        } else {
            Some(
                "Workflow '"@ + workflow + "' uses an unsupported runkernel protocol version. Expected 1, got "@
                    + decimal_text(m.protocol_version as nat) + "."@,
            )
        },
    }
}

/// Checks a workflow's answer to `__runkernel metadata`, or the error that reading it gave.
pub fn check_protocol(workflow: &str, metadata: Result<MetadataResponse, String>) -> (res: Result<(), String>)
    ensures
        match protocol_check(workflow@, metadata) {
            None => res is Ok,
            Some(e) => res matches Err(m) && m@ == e,
        },
{
    match metadata {
        Err(e) => {
            let mut m = str_to_string("Workflow '");
            push_text(&mut m, workflow);
            push_text(&mut m, "' does not appear to support the runkernel protocol: ");
            push_text(&mut m, e.as_str());
            Err(m)
        },
        Ok(md) => {
            if md.protocol_version == PROTOCOL_VERSION {
                Ok(())
            } else {
                let mut m = str_to_string("Workflow '");
                push_text(&mut m, workflow);
                push_text(&mut m, "' uses an unsupported runkernel protocol version. Expected 1, got ");
                let v = decimal(md.protocol_version as u64);
                push_text(&mut m, v.as_str());
                push_text(&mut m, ".");
                Err(m)
            }
        },
    }
}

} // verus!
