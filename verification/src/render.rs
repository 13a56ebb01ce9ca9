//! How the command line renders workflows, task lists, graphs and explanations as text.
use vstd::prelude::*;
use crate::graph::{join_strings, join_text, GraphEdge, GraphNode, PipelineGraph};
use crate::protocol::{graph_to_text, edge_lines, ExplainResponse, ListResponse, TaskListItem};
use crate::text::{push_text, str_eq, str_to_string, strs};

verus! {

/// A description after two spaces, or nothing.
pub open spec fn description_suffix(d: Option<String>) -> Seq<char> {
    match d {
        Some(s) => "  "@ + s@,
        None => Seq::empty(),
    }
}

fn push_description(out: &mut String, d: &Option<String>)
    ensures
        final(out)@ == old(out)@ + description_suffix(*d),
{
    let ghost start = out@;
    match d {
        Some(s) => {
            push_text(out, "  ");
            push_text(out, s.as_str());
        },
        None => {},
    }
    assert(out@ =~= start + description_suffix(*d));
}

/// One line per task: its name and description.
pub open spec fn task_lines(items: Seq<TaskListItem>) -> Seq<char>
    decreases items.len(),
{
    if items.len() == 0 {
        Seq::empty()
    } else {
        task_lines(items.drop_last()) + "\n  "@ + items.last().name@ + description_suffix(items.last().description)
    }
}

/// The tasks of a workflow, one per line after a heading.
pub fn format_list(workflow: &str, response: &ListResponse) -> (res: String)
    ensures
        res@ == "Workflow: "@ + workflow@ + "\n\nTasks:"@ + task_lines(response.tasks@),
{
    let mut out = str_to_string("Workflow: ");
    push_text(&mut out, workflow);
    push_text(&mut out, "\n\nTasks:");
    let ghost head = out@;
    let mut i: usize = 0;
    assert(response.tasks@.take(0) =~= Seq::<TaskListItem>::empty());
    assert(out@ =~= head + task_lines(response.tasks@.take(0)));
    while i < response.tasks.len()
        invariant
            i <= response.tasks@.len(),
            out@ == head + task_lines(response.tasks@.take(i as int)),
            head == "Workflow: "@ + workflow@ + "\n\nTasks:"@,
        decreases response.tasks@.len() - i,
    {
        let t = &response.tasks[i];
        push_text(&mut out, "\n  ");
        push_text(&mut out, t.name.as_str());
        push_description(&mut out, &t.description);
        proof {
            let s = response.tasks@.take(i + 1);
            assert(s.drop_last() =~= response.tasks@.take(i as int));
            assert(out@ =~= head + task_lines(s));
        }
        i = i + 1;
    }
    assert(response.tasks@.take(response.tasks@.len() as int) =~= response.tasks@);
    out
}

/// How `runkernel graph` renders a graph.
#[derive(Clone, Copy, Debug, PartialEq, Eq, Structural)]
pub enum GraphFormat {
    Text,
    Json,
    Dot,
    Mermaid,
}

/// The DOT lines declaring the nodes.
pub open spec fn dot_node_lines(nodes: Seq<GraphNode>) -> Seq<char>
    decreases nodes.len(),
{
    if nodes.len() == 0 {
        Seq::empty()
    } else {
        dot_node_lines(nodes.drop_last()) + "  \""@ + nodes.last().id@ + "\";\n"@
    }
}

/// The DOT lines declaring the edges.
pub open spec fn dot_edge_lines(edges: Seq<GraphEdge>) -> Seq<char>
    decreases edges.len(),
{
    if edges.len() == 0 {
        Seq::empty()
    } else {
        dot_edge_lines(edges.drop_last()) + "  \""@ + edges.last().from@ + "\" -> \""@ + edges.last().to@
            + "\";\n"@
    }
}

/// A graph as Graphviz DOT, named after the workflow; names are written as they are.
pub open spec fn graph_dot_text(workflow: Seq<char>, graph: PipelineGraph) -> Seq<char> {
    "digraph \""@ + workflow + "\" {\n  rankdir=LR;\n"@ + dot_node_lines(graph.nodes@) + dot_edge_lines(
        graph.edges@,
    ) + "}\n"@
}

/// The graph as Graphviz DOT.
pub fn graph_to_dot(workflow: &str, graph: &PipelineGraph) -> (res: Result<String, String>)
    ensures
        res matches Ok(s) && s@ == graph_dot_text(workflow@, *graph),
{
    let mut out = str_to_string("digraph \"");
    push_text(&mut out, workflow);
    push_text(&mut out, "\" {\n  rankdir=LR;\n");
    let ghost head = out@;
    let mut i: usize = 0;
    assert(graph.nodes@.take(0) =~= Seq::<GraphNode>::empty());
    assert(out@ =~= head + dot_node_lines(graph.nodes@.take(0)));
    while i < graph.nodes.len()
        invariant
            i <= graph.nodes@.len(),
            out@ == head + dot_node_lines(graph.nodes@.take(i as int)),
        decreases graph.nodes@.len() - i,
    {
        push_text(&mut out, "  \"");
        push_text(&mut out, graph.nodes[i].id.as_str());
        push_text(&mut out, "\";\n");
        proof {
            let s = graph.nodes@.take(i + 1);
            assert(s.drop_last() =~= graph.nodes@.take(i as int));
            assert(out@ =~= head + dot_node_lines(s));
        }
        i = i + 1;
    }
    assert(graph.nodes@.take(graph.nodes@.len() as int) =~= graph.nodes@);
    let ghost mid = out@;
    let mut j: usize = 0;
    assert(graph.edges@.take(0) =~= Seq::<GraphEdge>::empty());
    assert(out@ =~= mid + dot_edge_lines(graph.edges@.take(0)));
    while j < graph.edges.len()
        invariant
            j <= graph.edges@.len(),
            out@ == mid + dot_edge_lines(graph.edges@.take(j as int)),
        decreases graph.edges@.len() - j,
    {
        push_text(&mut out, "  \"");
        push_text(&mut out, graph.edges[j].from.as_str());
        push_text(&mut out, "\" -> \"");
        push_text(&mut out, graph.edges[j].to.as_str());
        push_text(&mut out, "\";\n");
        proof {
            let s = graph.edges@.take(j + 1);
            assert(s.drop_last() =~= graph.edges@.take(j as int));
            assert(out@ =~= mid + dot_edge_lines(s));
        }
        j = j + 1;
    }
    assert(graph.edges@.take(graph.edges@.len() as int) =~= graph.edges@);
    push_text(&mut out, "}\n");
    Ok(out)
}

/// The Mermaid lines of the edges.
pub open spec fn mermaid_edge_lines(edges: Seq<GraphEdge>) -> Seq<char>
    decreases edges.len(),
{
    if edges.len() == 0 {
        Seq::empty()
    } else {
        mermaid_edge_lines(edges.drop_last()) + "\n  "@ + edges.last().from@ + " --> "@ + edges.last().to@
    }
}

/// The Mermaid lines declaring the nodes, each as `id["label"]`.
pub open spec fn mermaid_node_lines(nodes: Seq<GraphNode>) -> Seq<char>
    decreases nodes.len(),
{
    if nodes.len() == 0 {
        Seq::empty()
    } else {
        mermaid_node_lines(nodes.drop_last()) + "\n  "@ + nodes.last().id@ + "[\""@ + nodes.last().label@
            + "\"]"@
    }
}

/// A graph as a Mermaid flowchart: every node declared, then the edges.
pub open spec fn mermaid_text(graph: PipelineGraph) -> Seq<char> {
    "graph TD"@ + mermaid_node_lines(graph.nodes@) + mermaid_edge_lines(graph.edges@)
}

/// The graph as a Mermaid flowchart, so that nodes without edges appear too.
pub fn graph_to_mermaid(graph: &PipelineGraph) -> (res: String)
    ensures
        res@ == mermaid_text(*graph),
{
    let mut out = str_to_string("graph TD");
    let ghost head = out@;
    let mut i: usize = 0;
    assert(graph.nodes@.take(0) =~= Seq::<GraphNode>::empty());
    assert(out@ =~= head + mermaid_node_lines(graph.nodes@.take(0)));
    while i < graph.nodes.len()
        invariant
            i <= graph.nodes@.len(),
            out@ == head + mermaid_node_lines(graph.nodes@.take(i as int)),
            head == "graph TD"@,
        decreases graph.nodes@.len() - i,
    {
        push_text(&mut out, "\n  ");
        push_text(&mut out, graph.nodes[i].id.as_str());
        push_text(&mut out, "[\"");
        push_text(&mut out, graph.nodes[i].label.as_str());
        push_text(&mut out, "\"]");
        proof {
            let s = graph.nodes@.take(i + 1);
            assert(s.drop_last() =~= graph.nodes@.take(i as int));
            assert(out@ =~= head + mermaid_node_lines(s));
        }
        i = i + 1;
    }
    assert(graph.nodes@.take(graph.nodes@.len() as int) =~= graph.nodes@);
    let ghost mid = out@;
    let mut j: usize = 0;
    assert(graph.edges@.take(0) =~= Seq::<GraphEdge>::empty());
    assert(out@ =~= mid + mermaid_edge_lines(graph.edges@.take(0)));
    while j < graph.edges.len()
        invariant
            j <= graph.edges@.len(),
            out@ == mid + mermaid_edge_lines(graph.edges@.take(j as int)),
            mid == "graph TD"@ + mermaid_node_lines(graph.nodes@),
        decreases graph.edges@.len() - j,
    {
        push_text(&mut out, "\n  ");
        push_text(&mut out, graph.edges[j].from.as_str());
        push_text(&mut out, " --> ");
        push_text(&mut out, graph.edges[j].to.as_str());
        proof {
            let s = graph.edges@.take(j + 1);
            assert(s.drop_last() =~= graph.edges@.take(j as int));
            assert(out@ =~= mid + mermaid_edge_lines(s));
        }
        j = j + 1;
    }
    assert(graph.edges@.take(graph.edges@.len() as int) =~= graph.edges@);
    out
}

/// Some edge starts or ends at the node.
pub open spec fn on_some_edge(graph: PipelineGraph, id: Seq<char>) -> bool {
    exists|e: int| 0 <= e < graph.edges@.len() && (graph.edges@[e].from@ == id || graph.edges@[e].to@ == id)
}

/// Every node shows in some edge line.
pub open spec fn edges_show_all_nodes(graph: PipelineGraph) -> bool {
    forall|k: int| 0 <= k < graph.nodes@.len() ==> on_some_edge(graph, #[trigger] graph.nodes@[k].id@)
}

/// The `Tasks:` listing, one node name per line.
pub open spec fn task_listing(nodes: Seq<GraphNode>) -> Seq<char>
    decreases nodes.len(),
{
    if nodes.len() == 0 {
        "Tasks:"@
    } else {
        task_listing(nodes.drop_last()) + "\n  "@ + nodes.last().id@
    }
}

/// The graph as text: the edges, one `from -> to` per line; when some task shows in no edge,
/// a `Tasks:` listing of every task comes first (then a blank line and the edges, if any).
pub open spec fn graph_text(graph: PipelineGraph) -> Seq<char> {
    let edges = join_text(edge_lines(graph.edges@), "\n"@);
    if edges_show_all_nodes(graph) {
        edges
    } else if graph.edges@.len() == 0 {
        task_listing(graph.nodes@)
    } else {
        task_listing(graph.nodes@) + "\n\n"@ + edges
    }
}

fn node_on_edge(graph: &PipelineGraph, id: &str) -> (r: bool)
    ensures
        r == on_some_edge(*graph, id@),
{
    let mut e: usize = 0;
    while e < graph.edges.len()
        invariant
            e <= graph.edges@.len(),
            forall|x: int| 0 <= x < e ==> !(graph.edges@[x].from@ == id@ || graph.edges@[x].to@ == id@),
        decreases graph.edges@.len() - e,
    {
        if str_eq(graph.edges[e].from.as_str(), id) || str_eq(graph.edges[e].to.as_str(), id) {
            return true;
        }
        e = e + 1;
    }
    false
}

fn all_nodes_on_edges(graph: &PipelineGraph) -> (r: bool)
    ensures
        r == edges_show_all_nodes(*graph),
{
    let mut k: usize = 0;
    while k < graph.nodes.len()
        invariant
            k <= graph.nodes@.len(),
            forall|x: int| 0 <= x < k ==> on_some_edge(*graph, #[trigger] graph.nodes@[x].id@),
        decreases graph.nodes@.len() - k,
    {
        if !node_on_edge(graph, graph.nodes[k].id.as_str()) {
            return false;
        }
        k = k + 1;
    }
    true
}

/// The graph as text (see `graph_text`).
pub fn format_graph_text(graph: &PipelineGraph) -> (res: String)
    ensures
        res@ == graph_text(*graph),
{
    let edges = graph_to_text(graph);
    if all_nodes_on_edges(graph) {
        return edges;
    }
    let mut out = str_to_string("Tasks:");
    let mut i: usize = 0;
    assert(graph.nodes@.take(0) =~= Seq::<GraphNode>::empty());
    while i < graph.nodes.len()
        invariant
            i <= graph.nodes@.len(),
            out@ == task_listing(graph.nodes@.take(i as int)),
        decreases graph.nodes@.len() - i,
    {
        push_text(&mut out, "\n  ");
        push_text(&mut out, graph.nodes[i].id.as_str());
        proof {
            let s = graph.nodes@.take(i + 1);
            assert(s.drop_last() =~= graph.nodes@.take(i as int));
        }
        i = i + 1;
    }
    assert(graph.nodes@.take(graph.nodes@.len() as int) =~= graph.nodes@);
    if graph.edges.len() > 0 {
        push_text(&mut out, "\n\n");
        push_text(&mut out, edges.as_str());
    }
    out
}

/// The graph in the requested format; `None` for JSON, which the caller serializes.
pub fn format_graph(workflow: &str, graph: &PipelineGraph, format: GraphFormat) -> (res: Option<String>)
    ensures
        match format {
            GraphFormat::Text => res matches Some(s) && s@ == graph_text(*graph),
            GraphFormat::Json => res is None,
            GraphFormat::Dot => res matches Some(s) && s@ == graph_dot_text(workflow@, *graph),
            GraphFormat::Mermaid => res matches Some(s) && s@ == mermaid_text(*graph),
        },
{
    match format {
        GraphFormat::Text => Some(format_graph_text(graph)),
        GraphFormat::Json => None,
        GraphFormat::Dot => match graph_to_dot(workflow, graph) {
            Ok(s) => Some(s),
            Err(e) => Some(e),
        },
        GraphFormat::Mermaid => Some(graph_to_mermaid(graph)),
    }
}

/// The values one per line (after the first, indented by two spaces), or `none`.
pub open spec fn join_or_none_text(values: Seq<Seq<char>>) -> Seq<char> {
    if values.len() == 0 {
        "none"@
    } else {
        join_text(values, "\n  "@)
    }
}

/// The values joined by newlines and two-space indents, or `none` when there are none.
pub fn join_or_none(values: &[String]) -> (res: String)
    ensures
        res@ == join_or_none_text(strs(values@)),
{
    if values.len() == 0 {
        str_to_string("none")
    } else {
        let mut v: Vec<String> = Vec::new();
        let mut i: usize = 0;
        while i < values.len()
            invariant
                i <= values@.len(),
                strs(v@) == strs(values@).take(i as int),
            decreases values@.len() - i,
        {
            let ghost before = v@;
            v.push(str_to_string(values[i].as_str()));
            assert(v@ == before.push(v@.last()));
            assert(strs(v@) =~= strs(before).push(values@[i as int]@));
            assert(strs(values@).take(i + 1) =~= strs(values@).take(i as int).push(values@[i as int]@));
            i = i + 1;
        }
        assert(strs(values@).take(values@.len() as int) =~= strs(values@));
        join_strings(&v, "\n  ")
    }
}

/// `enabled` or `disabled`.
pub open spec fn enabled_text(b: bool) -> Seq<char> {
    if b {
        "enabled"@
    } else {
        "disabled"@
    }
}

/// The explanation of a task as the command line shows it.
pub open spec fn explain_text(response: ExplainResponse) -> Seq<char> {
    let t = response.task;
    "Task: "@ + t.name@ + "\n\nDescription:\n  "@ + (match t.description {
        Some(d) => d@,
        None => "none"@,
    }) + "\n\nDependencies:\n  "@ + join_or_none_text(strs(t.dependencies@)) + "\n\nDependents:\n  "@
        + join_or_none_text(strs(t.dependents@)) + "\n\nCache:\n  "@ + enabled_text(t.cacheable)
        + "\n\nRollback:\n  "@ + enabled_text(t.has_rollback) + "\n\nInputs:\n  "@ + join_or_none_text(
        strs(t.inputs@),
    ) + "\n\nEnvironment:\n  "@ + join_or_none_text(strs(t.env_vars@))
}

/// The explanation of a task, section by section.
pub fn format_explain(response: &ExplainResponse) -> (res: String)
    ensures
        res@ == explain_text(*response),
{
    let t = &response.task;
    let mut out = str_to_string("Task: ");
    push_text(&mut out, t.name.as_str());
    push_text(&mut out, "\n\nDescription:\n  ");
    match &t.description {
        Some(d) => push_text(&mut out, d.as_str()),
        None => push_text(&mut out, "none"),
    }
    push_text(&mut out, "\n\nDependencies:\n  ");
    let deps = join_or_none(t.dependencies.as_slice());
    push_text(&mut out, deps.as_str());
    push_text(&mut out, "\n\nDependents:\n  ");
    let dependents = join_or_none(t.dependents.as_slice());
    push_text(&mut out, dependents.as_str());
    push_text(&mut out, "\n\nCache:\n  ");
    push_text(&mut out, if t.cacheable { "enabled" } else { "disabled" });
    push_text(&mut out, "\n\nRollback:\n  ");
    push_text(&mut out, if t.has_rollback { "enabled" } else { "disabled" });
    push_text(&mut out, "\n\nInputs:\n  ");
    let inputs = join_or_none(t.inputs.as_slice());
    push_text(&mut out, inputs.as_str());
    push_text(&mut out, "\n\nEnvironment:\n  ");
    let env = join_or_none(t.env_vars.as_slice());
    push_text(&mut out, env.as_str());
    out
}

} // verus!
