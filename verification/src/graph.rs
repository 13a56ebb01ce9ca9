//! The dependency graph of a pipeline: validation, execution order and dependency closure.
use vstd::prelude::*;
use crate::pipeline::{find_task, has_task, lemma_find_task_index, task_names, tasks_in_order, Pipeline};
use crate::task::{CacheMode, Shell, Task, TaskAction};
use crate::fmt::{shell_debug, shell_debug_text};
use crate::text::{lemma_text_sort_sorted, push_text, sort_strings, str_eq, str_to_string, strs, text_sort};
use vstd::string::StrSliceExecFns;

verus! {

/// The dependency names of a task.
pub open spec fn dep_names(t: Task) -> Seq<Seq<char>> {
    strs(t.dependencies@)
}

/// Task `i` depends on task `j`.
pub open spec fn depends(tasks: Seq<Task>, i: int, j: int) -> bool {
    dep_names(tasks[i]).contains(tasks[j].name@)
}

/// Dependency `m` of task `i` names no task of the pipeline.
pub open spec fn is_missing(tasks: Seq<Task>, i: int, m: int) -> bool {
    !has_task(tasks, dep_names(tasks[i])[m])
}

/// Every dependency names a task of the pipeline.
pub open spec fn deps_exist(tasks: Seq<Task>) -> bool {
    forall|i: int, m: int|
        0 <= i < tasks.len() && 0 <= m < dep_names(tasks[i]).len() ==> !#[trigger] is_missing(
            tasks,
            i,
            m,
        )
}

/// `c` lists task indices `c[0] -> c[1] -> ... -> c[last] -> c[0]`, each depending on the next.
pub open spec fn is_cycle(tasks: Seq<Task>, c: Seq<int>) -> bool {
    &&& c.len() > 0
    &&& forall|k: int| 0 <= k < c.len() ==> 0 <= #[trigger] c[k] < tasks.len()
    &&& forall|k: int| 0 <= k < c.len() - 1 ==> depends(tasks, #[trigger] c[k], c[k + 1])
    &&& depends(tasks, c.last(), c[0])
}

/// No chain of dependencies leads from a task back to itself.
pub open spec fn acyclic(tasks: Seq<Task>) -> bool {
    forall|c: Seq<int>| !#[trigger] is_cycle(tasks, c)
}

/// `order` lists every task index exactly once, each task after all of its dependencies.
pub open spec fn is_execution_order(tasks: Seq<Task>, order: Seq<int>) -> bool {
    &&& order.no_duplicates()
    &&& forall|k: int| 0 <= k < order.len() ==> 0 <= #[trigger] order[k] < tasks.len()
    &&& forall|v: int| 0 <= v < tasks.len() ==> #[trigger] order.contains(v)
    &&& forall|k: int, j: int|
        0 <= k < order.len() && 0 <= j < order.len() && depends(tasks, #[trigger] order[k], #[trigger] order[j])
            ==> j < k
}

/// Why a pipeline's graph was rejected.
#[derive(Clone, Debug)]
pub enum GraphError {
    /// `task` depends on `dependency`, which is not a task of the pipeline.
    MissingDependency { task: String, dependency: String },
    /// `path[0]` depends on `path[1]`, ..., and the last depends on `path[0]`.
    Cycle { path: Vec<String> },
    /// No task of this name exists.
    UnknownTask { name: String },
    /// The task selected to run does not exist; `available` lists the task names.
    NotFound { name: String, available: Vec<String> },
}

/// `parts` joined by `sep`.
pub open spec fn join_text(parts: Seq<Seq<char>>, sep: Seq<char>) -> Seq<char>
    decreases parts.len(),
{
    if parts.len() == 0 {
        Seq::empty()
    } else if parts.len() == 1 {
        parts[0]
    } else {
        join_text(parts.drop_last(), sep) + sep + parts.last()
    }
}

/// Joins strings with a separator.
pub fn join_strings(parts: &Vec<String>, sep: &str) -> (res: String)
    ensures
        res@ == join_text(strs(parts@), sep@),
{
    let mut res = String::new();
    let mut i: usize = 0;
    while i < parts.len()
        invariant
            i <= parts@.len(),
            res@ == join_text(strs(parts@.take(i as int)), sep@),
        decreases parts@.len() - i,
    {
        proof {
            let t = strs(parts@.take(i + 1));
            assert(t.drop_last() =~= strs(parts@.take(i as int)));
            assert(t.last() == parts@[i as int]@);
        }
        if i > 0 {
            push_text(&mut res, sep);
        }
        push_text(&mut res, parts[i].as_str());
        i = i + 1;
    }
    assert(parts@.take(parts@.len() as int) =~= parts@);
    res
}

impl GraphError {
    /// The error text.
    pub open spec fn spec_message(&self) -> Seq<char> {
        match self {
            GraphError::MissingDependency { task, dependency } => "Task '"@ + task@
                + "' depends on '"@ + dependency@ + "', which does not exist in the pipeline"@,
            GraphError::Cycle { path } => "Circular dependency detected: "@ + join_text(
                strs(path@),
                " -> "@,
            ) + " -> "@ + if path@.len() > 0 {
                path@[0]@
            } else {
                Seq::empty()
            },
            GraphError::UnknownTask { name } => "Task '"@ + name@
                + "' does not exist in the pipeline"@,
            GraphError::NotFound { name, available } => "Unknown task '"@ + name@
                + "'.\n\nAvailable tasks:\n  "@ + join_text(strs(available@), "\n  "@),
        }
    }

    /// The error text, as the pipeline reports it.
    pub fn message(&self) -> (res: String)
        ensures
            res@ == self.spec_message(),
    {
        let mut out = String::new();
        match self {
            GraphError::MissingDependency { task, dependency } => {
                push_text(&mut out, "Task '");
                push_text(&mut out, task.as_str());
                push_text(&mut out, "' depends on '");
                push_text(&mut out, dependency.as_str());
                push_text(&mut out, "', which does not exist in the pipeline");
            },
            GraphError::Cycle { path } => {
                push_text(&mut out, "Circular dependency detected: ");
                let joined = join_strings(path, " -> ");
                push_text(&mut out, joined.as_str());
                push_text(&mut out, " -> ");
                if path.len() > 0 {
                    push_text(&mut out, path[0].as_str());
                }
            },
            GraphError::UnknownTask { name } => {
                push_text(&mut out, "Task '");
                push_text(&mut out, name.as_str());
                push_text(&mut out, "' does not exist in the pipeline");
            },
            GraphError::NotFound { name, available } => {
                push_text(&mut out, "Unknown task '");
                push_text(&mut out, name.as_str());
                push_text(&mut out, "'.\n\nAvailable tasks:\n  ");
                let joined = join_strings(available, "\n  ");
                push_text(&mut out, joined.as_str());
            },
        }
        out
    }
}

// ---------------------------------------------------------------------------------------------
// The graph as adjacency lists over task indices.

/// `adj[i]` lists, for each dependency of task `i` in order, the index of that task.
pub open spec fn is_adjacency(tasks: Seq<Task>, adj: Seq<Seq<usize>>) -> bool {
    &&& adj.len() == tasks.len()
    &&& forall|i: int| 0 <= i < adj.len() ==> (#[trigger] adj[i]).len() == dep_names(tasks[i]).len()
    &&& forall|i: int, m: int|
        0 <= i < adj.len() && 0 <= m < adj[i].len() ==> #[trigger] adj[i][m] < tasks.len()
            && tasks[adj[i][m] as int].name@ == dep_names(tasks[i])[m]
}

pub open spec fn adj_well_formed(adj: Seq<Seq<usize>>) -> bool {
    forall|i: int, m: int| 0 <= i < adj.len() && 0 <= m < adj[i].len() ==> #[trigger] adj[i][m] < adj.len()
}

pub open spec fn edge(adj: Seq<Seq<usize>>, i: int, j: int) -> bool {
    exists|m: int| 0 <= m < adj[i].len() && #[trigger] adj[i][m] as int == j
}

/// Node `v` lies on the path.
pub open spec fn on_path(path: Seq<usize>, v: int) -> bool {
    exists|k: int| 0 <= k < path.len() && #[trigger] path[k] as int == v
}

/// With distinct names, an adjacency edge is exactly a dependency.
proof fn lemma_edge_depends(tasks: Seq<Task>, adj: Seq<Seq<usize>>, i: int, j: int)
    requires
        tasks_in_order(tasks),
        is_adjacency(tasks, adj),
        0 <= i < tasks.len(),
        0 <= j < tasks.len(),
    ensures
        edge(adj, i, j) <==> depends(tasks, i, j),
{
    if depends(tasks, i, j) {
        let m = choose|m: int| 0 <= m < dep_names(tasks[i]).len() && dep_names(tasks[i])[m] == tasks[j].name@;
        let k = adj[i][m] as int;
        assert(tasks[k].name@ == tasks[j].name@);
        lemma_find_task_index(tasks, j);
        assert(adj[i][m] as int == j);
    }
    if edge(adj, i, j) {
        let m = choose|m: int| 0 <= m < adj[i].len() && adj[i][m] as int == j;
        assert(adj[i][m] < tasks.len());
        assert(dep_names(tasks[i])[m] == tasks[j].name@);
    }
}

/// With distinct names, a pipeline has one adjacency.
proof fn lemma_adjacency_unique(tasks: Seq<Task>, a: Seq<Seq<usize>>, b: Seq<Seq<usize>>)
    requires
        tasks_in_order(tasks),
        is_adjacency(tasks, a),
        is_adjacency(tasks, b),
    ensures
        a == b,
{
    assert forall|i: int| 0 <= i < a.len() implies #[trigger] a[i] == b[i] by {
        assert forall|m: int| 0 <= m < a[i].len() implies #[trigger] a[i][m] == b[i][m] by {
            let k = a[i][m] as int;
            assert(tasks[k].name@ == dep_names(tasks[i])[m]);
            assert(tasks[b[i][m] as int].name@ == dep_names(tasks[i])[m]);
            lemma_find_task_index(tasks, k);
        }
        assert(a[i] =~= b[i]);
    }
    assert(a =~= b);
}

/// The index of the task named `name`, if any.
fn index_of_name(tasks: &Vec<Task>, name: &str) -> (res: Option<usize>)
    ensures
        match res {
            Some(i) => i < tasks@.len() && tasks@[i as int].name@ == name@,
            None => !has_task(tasks@, name@),
        },
{
    let mut i: usize = 0;
    while i < tasks.len()
        invariant
            i <= tasks@.len(),
            forall|j: int| 0 <= j < i ==> #[trigger] tasks@[j].name@ != name@,
        decreases tasks@.len() - i,
    {
        if str_eq(tasks[i].name.as_str(), name) {
            return Some(i);
        }
        i = i + 1;
    }
    None
}

/// `(i, m)` comes before `(i2, m2)` in task order, then dependency order.
pub open spec fn dep_before(i: int, m: int, i2: int, m2: int) -> bool {
    i < i2 || (i == i2 && m < m2)
}

/// Builds the adjacency lists, or reports the first missing dependency (tasks in name order,
/// each task's dependencies in their order).
pub(crate) fn build_adjacency(tasks: &Vec<Task>) -> (res: Result<Vec<Vec<usize>>, GraphError>)
    ensures
        match res {
            Ok(adj) => deps_exist(tasks@) && is_adjacency(tasks@, adj@.map_values(|a: Vec<usize>| a@)),
            Err(GraphError::MissingDependency { task, dependency }) => exists|i: int, m: int|
                0 <= i < tasks@.len() && 0 <= m < dep_names(tasks@[i]).len() && #[trigger] is_missing(
                    tasks@,
                    i,
                    m,
                ) && task@ == tasks@[i].name@ && dependency@ == dep_names(tasks@[i])[m] && forall|
                    i2: int,
                    m2: int,
                |
                    0 <= i2 < tasks@.len() && 0 <= m2 < dep_names(tasks@[i2]).len() && dep_before(
                        i2,
                        m2,
                        i,
                        m,
                    ) ==> !#[trigger] is_missing(tasks@, i2, m2),
            Err(_) => false,
        },
{
    let mut adj: Vec<Vec<usize>> = Vec::new();
    let mut i: usize = 0;
    while i < tasks.len()
        invariant
            i <= tasks@.len(),
            adj@.len() == i,
            forall|i2: int, m2: int|
                0 <= i2 < i && 0 <= m2 < dep_names(tasks@[i2]).len() ==> !#[trigger] is_missing(
                    tasks@,
                    i2,
                    m2,
                ),
            forall|k: int|
                0 <= k < i ==> (#[trigger] adj@[k])@.len() == dep_names(tasks@[k]).len(),
            forall|k: int, m: int|
                0 <= k < i && 0 <= m < adj@[k]@.len() ==> #[trigger] adj@[k]@[m] < tasks@.len()
                    && tasks@[adj@[k]@[m] as int].name@ == dep_names(tasks@[k])[m],
        decreases tasks@.len() - i,
    {
        let deps = &tasks[i].dependencies;
        let mut row: Vec<usize> = Vec::new();
        let mut m: usize = 0;
        while m < deps.len()
            invariant
                i < tasks@.len(),
                deps@ == tasks@[i as int].dependencies@,
                m <= deps@.len(),
                row@.len() == m,
                forall|m2: int| 0 <= m2 < m ==> !#[trigger] is_missing(tasks@, i as int, m2),
                forall|i2: int, m2: int|
                    0 <= i2 < i && 0 <= m2 < dep_names(tasks@[i2]).len() ==> !#[trigger] is_missing(
                        tasks@,
                        i2,
                        m2,
                    ),
                forall|m2: int|
                    0 <= m2 < m ==> #[trigger] row@[m2] < tasks@.len() && tasks@[row@[m2] as int].name@
                        == dep_names(tasks@[i as int])[m2],
            decreases deps@.len() - m,
        {
            match index_of_name(tasks, deps[m].as_str()) {
                Some(j) => {
                    row.push(j);
                },
                None => {
                    assert(is_missing(tasks@, i as int, m as int));
                    assert forall|i2: int, m2: int|
                        0 <= i2 < tasks@.len() && 0 <= m2 < dep_names(tasks@[i2]).len() && dep_before(
                            i2,
                            m2,
                            i as int,
                            m as int,
                        ) implies !#[trigger] is_missing(tasks@, i2, m2) by {
                        if i2 == i {
                            assert(m2 < m);
                        }
                    }
                    return Err(
                        GraphError::MissingDependency {
                            task: tasks[i].name.clone(),
                            dependency: deps[m].clone(),
                        },
                    );
                },
            }
            m = m + 1;
        }
        adj.push(row);
        i = i + 1;
    }
    proof {
        let a = adj@.map_values(|a: Vec<usize>| a@);
        assert forall|k: int| 0 <= k < a.len() implies (#[trigger] a[k]).len() == dep_names(
            tasks@[k],
        ).len() by {
            assert(a[k] == adj@[k]@);
        }
        assert forall|k: int, m: int| 0 <= k < a.len() && 0 <= m < a[k].len() implies #[trigger] a[k][m]
            < tasks@.len() && tasks@[a[k][m] as int].name@ == dep_names(tasks@[k])[m] by {
            assert(a[k] == adj@[k]@);
        }
    }
    Ok(adj)
}

// ---------------------------------------------------------------------------------------------
// Depth-first search.

pub open spec fn unvisited_count(state: Seq<u8>) -> nat
    decreases state.len(),
{
    if state.len() == 0 {
        0
    } else {
        unvisited_count(state.drop_last()) + if state.last() == 0 {
            1nat
        } else {
            0nat
        }
    }
}

/// Marking more nodes as seen never increases the number of unvisited nodes, and strictly
/// decreases it when some unvisited node became seen.
pub proof fn lemma_unvisited_count(old_s: Seq<u8>, new_s: Seq<u8>, v: int)
    requires
        old_s.len() == new_s.len(),
        forall|u: int| 0 <= u < old_s.len() && old_s[u] != 0 ==> new_s[u] != 0,
    ensures
        unvisited_count(new_s) <= unvisited_count(old_s),
        0 <= v < old_s.len() && old_s[v] == 0 && new_s[v] != 0 ==> unvisited_count(new_s)
            < unvisited_count(old_s),
    decreases old_s.len(),
{
    if old_s.len() > 0 {
        let n = old_s.len() - 1;
        lemma_unvisited_count(old_s.drop_last(), new_s.drop_last(), v);
        assert(old_s.drop_last().len() == new_s.drop_last().len());
    }
}

/// The search state is consistent: `1` marks nodes on the current path, `2` finished nodes,
/// which are listed in `order` (with their position in `pos`) after all of their successors.
pub open spec fn dfs_inv(
    adj: Seq<Seq<usize>>,
    state: Seq<u8>,
    pos: Seq<usize>,
    order: Seq<usize>,
    path: Seq<usize>,
) -> bool {
    let n = adj.len();
    &&& adj_well_formed(adj)
    &&& state.len() == n
    &&& pos.len() == n
    &&& forall|v: int| 0 <= v < n ==> #[trigger] state[v] <= 2
    &&& forall|k: int| 0 <= k < path.len() ==> #[trigger] path[k] < n && state[path[k] as int] == 1
    &&& forall|v: int| 0 <= v < n && #[trigger] state[v] == 1 ==> on_path(path, v)
    &&& forall|k: int| 0 <= k < path.len() - 1 ==> edge(adj, #[trigger] path[k] as int, path[k + 1] as int)
    &&& forall|k: int|
        0 <= k < order.len() ==> #[trigger] order[k] < n && state[order[k] as int] == 2 && pos[order[k] as int]
            == k
    &&& forall|v: int|
        0 <= v < n && #[trigger] state[v] == 2 ==> pos[v] < order.len() && order[pos[v] as int] == v
    &&& forall|k: int, m: int|
        0 <= k < order.len() && 0 <= m < adj[order[k] as int].len() ==> state[#[trigger] adj[order[k] as int][m] as int]
            == 2 && pos[adj[order[k] as int][m] as int] < k
}

/// `c` is a cycle of the adjacency graph.
pub open spec fn adj_cycle(adj: Seq<Seq<usize>>, c: Seq<usize>) -> bool {
    &&& c.len() > 0
    &&& forall|k: int| 0 <= k < c.len() ==> #[trigger] c[k] < adj.len()
    &&& forall|k: int| 0 <= k < c.len() - 1 ==> edge(adj, #[trigger] c[k] as int, c[k + 1] as int)
    &&& edge(adj, c.last() as int, c[0] as int)
}

/// What a depth-first search gives: the marks it leaves on the nodes (`0` unvisited, `1` on
/// the current path, `2` finished), or the cycle it closed.
pub enum SearchOutcome {
    Done(Seq<u8>),
    Found(Seq<usize>),
}

/// The first position of `d` in `path` from `from` on (`path.len()` when there is none).
pub open spec fn first_index(path: Seq<usize>, d: usize, from: int) -> int
    decreases path.len() - from,
{
    if from < 0 || from >= path.len() {
        path.len() as int
    } else if path[from] == d {
        from
    } else {
        first_index(path, d, from + 1)
    }
}

/// Visiting `node` from the end of `path`: it goes on the path, then its successors are
/// searched in order.
pub open spec fn search_node(g: Seq<Seq<usize>>, st: Seq<u8>, path: Seq<usize>, node: usize) -> SearchOutcome
    decreases unvisited_count(st), 0int, 0int,
{
    if node < st.len() && st[node as int] == 0 {
        proof {
            lemma_unvisited_count(st, st.update(node as int, 1), node as int);
        }
        search_deps(g, st.update(node as int, 1), path.push(node), node, 0)
    } else {
        SearchOutcome::Done(st)
    }
}

/// Searching the successors of `node` from the `m`-th on: a successor on the path closes the
/// cycle from its first place on the path to the end; an unvisited one is visited; a finished
/// one is passed over. Once all are searched, `node` is finished.
pub open spec fn search_deps(g: Seq<Seq<usize>>, st: Seq<u8>, path: Seq<usize>, node: usize, m: int) -> SearchOutcome
    decreases unvisited_count(st), 1int, g[node as int].len() - m,
{
    if m < 0 || m >= g[node as int].len() {
        SearchOutcome::Done(st.update(node as int, 2))
    } else {
        let d = g[node as int][m];
        if st[d as int] == 1 {
            SearchOutcome::Found(path.subrange(first_index(path, d, 0), path.len() as int))
        } else if st[d as int] == 0 {
            match search_node(g, st, path, d) {
                SearchOutcome::Found(c) => SearchOutcome::Found(c),
                SearchOutcome::Done(st2) => if unvisited_count(st2) <= unvisited_count(st) {
                    search_deps(g, st2, path, node, m + 1)
                } else {
                    SearchOutcome::Done(st2)
                },
            }
        } else {
            search_deps(g, st, path, node, m + 1)
        }
    }
}

/// The search from node `v` on: each node still unvisited is visited in turn.
pub open spec fn search_from(g: Seq<Seq<usize>>, st: Seq<u8>, v: int) -> SearchOutcome
    decreases g.len() - v,
{
    if v < 0 || v >= g.len() {
        SearchOutcome::Done(st)
    } else if st[v] == 0 {
        match search_node(g, st, Seq::empty(), v as usize) {
            SearchOutcome::Found(c) => SearchOutcome::Found(c),
            SearchOutcome::Done(st2) => search_from(g, st2, v + 1),
        }
    } else {
        search_from(g, st, v + 1)
    }
}

/// `c` is the first cycle that the depth-first search over the tasks meets: starting from
/// each task in name order, following each task's dependencies in their listed order.
pub open spec fn first_cycle(tasks: Seq<Task>, c: Seq<usize>) -> bool {
    forall|g: Seq<Seq<usize>>| #[trigger] is_adjacency(tasks, g) ==> search_from(
        g,
        Seq::new(g.len(), |i: int| 0u8),
        0,
    ) == SearchOutcome::Found(c)
}

/// Pushing an unvisited node onto the path keeps the search state consistent.
proof fn lemma_enter(
    g: Seq<Seq<usize>>,
    st: Seq<u8>,
    pos: Seq<usize>,
    order: Seq<usize>,
    path: Seq<usize>,
    node: usize,
)
    requires
        dfs_inv(g, st, pos, order, path),
        node < g.len(),
        st[node as int] == 0,
        path.len() > 0 ==> edge(g, path.last() as int, node as int),
    ensures
        dfs_inv(g, st.update(node as int, 1), pos, order, path.push(node)),
{
    let s = st.update(node as int, 1);
    let p = path.push(node);
    assert forall|k: int| 0 <= k < p.len() - 1 implies edge(g, #[trigger] p[k] as int, p[k + 1] as int) by {
        if k < p.len() - 2 {
            assert(p[k] == path[k] && p[k + 1] == path[k + 1]);
        }
    }
    assert forall|v: int| 0 <= v < g.len() && #[trigger] s[v] == 1 implies on_path(p, v) by {
        if v != node {
            let k = choose|k: int| 0 <= k < path.len() && path[k] as int == v;
            assert(p[k] as int == v);
        } else {
            assert(p[p.len() - 1] == node);
        }
    }
    assert forall|k: int| 0 <= k < p.len() implies #[trigger] p[k] < g.len() && s[p[k] as int] == 1 by {
        if k < path.len() {
            assert(p[k] == path[k]);
        }
    }
    assert forall|k: int| 0 <= k < order.len() implies #[trigger] order[k] < g.len() && s[order[k] as int]
        == 2 && pos[order[k] as int] == k by {
        assert(st[order[k] as int] == 2);
    }
    assert forall|k: int, m: int|
        0 <= k < order.len() && 0 <= m < g[order[k] as int].len() implies s[#[trigger] g[order[k] as int][m] as int]
        == 2 && pos[g[order[k] as int][m] as int] < k by {
        assert(st[g[order[k] as int][m] as int] == 2);
    }
}

/// Finishing the node at the end of the path keeps the search state consistent.
proof fn lemma_finish(
    g: Seq<Seq<usize>>,
    st: Seq<u8>,
    pos: Seq<usize>,
    order: Seq<usize>,
    path: Seq<usize>,
    node: usize,
    k: usize,
)
    requires
        k == order.len(),
        dfs_inv(g, st, pos, order, path.push(node)),
        node < g.len(),
        st[node as int] == 1,
        !on_path(path, node as int),
        forall|m: int| 0 <= m < g[node as int].len() ==> st[#[trigger] g[node as int][m] as int] == 2,
    ensures
        dfs_inv(
            g,
            st.update(node as int, 2),
            pos.update(node as int, k),
            order.push(node),
            path,
        ),
{
    let s = st.update(node as int, 2);
    let ps = pos.update(node as int, k);
    let o = order.push(node);
    let pp = path.push(node);
    assert forall|j: int| 0 <= j < path.len() implies #[trigger] path[j] < g.len() && s[path[j] as int] == 1 by {
        assert(pp[j] == path[j]);
        assert(path[j] != node);
    }
    assert forall|v: int| 0 <= v < g.len() && #[trigger] s[v] == 1 implies on_path(path, v) by {
        assert(v != node);
        assert(on_path(pp, v));
        let j = choose|j: int| 0 <= j < pp.len() && pp[j] as int == v;
        if j == path.len() {
            assert(pp[j] == node);
        }
        assert(path[j] as int == v);
    }
    assert forall|j: int| 0 <= j < path.len() - 1 implies edge(g, #[trigger] path[j] as int, path[j + 1] as int) by {
        assert(pp[j] == path[j] && pp[j + 1] == path[j + 1]);
    }
    assert forall|j: int| 0 <= j < o.len() implies #[trigger] o[j] < g.len() && s[o[j] as int] == 2 && ps[o[j] as int]
        == j by {
        if j < k {
            assert(o[j] == order[j]);
            assert(st[order[j] as int] == 2);
            assert(order[j] != node);
        }
    }
    assert forall|v: int| 0 <= v < g.len() && #[trigger] s[v] == 2 implies ps[v] < o.len() && o[ps[v] as int]
        == v by {
        if v != node {
            assert(st[v] == 2);
        }
    }
    assert forall|j: int, mm: int|
        0 <= j < o.len() && 0 <= mm < g[o[j] as int].len() implies s[#[trigger] g[o[j] as int][mm] as int] == 2
        && ps[g[o[j] as int][mm] as int] < j by {
        if j < k {
            assert(o[j] == order[j]);
            let w = g[order[j] as int][mm];
            assert(st[w as int] == 2 && pos[w as int] < j);
            assert(w != node);
        } else {
            assert(o[j] == node);
            let w = g[node as int][mm];
            assert(st[w as int] == 2);
            assert(w != node);
        }
    }
}

/// The cycle closed by an edge from the end of the path back to `d`, a node on the path.
fn extract_cycle(path: &Vec<usize>, d: usize, Ghost(g): Ghost<Seq<Seq<usize>>>) -> (res: Vec<usize>)
    requires
        on_path(path@, d as int),
        path@.len() > 0,
        forall|k: int| 0 <= k < path@.len() ==> #[trigger] path@[k] < g.len(),
        forall|k: int| 0 <= k < path@.len() - 1 ==> edge(g, #[trigger] path@[k] as int, path@[k + 1] as int),
        edge(g, path@.last() as int, d as int),
    ensures
        adj_cycle(g, res@),
        res@ == path@.subrange(first_index(path@, d, 0), path@.len() as int),
{
    let mut cs: usize = 0;
    while cs < path.len() && path[cs] != d
        invariant
            on_path(path@, d as int),
            cs <= path@.len(),
            forall|k: int| 0 <= k < cs ==> path@[k] != d,
            first_index(path@, d, 0) == first_index(path@, d, cs as int),
        decreases path@.len() - cs,
    {
        cs = cs + 1;
    }
    if cs == path.len() {
        assert(false);
        return Vec::new();
    }
    let mut cycle: Vec<usize> = Vec::new();
    let mut k = cs;
    while k < path.len()
        invariant
            cs < path@.len(),
            cs <= k <= path@.len(),
            cycle@ == path@.subrange(cs as int, k as int),
        decreases path@.len() - k,
    {
        cycle.push(path[k]);
        assert(path@.subrange(cs as int, k + 1) =~= path@.subrange(cs as int, k as int).push(path@[k as int]));
        k = k + 1;
    }
    proof {
        let c = cycle@;
        assert forall|j: int| 0 <= j < c.len() - 1 implies edge(g, #[trigger] c[j] as int, c[j + 1] as int) by {
            assert(c[j] == path@[cs + j] && c[j + 1] == path@[cs + j + 1]);
        }
        assert forall|j: int| 0 <= j < c.len() implies #[trigger] c[j] < g.len() by {
            assert(c[j] == path@[cs + j]);
        }
        assert(c.last() == path@.last());
        assert(c[0] == d);
    }
    cycle
}

fn dfs(
    node: usize,
    adj: &Vec<Vec<usize>>,
    state: &mut Vec<u8>,
    pos: &mut Vec<usize>,
    order: &mut Vec<usize>,
    path: &mut Vec<usize>,
) -> (res: Result<(), Vec<usize>>)
    requires
        dfs_inv(adj@.map_values(|a: Vec<usize>| a@), old(state)@, old(pos)@, old(order)@, old(path)@),
        node < adj@.len(),
        old(state)@[node as int] == 0,
        old(path)@.len() > 0 ==> edge(
            adj@.map_values(|a: Vec<usize>| a@),
            old(path)@.last() as int,
            node as int,
        ),
    ensures
        match res {
            Ok(()) => {
                &&& dfs_inv(
                    adj@.map_values(|a: Vec<usize>| a@),
                    final(state)@,
                    final(pos)@,
                    final(order)@,
                    final(path)@,
                )
                &&& final(path)@ == old(path)@
                &&& final(state)@[node as int] == 2
                &&& forall|v: int|
                    0 <= v < adj@.len() && old(state)@[v] != 0 ==> #[trigger] final(state)@[v] == old(
                        state,
                    )@[v]
                &&& search_node(adj@.map_values(|a: Vec<usize>| a@), old(state)@, old(path)@, node)
                    == SearchOutcome::Done(final(state)@)
            },
            Err(c) => {
                &&& adj_cycle(adj@.map_values(|a: Vec<usize>| a@), c@)
                &&& search_node(adj@.map_values(|a: Vec<usize>| a@), old(state)@, old(path)@, node)
                    == SearchOutcome::Found(c@)
            },
        },
    decreases unvisited_count(old(state)@),
{
    let ghost g = adj@.map_values(|a: Vec<usize>| a@);
    let ghost st0 = state@;
    let ghost path0 = path@;
    proof {
        lemma_enter(g, state@, pos@, order@, path@, node);
    }
    path.push(node);
    state.set(node, 1);
    proof {
        lemma_unvisited_count(st0, state@, node as int);
        assert(!on_path(path0, node as int)) by {
            if on_path(path0, node as int) {
                let k = choose|k: int| 0 <= k < path0.len() && path0[k] as int == node as int;
                assert(st0[node as int] == 1);
            }
        }
    }
    let n_deps = adj[node].len();
    let mut m: usize = 0;
    while m < n_deps
        invariant
            g == adj@.map_values(|a: Vec<usize>| a@),
            node < adj@.len(),
            n_deps == g[node as int].len(),
            m <= n_deps,
            dfs_inv(g, state@, pos@, order@, path@),
            path@ == path0.push(node),
            !on_path(path0, node as int),
            st0 == old(state)@,
            state@[node as int] == 1,
            forall|m2: int| 0 <= m2 < m ==> state@[#[trigger] g[node as int][m2] as int] == 2,
            forall|v: int| 0 <= v < g.len() && st0[v] != 0 ==> #[trigger] state@[v] == st0[v],
            unvisited_count(state@) < unvisited_count(st0),
            st0.len() == g.len(),
            search_node(g, st0, path0, node) == search_deps(g, state@, path@, node, m as int),
            path0 == old(path)@,
        decreases n_deps - m,
    {
        let d = adj[node][m];
        assert(g[node as int][m as int] == d);
        assert(d < g.len());
        if state[d] == 1 {
            assert(path@.last() == node);
            return Err(extract_cycle(path, d, Ghost(g)));
        } else if state[d] == 0 {
            let ghost st1 = state@;
            assert(path@.last() == node);
            let r = dfs(d, adj, state, pos, order, path);
            match r {
                Err(c) => {
                    return Err(c);
                },
                Ok(()) => {
                    proof {
                        lemma_unvisited_count(st1, state@, d as int);
                        assert forall|v: int| 0 <= v < g.len() && st0[v] != 0 implies #[trigger] state@[v]
                            == st0[v] by {
                            assert(st1[v] == st0[v]);
                        }
                        assert forall|m2: int| 0 <= m2 < m + 1 implies state@[#[trigger] g[node as int][m2] as int]
                            == 2 by {
                            if m2 < m {
                                assert(st1[g[node as int][m2] as int] == 2);
                            }
                        }
                    }
                },
            }
        }
        m = m + 1;
    }
    let ghost st2 = state@;
    let k = order.len();
    proof {
        lemma_finish(g, state@, pos@, order@, path0, node, k);
    }
    state.set(node, 2);
    pos.set(node, k);
    order.push(node);
    let _ = path.pop();
    proof {
        assert(path@ =~= path0);
        assert forall|v: int| 0 <= v < g.len() && old(state)@[v] != 0 implies #[trigger] state@[v] == old(
            state,
        )@[v] by {
            assert(v != node);
            assert(st2[v] == st0[v]);
        }
    }
    Ok(())
}

/// `e` reports why the graph of `tasks` is invalid: the first missing dependency (tasks in
/// name order, each task's dependencies in order), or else the first dependency cycle that a
/// depth-first search meets (from the tasks in name order, each task's dependencies in order).
pub open spec fn describes_graph_error(tasks: Seq<Task>, e: GraphError) -> bool {
    match e {
        GraphError::MissingDependency { task, dependency } => exists|i: int, m: int|
            0 <= i < tasks.len() && 0 <= m < dep_names(tasks[i]).len() && #[trigger] is_missing(
                tasks,
                i,
                m,
            ) && task@ == tasks[i].name@ && dependency@ == dep_names(tasks[i])[m] && forall|
                i2: int,
                m2: int,
            |
                0 <= i2 < tasks.len() && 0 <= m2 < dep_names(tasks[i2]).len() && dep_before(
                    i2,
                    m2,
                    i,
                    m,
                ) ==> !#[trigger] is_missing(tasks, i2, m2),
        GraphError::Cycle { path } => deps_exist(tasks) && exists|c: Seq<usize>|
            #[trigger] first_cycle(tasks, c) && is_cycle(tasks, usize_ints(c)) && strs(path@) == names_at(
                tasks,
                usize_ints(c),
            ),
        _ => false,
    }
}

/// A task's position in an execution order.
pub open spec fn order_index(order: Seq<int>, v: int) -> int {
    order.index_of(v)
}

proof fn lemma_cycle_descends(tasks: Seq<Task>, order: Seq<int>, c: Seq<int>, k: int)
    requires
        is_execution_order(tasks, order),
        is_cycle(tasks, c),
        0 <= k < c.len(),
    ensures
        0 <= order_index(order, c[k]) < order.len(),
        order[order_index(order, c[k])] == c[k],
        order_index(order, c[k]) <= order_index(order, c[0]) - k,
    decreases k,
{
    assert(order.contains(c[k]));
    if k > 0 {
        lemma_cycle_descends(tasks, order, c, k - 1);
        let a = order_index(order, c[k - 1]);
        let b = order_index(order, c[k]);
        assert(depends(tasks, c[k - 1], c[k]));
        assert(depends(tasks, order[a], order[b]));
    }
}

/// A task order in which every task follows its dependencies rules out dependency cycles.
pub proof fn lemma_execution_order_acyclic(tasks: Seq<Task>, order: Seq<int>)
    requires
        is_execution_order(tasks, order),
    ensures
        acyclic(tasks),
{
    assert forall|c: Seq<int>| !#[trigger] is_cycle(tasks, c) by {
        if is_cycle(tasks, c) {
            lemma_cycle_descends(tasks, order, c, c.len() - 1);
            lemma_cycle_descends(tasks, order, c, 0);
            let a = order_index(order, c.last());
            let b = order_index(order, c[0]);
            assert(depends(tasks, order[a], order[b]));
        }
    }
}

/// The names of the tasks at the given indices.
pub open spec fn names_at(tasks: Seq<Task>, ix: Seq<int>) -> Seq<Seq<char>> {
    ix.map_values(|i: int| tasks[i].name@)
}

pub open spec fn usize_ints(s: Seq<usize>) -> Seq<int> {
    s.map_values(|x: usize| x as int)
}

/// The names of the tasks at the given indices.
fn names_of(tasks: &Vec<Task>, ix: &Vec<usize>) -> (res: Vec<String>)
    requires
        forall|k: int| 0 <= k < ix@.len() ==> #[trigger] ix@[k] < tasks@.len(),
    ensures
        strs(res@) == names_at(tasks@, usize_ints(ix@)),
{
    let mut res: Vec<String> = Vec::new();
    let mut k: usize = 0;
    while k < ix.len()
        invariant
            k <= ix@.len(),
            forall|k2: int| 0 <= k2 < ix@.len() ==> #[trigger] ix@[k2] < tasks@.len(),
            strs(res@) =~= names_at(tasks@, usize_ints(ix@.take(k as int))),
        decreases ix@.len() - k,
    {
        let ghost prev = res@;
        res.push(tasks[ix[k]].name.clone());
        assert(strs(res@) =~= strs(prev).push(tasks@[ix@[k as int] as int].name@));
        assert(usize_ints(ix@.take(k + 1)) =~= usize_ints(ix@.take(k as int)).push(ix@[k as int] as int));
        k = k + 1;
    }
    assert(ix@.take(ix@.len() as int) =~= ix@);
    res
}

impl Pipeline {
    /// Validates the graph and returns task indices (into `tasks()`) in an order where every
    /// task follows its dependencies: a depth-first search from the tasks in name order,
    /// visiting dependencies in their listed order.
    ///
    /// Fails on the first missing dependency (tasks in name order), or on a dependency cycle.
    pub fn execution_order(&self) -> (res: Result<Vec<usize>, GraphError>)
        ensures
            match res {
                Ok(order) => deps_exist(self.spec_tasks()) && is_execution_order(
                    self.spec_tasks(),
                    usize_ints(order@),
                ),
                Err(e) => describes_graph_error(self.spec_tasks(), e),
            },
            res is Ok <==> deps_exist(self.spec_tasks()) && acyclic(self.spec_tasks()),
    {
        let tasks = self.tasks();
        let adj = match build_adjacency(tasks) {
            Ok(adj) => adj,
            Err(e) => {
                proof {
                    if let GraphError::MissingDependency { .. } = e {
                        let (i, m) = choose|i: int, m: int|
                            0 <= i < tasks@.len() && 0 <= m < dep_names(tasks@[i]).len()
                                && #[trigger] is_missing(tasks@, i, m);
                        assert(!deps_exist(tasks@));
                    }
                }
                return Err(e);
            },
        };
        let ghost g = adj@.map_values(|a: Vec<usize>| a@);
        let n = tasks.len();
        let mut state: Vec<u8> = Vec::new();
        let mut pos: Vec<usize> = Vec::new();
        let mut i: usize = 0;
        while i < n
            invariant
                n == tasks@.len(),
                i <= n,
                state@.len() == i,
                pos@.len() == i,
                forall|v: int| 0 <= v < i ==> #[trigger] state@[v] == 0,
            decreases n - i,
        {
            state.push(0);
            pos.push(0);
            i = i + 1;
        }
        let mut order: Vec<usize> = Vec::new();
        let mut path: Vec<usize> = Vec::new();
        proof {
            assert(adj_well_formed(g)) by {
                assert forall|a: int, m: int| 0 <= a < g.len() && 0 <= m < g[a].len() implies #[trigger] g[a][m]
                    < g.len() by {
                    assert(g[a] == adj@[a]@);
                }
            }
        }
        assert(state@ =~= Seq::new(g.len(), |i: int| 0u8));
        let mut v: usize = 0;
        while v < n
            invariant
                n == tasks@.len(),
                tasks@ == self.spec_tasks(),
                g == adj@.map_values(|a: Vec<usize>| a@),
                g.len() == n,
                is_adjacency(tasks@, g),
                tasks_in_order(tasks@),
                deps_exist(tasks@),
                v <= n,
                dfs_inv(g, state@, pos@, order@, path@),
                path@.len() == 0,
                forall|u: int| 0 <= u < v ==> #[trigger] state@[u] == 2,
                search_from(g, Seq::new(g.len(), |i: int| 0u8), 0) == search_from(g, state@, v as int),
            decreases n - v,
        {
            assert(path@ =~= Seq::<usize>::empty());
            if state[v] == 0 {
                match dfs(v, &adj, &mut state, &mut pos, &mut order, &mut path) {
                    Ok(()) => {},
                    Err(c) => {
                        let names = names_of(tasks, &c);
                        proof {
                            assert forall|g2: Seq<Seq<usize>>| #[trigger] is_adjacency(tasks@, g2) implies search_from(
                                g2,
                                Seq::new(g2.len(), |i: int| 0u8),
                                0,
                            ) == SearchOutcome::Found(c@) by {
                                lemma_adjacency_unique(tasks@, g2, g);
                            }
                            assert(first_cycle(tasks@, c@));
                            let ci = usize_ints(c@);
                            assert forall|k: int| 0 <= k < ci.len() - 1 implies depends(
                                tasks@,
                                #[trigger] ci[k],
                                ci[k + 1],
                            ) by {
                                lemma_edge_depends(tasks@, g, c@[k] as int, c@[k + 1] as int);
                            }
                            lemma_edge_depends(tasks@, g, c@.last() as int, c@[0] as int);
                            assert(is_cycle(tasks@, ci));
                        }
                        return Err(GraphError::Cycle { path: names });
                    },
                }
            } else {
                assert(state@[v as int] != 1) by {
                    if state@[v as int] == 1 {
                        assert(on_path(path@, v as int));
                    }
                }
            }
            v = v + 1;
        }
        proof {
            let o = usize_ints(order@);
            assert forall|u: int| 0 <= u < n implies #[trigger] o.contains(u) by {
                assert(state@[u] == 2);
                assert(o[pos@[u] as int] == u);
            }
            assert forall|a: int, b: int| 0 <= a < o.len() && 0 <= b < o.len() && a != b implies o[a] != o[b] by {
                assert(pos@[order@[a] as int] == a);
                assert(pos@[order@[b] as int] == b);
            }
            assert forall|k: int, j: int|
                0 <= k < o.len() && 0 <= j < o.len() && depends(tasks@, #[trigger] o[k], #[trigger] o[j]) implies j
                < k by {
                lemma_edge_depends(tasks@, g, o[k], o[j]);
                let m = choose|m: int| 0 <= m < g[o[k]].len() && #[trigger] g[o[k]][m] as int == o[j];
                assert(g[order@[k] as int][m] == order@[j]);
                assert(pos@[order@[j] as int] == j);
            }
            lemma_execution_order_acyclic(tasks@, o);
        }
        Ok(order)
    }
}

// ---------------------------------------------------------------------------------------------
// Dependency closure.

/// `p` is a chain of tasks, each depending on the next.
pub open spec fn dep_path(tasks: Seq<Task>, p: Seq<int>) -> bool {
    &&& p.len() > 0
    &&& forall|k: int| 0 <= k < p.len() ==> 0 <= #[trigger] p[k] < tasks.len()
    &&& forall|k: int| 0 <= k < p.len() - 1 ==> depends(tasks, #[trigger] p[k], p[k + 1])
}

/// Task `j` is task `i` or one of its direct or indirect dependencies.
pub open spec fn reaches(tasks: Seq<Task>, i: int, j: int) -> bool {
    exists|p: Seq<int>| #[trigger] dep_path(tasks, p) && p[0] == i && p.last() == j
}

/// Task `v` is marked and so are all of its dependencies, which all exist.
pub open spec fn node_closed(tasks: Seq<Task>, flags: Seq<bool>, v: int) -> bool {
    &&& forall|m: int| 0 <= m < dep_names(tasks[v]).len() ==> !#[trigger] is_missing(tasks, v, m)
    &&& forall|j: int| 0 <= j < tasks.len() && #[trigger] depends(tasks, v, j) ==> flags[j]
}

proof fn lemma_reaches_step(tasks: Seq<Task>, root: int, i: int, j: int)
    requires
        reaches(tasks, root, i),
        0 <= j < tasks.len(),
        depends(tasks, i, j),
    ensures
        reaches(tasks, root, j),
{
    let p = choose|p: Seq<int>| #[trigger] dep_path(tasks, p) && p[0] == root && p.last() == i;
    let q = p.push(j);
    assert(dep_path(tasks, q)) by {
        assert forall|k: int| 0 <= k < q.len() - 1 implies depends(tasks, #[trigger] q[k], q[k + 1]) by {
            if k < p.len() - 1 {
                assert(q[k] == p[k] && q[k + 1] == p[k + 1]);
            } else {
                assert(q[k] == i && q[k + 1] == j);
            }
        }
    }
    assert(q[0] == root && q.last() == j);
}

/// A marked set containing `root` in which every marked task is closed contains every task
/// that `root` reaches.
proof fn lemma_closed_covers(tasks: Seq<Task>, flags: Seq<bool>, p: Seq<int>)
    requires
        dep_path(tasks, p),
        flags.len() == tasks.len(),
        flags[p[0]],
        forall|v: int| 0 <= v < tasks.len() && #[trigger] flags[v] ==> node_closed(tasks, flags, v),
    ensures
        flags[p.last()],
    decreases p.len(),
{
    if p.len() > 1 {
        let q = p.drop_last();
        assert(dep_path(tasks, q)) by {
            assert forall|k: int| 0 <= k < q.len() - 1 implies depends(tasks, #[trigger] q[k], q[k + 1]) by {
                assert(q[k] == p[k] && q[k + 1] == p[k + 1]);
            }
        }
        lemma_closed_covers(tasks, flags, q);
        assert(depends(tasks, p[p.len() - 2], p.last()));
        assert(node_closed(tasks, flags, q.last()));
    }
}

proof fn lemma_count_flags(old_s: Seq<bool>, new_s: Seq<bool>, v: int)
    requires
        old_s.len() == new_s.len(),
        forall|u: int| 0 <= u < old_s.len() && old_s[u] ==> new_s[u],
    ensures
        unmarked_count(new_s) <= unmarked_count(old_s),
        0 <= v < old_s.len() && !old_s[v] && new_s[v] ==> unmarked_count(new_s) < unmarked_count(old_s),
    decreases old_s.len(),
{
    if old_s.len() > 0 {
        lemma_count_flags(old_s.drop_last(), new_s.drop_last(), v);
    }
}

pub open spec fn unmarked_count(s: Seq<bool>) -> nat
    decreases s.len(),
{
    if s.len() == 0 {
        0
    } else {
        unmarked_count(s.drop_last()) + if s.last() {
            0nat
        } else {
            1nat
        }
    }
}

/// Marks task `i` and, recursively, its dependencies; fails with the first missing name met.
fn collect(i: usize, tasks: &Vec<Task>, needed: &mut Vec<bool>, Ghost(root): Ghost<int>) -> (res: Result<
    (),
    String,
>)
    requires
        tasks_in_order(tasks@),
        old(needed)@.len() == tasks@.len(),
        i < tasks@.len(),
        reaches(tasks@, root, i as int),
        forall|v: int| 0 <= v < tasks@.len() && #[trigger] old(needed)@[v] ==> reaches(tasks@, root, v),
    ensures
        final(needed)@.len() == tasks@.len(),
        forall|v: int| 0 <= v < tasks@.len() && #[trigger] final(needed)@[v] ==> reaches(tasks@, root, v),
        forall|v: int| 0 <= v < tasks@.len() && old(needed)@[v] ==> #[trigger] final(needed)@[v],
        match res {
            Ok(()) => {
                &&& final(needed)@[i as int]
                &&& forall|v: int|
                    0 <= v < tasks@.len() && #[trigger] final(needed)@[v] && !old(needed)@[v] ==> node_closed(
                        tasks@,
                        final(needed)@,
                        v,
                    )
            },
            Err(name) => exists|v: int, m: int|
                0 <= v < tasks@.len() && 0 <= m < dep_names(tasks@[v]).len() && reaches(tasks@, root, v)
                    && #[trigger] is_missing(tasks@, v, m) && name@ == dep_names(tasks@[v])[m],
        },
    decreases unmarked_count(old(needed)@),
{
    if needed[i] {
        return Ok(());
    }
    let ghost n0 = needed@;
    needed.set(i, true);
    proof {
        lemma_count_flags(n0, needed@, i as int);
    }
    let deps = &tasks[i].dependencies;
    let mut m: usize = 0;
    while m < deps.len()
        invariant
            tasks_in_order(tasks@),
            i < tasks@.len(),
            deps@ == tasks@[i as int].dependencies@,
            m <= deps@.len(),
            reaches(tasks@, root, i as int),
            needed@.len() == tasks@.len(),
            needed@[i as int],
            n0 == old(needed)@,
            !n0[i as int],
            unmarked_count(needed@) < unmarked_count(n0),
            forall|v: int| 0 <= v < tasks@.len() && #[trigger] needed@[v] ==> reaches(tasks@, root, v),
            forall|v: int| 0 <= v < tasks@.len() && n0[v] ==> #[trigger] needed@[v],
            forall|m2: int| 0 <= m2 < m ==> !#[trigger] is_missing(tasks@, i as int, m2),
            forall|j: int|
                0 <= j < tasks@.len() && #[trigger] dep_names(tasks@[i as int]).take(m as int).contains(
                    tasks@[j].name@,
                ) ==> needed@[j],
            forall|v: int|
                0 <= v < tasks@.len() && #[trigger] needed@[v] && !n0[v] && v != i ==> node_closed(
                    tasks@,
                    needed@,
                    v,
                ),
        decreases deps@.len() - m,
    {
        let ghost before = needed@;
        match index_of_name(tasks, deps[m].as_str()) {
            None => {
                assert(is_missing(tasks@, i as int, m as int));
                return Err(deps[m].clone());
            },
            Some(j) => {
                proof {
                    assert(dep_names(tasks@[i as int])[m as int] == tasks@[j as int].name@);
                    assert(depends(tasks@, i as int, j as int));
                    lemma_reaches_step(tasks@, root, i as int, j as int);
                }
                let r = collect(j, tasks, needed, Ghost(root));
                match r {
                    Err(e) => {
                        return Err(e);
                    },
                    Ok(()) => {
                        proof {
                            lemma_count_flags(before, needed@, j as int);
                            let dn = dep_names(tasks@[i as int]);
                            assert(dn.take(m + 1) =~= dn.take(m as int).push(dn[m as int]));
                            assert forall|j2: int|
                                0 <= j2 < tasks@.len() && #[trigger] dn.take(m + 1).contains(tasks@[j2].name@)
                                implies needed@[j2] by {
                                if dn.take(m as int).contains(tasks@[j2].name@) {
                                    assert(before[j2]);
                                } else {
                                    lemma_find_task_index(tasks@, j2);
                                    lemma_find_task_index(tasks@, j as int);
                                    assert(tasks@[j2].name@ == tasks@[j as int].name@);
                                }
                            }
                            assert forall|v: int|
                                0 <= v < tasks@.len() && #[trigger] needed@[v] && !n0[v] && v != i implies node_closed(
                                tasks@,
                                needed@,
                                v,
                            ) by {
                                if before[v] {
                                    assert(node_closed(tasks@, before, v));
                                    assert forall|j2: int| 0 <= j2 < tasks@.len() && #[trigger] depends(tasks@, v, j2)
                                        implies needed@[j2] by {
                                        assert(before[j2]);
                                    }
                                }
                            }
                        }
                    },
                }
            },
        }
        m = m + 1;
    }
    proof {
        let dn = dep_names(tasks@[i as int]);
        assert(dn.take(dn.len() as int) =~= dn);
        assert(node_closed(tasks@, needed@, i as int));
    }
    Ok(())
}

impl Pipeline {
    /// Flags, per task index, the named task and every task it depends on, directly or not.
    ///
    /// Fails with the first name met, in a depth-first walk, that is not a task.
    pub fn dependency_closure(&self, task: &str) -> (res: Result<Vec<bool>, GraphError>)
        ensures
            match res {
                Ok(flags) => exists|r: int|
                    0 <= r < self.spec_tasks().len() && #[trigger] self.spec_tasks()[r].name@ == task@
                        && flags@.len() == self.spec_tasks().len() && (forall|v: int|
                        0 <= v < self.spec_tasks().len() ==> (#[trigger] flags@[v] <==> reaches(
                            self.spec_tasks(),
                            r,
                            v,
                        ))) && (forall|v: int, m: int|
                        0 <= v < self.spec_tasks().len() && reaches(self.spec_tasks(), r, v) && 0 <= m
                            < dep_names(self.spec_tasks()[v]).len() ==> !#[trigger] is_missing(
                            self.spec_tasks(),
                            v,
                            m,
                        )),
                Err(GraphError::UnknownTask { name }) => (!has_task(self.spec_tasks(), task@) && name@
                    == task@) || exists|r: int, v: int, m: int|
                    0 <= r < self.spec_tasks().len() && self.spec_tasks()[r].name@ == task@ && 0 <= v
                        < self.spec_tasks().len() && 0 <= m < dep_names(self.spec_tasks()[v]).len()
                        && #[trigger] reaches(self.spec_tasks(), r, v) && #[trigger] is_missing(
                        self.spec_tasks(),
                        v,
                        m,
                    ) && name@ == dep_names(self.spec_tasks()[v])[m],
                Err(_) => false,
            },
    {
        let tasks = self.tasks();
        let root = match index_of_name(tasks, task) {
            Some(r) => r,
            None => {
                return Err(GraphError::UnknownTask { name: str_to_string(task) });
            },
        };
        let mut needed: Vec<bool> = Vec::new();
        let mut i: usize = 0;
        while i < tasks.len()
            invariant
                i <= tasks@.len(),
                needed@.len() == i,
                forall|v: int| 0 <= v < i ==> !#[trigger] needed@[v],
            decreases tasks@.len() - i,
        {
            needed.push(false);
            i = i + 1;
        }
        proof {
            let p = seq![root as int];
            assert(dep_path(tasks@, p));
            assert(reaches(tasks@, root as int, root as int));
        }
        match collect(root, tasks, &mut needed, Ghost(root as int)) {
            Ok(()) => {
                proof {
                    let t = tasks@;
                    let f = needed@;
                    assert forall|v: int| 0 <= v < t.len() && #[trigger] f[v] implies node_closed(t, f, v) by {}
                    assert forall|v: int| 0 <= v < t.len() implies (#[trigger] f[v] <==> reaches(t, root as int, v)) by {
                        if reaches(t, root as int, v) {
                            let p = choose|p: Seq<int>| #[trigger] dep_path(t, p) && p[0] == root as int && p.last() == v;
                            lemma_closed_covers(t, f, p);
                        }
                    }
                    assert forall|v: int, m: int|
                        0 <= v < t.len() && reaches(t, root as int, v) && 0 <= m < dep_names(t[v]).len()
                        implies !#[trigger] is_missing(t, v, m) by {
                        assert(f[v]);
                        assert(node_closed(t, f, v));
                    }
                }
                Ok(needed)
            },
            Err(name) => Err(GraphError::UnknownTask { name }),
        }
    }

    /// The pipeline restricted to the named task and its dependency closure (the tasks that
    /// running that task runs).
    pub fn select(self, task: &str) -> (res: Result<Pipeline, GraphError>)
        ensures
            match res {
                Ok(p) => exists|r: int|
                    0 <= r < self.spec_tasks().len() && #[trigger] self.spec_tasks()[r].name@ == task@
                        && (forall|i: int|
                        0 <= i < self.spec_tasks().len() ==> #[trigger] find_task(
                            p.spec_tasks(),
                            self.spec_tasks()[i].name@,
                        ) == if reaches(self.spec_tasks(), r, i) {
                            Some(self.spec_tasks()[i])
                        } else {
                            None
                        }) && (forall|n: Seq<char>|
                        !has_task(self.spec_tasks(), n) ==> !#[trigger] has_task(p.spec_tasks(), n)),
                Err(GraphError::NotFound { name, available }) => !has_task(self.spec_tasks(), task@)
                    && name@ == task@ && strs(available@) == task_names(self.spec_tasks()),
                Err(GraphError::UnknownTask { name }) => exists|r: int, v: int, m: int|
                    0 <= r < self.spec_tasks().len() && self.spec_tasks()[r].name@ == task@ && 0 <= v
                        < self.spec_tasks().len() && 0 <= m < dep_names(self.spec_tasks()[v]).len()
                        && #[trigger] reaches(self.spec_tasks(), r, v) && #[trigger] is_missing(
                        self.spec_tasks(),
                        v,
                        m,
                    ) && name@ == dep_names(self.spec_tasks()[v])[m],
                Err(_) => false,
            },
            res is Ok ==> res->Ok_0.spec_name() == self.spec_name() && res->Ok_0.spec_failure_policy()
                == self.spec_failure_policy() && res->Ok_0.spec_rollback_policy()
                == self.spec_rollback_policy() && res->Ok_0.spec_shell() == self.spec_shell(),
    {
        if self.task_index(task).is_none() {
            let all = self.tasks();
            let mut available: Vec<String> = Vec::new();
            let mut k: usize = 0;
            while k < all.len()
                invariant
                    k <= all@.len(),
                    strs(available@) =~= task_names(all@.take(k as int)),
                decreases all@.len() - k,
            {
                let ghost prev = available@;
                available.push(all[k].name.clone());
                assert(strs(available@) =~= strs(prev).push(all@[k as int].name@));
                assert(task_names(all@.take(k + 1)) =~= task_names(all@.take(k as int)).push(all@[k as int].name@));
                k = k + 1;
            }
            assert(all@.take(all@.len() as int) =~= all@);
            return Err(GraphError::NotFound { name: str_to_string(task), available });
        }
        let flags = match self.dependency_closure(task) {
            Ok(f) => f,
            Err(e) => {
                return Err(e);
            },
        };
        let ghost r = choose|r: int|
            0 <= r < self.spec_tasks().len() && #[trigger] self.spec_tasks()[r].name@ == task@
                && flags@.len() == self.spec_tasks().len() && (forall|v: int|
                0 <= v < self.spec_tasks().len() ==> (#[trigger] flags@[v] <==> reaches(
                    self.spec_tasks(),
                    r,
                    v,
                )));
        let ghost old_tasks = self.spec_tasks();
        let (name, tasks, failure_policy, rollback_policy, shell) = self.into_parts();
        let ghost t = tasks@;
        let mut kept: Vec<Task> = Vec::new();
        let ghost mut src: Seq<int> = Seq::empty();
        let mut rest = tasks;
        let n = rest.len();
        let mut i: usize = 0;
        assert(rest@.skip(0) =~= t);
        while i < n
            invariant
                n == t.len(),
                rest@ == t.skip(i as int),
                tasks_in_order(t),
                flags@.len() == t.len(),
                i <= t.len(),
                src.len() == kept@.len(),
                forall|k: int| 0 <= k < src.len() ==> 0 <= #[trigger] src[k] < i && kept@[k] == t[src[k]] && flags@[src[k]],
                forall|a: int, b: int| 0 <= a < b < src.len() ==> #[trigger] src[a] < #[trigger] src[b],
                forall|v: int| 0 <= v < i && #[trigger] flags@[v] ==> exists|k: int| 0 <= k < src.len() && src[k] == v,
            decreases t.len() - i,
        {
            let item = rest.remove(0);
            assert(item == t[i as int]);
            assert(rest@ =~= t.skip(i + 1));
            if flags[i] {
                kept.push(item);
                proof {
                    let ghost old_src = src;
                    src = src.push(i as int);
                    assert forall|v: int| 0 <= v < i + 1 && #[trigger] flags@[v] implies exists|k: int|
                        0 <= k < src.len() && src[k] == v by {
                        if v == i {
                            assert(src[src.len() - 1] == v);
                        } else {
                            let k = choose|k: int| 0 <= k < old_src.len() && old_src[k] == v;
                            assert(src[k] == v);
                        }
                    }
                }
            }
            i = i + 1;
        }
        proof {
            let kk = kept@;
            assert forall|a: int, b: int| 0 <= a < b < kk.len() implies crate::text::text_lt(
                #[trigger] task_names(kk)[a],
                #[trigger] task_names(kk)[b],
            ) by {
                assert(src[a] < src[b]);
                assert(crate::text::text_lt(task_names(t)[src[a]], task_names(t)[src[b]]));
            }
            assert(tasks_in_order(kk));
            assert forall|i: int| 0 <= i < t.len() implies #[trigger] find_task(kk, t[i].name@) == if reaches(
                t,
                r,
                i,
            ) {
                Some(t[i])
            } else {
                None
            } by {
                if flags@[i] {
                    let k = choose|k: int| 0 <= k < src.len() && src[k] == i;
                    lemma_find_task_index(kk, k);
                } else {
                    if has_task(kk, t[i].name@) {
                        let k = choose|k: int| 0 <= k < kk.len() && #[trigger] kk[k].name@ == t[i].name@;
                        lemma_find_task_index(t, i);
                        assert(t[src[k]].name@ == t[i].name@);
                        assert(src[k] == i);
                    }
                }
            }
            assert forall|n: Seq<char>| !has_task(t, n) implies !#[trigger] has_task(kk, n) by {
                if has_task(kk, n) {
                    let k = choose|k: int| 0 <= k < kk.len() && #[trigger] kk[k].name@ == n;
                    assert(t[src[k]].name@ == n);
                }
            }
        }
        Ok(Pipeline::from_parts(name, kept, failure_policy, rollback_policy, shell))
    }
}

// ---------------------------------------------------------------------------------------------
// Graph export and task explanation.

/// A node of the exported graph.
#[derive(Clone, Debug, PartialEq, Eq)]
pub struct GraphNode {
    pub id: String,
    pub label: String,
}

/// A dependency edge of the exported graph: `to` depends on `from`.
#[derive(Clone, Debug, PartialEq, Eq)]
pub struct GraphEdge {
    pub from: String,
    pub to: String,
}

/// A pipeline's tasks and dependency edges.
#[derive(Clone, Debug, PartialEq, Eq)]
pub struct PipelineGraph {
    pub nodes: Vec<GraphNode>,
    pub edges: Vec<GraphEdge>,
}

/// The edges into one task: from each dependency, in sorted order.
pub open spec fn task_edges(t: Task) -> Seq<(Seq<char>, Seq<char>)> {
    text_sort(dep_names(t)).map_values(|d: Seq<char>| (d, t.name@))
}

/// All edges: tasks in order, each task's edges as `task_edges` gives them.
pub open spec fn graph_edges(tasks: Seq<Task>) -> Seq<(Seq<char>, Seq<char>)>
    decreases tasks.len(),
{
    if tasks.len() == 0 {
        Seq::empty()
    } else {
        graph_edges(tasks.drop_last()) + task_edges(tasks.last())
    }
}

pub open spec fn edge_views(edges: Seq<GraphEdge>) -> Seq<(Seq<char>, Seq<char>)> {
    edges.map_values(|e: GraphEdge| (e.from@, e.to@))
}

pub open spec fn node_ids(nodes: Seq<GraphNode>) -> Seq<Seq<char>> {
    nodes.map_values(|n: GraphNode| n.id@)
}

pub open spec fn node_labels(nodes: Seq<GraphNode>) -> Seq<Seq<char>> {
    nodes.map_values(|n: GraphNode| n.label@)
}

impl Pipeline {
    /// The validated graph: a node per task in name order, and for each task (in name order)
    /// an edge from each of its dependencies (in sorted order).
    pub fn graph(&self) -> (res: Result<PipelineGraph, GraphError>)
        ensures
            match res {
                Ok(g) => {
                    &&& node_ids(g.nodes@) == task_names(self.spec_tasks())
                    &&& node_labels(g.nodes@) == task_names(self.spec_tasks())
                    &&& edge_views(g.edges@) == graph_edges(self.spec_tasks())
                },
                Err(e) => describes_graph_error(self.spec_tasks(), e),
            },
            res is Ok <==> deps_exist(self.spec_tasks()) && acyclic(self.spec_tasks()),
    {
        if let Err(e) = self.execution_order() {
            return Err(e);
        }
        let tasks = self.tasks();
        let mut nodes: Vec<GraphNode> = Vec::new();
        let mut edges: Vec<GraphEdge> = Vec::new();
        let mut i: usize = 0;
        while i < tasks.len()
            invariant
                i <= tasks@.len(),
                node_ids(nodes@) =~= task_names(tasks@.take(i as int)),
                node_labels(nodes@) =~= task_names(tasks@.take(i as int)),
                edge_views(edges@) == graph_edges(tasks@.take(i as int)),
            decreases tasks@.len() - i,
        {
            let task = &tasks[i];
            nodes.push(GraphNode { id: task.name.clone(), label: task.name.clone() });
            let deps = sort_strings(&task.dependencies);
            let ghost e0 = edges@;
            let mut k: usize = 0;
            while k < deps.len()
                invariant
                    k <= deps@.len(),
                    strs(deps@) == text_sort(dep_names(*task)),
                    edges@.len() == e0.len() + k,
                    edge_views(edges@) =~= edge_views(e0) + strs(deps@).take(k as int).map_values(
                        |d: Seq<char>| (d, task.name@),
                    ),
                decreases deps@.len() - k,
            {
                let ghost prev = edges@;
                edges.push(GraphEdge { from: deps[k].clone(), to: task.name.clone() });
                assert(strs(deps@).take(k + 1) =~= strs(deps@).take(k as int).push(deps@[k as int]@));
                assert(edge_views(edges@) =~= edge_views(prev).push((deps@[k as int]@, task.name@)));
                k = k + 1;
            }
            proof {
                assert(strs(deps@).take(deps@.len() as int) =~= strs(deps@));
                assert(tasks@.take(i + 1).drop_last() =~= tasks@.take(i as int));
                assert(tasks@.take(i + 1).last() == *task);
                assert(task_names(tasks@.take(i + 1)) =~= task_names(tasks@.take(i as int)).push(task.name@));
            }
            i = i + 1;
        }
        assert(tasks@.take(tasks@.len() as int) =~= tasks@);
        Ok(PipelineGraph { nodes, edges })
    }
}

/// `s` escaped for a quoted DOT identifier: backslash and double quote get a backslash.
pub open spec fn dot_escape_text(s: Seq<char>) -> Seq<char>
    decreases s.len(),
{
    if s.len() == 0 {
        Seq::empty()
    } else {
        dot_escape_text(s.drop_last()) + if s.last() == '\\' {
            seq!['\\', '\\']
        } else if s.last() == '"' {
            seq!['\\', '"']
        } else {
            seq![s.last()]
        }
    }
}

/// Escapes backslashes and double quotes.
pub fn dot_escape(value: &str) -> (res: String)
    ensures
        res@ == dot_escape_text(value@),
{
    let n = value.unicode_len();
    let mut out = String::new();
    let mut i: usize = 0;
    while i < n
        invariant
            n == value@.len(),
            i <= n,
            out@ == dot_escape_text(value@.take(i as int)),
        decreases n - i,
    {
        let c = value.get_char(i);
        assert(value@.take(i + 1).drop_last() =~= value@.take(i as int));
        if c == '\\' {
            out.push('\\');
            out.push('\\');
        } else if c == '"' {
            out.push('\\');
            out.push('"');
        } else {
            out.push(c);
        }
        assert(out@ =~= dot_escape_text(value@.take(i + 1)));
        i = i + 1;
    }
    assert(value@.take(n as int) =~= value@);
    out
}

/// The DOT lines of the nodes.
pub open spec fn dot_nodes_text(ids: Seq<Seq<char>>) -> Seq<char>
    decreases ids.len(),
{
    if ids.len() == 0 {
        Seq::empty()
    } else {
        dot_nodes_text(ids.drop_last()) + "  \""@ + dot_escape_text(ids.last()) + "\";\n"@
    }
}

/// The DOT lines of the edges.
pub open spec fn dot_edges_text(edges: Seq<(Seq<char>, Seq<char>)>) -> Seq<char>
    decreases edges.len(),
{
    if edges.len() == 0 {
        Seq::empty()
    } else {
        dot_edges_text(edges.drop_last()) + "  \""@ + dot_escape_text(edges.last().0) + "\" -> \""@
            + dot_escape_text(edges.last().1) + "\";\n"@
    }
}

/// The Graphviz DOT text of a pipeline.
pub open spec fn dot_text(tasks: Seq<Task>, name: Seq<char>) -> Seq<char> {
    "digraph \""@ + dot_escape_text(name) + "\" {\n"@ + "  rankdir=LR;\n"@ + dot_nodes_text(task_names(tasks))
        + dot_edges_text(graph_edges(tasks)) + "}\n"@
}

/// `needle` occurs in `hay` as a run of consecutive characters.
pub open spec fn occurs_in(needle: Seq<char>, hay: Seq<char>) -> bool {
    exists|k: int| 0 <= k && k + needle.len() <= hay.len() && #[trigger] hay.subrange(k, k + needle.len()) == needle
}

/// The DOT line that declares a node.
pub open spec fn dot_node_line(id: Seq<char>) -> Seq<char> {
    "  \""@ + dot_escape_text(id) + "\";\n"@
}

proof fn lemma_dot_nodes_append(a: Seq<Seq<char>>, b: Seq<Seq<char>>)
    ensures
        dot_nodes_text(a + b) == dot_nodes_text(a) + dot_nodes_text(b),
    decreases b.len(),
{
    if b.len() == 0 {
        assert(a + b =~= a);
        assert(dot_nodes_text(b) =~= Seq::<char>::empty());
        assert(dot_nodes_text(a) + dot_nodes_text(b) =~= dot_nodes_text(a));
    } else {
        lemma_dot_nodes_append(a, b.drop_last());
        assert((a + b).drop_last() =~= a + b.drop_last());
        assert((a + b).last() == b.last());
        let x = "  \""@ + dot_escape_text(b.last()) + "\";\n"@;
        assert(dot_nodes_text(a + b) =~= dot_nodes_text(a) + dot_nodes_text(b.drop_last()) + x);
        assert(dot_nodes_text(b) =~= dot_nodes_text(b.drop_last()) + x);
    }
}

/// Every task is declared in the DOT text of its pipeline: the line holding the task's name,
/// escaped and in quotes, occurs in it, edges or not.
pub proof fn lemma_dot_declares_every_task(tasks: Seq<Task>, name: Seq<char>, i: int)
    requires
        0 <= i < tasks.len(),
    ensures
        occurs_in(dot_node_line(tasks[i].name@), dot_text(tasks, name)),
{
    let ids = task_names(tasks);
    let line = dot_node_line(tasks[i].name@);
    assert(ids[i] == tasks[i].name@);
    let before = ids.take(i);
    let after = ids.skip(i + 1);
    assert(ids =~= before + seq![ids[i]] + after);
    lemma_dot_nodes_append(before + seq![ids[i]], after);
    lemma_dot_nodes_append(before, seq![ids[i]]);
    assert(seq![ids[i]].drop_last() =~= Seq::<Seq<char>>::empty());
    assert(dot_nodes_text(Seq::<Seq<char>>::empty()) =~= Seq::<char>::empty());
    assert(seq![ids[i]].last() == ids[i]);
    assert(dot_nodes_text(seq![ids[i]]) =~= line);
    let head = "digraph \""@ + dot_escape_text(name) + "\" {\n"@ + "  rankdir=LR;\n"@;
    let pre = head + dot_nodes_text(before);
    let text = dot_text(tasks, name);
    assert(text =~= pre + line + (dot_nodes_text(after) + dot_edges_text(graph_edges(tasks)) + "}\n"@));
    let k = pre.len() as int;
    assert(text.subrange(k, k + line.len()) =~= line);
}

/// The DOT line of an edge.
pub open spec fn dot_edge_line(from: Seq<char>, to: Seq<char>) -> Seq<char> {
    "  \""@ + dot_escape_text(from) + "\" -> \""@ + dot_escape_text(to) + "\";\n"@
}

proof fn lemma_dot_edges_append(a: Seq<(Seq<char>, Seq<char>)>, b: Seq<(Seq<char>, Seq<char>)>)
    ensures
        dot_edges_text(a + b) == dot_edges_text(a) + dot_edges_text(b),
    decreases b.len(),
{
    if b.len() == 0 {
        assert(a + b =~= a);
        assert(dot_edges_text(b) =~= Seq::<char>::empty());
        assert(dot_edges_text(a) + dot_edges_text(b) =~= dot_edges_text(a));
    } else {
        lemma_dot_edges_append(a, b.drop_last());
        assert((a + b).drop_last() =~= a + b.drop_last());
        assert((a + b).last() == b.last());
        let x = dot_edge_line(b.last().0, b.last().1);
        assert(dot_edges_text(a + b) =~= dot_edges_text(a) + dot_edges_text(b.drop_last()) + x);
        assert(dot_edges_text(b) =~= dot_edges_text(b.drop_last()) + x);
    }
}

proof fn lemma_graph_edges_has(tasks: Seq<Task>, i: int, m: int)
    requires
        0 <= i < tasks.len(),
        0 <= m < dep_names(tasks[i]).len(),
    ensures
        exists|q: int|
            0 <= q < graph_edges(tasks).len() && #[trigger] graph_edges(tasks)[q] == (dep_names(tasks[i])[m], tasks[i].name@),
    decreases tasks.len(),
{
    let prev = graph_edges(tasks.drop_last());
    let own = task_edges(tasks.last());
    assert(graph_edges(tasks) == prev + own);
    if i < tasks.len() - 1 {
        assert(tasks.drop_last()[i] == tasks[i]);
        lemma_graph_edges_has(tasks.drop_last(), i, m);
        let q = choose|q: int| 0 <= q < prev.len() && #[trigger] prev[q] == (dep_names(tasks[i])[m], tasks[i].name@);
        assert(graph_edges(tasks)[q] == prev[q]);
    } else {
        let ds = dep_names(tasks[i]);
        lemma_text_sort_sorted(ds);
        let d = ds[m];
        assert(ds.to_multiset().count(d) > 0) by {
            broadcast use vstd::seq_lib::group_to_multiset_ensures;
            assert(ds.contains(d));
        }
        assert(text_sort(ds).contains(d)) by {
            broadcast use vstd::seq_lib::group_to_multiset_ensures;
        }
        let r = choose|r: int| 0 <= r < text_sort(ds).len() && text_sort(ds)[r] == d;
        assert(own[r] == (d, tasks[i].name@));
        assert(graph_edges(tasks)[prev.len() + r] == own[r]);
    }
}

/// Every dependency is drawn in the DOT text of its pipeline: for each task and each of its
/// dependencies, the line of the edge from the dependency to the task occurs in it.
pub proof fn lemma_dot_draws_every_dependency(tasks: Seq<Task>, name: Seq<char>, i: int, m: int)
    requires
        0 <= i < tasks.len(),
        0 <= m < dep_names(tasks[i]).len(),
    ensures
        occurs_in(dot_edge_line(dep_names(tasks[i])[m], tasks[i].name@), dot_text(tasks, name)),
{
    lemma_graph_edges_has(tasks, i, m);
    let es = graph_edges(tasks);
    let e = (dep_names(tasks[i])[m], tasks[i].name@);
    let q = choose|q: int| 0 <= q < es.len() && #[trigger] es[q] == e;
    let line = dot_edge_line(e.0, e.1);
    let before = es.take(q);
    let after = es.skip(q + 1);
    assert(es =~= before + seq![e] + after);
    lemma_dot_edges_append(before + seq![e], after);
    lemma_dot_edges_append(before, seq![e]);
    assert(seq![e].drop_last() =~= Seq::<(Seq<char>, Seq<char>)>::empty());
    assert(dot_edges_text(Seq::<(Seq<char>, Seq<char>)>::empty()) =~= Seq::<char>::empty());
    assert(seq![e].last() == e);
    assert(dot_edges_text(seq![e]) =~= line);
    let head = "digraph \""@ + dot_escape_text(name) + "\" {\n"@ + "  rankdir=LR;\n"@ + dot_nodes_text(
        task_names(tasks),
    );
    let pre = head + dot_edges_text(before);
    let text = dot_text(tasks, name);
    assert(text =~= pre + line + (dot_edges_text(after) + "}\n"@));
    let k = pre.len() as int;
    assert(text.subrange(k, k + line.len()) =~= line);
}

impl Pipeline {
    /// The validated graph as Graphviz DOT.
    pub fn to_dot(&self) -> (res: Result<String, GraphError>)
        ensures
            match res {
                Ok(text) => text@ == dot_text(self.spec_tasks(), self.spec_name()),
                Err(e) => describes_graph_error(self.spec_tasks(), e),
            },
            res is Ok <==> deps_exist(self.spec_tasks()) && acyclic(self.spec_tasks()),
    {
        let graph = match self.graph() {
            Ok(g) => g,
            Err(e) => {
                return Err(e);
            },
        };
        let mut output = String::new();
        push_text(&mut output, "digraph \"");
        let esc = dot_escape(self.name());
        push_text(&mut output, esc.as_str());
        push_text(&mut output, "\" {\n");
        push_text(&mut output, "  rankdir=LR;\n");
        let ghost head = output@;
        let mut i: usize = 0;
        while i < graph.nodes.len()
            invariant
                i <= graph.nodes@.len(),
                output@ == head + dot_nodes_text(node_ids(graph.nodes@).take(i as int)),
            decreases graph.nodes@.len() - i,
        {
            assert(node_ids(graph.nodes@).take(i + 1).drop_last() =~= node_ids(graph.nodes@).take(i as int));
            push_text(&mut output, "  \"");
            let e = dot_escape(graph.nodes[i].id.as_str());
            push_text(&mut output, e.as_str());
            push_text(&mut output, "\";\n");
            i = i + 1;
        }
        assert(node_ids(graph.nodes@).take(graph.nodes@.len() as int) =~= node_ids(graph.nodes@));
        let ghost mid = output@;
        let mut k: usize = 0;
        while k < graph.edges.len()
            invariant
                k <= graph.edges@.len(),
                output@ == mid + dot_edges_text(edge_views(graph.edges@).take(k as int)),
            decreases graph.edges@.len() - k,
        {
            assert(edge_views(graph.edges@).take(k + 1).drop_last() =~= edge_views(graph.edges@).take(k as int));
            push_text(&mut output, "  \"");
            let a = dot_escape(graph.edges[k].from.as_str());
            push_text(&mut output, a.as_str());
            push_text(&mut output, "\" -> \"");
            let b = dot_escape(graph.edges[k].to.as_str());
            push_text(&mut output, b.as_str());
            push_text(&mut output, "\";\n");
            k = k + 1;
        }
        assert(edge_views(graph.edges@).take(graph.edges@.len() as int) =~= edge_views(graph.edges@));
        push_text(&mut output, "}\n");
        Ok(output)
    }
}

/// An inspectable summary of one task.
#[derive(Clone, Debug, PartialEq, Eq)]
pub struct TaskExplanation {
    pub name: String,
    pub description: Option<String>,
    pub dependencies: Vec<String>,
    pub dependents: Vec<String>,
    pub cacheable: bool,
    pub action: String,
    pub cache_mode: String,
    pub inputs: Vec<String>,
    pub env_vars: Vec<String>,
    pub shell: Option<String>,
    pub has_rollback: bool,
}

/// The names of the tasks (in order) that depend on `name`.
pub open spec fn dependents_of(tasks: Seq<Task>, name: Seq<char>) -> Seq<Seq<char>>
    decreases tasks.len(),
{
    if tasks.len() == 0 {
        Seq::empty()
    } else {
        dependents_of(tasks.drop_last(), name) + if dep_names(tasks.last()).contains(name) {
            seq![tasks.last().name@]
        } else {
            Seq::empty()
        }
    }
}

/// The kind of action, as the explanation names it.
pub open spec fn action_text(action: Option<TaskAction>) -> Seq<char> {
    match action {
        Some(TaskAction::Shell { .. }) => "shell"@,
        Some(TaskAction::Fn) => "rust-fn"@,
        None => "none"@,
    }
}

/// The shell a shell task runs under (its own, else the pipeline's), rendered with `Debug`.
pub open spec fn shell_text(action: Option<TaskAction>, default: Shell) -> Option<Seq<char>> {
    match action {
        Some(TaskAction::Shell { shell, .. }) => Some(
            shell_debug_text(
                match shell {
                    Some(s) => s,
                    None => default,
                },
            ),
        ),
        _ => None,
    }
}

/// The cache mode, as the explanation names it.
pub open spec fn cache_mode_text(mode: CacheMode) -> Seq<char> {
    match mode {
        CacheMode::Disabled => "disabled"@,
        CacheMode::Inputs => "inputs"@,
        CacheMode::Explicit { key } => "explicit:"@ + key@,
    }
}

pub open spec fn opt_view(o: Option<String>) -> Option<Seq<char>> {
    match o {
        Some(s) => Some(s@),
        None => None,
    }
}

/// `e` describes task `t` of a pipeline with these tasks and this default shell.
pub open spec fn explains(e: TaskExplanation, t: Task, tasks: Seq<Task>, default: Shell) -> bool {
    &&& e.name@ == t.name@
    &&& opt_view(e.description) == opt_view(t.description)
    &&& strs(e.dependencies@) == dep_names(t)
    &&& strs(e.dependents@) == dependents_of(tasks, t.name@)
    &&& e.cacheable == t.spec_is_cacheable()
    &&& e.action@ == action_text(t.action)
    &&& e.cache_mode@ == cache_mode_text(t.cache_mode)
    &&& strs(e.inputs@) == strs(t.inputs@)
    &&& strs(e.env_vars@) == strs(t.env_vars@)
    &&& opt_view(e.shell) == shell_text(t.action, default)
    &&& e.has_rollback == t.rollback_handler
}

/// The shell an explanation reports: for a shell command, the shell the task names, or the
/// pipeline's default shell only when the task names none; no shell for any other task.
pub proof fn lemma_explained_shell(e: TaskExplanation, t: Task, tasks: Seq<Task>, default: Shell)
    requires
        explains(e, t, tasks, default),
    ensures
        match t.action {
            Some(TaskAction::Shell { shell: Some(s), .. }) => e.shell matches Some(x) && x@ == shell_debug_text(s),
            Some(TaskAction::Shell { shell: None, .. }) => e.shell matches Some(x) && x@ == shell_debug_text(default),
            _ => e.shell is None,
        },
{
}

pub(crate) fn clone_strings(v: &Vec<String>) -> (res: Vec<String>)
    ensures
        strs(res@) == strs(v@),
{
    let r = v.clone();
    assert(strs(r@) =~= strs(v@));
    r
}

pub(crate) fn clone_opt(o: &Option<String>) -> (res: Option<String>)
    ensures
        opt_view(res) == opt_view(*o),
{
    match o {
        Some(s) => Some(s.clone()),
        None => None,
    }
}

impl Pipeline {
    /// An inspectable explanation of the named task of the validated pipeline.
    pub fn explain_task(&self, name: &str) -> (res: Result<TaskExplanation, GraphError>)
        ensures
            match res {
                Ok(e) => deps_exist(self.spec_tasks()) && acyclic(self.spec_tasks()) && exists|i: int|
                    0 <= i < self.spec_tasks().len() && #[trigger] self.spec_tasks()[i].name@ == name@
                        && explains(e, self.spec_tasks()[i], self.spec_tasks(), self.spec_shell()),
                Err(GraphError::UnknownTask { name: n }) => deps_exist(self.spec_tasks()) && acyclic(
                    self.spec_tasks(),
                ) && !has_task(self.spec_tasks(), name@) && n@ == name@,
                Err(e) => describes_graph_error(self.spec_tasks(), e),
            },
            (deps_exist(self.spec_tasks()) && acyclic(self.spec_tasks())) ==> (res is Ok <==> has_task(
                self.spec_tasks(),
                name@,
            )),
    {
        if let Err(e) = self.execution_order() {
            return Err(e);
        }
        let tasks = self.tasks();
        let i = match self.task_index(name) {
            Some(i) => i,
            None => {
                return Err(GraphError::UnknownTask { name: str_to_string(name) });
            },
        };
        let task = &tasks[i];
        let mut dependents: Vec<String> = Vec::new();
        let mut k: usize = 0;
        while k < tasks.len()
            invariant
                k <= tasks@.len(),
                i < tasks@.len(),
                *task == tasks@[i as int],
                strs(dependents@) == dependents_of(tasks@.take(k as int), task.name@),
            decreases tasks@.len() - k,
        {
            let candidate = &tasks[k];
            let deps = &candidate.dependencies;
            let mut found = false;
            let mut m: usize = 0;
            while m < deps.len()
                invariant
                    m <= deps@.len(),
                    deps@ == candidate.dependencies@,
                    found == strs(deps@).take(m as int).contains(task.name@),
                decreases deps@.len() - m,
            {
                let ghost before = strs(deps@).take(m as int);
                let ghost after = strs(deps@).take(m + 1);
                assert(after =~= before.push(deps@[m as int]@));
                let eq = str_eq(deps[m].as_str(), task.name.as_str());
                proof {
                    if eq {
                        assert(after[m as int] == task.name@);
                    }
                    if before.contains(task.name@) {
                        let w = choose|w: int| 0 <= w < before.len() && before[w] == task.name@;
                        assert(after[w] == task.name@);
                    }
                    if after.contains(task.name@) && !eq {
                        let w = choose|w: int| 0 <= w < after.len() && after[w] == task.name@;
                        assert(w < m);
                        assert(before[w] == task.name@);
                    }
                }
                if eq {
                    found = true;
                }
                m = m + 1;
            }
            assert(strs(deps@).take(deps@.len() as int) =~= strs(deps@));
            assert(tasks@.take(k + 1).drop_last() =~= tasks@.take(k as int));
            if found {
                let ghost prev = dependents@;
                dependents.push(candidate.name.clone());
                assert(strs(dependents@) =~= strs(prev).push(candidate.name@));
            } else {
                assert(strs(dependents@) =~= strs(dependents@) + Seq::<Seq<char>>::empty());
            }
            k = k + 1;
        }
        assert(tasks@.take(tasks@.len() as int) =~= tasks@);
        let (action, shell) = match &task.action {
            Some(TaskAction::Shell { shell, .. }) => {
                let d = match shell {
                    Some(s) => shell_debug(s),
                    None => shell_debug(self.default_shell()),
                };
                (str_to_string("shell"), Some(d))
            },
            Some(TaskAction::Fn) => (str_to_string("rust-fn"), None),
            None => (str_to_string("none"), None),
        };
        let cache_mode = match &task.cache_mode {
            CacheMode::Disabled => str_to_string("disabled"),
            CacheMode::Inputs => str_to_string("inputs"),
            CacheMode::Explicit { key } => {
                let mut t = str_to_string("explicit:");
                push_text(&mut t, key.as_str());
                t
            },
        };
        let e = TaskExplanation {
            name: task.name.clone(),
            description: clone_opt(&task.description),
            dependencies: clone_strings(&task.dependencies),
            dependents,
            cacheable: task.cacheable(),
            action,
            cache_mode,
            inputs: clone_strings(&task.inputs),
            env_vars: clone_strings(&task.env_vars),
            shell,
            has_rollback: task.has_rollback(),
        };
        Ok(e)
    }

    /// An inspectable explanation of the named task (same as `explain_task`).
    pub fn explain(&self, name: &str) -> (res: Result<TaskExplanation, GraphError>)
        ensures
            match res {
                Ok(e) => deps_exist(self.spec_tasks()) && acyclic(self.spec_tasks()) && exists|i: int|
                    0 <= i < self.spec_tasks().len() && #[trigger] self.spec_tasks()[i].name@ == name@
                        && explains(e, self.spec_tasks()[i], self.spec_tasks(), self.spec_shell()),
                Err(GraphError::UnknownTask { name: n }) => deps_exist(self.spec_tasks()) && acyclic(
                    self.spec_tasks(),
                ) && !has_task(self.spec_tasks(), name@) && n@ == name@,
                Err(e) => describes_graph_error(self.spec_tasks(), e),
            },
            (deps_exist(self.spec_tasks()) && acyclic(self.spec_tasks())) ==> (res is Ok <==> has_task(
                self.spec_tasks(),
                name@,
            )),
    {
        self.explain_task(name)
    }
}

} // verus!
