//! The `runkernel` command line: its commands, the workflow manifest, which workflow a command
//! runs, and the Cargo invocation that runs it.
//!
//! Reading files, starting Cargo and parsing its JSON belong to the program around this module;
//! `run_cli` and `with_manifest` say what to do next, and the formatters turn answers into text.
use vstd::prelude::*;
use crate::cache::{CacheCleanResult, CacheManager};
use crate::graph::{join_strings, join_text, opt_view};
use crate::paths::{join_path, join_path_text};
use crate::render::GraphFormat;
use crate::text::{lemma_text_transitive, push_text, str_eq, str_lt, str_to_string, strs, text_lt, text_strictly_sorted};

verus! {

/// The name of the manifest file.
pub const CONFIG_FILE: &'static str = "runkernel.toml";

/// What to do with the cache.
#[derive(Clone, Copy, Debug, PartialEq, Eq, Structural)]
pub enum CacheCommand {
    Clean,
    Status,
}

/// A command of the command line.
#[derive(Clone, Debug)]
pub enum Command {
    /// Run a task (or the workflow's default task), forwarding `args` to it.
    Run { task: Option<String>, args: Vec<String> },
    List,
    Graph { format: GraphFormat },
    Explain { task: String },
    Init,
    Workflows,
    Cache { command: CacheCommand },
}

/// The parsed command line.
#[derive(Clone, Debug)]
pub struct Cli {
    pub config: Option<String>,
    pub workflow: Option<String>,
    pub verbose: bool,
    pub release: bool,
    pub features: Option<String>,
    pub all_features: bool,
    pub no_default_features: bool,
    pub command: Command,
}

/// Where one workflow's binary lives; paths are relative to the manifest's directory.
#[derive(Clone, Debug)]
pub struct WorkflowConfig {
    pub package: Option<String>,
    pub bin: Option<String>,
    pub manifest_path: Option<String>,
    pub working_dir: Option<String>,
    pub default_task: Option<String>,
    pub description: Option<String>,
}

/// The manifest's workflows, by name. A manifest read from `runkernel.toml` holds each name
/// once, in name order (`in_order`).
#[derive(Clone, Debug)]
pub struct RunkernelManifest {
    pub workflow: Vec<(String, WorkflowConfig)>,
}

impl RunkernelManifest {
    /// Each workflow name occurs once, and the names are in order.
    pub open spec fn in_order(&self) -> bool {
        text_strictly_sorted(workflow_names(self.workflow@))
    }

    /// Whether each workflow name occurs once and the names are in order.
    pub fn is_in_order(&self) -> (res: bool)
        ensures
            res == self.in_order(),
    {
        let n = self.workflow.len();
        if n == 0 {
            return true;
        }
        let mut i: usize = 1;
        while i < n
            invariant
                n == self.workflow@.len(),
                1 <= i <= n,
                forall|a: int, b: int| 0 <= a < b < i ==> text_lt(#[trigger] self.workflow@[a].0@, #[trigger] self.workflow@[b].0@),
            decreases n - i,
        {
            if !str_lt(self.workflow[i - 1].0.as_str(), self.workflow[i].0.as_str()) {
                proof {
                    assert(workflow_names(self.workflow@)[i - 1] == self.workflow@[i - 1].0@);
                    assert(workflow_names(self.workflow@)[i as int] == self.workflow@[i as int].0@);
                }
                return false;
            }
            proof {
                assert forall|a: int, b: int| 0 <= a < b < i + 1 implies text_lt(#[trigger] self.workflow@[a].0@, #[trigger] self.workflow@[b].0@) by {
                    if b == i && a < i - 1 {
                        lemma_text_transitive(self.workflow@[a].0@, self.workflow@[i - 1].0@, self.workflow@[b].0@);
                    }
                }
            }
            i = i + 1;
        }
        proof {
            assert forall|a: int, b: int| 0 <= a < b < workflow_names(self.workflow@).len() implies text_lt(
                #[trigger] workflow_names(self.workflow@)[a],
                #[trigger] workflow_names(self.workflow@)[b],
            ) by {
                assert(workflow_names(self.workflow@)[a] == self.workflow@[a].0@);
                assert(workflow_names(self.workflow@)[b] == self.workflow@[b].0@);
            }
        }
        true
    }
}

/// The message when no manifest is found searching up from `start`.
pub open spec fn not_found_text(start: Seq<char>) -> Seq<char> {
    "No runkernel.toml found.\n\nSearched from:\n  "@ + start + "\n\nCreate one with:\n  runkernel init"@
}

/// The error when no `runkernel.toml` is found in `start` or any directory above it.
pub fn manifest_not_found(start: &str) -> (res: String)
    ensures
        res@ == not_found_text(start@),
{
    let mut m = str_to_string("No runkernel.toml found.\n\nSearched from:\n  ");
    push_text(&mut m, start);
    push_text(&mut m, "\n\nCreate one with:\n  runkernel init");
    m
}

/// A selected workflow with its paths resolved against the manifest's directory.
#[derive(Clone, Debug)]
pub struct ResolvedWorkflow {
    pub name: String,
    pub package: Option<String>,
    pub bin: Option<String>,
    pub manifest_path: String,
    pub working_dir: String,
    pub default_task: Option<String>,
    pub description: Option<String>,
}

/// What the command line prints and the status it exits with.
#[derive(Clone, Debug, PartialEq, Eq)]
pub struct CliOutcome {
    pub output: String,
    pub exit_code: i32,
}

impl CliOutcome {
    /// Prints `output` and exits with status 0.
    pub fn success(output: String) -> (res: CliOutcome)
        ensures
            res.output@ == output@,
            res.exit_code == 0,
    {
        CliOutcome { output, exit_code: 0 }
    }
}

// ---------------------------------------------------------------------------------------------
// Validation.

/// Unicode White_Space, the characters `char::is_whitespace` accepts.
pub open spec fn is_white(c: char) -> bool {
    ||| ('\u{9}' <= c && c <= '\u{d}')
    ||| c == ' '
    ||| c == '\u{85}'
    ||| c == '\u{a0}'
    ||| c == '\u{1680}'
    ||| ('\u{2000}' <= c && c <= '\u{200a}')
    ||| c == '\u{2028}'
    ||| c == '\u{2029}'
    ||| c == '\u{202f}'
    ||| c == '\u{205f}'
    ||| c == '\u{3000}'
}

/// Nothing but whitespace: what trims to the empty string.
pub open spec fn blank(s: Seq<char>) -> bool {
    forall|i: int| 0 <= i < s.len() ==> is_white(#[trigger] s[i])
}

fn white(c: char) -> (r: bool)
    ensures
        r == is_white(c),
{
    ('\u{9}' <= c && c <= '\u{d}') || c == ' ' || c == '\u{85}' || c == '\u{a0}' || c == '\u{1680}' || (
    '\u{2000}' <= c && c <= '\u{200a}') || c == '\u{2028}' || c == '\u{2029}' || c == '\u{202f}' || c
        == '\u{205f}' || c == '\u{3000}'
}

/// Whether the text is empty once trimmed.
pub fn is_blank(s: &str) -> (r: bool)
    ensures
        r == blank(s@),
{
    let n = vstd::string::StrSliceExecFns::unicode_len(s);
    let mut i: usize = 0;
    while i < n
        invariant
            n == s@.len(),
            i <= n,
            forall|k: int| 0 <= k < i ==> is_white(#[trigger] s@[k]),
        decreases n - i,
    {
        if !white(vstd::string::StrSliceExecFns::get_char(s, i)) {
            return false;
        }
        i = i + 1;
    }
    true
}

/// The optional field is present but blank.
pub open spec fn blank_field(o: Option<String>) -> bool {
    o matches Some(v) && blank(v@)
}

/// The path a relative manifest path names from the manifest's directory.
pub open spec fn referenced(dir: Seq<char>, p: Option<String>) -> Option<Seq<char>> {
    match p {
        Some(v) => Some(join_path_text(dir, v@)),
        None => None,
    }
}

/// The first problem of one workflow entry, if any.
pub open spec fn workflow_problem(name: Seq<char>, w: WorkflowConfig, dir: Seq<char>, existing: Seq<Seq<char>>) -> Option<Seq<char>> {
    if blank(name) {
        Some("Workflow names must be non-empty"@)
    } else if blank_field(w.package) {
        Some("Workflow '"@ + name + "' has an empty package field"@)
    } else if blank_field(w.bin) {
        Some("Workflow '"@ + name + "' has an empty bin field"@)
    } else if w.manifest_path is Some && !existing.contains(join_path_text(dir, w.manifest_path->0@)) {
        Some(
            "Workflow '"@ + name + "' references manifest_path '"@ + w.manifest_path->0@
                + "', but that file does not exist."@,
        )
    } else if w.working_dir is Some && !existing.contains(join_path_text(dir, w.working_dir->0@)) {
        Some(
            "Workflow '"@ + name + "' references working_dir '"@ + w.working_dir->0@
                + "', but that directory does not exist."@,
        )
    } else {
        None
    }
}

/// The first problem among the entries, in order.
pub open spec fn first_problem(ws: Seq<(String, WorkflowConfig)>, dir: Seq<char>, existing: Seq<Seq<char>>) -> Option<Seq<char>>
    decreases ws.len(),
{
    if ws.len() == 0 {
        None
    } else {
        match first_problem(ws.drop_last(), dir, existing) {
            Some(e) => Some(e),
            None => workflow_problem(ws.last().0@, ws.last().1, dir, existing),
        }
    }
}

/// What validating a manifest reports: no workflows, or the first problem of an entry.
pub open spec fn manifest_problem(ws: Seq<(String, WorkflowConfig)>, dir: Seq<char>, existing: Seq<Seq<char>>) -> Option<Seq<char>> {
    if ws.len() == 0 {
        Some("runkernel.toml must define at least one [workflow.<name>] entry"@)
    } else {
        first_problem(ws, dir, existing)
    }
}

/// The paths the manifest refers to, resolved against its directory, in entry order: each
/// entry's manifest path, then its working directory.
pub open spec fn referenced_paths_text(ws: Seq<(String, WorkflowConfig)>, dir: Seq<char>) -> Seq<Seq<char>>
    decreases ws.len(),
{
    if ws.len() == 0 {
        Seq::empty()
    } else {
        let w = ws.last().1;
        referenced_paths_text(ws.drop_last(), dir) + (match w.manifest_path {
            Some(p) => seq![join_path_text(dir, p@)],
            None => Seq::empty(),
        }) + (match w.working_dir {
            Some(p) => seq![join_path_text(dir, p@)],
            None => Seq::empty(),
        })
    }
}

/// The paths whose existence `validate_manifest` needs to know.
pub fn referenced_paths(manifest: &RunkernelManifest, config_dir: &str) -> (res: Vec<String>)
    ensures
        strs(res@) == referenced_paths_text(manifest.workflow@, config_dir@),
{
    let mut out: Vec<String> = Vec::new();
    let mut i: usize = 0;
    assert(manifest.workflow@.take(0) =~= Seq::<(String, WorkflowConfig)>::empty());
    while i < manifest.workflow.len()
        invariant
            i <= manifest.workflow@.len(),
            strs(out@) == referenced_paths_text(manifest.workflow@.take(i as int), config_dir@),
        decreases manifest.workflow@.len() - i,
    {
        let w = &manifest.workflow[i].1;
        let ghost before = strs(out@);
        let ghost t = manifest.workflow@.take(i + 1);
        proof {
            assert(t.drop_last() =~= manifest.workflow@.take(i as int));
        }
        match &w.manifest_path {
            Some(p) => {
                out.push(join_path(config_dir, p.as_str()));
            },
            None => {},
        }
        let ghost mid = strs(out@);
        match &w.working_dir {
            Some(p) => {
                out.push(join_path(config_dir, p.as_str()));
            },
            None => {},
        }
        proof {
            assert(mid =~= before + (match w.manifest_path {
                Some(p) => seq![join_path_text(config_dir@, p@)],
                None => Seq::<Seq<char>>::empty(),
            }));
            assert(strs(out@) =~= mid + (match w.working_dir {
                Some(p) => seq![join_path_text(config_dir@, p@)],
                None => Seq::<Seq<char>>::empty(),
            }));
        }
        i = i + 1;
    }
    assert(manifest.workflow@.take(manifest.workflow@.len() as int) =~= manifest.workflow@);
    out
}

fn contains_text(v: &Vec<String>, s: &str) -> (r: bool)
    ensures
        r == strs(v@).contains(s@),
{
    let mut i: usize = 0;
    while i < v.len()
        invariant
            i <= v@.len(),
            forall|k: int| 0 <= k < i ==> strs(v@)[k] != s@,
        decreases v@.len() - i,
    {
        if str_eq(v[i].as_str(), s) {
            assert(strs(v@)[i as int] == s@);
            return true;
        }
        i = i + 1;
    }
    false
}

fn check_workflow(name: &str, w: &WorkflowConfig, config_dir: &str, existing: &Vec<String>) -> (res: Result<(), String>)
    ensures
        match workflow_problem(name@, *w, config_dir@, strs(existing@)) {
            Some(e) => res matches Err(m) && m@ == e,
            None => res is Ok,
        },
{
    if is_blank(name) {
        return Err(str_to_string("Workflow names must be non-empty"));
    }
    let blank_package = match &w.package {
        Some(v) => is_blank(v.as_str()),
        None => false,
    };
    if blank_package {
        let mut m = str_to_string("Workflow '");
        push_text(&mut m, name);
        push_text(&mut m, "' has an empty package field");
        return Err(m);
    }
    let blank_bin = match &w.bin {
        Some(v) => is_blank(v.as_str()),
        None => false,
    };
    if blank_bin {
        let mut m = str_to_string("Workflow '");
        push_text(&mut m, name);
        push_text(&mut m, "' has an empty bin field");
        return Err(m);
    }
    match &w.manifest_path {
        Some(p) => {
            let full = join_path(config_dir, p.as_str());
            if !contains_text(existing, full.as_str()) {
                let mut m = str_to_string("Workflow '");
                push_text(&mut m, name);
                push_text(&mut m, "' references manifest_path '");
                push_text(&mut m, p.as_str());
                push_text(&mut m, "', but that file does not exist.");
                return Err(m);
            }
        },
        None => {},
    }
    match &w.working_dir {
        Some(p) => {
            let full = join_path(config_dir, p.as_str());
            if !contains_text(existing, full.as_str()) {
                let mut m = str_to_string("Workflow '");
                push_text(&mut m, name);
                push_text(&mut m, "' references working_dir '");
                push_text(&mut m, p.as_str());
                push_text(&mut m, "', but that directory does not exist.");
                return Err(m);
            }
        },
        None => {},
    }
    Ok(())
}

/// Checks the manifest: it defines a workflow, names are not blank, package and bin are not
/// blank, and the referenced paths are among `existing`; the first problem is the error.
pub fn validate_manifest(manifest: &RunkernelManifest, config_dir: &str, existing: &Vec<String>) -> (res: Result<(), String>)
    ensures
        match manifest_problem(manifest.workflow@, config_dir@, strs(existing@)) {
            Some(e) => res matches Err(m) && m@ == e,
            None => res is Ok,
        },
{
    if manifest.workflow.len() == 0 {
        return Err(str_to_string("runkernel.toml must define at least one [workflow.<name>] entry"));
    }
    let mut i: usize = 0;
    assert(manifest.workflow@.take(0) =~= Seq::<(String, WorkflowConfig)>::empty());
    while i < manifest.workflow.len()
        invariant
            i <= manifest.workflow@.len(),
            first_problem(manifest.workflow@.take(i as int), config_dir@, strs(existing@)) is None,
        decreases manifest.workflow@.len() - i,
    {
        let ghost t = manifest.workflow@.take(i + 1);
        proof {
            assert(t.drop_last() =~= manifest.workflow@.take(i as int));
        }
        match check_workflow(manifest.workflow[i].0.as_str(), &manifest.workflow[i].1, config_dir, existing) {
            Err(e) => {
                proof {
                    lemma_first_problem_stays(manifest.workflow@, i as int, config_dir@, strs(existing@));
                }
                return Err(e);
            },
            Ok(()) => {},
        }
        i = i + 1;
    }
    assert(manifest.workflow@.take(manifest.workflow@.len() as int) =~= manifest.workflow@);
    Ok(())
}

proof fn lemma_first_problem_stays(ws: Seq<(String, WorkflowConfig)>, i: int, dir: Seq<char>, existing: Seq<Seq<char>>)
    requires
        0 <= i < ws.len(),
        first_problem(ws.take(i + 1), dir, existing) is Some,
    ensures
        first_problem(ws, dir, existing) == first_problem(ws.take(i + 1), dir, existing),
    decreases ws.len() - i,
{
    if i + 1 < ws.len() {
        assert(ws.drop_last().take(i + 1) =~= ws.take(i + 1));
        lemma_first_problem_stays(ws.drop_last(), i, dir, existing);
    } else {
        assert(ws.take(i + 1) =~= ws);
    }
}

// ---------------------------------------------------------------------------------------------
// Selection.

/// The names of the workflows.
pub open spec fn workflow_names(ws: Seq<(String, WorkflowConfig)>) -> Seq<Seq<char>> {
    ws.map_values(|e: (String, WorkflowConfig)| e.0@)
}

/// The workflow names, one per line after the first, indented by two spaces.
pub open spec fn available_text(ws: Seq<(String, WorkflowConfig)>) -> Seq<char> {
    join_text(workflow_names(ws), "\n  "@)
}

/// The names of the manifest's workflows, joined for an error message.
pub fn available_workflows(manifest: &RunkernelManifest) -> (res: String)
    ensures
        res@ == available_text(manifest.workflow@),
{
    let mut names: Vec<String> = Vec::new();
    let mut i: usize = 0;
    while i < manifest.workflow.len()
        invariant
            i <= manifest.workflow@.len(),
            strs(names@) == workflow_names(manifest.workflow@).take(i as int),
        decreases manifest.workflow@.len() - i,
    {
        let ghost before = names@;
        names.push(str_to_string(manifest.workflow[i].0.as_str()));
        assert(names@ == before.push(names@.last()));
        assert(strs(names@) =~= strs(before).push(manifest.workflow@[i as int].0@));
        assert(workflow_names(manifest.workflow@).take(i + 1) =~= workflow_names(manifest.workflow@).take(
            i as int,
        ).push(manifest.workflow@[i as int].0@));
        i = i + 1;
    }
    assert(workflow_names(manifest.workflow@).take(manifest.workflow@.len() as int) =~= workflow_names(
        manifest.workflow@,
    ));
    join_strings(&names, "\n  ")
}

/// `i` is the first entry with the name.
pub open spec fn first_named(ws: Seq<(String, WorkflowConfig)>, name: Seq<char>, i: int) -> bool {
    &&& 0 <= i < ws.len()
    &&& ws[i].0@ == name
    &&& forall|j: int| 0 <= j < i ==> ws[j].0@ != name
}

/// Some entry has the name.
pub open spec fn has_named(ws: Seq<(String, WorkflowConfig)>, name: Seq<char>) -> bool {
    exists|j: int| 0 <= j < ws.len() && ws[j].0@ == name
}

fn find_named(manifest: &RunkernelManifest, name: &str) -> (res: Option<usize>)
    ensures
        match res {
            Some(i) => first_named(manifest.workflow@, name@, i as int),
            None => !has_named(manifest.workflow@, name@),
        },
{
    let mut i: usize = 0;
    while i < manifest.workflow.len()
        invariant
            i <= manifest.workflow@.len(),
            forall|j: int| 0 <= j < i ==> manifest.workflow@[j].0@ != name@,
        decreases manifest.workflow@.len() - i,
    {
        if str_eq(manifest.workflow[i].0.as_str(), name) {
            return Some(i);
        }
        i = i + 1;
    }
    None
}

/// `w` is the configuration of the first entry with the name.
pub open spec fn entry_selected(ws: Seq<(String, WorkflowConfig)>, name: Seq<char>, w: WorkflowConfig) -> bool {
    exists|i: int| #[trigger] first_named(ws, name, i) && w == ws[i].1
}

/// Which workflow a command runs: the requested one; else the only one; else `default`.
pub open spec fn selection(ws: Seq<(String, WorkflowConfig)>, requested: Option<Seq<char>>) -> Result<Seq<char>, Seq<char>> {
    match requested {
        Some(name) => if has_named(ws, name) {
            Ok(name)
        } else {
            Err("Unknown workflow '"@ + name + "'.\n\nAvailable workflows:\n  "@ + available_text(ws))
        },
        None => if ws.len() == 1 {
            Ok(ws[0].0@)
        } else if has_named(ws, "default"@) {
            Ok("default"@)
        } else {
            Err(
                "No workflow selected.\n\nThis project defines multiple workflows:\n  "@ + available_text(ws)
                    + "\n\nUse:\n  runkernel run --workflow <name> <task>"@,
            )
        },
    }
}

/// The selected workflow's name and configuration (the first entry with that name), or why
/// none is selected.
pub fn select_workflow<'a>(manifest: &'a RunkernelManifest, requested: Option<&str>) -> (res: Result<(&'a str, &'a WorkflowConfig), String>)
    requires
        manifest.in_order(),
    ensures
        match selection(manifest.workflow@, match requested {
            Some(r) => Some(r@),
            None => None,
        }) {
            Ok(name) => res matches Ok((n, w)) && n@ == name && entry_selected(manifest.workflow@, name, *w),
            Err(e) => res matches Err(m) && m@ == e,
        },
{
    match requested {
        Some(name) => match find_named(manifest, name) {
            Some(i) => {
                assert(manifest.workflow@[i as int].0@ == name@);
                assert(has_named(manifest.workflow@, name@));
                assert(first_named(manifest.workflow@, name@, i as int));
                assert(entry_selected(manifest.workflow@, name@, manifest.workflow@[i as int].1));
                Ok((manifest.workflow[i].0.as_str(), &manifest.workflow[i].1))
            },
            None => {
                let mut m = str_to_string("Unknown workflow '");
                push_text(&mut m, name);
                push_text(&mut m, "'.\n\nAvailable workflows:\n  ");
                let a = available_workflows(manifest);
                push_text(&mut m, a.as_str());
                Err(m)
            },
        },
        None => {
            if manifest.workflow.len() == 1 {
                assert(first_named(manifest.workflow@, manifest.workflow@[0].0@, 0));
                let n = manifest.workflow[0].0.as_str();
                let w = &manifest.workflow[0].1;
                assert(n@ == manifest.workflow@[0].0@);
                assert(*w == manifest.workflow@[0].1);
                assert(requested is None);
                assert(entry_selected(manifest.workflow@, n@, *w));
                return Ok((n, w));
            }
            match find_named(manifest, "default") {
                Some(i) => {
                    assert(manifest.workflow@[i as int].0@ == "default"@);
                    assert(has_named(manifest.workflow@, "default"@));
                    assert(first_named(manifest.workflow@, "default"@, i as int));
                    assert(entry_selected(manifest.workflow@, "default"@, manifest.workflow@[i as int].1));
                    Ok((manifest.workflow[i].0.as_str(), &manifest.workflow[i].1))
                },
                None => {
                    let mut m = str_to_string("No workflow selected.\n\nThis project defines multiple workflows:\n  ");
                    let a = available_workflows(manifest);
                    push_text(&mut m, a.as_str());
                    push_text(&mut m, "\n\nUse:\n  runkernel run --workflow <name> <task>");
                    Err(m)
                },
            }
        },
    }
}

/// The configuration resolved against the manifest's directory: the Cargo manifest defaults
/// to `Cargo.toml`, the working directory to the manifest's directory.
pub open spec fn resolves(r: ResolvedWorkflow, dir: Seq<char>, name: Seq<char>, w: WorkflowConfig) -> bool {
    &&& r.name@ == name
    &&& opt_view(r.package) == opt_view(w.package)
    &&& opt_view(r.bin) == opt_view(w.bin)
    &&& r.manifest_path@ == join_path_text(dir, match w.manifest_path {
        Some(p) => p@,
        None => "Cargo.toml"@,
    })
    &&& r.working_dir@ == match w.working_dir {
        Some(p) => join_path_text(dir, p@),
        None => dir,
    }
    &&& opt_view(r.default_task) == opt_view(w.default_task)
    &&& opt_view(r.description) == opt_view(w.description)
}

fn copy_opt(o: &Option<String>) -> (res: Option<String>)
    ensures
        opt_view(res) == opt_view(*o),
{
    match o {
        Some(s) => Some(str_to_string(s.as_str())),
        None => None,
    }
}

/// The workflow with its paths resolved.
pub fn resolve_workflow(config_dir: &str, name: &str, workflow: &WorkflowConfig) -> (res: Result<ResolvedWorkflow, String>)
    ensures
        res matches Ok(r) && resolves(r, config_dir@, name@, *workflow),
{
    let manifest_path = match &workflow.manifest_path {
        Some(p) => join_path(config_dir, p.as_str()),
        None => join_path(config_dir, "Cargo.toml"),
    };
    let working_dir = match &workflow.working_dir {
        Some(p) => join_path(config_dir, p.as_str()),
        None => str_to_string(config_dir),
    };
    Ok(
        ResolvedWorkflow {
            name: str_to_string(name),
            package: copy_opt(&workflow.package),
            bin: copy_opt(&workflow.bin),
            manifest_path,
            working_dir,
            default_task: copy_opt(&workflow.default_task),
            description: copy_opt(&workflow.description),
        },
    )
}

/// The workflow a command runs: the manifest is validated, a workflow selected and resolved.
pub fn selected_workflow(cli: &Cli, manifest: &RunkernelManifest, config_dir: &str, existing: &Vec<String>) -> (res: Result<ResolvedWorkflow, String>)
    requires
        manifest.in_order(),
    ensures
        match manifest_problem(manifest.workflow@, config_dir@, strs(existing@)) {
            Some(e) => res matches Err(m) && m@ == e,
            None => match selection(manifest.workflow@, opt_view(cli.workflow)) {
                Err(e) => res matches Err(m) && m@ == e,
                Ok(name) => res matches Ok(r) && exists|i: int| first_named(manifest.workflow@, name, i) && resolves(
                    r,
                    config_dir@,
                    name,
                    manifest.workflow@[i].1,
                ),
            },
        },
{
    match validate_manifest(manifest, config_dir, existing) {
        Err(e) => return Err(e),
        Ok(()) => {},
    }
    let requested = match &cli.workflow {
        Some(w) => Some(w.as_str()),
        None => None,
    };
    match select_workflow(manifest, requested) {
        Err(e) => Err(e),
        Ok((name, w)) => resolve_workflow(config_dir, name, w),
    }
}

// ---------------------------------------------------------------------------------------------
// The Cargo invocation.

/// A process to start: the program, its working directory and its arguments.
#[derive(Clone, Debug)]
pub struct CargoCommand {
    pub program: String,
    pub current_dir: String,
    pub args: Vec<String>,
}

/// The flag when the condition holds.
pub open spec fn flag_if(b: bool, flag: Seq<char>) -> Seq<Seq<char>> {
    if b {
        seq![flag]
    } else {
        Seq::empty()
    }
}

/// The flag and the value when there is one.
pub open spec fn flag_with(o: Option<String>, flag: Seq<char>) -> Seq<Seq<char>> {
    match o {
        Some(v) => seq![flag, v@],
        None => Seq::empty(),
    }
}

/// The arguments of `cargo run` for a workflow and the protocol arguments after `--`.
pub open spec fn cargo_args(workflow: ResolvedWorkflow, protocol_args: Seq<Seq<char>>, cli: Cli) -> Seq<Seq<char>> {
    seq!["run"@] + flag_if(!cli.verbose, "--quiet"@) + flag_if(cli.release, "--release"@) + flag_with(
        cli.features,
        "--features"@,
    ) + flag_if(cli.all_features, "--all-features"@) + flag_if(cli.no_default_features, "--no-default-features"@)
        + seq!["--manifest-path"@, workflow.manifest_path@] + flag_with(workflow.package, "--package"@)
        + flag_with(workflow.bin, "--bin"@) + seq!["--"@] + protocol_args
}

/// `x` is directly followed by `y` somewhere in `s`.
pub open spec fn has_pair(s: Seq<Seq<char>>, x: Seq<char>, y: Seq<char>) -> bool {
    exists|j: int| 0 <= j < s.len() - 1 && #[trigger] s[j] == x && s[j + 1] == y
}

proof fn lemma_contains_concat(x: Seq<Seq<char>>, y: Seq<Seq<char>>, e: Seq<char>)
    ensures
        x.contains(e) ==> (x + y).contains(e),
        y.contains(e) ==> (x + y).contains(e),
{
    if x.contains(e) {
        let i = choose|i: int| 0 <= i < x.len() && x[i] == e;
        assert((x + y)[i] == e);
    }
    if y.contains(e) {
        let i = choose|i: int| 0 <= i < y.len() && y[i] == e;
        assert((x + y)[x.len() + i] == e);
    }
}

proof fn lemma_pair_concat(x: Seq<Seq<char>>, y: Seq<Seq<char>>, a: Seq<char>, b: Seq<char>)
    ensures
        has_pair(x, a, b) ==> has_pair(x + y, a, b),
        has_pair(y, a, b) ==> has_pair(x + y, a, b),
{
    if has_pair(x, a, b) {
        let j = choose|j: int| 0 <= j < x.len() - 1 && #[trigger] x[j] == a && x[j + 1] == b;
        assert((x + y)[j] == a && (x + y)[j + 1] == b);
    }
    if has_pair(y, a, b) {
        let j = choose|j: int| 0 <= j < y.len() - 1 && #[trigger] y[j] == a && y[j + 1] == b;
        assert((x + y)[x.len() + j] == a && (x + y)[x.len() + j + 1] == b);
    }
}

proof fn lemma_first_concat(x: Seq<Seq<char>>, y: Seq<Seq<char>>)
    requires
        x.len() > 0,
    ensures
        (x + y)[0] == x[0],
{
}

proof fn lemma_separated(pre: Seq<Seq<char>>, rest: Seq<Seq<char>>)
    ensures
        ({
            let a = pre + seq!["--"@] + rest;
            &&& a.len() - rest.len() - 1 == pre.len()
            &&& a.take(pre.len() as int) == pre
            &&& a[pre.len() as int] == "--"@
            &&& a.skip(pre.len() as int + 1) == rest
        }),
{
    let a = pre + seq!["--"@] + rest;
    assert(a.take(pre.len() as int) =~= pre);
    assert(a.skip(pre.len() as int + 1) =~= rest);
}

/// The arguments of `cargo run` carry the command line's choices: they start with `run`, end
/// with `--` and the protocol arguments, and before `--` hold `--quiet` unless verbose,
/// `--release`, `--features` with its value, `--all-features` and `--no-default-features` when
/// asked for, the manifest path after `--manifest-path`, and the package and binary after
/// `--package` and `--bin` when the workflow names them.
pub proof fn lemma_cargo_args_carry_flags(workflow: ResolvedWorkflow, protocol_args: Seq<Seq<char>>, cli: Cli)
    ensures
        ({
            let a = cargo_args(workflow, protocol_args, cli);
            let k = a.len() - protocol_args.len() - 1;
            let before = a.take(k);
            &&& k >= 3
            &&& a[0] == "run"@
            &&& a[k] == "--"@
            &&& a.skip(k + 1) == protocol_args
            &&& (!cli.verbose ==> before.contains("--quiet"@))
            &&& (cli.release ==> before.contains("--release"@))
            &&& (cli.all_features ==> before.contains("--all-features"@))
            &&& (cli.no_default_features ==> before.contains("--no-default-features"@))
            &&& (cli.features matches Some(f) ==> has_pair(before, "--features"@, f@))
            &&& has_pair(before, "--manifest-path"@, workflow.manifest_path@)
            &&& (workflow.package matches Some(p) ==> has_pair(before, "--package"@, p@))
            &&& (workflow.bin matches Some(b) ==> has_pair(before, "--bin"@, b@))
        }),
{
    let s0 = seq!["run"@];
    let s1 = flag_if(!cli.verbose, "--quiet"@);
    let s2 = flag_if(cli.release, "--release"@);
    let s3 = flag_with(cli.features, "--features"@);
    let s4 = flag_if(cli.all_features, "--all-features"@);
    let s5 = flag_if(cli.no_default_features, "--no-default-features"@);
    let s6 = seq!["--manifest-path"@, workflow.manifest_path@];
    let s7 = flag_with(workflow.package, "--package"@);
    let s8 = flag_with(workflow.bin, "--bin"@);
    let p1 = s0 + s1;
    let p2 = p1 + s2;
    let p3 = p2 + s3;
    let p4 = p3 + s4;
    let p5 = p4 + s5;
    let p6 = p5 + s6;
    let p7 = p6 + s7;
    let pre = p7 + s8;
    lemma_separated(pre, protocol_args);
    lemma_first_concat(s0, s1);
    lemma_first_concat(p1, s2);
    lemma_first_concat(p2, s3);
    lemma_first_concat(p3, s4);
    lemma_first_concat(p4, s5);
    lemma_first_concat(p5, s6);
    lemma_first_concat(p6, s7);
    lemma_first_concat(p7, s8);
    lemma_first_concat(pre, seq!["--"@]);
    lemma_first_concat(pre + seq!["--"@], protocol_args);
    assert(s1.len() > 0 ==> s1.contains("--quiet"@)) by {
        if s1.len() > 0 {
            assert(s1[0] == "--quiet"@);
        }
    }
    assert(s2.len() > 0 ==> s2.contains("--release"@)) by {
        if s2.len() > 0 {
            assert(s2[0] == "--release"@);
        }
    }
    assert(s4.len() > 0 ==> s4.contains("--all-features"@)) by {
        if s4.len() > 0 {
            assert(s4[0] == "--all-features"@);
        }
    }
    assert(s5.len() > 0 ==> s5.contains("--no-default-features"@)) by {
        if s5.len() > 0 {
            assert(s5[0] == "--no-default-features"@);
        }
    }
    if let Some(f) = cli.features {
        assert(has_pair(s3, "--features"@, f@)) by {
            assert(s3[0] == "--features"@ && s3[1] == f@);
        }
    }
    assert(has_pair(s6, "--manifest-path"@, workflow.manifest_path@)) by {
        assert(s6[0] == "--manifest-path"@ && s6[1] == workflow.manifest_path@);
    }
    if let Some(p) = workflow.package {
        assert(has_pair(s7, "--package"@, p@)) by {
            assert(s7[0] == "--package"@ && s7[1] == p@);
        }
    }
    if let Some(b) = workflow.bin {
        assert(has_pair(s8, "--bin"@, b@)) by {
            assert(s8[0] == "--bin"@ && s8[1] == b@);
        }
    }
    let q = "--quiet"@;
    lemma_contains_concat(s0, s1, q);
    lemma_contains_concat(p1, s2, q);
    lemma_contains_concat(p2, s3, q);
    lemma_contains_concat(p3, s4, q);
    lemma_contains_concat(p4, s5, q);
    lemma_contains_concat(p5, s6, q);
    lemma_contains_concat(p6, s7, q);
    lemma_contains_concat(p7, s8, q);
    let r = "--release"@;
    lemma_contains_concat(p1, s2, r);
    lemma_contains_concat(p2, s3, r);
    lemma_contains_concat(p3, s4, r);
    lemma_contains_concat(p4, s5, r);
    lemma_contains_concat(p5, s6, r);
    lemma_contains_concat(p6, s7, r);
    lemma_contains_concat(p7, s8, r);
    let al = "--all-features"@;
    lemma_contains_concat(p3, s4, al);
    lemma_contains_concat(p4, s5, al);
    lemma_contains_concat(p5, s6, al);
    lemma_contains_concat(p6, s7, al);
    lemma_contains_concat(p7, s8, al);
    let nd = "--no-default-features"@;
    lemma_contains_concat(p4, s5, nd);
    lemma_contains_concat(p5, s6, nd);
    lemma_contains_concat(p6, s7, nd);
    lemma_contains_concat(p7, s8, nd);
    if let Some(f) = cli.features {
        let x = "--features"@;
        lemma_pair_concat(p2, s3, x, f@);
        lemma_pair_concat(p3, s4, x, f@);
        lemma_pair_concat(p4, s5, x, f@);
        lemma_pair_concat(p5, s6, x, f@);
        lemma_pair_concat(p6, s7, x, f@);
        lemma_pair_concat(p7, s8, x, f@);
    }
    let m = "--manifest-path"@;
    lemma_pair_concat(p5, s6, m, workflow.manifest_path@);
    lemma_pair_concat(p6, s7, m, workflow.manifest_path@);
    lemma_pair_concat(p7, s8, m, workflow.manifest_path@);
    if let Some(p) = workflow.package {
        lemma_pair_concat(p6, s7, "--package"@, p@);
        lemma_pair_concat(p7, s8, "--package"@, p@);
    }
    if let Some(b) = workflow.bin {
        lemma_pair_concat(p7, s8, "--bin"@, b@);
    }
}

fn push_arg(args: &mut Vec<String>, a: &str)
    ensures
        strs(final(args)@) == strs(old(args)@).push(a@),
{
    args.push(str_to_string(a));
    assert(strs(args@) =~= strs(old(args)@).push(a@));
}

fn push_flag_with(args: &mut Vec<String>, o: &Option<String>, flag: &str)
    ensures
        strs(final(args)@) == strs(old(args)@) + flag_with(*o, flag@),
{
    match o {
        Some(v) => {
            push_arg(args, flag);
            push_arg(args, v.as_str());
        },
        None => {},
    }
    assert(strs(args@) =~= strs(old(args)@) + flag_with(*o, flag@));
}

fn push_flag_if(args: &mut Vec<String>, b: bool, flag: &str)
    ensures
        strs(final(args)@) == strs(old(args)@) + flag_if(b, flag@),
{
    if b {
        push_arg(args, flag);
    }
    assert(strs(args@) =~= strs(old(args)@) + flag_if(b, flag@));
}

/// `cargo run` in the workflow's working directory, with the build flags of the command line,
/// the workflow's manifest, package and binary, and the protocol arguments after `--`.
pub fn build_cargo_command(workflow: &ResolvedWorkflow, protocol_args: &[String], cli: &Cli) -> (res: CargoCommand)
    ensures
        res.program@ == "cargo"@,
        res.current_dir@ == workflow.working_dir@,
        strs(res.args@) == cargo_args(*workflow, strs(protocol_args@), *cli),
{
    let mut args: Vec<String> = Vec::new();
    push_arg(&mut args, "run");
    assert(strs(args@) =~= seq!["run"@]);
    push_flag_if(&mut args, !cli.verbose, "--quiet");
    push_flag_if(&mut args, cli.release, "--release");
    push_flag_with(&mut args, &cli.features, "--features");
    push_flag_if(&mut args, cli.all_features, "--all-features");
    push_flag_if(&mut args, cli.no_default_features, "--no-default-features");
    let ghost before = strs(args@);
    push_arg(&mut args, "--manifest-path");
    push_arg(&mut args, workflow.manifest_path.as_str());
    assert(strs(args@) =~= before + seq!["--manifest-path"@, workflow.manifest_path@]);
    push_flag_with(&mut args, &workflow.package, "--package");
    push_flag_with(&mut args, &workflow.bin, "--bin");
    let ghost before2 = strs(args@);
    push_arg(&mut args, "--");
    assert(strs(args@) =~= before2 + seq!["--"@]);
    let ghost before3 = strs(args@);
    let mut i: usize = 0;
    while i < protocol_args.len()
        invariant
            i <= protocol_args@.len(),
            strs(args@) == before3 + strs(protocol_args@).take(i as int),
        decreases protocol_args@.len() - i,
    {
        push_arg(&mut args, protocol_args[i].as_str());
        assert(strs(protocol_args@).take(i + 1) =~= strs(protocol_args@).take(i as int).push(
            protocol_args@[i as int]@,
        ));
        i = i + 1;
    }
    assert(strs(protocol_args@).take(protocol_args@.len() as int) =~= strs(protocol_args@));
    CargoCommand {
        program: str_to_string("cargo"),
        current_dir: str_to_string(workflow.working_dir.as_str()),
        args,
    }
}

/// The protocol arguments of `runkernel run`: the task (else the workflow's default task), then
/// the forwarded arguments after `--` when there are any.
pub open spec fn run_protocol_args_text(task: Option<Seq<char>>, args: Seq<Seq<char>>) -> Seq<Seq<char>> {
    seq!["__runkernel"@, "run"@] + (match task {
        Some(t) => seq![t],
        None => Seq::empty(),
    }) + (if args.len() == 0 {
        Seq::empty()
    } else {
        seq!["--"@] + args
    })
}

/// The task `runkernel run` asks for: the one given, else the workflow's default task.
pub open spec fn run_task_choice(task: Option<String>, workflow: ResolvedWorkflow) -> Option<Seq<char>> {
    match task {
        Some(t) => Some(t@),
        None => opt_view(workflow.default_task),
    }
}

/// The protocol arguments that run a task of the workflow.
pub fn run_protocol_args(task: &Option<String>, args: &Vec<String>, workflow: &ResolvedWorkflow) -> (res: Vec<String>)
    ensures
        strs(res@) == run_protocol_args_text(run_task_choice(*task, *workflow), strs(args@)),
{
    let mut out: Vec<String> = Vec::new();
    push_arg(&mut out, "__runkernel");
    push_arg(&mut out, "run");
    assert(strs(out@) =~= seq!["__runkernel"@, "run"@]);
    let chosen = match task {
        Some(t) => Some(t.as_str()),
        None => match &workflow.default_task {
            Some(d) => Some(d.as_str()),
            None => None,
        },
    };
    let ghost head = strs(out@);
    match chosen {
        Some(t) => push_arg(&mut out, t),
        None => {},
    }
    assert(strs(out@) =~= head + (match run_task_choice(*task, *workflow) {
        Some(t) => seq![t],
        None => Seq::<Seq<char>>::empty(),
    }));
    if args.len() > 0 {
        let ghost before = strs(out@);
        push_arg(&mut out, "--");
        let mut i: usize = 0;
        while i < args.len()
            invariant
                i <= args@.len(),
                strs(out@) == before + seq!["--"@] + strs(args@).take(i as int),
            decreases args@.len() - i,
        {
            push_arg(&mut out, args[i].as_str());
            assert(strs(args@).take(i + 1) =~= strs(args@).take(i as int).push(args@[i as int]@));
            i = i + 1;
        }
        assert(strs(args@).take(args@.len() as int) =~= strs(args@));
        assert(strs(out@) =~= before + (seq!["--"@] + strs(args@)));
    } else {
        assert(strs(out@) =~= strs(out@) + Seq::<Seq<char>>::empty());
    }
    out
}

/// The exit status of a finished process: its code, or 1 when it has none.
pub fn exit_code(code: Option<i32>) -> (res: i32)
    ensures
        res == match code {
            Some(c) => c,
            None => 1i32,
        },
{
    match code {
        Some(c) => c,
        None => 1,
    }
}

// ---------------------------------------------------------------------------------------------
// Commands that do not run a workflow.

/// The lines of `runkernel workflows`.
pub open spec fn workflow_lines(ws: Seq<(String, WorkflowConfig)>) -> Seq<char>
    decreases ws.len(),
{
    if ws.len() == 0 {
        Seq::empty()
    } else {
        workflow_lines(ws.drop_last()) + "\n  "@ + ws.last().0@ + match ws.last().1.description {
            Some(d) => "  "@ + d@,
            None => Seq::empty(),
        }
    }
}

/// The workflows, one per line with their descriptions.
pub fn format_workflows(manifest: &RunkernelManifest) -> (res: String)
    ensures
        res@ == "Workflows:"@ + workflow_lines(manifest.workflow@),
{
    let mut out = str_to_string("Workflows:");
    let ghost head = out@;
    let mut i: usize = 0;
    assert(manifest.workflow@.take(0) =~= Seq::<(String, WorkflowConfig)>::empty());
    assert(out@ =~= head + workflow_lines(manifest.workflow@.take(0)));
    while i < manifest.workflow.len()
        invariant
            i <= manifest.workflow@.len(),
            out@ == head + workflow_lines(manifest.workflow@.take(i as int)),
            head == "Workflows:"@,
        decreases manifest.workflow@.len() - i,
    {
        let ghost before = out@;
        push_text(&mut out, "\n  ");
        push_text(&mut out, manifest.workflow[i].0.as_str());
        match &manifest.workflow[i].1.description {
            Some(d) => {
                push_text(&mut out, "  ");
                push_text(&mut out, d.as_str());
            },
            None => {},
        }
        proof {
            let s = manifest.workflow@.take(i + 1);
            assert(s.drop_last() =~= manifest.workflow@.take(i as int));
            assert(out@ =~= head + workflow_lines(s));
        }
        i = i + 1;
    }
    assert(manifest.workflow@.take(manifest.workflow@.len() as int) =~= manifest.workflow@);
    out
}

/// The text of a new manifest.
pub open spec fn init_content() -> Seq<char> {
    "[workflow.default]\npackage = \"ops\"\nbin = \"ops\"\nmanifest_path = \"examples/ops/Cargo.toml\"\nworking_dir = \".\"\ndefault_task = \"deploy-edge\"\ndescription = \"Example ops workflow\"\n"@
}

/// The manifest to write, unless one exists already.
pub fn init_config(exists: bool) -> (res: Result<String, String>)
    ensures
        exists ==> (res matches Err(e) && e@ == "runkernel.toml already exists; refusing to overwrite it."@),
        !exists ==> (res matches Ok(c) && c@ == init_content()),
{
    if exists {
        Err(str_to_string("runkernel.toml already exists; refusing to overwrite it."))
    } else {
        Ok(
            str_to_string(
                "[workflow.default]\npackage = \"ops\"\nbin = \"ops\"\nmanifest_path = \"examples/ops/Cargo.toml\"\nworking_dir = \".\"\ndefault_task = \"deploy-edge\"\ndescription = \"Example ops workflow\"\n",
            ),
        )
    }
}

/// The report of a cache command; `root_exists` says whether the cache root was there (for
/// `Clean`, before it was removed).
pub fn run_cache_command(command: CacheCommand, manager: &CacheManager, root_exists: bool) -> (res: CliOutcome)
    ensures
        res.exit_code == 0,
        command == CacheCommand::Clean ==> res.output@ == (if root_exists {
            "Removed"@
        } else {
            "No cache found at"@
        }) + " cache path: "@ + manager.spec_root(),
        command == CacheCommand::Status ==> res.output@ == "Cache root: "@ + manager.spec_root() + "\nExists: "@
            + (if root_exists {
            "true"@
        } else {
            "false"@
        }),
{
    match command {
        CacheCommand::Clean => {
            let result: CacheCleanResult = manager.clean_all(root_exists);
            let mut out = if result.removed {
                str_to_string("Removed")
            } else {
                str_to_string("No cache found at")
            };
            push_text(&mut out, " cache path: ");
            push_text(&mut out, result.path.as_str());
            CliOutcome::success(out)
        },
        CacheCommand::Status => {
            let mut out = str_to_string("Cache root: ");
            let root = manager.cache_root();
            push_text(&mut out, root.as_str());
            push_text(&mut out, "\nExists: ");
            push_text(&mut out, if root_exists { "true" } else { "false" });
            CliOutcome::success(out)
        },
    }
}

// ---------------------------------------------------------------------------------------------
// Dispatch.

/// What a workflow's JSON answer is, and so how to render it.
#[derive(Clone, Debug)]
pub enum JsonRequest {
    List,
    Graph(GraphFormat),
    Explain,
}

/// What the program does next for a command.
#[derive(Clone, Debug)]
pub enum CliStep {
    /// Create the manifest: call `init_config` with whether it exists, and write what it gives.
    Init,
    /// Clean (remove the cache root if it exists) or inspect the cache, then call
    /// `run_cache_command`.
    Cache(CacheCommand),
    /// Load the manifest (from `--config`, or found from the current directory), check which
    /// of its `referenced_paths` exist, and call `with_manifest`.
    LoadManifest,
    /// The command is done.
    Done(CliOutcome),
    /// First run `metadata` and hand its answer to `check_protocol`; then start the command
    /// with inherited output; its exit status ends the command line.
    RunStatus { workflow: ResolvedWorkflow, metadata: CargoCommand, command: CargoCommand },
    /// First run `metadata` and hand its answer to `check_protocol`; then start the command,
    /// read its output as the JSON answer and render it.
    RunJson { workflow: ResolvedWorkflow, metadata: CargoCommand, command: CargoCommand, request: JsonRequest },
}

/// The first step of a command.
pub fn run_cli(cli: &Cli) -> (res: CliStep)
    ensures
        match cli.command {
            Command::Init => res is Init,
            Command::Cache { command } => res matches CliStep::Cache(c) && c == command,
            _ => res is LoadManifest,
        },
{
    match &cli.command {
        Command::Init => CliStep::Init,
        Command::Cache { command } => CliStep::Cache(*command),
        _ => CliStep::LoadManifest,
    }
}

/// The protocol arguments that ask a workflow for a JSON answer.
pub open spec fn json_args(command: Seq<char>) -> Seq<Seq<char>> {
    seq!["__runkernel"@, command, "--format"@, "json"@]
}

/// The step after the manifest is loaded: `workflows` is answered from it; the other commands
/// run the selected workflow through Cargo.
pub fn with_manifest(cli: &Cli, manifest: &RunkernelManifest, config_dir: &str, existing: &Vec<String>) -> (res: Result<CliStep, String>)
    requires
        manifest.in_order(),
    ensures
        match cli.command {
            Command::Init => res matches Ok(CliStep::Init),
            Command::Cache { command } => res matches Ok(CliStep::Cache(c)) && c == command,
            Command::Workflows => match manifest_problem(manifest.workflow@, config_dir@, strs(existing@)) {
                Some(e) => res matches Err(m) && m@ == e,
                None => res matches Ok(CliStep::Done(o)) && o.exit_code == 0 && o.output@ == "Workflows:"@
                    + workflow_lines(manifest.workflow@),
            },
            _ => match manifest_problem(manifest.workflow@, config_dir@, strs(existing@)) {
                Some(e) => res matches Err(m) && m@ == e,
                None => match selection(manifest.workflow@, opt_view(cli.workflow)) {
                    Err(e) => res matches Err(m) && m@ == e,
                    Ok(name) => exists|i: int| first_named(manifest.workflow@, name, i) && runs_workflow(
                        res,
                        cli.command,
                        *cli,
                        config_dir@,
                        name,
                        manifest.workflow@[i].1,
                    ),
                },
            },
        },
{
    match &cli.command {
        Command::Init => return Ok(CliStep::Init),
        Command::Cache { command } => return Ok(CliStep::Cache(*command)),
        Command::Workflows => {
            return match validate_manifest(manifest, config_dir, existing) {
                Err(e) => Err(e),
                Ok(()) => Ok(CliStep::Done(CliOutcome::success(format_workflows(manifest)))),
            };
        },
        _ => {},
    }
    let workflow = match selected_workflow(cli, manifest, config_dir, existing) {
        Err(e) => return Err(e),
        Ok(w) => w,
    };
    let metadata_args = json_protocol_args("metadata");
    let metadata = build_cargo_command(&workflow, metadata_args.as_slice(), cli);
    match &cli.command {
        Command::Run { task, args } => {
            let protocol = run_protocol_args(task, args, &workflow);
            let command = build_cargo_command(&workflow, protocol.as_slice(), cli);
            Ok(CliStep::RunStatus { workflow, metadata, command })
        },
        Command::List => {
            let protocol = json_protocol_args("list");
            let command = build_cargo_command(&workflow, protocol.as_slice(), cli);
            Ok(CliStep::RunJson { workflow, metadata, command, request: JsonRequest::List })
        },
        Command::Graph { format } => {
            let protocol = json_protocol_args("graph");
            let command = build_cargo_command(&workflow, protocol.as_slice(), cli);
            Ok(CliStep::RunJson { workflow, metadata, command, request: JsonRequest::Graph(*format) })
        },
        Command::Explain { task } => {
            let mut protocol: Vec<String> = Vec::new();
            push_arg(&mut protocol, "__runkernel");
            push_arg(&mut protocol, "explain");
            push_arg(&mut protocol, task.as_str());
            push_arg(&mut protocol, "--format");
            push_arg(&mut protocol, "json");
            assert(strs(protocol@) =~= seq!["__runkernel"@, "explain"@, task@, "--format"@, "json"@]);
            let command = build_cargo_command(&workflow, protocol.as_slice(), cli);
            Ok(CliStep::RunJson { workflow, metadata, command, request: JsonRequest::Explain })
        },
        _ => Ok(CliStep::LoadManifest),
    }
}

fn json_protocol_args(command: &str) -> (res: Vec<String>)
    ensures
        strs(res@) == json_args(command@),
{
    let mut protocol: Vec<String> = Vec::new();
    push_arg(&mut protocol, "__runkernel");
    push_arg(&mut protocol, command);
    push_arg(&mut protocol, "--format");
    push_arg(&mut protocol, "json");
    assert(strs(protocol@) =~= json_args(command@));
    protocol
}

/// The step runs the named workflow for the command: `run` with its exit status, the others
/// with a JSON answer, each through `cargo run` with the command's protocol arguments, after
/// the workflow's `metadata` answer is checked.
pub open spec fn runs_workflow(
    res: Result<CliStep, String>,
    command: Command,
    cli: Cli,
    dir: Seq<char>,
    name: Seq<char>,
    w: WorkflowConfig,
) -> bool {
    match res {
        Ok(CliStep::RunStatus { workflow, metadata, command: c }) => {
            &&& command is Run
            &&& resolves(workflow, dir, name, w)
            &&& cargo_runs(metadata, workflow, json_args("metadata"@), cli)
            &&& cargo_runs(c, workflow, run_protocol_args_text(run_task_choice(command->Run_task, workflow), strs(command->Run_args@)), cli)
        },
        Ok(CliStep::RunJson { workflow, metadata, command: c, request }) => {
            &&& resolves(workflow, dir, name, w)
            &&& cargo_runs(metadata, workflow, json_args("metadata"@), cli)
            &&& match command {
                Command::List => request is List && cargo_runs(c, workflow, json_args("list"@), cli),
                Command::Graph { format } => request == JsonRequest::Graph(format) && cargo_runs(
                    c,
                    workflow,
                    json_args("graph"@),
                    cli,
                ),
                Command::Explain { task } => request is Explain && cargo_runs(
                    c,
                    workflow,
                    seq!["__runkernel"@, "explain"@, task@, "--format"@, "json"@],
                    cli,
                ),
                _ => false,
            }
        },
        _ => false,
    }
}

/// The process is `cargo run` in the workflow's working directory with these protocol arguments.
pub open spec fn cargo_runs(c: CargoCommand, workflow: ResolvedWorkflow, protocol: Seq<Seq<char>>, cli: Cli) -> bool {
    &&& c.program@ == "cargo"@
    &&& c.current_dir@ == workflow.working_dir@
    &&& strs(c.args@) == cargo_args(workflow, protocol, cli)
}

/// The outcome of `runkernel run`: no output, the workflow's exit status.
pub fn status_outcome(code: Option<i32>) -> (res: CliOutcome)
    ensures
        res.output@.len() == 0,
        res.exit_code == match code {
            Some(c) => c,
            None => 1i32,
        },
{
    CliOutcome { output: String::new(), exit_code: exit_code(code) }
}

} // verus!
