//! The `rote` engine: its tasks, its input-hash cache under `.rote/cache`, its lifecycle
//! events, and its pipeline.
//!
//! A `rote` pipeline runs on the same scheduler as a runkernel pipeline with the default
//! policies (finish running tasks after a failure, roll back only the failed task); the events
//! of that scheduler are reported as `rote` events.
use vstd::prelude::*;
use vstd::utf8::encode_utf8;
use crate::cache::{
    assigned_bytes, env_part, find_env, lemma_env_part_assigned, find_read, find_scan, push_bytes, push_utf8, read_of, scan_of, FileRead,
    GlobEntry, InputSnapshot, PatternScan,
};
use crate::digest::{hex_encode, hex_text, sha256, sha256_digest};
use crate::graph::{acyclic, clone_strings, deps_exist, describes_graph_error, GraphError};
use crate::paths::{has_component_in, join_path, join_path_text, path_sort, segments, sort_paths};
use crate::pipeline::{FailurePolicy, RollbackPolicy, find_task};
use crate::run::{actions_view, run_started, PipelineResult, RunAction, RunState, TaskResult, TaskStatus};
use crate::task::{append_strs, str_slice_view, CacheMode};
use crate::text::{push_text, sort_strings, str_eq, str_to_string, strs, text_sort};

verus! {

// ---------------------------------------------------------------------------------------------
// Tasks.

/// What a `rote` task runs.
#[derive(Clone, Debug)]
pub enum TaskAction {
    /// A command for `sh -c`.
    Shell(String),
    /// A native Rust function held by the runner.
    Fn,
}

/// A `rote` task. Its native function and failure handler are closures held by the runner;
/// the task records whether it has a failure handler.
#[derive(Clone, Debug)]
pub struct Task {
    pub name: String,
    pub dependencies: Vec<String>,
    pub action: Option<TaskAction>,
    pub failure_handler: bool,
    pub inputs: Vec<String>,
    pub env_vars: Vec<String>,
}

impl Task {
    /// A task with the given name and nothing else.
    pub fn new(name: &str) -> (res: Task)
        ensures
            res.name@ == name@,
            res.dependencies@.len() == 0,
            res.action is None,
            !res.failure_handler,
            res.inputs@.len() == 0,
            res.env_vars@.len() == 0,
    {
        Task {
            name: str_to_string(name),
            dependencies: Vec::new(),
            action: None,
            failure_handler: false,
            inputs: Vec::new(),
            env_vars: Vec::new(),
        }
    }

    /// Adds dependencies, in order.
    pub fn depends_on(self, deps: &[&str]) -> (res: Task)
        ensures
            strs(res.dependencies@) == strs(self.dependencies@) + str_slice_view(deps@),
            res == (Task { dependencies: res.dependencies, ..self }),
    {
        let all = append_strs(&self.dependencies, deps);
        Task { dependencies: all, ..self }
    }

    /// Runs a shell command.
    pub fn exec(self, cmd: &str) -> (res: Task)
        ensures
            res.action matches Some(TaskAction::Shell(c)) && c@ == cmd@,
            res == (Task { action: res.action, ..self }),
    {
        Task { action: Some(TaskAction::Shell(str_to_string(cmd))), ..self }
    }

    /// Runs a native function (held by the runner).
    pub fn exec_fn(self) -> (res: Task)
        ensures
            res == (Task { action: Some(TaskAction::Fn), ..self }),
    {
        Task { action: Some(TaskAction::Fn), ..self }
    }

    /// Registers a handler (held by the runner) to run if the task fails.
    pub fn on_failure(self) -> (res: Task)
        ensures
            res == (Task { failure_handler: true, ..self }),
    {
        Task { failure_handler: true, ..self }
    }

    /// Declares file inputs (glob patterns), in order.
    pub fn inputs(self, inputs: &[&str]) -> (res: Task)
        ensures
            strs(res.inputs@) == strs(self.inputs@) + str_slice_view(inputs@),
            res == (Task { inputs: res.inputs, ..self }),
    {
        let all = append_strs(&self.inputs, inputs);
        Task { inputs: all, ..self }
    }

    /// Declares environment variables, in order.
    pub fn env_vars(self, env_vars: &[&str]) -> (res: Task)
        ensures
            strs(res.env_vars@) == strs(self.env_vars@) + str_slice_view(env_vars@),
            res == (Task { env_vars: res.env_vars, ..self }),
    {
        let all = append_strs(&self.env_vars, env_vars);
        Task { env_vars: all, ..self }
    }

    /// A task takes part in caching when it declares inputs or environment variables.
    pub open spec fn spec_is_cacheable(&self) -> bool {
        self.inputs@.len() > 0 || self.env_vars@.len() > 0
    }

    /// Whether the task takes part in caching.
    pub fn is_cacheable(&self) -> (res: bool)
        ensures
            res == self.spec_is_cacheable(),
    {
        self.inputs.len() > 0 || self.env_vars.len() > 0
    }

    /// The task as the scheduler runs it.
    pub open spec fn spec_engine_task(self) -> crate::task::Task {
        crate::task::Task {
            name: self.name,
            description: None,
            dependencies: self.dependencies,
            action: match self.action {
                Some(TaskAction::Shell(c)) => Some(crate::task::TaskAction::Shell { command: c, shell: None }),
                Some(TaskAction::Fn) => Some(crate::task::TaskAction::Fn),
                None => None,
            },
            rollback_handler: self.failure_handler,
            inputs: self.inputs,
            env_vars: self.env_vars,
            cache_mode: CacheMode::Inputs,
        }
    }

    /// The task as the scheduler runs it: the failure handler is its rollback handler.
    pub fn into_engine_task(self) -> (res: crate::task::Task)
        ensures
            res == self.spec_engine_task(),
    {
        let action = match self.action {
            Some(TaskAction::Shell(c)) => Some(crate::task::TaskAction::Shell { command: c, shell: None }),
            Some(TaskAction::Fn) => Some(crate::task::TaskAction::Fn),
            None => None,
        };
        crate::task::Task {
            name: self.name,
            description: None,
            dependencies: self.dependencies,
            action,
            rollback_handler: self.failure_handler,
            inputs: self.inputs,
            env_vars: self.env_vars,
            cache_mode: CacheMode::Inputs,
        }
    }
}

/// The `rote` task a scheduled task stands for.
pub open spec fn from_engine(t: crate::task::Task) -> Task {
    Task {
        name: t.name,
        dependencies: t.dependencies,
        action: match t.action {
            Some(crate::task::TaskAction::Shell { command, .. }) => Some(TaskAction::Shell(command)),
            Some(crate::task::TaskAction::Fn) => Some(TaskAction::Fn),
            None => None,
        },
        failure_handler: t.rollback_handler,
        inputs: t.inputs,
        env_vars: t.env_vars,
    }
}

/// A copy of the `rote` task that a scheduled task stands for: the same texts.
pub open spec fn stands_for(r: Task, t: crate::task::Task) -> bool {
    &&& r.name@ == t.name@
    &&& strs(r.dependencies@) == strs(t.dependencies@)
    &&& match (r.action, t.action) {
        (Some(TaskAction::Shell(a)), Some(crate::task::TaskAction::Shell { command, .. })) => a@ == command@,
        (Some(TaskAction::Fn), Some(crate::task::TaskAction::Fn)) => true,
        (None, None) => true,
        _ => false,
    }
    &&& r.failure_handler == t.rollback_handler
    &&& strs(r.inputs@) == strs(t.inputs@)
    &&& strs(r.env_vars@) == strs(t.env_vars@)
}

/// Turning a task into its scheduled form and back gives the task.
pub proof fn lemma_engine_round_trip(t: Task)
    ensures
        from_engine(t.spec_engine_task()) == t,
{
}

// ---------------------------------------------------------------------------------------------
// Ignored paths.

/// Directory names whose files never count as inputs.
pub open spec fn is_ignored_rote_component(c: Seq<char>) -> bool {
    c == "target"@ || c == "node_modules"@ || c == ".git"@ || c == ".rote"@ || c == ".cargo"@ || c
        == ".next"@
}

/// Whether a path lies under a build, dependency, VCS or cache directory.
pub fn should_ignore_path(path: &str) -> (res: bool)
    ensures
        res == exists|k: int| 0 <= k < segments(path@).len() && #[trigger] is_ignored_rote_component(segments(path@)[k]),
{
    let names = ["target", "node_modules", ".git", ".rote", ".cargo", ".next"];
    let r = has_component_in(path, &names);
    proof {
        let nv = names@;
        assert(nv.len() == 6);
        if r {
            let (k, m) = choose|k: int, m: int| 0 <= k < segments(path@).len() && 0 <= m < nv.len() && #[trigger] segments(path@)[k] == #[trigger] nv[m]@;
            assert(is_ignored_rote_component(segments(path@)[k]));
        } else {
            assert forall|k: int| 0 <= k < segments(path@).len() implies !#[trigger] is_ignored_rote_component(segments(path@)[k]) by {
                assert(segments(path@)[k] != nv[0]@);
                assert(segments(path@)[k] != nv[1]@);
                assert(segments(path@)[k] != nv[2]@);
                assert(segments(path@)[k] != nv[3]@);
                assert(segments(path@)[k] != nv[4]@);
                assert(segments(path@)[k] != nv[5]@);
            }
        }
    }
    r
}

pub open spec fn ignored_rote_path(path: Seq<char>) -> bool {
    exists|k: int| 0 <= k < segments(path).len() && #[trigger] is_ignored_rote_component(segments(path)[k])
}

// ---------------------------------------------------------------------------------------------
// The cache.

/// A stored `rote` cache entry.
#[derive(Clone, Debug)]
pub struct CacheEntry {
    pub task_name: String,
    pub hash: String,
    pub timestamp: u64,
}

/// Where `rote` cache entries live.
pub struct CacheManager {
    cache_dir: String,
}

/// The files an expansion contributes: its regular files outside ignored directories, in order
/// (entries that failed to expand are passed over).
pub open spec fn rote_entry_files(entries: Seq<GlobEntry>) -> Seq<Seq<char>>
    decreases entries.len(),
{
    if entries.len() == 0 {
        Seq::empty()
    } else {
        rote_entry_files(entries.drop_last()) + match entries.last() {
            GlobEntry::File(p) => if ignored_rote_path(p@) {
                Seq::empty()
            } else {
                seq![p@]
            },
            _ => Seq::empty(),
        }
    }
}

/// The files the patterns contribute, pattern by pattern, or the first invalid pattern.
pub open spec fn rote_found(ps: Seq<Seq<char>>, scans: Seq<PatternScan>) -> Result<Seq<Seq<char>>, Seq<char>>
    decreases ps.len(),
{
    if ps.len() == 0 {
        Ok(Seq::empty())
    } else {
        match rote_found(ps.drop_last(), scans) {
            Err(e) => Err(e),
            Ok(found) => match scan_of(scans, ps.last()) {
                Err(e) => Err("Invalid glob pattern '"@ + ps.last() + "': "@ + e),
                Ok(entries) => Ok(found + rote_entry_files(entries)),
            },
        }
    }
}

/// The bytes the files add to the identity (missing files add nothing), or the first error.
pub open spec fn rote_files_outcome(files: Seq<Seq<char>>, reads: Seq<(String, FileRead)>) -> Result<Seq<u8>, Seq<char>>
    decreases files.len(),
{
    if files.len() == 0 {
        Ok(Seq::empty())
    } else {
        match rote_files_outcome(files.drop_last(), reads) {
            Err(e) => Err(e),
            Ok(bytes) => {
                let f = files.last();
                match read_of(reads, f) {
                    FileRead::Missing => Ok(bytes),
                    FileRead::Contents(c) => Ok(bytes + encode_utf8(f) + encode_utf8(":"@) + c@ + encode_utf8("\n"@)),
                    FileRead::OpenFailed(e) => Err("Failed to open input file '"@ + f + "' for hashing: "@ + e@),
                    FileRead::ReadFailed(e) => Err("Failed to read input file '"@ + f + "' for hashing: "@ + e@),
                }
            },
        }
    }
}

/// The action's part of a `rote` identity.
pub open spec fn rote_action_part(action: Option<TaskAction>) -> Seq<u8> {
    match action {
        Some(TaskAction::Shell(cmd)) => encode_utf8("shell:"@) + encode_utf8(cmd@),
        Some(TaskAction::Fn) => encode_utf8("fn:"@),
        None => encode_utf8("none:"@),
    }
}

/// The identity hash of a `rote` task, or the error that stops it: the action, the sorted
/// environment values, then the found files in path order with their contents.
pub open spec fn rote_hash_outcome(task: Task, snapshot: InputSnapshot) -> Result<Seq<char>, Seq<char>> {
    match rote_found(strs(task.inputs@), snapshot.patterns@) {
        Err(e) => Err(e),
        Ok(found) => match rote_files_outcome(path_sort(found), snapshot.files@) {
            Err(e) => Err(e),
            Ok(file_bytes) => Ok(
                hex_text(
                    sha256_digest(
                        rote_action_part(task.action) + env_part(text_sort(strs(task.env_vars@)), snapshot.env@)
                            + file_bytes,
                    ),
                ),
            ),
        },
    }
}



/// The hashed outcome is the hash of a message made of `pre`, then each key with `=`, its
/// value in `env` and `;`, then `rest`.
pub open spec fn rote_hashed_with_env(
    outcome: Result<Seq<char>, Seq<char>>,
    pre: Seq<u8>,
    keys: Seq<Seq<char>>,
    env: Seq<(String, String)>,
    rest: Seq<u8>,
) -> bool {
    outcome == Ok::<Seq<char>, Seq<char>>(hex_text(sha256_digest(pre + assigned_bytes(keys, env) + rest)))
}

/// A `rote` identity covers the values of the declared environment variables: the message
/// hashed holds, for each declared variable in sorted order, its name, `=`, its value in the
/// snapshot and `;`, between parts that do not depend on the environment; so two snapshots that
/// differ only in their environment give messages that differ only in those values.
pub proof fn lemma_rote_identity_covers_env(task: Task, snapshot: InputSnapshot, env: Vec<(String, String)>)
    requires
        rote_hash_outcome(task, snapshot) is Ok,
    ensures
        ({
            let other = InputSnapshot { env: env, ..snapshot };
            let keys = text_sort(strs(task.env_vars@));
            exists|pre: Seq<u8>, rest: Seq<u8>|
                #[trigger] rote_hashed_with_env(rote_hash_outcome(task, snapshot), pre, keys, snapshot.env@, rest)
                    && rote_hashed_with_env(rote_hash_outcome(task, other), pre, keys, env@, rest)
        }),
{
    let other = InputSnapshot { env: env, ..snapshot };
    let keys = text_sort(strs(task.env_vars@));
    if let Ok(found) = rote_found(strs(task.inputs@), snapshot.patterns@) {
        if let Ok(file_bytes) = rote_files_outcome(path_sort(found), snapshot.files@) {
            let pre = rote_action_part(task.action);
            lemma_env_part_assigned(keys, snapshot.env@);
            lemma_env_part_assigned(keys, env@);
            assert(rote_hashed_with_env(rote_hash_outcome(task, snapshot), pre, keys, snapshot.env@, file_bytes));
            assert(rote_hashed_with_env(rote_hash_outcome(task, other), pre, keys, env@, file_bytes));
        }
    }
}

proof fn lemma_found_err_stays(ps: Seq<Seq<char>>, i: int, scans: Seq<PatternScan>)
    requires
        0 <= i < ps.len(),
        rote_found(ps.take(i + 1), scans) is Err,
    ensures
        rote_found(ps, scans) == rote_found(ps.take(i + 1), scans),
    decreases ps.len() - i,
{
    if i + 1 < ps.len() {
        assert(ps.drop_last().take(i + 1) =~= ps.take(i + 1));
        lemma_found_err_stays(ps.drop_last(), i, scans);
    } else {
        assert(ps.take(i + 1) =~= ps);
    }
}

proof fn lemma_rote_files_err_stays(files: Seq<Seq<char>>, i: int, reads: Seq<(String, FileRead)>)
    requires
        0 <= i < files.len(),
        rote_files_outcome(files.take(i + 1), reads) is Err,
    ensures
        rote_files_outcome(files, reads) == rote_files_outcome(files.take(i + 1), reads),
    decreases files.len() - i,
{
    if i + 1 < files.len() {
        assert(files.drop_last().take(i + 1) =~= files.take(i + 1));
        lemma_rote_files_err_stays(files.drop_last(), i, reads);
    } else {
        assert(files.take(i + 1) =~= files);
    }
}

/// Collects the files the patterns find, in order.
fn collect_found(patterns: &Vec<String>, scans: &Vec<PatternScan>) -> (res: Result<Vec<String>, String>)
    ensures
        match rote_found(strs(patterns@), scans@) {
            Err(e) => res matches Err(m) && m@ == e,
            Ok(found) => res matches Ok(files) && strs(files@) == found,
        },
{
    let mut files: Vec<String> = Vec::new();
    let mut i: usize = 0;
    assert(strs(patterns@.take(0)) =~= Seq::<Seq<char>>::empty());
    assert(strs(files@) =~= Seq::<Seq<char>>::empty());
    while i < patterns.len()
        invariant
            i <= patterns@.len(),
            rote_found(strs(patterns@.take(i as int)), scans@) == Ok::<Seq<Seq<char>>, Seq<char>>(strs(files@)),
        decreases patterns@.len() - i,
    {
        let p = patterns[i].as_str();
        let ghost before = strs(files@);
        let ghost pt = strs(patterns@.take(i + 1));
        proof {
            assert(pt.drop_last() =~= strs(patterns@.take(i as int)));
            assert(pt.last() == p@);
        }
        match find_scan(scans, p) {
            None => {
                assert(rote_entry_files(Seq::<GlobEntry>::empty()) =~= Seq::<Seq<char>>::empty());
                assert(before + rote_entry_files(Seq::<GlobEntry>::empty()) =~= before);
            },
            Some(scan) => match &scan.entries {
                Err(e) => {
                    let mut m = str_to_string("Invalid glob pattern '");
                    push_text(&mut m, p);
                    push_text(&mut m, "': ");
                    push_text(&mut m, e.as_str());
                    proof {
                        reveal_strlit("Invalid glob pattern '");
                        reveal_strlit("': ");
                        assert(rote_found(pt, scans@) == Err::<Seq<Seq<char>>, Seq<char>>(m@));
                        assert(strs(patterns@).take(i + 1) =~= pt);
                        lemma_found_err_stays(strs(patterns@), i as int, scans@);
                    }
                    return Err(m);
                },
                Ok(entries) => {
                    let mut k: usize = 0;
                    assert(entries@.take(0) =~= Seq::<GlobEntry>::empty());
                    assert(strs(files@) =~= before + rote_entry_files(entries@.take(0)));
                    while k < entries.len()
                        invariant
                            k <= entries@.len(),
                            strs(files@) == before + rote_entry_files(entries@.take(k as int)),
                        decreases entries@.len() - k,
                    {
                        assert(entries@.take(k + 1).drop_last() =~= entries@.take(k as int));
                        let ghost mid = strs(files@);
                        match &entries[k] {
                            GlobEntry::File(path) => {
                                if !should_ignore_path(path.as_str()) {
                                    files.push(str_to_string(path.as_str()));
                                    assert(strs(files@) =~= mid + seq![path@]);
                                } else {
                                    assert(mid =~= mid + Seq::<Seq<char>>::empty());
                                }
                            },
                            _ => {
                                assert(mid =~= mid + Seq::<Seq<char>>::empty());
                            },
                        }
                        assert(strs(files@) =~= before + rote_entry_files(entries@.take(k + 1)));
                        k = k + 1;
                    }
                    assert(entries@.take(entries@.len() as int) =~= entries@);
                },
            },
        }
        i = i + 1;
    }
    assert(patterns@.take(patterns@.len() as int) =~= patterns@);
    Ok(files)
}

/// Appends the files' part of the identity, or gives the first read error.
fn push_rote_files(msg: &mut Vec<u8>, files: &Vec<String>, reads: &Vec<(String, FileRead)>) -> (res: Result<(), String>)
    ensures
        match rote_files_outcome(strs(files@), reads@) {
            Err(e) => res matches Err(m) && m@ == e,
            Ok(bytes) => res is Ok && final(msg)@ == old(msg)@ + bytes,
        },
{
    let ghost start = msg@;
    let mut i: usize = 0;
    assert(msg@.skip(start.len() as int) =~= Seq::<u8>::empty());
    assert(strs(files@).take(0) =~= Seq::<Seq<char>>::empty());
    assert(msg@ =~= start + msg@.skip(start.len() as int));
    while i < files.len()
        invariant
            i <= files@.len(),
            rote_files_outcome(strs(files@).take(i as int), reads@) == Ok::<Seq<u8>, Seq<char>>(msg@.skip(start.len() as int)),
            msg@.len() >= start.len(),
            msg@ == start + msg@.skip(start.len() as int),
        decreases files@.len() - i,
    {
        let f = files[i].as_str();
        let ghost t = strs(files@).take(i + 1);
        let ghost done = msg@.skip(start.len() as int);
        proof {
            assert(t.drop_last() =~= strs(files@).take(i as int));
            assert(t.last() == f@);
        }
        match find_read(reads, f) {
            Some(FileRead::OpenFailed(e)) => {
                let mut m = str_to_string("Failed to open input file '");
                push_text(&mut m, f);
                push_text(&mut m, "' for hashing: ");
                push_text(&mut m, e.as_str());
                proof {
                    assert(rote_files_outcome(t, reads@) == Err::<Seq<u8>, Seq<char>>(m@));
                    lemma_rote_files_err_stays(strs(files@), i as int, reads@);
                }
                return Err(m);
            },
            Some(FileRead::ReadFailed(e)) => {
                let mut m = str_to_string("Failed to read input file '");
                push_text(&mut m, f);
                push_text(&mut m, "' for hashing: ");
                push_text(&mut m, e.as_str());
                proof {
                    assert(rote_files_outcome(t, reads@) == Err::<Seq<u8>, Seq<char>>(m@));
                    lemma_rote_files_err_stays(strs(files@), i as int, reads@);
                }
                return Err(m);
            },
            Some(FileRead::Contents(c)) => {
                push_utf8(msg, f);
                push_utf8(msg, ":");
                push_bytes(msg, c.as_slice());
                push_utf8(msg, "\n");
                proof {
                    assert(msg@.skip(start.len() as int) =~= done + encode_utf8(f@) + encode_utf8(":"@) + c@ + encode_utf8("\n"@));
                }
            },
            _ => {
                proof {
                    assert(read_of(reads@, f@) == FileRead::Missing);
                }
            },
        }
        assert(msg@ =~= start + msg@.skip(start.len() as int));
        i = i + 1;
    }
    assert(strs(files@).take(files@.len() as int) =~= strs(files@));
    Ok(())
}

impl CacheManager {
    pub closed spec fn spec_dir(&self) -> Seq<char> {
        self.cache_dir@
    }

    /// A manager for `.rote/cache`.
    pub fn new() -> (res: CacheManager)
        ensures
            res.spec_dir() == join_path_text(".rote"@, "cache"@),
    {
        CacheManager { cache_dir: join_path(".rote", "cache") }
    }

    /// The entry file of a task: `<cache dir>/<task name>.json`.
    pub fn cache_file(&self, task_name: &str) -> (res: String)
        ensures
            res@ == join_path_text(self.spec_dir(), task_name@ + ".json"@),
    {
        let mut f = str_to_string(task_name);
        push_text(&mut f, ".json");
        join_path(self.cache_dir.as_str(), f.as_str())
    }

    /// Whether the stored entry (if one could be read) was saved under the current hash.
    pub fn is_cached(&self, current_hash: &str, stored: Option<CacheEntry>) -> (res: bool)
        ensures
            res == (stored matches Some(e) && e.hash@ == current_hash@),
    {
        match stored {
            Some(e) => str_eq(e.hash.as_str(), current_hash),
            None => false,
        }
    }

    /// The entry to store after a successful run, and the file it goes to.
    pub fn save_cache(&self, task_name: &str, current_hash: &str, timestamp: u64) -> (res: (String, CacheEntry))
        ensures
            res.0@ == join_path_text(self.spec_dir(), task_name@ + ".json"@),
            res.1.task_name@ == task_name@,
            res.1.hash@ == current_hash@,
            res.1.timestamp == timestamp,
    {
        let file = self.cache_file(task_name);
        (file, CacheEntry { task_name: str_to_string(task_name), hash: str_to_string(current_hash), timestamp })
    }

    /// The identity hash of a task given what its inputs read as: the SHA-256, in lowercase hex,
    /// of its action, its environment values and the contents of the files its patterns find.
    pub fn compute_hash(&self, task: &Task, snapshot: &InputSnapshot) -> (res: Result<String, String>)
        ensures
            match rote_hash_outcome(*task, *snapshot) {
                Err(e) => res matches Err(m) && m@ == e,
                Ok(h) => res matches Ok(s) && s@ == h,
            },
    {
        let mut msg: Vec<u8> = Vec::new();
        match &task.action {
            Some(TaskAction::Shell(cmd)) => {
                push_utf8(&mut msg, "shell:");
                push_utf8(&mut msg, cmd.as_str());
            },
            Some(TaskAction::Fn) => push_utf8(&mut msg, "fn:"),
            None => push_utf8(&mut msg, "none:"),
        }
        assert(msg@ =~= rote_action_part(task.action));
        let keys = sort_strings(&task.env_vars);
        let ghost before_env = msg@;
        let mut i: usize = 0;
        assert(env_part(strs(keys@).take(0), snapshot.env@) =~= Seq::<u8>::empty());
        assert(msg@ =~= before_env + env_part(strs(keys@).take(0), snapshot.env@));
        while i < keys.len()
            invariant
                i <= keys@.len(),
                msg@ == before_env + env_part(strs(keys@).take(i as int), snapshot.env@),
            decreases keys@.len() - i,
        {
            let key = keys[i].as_str();
            let value = find_env(&snapshot.env, key);
            push_utf8(&mut msg, key);
            push_utf8(&mut msg, "=");
            push_utf8(&mut msg, value);
            push_utf8(&mut msg, ";");
            proof {
                let t = strs(keys@).take(i + 1);
                assert(t.drop_last() =~= strs(keys@).take(i as int));
                assert(t.last() == key@);
                assert(msg@ =~= before_env + env_part(t, snapshot.env@));
            }
            i = i + 1;
        }
        assert(strs(keys@).take(keys@.len() as int) =~= strs(keys@));
        let found = match collect_found(&task.inputs, &snapshot.patterns) {
            Ok(f) => f,
            Err(e) => return Err(e),
        };
        let files = sort_paths(&found);
        match push_rote_files(&mut msg, &files, &snapshot.files) {
            Ok(()) => {},
            Err(e) => return Err(e),
        }
        let digest = sha256(msg.as_slice());
        Ok(hex_encode(digest.as_slice()))
    }
}


// ---------------------------------------------------------------------------------------------
// Events and the pipeline.

/// Lifecycle events of a `rote` run. Durations are in nanoseconds.
#[derive(Clone, Debug)]
pub enum PipelineEvent {
    PipelineStarted { name: String, task_count: usize },
    TaskStarted { name: String },
    TaskCached { name: String },
    TaskCompleted { name: String, duration: u64 },
    TaskFailed { name: String, error: String },
    TaskRollback { name: String },
    PipelineFinished { name: String, duration: u64, cached: usize, completed: usize, failed: usize },
}

/// A `rote` pipeline: named tasks, each at most once by name.
pub struct Pipeline {
    engine: crate::pipeline::Pipeline,
}

impl Pipeline {
    /// The pipeline as the scheduler runs it.
    pub closed spec fn spec_engine(&self) -> crate::pipeline::Pipeline {
        self.engine
    }

    /// An empty pipeline.
    pub fn new(name: &str) -> (res: Pipeline)
        ensures
            res.spec_engine().spec_name() == name@,
            res.spec_engine().spec_tasks().len() == 0,
            res.spec_engine().spec_failure_policy() == FailurePolicy::FinishRunning,
            res.spec_engine().spec_rollback_policy() == RollbackPolicy::FailedTaskOnly,
    {
        Pipeline { engine: crate::pipeline::Pipeline::new(name) }
    }

    /// Adds a task, replacing any task of the same name.
    pub fn add(&mut self, task: Task)
        ensures
            forall|n: Seq<char>|
                #![trigger find_task(final(self).spec_engine().spec_tasks(), n)]
                find_task(final(self).spec_engine().spec_tasks(), n) == if n == task.name@ {
                    Some(task.spec_engine_task())
                } else {
                    find_task(old(self).spec_engine().spec_tasks(), n)
                },
            final(self).spec_engine().spec_name() == old(self).spec_engine().spec_name(),
            final(self).spec_engine().spec_failure_policy() == old(self).spec_engine().spec_failure_policy(),
            final(self).spec_engine().spec_rollback_policy() == old(self).spec_engine().spec_rollback_policy(),
    {
        let ghost name = task.name@;
        let t = task.into_engine_task();
        self.engine.add(t);
    }

    /// The pipeline's name.
    pub fn name(&self) -> (res: &str)
        ensures
            res@ == self.spec_engine().spec_name(),
    {
        self.engine.name()
    }

    /// The named task.
    pub fn task(&self, name: &str) -> (res: Option<Task>)
        ensures
            match find_task(self.spec_engine().spec_tasks(), name@) {
                Some(t) => res matches Some(r) && stands_for(r, t),
                None => res is None,
            },
    {
        match self.engine.task(name) {
            Some(t) => Some(Task {
                name: str_to_string(t.name.as_str()),
                dependencies: clone_strings(&t.dependencies),
                action: match &t.action {
                    Some(crate::task::TaskAction::Shell { command, .. }) => Some(TaskAction::Shell(str_to_string(command.as_str()))),
                    Some(crate::task::TaskAction::Fn) => Some(TaskAction::Fn),
                    None => None,
                },
                failure_handler: t.rollback_handler,
                inputs: clone_strings(&t.inputs),
                env_vars: clone_strings(&t.env_vars),
            }),
            None => None,
        }
    }

    /// Validates the pipeline and starts a run on the scheduler (see `RunState::start`); a
    /// missing dependency or a cycle is refused with its message.
    pub fn start(&self) -> (res: Result<(RunState, Vec<RunAction>), String>)
        ensures
            res is Ok <==> deps_exist(self.spec_engine().spec_tasks()) && acyclic(self.spec_engine().spec_tasks()),
            res matches Err(m) ==> exists|e: GraphError| #[trigger] describes_graph_error(self.spec_engine().spec_tasks(), e)
                && m@ == e.spec_message(),
            res matches Ok((st, actions)) ==> run_started(self.spec_engine(), st, actions_view(actions@)),
    {
        match RunState::start(&self.engine) {
            Ok((st, actions)) => Ok((st, actions)),
            Err(e) => Err(e.message()),
        }
    }
}

/// The `rote` event a scheduler event is reported as, if any.
pub fn rote_event(e: &crate::run::PipelineEvent) -> (res: Option<PipelineEvent>)
    ensures
        match *e {
            crate::run::PipelineEvent::PipelineStarted { name, task_count } => res matches Some(
                PipelineEvent::PipelineStarted { name: n, task_count: c },
            ) && n@ == name@ && c == task_count,
            crate::run::PipelineEvent::TaskStarted { name } => res matches Some(PipelineEvent::TaskStarted { name: n })
                && n@ == name@,
            crate::run::PipelineEvent::TaskCached { name, .. } => res matches Some(PipelineEvent::TaskCached { name: n })
                && n@ == name@,
            crate::run::PipelineEvent::TaskCompleted { name, duration } => res matches Some(
                PipelineEvent::TaskCompleted { name: n, duration: d },
            ) && n@ == name@ && d == duration,
            crate::run::PipelineEvent::TaskFailed { name, error } => res matches Some(
                PipelineEvent::TaskFailed { name: n, error: er },
            ) && n@ == name@ && er@ == error@,
            crate::run::PipelineEvent::TaskRollbackStarted { name } => res matches Some(
                PipelineEvent::TaskRollback { name: n },
            ) && n@ == name@,
            _ => res is None,
        },
{
    match e {
        crate::run::PipelineEvent::PipelineStarted { name, task_count } => Some(
            PipelineEvent::PipelineStarted { name: str_to_string(name.as_str()), task_count: *task_count },
        ),
        crate::run::PipelineEvent::TaskStarted { name } => Some(PipelineEvent::TaskStarted { name: str_to_string(name.as_str()) }),
        crate::run::PipelineEvent::TaskCached { name, .. } => Some(PipelineEvent::TaskCached { name: str_to_string(name.as_str()) }),
        crate::run::PipelineEvent::TaskCompleted { name, duration } => Some(
            PipelineEvent::TaskCompleted { name: str_to_string(name.as_str()), duration: *duration },
        ),
        crate::run::PipelineEvent::TaskFailed { name, error } => Some(
            PipelineEvent::TaskFailed { name: str_to_string(name.as_str()), error: str_to_string(error.as_str()) },
        ),
        crate::run::PipelineEvent::TaskRollbackStarted { name } => Some(
            PipelineEvent::TaskRollback { name: str_to_string(name.as_str()) },
        ),
        _ => None,
    }
}

/// How a finished run ends: the final event with the counts of cached, completed and failed
/// tasks, and an error when any task failed.
pub fn finished(result: &PipelineResult) -> (res: (PipelineEvent, Result<(), String>))
    ensures
        res.0 matches PipelineEvent::PipelineFinished { name, duration, cached, completed, failed } && name@
            == result.name@ && duration == result.duration && cached == result.summary.cached && completed
            == result.summary.completed && failed == result.summary.failed,
        result.summary.failed == 0 ==> res.1 is Ok,
        result.summary.failed > 0 ==> (res.1 matches Err(e) && e@ == "Pipeline execution failed due to errors in tasks."@),
{
    let event = PipelineEvent::PipelineFinished {
        name: str_to_string(result.name.as_str()),
        duration: result.duration,
        cached: result.summary.cached,
        completed: result.summary.completed,
        failed: result.summary.failed,
    };
    if result.summary.failed > 0 {
        (event, Err(str_to_string("Pipeline execution failed due to errors in tasks.")))
    } else {
        (event, Ok(()))
    }
}

// ---------------------------------------------------------------------------------------------
// Executing one task.

/// What the runner does next while executing a `rote` task.
#[derive(Debug)]
pub enum TaskStep {
    /// Read the task's inputs into a snapshot, call `CacheManager::compute_hash`, and hand the
    /// outcome to `after_hash`.
    ComputeHash,
    /// Read the task's entry, call `CacheManager::is_cached`, and hand the answer to
    /// `after_lookup`.
    Lookup { hash: String },
    /// Report the event, run the action, and hand its outcome to `after_action`.
    Run { save: Option<String>, event: PipelineEvent },
    /// Store an entry for the hash and hand the outcome to `after_save`.
    Save { hash: String },
    /// The task is done: `Ok(true)` when restored from the cache, `Ok(false)` when it ran, or
    /// the error; report the event, if any.
    Finished { outcome: Result<bool, String>, event: Option<PipelineEvent> },
}

/// The event that a task has started.
pub open spec fn is_started(e: PipelineEvent, name: Seq<char>) -> bool {
    e matches PipelineEvent::TaskStarted { name: n } && n@ == name
}

/// The event that a task completed after running for `d` nanoseconds.
pub open spec fn is_completed(e: Option<PipelineEvent>, name: Seq<char>, d: u64) -> bool {
    e matches Some(PipelineEvent::TaskCompleted { name: n, duration: x }) && n@ == name && x == d
}

/// The outcome is the failure with this message.
pub open spec fn fails_with(o: Result<bool, String>, msg: Seq<char>) -> bool {
    o matches Err(m) && m@ == msg
}

/// The event that a task was restored from the cache.
pub open spec fn is_cached_event(e: Option<PipelineEvent>, name: Seq<char>) -> bool {
    e matches Some(PipelineEvent::TaskCached { name: n }) && n@ == name
}

/// The optional text holds exactly `t`.
pub open spec fn text_is(o: Option<String>, t: Seq<char>) -> bool {
    o matches Some(m) && m@ == t
}

/// The first step: a cacheable task computes its identity; any other task runs.
pub fn begin_task(task: &Task) -> (res: TaskStep)
    ensures
        task.spec_is_cacheable() ==> res is ComputeHash,
        !task.spec_is_cacheable() ==> (res matches TaskStep::Run { save, event } && save is None && is_started(
            event,
            task.name@,
        )),
{
    if task.is_cacheable() {
        TaskStep::ComputeHash
    } else {
        TaskStep::Run { save: None, event: PipelineEvent::TaskStarted { name: str_to_string(task.name.as_str()) } }
    }
}

/// After the identity: a task whose hash could not be computed fails; otherwise it is looked up.
pub fn after_hash(hash: Result<String, String>) -> (res: TaskStep)
    ensures
        match hash {
            Err(e) => res matches TaskStep::Finished { outcome, event } && event is None && fails_with(
                outcome,
                "Failed to compute cache hash: "@ + e@,
            ),
            Ok(h) => res matches TaskStep::Lookup { hash } && hash@ == h@,
        },
{
    match hash {
        Err(e) => {
            let mut m = str_to_string("Failed to compute cache hash: ");
            push_text(&mut m, e.as_str());
            TaskStep::Finished { outcome: Err(m), event: None }
        },
        Ok(h) => TaskStep::Lookup { hash: h },
    }
}

/// After the lookup: a cached task is done without running; otherwise it runs and its entry is
/// stored afterwards.
pub fn after_lookup(name: &str, hash: String, cached: bool) -> (res: TaskStep)
    ensures
        cached ==> (res matches TaskStep::Finished { outcome, event } && outcome == Ok::<bool, String>(true)
            && is_cached_event(event, name@)),
        !cached ==> (res matches TaskStep::Run { save, event } && save matches Some(h) && h@ == hash@ && is_started(
            event,
            name@,
        )),
{
    if cached {
        TaskStep::Finished {
            outcome: Ok(true),
            event: Some(PipelineEvent::TaskCached { name: str_to_string(name) }),
        }
    } else {
        TaskStep::Run { save: Some(hash), event: PipelineEvent::TaskStarted { name: str_to_string(name) } }
    }
}

/// After the action ran for `duration` nanoseconds: a failure ends the task with its error; a
/// success stores the entry if there is a hash to store, else completes the task.
pub fn after_action(name: &str, duration: u64, outcome: Result<(), String>, save: Option<String>) -> (res: TaskStep)
    ensures
        match outcome {
            Err(e) => res matches TaskStep::Finished { outcome: o, event } && event is None && fails_with(o, e@),
            Ok(()) => match save {
                Some(h) => res matches TaskStep::Save { hash } && hash@ == h@,
                None => res matches TaskStep::Finished { outcome: o, event } && o == Ok::<bool, String>(false)
                    && is_completed(event, name@, duration),
            },
        },
{
    match outcome {
        Err(e) => TaskStep::Finished { outcome: Err(e), event: None },
        Ok(()) => match save {
            Some(h) => TaskStep::Save { hash: h },
            None => TaskStep::Finished {
                outcome: Ok(false),
                event: Some(PipelineEvent::TaskCompleted { name: str_to_string(name), duration }),
            },
        },
    }
}

/// After storing the entry: the task completes either way; a failure to store gives a warning.
pub fn after_save(name: &str, duration: u64, saved: Result<(), String>) -> (res: (Option<String>, TaskStep))
    ensures
        res.1 matches TaskStep::Finished { outcome, event } && outcome == Ok::<bool, String>(false) && is_completed(
            event,
            name@,
            duration,
        ),
        match saved {
            Ok(()) => res.0 is None,
            Err(e) => res.0 matches Some(w) && w@ == "Warning: failed to save cache for task '"@ + name@ + "': "@
                + e@,
        },
{
    let warning = match saved {
        Ok(()) => None,
        Err(e) => {
            let mut w = str_to_string("Warning: failed to save cache for task '");
            push_text(&mut w, name);
            push_text(&mut w, "': ");
            push_text(&mut w, e.as_str());
            Some(w)
        },
    };
    (
        warning,
        TaskStep::Finished {
            outcome: Ok(false),
            event: Some(PipelineEvent::TaskCompleted { name: str_to_string(name), duration }),
        },
    )
}

/// The result the scheduler receives for a finished task.
pub fn task_result(name: &str, outcome: Result<bool, String>) -> (res: TaskResult)
    ensures
        res.name@ == name@,
        res.rollback_status is None,
        res.rollback_error is None,
        match outcome {
            Ok(true) => res.status == TaskStatus::Cached && res.error is None,
            Ok(false) => res.status == TaskStatus::Completed && res.error is None,
            Err(e) => res.status == TaskStatus::Failed && text_is(res.error, e@),
        },
{
    let mut r = TaskResult::pending(name);
    match outcome {
        Ok(true) => {
            r.status = TaskStatus::Cached;
        },
        Ok(false) => {
            r.status = TaskStatus::Completed;
        },
        Err(e) => {
            r.status = TaskStatus::Failed;
            r.error = Some(e);
        },
    }
    r
}

} // verus!
