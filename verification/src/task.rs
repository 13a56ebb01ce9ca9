//! Tasks: what a task runs, how it is cached, and the builders that declare it.
use vstd::prelude::*;
use crate::text::{str_to_string, sort_dedup_strings, strs, text_strictly_sorted};

verus! {

/// The shell that runs a shell task's command.
#[derive(Clone, Debug, PartialEq, Eq)]
pub enum Shell {
    Sh,
    Bash,
    Zsh,
    PowerShell,
    Cmd,
    Custom { program: String, args: Vec<String> },
}

impl Shell {
    /// The program and its arguments for running `command` under this shell.
    pub open spec fn spec_command_parts(&self, command: Seq<char>) -> (Seq<char>, Seq<Seq<char>>) {
        match self {
            Shell::Sh => ("sh"@, seq!["-c"@, command]),
            Shell::Bash => ("bash"@, seq!["-c"@, command]),
            Shell::Zsh => ("zsh"@, seq!["-c"@, command]),
            Shell::PowerShell => ("pwsh"@, seq!["-Command"@, command]),
            Shell::Cmd => ("cmd"@, seq!["/C"@, command]),
            Shell::Custom { program, args } => (program@, args@.map_values(|a: String| a@).push(command)),
        }
    }

    pub fn command_parts(&self, command: &str) -> (res: (String, Vec<String>))
        ensures
            (res.0@, res.1@.map_values(|a: String| a@)) == self.spec_command_parts(command@),
    {
        let cmd = str_to_string(command);
        let (program, flag) = match self {
            Shell::Sh => ("sh", "-c"),
            Shell::Bash => ("bash", "-c"),
            Shell::Zsh => ("zsh", "-c"),
            Shell::PowerShell => ("pwsh", "-Command"),
            Shell::Cmd => ("cmd", "/C"),
            Shell::Custom { program, args } => {
                let mut all_args = args.clone();
                all_args.push(cmd);
                assert(all_args@.map_values(|a: String| a@) =~= args@.map_values(|a: String| a@).push(command@));
                return (program.clone(), all_args);
            },
        };
        let r = (str_to_string(program), vec![str_to_string(flag), cmd]);
        proof {
            reveal_strlit("sh");
            reveal_strlit("bash");
        }
        assert(r.1@.map_values(|a: String| a@) =~= seq![flag@, command@]);
        r
    }
}

/// How a task decides whether it may be restored from the cache.
#[derive(Clone, Debug, PartialEq, Eq)]
pub enum CacheMode {
    Disabled,
    Inputs,
    Explicit { key: String },
}

/// What a task runs: a shell command, or a native Rust function held by the runner.
#[derive(Clone, Debug)]
pub enum TaskAction {
    Shell { command: String, shell: Option<Shell> },
    Fn,
}

/// A named unit of work in a pipeline.
///
/// The native function and the rollback handler of a task are closures; they are held by
/// the runner that executes the pipeline, and the task records that they exist.
#[derive(Clone, Debug)]
pub struct Task {
    pub name: String,
    pub description: Option<String>,
    pub dependencies: Vec<String>,
    pub action: Option<TaskAction>,
    pub rollback_handler: bool,
    pub inputs: Vec<String>,
    pub env_vars: Vec<String>,
    pub cache_mode: CacheMode,
}

/// The views of a slice of string slices.
pub open spec fn str_slice_view(s: Seq<&str>) -> Seq<Seq<char>> {
    s.map_values(|x: &str| x@)
}

/// Owned copies of `items`, in order.
pub fn to_strings(items: &[&str]) -> (res: Vec<String>)
    ensures
        strs(res@) == str_slice_view(items@),
{
    let mut res: Vec<String> = Vec::new();
    let mut i: usize = 0;
    while i < items.len()
        invariant
            i <= items@.len(),
            strs(res@) =~= str_slice_view(items@.take(i as int)),
        decreases items@.len() - i,
    {
        res.push(str_to_string(items[i]));
        assert(str_slice_view(items@.take(i + 1)) =~= str_slice_view(items@.take(i as int)).push(items@[i as int]@));
        i = i + 1;
    }
    assert(items@.take(items@.len() as int) =~= items@);
    res
}

impl Task {
    /// Whether the task takes part in caching: caching is not disabled, and the task declares
    /// inputs, environment variables or an explicit cache key.
    pub open spec fn spec_is_cacheable(&self) -> bool {
        !(self.cache_mode is Disabled) && (self.inputs@.len() > 0 || self.env_vars@.len() > 0
            || self.cache_mode is Explicit)
    }

    /// Creates a task with the given name, no dependencies, no action, and input-based caching.
    pub fn new(name: &str) -> (res: Task)
        ensures
            res.name@ == name@,
            res.description is None,
            res.dependencies@.len() == 0,
            res.action is None,
            !res.rollback_handler,
            res.inputs@.len() == 0,
            res.env_vars@.len() == 0,
            res.cache_mode is Inputs,
    {
        Task {
            name: str_to_string(name),
            description: None,
            dependencies: Vec::new(),
            action: None,
            rollback_handler: false,
            inputs: Vec::new(),
            env_vars: Vec::new(),
            cache_mode: CacheMode::Inputs,
        }
    }

    /// Adds a human-readable description.
    pub fn description(self, description: &str) -> (res: Task)
        ensures
            res.description matches Some(d) && d@ == description@,
            res == (Task { description: res.description, ..self }),
    {
        Task { description: Some(str_to_string(description)), ..self }
    }

    /// Adds dependencies; the list stays sorted and free of duplicates.
    pub fn depends_on(self, deps: &[&str]) -> (res: Task)
        ensures
            text_strictly_sorted(strs(res.dependencies@)),
            strs(res.dependencies@).to_set() == strs(self.dependencies@).to_set() + str_slice_view(
                deps@,
            ).to_set(),
            res == (Task { dependencies: res.dependencies, ..self }),
    {
        let dependencies = extend_sorted_set(&self.dependencies, deps);
        Task { dependencies, ..self }
    }

    /// Runs a shell command under the pipeline's shell.
    pub fn exec(self, cmd: &str) -> (res: Task)
        ensures
            res.action matches Some(TaskAction::Shell { command, shell }) && command@ == cmd@
                && shell is None,
            res == (Task { action: res.action, ..self }),
    {
        Task { action: Some(TaskAction::Shell { command: str_to_string(cmd), shell: None }), ..self }
    }

    /// Runs a shell command under the given shell.
    pub fn exec_with(self, shell: Shell, cmd: &str) -> (res: Task)
        ensures
            res.action matches Some(TaskAction::Shell { command, shell: s }) && command@ == cmd@
                && s == Some(shell),
            res == (Task { action: res.action, ..self }),
    {
        Task {
            action: Some(TaskAction::Shell { command: str_to_string(cmd), shell: Some(shell) }),
            ..self
        }
    }

    /// Runs a native Rust function (registered with the runner).
    pub fn exec_fn(self) -> (res: Task)
        ensures
            res.action == Some(TaskAction::Fn),
            res == (Task { action: res.action, ..self }),
    {
        Task { action: Some(TaskAction::Fn), ..self }
    }

    /// Registers a handler to run when the task fails.
    pub fn on_failure(self) -> (res: Task)
        ensures
            res == (Task { rollback_handler: true, ..self }),
    {
        Task { rollback_handler: true, ..self }
    }

    /// Registers a rollback handler.
    pub fn rollback(self) -> (res: Task)
        ensures
            res == (Task { rollback_handler: true, ..self }),
    {
        Task { rollback_handler: true, ..self }
    }

    /// Declares file inputs (glob patterns), appended in order.
    pub fn inputs(self, inputs: &[&str]) -> (res: Task)
        ensures
            strs(res.inputs@) == strs(self.inputs@) + str_slice_view(inputs@),
            res == (Task { inputs: res.inputs, ..self }),
    {
        let all = append_strs(&self.inputs, inputs);
        Task { inputs: all, ..self }
    }

    /// Declares environment variables; the list stays sorted and free of duplicates.
    pub fn env_vars(self, env_vars: &[&str]) -> (res: Task)
        ensures
            text_strictly_sorted(strs(res.env_vars@)),
            strs(res.env_vars@).to_set() == strs(self.env_vars@).to_set() + str_slice_view(
                env_vars@,
            ).to_set(),
            res == (Task { env_vars: res.env_vars, ..self }),
    {
        let env = extend_sorted_set(&self.env_vars, env_vars);
        Task { env_vars: env, ..self }
    }

    /// Uses an explicit cache key.
    pub fn cache_key(self, key: &str) -> (res: Task)
        ensures
            res.cache_mode matches CacheMode::Explicit { key: k } && k@ == key@,
            res == (Task { cache_mode: res.cache_mode, ..self }),
    {
        Task { cache_mode: CacheMode::Explicit { key: str_to_string(key) }, ..self }
    }

    /// Disables cache checks and cache writes.
    pub fn cache_disabled(self) -> (res: Task)
        ensures
            res == (Task { cache_mode: CacheMode::Disabled, ..self }),
    {
        Task { cache_mode: CacheMode::Disabled, ..self }
    }

    /// Whether the task qualifies for caching.
    pub fn is_cacheable(&self) -> (res: bool)
        ensures
            res == self.spec_is_cacheable(),
    {
        let disabled = match &self.cache_mode {
            CacheMode::Disabled => true,
            _ => false,
        };
        let explicit = match &self.cache_mode {
            CacheMode::Explicit { .. } => true,
            _ => false,
        };
        !disabled && (self.inputs.len() > 0 || self.env_vars.len() > 0 || explicit)
    }

    /// Whether the task is configured for caching.
    pub fn cacheable(&self) -> (res: bool)
        ensures
            res == self.spec_is_cacheable(),
    {
        self.is_cacheable()
    }

    /// Whether the task has a rollback handler.
    pub fn has_rollback(&self) -> (res: bool)
        ensures
            res == self.rollback_handler,
    {
        self.rollback_handler
    }
}

/// `existing` followed by owned copies of `extra`.
pub(crate) fn append_strs(existing: &Vec<String>, extra: &[&str]) -> (res: Vec<String>)
    ensures
        strs(res@) == strs(existing@) + str_slice_view(extra@),
{
    let mut all = existing.clone();
    let more = to_strings(extra);
    assert(strs(all@) =~= strs(existing@));
    let mut i: usize = 0;
    while i < more.len()
        invariant
            i <= more@.len(),
            strs(all@) =~= strs(existing@) + strs(more@.take(i as int)),
        decreases more@.len() - i,
    {
        let ghost prev = all@;
        let item = more[i].clone();
        all.push(item);
        assert(strs(all@) =~= strs(prev).push(more@[i as int]@));
        assert(strs(more@.take(i + 1)) =~= strs(more@.take(i as int)).push(more@[i as int]@));
        i = i + 1;
    }
    assert(more@.take(more@.len() as int) =~= more@);
    all
}

/// `existing` followed by `extra`, sorted with duplicates removed.
fn extend_sorted_set(existing: &Vec<String>, extra: &[&str]) -> (res: Vec<String>)
    ensures
        text_strictly_sorted(strs(res@)),
        strs(res@).to_set() == strs(existing@).to_set() + str_slice_view(extra@).to_set(),
{
    let all = append_strs(existing, extra);
    let res = sort_dedup_strings(&all);
    proof {
        vstd::seq_lib::seq_to_set_distributes_over_add(strs(existing@), str_slice_view(extra@));
    }
    res
}

} // verus!
