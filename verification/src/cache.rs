//! The task cache: where entries live, when a task may be cached, the identity hash of a task,
//! and what a stored entry means for the current run.
use vstd::prelude::*;
use vstd::string::StrSliceExecFns;
use vstd::utf8::encode_utf8;
use vstd::seq_lib::lemma_concat_associative;
use crate::digest::{hex_encode, hex_text, sha256, sha256_digest, short_hash, short_hash_text};
use crate::fmt::{option_shell_debug, option_shell_debug_text};
use crate::paths::{
    dedup_paths, join_path, join_path_text, path_dedup, path_sort, segments, should_ignore_path,
    sort_paths, is_ignored_component,
};
use crate::task::{CacheMode, Task, TaskAction};
use crate::text::{
    insertion_point, lemma_text_sort_order_free, lemma_text_sort_sorted, push_text, sort_strings, str_eq,
    str_to_string, strs, text_sort,
};

verus! {

// ---------------------------------------------------------------------------------------------
// Locations.

/// Keeps `a-z`, `A-Z`, `0-9`, `-` and `_`; anything else becomes `_`.
pub open spec fn sanitize_char(c: char) -> char {
    if ('a' <= c && c <= 'z') || ('A' <= c && c <= 'Z') || ('0' <= c && c <= '9') || c == '-' || c
        == '_' {
        c
    } else {
        '_'
    }
}

pub open spec fn sanitize_text(s: Seq<char>) -> Seq<char> {
    s.map_values(|c: char| sanitize_char(c))
}

/// The file stem of a task's cache entry: the sanitized name (`task` if empty), a hyphen, and
/// 16 hex characters of the SHA-256 of the name, so that names that sanitize alike differ.
pub open spec fn task_file_name_text(name: Seq<char>) -> Seq<char> {
    (if name.len() == 0 {
        "task"@
    } else {
        sanitize_text(name)
    }) + "-"@ + short_hash_text(name)
}

/// The file stem of a task's cache entry.
pub fn task_file_name(task_name: &str) -> (res: String)
    ensures
        res@ == task_file_name_text(task_name@),
{
    let n = task_name.unicode_len();
    let mut out = String::new();
    let mut i: usize = 0;
    while i < n
        invariant
            n == task_name@.len(),
            i <= n,
            out@ == sanitize_text(task_name@.take(i as int)),
        decreases n - i,
    {
        let c = task_name.get_char(i);
        let keep = ('a' <= c && c <= 'z') || ('A' <= c && c <= 'Z') || ('0' <= c && c <= '9') || c == '-' || c == '_';
        if keep {
            out.push(c);
        } else {
            out.push('_');
        }
        assert(sanitize_text(task_name@.take(i + 1)) =~= sanitize_text(task_name@.take(i as int)).push(sanitize_char(c)));
        i = i + 1;
    }
    assert(task_name@.take(n as int) =~= task_name@);
    if n == 0 {
        push_text(&mut out, "task");
        assert(out@ =~= "task"@);
    }
    push_text(&mut out, "-");
    let h = short_hash(task_name);
    push_text(&mut out, h.as_str());
    out
}

/// The namespace directory name of a pipeline: 16 hex characters of the SHA-256 of its name.
pub fn pipeline_hash(pipeline_name: &str) -> (res: String)
    ensures
        res@ == short_hash_text(pipeline_name@),
{
    short_hash(pipeline_name)
}

/// The outcome of removing a cache directory.
#[derive(Clone, Debug, PartialEq, Eq)]
pub struct CacheCleanResult {
    pub path: String,
    pub removed: bool,
}

/// Where cache entries live: a root directory, and the namespace directory of one pipeline.
pub struct CacheManager {
    cache_root: String,
    cache_dir: String,
}

/// The default cache root, `.runkernel/cache`.
pub open spec fn default_root() -> Seq<char> {
    join_path_text(".runkernel"@, "cache"@)
}

impl CacheManager {
    pub closed spec fn spec_root(&self) -> Seq<char> {
        self.cache_root@
    }

    pub closed spec fn spec_dir(&self) -> Seq<char> {
        self.cache_dir@
    }

    /// A manager for `.runkernel/cache`, with entries under its `default` namespace.
    pub fn new() -> (res: CacheManager)
        ensures
            res.spec_root() == default_root(),
            res.spec_dir() == join_path_text(default_root(), "default"@),
    {
        let root = join_path(".runkernel", "cache");
        let dir = join_path(root.as_str(), "default");
        CacheManager { cache_root: root, cache_dir: dir }
    }

    /// A manager for a custom root, with entries under its `default` namespace.
    pub fn with_cache_root(cache_root: &str) -> (res: CacheManager)
        ensures
            res.spec_root() == cache_root@,
            res.spec_dir() == join_path_text(cache_root@, "default"@),
    {
        CacheManager { cache_root: str_to_string(cache_root), cache_dir: join_path(cache_root, "default") }
    }

    /// A manager for `.runkernel/cache`, with entries under the pipeline's namespace.
    pub fn for_pipeline(pipeline_name: &str) -> (res: CacheManager)
        ensures
            res.spec_root() == default_root(),
            res.spec_dir() == join_path_text(default_root(), short_hash_text(pipeline_name@)),
    {
        let root = join_path(".runkernel", "cache");
        let h = pipeline_hash(pipeline_name);
        let dir = join_path(root.as_str(), h.as_str());
        CacheManager { cache_root: root, cache_dir: dir }
    }

    /// The root directory of all cache entries.
    pub fn cache_root(&self) -> (res: String)
        ensures
            res@ == self.spec_root(),
    {
        self.cache_root.clone()
    }

    /// The namespace directory this manager reads and writes.
    pub fn cache_dir(&self) -> (res: String)
        ensures
            res@ == self.spec_dir(),
    {
        self.cache_dir.clone()
    }

    /// The namespace directory of a pipeline under this root.
    pub fn pipeline_cache_dir(&self, pipeline_name: &str) -> (res: String)
        ensures
            res@ == join_path_text(self.spec_root(), short_hash_text(pipeline_name@)),
    {
        let h = pipeline_hash(pipeline_name);
        join_path(self.cache_root.as_str(), h.as_str())
    }

    /// The entry file of a task: `<namespace>/<task file name>.json`.
    pub fn cache_file(&self, task_name: &str) -> (res: String)
        ensures
            res@ == join_path_text(self.spec_dir(), task_file_name_text(task_name@) + ".json"@),
    {
        let mut f = task_file_name(task_name);
        push_text(&mut f, ".json");
        join_path(self.cache_dir.as_str(), f.as_str())
    }

    /// The outcome of removing the whole cache root; `existed` says whether it was there (and
    /// so was removed).
    pub fn clean_all(&self, existed: bool) -> (res: CacheCleanResult)
        ensures
            res.path@ == self.spec_root(),
            res.removed == existed,
    {
        CacheCleanResult { path: self.cache_root.clone(), removed: existed }
    }

    /// The outcome of removing one pipeline's namespace; `existed` says whether it was there.
    pub fn clean_pipeline(&self, pipeline_name: &str, existed: bool) -> (res: CacheCleanResult)
        ensures
            res.path@ == join_path_text(self.spec_root(), short_hash_text(pipeline_name@)),
            res.removed == existed,
    {
        CacheCleanResult { path: self.pipeline_cache_dir(pipeline_name), removed: existed }
    }
}

// ---------------------------------------------------------------------------------------------
// What the runner observed for a task's declared inputs.

/// One path produced while expanding a glob pattern.
#[derive(Clone, Debug)]
pub enum GlobEntry {
    /// A path that is a regular file.
    File(String),
    /// A path that is something else (a directory, say).
    Other(String),
    /// The expansion failed here, with this error text.
    Failed(String),
}

/// The expansion of one declared input pattern: its entries in the order the glob gave them, or
/// the error text of an invalid pattern.
#[derive(Debug)]
pub struct PatternScan {
    pub pattern: String,
    pub entries: Result<Vec<GlobEntry>, String>,
}

/// What reading an input file gave.
#[derive(Clone, Debug)]
pub enum FileRead {
    /// The file was not found.
    Missing,
    /// The file's bytes.
    Contents(Vec<u8>),
    /// Opening failed with this error text.
    OpenFailed(String),
    /// Reading failed with this error text.
    ReadFailed(String),
}

/// The environment values, pattern expansions and file contents a task's cache identity reads.
/// A variable with no entry counts as empty, a pattern with no scan matches nothing, and a file
/// with no read counts as missing.
#[derive(Debug)]
pub struct InputSnapshot {
    pub env: Vec<(String, String)>,
    pub patterns: Vec<PatternScan>,
    pub files: Vec<(String, FileRead)>,
}

/// The value of an environment variable in the snapshot: the first entry for the key, else empty.
pub open spec fn env_value(env: Seq<(String, String)>, key: Seq<char>) -> Seq<char>
    decreases env.len(),
{
    if env.len() == 0 {
        Seq::empty()
    } else if env[0].0@ == key {
        env[0].1@
    } else {
        env_value(env.drop_first(), key)
    }
}

/// The expansion of a pattern: the first scan for it, else no entries.
pub open spec fn scan_of(scans: Seq<PatternScan>, p: Seq<char>) -> Result<Seq<GlobEntry>, Seq<char>>
    decreases scans.len(),
{
    if scans.len() == 0 {
        Ok(Seq::empty())
    } else if scans[0].pattern@ == p {
        match scans[0].entries {
            Ok(v) => Ok(v@),
            Err(e) => Err(e@),
        }
    } else {
        scan_of(scans.drop_first(), p)
    }
}

/// What reading a file gave: the first read for the path, else missing.
pub open spec fn read_of(files: Seq<(String, FileRead)>, path: Seq<char>) -> FileRead
    decreases files.len(),
{
    if files.len() == 0 {
        FileRead::Missing
    } else if files[0].0@ == path {
        files[0].1
    } else {
        read_of(files.drop_first(), path)
    }
}

pub open spec fn ignored_path(path: Seq<char>) -> bool {
    exists|k: int| 0 <= k < segments(path).len() && #[trigger] is_ignored_component(segments(path)[k])
}

/// Walking a pattern's entries: whether some file matched, and the files kept (not ignored), or
/// the first expansion error.
pub open spec fn entries_outcome(p: Seq<char>, entries: Seq<GlobEntry>) -> Result<(bool, Seq<Seq<char>>), Seq<char>>
    decreases entries.len(),
{
    if entries.len() == 0 {
        Ok((false, Seq::empty()))
    } else {
        match entries_outcome(p, entries.drop_last()) {
            Err(e) => Err(e),
            Ok((matched, kept)) => match entries.last() {
                GlobEntry::Failed(e) => Err("Failed to resolve glob pattern '"@ + p + "': "@ + e@),
                GlobEntry::File(path) => Ok((true, if ignored_path(path@) { kept } else { kept.push(path@) })),
                GlobEntry::Other(_) => Ok((matched, kept)),
            },
        }
    }
}

/// Walking the patterns in order: the bytes they add to the identity, and the files kept, or the
/// first error.
pub open spec fn patterns_outcome(ps: Seq<Seq<char>>, scans: Seq<PatternScan>) -> Result<(Seq<u8>, Seq<Seq<char>>), Seq<char>>
    decreases ps.len(),
{
    if ps.len() == 0 {
        Ok((Seq::empty(), Seq::empty()))
    } else {
        match patterns_outcome(ps.drop_last(), scans) {
            Err(e) => Err(e),
            Ok((bytes, files)) => {
                let p = ps.last();
                let b = bytes + encode_utf8("pattern:"@) + encode_utf8(p) + encode_utf8("\n"@);
                match scan_of(scans, p) {
                    Err(e) => Err("Invalid glob pattern '"@ + p + "': "@ + e),
                    Ok(entries) => match entries_outcome(p, entries) {
                        Err(e) => Err(e),
                        Ok((matched, kept)) => Ok((
                            if matched { b } else { b + encode_utf8("pattern-matched:no-files\n"@) },
                            files + kept,
                        )),
                    },
                }
            },
        }
    }
}

/// The bytes the input files add to the identity, or the first read error.
pub open spec fn files_outcome(files: Seq<Seq<char>>, reads: Seq<(String, FileRead)>) -> Result<Seq<u8>, Seq<char>>
    decreases files.len(),
{
    if files.len() == 0 {
        Ok(Seq::empty())
    } else {
        match files_outcome(files.drop_last(), reads) {
            Err(e) => Err(e),
            Ok(bytes) => {
                let f = files.last();
                match read_of(reads, f) {
                    FileRead::Missing => Ok(bytes + encode_utf8(f) + encode_utf8(":missing\n"@)),
                    FileRead::Contents(c) => Ok(bytes + encode_utf8(f) + encode_utf8(":"@) + c@ + encode_utf8("\n"@)),
                    FileRead::OpenFailed(e) => Err("Failed to open input file '"@ + f + "' for hashing: "@ + e@),
                    FileRead::ReadFailed(e) => Err("Failed to read input file '"@ + f + "' for hashing: "@ + e@),
                }
            },
        }
    }
}

/// Each string followed by `;`.
pub open spec fn list_part(items: Seq<Seq<char>>) -> Seq<u8>
    decreases items.len(),
{
    if items.len() == 0 {
        Seq::empty()
    } else {
        list_part(items.drop_last()) + encode_utf8(items.last()) + encode_utf8(";"@)
    }
}

/// Each key as `key=value;`.
pub open spec fn env_part(keys: Seq<Seq<char>>, env: Seq<(String, String)>) -> Seq<u8>
    decreases keys.len(),
{
    if keys.len() == 0 {
        Seq::empty()
    } else {
        env_part(keys.drop_last(), env) + encode_utf8(keys.last()) + encode_utf8("="@) + encode_utf8(
            env_value(env, keys.last()),
        ) + encode_utf8(";"@)
    }
}

pub open spec fn action_part(action: Option<TaskAction>) -> Seq<u8> {
    match action {
        Some(TaskAction::Shell { command, shell }) => encode_utf8("shell:"@) + encode_utf8(
            option_shell_debug_text(shell),
        ) + encode_utf8(":"@) + encode_utf8(command@),
        Some(TaskAction::Fn) => encode_utf8("fn:"@),
        None => encode_utf8("none:"@),
    }
}

pub open spec fn explicit_part(mode: CacheMode) -> Seq<u8> {
    match mode {
        CacheMode::Explicit { key } => encode_utf8("\nexplicit-key:"@) + encode_utf8(key@),
        _ => Seq::empty(),
    }
}

/// The pieces of a list: each item's bytes followed by `;`.
pub open spec fn listed_pieces(items: Seq<Seq<char>>) -> Seq<Seq<u8>> {
    items.map_values(|d: Seq<char>| encode_utf8(d) + encode_utf8(";"@))
}

/// Each item's bytes followed by `;`, in order.
pub open spec fn listed_bytes(items: Seq<Seq<char>>) -> Seq<u8> {
    listed_pieces(items).flatten()
}

/// The pieces of an assignment list: each key's bytes, `=`, its value in `env`, and `;`.
pub open spec fn assigned_pieces(keys: Seq<Seq<char>>, env: Seq<(String, String)>) -> Seq<Seq<u8>> {
    keys.map_values(
        |k: Seq<char>| encode_utf8(k) + encode_utf8("="@) + encode_utf8(env_value(env, k)) + encode_utf8(";"@),
    )
}

/// Each key's bytes, `=`, the value it has in `env`, and `;`, in order.
pub open spec fn assigned_bytes(keys: Seq<Seq<char>>, env: Seq<(String, String)>) -> Seq<u8> {
    assigned_pieces(keys, env).flatten()
}

proof fn lemma_list_part_alt(items: Seq<Seq<char>>)
    ensures
        list_part(items) == listed_pieces(items).flatten_alt(),
    decreases items.len(),
{
    if items.len() > 0 {
        lemma_list_part_alt(items.drop_last());
        let m = listed_pieces(items);
        assert(m.drop_last() =~= listed_pieces(items.drop_last()));
        assert(list_part(items) =~= m.flatten_alt());
    } else {
        assert(listed_pieces(items) =~= Seq::<Seq<u8>>::empty());
    }
}

/// The list part of an identity is each item followed by `;`.
pub proof fn lemma_list_part_listed(items: Seq<Seq<char>>)
    ensures
        list_part(items) == listed_bytes(items),
{
    lemma_list_part_alt(items);
    listed_pieces(items).lemma_flatten_and_flatten_alt_are_equivalent();
}

proof fn lemma_env_part_alt(keys: Seq<Seq<char>>, env: Seq<(String, String)>)
    ensures
        env_part(keys, env) == assigned_pieces(keys, env).flatten_alt(),
    decreases keys.len(),
{
    if keys.len() > 0 {
        lemma_env_part_alt(keys.drop_last(), env);
        let m = assigned_pieces(keys, env);
        assert(m.drop_last() =~= assigned_pieces(keys.drop_last(), env));
        assert(env_part(keys, env) =~= m.flatten_alt());
    } else {
        assert(assigned_pieces(keys, env) =~= Seq::<Seq<u8>>::empty());
    }
}

/// The environment part of an identity is each key, `=`, its value and `;`.
pub proof fn lemma_env_part_assigned(keys: Seq<Seq<char>>, env: Seq<(String, String)>)
    ensures
        env_part(keys, env) == assigned_bytes(keys, env),
{
    lemma_env_part_alt(keys, env);
    assigned_pieces(keys, env).lemma_flatten_and_flatten_alt_are_equivalent();
}

/// The value a snapshot gives a variable: that of the first entry with its name, or empty text
/// when no entry has it.
pub proof fn lemma_env_value(env: Seq<(String, String)>, key: Seq<char>)
    ensures
        forall|i: int|
            0 <= i < env.len() && (#[trigger] env[i]).0@ == key && (forall|j: int| 0 <= j < i ==> env[j].0@ != key)
                ==> env_value(env, key) == env[i].1@,
        (forall|i: int| 0 <= i < env.len() ==> (#[trigger] env[i]).0@ != key) ==> env_value(env, key) == Seq::<char>::empty(),
    decreases env.len(),
{
    if env.len() > 0 {
        lemma_env_value(env.drop_first(), key);
        assert forall|i: int|
            0 <= i < env.len() && (#[trigger] env[i]).0@ == key && (forall|j: int| 0 <= j < i ==> env[j].0@ != key)
                implies env_value(env, key) == env[i].1@ by {
            if i > 0 {
                assert(env[0].0@ != key);
                assert(env.drop_first()[i - 1] == env[i]);
                assert forall|j: int| 0 <= j < i - 1 implies env.drop_first()[j].0@ != key by {
                    assert(env.drop_first()[j] == env[j + 1]);
                }
            }
        }
        if forall|i: int| 0 <= i < env.len() ==> (#[trigger] env[i]).0@ != key {
            assert(env[0].0@ != key);
            assert forall|i: int| 0 <= i < env.drop_first().len() implies (#[trigger] env.drop_first()[i]).0@ != key by {
                assert(env.drop_first()[i] == env[i + 1]);
            }
        }
    }
}

/// The hashed outcome is the hash of a message made of `pre`, then `\ndependencies:`, then
/// each of the task's dependencies in sorted order followed by `;`, then `\naction:`, then `rest`.
pub open spec fn hashed_with_dependencies(
    outcome: Result<Seq<char>, Seq<char>>,
    pre: Seq<u8>,
    task: Task,
    rest: Seq<u8>,
) -> bool {
    outcome == Ok::<Seq<char>, Seq<char>>(
        hex_text(
            sha256_digest(
                pre + encode_utf8("\ndependencies:"@) + listed_bytes(text_sort(strs(task.dependencies@)))
                    + encode_utf8("\naction:"@) + rest,
            ),
        ),
    )
}

/// What follows the dependencies in a task's identity.
spec fn identity_rest(task: Task, env: Seq<(String, String)>, pattern_bytes: Seq<u8>, file_bytes: Seq<u8>) -> Seq<u8> {
    action_part(task.action) + explicit_part(task.cache_mode) + encode_utf8("\nenv:"@) + env_part(
        text_sort(strs(task.env_vars@)),
        env,
    ) + encode_utf8("\ninputs:"@) + pattern_bytes + file_bytes
}

proof fn lemma_identity_split(
    pipeline_name: Seq<char>,
    task: Task,
    env: Seq<(String, String)>,
    pattern_bytes: Seq<u8>,
    file_bytes: Seq<u8>,
)
    ensures
        identity_message(pipeline_name, task, env, pattern_bytes, file_bytes) == encode_utf8("pipeline:"@)
            + encode_utf8(pipeline_name) + encode_utf8("\ntask:"@) + encode_utf8(task.name@) + encode_utf8(
            "\ndependencies:"@,
        ) + listed_bytes(text_sort(strs(task.dependencies@))) + encode_utf8("\naction:"@) + identity_rest(
            task,
            env,
            pattern_bytes,
            file_bytes,
        ),
{
    lemma_list_part_listed(text_sort(strs(task.dependencies@)));
    let y = encode_utf8("pipeline:"@) + encode_utf8(pipeline_name) + encode_utf8("\ntask:"@) + encode_utf8(task.name@)
        + encode_utf8("\ndependencies:"@) + listed_bytes(text_sort(strs(task.dependencies@))) + encode_utf8(
        "\naction:"@,
    );
    let ap = action_part(task.action);
    let ex = explicit_part(task.cache_mode);
    let eh = encode_utf8("\nenv:"@);
    let ep = env_part(text_sort(strs(task.env_vars@)), env);
    let ih = encode_utf8("\ninputs:"@);
    lemma_concat_associative(y, ap + ex + eh + ep + ih + pattern_bytes, file_bytes);
    lemma_concat_associative(y, ap + ex + eh + ep + ih, pattern_bytes);
    lemma_concat_associative(y, ap + ex + eh + ep, ih);
    lemma_concat_associative(y, ap + ex + eh, ep);
    lemma_concat_associative(y, ap + ex, eh);
    lemma_concat_associative(y, ap, ex);
}

/// A task's identity covers its dependencies: the message hashed for a cacheable task names
/// the pipeline and the task, then lists, after `\ndependencies:`, each dependency in sorted
/// order followed by `;`, then goes on with `\naction:`; a task that differs only in its
/// dependencies has a message that differs only in that list.
pub proof fn lemma_identity_covers_dependencies(
    pipeline_name: Seq<char>,
    task: Task,
    dependencies: Vec<String>,
    snapshot: InputSnapshot,
)
    requires
        hash_outcome(pipeline_name, task, snapshot) is Ok,
    ensures
        ({
            let other = Task { dependencies: dependencies, ..task };
            let pre = encode_utf8("pipeline:"@) + encode_utf8(pipeline_name) + encode_utf8("\ntask:"@)
                + encode_utf8(task.name@);
            exists|rest: Seq<u8>|
                #[trigger] hashed_with_dependencies(hash_outcome(pipeline_name, task, snapshot), pre, task, rest)
                    && hashed_with_dependencies(hash_outcome(pipeline_name, other, snapshot), pre, other, rest)
        }),
{
    let other = Task { dependencies: dependencies, ..task };
    let pre = encode_utf8("pipeline:"@) + encode_utf8(pipeline_name) + encode_utf8("\ntask:"@) + encode_utf8(
        task.name@,
    );
    if let Ok((pattern_bytes, kept)) = patterns_outcome(text_sort(strs(task.inputs@)), snapshot.patterns@) {
        if let Ok(file_bytes) = files_outcome(resolved_files(kept), snapshot.files@) {
            let rest = identity_rest(task, snapshot.env@, pattern_bytes, file_bytes);
            lemma_identity_split(pipeline_name, task, snapshot.env@, pattern_bytes, file_bytes);
            lemma_identity_split(pipeline_name, other, snapshot.env@, pattern_bytes, file_bytes);
            assert(identity_rest(other, snapshot.env@, pattern_bytes, file_bytes) == rest);
            assert(hashed_with_dependencies(hash_outcome(pipeline_name, task, snapshot), pre, task, rest));
            assert(hashed_with_dependencies(hash_outcome(pipeline_name, other, snapshot), pre, other, rest));
        }
    }
}

/// The hashed outcome is the hash of a message made of `pre`, then `\nenv:`, then each key
/// with `=`, its value in `env` and `;`, then `\ninputs:`, then `rest`.
pub open spec fn hashed_with_env(
    outcome: Result<Seq<char>, Seq<char>>,
    pre: Seq<u8>,
    keys: Seq<Seq<char>>,
    env: Seq<(String, String)>,
    rest: Seq<u8>,
) -> bool {
    outcome == Ok::<Seq<char>, Seq<char>>(
        hex_text(
            sha256_digest(
                pre + encode_utf8("\nenv:"@) + assigned_bytes(keys, env) + encode_utf8("\ninputs:"@) + rest,
            ),
        ),
    )
}

proof fn lemma_identity_env_split(
    pipeline_name: Seq<char>,
    task: Task,
    env: Seq<(String, String)>,
    pattern_bytes: Seq<u8>,
    file_bytes: Seq<u8>,
)
    ensures
        identity_message(pipeline_name, task, env, pattern_bytes, file_bytes) == encode_utf8("pipeline:"@)
            + encode_utf8(pipeline_name) + encode_utf8("\ntask:"@) + encode_utf8(task.name@) + encode_utf8(
            "\ndependencies:"@,
        ) + list_part(text_sort(strs(task.dependencies@))) + encode_utf8("\naction:"@) + action_part(task.action)
            + explicit_part(task.cache_mode) + encode_utf8("\nenv:"@) + assigned_bytes(
            text_sort(strs(task.env_vars@)),
            env,
        ) + encode_utf8("\ninputs:"@) + (pattern_bytes + file_bytes),
{
    lemma_env_part_assigned(text_sort(strs(task.env_vars@)), env);
    let y = encode_utf8("pipeline:"@) + encode_utf8(pipeline_name) + encode_utf8("\ntask:"@) + encode_utf8(task.name@)
        + encode_utf8("\ndependencies:"@) + list_part(text_sort(strs(task.dependencies@))) + encode_utf8(
        "\naction:"@,
    ) + action_part(task.action) + explicit_part(task.cache_mode) + encode_utf8("\nenv:"@) + assigned_bytes(
        text_sort(strs(task.env_vars@)),
        env,
    ) + encode_utf8("\ninputs:"@);
    lemma_concat_associative(y, pattern_bytes, file_bytes);
}

/// A task's identity covers the values of its environment variables: the message hashed for a
/// cacheable task holds, after `\nenv:`, each declared variable in sorted order with `=`, its
/// value in the snapshot and `;`, then goes on with `\ninputs:`; two snapshots that differ only
/// in their environment give messages that differ only in those values.
pub proof fn lemma_identity_covers_env(
    pipeline_name: Seq<char>,
    task: Task,
    snapshot: InputSnapshot,
    env: Vec<(String, String)>,
)
    requires
        hash_outcome(pipeline_name, task, snapshot) is Ok,
    ensures
        ({
            let other = InputSnapshot { env: env, ..snapshot };
            let keys = text_sort(strs(task.env_vars@));
            exists|pre: Seq<u8>, rest: Seq<u8>|
                #[trigger] hashed_with_env(hash_outcome(pipeline_name, task, snapshot), pre, keys, snapshot.env@, rest)
                    && hashed_with_env(hash_outcome(pipeline_name, task, other), pre, keys, env@, rest)
        }),
{
    let other = InputSnapshot { env: env, ..snapshot };
    let keys = text_sort(strs(task.env_vars@));
    if let Ok((pattern_bytes, kept)) = patterns_outcome(text_sort(strs(task.inputs@)), snapshot.patterns@) {
        if let Ok(file_bytes) = files_outcome(resolved_files(kept), snapshot.files@) {
            let pre = encode_utf8("pipeline:"@) + encode_utf8(pipeline_name) + encode_utf8("\ntask:"@) + encode_utf8(
                task.name@,
            ) + encode_utf8("\ndependencies:"@) + list_part(text_sort(strs(task.dependencies@))) + encode_utf8(
                "\naction:"@,
            ) + action_part(task.action) + explicit_part(task.cache_mode);
            let rest = pattern_bytes + file_bytes;
            lemma_identity_env_split(pipeline_name, task, snapshot.env@, pattern_bytes, file_bytes);
            lemma_identity_env_split(pipeline_name, task, env@, pattern_bytes, file_bytes);
            assert(hashed_with_env(hash_outcome(pipeline_name, task, snapshot), pre, keys, snapshot.env@, rest));
            assert(hashed_with_env(hash_outcome(pipeline_name, task, other), pre, keys, env@, rest));
        }
    }
}

/// The hashed outcome is the hash of a message made of `pre`, then `\nexplicit-key:` and the
/// key, then `\nenv:`, then `rest`.
pub open spec fn hashed_with_key(outcome: Result<Seq<char>, Seq<char>>, pre: Seq<u8>, key: Seq<char>, rest: Seq<u8>) -> bool {
    outcome == Ok::<Seq<char>, Seq<char>>(
        hex_text(sha256_digest(pre + encode_utf8("\nexplicit-key:"@) + encode_utf8(key) + encode_utf8("\nenv:"@) + rest)),
    )
}

/// A task's identity covers its explicit cache key: the message hashed for a task with an
/// explicit key holds `\nexplicit-key:` and the key right before `\nenv:`; a task that differs
/// only in its key has a message that differs only there.
pub proof fn lemma_identity_covers_key(pipeline_name: Seq<char>, task: Task, key: String, snapshot: InputSnapshot)
    requires
        hash_outcome(pipeline_name, task, snapshot) is Ok,
        task.cache_mode is Explicit,
    ensures
        ({
            let other = Task { cache_mode: CacheMode::Explicit { key: key }, ..task };
            exists|pre: Seq<u8>, rest: Seq<u8>|
                #[trigger] hashed_with_key(
                    hash_outcome(pipeline_name, task, snapshot),
                    pre,
                    task.cache_mode->Explicit_key@,
                    rest,
                ) && hashed_with_key(hash_outcome(pipeline_name, other, snapshot), pre, key@, rest)
        }),
{
    let other = Task { cache_mode: CacheMode::Explicit { key: key }, ..task };
    if let Ok((pattern_bytes, kept)) = patterns_outcome(text_sort(strs(task.inputs@)), snapshot.patterns@) {
        if let Ok(file_bytes) = files_outcome(resolved_files(kept), snapshot.files@) {
            let pre = encode_utf8("pipeline:"@) + encode_utf8(pipeline_name) + encode_utf8("\ntask:"@) + encode_utf8(
                task.name@,
            ) + encode_utf8("\ndependencies:"@) + list_part(text_sort(strs(task.dependencies@))) + encode_utf8(
                "\naction:"@,
            ) + action_part(task.action);
            let ep = env_part(text_sort(strs(task.env_vars@)), snapshot.env@);
            let ih = encode_utf8("\ninputs:"@);
            let rest = ep + ih + pattern_bytes + file_bytes;
            let k1 = task.cache_mode->Explicit_key@;
            let y1 = pre + encode_utf8("\nexplicit-key:"@) + encode_utf8(k1) + encode_utf8("\nenv:"@);
            let y2 = pre + encode_utf8("\nexplicit-key:"@) + encode_utf8(key@) + encode_utf8("\nenv:"@);
            assert(pre + explicit_part(task.cache_mode) =~= pre + encode_utf8("\nexplicit-key:"@) + encode_utf8(k1));
            assert(pre + explicit_part(other.cache_mode) =~= pre + encode_utf8("\nexplicit-key:"@) + encode_utf8(key@));
            lemma_concat_associative(y1, ep + ih + pattern_bytes, file_bytes);
            lemma_concat_associative(y1, ep + ih, pattern_bytes);
            lemma_concat_associative(y1, ep, ih);
            lemma_concat_associative(y2, ep + ih + pattern_bytes, file_bytes);
            lemma_concat_associative(y2, ep + ih, pattern_bytes);
            lemma_concat_associative(y2, ep, ih);
            assert(hashed_with_key(hash_outcome(pipeline_name, task, snapshot), pre, k1, rest));
            assert(hashed_with_key(hash_outcome(pipeline_name, other, snapshot), pre, key@, rest));
        }
    }
}

/// The identity of a task, before hashing, given the resolved input files.
pub open spec fn identity_message(
    pipeline_name: Seq<char>,
    task: Task,
    env: Seq<(String, String)>,
    pattern_bytes: Seq<u8>,
    file_bytes: Seq<u8>,
) -> Seq<u8> {
    encode_utf8("pipeline:"@) + encode_utf8(pipeline_name) + encode_utf8("\ntask:"@) + encode_utf8(
        task.name@,
    ) + encode_utf8("\ndependencies:"@) + list_part(text_sort(strs(task.dependencies@)))
        + encode_utf8("\naction:"@) + action_part(task.action) + explicit_part(task.cache_mode)
        + encode_utf8("\nenv:"@) + env_part(text_sort(strs(task.env_vars@)), env) + encode_utf8(
        "\ninputs:"@,
    ) + pattern_bytes + file_bytes
}

/// Whether a cacheable task's identity may be restored from the cache, and why.
#[derive(Clone, Debug, PartialEq, Eq)]
pub enum CacheEligibility {
    Disabled(String),
    Enabled { hash: String, reason: String },
}

/// The reason a task is not cached.
pub open spec fn disabled_reason(task: Task) -> Seq<char> {
    match task.cache_mode {
        CacheMode::Disabled => "cache disabled for task"@,
        _ => if task.action == Some(TaskAction::Fn) {
            "native function task cache disabled: no declared inputs, environment variables, or explicit cache key; closure body is not hashed"@
        } else {
            "no declared file inputs, environment variables, or explicit cache key"@
        },
    }
}

/// The reason a task is cached.
pub open spec fn enabled_reason(task: Task) -> Seq<char> {
    let native = task.action == Some(TaskAction::Fn);
    if task.cache_mode is Explicit {
        if native {
            "explicit cache key for native function task; closure body is not hashed"@
        } else {
            "explicit cache key and declared inputs"@
        }
    } else {
        if native {
            "native function task cache uses declared inputs/env only; closure body is not hashed"@
        } else {
            "declared inputs or environment variables"@
        }
    }
}

/// Appends the UTF-8 bytes of a string.
pub(crate) fn push_utf8(buf: &mut Vec<u8>, s: &str)
    ensures
        final(buf)@ == old(buf)@ + encode_utf8(s@),
{
    let b = s.as_bytes();
    push_bytes(buf, b);
}

/// Appends bytes.
pub(crate) fn push_bytes(buf: &mut Vec<u8>, b: &[u8])
    ensures
        final(buf)@ == old(buf)@ + b@,
{
    let ghost start = buf@;
    let mut i: usize = 0;
    while i < b.len()
        invariant
            i <= b@.len(),
            buf@ == start + b@.take(i as int),
        decreases b@.len() - i,
    {
        buf.push(b[i]);
        assert(b@.take(i + 1) =~= b@.take(i as int).push(b@[i as int]));
        i = i + 1;
    }
    assert(b@.take(b@.len() as int) =~= b@);
}

pub(crate) fn find_env<'a>(env: &'a Vec<(String, String)>, key: &str) -> (res: &'a str)
    ensures
        res@ == env_value(env@, key@),
{
    let mut i: usize = 0;
    assert(env@.skip(0) =~= env@);
    while i < env.len()
        invariant
            i <= env@.len(),
            env_value(env@, key@) == env_value(env@.skip(i as int), key@),
        decreases env@.len() - i,
    {
        assert(env@.skip(i as int).drop_first() =~= env@.skip(i + 1));
        if str_eq(env[i].0.as_str(), key) {
            return env[i].1.as_str();
        }
        i = i + 1;
    }
    proof {
        assert(env@.skip(i as int).len() == 0);
        reveal_strlit("");
    }
    ""
}

pub(crate) fn find_scan<'a>(scans: &'a Vec<PatternScan>, p: &str) -> (res: Option<&'a PatternScan>)
    ensures
        match res {
            Some(sc) => scan_of(scans@, p@) == match sc.entries {
                Ok(v) => Ok::<Seq<GlobEntry>, Seq<char>>(v@),
                Err(e) => Err(e@),
            },
            None => scan_of(scans@, p@) == Ok::<Seq<GlobEntry>, Seq<char>>(Seq::empty()),
        },
{
    let mut i: usize = 0;
    assert(scans@.skip(0) =~= scans@);
    while i < scans.len()
        invariant
            i <= scans@.len(),
            scan_of(scans@, p@) == scan_of(scans@.skip(i as int), p@),
        decreases scans@.len() - i,
    {
        assert(scans@.skip(i as int).drop_first() =~= scans@.skip(i + 1));
        if str_eq(scans[i].pattern.as_str(), p) {
            return Some(&scans[i]);
        }
        i = i + 1;
    }
    None
}

pub(crate) fn find_read<'a>(files: &'a Vec<(String, FileRead)>, path: &str) -> (res: Option<&'a FileRead>)
    ensures
        match res {
            Some(r) => read_of(files@, path@) == *r,
            None => read_of(files@, path@) == FileRead::Missing,
        },
{
    let mut i: usize = 0;
    assert(files@.skip(0) =~= files@);
    while i < files.len()
        invariant
            i <= files@.len(),
            read_of(files@, path@) == read_of(files@.skip(i as int), path@),
        decreases files@.len() - i,
    {
        assert(files@.skip(i as int).drop_first() =~= files@.skip(i + 1));
        if str_eq(files[i].0.as_str(), path) {
            return Some(&files[i].1);
        }
        i = i + 1;
    }
    None
}

/// Walks the sorted patterns: the identity bytes they add and the resolved files.
fn walk_patterns(patterns: &Vec<String>, scans: &Vec<PatternScan>) -> (res: Result<(Vec<u8>, Vec<String>), String>)
    ensures
        match patterns_outcome(strs(patterns@), scans@) {
            Err(e) => res matches Err(m) && m@ == e,
            Ok((bytes, kept)) => res matches Ok((b, files)) && b@ == bytes && strs(files@) == resolved_files(kept),
        },
{
    let mut bytes: Vec<u8> = Vec::new();
    let mut files: Vec<String> = Vec::new();
    let ghost mut kept: Seq<Seq<char>> = Seq::empty();
    let mut i: usize = 0;
    assert(strs(patterns@.take(0)) =~= Seq::<Seq<char>>::empty());
    while i < patterns.len()
        invariant
            i <= patterns@.len(),
            patterns_outcome(strs(patterns@.take(i as int)), scans@) == Ok::<(Seq<u8>, Seq<Seq<char>>), Seq<char>>((bytes@, kept)),
            strs(files@) == kept,
        decreases patterns@.len() - i,
    {
        let p = patterns[i].as_str();
        proof {
            assert(strs(patterns@.take(i + 1)).drop_last() =~= strs(patterns@.take(i as int)));
            assert(strs(patterns@.take(i + 1)).last() == p@);
        }
        let ghost bytes0 = bytes@;
        push_utf8(&mut bytes, "pattern:");
        push_utf8(&mut bytes, p);
        push_utf8(&mut bytes, "\n");
        let ghost before = kept;
        let mut matched = false;
        match find_scan(scans, p) {
            None => {},
            Some(scan) => {
                match &scan.entries {
                    Err(e) => {
                        let mut msg = str_to_string("Invalid glob pattern '");
                        push_text(&mut msg, p);
                        push_text(&mut msg, "': ");
                        push_text(&mut msg, e.as_str());
                        proof {
                            reveal_strlit("Invalid glob pattern '");
                            reveal_strlit("': ");
                            assert(i < patterns@.len());
                            let pt = strs(patterns@.take(i + 1));
                            assert(patterns_outcome(pt.drop_last(), scans@) == Ok::<(Seq<u8>, Seq<Seq<char>>), Seq<char>>((bytes0, before)));
                            assert(scan_of(scans@, p@) == Err::<Seq<GlobEntry>, Seq<char>>(e@));
                            assert(patterns_outcome(pt, scans@) == Err::<(Seq<u8>, Seq<Seq<char>>), Seq<char>>(msg@));
                            lemma_patterns_outcome_err_stays(patterns@, i as int, scans@);
                        }
                        return Err(msg);
                    },
                    Ok(entries) => {
                        let ghost mut k_kept: Seq<Seq<char>> = Seq::empty();
                        let mut k: usize = 0;
                        while k < entries.len()
                            invariant
                                k <= entries@.len(),
                                i < patterns@.len(),
                                patterns_outcome(strs(patterns@.take(i as int)), scans@) == Ok::<(Seq<u8>, Seq<Seq<char>>), Seq<char>>((bytes0, before)),
                                strs(patterns@.take(i + 1)).drop_last() == strs(patterns@.take(i as int)),
                                strs(patterns@.take(i + 1)).last() == p@,
                                scan_of(scans@, p@) == Ok::<Seq<GlobEntry>, Seq<char>>(entries@),
                                entries_outcome(p@, entries@.take(k as int)) == Ok::<(bool, Seq<Seq<char>>), Seq<char>>((matched, k_kept)),
                                strs(files@) == before + k_kept,
                            decreases entries@.len() - k,
                        {
                            assert(entries@.take(k + 1).drop_last() =~= entries@.take(k as int));
                            match &entries[k] {
                                GlobEntry::Failed(e) => {
                                    let mut msg = str_to_string("Failed to resolve glob pattern '");
                                    push_text(&mut msg, p);
                                    push_text(&mut msg, "': ");
                                    push_text(&mut msg, e.as_str());
                                    proof {
                                        reveal_strlit("Failed to resolve glob pattern '");
                                        reveal_strlit("': ");
                                        assert(entries_outcome(p@, entries@.take(k + 1)) == Err::<(bool, Seq<Seq<char>>), Seq<char>>(msg@));
                                        lemma_entries_outcome_err_stays(p@, entries@, k as int);
                                        assert(i < patterns@.len());
                                        let pt = strs(patterns@.take(i + 1));
                                        assert(patterns_outcome(pt.drop_last(), scans@) == Ok::<(Seq<u8>, Seq<Seq<char>>), Seq<char>>((bytes0, before)));
                                        assert(scan_of(scans@, p@) == Ok::<Seq<GlobEntry>, Seq<char>>(entries@));
                                        assert(patterns_outcome(pt, scans@) == Err::<(Seq<u8>, Seq<Seq<char>>), Seq<char>>(msg@));
                                        lemma_patterns_outcome_err_stays(patterns@, i as int, scans@);
                                    }
                                    return Err(msg);
                                },
                                GlobEntry::File(path) => {
                                    matched = true;
                                    if !should_ignore_path(path.as_str()) {
                                        let ghost prev = files@;
                                        files.push(path.clone());
                                        proof {
                                            k_kept = k_kept.push(path@);
                                            assert(strs(files@) =~= strs(prev).push(path@));
                                            assert(before + k_kept =~= (before + k_kept.drop_last()).push(path@));
                                        }
                                    }
                                },
                                GlobEntry::Other(_) => {},
                            }
                            k = k + 1;
                        }
                        assert(entries@.take(entries@.len() as int) =~= entries@);
                        proof {
                            kept = before + k_kept;
                        }
                    },
                }
            },
        }
        if !matched {
            push_utf8(&mut bytes, "pattern-matched:no-files\n");
        }
        proof {
            if kept == before {
                assert(kept =~= before + Seq::<Seq<char>>::empty());
            }
        }
        i = i + 1;
    }
    assert(patterns@.take(patterns@.len() as int) =~= patterns@);
    let sorted = sort_paths(&files);
    let resolved = dedup_paths(&sorted);
    Ok((bytes, resolved))
}

proof fn lemma_entries_outcome_err_stays(p: Seq<char>, entries: Seq<GlobEntry>, k: int)
    requires
        0 <= k < entries.len(),
        entries_outcome(p, entries.take(k + 1)) is Err,
    ensures
        entries_outcome(p, entries) == entries_outcome(p, entries.take(k + 1)),
    decreases entries.len() - k,
{
    if k + 1 < entries.len() {
        assert(entries.drop_last().take(k + 1) =~= entries.take(k + 1));
        lemma_entries_outcome_err_stays(p, entries.drop_last(), k);
    } else {
        assert(entries.take(k + 1) =~= entries);
    }
}

proof fn lemma_patterns_outcome_err_stays(patterns: Seq<String>, i: int, scans: Seq<PatternScan>)
    requires
        0 <= i < patterns.len(),
        patterns_outcome(strs(patterns.take(i + 1)), scans) is Err,
    ensures
        patterns_outcome(strs(patterns), scans) == patterns_outcome(strs(patterns.take(i + 1)), scans),
    decreases patterns.len() - i,
{
    if i + 1 < patterns.len() {
        assert(patterns.drop_last().take(i + 1) =~= patterns.take(i + 1));
        lemma_patterns_outcome_err_stays(patterns.drop_last(), i, scans);
        assert(strs(patterns).drop_last() =~= strs(patterns.drop_last()));
    } else {
        assert(patterns.take(i + 1) =~= patterns);
    }
}


/// The files a task's inputs resolve to: the kept files sorted in path order (a stable sort),
/// then each dropped that equals, as a path, the one kept before it.
pub open spec fn resolved_files(kept: Seq<Seq<char>>) -> Seq<Seq<char>> {
    path_dedup(path_sort(kept))
}

/// The identity hash of a cacheable task, or the error that stops it: the patterns are walked
/// in sorted order, then the resolved files are read in path order.
pub open spec fn hash_outcome(pipeline_name: Seq<char>, task: Task, snapshot: InputSnapshot) -> Result<Seq<char>, Seq<char>> {
    match patterns_outcome(text_sort(strs(task.inputs@)), snapshot.patterns@) {
        Err(e) => Err(e),
        Ok((pattern_bytes, kept)) => match files_outcome(resolved_files(kept), snapshot.files@) {
            Err(e) => Err(e),
            Ok(file_bytes) => Ok(
                hex_text(
                    sha256_digest(
                        identity_message(pipeline_name, task, snapshot.env@, pattern_bytes, file_bytes),
                    ),
                ),
            ),
        },
    }
}

/// Appends each string followed by `;`.
fn push_list(msg: &mut Vec<u8>, items: &Vec<String>)
    ensures
        final(msg)@ == old(msg)@ + list_part(strs(items@)),
{
    let ghost start = msg@;
    let mut i: usize = 0;
    assert(list_part(strs(items@).take(0)) =~= Seq::<u8>::empty());
    assert(msg@ =~= start + Seq::<u8>::empty());
    while i < items.len()
        invariant
            i <= items@.len(),
            msg@ == start + list_part(strs(items@).take(i as int)),
        decreases items@.len() - i,
    {
        let ghost before = msg@;
        push_utf8(msg, items[i].as_str());
        push_utf8(msg, ";");
        proof {
            let t = strs(items@).take(i + 1);
            assert(t.drop_last() =~= strs(items@).take(i as int));
            assert(t.last() == items@[i as int]@);
            assert(msg@ =~= start + list_part(t));
        }
        i = i + 1;
    }
    assert(strs(items@).take(items@.len() as int) =~= strs(items@));
}

/// Appends `key=value;` for each key, the value taken from the snapshot's environment.
fn push_env(msg: &mut Vec<u8>, keys: &Vec<String>, env: &Vec<(String, String)>)
    ensures
        final(msg)@ == old(msg)@ + env_part(strs(keys@), env@),
{
    let ghost start = msg@;
    let mut i: usize = 0;
    assert(env_part(strs(keys@).take(0), env@) =~= Seq::<u8>::empty());
    assert(msg@ =~= start + Seq::<u8>::empty());
    while i < keys.len()
        invariant
            i <= keys@.len(),
            msg@ == start + env_part(strs(keys@).take(i as int), env@),
        decreases keys@.len() - i,
    {
        let key = keys[i].as_str();
        let value = find_env(env, key);
        push_utf8(msg, key);
        push_utf8(msg, "=");
        push_utf8(msg, value);
        push_utf8(msg, ";");
        proof {
            let t = strs(keys@).take(i + 1);
            assert(t.drop_last() =~= strs(keys@).take(i as int));
            assert(t.last() == key@);
            assert(msg@ =~= start + env_part(t, env@));
        }
        i = i + 1;
    }
    assert(strs(keys@).take(keys@.len() as int) =~= strs(keys@));
}

/// Appends the action's part of the identity.
fn push_action(msg: &mut Vec<u8>, action: &Option<TaskAction>)
    ensures
        final(msg)@ == old(msg)@ + action_part(*action),
{
    let ghost start = msg@;
    match action {
        Some(TaskAction::Shell { command, shell }) => {
            let d = option_shell_debug(shell);
            push_utf8(msg, "shell:");
            push_utf8(msg, d.as_str());
            push_utf8(msg, ":");
            push_utf8(msg, command.as_str());
        },
        Some(TaskAction::Fn) => {
            push_utf8(msg, "fn:");
        },
        None => {
            push_utf8(msg, "none:");
        },
    }
    assert(msg@ =~= start + action_part(*action));
}

/// Appends the explicit key's part of the identity, if the task has one.
fn push_explicit(msg: &mut Vec<u8>, mode: &CacheMode)
    ensures
        final(msg)@ == old(msg)@ + explicit_part(*mode),
{
    let ghost start = msg@;
    match mode {
        CacheMode::Explicit { key } => {
            push_utf8(msg, "\nexplicit-key:");
            push_utf8(msg, key.as_str());
        },
        _ => {},
    }
    assert(msg@ =~= start + explicit_part(*mode));
}

/// Appends each resolved file's part of the identity, or gives the first read error.
fn push_files(msg: &mut Vec<u8>, files: &Vec<String>, reads: &Vec<(String, FileRead)>) -> (res: Result<(), String>)
    ensures
        match files_outcome(strs(files@), reads@) {
            Err(e) => res matches Err(m) && m@ == e,
            Ok(bytes) => res is Ok && final(msg)@ == old(msg)@ + bytes,
        },
{
    let ghost start = msg@;
    let mut i: usize = 0;
    assert(msg@ =~= start + Seq::<u8>::empty());
    assert(msg@.skip(start.len() as int) =~= Seq::<u8>::empty());
    assert(strs(files@).take(0) =~= Seq::<Seq<char>>::empty());
    while i < files.len()
        invariant
            i <= files@.len(),
            files_outcome(strs(files@).take(i as int), reads@) == Ok::<Seq<u8>, Seq<char>>(msg@.skip(start.len() as int)),
            msg@.len() >= start.len(),
            msg@ == start + msg@.skip(start.len() as int),
        decreases files@.len() - i,
    {
        let f = files[i].as_str();
        let ghost t = strs(files@).take(i + 1);
        let ghost done = msg@.skip(start.len() as int);
        proof {
            assert(t.drop_last() =~= strs(files@).take(i as int));
            assert(t.last() == f@);
        }
        match find_read(reads, f) {
            Some(FileRead::OpenFailed(e)) => {
                let mut m = str_to_string("Failed to open input file '");
                push_text(&mut m, f);
                push_text(&mut m, "' for hashing: ");
                push_text(&mut m, e.as_str());
                proof {
                    assert(files_outcome(t, reads@) == Err::<Seq<u8>, Seq<char>>(m@));
                    lemma_files_outcome_err_stays(strs(files@), i as int, reads@);
                }
                return Err(m);
            },
            Some(FileRead::ReadFailed(e)) => {
                let mut m = str_to_string("Failed to read input file '");
                push_text(&mut m, f);
                push_text(&mut m, "' for hashing: ");
                push_text(&mut m, e.as_str());
                proof {
                    assert(files_outcome(t, reads@) == Err::<Seq<u8>, Seq<char>>(m@));
                    lemma_files_outcome_err_stays(strs(files@), i as int, reads@);
                }
                return Err(m);
            },
            Some(FileRead::Contents(c)) => {
                push_utf8(msg, f);
                push_utf8(msg, ":");
                push_bytes(msg, c.as_slice());
                push_utf8(msg, "\n");
                proof {
                    assert(msg@.skip(start.len() as int) =~= done + encode_utf8(f@) + encode_utf8(":"@) + c@ + encode_utf8("\n"@));
                    assert(files_outcome(t, reads@) == Ok::<Seq<u8>, Seq<char>>(msg@.skip(start.len() as int)));
                }
            },
            _ => {
                push_utf8(msg, f);
                push_utf8(msg, ":missing\n");
                proof {
                    assert(read_of(reads@, f@) == FileRead::Missing);
                    assert(msg@.skip(start.len() as int) =~= done + encode_utf8(f@) + encode_utf8(":missing\n"@));
                    assert(files_outcome(t, reads@) == Ok::<Seq<u8>, Seq<char>>(msg@.skip(start.len() as int)));
                }
            },
        }
        assert(msg@ =~= start + msg@.skip(start.len() as int));
        i = i + 1;
    }
    assert(strs(files@).take(files@.len() as int) =~= strs(files@));
    Ok(())
}

proof fn lemma_files_outcome_err_stays(files: Seq<Seq<char>>, i: int, reads: Seq<(String, FileRead)>)
    requires
        0 <= i < files.len(),
        files_outcome(files.take(i + 1), reads) is Err,
    ensures
        files_outcome(files, reads) == files_outcome(files.take(i + 1), reads),
    decreases files.len() - i,
{
    if i + 1 < files.len() {
        assert(files.drop_last().take(i + 1) =~= files.take(i + 1));
        lemma_files_outcome_err_stays(files.drop_last(), i, reads);
    } else {
        assert(files.take(i + 1) =~= files);
    }
}

impl CacheManager {
    /// The files a task's declared inputs resolve to, given each pattern's expansion: the files
    /// matched, minus ignored ones, in path order and each once; or the first expansion error.
    pub fn resolve_inputs(&self, task: &Task, scans: &Vec<PatternScan>) -> (res: Result<Vec<String>, String>)
        ensures
            match patterns_outcome(text_sort(strs(task.inputs@)), scans@) {
                Err(e) => res matches Err(m) && m@ == e,
                Ok((_, kept)) => res matches Ok(files) && strs(files@) == resolved_files(kept),
            },
    {
        let patterns = sort_strings(&task.inputs);
        match walk_patterns(&patterns, scans) {
            Ok((_, files)) => Ok(files),
            Err(e) => Err(e),
        }
    }

    /// Whether a task may be restored from the cache and, if so, its identity hash: the SHA-256,
    /// in lowercase hex, of the pipeline name, the task's name, dependencies, action, explicit
    /// key, environment values and input files, as read in `snapshot`.
    pub fn compute_hash(&self, pipeline_name: &str, task: &Task, snapshot: &InputSnapshot) -> (res: Result<CacheEligibility, String>)
        ensures
            !task.spec_is_cacheable() ==> (res matches Ok(CacheEligibility::Disabled(r)) && r@ == disabled_reason(*task)),
            task.spec_is_cacheable() ==> match hash_outcome(pipeline_name@, *task, *snapshot) {
                Err(e) => res matches Err(m) && m@ == e,
                Ok(h) => res matches Ok(CacheEligibility::Enabled { hash, reason }) && hash@ == h && reason@ == enabled_reason(*task),
            },
    {
        let native = match &task.action {
            Some(TaskAction::Fn) => true,
            _ => false,
        };
        let explicit = match &task.cache_mode {
            CacheMode::Explicit { .. } => true,
            _ => false,
        };
        if !task.is_cacheable() {
            let reason = match &task.cache_mode {
                CacheMode::Disabled => str_to_string("cache disabled for task"),
                _ => if native {
                    str_to_string("native function task cache disabled: no declared inputs, environment variables, or explicit cache key; closure body is not hashed")
                } else {
                    str_to_string("no declared file inputs, environment variables, or explicit cache key")
                },
            };
            return Ok(CacheEligibility::Disabled(reason));
        }
        let mut msg: Vec<u8> = Vec::new();
        push_utf8(&mut msg, "pipeline:");
        assert(msg@ =~= encode_utf8("pipeline:"@));
        push_utf8(&mut msg, pipeline_name);
        push_utf8(&mut msg, "\ntask:");
        push_utf8(&mut msg, task.name.as_str());
        push_utf8(&mut msg, "\ndependencies:");
        let deps = sort_strings(&task.dependencies);
        push_list(&mut msg, &deps);
        push_utf8(&mut msg, "\naction:");
        push_action(&mut msg, &task.action);
        push_explicit(&mut msg, &task.cache_mode);
        push_utf8(&mut msg, "\nenv:");
        let keys = sort_strings(&task.env_vars);
        push_env(&mut msg, &keys, &snapshot.env);
        push_utf8(&mut msg, "\ninputs:");
        let patterns = sort_strings(&task.inputs);
        let (pattern_bytes, files) = match walk_patterns(&patterns, &snapshot.patterns) {
            Ok(r) => r,
            Err(e) => return Err(e),
        };
        push_bytes(&mut msg, pattern_bytes.as_slice());
        match push_files(&mut msg, &files, &snapshot.files) {
            Ok(()) => {},
            Err(e) => return Err(e),
        }
        let digest = sha256(msg.as_slice());
        let hash = hex_encode(digest.as_slice());
        let reason = if explicit {
            if native {
                str_to_string("explicit cache key for native function task; closure body is not hashed")
            } else {
                str_to_string("explicit cache key and declared inputs")
            }
        } else if native {
            str_to_string("native function task cache uses declared inputs/env only; closure body is not hashed")
        } else {
            str_to_string("declared inputs or environment variables")
        };
        Ok(CacheEligibility::Enabled { hash, reason })
    }
}


// ---------------------------------------------------------------------------------------------
// Stored entries.

/// A stored cache entry: the task it belongs to, the identity hash it was saved under, when it
/// was saved (seconds since the Unix epoch), and the task's outputs.
#[derive(Clone, Debug)]
pub struct CacheEntry<O> {
    pub task_name: String,
    pub hash: String,
    pub timestamp: u64,
    pub outputs: O,
}

/// What reading a task's entry file gave.
#[derive(Clone, Debug)]
pub enum StoredEntry<O> {
    /// There is no entry file.
    NotFound,
    /// The file could not be read or parsed.
    Unreadable,
    /// The parsed entry.
    Found(CacheEntry<O>),
}

/// Whether a stored entry may stand in for running a task.
#[derive(Clone, Debug)]
pub enum CacheLookup<O> {
    Hit { reason: String, outputs: O },
    Miss { reason: String },
}

/// What looking up a stored entry under the current hash gives: a hit with the stored outputs
/// when the entry was saved under that hash, else a miss with the reason.
pub open spec fn looks_up<O>(current_hash: Seq<char>, stored: StoredEntry<O>, res: CacheLookup<O>) -> bool {
    match stored {
        StoredEntry::NotFound => res matches CacheLookup::Miss { reason } && reason@ == "no cache entry found"@,
        StoredEntry::Unreadable => res matches CacheLookup::Miss { reason } && reason@ == "cache entry could not be parsed"@,
        StoredEntry::Found(entry) => if entry.hash@ == current_hash {
            res matches CacheLookup::Hit { reason, outputs } && reason@ == "cache entry hash matches current task identity"@
                && outputs == entry.outputs
        } else {
            res matches CacheLookup::Miss { reason } && reason@ == "cache entry hash does not match current task identity"@
        },
    }
}

/// The entry saved for a task under a hash, with the file it goes to: the task's entry file in
/// the manager's namespace, the one a later lookup reads.
pub open spec fn saves<O>(
    manager: CacheManager,
    task_name: Seq<char>,
    hash: Seq<char>,
    timestamp: u64,
    outputs: O,
    res: (String, CacheEntry<O>),
) -> bool {
    &&& res.0@ == join_path_text(manager.spec_dir(), task_file_name_text(task_name) + ".json"@)
    &&& res.1.task_name@ == task_name
    &&& res.1.hash@ == hash
    &&& res.1.timestamp == timestamp
    &&& res.1.outputs == outputs
}

impl CacheManager {
    /// A hit when the stored entry was saved under the current hash, else a miss with the reason.
    pub fn lookup<O>(&self, current_hash: &str, stored: StoredEntry<O>) -> (res: CacheLookup<O>)
        ensures
            looks_up(current_hash@, stored, res),
    {
        match stored {
            StoredEntry::NotFound => CacheLookup::Miss { reason: str_to_string("no cache entry found") },
            StoredEntry::Unreadable => CacheLookup::Miss { reason: str_to_string("cache entry could not be parsed") },
            StoredEntry::Found(entry) => if str_eq(entry.hash.as_str(), current_hash) {
                CacheLookup::Hit {
                    reason: str_to_string("cache entry hash matches current task identity"),
                    outputs: entry.outputs,
                }
            } else {
                CacheLookup::Miss { reason: str_to_string("cache entry hash does not match current task identity") }
            },
        }
    }

    /// The entry to store after a successful run, and the file it goes to.
    pub fn save_cache<O>(&self, task_name: &str, current_hash: &str, timestamp: u64, outputs: O) -> (res: (String, CacheEntry<O>))
        ensures
            saves(*self, task_name@, current_hash@, timestamp, outputs, res),
    {
        let file = self.cache_file(task_name);
        let entry = CacheEntry {
            task_name: str_to_string(task_name),
            hash: str_to_string(current_hash),
            timestamp,
            outputs,
        };
        (file, entry)
    }
}


// ---------------------------------------------------------------------------------------------
// Laws of the identity.

proof fn lemma_insertion_point_range(s: Seq<Seq<char>>, x: Seq<char>)
    ensures
        0 <= insertion_point(s, x) <= s.len(),
    decreases s.len(),
{
    if s.len() > 0 {
        lemma_insertion_point_range(s.drop_first(), x);
    }
}

proof fn lemma_text_sort_contains(s: Seq<Seq<char>>, x: Seq<char>)
    requires
        s.contains(x),
    ensures
        text_sort(s).contains(x),
    decreases s.len(),
{
    let r = text_sort(s.drop_last());
    let p = insertion_point(r, s.last());
    lemma_insertion_point_range(r, s.last());
    if x == s.last() {
        assert(text_sort(s)[p] == x);
    } else {
        let k = choose|k: int| 0 <= k < s.len() && s[k] == x;
        assert(s.drop_last()[k] == x);
        lemma_text_sort_contains(s.drop_last(), x);
        let j = choose|j: int| 0 <= j < r.len() && r[j] == x;
        if j < p {
            assert(text_sort(s)[j] == x);
        } else {
            assert(text_sort(s)[j + 1] == x);
        }
    }
}

/// The pattern's expansion succeeded and matched nothing.
pub open spec fn no_matches(scan: PatternScan) -> bool {
    scan.entries matches Ok(v) && v@.len() == 0
}

proof fn lemma_scan_of_empty(scans: Seq<PatternScan>, p: Seq<char>)
    requires
        forall|k: int| 0 <= k < scans.len() ==> no_matches(#[trigger] scans[k]),
    ensures
        scan_of(scans, p) == Ok::<Seq<GlobEntry>, Seq<char>>(Seq::empty()),
    decreases scans.len(),
{
    if scans.len() > 0 {
        assert(no_matches(scans[0]));
        if scans[0].pattern@ == p {
            if let Ok(v) = scans[0].entries {
                assert(v@ =~= Seq::<GlobEntry>::empty());
            }
        } else {
            assert forall|k: int| 0 <= k < scans.drop_first().len() implies no_matches(#[trigger] scans.drop_first()[k]) by {
                assert(scans.drop_first()[k] == scans[k + 1]);
            }
            lemma_scan_of_empty(scans.drop_first(), p);
        }
    }
}

proof fn lemma_patterns_unmatched(ps: Seq<Seq<char>>, scans: Seq<PatternScan>)
    requires
        forall|k: int| 0 <= k < scans.len() ==> no_matches(#[trigger] scans[k]),
    ensures
        patterns_outcome(ps, scans) matches Ok((_, kept)) && kept.len() == 0,
    decreases ps.len(),
{
    if ps.len() > 0 {
        lemma_patterns_unmatched(ps.drop_last(), scans);
        lemma_scan_of_empty(scans, ps.last());
        assert(entries_outcome(ps.last(), Seq::<GlobEntry>::empty()) == Ok::<(bool, Seq<Seq<char>>), Seq<char>>((false, Seq::empty())));
    }
}

/// Declared patterns that match nothing do not fail: when every pattern in the snapshot
/// expands to no paths, a cacheable task's identity is computed.
pub proof fn lemma_unmatched_inputs_hash(pipeline_name: Seq<char>, task: Task, snapshot: InputSnapshot)
    requires
        forall|k: int| 0 <= k < snapshot.patterns@.len() ==> no_matches(#[trigger] snapshot.patterns@[k]),
    ensures
        hash_outcome(pipeline_name, task, snapshot) is Ok,
{
    lemma_patterns_unmatched(text_sort(strs(task.inputs@)), snapshot.patterns@);
    if let Ok((_, kept)) = patterns_outcome(text_sort(strs(task.inputs@)), snapshot.patterns@) {
        assert(kept =~= Seq::<Seq<char>>::empty());
        assert(resolved_files(kept) =~= Seq::<Seq<char>>::empty());
    }
}

proof fn lemma_patterns_invalid(ps: Seq<Seq<char>>, scans: Seq<PatternScan>, p: Seq<char>)
    requires
        ps.contains(p),
        scan_of(scans, p) is Err,
    ensures
        patterns_outcome(ps, scans) is Err,
    decreases ps.len(),
{
    if ps.last() != p {
        let k = choose|k: int| 0 <= k < ps.len() && ps[k] == p;
        assert(ps.drop_last()[k] == p);
        lemma_patterns_invalid(ps.drop_last(), scans, p);
    }
}

/// An invalid glob pattern fails the identity: when some declared pattern's expansion is an
/// error, computing a cacheable task's identity gives an error.
pub proof fn lemma_invalid_pattern_fails(pipeline_name: Seq<char>, task: Task, snapshot: InputSnapshot, k: int)
    requires
        0 <= k < task.inputs@.len(),
        scan_of(snapshot.patterns@, task.inputs@[k]@) is Err,
    ensures
        hash_outcome(pipeline_name, task, snapshot) is Err,
{
    let xs = strs(task.inputs@);
    assert(xs[k] == task.inputs@[k]@);
    lemma_text_sort_contains(xs, xs[k]);
    lemma_patterns_invalid(text_sort(xs), snapshot.patterns@, xs[k]);
}


/// The same action: both shell commands with the same text and shell override, both native
/// functions, or both none.
pub open spec fn same_action(a: Option<TaskAction>, b: Option<TaskAction>) -> bool {
    match (a, b) {
        (Some(TaskAction::Shell { command: c1, shell: s1 }), Some(TaskAction::Shell { command: c2, shell: s2 })) => c1@
            == c2@ && s1 == s2,
        (Some(TaskAction::Fn), Some(TaskAction::Fn)) => true,
        (None, None) => true,
        _ => false,
    }
}

/// The same explicit cache key, or neither mode has one.
pub open spec fn same_explicit_key(a: CacheMode, b: CacheMode) -> bool {
    match (a, b) {
        (CacheMode::Explicit { key: k1 }, CacheMode::Explicit { key: k2 }) => k1@ == k2@,
        (CacheMode::Explicit { .. }, _) => false,
        (_, CacheMode::Explicit { .. }) => false,
        _ => true,
    }
}

proof fn lemma_sorted_member(xs: Seq<Seq<char>>, k: Seq<char>)
    requires
        text_sort(xs).contains(k),
    ensures
        xs.contains(k),
{
    broadcast use vstd::seq_lib::group_to_multiset_ensures;

    lemma_text_sort_sorted(xs);
    assert(text_sort(xs).to_multiset().count(k) > 0);
}

proof fn lemma_env_part_same(keys: Seq<Seq<char>>, e1: Seq<(String, String)>, e2: Seq<(String, String)>)
    requires
        forall|k: Seq<char>| #[trigger] keys.contains(k) ==> env_value(e1, k) == env_value(e2, k),
    ensures
        env_part(keys, e1) == env_part(keys, e2),
    decreases keys.len(),
{
    if keys.len() > 0 {
        assert forall|k: Seq<char>| #[trigger] keys.drop_last().contains(k) implies env_value(e1, k) == env_value(e2, k) by {
            let i = choose|i: int| 0 <= i < keys.drop_last().len() && keys.drop_last()[i] == k;
            assert(keys[i] == k);
            assert(keys.contains(k));
        }
        lemma_env_part_same(keys.drop_last(), e1, e2);
        assert(keys.contains(keys.last())) by {
            assert(keys[keys.len() - 1] == keys.last());
        }
    }
}

proof fn lemma_patterns_same(ps: Seq<Seq<char>>, s1: Seq<PatternScan>, s2: Seq<PatternScan>)
    requires
        forall|p: Seq<char>| #[trigger] ps.contains(p) ==> scan_of(s1, p) == scan_of(s2, p),
    ensures
        patterns_outcome(ps, s1) == patterns_outcome(ps, s2),
    decreases ps.len(),
{
    if ps.len() > 0 {
        assert forall|p: Seq<char>| #[trigger] ps.drop_last().contains(p) implies scan_of(s1, p) == scan_of(s2, p) by {
            let i = choose|i: int| 0 <= i < ps.drop_last().len() && ps.drop_last()[i] == p;
            assert(ps[i] == p);
            assert(ps.contains(p));
        }
        lemma_patterns_same(ps.drop_last(), s1, s2);
        assert(ps.contains(ps.last())) by {
            assert(ps[ps.len() - 1] == ps.last());
        }
    }
}

proof fn lemma_files_same(fs: Seq<Seq<char>>, r1: Seq<(String, FileRead)>, r2: Seq<(String, FileRead)>)
    requires
        forall|f: Seq<char>| #[trigger] read_of(r1, f) == read_of(r2, f),
    ensures
        files_outcome(fs, r1) == files_outcome(fs, r2),
    decreases fs.len(),
{
    if fs.len() > 0 {
        lemma_files_same(fs.drop_last(), r1, r2);
        assert(read_of(r1, fs.last()) == read_of(r2, fs.last()));
    }
}

/// A task's identity depends only on what it declares and what its inputs read as: two tasks
/// with the same name, the same dependencies, action, shell override and explicit key, the same
/// environment variables with the same values, and the same input patterns expanding alike to
/// files that read alike, have the same identity, whatever order the lists were given in.
pub proof fn lemma_identity_determined(
    pipeline_name: Seq<char>,
    t1: Task,
    t2: Task,
    s1: InputSnapshot,
    s2: InputSnapshot,
)
    requires
        t1.name@ == t2.name@,
        strs(t1.dependencies@).to_multiset() == strs(t2.dependencies@).to_multiset(),
        same_action(t1.action, t2.action),
        same_explicit_key(t1.cache_mode, t2.cache_mode),
        strs(t1.env_vars@).to_multiset() == strs(t2.env_vars@).to_multiset(),
        forall|k: Seq<char>| #[trigger] strs(t1.env_vars@).contains(k) ==> env_value(s1.env@, k) == env_value(s2.env@, k),
        strs(t1.inputs@).to_multiset() == strs(t2.inputs@).to_multiset(),
        forall|p: Seq<char>| #[trigger] strs(t1.inputs@).contains(p) ==> scan_of(s1.patterns@, p) == scan_of(s2.patterns@, p),
        forall|f: Seq<char>| #[trigger] read_of(s1.files@, f) == read_of(s2.files@, f),
    ensures
        hash_outcome(pipeline_name, t1, s1) == hash_outcome(pipeline_name, t2, s2),
{
    lemma_text_sort_order_free(strs(t1.dependencies@), strs(t2.dependencies@));
    lemma_text_sort_order_free(strs(t1.env_vars@), strs(t2.env_vars@));
    lemma_text_sort_order_free(strs(t1.inputs@), strs(t2.inputs@));
    let keys = text_sort(strs(t1.env_vars@));
    assert forall|k: Seq<char>| #[trigger] keys.contains(k) implies env_value(s1.env@, k) == env_value(s2.env@, k) by {
        lemma_sorted_member(strs(t1.env_vars@), k);
    }
    lemma_env_part_same(keys, s1.env@, s2.env@);
    let ps = text_sort(strs(t1.inputs@));
    assert forall|p: Seq<char>| #[trigger] ps.contains(p) implies scan_of(s1.patterns@, p) == scan_of(s2.patterns@, p) by {
        lemma_sorted_member(strs(t1.inputs@), p);
    }
    lemma_patterns_same(ps, s1.patterns@, s2.patterns@);
    assert(action_part(t1.action) == action_part(t2.action));
    assert(explicit_part(t1.cache_mode) == explicit_part(t2.cache_mode));
    if let Ok((_, kept)) = patterns_outcome(ps, s1.patterns@) {
        lemma_files_same(resolved_files(kept), s1.files@, s2.files@);
    }
}

} // verus!
