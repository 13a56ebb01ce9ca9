use runkernel::cache::{
    task_file_name, CacheEligibility, CacheEntry, CacheLookup, CacheManager, FileRead, GlobEntry,
    InputSnapshot, PatternScan, StoredEntry,
};
use runkernel::paths::{dedup_paths, path_eq, path_less, should_ignore_path, sort_paths};
use runkernel::rote;
use runkernel::task::{Shell, Task};
use sha2::Digest;

fn no_inputs() -> InputSnapshot {
    InputSnapshot { env: Vec::new(), patterns: Vec::new(), files: Vec::new() }
}

fn enabled_hash(result: Result<CacheEligibility, String>) -> String {
    match result.unwrap() {
        CacheEligibility::Enabled { hash, .. } => hash,
        CacheEligibility::Disabled(_) => panic!("task should be cacheable"),
    }
}

fn enabled_reason(result: Result<CacheEligibility, String>) -> String {
    match result.unwrap() {
        CacheEligibility::Enabled { reason, .. } => reason,
        CacheEligibility::Disabled(_) => panic!("task should be cacheable"),
    }
}

#[test]
fn cache_test_should_ignore_path() {
    assert!(should_ignore_path("services/drone/drone-ops/target/.rustc_info.json"));
    assert!(should_ignore_path("target/debug/deps/foo"));
    assert!(should_ignore_path("node_modules/lodash/index.js"));
    assert!(should_ignore_path(".git/config"));
    assert!(should_ignore_path(".runkernel/cache/foo.json"));
    assert!(should_ignore_path(".cargo/config.toml"));
    assert!(should_ignore_path(".next/server/pages/index.html"));

    assert!(!should_ignore_path("services/drone/drone-ops/src/main.rs"));
    assert!(!should_ignore_path("src/lib.rs"));
    assert!(!should_ignore_path("target_file.rs"));
    assert!(!should_ignore_path("git_manager.rs"));

    assert!(rote::should_ignore_path("services/drone/drone-ops/target/.rustc_info.json"));
    assert!(rote::should_ignore_path("target/debug/deps/foo"));
    assert!(rote::should_ignore_path("node_modules/lodash/index.js"));
    assert!(rote::should_ignore_path(".git/config"));
    assert!(rote::should_ignore_path(".rote/cache/foo.json"));
    assert!(rote::should_ignore_path(".cargo/config.toml"));
    assert!(rote::should_ignore_path(".next/server/pages/index.html"));

    assert!(!rote::should_ignore_path("services/drone/drone-ops/src/main.rs"));
    assert!(!rote::should_ignore_path("src/lib.rs"));
    assert!(!rote::should_ignore_path("target_file.rs"));
    assert!(!rote::should_ignore_path("git_manager.rs"));
}

#[test]
fn ignore_lists_differ_between_engines() {
    assert!(!should_ignore_path(".rote/cache/foo.json"));
    assert!(!rote::should_ignore_path(".runkernel/cache/foo.json"));
}

#[test]
fn cache_test_compute_hash_ignores_missing_file_gracefully() {
    let manager = CacheManager::new();
    let task = Task::new("test-task").inputs(&["this_file_does_not_exist_xyz.txt"]);
    let snapshot = InputSnapshot {
        env: Vec::new(),
        patterns: vec![PatternScan {
            pattern: "this_file_does_not_exist_xyz.txt".to_string(),
            entries: Ok(Vec::new()),
        }],
        files: Vec::new(),
    };
    let hash1 = enabled_hash(manager.compute_hash("pipeline", &task, &snapshot));
    let hash2 = enabled_hash(manager.compute_hash("pipeline", &task, &snapshot));
    assert_eq!(hash1, hash2);

    let rote_manager = rote::CacheManager::new();
    let rote_task = rote::Task::new("test-task").inputs(&["this_file_does_not_exist_xyz.txt"]);
    let rote1 = rote_manager.compute_hash(&rote_task, &snapshot).unwrap();
    let rote2 = rote_manager.compute_hash(&rote_task, &snapshot).unwrap();
    assert_eq!(rote1, rote2);
}

#[test]
fn test_pipeline_hash_namespaces_same_task() {
    let first = CacheManager::for_pipeline("one").cache_file("build");
    let second = CacheManager::for_pipeline("two").cache_file("build");
    assert_ne!(first, second);
}

#[test]
fn test_task_file_name_adds_hash_suffix_to_avoid_collisions() {
    let slash = task_file_name("foo/bar");
    let underscore = task_file_name("foo_bar");

    assert_ne!(slash, underscore);
    assert!(slash.starts_with("foo_bar-"));
    assert!(underscore.starts_with("foo_bar-"));
    assert!(!slash.ends_with(".json"));
}

#[test]
fn task_file_name_of_empty_name_and_suffix_length() {
    let empty = task_file_name("");
    assert!(empty.starts_with("task-"));
    assert_eq!(empty.len(), "task-".len() + 16);
    let name = task_file_name("a b");
    assert!(name.starts_with("a_b-"));
    assert!(name[4..].chars().all(|c| c.is_ascii_hexdigit() && !c.is_ascii_uppercase()));
}

#[test]
fn pipeline_hash_is_sixteen_hex_digits_of_sha256() {
    // SHA-256("one") = 7692c3ad3540bb803c020b3aee66cd8887123234ea0c6e7143c0add73ff431ed
    assert_eq!(runkernel::cache::pipeline_hash("one"), "7692c3ad3540bb80");
    assert_eq!(
        CacheManager::for_pipeline("one").cache_dir(),
        ".runkernel/cache/7692c3ad3540bb80"
    );
}

#[test]
fn cache_locations() {
    let manager = CacheManager::new();
    assert_eq!(manager.cache_root(), ".runkernel/cache");
    assert_eq!(manager.cache_dir(), ".runkernel/cache/default");
    let custom = CacheManager::with_cache_root("/tmp/root");
    assert_eq!(custom.cache_root(), "/tmp/root");
    assert_eq!(custom.pipeline_cache_dir("one"), "/tmp/root/7692c3ad3540bb80");
    let file = custom.cache_file("build");
    assert!(file.starts_with("/tmp/root/default/build-"));
    assert!(file.ends_with(".json"));
}

#[test]
fn test_clean_missing_cache_succeeds() {
    let manager = CacheManager::with_cache_root("/tmp/runkernel-clean-missing");
    let result = manager.clean_all(false);
    assert_eq!(result.path, "/tmp/runkernel-clean-missing");
    assert!(!result.removed);
}

#[test]
fn clean_results_report_paths() {
    let manager = CacheManager::with_cache_root("/tmp/root");
    let all = manager.clean_all(true);
    assert_eq!(all.path, "/tmp/root");
    assert!(all.removed);
    let one = manager.clean_pipeline("first", true);
    assert_eq!(one.path, manager.pipeline_cache_dir("first"));
    assert!(one.removed);
}

#[test]
fn test_shell_command_changes_hash() {
    let manager = CacheManager::new();
    let first = enabled_hash(manager.compute_hash(
        "pipeline",
        &Task::new("build").exec("echo one").cache_key("v1"),
        &no_inputs(),
    ));
    let second = enabled_hash(manager.compute_hash(
        "pipeline",
        &Task::new("build").exec("echo two").cache_key("v1"),
        &no_inputs(),
    ));
    assert_ne!(first, second);
}

#[test]
fn shell_override_changes_hash() {
    let manager = CacheManager::new();
    let first = enabled_hash(manager.compute_hash(
        "pipeline",
        &Task::new("build").exec("echo one").cache_key("v1"),
        &no_inputs(),
    ));
    let second = enabled_hash(manager.compute_hash(
        "pipeline",
        &Task::new("build").exec_with(Shell::Bash, "echo one").cache_key("v1"),
        &no_inputs(),
    ));
    assert_ne!(first, second);
}

#[test]
fn explicit_key_identity_is_the_documented_message() {
    // The identity of a shell task with an explicit key and nothing else, hashed by hand.
    let manager = CacheManager::new();
    let task = Task::new("build").exec("cargo build").cache_key("v1");
    let hash = enabled_hash(manager.compute_hash("p", &task, &no_inputs()));
    let message = "pipeline:p\ntask:build\ndependencies:\naction:shell:None:cargo build\nexplicit-key:v1\nenv:\ninputs:";
    let expected = hex::encode(sha2::Sha256::digest(message.as_bytes()));
    assert_eq!(hash, expected);
}

#[test]
fn test_native_function_without_identity_is_not_cacheable_and_explains_why() {
    let manager = CacheManager::new();
    let task = Task::new("native").exec_fn();
    let reason = match manager.compute_hash("pipeline", &task, &no_inputs()).unwrap() {
        CacheEligibility::Disabled(reason) => reason,
        CacheEligibility::Enabled { .. } => panic!("task should not be cacheable"),
    };
    assert!(reason.contains("native function task cache disabled"));
    assert!(reason.contains("closure body is not hashed"));
}

#[test]
fn test_native_function_with_inputs_explains_closure_is_not_hashed() {
    let manager = CacheManager::new();
    let task = Task::new("native").exec_fn().env_vars(&["RUNKERNEL_NATIVE_CACHE_REASON"]);
    let reason = enabled_reason(manager.compute_hash("pipeline", &task, &no_inputs()));
    assert!(reason.contains("declared inputs/env only"));
    assert!(reason.contains("closure body is not hashed"));
}

#[test]
fn test_native_function_with_explicit_key_explains_closure_is_not_hashed() {
    let manager = CacheManager::new();
    let task = Task::new("native").exec_fn().cache_key("native-v1");
    let reason = enabled_reason(manager.compute_hash("pipeline", &task, &no_inputs()));
    assert!(reason.contains("explicit cache key for native function task"));
    assert!(reason.contains("closure body is not hashed"));
}

#[test]
fn disabled_and_unkeyed_tasks_are_not_cached() {
    let manager = CacheManager::new();
    assert_eq!(
        manager.compute_hash("p", &Task::new("t").inputs(&["a"]).cache_disabled(), &no_inputs()),
        Ok(CacheEligibility::Disabled("cache disabled for task".to_string()))
    );
    assert_eq!(
        manager.compute_hash("p", &Task::new("t").exec("true"), &no_inputs()),
        Ok(CacheEligibility::Disabled(
            "no declared file inputs, environment variables, or explicit cache key".to_string()
        ))
    );
    assert_eq!(
        enabled_reason(manager.compute_hash("p", &Task::new("t").inputs(&["a"]), &no_inputs())),
        "declared inputs or environment variables"
    );
    assert_eq!(
        enabled_reason(manager.compute_hash("p", &Task::new("t").cache_key("k"), &no_inputs())),
        "explicit cache key and declared inputs"
    );
}

#[test]
fn test_env_var_changes_invalidate_hash() {
    let key = "RUNKERNEL_TEST_CACHE_ENV_VAR";
    let manager = CacheManager::new();
    let task = Task::new("env").env_vars(&[key]);
    let with = |value: &str| InputSnapshot {
        env: vec![(key.to_string(), value.to_string())],
        patterns: Vec::new(),
        files: Vec::new(),
    };
    let first = enabled_hash(manager.compute_hash("pipeline", &task, &with("one")));
    let second = enabled_hash(manager.compute_hash("pipeline", &task, &with("two")));
    assert_ne!(first, second);
}

#[test]
fn test_input_file_changes_hash() {
    let manager = CacheManager::new();
    let task = Task::new("file").inputs(&["dir/input.txt"]);
    let with = |contents: &str| InputSnapshot {
        env: Vec::new(),
        patterns: vec![PatternScan {
            pattern: "dir/input.txt".to_string(),
            entries: Ok(vec![GlobEntry::File("dir/input.txt".to_string())]),
        }],
        files: vec![("dir/input.txt".to_string(), FileRead::Contents(contents.as_bytes().to_vec()))],
    };
    let first = enabled_hash(manager.compute_hash("pipeline", &task, &with("one")));
    let second = enabled_hash(manager.compute_hash("pipeline", &task, &with("two")));
    assert_ne!(first, second);
}

#[test]
fn test_invalid_glob_returns_error() {
    let manager = CacheManager::new();
    let snapshot = InputSnapshot {
        env: Vec::new(),
        patterns: vec![PatternScan {
            pattern: "[".to_string(),
            entries: Err("Pattern syntax error near position 0: invalid range pattern".to_string()),
        }],
        files: Vec::new(),
    };
    let err = manager
        .compute_hash("pipeline", &Task::new("bad-glob").inputs(&["["]), &snapshot)
        .unwrap_err();
    assert!(err.contains("Invalid glob pattern"));
    assert_eq!(
        err,
        "Invalid glob pattern '[': Pattern syntax error near position 0: invalid range pattern"
    );
}

#[test]
fn glob_entry_error_and_file_errors_are_reported() {
    let manager = CacheManager::new();
    let task = Task::new("t").inputs(&["src/*"]);
    let failing = InputSnapshot {
        env: Vec::new(),
        patterns: vec![PatternScan {
            pattern: "src/*".to_string(),
            entries: Ok(vec![GlobEntry::Failed("permission denied".to_string())]),
        }],
        files: Vec::new(),
    };
    assert_eq!(
        manager.compute_hash("p", &task, &failing),
        Err("Failed to resolve glob pattern 'src/*': permission denied".to_string())
    );
    let unreadable = InputSnapshot {
        env: Vec::new(),
        patterns: vec![PatternScan {
            pattern: "src/*".to_string(),
            entries: Ok(vec![GlobEntry::File("src/a".to_string())]),
        }],
        files: vec![("src/a".to_string(), FileRead::OpenFailed("denied".to_string()))],
    };
    assert_eq!(
        manager.compute_hash("p", &task, &unreadable),
        Err("Failed to open input file 'src/a' for hashing: denied".to_string())
    );
}

#[test]
fn resolve_inputs_sorts_dedups_and_ignores() {
    let manager = CacheManager::new();
    let task = Task::new("t").inputs(&["b/*", "a/*"]);
    let scans = vec![
        PatternScan {
            pattern: "a/*".to_string(),
            entries: Ok(vec![
                GlobEntry::File("a/z".to_string()),
                GlobEntry::File("a/target/x".to_string()),
                GlobEntry::Other("a/dir".to_string()),
            ]),
        },
        PatternScan {
            pattern: "b/*".to_string(),
            entries: Ok(vec![GlobEntry::File("a/z".to_string()), GlobEntry::File("a/b".to_string())]),
        },
    ];
    assert_eq!(
        manager.resolve_inputs(&task, &scans),
        Ok(vec!["a/b".to_string(), "a/z".to_string()])
    );
}

#[test]
fn input_files_follow_path_order_and_equality() {
    let manager = CacheManager::new();
    let task = Task::new("t").inputs(&["**/*"]);
    let files = |v: &[&str]| v.iter().map(|f| GlobEntry::File(f.to_string())).collect::<Vec<_>>();
    let scans = vec![PatternScan {
        pattern: "**/*".to_string(),
        entries: Ok(files(&["src/./a.rs", "a.rs", "src//b.rs", "src/a.rs", "../y", "./x", "/abs", "a/b"])),
    }];
    assert_eq!(
        manager.resolve_inputs(&task, &scans),
        Ok(vec![
            "/abs".to_string(),
            "./x".to_string(),
            "../y".to_string(),
            "a/b".to_string(),
            "a.rs".to_string(),
            "src/./a.rs".to_string(),
            "src//b.rs".to_string(),
        ])
    );
}

#[test]
fn path_order_by_components() {
    assert!(path_less("a/b", "a.rs"));
    assert!(!path_less("a.rs", "a/b"));
    assert!(path_eq("src/./a.rs", "src/a.rs"));
    assert!(path_eq("src//a.rs/", "src/a.rs"));
    assert!(!path_eq("./a", "a"));
    assert!(path_less("/z", "./a"));
    let v: Vec<String> = ["b", "a/./c", "a/c", "a"].iter().map(|s| s.to_string()).collect();
    let sorted = sort_paths(&v);
    assert_eq!(sorted, vec!["a", "a/./c", "a/c", "b"]);
    assert_eq!(dedup_paths(&sorted), vec!["a", "a/./c", "b"]);
}

#[test]
fn lookup_reasons() {
    let manager = CacheManager::new();
    let entry = |hash: &str| CacheEntry {
        task_name: "t".to_string(),
        hash: hash.to_string(),
        timestamp: 7,
        outputs: 42u32,
    };
    match manager.lookup("h", StoredEntry::Found(entry("h"))) {
        CacheLookup::Hit { reason, outputs } => {
            assert_eq!(reason, "cache entry hash matches current task identity");
            assert_eq!(outputs, 42);
        }
        CacheLookup::Miss { .. } => panic!("expected a hit"),
    }
    match manager.lookup("h", StoredEntry::Found(entry("other"))) {
        CacheLookup::Miss { reason } => {
            assert_eq!(reason, "cache entry hash does not match current task identity")
        }
        CacheLookup::Hit { .. } => panic!("expected a miss"),
    }
    match manager.lookup::<u32>("h", StoredEntry::NotFound) {
        CacheLookup::Miss { reason } => assert_eq!(reason, "no cache entry found"),
        CacheLookup::Hit { .. } => panic!("expected a miss"),
    }
    match manager.lookup::<u32>("h", StoredEntry::Unreadable) {
        CacheLookup::Miss { reason } => assert_eq!(reason, "cache entry could not be parsed"),
        CacheLookup::Hit { .. } => panic!("expected a miss"),
    }
}

#[test]
fn save_cache_targets_the_task_file() {
    let manager = CacheManager::for_pipeline("one");
    let (path, entry) = manager.save_cache("build", "abc", 99, vec![1u8]);
    assert_eq!(path, manager.cache_file("build"));
    assert_eq!(entry.task_name, "build");
    assert_eq!(entry.hash, "abc");
    assert_eq!(entry.timestamp, 99);
    assert_eq!(entry.outputs, vec![1u8]);
}

#[test]
fn rote_cache_manager_paths_and_lookup() {
    let manager = rote::CacheManager::new();
    assert_eq!(manager.cache_file("build"), ".rote/cache/build.json");
    let (path, entry) = manager.save_cache("build", "abc", 5);
    assert_eq!(path, ".rote/cache/build.json");
    assert!(manager.is_cached("abc", Some(entry.clone())));
    assert!(!manager.is_cached("xyz", Some(entry)));
    assert!(!manager.is_cached("abc", None));
}

#[test]
fn rote_hash_skips_missing_files_and_bad_entries() {
    let manager = rote::CacheManager::new();
    let task = rote::Task::new("t").exec("make").inputs(&["src/*"]);
    let with_files = |files: Vec<(String, FileRead)>| InputSnapshot {
        env: Vec::new(),
        patterns: vec![PatternScan {
            pattern: "src/*".to_string(),
            entries: Ok(vec![
                GlobEntry::File("src/b".to_string()),
                GlobEntry::Failed("denied".to_string()),
                GlobEntry::File("src/a".to_string()),
            ]),
        }],
        files,
    };
    let missing = manager.compute_hash(&task, &with_files(Vec::new())).unwrap();
    let none = manager.compute_hash(&rote::Task::new("t").exec("make"), &no_inputs()).unwrap();
    assert_eq!(missing, none);
    let present = manager
        .compute_hash(&task, &with_files(vec![("src/a".to_string(), FileRead::Contents(b"x".to_vec()))]))
        .unwrap();
    assert_ne!(present, missing);
    assert_eq!(present, hex::encode(sha2::Sha256::digest(b"shell:makesrc/a:x\n")));
}

#[test]
fn rote_invalid_pattern_fails() {
    let manager = rote::CacheManager::new();
    let task = rote::Task::new("t").inputs(&["["]);
    let snapshot = InputSnapshot {
        env: Vec::new(),
        patterns: vec![PatternScan { pattern: "[".to_string(), entries: Err("bad".to_string()) }],
        files: Vec::new(),
    };
    assert_eq!(manager.compute_hash(&task, &snapshot), Err("Invalid glob pattern '[': bad".to_string()));
}
