//! Diagnostics after a failure.
use std::time::Duration;

use mish::enrich::{
    ahead_behind, alike_lowered, ancestors, base_command, branch_exists, branch_list_similar,
    command_similar, detect_intent, diagnose_permissions, dir_listing, edit_distance, enrich,
    entry_names, extract_port, first_or_last, first_true, fuzzy_match, is_git_repo,
    last_valid_step, list_siblings, listing_places, lookup_package_hint, map_exit_code,
    node_modules_check, path_steps, path_walk, port_listening, remote_ref_status,
    working_tree_clean, Answer, Budget, CommandIntent, DirEntry, EnrichmentResult, FileAccess,
    FileOpDiagnosis, Listing, PathDiagnosis, Probe,
};
use mish::grammar::{
    convert_raw_grammar, EnrichArgMapping, EnrichConfig, Grammar, RawGrammar, RawToolInfo,
};
use mish::strmap::StrMap;

/// The files that there are. A path that ends with a slash is a directory.
struct World {
    paths: Vec<String>,
}

impl World {
    fn empty() -> World {
        World { paths: vec![] }
    }

    fn with(paths: &[&str]) -> World {
        World { paths: paths.iter().map(|p| p.to_string()).collect() }
    }

    fn is_there(&self, path: &str) -> bool {
        let dir = format!("{path}/");
        path == "/" || self.paths.iter().any(|p| p == path || p.starts_with(&dir))
    }

    /// What stands in a directory.
    fn entries(&self, dir: &str) -> Vec<DirEntry> {
        let below = format!("{dir}/");
        let mut entries: Vec<DirEntry> = vec![];
        for path in &self.paths {
            if let Some(rest) = path.strip_prefix(&below) {
                let name = rest.split('/').next().unwrap().to_string();
                if !name.is_empty() && entries.iter().all(|e| e.name != name) {
                    entries.push(DirEntry { is_dir: rest.contains('/'), name });
                }
            }
        }
        entries
    }

    fn walk(&self, path: &str) -> Option<PathDiagnosis> {
        let steps = path_steps(path);
        let missing = steps.iter().position(|s| !self.is_there(s));
        let siblings = match missing {
            Some(i) if i > 0 => list_siblings(&self.entries(&steps[i - 1])),
            _ => vec![],
        };
        path_walk(path, missing, siblings)
    }

    fn answer(&self, probe: &Probe) -> Answer {
        match probe {
            Probe::Source(path) => Answer::Info { info: path.clone(), exists: self.is_there(path) },
            Probe::PathWalk(path) => Answer::Path(self.walk(path)),
            Probe::Permissions(_) => Answer::Access(None),
            Probe::GitRepo => Answer::Found(None),
            Probe::Port(_) => Answer::Listening(false),
            Probe::Listing(dir) => Answer::Directory {
                dir: dir.clone(),
                listing: Listing::Entries(self.entries(dir)),
            },
            Probe::NodeModules => Answer::Age { exists: false, seconds: None },
            Probe::SimilarCommands(_) => Answer::Programs(vec![]),
            Probe::PackageHint(_) => Answer::Nothing,
            Probe::FileOp { source, dest } => Answer::Ends(FileOpDiagnosis {
                source_exists: self.is_there(source),
                source_info: Some(source.clone()),
                dest_exists: self.is_there(dest),
                dest_info: None,
                dest_parent_exists: false,
                dest_parent_info: None,
            }),
            _ => Answer::Output(None),
        }
    }
}

/// Runs an enrichment to its end.
fn enriched(
    world: &World,
    command: &[String],
    exit_code: i32,
    grammar: Option<&Grammar>,
) -> EnrichmentResult {
    let mut course = enrich(command, exit_code, grammar);
    while let Some(probes) = course.next_round(false) {
        for probe in &probes {
            course.take_answer(probe, &world.answer(probe));
        }
    }
    course.finish()
}

fn cmd(args: &[&str]) -> Vec<String> {
    args.iter().map(|s| s.to_string()).collect()
}

// Test 6: Command not found with package hint (rg -> ripgrep)
#[test]
fn test_command_not_found_with_hint() {
    let result = enriched(&World::empty(), &cmd(&["rg", "pattern"]), 127, None);

    // Should have exit code mapping
    let has_signal = result
        .diagnostics
        .iter()
        .any(|d| d.key == "signal" && d.value.contains("command not found"));
    assert!(has_signal, "should have exit code mapping");

    // Should have package hint
    let has_hint = result
        .diagnostics
        .iter()
        .any(|d| d.key == "package_hint" && d.value.contains("ripgrep"));
    assert!(has_hint, "should suggest ripgrep package");
}

// Test 7: Command not found without hint
#[test]
fn test_command_not_found_no_hint() {
    let result = enriched(&World::empty(), &cmd(&["obscure_command_xyz"]), 127, None);

    let has_signal = result
        .diagnostics
        .iter()
        .any(|d| d.key == "signal" && d.value.contains("command not found"));
    assert!(has_signal);

    let has_hint = result
        .diagnostics
        .iter()
        .any(|d| d.key == "package_hint" && d.value.contains("no known package"));
    assert!(has_hint, "should say no known package");
}

// Test 13: Exit code 127 mapping
#[test]
fn test_exit_code_127() {
    let line = map_exit_code(127).unwrap();
    assert_eq!(line.key, "signal");
    assert!(line.value.contains("command not found"));
    assert!(line.value.contains("127"));
}

// Test 14: Exit code 126 mapping
#[test]
fn test_exit_code_126() {
    let line = map_exit_code(126).unwrap();
    assert_eq!(line.key, "signal");
    assert!(line.value.contains("permission denied"));
    assert!(line.value.contains("126"));
}

// Test 15: Exit code 130 mapping (SIGINT)
#[test]
fn test_exit_code_130() {
    let result = enriched(&World::empty(), &cmd(&["sleep", "100"]), 130, None);

    // Should have signal mapping but minimal other enrichment
    let has_signal = result
        .diagnostics
        .iter()
        .any(|d| d.key == "signal" && d.value.contains("SIGINT"));
    assert!(has_signal, "should map 130 to SIGINT");

    // Should be minimal — no file ops, no path walks
    assert!(
        result.diagnostics.len() <= 2,
        "SIGINT should produce minimal enrichment, got {} diagnostics",
        result.diagnostics.len()
    );
}

// Test 16: Exit code 137 mapping (OOM)
#[test]
fn test_exit_code_137() {
    let result = enriched(&World::empty(), &cmd(&["big_process"]), 137, None);

    let has_signal = result
        .diagnostics
        .iter()
        .any(|d| d.key == "signal" && d.value.contains("OOM"));
    assert!(has_signal, "should map 137 to OOM");

    // Minimal enrichment for OOM
    assert!(
        result.diagnostics.len() <= 2,
        "OOM should produce minimal enrichment"
    );
}

// Additional unit tests for helpers

#[test]
fn test_edit_distance() {
    assert_eq!(edit_distance("kitten", "sitting"), 3);
    assert_eq!(edit_distance("", "abc"), 3);
    assert_eq!(edit_distance("abc", "abc"), 0);
    assert_eq!(edit_distance("ab", "ba"), 2);
}

#[test]
fn test_fuzzy_match() {
    assert!(fuzzy_match("rg", "rga"));        // prefix
    assert!(fuzzy_match("bat", "batcat"));     // prefix
    assert!(!fuzzy_match("abc", "abc"));       // exact match => false
    assert!(fuzzy_match("abc", "abcd"));       // prefix
    assert!(fuzzy_match("gti", "git"));        // edit distance 2
}

#[test]
fn test_detect_intent() {
    assert_eq!(detect_intent(&cmd(&["cp", "a", "b"])), CommandIntent::FileOp);
    assert_eq!(detect_intent(&cmd(&["mkdir", "dir"])), CommandIntent::DirOp);
    assert_eq!(detect_intent(&cmd(&["curl", "url"])), CommandIntent::NetworkOp);
    assert_eq!(detect_intent(&cmd(&["cargo", "build"])), CommandIntent::BuildRun);
    assert_eq!(detect_intent(&cmd(&["unknown"])), CommandIntent::ProcessExec);
}

#[test]
fn test_package_hint_lookup() {
    assert_eq!(lookup_package_hint("rg"), Some("ripgrep"));
    assert_eq!(lookup_package_hint("fd"), Some("fd-find"));
    assert_eq!(lookup_package_hint("unknown_cmd"), None);
}

#[test]
fn test_budget_tracker() {
    let budget = Budget::new(100);
    assert!(!budget.exhausted());
    assert!(budget.remaining() > Duration::ZERO);
}

#[test]
fn test_base_command() {
    assert_eq!(base_command("/usr/bin/ls"), "ls");
    assert_eq!(base_command("git"), "git");
    assert_eq!(base_command("./script.sh"), "script.sh");
}

#[test]
fn test_extract_port() {
    let args = cmd(&["curl", "http://localhost:8080/api"]);
    assert_eq!(extract_port(&args, ""), Some(8080));

    let args2 = cmd(&["curl", "-p", "3000"]);
    assert_eq!(extract_port(&args2, ""), Some(3000));

    let args3 = cmd(&["curl", "https://example.com"]);
    assert_eq!(extract_port(&args3, ""), None);
}

// ---------------------------------------------------------------------------
// Paths
// ---------------------------------------------------------------------------

// Test 1: Path resolution — break point detection
#[test]
fn test_path_walk_break_point() {
    let world = World::with(&["/tmp/x/a/"]);
    // /tmp/x/a exists, /tmp/x/a/b does not, /tmp/x/a/b/c does not
    let diag = world.walk("/tmp/x/a/b/c").unwrap();
    assert_eq!(diag.last_valid, "/tmp/x/a");
    assert_eq!(diag.breaks_at, "/tmp/x/a/b");
    assert_eq!(diag.requested, "/tmp/x/a/b/c");
}

// Test 2: Path resolution — fully valid path
#[test]
fn test_path_walk_fully_valid() {
    let world = World::with(&["/tmp/x/"]);
    let result = world.walk("/tmp/x");
    assert!(result.is_none(), "fully valid path should return None");
}

#[test]
fn test_path_walk_siblings() {
    let world = World::with(&["/tmp/x/alpha/", "/tmp/x/beta/"]);
    let diag = world.walk("/tmp/x/gamma/deep").unwrap();

    // Siblings should contain alpha/ and beta/ (the contents of the temp dir)
    assert!(diag.siblings.iter().any(|s| s.contains("alpha")));
    assert!(diag.siblings.iter().any(|s| s.contains("beta")));
}

// Test 3: Source/target existence — source exists, dest doesn't
#[test]
fn test_source_exists_dest_doesnt() {
    let world = World::with(&["/tmp/x/source.txt"]);
    let result = enriched(
        &world,
        &cmd(&["cp", "/tmp/x/source.txt", "/tmp/x/nonexistent_dir/dest.txt"]),
        1,
        None,
    );

    // Should have diagnostics about the paths
    assert!(!result.diagnostics.is_empty());
    // Check that source is reported as existing
    let has_source = result
        .diagnostics
        .iter()
        .any(|d| d.key == "source" && d.value.contains("\u{2713}"));
    assert!(has_source, "should report source exists");
}

// Test 4: Source/target existence — neither exists
#[test]
fn test_neither_source_nor_dest_exists() {
    let world = World::with(&["/tmp/x/"]);
    let result =
        enriched(&world, &cmd(&["cp", "/tmp/x/no_source.txt", "/tmp/x/no_dest.txt"]), 1, None);
    assert!(!result.diagnostics.is_empty());
}

// Test 5: Permission diagnosis — file owned by current user but no write
#[test]
fn test_permission_diagnosis() {
    let d = diagnose_permissions(&FileAccess {
        path: "/tmp/x/readonly.txt".into(),
        mode: 0o100444,
        file_uid: 1000,
        file_gid: 1000,
        running_uid: 1000,
        running_gid: 1000,
        owner: "me".into(),
        group: "us".into(),
        running_as: "me".into(),
        running_group: "us".into(),
    });
    assert_eq!(d.mode & 0o7777, 0o444);
    assert!(d.issue.contains("write"), "should identify write issue: {}", d.issue);
}

// Test 8: Budget enforcement — verify we don't exceed 100ms
#[test]
fn test_budget_enforcement() {
    // without time left there is nothing to look up
    let mut course = enrich(&cmd(&["some_command", "/a/b/c/d/e/f"]), 1, None);
    let mut probes = 0;
    while let Some(round) = course.next_round(true) {
        probes += round.len();
    }
    assert_eq!(probes, 0);
    let budget = Budget::new(100);
    assert!(budget.exhausted_after(Duration::from_millis(100)));
    assert!(!budget.exhausted_after(Duration::from_millis(99)));
    assert_eq!(budget.remaining_after(Duration::from_millis(30)), Duration::from_millis(70));
}

// Test 9: File op enrichment — cp with missing dest parent
#[test]
fn test_file_op_missing_dest_parent() {
    let world = World::with(&["/tmp/x/file.txt"]);
    let result = enriched(
        &world,
        &cmd(&["cp", "/tmp/x/file.txt", "/tmp/x/nonexistent/sub/dest.txt"]),
        1,
        None,
    );

    // Should have path walk info showing the break
    let has_path = result
        .diagnostics
        .iter()
        .any(|d| d.key == "path" && d.value.contains("\u{2717}"));
    assert!(has_path, "should show path break point");
}

// Test 10: File op enrichment — mv with missing source
#[test]
fn test_file_op_missing_source() {
    let world = World::with(&["/tmp/x/"]);
    let result =
        enriched(&world, &cmd(&["mv", "/tmp/x/no_such_file.txt", "/tmp/x/dest.txt"]), 1, None);

    assert!(!result.diagnostics.is_empty());
    // Source should be marked as not existing
    let has_source = result
        .diagnostics
        .iter()
        .any(|d| d.key == "source" && d.value.contains("\u{2717}"));
    assert!(has_source, "should report source does not exist");
}

// Test 11: Git enrichment — not a git repo
#[test]
fn test_git_not_a_repo() {
    let diag = is_git_repo(None);
    assert_eq!(diag.key, "git_repo");
    assert!(
        diag.value.contains("not a git repository"),
        "should say not a git repository, got: {}",
        diag.value
    );
}

// Test 12: Network enrichment — port not listening
#[test]
fn test_port_not_listening() {
    let diag = port_listening(19876, false);
    assert_eq!(diag.key, "port");
    assert!(
        diag.value.contains("not listening"),
        "port 19876 should not be listening: {}",
        diag.value
    );
}

// Test 17: Enrichment with grammar on_failure list
#[test]
fn test_enrichment_with_grammar_on_failure() {
    let grammar = convert_raw_grammar(RawGrammar {
        tool: RawToolInfo { name: "cp".into(), detect: None, inherit: None, category: None },
        detect: None,
        inherit: None,
        global_noise: vec![],
        actions: StrMap::new(),
        fallback: None,
        quiet: None,
        verbosity: None,
        enrich: Some(EnrichConfig {
            on_failure: cmd(&["source_exists", "dest_path_walk", "permissions"]),
            args: Some(EnrichArgMapping { path_args: vec![0, 1] }),
            actions: StrMap::new(),
        }),
        category: None,
        block: vec![],
        llm_hints: vec![],
    })
    .unwrap();
    let world = World::with(&["/tmp/x/exists.txt"]);
    let result = enriched(
        &world,
        &cmd(&["cp", "/tmp/x/exists.txt", "/tmp/x/no_dir/file.txt"]),
        1,
        Some(&grammar),
    );

    // Should have diagnostics from the grammar on_failure list
    assert!(!result.diagnostics.is_empty());

    // Should have source_exists diagnostic
    let has_source = result.diagnostics.iter().any(|d| d.key == "source");
    assert!(has_source, "grammar should trigger source_exists diagnostic");

    // Should have path walk diagnostic (dest breaks)
    let has_path = result.diagnostics.iter().any(|d| d.key == "path");
    assert!(has_path, "grammar should trigger dest_path_walk diagnostic");
}

// ---------------------------------------------------------------------------
// What outside programs and directories tell
// ---------------------------------------------------------------------------

#[test]
fn branches_are_told() {
    assert_eq!(branch_exists("main", Some("* main\n")).key, "branch");
    assert_ne!(
        branch_exists("main", Some("* main\n")).value,
        branch_exists("main", Some("")).value
    );
    let similar = branch_list_similar("mian", Some("  main\n* dev\n"));
    assert!(similar.value.contains("main"), "{}", similar.value);
    assert!(!similar.value.contains("dev"), "{}", similar.value);
}

#[test]
fn trees_and_remotes_are_told() {
    let clean = working_tree_clean(Some(""));
    let dirty = working_tree_clean(Some(" M a.rs\n?? b.rs\n"));
    assert_ne!(clean.value, dirty.value);
    assert_ne!(remote_ref_status(None).value, remote_ref_status(Some("origin\n")).value);
    assert_ne!(ahead_behind(Some("2\t1\n")).value, ahead_behind(None).value);
}

#[test]
fn directories_are_listed() {
    let entries = vec![
        DirEntry { name: "src".into(), is_dir: true },
        DirEntry { name: "a.txt".into(), is_dir: false },
    ];
    assert_eq!(entry_names(&entries), vec!["src/", "a.txt"]);
    let line = dir_listing("/d", &Listing::Entries(entries));
    assert!(line.value.contains("a.txt") && line.value.contains("src/"), "{}", line.value);
    let line = dir_listing("/d", &Listing::Failed("denied".into()));
    assert!(line.value.contains("denied"), "{}", line.value);
}

#[test]
fn node_modules_are_told() {
    assert_eq!(node_modules_check(false, None).value, "not found (try: npm install)");
    assert_eq!(node_modules_check(true, None).value, "exists (unknown age)");
    assert_ne!(node_modules_check(true, Some(60)).value, node_modules_check(true, Some(90000)).value);
}

#[test]
fn similar_commands_are_told() {
    let names = cmd(&["git", "gist", "zsh"]);
    let line = command_similar("gti", &names);
    assert!(line.value.contains("git"), "{}", line.value);
    assert!(!line.value.contains("zsh"), "{}", line.value);
}

#[test]
fn interrupts_look_nothing_up() {
    for code in [130, 137, 139] {
        let mut course = enrich(&cmd(&["cp", "/a", "/b"]), code, None);
        let mut probes = 0;
        while let Some(round) = course.next_round(false) {
            probes += round.len();
        }
        assert_eq!(probes, 0);
        assert_eq!(course.finish().diagnostics.len(), 1);
    }
}

#[test]
fn letters_of_either_case_are_alike() {
    assert!(fuzzy_match("GIT", "gitk"));
    assert!(alike_lowered("abc", "abd"));
    assert!(!alike_lowered("abc", "wxyz"));
}

#[test]
fn ancestors_of_a_path() {
    assert_eq!(ancestors("/a/b"), vec!["/a/b", "/a", "/"]);
    assert_eq!(ancestors("a//b/c"), vec!["a//b/c", "a//b", "a", ""]);
    assert_eq!(ancestors("."), vec![".", ""]);
    assert_eq!(ancestors(""), vec![""]);
    assert_eq!(listing_places("a/b"), vec!["a/b", "a", ""]);
    assert_eq!(listing_places(""), vec!["", ".", ""]);
    for path in ["/a/b/", "a//b/c", "a/./b", "..", "/"] {
        let expected: Vec<&str> =
            std::path::Path::new(path).ancestors().map(|p| p.to_str().unwrap()).collect();
        assert_eq!(ancestors(path), expected, "{path}");
    }
}

#[test]
fn the_first_place_that_is_there() {
    assert_eq!(first_true(&[false, true, true]), Some(1));
    assert_eq!(first_true(&[false]), None);
    assert_eq!(first_true(&[]), None);
    let places = ancestors("/a/b");
    assert_eq!(first_or_last(&places, &[false, true, true]), "/a");
    assert_eq!(first_or_last(&places, &[false, false, false]), "/");
    assert_eq!(last_valid_step("/a/b", 1), "/a");
    assert_eq!(last_valid_step("/a/b", 0), "/");
    assert_eq!(last_valid_step("a/b", 0), "");
}
