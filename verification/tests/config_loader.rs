//! What is gathered at the start.
use mish::config::default_config;
use mish::config_loader::{
    default_runtime_config, grammar_tool, keep_valid, load_dangerous_patterns_lenient,
    load_runtime_config, skip_warning, CategoriesConfig, RawDangerousPattern,
};
use mish::paths::expand_tilde;
use mish::strmap::StrMap;
use regex::Regex;

fn raw(pattern: &str, reason: &str) -> RawDangerousPattern {
    RawDangerousPattern { pattern: pattern.to_string(), reason: reason.to_string() }
}

// Test: expand_tilde helper
#[test]
fn config_loader_test_expand_tilde() {
    let home = "/home/user";
    let expanded = expand_tilde("~/foo/bar", Some(home));
    assert_eq!(expanded, format!("{home}/foo/bar"));

    // Non-tilde path returned as-is
    let plain = expand_tilde("/usr/local/bin", Some(home));
    assert_eq!(plain, "/usr/local/bin");
}

// Test: MishConfig defaults are sane
#[test]
fn test_default_mish_config() {
    let categories = CategoriesConfig { categories: StrMap::new() };
    let rc = default_runtime_config(StrMap::new(), categories, vec![]);
    assert_eq!(rc.mish_config.server.max_sessions, 5);
    assert_eq!(rc.mish_config.squasher.max_lines, 200);
    assert_eq!(rc.mish_config.timeout_defaults.default, 300);
}

#[test]
fn patterns_that_do_not_compile_are_skipped() {
    let list = [raw(r"rm\s+-rf", "deletes"), raw("[oops", "never"), raw("--force", "forces")];
    let (kept, skipped) = load_dangerous_patterns_lenient(&list);
    assert_eq!(kept.len(), 2);
    assert!(kept[0].pattern.is_match("rm -rf /"));
    assert!(!kept[0].pattern.is_match("rm file"));
    assert_eq!(kept[1].reason, "forces");
    assert_eq!(skipped.len(), 1);
    let (pattern, why) = &skipped[0];
    assert_eq!(
        skip_warning(pattern, why),
        format!("warning: skipping dangerous pattern '[oops': invalid regex: {why}")
    );
}

#[test]
fn compiled_patterns_keep_their_reasons() {
    let list = [raw("a", "first"), raw("b", "second")];
    let (kept, skipped) = keep_valid(&list, vec![Regex::new("("), Regex::new("b")]);
    assert_eq!(kept.len(), 1);
    assert_eq!(kept[0].reason, "second");
    assert_eq!(skipped[0].0, "a");
}

#[test]
fn tools_by_file_names() {
    assert_eq!(grammar_tool("npm.toml"), Some("npm".to_string()));
    assert_eq!(grammar_tool("a.b.toml"), Some("a.b".to_string()));
    assert_eq!(grammar_tool("_meta.toml"), None);
    assert_eq!(grammar_tool("npm.TOML"), None);
    assert_eq!(grammar_tool(".toml"), None);
}

#[test]
fn runtime_config_from_its_parts() {
    let categories = CategoriesConfig { categories: StrMap::new() };
    let mut config = default_config();
    config.server.max_sessions = 9;
    let (rc, warnings) =
        load_runtime_config(config, StrMap::new(), vec![], vec![], categories, vec![]);
    assert_eq!(rc.mish_config.server.max_sessions, 9);
    assert!(rc.grammars.is_empty());
    assert!(warnings.is_empty());
}
