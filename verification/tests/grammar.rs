//! Grammars: how they are read, what their rules say of lines, and the parts that
//! go by them.
use std::collections::VecDeque;
use std::time::Duration;

use mish::category::Category;
use mish::classifier::{
    classify_tier2, compress_trace, is_similar, AnsiColor, AnsiMetadata, Classification,
    Classifier, ClassifierState, DedupResult, LineSigns, NoiseAction, Step, UniversalClass, RING_BUFFER_SIZE,
    VOLUME_THRESHOLD,
};
use mish::config_loader::{load_bundled_grammars, load_grammars, GrammarFile, GrammarOutcome};
use mish::distance::levenshtein;
use mish::emit::EmitBuffer;
use mish::grammar::{
    collect_grammars, compile_rules, convert_raw_grammar, detect_tool, evaluate_line,
    evaluate_line_with_fallback, format_summary, resolve_action, resolve_action_name,
    resolve_category, resolve_inherit, try_match_rule, Action, BlockRule, CapturedOutcome,
    EnrichActionConfig, EnrichArgMapping, EnrichConfig, Grammar, GrammarError, LlmHint,
    QuietActionConfig, QuietConfig, RawAction, RawBlockRule, RawGrammar, RawRule,
    RawSummaryTemplate, RawToolInfo, Rule, RuleAction, RuleMatch, Severity, VerbosityConfig,
};
use mish::line_buffer::Line;
use mish::preflight::{inject_verbosity, preflight, OutputMode};
use mish::strmap::StrMap;

// ---------------------------------------------------------------------------
// Reading grammars
// ---------------------------------------------------------------------------

/// The texts of an array.
fn texts(value: Option<&toml::Value>) -> Option<Vec<String>> {
    let list = value?.as_array()?;
    Some(list.iter().filter_map(|v| v.as_str()).map(String::from).collect())
}

fn text(table: &toml::Table, key: &str) -> Option<String> {
    table.get(key).and_then(|v| v.as_str()).map(String::from)
}

/// The tables of an array of tables.
fn tables(table: &toml::Table, key: &str) -> Vec<toml::Table> {
    match table.get(key).and_then(|v| v.as_array()) {
        Some(list) => list.iter().filter_map(|v| v.as_table().cloned()).collect(),
        None => vec![],
    }
}

fn rules(table: &toml::Table, key: &str) -> Vec<RawRule> {
    tables(table, key)
        .iter()
        .map(|t| RawRule {
            pattern: text(t, "pattern").expect("pattern"),
            action: text(t, "action").expect("action"),
            severity: text(t, "severity"),
            captures: texts(t.get("captures")),
            multiline: t.get("multiline").and_then(|v| v.as_integer()).map(|n| n as u32),
        })
        .collect()
}

fn hints(table: &toml::Table) -> Vec<LlmHint> {
    tables(table, "llm_hints")
        .iter()
        .map(|t| LlmHint {
            prefer: text(t, "prefer").expect("prefer"),
            reason: text(t, "reason").expect("reason"),
            mode: text(t, "mode"),
        })
        .collect()
}

fn action(table: &toml::Table) -> RawAction {
    RawAction {
        detect: texts(table.get("detect")),
        noise: rules(table, "noise"),
        hazard: rules(table, "hazard"),
        outcome: rules(table, "outcome"),
        summary: table.get("summary").and_then(|v| v.as_table()).map(|t| RawSummaryTemplate {
            success: text(t, "success"),
            failure: text(t, "failure"),
            partial: text(t, "partial"),
        }),
        llm_hints: hints(table),
        category: text(table, "category"),
    }
}

/// The tables below a key, by their names.
fn named(table: &toml::Table, key: &str) -> Vec<(String, toml::Table)> {
    match table.get(key).and_then(|v| v.as_table()) {
        Some(inner) => inner
            .iter()
            .filter_map(|(name, v)| v.as_table().map(|t| (name.clone(), t.clone())))
            .collect(),
        None => vec![],
    }
}

/// Reads a grammar from TOML.
fn load_grammar_from_str(content: &str) -> Result<Grammar, GrammarError> {
    let doc: toml::Table = content.parse().map_err(GrammarError::Parse)?;
    let tool = doc["tool"].as_table().expect("tool");
    let mut actions = StrMap::new();
    for (name, table) in named(&doc, "actions") {
        actions.insert(name, action(&table));
    }
    let quiet = doc.get("quiet").and_then(|v| v.as_table()).map(|t| {
        let mut own = StrMap::new();
        for (name, table) in named(t, "actions") {
            own.insert(
                name,
                QuietActionConfig {
                    safe_inject: texts(table.get("safe_inject")).unwrap_or_default(),
                    recommend: texts(table.get("recommend")).unwrap_or_default(),
                },
            );
        }
        QuietConfig {
            safe_inject: texts(t.get("safe_inject")).unwrap_or_default(),
            recommend: texts(t.get("recommend")).unwrap_or_default(),
            actions: own,
        }
    });
    let verbosity = doc.get("verbosity").and_then(|v| v.as_table()).map(|t| VerbosityConfig {
        inject: texts(t.get("inject")).unwrap_or_default(),
        provides: texts(t.get("provides")).unwrap_or_default(),
    });
    let enrich = doc.get("enrich").and_then(|v| v.as_table()).map(|t| {
        let mut own = StrMap::new();
        for (name, table) in named(t, "actions") {
            own.insert(
                name,
                EnrichActionConfig {
                    on_failure: texts(table.get("on_failure")).unwrap_or_default(),
                },
            );
        }
        EnrichConfig {
            on_failure: texts(t.get("on_failure")).unwrap_or_default(),
            args: t.get("args").and_then(|v| v.as_table()).map(|a| EnrichArgMapping {
                path_args: a["path_args"]
                    .as_array()
                    .expect("path_args")
                    .iter()
                    .map(|n| n.as_integer().expect("index") as usize)
                    .collect(),
            }),
            actions: own,
        }
    });
    convert_raw_grammar(RawGrammar {
        tool: RawToolInfo {
            name: text(tool, "name").expect("name"),
            detect: texts(tool.get("detect")),
            inherit: texts(tool.get("inherit")),
            category: text(tool, "category"),
        },
        detect: texts(doc.get("detect")),
        inherit: texts(doc.get("inherit")),
        global_noise: rules(&doc, "global_noise"),
        actions,
        fallback: doc.get("fallback").and_then(|v| v.as_table()).map(action),
        quiet,
        verbosity,
        enrich,
        category: text(&doc, "category"),
        block: tables(&doc, "block")
            .iter()
            .map(|t| RawBlockRule {
                start: text(t, "start").expect("start"),
                end: text(t, "end"),
                extract: text(t, "extract").expect("extract"),
                digest: text(t, "digest").expect("digest"),
            })
            .collect(),
        llm_hints: hints(&doc),
    })
}

/// Reads shared rules from TOML.
fn load_shared_rules_from_str(content: &str) -> Result<Vec<Rule>, GrammarError> {
    let doc: toml::Table = content.parse().map_err(GrammarError::Parse)?;
    compile_rules(&rules(&doc, "rules"))
}

fn pairs(list: &[(&str, &str)]) -> StrMap<String> {
    let mut map = StrMap::new();
    for (key, value) in list {
        map.insert(key.to_string(), value.to_string());
    }
    map
}

/// A time in seconds, as a summary shows it.
fn seconds(time: Duration) -> String {
    format!("{:.1}", time.as_secs_f64())
}

// ---------------------------------------------------------------------------
// Classifying
// ---------------------------------------------------------------------------

/// Takes the escape sequences off a line.
fn stripped(raw: &str) -> AnsiMetadata {
    let mut clean = String::new();
    let mut colors = vec![];
    let mut rest = raw;
    while let Some(at) = rest.find('\x1b') {
        clean.push_str(&rest[..at]);
        let end = rest[at..].find('m').map(|n| at + n).unwrap_or(rest.len() - 1);
        match &rest[at..end] {
            "\x1b[31" => colors.push(AnsiColor::Red),
            "\x1b[91" => colors.push(AnsiColor::BrightRed),
            "\x1b[33" => colors.push(AnsiColor::Yellow),
            "\x1b[93" => colors.push(AnsiColor::BrightYellow),
            "\x1b[32" => colors.push(AnsiColor::Green),
            "\x1b[92" => colors.push(AnsiColor::BrightGreen),
            _ => {}
        }
        rest = &rest[end + 1..];
    }
    clean.push_str(rest);
    AnsiMetadata { clean_text: clean, colors }
}

/// A classifier with what it needs around it: lines of the same shape as the one
/// before continue a streak.
struct Watcher {
    classifier: Classifier,
    idle: Duration,
    shape: Option<(String, usize)>,
}

impl Watcher {
    fn new(grammar: Option<&Grammar>, action: Option<&Action>) -> Watcher {
        Watcher {
            classifier: Classifier::new(grammar, action).expect("patterns compile"),
            idle: Duration::ZERO,
            shape: None,
        }
    }

    /// The next line comes after a pause.
    fn pause(&mut self, time: Duration) {
        self.idle = time;
    }

    fn settle(&mut self, step: Step) -> Classification {
        match step {
            Step::Done(class) => class,
            Step::CheckDedup(line) => {
                let words: Vec<&str> = line.split_whitespace().collect();
                let shape = words.first().map(|w| (w.to_string(), words.len()));
                let known = shape.is_some() && shape == self.shape;
                self.shape = shape;
                let result = if known { DedupResult::Absorbed } else { DedupResult::NotSimilar };
                self.classifier.settle_dedup(&line, result)
            }
        }
    }

    fn classify(&mut self, line: Line) -> Classification {
        let meta = match &line {
            Line::Complete(raw) | Line::Overwrite(raw) | Line::Partial(raw) => stripped(raw),
        };
        let idle = std::mem::replace(&mut self.idle, Duration::ZERO);
        let step = self.classifier.classify_after(line, &meta, idle);
        self.settle(step)
    }

    fn drain_deferred(&mut self) -> Option<Classification> {
        let step = self.classifier.drain_deferred()?;
        Some(self.settle(step))
    }

    fn state(&self) -> ClassifierState {
        self.classifier.state()
    }

    fn ring_buffer(&self) -> &VecDeque<String> {
        self.classifier.ring_buffer()
    }

    fn has_outcome(&self) -> bool {
        self.classifier.has_outcome()
    }

    fn consecutive_unknown_count(&self) -> usize {
        self.classifier.consecutive_unknown_count()
    }

    fn resume_from_prompt(&mut self) {
        self.classifier.resume_from_prompt()
    }

    fn notify_silence(&mut self, time: Duration) {
        self.classifier.notify_silence(time)
    }

    fn notify_exit(&mut self, exit_code: i32, signaled: bool) {
        self.classifier.notify_exit(exit_code, signaled)
    }
}

// Test 1: Parse a minimal grammar TOML (just [tool] section)
#[test]
fn test_parse_minimal_grammar() {
    let toml_str = r#"
[tool]
name = "echo"
"#;
    let grammar = load_grammar_from_str(toml_str).unwrap();
    assert_eq!(grammar.tool.name, "echo");
    assert_eq!(grammar.detect, vec!["echo"]);
    assert!(grammar.global_noise.is_empty());
    assert!(grammar.actions.is_empty());
    assert!(grammar.fallback.is_none());
    assert!(grammar.category.is_none());
}

// Test 2: Parse grammar with global_noise rules
#[test]
fn test_parse_grammar_with_global_noise() {
    let toml_str = r#"
[tool]
name = "npm"

[[global_noise]]
pattern = '^npm (timing|http|sill|verb)'
action = "strip"

[[global_noise]]
pattern = '^npm warn'
action = "dedup"
"#;
    let grammar = load_grammar_from_str(toml_str).unwrap();
    assert_eq!(grammar.global_noise.len(), 2);
    assert_eq!(grammar.global_noise[0].action, RuleAction::Strip);
    assert_eq!(grammar.global_noise[1].action, RuleAction::Dedup);
}

// Test 3: Parse grammar with actions and all rule types
#[test]
fn test_parse_grammar_with_actions_all_rule_types() {
    let toml_str = r#"
[tool]
name = "npm"
detect = ["npm", "npx"]

[actions.install]
detect = ["install", "i", "add", "ci"]

[[actions.install.noise]]
pattern = '^(idealTree|reify|resolv)'
action = "strip"

[[actions.install.hazard]]
pattern = 'ERESOLVE'
severity = "error"
action = "keep"

[[actions.install.outcome]]
pattern = '^added (?P<count>\d+) packages? in (?P<time>.+)'
action = "promote"
captures = ["count", "time"]

[actions.install.summary]
success = "+ {count} packages installed ({time})"
failure = "! npm install failed (exit {exit_code})"
partial = "... installing ({lines} lines)"
"#;
    let grammar = load_grammar_from_str(toml_str).unwrap();
    assert_eq!(grammar.detect, vec!["npm", "npx"]);

    let install = grammar.actions.get("install").unwrap();
    assert_eq!(install.detect, vec!["install", "i", "add", "ci"]);
    assert_eq!(install.noise.len(), 1);
    assert_eq!(install.hazard.len(), 1);
    assert_eq!(install.hazard[0].severity, Some(Severity::Error));
    assert_eq!(install.outcome.len(), 1);
    assert_eq!(install.outcome[0].action, RuleAction::Promote);
    assert_eq!(install.outcome[0].captures, vec!["count", "time"]);
}

// Test 4: Parse grammar with summary templates
#[test]
fn test_parse_grammar_with_summary_templates() {
    let toml_str = r#"
[tool]
name = "cargo"

[actions.build]
detect = ["build"]

[actions.build.summary]
success = "+ build succeeded"
failure = "! build failed (exit {exit_code})"
partial = "... compiling"
"#;
    let grammar = load_grammar_from_str(toml_str).unwrap();
    let build = grammar.actions.get("build").unwrap();
    assert_eq!(build.summary.success, "+ build succeeded");
    assert_eq!(
        build.summary.failure,
        "! build failed (exit {exit_code})"
    );
    assert_eq!(build.summary.partial, "... compiling");
}

// Test 5: Parse grammar with inherit list
#[test]
fn test_parse_grammar_with_inherit() {
    let toml_str = r#"
[tool]
name = "npm"
inherit = ["ansi-progress", "node-stacktrace"]
"#;
    let grammar = load_grammar_from_str(toml_str).unwrap();
    assert_eq!(
        grammar.inherit,
        vec!["ansi-progress", "node-stacktrace"]
    );
}

// Test 6: Parse grammar with quiet config
#[test]
fn test_parse_grammar_with_quiet_config() {
    let toml_str = r#"
[tool]
name = "npm"

[quiet]
safe_inject = ["--loglevel=error"]
recommend = ["--silent"]

[quiet.actions.install]
safe_inject = ["--no-fund", "--no-audit"]
recommend = ["--prefer-offline"]
"#;
    let grammar = load_grammar_from_str(toml_str).unwrap();
    let quiet = grammar.quiet.unwrap();
    assert_eq!(quiet.safe_inject, vec!["--loglevel=error"]);
    assert_eq!(quiet.recommend, vec!["--silent"]);
    let install = quiet.actions.get("install").unwrap();
    assert_eq!(install.safe_inject, vec!["--no-fund", "--no-audit"]);
    assert_eq!(install.recommend, vec!["--prefer-offline"]);
}

// Test 7: Parse grammar with verbosity config
#[test]
fn test_parse_grammar_with_verbosity_config() {
    let toml_str = r#"
[tool]
name = "ls"

[verbosity]
inject = ["-la"]
provides = ["permissions", "size", "owner"]
"#;
    let grammar = load_grammar_from_str(toml_str).unwrap();
    let verbosity = grammar.verbosity.unwrap();
    assert_eq!(verbosity.inject, vec!["-la"]);
    assert_eq!(
        verbosity.provides,
        vec!["permissions", "size", "owner"]
    );
}

// Test 8: Parse grammar with enrich config
#[test]
fn test_parse_grammar_with_enrich_config() {
    let toml_str = r#"
[tool]
name = "cp"

[enrich]
on_failure = ["stat {src}", "stat {dst}"]

[enrich.args]
path_args = [0, 1]

[enrich.actions.recursive]
on_failure = ["ls -la {src}"]
"#;
    let grammar = load_grammar_from_str(toml_str).unwrap();
    let enrich = grammar.enrich.unwrap();
    assert_eq!(
        enrich.on_failure,
        vec!["stat {src}", "stat {dst}"]
    );
    let args = enrich.args.unwrap();
    assert_eq!(args.path_args, vec![0, 1]);
    let recursive = enrich.actions.get("recursive").unwrap();
    assert_eq!(recursive.on_failure, vec!["ls -la {src}"]);
}

// Test 9: Parse grammar with fallback action
#[test]
fn test_parse_grammar_with_fallback() {
    let toml_str = r#"
[tool]
name = "make"

[fallback]
detect = []

[[fallback.noise]]
pattern = '^make\[\d+\]:'
action = "strip"

[fallback.summary]
success = "+ make succeeded"
failure = "! make failed"
partial = "... building"
"#;
    let grammar = load_grammar_from_str(toml_str).unwrap();
    let fallback = grammar.fallback.unwrap();
    assert_eq!(fallback.noise.len(), 1);
    assert_eq!(fallback.summary.success, "+ make succeeded");
}

// Test 10: detect_tool matches "npm install" -> npm grammar, install action
#[test]
fn test_detect_tool_npm_install() {
    let toml_str = r#"
[tool]
name = "npm"
detect = ["npm", "npx"]

[actions.install]
detect = ["install", "i", "add", "ci"]

[actions.install.summary]
success = "+ installed"
"#;
    let grammar = load_grammar_from_str(toml_str).unwrap();
    let mut grammars = StrMap::new();
    grammars.insert("npm".to_string(), grammar);

    let args: Vec<String> = vec!["npm", "install"]
        .into_iter()
        .map(String::from)
        .collect();
    let result = detect_tool(&args, &grammars);
    assert!(result.is_some());
    let (g, a) = result.unwrap();
    assert_eq!(g.tool.name, "npm");
    assert!(a.is_some());
    let action = a.unwrap();
    assert_eq!(action.detect, vec!["install", "i", "add", "ci"]);
}

// Test 11: detect_tool matches "cargo build" -> cargo grammar, build action
#[test]
fn test_detect_tool_cargo_build() {
    let toml_str = r#"
[tool]
name = "cargo"

[actions.build]
detect = ["build", "b"]

[actions.build.summary]
success = "+ build ok"
"#;
    let grammar = load_grammar_from_str(toml_str).unwrap();
    let mut grammars = StrMap::new();
    grammars.insert("cargo".to_string(), grammar);

    let args: Vec<String> = vec!["cargo", "build"]
        .into_iter()
        .map(String::from)
        .collect();
    let result = detect_tool(&args, &grammars);
    assert!(result.is_some());
    let (g, a) = result.unwrap();
    assert_eq!(g.tool.name, "cargo");
    assert!(a.is_some());
}

// Test 12: detect_tool returns None for unknown command
#[test]
fn test_detect_tool_unknown_command() {
    let toml_str = r#"
[tool]
name = "npm"
"#;
    let grammar = load_grammar_from_str(toml_str).unwrap();
    let mut grammars = StrMap::new();
    grammars.insert("npm".to_string(), grammar);

    let args: Vec<String> = vec!["curl", "https://example.com"]
        .into_iter()
        .map(String::from)
        .collect();
    let result = detect_tool(&args, &grammars);
    assert!(result.is_none());
}

// Test 13: resolve_action finds correct action from args
#[test]
fn test_resolve_action_finds_correct_action() {
    let toml_str = r#"
[tool]
name = "npm"

[actions.install]
detect = ["install", "i"]

[actions.install.summary]
success = "installed"

[actions.test]
detect = ["test", "t"]

[actions.test.summary]
success = "tested"
"#;
    let grammar = load_grammar_from_str(toml_str).unwrap();
    let args: Vec<String> = vec!["npm", "test"]
        .into_iter()
        .map(String::from)
        .collect();
    let action = resolve_action(&grammar, &args);
    assert!(action.is_some());
    assert_eq!(action.unwrap().summary.success, "tested");
}

// Test 14: resolve_action returns fallback when no action matches
#[test]
fn test_resolve_action_returns_fallback() {
    let toml_str = r#"
[tool]
name = "make"

[actions.build]
detect = ["build"]

[actions.build.summary]
success = "built"

[fallback]

[fallback.summary]
success = "make fallback"
"#;
    let grammar = load_grammar_from_str(toml_str).unwrap();
    let args: Vec<String> = vec!["make", "clean"]
        .into_iter()
        .map(String::from)
        .collect();
    let action = resolve_action(&grammar, &args);
    assert!(action.is_some());
    assert_eq!(action.unwrap().summary.success, "make fallback");
}

// Test 21: format_summary substitutes template variables correctly
#[test]
fn test_format_summary_substitutes_variables() {
    let toml_str = r#"
[tool]
name = "npm"

[actions.install]
detect = ["install"]

[[actions.install.outcome]]
pattern = '^added (?P<count>\d+) packages? in (?P<time>.+)'
action = "promote"
captures = ["count", "time"]

[actions.install.summary]
success = "+ {count} packages installed ({time})"
failure = "! npm install failed (exit {exit_code})"
"#;
    let grammar = load_grammar_from_str(toml_str).unwrap();
    let action = grammar.actions.get("install").unwrap();

    let outcomes = vec![CapturedOutcome {
        captures: pairs(&[
            ("count", "42"),
            ("time", "3.2s"),
        ]),
    }];

    let result = format_summary(&grammar, Some(action), &outcomes, 0, 0);
    assert_eq!(result, vec!["+ 42 packages installed (3.2s)"]);
}

#[test]
fn test_format_summary_failure_template() {
    let toml_str = r#"
[tool]
name = "npm"

[actions.install]
detect = ["install"]

[actions.install.summary]
success = "+ installed"
failure = "! npm install failed (exit {exit_code})"
"#;
    let grammar = load_grammar_from_str(toml_str).unwrap();
    let action = grammar.actions.get("install").unwrap();

    let result = format_summary(&grammar, Some(action), &[], 1, 0);
    assert_eq!(result, vec!["! npm install failed (exit 1)"]);
}

#[test]
fn summaries_tell_the_number_of_lines() {
    let toml_str = r#"
[tool]
name = "make"

[fallback.summary]
success = "{lines} lines, {lines} in all, exit {exit_code} {else}"
failure = "{lines}"
"#;
    let grammar = load_grammar_from_str(toml_str).unwrap();
    assert_eq!(
        format_summary(&grammar, None, &[], 0, 12),
        vec!["12 lines, 12 in all, exit 0 {else}"]
    );
    let caught = vec![
        CapturedOutcome { captures: pairs(&[("lines", "few")]) },
        CapturedOutcome { captures: pairs(&[("lines", "many")]) },
    ];
    assert_eq!(format_summary(&grammar, None, &caught, 2, 12), vec!["many"]);
}

#[test]
fn what_was_caught_is_no_template() {
    let toml_str = r#"
[tool]
name = "make"

[fallback.summary]
success = "{msg}"
failure = "{lines}: {msg}"
"#;
    let grammar = load_grammar_from_str(toml_str).unwrap();
    let caught = vec![CapturedOutcome { captures: pairs(&[("msg", "{lines} {exit_code}")]) }];
    assert_eq!(format_summary(&grammar, None, &caught, 0, 3), vec!["{lines} {exit_code}"]);
    assert_eq!(format_summary(&grammar, None, &caught, 1, 3), vec!["3: {lines} {exit_code}"]);
}

// Test: invalid regex pattern produces error
#[test]
fn test_invalid_regex_produces_error() {
    let toml_str = r#"
[tool]
name = "bad"

[[global_noise]]
pattern = '[invalid'
action = "strip"
"#;
    let result = load_grammar_from_str(toml_str);
    assert!(result.is_err());
    match result.unwrap_err() {
        GrammarError::InvalidRegex { pattern, .. } => {
            assert_eq!(pattern, "[invalid");
        }
        other => panic!("expected InvalidRegex, got: {other:?}"),
    }
}

// Test: grammar with category field
#[test]
fn test_parse_grammar_with_category() {
    let toml_str = r#"
[tool]
name = "vim"
category = "interactive"
"#;
    let grammar = load_grammar_from_str(toml_str).unwrap();
    assert_eq!(grammar.category, Some(Category::Interactive));
}

// Test: detect via tool.detect list
#[test]
fn test_detect_tool_via_detect_list() {
    let toml_str = r#"
[tool]
name = "npm"
detect = ["npm", "npx"]
"#;
    let grammar = load_grammar_from_str(toml_str).unwrap();
    let mut grammars = StrMap::new();
    grammars.insert("npm".to_string(), grammar);

    let args: Vec<String> = vec!["npx", "create-react-app"]
        .into_iter()
        .map(String::from)
        .collect();
    let result = detect_tool(&args, &grammars);
    assert!(result.is_some());
    assert_eq!(result.unwrap().0.tool.name, "npm");
}

// Test: empty args returns None
#[test]
fn test_detect_tool_empty_args() {
    let grammars: StrMap<Grammar> = StrMap::new();
    let args: Vec<String> = vec![];
    let result = detect_tool(&args, &grammars);
    assert!(result.is_none());
}

// Test: resolve_action with only command (no subcommand) and no fallback
#[test]
fn test_resolve_action_no_subcommand_no_fallback() {
    let toml_str = r#"
[tool]
name = "npm"

[actions.install]
detect = ["install"]

[actions.install.summary]
success = "installed"
"#;
    let grammar = load_grammar_from_str(toml_str).unwrap();
    let args: Vec<String> = vec!["npm"].into_iter().map(String::from).collect();
    let action = resolve_action(&grammar, &args);
    assert!(action.is_none());
}

// Test: shared grammar loading
#[test]
fn test_load_shared_rules() {
    let toml_str = r#"
[[rules]]
pattern = '^\s*\d+/\d+\s'
action = "strip"
description = "Counter-style progress"

[[rules]]
pattern = '^\s*\[?[#=\->.]+\]?\s*\d+%'
action = "strip"
description = "Progress bar with percentage"
"#;
    let rules = load_shared_rules_from_str(toml_str).unwrap();
    assert_eq!(rules.len(), 2);
    assert_eq!(rules[0].action, RuleAction::Strip);
    assert_eq!(rules[1].action, RuleAction::Strip);
}

// -----------------------------------------------------------------------
// New tests: evaluate_line
// -----------------------------------------------------------------------

/// Build a grammar with hazard, outcome, and noise rules for testing evaluate_line.
fn build_eval_grammar() -> Grammar {
    let toml_str = r#"
[tool]
name = "cargo"

[[global_noise]]
pattern = '^\s+Compiling'
action = "strip"

[actions.build]
detect = ["build"]

[[actions.build.hazard]]
pattern = '^error\[(?P<code>E\d+)\]'
severity = "error"
action = "keep"
captures = ["code"]
multiline = 3

[[actions.build.hazard]]
pattern = '^warning:'
severity = "warning"
action = "dedup"

[[actions.build.outcome]]
pattern = '^\s+Finished .* in (?P<time>.+)'
action = "promote"
captures = ["time"]

[[actions.build.noise]]
pattern = '^\s+Fresh'
action = "strip"

[actions.build.summary]
success = "+ built in {time}"
failure = "! build failed"
"#;
    load_grammar_from_str(toml_str).unwrap()
}

#[test]
fn test_evaluate_line_hazard_match() {
    let grammar = build_eval_grammar();
    let action = grammar.actions.get("build").unwrap();

    let result = evaluate_line(&grammar, Some(action), "error[E0433]: some error");
    match result {
        RuleMatch::Hazard { action, severity, captures, multiline } => {
            assert_eq!(action, RuleAction::Keep);
            assert_eq!(severity, Some(Severity::Error));
            assert_eq!(captures.get("code").map(|s| s.as_str()), Some("E0433"));
            assert_eq!(multiline, Some(3));
        }
        other => panic!("expected Hazard, got: {:?}", other),
    }
}

#[test]
fn test_evaluate_line_outcome_match() {
    let grammar = build_eval_grammar();
    let action = grammar.actions.get("build").unwrap();

    let result = evaluate_line(&grammar, Some(action), "   Finished `dev` profile in 5.2s");
    match result {
        RuleMatch::Outcome { action, captures, .. } => {
            assert_eq!(action, RuleAction::Promote);
            assert_eq!(captures.get("time").map(|s| s.as_str()), Some("5.2s"));
        }
        other => panic!("expected Outcome, got: {:?}", other),
    }
}

#[test]
fn test_evaluate_line_action_noise_match() {
    let grammar = build_eval_grammar();
    let action = grammar.actions.get("build").unwrap();

    let result = evaluate_line(&grammar, Some(action), "   Fresh serde v1.0.0");
    match result {
        RuleMatch::Noise { action, .. } => {
            assert_eq!(action, RuleAction::Strip);
        }
        other => panic!("expected Noise, got: {:?}", other),
    }
}

#[test]
fn test_evaluate_line_global_noise_match() {
    let grammar = build_eval_grammar();
    let action = grammar.actions.get("build").unwrap();

    let result = evaluate_line(&grammar, Some(action), "   Compiling serde v1.0.0");
    match result {
        RuleMatch::Noise { action, .. } => {
            assert_eq!(action, RuleAction::Strip);
        }
        other => panic!("expected Noise (global), got: {:?}", other),
    }
}

#[test]
fn test_evaluate_line_no_match() {
    let grammar = build_eval_grammar();
    let action = grammar.actions.get("build").unwrap();

    let result = evaluate_line(&grammar, Some(action), "some random output line");
    assert_eq!(result, RuleMatch::NoMatch);
}

// -----------------------------------------------------------------------
// Rule evaluation order: hazard > outcome > noise
// -----------------------------------------------------------------------

#[test]
fn test_evaluate_line_hazard_takes_priority_over_outcome() {
    // Create a grammar where a line matches BOTH a hazard and an outcome rule.
    // Hazard should win.
    let toml_str = r#"
[tool]
name = "test-tool"

[actions.check]
detect = ["check"]

[[actions.check.hazard]]
pattern = 'CRITICAL'
severity = "error"
action = "keep"

[[actions.check.outcome]]
pattern = 'CRITICAL'
action = "promote"

[actions.check.summary]
success = "ok"
"#;
    let grammar = load_grammar_from_str(toml_str).unwrap();
    let action = grammar.actions.get("check").unwrap();

    let result = evaluate_line(&grammar, Some(action), "CRITICAL: something failed");
    match result {
        RuleMatch::Hazard { .. } => { /* expected */ }
        other => panic!("expected Hazard (priority over Outcome), got: {:?}", other),
    }
}

#[test]
fn test_evaluate_line_hazard_takes_priority_over_noise() {
    // A line that matches both hazard and noise should be classified as hazard.
    let toml_str = r#"
[tool]
name = "test-tool"

[actions.run]
detect = ["run"]

[[actions.run.hazard]]
pattern = '^error:'
severity = "error"
action = "keep"

[[actions.run.noise]]
pattern = '^error:'
action = "strip"

[actions.run.summary]
success = "ok"
"#;
    let grammar = load_grammar_from_str(toml_str).unwrap();
    let action = grammar.actions.get("run").unwrap();

    let result = evaluate_line(&grammar, Some(action), "error: something went wrong");
    match result {
        RuleMatch::Hazard { severity, .. } => {
            assert_eq!(severity, Some(Severity::Error));
        }
        other => panic!("expected Hazard (priority over Noise), got: {:?}", other),
    }
}

#[test]
fn test_evaluate_line_outcome_takes_priority_over_noise() {
    // A line that matches both outcome and noise should be classified as outcome.
    let toml_str = r#"
[tool]
name = "test-tool"

[actions.run]
detect = ["run"]

[[actions.run.outcome]]
pattern = '^done in'
action = "promote"

[[actions.run.noise]]
pattern = '^done'
action = "strip"

[actions.run.summary]
success = "ok"
"#;
    let grammar = load_grammar_from_str(toml_str).unwrap();
    let action = grammar.actions.get("run").unwrap();

    let result = evaluate_line(&grammar, Some(action), "done in 3s");
    match result {
        RuleMatch::Outcome { action, .. } => {
            assert_eq!(action, RuleAction::Promote);
        }
        other => panic!("expected Outcome (priority over Noise), got: {:?}", other),
    }
}

// -----------------------------------------------------------------------
// Inheritance: inherited rules appended (evaluated last)
// -----------------------------------------------------------------------

#[test]
fn test_inheritance_appends_shared_rules_after_own() {
    // Build two shared rule sets and a grammar that inherits them.
    // Verify inherited rules come AFTER the grammar's own global_noise.
    let shared_toml_a = r#"
[[rules]]
pattern = '^SHARED_A'
action = "strip"
"#;
    let shared_toml_b = r#"
[[rules]]
pattern = '^SHARED_B'
action = "strip"
"#;
    let grammar_toml = r#"
[tool]
name = "test"
inherit = ["shared_a", "shared_b"]

[[global_noise]]
pattern = '^OWN_RULE'
action = "strip"
"#;
    let mut grammar = load_grammar_from_str(grammar_toml).unwrap();

    let shared_a = load_shared_rules_from_str(shared_toml_a).unwrap();
    let shared_b = load_shared_rules_from_str(shared_toml_b).unwrap();

    let mut shared_rules: StrMap<Vec<Rule>> = StrMap::new();
    shared_rules.insert("shared_a".to_string(), shared_a);
    shared_rules.insert("shared_b".to_string(), shared_b);

    resolve_inherit(&mut grammar, &shared_rules);

    // Own rules should come first
    assert_eq!(grammar.global_noise.len(), 3);
    assert!(grammar.global_noise[0].pattern.is_match("OWN_RULE here"),
        "first rule should be own rule (OWN_RULE)");

    // Inherited rules should come after
    // Note: HashMap iteration order is non-deterministic, but both shared rules
    // should be at indices 1 and 2
    let inherited_patterns: Vec<bool> = grammar.global_noise[1..].iter()
        .map(|r| r.pattern.is_match("SHARED_A test") || r.pattern.is_match("SHARED_B test"))
        .collect();
    assert!(inherited_patterns.iter().all(|&x| x),
        "inherited rules should come after own rules");
}

#[test]
fn test_inheritance_own_rules_take_priority_in_evaluate_line() {
    // When a line matches both an own global_noise rule and an inherited rule,
    // the own rule should match first (because inherited rules are appended after).
    let toml_str = r#"
[tool]
name = "test"

[[global_noise]]
pattern = '^progress'
action = "dedup"
"#;
    let mut grammar = load_grammar_from_str(toml_str).unwrap();

    // Simulate inherited rule that also matches "progress" but with strip action
    let shared_toml = r#"
[[rules]]
pattern = '^progress'
action = "strip"
"#;
    let shared_rules_vec = load_shared_rules_from_str(shared_toml).unwrap();
    let mut shared_rules: StrMap<Vec<Rule>> = StrMap::new();
    shared_rules.insert("shared".to_string(), shared_rules_vec);
    grammar.inherit = vec!["shared".to_string()];
    resolve_inherit(&mut grammar, &shared_rules);

    // The own rule (dedup) should be at index 0, inherited (strip) at index 1
    assert_eq!(grammar.global_noise.len(), 2);
    assert_eq!(grammar.global_noise[0].action, RuleAction::Dedup, "own rule should come first");
    assert_eq!(grammar.global_noise[1].action, RuleAction::Strip, "inherited rule should come second");

    // When evaluating, the own rule (dedup) should be found first
    let result = evaluate_line(&grammar, None, "progress: 50%");
    match result {
        RuleMatch::Noise { action, .. } => {
            assert_eq!(action, RuleAction::Dedup, "own rule should win over inherited");
        }
        other => panic!("expected Noise with Dedup, got: {:?}", other),
    }
}

// -----------------------------------------------------------------------
// evaluate_line_with_fallback
// -----------------------------------------------------------------------

#[test]
fn test_evaluate_line_with_fallback() {
    let toml_str = r#"
[tool]
name = "make"

[fallback]

[[fallback.hazard]]
pattern = '^make.*\*\*\*'
severity = "error"
action = "keep"

[[fallback.noise]]
pattern = '^make\[\d+\]:'
action = "strip"

[fallback.summary]
success = "ok"
"#;
    let grammar = load_grammar_from_str(toml_str).unwrap();

    // Hazard match via fallback
    let result = evaluate_line_with_fallback(&grammar, "make[2]: *** Error 1");
    match result {
        RuleMatch::Hazard { severity, .. } => {
            assert_eq!(severity, Some(Severity::Error));
        }
        other => panic!("expected Hazard via fallback, got: {:?}", other),
    }

    // Noise match via fallback
    let result = evaluate_line_with_fallback(&grammar, "make[1]: Entering directory");
    match result {
        RuleMatch::Noise { action, .. } => {
            assert_eq!(action, RuleAction::Strip);
        }
        other => panic!("expected Noise via fallback, got: {:?}", other),
    }

    // No match
    let result = evaluate_line_with_fallback(&grammar, "some other line");
    assert_eq!(result, RuleMatch::NoMatch);
}

// -----------------------------------------------------------------------
// resolve_category
// -----------------------------------------------------------------------

#[test]
fn test_resolve_category_from_grammar_front_matter() {
    let toml_str = r#"
[tool]
name = "vim"
category = "interactive"
"#;
    let grammar = load_grammar_from_str(toml_str).unwrap();
    let result = resolve_category(&grammar, None);
    assert_eq!(result, Category::Interactive);
}

#[test]
fn test_resolve_category_from_categories_map() {
    let toml_str = r#"
[tool]
name = "ls"
"#;
    let grammar = load_grammar_from_str(toml_str).unwrap();
    let mut map = StrMap::new();
    map.insert("ls".to_string(), Category::Passthrough);

    let result = resolve_category(&grammar, Some(&map));
    assert_eq!(result, Category::Passthrough);
}

#[test]
fn test_resolve_category_default_condense() {
    let toml_str = r#"
[tool]
name = "unknown-tool"
"#;
    let grammar = load_grammar_from_str(toml_str).unwrap();
    let result = resolve_category(&grammar, None);
    assert_eq!(result, Category::Condense);
}

#[test]
fn test_resolve_category_grammar_overrides_map() {
    let toml_str = r#"
[tool]
name = "git"
category = "structured"
"#;
    let grammar = load_grammar_from_str(toml_str).unwrap();
    let mut map = StrMap::new();
    map.insert("git".to_string(), Category::Passthrough);

    // Grammar front matter (Structured) should win over map (Passthrough)
    let result = resolve_category(&grammar, Some(&map));
    assert_eq!(result, Category::Structured);
}

// -----------------------------------------------------------------------
// evaluate_line with None action (no action, only global noise)
// -----------------------------------------------------------------------

#[test]
fn test_evaluate_line_with_no_action_uses_global_noise() {
    let toml_str = r#"
[tool]
name = "npm"

[[global_noise]]
pattern = '^npm timing'
action = "strip"
"#;
    let grammar = load_grammar_from_str(toml_str).unwrap();

    let result = evaluate_line(&grammar, None, "npm timing idealTree 12ms");
    match result {
        RuleMatch::Noise { action, .. } => {
            assert_eq!(action, RuleAction::Strip);
        }
        other => panic!("expected Noise, got: {:?}", other),
    }

    // Line that doesn't match global noise
    let result2 = evaluate_line(&grammar, None, "something else");
    assert_eq!(result2, RuleMatch::NoMatch);
}

// -----------------------------------------------------------------------
// Warning severity hazard match
// -----------------------------------------------------------------------

#[test]
fn test_evaluate_line_warning_hazard() {
    let grammar = build_eval_grammar();
    let action = grammar.actions.get("build").unwrap();

    let result = evaluate_line(&grammar, Some(action), "warning: unused variable");
    match result {
        RuleMatch::Hazard { action, severity, .. } => {
            assert_eq!(action, RuleAction::Dedup);
            assert_eq!(severity, Some(Severity::Warning));
        }
        other => panic!("expected Hazard(Warning), got: {:?}", other),
    }
}

// -----------------------------------------------------------------------
// Real grammar file tests (load from grammars/ directory)
// -----------------------------------------------------------------------

// -----------------------------------------------------------------------
// LlmHint tests
// -----------------------------------------------------------------------

// Helper to create a command vec from string slices
fn cmd(parts: &[&str]) -> Vec<String> {
    parts.iter().map(|s| s.to_string()).collect()
}

// Test 1: quiet injection — safe_inject flags added to command
#[test]
fn test_quiet_injection_safe_inject_flags_added() {
    let toml_str = r#"
[tool]
name = "npm"

[quiet]
safe_inject = ["--no-progress"]
recommend = []
"#;
    let grammar = load_grammar_from_str(toml_str).unwrap();
    let mut command = cmd(&["npm", "install", "express"]);
    let result = preflight(&mut command, &grammar, None, OutputMode::Human);

    assert_eq!(result.injected, vec!["--no-progress"]);
    assert!(command.contains(&"--no-progress".to_string()));
    assert_eq!(command.len(), 4); // npm install express --no-progress
}

// Test 2: verbose injection — verbosity.inject flags added
#[test]
fn test_verbose_injection_flags_added() {
    let toml_str = r#"
[tool]
name = "cp"

[verbosity]
inject = ["-v"]
provides = ["copied-files"]
"#;
    let grammar = load_grammar_from_str(toml_str).unwrap();
    let mut command = cmd(&["cp", "src.txt", "dst.txt"]);
    let injected = inject_verbosity(&mut command, &grammar);

    assert_eq!(injected, vec!["-v"]);
    assert!(command.contains(&"-v".to_string()));
    assert_eq!(command.len(), 4); // cp src.txt dst.txt -v
}

// Test 3: no double injection — if flag already present, skip
#[test]
fn test_no_double_injection() {
    let toml_str = r#"
[tool]
name = "npm"

[quiet]
safe_inject = ["--no-progress"]
recommend = []
"#;
    let grammar = load_grammar_from_str(toml_str).unwrap();
    let mut command = cmd(&["npm", "install", "--no-progress"]);
    let result = preflight(&mut command, &grammar, None, OutputMode::Human);

    assert!(result.injected.is_empty());
    assert_eq!(command.len(), 3); // unchanged
}

// Test 4: passthrough mode skip — no injection in Passthrough mode
#[test]
fn test_passthrough_mode_skips_injection() {
    let toml_str = r#"
[tool]
name = "npm"

[quiet]
safe_inject = ["--no-progress"]
recommend = ["--loglevel=warn"]
"#;
    let grammar = load_grammar_from_str(toml_str).unwrap();
    let mut command = cmd(&["npm", "install"]);
    let result = preflight(&mut command, &grammar, None, OutputMode::Passthrough);

    assert!(result.injected.is_empty());
    assert!(result.recommendations.is_empty());
    assert_eq!(command.len(), 2); // unchanged
}

// Test 5: per-action override — action-specific quiet flags used when action matches
#[test]
fn test_per_action_override() {
    let toml_str = r#"
[tool]
name = "docker"

[actions.build]
detect = ["build"]

[actions.build.summary]
success = "built"

[quiet]
safe_inject = ["--quiet"]
recommend = []

[quiet.actions.build]
safe_inject = ["--progress=plain"]
recommend = ["-q"]
"#;
    let grammar = load_grammar_from_str(toml_str).unwrap();
    let args = cmd(&["docker", "build", "."]);
    let action = resolve_action_name(&grammar, &args);
    assert!(action.is_some());

    let mut command = cmd(&["docker", "build", "."]);
    let result = preflight(&mut command, &grammar, action.as_deref(), OutputMode::Human);

    // Should use action-specific overrides, not global
    assert_eq!(result.injected, vec!["--progress=plain"]);
    assert!(!command.contains(&"--quiet".to_string()));
    assert_eq!(result.recommendations.len(), 1);
    assert_eq!(result.recommendations[0].flag, "-q");
}

// Test 6: recommendation generation — recommend flags returned but not injected
#[test]
fn test_recommendation_generation() {
    let toml_str = r#"
[tool]
name = "cargo"

[quiet]
safe_inject = []
recommend = ["--message-format=json"]
"#;
    let grammar = load_grammar_from_str(toml_str).unwrap();
    let mut command = cmd(&["cargo", "build"]);
    let result = preflight(&mut command, &grammar, None, OutputMode::Human);

    assert!(result.injected.is_empty());
    assert_eq!(result.recommendations.len(), 1);
    assert_eq!(result.recommendations[0].flag, "--message-format=json");
    assert_eq!(command.len(), 2); // no flags injected
}

// Test 7: safety — no injection without grammar declaration
#[test]
fn test_no_injection_without_grammar_declaration() {
    let toml_str = r#"
[tool]
name = "echo"
"#;
    let grammar = load_grammar_from_str(toml_str).unwrap();
    let mut command = cmd(&["echo", "hello"]);
    let result = preflight(&mut command, &grammar, None, OutputMode::Human);

    assert!(result.injected.is_empty());
    assert!(result.recommendations.is_empty());
    assert_eq!(command.len(), 2); // unchanged
}

// Test 8: flag position — injected flags appended at end
#[test]
fn test_flag_position_appended_at_end() {
    let toml_str = r#"
[tool]
name = "pip"

[quiet]
safe_inject = ["--no-color", "--progress-bar=off"]
recommend = []
"#;
    let grammar = load_grammar_from_str(toml_str).unwrap();
    let mut command = cmd(&["pip", "install", "requests"]);
    let _result = preflight(&mut command, &grammar, None, OutputMode::Human);

    assert_eq!(command.len(), 5);
    assert_eq!(command[0], "pip");
    assert_eq!(command[1], "install");
    assert_eq!(command[2], "requests");
    assert_eq!(command[3], "--no-color");
    assert_eq!(command[4], "--progress-bar=off");
}

// Test 9: empty grammar — no quiet/verbosity config, no changes
#[test]
fn test_empty_grammar_no_changes() {
    let toml_str = r#"
[tool]
name = "echo"
"#;
    let grammar = load_grammar_from_str(toml_str).unwrap();
    let mut command = cmd(&["echo", "hello"]);
    let original = command.clone();

    let quiet_result = preflight(&mut command, &grammar, None, OutputMode::Human);
    let verbose_result = inject_verbosity(&mut command, &grammar);

    assert!(quiet_result.injected.is_empty());
    assert!(quiet_result.recommendations.is_empty());
    assert!(verbose_result.is_empty());
    assert_eq!(command, original);
}

// Test 10: both quiet and verbose — quiet injected, verbose injected separately
#[test]
fn test_both_quiet_and_verbose() {
    let toml_str = r#"
[tool]
name = "rsync"

[quiet]
safe_inject = ["--no-progress"]
recommend = []

[verbosity]
inject = ["-v", "--stats"]
provides = ["transfer-summary"]
"#;
    let grammar = load_grammar_from_str(toml_str).unwrap();

    // Quiet injection (for condense mode)
    let mut command = cmd(&["rsync", "-a", "src/", "dst/"]);
    let quiet_result = preflight(&mut command, &grammar, None, OutputMode::Human);
    assert_eq!(quiet_result.injected, vec!["--no-progress"]);

    // Verbose injection (for narrate mode — separate call)
    let mut command2 = cmd(&["rsync", "-a", "src/", "dst/"]);
    let verbose_result = inject_verbosity(&mut command2, &grammar);
    assert_eq!(verbose_result, vec!["-v", "--stats"]);
}

// Test 11: action-specific quiet overrides global
#[test]
fn test_action_specific_overrides_global() {
    let toml_str = r#"
[tool]
name = "npm"

[actions.install]
detect = ["install", "i"]

[actions.install.summary]
success = "installed"

[actions.test]
detect = ["test", "t"]

[actions.test.summary]
success = "tested"

[quiet]
safe_inject = ["--no-progress"]
recommend = ["--loglevel=warn"]

[quiet.actions.install]
safe_inject = ["--no-fund", "--no-audit"]
recommend = ["--prefer-offline"]
"#;
    let grammar = load_grammar_from_str(toml_str).unwrap();

    // "npm install" — should use action-specific overrides
    let args_install = cmd(&["npm", "install"]);
    let action_install = resolve_action_name(&grammar, &args_install);
    let mut cmd_install = cmd(&["npm", "install"]);
    let result_install =
        preflight(&mut cmd_install, &grammar, action_install.as_deref(), OutputMode::Human);

    assert_eq!(result_install.injected, vec!["--no-fund", "--no-audit"]);
    assert!(!cmd_install.contains(&"--no-progress".to_string())); // global NOT used
    assert_eq!(result_install.recommendations.len(), 1);
    assert_eq!(result_install.recommendations[0].flag, "--prefer-offline");

    // "npm test" — no action-specific override, should use global
    let args_test = cmd(&["npm", "test"]);
    let action_test = resolve_action_name(&grammar, &args_test);
    let mut cmd_test = cmd(&["npm", "test"]);
    let result_test =
        preflight(&mut cmd_test, &grammar, action_test.as_deref(), OutputMode::Human);

    assert_eq!(result_test.injected, vec!["--no-progress"]);
    assert_eq!(result_test.recommendations.len(), 1);
    assert_eq!(result_test.recommendations[0].flag, "--loglevel=warn");
}

// Test 12: multiple flags injected correctly
#[test]
fn test_multiple_flags_injected_correctly() {
    let toml_str = r#"
[tool]
name = "pip"

[quiet]
safe_inject = ["--no-color", "--progress-bar=off"]
recommend = ["-q"]
"#;
    let grammar = load_grammar_from_str(toml_str).unwrap();
    let mut command = cmd(&["pip", "install", "flask"]);
    let result = preflight(&mut command, &grammar, None, OutputMode::Human);

    assert_eq!(result.injected.len(), 2);
    assert_eq!(result.injected[0], "--no-color");
    assert_eq!(result.injected[1], "--progress-bar=off");
    assert!(command.contains(&"--no-color".to_string()));
    assert!(command.contains(&"--progress-bar=off".to_string()));
    assert_eq!(command.len(), 5);
}

// Test 13: no double injection for verbose flags
#[test]
fn test_no_double_injection_verbose() {
    let toml_str = r#"
[tool]
name = "cp"

[verbosity]
inject = ["-v"]
provides = ["copied-files"]
"#;
    let grammar = load_grammar_from_str(toml_str).unwrap();
    let mut command = cmd(&["cp", "-v", "src.txt", "dst.txt"]);
    let injected = inject_verbosity(&mut command, &grammar);

    assert!(injected.is_empty());
    assert_eq!(command.len(), 4); // unchanged
}

// Test 14: Json mode still injects (only Passthrough skips)
#[test]
fn test_json_mode_still_injects() {
    let toml_str = r#"
[tool]
name = "npm"

[quiet]
safe_inject = ["--no-progress"]
recommend = []
"#;
    let grammar = load_grammar_from_str(toml_str).unwrap();
    let mut command = cmd(&["npm", "install"]);
    let result = preflight(&mut command, &grammar, None, OutputMode::Json);

    assert_eq!(result.injected, vec!["--no-progress"]);
}

// Test 15: Context mode still injects
#[test]
fn test_context_mode_still_injects() {
    let toml_str = r#"
[tool]
name = "npm"

[quiet]
safe_inject = ["--no-progress"]
recommend = []
"#;
    let grammar = load_grammar_from_str(toml_str).unwrap();
    let mut command = cmd(&["npm", "install"]);
    let result = preflight(&mut command, &grammar, None, OutputMode::Context);

    assert_eq!(result.injected, vec!["--no-progress"]);
}

// Test 16: recommendation skipped if flag already present in command
#[test]
fn test_recommendation_skipped_if_flag_already_present() {
    let toml_str = r#"
[tool]
name = "cargo"

[quiet]
safe_inject = []
recommend = ["--message-format=json"]
"#;
    let grammar = load_grammar_from_str(toml_str).unwrap();

    // User already added the recommended flag
    let mut command = cmd(&["cargo", "build", "--message-format=json"]);
    let result = preflight(&mut command, &grammar, None, OutputMode::Human);

    assert!(
        result.recommendations.is_empty(),
        "should not recommend a flag the user already provided"
    );
    assert_eq!(command.len(), 3); // unchanged
}

// -----------------------------------------------------------------------
// Line type handling
// -----------------------------------------------------------------------

// Test 1: Overwrite line → Noise(Strip)
#[test]
fn test_overwrite_line_is_noise_strip() {
    let mut c = Watcher::new(None, None);
    let result = c.classify(Line::Overwrite("downloading... 50%".into()));
    assert!(matches!(
        result,
        Classification::Noise {
            action: NoiseAction::Strip,
            ..
        }
    ));
}

// Test 2: Complete line goes through classification
#[test]
fn test_complete_line_classified() {
    let mut c = Watcher::new(None, None);
    let result = c.classify(Line::Complete("hello world".into()));
    // No grammar, no universal match → Unknown
    assert!(matches!(result, Classification::Unknown { .. }));
    assert_eq!(result.text().unwrap(), "hello world");
}

// -----------------------------------------------------------------------
// Tier 2: Universal patterns — Error keywords
// -----------------------------------------------------------------------

// Test 3: "error:" at line start
#[test]
fn test_error_keyword_error_colon() {
    let mut c = Watcher::new(None, None);
    let result = c.classify(Line::Complete("error: something broke".into()));
    assert!(matches!(
        result,
        Classification::Hazard {
            severity: Severity::Error,
            ..
        }
    ));
}

// Test 4: "ERROR:" at line start
#[test]
fn test_error_keyword_error_upper() {
    let mut c = Watcher::new(None, None);
    let result = c.classify(Line::Complete("ERROR: fatal crash".into()));
    assert!(matches!(
        result,
        Classification::Hazard {
            severity: Severity::Error,
            ..
        }
    ));
}

// Test 5: "FAIL:" at line start
#[test]
fn test_error_keyword_fail() {
    let mut c = Watcher::new(None, None);
    let result = c.classify(Line::Complete("FAIL: test_something".into()));
    assert!(matches!(
        result,
        Classification::Hazard {
            severity: Severity::Error,
            ..
        }
    ));
}

// Test 6: "FATAL:" at line start
#[test]
fn test_error_keyword_fatal() {
    let mut c = Watcher::new(None, None);
    let result = c.classify(Line::Complete("FATAL: database unreachable".into()));
    assert!(matches!(
        result,
        Classification::Hazard {
            severity: Severity::Error,
            ..
        }
    ));
}

// Test 7: "panic:" at line start
#[test]
fn test_error_keyword_panic() {
    let mut c = Watcher::new(None, None);
    let result = c.classify(Line::Complete("panic: runtime error".into()));
    assert!(matches!(
        result,
        Classification::Hazard {
            severity: Severity::Error,
            ..
        }
    ));
}

// Test 8: "command not found" anywhere
#[test]
fn test_error_keyword_command_not_found() {
    let mut c = Watcher::new(None, None);
    let result = c.classify(Line::Complete("zsh: foobar: command not found".into()));
    assert!(matches!(
        result,
        Classification::Hazard {
            severity: Severity::Error,
            ..
        }
    ));
}

// Test 9: "permission denied" anywhere
#[test]
fn test_error_keyword_permission_denied() {
    let mut c = Watcher::new(None, None);
    let result = c.classify(Line::Complete("cp: /root/file: permission denied".into()));
    assert!(matches!(
        result,
        Classification::Hazard {
            severity: Severity::Error,
            ..
        }
    ));
}

// Test 10: "No such file or directory" anywhere
#[test]
fn test_error_keyword_no_such_file() {
    let mut c = Watcher::new(None, None);
    let result =
        c.classify(Line::Complete("cat: /tmp/missing: No such file or directory".into()));
    assert!(matches!(
        result,
        Classification::Hazard {
            severity: Severity::Error,
            ..
        }
    ));
}

// Test 11: "Traceback" at line start (Python)
#[test]
fn test_error_keyword_traceback() {
    let mut c = Watcher::new(None, None);
    let result = c.classify(Line::Complete(
        "Traceback (most recent call last):".into(),
    ));
    assert!(matches!(
        result,
        Classification::Hazard {
            severity: Severity::Error,
            ..
        }
    ));
}

// -----------------------------------------------------------------------
// Tier 2: Universal patterns — Warning keywords
// -----------------------------------------------------------------------

// Test 12: "warn:" at line start
#[test]
fn test_warning_keyword_warn() {
    let mut c = Watcher::new(None, None);
    let result = c.classify(Line::Complete("warn: package outdated".into()));
    assert!(matches!(
        result,
        Classification::Hazard {
            severity: Severity::Warning,
            ..
        }
    ));
}

// Test 13: "WARNING:" at line start
#[test]
fn test_warning_keyword_warning_upper() {
    let mut c = Watcher::new(None, None);
    let result = c.classify(Line::Complete("WARNING: deprecated API".into()));
    assert!(matches!(
        result,
        Classification::Hazard {
            severity: Severity::Warning,
            ..
        }
    ));
}

// Test 14: "deprecated" anywhere
#[test]
fn test_warning_keyword_deprecated() {
    let mut c = Watcher::new(None, None);
    let result = c.classify(Line::Complete(
        "npm warn deprecated: inflight@1.0.6".into(),
    ));
    assert!(matches!(
        result,
        Classification::Hazard {
            severity: Severity::Warning,
            ..
        }
    ));
}

// Test 15: vulnerability severity
#[test]
fn test_warning_keyword_vulnerability() {
    let mut c = Watcher::new(None, None);
    let result = c.classify(Line::Complete("2 high vulnerabilities found".into()));
    assert!(matches!(
        result,
        Classification::Hazard {
            severity: Severity::Warning,
            ..
        }
    ));
}

// -----------------------------------------------------------------------
// Tier 2: ANSI color classification
// -----------------------------------------------------------------------

// Test 16: ANSI red + error content → Hazard(Error)
#[test]
fn test_ansi_red_error() {
    let mut c = Watcher::new(None, None);
    // \x1b[31m = red, \x1b[0m = reset
    let result = c.classify(Line::Complete("\x1b[31merror: compile failed\x1b[0m".into()));
    assert!(matches!(
        result,
        Classification::Hazard {
            severity: Severity::Error,
            ..
        }
    ));
}

// Test 17: ANSI yellow + warning content → Hazard(Warning)
#[test]
fn test_ansi_yellow_warning() {
    let mut c = Watcher::new(None, None);
    let result =
        c.classify(Line::Complete("\x1b[33mwarning: unused variable\x1b[0m".into()));
    assert!(matches!(
        result,
        Classification::Hazard {
            severity: Severity::Warning,
            ..
        }
    ));
}

// Test 18: ANSI green + success content → Outcome
#[test]
fn test_ansi_green_success() {
    let mut c = Watcher::new(None, None);
    let result = c.classify(Line::Complete("\x1b[32mBuild succeeded\x1b[0m".into()));
    assert!(matches!(result, Classification::Outcome { .. }));
}

// Test 19: ANSI red without error keywords → not classified by color alone
#[test]
fn test_ansi_red_no_keywords_no_hazard() {
    let mut c = Watcher::new(None, None);
    let result = c.classify(Line::Complete("\x1b[31mhello world\x1b[0m".into()));
    // Red alone doesn't classify — needs error keywords
    assert!(!matches!(
        result,
        Classification::Hazard {
            severity: Severity::Error,
            ..
        }
    ));
}

// -----------------------------------------------------------------------
// Tier 2: Stack trace detection
// -----------------------------------------------------------------------

// Test 20: Node.js stack trace start
#[test]
fn test_stack_trace_nodejs() {
    let mut c = Watcher::new(None, None);
    let result = c.classify(Line::Complete(
        "    at UserService.getUser (src/user.ts:42:5)".into(),
    ));
    assert!(matches!(
        result,
        Classification::Hazard {
            severity: Severity::Error,
            ..
        }
    ));
}

// Test 21: Python stack trace
#[test]
fn test_stack_trace_python() {
    let mut c = Watcher::new(None, None);
    let result = c.classify(Line::Complete(
        "  File \"/app/main.py\", line 42".into(),
    ));
    assert!(matches!(
        result,
        Classification::Hazard {
            severity: Severity::Error,
            ..
        }
    ));
}

// Test 22: Java "Caused by:"
#[test]
fn test_stack_trace_java_caused_by() {
    let mut c = Watcher::new(None, None);
    let result = c.classify(Line::Complete(
        "Caused by: java.lang.NullPointerException".into(),
    ));
    assert!(matches!(
        result,
        Classification::Hazard {
            severity: Severity::Error,
            ..
        }
    ));
}

// Test 23: Generic file:line:col pattern
#[test]
fn test_stack_trace_generic_file_line_col() {
    let mut c = Watcher::new(None, None);
    let result = c.classify(Line::Complete("src/main.rs:42:5: error message".into()));
    assert!(matches!(
        result,
        Classification::Hazard {
            severity: Severity::Error,
            ..
        }
    ));
}

// -----------------------------------------------------------------------
// Tier 2: Prompt detection
// -----------------------------------------------------------------------

// Test 24: Prompt detected on Partial line ending with ?
#[test]
fn test_prompt_partial_question_mark() {
    let mut c = Watcher::new(None, None);
    let result = c.classify(Line::Partial("Continue?".into()));
    assert!(matches!(result, Classification::Prompt { .. }));
    assert_eq!(c.state(), ClassifierState::AwaitingInput);
}

// Test 25: Prompt (y/n) on Partial line
#[test]
fn test_prompt_partial_yn() {
    let mut c = Watcher::new(None, None);
    let result = c.classify(Line::Partial("Proceed (y/n)".into()));
    assert!(matches!(result, Classification::Prompt { .. }));
}

// Test 26: Prompt Password: on Partial line
#[test]
fn test_prompt_partial_password() {
    let mut c = Watcher::new(None, None);
    let result = c.classify(Line::Partial("Password:".into()));
    assert!(matches!(result, Classification::Prompt { .. }));
}

// Test 27: "?" on Complete line is NOT a prompt
#[test]
fn test_question_on_complete_not_prompt() {
    let mut c = Watcher::new(None, None);
    let result = c.classify(Line::Complete("Are you sure?".into()));
    // Complete lines don't trigger prompt detection
    assert!(!matches!(result, Classification::Prompt { .. }));
}

// -----------------------------------------------------------------------
// Tier 1: Grammar rules
// -----------------------------------------------------------------------

fn make_npm_grammar() -> Grammar {
    let toml_str = r#"
[tool]
name = "npm"

[[global_noise]]
pattern = '^npm (timing|http|sill|verb)'
action = "strip"

[actions.install]
detect = ["install", "i", "add", "ci"]

[[actions.install.hazard]]
pattern = 'ERESOLVE'
severity = "error"
action = "keep"

[[actions.install.outcome]]
pattern = '^added (?P<count>\d+) packages? in (?P<time>.+)'
action = "promote"
captures = ["count", "time"]

[[actions.install.noise]]
pattern = '^(idealTree|reify|resolv)'
action = "strip"

[actions.install.summary]
success = "+ {count} packages installed ({time})"
failure = "! npm install failed (exit {exit_code})"
"#;
    load_grammar_from_str(toml_str).unwrap()
}

// Test 28: Grammar hazard rule matches
#[test]
fn test_tier1_hazard_rule() {
    let grammar = make_npm_grammar();
    let action = grammar.actions.get("install").unwrap();
    let mut c = Watcher::new(Some(&grammar), Some(action));
    let result = c.classify(Line::Complete("npm ERR! ERESOLVE unable to resolve".into()));
    assert!(matches!(
        result,
        Classification::Hazard {
            severity: Severity::Error,
            ..
        }
    ));
}

// Test 29: Grammar outcome rule matches with captures
#[test]
fn test_tier1_outcome_rule_with_captures() {
    let grammar = make_npm_grammar();
    let action = grammar.actions.get("install").unwrap();
    let mut c = Watcher::new(Some(&grammar), Some(action));
    let result = c.classify(Line::Complete("added 147 packages in 12.3s".into()));
    match result {
        Classification::Outcome { captures, .. } => {
            assert_eq!(captures.get("count").unwrap(), "147");
            assert_eq!(captures.get("time").unwrap(), "12.3s");
        }
        other => panic!("expected Outcome, got: {:?}", other),
    }
}

// Test 30: Grammar action noise rule matches
#[test]
fn test_tier1_action_noise_strip() {
    let grammar = make_npm_grammar();
    let action = grammar.actions.get("install").unwrap();
    let mut c = Watcher::new(Some(&grammar), Some(action));
    let result = c.classify(Line::Complete("idealTree: building".into()));
    assert!(matches!(
        result,
        Classification::Noise {
            action: NoiseAction::Strip,
            ..
        }
    ));
}

// Test 31: Grammar global noise rule matches
#[test]
fn test_tier1_global_noise_rule() {
    let grammar = make_npm_grammar();
    let action = grammar.actions.get("install").unwrap();
    let mut c = Watcher::new(Some(&grammar), Some(action));
    let result = c.classify(Line::Complete("npm timing setup Completed in 2ms".into()));
    assert!(matches!(
        result,
        Classification::Noise {
            action: NoiseAction::Strip,
            ..
        }
    ));
}

// Test 32: Hazard rules evaluated before noise (hazard wins)
#[test]
fn test_tier1_hazard_before_noise() {
    // Create grammar where both hazard and noise could match
    let toml_str = r#"
[tool]
name = "test"

[actions.build]
detect = ["build"]

[[actions.build.hazard]]
pattern = 'critical error'
severity = "error"
action = "keep"

[[actions.build.noise]]
pattern = 'critical'
action = "strip"

[actions.build.summary]
success = "ok"
"#;
    let grammar = load_grammar_from_str(toml_str).unwrap();
    let action = grammar.actions.get("build").unwrap();
    let mut c = Watcher::new(Some(&grammar), Some(action));
    let result = c.classify(Line::Complete("critical error in module".into()));
    // Hazard should win because it's evaluated first
    assert!(matches!(
        result,
        Classification::Hazard {
            severity: Severity::Error,
            ..
        }
    ));
}

// Test 33: No grammar match falls through to Tier 2
#[test]
fn test_tier1_no_match_falls_to_tier2() {
    let grammar = make_npm_grammar();
    let action = grammar.actions.get("install").unwrap();
    let mut c = Watcher::new(Some(&grammar), Some(action));
    // This doesn't match any grammar rule, but matches Tier 2 error pattern
    let result = c.classify(Line::Complete("error: system failure".into()));
    assert!(matches!(
        result,
        Classification::Hazard {
            severity: Severity::Error,
            ..
        }
    ));
}

// -----------------------------------------------------------------------
// Tier 3: Structural heuristics
// -----------------------------------------------------------------------

// Test 34: Decorative line (=====) → Noise(Strip)
#[test]
fn test_tier3_decorative_equals() {
    let mut c = Watcher::new(None, None);
    let result = c.classify(Line::Complete("================".into()));
    assert!(matches!(
        result,
        Classification::Noise {
            action: NoiseAction::Strip,
            ..
        }
    ));
}

// Test 35: Decorative line (-----) → Noise(Strip)
#[test]
fn test_tier3_decorative_dashes() {
    let mut c = Watcher::new(None, None);
    let result = c.classify(Line::Complete("----------------".into()));
    assert!(matches!(
        result,
        Classification::Noise {
            action: NoiseAction::Strip,
            ..
        }
    ));
}

// Test 36: Empty/whitespace line → Noise(Strip)
#[test]
fn test_tier3_whitespace_only() {
    let mut c = Watcher::new(None, None);
    let result = c.classify(Line::Complete("   ".into()));
    assert!(matches!(
        result,
        Classification::Noise {
            action: NoiseAction::Strip,
            ..
        }
    ));
}

// Test 37: Empty line → Noise(Strip)
#[test]
fn test_tier3_empty_line() {
    let mut c = Watcher::new(None, None);
    let result = c.classify(Line::Complete("".into()));
    assert!(matches!(
        result,
        Classification::Noise {
            action: NoiseAction::Strip,
            ..
        }
    ));
}

// -----------------------------------------------------------------------
// State machine
// -----------------------------------------------------------------------

// Test 38: Initial state is Idle
#[test]
fn test_state_initial_idle() {
    let c = Watcher::new(None, None);
    assert_eq!(c.state(), ClassifierState::Idle);
}

// Test 39: First classify transitions to Running
#[test]
fn test_state_idle_to_running() {
    let mut c = Watcher::new(None, None);
    c.classify(Line::Complete("hello".into()));
    assert_eq!(c.state(), ClassifierState::Running);
}

// Test 40: Prompt detection transitions to AwaitingInput
#[test]
fn test_state_to_awaiting_input() {
    let mut c = Watcher::new(None, None);
    c.classify(Line::Partial("Password:".into()));
    assert_eq!(c.state(), ClassifierState::AwaitingInput);
}

// Test 41: resume_from_prompt transitions AwaitingInput → Running
#[test]
fn test_state_resume_from_prompt() {
    let mut c = Watcher::new(None, None);
    c.classify(Line::Partial("Password:".into()));
    assert_eq!(c.state(), ClassifierState::AwaitingInput);
    c.resume_from_prompt();
    assert_eq!(c.state(), ClassifierState::Running);
}

// Test 42: notify_exit with exit code 0 → DoneSuccess
#[test]
fn test_state_done_success() {
    let mut c = Watcher::new(None, None);
    c.classify(Line::Complete("hello".into()));
    c.notify_exit(0, false);
    assert_eq!(c.state(), ClassifierState::DoneSuccess);
}

// Test 43: notify_exit with exit code != 0 → DoneFailure
#[test]
fn test_state_done_failure() {
    let mut c = Watcher::new(None, None);
    c.classify(Line::Complete("hello".into()));
    c.notify_exit(1, false);
    assert_eq!(c.state(), ClassifierState::DoneFailure);
}

// Test 44: notify_exit with signal → DoneKilled
#[test]
fn test_state_done_killed() {
    let mut c = Watcher::new(None, None);
    c.classify(Line::Complete("hello".into()));
    c.notify_exit(0, true);
    assert_eq!(c.state(), ClassifierState::DoneKilled);
}

// -----------------------------------------------------------------------
// Classification::text() accessor
// -----------------------------------------------------------------------

// Test 45: text() returns content for all variants
#[test]
fn test_classification_text_accessor() {
    let h = Classification::Hazard {
        severity: Severity::Error,
        text: "err".into(),
        captures: StrMap::new(),
    };
    assert_eq!(h.text(), Some("err"));

    let o = Classification::Outcome {
        text: "ok".into(),
        captures: StrMap::new(),
    };
    assert_eq!(o.text(), Some("ok"));

    let n = Classification::Noise {
        action: NoiseAction::Strip,
        text: "noise".into(),
    };
    assert_eq!(n.text(), Some("noise"));

    let p = Classification::Prompt {
        text: "prompt".into(),
    };
    assert_eq!(p.text(), Some("prompt"));

    let u = Classification::Unknown {
        text: "unknown".into(),
    };
    assert_eq!(u.text(), Some("unknown"));
}

// -----------------------------------------------------------------------
// Mixed scenario tests
// -----------------------------------------------------------------------

// Test 46: Normal output without patterns → Unknown
#[test]
fn test_normal_output_unknown() {
    let mut c = Watcher::new(None, None);
    let result = c.classify(Line::Complete("Compiling serde v1.0.195".into()));
    assert!(matches!(result, Classification::Unknown { .. }));
}

// Test 47: Grammar noise dedup action
#[test]
fn test_tier1_noise_dedup() {
    let toml_str = r#"
[tool]
name = "cargo"

[actions.build]
detect = ["build"]

[[actions.build.noise]]
pattern = '^Compiling'
action = "dedup"

[actions.build.summary]
success = "ok"
"#;
    let grammar = load_grammar_from_str(toml_str).unwrap();
    let action = grammar.actions.get("build").unwrap();
    let mut c = Watcher::new(Some(&grammar), Some(action));
    let result = c.classify(Line::Complete("Compiling serde v1.0.195".into()));
    assert!(matches!(
        result,
        Classification::Noise {
            action: NoiseAction::Dedup,
            ..
        }
    ));
}

// Test 48: SyntaxError anywhere in line
#[test]
fn test_error_keyword_syntax_error() {
    let mut c = Watcher::new(None, None);
    let result = c.classify(Line::Complete(
        "  SyntaxError: Unexpected token '}'".into(),
    ));
    assert!(matches!(
        result,
        Classification::Hazard {
            severity: Severity::Error,
            ..
        }
    ));
}

// Test 49: Go goroutine stack trace
#[test]
fn test_stack_trace_go_goroutine() {
    let mut c = Watcher::new(None, None);
    let result = c.classify(Line::Complete("goroutine 1 [running]:".into()));
    assert!(matches!(
        result,
        Classification::Hazard {
            severity: Severity::Error,
            ..
        }
    ));
}

// -----------------------------------------------------------------------
// Phase 3 Enhancement Tests
// -----------------------------------------------------------------------

// -----------------------------------------------------------------------
// Tier 1: Multiline hazard consumption
// -----------------------------------------------------------------------

// Test 50: Multiline hazard attaches next N lines unconditionally
#[test]
fn test_multiline_hazard_attaches_lines() {
    let toml_str = r#"
[tool]
name = "test"

[actions.build]
detect = ["build"]

[[actions.build.hazard]]
pattern = '^ERROR:'
severity = "error"
action = "keep"
multiline = 2

[actions.build.summary]
success = "ok"
"#;
    let grammar = load_grammar_from_str(toml_str).unwrap();
    let action = grammar.actions.get("build").unwrap();
    let mut c = Watcher::new(Some(&grammar), Some(action));

    // First line triggers multiline — suppressed during collection
    let r1 = c.classify(Line::Complete("ERROR: assertion failed".into()));
    assert!(matches!(r1, Classification::Noise { .. }));
    assert_eq!(c.state(), ClassifierState::ConsumingTrace);

    // Second line (attached unconditionally)
    let r2 = c.classify(Line::Complete("  expected: 42".into()));
    assert!(matches!(r2, Classification::Noise { .. }));

    // Third line (last attached) — now the full hazard is emitted
    let r3 = c.classify(Line::Complete("  actual: 0".into()));
    match r3 {
        Classification::Hazard {
            severity, text, ..
        } => {
            assert_eq!(severity, Severity::Error);
            assert!(text.contains("ERROR: assertion failed"));
            assert!(text.contains("expected: 42"));
            assert!(text.contains("actual: 0"));
        }
        other => panic!("expected Hazard, got: {:?}", other),
    }

    // State should return to Running
    assert_eq!(c.state(), ClassifierState::Running);
}

// Test 51: Multiline hazard content is immune to noise rules
#[test]
fn test_multiline_hazard_immune_to_noise() {
    let toml_str = r#"
[tool]
name = "test"

[actions.build]
detect = ["build"]

[[actions.build.hazard]]
pattern = '^FAIL:'
severity = "error"
action = "keep"
multiline = 1

[[actions.build.noise]]
pattern = '^\s+at\s'
action = "strip"

[actions.build.summary]
success = "ok"
"#;
    let grammar = load_grammar_from_str(toml_str).unwrap();
    let action = grammar.actions.get("build").unwrap();
    let mut c = Watcher::new(Some(&grammar), Some(action));

    // Hazard line
    let _r1 = c.classify(Line::Complete("FAIL: test_foo".into()));

    // This line matches a noise rule, but multiline attachment overrides
    let r2 = c.classify(Line::Complete("  at module.test (test.js:42:5)".into()));

    // Should get the full hazard (not noise stripped)
    match r2 {
        Classification::Hazard { text, .. } => {
            assert!(text.contains("FAIL: test_foo"));
            assert!(text.contains("at module.test"));
        }
        other => panic!("expected Hazard, got: {:?}", other),
    }
}

// -----------------------------------------------------------------------
// Tier 2: Stack trace CONSUMING_TRACE state
// -----------------------------------------------------------------------

// Test 52: Node.js stack trace enters CONSUMING_TRACE and consumes continuations
#[test]
fn test_stack_trace_consuming_nodejs() {
    let mut c = Watcher::new(None, None);

    // First line: stack trace start — classified as Hazard, enters CONSUMING_TRACE
    let r1 = c.classify(Line::Complete(
        "    at UserService.getUser (src/user.ts:42:5)".into(),
    ));
    assert!(matches!(
        r1,
        Classification::Hazard {
            severity: Severity::Error,
            ..
        }
    ));
    assert_eq!(c.state(), ClassifierState::ConsumingTrace);

    // Continuation frame (indented) — consumed as noise
    let r2 = c.classify(Line::Complete(
        "    at Router.dispatch (node_modules/express/lib/router.js:73:3)".into(),
    ));
    assert!(matches!(
        r2,
        Classification::Noise {
            action: NoiseAction::Strip,
            ..
        }
    ));

    // Non-indented, non-stack line → ends trace, returns compressed last frame
    let r3 = c.classify(Line::Complete("Process exited with code 1".into()));
    assert_eq!(c.state(), ClassifierState::Running);
    // With 2 frames, compression emits the last frame as Hazard
    assert!(matches!(r3, Classification::Hazard { .. }));
    if let Classification::Hazard { ref text, .. } = r3 {
        assert!(text.contains("Router.dispatch"), "expected last frame in: {}", text);
    }
    // Terminating line deferred
    let deferred = c.drain_deferred();
    assert!(deferred.is_some());
    assert!(matches!(deferred.unwrap(), Classification::Unknown { .. }));
}

// Test 53: Python stack trace enters CONSUMING_TRACE
#[test]
fn test_stack_trace_consuming_python() {
    let mut c = Watcher::new(None, None);

    let r1 = c.classify(Line::Complete(
        "  File \"/app/main.py\", line 42".into(),
    ));
    assert!(matches!(
        r1,
        Classification::Hazard {
            severity: Severity::Error,
            ..
        }
    ));
    assert_eq!(c.state(), ClassifierState::ConsumingTrace);

    // Code line (indented 4 spaces)
    let r2 = c.classify(Line::Complete("    result = process(data)".into()));
    assert!(matches!(r2, Classification::Noise { .. }));
    assert_eq!(c.state(), ClassifierState::ConsumingTrace);
}

// Test 54: Rust backtrace enters CONSUMING_TRACE
#[test]
fn test_stack_trace_consuming_rust() {
    let mut c = Watcher::new(None, None);

    let r1 = c.classify(Line::Complete(
        "   0: 0x7ff612345678 - std::panicking::begin_panic".into(),
    ));
    assert!(matches!(r1, Classification::Hazard { .. }));
    assert_eq!(c.state(), ClassifierState::ConsumingTrace);

    // Continuation
    let r2 = c.classify(Line::Complete(
        "   1: 0x7ff612345679 - core::result::unwrap_failed".into(),
    ));
    assert!(matches!(r2, Classification::Noise { .. }));
}

// -----------------------------------------------------------------------
// Tier 3: Edit-distance similarity
// -----------------------------------------------------------------------

// Test 55: Similar consecutive lines → Noise(Dedup)
#[test]
fn test_edit_distance_similar_lines_dedup() {
    let mut c = Watcher::new(None, None);

    let _r1 = c.classify(Line::Complete("Downloading package foo v1.0.0".into()));
    let r2 = c.classify(Line::Complete("Downloading package bar v1.0.0".into()));
    assert!(matches!(
        r2,
        Classification::Noise {
            action: NoiseAction::Dedup,
            ..
        }
    ));
}

// Test 56: Dissimilar lines are NOT deduped
#[test]
fn test_edit_distance_dissimilar_not_deduped() {
    let mut c = Watcher::new(None, None);

    let _r1 = c.classify(Line::Complete("Starting build process".into()));
    let r2 = c.classify(Line::Complete("All tests passed successfully".into()));
    assert!(!matches!(
        r2,
        Classification::Noise {
            action: NoiseAction::Dedup,
            ..
        }
    ));
}

// Test 57: Edit distance with different first tokens → no dedup
#[test]
fn test_edit_distance_different_first_token_no_dedup() {
    let mut c = Watcher::new(None, None);

    let _r1 = c.classify(Line::Complete("Building module A".into()));
    let r2 = c.classify(Line::Complete("Testing module A".into()));
    // Different first token → skip edit distance
    assert!(!matches!(
        r2,
        Classification::Noise {
            action: NoiseAction::Dedup,
            ..
        }
    ));
}

// -----------------------------------------------------------------------
// Tier 3: Volume compression (consecutive unknowns)
// -----------------------------------------------------------------------

// Test 58: Consecutive Unknown lines tracked
#[test]
fn test_volume_compression_consecutive_unknowns() {
    let mut c = Watcher::new(None, None);

    // Feed 12 distinct Unknown lines (different enough to avoid dedup)
    for i in 0..12 {
        c.classify(Line::Complete(format!("uniqueline_{i}_aaaa")));
    }
    assert!(c.consecutive_unknown_count() >= VOLUME_THRESHOLD);
}

// Test 59: Hazard resets consecutive Unknown count
#[test]
fn test_volume_compression_reset_by_hazard() {
    let mut c = Watcher::new(None, None);

    // Feed some unknowns
    for i in 0..5 {
        c.classify(Line::Complete(format!("uniqueline_{i}_bbbb")));
    }
    assert_eq!(c.consecutive_unknown_count(), 5);

    // Now a hazard
    c.classify(Line::Complete("error: something broke".into()));
    assert_eq!(c.consecutive_unknown_count(), 0);

    // Resume unknowns
    c.classify(Line::Complete("uniqueline_after_hazard".into()));
    assert_eq!(c.consecutive_unknown_count(), 1);
}

// -----------------------------------------------------------------------
// Tier 3: Temporal heuristics
// -----------------------------------------------------------------------

// Test 60: Lines after silence bypass structural noise
#[test]
fn test_temporal_silence_bypass() {
    let mut c = Watcher::new(None, None);

    // First line sets up a previous line for potential dedup
    c.classify(Line::Complete("Downloading package foo v1.0.0".into()));

    // Notify silence exceeding threshold
    c.notify_silence(Duration::from_secs(3));

    // This line would normally dedup with the previous, but silence gives immunity
    let r2 = c.classify(Line::Complete("Downloading package bar v1.0.0".into()));
    // Should NOT be Noise(Dedup) because temporal boost is active
    assert!(!matches!(
        r2,
        Classification::Noise {
            action: NoiseAction::Dedup,
            ..
        }
    ));
}

// Test 61: Silence transitions to MaybePrompt
#[test]
fn test_silence_to_maybe_prompt() {
    let mut c = Watcher::new(None, None);
    c.classify(Line::Complete("hello".into()));
    assert_eq!(c.state(), ClassifierState::Running);

    c.notify_silence(Duration::from_millis(600));
    assert_eq!(c.state(), ClassifierState::MaybePrompt);
}

// Test 62: Output resumes from MaybePrompt → Running
#[test]
fn test_maybe_prompt_to_running() {
    let mut c = Watcher::new(None, None);
    c.classify(Line::Complete("hello".into()));
    c.notify_silence(Duration::from_millis(600));
    assert_eq!(c.state(), ClassifierState::MaybePrompt);

    c.classify(Line::Complete("more output".into()));
    assert_eq!(c.state(), ClassifierState::Running);
}

// -----------------------------------------------------------------------
// Tier 3: Ring buffer
// -----------------------------------------------------------------------

// Test 63: Ring buffer tracks last 5 lines
#[test]
fn test_ring_buffer_last_5() {
    let mut c = Watcher::new(None, None);

    for i in 0..8 {
        c.classify(Line::Complete(format!("uniqueline_{i}_cccc")));
    }

    let buf = c.ring_buffer();
    assert_eq!(buf.len(), RING_BUFFER_SIZE);
    // Should contain lines 3..8 (the last 5)
    assert!(buf[0].contains("uniqueline_3_cccc"));
    assert!(buf[4].contains("uniqueline_7_cccc"));
}

// Test 64: Ring buffer available on exit with no outcome
#[test]
fn test_ring_buffer_no_outcome() {
    let mut c = Watcher::new(None, None);

    c.classify(Line::Complete("line_a_uniqueX".into()));
    c.classify(Line::Complete("line_b_uniqueX".into()));
    c.classify(Line::Complete("line_c_uniqueX".into()));

    assert!(!c.has_outcome());
    let buf = c.ring_buffer();
    assert_eq!(buf.len(), 3);
}

// Test 65: Outcome tracked for ring buffer decision
#[test]
fn test_ring_buffer_has_outcome() {
    let mut c = Watcher::new(None, None);

    c.classify(Line::Complete("uniqueline_d_xyz".into()));
    assert!(!c.has_outcome());

    // Trigger an Outcome via green ANSI + success keyword
    c.classify(Line::Complete("\x1b[32mBuild succeeded\x1b[0m".into()));
    assert!(c.has_outcome());
}

// -----------------------------------------------------------------------
// Hazards NEVER suppressed by noise (cross-tier invariant)
// -----------------------------------------------------------------------

// Test 66: Grammar hazard rules always evaluated before noise rules
#[test]
fn test_hazard_never_suppressed_by_grammar_noise() {
    // The key invariant: if a grammar DEFINES a hazard rule, it runs before noise.
    // Even when both hazard and noise patterns could match, hazard wins.
    let toml_str2 = r#"
[tool]
name = "test2"

[actions.build]
detect = ["build"]

[[actions.build.hazard]]
pattern = 'FATAL'
severity = "error"
action = "keep"

[[actions.build.noise]]
pattern = 'FATAL.*noise'
action = "strip"

[actions.build.summary]
success = "ok"
"#;
    let grammar2 = load_grammar_from_str(toml_str2).unwrap();
    let action2 = grammar2.actions.get("build").unwrap();
    let mut c = Watcher::new(Some(&grammar2), Some(action2));

    // Both hazard and noise could match — hazard wins
    let result = c.classify(Line::Complete("FATAL crash noise here".into()));
    assert!(matches!(
        result,
        Classification::Hazard {
            severity: Severity::Error,
            ..
        }
    ));
}

// Test 67: Decorative noise cannot suppress error keyword
#[test]
fn test_tier2_error_not_suppressed_by_tier3() {
    let mut c = Watcher::new(None, None);

    // "error:" at start — Tier 2 should catch this before Tier 3
    let result = c.classify(Line::Complete("error: compilation failed".into()));
    assert!(matches!(
        result,
        Classification::Hazard {
            severity: Severity::Error,
            ..
        }
    ));
}

// -----------------------------------------------------------------------
// Prompt detection requires Partial line type
// -----------------------------------------------------------------------

// Test 68: REPL prompt on Partial line
#[test]
fn test_prompt_repl_partial() {
    let mut c = Watcher::new(None, None);
    let result = c.classify(Line::Partial("node> ".into()));
    assert!(matches!(result, Classification::Prompt { .. }));
    assert_eq!(c.state(), ClassifierState::AwaitingInput);
}

// Test 69: "Enter" prompt on Partial line
#[test]
fn test_prompt_enter_partial() {
    let mut c = Watcher::new(None, None);
    let result = c.classify(Line::Partial("Enter your name: ".into()));
    assert!(matches!(result, Classification::Prompt { .. }));
}

// Test 70: "Press any key" on Partial line
#[test]
fn test_prompt_press_any_key_partial() {
    let mut c = Watcher::new(None, None);
    let result = c.classify(Line::Partial("Press any key to continue".into()));
    assert!(matches!(result, Classification::Prompt { .. }));
}

// Test 71: REPL prompt on Complete line → NOT a prompt
#[test]
fn test_prompt_repl_complete_not_prompt() {
    let mut c = Watcher::new(None, None);
    let result = c.classify(Line::Complete("node> ".into()));
    // Complete lines don't trigger prompt detection
    assert!(!matches!(result, Classification::Prompt { .. }));
}

// -----------------------------------------------------------------------
// State machine transitions (extended)
// -----------------------------------------------------------------------

// Test 72: ConsumingTrace → Running when trace ends
#[test]
fn test_state_consuming_trace_to_running() {
    let mut c = Watcher::new(None, None);

    // Enter CONSUMING_TRACE via stack trace
    c.classify(Line::Complete(
        "    at func (file.js:10:5)".into(),
    ));
    assert_eq!(c.state(), ClassifierState::ConsumingTrace);

    // Non-matching line ends the trace
    c.classify(Line::Complete("Done.".into()));
    assert_eq!(c.state(), ClassifierState::Running);
}

// Test 73: AwaitingInput → Running via resume_from_prompt
#[test]
fn test_state_awaiting_input_resume() {
    let mut c = Watcher::new(None, None);
    c.classify(Line::Partial("Password: ".into()));
    assert_eq!(c.state(), ClassifierState::AwaitingInput);

    c.resume_from_prompt();
    assert_eq!(c.state(), ClassifierState::Running);

    // Calling resume when not AwaitingInput does nothing
    c.resume_from_prompt();
    assert_eq!(c.state(), ClassifierState::Running);
}

// Test 74: Idle → Running → MaybePrompt → Running
#[test]
fn test_state_full_maybe_prompt_cycle() {
    let mut c = Watcher::new(None, None);
    assert_eq!(c.state(), ClassifierState::Idle);

    c.classify(Line::Complete("output".into()));
    assert_eq!(c.state(), ClassifierState::Running);

    c.notify_silence(Duration::from_millis(600));
    assert_eq!(c.state(), ClassifierState::MaybePrompt);

    c.classify(Line::Complete("more output".into()));
    assert_eq!(c.state(), ClassifierState::Running);
}

// -----------------------------------------------------------------------
// Levenshtein distance unit tests
// -----------------------------------------------------------------------

// Test 75: Levenshtein identical strings
#[test]
fn test_levenshtein_identical() {
    assert_eq!(levenshtein("hello", "hello"), 0);
}

// Test 76: Levenshtein single edit
#[test]
fn test_levenshtein_single_edit() {
    assert_eq!(levenshtein("hello", "hallo"), 1);
    assert_eq!(levenshtein("cat", "cats"), 1);
}

// Test 77: Levenshtein empty strings
#[test]
fn test_levenshtein_empty() {
    assert_eq!(levenshtein("", ""), 0);
    assert_eq!(levenshtein("abc", ""), 3);
    assert_eq!(levenshtein("", "abc"), 3);
}

// Test 78: is_similar with very different lines
#[test]
fn test_is_similar_very_different() {
    assert!(!is_similar("hello world", "goodbye universe"));
}

// Test 79: is_similar with nearly identical lines
#[test]
fn test_is_similar_nearly_identical() {
    assert!(is_similar(
        "Compiling serde v1.0.195",
        "Compiling serde v1.0.196"
    ));
}

// -----------------------------------------------------------------------
// Tier 1 evaluation order: action-specific noise → global noise → inherited
// -----------------------------------------------------------------------

// Test 80: Action noise rules checked before global noise
#[test]
fn test_tier1_action_noise_before_global() {
    let toml_str = r#"
[tool]
name = "test"

[[global_noise]]
pattern = '^progress'
action = "dedup"

[actions.build]
detect = ["build"]

[[actions.build.noise]]
pattern = '^progress'
action = "strip"

[actions.build.summary]
success = "ok"
"#;
    let grammar = load_grammar_from_str(toml_str).unwrap();
    let action = grammar.actions.get("build").unwrap();
    let mut c = Watcher::new(Some(&grammar), Some(action));

    let result = c.classify(Line::Complete("progress: 50%".into()));
    // Action-specific noise (strip) should win over global (dedup)
    assert!(matches!(
        result,
        Classification::Noise {
            action: NoiseAction::Strip,
            ..
        }
    ));
}

// -----------------------------------------------------------------------
// Edge cases and integration
// -----------------------------------------------------------------------

// Test 81: Box-drawing characters → Noise(Strip)
#[test]
fn test_tier3_box_drawing() {
    let mut c = Watcher::new(None, None);
    let result = c.classify(Line::Complete("┌──────────────┐".into()));
    assert!(matches!(
        result,
        Classification::Noise {
            action: NoiseAction::Strip,
            ..
        }
    ));
}

// Test 82: Mixed scenario — grammar + universal + structural
#[test]
fn test_mixed_scenario_full_pipeline() {
    let grammar = make_npm_grammar();
    let action = grammar.actions.get("install").unwrap();
    let mut c = Watcher::new(Some(&grammar), Some(action));

    // Tier 1 noise
    let r1 = c.classify(Line::Complete("idealTree: loading".into()));
    assert!(matches!(r1, Classification::Noise { .. }));

    // Tier 1 outcome
    let r2 = c.classify(Line::Complete("added 42 packages in 2.1s".into()));
    assert!(matches!(r2, Classification::Outcome { .. }));

    // Tier 2 error (no grammar match)
    let r3 = c.classify(Line::Complete("FATAL: out of memory".into()));
    assert!(matches!(
        r3,
        Classification::Hazard {
            severity: Severity::Error,
            ..
        }
    ));

    // Tier 3 decorative
    let r4 = c.classify(Line::Complete("========".into()));
    assert!(matches!(
        r4,
        Classification::Noise {
            action: NoiseAction::Strip,
            ..
        }
    ));

    // Unknown
    let r5 = c.classify(Line::Complete("some random output xyzzy".into()));
    assert!(matches!(r5, Classification::Unknown { .. }));
}

// Test 83: Temporal heuristic - elapsed time triggers noise bypass automatically
#[test]
fn test_temporal_auto_bypass_via_elapsed() {
    let mut c = Watcher::new(None, None);

    // Classify first line to set a baseline
    c.classify(Line::Complete("Downloading package foo v1.0.0".into()));

    // Manually set last_line_time to the past to simulate silence
    c.pause(Duration::from_secs(3));

    // This line would normally dedup, but elapsed > SILENCE_THRESHOLD
    let result = c.classify(Line::Complete("Downloading package bar v1.0.0".into()));
    assert!(!matches!(
        result,
        Classification::Noise {
            action: NoiseAction::Dedup,
            ..
        }
    ));
}

// -----------------------------------------------------------------------
// Tier 3b: ImplicitDedup in classifier path
// -----------------------------------------------------------------------

// Test 84: 5 consecutive similar lines → classified as Noise(Dedup)
#[test]
fn test_implicit_dedup_consecutive_similar_noise_dedup() {
    let mut c = Watcher::new(None, None);

    // First line: NotSimilar → Unknown
    let r1 = c.classify(Line::Complete("Compiling serde v1.0.195".into()));
    assert!(matches!(r1, Classification::Unknown { .. }));

    // Lines 2-5: Absorbed → Noise(Dedup)
    let r2 = c.classify(Line::Complete("Compiling tokio v1.35.0".into()));
    assert!(matches!(
        r2,
        Classification::Noise {
            action: NoiseAction::Dedup,
            ..
        }
    ));

    let r3 = c.classify(Line::Complete("Compiling regex v1.10.0".into()));
    assert!(matches!(
        r3,
        Classification::Noise {
            action: NoiseAction::Dedup,
            ..
        }
    ));

    let r4 = c.classify(Line::Complete("Compiling syn v2.0.48".into()));
    assert!(matches!(
        r4,
        Classification::Noise {
            action: NoiseAction::Dedup,
            ..
        }
    ));

    let r5 = c.classify(Line::Complete("Compiling quote v1.0.35".into()));
    assert!(matches!(
        r5,
        Classification::Noise {
            action: NoiseAction::Dedup,
            ..
        }
    ));
}

// Test 85: Dissimilar lines → still Unknown (not affected by ImplicitDedup)
#[test]
fn test_implicit_dedup_dissimilar_lines_still_unknown() {
    let mut c = Watcher::new(None, None);

    let r1 = c.classify(Line::Complete("Starting build process".into()));
    assert!(matches!(r1, Classification::Unknown { .. }));

    let r2 = c.classify(Line::Complete("Loading configuration file".into()));
    assert!(matches!(r2, Classification::Unknown { .. }));

    let r3 = c.classify(Line::Complete("Initializing database connection".into()));
    assert!(matches!(r3, Classification::Unknown { .. }));
}

// Test 86: Mixed — similar lines then a different line → Noise then Unknown
#[test]
fn test_implicit_dedup_mixed_similar_then_different() {
    let mut c = Watcher::new(None, None);

    // Similar lines
    let r1 = c.classify(Line::Complete("Compiling serde v1.0.195".into()));
    assert!(matches!(r1, Classification::Unknown { .. }));

    let r2 = c.classify(Line::Complete("Compiling tokio v1.35.0".into()));
    assert!(matches!(
        r2,
        Classification::Noise {
            action: NoiseAction::Dedup,
            ..
        }
    ));

    let r3 = c.classify(Line::Complete("Compiling regex v1.10.0".into()));
    assert!(matches!(
        r3,
        Classification::Noise {
            action: NoiseAction::Dedup,
            ..
        }
    ));

    // Break the streak with a dissimilar line
    let r4 = c.classify(Line::Complete("Finished release target in 45.2s".into()));
    assert!(matches!(r4, Classification::Unknown { .. }));
}

// Test 87: Grammar-matched lines still classified by Tier 1 (ImplicitDedup doesn't override)
#[test]
fn test_implicit_dedup_does_not_override_grammar() {
    let toml_str = r#"
[tool]
name = "cargo"

[actions.build]
detect = ["build"]

[[actions.build.noise]]
pattern = '^Compiling'
action = "dedup"

[actions.build.summary]
success = "ok"
"#;
    let grammar = load_grammar_from_str(toml_str).unwrap();
    let action = grammar.actions.get("build").unwrap();
    let mut c = Watcher::new(Some(&grammar), Some(action));

    // These all match the grammar noise rule (Tier 1) — ImplicitDedup should NOT interfere
    let r1 = c.classify(Line::Complete("Compiling serde v1.0.195".into()));
    assert!(matches!(
        r1,
        Classification::Noise {
            action: NoiseAction::Dedup,
            ..
        }
    ));

    let r2 = c.classify(Line::Complete("Compiling tokio v1.35.0".into()));
    assert!(matches!(
        r2,
        Classification::Noise {
            action: NoiseAction::Dedup,
            ..
        }
    ));

    // Non-matching line → should fall through to Unknown (or Tier 2/3)
    let r3 = c.classify(Line::Complete("Finished release target in 45.2s".into()));
    assert!(matches!(r3, Classification::Unknown { .. }));
}

// -----------------------------------------------------------------------
// Stack trace compression (d1)
// -----------------------------------------------------------------------

// Test 87: Long stack trace (50 frames) compresses to summary + last frame
#[test]
fn test_stack_trace_compression_long() {
    let mut c = Watcher::new(None, None);

    // First frame — enters ConsumingTrace, emitted as Hazard
    let r1 = c.classify(Line::Complete(
        "    at func1 (app.js:1:1)".into(),
    ));
    assert!(matches!(r1, Classification::Hazard { .. }));
    assert_eq!(c.state(), ClassifierState::ConsumingTrace);

    // 48 continuation frames (frames 2–49)
    for i in 2..=49 {
        let r = c.classify(Line::Complete(
            format!("    at func{} (app.js:{}:1)", i, i),
        ));
        assert!(matches!(r, Classification::Noise { action: NoiseAction::Strip, .. }));
    }

    // Terminating line ends the trace
    let r_end = c.classify(Line::Complete("Process exited with code 1".into()));

    // Should return compressed Hazard (not the terminating line)
    assert!(matches!(r_end, Classification::Hazard { .. }));
    if let Classification::Hazard { ref text, .. } = r_end {
        // Should mention frame count: 49 total - first - last = 47 middle frames
        assert!(text.contains("47 frames"), "expected '47 frames' in: {}", text);
        // Should include the last frame
        assert!(text.contains("func49"), "expected last frame 'func49' in: {}", text);
    }

    // Drain deferred: should return classification for "Process exited with code 1"
    let deferred = c.drain_deferred();
    assert!(deferred.is_some(), "expected deferred classification");
    assert!(matches!(deferred.unwrap(), Classification::Unknown { .. }));
}

// Test 88: Two-frame trace emits last frame (no "N frames" marker)
#[test]
fn test_stack_trace_compression_two_frames() {
    let mut c = Watcher::new(None, None);

    let r1 = c.classify(Line::Complete(
        "    at func1 (app.js:1:1)".into(),
    ));
    assert!(matches!(r1, Classification::Hazard { .. }));

    let r2 = c.classify(Line::Complete(
        "    at func2 (app.js:2:1)".into(),
    ));
    assert!(matches!(r2, Classification::Noise { action: NoiseAction::Strip, .. }));

    // Terminating line
    let r_end = c.classify(Line::Complete("Done.".into()));

    // Should return Hazard with last frame text (no "frames" marker)
    assert!(matches!(r_end, Classification::Hazard { .. }));
    if let Classification::Hazard { ref text, .. } = r_end {
        assert!(text.contains("func2"), "expected last frame in: {}", text);
        assert!(!text.contains("frames"), "should not have frames marker for 2-frame trace: {}", text);
    }

    // Drain deferred: "Done." → Unknown
    let deferred = c.drain_deferred();
    assert!(deferred.is_some());
    assert!(matches!(deferred.unwrap(), Classification::Unknown { .. }));
}

#[test]
fn traces_of_three_frames_name_the_one_left_out() {
    let frames: Vec<String> = ["a", "b", "c", "d"].iter().map(|f| f.to_string()).collect();
    assert_eq!(compress_trace(&frames[..1]), None);
    assert_eq!(compress_trace(&frames[..2]), Some("b".to_string()));
    assert_eq!(compress_trace(&frames[..3]), Some("... 1 frames ...\nc".to_string()));
    assert_eq!(compress_trace(&frames), Some("... 2 frames ...\nd".to_string()));
}

// Test 89: Single frame — no compression, no deferral
#[test]
fn test_stack_trace_no_compression_single_frame() {
    let mut c = Watcher::new(None, None);

    let r1 = c.classify(Line::Complete(
        "    at func1 (app.js:1:1)".into(),
    ));
    assert!(matches!(r1, Classification::Hazard { .. }));
    assert_eq!(c.state(), ClassifierState::ConsumingTrace);

    // Terminating line immediately (only 1 frame collected)
    let r_end = c.classify(Line::Complete("Done.".into()));

    // Should fall through to normal classification (no compression)
    assert!(matches!(r_end, Classification::Unknown { .. }));
    assert_eq!(c.state(), ClassifierState::Running);

    // No deferred line
    let deferred = c.drain_deferred();
    assert!(deferred.is_none());
}

// Test 90: drain_deferred returns None when no trace ended
#[test]
fn test_drain_deferred_empty() {
    let mut c = Watcher::new(None, None);

    c.classify(Line::Complete("hello world".into()));
    let deferred = c.drain_deferred();
    assert!(deferred.is_none());
}

// Test 91: Python traceback with File+code interleaving compresses correctly
#[test]
fn test_stack_trace_compression_python_interleaved() {
    let mut c = Watcher::new(None, None);

    // "Traceback" header — Hazard from error_start, NOT ConsumingTrace
    let r0 = c.classify(Line::Complete(
        "Traceback (most recent call last):".into(),
    ));
    assert!(matches!(r0, Classification::Hazard { .. }));
    assert_ne!(c.state(), ClassifierState::ConsumingTrace);

    // First File frame — enters ConsumingTrace
    let r1 = c.classify(Line::Complete(
        "  File \"/app/main.py\", line 42".into(),
    ));
    assert!(matches!(r1, Classification::Hazard { .. }));
    assert_eq!(c.state(), ClassifierState::ConsumingTrace);

    // Code line (indented — continuation)
    c.classify(Line::Complete("    result = process(data)".into()));

    // 10 more File+code pairs
    for i in 0..10 {
        c.classify(Line::Complete(
            format!("  File \"/app/mod{}.py\", line {}", i, i * 10),
        ));
        c.classify(Line::Complete(
            format!("    code_line_{}", i),
        ));
    }

    // consuming_trace_lines: 1 (first) + 1 (code) + 20 (10 pairs) = 22

    // Terminating error line
    let r_end = c.classify(Line::Complete("ValueError: bad input".into()));

    // Should return compressed Hazard
    assert!(matches!(r_end, Classification::Hazard { .. }));
    if let Classification::Hazard { ref text, .. } = r_end {
        // 22 total - 2 (first + last) = 20 middle frames
        assert!(text.contains("20 frames"), "expected '20 frames' in: {}", text);
    }

    // Drain deferred: "ValueError: bad input" → Unknown (no universal pattern matches)
    let deferred = c.drain_deferred();
    assert!(deferred.is_some());
    assert!(matches!(deferred.unwrap(), Classification::Unknown { .. }));
}

// -----------------------------------------------------------------------
// Grammar inheritance end-to-end through Classifier (d2)
// -----------------------------------------------------------------------

#[test]
fn test_finalize_with_grammar_outcomes() {
    let toml_str = r#"
[tool]
name = "npm"

[actions.install]
detect = ["install"]

[[actions.install.outcome]]
pattern = '^added (?P<count>\d+) packages? in (?P<time>.+)'
action = "promote"
captures = ["count", "time"]

[actions.install.summary]
success = "+ {count} packages installed ({time})"
failure = "! npm install failed (exit {exit_code})"
"#;
    let grammar = load_grammar_from_str(toml_str).unwrap();
    let action = grammar.actions.get("install").unwrap();

    let mut buf = EmitBuffer::new();
    buf.accept(Classification::Outcome {
        text: "added 42 packages in 3.2s".into(),
        captures: pairs(&[
            ("count", "42"),
            ("time", "3.2s"),
        ]),
    });

    let summary = buf.finalize(0, &seconds(Duration::from_secs(3)), Some(&grammar), Some(action));
    assert_eq!(summary.summary_lines.len(), 1);
    assert_eq!(
        summary.summary_lines[0],
        "+ 42 packages installed (3.2s)"
    );
}

// ---------------------------------------------------------------------------
// Gathering grammars
// ---------------------------------------------------------------------------

fn small(name: &str) -> Grammar {
    load_grammar_from_str(&format!("[tool]\nname = \"{name}\"\ndetect = [\"{name}\"]\n")).unwrap()
}

fn file(name: &str, outcome: GrammarOutcome) -> GrammarFile {
    GrammarFile { file_name: name.to_string(), path: format!("/g/{name}"), outcome }
}

// Test: User grammar overrides bundled grammar of same name
#[test]
fn test_user_grammar_overrides_bundled() {
    let npm = make_npm_grammar();
    let (mut grammars, warnings) = load_bundled_grammars(vec![("npm".to_string(), Ok(npm))]);
    assert!(warnings.is_empty());

    // The bundled npm grammar should exist
    assert!(grammars.contains_key("npm"));
    let original_actions = grammars.get("npm").unwrap().actions.len();

    // Create a minimal "override" grammar
    let override_toml = r#"
[tool]
name = "npm"
detect = ["npm"]
"#;
    let override_grammar = load_grammar_from_str(override_toml).unwrap();
    load_grammars(
        &mut grammars,
        vec![file("npm.toml", GrammarOutcome::Loaded(override_grammar))],
    );

    // Now the npm grammar should have zero actions (our override has none)
    assert_eq!(grammars.get("npm").unwrap().actions.len(), 0);
    assert_ne!(
        original_actions, 0,
        "original should have had actions for comparison"
    );
    assert_eq!(grammars.len(), 1);
}

// Test: Invalid grammar file is skipped with warning
#[test]
fn test_invalid_grammar_skipped() {
    let mut grammars = StrMap::new();
    let warnings = load_grammars(
        &mut grammars,
        vec![
            file("good.toml", GrammarOutcome::Loaded(small("good"))),
            file("bad.toml", GrammarOutcome::Malformed("oops".into())),
            file("gone.toml", GrammarOutcome::Unreadable("denied".into())),
            file("notes.txt", GrammarOutcome::Malformed("no grammar".into())),
        ],
    );
    assert!(grammars.contains_key("good"), "valid grammar should be loaded");
    assert!(!grammars.contains_key("bad"), "invalid TOML should be skipped");
    assert_eq!(
        warnings,
        vec![
            "warning: failed to parse grammar '/g/bad.toml': oops",
            "warning: failed to read grammar file '/g/gone.toml': denied",
        ]
    );
}

// Test: underscore-prefixed files in grammar dir are skipped
#[test]
fn test_underscore_files_skipped() {
    let mut grammars = StrMap::new();
    load_grammars(
        &mut grammars,
        vec![
            file("_internal.toml", GrammarOutcome::Loaded(small("_internal"))),
            file("mytool.toml", GrammarOutcome::Loaded(small("mytool"))),
            file(".toml", GrammarOutcome::Loaded(small("hidden"))),
        ],
    );
    assert!(
        !grammars.contains_key("_internal"),
        "underscore-prefixed files should be skipped"
    );
    assert!(
        grammars.contains_key("mytool"),
        "normal grammar files should be loaded"
    );
    assert_eq!(grammars.len(), 1);
}

#[test]
fn bundled_grammars_that_do_not_parse_are_warned_about() {
    let (grammars, warnings) = load_bundled_grammars(vec![
        ("git".to_string(), Ok(small("git"))),
        ("make".to_string(), Err("oops".to_string())),
    ]);
    assert_eq!(grammars.len(), 1);
    assert_eq!(warnings, vec!["warning: failed to parse bundled grammar 'make': oops"]);
}

#[test]
fn directories_of_grammars_share_rules() {
    let shared_toml = "[[rules]]\npattern = '^SHARED'\naction = \"strip\"\n";
    let mut shared = StrMap::new();
    shared.insert("common".to_string(), load_shared_rules_from_str(shared_toml).unwrap());
    let heir =
        load_grammar_from_str("[tool]\nname = \"npm\"\ninherit = [\"common\", \"nothing\"]\n")
            .unwrap();
    let grammars = collect_grammars(vec![small("npm"), small("git"), heir], &shared);
    assert_eq!(grammars.len(), 2);
    assert_eq!(grammars.get("npm").unwrap().global_noise.len(), 1);
    assert!(grammars.get("npm").unwrap().global_noise[0].pattern.is_match("SHARED x"));
    assert!(grammars.get("git").unwrap().global_noise.is_empty());
}

#[test]
fn words_of_errors_are_always_told() {
    let signs = |warning: bool, success: bool| LineSigns {
        error_start: true,
        error_anywhere: true,
        warning_start: warning,
        warning_anywhere: warning,
        success,
        stack_start: false,
        stack_continue: false,
        decorative: true,
    };
    assert_eq!(classify_tier2(&[], signs(false, false)), Some(UniversalClass::Error));
    assert_eq!(classify_tier2(&[], signs(true, true)), Some(UniversalClass::Error));
    assert_eq!(
        classify_tier2(&[AnsiColor::BrightRed, AnsiColor::Green], signs(true, true)),
        Some(UniversalClass::Error)
    );
    assert_eq!(
        classify_tier2(&[AnsiColor::Yellow], signs(true, true)),
        Some(UniversalClass::Warning)
    );
    assert_eq!(
        classify_tier2(&[AnsiColor::BrightGreen], signs(true, true)),
        Some(UniversalClass::Outcome)
    );
    assert_eq!(
        classify_tier2(&[AnsiColor::BrightGreen], signs(true, false)),
        Some(UniversalClass::Error)
    );
}

#[test]
fn rules_are_made_with_their_patterns() {
    let raw = |action: &str, severity: Option<&str>| RawRule {
        pattern: "(".to_string(),
        action: action.to_string(),
        severity: severity.map(String::from),
        captures: None,
        multiline: Some(2),
    };
    let compiled = || regex::Regex::new("^x");
    let refused = || regex::Regex::new("(");
    let rule = Rule::from_compiled(&raw("keep", Some("error")), compiled()).unwrap();
    assert!(rule.pattern.is_match("xy"));
    assert_eq!(rule.severity, Some(Severity::Error));
    assert_eq!(rule.multiline, Some(2));
    assert!(matches!(
        Rule::from_compiled(&raw("burn", None), refused()),
        Err(GrammarError::InvalidRegex { pattern, .. }) if pattern == "("
    ));
    assert!(matches!(
        Rule::from_compiled(&raw("burn", Some("mild")), compiled()),
        Err(GrammarError::InvalidAction(word)) if word == "burn"
    ));
    assert!(matches!(
        Rule::from_compiled(&raw("keep", Some("mild")), compiled()),
        Err(GrammarError::InvalidSeverity(word)) if word == "mild"
    ));
    let block = RawBlockRule {
        start: "S".to_string(),
        end: None,
        extract: "X".to_string(),
        digest: "d".to_string(),
    };
    let made = BlockRule::from_compiled(&block, compiled(), compiled(), compiled()).unwrap();
    assert_eq!(made.digest, "d");
    for (start, end, extract, reported) in [
        (refused(), refused(), refused(), "S"),
        (compiled(), refused(), refused(), r"^\s*$"),
        (compiled(), compiled(), refused(), "X"),
    ] {
        assert!(matches!(
            BlockRule::from_compiled(&block, start, end, extract),
            Err(GrammarError::InvalidRegex { pattern, .. }) if pattern == reported
        ));
    }
}

#[test]
fn a_rule_catches_its_groups() {
    let raw = RawRule {
        pattern: r"added (?P<count>\d+)(?P<more> or more)?".to_string(),
        action: "promote".to_string(),
        severity: None,
        captures: Some(vec!["count".to_string(), "more".to_string(), "none".to_string()]),
        multiline: None,
    };
    let rule = Rule::try_from(&raw).unwrap();
    assert!(try_match_rule(&rule, "removed 3").is_none());
    let caught = try_match_rule(&rule, "added 147 packages").unwrap();
    assert_eq!(caught.get("count"), Some(&"147".to_string()));
    assert_eq!(caught.len(), 1);
}

/// A grammar with hints for the tool.
fn hinted(tool: &str, prefer: &str) -> String {
    format!(
        "[tool]\nname = \"{tool}\"\n[[llm_hints]]\nprefer = \"{prefer}\"\nreason = \"shorter\"\n"
    )
}

/// A grammar with hints for its actions.
fn hinted_actions(tool: &str, actions: &[(&str, &str)]) -> String {
    let mut text = format!("[tool]\nname = \"{tool}\"\n");
    for (action, prefer) in actions {
        text.push_str(&format!(
            "[actions.{action}]\ndetect = [\"{action}\"]\n[[actions.{action}.llm_hints]]\n\
             prefer = \"{prefer}\"\nreason = \"shorter\"\n"
        ));
    }
    text
}

fn all_grammars(texts: &[String]) -> StrMap<Grammar> {
    let list = texts.iter().map(|t| load_grammar_from_str(t).unwrap()).collect();
    collect_grammars(list, &StrMap::new())
}

#[test]
fn test_llm_hint_toml_deserialization_tool_level() {
    let grammars = all_grammars(&[
        hinted("pytest", "--tb=short"),
        hinted("terraform", "-no-color"),
        hinted("jest", "--silent"),
    ]);

    // pytest has a tool-level llm_hint
    let pytest = grammars.get("pytest").unwrap();
    assert_eq!(pytest.llm_hints.len(), 1, "pytest should have 1 tool-level hint");
    assert_eq!(pytest.llm_hints[0].prefer, "--tb=short");
    assert!(!pytest.llm_hints[0].reason.is_empty());

    // terraform has a tool-level llm_hint
    let tf = grammars.get("terraform").unwrap();
    assert_eq!(tf.llm_hints.len(), 1, "terraform should have 1 tool-level hint");
    assert_eq!(tf.llm_hints[0].prefer, "-no-color");

    // jest has a tool-level llm_hint
    let jest = grammars.get("jest").unwrap();
    assert_eq!(jest.llm_hints.len(), 1, "jest should have 1 tool-level hint");
    assert_eq!(jest.llm_hints[0].prefer, "--silent");
}

#[test]
fn test_llm_hint_toml_deserialization_action_level() {
    let grammars = all_grammars(&[
        hinted_actions("git", &[("log", "--oneline -20"), ("status", "--short")]),
        hinted_actions("cargo", &[("test", "-- --nocapture")]),
        hinted_actions("go", &[("test", "-json")]),
        hinted_actions("kubectl", &[("get", "-o json")]),
    ]);

    // git log action has a hint
    let git = grammars.get("git").unwrap();
    let log = git.actions.get("log").unwrap();
    assert_eq!(log.llm_hints.len(), 1, "git log should have 1 hint");
    assert_eq!(log.llm_hints[0].prefer, "--oneline -20");

    // git status action has a hint
    let status = git.actions.get("status").unwrap();
    assert_eq!(status.llm_hints.len(), 1, "git status should have 1 hint");
    assert_eq!(status.llm_hints[0].prefer, "--short");

    // cargo test action has a hint
    let cargo = grammars.get("cargo").unwrap();
    let test = cargo.actions.get("test").unwrap();
    assert_eq!(test.llm_hints.len(), 1, "cargo test should have 1 hint");
    assert_eq!(test.llm_hints[0].prefer, "-- --nocapture");

    // go test action has a hint
    let go = grammars.get("go").unwrap();
    let go_test = go.actions.get("test").unwrap();
    assert_eq!(go_test.llm_hints.len(), 1, "go test should have 1 hint");
    assert_eq!(go_test.llm_hints[0].prefer, "-json");

    // kubectl get action has a hint
    let kubectl = grammars.get("kubectl").unwrap();
    let get = kubectl.actions.get("get").unwrap();
    assert_eq!(get.llm_hints.len(), 1, "kubectl get should have 1 hint");
    assert_eq!(get.llm_hints[0].prefer, "-o json");
}

#[test]
fn test_llm_hint_grammar_without_hints_is_empty() {
    let text = "[tool]\nname = \"cargo\"\n[actions.build]\ndetect = [\"build\"]\n".to_string();
    let grammars = all_grammars(&[text]);

    // cargo build action has no llm_hints
    let cargo = grammars.get("cargo").unwrap();
    let build = cargo.actions.get("build").unwrap();
    assert!(build.llm_hints.is_empty(), "cargo build should have no hints");

    // cargo itself has no tool-level hints
    assert!(cargo.llm_hints.is_empty(), "cargo tool should have no tool-level hints");
}

#[test]
fn hazards_of_several_lines_skip_what_is_no_line() {
    let toml_str = r#"
[tool]
name = "x"

[fallback]

[[fallback.hazard]]
pattern = '^oops'
action = "keep"
severity = "warning"
multiline = 2

[[fallback.noise]]
pattern = 'oops'
action = "strip"
"#;
    let grammar = load_grammar_from_str(toml_str).unwrap();
    let mut c = Watcher::new(Some(&grammar), None);
    let first = c.classify(Line::Complete("oops".into()));
    assert_eq!(first.text(), Some(""));
    assert!(matches!(
        c.classify(Line::Overwrite("50%".into())),
        Classification::Noise { action: NoiseAction::Strip, .. }
    ));
    c.classify(Line::Complete("one".into()));
    match c.classify(Line::Complete("two".into())) {
        Classification::Hazard { severity, text, .. } => {
            assert_eq!(severity, Severity::Warning);
            assert_eq!(text, "oops\none\ntwo");
        }
        other => panic!("expected a hazard, got {other:?}"),
    }
    assert_eq!(c.state(), ClassifierState::Running);
    assert!(c.drain_deferred().is_none());
}

#[test]
fn a_summary_counts_the_lines_that_came() {
    let toml_str = "[tool]\nname = \"x\"\n[fallback.summary]\nsuccess = \"{lines} lines\"\n";
    let grammar = load_grammar_from_str(toml_str).unwrap();
    let mut buffer = EmitBuffer::new();
    for text in ["a", "b", "c"] {
        buffer.accept(Classification::Unknown { text: text.into() });
    }
    let summary = buffer.finalize(0, "0.1", Some(&grammar), None);
    assert_eq!(summary.summary_lines, vec!["3 lines"]);
}
