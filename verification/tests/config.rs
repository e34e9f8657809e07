//! The configuration.
use mish::config::{
    builtin_profiles, default_config, load_config, resolve_profile, validate, validate_config,
    warn_unknown_sections, warnings_for, AutoConfirmRule, ConfigError, ConfigFile, ForbiddenRule,
    InputMode, MishConfig, SandboxConfig, SquasherConfig, YieldConfig, YieldToOperatorRule,
};
use mish::paths::expand_tilde;
use mish::strmap::StrMap;

const HOME: &str = "/home/user";

fn io_error(kind: std::io::ErrorKind) -> std::io::Error {
    std::io::Error::new(kind, "no luck")
}

fn number(table: &toml::Table, key: &str) -> Option<u64> {
    table.get(key).map(|v| v.as_integer().expect("integer") as u64)
}

fn text(table: &toml::Table, key: &str) -> Option<String> {
    table.get(key).map(|v| v.as_str().expect("string").to_string())
}

fn flag(table: &toml::Table, key: &str) -> Option<bool> {
    table.get(key).map(|v| v.as_bool().expect("bool"))
}

fn list(table: &toml::Table, key: &str) -> Option<Vec<String>> {
    let items = table.get(key)?.as_array().expect("array");
    Some(items.iter().map(|v| v.as_str().expect("string").to_string()).collect())
}

fn tables(table: &toml::Table, key: &str) -> Vec<toml::Table> {
    match table.get(key) {
        Some(v) => v
            .as_array()
            .expect("array")
            .iter()
            .map(|t| t.as_table().expect("table").clone())
            .collect(),
        None => vec![],
    }
}

/// Reads a configuration from TOML, with the defaults for what it does not say.
fn parsed(content: &str) -> ConfigFile {
    let doc: toml::Table = match content.parse() {
        Ok(doc) => doc,
        Err(e) => return ConfigFile::Malformed(format!("{e}")),
    };
    let section = |name: &str| -> toml::Table {
        doc.get(name).map(|v| v.as_table().expect("table").clone()).unwrap_or_default()
    };
    let mut config = MishConfig::default();

    let t = section("server");
    let c = &mut config.server;
    c.max_sessions = number(&t, "max_sessions").unwrap_or(c.max_sessions as u64) as usize;
    c.max_processes = number(&t, "max_processes").unwrap_or(c.max_processes as u64) as usize;
    c.max_spool_bytes_total =
        number(&t, "max_spool_bytes_total").unwrap_or(c.max_spool_bytes_total as u64) as usize;
    c.idle_session_timeout_sec =
        number(&t, "idle_session_timeout_sec").unwrap_or(c.idle_session_timeout_sec);

    let t = section("squasher");
    let c = &mut config.squasher;
    c.max_lines = number(&t, "max_lines").unwrap_or(c.max_lines as u64) as usize;
    c.max_bytes = number(&t, "max_bytes").unwrap_or(c.max_bytes as u64) as usize;
    c.oreo_head = number(&t, "oreo_head").unwrap_or(c.oreo_head as u64) as usize;
    c.oreo_tail = number(&t, "oreo_tail").unwrap_or(c.oreo_tail as u64) as usize;
    c.spool_bytes = number(&t, "spool_bytes").unwrap_or(c.spool_bytes as u64) as usize;

    let t = section("yield");
    let c = &mut config.yield_config;
    c.silence_timeout_ms = number(&t, "silence_timeout_ms").unwrap_or(c.silence_timeout_ms);
    if let Some(patterns) = list(&t, "prompt_patterns") {
        c.prompt_patterns = patterns;
    }

    let t = section("timeout_defaults");
    let c = &mut config.timeout_defaults;
    c.default = number(&t, "default").unwrap_or(c.default);
    if let Some(scope) = t.get("scope").and_then(|v| v.as_table()) {
        c.scope = StrMap::new();
        for (tool, secs) in scope {
            c.scope.insert(tool.clone(), secs.as_integer().expect("integer") as u64);
        }
    }

    for (name, pattern) in &section("watch_presets") {
        config
            .watch_presets
            .insert(name.clone(), pattern.as_str().expect("string").to_string());
    }

    let t = section("audit");
    let c = &mut config.audit;
    c.log_path = text(&t, "log_path").unwrap_or(c.log_path.clone());
    c.log_level = text(&t, "log_level").unwrap_or(c.log_level.clone());
    c.log_commands = flag(&t, "log_commands").unwrap_or(c.log_commands);
    c.log_policy_decisions = flag(&t, "log_policy_decisions").unwrap_or(c.log_policy_decisions);
    c.log_handoff_events = flag(&t, "log_handoff_events").unwrap_or(c.log_handoff_events);
    c.raw_retention = text(&t, "raw_retention").unwrap_or(c.raw_retention.clone());

    let t = section("policy");
    for rule in tables(&t, "auto_confirm") {
        config.policy.auto_confirm.push(AutoConfirmRule {
            match_pattern: text(&rule, "match").expect("match"),
            respond: text(&rule, "respond").expect("respond"),
            scope: list(&rule, "scope"),
        });
    }
    for rule in tables(&t, "yield_to_operator") {
        config.policy.yield_to_operator.push(YieldToOperatorRule {
            match_pattern: text(&rule, "match").expect("match"),
            notify: flag(&rule, "notify").unwrap_or(false),
        });
    }
    for rule in tables(&t, "forbidden") {
        config.policy.forbidden.push(ForbiddenRule {
            pattern: text(&rule, "pattern").expect("pattern"),
            action: text(&rule, "action").expect("action"),
            message: text(&rule, "message").expect("message"),
        });
    }

    let t = section("handoff");
    let c = &mut config.handoff;
    c.timeout_sec = number(&t, "timeout_sec").unwrap_or(c.timeout_sec);
    c.fallback = text(&t, "fallback").unwrap_or(c.fallback.clone());

    if doc.contains_key("sandbox") {
        let t = section("sandbox");
        let mut c = SandboxConfig::default();
        c.enabled = flag(&t, "enabled").unwrap_or(c.enabled);
        c.allowed_paths = list(&t, "allowed_paths").unwrap_or_default();
        c.readonly_paths = list(&t, "readonly_paths").unwrap_or_default();
        c.network = text(&t, "network").unwrap_or(c.network.clone());
        c.max_pids = number(&t, "max_pids").map(|n| n as u32);
        c.max_memory_mb = number(&t, "max_memory_mb").map(|n| n as u32);
        config.sandbox = Some(c);
    }
    ConfigFile::Parsed(config)
}

fn parse_and_validate(content: &str) -> Result<MishConfig, ConfigError> {
    load_config(parsed(content), Some(HOME))
}

/// 1. Parse valid config with all sections present
#[test]
fn parse_full_config() {
    let toml = r#"
[server]
max_sessions = 10
max_processes = 40
max_spool_bytes_total = 104857600
idle_session_timeout_sec = 7200

[squasher]
max_lines = 300
max_bytes = 131072
oreo_head = 100
oreo_tail = 200
spool_bytes = 2097152

[yield]
silence_timeout_ms = 5000
prompt_patterns = ['Password', 'passphrase']

[timeout_defaults]
default = 600

[timeout_defaults.scope]
terraform = 3600
docker = 1200

[watch_presets]
errors = "error|fatal"
warnings = "warn"

[[policy.auto_confirm]]
match = "Continue?"
respond = "Y\n"
scope = ["apt"]

[[policy.yield_to_operator]]
match = "Password"
notify = true

[[policy.forbidden]]
pattern = "rm -rf /"
action = "block"
message = "Blocked"

[handoff]
timeout_sec = 300
fallback = "yield_to_llm"

[audit]
log_path = "/tmp/mish.log"
log_level = "debug"
log_commands = false
log_policy_decisions = false
log_handoff_events = false

[sandbox]
enabled = true
allowed_paths = ["/home/user"]
readonly_paths = ["/etc"]
network = "host"
max_pids = 100
max_memory_mb = 512
"#;

    let config = parse_and_validate(toml).expect("should parse");

    assert_eq!(config.server.max_sessions, 10);
    assert_eq!(config.server.max_processes, 40);
    assert_eq!(config.server.max_spool_bytes_total, 104_857_600);
    assert_eq!(config.server.idle_session_timeout_sec, 7200);

    assert_eq!(config.squasher.max_lines, 300);
    assert_eq!(config.squasher.max_bytes, 131_072);
    assert_eq!(config.squasher.oreo_head, 100);
    assert_eq!(config.squasher.oreo_tail, 200);
    assert_eq!(config.squasher.spool_bytes, 2_097_152);

    assert_eq!(config.yield_config.silence_timeout_ms, 5000);
    assert_eq!(config.yield_config.prompt_patterns.len(), 2);

    assert_eq!(config.timeout_defaults.default, 600);
    assert_eq!(config.timeout_defaults.scope.get("terraform"), Some(&3600));
    assert_eq!(config.timeout_defaults.scope.get("docker"), Some(&1200));

    assert_eq!(config.watch_presets.get("errors"), Some(&"error|fatal".to_string()));

    assert_eq!(config.policy.auto_confirm.len(), 1);
    assert_eq!(config.policy.auto_confirm[0].match_pattern, "Continue?");
    assert_eq!(config.policy.auto_confirm[0].respond, "Y\n");
    assert_eq!(
        config.policy.auto_confirm[0].scope,
        Some(vec!["apt".to_string()])
    );

    assert_eq!(config.policy.yield_to_operator.len(), 1);
    assert!(config.policy.yield_to_operator[0].notify);

    assert_eq!(config.policy.forbidden.len(), 1);
    assert_eq!(config.policy.forbidden[0].pattern, "rm -rf /");
    assert_eq!(config.policy.forbidden[0].action, "block");

    assert_eq!(config.handoff.timeout_sec, 300);
    assert_eq!(config.handoff.fallback, "yield_to_llm");

    assert_eq!(config.audit.log_path, "/tmp/mish.log");
    assert_eq!(config.audit.log_level, "debug");
    assert!(!config.audit.log_commands);
    assert_eq!(config.audit.raw_retention, "none"); // default when not specified

    let sandbox = config.sandbox.as_ref().unwrap();
    assert!(sandbox.enabled);
    assert_eq!(sandbox.allowed_paths, vec!["/home/user"]);
    assert_eq!(sandbox.readonly_paths, vec!["/etc"]);
    assert_eq!(sandbox.network, "host");
    assert_eq!(sandbox.max_pids, Some(100));
    assert_eq!(sandbox.max_memory_mb, Some(512));
}

/// 2. Parse config with missing sections (defaults applied)
#[test]
fn parse_empty_config_uses_defaults() {
    let toml = "";
    let config = parse_and_validate(toml).expect("should parse");

    let defaults = default_config();
    assert_eq!(config.server.max_sessions, defaults.server.max_sessions);
    assert_eq!(config.squasher.max_lines, defaults.squasher.max_lines);
    assert_eq!(
        config.yield_config.silence_timeout_ms,
        defaults.yield_config.silence_timeout_ms
    );
    assert_eq!(
        config.timeout_defaults.default,
        defaults.timeout_defaults.default
    );
    assert_eq!(config.audit.log_level, defaults.audit.log_level);
    assert_eq!(config.handoff.timeout_sec, defaults.handoff.timeout_sec);
    assert!(config.sandbox.is_none());
}

/// 3. Parse config with only `[server]` section
#[test]
fn parse_only_server_section() {
    let toml = r#"
[server]
max_sessions = 3
max_processes = 10
"#;
    let config = parse_and_validate(toml).expect("should parse");
    assert_eq!(config.server.max_sessions, 3);
    assert_eq!(config.server.max_processes, 10);
    // Other sections should be defaults
    assert_eq!(
        config.squasher.max_lines,
        SquasherConfig::default().max_lines
    );
    assert_eq!(
        config.yield_config.silence_timeout_ms,
        YieldConfig::default().silence_timeout_ms
    );
}

/// 5. Invalid TOML syntax produces clear error
#[test]
fn invalid_toml_syntax() {
    let toml = r#"
[server
max_sessions = 5
"#;
    let result = parse_and_validate(toml);
    assert!(result.is_err());
    match result.unwrap_err() {
        ConfigError::ParseError(msg) => {
            assert!(!msg.is_empty(), "parse error message should not be empty");
        }
        other => panic!("expected ParseError, got {other:?}"),
    }
}

/// 6. Unknown section produces warning but parses successfully
#[test]
fn unknown_section_parses_ok() {
    // `toml::from_str` with `#[serde(default)]` ignores unknown keys,
    // and `warn_unknown_sections` prints the warning to stderr.
    let toml = r#"
[server]
max_sessions = 5

[future_feature]
foo = "bar"
"#;
    let config = parse_and_validate(toml).expect("should parse despite unknown section");
    assert_eq!(config.server.max_sessions, 5);
}

/// 8. Validation rejects zero values for limits
#[test]
fn validation_rejects_zero_limits() {
    let toml = r#"
[server]
max_sessions = 0
max_processes = 0
max_spool_bytes_total = 0

[squasher]
max_lines = 0
max_bytes = 0
oreo_head = 0
oreo_tail = 0

[timeout_defaults]
default = 0
"#;
    let result = parse_and_validate(toml);
    match result {
        Err(ConfigError::ValidationError(errors)) => {
            assert!(
                errors.len() >= 7,
                "expected at least 7 validation errors, got {}: {errors:?}",
                errors.len()
            );
            assert!(errors.iter().any(|e| e.contains("max_sessions")));
            assert!(errors.iter().any(|e| e.contains("max_processes")));
            assert!(errors.iter().any(|e| e.contains("max_spool_bytes_total")));
            assert!(errors.iter().any(|e| e.contains("max_lines")));
            assert!(errors.iter().any(|e| e.contains("max_bytes")));
            assert!(errors.iter().any(|e| e.contains("oreo_head")));
            assert!(errors.iter().any(|e| e.contains("oreo_tail")));
            assert!(errors.iter().any(|e| e.contains("timeout_defaults.default")));
        }
        other => panic!("expected ValidationError, got {other:?}"),
    }
}

/// 9. Validation rejects invalid log_level values
#[test]
fn validation_rejects_invalid_log_level() {
    let toml = r#"
[audit]
log_level = "verbose"
"#;
    let result = parse_and_validate(toml);
    match result {
        Err(ConfigError::ValidationError(errors)) => {
            assert_eq!(errors.len(), 1);
            assert!(errors[0].contains("log_level"));
            assert!(errors[0].contains("verbose"));
        }
        other => panic!("expected ValidationError, got {other:?}"),
    }
}

/// 11. Per-scope timeout overrides parse correctly
#[test]
fn per_scope_timeout_overrides() {
    let toml = r#"
[timeout_defaults]
default = 120

[timeout_defaults.scope]
terraform = 3600
docker = 1200
cargo = 900
custom_tool = 60
"#;
    let config = parse_and_validate(toml).expect("should parse");
    assert_eq!(config.timeout_defaults.default, 120);
    assert_eq!(config.timeout_defaults.scope.len(), 4);
    assert_eq!(*config.timeout_defaults.scope.get("terraform").unwrap(), 3600);
    assert_eq!(*config.timeout_defaults.scope.get("docker").unwrap(), 1200);
    assert_eq!(*config.timeout_defaults.scope.get("cargo").unwrap(), 900);
    assert_eq!(*config.timeout_defaults.scope.get("custom_tool").unwrap(), 60);
}

/// 12. Watch presets parse as HashMap
#[test]
fn watch_presets_parse() {
    let toml = r#"
[watch_presets]
errors = "error|ERR!|fatal|panic"
warnings = "warn|deprecat"
test_results = "passed|failed|error|skip"
"#;
    let config = parse_and_validate(toml).expect("should parse");
    assert_eq!(config.watch_presets.len(), 3);
    assert_eq!(
        *config.watch_presets.get("errors").unwrap(),
        "error|ERR!|fatal|panic"
    );
    assert_eq!(*config.watch_presets.get("warnings").unwrap(), "warn|deprecat");
    assert_eq!(
        *config.watch_presets.get("test_results").unwrap(),
        "passed|failed|error|skip"
    );
}

/// 13. Policy sections parse into structs
#[test]
fn policy_sections_parse() {
    let toml = r#"
[[policy.auto_confirm]]
match = "Do you want to continue"
respond = "Y\n"
scope = ["apt", "apt-get"]

[[policy.auto_confirm]]
match = "Proceed?"
respond = "yes\n"

[[policy.yield_to_operator]]
match = '[Pp]assword|MFA|OTP'
notify = true

[[policy.yield_to_operator]]
match = 'token'
notify = false

[[policy.forbidden]]
pattern = "rm -rf /"
action = "block"
message = "Command blocked by policy"

[[policy.forbidden]]
pattern = ":(){ :|:& };:"
action = "block"
message = "Fork bomb blocked"
"#;
    let config = parse_and_validate(toml).expect("should parse");

    // auto_confirm
    assert_eq!(config.policy.auto_confirm.len(), 2);
    assert_eq!(
        config.policy.auto_confirm[0].match_pattern,
        "Do you want to continue"
    );
    assert_eq!(config.policy.auto_confirm[0].respond, "Y\n");
    assert_eq!(
        config.policy.auto_confirm[0].scope,
        Some(vec!["apt".to_string(), "apt-get".to_string()])
    );
    assert_eq!(config.policy.auto_confirm[1].match_pattern, "Proceed?");
    assert!(config.policy.auto_confirm[1].scope.is_none());

    // yield_to_operator
    assert_eq!(config.policy.yield_to_operator.len(), 2);
    assert!(config.policy.yield_to_operator[0].notify);
    assert!(!config.policy.yield_to_operator[1].notify);

    // forbidden
    assert_eq!(config.policy.forbidden.len(), 2);
    assert_eq!(config.policy.forbidden[0].pattern, "rm -rf /");
    assert_eq!(config.policy.forbidden[0].action, "block");
    assert_eq!(config.policy.forbidden[1].pattern, ":(){ :|:& };:");
}

/// 14. Config with only defaults matches `default_config()`
#[test]
fn empty_config_matches_default() {
    let config = parse_and_validate("").expect("should parse");
    let defaults = default_config();

    // Server
    assert_eq!(config.server.max_sessions, defaults.server.max_sessions);
    assert_eq!(config.server.max_processes, defaults.server.max_processes);
    assert_eq!(
        config.server.max_spool_bytes_total,
        defaults.server.max_spool_bytes_total
    );
    assert_eq!(
        config.server.idle_session_timeout_sec,
        defaults.server.idle_session_timeout_sec
    );

    // Squasher
    assert_eq!(config.squasher.max_lines, defaults.squasher.max_lines);
    assert_eq!(config.squasher.max_bytes, defaults.squasher.max_bytes);
    assert_eq!(config.squasher.oreo_head, defaults.squasher.oreo_head);
    assert_eq!(config.squasher.oreo_tail, defaults.squasher.oreo_tail);
    assert_eq!(config.squasher.spool_bytes, defaults.squasher.spool_bytes);

    // Yield
    assert_eq!(
        config.yield_config.silence_timeout_ms,
        defaults.yield_config.silence_timeout_ms
    );
    assert_eq!(
        config.yield_config.prompt_patterns,
        defaults.yield_config.prompt_patterns
    );

    // Timeout defaults
    assert_eq!(
        config.timeout_defaults.default,
        defaults.timeout_defaults.default
    );
    assert_eq!(
        config.timeout_defaults.scope.entries,
        defaults.timeout_defaults.scope.entries
    );

    // Audit (compare after tilde expansion)
    assert_eq!(config.audit.log_level, defaults.audit.log_level);
    assert_eq!(config.audit.log_commands, defaults.audit.log_commands);
    assert_eq!(
        config.audit.log_policy_decisions,
        defaults.audit.log_policy_decisions
    );
    assert_eq!(
        config.audit.log_handoff_events,
        defaults.audit.log_handoff_events
    );

    // Policy
    assert!(config.policy.auto_confirm.is_empty());
    assert!(config.policy.yield_to_operator.is_empty());
    assert!(config.policy.forbidden.is_empty());

    // Handoff
    assert_eq!(config.handoff.timeout_sec, defaults.handoff.timeout_sec);
    assert_eq!(config.handoff.fallback, defaults.handoff.fallback);

    // Sandbox
    assert!(config.sandbox.is_none());
}

/// Bonus: ConfigError Display impls
#[test]
fn config_error_display() {
    let io_err = ConfigError::IoError(std::io::Error::new(
        std::io::ErrorKind::NotFound,
        "not found",
    ));
    assert!(io_err.message().contains("I/O error"));

    let parse_err = ConfigError::ParseError("bad toml".into());
    assert!(parse_err.message().contains("parse error"));

    let val_err = ConfigError::ValidationError(vec!["a".into(), "b".into()]);
    let msg = val_err.message();
    assert!(msg.contains("a"));
    assert!(msg.contains("b"));
}

/// raw_retention parses from TOML and defaults to "none"
#[test]
fn raw_retention_parses_and_defaults() {
    // Explicit value
    let toml = r#"
[audit]
raw_retention = "7d"
"#;
    let config = parse_and_validate(toml).expect("should parse");
    assert_eq!(config.audit.raw_retention, "7d");

    // Default when not specified
    let config = parse_and_validate("").expect("should parse");
    assert_eq!(config.audit.raw_retention, "none");
}

/// 4. Tilde expansion in `audit.log_path`
#[test]
fn tilde_expansion_in_audit_path() {
    let toml = r#"
[audit]
log_path = "~/logs/mish.log"
"#;
    let config = parse_and_validate(toml).expect("should parse");

    assert_eq!(config.audit.log_path, format!("{HOME}/logs/mish.log"));
    assert!(!config.audit.log_path.starts_with('~'));
}

/// 7. Missing config file returns default config without error
#[test]
fn missing_file_returns_defaults() {
    let missing = ConfigFile::Missing(io_error(std::io::ErrorKind::NotFound));
    let config = load_config(missing, Some(HOME)).expect("should not error");
    let defaults = default_config();
    assert_eq!(config.server.max_sessions, defaults.server.max_sessions);
    assert_eq!(config.squasher.max_lines, defaults.squasher.max_lines);
}

/// 10. `validate_config()` returns all errors, not just the first
#[test]
fn validate_config_returns_all_errors() {
    let result = validate_config(
        parsed(
            r#"
[server]
max_sessions = 0
max_processes = 0

[audit]
log_level = "bogus"
"#,
        ),
        Some(HOME),
    );
    match result {
        Err(errors) => {
            assert!(
                errors.len() >= 3,
                "expected at least 3 errors, got {}: {errors:?}",
                errors.len()
            );
            assert!(errors.iter().any(|e| e.contains("max_sessions")));
            assert!(errors.iter().any(|e| e.contains("max_processes")));
            assert!(errors.iter().any(|e| e.contains("log_level")));
        }
        Ok(()) => panic!("expected errors"),
    }
}

/// Bonus: load_config from a real temp file
#[test]
fn load_config_from_file() {
    let file = parsed(
        r#"
[server]
max_sessions = 8

[squasher]
max_lines = 500
"#,
    );
    let config = load_config(file, Some(HOME)).expect("should load");
    assert_eq!(config.server.max_sessions, 8);
    assert_eq!(config.squasher.max_lines, 500);
    // Defaults for everything else
    assert_eq!(config.squasher.oreo_head, 50);
}

/// Bonus: validate_config on valid file
#[test]
fn validate_config_valid_file() {
    let file = parsed(
        r#"
[server]
max_sessions = 5
"#,
    );
    let result = validate_config(file, Some(HOME));
    assert!(result.is_ok());
}

/// Bonus: tilde expansion helper
#[test]
fn tilde_expansion_basic() {
    let home = Some(HOME);
    assert_eq!(expand_tilde("~/foo", home), format!("{HOME}/foo"));
    assert_eq!(expand_tilde("/absolute/path", home), "/absolute/path");
    assert_eq!(expand_tilde("relative/path", home), "relative/path");
    assert_eq!(expand_tilde("~", home), HOME);
}

#[test]
fn tildes_elsewhere_stay() {
    assert_eq!(expand_tilde("~other/foo", Some(HOME)), "~other/foo");
    assert_eq!(expand_tilde("/a/~/b", Some(HOME)), "/a/~/b");
    assert_eq!(expand_tilde("~/foo", None), "~/foo");
    let once = expand_tilde("~/foo", Some(HOME));
    assert_eq!(expand_tilde(&once, Some(HOME)), once);
}

#[test]
fn sandbox_paths_are_expanded() {
    let toml = r#"
[sandbox]
allowed_paths = ["~/work", "/srv"]
readonly_paths = ["~"]
"#;
    let config = parse_and_validate(toml).expect("should parse");
    let sandbox = config.sandbox.unwrap();
    assert_eq!(sandbox.allowed_paths, vec![format!("{HOME}/work"), "/srv".to_string()]);
    assert_eq!(sandbox.readonly_paths, vec![HOME]);
    assert!(!sandbox.enabled);
    assert_eq!(sandbox.network, "none");
}

#[test]
fn unknown_sections_are_warned_about() {
    let toml = "[server]\n[zebra]\nx = 1\n[alien]\ny = 2\n";
    assert_eq!(
        warn_unknown_sections(toml),
        vec![
            "mish: warning: unknown config section [alien]",
            "mish: warning: unknown config section [zebra]",
        ]
    );
    assert!(warn_unknown_sections("[server\n").is_empty());
    assert_eq!(
        warnings_for(&["policy".to_string(), "Policy".to_string()]),
        vec!["mish: warning: unknown config section [Policy]"]
    );
}

#[test]
fn the_defaults() {
    let config = default_config();
    assert_eq!(config.server.max_sessions, 5);
    assert_eq!(config.server.max_processes, 50);
    assert_eq!(config.server.max_spool_bytes_total, 209_715_200);
    assert_eq!(config.server.idle_session_timeout_sec, 3600);
    assert_eq!(config.squasher.spool_bytes, 4_194_304);
    assert_eq!(config.timeout_defaults.scope.get("terraform"), Some(&1800));
    assert_eq!(config.timeout_defaults.scope.get("pip"), Some(&300));
    assert_eq!(config.timeout_defaults.scope.get("make"), None);
    assert!(validate(&config).is_empty());
}

#[test]
fn unreadable_files_are_told() {
    let denied = || io_error(std::io::ErrorKind::PermissionDenied);
    let result = load_config(ConfigFile::Unreadable(denied()), None);
    assert!(matches!(result, Err(ConfigError::IoError(_))));
    let errors = validate_config(ConfigFile::Unreadable(denied()), None).unwrap_err();
    assert_eq!(errors, vec![format!("cannot read config: {}", denied())]);
    let errors = validate_config(ConfigFile::Malformed("oops".into()), None).unwrap_err();
    assert_eq!(errors, vec!["TOML parse error: oops"]);
}

#[test]
fn messages_of_errors() {
    let both = ConfigError::ValidationError(vec!["a".into(), "b".into()]);
    assert_eq!(both.message(), "config validation errors: a; b");
    assert_eq!(ConfigError::ParseError("x".into()).message(), "config parse error: x");
}

#[test]
fn profiles_frame_input() {
    let paster = resolve_profile(Some("paster"), "paster");
    assert_eq!(paster.wrap_input("hi"), "\x1b[200~hi\x1b[201~<enter>");
    assert_eq!(paster.prompt_pattern, "\u{276f}\\s*$");
    let gemini = resolve_profile(Some("gemini"), "paster");
    assert_eq!(gemini.input_mode, InputMode::Line);
    assert_eq!(gemini.wrap_input("hi"), "hi<enter>");
    assert_eq!(resolve_profile(Some("other"), "paster").name, "generic");
    assert_eq!(resolve_profile(None, "paster").name, "generic");
    let names: Vec<String> = builtin_profiles("paster").into_iter().map(|p| p.name).collect();
    assert_eq!(names, vec!["paster", "gemini", "generic"]);
}
