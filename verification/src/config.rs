//! Settings: profiles of the applications that are driven, the configuration
//! with its defaults, and the checks that it has to pass.
use vstd::prelude::*;
use vstd::string::*;

use crate::outside;
use crate::outside::top_keys;
use crate::paths;
use crate::paths::expand_tilde;
use crate::strmap::StrMap;
use crate::text;
use crate::text::{concat2, concat3, join_strings, list_has};

verus! {

// ---------------------------------------------------------------------------
// Application profiles
// ---------------------------------------------------------------------------

/// How input to an application is framed.
#[derive(Debug, Clone, Copy, PartialEq, Eq, Structural)]
pub enum InputMode {
    /// The submit sequence follows the input.
    Line,
    /// The input is wrapped as a paste, and the submit sequence follows.
    BracketedPaste,
}

/// How to submit input to an application and to see that its turn is over.
#[derive(Debug, Clone)]
pub struct AppProfile {
    pub name: String,
    pub submit_sequence: String,
    pub prompt_pattern: String,
    pub input_mode: InputMode,
}

pub struct AppProfileView {
    pub name: Seq<char>,
    pub submit_sequence: Seq<char>,
    pub prompt_pattern: Seq<char>,
    pub input_mode: InputMode,
}

impl View for AppProfile {
    type V = AppProfileView;

    open spec fn view(&self) -> AppProfileView {
        AppProfileView {
            name: self.name@,
            submit_sequence: self.submit_sequence@,
            prompt_pattern: self.prompt_pattern@,
            input_mode: self.input_mode,
        }
    }
}

impl AppProfile {
    /// Frames input for the application. Key names such as `<enter>` stand as
    /// they are.
    pub fn wrap_input(&self, input: &str) -> (r: String)
        ensures
            r@ == match self.input_mode {
                InputMode::Line => input@ + self.submit_sequence@,
                InputMode::BracketedPaste => "\x1b[200~"@ + input@ + ("\x1b[201~"@
                    + self.submit_sequence@),
            },
    {
        match self.input_mode {
            InputMode::Line => concat2(input, self.submit_sequence.as_str()),
            InputMode::BracketedPaste => {
                let end = concat2("\x1b[201~", self.submit_sequence.as_str());
                concat3("\x1b[200~", input, end.as_str())
            },
        }
    }
}

/// The profile of an application that takes pastes and prompts with an arrow.
pub open spec fn paste_profile(name: Seq<char>) -> AppProfileView {
    AppProfileView {
        name,
        submit_sequence: "<enter>"@,
        prompt_pattern: "\u{276f}\\s*$"@,
        input_mode: InputMode::BracketedPaste,
    }
}

pub open spec fn gemini_profile() -> AppProfileView {
    AppProfileView {
        name: "gemini"@,
        submit_sequence: "<enter>"@,
        prompt_pattern: ">\\s*$"@,
        input_mode: InputMode::Line,
    }
}

pub open spec fn generic_profile() -> AppProfileView {
    AppProfileView {
        name: "generic"@,
        submit_sequence: "<enter>"@,
        prompt_pattern: "[$#>\u{276f}]\\s*$"@,
        input_mode: InputMode::Line,
    }
}

/// The profiles that need no configuration. `paste_app` is the application that
/// takes pastes and prompts with an arrow.
pub fn builtin_profiles(paste_app: &str) -> (r: Vec<AppProfile>)
    ensures
        r@.len() == 3,
        r@[0]@ == paste_profile(paste_app@),
        r@[1]@ == gemini_profile(),
        r@[2]@ == generic_profile(),
{
    let mut r: Vec<AppProfile> = Vec::new();
    r.push(
        AppProfile {
            name: paste_app.to_owned(),
            submit_sequence: "<enter>".to_owned(),
            prompt_pattern: "\u{276f}\\s*$".to_owned(),
            input_mode: InputMode::BracketedPaste,
        },
    );
    r.push(
        AppProfile {
            name: "gemini".to_owned(),
            submit_sequence: "<enter>".to_owned(),
            prompt_pattern: ">\\s*$".to_owned(),
            input_mode: InputMode::Line,
        },
    );
    r.push(
        AppProfile {
            name: "generic".to_owned(),
            submit_sequence: "<enter>".to_owned(),
            prompt_pattern: "[$#>\u{276f}]\\s*$".to_owned(),
            input_mode: InputMode::Line,
        },
    );
    r
}

/// The name that is looked for: the generic one where none is given.
pub open spec fn wanted_profile(name: Option<Seq<char>>) -> Seq<char> {
    match name {
        Some(name) => name,
        None => "generic"@,
    }
}

/// The profile of a name; the generic one where there is no such name.
pub fn resolve_profile(name: Option<&str>, paste_app: &str) -> (r: AppProfile)
    ensures
        r@ == (if wanted_profile(paths::opt_str(name)) == paste_app@ {
            paste_profile(paste_app@)
        } else if wanted_profile(paths::opt_str(name)) == "gemini"@ {
            gemini_profile()
        } else {
            generic_profile()
        }),
{
    let target = match name {
        Some(name) => name,
        None => "generic",
    };
    let mut profiles = builtin_profiles(paste_app);
    if text::same(target, paste_app) {
        return profiles.swap_remove(0);
    }
    if text::same(target, "gemini") {
        return profiles.swap_remove(1);
    }
    profiles.swap_remove(2)
}

// ---------------------------------------------------------------------------
// Errors
// ---------------------------------------------------------------------------

/// Why a configuration could not be loaded.
#[derive(Debug)]
pub enum ConfigError {
    IoError(std::io::Error),
    ParseError(String),
    ValidationError(Vec<String>),
}

impl ConfigError {
    /// The message for the user.
    pub fn message(&self) -> (r: String)
        ensures
            match *self {
                ConfigError::IoError(e) => exists|t: String|
                    #[trigger] to_string_from_display_ensures(&e, t) && r@ == "config I/O error: "@
                        + t@,
                ConfigError::ParseError(e) => r@ == "config parse error: "@ + e@,
                ConfigError::ValidationError(errors) => r@ == "config validation errors: "@
                    + text::join(text::views(errors@), "; "@),
            },
    {
        match self {
            ConfigError::IoError(e) => {
                let t = e.to_string();
                concat2("config I/O error: ", t.as_str())
            },
            ConfigError::ParseError(e) => concat2("config parse error: ", e.as_str()),
            ConfigError::ValidationError(errors) => {
                let told = join_strings(errors.as_slice(), "; ");
                concat2("config validation errors: ", told.as_str())
            },
        }
    }
}

// ---------------------------------------------------------------------------
// Sections
// ---------------------------------------------------------------------------

/// The whole configuration.
#[derive(Debug, Clone)]
pub struct MishConfig {
    pub server: ServerConfig,
    pub squasher: SquasherConfig,
    pub yield_config: YieldConfig,
    pub timeout_defaults: TimeoutDefaults,
    pub watch_presets: StrMap<String>,
    pub audit: AuditConfig,
    pub policy: PolicyConfig,
    pub handoff: HandoffConfig,
    pub sandbox: Option<SandboxConfig>,
}

#[derive(Debug, Clone, Copy, PartialEq, Eq, Structural)]
pub struct ServerConfig {
    pub max_sessions: usize,
    pub max_processes: usize,
    pub max_spool_bytes_total: usize,
    pub idle_session_timeout_sec: u64,
}

#[derive(Debug, Clone, Copy, PartialEq, Eq, Structural)]
pub struct SquasherConfig {
    pub max_lines: usize,
    pub max_bytes: usize,
    pub oreo_head: usize,
    pub oreo_tail: usize,
    pub spool_bytes: usize,
}

#[derive(Debug, Clone)]
pub struct YieldConfig {
    pub silence_timeout_ms: u64,
    pub prompt_patterns: Vec<String>,
}

#[derive(Debug, Clone)]
pub struct TimeoutDefaults {
    pub default: u64,
    pub scope: StrMap<u64>,
}

#[derive(Debug, Clone)]
pub struct AuditConfig {
    pub log_path: String,
    pub log_level: String,
    pub log_commands: bool,
    pub log_policy_decisions: bool,
    pub log_handoff_events: bool,
    /// How long raw output is kept; `none` keeps none. Any other value has it
    /// written, and what is old is removed elsewhere.
    pub raw_retention: String,
}

#[derive(Debug, Clone)]
pub struct PolicyConfig {
    pub auto_confirm: Vec<AutoConfirmRule>,
    pub yield_to_operator: Vec<YieldToOperatorRule>,
    pub forbidden: Vec<ForbiddenRule>,
}

#[derive(Debug, Clone)]
pub struct AutoConfirmRule {
    pub match_pattern: String,
    pub respond: String,
    pub scope: Option<Vec<String>>,
}

#[derive(Debug, Clone)]
pub struct YieldToOperatorRule {
    pub match_pattern: String,
    pub notify: bool,
}

#[derive(Debug, Clone)]
pub struct ForbiddenRule {
    pub pattern: String,
    pub action: String,
    pub message: String,
}

#[derive(Debug, Clone)]
pub struct HandoffConfig {
    pub timeout_sec: u64,
    pub fallback: String,
}

#[derive(Debug, Clone)]
pub struct SandboxConfig {
    pub enabled: bool,
    pub allowed_paths: Vec<String>,
    pub readonly_paths: Vec<String>,
    pub network: String,
    pub max_pids: Option<u32>,
    pub max_memory_mb: Option<u32>,
}

// ---------------------------------------------------------------------------
// Defaults
// ---------------------------------------------------------------------------

impl Default for ServerConfig {
    fn default() -> (r: Self)
        ensures
            r.max_sessions == 5,
            r.max_processes == 50,
            r.max_spool_bytes_total == 209_715_200,
            r.idle_session_timeout_sec == 3600,
    {
        ServerConfig {
            max_sessions: 5,
            max_processes: 50,
            max_spool_bytes_total: 209_715_200,
            idle_session_timeout_sec: 3600,
        }
    }
}

impl Default for SquasherConfig {
    fn default() -> (r: Self)
        ensures
            r.max_lines == 200,
            r.max_bytes == 65_536,
            r.oreo_head == 50,
            r.oreo_tail == 150,
            r.spool_bytes == 4_194_304,
    {
        SquasherConfig {
            max_lines: 200,
            max_bytes: 65_536,
            oreo_head: 50,
            oreo_tail: 150,
            spool_bytes: 4_194_304,
        }
    }
}

impl Default for YieldConfig {
    fn default() -> (r: Self)
        ensures
            r.silence_timeout_ms == 2500,
            text::views(r.prompt_patterns@) == seq![
                "[?]$"@,
                ":$"@,
                ">$"@,
                "Password"@,
                "passphrase"@,
                "[y/N]"@,
                "[Y/n]"@,
            ],
    {
        let mut prompt_patterns: Vec<String> = Vec::new();
        prompt_patterns.push("[?]$".to_owned());
        prompt_patterns.push(":$".to_owned());
        prompt_patterns.push(">$".to_owned());
        prompt_patterns.push("Password".to_owned());
        prompt_patterns.push("passphrase".to_owned());
        prompt_patterns.push("[y/N]".to_owned());
        prompt_patterns.push("[Y/n]".to_owned());
        proof {
            assert(text::views(prompt_patterns@) =~= seq![
                "[?]$"@,
                ":$"@,
                ">$"@,
                "Password"@,
                "passphrase"@,
                "[y/N]"@,
                "[Y/n]"@,
            ]);
        }
        YieldConfig { silence_timeout_ms: 2500, prompt_patterns }
    }
}

/// The timeouts, in seconds, of tools that take their time.
pub open spec fn default_scope() -> Seq<(Seq<char>, u64)> {
    seq![
        ("terraform"@, 1800u64),
        ("docker"@, 600u64),
        ("cargo"@, 600u64),
        ("npm"@, 300u64),
        ("pip"@, 300u64),
    ]
}

impl Default for TimeoutDefaults {
    fn default() -> (r: Self)
        ensures
            r.default == 300,
            r.scope@ == default_scope(),
            r.scope.wf(),
    {
        let mut entries: Vec<(String, u64)> = Vec::new();
        entries.push(("terraform".to_owned(), 1800));
        entries.push(("docker".to_owned(), 600));
        entries.push(("cargo".to_owned(), 600));
        entries.push(("npm".to_owned(), 300));
        entries.push(("pip".to_owned(), 300));
        let scope = StrMap { entries };
        proof {
            assert(scope@ =~= default_scope());
            reveal_strlit("terraform");
            reveal_strlit("docker");
            reveal_strlit("cargo");
            reveal_strlit("npm");
            reveal_strlit("pip");
            assert("npm"@[0] != "pip"@[0]);
            let s = default_scope();
            assert(s[0].0.len() == 9 && s[1].0.len() == 6 && s[2].0.len() == 5 && s[3].0.len() == 3
                && s[4].0.len() == 3);
        }
        TimeoutDefaults { default: 300, scope }
    }
}

impl Default for AuditConfig {
    fn default() -> (r: Self)
        ensures
            r.log_path@ == "~/.local/share/mish/audit.log"@,
            r.log_level@ == "info"@,
            r.log_commands,
            r.log_policy_decisions,
            r.log_handoff_events,
            r.raw_retention@ == "none"@,
    {
        AuditConfig {
            log_path: "~/.local/share/mish/audit.log".to_owned(),
            log_level: "info".to_owned(),
            log_commands: true,
            log_policy_decisions: true,
            log_handoff_events: true,
            raw_retention: "none".to_owned(),
        }
    }
}

impl Default for PolicyConfig {
    fn default() -> (r: Self)
        ensures
            r.auto_confirm@.len() == 0,
            r.yield_to_operator@.len() == 0,
            r.forbidden@.len() == 0,
    {
        PolicyConfig {
            auto_confirm: Vec::new(),
            yield_to_operator: Vec::new(),
            forbidden: Vec::new(),
        }
    }
}

impl Default for HandoffConfig {
    fn default() -> (r: Self)
        ensures
            r.timeout_sec == 900,
            r.fallback@ == "yield_to_llm"@,
    {
        HandoffConfig { timeout_sec: 900, fallback: "yield_to_llm".to_owned() }
    }
}

impl Default for SandboxConfig {
    fn default() -> (r: Self)
        ensures
            !r.enabled,
            r.allowed_paths@.len() == 0,
            r.readonly_paths@.len() == 0,
            r.network@ == "none"@,
            r.max_pids is None,
            r.max_memory_mb is None,
    {
        SandboxConfig {
            enabled: false,
            allowed_paths: Vec::new(),
            readonly_paths: Vec::new(),
            network: "none".to_owned(),
            max_pids: None,
            max_memory_mb: None,
        }
    }
}

/// A configuration as it is where nothing was configured.
pub open spec fn is_default(config: MishConfig) -> bool {
    &&& config.server.max_sessions == 5
    &&& config.server.max_processes == 50
    &&& config.server.max_spool_bytes_total == 209_715_200
    &&& config.server.idle_session_timeout_sec == 3600
    &&& config.squasher.max_lines == 200
    &&& config.squasher.max_bytes == 65_536
    &&& config.squasher.oreo_head == 50
    &&& config.squasher.oreo_tail == 150
    &&& config.squasher.spool_bytes == 4_194_304
    &&& config.yield_config.silence_timeout_ms == 2500
    &&& text::views(config.yield_config.prompt_patterns@) == seq![
        "[?]$"@,
        ":$"@,
        ">$"@,
        "Password"@,
        "passphrase"@,
        "[y/N]"@,
        "[Y/n]"@,
    ]
    &&& config.timeout_defaults.default == 300
    &&& config.timeout_defaults.scope@ == default_scope()
    &&& config.watch_presets@.len() == 0
    &&& config.audit.log_path@ == "~/.local/share/mish/audit.log"@
    &&& config.audit.log_level@ == "info"@
    &&& config.audit.log_commands
    &&& config.audit.log_policy_decisions
    &&& config.audit.log_handoff_events
    &&& config.audit.raw_retention@ == "none"@
    &&& config.policy.auto_confirm@.len() == 0
    &&& config.policy.yield_to_operator@.len() == 0
    &&& config.policy.forbidden@.len() == 0
    &&& config.handoff.timeout_sec == 900
    &&& config.handoff.fallback@ == "yield_to_llm"@
    &&& config.sandbox is None
}

impl Default for MishConfig {
    fn default() -> (r: Self)
        ensures
            is_default(r),
    {
        MishConfig {
            server: ServerConfig::default(),
            squasher: SquasherConfig::default(),
            yield_config: YieldConfig::default(),
            timeout_defaults: TimeoutDefaults::default(),
            watch_presets: StrMap::new(),
            audit: AuditConfig::default(),
            policy: PolicyConfig::default(),
            handoff: HandoffConfig::default(),
            sandbox: None,
        }
    }
}

/// The configuration where there is no file.
pub fn default_config() -> (r: MishConfig)
    ensures
        is_default(r),
{
    MishConfig::default()
}

// ---------------------------------------------------------------------------
// Unknown sections
// ---------------------------------------------------------------------------

/// The sections that a configuration can have.
pub open spec fn known_sections() -> Seq<Seq<char>> {
    seq![
        "server"@,
        "squasher"@,
        "yield"@,
        "timeout_defaults"@,
        "watch_presets"@,
        "audit"@,
        "policy"@,
        "handoff"@,
        "sandbox"@,
    ]
}

fn section_names() -> (r: Vec<String>)
    ensures
        text::views(r@) == known_sections(),
{
    let mut r: Vec<String> = Vec::new();
    r.push("server".to_owned());
    r.push("squasher".to_owned());
    r.push("yield".to_owned());
    r.push("timeout_defaults".to_owned());
    r.push("watch_presets".to_owned());
    r.push("audit".to_owned());
    r.push("policy".to_owned());
    r.push("handoff".to_owned());
    r.push("sandbox".to_owned());
    assert(text::views(r@) =~= known_sections());
    r
}

/// A warning for each section that is not known.
pub open spec fn section_warnings(keys: Seq<Seq<char>>) -> Seq<Seq<char>>
    decreases keys.len(),
{
    if keys.len() == 0 {
        Seq::empty()
    } else if known_sections().contains(keys.last()) {
        section_warnings(keys.drop_last())
    } else {
        section_warnings(keys.drop_last()).push(
            "mish: warning: unknown config section ["@ + keys.last() + "]"@,
        )
    }
}

/// The warnings for the sections of a configuration.
pub fn warnings_for(keys: &[String]) -> (r: Vec<String>)
    ensures
        text::views(r@) == section_warnings(text::views(keys@)),
{
    let known = section_names();
    let ghost all = text::views(keys@);
    let mut r: Vec<String> = Vec::new();
    let mut i: usize = 0;
    assert(all.take(0).len() == 0);
    while i < keys.len()
        invariant
            text::views(known@) == known_sections(),
            all == text::views(keys@),
            i <= keys@.len(),
            text::views(r@) =~= section_warnings(all.take(i as int)),
        decreases keys.len() - i,
    {
        assert(all.take(i + 1).drop_last() =~= all.take(i as int));
        assert(all.take(i + 1).last() == keys@[i as int]@);
        if !list_has(known.as_slice(), keys[i].as_str()) {
            let line = concat3("mish: warning: unknown config section [", keys[i].as_str(), "]");
            let ghost before = r@;
            r.push(line);
            assert(text::views(r@) =~= text::views(before).push(line@));
        }
        i += 1;
    }
    assert(all.take(i as int) =~= all);
    r
}

/// The warnings for the sections of a TOML document; none where it is not TOML.
pub fn warn_unknown_sections(content: &str) -> (r: Vec<String>)
    ensures
        text::views(r@) == match outside::toml_keys(content@) {
            Some(keys) => section_warnings(keys),
            None => Seq::empty(),
        },
{
    match top_keys(content) {
        Some(keys) => warnings_for(keys.as_slice()),
        None => {
            let none: Vec<String> = Vec::new();
            assert(text::views(none@) =~= Seq::empty());
            none
        },
    }
}

// ---------------------------------------------------------------------------
// Validation
// ---------------------------------------------------------------------------

/// The names of the log levels.
pub open spec fn log_levels() -> Seq<Seq<char>> {
    seq!["trace"@, "debug"@, "info"@, "warn"@, "error"@]
}

fn is_log_level(level: &str) -> (r: bool)
    ensures
        r == log_levels().contains(level@),
{
    let r = text::same(level, "trace") || text::same(level, "debug") || text::same(level, "info")
        || text::same(level, "warn") || text::same(level, "error");
    proof {
        let all = log_levels();
        assert(all[0] == "trace"@ && all[1] == "debug"@ && all[2] == "info"@ && all[3] == "warn"@
            && all[4] == "error"@);
        if all.contains(level@) {
            let i = all.index_of(level@);
            assert(0 <= i < 5);
        }
    }
    r
}

/// A message where something is wrong.
pub open spec fn error_if(wrong: bool, message: Seq<char>) -> Seq<Seq<char>> {
    if wrong {
        seq![message]
    } else {
        Seq::empty()
    }
}

/// Everything that is wrong with a configuration.
pub open spec fn errors_of(config: MishConfig) -> Seq<Seq<char>> {
    error_if(config.server.max_sessions == 0, "server.max_sessions must be > 0"@) + error_if(
        config.server.max_processes == 0,
        "server.max_processes must be > 0"@,
    ) + error_if(
        config.server.max_spool_bytes_total == 0,
        "server.max_spool_bytes_total must be > 0"@,
    ) + error_if(config.squasher.max_lines == 0, "squasher.max_lines must be > 0"@) + error_if(
        config.squasher.max_bytes == 0,
        "squasher.max_bytes must be > 0"@,
    ) + error_if(config.squasher.oreo_head == 0, "squasher.oreo_head must be > 0"@) + error_if(
        config.squasher.oreo_tail == 0,
        "squasher.oreo_tail must be > 0"@,
    ) + error_if(
        config.timeout_defaults.default == 0,
        "timeout_defaults.default must be > 0"@,
    ) + error_if(
        !log_levels().contains(config.audit.log_level@),
        "audit.log_level '"@ + config.audit.log_level@
            + "' is invalid; expected one of: trace, debug, info, warn, error"@,
    )
}

fn push_if(errors: &mut Vec<String>, wrong: bool, message: &str)
    ensures
        text::views(final(errors)@) == text::views(old(errors)@) + error_if(wrong, message@),
{
    if wrong {
        let ghost before = errors@;
        errors.push(message.to_owned());
        assert(text::views(errors@) =~= text::views(before).push(message@));
    } else {
        assert(text::views(errors@) + Seq::<Seq<char>>::empty() =~= text::views(errors@));
    }
}

/// Finds everything that is wrong with a configuration.
pub fn validate(config: &MishConfig) -> (r: Vec<String>)
    ensures
        text::views(r@) == errors_of(*config),
{
    let mut r: Vec<String> = Vec::new();
    push_if(&mut r, config.server.max_sessions == 0, "server.max_sessions must be > 0");
    push_if(&mut r, config.server.max_processes == 0, "server.max_processes must be > 0");
    push_if(
        &mut r,
        config.server.max_spool_bytes_total == 0,
        "server.max_spool_bytes_total must be > 0",
    );
    push_if(&mut r, config.squasher.max_lines == 0, "squasher.max_lines must be > 0");
    push_if(&mut r, config.squasher.max_bytes == 0, "squasher.max_bytes must be > 0");
    push_if(&mut r, config.squasher.oreo_head == 0, "squasher.oreo_head must be > 0");
    push_if(&mut r, config.squasher.oreo_tail == 0, "squasher.oreo_tail must be > 0");
    push_if(&mut r, config.timeout_defaults.default == 0, "timeout_defaults.default must be > 0");
    let level = config.audit.log_level.as_str();
    let told = concat3(
        "audit.log_level '",
        level,
        "' is invalid; expected one of: trace, debug, info, warn, error",
    );
    push_if(&mut r, !is_log_level(level), told.as_str());
    assert(text::views(r@) =~= errors_of(*config));
    r
}

// ---------------------------------------------------------------------------
// Loading
// ---------------------------------------------------------------------------

/// The paths with the home directory in place of a tilde.
pub open spec fn expanded_all(paths: Seq<Seq<char>>, home: Option<Seq<char>>) -> Seq<Seq<char>> {
    Seq::new(paths.len(), |i: int| paths::expanded(paths[i], home))
}

fn expand_all(list: &[String], home: Option<&str>) -> (r: Vec<String>)
    ensures
        text::views(r@) == expanded_all(text::views(list@), paths::opt_str(home)),
{
    let ghost all = expanded_all(text::views(list@), paths::opt_str(home));
    let mut r: Vec<String> = Vec::new();
    let mut i: usize = 0;
    while i < list.len()
        invariant
            i <= list@.len(),
            all == expanded_all(text::views(list@), paths::opt_str(home)),
            text::views(r@) =~= all.take(i as int),
        decreases list.len() - i,
    {
        let path = expand_tilde(list[i].as_str(), home);
        let ghost before = r@;
        r.push(path);
        assert(text::views(r@) =~= text::views(before).push(path@));
        i += 1;
    }
    assert(all.take(i as int) =~= all);
    r
}

/// `r` is `config` with the home directory in place of a tilde in the path of the
/// log and in those of the sandbox.
pub open spec fn is_expanded(r: MishConfig, config: MishConfig, home: Option<Seq<char>>) -> bool {
    &&& r.server == config.server
    &&& r.squasher == config.squasher
    &&& r.yield_config == config.yield_config
    &&& r.timeout_defaults == config.timeout_defaults
    &&& r.watch_presets == config.watch_presets
    &&& r.policy == config.policy
    &&& r.handoff == config.handoff
    &&& r.audit.log_path@ == paths::expanded(config.audit.log_path@, home)
    &&& r.audit.log_level == config.audit.log_level
    &&& r.audit.log_commands == config.audit.log_commands
    &&& r.audit.log_policy_decisions == config.audit.log_policy_decisions
    &&& r.audit.log_handoff_events == config.audit.log_handoff_events
    &&& r.audit.raw_retention == config.audit.raw_retention
    &&& match config.sandbox {
        Some(sandbox) => {
            &&& r.sandbox is Some
            &&& r.sandbox->0.enabled == sandbox.enabled
            &&& text::views(r.sandbox->0.allowed_paths@) == expanded_all(
                text::views(sandbox.allowed_paths@),
                home,
            )
            &&& text::views(r.sandbox->0.readonly_paths@) == expanded_all(
                text::views(sandbox.readonly_paths@),
                home,
            )
            &&& r.sandbox->0.network == sandbox.network
            &&& r.sandbox->0.max_pids == sandbox.max_pids
            &&& r.sandbox->0.max_memory_mb == sandbox.max_memory_mb
        },
        None => r.sandbox is None,
    }
}

/// Puts the home directory in place of the tildes in a configuration.
pub fn expand_paths(config: MishConfig, home: Option<&str>) -> (r: MishConfig)
    ensures
        is_expanded(r, config, paths::opt_str(home)),
{
    let audit = AuditConfig {
        log_path: expand_tilde(config.audit.log_path.as_str(), home),
        log_level: config.audit.log_level,
        log_commands: config.audit.log_commands,
        log_policy_decisions: config.audit.log_policy_decisions,
        log_handoff_events: config.audit.log_handoff_events,
        raw_retention: config.audit.raw_retention,
    };
    let sandbox = match config.sandbox {
        Some(sandbox) => Some(
            SandboxConfig {
                enabled: sandbox.enabled,
                allowed_paths: expand_all(sandbox.allowed_paths.as_slice(), home),
                readonly_paths: expand_all(sandbox.readonly_paths.as_slice(), home),
                network: sandbox.network,
                max_pids: sandbox.max_pids,
                max_memory_mb: sandbox.max_memory_mb,
            },
        ),
        None => None,
    };
    MishConfig {
        server: config.server,
        squasher: config.squasher,
        yield_config: config.yield_config,
        timeout_defaults: config.timeout_defaults,
        watch_presets: config.watch_presets,
        audit,
        policy: config.policy,
        handoff: config.handoff,
        sandbox,
    }
}

/// What was found where a configuration file should be.
#[derive(Debug)]
pub enum ConfigFile {
    /// There is no such file; the error that said so.
    Missing(std::io::Error),
    /// It cannot be read.
    Unreadable(std::io::Error),
    /// It is not a configuration; what the parser said.
    Malformed(String),
    /// What it says, with the defaults for what it does not say.
    Parsed(MishConfig),
}

/// Takes what the file holds: without a file the defaults apply, and what the
/// file says is taken if nothing is wrong with it.
pub fn load_config(file: ConfigFile, home: Option<&str>) -> (r: Result<MishConfig, ConfigError>)
    ensures
        match file {
            ConfigFile::Missing(_) => r is Ok && is_default(r->Ok_0),
            ConfigFile::Unreadable(e) => r == Err::<MishConfig, _>(ConfigError::IoError(e)),
            ConfigFile::Malformed(e) => r == Err::<MishConfig, _>(ConfigError::ParseError(e)),
            ConfigFile::Parsed(config) => if errors_of(config).len() == 0 {
                r is Ok && is_expanded(r->Ok_0, config, paths::opt_str(home))
            } else {
                r matches Err(ConfigError::ValidationError(errors)) && text::views(errors@)
                    == errors_of(config)
            },
        },
{
    match file {
        ConfigFile::Missing(_) => Ok(default_config()),
        ConfigFile::Unreadable(e) => Err(ConfigError::IoError(e)),
        ConfigFile::Malformed(e) => Err(ConfigError::ParseError(e)),
        ConfigFile::Parsed(config) => {
            let r = expand_paths(config, home);
            let errors = validate(&r);
            proof {
                assert(text::views(errors@).len() == errors@.len());
                assert(errors_of(r) =~= errors_of(config));
            }
            if errors.len() > 0 {
                Err(ConfigError::ValidationError(errors))
            } else {
                Ok(r)
            }
        },
    }
}

/// The one message says that the file cannot be read, and why.
pub open spec fn tells_unreadable(errors: Seq<String>, e: std::io::Error) -> bool {
    &&& errors.len() == 1
    &&& exists|t: String| #[trigger]
        to_string_from_display_ensures(&e, t) && errors[0]@ == "cannot read config: "@ + t@
}

fn unreadable(e: &std::io::Error) -> (r: Vec<String>)
    ensures
        tells_unreadable(r@, *e),
{
    let t = e.to_string();
    let mut errors: Vec<String> = Vec::new();
    errors.push(concat2("cannot read config: ", t.as_str()));
    errors
}

/// Checks a configuration file, and lists everything that is wrong with it.
pub fn validate_config(file: ConfigFile, home: Option<&str>) -> (r: Result<(), Vec<String>>)
    ensures
        match file {
            ConfigFile::Missing(e) => r matches Err(errors) && tells_unreadable(errors@, e),
            ConfigFile::Unreadable(e) => r matches Err(errors) && tells_unreadable(errors@, e),
            ConfigFile::Malformed(e) => r is Err && text::views(r->Err_0@) == seq![
                "TOML parse error: "@ + e@,
            ],
            ConfigFile::Parsed(config) => match r {
                Ok(()) => errors_of(config).len() == 0,
                Err(errors) => errors_of(config).len() > 0 && text::views(errors@) == errors_of(
                    config,
                ),
            },
        },
{
    match file {
        ConfigFile::Missing(e) => Err(unreadable(&e)),
        ConfigFile::Unreadable(e) => Err(unreadable(&e)),
        ConfigFile::Malformed(e) => {
            let mut errors: Vec<String> = Vec::new();
            errors.push(concat2("TOML parse error: ", e.as_str()));
            assert(text::views(errors@) =~= seq!["TOML parse error: "@ + e@]);
            Err(errors)
        },
        ConfigFile::Parsed(config) => {
            let whole = expand_paths(config, home);
            let errors = validate(&whole);
            proof {
                assert(text::views(errors@).len() == errors@.len());
                assert(errors_of(whole) =~= errors_of(config));
            }
            if errors.len() == 0 {
                Ok(())
            } else {
                Err(errors)
            }
        },
    }
}

// ---------------------------------------------------------------------------
// Laws
// ---------------------------------------------------------------------------

/// Nothing is wrong with the defaults.
pub proof fn law_defaults_are_valid(config: MishConfig)
    requires
        is_default(config),
    ensures
        errors_of(config) == Seq::<Seq<char>>::empty(),
{
    assert(log_levels()[2] == "info"@);
    assert(log_levels().contains("info"@));
}

/// A configuration is accepted exactly where all its limits are positive and its
/// log level has a name.
pub proof fn law_valid_means_positive_limits(config: MishConfig)
    ensures
        errors_of(config).len() == 0 <==> {
            &&& config.server.max_sessions > 0
            &&& config.server.max_processes > 0
            &&& config.server.max_spool_bytes_total > 0
            &&& config.squasher.max_lines > 0
            &&& config.squasher.max_bytes > 0
            &&& config.squasher.oreo_head > 0
            &&& config.squasher.oreo_tail > 0
            &&& config.timeout_defaults.default > 0
            &&& log_levels().contains(config.audit.log_level@)
        },
{
}

/// The levels of the log are five, and any other word is refused.
pub proof fn law_log_levels_are_five(level: Seq<char>)
    ensures
        log_levels().contains(level) <==> level == "trace"@ || level == "debug"@ || level
            == "info"@ || level == "warn"@ || level == "error"@,
{
    let all = log_levels();
    assert(all[0] == "trace"@ && all[1] == "debug"@ && all[2] == "info"@ && all[3] == "warn"@
        && all[4] == "error"@);
}

/// Every limit of zero is told by its name, a level that is none is told with what it
/// is.
pub proof fn law_each_fault_is_told(config: MishConfig)
    ensures
        config.server.max_sessions == 0 ==> errors_of(config).contains(
            "server.max_sessions must be > 0"@,
        ),
        config.server.max_processes == 0 ==> errors_of(config).contains(
            "server.max_processes must be > 0"@,
        ),
        config.server.max_spool_bytes_total == 0 ==> errors_of(config).contains(
            "server.max_spool_bytes_total must be > 0"@,
        ),
        config.squasher.max_lines == 0 ==> errors_of(config).contains(
            "squasher.max_lines must be > 0"@,
        ),
        config.squasher.max_bytes == 0 ==> errors_of(config).contains(
            "squasher.max_bytes must be > 0"@,
        ),
        config.squasher.oreo_head == 0 ==> errors_of(config).contains(
            "squasher.oreo_head must be > 0"@,
        ),
        config.squasher.oreo_tail == 0 ==> errors_of(config).contains(
            "squasher.oreo_tail must be > 0"@,
        ),
        config.timeout_defaults.default == 0 ==> errors_of(config).contains(
            "timeout_defaults.default must be > 0"@,
        ),
        !log_levels().contains(config.audit.log_level@) ==> errors_of(config).contains(
            "audit.log_level '"@ + config.audit.log_level@
                + "' is invalid; expected one of: trace, debug, info, warn, error"@,
        ),
{
    let a = error_if(config.server.max_sessions == 0, "server.max_sessions must be > 0"@);
    let b = error_if(config.server.max_processes == 0, "server.max_processes must be > 0"@);
    let c = error_if(
        config.server.max_spool_bytes_total == 0,
        "server.max_spool_bytes_total must be > 0"@,
    );
    let d = error_if(config.squasher.max_lines == 0, "squasher.max_lines must be > 0"@);
    let e = error_if(config.squasher.max_bytes == 0, "squasher.max_bytes must be > 0"@);
    let f = error_if(config.squasher.oreo_head == 0, "squasher.oreo_head must be > 0"@);
    let g = error_if(config.squasher.oreo_tail == 0, "squasher.oreo_tail must be > 0"@);
    let h = error_if(
        config.timeout_defaults.default == 0,
        "timeout_defaults.default must be > 0"@,
    );
    let level = error_if(
        !log_levels().contains(config.audit.log_level@),
        "audit.log_level '"@ + config.audit.log_level@
            + "' is invalid; expected one of: trace, debug, info, warn, error"@,
    );
    lemma_both_are_told(a, b);
    lemma_both_are_told(a + b, c);
    lemma_both_are_told(a + b + c, d);
    lemma_both_are_told(a + b + c + d, e);
    lemma_both_are_told(a + b + c + d + e, f);
    lemma_both_are_told(a + b + c + d + e + f, g);
    lemma_both_are_told(a + b + c + d + e + f + g, h);
    lemma_both_are_told(a + b + c + d + e + f + g + h, level);
    lemma_wrong_is_told(config.server.max_sessions == 0, "server.max_sessions must be > 0"@);
    lemma_wrong_is_told(config.server.max_processes == 0, "server.max_processes must be > 0"@);
    lemma_wrong_is_told(
        config.server.max_spool_bytes_total == 0,
        "server.max_spool_bytes_total must be > 0"@,
    );
    lemma_wrong_is_told(config.squasher.max_lines == 0, "squasher.max_lines must be > 0"@);
    lemma_wrong_is_told(config.squasher.max_bytes == 0, "squasher.max_bytes must be > 0"@);
    lemma_wrong_is_told(config.squasher.oreo_head == 0, "squasher.oreo_head must be > 0"@);
    lemma_wrong_is_told(config.squasher.oreo_tail == 0, "squasher.oreo_tail must be > 0"@);
    lemma_wrong_is_told(
        config.timeout_defaults.default == 0,
        "timeout_defaults.default must be > 0"@,
    );
    lemma_wrong_is_told(
        !log_levels().contains(config.audit.log_level@),
        "audit.log_level '"@ + config.audit.log_level@
            + "' is invalid; expected one of: trace, debug, info, warn, error"@,
    );
}

proof fn lemma_both_are_told(a: Seq<Seq<char>>, b: Seq<Seq<char>>)
    ensures
        forall|told: Seq<char>| #[trigger]
            (a + b).contains(told) <==> a.contains(told) || b.contains(told),
{
    assert forall|told: Seq<char>| #[trigger]
        (a + b).contains(told) <==> a.contains(told) || b.contains(told) by {
        if a.contains(told) {
            let i = choose|i: int| 0 <= i < a.len() && a[i] == told;
            assert((a + b)[i] == told);
        }
        if b.contains(told) {
            let i = choose|i: int| 0 <= i < b.len() && b[i] == told;
            assert((a + b)[a.len() + i] == told);
        }
    }
}

proof fn lemma_wrong_is_told(wrong: bool, message: Seq<char>)
    ensures
        wrong ==> error_if(wrong, message).contains(message),
{
    if wrong {
        assert(error_if(wrong, message)[0] == message);
    }
}

/// There is a warning for each section with another name than the known ones, in the
/// order of the sections.
pub proof fn law_unknown_sections_are_told(keys: Seq<Seq<char>>)
    ensures
        section_warnings(keys) == keys.filter(
            |key: Seq<char>|
                key != "server"@ && key != "squasher"@ && key != "yield"@ && key
                    != "timeout_defaults"@ && key != "watch_presets"@ && key != "audit"@ && key
                    != "policy"@ && key != "handoff"@ && key != "sandbox"@,
        ).map_values(
            |key: Seq<char>| "mish: warning: unknown config section ["@ + key + seq![']'],
        ),
    decreases keys.len(),
{
    reveal(Seq::filter);
    reveal_strlit("]");
    assert("]"@ =~= seq![']']);
    let unknown = |key: Seq<char>|
        key != "server"@ && key != "squasher"@ && key != "yield"@ && key != "timeout_defaults"@
            && key != "watch_presets"@ && key != "audit"@ && key != "policy"@ && key != "handoff"@
            && key != "sandbox"@;
    let warning = |key: Seq<char>| "mish: warning: unknown config section ["@ + key + seq![']'];
    if keys.len() > 0 {
        let known = known_sections();
        assert(known[0] == "server"@ && known[1] == "squasher"@ && known[2] == "yield"@ && known[3]
            == "timeout_defaults"@ && known[4] == "watch_presets"@ && known[5] == "audit"@
            && known[6] == "policy"@ && known[7] == "handoff"@ && known[8] == "sandbox"@);
        law_unknown_sections_are_told(keys.drop_last());
        let before = keys.drop_last().filter(unknown);
        assert(unknown(keys.last()) == !known.contains(keys.last()));
        if unknown(keys.last()) {
            assert(before.push(keys.last()).map_values(warning) =~= before.map_values(
                warning,
            ).push(warning(keys.last())));
        }
    }
    assert(section_warnings(keys) =~= keys.filter(unknown).map_values(warning));
}

} // verus!
