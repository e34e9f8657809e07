//! The audit log: which events are logged, how they are written, and where.
//!
//! Each session has a file of its own, with one JSON object on each line, in the
//! directory `audit` beside the configured log. Raw output can be kept beside it,
//! compressed.
use std::time::{Duration, SystemTime};
use vstd::prelude::*;

use crate::calendar;
use crate::calendar::iso8601_at;
use crate::config::AuditConfig;
use crate::json;
use crate::json::{json_line, push_field, texts_value};
use crate::outside;
use crate::outside::{
    compress, decompress, integer_value, join_paths, natural_value, object_value,
    opt_integer_value, opt_string_value, parent_path, parse_json, sha256_hex, string_value,
    time_since_epoch,
};
use crate::paths;
use crate::paths::expand_tilde;
use crate::strmap;
use crate::text;
use crate::text::{concat2, concat3, dec_u64, lines_of, zero_padded};

verus! {

// ---------------------------------------------------------------------------
// Events
// ---------------------------------------------------------------------------

/// What happened. Ratios are given as JSON numbers.
#[derive(Debug, Clone)]
pub enum AuditEvent {
    ToolCall { tool_name: String, cmd: Option<String>, exit_code: Option<i32> },
    CommandStarted { alias: Option<String>, pid: u32 },
    CommandCompleted { alias: Option<String>, exit_code: i32, duration_ms: u64 },
    CommandKilled { alias: Option<String>, signal: String },
    CommandTimedOut { alias: Option<String>, timeout_sec: u64 },
    PolicyDecision { rule: String, action: String },
    HandoffInitiated { alias: String, handoff_id: String },
    HandoffAttached { handoff_id: String },
    HandoffResolved { handoff_id: String, duration_ms: u64 },
    ServerStarted,
    ServerShutdown,
    SessionCreated { session: String },
    SessionClosed { session: String },
    SessionStart { session_id: String, server_version: String },
    SessionEnd {
        session_id: String,
        total_commands: u64,
        total_raw_bytes: u64,
        total_squashed_bytes: u64,
        aggregate_ratio: serde_json::Value,
        grammars_used: Vec<String>,
        duration_ms: u64,
    },
    Error { message: String },
    CommandRecord {
        category: String,
        grammar: Option<String>,
        exit_code: i32,
        wall_ms: u64,
        raw_bytes: u64,
        squashed_bytes: u64,
        compression_ratio: serde_json::Value,
        safety_action: String,
        raw_output_sha256: Option<String>,
    },
}

/// One entry of the log.
#[derive(Debug, Clone)]
pub struct AuditEntry {
    pub timestamp: String,
    pub session: String,
    pub tool: String,
    pub command: Option<String>,
    pub event: AuditEvent,
}

/// What a session did in all.
#[derive(Debug, Clone)]
pub struct SessionEndStats {
    pub total_commands: u64,
    pub total_raw_bytes: u64,
    pub total_squashed_bytes: u64,
    pub aggregate_ratio: serde_json::Value,
    pub grammars_used: Vec<String>,
    pub duration_ms: u64,
}

// ---------------------------------------------------------------------------
// Levels
// ---------------------------------------------------------------------------

/// The rank of a level; what is no level ranks as `info`.
pub open spec fn rank(level: Seq<char>) -> int {
    if level == "trace"@ {
        0
    } else if level == "debug"@ {
        1
    } else if level == "warn"@ {
        3
    } else if level == "error"@ {
        4
    } else {
        2
    }
}

/// The rank of a level, lower for more detail; what is no level ranks as `info`.
pub fn log_level_rank(level: &str) -> (r: u8)
    ensures
        r == rank(level@),
{
    proof {
        reveal_strlit("info");
        reveal_strlit("trace");
        reveal_strlit("debug");
        reveal_strlit("warn");
        reveal_strlit("error");
        assert("info"@[0] == 'i' && "warn"@[0] == 'w');
    }
    if text::same(level, "trace") {
        0
    } else if text::same(level, "debug") {
        1
    } else if text::same(level, "info") {
        2
    } else if text::same(level, "warn") {
        3
    } else if text::same(level, "error") {
        4
    } else {
        2
    }
}

/// The level of an event.
pub open spec fn level_of(event: AuditEvent) -> Seq<char> {
    match event {
        AuditEvent::ToolCall { .. } => "debug"@,
        AuditEvent::CommandKilled { .. } => "warn"@,
        AuditEvent::CommandTimedOut { .. } => "warn"@,
        AuditEvent::Error { .. } => "error"@,
        _ => "info"@,
    }
}

/// The level of an event.
pub fn event_log_level(event: &AuditEvent) -> (r: &'static str)
    ensures
        r@ == level_of(*event),
{
    match event {
        AuditEvent::ToolCall { .. } => "debug",
        AuditEvent::CommandKilled { .. } => "warn",
        AuditEvent::CommandTimedOut { .. } => "warn",
        AuditEvent::Error { .. } => "error",
        _ => "info",
    }
}

/// Whether the configuration wants events of this sort at all.
pub open spec fn wanted(config: AuditConfig, event: AuditEvent) -> bool {
    match event {
        AuditEvent::CommandStarted { .. } => config.log_commands,
        AuditEvent::CommandCompleted { .. } => config.log_commands,
        AuditEvent::CommandKilled { .. } => config.log_commands,
        AuditEvent::CommandTimedOut { .. } => config.log_commands,
        AuditEvent::CommandRecord { .. } => config.log_commands,
        AuditEvent::PolicyDecision { .. } => config.log_policy_decisions,
        AuditEvent::HandoffInitiated { .. } => config.log_handoff_events,
        AuditEvent::HandoffAttached { .. } => config.log_handoff_events,
        AuditEvent::HandoffResolved { .. } => config.log_handoff_events,
        _ => true,
    }
}

/// Whether the configuration lets an event into the log.
pub open spec fn passes(config: AuditConfig, event: AuditEvent) -> bool {
    rank(level_of(event)) >= rank(config.log_level@) && wanted(config, event)
}

// ---------------------------------------------------------------------------
// Entries as JSON
// ---------------------------------------------------------------------------

pub open spec fn text_field(key: Seq<char>, value: Seq<char>) -> (Seq<char>, serde_json::Value) {
    (key, outside::json_string(value))
}

pub open spec fn number_field(key: Seq<char>, value: u64) -> (Seq<char>, serde_json::Value) {
    (key, outside::json_natural(value))
}

pub open spec fn code_field(key: Seq<char>, value: i32) -> (Seq<char>, serde_json::Value) {
    (key, outside::json_integer(value as i64))
}

pub open spec fn opt_text(text: Option<String>) -> Option<Seq<char>> {
    match text {
        Some(text) => Some(text@),
        None => None,
    }
}

pub open spec fn opt_text_field(key: Seq<char>, value: Option<String>) -> (
    Seq<char>,
    serde_json::Value,
) {
    (key, outside::json_opt_string(opt_text(value)))
}

/// The fields of an event: its type, and what it says.
pub open spec fn event_fields(event: AuditEvent) -> Seq<(Seq<char>, serde_json::Value)> {
    match event {
        AuditEvent::ToolCall { tool_name, cmd, exit_code } => seq![
            text_field("type"@, "ToolCall"@),
            text_field("tool_name"@, tool_name@),
            opt_text_field("cmd"@, cmd),
            (
                "exit_code"@,
                outside::json_opt_integer(
                    match exit_code {
                        Some(code) => Some(code as i64),
                        None => None,
                    },
                ),
            ),
        ],
        AuditEvent::CommandStarted { alias, pid } => seq![
            text_field("type"@, "CommandStarted"@),
            opt_text_field("alias"@, alias),
            number_field("pid"@, pid as u64),
        ],
        AuditEvent::CommandCompleted { alias, exit_code, duration_ms } => seq![
            text_field("type"@, "CommandCompleted"@),
            opt_text_field("alias"@, alias),
            code_field("exit_code"@, exit_code),
            number_field("duration_ms"@, duration_ms),
        ],
        AuditEvent::CommandKilled { alias, signal } => seq![
            text_field("type"@, "CommandKilled"@),
            opt_text_field("alias"@, alias),
            text_field("signal"@, signal@),
        ],
        AuditEvent::CommandTimedOut { alias, timeout_sec } => seq![
            text_field("type"@, "CommandTimedOut"@),
            opt_text_field("alias"@, alias),
            number_field("timeout_sec"@, timeout_sec),
        ],
        AuditEvent::PolicyDecision { rule, action } => seq![
            text_field("type"@, "PolicyDecision"@),
            text_field("rule"@, rule@),
            text_field("action"@, action@),
        ],
        AuditEvent::HandoffInitiated { alias, handoff_id } => seq![
            text_field("type"@, "HandoffInitiated"@),
            text_field("alias"@, alias@),
            text_field("handoff_id"@, handoff_id@),
        ],
        AuditEvent::HandoffAttached { handoff_id } => seq![
            text_field("type"@, "HandoffAttached"@),
            text_field("handoff_id"@, handoff_id@),
        ],
        AuditEvent::HandoffResolved { handoff_id, duration_ms } => seq![
            text_field("type"@, "HandoffResolved"@),
            text_field("handoff_id"@, handoff_id@),
            number_field("duration_ms"@, duration_ms),
        ],
        AuditEvent::ServerStarted => seq![text_field("type"@, "ServerStarted"@)],
        AuditEvent::ServerShutdown => seq![text_field("type"@, "ServerShutdown"@)],
        AuditEvent::SessionCreated { session } => seq![
            text_field("type"@, "SessionCreated"@),
            text_field("session"@, session@),
        ],
        AuditEvent::SessionClosed { session } => seq![
            text_field("type"@, "SessionClosed"@),
            text_field("session"@, session@),
        ],
        AuditEvent::SessionStart { session_id, server_version } => seq![
            text_field("type"@, "SessionStart"@),
            text_field("session_id"@, session_id@),
            text_field("server_version"@, server_version@),
        ],
        AuditEvent::SessionEnd {
            session_id,
            total_commands,
            total_raw_bytes,
            total_squashed_bytes,
            aggregate_ratio,
            grammars_used,
            duration_ms,
        } => seq![
            text_field("type"@, "SessionEnd"@),
            text_field("session_id"@, session_id@),
            number_field("total_commands"@, total_commands),
            number_field("total_raw_bytes"@, total_raw_bytes),
            number_field("total_squashed_bytes"@, total_squashed_bytes),
            ("aggregate_ratio"@, aggregate_ratio),
            ("grammars_used"@, json::json_texts(grammars_used@)),
            number_field("duration_ms"@, duration_ms),
        ],
        AuditEvent::Error { message } => seq![
            text_field("type"@, "Error"@),
            text_field("message"@, message@),
        ],
        AuditEvent::CommandRecord {
            category,
            grammar,
            exit_code,
            wall_ms,
            raw_bytes,
            squashed_bytes,
            compression_ratio,
            safety_action,
            raw_output_sha256,
        } => seq![
            text_field("type"@, "CommandRecord"@),
            text_field("category"@, category@),
            opt_text_field("grammar"@, grammar),
            code_field("exit_code"@, exit_code),
            number_field("wall_ms"@, wall_ms),
            number_field("raw_bytes"@, raw_bytes),
            number_field("squashed_bytes"@, squashed_bytes),
            ("compression_ratio"@, compression_ratio),
            text_field("safety_action"@, safety_action@),
        ] + json::field_if(
            raw_output_sha256 is Some,
            "raw_output_sha256"@,
            outside::json_string(raw_output_sha256->0@),
        ),
    }
}

/// The fields of an entry; the command is left out where there is none.
pub open spec fn entry_fields(entry: AuditEntry) -> Seq<(Seq<char>, serde_json::Value)> {
    seq![
        text_field("timestamp"@, entry.timestamp@),
        text_field("session"@, entry.session@),
        text_field("tool"@, entry.tool@),
    ] + json::field_if(
        entry.command is Some,
        "command"@,
        outside::json_string(entry.command->0@),
    ) + seq![("event"@, outside::json_object(event_fields(entry.event)))]
}

fn push_text(fields: &mut Vec<(String, serde_json::Value)>, key: &str, value: &str)
    ensures
        outside::json_fields(final(fields)@) == outside::json_fields(old(fields)@).push(
            text_field(key@, value@),
        ),
{
    push_field(fields, key, string_value(value));
}

fn push_number(fields: &mut Vec<(String, serde_json::Value)>, key: &str, value: u64)
    ensures
        outside::json_fields(final(fields)@) == outside::json_fields(old(fields)@).push(
            number_field(key@, value),
        ),
{
    push_field(fields, key, natural_value(value));
}

fn push_code(fields: &mut Vec<(String, serde_json::Value)>, key: &str, value: i32)
    ensures
        outside::json_fields(final(fields)@) == outside::json_fields(old(fields)@).push(
            code_field(key@, value),
        ),
{
    push_field(fields, key, integer_value(value as i64));
}

fn push_opt_text(fields: &mut Vec<(String, serde_json::Value)>, key: &str, value: &Option<String>)
    ensures
        outside::json_fields(final(fields)@) == outside::json_fields(old(fields)@).push(
            opt_text_field(key@, *value),
        ),
{
    let value = match value {
        Some(text) => opt_string_value(Some(text.as_str())),
        None => opt_string_value(None),
    };
    push_field(fields, key, value);
}

fn push_value(fields: &mut Vec<(String, serde_json::Value)>, key: &str, value: serde_json::Value)
    ensures
        outside::json_fields(final(fields)@) == outside::json_fields(old(fields)@).push(
            (key@, value),
        ),
{
    push_field(fields, key, value);
}

/// The event as a JSON object.
pub fn event_value(event: &AuditEvent) -> (r: serde_json::Value)
    ensures
        r == outside::json_object(event_fields(*event)),
{
    let mut f: Vec<(String, serde_json::Value)> = Vec::new();
    assert(outside::json_fields(f@) =~= Seq::empty());
    match event {
        AuditEvent::ToolCall { tool_name, cmd, exit_code } => {
            push_text(&mut f, "type", "ToolCall");
            push_text(&mut f, "tool_name", tool_name.as_str());
            push_opt_text(&mut f, "cmd", cmd);
            let code = match exit_code {
                Some(code) => opt_integer_value(Some(*code as i64)),
                None => opt_integer_value(None),
            };
            push_value(&mut f, "exit_code", code);
        },
        AuditEvent::CommandStarted { alias, pid } => {
            push_text(&mut f, "type", "CommandStarted");
            push_opt_text(&mut f, "alias", alias);
            push_number(&mut f, "pid", *pid as u64);
        },
        AuditEvent::CommandCompleted { alias, exit_code, duration_ms } => {
            push_text(&mut f, "type", "CommandCompleted");
            push_opt_text(&mut f, "alias", alias);
            push_code(&mut f, "exit_code", *exit_code);
            push_number(&mut f, "duration_ms", *duration_ms);
        },
        AuditEvent::CommandKilled { alias, signal } => {
            push_text(&mut f, "type", "CommandKilled");
            push_opt_text(&mut f, "alias", alias);
            push_text(&mut f, "signal", signal.as_str());
        },
        AuditEvent::CommandTimedOut { alias, timeout_sec } => {
            push_text(&mut f, "type", "CommandTimedOut");
            push_opt_text(&mut f, "alias", alias);
            push_number(&mut f, "timeout_sec", *timeout_sec);
        },
        AuditEvent::PolicyDecision { rule, action } => {
            push_text(&mut f, "type", "PolicyDecision");
            push_text(&mut f, "rule", rule.as_str());
            push_text(&mut f, "action", action.as_str());
        },
        AuditEvent::HandoffInitiated { alias, handoff_id } => {
            push_text(&mut f, "type", "HandoffInitiated");
            push_text(&mut f, "alias", alias.as_str());
            push_text(&mut f, "handoff_id", handoff_id.as_str());
        },
        AuditEvent::HandoffAttached { handoff_id } => {
            push_text(&mut f, "type", "HandoffAttached");
            push_text(&mut f, "handoff_id", handoff_id.as_str());
        },
        AuditEvent::HandoffResolved { handoff_id, duration_ms } => {
            push_text(&mut f, "type", "HandoffResolved");
            push_text(&mut f, "handoff_id", handoff_id.as_str());
            push_number(&mut f, "duration_ms", *duration_ms);
        },
        AuditEvent::ServerStarted => {
            push_text(&mut f, "type", "ServerStarted");
        },
        AuditEvent::ServerShutdown => {
            push_text(&mut f, "type", "ServerShutdown");
        },
        AuditEvent::SessionCreated { session } => {
            push_text(&mut f, "type", "SessionCreated");
            push_text(&mut f, "session", session.as_str());
        },
        AuditEvent::SessionClosed { session } => {
            push_text(&mut f, "type", "SessionClosed");
            push_text(&mut f, "session", session.as_str());
        },
        AuditEvent::SessionStart { session_id, server_version } => {
            push_text(&mut f, "type", "SessionStart");
            push_text(&mut f, "session_id", session_id.as_str());
            push_text(&mut f, "server_version", server_version.as_str());
        },
        AuditEvent::SessionEnd {
            session_id,
            total_commands,
            total_raw_bytes,
            total_squashed_bytes,
            aggregate_ratio,
            grammars_used,
            duration_ms,
        } => {
            push_text(&mut f, "type", "SessionEnd");
            push_text(&mut f, "session_id", session_id.as_str());
            push_number(&mut f, "total_commands", *total_commands);
            push_number(&mut f, "total_raw_bytes", *total_raw_bytes);
            push_number(&mut f, "total_squashed_bytes", *total_squashed_bytes);
            push_value(&mut f, "aggregate_ratio", aggregate_ratio.clone());
            push_value(&mut f, "grammars_used", texts_value(grammars_used.as_slice()));
            push_number(&mut f, "duration_ms", *duration_ms);
        },
        AuditEvent::Error { message } => {
            push_text(&mut f, "type", "Error");
            push_text(&mut f, "message", message.as_str());
        },
        AuditEvent::CommandRecord {
            category,
            grammar,
            exit_code,
            wall_ms,
            raw_bytes,
            squashed_bytes,
            compression_ratio,
            safety_action,
            raw_output_sha256,
        } => {
            push_text(&mut f, "type", "CommandRecord");
            push_text(&mut f, "category", category.as_str());
            push_opt_text(&mut f, "grammar", grammar);
            push_code(&mut f, "exit_code", *exit_code);
            push_number(&mut f, "wall_ms", *wall_ms);
            push_number(&mut f, "raw_bytes", *raw_bytes);
            push_number(&mut f, "squashed_bytes", *squashed_bytes);
            push_value(&mut f, "compression_ratio", compression_ratio.clone());
            push_text(&mut f, "safety_action", safety_action.as_str());
            if let Some(digest) = raw_output_sha256 {
                push_text(&mut f, "raw_output_sha256", digest.as_str());
            }
        },
    }
    assert(outside::json_fields(f@) =~= event_fields(*event));
    object_value(f)
}

/// The entry as a JSON object.
pub fn entry_value(entry: &AuditEntry) -> (r: serde_json::Value)
    ensures
        r == entry_json(*entry),
{
    let mut f: Vec<(String, serde_json::Value)> = Vec::new();
    assert(outside::json_fields(f@) =~= Seq::empty());
    push_text(&mut f, "timestamp", entry.timestamp.as_str());
    push_text(&mut f, "session", entry.session.as_str());
    push_text(&mut f, "tool", entry.tool.as_str());
    if let Some(command) = &entry.command {
        push_text(&mut f, "command", command.as_str());
    }
    push_value(&mut f, "event", event_value(&entry.event));
    assert(outside::json_fields(f@) =~= entry_fields(*entry));
    object_value(f)
}

/// The whole seconds from the start of 1970 to a moment; none where the moment is
/// earlier.
pub open spec fn seconds_at(moment: SystemTime) -> nat {
    match outside::since_epoch(moment) {
        Ok(passed) => outside::nanos(passed) / 1_000_000_000,
        Err(_) => 0,
    }
}

/// The entry tells a moment that the clock showed.
pub open spec fn is_stamped(entry: AuditEntry) -> bool {
    exists|now: SystemTime|
        {
            &&& #[trigger] call_ensures(SystemTime::now, (), now)
            &&& calendar::tells_moment(entry.timestamp@, seconds_at(now))
        }
}

impl AuditEntry {
    /// An entry for a moment given in seconds after the start of 1970.
    pub fn at(
        seconds: u64,
        session: String,
        tool: String,
        command: Option<String>,
        event: AuditEvent,
    ) -> (r: Self)
        ensures
            calendar::tells_moment(r.timestamp@, seconds as nat),
            r.session == session,
            r.tool == tool,
            r.command == command,
            r.event == event,
    {
        AuditEntry { timestamp: iso8601_at(seconds), session, tool, command, event }
    }

    /// An entry for the present moment, as the clock shows it.
    pub fn new(session: String, tool: String, command: Option<String>, event: AuditEvent) -> (r:
        Self)
        ensures
            is_stamped(r),
            r.session == session,
            r.tool == tool,
            r.command == command,
            r.event == event,
    {
        let now = SystemTime::now();
        let passed = match time_since_epoch(now) {
            Ok(time) => time,
            Err(_) => Duration::from_millis(0),
        };
        AuditEntry::at(passed.as_secs(), session, tool, command, event)
    }
}

// ---------------------------------------------------------------------------
// Places
// ---------------------------------------------------------------------------

/// The directory of the log files: `audit` beside the configured log.
pub open spec fn audit_dir_of(log_path: Seq<char>, home: Option<Seq<char>>) -> Seq<char> {
    let base = match outside::parent(paths::expanded(log_path, home)) {
        Some(dir) => dir,
        None => "."@,
    };
    outside::joined(base, "audit"@)
}

/// The directory of the log files.
pub fn audit_dir(config: &AuditConfig, home: Option<&str>) -> (r: String)
    ensures
        r@ == audit_dir_of(config.log_path@, paths::opt_str(home)),
{
    let expanded = expand_tilde(config.log_path.as_str(), home);
    match parent_path(expanded.as_str()) {
        Some(dir) => join_paths(dir.as_str(), "audit"),
        None => join_paths(".", "audit"),
    }
}

/// The log file of a session.
pub open spec fn session_file(dir: Seq<char>, session_id: Seq<char>) -> Seq<char> {
    outside::joined(dir, session_id + ".jsonl"@)
}

/// The log file of a session.
pub fn session_log_path(config: &AuditConfig, session_id: &str, home: Option<&str>) -> (r: String)
    ensures
        r@ == session_file(
            audit_dir_of(config.log_path@, paths::opt_str(home)),
            session_id@,
        ),
{
    let dir = audit_dir(config, home);
    let name = concat2(session_id, ".jsonl");
    join_paths(dir.as_str(), name.as_str())
}

// ---------------------------------------------------------------------------
// The logger
// ---------------------------------------------------------------------------

/// Raw output to be kept: where, its digest, and the compressed bytes.
#[derive(Debug, Clone)]
pub struct Sidecar {
    pub dir: String,
    pub path: String,
    pub sha256: String,
    pub bytes: Vec<u8>,
}

/// The level at which raw output is compressed.
pub const COMPRESSION_LEVEL: i32 = 3;

/// The file of the raw output with a sequence number.
pub open spec fn sidecar_file(dir: Seq<char>, session_id: Seq<char>, seq: nat) -> Seq<char> {
    outside::joined(
        outside::joined(dir, session_id),
        text::zero_pad(text::dec(seq), 3) + ".raw.zst"@,
    )
}

/// A sidecar for the raw output `data`: its digest is that of the output, and
/// decoding its bytes gives the output back.
pub open spec fn is_sidecar(
    sidecar: Sidecar,
    dir: Seq<char>,
    session_id: Seq<char>,
    seq: nat,
    data: Seq<u8>,
) -> bool {
    &&& sidecar.dir@ == outside::joined(dir, session_id)
    &&& sidecar.path@ == sidecar_file(dir, session_id, seq)
    &&& sidecar.sha256@ == outside::sha256(data)
    &&& sidecar.bytes@ == outside::zstd_encoded(data, COMPRESSION_LEVEL)
    &&& outside::zstd_decoded(sidecar.bytes@) == Some(data)
}

/// `decoded` is what decoding compressed bytes can give: the output, or the error with
/// which it failed.
pub closed spec fn decompression_gives(
    bytes: &[u8],
    decoded: Result<Vec<u8>, std::io::Error>,
) -> bool {
    call_ensures(decompress, (bytes,), decoded)
}

/// The raw output in the compressed bytes of a sidecar.
pub fn read_sidecar(bytes: &[u8]) -> (r: Result<Vec<u8>, std::io::Error>)
    ensures
        decompression_gives(bytes, r),
        r matches Ok(data) ==> outside::zstd_decoded(bytes@) == Some(data@),
{
    decompress(bytes)
}

/// `compressed` is what compressing raw output can give: its bytes, or the error
/// with which it failed.
pub closed spec fn compression_gives(
    data: &[u8],
    compressed: Result<Vec<u8>, std::io::Error>,
) -> bool {
    call_ensures(compress, (data, COMPRESSION_LEVEL), compressed)
}

/// The log of one session. Where its file could not be opened, nothing is logged.
#[derive(Debug)]
pub struct AuditLogger {
    pub config: AuditConfig,
    /// The directory of the log files.
    pub audit_dir: String,
    pub session_id: String,
    /// The number of raw outputs so far.
    pub seq: u32,
    /// The log file is open.
    pub open: bool,
}

/// The entry as JSON.
pub open spec fn entry_json(entry: AuditEntry) -> serde_json::Value {
    outside::json_object(entry_fields(entry))
}

/// What is appended to the log for an entry: a line that holds it, where it is let
/// in, and else nothing.
pub open spec fn is_logged(
    line: Option<Seq<char>>,
    logger: AuditLogger,
    entry: AuditEntry,
) -> bool {
    match line {
        Some(line) => logger.open && passes(logger.config, entry.event) && json::is_line_of(
            line,
            entry_json(entry),
        ),
        None => !logger.open || !passes(logger.config, entry.event),
    }
}

impl AuditLogger {
    /// The logger of a session, with its file opened or not.
    pub fn new(config: AuditConfig, session_id: &str, home: Option<&str>, open: bool) -> (r: Self)
        ensures
            r.config == config,
            r.audit_dir@ == audit_dir_of(config.log_path@, paths::opt_str(home)),
            r.session_id@ == session_id@,
            r.seq == 0,
            r.open == open,
    {
        let dir = audit_dir(&config, home);
        AuditLogger { config, audit_dir: dir, session_id: session_id.to_owned(), seq: 0, open }
    }

    /// Whether the configuration wants events of this sort.
    pub fn should_log_event(&self, event: &AuditEvent) -> (r: bool)
        ensures
            r == wanted(self.config, *event),
    {
        match event {
            AuditEvent::CommandStarted { .. }
            | AuditEvent::CommandCompleted { .. }
            | AuditEvent::CommandKilled { .. }
            | AuditEvent::CommandTimedOut { .. }
            | AuditEvent::CommandRecord { .. } => self.config.log_commands,
            AuditEvent::PolicyDecision { .. } => self.config.log_policy_decisions,
            AuditEvent::HandoffInitiated { .. }
            | AuditEvent::HandoffAttached { .. }
            | AuditEvent::HandoffResolved { .. } => self.config.log_handoff_events,
            _ => true,
        }
    }

    /// Whether an event is let into the log.
    pub fn admits(&self, event: &AuditEvent) -> (r: bool)
        ensures
            r == (self.open && passes(self.config, *event)),
    {
        self.open && log_level_rank(event_log_level(event)) >= log_level_rank(
            self.config.log_level.as_str(),
        ) && self.should_log_event(event)
    }

    /// What to append to the log file for an entry: one line of JSON, or nothing
    /// where the entry is filtered out.
    pub fn log(&self, entry: AuditEntry) -> (r: Option<String>)
        ensures
            is_logged(opt_text(r), *self, entry),
    {
        if !self.admits(&entry.event) {
            return None;
        }
        Some(json_line(&entry_value(&entry)))
    }

    /// What to append to the log file at the start of a session.
    pub fn log_session_start(&self, session_id: &str, server_version: &str) -> (r: Option<String>)
        ensures
            exists|entry: AuditEntry| #[trigger]
                is_start(entry, session_id@, server_version@) && is_logged(
                    opt_text(r),
                    *self,
                    entry,
                ),
    {
        let entry = AuditEntry::new(
            session_id.to_owned(),
            String::new(),
            None,
            AuditEvent::SessionStart {
                session_id: session_id.to_owned(),
                server_version: server_version.to_owned(),
            },
        );
        assert(is_start(entry, session_id@, server_version@));
        self.log(entry)
    }

    /// What to append to the log file at the end of a session.
    pub fn log_session_end(&self, session_id: &str, stats: SessionEndStats) -> (r: Option<String>)
        ensures
            exists|entry: AuditEntry| #[trigger]
                is_end(entry, session_id@, stats) && is_logged(opt_text(r), *self, entry),
    {
        let entry = AuditEntry::new(
            session_id.to_owned(),
            String::new(),
            None,
            AuditEvent::SessionEnd {
                session_id: session_id.to_owned(),
                total_commands: stats.total_commands,
                total_raw_bytes: stats.total_raw_bytes,
                total_squashed_bytes: stats.total_squashed_bytes,
                aggregate_ratio: stats.aggregate_ratio,
                grammars_used: stats.grammars_used,
                duration_ms: stats.duration_ms,
            },
        );
        assert(is_end(entry, session_id@, stats));
        self.log(entry)
    }

    /// Raw output is kept.
    pub fn raw_sidecar_enabled(&self) -> (r: bool)
        ensures
            r == (self.config.raw_retention@ != "none"@),
    {
        !text::same(self.config.raw_retention.as_str(), "none")
    }

    /// The sidecar for raw output with a sequence number, from its digest and its
    /// compressed bytes.
    pub fn sidecar_of(
        &self,
        seq: u32,
        sha256: String,
        compressed: Result<Vec<u8>, std::io::Error>,
    ) -> (r: Result<Sidecar, std::io::Error>)
        ensures
            match compressed {
                Ok(bytes) => {
                    &&& r matches Ok(sidecar)
                    &&& sidecar.dir@ == outside::joined(self.audit_dir@, self.session_id@)
                    &&& sidecar.path@ == sidecar_file(
                        self.audit_dir@,
                        self.session_id@,
                        seq as nat,
                    )
                    &&& sidecar.sha256 == sha256
                    &&& sidecar.bytes == bytes
                },
                Err(e) => r == Err::<Sidecar, std::io::Error>(e),
            },
    {
        let dir = join_paths(self.audit_dir.as_str(), self.session_id.as_str());
        let number = dec_u64(seq as u64);
        let digits = zero_padded(number.as_str(), 3);
        let name = concat2(digits.as_str(), ".raw.zst");
        let path = join_paths(dir.as_str(), name.as_str());
        match compressed {
            Ok(bytes) => Ok(Sidecar { dir, path, sha256, bytes }),
            Err(e) => Err(e),
        }
    }

    /// The sidecar for raw output with a sequence number; where compression fails,
    /// its error.
    pub fn sidecar(&self, seq: u32, data: &[u8]) -> (r: Result<Sidecar, std::io::Error>)
        ensures
            exists|compressed: Result<Vec<u8>, std::io::Error>| #[trigger]
                compression_gives(data, compressed) && match compressed {
                    Ok(bytes) => r is Ok && r->Ok_0.bytes == bytes,
                    Err(e) => r == Err::<Sidecar, std::io::Error>(e),
                },
            r matches Ok(sidecar) ==> is_sidecar(
                sidecar,
                self.audit_dir@,
                self.session_id@,
                seq as nat,
                data@,
            ),
    {
        let compressed = compress(data, COMPRESSION_LEVEL);
        assert(compression_gives(data, compressed));
        self.sidecar_of(seq, sha256_hex(data), compressed)
    }

    /// Counts the raw output of a command where it is kept, and makes its sidecar.
    /// `None` where there is nothing to keep.
    pub fn next_sidecar(&mut self, raw_output: Option<&[u8]>) -> (r: Option<
        Result<Sidecar, std::io::Error>,
    >)
        requires
            raw_output is Some && old(self).config.raw_retention@ != "none"@ ==> old(self).seq
                < u32::MAX,
        ensures
            final(self).config == old(self).config,
            final(self).audit_dir == old(self).audit_dir,
            final(self).session_id == old(self).session_id,
            final(self).open == old(self).open,
            match raw_output {
                Some(data) if old(self).config.raw_retention@ != "none"@ => {
                    &&& final(self).seq == old(self).seq + 1
                    &&& r is Some
                    &&& exists|compressed: Result<Vec<u8>, std::io::Error>| #[trigger]
                        compression_gives(data, compressed) && match compressed {
                            Ok(bytes) => r->0 is Ok && r->0->Ok_0.bytes == bytes,
                            Err(e) => r->0 == Err::<Sidecar, std::io::Error>(e),
                        }
                    &&& r->0 matches Ok(sidecar) ==> is_sidecar(
                        sidecar,
                        old(self).audit_dir@,
                        old(self).session_id@,
                        final(self).seq as nat,
                        data@,
                    )
                },
                _ => r is None && final(self).seq == old(self).seq,
            },
    {
        if !self.raw_sidecar_enabled() {
            return None;
        }
        match raw_output {
            Some(data) => {
                self.seq += 1;
                Some(self.sidecar(self.seq, data))
            },
            None => None,
        }
    }

    /// The warning about raw output that could not be kept.
    pub fn sidecar_warning(&self, why: &str) -> (r: String)
        ensures
            r@ == "mish: warning: failed to write raw sidecar for seq "@ + text::dec(
                self.seq as nat,
            ) + (": "@ + why@),
    {
        let number = dec_u64(self.seq as u64);
        let end = concat2(": ", why);
        concat3(
            "mish: warning: failed to write raw sidecar for seq ",
            number.as_str(),
            end.as_str(),
        )
    }

    /// What to append to the log file for a command that ran. The digest is given
    /// where its raw output was kept.
    pub fn log_command(
        &self,
        session: String,
        tool: String,
        command: Option<String>,
        category: String,
        grammar: Option<String>,
        exit_code: i32,
        wall_ms: u64,
        raw_bytes: u64,
        squashed_bytes: u64,
        compression_ratio: serde_json::Value,
        safety_action: String,
        raw_output_sha256: Option<String>,
    ) -> (r: Option<String>)
        ensures
            exists|entry: AuditEntry|
                {
                    &&& #[trigger] is_stamped(entry)
                    &&& entry.session == session
                    &&& entry.tool == tool
                    &&& entry.command == command
                    &&& entry.event == (AuditEvent::CommandRecord {
                        category,
                        grammar,
                        exit_code,
                        wall_ms,
                        raw_bytes,
                        squashed_bytes,
                        compression_ratio,
                        safety_action,
                        raw_output_sha256,
                    })
                    &&& is_logged(opt_text(r), *self, entry)
                },
    {
        let entry = AuditEntry::new(
            session,
            tool,
            command,
            AuditEvent::CommandRecord {
                category,
                grammar,
                exit_code,
                wall_ms,
                raw_bytes,
                squashed_bytes,
                compression_ratio,
                safety_action,
                raw_output_sha256,
            },
        );
        assert(is_stamped(entry));
        self.log(entry)
    }
}

/// The entry tells the start of a session.
pub open spec fn is_start(entry: AuditEntry, session: Seq<char>, version: Seq<char>) -> bool {
    &&& is_stamped(entry)
    &&& entry.session@ == session
    &&& entry.tool@ == Seq::<char>::empty()
    &&& entry.command is None
    &&& entry.event matches AuditEvent::SessionStart { session_id, server_version }
        && session_id@ == session && server_version@ == version
}

/// The entry tells the end of a session.
pub open spec fn is_end(entry: AuditEntry, session: Seq<char>, stats: SessionEndStats) -> bool {
    &&& is_stamped(entry)
    &&& entry.session@ == session
    &&& entry.tool@ == Seq::<char>::empty()
    &&& entry.command is None
    &&& entry.event matches AuditEvent::SessionEnd {
        session_id,
        total_commands,
        total_raw_bytes,
        total_squashed_bytes,
        aggregate_ratio,
        grammars_used,
        duration_ms,
    } && session_id@ == session && total_commands == stats.total_commands && total_raw_bytes
        == stats.total_raw_bytes && total_squashed_bytes == stats.total_squashed_bytes
        && aggregate_ratio == stats.aggregate_ratio && grammars_used == stats.grammars_used
        && duration_ms == stats.duration_ms
}

// ---------------------------------------------------------------------------
// Reading
// ---------------------------------------------------------------------------

/// The values among optional ones.
pub open spec fn present(values: Seq<Option<serde_json::Value>>) -> Seq<serde_json::Value>
    decreases values.len(),
{
    if values.len() == 0 {
        Seq::empty()
    } else {
        let before = present(values.drop_last());
        match values.last() {
            Some(value) => before.push(value),
            None => before,
        }
    }
}

/// What each line that is not empty holds.
pub open spec fn parsed_lines(lines: Seq<Seq<char>>) -> Seq<Option<serde_json::Value>>
    decreases lines.len(),
{
    if lines.len() == 0 {
        Seq::empty()
    } else if lines.last().len() == 0 {
        parsed_lines(lines.drop_last())
    } else {
        parsed_lines(lines.drop_last()).push(outside::json_parsed(lines.last()))
    }
}

/// Keeps what was read.
pub fn keep_parsed(values: Vec<Option<serde_json::Value>>) -> (r: Vec<serde_json::Value>)
    ensures
        r@ == present(values@),
{
    let ghost all = values@;
    let mut r: Vec<serde_json::Value> = Vec::new();
    assert(all.take(0).len() == 0);
    for value in it: values
        invariant
            it.seq() == all,
            r@ == present(all.take(it.index())),
    {
        assert(value == all[it.index()]);
        assert(all.take(it.index() + 1).drop_last() =~= all.take(it.index()));
        assert(all.take(it.index() + 1).last() == value);
        if let Some(value) = value {
            r.push(value);
        }
    }
    assert(all.take(all.len() as int) =~= all);
    r
}

/// The entries of a log file, line by line; a line that is no JSON is skipped.
pub fn read_session_entries(content: &str) -> (r: Vec<serde_json::Value>)
    ensures
        r@ == present(parsed_lines(text::lines(content@))),
{
    let lines = lines_of(content);
    let ghost all = text::lines(content@);
    let mut values: Vec<Option<serde_json::Value>> = Vec::new();
    let mut i: usize = 0;
    assert(all.take(0).len() == 0);
    while i < lines.len()
        invariant
            all == text::lines(content@),
            text::views(lines@) == all,
            i <= lines@.len(),
            values@ == parsed_lines(all.take(i as int)),
        decreases lines.len() - i,
    {
        assert(text::views(lines@).len() == lines@.len());
        assert(all.take(i + 1).drop_last() =~= all.take(i as int));
        assert(all.take(i + 1).last() == lines@[i as int]@);
        let line = lines[i].as_str();
        if !line.is_empty() {
            values.push(parse_json(line));
        }
        i += 1;
    }
    assert(text::views(lines@).len() == lines@.len());
    assert(all.take(i as int) =~= all);
    keep_parsed(values)
}

// ---------------------------------------------------------------------------
// Laws
// ---------------------------------------------------------------------------

/// A log of lines is read line by line: each line that was written gives what it
/// holds, in the order of writing.
pub proof fn law_log_is_read_line_by_line(lines: Seq<Seq<char>>)
    requires
        forall|i: int|
            0 <= i < lines.len() ==> {
                let line = #[trigger] lines[i];
                line.len() > 0 && !line.contains('\n') && line.last() != '\r'
            },
    ensures
        text::lines(text::unlines(lines)) == lines,
        parsed_lines(text::lines(text::unlines(lines))) == Seq::new(
            lines.len(),
            |i: int| outside::json_parsed(lines[i]),
        ),
{
    text::law_lines_are_read_back(lines);
    lemma_parsed_lines(lines);
}

proof fn lemma_parsed_lines(lines: Seq<Seq<char>>)
    requires
        forall|i: int| 0 <= i < lines.len() ==> (#[trigger] lines[i]).len() > 0,
    ensures
        parsed_lines(lines) == Seq::new(lines.len(), |i: int| outside::json_parsed(lines[i])),
    decreases lines.len(),
{
    if lines.len() > 0 {
        let rest = lines.drop_last();
        assert forall|i: int| 0 <= i < rest.len() implies (#[trigger] rest[i]).len() > 0 by {
            assert(rest[i] == lines[i]);
        }
        lemma_parsed_lines(rest);
        assert(lines[lines.len() - 1].len() > 0);
    }
    assert(parsed_lines(lines) =~= Seq::new(
        lines.len(),
        |i: int| outside::json_parsed(lines[i]),
    ));
}

/// The event holds no fractions: a ratio that it tells is a whole number.
pub open spec fn is_exact(event: AuditEvent) -> bool {
    match event {
        AuditEvent::SessionEnd { aggregate_ratio, .. } => outside::json_exact(aggregate_ratio, 98),
        AuditEvent::CommandRecord { compression_ratio, .. } => outside::json_exact(
            compression_ratio,
            98,
        ),
        _ => true,
    }
}

proof fn lemma_texts_are_exact(texts: Seq<String>)
    ensures
        outside::json_exact(json::json_texts(texts), 98),
{
    let items = Seq::new(texts.len(), |i: int| outside::json_string(texts[i]@));
    assert forall|i: int| 0 <= i < items.len() implies outside::json_exact(
        #[trigger] items[i],
        97,
    ) by {}
}

proof fn lemma_entries_are_exact(entry: AuditEntry)
    requires
        is_exact(entry.event),
    ensures
        outside::json_exact(entry_json(entry), 100),
{
    let inner = event_fields(entry.event);
    assert forall|i: int| 0 <= i < inner.len() implies outside::json_exact(
        (#[trigger] inner[i]).1,
        98,
    ) by {
        if let AuditEvent::SessionEnd { grammars_used, .. } = entry.event {
            lemma_texts_are_exact(grammars_used@);
        }
    }
    assert(outside::json_exact(outside::json_object(inner), 99));
    let fields = entry_fields(entry);
    assert forall|i: int| 0 <= i < fields.len() implies outside::json_exact(
        (#[trigger] fields[i]).1,
        99,
    ) by {}
}

/// What was appended to a log is read back: the entries, in the order in which
/// they were logged.
pub proof fn law_log_is_read_back(
    logger: AuditLogger,
    lines: Seq<Seq<char>>,
    entries: Seq<AuditEntry>,
)
    requires
        lines.len() == entries.len(),
        forall|i: int|
            0 <= i < lines.len() ==> is_exact(#[trigger] entries[i].event) && is_logged(
                Some(lines[i]),
                logger,
                entries[i],
            ),
    ensures
        present(parsed_lines(text::lines(text::join(lines, ""@)))) == Seq::new(
            entries.len(),
            |i: int| entry_json(entries[i]),
        ),
{
    let told = Seq::new(lines.len(), |i: int| outside::json_compact(entry_json(entries[i])));
    assert forall|i: int| 0 <= i < lines.len() implies lines[i] == #[trigger] told[i] + "\n"@
        && outside::json_parsed(told[i]) == Some(entry_json(entries[i])) by {
        assert(is_exact(entries[i].event));
        lemma_entries_are_exact(entries[i]);
    }
    assert forall|i: int| 0 <= i < told.len() implies {
        let line = #[trigger] told[i];
        line.len() > 0 && !line.contains('\n') && line.last() != '\r'
    } by {
        assert(is_exact(entries[i].event));
    }
    lemma_lines_together(lines, told);
    law_log_is_read_line_by_line(told);
    let parsed = Seq::new(told.len(), |i: int| outside::json_parsed(told[i]));
    let values = Seq::new(entries.len(), |i: int| entry_json(entries[i]));
    assert forall|i: int| 0 <= i < parsed.len() implies #[trigger] parsed[i] == Some(values[i]) by {
        assert(lines[i] == told[i] + "\n"@);
    }
    lemma_all_present(parsed, values);
}

/// Lines with their ends, one after the other.
proof fn lemma_lines_together(lines: Seq<Seq<char>>, told: Seq<Seq<char>>)
    requires
        lines.len() == told.len(),
        forall|i: int| 0 <= i < lines.len() ==> lines[i] == #[trigger] told[i] + "\n"@,
    ensures
        text::join(lines, ""@) == text::unlines(told),
    decreases lines.len(),
{
    reveal_strlit("");
    if lines.len() > 0 {
        let n = lines.len() - 1;
        let before = lines.drop_last();
        let rest = told.drop_last();
        assert forall|i: int| 0 <= i < before.len() implies before[i] == #[trigger] rest[i]
            + "\n"@ by {
            assert(rest[i] == told[i]);
        }
        lemma_lines_together(before, rest);
        assert(lines[n] == told[n] + "\n"@);
        if n == 0 {
            assert(text::unlines(rest) =~= Seq::empty());
        }
        assert(text::join(lines, ""@) =~= text::unlines(told));
    }
}

proof fn lemma_all_present(parsed: Seq<Option<serde_json::Value>>, values: Seq<serde_json::Value>)
    requires
        parsed.len() == values.len(),
        forall|i: int| 0 <= i < parsed.len() ==> #[trigger] parsed[i] == Some(values[i]),
    ensures
        present(parsed) == values,
    decreases parsed.len(),
{
    if parsed.len() > 0 {
        let before = parsed.drop_last();
        let rest = values.drop_last();
        assert forall|i: int| 0 <= i < before.len() implies #[trigger] before[i] == Some(
            rest[i],
        ) by {
            assert(before[i] == parsed[i]);
        }
        lemma_all_present(before, rest);
        assert(parsed[parsed.len() - 1] == Some(values[values.len() - 1]));
    }
    assert(present(parsed) =~= values);
}

/// Whatever the configuration says, errors pass.
pub proof fn law_errors_always_pass(config: AuditConfig, message: String)
    ensures
        passes(config, AuditEvent::Error { message }),
{
    reveal_strlit("error");
    reveal_strlit("trace");
    reveal_strlit("debug");
    reveal_strlit("warn");
    assert("error"@[0] == 'e' && "trace"@[0] == 't' && "debug"@[0] == 'd');
}

/// A level that ranks lower lets through whatever a higher one does.
pub proof fn law_lower_levels_log_more(a: AuditConfig, b: AuditConfig, event: AuditEvent)
    requires
        a.log_commands == b.log_commands,
        a.log_policy_decisions == b.log_policy_decisions,
        a.log_handoff_events == b.log_handoff_events,
        rank(a.log_level@) <= rank(b.log_level@),
        passes(b, event),
    ensures
        passes(a, event),
{
}

/// Without an open file nothing is logged.
pub proof fn law_closed_log_stays_empty(
    line: Option<Seq<char>>,
    logger: AuditLogger,
    entry: AuditEntry,
)
    requires
        !logger.open,
        is_logged(line, logger, entry),
    ensures
        line is None,
{
}

/// What is read from a sidecar is the raw output for which it was made.
pub proof fn law_sidecar_is_read_back(
    sidecar: Sidecar,
    dir: Seq<char>,
    session_id: Seq<char>,
    seq: nat,
    data: Seq<u8>,
    read: Seq<u8>,
)
    requires
        is_sidecar(sidecar, dir, session_id, seq, data),
        outside::zstd_decoded(sidecar.bytes@) == Some(read),
    ensures
        read == data,
{
}

/// What each level lets through: the lowest two everything, `info` (and what is no level)
/// all but calls of tools, `warn` what was killed or timed out and errors, and `error`
/// errors alone.
pub proof fn law_levels_let_through_what_is_grave_enough(config: AuditConfig, event: AuditEvent)
    requires
        config.log_commands,
        config.log_policy_decisions,
        config.log_handoff_events,
    ensures
        ({
            let level = config.log_level@;
            let passed = passes(config, event);
            let grave = event is CommandKilled || event is CommandTimedOut || event is Error;
            &&& level == "trace"@ || level == "debug"@ ==> passed
            &&& level == "warn"@ ==> (passed <==> grave)
            &&& level == "error"@ ==> (passed <==> event is Error)
            &&& level != "trace"@ && level != "debug"@ && level != "warn"@ && level != "error"@
                ==> (passed <==> !(event is ToolCall))
        }),
{
    reveal_strlit("error");
    reveal_strlit("trace");
    reveal_strlit("debug");
    reveal_strlit("warn");
    reveal_strlit("info");
    assert("error"@[0] == 'e' && "trace"@[0] == 't' && "debug"@[0] == 'd');
    assert("warn"@[0] == 'w' && "info"@[0] == 'i');
    assert("error"@.len() == 5 && "trace"@.len() == 5 && "debug"@.len() == 5);
    assert("warn"@.len() == 4 && "info"@.len() == 4);
}

/// Each switch keeps out its own events and no others.
pub proof fn law_switches_keep_out_their_events(
    config: AuditConfig,
    all: AuditConfig,
    event: AuditEvent,
)
    requires
        all.log_level == config.log_level,
        all.log_commands,
        all.log_policy_decisions,
        all.log_handoff_events,
    ensures
        ({
            let command = event is CommandStarted || event is CommandCompleted
                || event is CommandKilled || event is CommandTimedOut || event is CommandRecord;
            let policy = event is PolicyDecision;
            let handoff = event is HandoffInitiated || event is HandoffAttached
                || event is HandoffResolved;
            passes(config, event) <==> passes(all, event) && (command ==> config.log_commands) && (
            policy ==> config.log_policy_decisions) && (handoff ==> config.log_handoff_events)
        }),
{
}

/// An entry tells its moment, its session, its tool and its event, and its command where
/// it has one.
pub proof fn law_entries_tell_their_parts(entry: AuditEntry)
    ensures
        ({
            let fields = entry_fields(entry);
            &&& strmap::lookup(fields, "timestamp"@) == Some(
                outside::json_string(entry.timestamp@),
            )
            &&& strmap::lookup(fields, "session"@) == Some(outside::json_string(entry.session@))
            &&& strmap::lookup(fields, "tool"@) == Some(outside::json_string(entry.tool@))
            &&& strmap::lookup(fields, "command"@) == (match entry.command {
                Some(command) => Some(outside::json_string(command@)),
                None => None,
            })
            &&& strmap::lookup(fields, "event"@) == Some(
                outside::json_object(event_fields(entry.event)),
            )
        }),
{
    reveal_strlit("timestamp");
    reveal_strlit("session");
    reveal_strlit("tool");
    reveal_strlit("command");
    reveal_strlit("event");
    assert("timestamp"@.len() == 9 && "tool"@.len() == 4 && "event"@.len() == 5);
    assert("session"@.len() == 7 && "command"@.len() == 7);
    assert("session"@[0] == 's' && "command"@[0] == 'c');
    let fields = entry_fields(entry);
    assert(fields[0].0 == "timestamp"@ && fields[1].0 == "session"@ && fields[2].0 == "tool"@);
    strmap::law_first_pair_decides(fields, "timestamp"@, 0);
    strmap::law_first_pair_decides(fields, "session"@, 1);
    strmap::law_first_pair_decides(fields, "tool"@, 2);
    if entry.command is Some {
        assert(fields.len() == 5 && fields[3].0 == "command"@ && fields[4].0 == "event"@);
        strmap::law_first_pair_decides(fields, "command"@, 3);
        strmap::law_first_pair_decides(fields, "event"@, 4);
    } else {
        assert(fields.len() == 4 && fields[3].0 == "event"@);
        strmap::law_first_pair_decides(fields, "command"@, 4);
        strmap::law_first_pair_decides(fields, "event"@, 3);
    }
}

} // verus!
