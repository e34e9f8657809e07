//! Sessions with an interpreter that stays alive between calls: the protocol of
//! host and clients, where their files are, and what the commands tell.
use std::time::Duration;
use vstd::prelude::*;

use crate::json;
use crate::json::{json_line, push_field};
use crate::outside;
use crate::outside::{
    array_value, integer_value, join_paths, natural_value, object_value,
    string_value,
};
use crate::paths;
use crate::text;
use crate::text::{
    chars_of, concat2, concat3, dec_u64, has_suffix, len_in_bytes, padded_right, slice_string,
    trimmed,
};

verus! {

// ---------------------------------------------------------------------------
// The protocol
// ---------------------------------------------------------------------------

/// What a client asks of a host.
#[derive(Debug, Clone)]
pub enum SessionRequest {
    Send { input: String, timeout_secs: u64 },
    List,
    Close,
    Ping,
}

/// What a host answers.
#[derive(Debug, Clone)]
pub enum SessionResponse {
    /// The input was run, or the request was met.
    Done { output: String, exit_code: i32, elapsed_ms: u64 },
    Sessions { entries: Vec<SessionListEntry> },
    Error { message: String },
    Pong { alias: String, pid: u32, uptime_secs: u64 },
}

/// One session in a list.
#[derive(Debug, Clone)]
pub struct SessionListEntry {
    pub alias: String,
    pub pid: u32,
    pub uptime_secs: u64,
    pub cmd: String,
}

/// The time that input gets where a request names none, in seconds.
pub fn default_timeout() -> (r: u64)
    ensures
        r == 30,
{
    30
}

/// The fields of a request.
pub open spec fn request_fields(request: SessionRequest) -> Seq<(Seq<char>, serde_json::Value)> {
    match request {
        SessionRequest::Send { input, timeout_secs } => seq![
            ("type"@, outside::json_string("send"@)),
            ("input"@, outside::json_string(input@)),
            ("timeout_secs"@, outside::json_natural(timeout_secs)),
        ],
        SessionRequest::List => seq![("type"@, outside::json_string("list"@))],
        SessionRequest::Close => seq![("type"@, outside::json_string("close"@))],
        SessionRequest::Ping => seq![("type"@, outside::json_string("ping"@))],
    }
}

/// A session as JSON.
pub open spec fn entry_value_of(entry: SessionListEntry) -> serde_json::Value {
    outside::json_object(
        seq![
            ("alias"@, outside::json_string(entry.alias@)),
            ("pid"@, outside::json_natural(entry.pid as u64)),
            ("uptime_secs"@, outside::json_natural(entry.uptime_secs)),
            ("cmd"@, outside::json_string(entry.cmd@)),
        ],
    )
}

/// The fields of an answer.
pub open spec fn response_fields(response: SessionResponse) -> Seq<
    (Seq<char>, serde_json::Value),
> {
    match response {
        SessionResponse::Done { output, exit_code, elapsed_ms } => seq![
            ("status"@, outside::json_string("ok"@)),
            ("output"@, outside::json_string(output@)),
            ("exit_code"@, outside::json_integer(exit_code as i64)),
            ("elapsed_ms"@, outside::json_natural(elapsed_ms)),
        ],
        SessionResponse::Sessions { entries } => seq![
            ("status"@, outside::json_string("sessions"@)),
            (
                "entries"@,
                outside::json_array(
                    Seq::new(entries@.len(), |i: int| entry_value_of(entries@[i])),
                ),
            ),
        ],
        SessionResponse::Error { message } => seq![
            ("status"@, outside::json_string("error"@)),
            ("message"@, outside::json_string(message@)),
        ],
        SessionResponse::Pong { alias, pid, uptime_secs } => seq![
            ("status"@, outside::json_string("pong"@)),
            ("alias"@, outside::json_string(alias@)),
            ("pid"@, outside::json_natural(pid as u64)),
            ("uptime_secs"@, outside::json_natural(uptime_secs)),
        ],
    }
}

pub open spec fn opt_line(line: Option<String>) -> Option<Seq<char>> {
    match line {
        Some(line) => Some(line@),
        None => None,
    }
}

/// Writes a request on one line. What is read from the line is the request's
/// object.
pub fn request_line(request: &SessionRequest) -> (r: String)
    ensures
        json::is_line_of(r@, outside::json_object(request_fields(*request))),
        outside::json_parsed(text::trim(r@)) == Some(
            outside::json_object(request_fields(*request)),
        ),
{
    let mut f: Vec<(String, serde_json::Value)> = Vec::new();
    match request {
        SessionRequest::Send { input, timeout_secs } => {
            push_field(&mut f, "type", string_value("send"));
            push_field(&mut f, "input", string_value(input.as_str()));
            push_field(&mut f, "timeout_secs", natural_value(*timeout_secs));
        },
        SessionRequest::List => {
            push_field(&mut f, "type", string_value("list"));
        },
        SessionRequest::Close => {
            push_field(&mut f, "type", string_value("close"));
        },
        SessionRequest::Ping => {
            push_field(&mut f, "type", string_value("ping"));
        },
    }
    assert(outside::json_fields(f@) =~= request_fields(*request));
    let line = json_line(&object_value(f));
    proof {
        lemma_requests_are_exact(*request);
    }
    line
}

fn list_entry_value(entry: &SessionListEntry) -> (r: serde_json::Value)
    ensures
        r == entry_value_of(*entry),
{
    let mut f: Vec<(String, serde_json::Value)> = Vec::new();
    push_field(&mut f, "alias", string_value(entry.alias.as_str()));
    push_field(&mut f, "pid", natural_value(entry.pid as u64));
    push_field(&mut f, "uptime_secs", natural_value(entry.uptime_secs));
    push_field(&mut f, "cmd", string_value(entry.cmd.as_str()));
    assert(outside::json_fields(f@) =~= seq![
        ("alias"@, outside::json_string(entry.alias@)),
        ("pid"@, outside::json_natural(entry.pid as u64)),
        ("uptime_secs"@, outside::json_natural(entry.uptime_secs)),
        ("cmd"@, outside::json_string(entry.cmd@)),
    ]);
    object_value(f)
}

fn entries_value(entries: &[SessionListEntry]) -> (r: serde_json::Value)
    ensures
        r == outside::json_array(Seq::new(entries@.len(), |i: int| entry_value_of(entries@[i]))),
{
    let mut items: Vec<serde_json::Value> = Vec::new();
    let mut i: usize = 0;
    while i < entries.len()
        invariant
            i <= entries@.len(),
            items@.len() == i,
            forall|k: int|
                #![trigger items@[k]]
                0 <= k < i ==> items@[k] == entry_value_of(entries@[k]),
        decreases entries.len() - i,
    {
        items.push(list_entry_value(&entries[i]));
        i += 1;
    }
    assert(items@ =~= Seq::new(entries@.len(), |i: int| entry_value_of(entries@[i])));
    array_value(items)
}

proof fn lemma_requests_are_exact(request: SessionRequest)
    ensures
        outside::json_exact(outside::json_object(request_fields(request)), 100),
{
    let fields = request_fields(request);
    assert forall|i: int| 0 <= i < fields.len() implies outside::json_exact(
        (#[trigger] fields[i]).1,
        99,
    ) by {}
}

proof fn lemma_responses_are_exact(response: SessionResponse)
    ensures
        outside::json_exact(outside::json_object(response_fields(response)), 100),
{
    let fields = response_fields(response);
    assert forall|i: int| 0 <= i < fields.len() implies outside::json_exact(
        (#[trigger] fields[i]).1,
        99,
    ) by {
        if let SessionResponse::Sessions { entries } = response {
            if i == 1 {
                let items = Seq::new(entries@.len(), |k: int| entry_value_of(entries@[k]));
                assert forall|k: int| 0 <= k < items.len() implies outside::json_exact(
                    #[trigger] items[k],
                    98,
                ) by {
                    lemma_entries_are_exact(entries@[k]);
                }
            }
        }
    }
}

proof fn lemma_entries_are_exact(entry: SessionListEntry)
    ensures
        outside::json_exact(entry_value_of(entry), 98),
{
    let fields = seq![
        ("alias"@, outside::json_string(entry.alias@)),
        ("pid"@, outside::json_natural(entry.pid as u64)),
        ("uptime_secs"@, outside::json_natural(entry.uptime_secs)),
        ("cmd"@, outside::json_string(entry.cmd@)),
    ];
    assert forall|i: int| 0 <= i < fields.len() implies outside::json_exact(
        (#[trigger] fields[i]).1,
        97,
    ) by {}
}

/// Writes an answer on one line. What is read from the line is the answer's
/// object.
pub fn response_line(response: &SessionResponse) -> (r: String)
    ensures
        json::is_line_of(r@, outside::json_object(response_fields(*response))),
        outside::json_parsed(text::trim(r@)) == Some(
            outside::json_object(response_fields(*response)),
        ),
{
    let mut f: Vec<(String, serde_json::Value)> = Vec::new();
    match response {
        SessionResponse::Done { output, exit_code, elapsed_ms } => {
            push_field(&mut f, "status", string_value("ok"));
            push_field(&mut f, "output", string_value(output.as_str()));
            push_field(&mut f, "exit_code", integer_value(*exit_code as i64));
            push_field(&mut f, "elapsed_ms", natural_value(*elapsed_ms));
        },
        SessionResponse::Sessions { entries } => {
            push_field(&mut f, "status", string_value("sessions"));
            push_field(&mut f, "entries", entries_value(entries.as_slice()));
        },
        SessionResponse::Error { message } => {
            push_field(&mut f, "status", string_value("error"));
            push_field(&mut f, "message", string_value(message.as_str()));
        },
        SessionResponse::Pong { alias, pid, uptime_secs } => {
            push_field(&mut f, "status", string_value("pong"));
            push_field(&mut f, "alias", string_value(alias.as_str()));
            push_field(&mut f, "pid", natural_value(*pid as u64));
            push_field(&mut f, "uptime_secs", natural_value(*uptime_secs));
        },
    }
    assert(outside::json_fields(f@) =~= response_fields(*response));
    let line = json_line(&object_value(f));
    proof {
        lemma_responses_are_exact(*response);
    }
    line
}

// ---------------------------------------------------------------------------
// Files
// ---------------------------------------------------------------------------

/// The directory of the sessions; below `/tmp` without a home directory.
pub open spec fn sessions_path(home: Option<Seq<char>>) -> Seq<char> {
    let home = match home {
        Some(home) => home,
        None => "/tmp"@,
    };
    outside::joined(
        outside::joined(outside::joined(outside::joined(home, ".local"@), "share"@), "mish"@),
        "sessions"@,
    )
}

pub fn sessions_dir(home: Option<&str>) -> (r: String)
    ensures
        r@ == sessions_path(paths::opt_str(home)),
{
    let home = match home {
        Some(home) => home,
        None => "/tmp",
    };
    let local = join_paths(home, ".local");
    let share = join_paths(local.as_str(), "share");
    let mish = join_paths(share.as_str(), "mish");
    join_paths(mish.as_str(), "sessions")
}

/// A file of a session.
pub open spec fn session_path(home: Option<Seq<char>>, alias: Seq<char>, suffix: Seq<char>) -> Seq<
    char,
> {
    outside::joined(sessions_path(home), alias + suffix)
}

fn session_file(alias: &str, suffix: &str, home: Option<&str>) -> (r: String)
    ensures
        r@ == session_path(paths::opt_str(home), alias@, suffix@),
{
    let dir = sessions_dir(home);
    let name = concat2(alias, suffix);
    join_paths(dir.as_str(), name.as_str())
}

/// The socket of a session.
pub fn socket_path(alias: &str, home: Option<&str>) -> (r: String)
    ensures
        r@ == session_path(paths::opt_str(home), alias@, ".sock"@),
{
    session_file(alias, ".sock", home)
}

/// The file with the process number of a session's host.
pub fn pid_path(alias: &str, home: Option<&str>) -> (r: String)
    ensures
        r@ == session_path(paths::opt_str(home), alias@, ".pid"@),
{
    session_file(alias, ".pid", home)
}

/// The file with the command of a session.
pub fn cmd_path(alias: &str, home: Option<&str>) -> (r: String)
    ensures
        r@ == session_path(paths::opt_str(home), alias@, ".cmd"@),
{
    session_file(alias, ".cmd", home)
}

/// The session that a file is the socket of.
pub open spec fn alias_in(file_name: Seq<char>) -> Option<Seq<char>> {
    if text::ends_with(file_name, ".sock"@) && file_name.len() > 5 {
        Some(file_name.take(file_name.len() - 5))
    } else {
        None
    }
}

/// Finds the session that a file is the socket of.
pub fn alias_of(file_name: &str) -> (r: Option<String>)
    ensures
        opt_line(r) == alias_in(file_name@),
{
    if !has_suffix(file_name, ".sock") {
        return None;
    }
    let chars = chars_of(file_name);
    if chars.len() <= 5 {
        return None;
    }
    let alias = slice_string(chars.as_slice(), 0, chars.len() - 5);
    assert(file_name@.subrange(0, file_name@.len() - 5) =~= file_name@.take(
        file_name@.len() - 5,
    ));
    Some(alias)
}

/// The sessions among the files of their directory, in the order of the files.
pub open spec fn aliases_in(file_names: Seq<Seq<char>>) -> Seq<Seq<char>>
    decreases file_names.len(),
{
    if file_names.len() == 0 {
        Seq::empty()
    } else {
        let before = aliases_in(file_names.drop_last());
        match alias_in(file_names.last()) {
            Some(alias) => before.push(alias),
            None => before,
        }
    }
}

/// Finds the sessions among the files of their directory.
pub fn find_sessions(file_names: &[String]) -> (r: Vec<String>)
    ensures
        text::views(r@) == aliases_in(text::views(file_names@)),
{
    let ghost all = text::views(file_names@);
    let mut r: Vec<String> = Vec::new();
    let mut i: usize = 0;
    assert(all.take(0).len() == 0);
    assert(text::views(r@) =~= Seq::empty());
    while i < file_names.len()
        invariant
            all == text::views(file_names@),
            i <= file_names@.len(),
            text::views(r@) == aliases_in(all.take(i as int)),
        decreases file_names.len() - i,
    {
        assert(all.take(i + 1).drop_last() =~= all.take(i as int));
        assert(all.take(i + 1).last() == file_names@[i as int]@);
        if let Some(alias) = alias_of(file_names[i].as_str()) {
            let ghost before = r@;
            r.push(alias);
            assert(text::views(r@) =~= text::views(before).push(alias@));
        }
        i += 1;
    }
    assert(all.take(i as int) =~= all);
    r
}

/// The length that the path of a socket may have, in bytes.
pub const MAX_SOCKET_PATH: usize = 100;

/// Refuses a socket path that is too long.
pub fn check_socket_path(path: &str) -> (r: Result<(), String>)
    ensures
        match r {
            Ok(()) => text::byte_len(path@) <= MAX_SOCKET_PATH,
            Err(told) => text::byte_len(path@) > MAX_SOCKET_PATH && told@
                == "socket path too long: "@ + path@,
        },
{
    if len_in_bytes(path) > MAX_SOCKET_PATH {
        Err(concat2("socket path too long: ", path))
    } else {
        Ok(())
    }
}

// ---------------------------------------------------------------------------
// The host
// ---------------------------------------------------------------------------

/// A host without clients for longer than this shuts down, in seconds.
pub const DEFAULT_IDLE_TIMEOUT_SECS: u64 = 1800;

/// What the host does next.
#[derive(Debug, Clone, PartialEq, Eq)]
pub enum ServeStep {
    /// Shut down, and say so.
    Stop(String),
    /// Look for a client.
    Accept,
}

/// A host shuts down when its interpreter has ended, or when no client came for
/// longer than the idle timeout.
pub fn serve_step(alive: bool, idle: Duration, idle_timeout_secs: u64) -> (r: ServeStep)
    ensures
        if !alive {
            r matches ServeStep::Stop(told) && told@
                == "mish session host: interpreter exited, shutting down"@
        } else if outside::nanos(idle) > idle_timeout_secs * 1_000_000_000 {
            r matches ServeStep::Stop(told) && told@ == "mish session host: idle timeout ("@
                + text::dec(idle_timeout_secs as nat) + "s), shutting down"@
        } else {
            r == ServeStep::Accept
        },
{
    if !alive {
        return ServeStep::Stop(
            "mish session host: interpreter exited, shutting down".to_owned(),
        );
    }
    if idle.as_nanos() > idle_timeout_secs as u128 * 1_000_000_000 {
        let seconds = dec_u64(idle_timeout_secs);
        return ServeStep::Stop(
            concat3(
                "mish session host: idle timeout (",
                seconds.as_str(),
                "s), shutting down",
            ),
        );
    }
    ServeStep::Accept
}

/// What a host knows of itself.
#[derive(Debug, Clone)]
pub struct HostInfo {
    pub alias: String,
    pub cmd: String,
    pub pid: u32,
    pub uptime_secs: u64,
}

/// What came of running input.
#[derive(Debug, Clone)]
pub struct ExecuteResult {
    pub output: String,
    pub exit_code: i32,
    pub elapsed_ms: u64,
}

/// Whether the host goes on after a client.
#[derive(Debug, Clone, Copy, PartialEq, Eq, Structural)]
pub enum HandleResult {
    Continue,
    Shutdown,
}

/// What the host does about a request.
#[derive(Debug, Clone)]
pub enum HandleStep {
    /// Run the input, within so many seconds, and answer with what came of it.
    Execute { input: String, timeout_secs: u64 },
    /// Answer, and go on or not.
    Reply(SessionResponse, HandleResult),
    /// Go on without an answer.
    Ignore,
}

/// The host's answers to a request that needs no interpreter.
pub open spec fn is_reply(step: HandleStep, host: HostInfo, request: SessionRequest) -> bool {
    match request {
        SessionRequest::Send { input, timeout_secs } => step == (HandleStep::Execute {
            input,
            timeout_secs,
        }),
        SessionRequest::Ping => {
            &&& step matches HandleStep::Reply(
                SessionResponse::Pong { alias, pid, uptime_secs },
                HandleResult::Continue,
            )
            &&& alias@ == host.alias@
            &&& pid == host.pid
            &&& uptime_secs == host.uptime_secs
        },
        SessionRequest::List => {
            &&& step matches HandleStep::Reply(
                SessionResponse::Sessions { entries },
                HandleResult::Continue,
            )
            &&& entries@.len() == 1
            &&& entries@[0].alias@ == host.alias@
            &&& entries@[0].pid == host.pid
            &&& entries@[0].uptime_secs == host.uptime_secs
            &&& entries@[0].cmd@ == host.cmd@
        },
        SessionRequest::Close => {
            &&& step matches HandleStep::Reply(
                SessionResponse::Done { output, exit_code, elapsed_ms },
                HandleResult::Shutdown,
            )
            &&& output@ == "session closing"@
            &&& exit_code == 0
            &&& elapsed_ms == 0
        },
    }
}

/// Decides what to do about a request. Only a request to close ends the host.
pub fn handle_request(host: &HostInfo, request: SessionRequest) -> (r: HandleStep)
    ensures
        is_reply(r, *host, request),
{
    match request {
        SessionRequest::Send { input, timeout_secs } => HandleStep::Execute { input, timeout_secs },
        SessionRequest::Ping => HandleStep::Reply(
            SessionResponse::Pong {
                alias: host.alias.clone(),
                pid: host.pid,
                uptime_secs: host.uptime_secs,
            },
            HandleResult::Continue,
        ),
        SessionRequest::List => {
            let mut entries: Vec<SessionListEntry> = Vec::new();
            entries.push(
                SessionListEntry {
                    alias: host.alias.clone(),
                    pid: host.pid,
                    uptime_secs: host.uptime_secs,
                    cmd: host.cmd.clone(),
                },
            );
            HandleStep::Reply(SessionResponse::Sessions { entries }, HandleResult::Continue)
        },
        SessionRequest::Close => HandleStep::Reply(
            SessionResponse::Done {
                output: "session closing".to_owned(),
                exit_code: 0,
                elapsed_ms: 0,
            },
            HandleResult::Shutdown,
        ),
    }
}

/// What was read from a client.
#[derive(Debug, Clone)]
pub enum ClientLine {
    /// A request.
    Request(SessionRequest),
    /// A line that is no request; why.
    Malformed(String),
    /// The line could not be read.
    Unreadable,
}

/// Decides what to do about a client. A line that is no request is answered with
/// an error.
pub fn handle_client(host: &HostInfo, line: ClientLine) -> (r: HandleStep)
    ensures
        match line {
            ClientLine::Request(request) => is_reply(r, *host, request),
            ClientLine::Malformed(why) => {
                &&& r matches HandleStep::Reply(
                    SessionResponse::Error { message },
                    HandleResult::Continue,
                )
                &&& message@ == "invalid request: "@ + why@
            },
            ClientLine::Unreadable => r == HandleStep::Ignore,
        },
{
    match line {
        ClientLine::Request(request) => handle_request(host, request),
        ClientLine::Malformed(why) => HandleStep::Reply(
            SessionResponse::Error { message: concat2("invalid request: ", why.as_str()) },
            HandleResult::Continue,
        ),
        ClientLine::Unreadable => HandleStep::Ignore,
    }
}

/// The answer with what came of running input.
pub fn execution_response(executed: Result<ExecuteResult, String>) -> (r: SessionResponse)
    ensures
        r == match executed {
            Ok(result) => SessionResponse::Done {
                output: result.output,
                exit_code: result.exit_code,
                elapsed_ms: result.elapsed_ms,
            },
            Err(message) => SessionResponse::Error { message },
        },
{
    match executed {
        Ok(result) => SessionResponse::Done {
            output: result.output,
            exit_code: result.exit_code,
            elapsed_ms: result.elapsed_ms,
        },
        Err(message) => SessionResponse::Error { message },
    }
}

// ---------------------------------------------------------------------------
// Clients
// ---------------------------------------------------------------------------

/// What a client tells where no host can be reached.
pub fn connect_failure(alias: &str, why: &str) -> (r: String)
    ensures
        r@ == "session \""@ + alias@ + ("\" not running (connect failed: "@ + why@ + ")"@),
{
    let end = concat3("\" not running (connect failed: ", why, ")");
    concat3("session \"", alias, end.as_str())
}

/// The answer in the line that a host sent; an empty line means that it died.
pub fn read_reply(line: &str) -> (r: Result<String, String>)
    ensures
        match r {
            Ok(reply) => line@.len() > 0 && reply@ == text::trim(line@),
            Err(told) => line@.len() == 0 && told@ == "session host died (empty response)"@,
        },
{
    if line.is_empty() {
        Err("session host died (empty response)".to_owned())
    } else {
        Ok(trimmed(line))
    }
}

/// What a command prints, on the output and on the error output, and its exit
/// code.
#[derive(Debug, Clone, PartialEq, Eq)]
pub struct Report {
    pub out: Vec<String>,
    pub err: Vec<String>,
    pub code: i32,
}

/// A report with these lines and this code.
pub open spec fn reports(r: Report, out: Seq<Seq<char>>, err: Seq<Seq<char>>, code: int) -> bool {
    text::views(r.out@) == out && text::views(r.err@) == err && r.code == code
}

fn failure(told: &str) -> (r: Report)
    ensures
        reports(r, Seq::empty(), seq!["! "@ + told@], 1),
{
    let mut err: Vec<String> = Vec::new();
    err.push(concat2("! ", told));
    let out: Vec<String> = Vec::new();
    assert(text::views(err@) =~= seq!["! "@ + told@]);
    assert(text::views(out@) =~= Seq::empty());
    Report { out, err, code: 1 }
}

fn success(told: String, code: i32) -> (r: Report)
    ensures
        reports(r, seq![told@], Seq::empty(), code as int),
{
    let ghost line = told@;
    let mut out: Vec<String> = Vec::new();
    out.push(told);
    let err: Vec<String> = Vec::new();
    assert(text::views(out@) =~= seq![line]);
    assert(text::views(err@) =~= Seq::empty());
    Report { out, err, code }
}

fn silence(code: i32) -> (r: Report)
    ensures
        reports(r, Seq::empty(), Seq::empty(), code as int),
{
    let out: Vec<String> = Vec::new();
    let err: Vec<String> = Vec::new();
    assert(text::views(out@) =~= Seq::empty());
    assert(text::views(err@) =~= Seq::empty());
    Report { out, err, code }
}

/// What sending input tells of the answer. `shown` is the answer in words, for
/// one that was not expected.
pub fn send_report(reply: Result<SessionResponse, String>, shown: &str) -> (r: Report)
    ensures
        match reply {
            Ok(SessionResponse::Done { output, exit_code, elapsed_ms }) => reports(
                r,
                if output@.len() > 0 {
                    seq![output@]
                } else {
                    Seq::empty()
                },
                Seq::empty(),
                exit_code as int,
            ),
            Ok(SessionResponse::Error { message }) => reports(
                r,
                Seq::empty(),
                seq!["! "@ + message@],
                1,
            ),
            Ok(_) => reports(
                r,
                Seq::empty(),
                seq!["! "@ + ("unexpected response: "@ + shown@)],
                1,
            ),
            Err(e) => reports(r, Seq::empty(), seq!["! "@ + e@], 1),
        },
{
    match reply {
        Ok(SessionResponse::Done { output, exit_code, .. }) => {
            if output.as_str().is_empty() {
                silence(exit_code)
            } else {
                success(output, exit_code)
            }
        },
        Ok(SessionResponse::Error { message }) => failure(message.as_str()),
        Ok(_) => {
            let told = concat2("unexpected response: ", shown);
            failure(told.as_str())
        },
        Err(e) => failure(e.as_str()),
    }
}

/// Which session input without an alias goes to.
#[derive(Debug, Clone, PartialEq, Eq)]
pub enum SendTarget {
    /// The only session.
    One(String),
    /// There is none, or more than one: what to tell.
    Unclear(Report),
}

/// The lines that tell which sessions there are.
pub open spec fn choice_lines(aliases: Seq<Seq<char>>) -> Seq<Seq<char>> {
    seq!["! "@ + text::dec(aliases.len()) + " active sessions \u{2014} specify alias:"@]
        + Seq::new(
        aliases.len(),
        |i: int| "  mish session send "@ + aliases[i] + " \"...\""@,
    )
}

/// Chooses the session that input without an alias goes to: the only one.
pub fn choose_session(aliases: &[String]) -> (r: SendTarget)
    ensures
        if aliases@.len() == 1 {
            r matches SendTarget::One(alias) && alias@ == aliases@[0]@
        } else if aliases@.len() == 0 {
            r matches SendTarget::Unclear(report) && reports(
                report,
                Seq::empty(),
                seq!["! "@ + "no active sessions (use `mish session start` first)"@],
                1,
            )
        } else {
            r matches SendTarget::Unclear(report) && reports(
                report,
                Seq::empty(),
                choice_lines(text::views(aliases@)),
                1,
            )
        },
{
    if aliases.len() == 0 {
        return SendTarget::Unclear(
            failure("no active sessions (use `mish session start` first)"),
        );
    }
    if aliases.len() == 1 {
        return SendTarget::One(aliases[0].clone());
    }
    let ghost all = choice_lines(text::views(aliases@));
    let number = dec_u64(aliases.len() as u64);
    let mut err: Vec<String> = Vec::new();
    err.push(concat3("! ", number.as_str(), " active sessions \u{2014} specify alias:"));
    let mut i: usize = 0;
    assert(text::views(aliases@).len() == aliases@.len());
    assert(text::views(err@) =~= all.take(1));
    while i < aliases.len()
        invariant
            i <= aliases@.len(),
            all == choice_lines(text::views(aliases@)),
            text::views(err@) =~= all.take(i + 1),
        decreases aliases.len() - i,
    {
        let line = concat3("  mish session send ", aliases[i].as_str(), " \"...\"");
        let ghost before = err@;
        err.push(line);
        assert(text::views(err@) =~= text::views(before).push(line@));
        i += 1;
    }
    assert(all.take(i + 1) =~= all);
    let out: Vec<String> = Vec::new();
    assert(text::views(out@) =~= Seq::empty());
    SendTarget::Unclear(Report { out, err, code: 1 })
}

/// How long a session has been running, in words.
pub open spec fn uptime_text(secs: nat) -> Seq<char> {
    if secs < 60 {
        text::dec(secs) + "s"@
    } else if secs < 3600 {
        text::dec(secs / 60) + "m"@ + (text::dec(secs % 60) + "s"@)
    } else {
        text::dec(secs / 3600) + "h"@ + (text::dec(secs % 3600 / 60) + "m"@)
    }
}

/// Tells how long a session has been running.
pub fn format_uptime(secs: u64) -> (r: String)
    ensures
        r@ == uptime_text(secs as nat),
{
    if secs < 60 {
        let s = dec_u64(secs);
        concat2(s.as_str(), "s")
    } else if secs < 3600 {
        let m = dec_u64(secs / 60);
        let s = dec_u64(secs % 60);
        let end = concat2(s.as_str(), "s");
        concat3(m.as_str(), "m", end.as_str())
    } else {
        let h = dec_u64(secs / 3600);
        let m = dec_u64(secs % 3600 / 60);
        let end = concat2(m.as_str(), "m");
        concat3(h.as_str(), "h", end.as_str())
    }
}

/// A line of the table of sessions.
pub open spec fn table_line(
    alias: Seq<char>,
    pid: Seq<char>,
    uptime: Seq<char>,
    cmd: Seq<char>,
) -> Seq<char> {
    text::pad_right(alias, 12) + " "@ + (text::pad_right(pid, 8) + " "@ + (text::pad_right(
        uptime,
        10,
    ) + " "@ + cmd))
}

fn table_row(alias: &str, pid: &str, uptime: &str, cmd: &str) -> (r: String)
    ensures
        r@ == table_line(alias@, pid@, uptime@, cmd@),
{
    let uptime = padded_right(uptime, 10);
    let end = concat3(uptime.as_str(), " ", cmd);
    let pid = padded_right(pid, 8);
    let rest = concat3(pid.as_str(), " ", end.as_str());
    let alias = padded_right(alias, 12);
    concat3(alias.as_str(), " ", rest.as_str())
}

/// The line above the table of sessions.
pub fn list_header() -> (r: String)
    ensures
        r@ == table_line("ALIAS"@, "PID"@, "UPTIME"@, "CMD"@),
{
    table_row("ALIAS", "PID", "UPTIME", "CMD")
}

/// The line of a session in the table, from what its host answered to a ping and
/// the text of its command file; `None` where it gave another answer, and the
/// session's files are stale.
pub fn list_row(alias: &str, reply: &Result<SessionResponse, String>, cmd: &str) -> (r: Option<
    String,
>)
    ensures
        opt_line(r) == match *reply {
            Ok(SessionResponse::Pong { alias: _, pid, uptime_secs }) => Some(
                table_line(
                    alias@,
                    text::dec(pid as nat),
                    uptime_text(uptime_secs as nat),
                    text::trim(cmd@),
                ),
            ),
            _ => None,
        },
{
    match reply {
        Ok(SessionResponse::Pong { pid, uptime_secs, .. }) => {
            let number = dec_u64(*pid as u64);
            let uptime = format_uptime(*uptime_secs);
            let cmd = trimmed(cmd);
            Some(table_row(alias, number.as_str(), uptime.as_str(), cmd.as_str()))
        },
        _ => None,
    }
}

/// What closing a session tells of the answer.
pub fn close_report(alias: &str, reply: Result<SessionResponse, String>) -> (r: Report)
    ensures
        match reply {
            Ok(SessionResponse::Done { .. }) => reports(
                r,
                seq!["+ session \""@ + alias@ + "\" closed"@],
                Seq::empty(),
                0,
            ),
            Ok(SessionResponse::Error { message }) => reports(
                r,
                Seq::empty(),
                seq!["! "@ + message@],
                1,
            ),
            Ok(_) => reports(r, Seq::empty(), Seq::empty(), 1),
            Err(e) => reports(r, Seq::empty(), seq!["! "@ + e@], 1),
        },
{
    match reply {
        Ok(SessionResponse::Done { .. }) => success(
            concat3("+ session \"", alias, "\" closed"),
            0,
        ),
        Ok(SessionResponse::Error { message }) => failure(message.as_str()),
        Ok(_) => silence(1),
        Err(e) => failure(e.as_str()),
    }
}

/// How long closing waits for the socket to go, in nanoseconds.
pub const CLOSE_WAIT_NANOS: u128 = 2_000_000_000;

/// Whether closing goes on waiting for the socket to go.
pub fn keep_waiting(socket_exists: bool, waited: Duration) -> (r: bool)
    ensures
        r == (socket_exists && outside::nanos(waited) < CLOSE_WAIT_NANOS),
{
    socket_exists && waited.as_nanos() < CLOSE_WAIT_NANOS
}

/// What starting a session does first.
#[derive(Debug, Clone)]
pub enum StartStep {
    /// It runs already.
    Running(Report),
    /// Start a host, after removing the stale files of an earlier one or not.
    Start { clean: bool },
}

/// Looks whether the session runs: its socket exists and its host answers a ping.
pub fn start_step(alias: &str, socket_exists: bool, reply: &Result<SessionResponse, String>) -> (r:
    StartStep)
    ensures
        match *reply {
            Ok(SessionResponse::Pong { alias: _, pid, uptime_secs: _ }) if socket_exists => {
                r matches StartStep::Running(report) && reports(
                    report,
                    seq![
                        "+ session \""@ + alias@ + ("\" already running (pid "@ + text::dec(
                            pid as nat,
                        ) + ")"@),
                    ],
                    Seq::empty(),
                    0,
                )
            },
            _ => r == (StartStep::Start { clean: socket_exists }),
        },
{
    if socket_exists {
        if let Ok(SessionResponse::Pong { pid, .. }) = reply {
            let number = dec_u64(*pid as u64);
            let end = concat3("\" already running (pid ", number.as_str(), ")");
            return StartStep::Running(
                success(concat3("+ session \"", alias, end.as_str()), 0),
            );
        }
    }
    StartStep::Start { clean: socket_exists }
}

/// How long starting waits for the host, in nanoseconds.
pub const START_WAIT_NANOS: u128 = 5_000_000_000;

/// What waiting for a host that was started tells; `None` goes on waiting. The
/// answer to a ping counts where the socket exists.
pub fn started_step(
    alias: &str,
    waited: Duration,
    socket_exists: bool,
    reply: &Result<SessionResponse, String>,
) -> (r: Option<Report>)
    ensures
        if outside::nanos(waited) > START_WAIT_NANOS {
            r matches Some(report) && reports(
                report,
                Seq::empty(),
                seq!["! "@ + "timeout waiting for session host to start"@],
                1,
            )
        } else {
            match *reply {
                Ok(SessionResponse::Pong { alias: _, pid, uptime_secs: _ }) if socket_exists => {
                    r matches Some(report) && reports(
                        report,
                        seq![
                            "+ session \""@ + alias@ + ("\" started (pid "@ + text::dec(
                                pid as nat,
                            ) + ")"@),
                        ],
                        Seq::empty(),
                        0,
                    )
                },
                _ => r is None,
            }
        },
{
    if waited.as_nanos() > START_WAIT_NANOS {
        return Some(failure("timeout waiting for session host to start"));
    }
    if socket_exists {
        if let Ok(SessionResponse::Pong { pid, .. }) = reply {
            let number = dec_u64(*pid as u64);
            let end = concat3("\" started (pid ", number.as_str(), ")");
            return Some(success(concat3("+ session \"", alias, end.as_str()), 0));
        }
    }
    None
}

// ---------------------------------------------------------------------------
// Laws
// ---------------------------------------------------------------------------

/// Only a request to close ends a host.
pub proof fn law_only_close_ends_a_host(step: HandleStep, host: HostInfo, request: SessionRequest)
    requires
        is_reply(step, host, request),
    ensures
        (step matches HandleStep::Reply(_, HandleResult::Shutdown)) <==> request is Close,
{
}

/// The socket file of an alias is found again as that alias.
pub proof fn law_sockets_are_found_again(alias: Seq<char>)
    requires
        alias.len() > 0,
    ensures
        alias_in(alias + ".sock"@) == Some(alias),
{
    reveal_strlit(".sock");
    let name = alias + ".sock"@;
    assert(name.skip(name.len() - 5) =~= ".sock"@);
    assert(name.take(name.len() - 5) =~= alias);
}

/// Every session has one socket, named after it, and no other file is the socket of any.
pub proof fn law_only_sockets_are_sessions(file_names: Seq<Seq<char>>, name: Seq<char>)
    ensures
        alias_in(name) is Some ==> name == alias_in(name)->0 + seq!['.', 's', 'o', 'c', 'k']
            && alias_in(name)->0.len() > 0,
        aliases_in(file_names) == file_names.filter(
            |file: Seq<char>| alias_in(file) is Some,
        ).map_values(|file: Seq<char>| file.take(file.len() - 5)),
    decreases file_names.len(),
{
    reveal(Seq::filter);
    reveal_strlit(".sock");
    assert(".sock"@ =~= seq!['.', 's', 'o', 'c', 'k']);
    if alias_in(name) is Some {
        assert(name =~= name.take(name.len() - 5) + name.skip(name.len() - 5));
    }
    let socket = |file: Seq<char>| alias_in(file) is Some;
    let alias = |file: Seq<char>| file.take(file.len() - 5);
    if file_names.len() > 0 {
        law_only_sockets_are_sessions(file_names.drop_last(), name);
        let before = file_names.drop_last().filter(socket);
        let last = file_names.last();
        if socket(last) {
            assert(before.push(last).map_values(alias) =~= before.map_values(alias).push(
                alias(last),
            ));
        }
    }
    assert(aliases_in(file_names) =~= file_names.filter(socket).map_values(alias));
}

/// A time is told in its two largest units, hours and minutes or minutes and seconds,
/// and below a minute in seconds.
pub proof fn law_uptimes_are_told_in_two_units(h: nat, m: nat, s: nat)
    requires
        m < 60,
        s < 60,
    ensures
        h > 0 ==> uptime_text(3600 * h + 60 * m + s) == text::dec(h) + seq!['h'] + text::dec(m)
            + seq!['m'],
        h == 0 && m > 0 ==> uptime_text(3600 * h + 60 * m + s) == text::dec(m) + seq!['m']
            + text::dec(s) + seq!['s'],
        h == 0 && m == 0 ==> uptime_text(3600 * h + 60 * m + s) == text::dec(s) + seq!['s'],
{
    reveal_strlit("h");
    reveal_strlit("m");
    reveal_strlit("s");
    assert("h"@ =~= seq!['h']);
    assert("m"@ =~= seq!['m']);
    assert("s"@ =~= seq!['s']);
    let secs = 3600 * h + 60 * m + s;
    assert(secs / 3600 == h);
    assert(secs % 3600 == 60 * m + s);
    assert(secs % 3600 / 60 == m);
    if h == 0 {
        assert(secs / 60 == m);
        assert(secs % 60 == s);
    }
    if h > 0 {
        assert(uptime_text(secs) =~= text::dec(h) + seq!['h'] + text::dec(m) + seq!['m']);
    } else if m > 0 {
        assert(uptime_text(secs) =~= text::dec(m) + seq!['m'] + text::dec(s) + seq!['s']);
    }
}

/// Input without an alias goes to the only session; where there is none or more than
/// one, nothing is printed but what is wrong, and the code tells a failure.
pub proof fn law_input_goes_to_the_only_session(aliases: &[String], r: SendTarget)
    requires
        call_ensures(choose_session, (aliases,), r),
    ensures
        r is One <==> aliases@.len() == 1,
        r matches SendTarget::One(alias) ==> alias@ == aliases@[0]@,
        r matches SendTarget::Unclear(report) ==> report.code == 1 && report.out@.len() == 0
            && report.err@.len() == (if aliases@.len() == 0 {
            1
        } else {
            aliases@.len() + 1
        }),
{
    if r is Unclear {
        let report = r->Unclear_0;
        assert(text::views(report.out@).len() == report.out@.len());
        assert(text::views(report.err@).len() == report.err@.len());
        assert(text::views(aliases@).len() == aliases@.len());
    }
}

/// What was sent ends with the code of what ran, and its output is printed unless there
/// is none; every other answer is a failure that is told on the error output.
pub proof fn law_sent_input_ends_with_its_code(
    reply: Result<SessionResponse, String>,
    shown: &str,
    r: Report,
)
    requires
        call_ensures(send_report, (reply, shown), r),
    ensures
        reply matches Ok(SessionResponse::Done { output, exit_code, elapsed_ms }) ==> r.code
            == exit_code && r.err@.len() == 0 && (output@.len() == 0 ==> r.out@.len() == 0) && (
        output@.len() > 0 ==> r.out@.len() == 1 && r.out@[0]@ == output@),
        !(reply matches Ok(SessionResponse::Done { .. })) ==> r.code == 1 && r.out@.len() == 0
            && r.err@.len() == 1,
        reply matches Ok(SessionResponse::Error { message }) ==> r.err@[0]@ == seq!['!', ' ']
            + message@,
        reply matches Err(message) ==> r.err@[0]@ == seq!['!', ' '] + message@,
{
    reveal_strlit("! ");
    assert("! "@ =~= seq!['!', ' ']);
    assert(text::views(r.out@).len() == r.out@.len());
    assert(text::views(r.err@).len() == r.err@.len());
    if r.out@.len() == 1 {
        assert(text::views(r.out@)[0] == r.out@[0]@);
    }
    if r.err@.len() == 1 {
        assert(text::views(r.err@)[0] == r.err@[0]@);
    }
}

/// A host goes on while its interpreter lives and the last client came within the idle
/// timeout.
pub proof fn law_idle_hosts_stop(alive: bool, idle: Duration, timeout: u64, r: ServeStep)
    requires
        call_ensures(serve_step, (alive, idle, timeout), r),
    ensures
        r is Accept <==> alive && outside::nanos(idle) <= timeout * 1_000_000_000,
{
}

/// Closing waits two seconds at most, and not without a socket.
pub proof fn law_closing_waits_two_seconds(socket_exists: bool, waited: Duration, r: bool)
    requires
        call_ensures(keep_waiting, (socket_exists, waited), r),
    ensures
        r <==> socket_exists && outside::nanos(waited) < 2_000_000_000,
{
}

/// A session runs already where its socket exists and its host answers a ping; else a
/// host is started, and a socket without a host is removed first.
pub proof fn law_stale_sockets_are_removed(
    alias: &str,
    socket_exists: bool,
    reply: &Result<SessionResponse, String>,
    r: StartStep,
)
    requires
        call_ensures(start_step, (alias, socket_exists, reply), r),
    ensures
        r is Running <==> socket_exists && (*reply matches Ok(SessionResponse::Pong { .. })),
        !(r is Running) ==> r == (StartStep::Start { clean: socket_exists }),
        r matches StartStep::Running(report) ==> report.code == 0 && report.err@.len() == 0,
{
    if r is Running {
        let report = r->Running_0;
        assert(text::views(report.err@).len() == report.err@.len());
    }
}

/// A host that was started is waited for until it answers, five seconds at most.
pub proof fn law_starting_waits_five_seconds(
    alias: &str,
    waited: Duration,
    socket_exists: bool,
    reply: &Result<SessionResponse, String>,
    r: Option<Report>,
)
    requires
        call_ensures(started_step, (alias, waited, socket_exists, reply), r),
    ensures
        ({
            let late = outside::nanos(waited) > 5_000_000_000;
            let answered = socket_exists && (*reply matches Ok(SessionResponse::Pong { .. }));
            &&& r is None <==> !late && !answered
            &&& late ==> r->0.code == 1
            &&& !late && answered ==> r->0.code == 0
        }),
{
}

/// A socket path may take a hundred bytes and no more.
pub proof fn law_socket_paths_are_short(path: &str, r: Result<(), String>)
    requires
        call_ensures(check_socket_path, (path,), r),
    ensures
        r is Ok <==> vstd::utf8::encode_utf8(path@).len() <= 100,
{
}

} // verus!
