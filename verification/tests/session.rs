//! Sessions with an interpreter.
use std::time::Duration;

use mish::session::{
    alias_of, check_socket_path, choose_session, close_report, cmd_path, connect_failure,
    default_timeout, execution_response, find_sessions, format_uptime, handle_client, handle_request,
    keep_waiting, list_header, list_row, pid_path, read_reply, request_line,
    response_line, send_report, serve_step, sessions_dir, socket_path, start_step, started_step,
    ClientLine, ExecuteResult, HandleResult, HandleStep, HostInfo, SendTarget, ServeStep, SessionListEntry,
    SessionRequest, SessionResponse, StartStep,
};
use serde_json::Value;

const HOME: Option<&str> = Some("/home/user");

/// Reads a request back from its line.
fn request_back(request: &SessionRequest) -> SessionRequest {
    let line = request_line(request);
    assert!(line.ends_with('\n'));
    read_request(line.trim())
}

fn read_request(text: &str) -> SessionRequest {
    let value: Value = serde_json::from_str(text).unwrap();
    match value["type"].as_str().unwrap() {
        "send" => SessionRequest::Send {
            input: value["input"].as_str().unwrap().to_string(),
            timeout_secs: value["timeout_secs"].as_u64().unwrap_or(default_timeout()),
        },
        "list" => SessionRequest::List,
        "close" => SessionRequest::Close,
        "ping" => SessionRequest::Ping,
        other => panic!("unknown request {other}"),
    }
}

/// An answer as JSON.
fn response_value(response: &SessionResponse) -> Value {
    let line = response_line(response);
    assert_eq!(line.matches('\n').count(), 1);
    serde_json::from_str(&line).unwrap()
}

fn pong(pid: u32, uptime_secs: u64) -> Result<SessionResponse, String> {
    Ok(SessionResponse::Pong { alias: "py".into(), pid, uptime_secs })
}

fn done(output: &str, exit_code: i32) -> Result<SessionResponse, String> {
    Ok(SessionResponse::Done { output: output.into(), exit_code, elapsed_ms: 1 })
}

fn error(message: &str) -> Result<SessionResponse, String> {
    Ok(SessionResponse::Error { message: message.into() })
}

#[test]
fn test_protocol_serde_roundtrip_send() {
    let req = SessionRequest::Send {
        input: "import ast".into(),
        timeout_secs: 30,
    };
    match request_back(&req) {
        SessionRequest::Send { input, timeout_secs } => {
            assert_eq!(input, "import ast");
            assert_eq!(timeout_secs, 30);
        }
        _ => panic!("wrong variant"),
    }
}

#[test]
fn test_protocol_serde_roundtrip_ping() {
    assert!(matches!(request_back(&SessionRequest::Ping), SessionRequest::Ping));
}

#[test]
fn test_protocol_serde_roundtrip_close() {
    assert!(matches!(request_back(&SessionRequest::Close), SessionRequest::Close));
}

#[test]
fn test_protocol_serde_roundtrip_list() {
    assert!(matches!(request_back(&SessionRequest::List), SessionRequest::List));
}

#[test]
fn test_response_serde_ok() {
    let resp = SessionResponse::Done {
        output: "hello".into(),
        exit_code: 0,
        elapsed_ms: 42,
    };
    let parsed = response_value(&resp);
    assert_eq!(parsed["status"], "ok");
    assert_eq!(parsed["output"], "hello");
    assert_eq!(parsed["exit_code"], 0);
    assert_eq!(parsed["elapsed_ms"], 42);
}

#[test]
fn test_response_serde_pong() {
    let resp = SessionResponse::Pong {
        alias: "py".into(),
        pid: 1234,
        uptime_secs: 60,
    };
    let parsed = response_value(&resp);
    assert_eq!(parsed["status"], "pong");
    assert_eq!(parsed["alias"], "py");
    assert_eq!(parsed["pid"], 1234);
    assert_eq!(parsed["uptime_secs"], 60);
}

#[test]
fn test_response_serde_error() {
    let resp = SessionResponse::Error {
        message: "boom".into(),
    };
    let json = response_line(&resp);
    assert!(json.contains("boom"));
    assert_eq!(json, "{\"status\":\"error\",\"message\":\"boom\"}\n");
}

#[test]
fn test_response_serde_sessions() {
    let resp = SessionResponse::Sessions {
        entries: vec![SessionListEntry {
            alias: "py".into(),
            pid: 999,
            uptime_secs: 120,
            cmd: "python3".into(),
        }],
    };
    let parsed = response_value(&resp);
    let entries = parsed["entries"].as_array().unwrap();
    assert_eq!(entries.len(), 1);
    assert_eq!(entries[0]["alias"], "py");
    assert_eq!(entries[0]["cmd"], "python3");
}

#[test]
fn test_sessions_dir_path() {
    let dir = sessions_dir(HOME);
    assert!(dir.contains("mish/sessions"));
    assert_eq!(dir, "/home/user/.local/share/mish/sessions");
    assert_eq!(sessions_dir(None), "/tmp/.local/share/mish/sessions");
}

#[test]
fn test_socket_path_format() {
    let p = socket_path("py", HOME);
    assert!(p.ends_with("py.sock"));
    assert_eq!(p, "/home/user/.local/share/mish/sessions/py.sock");
}

#[test]
fn test_pid_path_format() {
    let p = pid_path("py", HOME);
    assert!(p.ends_with("py.pid"));
    assert!(cmd_path("py", HOME).ends_with("sessions/py.cmd"));
}

#[test]
fn test_format_uptime() {
    assert_eq!(format_uptime(5), "5s");
    assert_eq!(format_uptime(65), "1m5s");
    assert_eq!(format_uptime(3661), "1h1m");
}

#[test]
fn test_default_timeout_value() {
    let json = r#"{"type":"send","input":"x"}"#;
    match read_request(json) {
        SessionRequest::Send { timeout_secs, .. } => assert_eq!(timeout_secs, 30),
        _ => panic!("wrong variant"),
    }
}

#[test]
fn sockets_tell_their_sessions() {
    assert_eq!(alias_of("py.sock"), Some("py".to_string()));
    assert_eq!(alias_of("a.b.sock"), Some("a.b".to_string()));
    assert_eq!(alias_of(".sock"), None);
    assert_eq!(alias_of("py.pid"), None);
    let files = ["py.sock", "py.pid", "node.sock"].map(String::from);
    assert_eq!(find_sessions(&files), vec!["py", "node"]);
}

#[test]
fn long_socket_paths_are_refused() {
    assert!(check_socket_path(&"x".repeat(100)).is_ok());
    let long = "x".repeat(101);
    assert_eq!(check_socket_path(&long).unwrap_err(), format!("socket path too long: {long}"));
    // bytes count, not characters
    assert!(check_socket_path(&"\u{e9}".repeat(51)).is_err());
}

#[test]
fn hosts_stop_when_idle_or_alone() {
    let minute = Duration::from_secs(60);
    assert_eq!(serve_step(true, minute, 1800), ServeStep::Accept);
    assert_eq!(serve_step(true, Duration::from_secs(1800), 1800), ServeStep::Accept);
    assert_eq!(
        serve_step(true, Duration::from_millis(1_800_001), 1800),
        ServeStep::Stop("mish session host: idle timeout (1800s), shutting down".into())
    );
    assert_eq!(
        serve_step(false, minute, 1800),
        ServeStep::Stop("mish session host: interpreter exited, shutting down".into())
    );
}

#[test]
fn hosts_answer_requests() {
    let host =
        HostInfo { alias: "py".into(), cmd: "python3".into(), pid: 7, uptime_secs: 61 };
    match handle_request(&host, SessionRequest::Ping) {
        HandleStep::Reply(SessionResponse::Pong { alias, pid, uptime_secs }, next) => {
            assert_eq!((alias.as_str(), pid, uptime_secs), ("py", 7, 61));
            assert_eq!(next, HandleResult::Continue);
        }
        other => panic!("expected a pong, got {other:?}"),
    }
    match handle_request(&host, SessionRequest::List) {
        HandleStep::Reply(SessionResponse::Sessions { entries }, HandleResult::Continue) => {
            assert_eq!(entries.len(), 1);
            assert_eq!(entries[0].cmd, "python3");
        }
        other => panic!("expected a list, got {other:?}"),
    }
    match handle_request(&host, SessionRequest::Close) {
        HandleStep::Reply(SessionResponse::Done { output, exit_code, .. }, next) => {
            assert_eq!((output.as_str(), exit_code), ("session closing", 0));
            assert_eq!(next, HandleResult::Shutdown);
        }
        other => panic!("expected an end, got {other:?}"),
    }
    let send = SessionRequest::Send { input: "1+1".into(), timeout_secs: 9 };
    match handle_request(&host, send) {
        HandleStep::Execute { input, timeout_secs } => {
            assert_eq!((input.as_str(), timeout_secs), ("1+1", 9));
        }
        other => panic!("expected input to run, got {other:?}"),
    }
}

#[test]
fn hosts_answer_with_what_came_of_input() {
    let ran = ExecuteResult { output: "2".into(), exit_code: 0, elapsed_ms: 3 };
    assert!(matches!(
        execution_response(Ok(ran)),
        SessionResponse::Done { exit_code: 0, elapsed_ms: 3, .. }
    ));
    match execution_response(Err("timed out".into())) {
        SessionResponse::Error { message } => assert_eq!(message, "timed out"),
        other => panic!("expected an error, got {other:?}"),
    }
}

#[test]
fn clients_tell_what_went_wrong() {
    assert_eq!(
        connect_failure("py", "refused"),
        "session \"py\" not running (connect failed: refused)"
    );
    assert_eq!(read_reply("").unwrap_err(), "session host died (empty response)");
    assert_eq!(read_reply(" {} \n").unwrap(), "{}");
}

#[test]
fn sending_reports_the_answer() {
    let report = send_report(done("2", 5), "");
    assert_eq!((report.out, report.code), (vec!["2".to_string()], 5));
    let report = send_report(done("", 0), "");
    assert!(report.out.is_empty() && report.err.is_empty());
    let report = send_report(error("boom"), "");
    assert_eq!((report.err, report.code), (vec!["! boom".to_string()], 1));
    let report = send_report(pong(1, 1), "Pong");
    assert_eq!((report.err, report.code), (vec!["! unexpected response: Pong".to_string()], 1));
    let report = send_report(Err("gone".into()), "");
    assert_eq!((report.err, report.code), (vec!["! gone".to_string()], 1));
}

#[test]
fn input_goes_to_the_only_session() {
    assert_eq!(choose_session(&["py".to_string()]), SendTarget::One("py".into()));
    match choose_session(&[]) {
        SendTarget::Unclear(report) => assert_eq!(
            report.err,
            vec!["! no active sessions (use `mish session start` first)"]
        ),
        other => panic!("expected none, got {other:?}"),
    }
    match choose_session(&["py".to_string(), "js".to_string()]) {
        SendTarget::Unclear(report) => {
            assert_eq!(
                report.err,
                vec![
                    "! 2 active sessions \u{2014} specify alias:",
                    "  mish session send py \"...\"",
                    "  mish session send js \"...\"",
                ]
            );
            assert_eq!(report.code, 1);
        }
        other => panic!("expected more, got {other:?}"),
    }
}

#[test]
fn the_table_of_sessions() {
    assert_eq!(list_header(), "ALIAS        PID      UPTIME     CMD");
    assert_eq!(
        list_row("py", &pong(1234, 65), " python3\n"),
        Some("py           1234     1m5s       python3".to_string())
    );
    assert_eq!(list_row("py", &error("x"), "python3"), None);
    assert_eq!(list_row("py", &Err("x".into()), "python3"), None);
}

#[test]
fn closing_reports_the_answer() {
    let report = close_report("py", done("", 0));
    assert_eq!((report.out, report.code), (vec!["+ session \"py\" closed".to_string()], 0));
    let report = close_report("py", error("boom"));
    assert_eq!((report.err, report.code), (vec!["! boom".to_string()], 1));
    let report = close_report("py", pong(1, 1));
    assert!(report.out.is_empty() && report.err.is_empty() && report.code == 1);
    let report = close_report("py", Err("gone".into()));
    assert_eq!((report.err, report.code), (vec!["! gone".to_string()], 1));
    assert!(keep_waiting(true, Duration::from_millis(1999)));
    assert!(!keep_waiting(true, Duration::from_secs(2)));
    assert!(!keep_waiting(false, Duration::ZERO));
}

#[test]
fn starting_looks_for_a_host_first() {
    match start_step("py", true, &pong(42, 1)) {
        StartStep::Running(report) => {
            assert_eq!(report.out, vec!["+ session \"py\" already running (pid 42)"]);
            assert_eq!(report.code, 0);
        }
        other => panic!("expected a running host, got {other:?}"),
    }
    assert!(matches!(start_step("py", true, &error("x")), StartStep::Start { clean: true }));
    assert!(matches!(start_step("py", false, &pong(42, 1)), StartStep::Start { clean: false }));
}

#[test]
fn starting_waits_for_the_host() {
    let soon = Duration::from_secs(1);
    let report = started_step("py", soon, true, &pong(42, 1)).unwrap();
    assert_eq!((report.out, report.code), (vec!["+ session \"py\" started (pid 42)".to_string()], 0));
    assert_eq!(started_step("py", soon, false, &pong(42, 1)), None);
    assert_eq!(started_step("py", soon, true, &Err("no".into())), None);
    let report = started_step("py", Duration::from_millis(5001), true, &pong(42, 1)).unwrap();
    assert_eq!(report.err, vec!["! timeout waiting for session host to start"]);
    assert_eq!(report.code, 1);
}

#[test]
fn lines_that_are_no_requests_are_answered() {
    let host = HostInfo { alias: "py".into(), cmd: "python3".into(), pid: 7, uptime_secs: 1 };
    match handle_client(&host, ClientLine::Malformed("no json".into())) {
        HandleStep::Reply(SessionResponse::Error { message }, HandleResult::Continue) => {
            assert_eq!(message, "invalid request: no json");
        }
        other => panic!("expected an error, got {other:?}"),
    }
    assert!(matches!(handle_client(&host, ClientLine::Unreadable), HandleStep::Ignore));
    assert!(matches!(
        handle_client(&host, ClientLine::Request(SessionRequest::Close)),
        HandleStep::Reply(SessionResponse::Done { .. }, HandleResult::Shutdown)
    ));
}
