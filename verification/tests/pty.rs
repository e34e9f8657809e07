//! Decisions about a child process on a pseudo-terminal.
use mish::pty::{
    check_command, read_after_poll, read_count, reap_step, terminal_size, wait_step, Drain,
    DrainStep, ExitStatus, Polled, PtyError, ReadEnd, ReapStep, Reaping, WaitStep, Waited,
};

#[test]
fn test_empty_command() {
    let result = check_command(&[]);
    assert!(result.is_err());
    assert_eq!(result.unwrap_err().message(), "invalid command: empty command");
}

#[test]
fn programs_without_nul_are_accepted() {
    assert!(check_command(&["ls".to_string(), "-l".to_string()]).is_ok());
    let told = check_command(&["l\0s".to_string()]).unwrap_err().message();
    assert_eq!(told, "invalid command: l\0s");
}

#[test]
fn test_nonzero_exit() {
    match wait_step(Waited::Exited(42)) {
        WaitStep::Done(status) => {
            assert!(!status.success());
            assert_eq!(status.code, Some(42));
            assert_eq!(status.signal, None);
        }
        other => panic!("expected an end, got {other:?}"),
    }
}

#[test]
fn ends_of_children() {
    let killed = ExitStatus { code: None, signal: Some(15) };
    assert_eq!(wait_step(Waited::Signaled(15)), WaitStep::Done(killed));
    assert!(!killed.success());
    assert_eq!(wait_step(Waited::Alive), WaitStep::LookAgain);
    let reaped = ExitStatus { code: Some(0), signal: None };
    assert_eq!(wait_step(Waited::NoChild), WaitStep::Done(reaped));
    assert!(reaped.success());
    assert_eq!(wait_step(Waited::Failed), WaitStep::Fail);
}

#[test]
fn reaping_asks_before_it_kills() {
    assert_eq!(reap_step(Reaping::Untouched, false), ReapStep::Done);
    assert_eq!(reap_step(Reaping::Untouched, true), ReapStep::Ask);
    assert_eq!(reap_step(Reaping::Asked, true), ReapStep::Kill);
    assert_eq!(reap_step(Reaping::Asked, false), ReapStep::Done);
}

#[test]
fn single_reads() {
    assert_eq!(read_after_poll(Polled::Ready), Some(true));
    assert_eq!(read_after_poll(Polled::Nothing), Some(false));
    assert_eq!(read_after_poll(Polled::Interrupted), Some(false));
    assert_eq!(read_after_poll(Polled::Failed), None);
    assert_eq!(read_count(ReadEnd::Bytes(5)), Some(5));
    assert_eq!(read_count(ReadEnd::WouldBlock), Some(0));
    assert_eq!(read_count(ReadEnd::Closed), Some(0));
    assert_eq!(read_count(ReadEnd::Failed), None);
}

#[test]
fn draining_reads_until_nothing_is_left() {
    let (mut drain, first) = Drain::start();
    assert_eq!(first, DrainStep::Poll(50));
    assert_eq!(drain.after_poll(Polled::Interrupted), DrainStep::Poll(0));
    assert_eq!(drain.after_poll(Polled::Ready), DrainStep::Read);
    assert_eq!(drain.after_read(ReadEnd::Bytes(3), b"abcdef"), DrainStep::Poll(0));
    assert_eq!(drain.after_read(ReadEnd::Bytes(2), b"xyz"), DrainStep::Poll(0));
    assert_eq!(drain.after_read(ReadEnd::Closed, b"zzz"), DrainStep::Done);
    assert_eq!(drain.after_poll(Polled::Nothing), DrainStep::Done);
    assert_eq!(drain.after_read(ReadEnd::Bytes(0), b""), DrainStep::Done);
    assert_eq!(drain.after_read(ReadEnd::Failed, b""), DrainStep::Fail);
    assert_eq!(drain.after_poll(Polled::Failed), DrainStep::Fail);
    assert_eq!(drain.bytes, b"abcxy");
}

#[test]
fn sizes_of_terminals() {
    assert_eq!(terminal_size(Some((50, 132)), Some((1, 1))), (50, 132));
    assert_eq!(terminal_size(None, Some((30, 100))), (30, 100));
    assert_eq!(terminal_size(None, None), (24, 80));
    assert_eq!(terminal_size(Some((0, 0)), None), (24, 80));
    assert_eq!(terminal_size(Some((0, 90)), None), (24, 90));
}

#[test]
fn messages_of_pty_errors() {
    assert_eq!(PtyError::ChildExecFailed.message(), "child exec failed");
    let errno = nix::errno::Errno::ENOENT;
    assert_eq!(PtyError::Nix(errno).message(), format!("PTY syscall error: {errno}"));
    let io = std::io::Error::new(std::io::ErrorKind::Other, "bad");
    assert_eq!(PtyError::Io(io).message(), "I/O error: bad");
}
