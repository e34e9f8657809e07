//! What is decided about a child process on a pseudo-terminal: how its end is
//! read, how it is drained and reaped, and how large its terminal is.
use vstd::prelude::*;
use vstd::string::*;

use crate::text::{chars_of, concat2};

verus! {

/// Why a child process could not be run.
#[derive(Debug)]
pub enum PtyError {
    /// A system call failed.
    Nix(nix::errno::Errno),
    /// The command cannot be run.
    InvalidCommand(String),
    /// The child could not be replaced by the program.
    ChildExecFailed,
    /// Reading or writing failed.
    Io(std::io::Error),
}

impl PtyError {
    /// The message for the user.
    pub fn message(&self) -> (r: String)
        ensures
            match *self {
                PtyError::Nix(e) => exists|t: String|
                    #[trigger] to_string_from_display_ensures(&e, t) && r@ == "PTY syscall error: "@
                        + t@,
                PtyError::InvalidCommand(s) => r@ == "invalid command: "@ + s@,
                PtyError::ChildExecFailed => r@ == "child exec failed"@,
                PtyError::Io(e) => exists|t: String|
                    #[trigger] to_string_from_display_ensures(&e, t) && r@ == "I/O error: "@ + t@,
            },
    {
        match self {
            PtyError::Nix(e) => {
                let t = e.to_string();
                concat2("PTY syscall error: ", t.as_str())
            },
            PtyError::InvalidCommand(s) => concat2("invalid command: ", s.as_str()),
            PtyError::ChildExecFailed => "child exec failed".to_owned(),
            PtyError::Io(e) => {
                let t = e.to_string();
                concat2("I/O error: ", t.as_str())
            },
        }
    }
}

// ---------------------------------------------------------------------------
// Commands
// ---------------------------------------------------------------------------

/// The text holds a NUL: the system does not take it.
pub open spec fn has_nul(text: Seq<char>) -> bool {
    text.contains('\0')
}

fn holds_nul(text: &str) -> (r: bool)
    ensures
        r == has_nul(text@),
{
    let chars = chars_of(text);
    let mut i: usize = 0;
    while i < chars.len()
        invariant
            i <= chars@.len(),
            chars@ == text@,
            forall|j: int| 0 <= j < i ==> chars@[j] != '\0',
        decreases chars.len() - i,
    {
        if chars[i] == '\0' {
            assert(text@[i as int] == '\0');
            return true;
        }
        i += 1;
    }
    false
}

/// Refuses a command without words, or whose program the system cannot take.
pub fn check_command(command: &[String]) -> (r: Result<(), PtyError>)
    ensures
        match r {
            Ok(()) => command@.len() > 0 && !has_nul(command@[0]@),
            Err(PtyError::InvalidCommand(told)) => if command@.len() == 0 {
                told@ == "empty command"@
            } else {
                has_nul(command@[0]@) && told@ == command@[0]@
            },
            Err(_) => false,
        },
{
    if command.len() == 0 {
        return Err(PtyError::InvalidCommand("empty command".to_owned()));
    }
    if holds_nul(command[0].as_str()) {
        return Err(PtyError::InvalidCommand(command[0].clone()));
    }
    Ok(())
}

// ---------------------------------------------------------------------------
// The end of a child
// ---------------------------------------------------------------------------

/// How a child ended.
#[derive(Debug, Clone, Copy, PartialEq, Eq, Structural)]
pub struct ExitStatus {
    /// The exit code, unless a signal ended the child.
    pub code: Option<i32>,
    /// The signal that ended the child, if one did.
    pub signal: Option<i32>,
}

impl ExitStatus {
    /// The child ended with code zero.
    pub fn success(&self) -> (r: bool)
        ensures
            r == (self.code == Some(0i32)),
    {
        match self.code {
            Some(code) => code == 0,
            None => false,
        }
    }
}

/// What a look at a child shows.
#[derive(Debug, Clone, Copy, PartialEq, Eq, Structural)]
pub enum Waited {
    Exited(i32),
    Signaled(i32),
    /// It runs, is stopped or was continued.
    Alive,
    /// There is no such child: it was reaped before.
    NoChild,
    /// The look itself failed.
    Failed,
}

/// What to do after a look at a child.
#[derive(Debug, Clone, Copy, PartialEq, Eq, Structural)]
pub enum WaitStep {
    Done(ExitStatus),
    /// Sleep for [`WAIT_PAUSE_MS`] and look again.
    LookAgain,
    Fail,
}

/// The pause between two looks at a child, in milliseconds.
pub const WAIT_PAUSE_MS: u64 = 10;

/// Reads the end of a child off one look at it.
pub fn wait_step(waited: Waited) -> (r: WaitStep)
    ensures
        r == match waited {
            Waited::Exited(code) => WaitStep::Done(
                ExitStatus { code: Some(code), signal: None },
            ),
            Waited::Signaled(signal) => WaitStep::Done(
                ExitStatus { code: None, signal: Some(signal) },
            ),
            Waited::Alive => WaitStep::LookAgain,
            Waited::NoChild => WaitStep::Done(ExitStatus { code: Some(0), signal: None }),
            Waited::Failed => WaitStep::Fail,
        },
{
    match waited {
        Waited::Exited(code) => WaitStep::Done(ExitStatus { code: Some(code), signal: None }),
        Waited::Signaled(signal) => WaitStep::Done(
            ExitStatus { code: None, signal: Some(signal) },
        ),
        Waited::Alive => WaitStep::LookAgain,
        Waited::NoChild => WaitStep::Done(ExitStatus { code: Some(0), signal: None }),
        Waited::Failed => WaitStep::Fail,
    }
}

/// How far the reaping of a child that is no longer wanted has come.
#[derive(Debug, Clone, Copy, PartialEq, Eq, Structural)]
pub enum Reaping {
    /// Nothing was sent to it.
    Untouched,
    /// It was asked to end.
    Asked,
}

/// What to do with a child that is no longer wanted.
#[derive(Debug, Clone, Copy, PartialEq, Eq, Structural)]
pub enum ReapStep {
    Done,
    /// Send SIGTERM, sleep for [`REAP_PAUSE_MS`] and look again.
    Ask,
    /// Send SIGKILL and wait until it is gone.
    Kill,
}

/// The time that a child has to end after it was asked to, in milliseconds.
pub const REAP_PAUSE_MS: u64 = 50;

/// A child that still runs is asked to end, and killed if it does not; one that
/// has ended, or cannot be looked at, is left alone.
pub fn reap_step(so_far: Reaping, still_alive: bool) -> (r: ReapStep)
    ensures
        r == (if !still_alive {
            ReapStep::Done
        } else if so_far == Reaping::Untouched {
            ReapStep::Ask
        } else {
            ReapStep::Kill
        }),
{
    if !still_alive {
        return ReapStep::Done;
    }
    match so_far {
        Reaping::Untouched => ReapStep::Ask,
        Reaping::Asked => ReapStep::Kill,
    }
}

// ---------------------------------------------------------------------------
// Reading
// ---------------------------------------------------------------------------

/// What polling the terminal shows.
#[derive(Debug, Clone, Copy, PartialEq, Eq, Structural)]
pub enum Polled {
    Ready,
    Nothing,
    Interrupted,
    Failed,
}

/// What reading from the terminal gave.
#[derive(Debug, Clone, Copy, PartialEq, Eq, Structural)]
pub enum ReadEnd {
    Bytes(usize),
    /// There was nothing to read.
    WouldBlock,
    /// The other end is closed: the child exited.
    Closed,
    Failed,
}

/// What a single read does after polling: `Some(true)` reads, `Some(false)`
/// gives no bytes, `None` fails.
pub fn read_after_poll(polled: Polled) -> (r: Option<bool>)
    ensures
        r == match polled {
            Polled::Ready => Some(true),
            Polled::Nothing | Polled::Interrupted => Some(false),
            Polled::Failed => None,
        },
{
    match polled {
        Polled::Ready => Some(true),
        Polled::Nothing | Polled::Interrupted => Some(false),
        Polled::Failed => None,
    }
}

/// The number of bytes that a single read gives, unless it fails.
pub fn read_count(end: ReadEnd) -> (r: Option<usize>)
    ensures
        r == match end {
            ReadEnd::Bytes(n) => Some(n),
            ReadEnd::WouldBlock | ReadEnd::Closed => Some(0usize),
            ReadEnd::Failed => None,
        },
{
    match end {
        ReadEnd::Bytes(n) => Some(n),
        ReadEnd::WouldBlock | ReadEnd::Closed => Some(0),
        ReadEnd::Failed => None,
    }
}

/// What draining a terminal does next.
#[derive(Debug, Clone, Copy, PartialEq, Eq, Structural)]
pub enum DrainStep {
    /// Poll, for this many milliseconds at most.
    Poll(u16),
    Read,
    Done,
    Fail,
}

/// The time that the first poll waits for the child's last output.
pub const DRAIN_FIRST_POLL_MS: u16 = 50;

/// What is left in a terminal after its child exited, as far as it was read.
#[derive(Debug)]
pub struct Drain {
    pub bytes: Vec<u8>,
}

impl Drain {
    /// Begins: the first poll gives the child's last output time to arrive.
    pub fn start() -> (r: (Self, DrainStep))
        ensures
            r.0.bytes@ == Seq::<u8>::empty(),
            r.1 == DrainStep::Poll(DRAIN_FIRST_POLL_MS),
    {
        (Drain { bytes: Vec::new() }, DrainStep::Poll(DRAIN_FIRST_POLL_MS))
    }

    /// What follows a poll.
    pub fn after_poll(&self, polled: Polled) -> (r: DrainStep)
        ensures
            r == match polled {
                Polled::Ready => DrainStep::Read,
                Polled::Nothing => DrainStep::Done,
                Polled::Interrupted => DrainStep::Poll(0),
                Polled::Failed => DrainStep::Fail,
            },
    {
        match polled {
            Polled::Ready => DrainStep::Read,
            Polled::Nothing => DrainStep::Done,
            Polled::Interrupted => DrainStep::Poll(0),
            Polled::Failed => DrainStep::Fail,
        }
    }

    /// Takes what a read gave; the bytes stand at the start of `buf`.
    pub fn after_read(&mut self, end: ReadEnd, buf: &[u8]) -> (r: DrainStep)
        requires
            end is Bytes ==> end->Bytes_0 <= buf@.len(),
        ensures
            match end {
                ReadEnd::Bytes(n) => {
                    &&& final(self).bytes@ == old(self).bytes@ + buf@.take(n as int)
                    &&& r == (if n == 0 {
                        DrainStep::Done
                    } else {
                        DrainStep::Poll(0)
                    })
                },
                _ => {
                    &&& final(self).bytes@ == old(self).bytes@
                    &&& r == (if end == ReadEnd::Failed {
                        DrainStep::Fail
                    } else {
                        DrainStep::Done
                    })
                },
            },
    {
        match end {
            ReadEnd::Bytes(n) => {
                let ghost start = self.bytes@;
                let mut i: usize = 0;
                while i < n
                    invariant
                        i <= n <= buf@.len(),
                        self.bytes@ =~= start + buf@.take(i as int),
                    decreases n - i,
                {
                    self.bytes.push(buf[i]);
                    i += 1;
                }
                if n == 0 {
                    DrainStep::Done
                } else {
                    DrainStep::Poll(0)
                }
            },
            ReadEnd::WouldBlock | ReadEnd::Closed => DrainStep::Done,
            ReadEnd::Failed => DrainStep::Fail,
        }
    }
}

// ---------------------------------------------------------------------------
// Terminal size
// ---------------------------------------------------------------------------

/// A number, or another in place of zero.
pub open spec fn unless_zero(n: u16, otherwise: u16) -> u16 {
    if n == 0 {
        otherwise
    } else {
        n
    }
}

/// The rows and columns of the terminal: those of the output where it is one,
/// else those of the error output, else 24 by 80; a zero is not taken.
pub fn terminal_size(output: Option<(u16, u16)>, error_output: Option<(u16, u16)>) -> (r: (
    u16,
    u16,
))
    ensures
        ({
            let told = match (output, error_output) {
                (Some(size), _) => size,
                (None, Some(size)) => size,
                (None, None) => (24u16, 80u16),
            };
            r == (unless_zero(told.0, 24), unless_zero(told.1, 80))
        }),
        r.0 > 0 && r.1 > 0,
{
    let (rows, cols) = match output {
        Some(size) => size,
        None => match error_output {
            Some(size) => size,
            None => (24, 80),
        },
    };
    let rows: u16 = if rows == 0 {
        24
    } else {
        rows
    };
    let cols: u16 = if cols == 0 {
        80
    } else {
        cols
    };
    (rows, cols)
}

// ---------------------------------------------------------------------------
// Laws
// ---------------------------------------------------------------------------

/// A child that ended by itself has its code and no signal, one that a signal ended has
/// that and no code, and one that was reaped before counts as a success.
pub proof fn law_children_end_with_a_code_or_a_signal(waited: Waited, r: WaitStep)
    requires
        call_ensures(wait_step, (waited,), r),
    ensures
        waited matches Waited::Exited(code) ==> r == WaitStep::Done(
            ExitStatus { code: Some(code), signal: None },
        ),
        waited matches Waited::Signaled(signal) ==> r == WaitStep::Done(
            ExitStatus { code: None, signal: Some(signal) },
        ),
        waited is NoChild ==> r == WaitStep::Done(ExitStatus { code: Some(0), signal: None }),
        r is LookAgain <==> waited is Alive,
        r is Fail <==> waited is Failed,
{
}

/// A child is asked to end before it is killed, and left alone once it is gone.
pub proof fn law_children_are_asked_before_they_are_killed(
    so_far: Reaping,
    still_alive: bool,
    r: ReapStep,
)
    requires
        call_ensures(reap_step, (so_far, still_alive), r),
    ensures
        r is Done <==> !still_alive,
        r is Kill <==> still_alive && so_far is Asked,
        r is Ask <==> still_alive && so_far is Untouched,
{
}

/// The size of the terminal is that of the output, and else that of the error output; a
/// size that neither tells, or tells as zero, is 24 rows or 80 columns.
pub proof fn law_sizes_are_never_zero(
    output: Option<(u16, u16)>,
    error_output: Option<(u16, u16)>,
    r: (u16, u16),
)
    requires
        call_ensures(terminal_size, (output, error_output), r),
    ensures
        output matches Some(size) ==> (size.0 > 0 ==> r.0 == size.0) && (size.0 == 0 ==> r.0
            == 24) && (size.1 > 0 ==> r.1 == size.1) && (size.1 == 0 ==> r.1 == 80),
        output is None ==> (error_output matches Some(size) ==> (size.0 > 0 ==> r.0 == size.0)
            && (size.0 == 0 ==> r.0 == 24) && (size.1 > 0 ==> r.1 == size.1) && (size.1 == 0
            ==> r.1 == 80)),
        output is None && error_output is None ==> r == (24u16, 80u16),
{
}

/// A command is refused where it has no words, or where its first one holds a NUL.
pub proof fn law_commands_hold_no_nul(command: &[String], r: Result<(), PtyError>)
    requires
        call_ensures(check_command, (command,), r),
    ensures
        r is Ok <==> command@.len() > 0 && forall|i: int|
            0 <= i < command@[0]@.len() ==> #[trigger] command@[0]@[i] != '\0',
{
    if command@.len() > 0 {
        let word = command@[0]@;
        if exists|i: int| 0 <= i < word.len() && #[trigger] word[i] == '\0' {
            let i = choose|i: int| 0 <= i < word.len() && #[trigger] word[i] == '\0';
            assert(word.contains(word[i]));
        }
    }
}

} // verus!
