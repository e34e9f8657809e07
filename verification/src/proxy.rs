//! The command line proxy: compound commands, pipelines, the interactive loop,
//! and how the results of handlers are put for showing.
use std::time::Duration;
use vstd::prelude::*;

use crate::category;
use crate::category::Category;
use crate::format::{
    format_result, format_results, EnrichmentLine, FormatInput, HazardEntry, OutputMode,
    RecommendationEntry,
};
use crate::outside;
use crate::outside::lossy_text;
use crate::preflight;
use crate::preflight::PreflightResult;
use crate::pty::{terminal_size, ExitStatus};
use crate::stat::NarratedResult;
use crate::text;
use crate::text::{
    concat2, concat3, copy_strings, dec_u64, join_strings, list_has, without_prefix,
};

verus! {

// ---------------------------------------------------------------------------
// Compound commands
// ---------------------------------------------------------------------------

/// What stands between two commands.
#[derive(Debug, Clone, Copy, PartialEq, Eq, Structural)]
pub enum CompoundOp {
    /// `&&`: the next runs only after success.
    And,
    /// `||`: the next runs only after failure.
    Or,
    /// `;`: the next always runs.
    Sequence,
}

/// A command of a compound, and the operator behind it.
#[derive(Debug, Clone, PartialEq, Eq)]
pub struct CompoundSegment {
    pub command: Vec<String>,
    pub operator: Option<CompoundOp>,
}

pub struct SegmentView {
    pub command: Seq<Seq<char>>,
    pub operator: Option<CompoundOp>,
}

impl View for CompoundSegment {
    type V = SegmentView;

    open spec fn view(&self) -> SegmentView {
        SegmentView { command: text::views(self.command@), operator: self.operator }
    }
}

pub open spec fn segment_views(segments: Seq<CompoundSegment>) -> Seq<SegmentView> {
    Seq::new(segments.len(), |i: int| segments[i]@)
}

/// The operator that a word is.
pub open spec fn operator(word: Seq<char>) -> Option<CompoundOp> {
    if word == "&&"@ {
        Some(CompoundOp::And)
    } else if word == "||"@ {
        Some(CompoundOp::Or)
    } else if word == ";"@ {
        Some(CompoundOp::Sequence)
    } else {
        None
    }
}

/// The commands that an operator ended, and the words behind the last of them.
/// An operator without words before it ends nothing.
pub open spec fn ended(args: Seq<Seq<char>>) -> (Seq<SegmentView>, Seq<Seq<char>>)
    decreases args.len(),
{
    if args.len() == 0 {
        (Seq::empty(), Seq::empty())
    } else {
        let (segments, words) = ended(args.drop_last());
        match operator(args.last()) {
            Some(op) => if words.len() == 0 {
                (segments, words)
            } else {
                (
                    segments.push(SegmentView { command: words, operator: Some(op) }),
                    Seq::empty(),
                )
            },
            None => (segments, words.push(args.last())),
        }
    }
}

/// The last command without an operator behind it.
pub open spec fn closed(segments: Seq<SegmentView>) -> Seq<SegmentView> {
    if segments.len() == 0 {
        segments
    } else {
        segments.drop_last().push(
            SegmentView { command: segments.last().command, operator: None },
        )
    }
}

/// The commands of a compound. No operator stands behind the last one.
pub open spec fn segments_of(args: Seq<Seq<char>>) -> Seq<SegmentView> {
    let (segments, words) = ended(args);
    if words.len() > 0 {
        segments.push(SegmentView { command: words, operator: None })
    } else {
        closed(segments)
    }
}

fn operator_of(word: &str) -> (r: Option<CompoundOp>)
    ensures
        r == operator(word@),
{
    if text::same(word, "&&") {
        Some(CompoundOp::And)
    } else if text::same(word, "||") {
        Some(CompoundOp::Or)
    } else if text::same(word, ";") {
        Some(CompoundOp::Sequence)
    } else {
        None
    }
}

/// Cuts the arguments at the operators `&&`, `||` and `;`. The operator of each
/// command is the one behind it; the last command has none.
pub fn split_compound(args: &[String]) -> (r: Vec<CompoundSegment>)
    ensures
        segment_views(r@) == segments_of(text::views(args@)),
{
    let ghost all = text::views(args@);
    let mut segments: Vec<CompoundSegment> = Vec::new();
    let mut words: Vec<String> = Vec::new();
    let mut i: usize = 0;
    assert(all.take(0).len() == 0);
    assert(segment_views(segments@) =~= Seq::empty());
    assert(text::views(words@) =~= Seq::empty());
    while i < args.len()
        invariant
            all == text::views(args@),
            i <= args@.len(),
            segment_views(segments@) == ended(all.take(i as int)).0,
            text::views(words@) == ended(all.take(i as int)).1,
        decreases args.len() - i,
    {
        assert(all.take(i + 1).drop_last() =~= all.take(i as int));
        assert(all.take(i + 1).last() == args@[i as int]@);
        assert(text::views(words@).len() == words@.len());
        match operator_of(args[i].as_str()) {
            Some(op) => {
                if words.len() > 0 {
                    let mut command: Vec<String> = Vec::new();
                    std::mem::swap(&mut command, &mut words);
                    let ghost before = segments@;
                    let segment = CompoundSegment { command, operator: Some(op) };
                    let ghost seen = segment@;
                    segments.push(segment);
                    assert(segment_views(segments@) =~= segment_views(before).push(seen));
                    assert(text::views(words@) =~= Seq::empty());
                }
            },
            None => {
                let ghost before = words@;
                words.push(args[i].clone());
                assert(text::views(words@) =~= text::views(before).push(args@[i as int]@));
            },
        }
        i += 1;
    }
    assert(all.take(i as int) =~= all);
    assert(text::views(words@).len() == words@.len());
    if words.len() > 0 {
        let ghost before = segments@;
        let segment = CompoundSegment { command: words, operator: None };
        let ghost seen = segment@;
        segments.push(segment);
        assert(segment_views(segments@) =~= segment_views(before).push(seen));
    } else if segments.len() > 0 {
        let ghost before = segments@;
        let last = segments.pop();
        if let Some(last) = last {
            let segment = CompoundSegment { command: last.command, operator: None };
            segments.push(segment);
            assert(segment_views(segments@) =~= closed(segment_views(before)));
        }
    }
    segments
}

// ---------------------------------------------------------------------------
// Flags and pipelines
// ---------------------------------------------------------------------------

/// The mode that a flag asks for.
pub open spec fn mode_of(flag: Seq<char>) -> Option<OutputMode> {
    if flag == "--json"@ {
        Some(OutputMode::Json)
    } else if flag == "--passthrough"@ {
        Some(OutputMode::Passthrough)
    } else if flag == "--context"@ {
        Some(OutputMode::Context)
    } else {
        None
    }
}

fn copy_from(args: &[String], start: usize) -> (r: Vec<String>)
    requires
        start <= args@.len(),
    ensures
        text::views(r@) == text::views(args@).skip(start as int),
{
    let ghost all = text::views(args@);
    let mut r: Vec<String> = Vec::new();
    let mut i: usize = start;
    assert(text::views(r@) =~= all.subrange(start as int, i as int));
    while i < args.len()
        invariant
            start <= i <= args@.len(),
            all == text::views(args@),
            text::views(r@) == all.subrange(start as int, i as int),
        decreases args.len() - i,
    {
        let ghost before = r@;
        r.push(args[i].clone());
        assert(text::views(r@) =~= text::views(before).push(all[i as int]));
        assert(all.subrange(start as int, i + 1) =~= all.subrange(start as int, i as int).push(
            all[i as int],
        ));
        i += 1;
    }
    assert(all.subrange(start as int, i as int) =~= all.skip(start as int));
    r
}

/// Takes the mode off the arguments: only their first can be a flag for it.
pub fn parse_mode(args: &[String]) -> (r: (OutputMode, Vec<String>))
    ensures
        ({
            let flag = if args@.len() == 0 {
                None
            } else {
                mode_of(args@[0]@)
            };
            match flag {
                Some(mode) => r.0 == mode && text::views(r.1@) == text::views(args@).skip(1),
                None => r.0 == OutputMode::Human && text::views(r.1@) == text::views(args@),
            }
        }),
{
    if args.len() > 0 {
        let first = args[0].as_str();
        if text::same(first, "--json") {
            return (OutputMode::Json, copy_from(args, 1));
        }
        if text::same(first, "--passthrough") {
            return (OutputMode::Passthrough, copy_from(args, 1));
        }
        if text::same(first, "--context") {
            return (OutputMode::Context, copy_from(args, 1));
        }
    }
    (OutputMode::Human, copy_strings(args))
}

/// Whether a `|` stands among the arguments as a word of its own.
pub fn contains_pipe(args: &[String]) -> (r: bool)
    ensures
        r == text::views(args@).contains("|"@),
{
    list_has(args, "|")
}

/// The texts that a pipeline left behind, put for showing.
pub fn pipeline_report(args: &[String], out: &str, err: &str, code: Option<i32>) -> (r: FormatInput)
    ensures
        is_pipeline_report(r, text::views(args@), out@, err@, code),
{
    let combined = concat2(out, err);
    let raw = combined.clone();
    FormatInput {
        command: join_strings(args, " "),
        exit_code: match code {
            Some(code) => code,
            None => -1,
        },
        category: "passthrough".to_owned(),
        body: combined,
        raw_output: Some(raw),
        total_lines: None,
        elapsed: None,
        outcomes: Vec::new(),
        hazards: Vec::new(),
        enrichment: Vec::new(),
        recommendations: Vec::new(),
    }
}

/// `r` tells what a pipeline wrote to its two outputs, and its exit code.
pub open spec fn is_pipeline_report(
    r: FormatInput,
    args: Seq<Seq<char>>,
    out: Seq<char>,
    err: Seq<char>,
    code: Option<i32>,
) -> bool {
    &&& r.command@ == text::join(args, " "@)
    &&& r.exit_code == match code {
        Some(code) => code as int,
        None => -1int,
    }
    &&& r.category@ == "passthrough"@
    &&& r.body@ == out + err
    &&& r.raw_output is Some
    &&& r.raw_output->0@ == r.body@
    &&& is_plain(r)
}

/// What a pipeline left behind, put for showing.
pub fn pipeline_result(args: &[String], stdout: &[u8], stderr: &[u8], code: Option<i32>) -> (r:
    FormatInput)
    ensures
        is_pipeline_report(
            r,
            text::views(args@),
            outside::lossy(stdout@),
            outside::lossy(stderr@),
            code,
        ),
{
    let out = lossy_text(stdout);
    let err = lossy_text(stderr);
    pipeline_report(args, out.as_str(), err.as_str(), code)
}

/// A result with nothing but its body.
pub open spec fn is_plain(input: FormatInput) -> bool {
    &&& input.total_lines is None
    &&& input.elapsed is None
    &&& input.outcomes@.len() == 0
    &&& input.hazards@.len() == 0
    &&& input.enrichment@.len() == 0
    &&& input.recommendations@.len() == 0
}

// ---------------------------------------------------------------------------
// Running a compound
// ---------------------------------------------------------------------------

/// Whether the command at `i` runs after the last one that ran gave `exit`.
pub open spec fn may_run(segments: Seq<SegmentView>, i: int, exit: int) -> bool {
    i == 0 || match segments[i - 1].operator {
        Some(CompoundOp::And) => exit == 0,
        Some(CompoundOp::Or) => exit != 0,
        Some(CompoundOp::Sequence) => true,
        None => true,
    }
}

/// The first command from `i` on that runs, or the number of commands.
pub open spec fn next_to_run(segments: Seq<SegmentView>, i: int, exit: int) -> int
    decreases segments.len() - i,
{
    if i >= segments.len() || may_run(segments, i, exit) {
        i
    } else {
        next_to_run(segments, i + 1, exit)
    }
}

/// A compound command on its way.
#[derive(Debug)]
pub struct CompoundRun {
    pub segments: Vec<CompoundSegment>,
    /// The first command that was not looked at yet.
    pub next: usize,
    /// The exit code of the last command that ran; zero before the first.
    pub last_exit_code: i32,
    pub results: Vec<FormatInput>,
}

/// How a command line is run.
#[derive(Debug)]
pub enum Plan {
    /// There is no command.
    Usage(String),
    /// The shell runs this text.
    Pipeline(String),
    Compound(CompoundRun),
}

/// Decides how a command line is run: a pipe makes the whole of it a pipeline.
pub fn run_with_mode(args: &[String]) -> (r: Plan)
    ensures
        is_plan(r, text::views(args@)),
{
    assert(text::views(args@).len() == args@.len());
    if args.len() == 0 {
        return Plan::Usage("usage: mish <command> [args...]".to_owned());
    }
    if contains_pipe(args) {
        return Plan::Pipeline(join_strings(args, " "));
    }
    Plan::Compound(
        CompoundRun {
            segments: split_compound(args),
            next: 0,
            last_exit_code: 0,
            results: Vec::new(),
        },
    )
}

/// `r` is how the command line `args` is run.
pub open spec fn is_plan(r: Plan, args: Seq<Seq<char>>) -> bool {
    if args.len() == 0 {
        r matches Plan::Usage(told) && told@ == "usage: mish <command> [args...]"@
    } else if args.contains("|"@) {
        r matches Plan::Pipeline(line) && line@ == text::join(args, " "@)
    } else {
        r matches Plan::Compound(run) && segment_views(run.segments@) == segments_of(args)
            && run.next == 0 && run.last_exit_code == 0 && run.results@.len() == 0
    }
}

/// Takes the mode off a command line and decides how the rest is run.
pub fn run(args: &[String]) -> (r: (OutputMode, Plan))
    ensures
        ({
            let flag = if args@.len() == 0 {
                None
            } else {
                mode_of(args@[0]@)
            };
            match flag {
                Some(mode) => r.0 == mode && is_plan(r.1, text::views(args@).skip(1)),
                None => r.0 == OutputMode::Human && is_plan(r.1, text::views(args@)),
            }
        }),
{
    let (mode, command) = parse_mode(args);
    (mode, run_with_mode(command.as_slice()))
}

impl CompoundRun {
    /// No more commands were looked at than there are.
    pub open spec fn wf(&self) -> bool {
        self.next <= self.segments@.len()
    }

    /// The next command to run, if one is left: those that the operators exclude
    /// are passed over.
    pub fn next_command(&mut self) -> (r: Option<Vec<String>>)
        requires
            old(self).wf(),
        ensures
            final(self).wf(),
            final(self).segments == old(self).segments,
            final(self).last_exit_code == old(self).last_exit_code,
            final(self).results == old(self).results,
            ({
                let all = segment_views(old(self).segments@);
                let at = next_to_run(all, old(self).next as int, old(self).last_exit_code as int);
                if at < all.len() {
                    &&& final(self).next == at + 1
                    &&& r matches Some(command) && text::views(command@) == all[at].command
                } else {
                    &&& final(self).next == at
                    &&& r is None
                }
            }),
            r is None ==> final(self).next == final(self).segments@.len(),
            r matches Some(command) ==> text::views(command@) == text::views(
                final(self).segments@[final(self).next - 1].command@,
            ),
            forall|j: int|
                old(self).next <= j < (if r is Some {
                    final(self).next - 1
                } else {
                    final(self).next as int
                }) ==> {
                    ||| #[trigger] old(self).segments@[j - 1].operator == Some(CompoundOp::And)
                        && old(self).last_exit_code != 0
                    ||| old(self).segments@[j - 1].operator == Some(CompoundOp::Or)
                        && old(self).last_exit_code == 0
                },
    {
        let ghost all = segment_views(self.segments@);
        let ghost start = self.next as int;
        let ghost exit = self.last_exit_code as int;
        let mut i: usize = self.next;
        while i < self.segments.len()
            invariant
                self == old(self),
                all == segment_views(self.segments@),
                exit == self.last_exit_code,
                start == old(self).next,
                start <= i <= self.segments@.len(),
                next_to_run(all, start, exit) == next_to_run(all, i as int, exit),
                forall|j: int|
                    start <= j < i ==> {
                        ||| #[trigger] self.segments@[j - 1].operator == Some(CompoundOp::And)
                            && exit != 0
                        ||| self.segments@[j - 1].operator == Some(CompoundOp::Or) && exit == 0
                    },
            decreases self.segments.len() - i,
        {
            let runs = if i == 0 {
                true
            } else {
                match self.segments[i - 1].operator {
                    Some(CompoundOp::And) => self.last_exit_code == 0,
                    Some(CompoundOp::Or) => self.last_exit_code != 0,
                    Some(CompoundOp::Sequence) => true,
                    None => true,
                }
            };
            proof {
                if i > 0 {
                    assert(all[i - 1] == self.segments@[i - 1]@);
                }
                assert(runs == may_run(all, i as int, exit));
            }
            if runs {
                let command = copy_strings(self.segments[i].command.as_slice());
                assert(all[i as int] == self.segments@[i as int]@);
                self.next = i + 1;
                return Some(command);
            }
            i += 1;
        }
        self.next = i;
        None
    }

    /// Takes the result of the command that ran.
    pub fn finished(&mut self, result: FormatInput)
        ensures
            final(self).segments == old(self).segments,
            final(self).next == old(self).next,
            final(self).last_exit_code == result.exit_code,
            final(self).results@ == old(self).results@.push(result),
    {
        self.last_exit_code = result.exit_code;
        self.results.push(result);
    }

    /// What is shown in the end, and the exit code.
    pub fn finish(&self, mode: OutputMode) -> (r: (String, i32))
        ensures
            r.0@ == text::join(
                Seq::new(
                    self.results@.len(),
                    |i: int| crate::format::formatted(self.results@[i], mode),
                ),
                "\n"@,
            ),
            r.1 == self.last_exit_code,
    {
        let ghost shown = Seq::new(
            self.results@.len(),
            |i: int| crate::format::formatted(self.results@[i], mode),
        );
        let told = if self.results.len() == 1 {
            assert(text::join(shown, "\n"@) == shown[0]);
            format_result(&self.results[0], mode)
        } else {
            format_results(self.results.as_slice(), mode)
        };
        (told, self.last_exit_code)
    }
}

// ---------------------------------------------------------------------------
// The interactive loop
// ---------------------------------------------------------------------------

/// What the interactive loop gives in the end.
#[derive(Debug)]
pub struct EventLoopResult {
    /// The exit code of the child, or 128 and the number of the signal that
    /// ended it.
    pub exit_code: i32,
    /// Everything that the child wrote.
    pub output: Vec<u8>,
    /// A second interrupt ended the loop.
    pub force_exit: bool,
}

/// What happens in the interactive loop.
#[derive(Debug)]
pub enum LoopEvent {
    /// An interrupt, so long after the loop began.
    Interrupt(Duration),
    /// A request to terminate.
    Terminate,
    /// The terminal has another size.
    Resized,
    /// Input for the child, or its end.
    Input(Option<Vec<u8>>),
    /// Nothing for a while.
    Tick,
}

/// What the interactive loop does next.
#[derive(Debug)]
pub enum LoopAction {
    /// Send SIGINT to the child.
    SendInterrupt,
    /// Send SIGKILL to the child, wait for it, and end by force.
    Kill,
    /// Send SIGTERM to the child and wait for its end.
    Terminate,
    /// Give the child's terminal the new size.
    Resize,
    /// Write to the child.
    Write(Vec<u8>),
    /// Go on.
    Continue,
}

/// Two interrupts within this time end the loop, in nanoseconds.
pub const DOUBLE_INTERRUPT_NANOS: u128 = 1_000_000_000;

/// The time that a child has to end after SIGTERM, in nanoseconds.
pub const TERMINATE_NANOS: u128 = 5_000_000_000;

/// The pause between two looks at a child that was asked to end, in milliseconds.
pub const TERMINATE_PAUSE_MS: u64 = 50;

/// The pause of the loop between two looks at the child, in milliseconds.
pub const LOOP_PAUSE_MS: u64 = 10;

/// The state of the interactive loop.
#[derive(Debug)]
pub struct EventLoop {
    /// When the last interrupt came.
    pub last_interrupt: Option<Duration>,
    pub stdin_open: bool,
    pub output: Vec<u8>,
}

/// A second interrupt came soon after the first.
pub open spec fn is_double(last: Option<Duration>, now: Duration) -> bool {
    last is Some && outside::nanos(now) < outside::nanos(last->0) + DOUBLE_INTERRUPT_NANOS
}

/// The exit code of a child by how it ended.
pub open spec fn child_code(status: ExitStatus) -> int {
    match (status.code, status.signal) {
        (Some(code), _) => code as int,
        (None, Some(signal)) => 128 + signal,
        (None, None) => 1,
    }
}

impl EventLoop {
    pub fn new() -> (r: Self)
        ensures
            r.last_interrupt is None,
            r.stdin_open,
            r.output@ == Seq::<u8>::empty(),
    {
        EventLoop { last_interrupt: None, stdin_open: true, output: Vec::new() }
    }

    /// Takes what the child wrote.
    pub fn on_output(&mut self, bytes: &[u8])
        ensures
            final(self).last_interrupt == old(self).last_interrupt,
            final(self).stdin_open == old(self).stdin_open,
            final(self).output@ == old(self).output@ + bytes@,
    {
        let ghost start = self.output@;
        let mut i: usize = 0;
        while i < bytes.len()
            invariant
                i <= bytes@.len(),
                self.last_interrupt == old(self).last_interrupt,
                self.stdin_open == old(self).stdin_open,
                self.output@ =~= start + bytes@.take(i as int),
            decreases bytes.len() - i,
        {
            self.output.push(bytes[i]);
            i += 1;
        }
        assert(bytes@.take(i as int) =~= bytes@);
    }

    /// Decides what to do about an event. A first interrupt goes to the child; a
    /// second one within a second ends the loop.
    pub fn on_event(&mut self, event: LoopEvent) -> (r: LoopAction)
        ensures
            final(self).output == old(self).output,
            final(self).stdin_open == (old(self).stdin_open && !(event matches LoopEvent::Input(
                None,
            ))),
            match event {
                LoopEvent::Interrupt(now) => if is_double(old(self).last_interrupt, now) {
                    r is Kill && final(self).last_interrupt == old(self).last_interrupt
                } else {
                    r is SendInterrupt && final(self).last_interrupt == Some(now)
                },
                LoopEvent::Terminate => r is Terminate,
                LoopEvent::Resized => r is Resize,
                LoopEvent::Input(Some(bytes)) => r == LoopAction::Write(bytes),
                LoopEvent::Input(None) => r is Continue,
                LoopEvent::Tick => r is Continue,
            },
            !(event is Interrupt) ==> final(self).last_interrupt == old(self).last_interrupt,
    {
        match event {
            LoopEvent::Interrupt(now) => {
                if let Some(last) = self.last_interrupt {
                    if now.saturating_sub(last).as_nanos() < DOUBLE_INTERRUPT_NANOS {
                        return LoopAction::Kill;
                    }
                }
                self.last_interrupt = Some(now);
                LoopAction::SendInterrupt
            },
            LoopEvent::Terminate => LoopAction::Terminate,
            LoopEvent::Resized => LoopAction::Resize,
            LoopEvent::Input(Some(bytes)) => LoopAction::Write(bytes),
            LoopEvent::Input(None) => {
                self.stdin_open = false;
                LoopAction::Continue
            },
            LoopEvent::Tick => LoopAction::Continue,
        }
    }

    /// The end of the loop because the child ended; `rest` is what was still to
    /// be read.
    pub fn on_exit(self, status: ExitStatus, rest: &[u8]) -> (r: EventLoopResult)
        requires
            status.signal is Some ==> status.signal->0 <= i32::MAX - 128,
        ensures
            r.exit_code == child_code(status),
            r.output@ == self.output@ + rest@,
            !r.force_exit,
    {
        let mut this = self;
        this.on_output(rest);
        let exit_code: i32 = match (status.code, status.signal) {
            (Some(code), _) => code,
            (None, Some(signal)) => 128 + signal,
            (None, None) => 1,
        };
        EventLoopResult { exit_code, output: this.output, force_exit: false }
    }

    /// The end of the loop because it was asked to terminate.
    pub fn on_terminated(self, rest: &[u8]) -> (r: EventLoopResult)
        ensures
            r.exit_code == 143,
            r.output@ == self.output@ + rest@,
            !r.force_exit,
    {
        let mut this = self;
        this.on_output(rest);
        EventLoopResult { exit_code: 143, output: this.output, force_exit: false }
    }

    /// The end of the loop because of a second interrupt.
    pub fn on_killed(self) -> (r: EventLoopResult)
        ensures
            r.exit_code == 130,
            r.output == self.output,
            r.force_exit,
    {
        EventLoopResult { exit_code: 130, output: self.output, force_exit: true }
    }
}

/// What to do about a child that was asked to end.
#[derive(Debug, Clone, Copy, PartialEq, Eq, Structural)]
pub enum TerminateStep {
    /// Send SIGKILL and go on without it.
    Kill,
    /// It ended.
    Done,
    /// Sleep for [`TERMINATE_PAUSE_MS`] and look again.
    Wait,
}

/// A child that does not end within five seconds after SIGTERM is killed.
pub fn terminate_step(waited: Duration, exited: bool) -> (r: TerminateStep)
    ensures
        r == (if outside::nanos(waited) > TERMINATE_NANOS {
            TerminateStep::Kill
        } else if exited {
            TerminateStep::Done
        } else {
            TerminateStep::Wait
        }),
{
    if waited.as_nanos() > TERMINATE_NANOS {
        TerminateStep::Kill
    } else if exited {
        TerminateStep::Done
    } else {
        TerminateStep::Wait
    }
}

/// The columns and rows of the terminal, from what the two outputs tell as rows
/// and columns; 80 by 24 where neither does.
pub fn query_terminal_size(output: Option<(u16, u16)>, error_output: Option<(u16, u16)>) -> (r: (
    u16,
    u16,
))
    ensures
        ({
            let told = match (output, error_output) {
                (Some(size), _) => size,
                (None, Some(size)) => size,
                (None, None) => (24u16, 80u16),
            };
            &&& r.0 == crate::pty::unless_zero(told.1, 80)
            &&& r.1 == crate::pty::unless_zero(told.0, 24)
        }),
        r.0 > 0 && r.1 > 0,
{
    let (rows, cols) = terminal_size(output, error_output);
    (cols, rows)
}

/// Refuses to run nothing.
pub fn check_interactive(command: &[String]) -> (r: Result<(), String>)
    ensures
        match r {
            Ok(()) => command@.len() > 0,
            Err(told) => command@.len() == 0 && told@ == "run_interactive_loop: empty command"@,
        },
{
    if command.len() == 0 {
        Err("run_interactive_loop: empty command".to_owned())
    } else {
        Ok(())
    }
}

// ---------------------------------------------------------------------------
// Results of handlers
// ---------------------------------------------------------------------------

/// Output that was condensed.
#[derive(Debug, Clone)]
pub struct CondensedSummary {
    /// The command turned interactive, and its output was shown live.
    pub interactive_session: bool,
    pub header: String,
    pub summary_lines: Vec<String>,
    pub hazard_lines: Vec<String>,
}

/// Output that was passed through.
#[derive(Debug, Clone)]
pub struct PassthroughResult {
    pub output: String,
    pub footer: String,
}

/// How many files `git status` lists in each state.
#[derive(Debug, Clone, Copy, PartialEq, Eq, Structural)]
pub struct GitStatusInfo {
    pub modified: u32,
    pub added: u32,
    pub deleted: u32,
    pub untracked: u32,
}

/// Output that was parsed.
#[derive(Debug, Clone)]
pub enum StructuredData {
    GitStatus(GitStatusInfo),
    /// The containers that run, by their names.
    DockerPs(Vec<String>),
    Generic(String),
}

/// What the handler of a command gives.
#[derive(Debug)]
pub enum HandlerOutput {
    Condensed(CondensedSummary),
    Narrated(NarratedResult),
    Passthrough(PassthroughResult),
    Structured(StructuredData),
    /// The session took so long.
    Interactive(Duration),
    /// The warning about a dangerous command.
    Dangerous(String),
}

/// What became of a command.
#[derive(Debug)]
pub struct RouterResult {
    pub exit_code: i32,
    pub category: Category,
    pub output: HandlerOutput,
    pub enrichment: Option<Vec<EnrichmentLine>>,
    pub preflight: Option<PreflightResult>,
}

/// A count and its noun, where there is anything to count.
pub open spec fn count_part(n: u32, noun: Seq<char>) -> Seq<Seq<char>> {
    if n > 0 {
        seq![text::dec(n as nat) + noun]
    } else {
        Seq::empty()
    }
}

/// Parsed output for people to read.
pub open spec fn structured_text(data: StructuredData) -> Seq<char> {
    match data {
        StructuredData::GitStatus(info) => {
            let total = info.modified + info.added + info.deleted + info.untracked;
            let parts = count_part(info.modified, " modified"@) + count_part(
                info.added,
                " added"@,
            ) + count_part(info.deleted, " deleted"@) + count_part(info.untracked, " untracked"@);
            "git status: "@ + text::dec(total as nat) + (" files ("@ + text::join(parts, ", "@)
                + ")"@)
        },
        StructuredData::DockerPs(containers) => "docker ps: "@ + text::dec(containers@.len())
            + " containers running"@,
        StructuredData::Generic(raw) => raw@,
    }
}

fn push_count(parts: &mut Vec<String>, n: u32, noun: &str)
    ensures
        text::views(final(parts)@) == text::views(old(parts)@) + count_part(n, noun@),
{
    if n > 0 {
        let number = dec_u64(n as u64);
        let part = concat2(number.as_str(), noun);
        let ghost before = parts@;
        parts.push(part);
        assert(text::views(parts@) =~= text::views(before).push(part@));
    } else {
        assert(text::views(parts@) + Seq::<Seq<char>>::empty() =~= text::views(parts@));
    }
}

/// Writes parsed output for people to read.
pub fn format_structured_data(data: &StructuredData) -> (r: String)
    ensures
        r@ == structured_text(*data),
{
    match data {
        StructuredData::GitStatus(info) => {
            let total: u64 = info.modified as u64 + info.added as u64 + info.deleted as u64
                + info.untracked as u64;
            let mut parts: Vec<String> = Vec::new();
            assert(text::views(parts@) =~= Seq::empty());
            push_count(&mut parts, info.modified, " modified");
            push_count(&mut parts, info.added, " added");
            push_count(&mut parts, info.deleted, " deleted");
            push_count(&mut parts, info.untracked, " untracked");
            assert(text::views(parts@) =~= count_part(info.modified, " modified"@) + count_part(
                info.added,
                " added"@,
            ) + count_part(info.deleted, " deleted"@) + count_part(info.untracked, " untracked"@));
            let joined = join_strings(parts.as_slice(), ", ");
            let end = concat3(" files (", joined.as_str(), ")");
            let number = dec_u64(total);
            concat3("git status: ", number.as_str(), end.as_str())
        },
        StructuredData::DockerPs(containers) => {
            let number = dec_u64(containers.len() as u64);
            concat3("docker ps: ", number.as_str(), " containers running")
        },
        StructuredData::Generic(raw) => raw.clone(),
    }
}

/// The outcomes among the lines of a summary: those after a plus sign.
pub open spec fn outcomes_in(lines: Seq<Seq<char>>) -> Seq<Seq<char>>
    decreases lines.len(),
{
    if lines.len() == 0 {
        Seq::empty()
    } else if text::starts_with(lines.last(), " + "@) {
        outcomes_in(lines.drop_last()).push(lines.last().skip(3))
    } else {
        outcomes_in(lines.drop_last())
    }
}

/// The severity and the text that a hazard line tells.
pub open spec fn hazard_of(line: Seq<char>) -> (Seq<char>, Seq<char>) {
    if text::starts_with(line, " ! "@) {
        ("error"@, line.skip(3))
    } else if text::starts_with(line, " ~ "@) {
        ("warning"@, line.skip(3))
    } else {
        ("info"@, line)
    }
}

pub open spec fn hazard_pairs(hazards: Seq<HazardEntry>) -> Seq<(Seq<char>, Seq<char>)> {
    Seq::new(hazards.len(), |i: int| (hazards[i].severity@, hazards[i].text@))
}

pub open spec fn hazards_in(lines: Seq<Seq<char>>) -> Seq<(Seq<char>, Seq<char>)> {
    Seq::new(lines.len(), |i: int| hazard_of(lines[i]))
}

fn outcomes_of(lines: &[String]) -> (r: Vec<String>)
    ensures
        text::views(r@) == outcomes_in(text::views(lines@)),
{
    let ghost all = text::views(lines@);
    let mut r: Vec<String> = Vec::new();
    let mut i: usize = 0;
    assert(all.take(0).len() == 0);
    assert(text::views(r@) =~= Seq::empty());
    proof {
        reveal_strlit(" + ");
    }
    while i < lines.len()
        invariant
            all == text::views(lines@),
            i <= lines@.len(),
            " + "@.len() == 3,
            text::views(r@) == outcomes_in(all.take(i as int)),
        decreases lines.len() - i,
    {
        assert(all.take(i + 1).drop_last() =~= all.take(i as int));
        assert(all.take(i + 1).last() == lines@[i as int]@);
        if let Some(outcome) = without_prefix(lines[i].as_str(), " + ") {
            let ghost before = r@;
            r.push(outcome);
            assert(text::views(r@) =~= text::views(before).push(outcome@));
        }
        i += 1;
    }
    assert(all.take(i as int) =~= all);
    r
}

fn hazards_of(lines: &[String]) -> (r: Vec<HazardEntry>)
    ensures
        hazard_pairs(r@) == hazards_in(text::views(lines@)),
{
    let ghost all = text::views(lines@);
    let mut r: Vec<HazardEntry> = Vec::new();
    let mut i: usize = 0;
    proof {
        reveal_strlit(" ! ");
        reveal_strlit(" ~ ");
    }
    while i < lines.len()
        invariant
            all == text::views(lines@),
            i <= lines@.len(),
            " ! "@.len() == 3,
            " ~ "@.len() == 3,
            hazard_pairs(r@) =~= hazards_in(all).take(i as int),
        decreases lines.len() - i,
    {
        let line = lines[i].as_str();
        let entry = match without_prefix(line, " ! ") {
            Some(told) => HazardEntry { severity: "error".to_owned(), text: told },
            None => match without_prefix(line, " ~ ") {
                Some(told) => HazardEntry { severity: "warning".to_owned(), text: told },
                None => HazardEntry { severity: "info".to_owned(), text: line.to_owned() },
            },
        };
        let ghost before = r@;
        r.push(entry);
        assert(hazard_pairs(r@) =~= hazard_pairs(before).push((entry.severity@, entry.text@)));
        assert(all[i as int] == lines@[i as int]@);
        i += 1;
    }
    assert(hazards_in(all).take(i as int) =~= hazards_in(all));
    r
}

/// The body of a result.
pub open spec fn body_of(output: HandlerOutput, command: Seq<char>) -> Seq<char> {
    match output {
        HandlerOutput::Condensed(summary) => if summary.interactive_session {
            command + ": session ended"@
        } else {
            text::join(
                seq![summary.header@] + text::views(summary.summary_lines@) + text::views(
                    summary.hazard_lines@,
                ),
                "\n"@,
            )
        },
        HandlerOutput::Narrated(told) => told.message@,
        HandlerOutput::Passthrough(passed) => passed.output@ + "\n\u{2500}\u{2500} "@ + (
        passed.footer@ + " \u{2500}\u{2500}"@),
        HandlerOutput::Structured(data) => structured_text(data),
        HandlerOutput::Interactive(duration) => command + ": session ended ("@ + (text::dec(
            (outside::nanos(duration) / 1_000_000_000) as nat,
        ) + "s)"@),
        HandlerOutput::Dangerous(warning) => warning@,
    }
}

/// Output that was condensed, and not shown live.
pub open spec fn condensed(output: HandlerOutput) -> Option<CondensedSummary> {
    match output {
        HandlerOutput::Condensed(summary) if !summary.interactive_session => Some(summary),
        _ => None,
    }
}

fn body_text(output: &HandlerOutput, command: &str) -> (r: String)
    ensures
        r@ == body_of(*output, command@),
{
    match output {
        HandlerOutput::Condensed(summary) => {
            if summary.interactive_session {
                return concat2(command, ": session ended");
            }
            let mut lines: Vec<String> = Vec::new();
            lines.push(summary.header.clone());
            assert(text::views(lines@) =~= seq![summary.header@]);
            let mut more = copy_strings(summary.summary_lines.as_slice());
            let ghost a = lines@;
            let ghost b = more@;
            lines.append(&mut more);
            assert(text::views(lines@) =~= text::views(a) + text::views(b));
            let mut last = copy_strings(summary.hazard_lines.as_slice());
            let ghost a = lines@;
            let ghost b = last@;
            lines.append(&mut last);
            assert(text::views(lines@) =~= text::views(a) + text::views(b));
            join_strings(lines.as_slice(), "\n")
        },
        HandlerOutput::Narrated(told) => told.message.clone(),
        HandlerOutput::Passthrough(passed) => {
            let end = concat2(passed.footer.as_str(), " \u{2500}\u{2500}");
            concat3(passed.output.as_str(), "\n\u{2500}\u{2500} ", end.as_str())
        },
        HandlerOutput::Structured(data) => format_structured_data(data),
        HandlerOutput::Interactive(duration) => {
            let seconds = dec_u64(duration.as_secs());
            let end = concat2(seconds.as_str(), "s)");
            concat3(command, ": session ended (", end.as_str())
        },
        HandlerOutput::Dangerous(warning) => warning.clone(),
    }
}

/// The diagnostic lines of a result, as kinds and messages.
pub open spec fn enrichment_pairs(lines: Seq<EnrichmentLine>) -> Seq<(Seq<char>, Seq<char>)> {
    Seq::new(lines.len(), |i: int| (lines[i].kind@, lines[i].message@))
}

fn copy_enrichment(lines: &[EnrichmentLine]) -> (r: Vec<EnrichmentLine>)
    ensures
        enrichment_pairs(r@) == enrichment_pairs(lines@),
{
    let ghost all = enrichment_pairs(lines@);
    let mut r: Vec<EnrichmentLine> = Vec::new();
    let mut i: usize = 0;
    while i < lines.len()
        invariant
            i <= lines@.len(),
            all == enrichment_pairs(lines@),
            enrichment_pairs(r@) =~= all.take(i as int),
        decreases lines.len() - i,
    {
        let line = EnrichmentLine {
            kind: lines[i].kind.clone(),
            message: lines[i].message.clone(),
        };
        let ghost before = r@;
        r.push(line);
        assert(enrichment_pairs(r@) =~= enrichment_pairs(before).push(
            (line.kind@, line.message@),
        ));
        i += 1;
    }
    assert(all.take(i as int) =~= all);
    r
}

/// The recommendations for a command, as flags and reasons.
pub open spec fn entry_pairs(entries: Seq<RecommendationEntry>) -> Seq<(Seq<char>, Seq<char>)> {
    Seq::new(entries.len(), |i: int| (entries[i].flag@, entries[i].reason@))
}

fn recommendation_entries(preflight: &PreflightResult) -> (r: Vec<RecommendationEntry>)
    ensures
        entry_pairs(r@) == preflight::advice(preflight.recommendations@),
{
    let ghost all = preflight::advice(preflight.recommendations@);
    let mut r: Vec<RecommendationEntry> = Vec::new();
    let mut i: usize = 0;
    while i < preflight.recommendations.len()
        invariant
            i <= preflight.recommendations@.len(),
            all == preflight::advice(preflight.recommendations@),
            entry_pairs(r@) =~= all.take(i as int),
        decreases preflight.recommendations.len() - i,
    {
        let entry = RecommendationEntry {
            flag: preflight.recommendations[i].flag.clone(),
            reason: preflight.recommendations[i].reason.clone(),
        };
        let ghost before = r@;
        r.push(entry);
        assert(entry_pairs(r@) =~= entry_pairs(before).push((entry.flag@, entry.reason@)));
        i += 1;
    }
    assert(all.take(i as int) =~= all);
    r
}

/// Puts what became of a command for showing.
pub fn router_result_to_format_input(result: &RouterResult, command: &[String]) -> (r: FormatInput)
    ensures
        r.command@ == text::join(text::views(command@), " "@),
        r.exit_code == result.exit_code,
        r.category@ == match result.output {
            HandlerOutput::Condensed(summary) if summary.interactive_session => "interactive"@,
            _ => category::category_name(result.category),
        },
        r.body@ == body_of(result.output, r.command@),
        match result.output {
            HandlerOutput::Passthrough(passed) => r.raw_output matches Some(raw) && raw@
                == passed.output@,
            _ => r.raw_output is None,
        },
        r.total_lines is None,
        r.elapsed is None,
        match condensed(result.output) {
            Some(summary) => {
                &&& text::views(r.outcomes@) == outcomes_in(text::views(summary.summary_lines@))
                &&& hazard_pairs(r.hazards@) == hazards_in(text::views(summary.hazard_lines@))
            },
            None => r.outcomes@.len() == 0 && r.hazards@.len() == 0,
        },
        enrichment_pairs(r.enrichment@) == match result.enrichment {
            Some(lines) => enrichment_pairs(lines@),
            None => Seq::empty(),
        },
        entry_pairs(r.recommendations@) == match result.preflight {
            Some(preflight) => preflight::advice(preflight.recommendations@),
            None => Seq::empty(),
        },
{
    let line = join_strings(command, " ");
    let body = body_text(&result.output, line.as_str());
    let mut category = result.category.name();
    let mut raw_output: Option<String> = None;
    let mut outcomes: Vec<String> = Vec::new();
    let mut hazards: Vec<HazardEntry> = Vec::new();
    match &result.output {
        HandlerOutput::Condensed(summary) => {
            if summary.interactive_session {
                category = "interactive";
            } else {
                outcomes = outcomes_of(summary.summary_lines.as_slice());
                hazards = hazards_of(summary.hazard_lines.as_slice());
            }
        },
        HandlerOutput::Passthrough(passed) => {
            raw_output = Some(passed.output.clone());
        },
        _ => {},
    }
    let enrichment = match &result.enrichment {
        Some(lines) => copy_enrichment(lines.as_slice()),
        None => Vec::new(),
    };
    let recommendations = match &result.preflight {
        Some(preflight) => recommendation_entries(preflight),
        None => Vec::new(),
    };
    proof {
        if result.enrichment is None {
            assert(enrichment_pairs(enrichment@) =~= Seq::empty());
        }
        if result.preflight is None {
            assert(entry_pairs(recommendations@) =~= Seq::empty());
        }
    }
    FormatInput {
        command: line,
        exit_code: result.exit_code,
        category: category.to_owned(),
        body,
        raw_output,
        total_lines: None,
        elapsed: None,
        outcomes,
        hazards,
        enrichment,
        recommendations,
    }
}

// ---------------------------------------------------------------------------
// Laws
// ---------------------------------------------------------------------------

/// The words of commands, one after the other.
pub open spec fn words_of(segments: Seq<SegmentView>) -> Seq<Seq<char>>
    decreases segments.len(),
{
    if segments.len() == 0 {
        Seq::empty()
    } else {
        words_of(segments.drop_last()) + segments.last().command
    }
}

/// The arguments that are no operators.
pub open spec fn plain_words(args: Seq<Seq<char>>) -> Seq<Seq<char>>
    decreases args.len(),
{
    if args.len() == 0 {
        Seq::empty()
    } else if operator(args.last()) is Some {
        plain_words(args.drop_last())
    } else {
        plain_words(args.drop_last()).push(args.last())
    }
}

proof fn lemma_ended(args: Seq<Seq<char>>)
    ensures
        words_of(ended(args).0) + ended(args).1 == plain_words(args),
        forall|i: int|
            0 <= i < ended(args).0.len() ==> {
                let segment = #[trigger] ended(args).0[i];
                segment.command.len() > 0 && segment.operator is Some
            },
    decreases args.len(),
{
    if args.len() == 0 {
        assert(words_of(ended(args).0) + ended(args).1 =~= plain_words(args));
    } else {
        lemma_ended(args.drop_last());
        let (segments, words) = ended(args.drop_last());
        let (now, left) = ended(args);
        match operator(args.last()) {
            Some(op) => {
                if words.len() > 0 {
                    assert(now.drop_last() =~= segments);
                    assert(words_of(now) + left =~= words_of(segments) + words);
                }
            },
            None => {
                assert(words_of(segments) + words.push(args.last()) =~= (words_of(segments)
                    + words).push(args.last()));
            },
        }
    }
}

/// Every word that is no operator stands in a command, in its order, and no
/// command is empty.
pub proof fn law_compound_keeps_its_words(args: Seq<Seq<char>>)
    ensures
        words_of(segments_of(args)) == plain_words(args),
        forall|i: int|
            0 <= i < segments_of(args).len() ==> (#[trigger] segments_of(args)[i]).command.len()
                > 0,
{
    lemma_ended(args);
    let (segments, words) = ended(args);
    let all = segments_of(args);
    if words.len() > 0 {
        assert(all.drop_last() =~= segments);
    } else if segments.len() > 0 {
        assert(all.drop_last() =~= segments.drop_last());
        assert(segments[segments.len() - 1].command.len() > 0);
        assert(words_of(all) =~= words_of(segments) + words);
    } else {
        assert(words_of(all) =~= words_of(segments) + words);
    }
}

/// Behind every command but the last stands an operator, and none behind the
/// last.
pub proof fn law_only_the_last_has_no_operator(args: Seq<Seq<char>>)
    ensures
        forall|i: int|
            0 <= i < segments_of(args).len() ==> ((#[trigger] segments_of(args)[i]).operator is None
                <==> i == segments_of(args).len() - 1),
{
    lemma_ended(args);
}

/// The command that runs next is the first one, from where the run stands, that its
/// operator lets run. Every one that is passed over stands behind `&&` after a failure
/// or behind `||` after a success; the one that runs does not.
pub proof fn law_next_command_is_the_first_allowed(segments: Seq<SegmentView>, i: int, exit: int)
    requires
        0 <= i <= segments.len(),
    ensures
        i <= next_to_run(segments, i, exit) <= segments.len(),
        forall|j: int|
            i <= j < next_to_run(segments, i, exit) ==> {
                ||| #[trigger] segments[j - 1].operator == Some(CompoundOp::And) && exit != 0
                ||| segments[j - 1].operator == Some(CompoundOp::Or) && exit == 0
            },
        i < next_to_run(segments, i, exit) ==> i > 0,
        ({
            let at = next_to_run(segments, i, exit);
            at < segments.len() && at > 0 ==> {
                ||| segments[at - 1].operator == Some(CompoundOp::And) && exit == 0
                ||| segments[at - 1].operator == Some(CompoundOp::Or) && exit != 0
                ||| segments[at - 1].operator == Some(CompoundOp::Sequence)
                ||| segments[at - 1].operator is None
            }
        }),
    decreases segments.len() - i,
{
    if i < segments.len() && !may_run(segments, i, exit) {
        law_next_command_is_the_first_allowed(segments, i + 1, exit);
    }
}

/// After a failure nothing joined by `&&` runs any more.
pub proof fn law_failure_stops_a_chain(segments: Seq<SegmentView>, i: int, exit: int)
    requires
        0 < i <= segments.len(),
        exit != 0,
        forall|j: int|
            i - 1 <= j < segments.len() - 1 ==> (#[trigger] segments[j]).operator == Some(
                CompoundOp::And,
            ),
    ensures
        next_to_run(segments, i, exit) == segments.len(),
    decreases segments.len() - i,
{
    if i < segments.len() {
        assert(segments[i - 1].operator == Some(CompoundOp::And));
        law_failure_stops_a_chain(segments, i + 1, exit);
    }
}

/// After a success nothing joined by `||` runs any more.
pub proof fn law_success_ends_the_alternatives(segments: Seq<SegmentView>, i: int)
    requires
        0 < i <= segments.len(),
        forall|j: int|
            i - 1 <= j < segments.len() - 1 ==> (#[trigger] segments[j]).operator == Some(
                CompoundOp::Or,
            ),
    ensures
        next_to_run(segments, i, 0) == segments.len(),
    decreases segments.len() - i,
{
    if i < segments.len() {
        assert(segments[i - 1].operator == Some(CompoundOp::Or));
        law_success_ends_the_alternatives(segments, i + 1);
    }
}

/// The first command runs, and so does every one behind a semicolon.
pub proof fn law_semicolons_always_run(segments: Seq<SegmentView>, i: int, exit: int)
    requires
        0 <= i < segments.len(),
        i == 0 || segments[i - 1].operator == Some(CompoundOp::Sequence),
    ensures
        next_to_run(segments, i, exit) == i,
{
}

/// The word for an operator.
pub open spec fn operator_word(op: CompoundOp) -> Seq<char> {
    match op {
        CompoundOp::And => seq!['&', '&'],
        CompoundOp::Or => seq!['|', '|'],
        CompoundOp::Sequence => seq![';'],
    }
}

/// The word is one of the operators.
pub open spec fn is_operator_word(word: Seq<char>) -> bool {
    word == seq!['&', '&'] || word == seq!['|', '|'] || word == seq![';']
}

/// A compound as a command line: each command, and its operator behind it.
pub open spec fn command_line(segments: Seq<SegmentView>) -> Seq<Seq<char>>
    decreases segments.len(),
{
    if segments.len() == 0 {
        Seq::empty()
    } else {
        let last = segments.last();
        command_line(segments.drop_last()) + last.command + match last.operator {
            Some(op) => seq![operator_word(op)],
            None => Seq::empty(),
        }
    }
}

proof fn lemma_operator_words(word: Seq<char>)
    ensures
        operator(word) is Some <==> is_operator_word(word),
        forall|op: CompoundOp| operator(#[trigger] operator_word(op)) == Some(op),
{
    reveal_strlit("&&");
    reveal_strlit("||");
    reveal_strlit(";");
    assert("&&"@ =~= seq!['&', '&']);
    assert("||"@ =~= seq!['|', '|']);
    assert(";"@ =~= seq![';']);
    assert("&&"@[0] == '&' && "||"@[0] == '|' && ";"@[0] == ';');
}

proof fn lemma_ended_with_words(args: Seq<Seq<char>>, words: Seq<Seq<char>>)
    requires
        forall|i: int| 0 <= i < words.len() ==> !is_operator_word(#[trigger] words[i]),
    ensures
        ended(args + words) == (ended(args).0, ended(args).1 + words),
    decreases words.len(),
{
    if words.len() == 0 {
        assert(args + words =~= args);
        assert(ended(args).1 + words =~= ended(args).1);
    } else {
        let fewer = words.drop_last();
        lemma_ended_with_words(args, fewer);
        lemma_operator_words(words.last());
        assert((args + words).drop_last() =~= args + fewer);
        assert((args + words).last() == words.last());
        assert((ended(args).1 + fewer).push(words.last()) =~= ended(args).1 + words);
    }
}

proof fn lemma_command_line_ends(segments: Seq<SegmentView>)
    requires
        forall|i: int|
            #![trigger segments[i]]
            0 <= i < segments.len() ==> segments[i].command.len() > 0
                && segments[i].operator is Some && forall|j: int|
                0 <= j < segments[i].command.len() ==> !is_operator_word(
                    #[trigger] segments[i].command[j],
                ),
    ensures
        ended(command_line(segments)) == (segments, Seq::<Seq<char>>::empty()),
    decreases segments.len(),
{
    if segments.len() == 0 {
        assert(segments =~= Seq::empty());
    } else {
        let fewer = segments.drop_last();
        let last = segments.last();
        lemma_command_line_ends(fewer);
        let before = command_line(fewer) + last.command;
        let line = command_line(segments);
        lemma_ended_with_words(command_line(fewer), last.command);
        assert(Seq::<Seq<char>>::empty() + last.command =~= last.command);
        lemma_operator_words(operator_word(last.operator->0));
        assert(line.drop_last() =~= before);
        assert(line.last() == operator_word(last.operator->0));
        assert(fewer.push(last) =~= segments);
    }
}

/// A compound that is written as a command line, with its operators between the
/// commands, is read back from it.
pub proof fn law_compound_is_read_back(segments: Seq<SegmentView>)
    requires
        segments.len() > 0,
        forall|i: int|
            #![trigger segments[i]]
            0 <= i < segments.len() ==> segments[i].command.len() > 0 && (
            segments[i].operator is None <==> i == segments.len() - 1) && forall|j: int|
                0 <= j < segments[i].command.len() ==> !is_operator_word(
                    #[trigger] segments[i].command[j],
                ),
    ensures
        segments_of(command_line(segments)) == segments,
{
    let fewer = segments.drop_last();
    let last = segments.last();
    assert forall|i: int|
        #![trigger fewer[i]]
        0 <= i < fewer.len() implies fewer[i].command.len() > 0 && fewer[i].operator is Some
        && forall|j: int|
        0 <= j < fewer[i].command.len() ==> !is_operator_word(#[trigger] fewer[i].command[j]) by {
        assert(fewer[i] == segments[i]);
    }
    lemma_command_line_ends(fewer);
    assert(last == segments[segments.len() - 1]);
    lemma_ended_with_words(command_line(fewer), last.command);
    assert(Seq::<Seq<char>>::empty() + last.command =~= last.command);
    assert(command_line(segments) =~= command_line(fewer) + last.command);
    assert(fewer.push(last) =~= segments);
}

/// An operator behind the last command, or before the first, changes nothing.
pub proof fn law_idle_operators_change_nothing(args: Seq<Seq<char>>, op: CompoundOp)
    ensures
        segments_of(args.push(operator_word(op))) == segments_of(args),
        segments_of(seq![operator_word(op)] + args) == segments_of(args),
{
    lemma_operator_words(operator_word(op));
    let more = args.push(operator_word(op));
    assert(more.drop_last() =~= args);
    let (segments, words) = ended(args);
    assert(segments_of(more) =~= segments_of(args));
    lemma_operator_first(args, op);
}

proof fn lemma_operator_first(args: Seq<Seq<char>>, op: CompoundOp)
    ensures
        ended(seq![operator_word(op)] + args) == ended(args),
    decreases args.len(),
{
    lemma_operator_words(operator_word(op));
    let more = seq![operator_word(op)] + args;
    if args.len() == 0 {
        assert(more.drop_last() =~= args);
        assert(more.last() == operator_word(op));
    } else {
        lemma_operator_first(args.drop_last(), op);
        assert(more.drop_last() =~= seq![operator_word(op)] + args.drop_last());
        assert(more.last() == args.last());
    }
}

/// Of the lines of a summary those that begin with a plus sign between blanks are
/// outcomes, and what stands behind it is their text.
pub proof fn law_outcomes_are_told_behind_a_plus(lines: Seq<Seq<char>>)
    ensures
        outcomes_in(lines) == lines.filter(
            |line: Seq<char>|
                line.len() >= 3 && line[0] == ' ' && line[1] == '+' && line[2] == ' ',
        ).map_values(|line: Seq<char>| line.skip(3)),
    decreases lines.len(),
{
    reveal(Seq::filter);
    reveal_strlit(" + ");
    assert(" + "@ =~= seq![' ', '+', ' ']);
    let told = |line: Seq<char>|
        line.len() >= 3 && line[0] == ' ' && line[1] == '+' && line[2] == ' ';
    let behind = |line: Seq<char>| line.skip(3);
    if lines.len() > 0 {
        law_outcomes_are_told_behind_a_plus(lines.drop_last());
        let line = lines.last();
        let before = lines.drop_last().filter(told);
        assert(text::starts_with(line, " + "@) == told(line)) by {
            if line.len() >= 3 {
                let start = line.take(3);
                assert(start[0] == line[0] && start[1] == line[1] && start[2] == line[2]);
                if told(line) {
                    assert(start =~= seq![' ', '+', ' ']);
                }
            }
        }
        if told(line) {
            assert(before.push(line).map_values(behind) =~= before.map_values(behind).push(
                line.skip(3),
            ));
        }
    }
    assert(outcomes_in(lines) =~= lines.filter(told).map_values(behind));
}

/// The outcomes that a summary tells are read back from its lines.
pub proof fn law_outcomes_are_read_back(texts: Seq<Seq<char>>)
    ensures
        outcomes_in(texts.map_values(|t: Seq<char>| seq![' ', '+', ' '] + t)) == texts,
    decreases texts.len(),
{
    reveal_strlit(" + ");
    assert(" + "@ =~= seq![' ', '+', ' ']);
    let mark = |t: Seq<char>| seq![' ', '+', ' '] + t;
    let lines = texts.map_values(mark);
    if texts.len() > 0 {
        law_outcomes_are_read_back(texts.drop_last());
        assert(lines.drop_last() =~= texts.drop_last().map_values(mark));
        let line = lines.last();
        assert(line == mark(texts.last()));
        assert(line.take(3) =~= seq![' ', '+', ' ']);
        assert(line.skip(3) =~= texts.last());
        assert(texts.drop_last().push(texts.last()) =~= texts);
    } else {
        assert(texts =~= Seq::empty());
    }
}

/// A hazard is an error behind an exclamation mark, a warning behind a tilde, and else
/// only told.
pub proof fn law_hazards_are_read_back(told: Seq<char>, mark: char)
    ensures
        hazard_of(seq![' ', '!', ' '] + told) == ("error"@, told),
        hazard_of(seq![' ', '~', ' '] + told) == ("warning"@, told),
        mark != '!' && mark != '~' ==> hazard_of(seq![' ', mark, ' '] + told) == (
            "info"@,
            seq![' ', mark, ' '] + told,
        ),
        told.len() == 0 || told[0] != ' ' ==> hazard_of(told) == ("info"@, told),
{
    reveal_strlit(" ! ");
    reveal_strlit(" ~ ");
    assert(" ! "@ =~= seq![' ', '!', ' ']);
    assert(" ~ "@ =~= seq![' ', '~', ' ']);
    let error = seq![' ', '!', ' '] + told;
    assert(error.take(3) =~= seq![' ', '!', ' ']);
    assert(error.skip(3) =~= told);
    let warning = seq![' ', '~', ' '] + told;
    assert(warning.take(3) =~= seq![' ', '~', ' ']);
    assert(warning.skip(3) =~= told);
    assert(warning.take(3)[1] == '~');
    let other = seq![' ', mark, ' '] + told;
    assert(other.take(3)[1] == mark);
    if told.len() >= 3 {
        assert(told.take(3)[0] == told[0]);
    }
}

/// The flags that ask for a mode; no other word does.
pub proof fn law_three_flags_ask_for_a_mode(flag: Seq<char>)
    ensures
        mode_of("--json"@) == Some(OutputMode::Json),
        mode_of("--passthrough"@) == Some(OutputMode::Passthrough),
        mode_of("--context"@) == Some(OutputMode::Context),
        flag != "--json"@ && flag != "--passthrough"@ && flag != "--context"@ ==> mode_of(
            flag,
        ) is None,
{
    reveal_strlit("--json");
    reveal_strlit("--passthrough");
    reveal_strlit("--context");
    assert("--json"@.len() == 6 && "--passthrough"@.len() == 13 && "--context"@.len() == 9);
}

/// An interrupt is a second one where less than a second went by since the last.
pub proof fn law_second_interrupts_come_within_a_second(last: Duration, now: Duration)
    ensures
        !is_double(None, now),
        is_double(Some(last), now) <==> outside::nanos(now) - outside::nanos(last)
            < 1_000_000_000,
{
}

/// A child gives the code that it ended with, or the number of the signal that ended it
/// and 128, or else one.
pub proof fn law_children_tell_how_they_ended(status: ExitStatus)
    ensures
        status.code is Some ==> child_code(status) == status.code->0,
        status.code is None && status.signal is Some ==> child_code(status) == status.signal->0
            + 128,
        status.code is None && status.signal is None ==> child_code(status) == 1,
{
}

/// A line with a pipe in it is a pipeline, whatever operators it has besides; nothing at
/// all asks for the usage; everything else is a compound of which nothing has run.
pub proof fn law_pipes_make_a_pipeline(r: Plan, args: Seq<Seq<char>>)
    requires
        is_plan(r, args),
    ensures
        r is Usage <==> args.len() == 0,
        r is Pipeline <==> exists|i: int| 0 <= i < args.len() && #[trigger] args[i] == seq!['|'],
        r matches Plan::Pipeline(line) ==> line@ == text::join(args, seq![' ']),
        r matches Plan::Compound(run) ==> run.next == 0 && run.last_exit_code == 0
            && run.results@.len() == 0,
{
    reveal_strlit("|");
    reveal_strlit(" ");
    assert("|"@ =~= seq!['|']);
    assert(" "@ =~= seq![' ']);
    if args.contains("|"@) {
        let i = choose|i: int| 0 <= i < args.len() && args[i] == "|"@;
        assert(args[i] == seq!['|']);
    }
    if exists|i: int| 0 <= i < args.len() && #[trigger] args[i] == seq!['|'] {
        let i = choose|i: int| 0 <= i < args.len() && #[trigger] args[i] == seq!['|'];
        assert(args.contains(args[i]));
    }
}

/// Where the first word asks for a mode, what is run is the rest; else it is the whole
/// line, for people to read.
pub proof fn law_the_mode_is_taken_off(args: &[String], r: (OutputMode, Plan))
    requires
        call_ensures(run, (args,), r),
    ensures
        args@.len() > 0 && args@[0]@ == "--json"@ ==> r.0 == OutputMode::Json && is_plan(
            r.1,
            text::views(args@).skip(1),
        ),
        args@.len() > 0 && args@[0]@ == "--passthrough"@ ==> r.0 == OutputMode::Passthrough
            && is_plan(r.1, text::views(args@).skip(1)),
        args@.len() > 0 && args@[0]@ == "--context"@ ==> r.0 == OutputMode::Context && is_plan(
            r.1,
            text::views(args@).skip(1),
        ),
        args@.len() == 0 || (args@[0]@ != "--json"@ && args@[0]@ != "--passthrough"@ && args@[0]@
            != "--context"@) ==> r.0 == OutputMode::Human && is_plan(r.1, text::views(args@)),
{
    if args@.len() > 0 {
        law_three_flags_ask_for_a_mode(args@[0]@);
    }
}

/// What is shown of a result whose output was condensed: the header first, then the
/// summary, then the hazards, each on a line of its own; and its outcomes and hazards
/// are those lines without their marks.
pub proof fn law_condensed_output_is_shown_whole(
    result: &RouterResult,
    command: &[String],
    r: FormatInput,
    summary: CondensedSummary,
)
    requires
        call_ensures(router_result_to_format_input, (result, command), r),
        result.output == HandlerOutput::Condensed(summary),
        !summary.interactive_session,
    ensures
        r.exit_code == result.exit_code,
        r.command@ == text::join(text::views(command@), seq![' ']),
        r.body@ == text::join(
            seq![summary.header@] + text::views(summary.summary_lines@) + text::views(
                summary.hazard_lines@,
            ),
            seq!['\n'],
        ),
        text::views(r.outcomes@) == text::views(summary.summary_lines@).filter(
            |line: Seq<char>|
                line.len() >= 3 && line[0] == ' ' && line[1] == '+' && line[2] == ' ',
        ).map_values(|line: Seq<char>| line.skip(3)),
        r.hazards@.len() == summary.hazard_lines@.len(),
        forall|i: int|
            0 <= i < r.hazards@.len() ==> (#[trigger] r.hazards@[i]).text@ == hazard_of(
                summary.hazard_lines@[i]@,
            ).1 && r.hazards@[i].severity@ == hazard_of(summary.hazard_lines@[i]@).0,
        r.raw_output is None,
{
    reveal_strlit(" ");
    reveal_strlit("\n");
    assert(" "@ =~= seq![' ']);
    assert("\n"@ =~= seq!['\n']);
    law_outcomes_are_told_behind_a_plus(text::views(summary.summary_lines@));
    let told = hazards_in(text::views(summary.hazard_lines@));
    assert(hazard_pairs(r.hazards@).len() == told.len());
    assert forall|i: int| 0 <= i < r.hazards@.len() implies (#[trigger] r.hazards@[i]).text@
        == hazard_of(summary.hazard_lines@[i]@).1 && r.hazards@[i].severity@ == hazard_of(
        summary.hazard_lines@[i]@,
    ).0 by {
        assert(hazard_pairs(r.hazards@)[i] == told[i]);
    }
}

/// Output that was passed through is kept as it was, and its footer comes behind it on a
/// line of its own.
pub proof fn law_passed_output_is_kept(
    result: &RouterResult,
    command: &[String],
    r: FormatInput,
    passed: PassthroughResult,
)
    requires
        call_ensures(router_result_to_format_input, (result, command), r),
        result.output == HandlerOutput::Passthrough(passed),
    ensures
        r.raw_output is Some,
        r.raw_output->0@ == passed.output@,
        r.body@ == passed.output@ + seq!['\n', '\u{2500}', '\u{2500}', ' '] + passed.footer@ + seq![
            ' ',
            '\u{2500}',
            '\u{2500}',
        ],
        r.outcomes@.len() == 0,
        r.hazards@.len() == 0,
{
    reveal_strlit("\n\u{2500}\u{2500} ");
    reveal_strlit(" \u{2500}\u{2500}");
    assert("\n\u{2500}\u{2500} "@ =~= seq!['\n', '\u{2500}', '\u{2500}', ' ']);
    assert(" \u{2500}\u{2500}"@ =~= seq![' ', '\u{2500}', '\u{2500}']);
    assert(r.body@ =~= passed.output@ + seq!['\n', '\u{2500}', '\u{2500}', ' '] + passed.footer@
        + seq![' ', '\u{2500}', '\u{2500}']);
}

/// A child that was asked to end has five seconds; after that it is killed even if it
/// has ended meanwhile.
pub proof fn law_children_have_five_seconds(waited: Duration, exited: bool, r: TerminateStep)
    requires
        call_ensures(terminate_step, (waited, exited), r),
    ensures
        r is Kill <==> outside::nanos(waited) > 5_000_000_000,
        r is Done <==> outside::nanos(waited) <= 5_000_000_000 && exited,
{
}

/// A pipeline is shown as it is: what it wrote to its output, then what it wrote to its
/// error output; without a code it counts as ended with minus one.
pub proof fn law_pipelines_are_shown_as_they_are(
    args: &[String],
    stdout: &[u8],
    stderr: &[u8],
    code: Option<i32>,
    r: FormatInput,
)
    requires
        call_ensures(pipeline_result, (args, stdout, stderr, code), r),
    ensures
        r.body@ == outside::lossy(stdout@) + outside::lossy(stderr@),
        r.raw_output is Some,
        r.raw_output->0@ == outside::lossy(stdout@) + outside::lossy(stderr@),
        r.command@ == text::join(text::views(args@), seq![' ']),
        code matches Some(code) ==> r.exit_code == code,
        code is None ==> r.exit_code == -1,
        r.category@ == "passthrough"@,
        r.outcomes@.len() == 0 && r.hazards@.len() == 0 && r.enrichment@.len() == 0
            && r.recommendations@.len() == 0,
{
    reveal_strlit(" ");
    assert(" "@ =~= seq![' ']);
}

} // verus!
