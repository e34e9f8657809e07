//! The buffer that collects classified lines and tells what is worth telling:
//! hazards and prompts at once, outcomes and numbers at the end.
use std::collections::vec_deque::Iter;
use std::collections::VecDeque;
use std::time::Duration;
use vstd::prelude::*;

use crate::classifier;
use crate::classifier::{ClassView, Classification};
use crate::grammar;
use crate::grammar::{format_summary, Action, Grammar, Severity};
use crate::outside;
use crate::strmap;
use crate::strmap::{copy_texts, StrMap};
use crate::text;
use crate::text::concat2;

verus! {

/// Timing of the emit buffer.
#[derive(Debug)]
pub struct TimingConfig {
    /// How long an unfinished line waits until it counts as a prompt.
    pub partial_line_timeout: Duration,
    /// The silence after which what is pending is flushed.
    pub silence_timeout: Duration,
    /// How often a long-running command is flushed.
    pub flush_interval: Duration,
    /// The least time between two flushes.
    pub flush_debounce: Duration,
}

impl Clone for TimingConfig {
    fn clone(&self) -> (r: Self)
        ensures
            r == *self,
    {
        TimingConfig {
            partial_line_timeout: self.partial_line_timeout,
            silence_timeout: self.silence_timeout,
            flush_interval: self.flush_interval,
            flush_debounce: self.flush_debounce,
        }
    }
}

impl Default for TimingConfig {
    fn default() -> (r: Self)
        ensures
            outside::nanos(r.partial_line_timeout) == 500_000_000,
            outside::nanos(r.silence_timeout) == 2_000_000_000,
            outside::nanos(r.flush_interval) == 5_000_000_000,
            outside::nanos(r.flush_debounce) == 200_000_000,
    {
        TimingConfig {
            partial_line_timeout: Duration::from_millis(500),
            silence_timeout: Duration::from_millis(2000),
            flush_interval: Duration::from_millis(5000),
            flush_debounce: Duration::from_millis(200),
        }
    }
}

/// An outcome: its line, and what its rule caught.
#[derive(Debug, Clone)]
pub struct CapturedOutcome {
    pub text: String,
    pub captures: StrMap<String>,
}

pub struct OutcomeView {
    pub text: Seq<char>,
    pub captures: Seq<(Seq<char>, Seq<char>)>,
}

impl View for CapturedOutcome {
    type V = OutcomeView;

    open spec fn view(&self) -> OutcomeView {
        OutcomeView { text: self.text@, captures: strmap::text_pairs(self.captures@) }
    }
}

/// A hazard that was told.
#[derive(Debug, Clone)]
pub struct EmittedHazard {
    pub severity: Severity,
    pub text: String,
    pub attached_lines: Vec<String>,
}

pub struct HazardView {
    pub severity: Severity,
    pub text: Seq<char>,
    pub attached_lines: Seq<Seq<char>>,
}

impl View for EmittedHazard {
    type V = HazardView;

    open spec fn view(&self) -> HazardView {
        HazardView {
            severity: self.severity,
            text: self.text@,
            attached_lines: text::views(self.attached_lines@),
        }
    }
}

/// What is told when the command has ended.
#[derive(Debug, Clone)]
pub struct Summary {
    pub header: String,
    pub summary_lines: Vec<String>,
    pub hazard_lines: Vec<String>,
    pub exit_code: i32,
}

// ---------------------------------------------------------------------------
// The last lines
// ---------------------------------------------------------------------------

/// The items with another one behind them, the first given up where `capacity`
/// is reached.
pub open spec fn ring_push(ring: Seq<Seq<char>>, capacity: nat, item: Seq<char>) -> Seq<Seq<char>> {
    if ring.len() == capacity && ring.len() > 0 {
        ring.skip(1).push(item)
    } else {
        ring.push(item)
    }
}

/// The last `capacity` items that were pushed.
pub struct RingBuffer {
    pub buf: VecDeque<String>,
    pub capacity: usize,
}

impl RingBuffer {
    pub fn new(capacity: usize) -> (r: Self)
        ensures
            r.buf@ == Seq::<String>::empty(),
            r.capacity == capacity,
    {
        RingBuffer { buf: VecDeque::new(), capacity }
    }

    pub fn push(&mut self, item: String)
        ensures
            text::views(final(self).buf@) == ring_push(
                text::views(old(self).buf@),
                old(self).capacity as nat,
                item@,
            ),
            final(self).capacity == old(self).capacity,
    {
        let ghost before = self.buf@;
        if self.buf.len() == self.capacity {
            let _oldest = self.buf.pop_front();
        }
        self.buf.push_back(item);
        proof {
            assert(text::views(self.buf@) =~= ring_push(
                text::views(before),
                self.capacity as nat,
                item@,
            ));
        }
    }

    /// The items, oldest first.
    pub fn iter(&self) -> (r: Iter<'_, String>)
        ensures
            r == vstd::std_specs::vecdeque::spec_iter(&self.buf),
    {
        self.buf.iter()
    }

    pub fn len(&self) -> (r: usize)
        ensures
            r == self.buf@.len(),
    {
        self.buf.len()
    }
}

// ---------------------------------------------------------------------------
// The emit buffer, specified
// ---------------------------------------------------------------------------

/// How many of the last lines are kept.
pub const LAST_LINES: usize = 5;

/// From how many pending lines on their number is told.
pub const PENDING_TOLD_FROM: u64 = 10;

pub struct EmitView {
    /// Lines of which nothing was told since the last flush.
    pub pending: nat,
    pub outcomes: Seq<OutcomeView>,
    pub hazards: Seq<HazardView>,
    /// The last lines that were not empty.
    pub ring: Seq<Seq<char>>,
    pub line_count: nat,
    /// What the groups of similar lines, if flushed now, would tell.
    pub dedup: Seq<Seq<char>>,
    pub output: Seq<Seq<char>>,
}

/// Before the first line.
pub open spec fn nothing_yet() -> EmitView {
    EmitView {
        pending: 0,
        outcomes: Seq::empty(),
        hazards: Seq::empty(),
        ring: Seq::empty(),
        line_count: 0,
        dedup: Seq::empty(),
        output: Seq::empty(),
    }
}

/// What is told of the pending lines.
pub open spec fn pending_note(pending: nat) -> Seq<Seq<char>> {
    if pending >= PENDING_TOLD_FROM {
        seq![" ... "@ + text::dec(pending) + " lines"@]
    } else {
        Seq::empty()
    }
}

/// All that is pending is told or given up.
pub open spec fn flushed(s: EmitView) -> EmitView {
    EmitView {
        pending: 0,
        dedup: Seq::empty(),
        output: s.output + pending_note(s.pending) + s.dedup,
        ..s
    }
}

pub open spec fn severity_mark(severity: Severity) -> Seq<char> {
    match severity {
        Severity::Error => " ! "@,
        Severity::Warning => " ~ "@,
    }
}

/// The state after another line. Hazards and prompts flush what is pending and
/// are told at once; outcomes are kept; all else is pending.
pub open spec fn accepted(s: EmitView, class: ClassView) -> EmitView {
    let line = classifier::class_text(class);
    let counted = EmitView {
        line_count: s.line_count + 1,
        ring: if line.len() > 0 {
            ring_push(s.ring, LAST_LINES as nat, line)
        } else {
            s.ring
        },
        ..s
    };
    match class {
        ClassView::Hazard { severity, text, .. } => {
            let f = flushed(counted);
            EmitView {
                output: f.output.push(severity_mark(severity) + text),
                hazards: f.hazards.push(
                    HazardView { severity, text, attached_lines: Seq::empty() },
                ),
                ..f
            }
        },
        ClassView::Outcome { text, captures } => EmitView {
            outcomes: counted.outcomes.push(OutcomeView { text, captures }),
            ..counted
        },
        ClassView::Prompt { text } => {
            let f = flushed(counted);
            EmitView { output: f.output.push(" ? "@ + text), ..f }
        },
        ClassView::Noise { .. } => EmitView { pending: counted.pending + 1, ..counted },
        ClassView::Unknown { .. } => EmitView { pending: counted.pending + 1, ..counted },
    }
}

/// The lines with a mark before each.
pub open spec fn marked(mark: Seq<char>, lines: Seq<Seq<char>>) -> Seq<Seq<char>> {
    Seq::new(lines.len(), |i: int| mark + lines[i])
}

pub open spec fn outcome_texts(outcomes: Seq<OutcomeView>) -> Seq<Seq<char>> {
    Seq::new(outcomes.len(), |i: int| outcomes[i].text)
}

pub open spec fn captures_of(outcomes: Seq<OutcomeView>) -> Seq<Seq<(Seq<char>, Seq<char>)>> {
    Seq::new(outcomes.len(), |i: int| outcomes[i].captures)
}

/// The lines of the summary: the grammar's summary where there is one, or else
/// the outcomes; the last lines only where there is neither grammar nor
/// outcome.
pub open spec fn summary_of(
    s: EmitView,
    exit_code: int,
    grammar: Option<grammar::GrammarView>,
    action: Option<grammar::ActionView>,
) -> Seq<Seq<char>> {
    let told = marked(" + "@, outcome_texts(s.outcomes));
    match grammar {
        Some(g) => {
            let lines = grammar::summary_text(
                g,
                action,
                captures_of(s.outcomes),
                exit_code,
                s.line_count,
            );
            if lines.len() == 0 && s.outcomes.len() > 0 {
                told
            } else {
                lines
            }
        },
        None => if s.outcomes.len() > 0 {
            told
        } else {
            marked(" last: "@, s.ring)
        },
    }
}

/// The header of a summary; `elapsed` is the time in seconds as a text.
pub open spec fn header_of(line_count: nat, exit_code: int, elapsed: Seq<char>) -> Seq<char> {
    text::dec(line_count) + " lines → exit "@ + text::dec_int(exit_code) + " ("@ + elapsed
        + "s)"@
}

// ---------------------------------------------------------------------------
// The emit buffer
// ---------------------------------------------------------------------------

pub struct EmitBuffer {
    pub pending_count: u64,
    pub outcomes: Vec<CapturedOutcome>,
    pub hazards: Vec<EmittedHazard>,
    pub ring: RingBuffer,
    pub line_count: u64,
    pub dedup: Vec<String>,
    pub output: Vec<String>,
}

impl View for EmitBuffer {
    type V = EmitView;

    open spec fn view(&self) -> EmitView {
        EmitView {
            pending: self.pending_count as nat,
            outcomes: Seq::new(self.outcomes@.len(), |i: int| self.outcomes@[i]@),
            hazards: Seq::new(self.hazards@.len(), |i: int| self.hazards@[i]@),
            ring: text::views(self.ring.buf@),
            line_count: self.line_count as nat,
            dedup: text::views(self.dedup@),
            output: text::views(self.output@),
        }
    }
}

impl EmitBuffer {
    /// No more lines are pending than were seen, and the ring has its size.
    pub open spec fn wf(&self) -> bool {
        &&& self.pending_count <= self.line_count
        &&& self.ring.capacity == LAST_LINES
        &&& self.ring.buf@.len() <= LAST_LINES
    }

    pub fn new() -> (r: Self)
        ensures
            r.wf(),
            r@ == nothing_yet(),
    {
        let r = EmitBuffer {
            pending_count: 0,
            outcomes: Vec::new(),
            hazards: Vec::new(),
            ring: RingBuffer::new(LAST_LINES),
            line_count: 0,
            dedup: Vec::new(),
            output: Vec::new(),
        };
        proof {
            assert(r@.outcomes =~= Seq::<OutcomeView>::empty());
            assert(r@.hazards =~= Seq::<HazardView>::empty());
            assert(r@.ring =~= Seq::<Seq<char>>::empty());
            assert(r@.dedup =~= Seq::<Seq<char>>::empty());
            assert(r@.output =~= Seq::<Seq<char>>::empty());
        }
        r
    }

    /// Sets what the groups of similar lines, if flushed now, would tell.
    pub fn set_dedup(&mut self, lines: Vec<String>)
        ensures
            final(self)@ == (EmitView { dedup: text::views(lines@), ..old(self)@ }),
            old(self).wf() ==> final(self).wf(),
    {
        self.dedup = lines;
    }

    /// Tells the number of pending lines, where it is large, and forgets it.
    fn flush_pending_count(&mut self)
        ensures
            final(self)@ == (EmitView {
                pending: 0,
                output: old(self)@.output + pending_note(old(self)@.pending),
                ..old(self)@
            }),
            old(self).wf() ==> final(self).wf(),
    {
        let ghost before = self@;
        if self.pending_count >= PENDING_TOLD_FROM {
            let mut note = String::new();
            note.append(" ... ");
            text::push_dec(&mut note, self.pending_count);
            note.append(" lines");
            proof {
                assert(note@ =~= pending_note(before.pending)[0]);
            }
            self.output.push(note);
        }
        self.pending_count = 0;
        proof {
            assert(self@.output =~= before.output + pending_note(before.pending));
        }
    }

    /// Flushes all that is pending.
    pub fn flush_pending(&mut self)
        ensures
            final(self)@ == flushed(old(self)@),
            old(self).wf() ==> final(self).wf(),
    {
        self.flush_pending_count();
        let ghost noted = self.output@;
        let ghost lines = self.dedup@;
        self.output.append(&mut self.dedup);
        proof {
            assert(self@.output =~= text::views(noted) + text::views(lines));
            assert(self@.dedup =~= Seq::<Seq<char>>::empty());
        }
    }

    /// Takes a classified line.
    pub fn accept(&mut self, classified: Classification)
        requires
            old(self).wf(),
            old(self).line_count < u64::MAX,
        ensures
            final(self)@ == accepted(old(self)@, classified@),
            final(self).wf(),
    {
        self.line_count = self.line_count + 1;
        if let Some(text) = classified.text() {
            if !text.is_empty() {
                let ghost ring = self.ring.buf@;
                self.ring.push(text.to_owned());
                proof {
                    assert(text::views(ring).len() == ring.len());
                    assert(text::views(self.ring.buf@).len() == self.ring.buf@.len());
                }
            }
        }
        match classified {
            Classification::Hazard { severity, text, captures: _ } => {
                self.flush_pending();
                let ghost f = self@;
                let mark = match severity {
                    Severity::Error => " ! ",
                    Severity::Warning => " ~ ",
                };
                self.output.push(concat2(mark, text.as_str()));
                self.hazards.push(EmittedHazard { severity, text, attached_lines: Vec::new() });
                proof {
                    assert(self@.output =~= f.output.push(severity_mark(severity) + text@));
                    assert(text::views(self.hazards@.last().attached_lines@)
                        =~= Seq::<Seq<char>>::empty());
                    assert(self@.hazards =~= f.hazards.push(
                        HazardView { severity, text: text@, attached_lines: Seq::empty() },
                    ));
                }
            },
            Classification::Outcome { text, captures } => {
                let ghost before = self@.outcomes;
                self.outcomes.push(CapturedOutcome { text, captures });
                proof {
                    assert(self@.outcomes =~= before.push(
                        OutcomeView { text: text@, captures: strmap::text_pairs(captures@) },
                    ));
                }
            },
            Classification::Noise { .. } => {
                self.pending_count = self.pending_count + 1;
            },
            Classification::Prompt { text } => {
                self.flush_pending();
                let ghost f = self@;
                self.output.push(concat2(" ? ", text.as_str()));
                proof {
                    assert(self@.output =~= f.output.push(" ? "@ + text@));
                }
            },
            Classification::Unknown { .. } => {
                self.pending_count = self.pending_count + 1;
            },
        }
    }

    /// The number of lines seen.
    pub fn line_count(&self) -> (r: u64)
        ensures
            r == self@.line_count,
    {
        self.line_count
    }

    /// The lines told so far.
    pub fn output(&self) -> (r: &[String])
        ensures
            text::views(r@) == self@.output,
    {
        self.output.as_slice()
    }
}

impl Default for EmitBuffer {
    fn default() -> (r: Self)
        ensures
            r.wf(),
            r@ == nothing_yet(),
    {
        Self::new()
    }
}

/// Puts a mark before each text.
fn mark_all(mark: &str, lines: &[String]) -> (r: Vec<String>)
    ensures
        text::views(r@) == marked(mark@, text::views(lines@)),
{
    let mut r: Vec<String> = Vec::new();
    let mut i: usize = 0;
    while i < lines.len()
        invariant
            i <= lines.len(),
            r@.len() == i,
            forall|j: int| 0 <= j < i ==> (#[trigger] r@[j])@ == mark@ + lines@[j]@,
        decreases lines.len() - i,
    {
        r.push(concat2(mark, lines[i].as_str()));
        i += 1;
    }
    proof {
        assert(text::views(r@) =~= marked(mark@, text::views(lines@)));
    }
    r
}

impl EmitBuffer {
    /// The outcomes' lines.
    fn told_outcomes(&self) -> (r: Vec<String>)
        ensures
            text::views(r@) == marked(" + "@, outcome_texts(self@.outcomes)),
    {
        let mut r: Vec<String> = Vec::new();
        let mut i: usize = 0;
        while i < self.outcomes.len()
            invariant
                i <= self.outcomes.len(),
                r@.len() == i,
                forall|j: int|
                    0 <= j < i ==> (#[trigger] r@[j])@ == " + "@ + self.outcomes@[j].text@,
            decreases self.outcomes.len() - i,
        {
            r.push(concat2(" + ", self.outcomes[i].text.as_str()));
            i += 1;
        }
        proof {
            assert(text::views(r@) =~= marked(" + "@, outcome_texts(self@.outcomes)));
        }
        r
    }

    /// The last lines.
    fn last_lines(&self) -> (r: Vec<String>)
        ensures
            text::views(r@) == self@.ring,
    {
        let mut r: Vec<String> = Vec::new();
        let mut i: usize = 0;
        while i < self.ring.buf.len()
            invariant
                i <= self.ring.buf@.len(),
                r@ == self.ring.buf@.take(i as int),
            decreases self.ring.buf@.len() - i,
        {
            r.push(self.ring.buf[i].clone());
            i += 1;
        }
        proof {
            assert(r@ =~= self.ring.buf@);
        }
        r
    }

    /// What the outcomes caught.
    fn grammar_outcomes(&self) -> (r: Vec<grammar::CapturedOutcome>)
        ensures
            grammar::outcome_captures(r@) == captures_of(self@.outcomes),
    {
        let mut r: Vec<grammar::CapturedOutcome> = Vec::new();
        let mut i: usize = 0;
        while i < self.outcomes.len()
            invariant
                i <= self.outcomes.len(),
                r@.len() == i,
                forall|j: int|
                    0 <= j < i ==> (#[trigger] r@[j]).captures@ == self.outcomes@[j].captures@,
            decreases self.outcomes.len() - i,
        {
            r.push(
                grammar::CapturedOutcome { captures: copy_texts(&self.outcomes[i].captures) },
            );
            i += 1;
        }
        proof {
            assert(grammar::outcome_captures(r@) =~= captures_of(self@.outcomes));
        }
        r
    }

    /// Ends the buffer with the command. `elapsed` is the time it took, in
    /// seconds, as a text.
    pub fn finalize(
        self,
        exit_code: i32,
        elapsed: &str,
        grammar: Option<&Grammar>,
        action: Option<&Action>,
    ) -> (r: Summary)
        ensures
            r.header@ == header_of(self@.line_count, exit_code as int, elapsed@),
            text::views(r.summary_lines@) == summary_of(
                self@,
                exit_code as int,
                classifier::ref_grammar_view(grammar),
                grammar::ref_view(action),
            ),
            text::views(r.hazard_lines@) == flushed(self@).output,
            r.exit_code == exit_code,
            self@.outcomes.len() > 0 ==> r.summary_lines@.len() > 0,
            self@.outcomes.len() > 0 && grammar is None ==> text::views(r.summary_lines@)
                == self@.outcomes.map_values(
                |outcome: OutcomeView| seq![' ', '+', ' '] + outcome.text,
            ),
    {
        proof {
            let told = classifier::ref_grammar_view(grammar);
            let asked = grammar::ref_view(action);
            if self@.outcomes.len() > 0 {
                law_outcomes_are_never_lost(self@, exit_code as int, told, asked);
                if grammar is None {
                    assert(summary_of(self@, exit_code as int, told, asked)
                        =~= self@.outcomes.map_values(
                        |outcome: OutcomeView| seq![' ', '+', ' '] + outcome.text,
                    ));
                }
            }
        }
        let mut buffer = self;
        buffer.flush_pending();
        let mut header = text::dec_u64(buffer.line_count);
        header.append(" lines → exit ");
        let code = text::dec_i64(exit_code as i64);
        header.append(code.as_str());
        header.append(" (");
        header.append(elapsed);
        header.append("s)");
        let summary_lines = match grammar {
            Some(g) => {
                let caught = buffer.grammar_outcomes();
                let count: u64 = buffer.line_count;
                let lines = format_summary(g, action, caught.as_slice(), exit_code, count);
                proof {
                    assert(text::views(lines@).len() == lines@.len());
                    assert(buffer@.outcomes.len() == buffer.outcomes@.len());
                }
                if lines.len() == 0 && buffer.outcomes.len() > 0 {
                    buffer.told_outcomes()
                } else {
                    lines
                }
            },
            None => {
                proof {
                    assert(buffer@.outcomes.len() == buffer.outcomes@.len());
                }
                if buffer.outcomes.len() > 0 {
                    buffer.told_outcomes()
                } else {
                    let last = buffer.last_lines();
                    mark_all(" last: ", last.as_slice())
                }
            },
        };
        Summary { header, summary_lines, hazard_lines: buffer.output, exit_code }
    }
}

// ---------------------------------------------------------------------------
// Laws
// ---------------------------------------------------------------------------

/// What was told stays told, in its order: later lines only add to it.
pub proof fn law_output_only_grows(s: EmitView, class: ClassView)
    ensures
        s.output.is_prefix_of(accepted(s, class).output),
{
    let out = accepted(s, class).output;
    assert(out.subrange(0, s.output.len() as int) =~= s.output);
}

/// A hazard is told at once, behind what was pending before it, and is kept
/// for the end.
pub proof fn law_hazards_are_told_at_once(
    s: EmitView,
    severity: Severity,
    line: Seq<char>,
    captures: Seq<(Seq<char>, Seq<char>)>,
)
    ensures
        ({
            let after = accepted(s, ClassView::Hazard { severity, text: line, captures });
            &&& after.output.last() == severity_mark(severity) + line
            &&& after.output.drop_last() == s.output + pending_note(s.pending) + s.dedup
            &&& after.hazards.last().text == line
            &&& after.pending == 0
        }),
{
    let after = accepted(s, ClassView::Hazard { severity, text: line, captures });
    assert(after.output.drop_last() =~= s.output + pending_note(s.pending) + s.dedup);
}

/// Noise and unknown lines tell nothing by themselves.
pub proof fn law_noise_is_silent(s: EmitView, class: ClassView)
    requires
        class is Noise || class is Unknown || class is Outcome,
    ensures
        accepted(s, class).output == s.output,
        accepted(s, class).hazards == s.hazards,
{
}

/// The state after several lines.
pub open spec fn accepted_all(s: EmitView, classes: Seq<ClassView>) -> EmitView
    decreases classes.len(),
{
    if classes.len() == 0 {
        s
    } else {
        accepted(accepted_all(s, classes.drop_last()), classes.last())
    }
}

/// Every line is counted once.
pub proof fn law_every_line_is_counted(s: EmitView, classes: Seq<ClassView>)
    ensures
        accepted_all(s, classes).line_count == s.line_count + classes.len(),
    decreases classes.len(),
{
    if classes.len() > 0 {
        law_every_line_is_counted(s, classes.drop_last());
    }
}

/// No more than the last lines are kept, however many come.
pub proof fn law_last_lines_are_bounded(s: EmitView, classes: Seq<ClassView>)
    requires
        s.ring.len() <= LAST_LINES,
    ensures
        accepted_all(s, classes).ring.len() <= LAST_LINES,
    decreases classes.len(),
{
    if classes.len() > 0 {
        law_last_lines_are_bounded(s, classes.drop_last());
    }
}

/// What a ring of a given capacity holds after items were pushed into it.
pub open spec fn ring_of(items: Seq<Seq<char>>, capacity: nat) -> Seq<Seq<char>>
    decreases items.len(),
{
    if items.len() == 0 {
        Seq::empty()
    } else {
        ring_push(ring_of(items.drop_last(), capacity), capacity, items.last())
    }
}

/// A ring keeps the last items, in their order, and as many as it has room for.
pub proof fn law_ring_keeps_the_last_items(items: Seq<Seq<char>>, capacity: nat)
    requires
        capacity > 0,
    ensures
        ring_of(items, capacity) == (if items.len() <= capacity {
            items
        } else {
            items.skip(items.len() - capacity)
        }),
    decreases items.len(),
{
    if items.len() > 0 {
        law_ring_keeps_the_last_items(items.drop_last(), capacity);
        assert(items.drop_last().push(items.last()) =~= items);
        if items.len() > capacity {
            assert(ring_of(items, capacity) =~= items.skip(items.len() - capacity));
        }
    } else {
        assert(items =~= Seq::empty());
    }
}

/// Outcomes are never lost: where there is one, there is a summary, and where the
/// grammar gives none, the summary is the outcomes' texts in their order, each behind a
/// plus sign.
pub proof fn law_outcomes_are_never_lost(
    s: EmitView,
    exit_code: int,
    grammar: Option<grammar::GrammarView>,
    action: Option<grammar::ActionView>,
)
    requires
        s.outcomes.len() > 0,
    ensures
        ({
            let told = summary_of(s, exit_code, grammar, action);
            let given = match grammar {
                Some(g) => grammar::summary_text(
                    g,
                    action,
                    captures_of(s.outcomes),
                    exit_code,
                    s.line_count,
                ),
                None => Seq::empty(),
            };
            &&& told.len() > 0
            &&& given.len() == 0 ==> told.len() == s.outcomes.len() && forall|i: int|
                0 <= i < told.len() ==> #[trigger] told[i] == seq![' ', '+', ' ']
                    + s.outcomes[i].text
            &&& given.len() > 0 ==> told == given
        }),
{
    reveal_strlit(" + ");
    assert(" + "@ =~= seq![' ', '+', ' ']);
}

/// Where an action, or else the fallback, has no template for how the command ended,
/// the outcomes themselves are told.
pub proof fn law_outcomes_stand_in_for_a_template(
    s: EmitView,
    exit_code: int,
    grammar: grammar::GrammarView,
    action: grammar::ActionView,
)
    requires
        s.outcomes.len() > 0,
        exit_code == 0 ==> action.summary.success.len() == 0,
        exit_code != 0 ==> action.summary.failure.len() == 0,
    ensures
        summary_of(s, exit_code, Some(grammar), Some(action)) == Seq::new(
            s.outcomes.len(),
            |i: int| seq![' ', '+', ' '] + s.outcomes[i].text,
        ),
        summary_of(
            s,
            exit_code,
            Some(grammar::GrammarView { fallback: Some(action), ..grammar }),
            None,
        ) == Seq::new(s.outcomes.len(), |i: int| seq![' ', '+', ' '] + s.outcomes[i].text),
{
    reveal_strlit(" + ");
    assert(" + "@ =~= seq![' ', '+', ' ']);
    assert(summary_of(s, exit_code, Some(grammar), Some(action)) =~= Seq::new(
        s.outcomes.len(),
        |i: int| seq![' ', '+', ' '] + s.outcomes[i].text,
    ));
    assert(summary_of(
        s,
        exit_code,
        Some(grammar::GrammarView { fallback: Some(action), ..grammar }),
        None,
    ) =~= Seq::new(s.outcomes.len(), |i: int| seq![' ', '+', ' '] + s.outcomes[i].text));
}

/// Without a grammar and without an outcome the last lines are told; with a grammar
/// they are not.
pub proof fn law_last_lines_are_the_last_resort(
    s: EmitView,
    exit_code: int,
    grammar: Option<grammar::GrammarView>,
    action: Option<grammar::ActionView>,
)
    requires
        s.outcomes.len() == 0,
    ensures
        grammar is None ==> summary_of(s, exit_code, grammar, action) == Seq::new(
            s.ring.len(),
            |i: int| seq![' ', 'l', 'a', 's', 't', ':', ' '] + s.ring[i],
        ),
        grammar is Some ==> summary_of(s, exit_code, grammar, action) == grammar::summary_text(
            grammar->0,
            action,
            Seq::empty(),
            exit_code,
            s.line_count,
        ),
{
    reveal_strlit(" last: ");
    assert(" last: "@ =~= seq![' ', 'l', 'a', 's', 't', ':', ' ']);
    assert(captures_of(s.outcomes) =~= Seq::empty());
    if grammar is None {
        assert(summary_of(s, exit_code, grammar, action) =~= Seq::new(
            s.ring.len(),
            |i: int| seq![' ', 'l', 'a', 's', 't', ':', ' '] + s.ring[i],
        ));
    }
}

/// Every outcome that comes is kept, in its order, with its text and what it caught.
pub proof fn law_outcomes_are_kept_in_order(s: EmitView, classes: Seq<ClassView>)
    ensures
        accepted_all(s, classes).outcomes == s.outcomes + classes.filter(
            |class: ClassView| class is Outcome,
        ).map_values(
            |class: ClassView|
                OutcomeView { text: class->Outcome_text, captures: class->Outcome_captures },
        ),
    decreases classes.len(),
{
    let kept = |class: ClassView| class is Outcome;
    let told = |class: ClassView|
        OutcomeView { text: class->Outcome_text, captures: class->Outcome_captures };
    reveal(Seq::filter);
    if classes.len() > 0 {
        law_outcomes_are_kept_in_order(s, classes.drop_last());
        let before = classes.drop_last().filter(kept);
        assert(before.push(classes.last()).map_values(told) =~= before.map_values(told).push(
            told(classes.last()),
        ));
    }
    assert(accepted_all(s, classes).outcomes =~= s.outcomes + classes.filter(kept).map_values(
        told,
    ));
}

/// Every hazard that comes is kept, in its order.
pub proof fn law_hazards_are_kept_in_order(s: EmitView, classes: Seq<ClassView>)
    ensures
        accepted_all(s, classes).hazards == s.hazards + classes.filter(
            |class: ClassView| class is Hazard,
        ).map_values(
            |class: ClassView|
                HazardView {
                    severity: class->Hazard_severity,
                    text: class->Hazard_text,
                    attached_lines: Seq::empty(),
                },
        ),
    decreases classes.len(),
{
    let kept = |class: ClassView| class is Hazard;
    let told = |class: ClassView|
        HazardView {
            severity: class->Hazard_severity,
            text: class->Hazard_text,
            attached_lines: Seq::empty(),
        };
    reveal(Seq::filter);
    if classes.len() > 0 {
        law_hazards_are_kept_in_order(s, classes.drop_last());
        let before = classes.drop_last().filter(kept);
        assert(before.push(classes.last()).map_values(told) =~= before.map_values(told).push(
            told(classes.last()),
        ));
    }
    assert(accepted_all(s, classes).hazards =~= s.hazards + classes.filter(kept).map_values(told));
}

/// A prompt is told at once, behind what was pending before it, and is no hazard.
pub proof fn law_prompts_are_told_at_once(s: EmitView, line: Seq<char>)
    ensures
        ({
            let after = accepted(s, ClassView::Prompt { text: line });
            &&& after.output.last() == seq![' ', '?', ' '] + line
            &&& after.output.drop_last() == s.output + pending_note(s.pending) + s.dedup
            &&& after.hazards == s.hazards
            &&& after.outcomes == s.outcomes
            &&& after.pending == 0
            &&& after.dedup.len() == 0
        }),
{
    reveal_strlit(" ? ");
    assert(" ? "@ =~= seq![' ', '?', ' ']);
    let after = accepted(s, ClassView::Prompt { text: line });
    assert(after.output.drop_last() =~= s.output + pending_note(s.pending) + s.dedup);
}

/// An error is marked by an exclamation mark and a warning by a tilde.
pub proof fn law_hazards_are_marked_by_severity(
    s: EmitView,
    severity: Severity,
    line: Seq<char>,
    captures: Seq<(Seq<char>, Seq<char>)>,
)
    ensures
        accepted(s, ClassView::Hazard { severity, text: line, captures }).output.last() == (
        if severity == Severity::Error {
            seq![' ', '!', ' ']
        } else {
            seq![' ', '~', ' ']
        }) + line,
{
    reveal_strlit(" ! ");
    reveal_strlit(" ~ ");
    assert(" ! "@ =~= seq![' ', '!', ' ']);
    assert(" ~ "@ =~= seq![' ', '~', ' ']);
}

/// Lines of which nothing was told are counted until a hazard or a prompt comes: from
/// ten of them on their number is told, of fewer nothing is, and the count starts anew.
pub proof fn law_silent_lines_are_counted(s: EmitView, classes: Seq<ClassView>)
    requires
        forall|i: int|
            0 <= i < classes.len() ==> #[trigger] classes[i] !is Hazard && classes[i] !is Prompt,
    ensures
        accepted_all(s, classes).pending == s.pending + classes.filter(
            |class: ClassView| class !is Outcome,
        ).len(),
        accepted_all(s, classes).output == s.output,
        accepted_all(s, classes).dedup == s.dedup,
    decreases classes.len(),
{
    reveal(Seq::filter);
    if classes.len() > 0 {
        assert forall|i: int|
            0 <= i < classes.drop_last().len() implies #[trigger] classes.drop_last()[i]
            !is Hazard && classes.drop_last()[i] !is Prompt by {
            assert(classes.drop_last()[i] == classes[i]);
        }
        law_silent_lines_are_counted(s, classes.drop_last());
        assert(classes[classes.len() - 1] == classes.last());
    }
}

/// The number of silent lines is told from ten on, in decimal digits.
pub proof fn law_many_silent_lines_are_told(s: EmitView)
    ensures
        s.pending < 10 ==> flushed(s).output == s.output + s.dedup,
        s.pending >= 10 ==> flushed(s).output == s.output + seq![
            seq![' ', '.', '.', '.', ' '] + text::dec(s.pending) + seq![
                ' ', 'l', 'i', 'n', 'e', 's',
            ],
        ] + s.dedup,
        flushed(s).pending == 0,
        flushed(s).dedup.len() == 0,
        flushed(s).outcomes == s.outcomes,
        flushed(s).hazards == s.hazards,
        flushed(s).line_count == s.line_count,
{
    reveal_strlit(" ... ");
    reveal_strlit(" lines");
    assert(" ... "@ =~= seq![' ', '.', '.', '.', ' ']);
    assert(" lines"@ =~= seq![' ', 'l', 'i', 'n', 'e', 's']);
    assert(s.output + Seq::<Seq<char>>::empty() =~= s.output);
}

/// The last lines that are remembered are the last of those that are not empty, at most
/// five, whatever they were taken for.
pub proof fn law_last_lines_are_those_with_text(classes: Seq<ClassView>)
    ensures
        accepted_all(nothing_yet(), classes).ring == ring_of(
            classes.map_values(|class: ClassView| classifier::class_text(class)).filter(
                |line: Seq<char>| line.len() > 0,
            ),
            5,
        ),
    decreases classes.len(),
{
    let line_of = |class: ClassView| classifier::class_text(class);
    let there = |line: Seq<char>| line.len() > 0;
    reveal(Seq::filter);
    let lines = classes.map_values(line_of);
    if classes.len() > 0 {
        law_last_lines_are_those_with_text(classes.drop_last());
        assert(lines.drop_last() =~= classes.drop_last().map_values(line_of));
        let before = lines.drop_last().filter(there);
        assert(before.push(lines.last()).drop_last() =~= before);
    } else {
        assert(lines =~= Seq::empty());
    }
}

/// A header tells how many lines came, how the command ended, and how long it took.
pub proof fn law_header_tells_lines_code_and_time(n: nat, code: int, time: Seq<char>)
    ensures
        text::starts_with(header_of(n, code, time), text::dec(n).push(' ')),
        text::contains(header_of(n, code, time), text::dec_int(code)),
        text::ends_with(header_of(n, code, time), time + seq!['s', ')']),
{
    reveal_strlit(" lines → exit ");
    reveal_strlit(" (");
    reveal_strlit("s)");
    let told = header_of(n, code, time);
    let (a, b, c) = (" lines → exit "@, " ("@, "s)"@);
    let count = text::dec(n);
    assert(told.take((count.len() + 1) as int) =~= count.push(' '));
    let at = (count.len() + a.len()) as int;
    assert(told.subrange(at, at + text::dec_int(code).len()) =~= text::dec_int(code));
    assert(text::occurs_at(told, text::dec_int(code), at));
    let tail = time + seq!['s', ')'];
    assert(c =~= seq!['s', ')']);
    assert(told.skip(told.len() - tail.len()) =~= tail);
}

} // verus!
