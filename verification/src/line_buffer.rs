//! Byte-to-line assembly with overwrite detection.
//!
//! Handles CR, LF and CRLF, progress bars that overwrite themselves, and lines
//! that stay unfinished for too long.
use std::time::{Duration, Instant};
use vstd::prelude::*;

use crate::outside;
use crate::outside::lossy_text;

verus! {

/// A logical line from the byte stream.
#[derive(Debug, Clone, PartialEq, Eq)]
pub enum Line {
    /// Terminated by a line feed.
    Complete(String),
    /// A carriage return without a line feed (progress bar, spinner).
    Overwrite(String),
    /// No terminator when the wait for one was over.
    Partial(String),
}

/// A line as its kind and its characters.
pub enum LineView {
    Complete(Seq<char>),
    Overwrite(Seq<char>),
    Partial(Seq<char>),
}

impl View for Line {
    type V = LineView;

    open spec fn view(&self) -> LineView {
        match *self {
            Line::Complete(text) => LineView::Complete(text@),
            Line::Overwrite(text) => LineView::Overwrite(text@),
            Line::Partial(text) => LineView::Partial(text@),
        }
    }
}

/// The lines' kinds and characters.
pub open spec fn line_views(lines: Seq<Line>) -> Seq<LineView> {
    Seq::new(lines.len(), |i: int| lines[i]@)
}

// ---------------------------------------------------------------------------
// Specifications
// ---------------------------------------------------------------------------

pub open spec fn is_digit_byte(b: u8) -> bool {
    48 <= b <= 57
}

/// How many ASCII digits stand at the start of `bytes`.
pub open spec fn digit_run(bytes: Seq<u8>) -> nat
    decreases bytes.len(),
{
    if bytes.len() > 0 && is_digit_byte(bytes[0]) {
        1 + digit_run(bytes.skip(1))
    } else {
        0
    }
}

/// The final byte of an erase sequence: `K` and `J` erase, `A` moves up.
pub open spec fn is_erase_final(b: u8) -> bool {
    b == 75 || b == 74 || b == 65
}

/// The length of the erase sequence at the start of `bytes`: ESC `[`, any
/// number of digits, and a final byte. It is 0 where there is none.
pub open spec fn erase_len(bytes: Seq<u8>) -> nat {
    if bytes.len() >= 3 && bytes[0] == 27 && bytes[1] == 91 {
        let digits = digit_run(bytes.skip(2));
        if 2 + digits < bytes.len() && is_erase_final(bytes[2 + digits as int]) {
            digits + 3
        } else {
            0
        }
    } else {
        0
    }
}

/// The bytes of a line without the carriage return of a CRLF.
pub open spec fn without_cr(partial: Seq<u8>) -> Seq<u8> {
    if partial.len() > 0 && partial.last() == 13 {
        partial.drop_last()
    } else {
        partial
    }
}

/// What an overwrite leaves behind: the unfinished line, if there is one.
pub open spec fn overwritten(partial: Seq<u8>) -> Seq<LineView> {
    if partial.len() > 0 {
        seq![LineView::Overwrite(outside::lossy(partial))]
    } else {
        Seq::empty()
    }
}

/// Lines that are finished, and the state in which the next byte is met.
pub struct Assembly {
    pub lines: Seq<LineView>,
    pub partial: Seq<u8>,
    pub overwrite: bool,
}

impl Assembly {
    /// The same, with `lines` before its own.
    pub open spec fn after(self, lines: Seq<LineView>) -> Assembly {
        Assembly { lines: lines + self.lines, partial: self.partial, overwrite: self.overwrite }
    }
}

/// What `bytes` make of an unfinished line.
pub open spec fn assemble(partial: Seq<u8>, overwrite: bool, bytes: Seq<u8>) -> Assembly
    decreases bytes.len(),
{
    let none = Seq::<u8>::empty();
    if bytes.len() == 0 {
        Assembly { lines: Seq::empty(), partial, overwrite }
    } else if erase_len(bytes) > 0 {
        assemble(none, true, bytes.skip(erase_len(bytes) as int)).after(overwritten(partial))
    } else if bytes[0] == 10 {
        let text = outside::lossy(without_cr(partial));
        assemble(none, false, bytes.skip(1)).after(seq![LineView::Complete(text)])
    } else if bytes[0] == 13 && !(bytes.len() > 1 && bytes[1] == 10) {
        assemble(none, true, bytes.skip(1)).after(overwritten(partial))
    } else {
        assemble(partial.push(bytes[0]), overwrite, bytes.skip(1))
    }
}

/// The last line of a stream that has ended.
pub open spec fn remainder(partial: Seq<u8>, overwrite: bool) -> Seq<LineView> {
    let text = outside::lossy(partial);
    if partial.len() == 0 {
        Seq::empty()
    } else if overwrite {
        seq![LineView::Overwrite(text)]
    } else {
        seq![LineView::Partial(text)]
    }
}

proof fn lemma_digit_run_bound(bytes: Seq<u8>)
    ensures
        digit_run(bytes) <= bytes.len(),
    decreases bytes.len(),
{
    if bytes.len() > 0 && is_digit_byte(bytes[0]) {
        lemma_digit_run_bound(bytes.skip(1));
    }
}

// ---------------------------------------------------------------------------
// LineBuffer
// ---------------------------------------------------------------------------

pub struct LineBuffer {
    /// The bytes of the line that is not finished yet.
    pub partial: Vec<u8>,
    /// Whether what is read now overwrites an earlier line.
    pub overwrite_mode: bool,
    /// When the last byte of the unfinished line came.
    pub last_byte_time: Instant,
    /// How long an unfinished line waits for its terminator.
    pub partial_timeout: Duration,
}

/// The bytes hold no line feed and no carriage return.
pub open spec fn in_one_line(bytes: Seq<u8>) -> bool {
    !bytes.contains(10) && !bytes.contains(13)
}

/// The text holds no line feed and no carriage return.
pub open spec fn is_one_line(text: Seq<char>) -> bool {
    !text.contains('\n') && !text.contains('\r')
}

/// What is finished before the stream ends: a line without its terminator, and not an
/// empty one where it was overwritten.
pub open spec fn is_finished(line: LineView) -> bool {
    match line {
        LineView::Complete(text) => is_one_line(text),
        LineView::Overwrite(text) => is_one_line(text) && text.len() > 0,
        LineView::Partial(_) => false,
    }
}

impl LineBuffer {
    /// The unfinished line is one line.
    pub open spec fn wf(&self) -> bool {
        in_one_line(self.partial@)
    }

    pub fn new() -> (r: Self)
        ensures
            r.wf(),
            r.partial@ == Seq::<u8>::empty(),
            !r.overwrite_mode,
            outside::nanos(r.partial_timeout) == 500_000_000,
            call_ensures(Instant::now, (), r.last_byte_time),
    {
        LineBuffer {
            partial: Vec::new(),
            overwrite_mode: false,
            last_byte_time: Instant::now(),
            partial_timeout: Duration::from_millis(500),
        }
    }

    /// Ingest a chunk of bytes and return the lines that it finishes.
    pub fn ingest(&mut self, bytes: &[u8]) -> (lines: Vec<Line>)
        ensures
            ({
                let all = assemble(old(self).partial@, old(self).overwrite_mode, bytes@);
                &&& line_views(lines@) == all.lines
                &&& final(self).partial@ == all.partial
                &&& final(self).overwrite_mode == all.overwrite
            }),
            final(self).partial_timeout == old(self).partial_timeout,
            bytes@.len() > 0 && final(self).partial@.len() > 0 ==> call_ensures(
                Instant::now,
                (),
                final(self).last_byte_time,
            ),
            final(self).last_byte_time == old(self).last_byte_time || call_ensures(
                Instant::now,
                (),
                final(self).last_byte_time,
            ),
            old(self).wf() ==> final(self).wf() && forall|i: int|
                0 <= i < lines@.len() ==> is_finished((#[trigger] lines@[i])@),
    {
        let mut lines: Vec<Line> = Vec::new();
        let mut i: usize = 0;
        let ghost all = assemble(self.partial@, self.overwrite_mode, bytes@);
        proof {
            assert(bytes@.skip(0) =~= bytes@);
            assert(line_views(lines@) =~= Seq::<LineView>::empty());
            assert(all.lines =~= line_views(lines@) + all.lines);
        }
        while i < bytes.len()
            invariant
                i <= bytes.len(),
                self.partial_timeout == old(self).partial_timeout,
                i > 0 && self.partial@.len() > 0 ==> call_ensures(
                    Instant::now,
                    (),
                    self.last_byte_time,
                ) || (i < bytes.len() && bytes@[i as int] == 10),
                self.last_byte_time == old(self).last_byte_time || call_ensures(
                    Instant::now,
                    (),
                    self.last_byte_time,
                ),
                old(self).wf() ==> in_one_line(without_cr(self.partial@)) && (
                self.partial@.len() > 0 && self.partial@.last() == 13 ==> i < bytes.len()
                    && bytes@[i as int] == 10) && forall|j: int|
                    0 <= j < lines@.len() ==> is_finished((#[trigger] lines@[j])@),
                all == assemble(self.partial@, self.overwrite_mode, bytes@.skip(i as int)).after(
                    line_views(lines@),
                ),
            decreases bytes.len() - i,
        {
            let ghost rest = bytes@.skip(i as int);
            let ghost before = lines@;
            let ghost partial = self.partial@;
            if let Some(skip) = is_erase_sequence(bytes, i) {
                proof {
                    assert(rest.skip(skip as int) =~= bytes@.skip(i + skip));
                }
                if !self.partial.is_empty() {
                    let text = lossy_text(self.partial.as_slice());
                    lines.push(Line::Overwrite(text));
                    self.partial.clear();
                }
                self.overwrite_mode = true;
                i += skip;
                proof {
                    assert(line_views(lines@) =~= line_views(before) + overwritten(partial));
                    assert(self.partial@ =~= Seq::<u8>::empty());
                    let tail = assemble(Seq::empty(), true, bytes@.skip(i as int));
                    assert(line_views(before) + (overwritten(partial) + tail.lines)
                        =~= line_views(lines@) + tail.lines);
                }
                continue;
            }
            let b: u8 = bytes[i];
            proof {
                assert(rest[0] == b);
                assert(rest.skip(1) =~= bytes@.skip(i + 1));
            }
            if b == 10 {
                if self.partial.len() > 0 && self.partial[self.partial.len() - 1] == 13 {
                    let _cr = self.partial.pop();
                    proof {
                        assert(self.partial@ =~= without_cr(partial));
                    }
                }
                let text = lossy_text(self.partial.as_slice());
                lines.push(Line::Complete(text));
                self.partial.clear();
                self.overwrite_mode = false;
                i += 1;
                proof {
                    let line = seq![LineView::Complete(outside::lossy(without_cr(partial)))];
                    assert(line_views(lines@) =~= line_views(before) + line);
                    assert(self.partial@ =~= Seq::<u8>::empty());
                    let tail = assemble(Seq::empty(), false, bytes@.skip(i as int));
                    assert(line_views(before) + (line + tail.lines) =~= line_views(lines@)
                        + tail.lines);
                }
            } else if b == 13 {
                if i + 1 < bytes.len() && bytes[i + 1] == 10 {
                    self.partial.push(13);
                    i += 1;
                    proof {
                        assert(rest[1] == 10);
                    }
                    continue;
                }
                proof {
                    assert(rest.len() > 1 ==> rest[1] == bytes@[i + 1]);
                }
                if !self.partial.is_empty() {
                    let text = lossy_text(self.partial.as_slice());
                    lines.push(Line::Overwrite(text));
                }
                self.partial.clear();
                self.overwrite_mode = true;
                i += 1;
                proof {
                    assert(line_views(lines@) =~= line_views(before) + overwritten(partial));
                    assert(self.partial@ =~= Seq::<u8>::empty());
                    let tail = assemble(Seq::empty(), true, bytes@.skip(i as int));
                    assert(line_views(before) + (overwritten(partial) + tail.lines)
                        =~= line_views(lines@) + tail.lines);
                }
            } else {
                self.partial.push(b);
                self.last_byte_time = Instant::now();
                i += 1;
            }
        }
        proof {
            let end = assemble(self.partial@, self.overwrite_mode, bytes@.skip(i as int));
            assert(bytes@.skip(i as int).len() == 0);
            assert(line_views(lines@) + end.lines =~= line_views(lines@));
        }
        lines
    }

    /// Emit the unfinished line where it has waited for `idle` and that is long
    /// enough.
    pub fn emit_partial_after(&mut self, idle: Duration) -> (r: Option<Line>)
        ensures
            ({
                let due = old(self).partial@.len() > 0 && outside::nanos(idle)
                    >= outside::nanos(old(self).partial_timeout);
                if due {
                    &&& r matches Some(line)
                    &&& line@ == LineView::Partial(outside::lossy(old(self).partial@))
                    &&& final(self).partial@ == Seq::<u8>::empty()
                    &&& !final(self).overwrite_mode
                    &&& final(self).last_byte_time == old(self).last_byte_time
                    &&& final(self).partial_timeout == old(self).partial_timeout
                } else {
                    r is None && *final(self) == *old(self)
                }
            }),
    {
        if !self.partial.is_empty() && idle.as_nanos() >= self.partial_timeout.as_nanos() {
            let text = lossy_text(self.partial.as_slice());
            self.partial.clear();
            self.overwrite_mode = false;
            Some(Line::Partial(text))
        } else {
            None
        }
    }

    /// Emit the unfinished line if it has timed out by now: the time that the clock
    /// shows since its last byte decides.
    pub fn emit_partial(&mut self) -> (r: Option<Line>)
        ensures
            old(self).partial@.len() == 0 ==> r is None,
            old(self).partial@.len() > 0 && outside::nanos(old(self).partial_timeout) == 0
                ==> r is Some,
            exists|idle: Duration|
                {
                    &&& #[trigger] call_ensures(
                        Instant::elapsed,
                        (&old(self).last_byte_time,),
                        idle,
                    )
                    &&& r is Some == (old(self).partial@.len() > 0 && outside::nanos(idle)
                        >= outside::nanos(old(self).partial_timeout))
                },
            r is None ==> *final(self) == *old(self),
            r matches Some(line) ==> {
                &&& line@ == LineView::Partial(outside::lossy(old(self).partial@))
                &&& final(self).partial@ == Seq::<u8>::empty()
                &&& !final(self).overwrite_mode
                &&& final(self).last_byte_time == old(self).last_byte_time
                &&& final(self).partial_timeout == old(self).partial_timeout
            },
    {
        let idle = self.last_byte_time.elapsed();
        self.emit_partial_after(idle)
    }

    /// Take the last bytes, then flush what is left as a line.
    pub fn finalize(&mut self, remaining: &[u8]) -> (lines: Vec<Line>)
        ensures
            ({
                let all = assemble(old(self).partial@, old(self).overwrite_mode, remaining@);
                &&& line_views(lines@) == all.lines + remainder(all.partial, all.overwrite)
                &&& final(self).partial@ == Seq::<u8>::empty()
                &&& final(self).overwrite_mode == (all.partial.len() == 0 && all.overwrite)
            }),
            final(self).partial_timeout == old(self).partial_timeout,
            final(self).last_byte_time == old(self).last_byte_time || call_ensures(
                Instant::now,
                (),
                final(self).last_byte_time,
            ),
            final(self).wf(),
    {
        let mut lines = self.ingest(remaining);
        let ghost ingested = lines@;
        if !self.partial.is_empty() {
            let text = lossy_text(self.partial.as_slice());
            if self.overwrite_mode {
                lines.push(Line::Overwrite(text));
            } else {
                lines.push(Line::Partial(text));
            }
            self.partial.clear();
            self.overwrite_mode = false;
        }
        proof {
            let all = assemble(old(self).partial@, old(self).overwrite_mode, remaining@);
            assert(line_views(lines@) =~= line_views(ingested) + remainder(
                all.partial,
                all.overwrite,
            ));
            assert(self.partial@ =~= Seq::<u8>::empty());
        }
        lines
    }
}

impl Default for LineBuffer {
    fn default() -> (r: Self)
        ensures
            r.wf(),
            r.partial@ == Seq::<u8>::empty(),
            !r.overwrite_mode,
            outside::nanos(r.partial_timeout) == 500_000_000,
            call_ensures(Instant::now, (), r.last_byte_time),
    {
        Self::new()
    }
}

/// The length of the erase sequence that stands at `pos`, if one does:
/// `ESC [ K` and `ESC [ J` (erase), `ESC [ A` (cursor up), each with or
/// without a number.
pub fn is_erase_sequence(bytes: &[u8], pos: usize) -> (r: Option<usize>)
    requires
        pos <= bytes.len(),
    ensures
        ({
            let len = erase_len(bytes@.skip(pos as int));
            match r {
                Some(n) => n == len && 0 < n && pos + n <= bytes.len(),
                None => len == 0,
            }
        }),
{
    let ghost rest = bytes@.skip(pos as int);
    let remaining: usize = bytes.len() - pos;
    if remaining < 3 {
        return None;
    }
    if bytes[pos] != 27 || bytes[pos + 1] != 91 {
        return None;
    }
    let mut j: usize = pos + 2;
    proof {
        assert(bytes@.skip(j as int) =~= rest.skip(2));
    }
    while j < bytes.len() && 48 <= bytes[j] && bytes[j] <= 57
        invariant
            pos + 2 <= j <= bytes.len(),
            digit_run(bytes@.skip(pos + 2)) == (j - pos - 2) + digit_run(bytes@.skip(j as int)),
        decreases bytes.len() - j,
    {
        proof {
            assert(bytes@.skip(j as int).skip(1) =~= bytes@.skip(j + 1));
        }
        j += 1;
    }
    proof {
        assert(digit_run(bytes@.skip(j as int)) == 0);
        assert(rest.skip(2) =~= bytes@.skip(pos + 2));
        lemma_digit_run_bound(rest.skip(2));
    }
    if j < bytes.len() {
        let last: u8 = bytes[j];
        if last == 75 || last == 74 || last == 65 {
            return Some(j - pos + 1);
        }
    }
    None
}

// ---------------------------------------------------------------------------
// Laws
// ---------------------------------------------------------------------------

/// How many of the lines are complete.
pub open spec fn complete_count(lines: Seq<LineView>) -> nat
    decreases lines.len(),
{
    if lines.len() == 0 {
        0
    } else {
        complete_count(lines.drop_last()) + (if lines.last() is Complete {
            1nat
        } else {
            0nat
        })
    }
}

/// How many of the bytes are line feeds.
pub open spec fn line_feed_count(bytes: Seq<u8>) -> nat
    decreases bytes.len(),
{
    if bytes.len() == 0 {
        0
    } else {
        (if bytes[0] == 10 {
            1nat
        } else {
            0nat
        }) + line_feed_count(bytes.skip(1))
    }
}

proof fn lemma_complete_count_concat(a: Seq<LineView>, b: Seq<LineView>)
    ensures
        complete_count(a + b) == complete_count(a) + complete_count(b),
    decreases b.len(),
{
    if b.len() == 0 {
        assert(a + b =~= a);
    } else {
        assert((a + b).drop_last() =~= a + b.drop_last());
        lemma_complete_count_concat(a, b.drop_last());
    }
}

proof fn lemma_digits_hold_no_line_feed(bytes: Seq<u8>, n: int)
    requires
        0 <= n <= digit_run(bytes),
    ensures
        n <= bytes.len(),
        line_feed_count(bytes) == line_feed_count(bytes.skip(n)),
    decreases n,
{
    lemma_digit_run_bound(bytes);
    if n == 0 {
        assert(bytes.skip(0) =~= bytes);
    } else {
        lemma_digits_hold_no_line_feed(bytes.skip(1), n - 1);
        assert(bytes.skip(1).skip(n - 1) =~= bytes.skip(n));
    }
}

proof fn lemma_erase_holds_no_line_feed(bytes: Seq<u8>)
    requires
        erase_len(bytes) > 0,
    ensures
        erase_len(bytes) <= bytes.len(),
        line_feed_count(bytes) == line_feed_count(bytes.skip(erase_len(bytes) as int)),
{
    let digits = digit_run(bytes.skip(2)) as int;
    lemma_digits_hold_no_line_feed(bytes.skip(2), digits);
    assert(bytes.skip(1).skip(1) =~= bytes.skip(2));
    assert(bytes.skip(2).skip(digits) =~= bytes.skip(2 + digits));
    assert(bytes.skip(2 + digits).skip(1) =~= bytes.skip(digits + 3));
    assert(line_feed_count(bytes) == line_feed_count(bytes.skip(1)));
    assert(line_feed_count(bytes.skip(1)) == line_feed_count(bytes.skip(2)));
    assert(bytes.skip(2 + digits)[0] == bytes[2 + digits]);
}

/// Every line feed that is read finishes exactly one complete line, and
/// nothing else does.
pub proof fn law_one_complete_line_per_line_feed(partial: Seq<u8>, overwrite: bool, bytes: Seq<u8>)
    ensures
        complete_count(assemble(partial, overwrite, bytes).lines) == line_feed_count(bytes),
    decreases bytes.len(),
{
    let none = Seq::<u8>::empty();
    if bytes.len() == 0 {
    } else if erase_len(bytes) > 0 {
        let rest = bytes.skip(erase_len(bytes) as int);
        lemma_erase_holds_no_line_feed(bytes);
        law_one_complete_line_per_line_feed(none, true, rest);
        lemma_complete_count_concat(overwritten(partial), assemble(none, true, rest).lines);
        reveal_with_fuel(complete_count, 2);
    } else if bytes[0] == 10 {
        let rest = bytes.skip(1);
        let line = seq![LineView::Complete(outside::lossy(without_cr(partial)))];
        law_one_complete_line_per_line_feed(none, false, rest);
        lemma_complete_count_concat(line, assemble(none, false, rest).lines);
        reveal_with_fuel(complete_count, 2);
    } else if bytes[0] == 13 && !(bytes.len() > 1 && bytes[1] == 10) {
        let rest = bytes.skip(1);
        law_one_complete_line_per_line_feed(none, true, rest);
        lemma_complete_count_concat(overwritten(partial), assemble(none, true, rest).lines);
        reveal_with_fuel(complete_count, 2);
    } else {
        law_one_complete_line_per_line_feed(partial.push(bytes[0]), overwrite, bytes.skip(1));
    }
}

/// A line that is finished before the stream ends was made of bytes without a
/// terminator, and of at least one where it was overwritten.
pub open spec fn is_made_of_one_line(line: LineView) -> bool {
    exists|bytes: Seq<u8>|
        {
            &&& #[trigger] in_one_line(bytes)
            &&& line == LineView::Complete(outside::lossy(bytes)) || (line
                == LineView::Overwrite(outside::lossy(bytes)) && bytes.len() > 0)
        }
}

/// A carriage return at the end of an unfinished line is that of a CRLF.
proof fn lemma_made_of_one_line(partial: Seq<u8>, overwrite: bool, bytes: Seq<u8>)
    requires
        in_one_line(without_cr(partial)),
        partial.len() > 0 && partial.last() == 13 ==> bytes.len() > 0 && bytes[0] == 10,
    ensures
        in_one_line(assemble(partial, overwrite, bytes).partial),
        forall|i: int|
            0 <= i < assemble(partial, overwrite, bytes).lines.len() ==> is_made_of_one_line(
                #[trigger] assemble(partial, overwrite, bytes).lines[i],
            ),
    decreases bytes.len(),
{
    let none = Seq::<u8>::empty();
    if bytes.len() == 0 {
    } else if erase_len(bytes) > 0 {
        let rest = bytes.skip(erase_len(bytes) as int);
        lemma_erase_holds_no_line_feed(bytes);
        lemma_made_of_one_line(none, true, rest);
        lemma_each_made_of_one_line(
            overwritten(partial),
            partial,
            assemble(none, true, rest).lines,
        );
    } else if bytes[0] == 10 {
        let rest = bytes.skip(1);
        lemma_made_of_one_line(none, false, rest);
        let line = LineView::Complete(outside::lossy(without_cr(partial)));
        lemma_each_made_of_one_line(
            seq![line],
            without_cr(partial),
            assemble(none, false, rest).lines,
        );
    } else if bytes[0] == 13 && !(bytes.len() > 1 && bytes[1] == 10) {
        let rest = bytes.skip(1);
        lemma_made_of_one_line(none, true, rest);
        lemma_each_made_of_one_line(
            overwritten(partial),
            partial,
            assemble(none, true, rest).lines,
        );
    } else {
        let longer = partial.push(bytes[0]);
        assert(longer.drop_last() =~= partial);
        assert(partial == without_cr(partial));
        if bytes[0] != 13 {
            assert forall|b: u8| longer.contains(b) implies partial.contains(b) || b
                == bytes[0] by {}
        }
        lemma_made_of_one_line(longer, overwrite, bytes.skip(1));
    }
}

proof fn lemma_each_made_of_one_line(first: Seq<LineView>, bytes: Seq<u8>, rest: Seq<LineView>)
    requires
        in_one_line(bytes),
        first.len() == 1 ==> first[0] == LineView::Complete(outside::lossy(bytes)) || (first[0]
            == LineView::Overwrite(outside::lossy(bytes)) && bytes.len() > 0),
        first.len() <= 1,
        forall|i: int| 0 <= i < rest.len() ==> is_made_of_one_line(#[trigger] rest[i]),
    ensures
        forall|i: int|
            0 <= i < (first + rest).len() ==> is_made_of_one_line(#[trigger] (first + rest)[i]),
{
    assert forall|i: int| 0 <= i < (first + rest).len() implies is_made_of_one_line(
        #[trigger] (first + rest)[i],
    ) by {
        if i < first.len() {
            assert((first + rest)[i] == first[0]);
        } else {
            assert((first + rest)[i] == rest[i - first.len()]);
        }
    }
}

/// No terminator gets into a line: every line that is finished comes from bytes without
/// line feed and carriage return, none is told as unfinished, and none that is
/// overwritten is empty. What stays unfinished is one line again.
pub proof fn law_lines_hold_no_terminators(partial: Seq<u8>, overwrite: bool, bytes: Seq<u8>)
    requires
        in_one_line(partial),
    ensures
        in_one_line(assemble(partial, overwrite, bytes).partial),
        forall|i: int|
            0 <= i < assemble(partial, overwrite, bytes).lines.len() ==> is_made_of_one_line(
                #[trigger] assemble(partial, overwrite, bytes).lines[i],
            ),
{
    if partial.len() > 0 && partial.last() == 13 {
        assert(partial.contains(13));
    }
    lemma_made_of_one_line(partial, overwrite, bytes);
}

/// Bytes without control characters of their own only lengthen the
/// unfinished line.
pub proof fn law_plain_bytes_are_kept(partial: Seq<u8>, overwrite: bool, bytes: Seq<u8>)
    requires
        forall|i: int| 0 <= i < bytes.len() ==> bytes[i] != 10 && bytes[i] != 13 && bytes[i] != 27,
    ensures
        assemble(partial, overwrite, bytes) == (Assembly {
            lines: Seq::empty(),
            partial: partial + bytes,
            overwrite,
        }),
    decreases bytes.len(),
{
    if bytes.len() == 0 {
        assert(partial + bytes =~= partial);
    } else {
        law_plain_bytes_are_kept(partial.push(bytes[0]), overwrite, bytes.skip(1));
        assert(partial.push(bytes[0]) + bytes.skip(1) =~= partial + bytes);
    }
}

proof fn lemma_digit_run_before_line_feed(a: Seq<u8>, b: Seq<u8>)
    requires
        a.len() > 0,
        a.last() == 10,
    ensures
        digit_run(a + b) == digit_run(a),
        digit_run(a) < a.len(),
    decreases a.len(),
{
    if is_digit_byte(a[0]) {
        assert((a + b).skip(1) =~= a.skip(1) + b);
        lemma_digit_run_before_line_feed(a.skip(1), b);
    }
}

proof fn lemma_erase_before_line_feed(a: Seq<u8>, b: Seq<u8>)
    requires
        a.len() > 0,
        a.last() == 10,
    ensures
        erase_len(a + b) == erase_len(a),
        erase_len(a) < a.len(),
{
    if a.len() >= 3 {
        assert((a + b).skip(2) =~= a.skip(2) + b);
        lemma_digit_run_before_line_feed(a.skip(2), b);
        let digits = digit_run(a.skip(2));
        assert((a + b)[2 + digits as int] == a[2 + digits as int]);
    } else if a.len() == 2 {
        assert((a + b)[1] == 10);
    } else {
        assert((a + b)[0] == 10);
    }
}

/// A stream may be cut between `a` and `b`: the cut divides neither a CRLF nor an
/// erase sequence.
pub open spec fn may_cut(a: Seq<u8>, b: Seq<u8>) -> bool {
    &&& !(a.len() > 0 && b.len() > 0 && a.last() == 13 && b[0] == 10)
    &&& forall|i: int|
        #![trigger a.skip(i)]
        0 <= i < a.len() ==> erase_len(a.skip(i) + b) == erase_len(a.skip(i))
}

proof fn lemma_cut_stays(a: Seq<u8>, b: Seq<u8>, n: int)
    requires
        may_cut(a, b),
        0 < n <= a.len(),
    ensures
        may_cut(a.skip(n), b),
{
    let rest = a.skip(n);
    assert forall|i: int|
        #![trigger rest.skip(i)]
        0 <= i < rest.len() implies erase_len(rest.skip(i) + b) == erase_len(rest.skip(i)) by {
        assert(rest.skip(i) =~= a.skip(n + i));
    }
}

/// How a stream is cut into chunks does not matter, as long as no CRLF and no
/// erase sequence is divided: the chunks yield the lines of the whole, one after
/// the other, and end in the same state.
pub proof fn law_chunks_make_no_difference(
    partial: Seq<u8>,
    overwrite: bool,
    a: Seq<u8>,
    b: Seq<u8>,
)
    requires
        may_cut(a, b),
    ensures
        ({
            let first = assemble(partial, overwrite, a);
            assemble(partial, overwrite, a + b) == assemble(
                first.partial,
                first.overwrite,
                b,
            ).after(first.lines)
        }),
    decreases a.len(),
{
    let none = Seq::<u8>::empty();
    let whole = a + b;
    if a.len() == 0 {
        assert(whole =~= b);
        let second = assemble(partial, overwrite, b);
        assert(Seq::<LineView>::empty() + second.lines =~= second.lines);
    } else {
        let n = erase_len(a) as int;
        assert(a.skip(0) =~= a);
        assert(erase_len(whole) == n);
        assert(whole[0] == a[0]);
        assert(a.len() > 1 ==> whole[1] == a[1]);
        if n > 0 {
            lemma_erase_holds_no_line_feed(a);
            assert(whole.skip(n) =~= a.skip(n) + b);
            lemma_cut_stays(a, b, n);
            law_chunks_make_no_difference(none, true, a.skip(n), b);
            let first = assemble(none, true, a.skip(n));
            let second = assemble(first.partial, first.overwrite, b);
            assert(overwritten(partial) + (first.lines + second.lines) =~= (overwritten(partial)
                + first.lines) + second.lines);
        } else {
            assert(whole.skip(1) =~= a.skip(1) + b);
            lemma_cut_stays(a, b, 1);
            if a[0] == 10 {
                let line = seq![LineView::Complete(outside::lossy(without_cr(partial)))];
                law_chunks_make_no_difference(none, false, a.skip(1), b);
                let first = assemble(none, false, a.skip(1));
                let second = assemble(first.partial, first.overwrite, b);
                assert(line + (first.lines + second.lines) =~= (line + first.lines)
                    + second.lines);
            } else if a[0] == 13 && !(a.len() > 1 && a[1] == 10) {
                assert(a.len() == 1 && b.len() > 0 ==> whole[1] == b[0]);
                law_chunks_make_no_difference(none, true, a.skip(1), b);
                let first = assemble(none, true, a.skip(1));
                let second = assemble(first.partial, first.overwrite, b);
                assert(overwritten(partial) + (first.lines + second.lines) =~= (overwritten(
                    partial,
                ) + first.lines) + second.lines);
            } else {
                law_chunks_make_no_difference(partial.push(a[0]), overwrite, a.skip(1), b);
            }
        }
    }
}

/// Behind a line feed a stream may always be cut.
pub proof fn law_chunks_may_end_at_line_feeds(a: Seq<u8>, b: Seq<u8>)
    requires
        a.len() > 0,
        a.last() == 10,
    ensures
        may_cut(a, b),
{
    assert forall|i: int|
        #![trigger a.skip(i)]
        0 <= i < a.len() implies erase_len(a.skip(i) + b) == erase_len(a.skip(i)) by {
        lemma_erase_before_line_feed(a.skip(i), b);
    }
}

/// The bytes hold no line feed, no carriage return and no escape.
pub open spec fn is_ordinary(bytes: Seq<u8>) -> bool {
    forall|i: int|
        0 <= i < bytes.len() ==> #[trigger] bytes[i] != 10 && bytes[i] != 13 && bytes[i] != 27
}

proof fn lemma_ordinary_first(partial: Seq<u8>, overwrite: bool, bytes: Seq<u8>, tail: Seq<u8>)
    requires
        is_ordinary(bytes),
    ensures
        assemble(partial, overwrite, bytes + tail) == assemble(partial + bytes, overwrite, tail),
    decreases bytes.len(),
{
    let all = bytes + tail;
    if bytes.len() == 0 {
        assert(all =~= tail);
        assert(partial + bytes =~= partial);
    } else {
        assert(all[0] == bytes[0]);
        let rest = bytes.skip(1);
        assert forall|i: int| 0 <= i < rest.len() implies #[trigger] rest[i] != 10 && rest[i] != 13
            && rest[i] != 27 by {
            assert(rest[i] == bytes[i + 1]);
        }
        assert(all.skip(1) =~= rest + tail);
        lemma_ordinary_first(partial.push(bytes[0]), overwrite, rest, tail);
        assert(partial.push(bytes[0]) + rest =~= partial + bytes);
    }
}

/// A line feed completes the unfinished line with what came before it, and so does a
/// carriage return with a line feed; the next line starts anew.
pub proof fn law_line_feeds_complete_lines(partial: Seq<u8>, overwrite: bool, bytes: Seq<u8>)
    requires
        in_one_line(partial),
        is_ordinary(bytes),
    ensures
        assemble(partial, overwrite, bytes + seq![10u8]) == (Assembly {
            lines: seq![LineView::Complete(outside::lossy(partial + bytes))],
            partial: Seq::empty(),
            overwrite: false,
        }),
        assemble(partial, overwrite, bytes + seq![13u8, 10u8]) == (Assembly {
            lines: seq![LineView::Complete(outside::lossy(partial + bytes))],
            partial: Seq::empty(),
            overwrite: false,
        }),
{
    let all = partial + bytes;
    let none = Seq::<u8>::empty();
    if all.len() > 0 && all.last() == 13 {
        if bytes.len() > 0 {
            assert(bytes[bytes.len() - 1] == all.last());
        } else {
            assert(partial[partial.len() - 1] == 13);
            assert(partial.contains(13));
        }
    }
    lemma_ordinary_first(partial, overwrite, bytes, seq![10u8]);
    lemma_ordinary_first(partial, overwrite, bytes, seq![13u8, 10u8]);
    assert(without_cr(all) == all);
    assert(all.push(13).drop_last() =~= all);
    assert(seq![10u8].skip(1) =~= none);
    assert(seq![13u8, 10u8].skip(1) =~= seq![10u8]);
    let line = seq![LineView::Complete(outside::lossy(all))];
    assert(line + Seq::<LineView>::empty() =~= line);
    assert(assemble(none, false, none).lines =~= Seq::empty());
    let end = seq![13u8, 10u8];
    assert(erase_len(end) == 0);
    assert(end[0] == 13 && end[1] == 10);
    assert(assemble(all, overwrite, end) == assemble(all.push(13), overwrite, seq![10u8]));
    assert(without_cr(all.push(13)) == all);
}

/// What a carriage return without a line feed, or an erase sequence, does to the
/// unfinished line: it is told as overwritten, unless it is empty.
pub open spec fn is_overwritten(all: Seq<u8>, r: Assembly) -> bool {
    &&& r.lines == (if all.len() > 0 {
        seq![LineView::Overwrite(outside::lossy(all))]
    } else {
        Seq::empty()
    })
    &&& r.partial.len() == 0
    &&& r.overwrite
}

/// A carriage return without a line feed overwrites, and so do the sequences that erase
/// a line or a screen or move up, with or without a number.
pub proof fn law_returns_and_erasures_overwrite(
    partial: Seq<u8>,
    overwrite: bool,
    bytes: Seq<u8>,
    digits: Seq<u8>,
    last: u8,
)
    requires
        is_ordinary(bytes),
        forall|i: int| 0 <= i < digits.len() ==> 48 <= #[trigger] digits[i] <= 57,
        last == 75 || last == 74 || last == 65,
    ensures
        is_overwritten(partial + bytes, assemble(partial, overwrite, bytes + seq![13u8])),
        is_overwritten(
            partial + bytes,
            assemble(partial, overwrite, bytes + (seq![27u8, 91u8] + digits + seq![last])),
        ),
{
    let all = partial + bytes;
    let none = Seq::<u8>::empty();
    let sequence = seq![27u8, 91u8] + digits + seq![last];
    lemma_ordinary_first(partial, overwrite, bytes, seq![13u8]);
    lemma_ordinary_first(partial, overwrite, bytes, sequence);
    assert(seq![13u8].skip(1) =~= none);
    assert(sequence.skip(2) =~= digits + seq![last]);
    lemma_digits_counted(digits, last, none);
    assert(digits + seq![last] + none =~= digits + seq![last]);
    assert(sequence[2 + digits.len() as int] == last);
    assert(erase_len(sequence) == digits.len() + 3);
    assert(sequence.skip(erase_len(sequence) as int) =~= none);
    assert(overwritten(all) + Seq::<LineView>::empty() =~= overwritten(all));
    assert(assemble(none, true, none).lines =~= Seq::empty());
}

proof fn lemma_digits_counted(digits: Seq<u8>, last: u8, behind: Seq<u8>)
    requires
        forall|i: int| 0 <= i < digits.len() ==> 48 <= #[trigger] digits[i] <= 57,
        !is_digit_byte(last),
    ensures
        digit_run(digits + seq![last] + behind) == digits.len(),
    decreases digits.len(),
{
    let all = digits + seq![last] + behind;
    if digits.len() > 0 {
        let rest = digits.skip(1);
        assert forall|i: int| 0 <= i < rest.len() implies 48 <= #[trigger] rest[i] <= 57 by {
            assert(rest[i] == digits[i + 1]);
        }
        lemma_digits_counted(rest, last, behind);
        assert(all[0] == digits[0]);
        assert(all.skip(1) =~= rest + seq![last] + behind);
    } else {
        assert(all[0] == last);
    }
}

/// An escape sequence that does not erase stays in the line.
pub proof fn law_other_escapes_stay(
    partial: Seq<u8>,
    overwrite: bool,
    digits: Seq<u8>,
    last: u8,
)
    requires
        forall|i: int| 0 <= i < digits.len() ==> 48 <= #[trigger] digits[i] <= 57,
        last != 75 && last != 74 && last != 65,
        last != 10 && last != 13 && last != 27,
        !(48 <= last <= 57),
    ensures
        assemble(partial, overwrite, seq![27u8, 91u8] + digits + seq![last]) == (Assembly {
            lines: Seq::empty(),
            partial: partial + (seq![27u8, 91u8] + digits + seq![last]),
            overwrite,
        }),
{
    let none = Seq::<u8>::empty();
    let sequence = seq![27u8, 91u8] + digits + seq![last];
    assert(sequence.skip(2) =~= digits + seq![last]);
    lemma_digits_counted(digits, last, none);
    assert(digits + seq![last] + none =~= digits + seq![last]);
    assert(sequence[2 + digits.len() as int] == last);
    assert(erase_len(sequence) == 0);
    let rest = sequence.skip(1);
    assert forall|i: int| 0 <= i < rest.len() implies #[trigger] rest[i] != 10 && rest[i] != 13
        && rest[i] != 27 by {
        assert(rest[i] == sequence[i + 1]);
        if 1 <= i < 1 + digits.len() {
            assert(sequence[i + 1] == digits[i - 1]);
        }
    }
    lemma_ordinary_first(partial.push(27), overwrite, rest, none);
    assert(rest + none =~= rest);
    assert(partial.push(27) + rest =~= partial + sequence);
}

/// When the stream ends, what is left is told: as overwritten where it overwrites, and
/// else as unfinished.
pub proof fn law_the_rest_is_told_at_the_end(partial: Seq<u8>, overwrite: bool)
    ensures
        partial.len() == 0 ==> remainder(partial, overwrite).len() == 0,
        partial.len() > 0 && overwrite ==> remainder(partial, overwrite) == seq![
            LineView::Overwrite(outside::lossy(partial)),
        ],
        partial.len() > 0 && !overwrite ==> remainder(partial, overwrite) == seq![
            LineView::Partial(outside::lossy(partial)),
        ],
{
}

} // verus!
