//! Classification of lines in three tiers.
//!
//! A line is a hazard, an outcome, noise, a prompt, or unknown. The rules of a
//! grammar are asked first, then patterns that hold for every tool, then the
//! shape of the line and its likeness to the line before.
use regex::Regex;
use std::collections::VecDeque;
use std::time::{Duration, Instant};
use vstd::prelude::*;

use crate::distance;
use crate::distance::levenshtein;
use crate::grammar;
use crate::grammar::{
    copy_rules, extract_captures, find_rule, Action, Grammar, Rule, RuleAction, RuleView, Severity,
};
use crate::line_buffer::{Line, LineView};
use crate::outside;
use crate::strmap;
use crate::strmap::StrMap;
use crate::text;
use crate::text::{concat3, first_word_of, join_strings, len_in_bytes, same};

verus! {

// ---------------------------------------------------------------------------
// Classifications
// ---------------------------------------------------------------------------

/// How a noise line is handled.
#[derive(Debug, Clone, Copy, PartialEq, Eq, Structural)]
pub enum NoiseAction {
    Strip,
    Dedup,
}

/// The classification of a single line.
#[derive(Debug, Clone, PartialEq)]
pub enum Classification {
    Hazard { severity: Severity, text: String, captures: StrMap<String> },
    Outcome { text: String, captures: StrMap<String> },
    Noise { action: NoiseAction, text: String },
    Prompt { text: String },
    Unknown { text: String },
}

pub enum ClassView {
    Hazard { severity: Severity, text: Seq<char>, captures: Seq<(Seq<char>, Seq<char>)> },
    Outcome { text: Seq<char>, captures: Seq<(Seq<char>, Seq<char>)> },
    Noise { action: NoiseAction, text: Seq<char> },
    Prompt { text: Seq<char> },
    Unknown { text: Seq<char> },
}

impl View for Classification {
    type V = ClassView;

    open spec fn view(&self) -> ClassView {
        match *self {
            Classification::Hazard { severity, text, captures } => ClassView::Hazard {
                severity,
                text: text@,
                captures: strmap::text_pairs(captures@),
            },
            Classification::Outcome { text, captures } => ClassView::Outcome {
                text: text@,
                captures: strmap::text_pairs(captures@),
            },
            Classification::Noise { action, text } => ClassView::Noise { action, text: text@ },
            Classification::Prompt { text } => ClassView::Prompt { text: text@ },
            Classification::Unknown { text } => ClassView::Unknown { text: text@ },
        }
    }
}

/// The text of a classification.
pub open spec fn class_text(c: ClassView) -> Seq<char> {
    match c {
        ClassView::Hazard { text, .. } => text,
        ClassView::Outcome { text, .. } => text,
        ClassView::Noise { text, .. } => text,
        ClassView::Prompt { text } => text,
        ClassView::Unknown { text } => text,
    }
}

impl Classification {
    /// The text of the line; every classification has one.
    pub fn text(&self) -> (r: Option<&str>)
        ensures
            r matches Some(t) && t@ == class_text(self@),
    {
        match self {
            Classification::Hazard { text, .. } => Some(text.as_str()),
            Classification::Outcome { text, .. } => Some(text.as_str()),
            Classification::Noise { text, .. } => Some(text.as_str()),
            Classification::Prompt { text } => Some(text.as_str()),
            Classification::Unknown { text } => Some(text.as_str()),
        }
    }
}

/// The states of the classifier.
#[derive(Debug, Clone, Copy, PartialEq, Eq, Structural)]
pub enum ClassifierState {
    Idle,
    Running,
    MaybePrompt,
    AwaitingInput,
    DoneSuccess,
    DoneFailure,
    DoneKilled,
    ConsumingTrace,
}

/// The colors that tell something of a line.
#[derive(Debug, Clone, Copy, PartialEq, Eq, Structural)]
pub enum AnsiColor {
    Red,
    BrightRed,
    Yellow,
    BrightYellow,
    Green,
    BrightGreen,
    Other,
}

/// A line without its escape sequences, and the colors that they set.
#[derive(Debug, Clone)]
pub struct AnsiMetadata {
    pub clean_text: String,
    pub colors: Vec<AnsiColor>,
}

pub struct AnsiView {
    pub clean: Seq<char>,
    pub colors: Seq<AnsiColor>,
}

impl View for AnsiMetadata {
    type V = AnsiView;

    open spec fn view(&self) -> AnsiView {
        AnsiView { clean: self.clean_text@, colors: self.colors@ }
    }
}

impl AnsiMetadata {
    /// A line without escape sequences.
    pub fn plain(line: &str) -> (r: Self)
        ensures
            r@ == (AnsiView { clean: line@, colors: Seq::empty() }),
    {
        AnsiMetadata { clean_text: line.to_owned(), colors: Vec::new() }
    }
}

/// What is known of a line's likeness to the lines before it.
#[derive(Debug, Clone, Copy, PartialEq, Eq, Structural)]
pub enum DedupResult {
    /// The line continues a streak of similar lines.
    Absorbed,
    /// The line ends a streak.
    FlushStreak,
    /// The line is like none before it.
    NotSimilar,
}

// ---------------------------------------------------------------------------
// Universal patterns
// ---------------------------------------------------------------------------

/// Errors that stand at the start of a line.
pub open spec fn error_start_patterns() -> Seq<Seq<char>> {
    seq![
        r"(?i)^(error|Error|ERROR)[:\s]"@,
        r"(?i)^(FAIL|FAILED|FATAL|fatal|Fatal)[:\s]"@,
        r"(?i)^(panic|Panic|PANIC)[:\s]"@,
        r"^Traceback \(most recent call last\)"@,
        r"^Exception"@,
        r"^Unhandled\s"@,
    ]
}

/// Errors that may stand anywhere in a line.
pub open spec fn error_anywhere_patterns() -> Seq<Seq<char>> {
    seq![
        r"command not found$"@,
        r"(?i)permission denied"@,
        r"No such file or directory"@,
        r"ENOENT|EACCES|EPERM|ECONNREFUSED"@,
        r"(?i)segmentation fault|SIGSEGV"@,
        r"(?i)killed|OOMKilled"@,
        r"(?i)out of memory"@,
        r"cannot find module"@,
        r"ModuleNotFoundError"@,
        r"ImportError"@,
        r"SyntaxError"@,
    ]
}

pub open spec fn warning_start_patterns() -> Seq<Seq<char>> {
    seq![r"(?i)^(warn|WARN|Warning|WARNING|DEPRECAT)[:\s!]"@]
}

pub open spec fn warning_anywhere_patterns() -> Seq<Seq<char>> {
    seq![
        r"\bdeprecated\b"@,
        r"⚠"@,
        r"\b(moderate|high|critical)\s+vulnerabilit"@,
    ]
}

/// Words of success, which count in a green line.
pub open spec fn success_patterns() -> Seq<Seq<char>> {
    seq![r"(?i)\b(success|succeeded|passed|complete|done|ok|ready)\b"@]
}

/// Lines with which a stack trace starts.
pub open spec fn stack_start_patterns() -> Seq<Seq<char>> {
    seq![
        r"^\s+at\s+\S+\s+\(.*:\d+:\d+\)"@,
        r"^\s+at\s+\S+\s+\(node:"@,
        r#"^\s+File ".+", line \d+"#@,
        r"^goroutine \d+"@,
        r"^\s+.+\.go:\d+"@,
        r"^\s+\d+:\s+0x[0-9a-f]+\s+-\s+"@,
        r"^\s+at\s+[\w.$]+\([\w.]+:\d+\)"@,
        r"^Caused by:"@,
        r"^\S+:\d+:\d+:"@,
    ]
}

/// Lines with which a stack trace goes on.
pub open spec fn stack_continue_patterns() -> Seq<Seq<char>> {
    seq![r"^\s+"@]
}

/// Prompts, which count in a line that is not finished.
pub open spec fn prompt_patterns() -> Seq<Seq<char>> {
    seq![
        r"\?\s*$"@,
        r"\(y/n\)|\(Y/N\)|\[y/N\]|\[Y/n\]"@,
        r"(?i)[Pp]assword:?\s*$"@,
        r"(?i)[Ee]nter\s.*:\s*$"@,
        r"(?i)[Pp]ress any key"@,
        r"\S+>\s*$"@,
        r":\s*$"@,
        r"\$\s*$"@,
    ]
}

/// Separators, boxes and empty lines.
pub open spec fn decorative_patterns() -> Seq<Seq<char>> {
    seq![
        r"^[\s=\-─━_*#~.·•]+$"@,
        r"^[┌┐└┘├┤┬┴┼│─]+$"@,
        r"^\s*$"@,
    ]
}

/// All patterns compiled, or the failure of the first that is refused.
pub open spec fn compiled_all(patterns: Seq<Seq<char>>) -> Result<Seq<Regex>, regex::Error>
    decreases patterns.len(),
{
    if patterns.len() == 0 {
        Ok(Seq::empty())
    } else {
        match compiled_all(patterns.drop_last()) {
            Err(e) => Err(e),
            Ok(done) => match outside::compiled(patterns.last()) {
                Err(e) => Err(e),
                Ok(re) => Ok(done.push(re)),
            },
        }
    }
}

proof fn lemma_compiled_prefix_fails(patterns: Seq<Seq<char>>, n: int, e: regex::Error)
    requires
        0 <= n <= patterns.len(),
        compiled_all(patterns.take(n)) == Err::<Seq<Regex>, regex::Error>(e),
    ensures
        compiled_all(patterns) == Err::<Seq<Regex>, regex::Error>(e),
    decreases patterns.len() - n,
{
    if n == patterns.len() {
        assert(patterns.take(n) =~= patterns);
    } else {
        assert(patterns.take(n + 1).drop_last() =~= patterns.take(n));
        lemma_compiled_prefix_fails(patterns, n + 1, e);
    }
}

/// The characters of each pattern.
pub open spec fn str_views(patterns: Seq<&str>) -> Seq<Seq<char>> {
    Seq::new(patterns.len(), |i: int| patterns[i]@)
}

/// Compiles patterns in order, up to the first that is refused.
pub fn compile_all(patterns: &[&str]) -> (r: Result<Vec<Regex>, regex::Error>)
    ensures
        match r {
            Ok(list) => compiled_all(str_views(patterns@)) == Ok::<Seq<Regex>, regex::Error>(list@),
            Err(e) => compiled_all(str_views(patterns@)) == Err::<Seq<Regex>, regex::Error>(e),
        },
{
    let mut list: Vec<Regex> = Vec::new();
    let ghost all = str_views(patterns@);
    let mut i: usize = 0;
    while i < patterns.len()
        invariant
            i <= patterns.len(),
            all == str_views(patterns@),
            compiled_all(all.take(i as int)) == Ok::<Seq<Regex>, regex::Error>(list@),
        decreases patterns.len() - i,
    {
        proof {
            assert(all.take(i + 1).drop_last() =~= all.take(i as int));
            assert(all.take(i + 1).last() == patterns@[i as int]@);
        }
        match Regex::new(patterns[i]) {
            Ok(re) => {
                list.push(re);
            },
            Err(e) => {
                proof {
                    lemma_compiled_prefix_fails(all, i + 1, e);
                }
                return Err(e);
            },
        }
        i += 1;
    }
    proof {
        assert(all.take(i as int) =~= all);
    }
    Ok(list)
}

/// The patterns that hold for every tool, compiled.
pub struct UniversalPatterns {
    pub error_start: Vec<Regex>,
    pub error_anywhere: Vec<Regex>,
    pub warning_start: Vec<Regex>,
    pub warning_anywhere: Vec<Regex>,
    pub success_keywords: Vec<Regex>,
    pub stack_start: Vec<Regex>,
    pub stack_continue: Vec<Regex>,
    pub prompt_patterns: Vec<Regex>,
    pub decorative: Vec<Regex>,
}

/// `list` holds the patterns compiled.
pub open spec fn compiles_to(patterns: Seq<Seq<char>>, list: Seq<Regex>) -> bool {
    compiled_all(patterns) == Ok::<Seq<Regex>, regex::Error>(list)
}

/// All universal patterns are accepted.
pub open spec fn universal_patterns_compile() -> bool {
    &&& compiled_all(error_start_patterns()) is Ok
    &&& compiled_all(error_anywhere_patterns()) is Ok
    &&& compiled_all(warning_start_patterns()) is Ok
    &&& compiled_all(warning_anywhere_patterns()) is Ok
    &&& compiled_all(success_patterns()) is Ok
    &&& compiled_all(stack_start_patterns()) is Ok
    &&& compiled_all(stack_continue_patterns()) is Ok
    &&& compiled_all(prompt_patterns()) is Ok
    &&& compiled_all(decorative_patterns()) is Ok
}

/// The lists of universal patterns, in the order in which they are compiled.
pub open spec fn universal_lists() -> Seq<Seq<Seq<char>>> {
    seq![
        error_start_patterns(),
        error_anywhere_patterns(),
        warning_start_patterns(),
        warning_anywhere_patterns(),
        success_patterns(),
        stack_start_patterns(),
        stack_continue_patterns(),
        prompt_patterns(),
        decorative_patterns(),
    ]
}

/// Why the first of the patterns in several lists that is refused is refused.
pub open spec fn first_refusal(lists: Seq<Seq<Seq<char>>>) -> Option<regex::Error>
    decreases lists.len(),
{
    if lists.len() == 0 {
        None
    } else {
        match compiled_all(lists[0]) {
            Err(e) => Some(e),
            Ok(_) => first_refusal(lists.skip(1)),
        }
    }
}

proof fn lemma_first_refusal(lists: Seq<Seq<Seq<char>>>, i: int)
    requires
        0 <= i < lists.len(),
        forall|j: int| 0 <= j < i ==> compiled_all(#[trigger] lists[j]) is Ok,
        compiled_all(lists[i]) is Err,
    ensures
        first_refusal(lists) == Some(compiled_all(lists[i])->Err_0),
    decreases i,
{
    if i > 0 {
        assert(compiled_all(lists[0]) is Ok);
        let rest = lists.skip(1);
        assert forall|j: int| 0 <= j < i - 1 implies compiled_all(#[trigger] rest[j]) is Ok by {
            assert(rest[j] == lists[j + 1]);
        }
        lemma_first_refusal(rest, i - 1);
    }
}

impl UniversalPatterns {
    /// Each list holds the patterns that it is for.
    pub open spec fn wf(&self) -> bool {
        &&& compiles_to(error_start_patterns(), self.error_start@)
        &&& compiles_to(error_anywhere_patterns(), self.error_anywhere@)
        &&& compiles_to(warning_start_patterns(), self.warning_start@)
        &&& compiles_to(warning_anywhere_patterns(), self.warning_anywhere@)
        &&& compiles_to(success_patterns(), self.success_keywords@)
        &&& compiles_to(stack_start_patterns(), self.stack_start@)
        &&& compiles_to(stack_continue_patterns(), self.stack_continue@)
        &&& compiles_to(prompt_patterns(), self.prompt_patterns@)
        &&& compiles_to(decorative_patterns(), self.decorative@)
    }

    /// Compiles the patterns. It fails exactly where one of them is refused, with the
    /// error of the first such one.
    pub fn new() -> (r: Result<Self, regex::Error>)
        ensures
            r is Ok <==> universal_patterns_compile(),
            match r {
                Ok(patterns) => patterns.wf(),
                Err(e) => first_refusal(universal_lists()) == Some(e),
            },
    {
        let texts = [
            r"(?i)^(error|Error|ERROR)[:\s]",
            r"(?i)^(FAIL|FAILED|FATAL|fatal|Fatal)[:\s]",
            r"(?i)^(panic|Panic|PANIC)[:\s]",
            r"^Traceback \(most recent call last\)",
            r"^Exception",
            r"^Unhandled\s",
        ];
        proof {
            assert(str_views(texts@) =~= error_start_patterns());
        }
        let error_start = match compile_all(&texts) {
            Ok(list) => list,
            Err(e) => {
                proof {
                    lemma_first_refusal(universal_lists(), 0);
                }
                return Err(e);
            },
        };
        let texts = [
            r"command not found$",
            r"(?i)permission denied",
            r"No such file or directory",
            r"ENOENT|EACCES|EPERM|ECONNREFUSED",
            r"(?i)segmentation fault|SIGSEGV",
            r"(?i)killed|OOMKilled",
            r"(?i)out of memory",
            r"cannot find module",
            r"ModuleNotFoundError",
            r"ImportError",
            r"SyntaxError",
        ];
        proof {
            assert(str_views(texts@) =~= error_anywhere_patterns());
        }
        let error_anywhere = match compile_all(&texts) {
            Ok(list) => list,
            Err(e) => {
                proof {
                    lemma_first_refusal(universal_lists(), 1);
                }
                return Err(e);
            },
        };
        let texts = [r"(?i)^(warn|WARN|Warning|WARNING|DEPRECAT)[:\s!]"];
        proof {
            assert(str_views(texts@) =~= warning_start_patterns());
        }
        let warning_start = match compile_all(&texts) {
            Ok(list) => list,
            Err(e) => {
                proof {
                    lemma_first_refusal(universal_lists(), 2);
                }
                return Err(e);
            },
        };
        let texts = [
            r"\bdeprecated\b",
            r"⚠",
            r"\b(moderate|high|critical)\s+vulnerabilit",
        ];
        proof {
            assert(str_views(texts@) =~= warning_anywhere_patterns());
        }
        let warning_anywhere = match compile_all(&texts) {
            Ok(list) => list,
            Err(e) => {
                proof {
                    lemma_first_refusal(universal_lists(), 3);
                }
                return Err(e);
            },
        };
        let texts = [r"(?i)\b(success|succeeded|passed|complete|done|ok|ready)\b"];
        proof {
            assert(str_views(texts@) =~= success_patterns());
        }
        let success_keywords = match compile_all(&texts) {
            Ok(list) => list,
            Err(e) => {
                proof {
                    lemma_first_refusal(universal_lists(), 4);
                }
                return Err(e);
            },
        };
        let texts = [
            r"^\s+at\s+\S+\s+\(.*:\d+:\d+\)",
            r"^\s+at\s+\S+\s+\(node:",
            r#"^\s+File ".+", line \d+"#,
            r"^goroutine \d+",
            r"^\s+.+\.go:\d+",
            r"^\s+\d+:\s+0x[0-9a-f]+\s+-\s+",
            r"^\s+at\s+[\w.$]+\([\w.]+:\d+\)",
            r"^Caused by:",
            r"^\S+:\d+:\d+:",
        ];
        proof {
            assert(str_views(texts@) =~= stack_start_patterns());
        }
        let stack_start = match compile_all(&texts) {
            Ok(list) => list,
            Err(e) => {
                proof {
                    lemma_first_refusal(universal_lists(), 5);
                }
                return Err(e);
            },
        };
        let texts = [r"^\s+"];
        proof {
            assert(str_views(texts@) =~= stack_continue_patterns());
        }
        let stack_continue = match compile_all(&texts) {
            Ok(list) => list,
            Err(e) => {
                proof {
                    lemma_first_refusal(universal_lists(), 6);
                }
                return Err(e);
            },
        };
        let texts = [
            r"\?\s*$",
            r"\(y/n\)|\(Y/N\)|\[y/N\]|\[Y/n\]",
            r"(?i)[Pp]assword:?\s*$",
            r"(?i)[Ee]nter\s.*:\s*$",
            r"(?i)[Pp]ress any key",
            r"\S+>\s*$",
            r":\s*$",
            r"\$\s*$",
        ];
        proof {
            assert(str_views(texts@) =~= prompt_patterns());
        }
        let prompt = match compile_all(&texts) {
            Ok(list) => list,
            Err(e) => {
                proof {
                    lemma_first_refusal(universal_lists(), 7);
                }
                return Err(e);
            },
        };
        let texts = [
            r"^[\s=\-─━_*#~.·•]+$",
            r"^[┌┐└┘├┤┬┴┼│─]+$",
            r"^\s*$",
        ];
        proof {
            assert(str_views(texts@) =~= decorative_patterns());
        }
        let decorative = match compile_all(&texts) {
            Ok(list) => list,
            Err(e) => {
                proof {
                    lemma_first_refusal(universal_lists(), 8);
                }
                return Err(e);
            },
        };
        Ok(
            UniversalPatterns {
                error_start,
                error_anywhere,
                warning_start,
                warning_anywhere,
                success_keywords,
                stack_start,
                stack_continue,
                prompt_patterns: prompt,
                decorative,
            },
        )
    }

    /// Finds out which patterns a line matches.
    pub fn signs(&self, line: &str) -> (r: LineSigns)
        ensures
            r == signs_of(*self, line@),
    {
        LineSigns {
            error_start: matches_any(self.error_start.as_slice(), line),
            error_anywhere: matches_any(self.error_anywhere.as_slice(), line),
            warning_start: matches_any(self.warning_start.as_slice(), line),
            warning_anywhere: matches_any(self.warning_anywhere.as_slice(), line),
            success: matches_any(self.success_keywords.as_slice(), line),
            stack_start: matches_any(self.stack_start.as_slice(), line),
            stack_continue: matches_any(self.stack_continue.as_slice(), line),
            decorative: matches_any(self.decorative.as_slice(), line),
        }
    }
}

/// The line matches one of the expressions.
pub open spec fn any_matches(patterns: Seq<Regex>, line: Seq<char>) -> bool {
    exists|i: int| 0 <= i < patterns.len() && outside::regex_matches(#[trigger] patterns[i], line)
}

/// Whether a line matches one of the expressions.
pub fn matches_any(patterns: &[Regex], line: &str) -> (r: bool)
    ensures
        r == any_matches(patterns@, line@),
{
    let mut i: usize = 0;
    while i < patterns.len()
        invariant
            i <= patterns.len(),
            forall|j: int|
                0 <= j < i ==> !outside::regex_matches(#[trigger] patterns@[j], line@),
        decreases patterns.len() - i,
    {
        if patterns[i].is_match(line) {
            return true;
        }
        i += 1;
    }
    false
}

/// What the universal patterns say of a line: for each kind, whether one of
/// them matches.
#[derive(Debug, Clone, Copy, PartialEq, Eq, Structural)]
pub struct LineSigns {
    pub error_start: bool,
    pub error_anywhere: bool,
    pub warning_start: bool,
    pub warning_anywhere: bool,
    pub success: bool,
    pub stack_start: bool,
    pub stack_continue: bool,
    pub decorative: bool,
}

pub open spec fn signs_of(patterns: UniversalPatterns, line: Seq<char>) -> LineSigns {
    LineSigns {
        error_start: any_matches(patterns.error_start@, line),
        error_anywhere: any_matches(patterns.error_anywhere@, line),
        warning_start: any_matches(patterns.warning_start@, line),
        warning_anywhere: any_matches(patterns.warning_anywhere@, line),
        success: any_matches(patterns.success_keywords@, line),
        stack_start: any_matches(patterns.stack_start@, line),
        stack_continue: any_matches(patterns.stack_continue@, line),
        decorative: any_matches(patterns.decorative@, line),
    }
}

// ---------------------------------------------------------------------------
// Grammar rules
// ---------------------------------------------------------------------------

/// What the rules of a grammar say of a line.
#[derive(Debug, Clone)]
pub enum GrammarHit {
    /// A hazard, to which the next `attach` lines belong.
    Hazard { severity: Severity, attach: u32, captures: StrMap<String> },
    Outcome { captures: StrMap<String> },
    Noise { action: NoiseAction },
}

pub enum GrammarHitView {
    Hazard { severity: Severity, attach: u32, captures: Seq<(Seq<char>, Seq<char>)> },
    Outcome { captures: Seq<(Seq<char>, Seq<char>)> },
    Noise { action: NoiseAction },
}

impl View for GrammarHit {
    type V = GrammarHitView;

    open spec fn view(&self) -> GrammarHitView {
        match *self {
            GrammarHit::Hazard { severity, attach, captures } => GrammarHitView::Hazard {
                severity,
                attach,
                captures: strmap::text_pairs(captures@),
            },
            GrammarHit::Outcome { captures } => GrammarHitView::Outcome {
                captures: strmap::text_pairs(captures@),
            },
            GrammarHit::Noise { action } => GrammarHitView::Noise { action },
        }
    }
}

pub open spec fn opt_hit_view(hit: Option<GrammarHit>) -> Option<GrammarHitView> {
    match hit {
        Some(h) => Some(h@),
        None => None,
    }
}

/// Noise is deduplicated where its rule says so, and stripped otherwise.
pub open spec fn noise_action_of(action: RuleAction) -> NoiseAction {
    if action == RuleAction::Dedup {
        NoiseAction::Dedup
    } else {
        NoiseAction::Strip
    }
}

/// The rules that apply to the output of a command.
pub struct RuleSet {
    pub hazard: Seq<RuleView>,
    pub outcome: Seq<RuleView>,
    pub noise: Seq<RuleView>,
}

/// The rules' verdict on a line: hazards before outcomes before noise.
pub open spec fn grammar_hit(rules: RuleSet, line: Seq<char>) -> Option<GrammarHitView> {
    if grammar::first_rule(rules.hazard, line) is Some {
        let rule = grammar::first_rule(rules.hazard, line)->0;
        Some(
            GrammarHitView::Hazard {
                severity: match rule.severity {
                    Some(severity) => severity,
                    None => Severity::Error,
                },
                attach: match rule.multiline {
                    Some(n) => n,
                    None => 0,
                },
                captures: grammar::caught(rule.pattern, line, rule.captures),
            },
        )
    } else if grammar::first_rule(rules.outcome, line) is Some {
        let rule = grammar::first_rule(rules.outcome, line)->0;
        Some(
            GrammarHitView::Outcome {
                captures: grammar::caught(rule.pattern, line, rule.captures),
            },
        )
    } else if grammar::first_rule(rules.noise, line) is Some {
        let rule = grammar::first_rule(rules.noise, line)->0;
        Some(GrammarHitView::Noise { action: noise_action_of(rule.action) })
    } else {
        None
    }
}

// ---------------------------------------------------------------------------
// Similar lines
// ---------------------------------------------------------------------------

/// Two lines are similar: both are empty, or they start with the same word,
/// neither is more than twice as long as the other, and the edits between them
/// are less than three tenths of the longer line. Lengths count bytes.
pub open spec fn similar(current: Seq<char>, previous: Seq<char>) -> bool {
    let a = text::byte_len(current);
    let b = text::byte_len(previous);
    let longer = if a >= b {
        a
    } else {
        b
    };
    let shorter = if a >= b {
        b
    } else {
        a
    };
    if shorter == 0 {
        longer == 0
    } else {
        &&& longer <= 2 * shorter
        &&& text::first_word(current) == text::first_word(previous)
        &&& 10 * distance::edits(current, previous) < 3 * longer
    }
}

/// Whether two lines are similar enough to be told once.
pub fn is_similar(current: &str, previous: &str) -> (r: bool)
    ensures
        r == similar(current@, previous@),
        r && current@.len() > 0 ==> exists|n: nat|
            #[trigger] distance::leads_to(current@, previous@, n) && (10 * n < 3
                * vstd::utf8::encode_utf8(current@).len() || 10 * n < 3
                * vstd::utf8::encode_utf8(previous@).len()),
{
    proof {
        law_similar_lines_are_few_edits_away(current@, previous@);
    }
    let a: usize = len_in_bytes(current);
    let b: usize = len_in_bytes(previous);
    let longer: usize = if a >= b {
        a
    } else {
        b
    };
    let shorter: usize = if a >= b {
        b
    } else {
        a
    };
    if shorter == 0 {
        return longer == 0;
    }
    if longer - shorter > shorter {
        return false;
    }
    let current_first = first_word_of(current);
    let previous_first = first_word_of(previous);
    if !same(current_first.as_str(), previous_first.as_str()) {
        return false;
    }
    let edits: usize = levenshtein(current, previous);
    10 * (edits as u128) < 3 * (longer as u128)
}

// ---------------------------------------------------------------------------
// The classifier, specified
// ---------------------------------------------------------------------------

/// How many of the last lines are remembered.
pub const RING_BUFFER_SIZE: usize = 5;

/// From how many unknown lines in a row on they count as volume.
pub const VOLUME_THRESHOLD: usize = 10;

/// The silence, in nanoseconds, after which a line is not taken for noise by
/// its shape.
pub const SILENCE_THRESHOLD_NANOS: u128 = 2_000_000_000;

/// The silence, in nanoseconds, after which a prompt may be waiting.
pub const PROMPT_SILENCE_NANOS: u128 = 500_000_000;

/// A line that is to be classified once more.
pub struct DeferredView {
    pub raw: Seq<char>,
    pub meta: AnsiView,
}

/// The state of a classifier.
pub struct ClassifierView {
    pub state: ClassifierState,
    /// The line that was classified last.
    pub previous: Option<Seq<char>>,
    /// How many lines in a row were unknown.
    pub unknown: nat,
    /// The last lines.
    pub ring: Seq<Seq<char>>,
    /// Whether an outcome was seen.
    pub has_outcome: bool,
    /// How many lines the current hazard still takes.
    pub remaining: nat,
    pub hazard_severity: Severity,
    pub hazard_text: Seq<char>,
    pub hazard_captures: Seq<(Seq<char>, Seq<char>)>,
    /// The lines that the current hazard has taken.
    pub attached: Seq<Seq<char>>,
    /// The frames of the current stack trace.
    pub trace: Seq<Seq<char>>,
    pub deferred: Option<DeferredView>,
    /// The next line is not taken for noise by its shape.
    pub bypass: bool,
}

/// What a line comes to: a classification, or the question whether it continues
/// a streak of similar lines.
pub enum StepView {
    Done(ClassView),
    CheckDedup(Seq<char>),
}

/// Noise of which nothing is kept.
pub open spec fn suppressed() -> ClassView {
    ClassView::Noise { action: NoiseAction::Strip, text: Seq::empty() }
}

/// The lines with another one behind them, and without the first where there
/// are too many.
pub open spec fn ring_with(ring: Seq<Seq<char>>, line: Seq<char>) -> Seq<Seq<char>> {
    let more = ring.push(line);
    if more.len() > RING_BUFFER_SIZE {
        more.skip(1)
    } else {
        more
    }
}

/// The state after a line was classified.
pub open spec fn noted(s: ClassifierView, line: Seq<char>, class: ClassView) -> ClassifierView {
    ClassifierView {
        ring: ring_with(s.ring, line),
        has_outcome: s.has_outcome || class is Outcome,
        unknown: if class is Unknown {
            s.unknown + 1
        } else {
            0
        },
        previous: Some(line),
        ..s
    }
}

/// A stack trace in short: nothing of one frame, the last of two frames, and
/// the last frame with the number of those left out of more.
pub open spec fn compressed_trace(trace: Seq<Seq<char>>) -> Option<Seq<char>> {
    if trace.len() < 2 {
        None
    } else if trace.len() == 2 {
        Some(trace.last())
    } else {
        let middle = (trace.len() - 2) as nat;
        Some("... "@ + text::dec(middle) + " frames ...\n"@ + trace.last())
    }
}

pub open spec fn shows(colors: Seq<AnsiColor>, color: AnsiColor, bright: AnsiColor) -> bool {
    colors.contains(color) || colors.contains(bright)
}

/// The kinds of lines that the universal patterns tell apart.
#[derive(Debug, Clone, Copy, PartialEq, Eq, Structural)]
pub enum UniversalClass {
    Error,
    Warning,
    Outcome,
}

/// What colors and universal patterns make of a line. A color counts only
/// together with words of its kind; errors come before warnings.
pub open spec fn universal_class(
    colors: Seq<AnsiColor>,
    signs: LineSigns,
) -> Option<UniversalClass> {
    let errors = signs.error_start || signs.error_anywhere;
    let warnings = signs.warning_start || signs.warning_anywhere;
    if shows(colors, AnsiColor::Red, AnsiColor::BrightRed) && errors {
        Some(UniversalClass::Error)
    } else if shows(colors, AnsiColor::Yellow, AnsiColor::BrightYellow) && warnings {
        Some(UniversalClass::Warning)
    } else if shows(colors, AnsiColor::Green, AnsiColor::BrightGreen) && signs.success {
        Some(UniversalClass::Outcome)
    } else if errors {
        Some(UniversalClass::Error)
    } else if warnings {
        Some(UniversalClass::Warning)
    } else if signs.stack_start {
        Some(UniversalClass::Error)
    } else {
        None
    }
}

pub open spec fn universal_view(class: UniversalClass, line: Seq<char>) -> ClassView {
    match class {
        UniversalClass::Error => ClassView::Hazard {
            severity: Severity::Error,
            text: line,
            captures: Seq::empty(),
        },
        UniversalClass::Warning => ClassView::Hazard {
            severity: Severity::Warning,
            text: line,
            captures: Seq::empty(),
        },
        UniversalClass::Outcome => ClassView::Outcome { text: line, captures: Seq::empty() },
    }
}

/// A line that belongs to a hazard of several lines. The last such line yields
/// the hazard with all its lines; the others are suppressed.
pub open spec fn attach_step(s: ClassifierView, line: Seq<char>) -> (ClassifierView, StepView) {
    let attached = s.attached.push(line);
    if s.remaining == 1 {
        (
            ClassifierView {
                state: ClassifierState::Running,
                remaining: 0,
                hazard_text: Seq::empty(),
                hazard_captures: Seq::empty(),
                attached: Seq::empty(),
                ..s
            },
            StepView::Done(
                ClassView::Hazard {
                    severity: s.hazard_severity,
                    text: s.hazard_text + "\n"@ + text::join(attached, "\n"@),
                    captures: s.hazard_captures,
                },
            ),
        )
    } else {
        (
            ClassifierView { remaining: (s.remaining - 1) as nat, attached, ..s },
            StepView::Done(suppressed()),
        )
    }
}

/// A line on which a grammar rule decides.
pub open spec fn grammar_step(s: ClassifierView, line: Seq<char>, hit: GrammarHitView) -> (
    ClassifierView,
    StepView,
) {
    match hit {
        GrammarHitView::Hazard { severity, attach, captures } => {
            if attach > 0 {
                let next = ClassifierView {
                    state: ClassifierState::ConsumingTrace,
                    remaining: attach as nat,
                    hazard_severity: severity,
                    hazard_text: line,
                    hazard_captures: captures,
                    attached: Seq::empty(),
                    ..s
                };
                (noted(next, line, suppressed()), StepView::Done(suppressed()))
            } else {
                let class = ClassView::Hazard { severity, text: line, captures };
                (noted(s, line, class), StepView::Done(class))
            }
        },
        GrammarHitView::Outcome { captures } => {
            let class = ClassView::Outcome { text: line, captures };
            (noted(s, line, class), StepView::Done(class))
        },
        GrammarHitView::Noise { action } => {
            let class = ClassView::Noise { action, text: line };
            (noted(s, line, class), StepView::Done(class))
        },
    }
}

/// A line on which the universal patterns decide. A hazard that looks like the
/// start of a stack trace starts one.
pub open spec fn universal_step(
    s: ClassifierView,
    line: Seq<char>,
    class: UniversalClass,
    signs: LineSigns,
) -> (ClassifierView, StepView) {
    let view = universal_view(class, line);
    let next = if view is Hazard && signs.stack_start {
        ClassifierView { state: ClassifierState::ConsumingTrace, trace: seq![line], ..s }
    } else {
        s
    };
    (noted(next, line, view), StepView::Done(view))
}

/// A line on which only its shape and its likeness to the line before can
/// decide. After a silence they do not count.
pub open spec fn structural_step(
    s: ClassifierView,
    line: Seq<char>,
    signs: LineSigns,
    bypass: bool,
) -> (ClassifierView, StepView) {
    if bypass {
        let class = ClassView::Unknown { text: line };
        (noted(s, line, class), StepView::Done(class))
    } else if signs.decorative {
        let class = ClassView::Noise { action: NoiseAction::Strip, text: line };
        (noted(s, line, class), StepView::Done(class))
    } else if s.previous matches Some(previous) && similar(line, previous) {
        let class = ClassView::Noise { action: NoiseAction::Dedup, text: line };
        (noted(s, line, class), StepView::Done(class))
    } else {
        (s, StepView::CheckDedup(line))
    }
}

/// A line that belongs to nothing before it.
pub open spec fn ordinary_step(
    s: ClassifierView,
    meta: AnsiView,
    signs: LineSigns,
    hit: Option<GrammarHitView>,
) -> (ClassifierView, StepView) {
    let next = ClassifierView { bypass: false, ..s };
    if hit is Some {
        grammar_step(next, meta.clean, hit->0)
    } else if universal_class(meta.colors, signs) is Some {
        universal_step(next, meta.clean, universal_class(meta.colors, signs)->0, signs)
    } else {
        structural_step(next, meta.clean, signs, s.bypass)
    }
}

/// A complete line.
pub open spec fn complete_step(
    s: ClassifierView,
    raw: Seq<char>,
    meta: AnsiView,
    signs: LineSigns,
    hit: Option<GrammarHitView>,
) -> (ClassifierView, StepView) {
    if s.remaining > 0 {
        attach_step(s, meta.clean)
    } else if s.state == ClassifierState::ConsumingTrace && (signs.stack_continue
        || signs.stack_start) {
        (
            ClassifierView { trace: s.trace.push(meta.clean), ..s },
            StepView::Done(suppressed()),
        )
    } else if s.state == ClassifierState::ConsumingTrace && compressed_trace(s.trace) is Some {
        (
            ClassifierView {
                state: ClassifierState::Running,
                trace: Seq::empty(),
                deferred: Some(DeferredView { raw, meta }),
                ..s
            },
            StepView::Done(
                ClassView::Hazard {
                    severity: Severity::Error,
                    text: compressed_trace(s.trace)->0,
                    captures: Seq::empty(),
                },
            ),
        )
    } else if s.state == ClassifierState::ConsumingTrace {
        ordinary_step(
            ClassifierView { state: ClassifierState::Running, trace: Seq::empty(), ..s },
            meta,
            signs,
            hit,
        )
    } else {
        ordinary_step(s, meta, signs, hit)
    }
}

/// An unfinished line: a prompt or not.
pub open spec fn partial_step(s: ClassifierView, line: Seq<char>, prompt: bool) -> (
    ClassifierView,
    StepView,
) {
    if prompt {
        (
            ClassifierView { state: ClassifierState::AwaitingInput, ..s },
            StepView::Done(ClassView::Prompt { text: line }),
        )
    } else {
        (s, StepView::Done(ClassView::Unknown { text: line }))
    }
}

/// The state in which a line is met: output means that the command runs, and a
/// line after a silence is not taken for noise by its shape.
pub open spec fn awake(s: ClassifierView, after_silence: bool) -> ClassifierView {
    ClassifierView {
        state: if s.state == ClassifierState::Idle || s.state == ClassifierState::MaybePrompt {
            ClassifierState::Running
        } else {
            s.state
        },
        bypass: s.bypass || after_silence,
        ..s
    }
}

/// What the patterns and the rules say of a line.
pub struct Findings {
    pub signs: LineSigns,
    pub hit: Option<GrammarHitView>,
    pub prompt: bool,
}

/// A line of any kind.
pub open spec fn line_step(
    s: ClassifierView,
    after_silence: bool,
    line: LineView,
    meta: AnsiView,
    findings: Findings,
) -> (ClassifierView, StepView) {
    let next = awake(s, after_silence);
    match line {
        LineView::Overwrite(_) => (next, StepView::Done(suppressed())),
        LineView::Partial(_) => partial_step(next, meta.clean, findings.prompt),
        LineView::Complete(raw) => complete_step(next, raw, meta, findings.signs, findings.hit),
    }
}

/// The state without a line that was put off.
pub open spec fn drained(s: ClassifierView) -> ClassifierView {
    ClassifierView { deferred: None, ..s }
}

/// A line of which only the streak of similar lines was open.
pub open spec fn dedup_step(s: ClassifierView, line: Seq<char>, result: DedupResult) -> (
    ClassifierView,
    ClassView,
) {
    let class = if result == DedupResult::Absorbed {
        ClassView::Noise { action: NoiseAction::Dedup, text: line }
    } else {
        ClassView::Unknown { text: line }
    };
    (noted(s, line, class), class)
}

// ---------------------------------------------------------------------------
// The classifier
// ---------------------------------------------------------------------------

/// What a line comes to.
#[derive(Debug, Clone)]
pub enum Step {
    /// Its classification.
    Done(Classification),
    /// The question whether the line continues a streak of similar lines; the
    /// answer goes to `settle_dedup`.
    CheckDedup(String),
}

impl View for Step {
    type V = StepView;

    open spec fn view(&self) -> StepView {
        match *self {
            Step::Done(class) => StepView::Done(class@),
            Step::CheckDedup(line) => StepView::CheckDedup(line@),
        }
    }
}

/// A line that is to be classified once more.
pub struct Deferred {
    pub raw: String,
    pub meta: AnsiMetadata,
}

impl View for Deferred {
    type V = DeferredView;

    open spec fn view(&self) -> DeferredView {
        DeferredView { raw: self.raw@, meta: self.meta@ }
    }
}

pub struct Classifier {
    state: ClassifierState,
    hazard_rules: Vec<Rule>,
    outcome_rules: Vec<Rule>,
    action_noise_rules: Vec<Rule>,
    global_noise_rules: Vec<Rule>,
    universal: UniversalPatterns,
    previous_line: Option<String>,
    consecutive_unknown_count: usize,
    ring_buffer: VecDeque<String>,
    has_outcome: bool,
    multiline_remaining: u32,
    current_hazard_severity: Severity,
    current_hazard_text: String,
    current_hazard_captures: StrMap<String>,
    current_hazard_attached: Vec<String>,
    consuming_trace_lines: Vec<String>,
    deferred_line: Option<Deferred>,
    last_line_time: Instant,
    temporal_noise_bypass: bool,
}

impl View for Classifier {
    type V = ClassifierView;

    closed spec fn view(&self) -> ClassifierView {
        ClassifierView {
            state: self.state,
            previous: grammar::opt_view(self.previous_line),
            unknown: self.consecutive_unknown_count as nat,
            ring: text::views(self.ring_buffer@),
            has_outcome: self.has_outcome,
            remaining: self.multiline_remaining as nat,
            hazard_severity: self.current_hazard_severity,
            hazard_text: self.current_hazard_text@,
            hazard_captures: strmap::text_pairs(self.current_hazard_captures@),
            attached: text::views(self.current_hazard_attached@),
            trace: text::views(self.consuming_trace_lines@),
            deferred: match self.deferred_line {
                Some(d) => Some(d@),
                None => None,
            },
            bypass: self.temporal_noise_bypass,
        }
    }
}

/// The state of a classifier that has seen nothing.
pub open spec fn initial() -> ClassifierView {
    ClassifierView {
        state: ClassifierState::Idle,
        previous: None,
        unknown: 0,
        ring: Seq::empty(),
        has_outcome: false,
        remaining: 0,
        hazard_severity: Severity::Error,
        hazard_text: Seq::empty(),
        hazard_captures: Seq::empty(),
        attached: Seq::empty(),
        trace: Seq::empty(),
        deferred: None,
        bypass: false,
    }
}

/// The rules that apply under a grammar: those of the action, or else of the
/// fallback, and the global ones.
pub open spec fn rules_for(
    grammar: Option<grammar::GrammarView>,
    action: Option<grammar::ActionView>,
) -> RuleSet {
    match grammar {
        None => RuleSet { hazard: Seq::empty(), outcome: Seq::empty(), noise: Seq::empty() },
        Some(g) => {
            let chosen = if action is Some {
                action
            } else {
                g.fallback
            };
            match chosen {
                Some(a) => RuleSet {
                    hazard: a.hazard,
                    outcome: a.outcome,
                    noise: a.noise + g.global_noise,
                },
                None => RuleSet {
                    hazard: Seq::empty(),
                    outcome: Seq::empty(),
                    noise: g.global_noise,
                },
            }
        },
    }
}

/// The view of an optional reference to a grammar.
pub open spec fn ref_grammar_view(grammar: Option<&Grammar>) -> Option<grammar::GrammarView> {
    match grammar {
        Some(g) => Some(g@),
        None => None,
    }
}

impl Classifier {
    /// The rules that are asked first.
    pub closed spec fn rules(&self) -> RuleSet {
        RuleSet {
            hazard: grammar::rule_views(self.hazard_rules@),
            outcome: grammar::rule_views(self.outcome_rules@),
            noise: grammar::rule_views(self.action_noise_rules@) + grammar::rule_views(
                self.global_noise_rules@,
            ),
        }
    }

    /// The patterns that are asked next.
    pub closed spec fn patterns(&self) -> UniversalPatterns {
        self.universal
    }

    /// What the classifier's patterns and rules say of a line.
    pub open spec fn findings(&self, line: Seq<char>) -> Findings {
        Findings {
            signs: signs_of(self.patterns(), line),
            hit: grammar_hit(self.rules(), line),
            prompt: any_matches(self.patterns().prompt_patterns@, line),
        }
    }

    /// When the last line was classified, or the classifier was made.
    pub closed spec fn last_line(&self) -> Instant {
        self.last_line_time
    }

    /// A classifier, with the rules of a grammar if there is one. It fails
    /// where a universal pattern is refused, with the error of the first.
    pub fn new(grammar: Option<&Grammar>, action: Option<&Action>) -> (r: Result<
        Self,
        regex::Error,
    >)
        ensures
            r is Ok <==> universal_patterns_compile(),
            match r {
                Ok(c) => {
                    &&& c@ == initial()
                    &&& c.patterns().wf()
                    &&& c.rules() == rules_for(
                        ref_grammar_view(grammar),
                        grammar::ref_view(action),
                    )
                    &&& call_ensures(Instant::now, (), c.last_line())
                },
                Err(e) => first_refusal(universal_lists()) == Some(e),
            },
    {
        let universal = match UniversalPatterns::new() {
            Ok(universal) => universal,
            Err(e) => {
                return Err(e);
            },
        };
        let mut hazard_rules: Vec<Rule> = Vec::new();
        let mut outcome_rules: Vec<Rule> = Vec::new();
        let mut action_noise_rules: Vec<Rule> = Vec::new();
        let mut global_noise_rules: Vec<Rule> = Vec::new();
        if let Some(g) = grammar {
            let chosen = match action {
                Some(a) => Some(a),
                None => match &g.fallback {
                    Some(f) => Some(f),
                    None => None,
                },
            };
            if let Some(a) = chosen {
                hazard_rules = copy_rules(a.hazard.as_slice());
                outcome_rules = copy_rules(a.outcome.as_slice());
                action_noise_rules = copy_rules(a.noise.as_slice());
            }
            global_noise_rules = copy_rules(g.global_noise.as_slice());
        }
        let r = Classifier {
            state: ClassifierState::Idle,
            hazard_rules,
            outcome_rules,
            action_noise_rules,
            global_noise_rules,
            universal,
            previous_line: None,
            consecutive_unknown_count: 0,
            ring_buffer: VecDeque::new(),
            has_outcome: false,
            multiline_remaining: 0,
            current_hazard_severity: Severity::Error,
            current_hazard_text: String::new(),
            current_hazard_captures: StrMap::new(),
            current_hazard_attached: Vec::new(),
            consuming_trace_lines: Vec::new(),
            deferred_line: None,
            last_line_time: Instant::now(),
            temporal_noise_bypass: false,
        };
        proof {
            assert(r@.ring =~= Seq::<Seq<char>>::empty());
            assert(r@.hazard_captures =~= Seq::<(Seq<char>, Seq<char>)>::empty());
            assert(r@.attached =~= Seq::<Seq<char>>::empty());
            assert(r@.trace =~= Seq::<Seq<char>>::empty());
            let rules = rules_for(ref_grammar_view(grammar), grammar::ref_view(action));
            assert(r.rules().hazard =~= rules.hazard);
            assert(r.rules().outcome =~= rules.outcome);
            assert(r.rules().noise =~= rules.noise);
        }
        Ok(r)
    }

    /// The current state.
    pub fn state(&self) -> (r: ClassifierState)
        ensures
            r == self@.state,
    {
        self.state
    }

    /// The last lines, oldest first.
    pub fn ring_buffer(&self) -> (r: &VecDeque<String>)
        ensures
            text::views(r@) == self@.ring,
    {
        &self.ring_buffer
    }

    /// Whether an outcome was seen.
    pub fn has_outcome(&self) -> (r: bool)
        ensures
            r == self@.has_outcome,
    {
        self.has_outcome
    }

    /// How many lines in a row were unknown.
    pub fn consecutive_unknown_count(&self) -> (r: usize)
        ensures
            r == self@.unknown,
    {
        self.consecutive_unknown_count
    }

    /// Input was given: a classifier that waits for it goes on.
    pub fn resume_from_prompt(&mut self)
        ensures
            final(self)@ == (ClassifierView {
                state: if old(self)@.state == ClassifierState::AwaitingInput {
                    ClassifierState::Running
                } else {
                    old(self)@.state
                },
                ..old(self)@
            }),
            final(self).rules() == old(self).rules(),
            final(self).patterns() == old(self).patterns(),
            final(self).last_line() == old(self).last_line(),
    {
        if self.state == ClassifierState::AwaitingInput {
            self.state = ClassifierState::Running;
        }
    }

    /// There was no output for a while.
    pub fn notify_silence(&mut self, duration: Duration)
        ensures
            final(self)@ == (ClassifierView {
                bypass: old(self)@.bypass || outside::nanos(duration) >= SILENCE_THRESHOLD_NANOS,
                state: if old(self)@.state == ClassifierState::Running && outside::nanos(duration)
                    >= PROMPT_SILENCE_NANOS {
                    ClassifierState::MaybePrompt
                } else {
                    old(self)@.state
                },
                ..old(self)@
            }),
            outside::nanos(duration) >= 2_000_000_000 ==> final(self)@.bypass,
            outside::nanos(duration) < 2_000_000_000 ==> final(self)@.bypass == old(self)@.bypass,
            outside::nanos(duration) < 500_000_000 ==> final(self)@.state == old(self)@.state,
            outside::nanos(duration) >= 500_000_000 && old(self)@.state == ClassifierState::Running
                ==> final(self)@.state == ClassifierState::MaybePrompt,
            final(self).rules() == old(self).rules(),
            final(self).patterns() == old(self).patterns(),
            final(self).last_line() == old(self).last_line(),
    {
        let length: u128 = duration.as_nanos();
        if length >= SILENCE_THRESHOLD_NANOS {
            self.temporal_noise_bypass = true;
        }
        if self.state == ClassifierState::Running && length >= PROMPT_SILENCE_NANOS {
            self.state = ClassifierState::MaybePrompt;
        }
    }

    /// The command has ended.
    pub fn notify_exit(&mut self, exit_code: i32, signaled: bool)
        ensures
            final(self)@ == (ClassifierView {
                state: if signaled {
                    ClassifierState::DoneKilled
                } else if exit_code == 0 {
                    ClassifierState::DoneSuccess
                } else {
                    ClassifierState::DoneFailure
                },
                ..old(self)@
            }),
            final(self).rules() == old(self).rules(),
            final(self).patterns() == old(self).patterns(),
            final(self).last_line() == old(self).last_line(),
    {
        self.state = if signaled {
            ClassifierState::DoneKilled
        } else if exit_code == 0 {
            ClassifierState::DoneSuccess
        } else {
            ClassifierState::DoneFailure
        };
    }

    /// Remembers a classified line.
    fn update_tracking(&mut self, clean: &str, class: &Classification)
        requires
            old(self)@.unknown < usize::MAX,
        ensures
            final(self)@ == noted(old(self)@, clean@, class@),
            final(self).rules() == old(self).rules(),
            final(self).patterns() == old(self).patterns(),
            final(self).last_line() == old(self).last_line(),
    {
        let ghost ring = text::views(self.ring_buffer@);
        self.ring_buffer.push_back(clean.to_owned());
        proof {
            assert(text::views(self.ring_buffer@) =~= ring.push(clean@));
        }
        if self.ring_buffer.len() > RING_BUFFER_SIZE {
            let ghost more = self.ring_buffer@;
            let _oldest = self.ring_buffer.pop_front();
            proof {
                assert(text::views(self.ring_buffer@) =~= text::views(more).skip(1));
            }
        }
        match class {
            Classification::Outcome { .. } => {
                self.has_outcome = true;
            },
            _ => {},
        }
        match class {
            Classification::Unknown { .. } => {
                self.consecutive_unknown_count += 1;
            },
            _ => {
                self.consecutive_unknown_count = 0;
            },
        }
        self.previous_line = Some(clean.to_owned());
        proof {
            assert(self@.ring =~= noted(old(self)@, clean@, class@).ring);
        }
    }

    /// Gives a line to the hazard that it belongs to.
    fn attach_line(&mut self, clean: &str) -> (r: Classification)
        requires
            old(self)@.remaining > 0,
        ensures
            (final(self)@, StepView::Done(r@)) == attach_step(old(self)@, clean@),
            final(self).rules() == old(self).rules(),
            final(self).patterns() == old(self).patterns(),
            final(self).last_line() == old(self).last_line(),
    {
        let ghost before = self@;
        self.multiline_remaining = self.multiline_remaining - 1;
        self.current_hazard_attached.push(clean.to_owned());
        proof {
            assert(text::views(self.current_hazard_attached@) =~= before.attached.push(clean@));
        }
        if self.multiline_remaining == 0 {
            self.state = ClassifierState::Running;
            let lines = join_strings(self.current_hazard_attached.as_slice(), "\n");
            let text = concat3(self.current_hazard_text.as_str(), "\n", lines.as_str());
            let mut captures: StrMap<String> = StrMap::new();
            proof {
                assert(strmap::text_pairs(captures@) =~= Seq::<(Seq<char>, Seq<char>)>::empty());
            }
            std::mem::swap(&mut captures, &mut self.current_hazard_captures);
            self.current_hazard_text = String::new();
            self.current_hazard_attached = Vec::new();
            proof {
                assert(self@.attached =~= Seq::<Seq<char>>::empty());
                assert(self@.hazard_captures =~= Seq::<(Seq<char>, Seq<char>)>::empty());
            }
            return Classification::Hazard {
                severity: self.current_hazard_severity,
                text,
                captures,
            };
        }
        no_text()
    }

    /// Takes the verdict of a grammar rule.
    fn classify_tier1_mut(&mut self, clean: &str, hit: GrammarHit) -> (r: Classification)
        requires
            old(self)@.unknown < usize::MAX,
        ensures
            (final(self)@, StepView::Done(r@)) == grammar_step(old(self)@, clean@, hit@),
            final(self).rules() == old(self).rules(),
            final(self).patterns() == old(self).patterns(),
            final(self).last_line() == old(self).last_line(),
    {
        match hit {
            GrammarHit::Hazard { severity, attach, captures } => {
                if attach > 0 {
                    self.multiline_remaining = attach;
                    self.current_hazard_severity = severity;
                    self.current_hazard_text = clean.to_owned();
                    self.current_hazard_captures = captures;
                    self.current_hazard_attached = Vec::new();
                    self.state = ClassifierState::ConsumingTrace;
                    proof {
                        assert(self@.attached =~= Seq::<Seq<char>>::empty());
                    }
                    let class = no_text();
                    self.update_tracking(clean, &class);
                    return class;
                }
                let class = Classification::Hazard { severity, text: clean.to_owned(), captures };
                self.update_tracking(clean, &class);
                class
            },
            GrammarHit::Outcome { captures } => {
                let class = Classification::Outcome { text: clean.to_owned(), captures };
                self.update_tracking(clean, &class);
                class
            },
            GrammarHit::Noise { action } => {
                let class = Classification::Noise { action, text: clean.to_owned() };
                self.update_tracking(clean, &class);
                class
            },
        }
    }
}

/// Noise of which nothing is kept.
fn no_text() -> (r: Classification)
    ensures
        r@ == suppressed(),
{
    Classification::Noise { action: NoiseAction::Strip, text: String::new() }
}

/// Whether one of two colors is among those of a line.
fn has_color(colors: &[AnsiColor], color: AnsiColor, bright: AnsiColor) -> (r: bool)
    ensures
        r == shows(colors@, color, bright),
{
    let mut i: usize = 0;
    while i < colors.len()
        invariant
            i <= colors.len(),
            forall|j: int| 0 <= j < i ==> #[trigger] colors@[j] != color && colors@[j] != bright,
        decreases colors.len() - i,
    {
        if colors[i] == color || colors[i] == bright {
            proof {
                assert(colors@.contains(colors@[i as int]));
            }
            return true;
        }
        i += 1;
    }
    false
}

/// Decides by colors and universal patterns.
pub fn classify_tier2(colors: &[AnsiColor], signs: LineSigns) -> (r: Option<UniversalClass>)
    ensures
        r == universal_class(colors@, signs),
{
    let errors = signs.error_start || signs.error_anywhere;
    let warnings = signs.warning_start || signs.warning_anywhere;
    if has_color(colors, AnsiColor::Red, AnsiColor::BrightRed) && errors {
        Some(UniversalClass::Error)
    } else if has_color(colors, AnsiColor::Yellow, AnsiColor::BrightYellow) && warnings {
        Some(UniversalClass::Warning)
    } else if has_color(colors, AnsiColor::Green, AnsiColor::BrightGreen) && signs.success {
        Some(UniversalClass::Outcome)
    } else if errors {
        Some(UniversalClass::Error)
    } else if warnings {
        Some(UniversalClass::Warning)
    } else if signs.stack_start {
        Some(UniversalClass::Error)
    } else {
        None
    }
}

/// The classification for a verdict of the universal patterns.
fn universal_classification(class: UniversalClass, line: &str) -> (r: Classification)
    ensures
        r@ == universal_view(class, line@),
{
    let captures: StrMap<String> = StrMap::new();
    proof {
        assert(strmap::text_pairs(captures@) =~= Seq::<(Seq<char>, Seq<char>)>::empty());
    }
    match class {
        UniversalClass::Error => Classification::Hazard {
            severity: Severity::Error,
            text: line.to_owned(),
            captures,
        },
        UniversalClass::Warning => Classification::Hazard {
            severity: Severity::Warning,
            text: line.to_owned(),
            captures,
        },
        UniversalClass::Outcome => Classification::Outcome { text: line.to_owned(), captures },
    }
}

/// A stack trace in short.
pub fn compress_trace(trace: &[String]) -> (r: Option<String>)
    ensures
        grammar::opt_view(r) == compressed_trace(text::views(trace@)),
{
    let total: usize = trace.len();
    if total < 2 {
        return None;
    }
    let last = trace[total - 1].as_str();
    if total == 2 {
        return Some(last.to_owned());
    }
    let middle: usize = total - 2;
    let mut r = String::new();
    r.append("... ");
    text::push_dec(&mut r, middle as u64);
    r.append(" frames ...\n");
    r.append(last);
    proof {
        assert(r@ =~= compressed_trace(text::views(trace@))->0);
    }
    Some(r)
}

fn copy_meta(meta: &AnsiMetadata) -> (r: AnsiMetadata)
    ensures
        r@ == meta@,
{
    let mut colors: Vec<AnsiColor> = Vec::new();
    let mut i: usize = 0;
    while i < meta.colors.len()
        invariant
            i <= meta.colors.len(),
            colors@ == meta.colors@.take(i as int),
        decreases meta.colors.len() - i,
    {
        colors.push(meta.colors[i]);
        i += 1;
    }
    proof {
        assert(meta.colors@.take(i as int) =~= meta.colors@);
    }
    AnsiMetadata { clean_text: meta.clean_text.clone(), colors }
}

impl Classifier {
    /// Takes the verdict of the universal patterns.
    fn take_universal(&mut self, clean: &str, class: UniversalClass, signs: LineSigns) -> (r:
        Classification)
        requires
            old(self)@.unknown < usize::MAX,
        ensures
            (final(self)@, StepView::Done(r@)) == universal_step(
                old(self)@,
                clean@,
                class,
                signs,
            ),
            final(self).rules() == old(self).rules(),
            final(self).patterns() == old(self).patterns(),
            final(self).last_line() == old(self).last_line(),
    {
        let result = universal_classification(class, clean);
        if class != UniversalClass::Outcome && signs.stack_start {
            self.state = ClassifierState::ConsumingTrace;
            self.consuming_trace_lines = Vec::new();
            self.consuming_trace_lines.push(clean.to_owned());
            proof {
                assert(self@.trace =~= seq![clean@]);
            }
        }
        self.update_tracking(clean, &result);
        result
    }

    /// Decides by the shape of a line and its likeness to the line before.
    fn classify_tier3(&mut self, clean: &str, signs: LineSigns, bypass: bool) -> (r: Step)
        requires
            old(self)@.unknown < usize::MAX,
        ensures
            (final(self)@, r@) == structural_step(old(self)@, clean@, signs, bypass),
            final(self).rules() == old(self).rules(),
            final(self).patterns() == old(self).patterns(),
            final(self).last_line() == old(self).last_line(),
    {
        if bypass {
            let result = Classification::Unknown { text: clean.to_owned() };
            self.update_tracking(clean, &result);
            return Step::Done(result);
        }
        if signs.decorative {
            let result = Classification::Noise {
                action: NoiseAction::Strip,
                text: clean.to_owned(),
            };
            self.update_tracking(clean, &result);
            return Step::Done(result);
        }
        let repeated = match &self.previous_line {
            Some(previous) => is_similar(clean, previous.as_str()),
            None => false,
        };
        if repeated {
            let result = Classification::Noise {
                action: NoiseAction::Dedup,
                text: clean.to_owned(),
            };
            self.update_tracking(clean, &result);
            return Step::Done(result);
        }
        Step::CheckDedup(clean.to_owned())
    }

    /// Classifies a complete line by what the patterns and the rules say of it.
    pub fn classify_complete(
        &mut self,
        raw: &str,
        meta: &AnsiMetadata,
        signs: LineSigns,
        hit: Option<GrammarHit>,
    ) -> (r: Step)
        requires
            old(self)@.unknown < usize::MAX,
        ensures
            (final(self)@, r@) == complete_step(old(self)@, raw@, meta@, signs, opt_hit_view(hit)),
            final(self).rules() == old(self).rules(),
            final(self).patterns() == old(self).patterns(),
            final(self).last_line() == old(self).last_line(),
    {
        let clean = meta.clean_text.as_str();
        if self.multiline_remaining > 0 {
            return Step::Done(self.attach_line(clean));
        }
        if self.state == ClassifierState::ConsumingTrace {
            let ghost trace = text::views(self.consuming_trace_lines@);
            if signs.stack_continue || signs.stack_start {
                self.consuming_trace_lines.push(clean.to_owned());
                proof {
                    assert(self@.trace =~= trace.push(clean@));
                }
                return Step::Done(no_text());
            }
            self.state = ClassifierState::Running;
            let short = compress_trace(self.consuming_trace_lines.as_slice());
            self.consuming_trace_lines = Vec::new();
            proof {
                assert(self@.trace =~= Seq::<Seq<char>>::empty());
            }
            if let Some(text) = short {
                self.deferred_line = Some(Deferred { raw: raw.to_owned(), meta: copy_meta(meta) });
                let captures: StrMap<String> = StrMap::new();
                proof {
                    assert(strmap::text_pairs(captures@)
                        =~= Seq::<(Seq<char>, Seq<char>)>::empty());
                }
                return Step::Done(
                    Classification::Hazard { severity: Severity::Error, text, captures },
                );
            }
        }
        let bypass = self.temporal_noise_bypass;
        self.temporal_noise_bypass = false;
        if let Some(h) = hit {
            return Step::Done(self.classify_tier1_mut(clean, h));
        }
        if let Some(class) = classify_tier2(meta.colors.as_slice(), signs) {
            return Step::Done(self.take_universal(clean, class, signs));
        }
        self.classify_tier3(clean, signs, bypass)
    }

    /// Classifies an unfinished line.
    pub fn classify_partial(&mut self, clean: &str, prompt: bool) -> (r: Classification)
        ensures
            (final(self)@, StepView::Done(r@)) == partial_step(old(self)@, clean@, prompt),
            final(self).rules() == old(self).rules(),
            final(self).patterns() == old(self).patterns(),
            final(self).last_line() == old(self).last_line(),
    {
        if prompt {
            self.state = ClassifierState::AwaitingInput;
            Classification::Prompt { text: clean.to_owned() }
        } else {
            Classification::Unknown { text: clean.to_owned() }
        }
    }

    /// Asks the grammar rules about a line.
    fn ask_rules(&self, clean: &str) -> (r: Option<GrammarHit>)
        ensures
            opt_hit_view(r) == grammar_hit(self.rules(), clean@),
    {
        if let Some(i) = find_rule(self.hazard_rules.as_slice(), clean) {
            let rule = &self.hazard_rules[i];
            let captures = extract_captures(&rule.pattern, clean, rule.captures.as_slice());
            let severity = match rule.severity {
                Some(severity) => severity,
                None => Severity::Error,
            };
            let attach: u32 = match rule.multiline {
                Some(n) => n,
                None => 0,
            };
            return Some(GrammarHit::Hazard { severity, attach, captures });
        }
        if let Some(i) = find_rule(self.outcome_rules.as_slice(), clean) {
            let rule = &self.outcome_rules[i];
            let captures = extract_captures(&rule.pattern, clean, rule.captures.as_slice());
            return Some(GrammarHit::Outcome { captures });
        }
        proof {
            grammar::law_earlier_rules_win(
                grammar::rule_views(self.action_noise_rules@),
                grammar::rule_views(self.global_noise_rules@),
                clean@,
            );
        }
        if let Some(i) = find_rule(self.action_noise_rules.as_slice(), clean) {
            return Some(noise_hit(self.action_noise_rules[i].action));
        }
        if let Some(i) = find_rule(self.global_noise_rules.as_slice(), clean) {
            return Some(noise_hit(self.global_noise_rules[i].action));
        }
        None
    }

    /// Classifies a line that came after `idle` without output. `meta` is the
    /// line without its escape sequences.
    pub fn classify_after(&mut self, line: Line, meta: &AnsiMetadata, idle: Duration) -> (r: Step)
        requires
            old(self)@.unknown < usize::MAX,
        ensures
            (final(self)@, r@) == line_step(
                old(self)@,
                outside::nanos(idle) >= SILENCE_THRESHOLD_NANOS,
                line@,
                meta@,
                old(self).findings(meta@.clean),
            ),
            final(self).rules() == old(self).rules(),
            final(self).patterns() == old(self).patterns(),
            call_ensures(Instant::now, (), final(self).last_line()),
    {
        if self.state == ClassifierState::Idle {
            self.state = ClassifierState::Running;
        }
        if self.state == ClassifierState::MaybePrompt {
            self.state = ClassifierState::Running;
        }
        if idle.as_nanos() >= SILENCE_THRESHOLD_NANOS {
            self.temporal_noise_bypass = true;
        }
        self.last_line_time = Instant::now();
        let clean = meta.clean_text.as_str();
        match line {
            Line::Overwrite(_) => Step::Done(no_text()),
            Line::Partial(_) => {
                let prompt = matches_any(self.universal.prompt_patterns.as_slice(), clean);
                Step::Done(self.classify_partial(clean, prompt))
            },
            Line::Complete(raw) => {
                let signs = self.universal.signs(clean);
                let hit = self.ask_rules(clean);
                self.classify_complete(raw.as_str(), meta, signs, hit)
            },
        }
    }

    /// Classifies a line. How long there was no output before it is read from
    /// the clock.
    pub fn classify(&mut self, line: Line, meta: &AnsiMetadata) -> (r: Step)
        requires
            old(self)@.unknown < usize::MAX,
        ensures
            exists|idle: Duration|
                {
                    &&& #[trigger] call_ensures(Instant::elapsed, (&old(self).last_line(),), idle)
                    &&& (final(self)@, r@) == line_step(
                        old(self)@,
                        outside::nanos(idle) >= SILENCE_THRESHOLD_NANOS,
                        line@,
                        meta@,
                        old(self).findings(meta@.clean),
                    )
                },
            final(self).rules() == old(self).rules(),
            final(self).patterns() == old(self).patterns(),
            call_ensures(Instant::now, (), final(self).last_line()),
    {
        let idle = self.last_line_time.elapsed();
        assert(call_ensures(Instant::elapsed, (&self.last_line(),), idle));
        self.classify_after(line, meta, idle)
    }

    /// Settles a line by its streak of similar lines.
    pub fn settle_dedup(&mut self, clean: &str, result: DedupResult) -> (r: Classification)
        requires
            old(self)@.unknown < usize::MAX,
        ensures
            (final(self)@, r@) == dedup_step(old(self)@, clean@, result),
            final(self).rules() == old(self).rules(),
            final(self).patterns() == old(self).patterns(),
            final(self).last_line() == old(self).last_line(),
    {
        let class = match result {
            DedupResult::Absorbed => Classification::Noise {
                action: NoiseAction::Dedup,
                text: clean.to_owned(),
            },
            _ => Classification::Unknown { text: clean.to_owned() },
        };
        self.update_tracking(clean, &class);
        class
    }

    /// Classifies the line that ended a stack trace, if one was put off. Call
    /// this after each `classify`.
    pub fn drain_deferred(&mut self) -> (r: Option<Step>)
        requires
            old(self)@.unknown < usize::MAX,
        ensures
            match old(self)@.deferred {
                None => {
                    &&& r is None
                    &&& final(self)@ == old(self)@
                    &&& final(self).last_line() == old(self).last_line()
                },
                Some(d) => {
                    &&& r is Some
                    &&& exists|idle: Duration|
                        {
                            &&& #[trigger] call_ensures(
                                Instant::elapsed,
                                (&old(self).last_line(),),
                                idle,
                            )
                            &&& (final(self)@, (r->0)@) == line_step(
                                drained(old(self)@),
                                outside::nanos(idle) >= SILENCE_THRESHOLD_NANOS,
                                LineView::Complete(d.raw),
                                d.meta,
                                old(self).findings(d.meta.clean),
                            )
                        }
                    &&& call_ensures(Instant::now, (), final(self).last_line())
                },
            },
            final(self).rules() == old(self).rules(),
            final(self).patterns() == old(self).patterns(),
    {
        match self.deferred_line.take() {
            None => None,
            Some(d) => {
                proof {
                    assert(old(self)@.deferred == Some(d@));
                    assert(self@ == drained(old(self)@));
                    assert(self.findings(d.meta@.clean) == old(self).findings(d.meta@.clean));
                }
                assert(self.last_line() == old(self).last_line());
                let step = self.classify(Line::Complete(d.raw), &d.meta);
                Some(step)
            },
        }
    }
}

/// The verdict of a noise rule.
fn noise_hit(action: RuleAction) -> (r: GrammarHit)
    ensures
        r@ == (GrammarHitView::Noise { action: noise_action_of(action) }),
{
    if action == RuleAction::Dedup {
        GrammarHit::Noise { action: NoiseAction::Dedup }
    } else {
        GrammarHit::Noise { action: NoiseAction::Strip }
    }
}

// ---------------------------------------------------------------------------
// Laws
// ---------------------------------------------------------------------------

/// No more lines are remembered than the ring holds, whatever is classified.
pub proof fn law_ring_is_bounded(
    s: ClassifierView,
    after_silence: bool,
    line: LineView,
    meta: AnsiView,
    findings: Findings,
)
    requires
        s.ring.len() <= RING_BUFFER_SIZE,
    ensures
        line_step(s, after_silence, line, meta, findings).0.ring.len() <= RING_BUFFER_SIZE,
{
}

/// Only an unfinished line is a prompt, and then input is awaited. A line that was
/// overwritten is suppressed and leaves no trace in what is remembered. After a line
/// the classifier neither idles nor wonders about a prompt.
pub proof fn law_lines_move_the_state(
    s: ClassifierView,
    after_silence: bool,
    line: LineView,
    meta: AnsiView,
    findings: Findings,
)
    ensures
        ({
            let (next, step) = line_step(s, after_silence, line, meta, findings);
            &&& step is Done && step->Done_0 is Prompt ==> line is Partial && next.state
                == ClassifierState::AwaitingInput
            &&& line is Overwrite ==> {
                &&& step == StepView::Done(suppressed())
                &&& next.ring == s.ring
                &&& next.unknown == s.unknown
                &&& next.has_outcome == s.has_outcome
            }
            &&& next.state != ClassifierState::Idle
            &&& next.state != ClassifierState::MaybePrompt
        }),
{
}

/// A line with the words of an error, of which no rule of the grammar speaks and
/// which belongs to nothing before it, is told: neither its shape nor its likeness
/// to other lines can make it noise. It is no hazard only where it is green and has
/// words of success.
pub proof fn law_errors_are_never_noise(
    s: ClassifierView,
    after_silence: bool,
    raw: Seq<char>,
    meta: AnsiView,
    findings: Findings,
)
    requires
        s.remaining == 0,
        s.state != ClassifierState::ConsumingTrace,
        findings.hit is None,
        findings.signs.error_start || findings.signs.error_anywhere,
    ensures
        ({
            let step = line_step(s, after_silence, LineView::Complete(raw), meta, findings).1;
            let green = shows(meta.colors, AnsiColor::Green, AnsiColor::BrightGreen);
            &&& step matches StepView::Done(class)
            &&& class_text(class) == meta.clean
            &&& class is Hazard || (class is Outcome && green && findings.signs.success)
        }),
{
}

/// Such a line is an error where it is red, and where neither yellow nor green
/// speaks against it.
pub proof fn law_error_words_make_errors(
    s: ClassifierView,
    after_silence: bool,
    raw: Seq<char>,
    meta: AnsiView,
    findings: Findings,
)
    requires
        s.remaining == 0,
        s.state != ClassifierState::ConsumingTrace,
        findings.hit is None,
        findings.signs.error_start || findings.signs.error_anywhere,
        shows(meta.colors, AnsiColor::Red, AnsiColor::BrightRed) || !(shows(
            meta.colors,
            AnsiColor::Yellow,
            AnsiColor::BrightYellow,
        ) && (findings.signs.warning_start || findings.signs.warning_anywhere)) && !(shows(
            meta.colors,
            AnsiColor::Green,
            AnsiColor::BrightGreen,
        ) && findings.signs.success),
    ensures
        line_step(s, after_silence, LineView::Complete(raw), meta, findings).1 == StepView::Done(
            ClassView::Hazard {
                severity: Severity::Error,
                text: meta.clean,
                captures: Seq::empty(),
            },
        ),
{
}

/// A line that a hazard rule matches is a hazard by the grammar, whatever its
/// other rules say.
pub proof fn law_hazard_rules_come_first(rules: RuleSet, line: Seq<char>)
    requires
        grammar::first_rule(rules.hazard, line) is Some,
    ensures
        grammar_hit(rules, line) matches Some(hit) && hit is Hazard,
{
}

/// Nothing before a line has a claim on it, no rule speaks of it, no sign is in it, and
/// no silence was before it: only the line before it is left to go by.
pub open spec fn is_left_to_likeness(
    s: ClassifierView,
    after_silence: bool,
    findings: Findings,
) -> bool {
    &&& s.remaining == 0
    &&& s.state != ClassifierState::ConsumingTrace
    &&& !s.bypass
    &&& !after_silence
    &&& findings.hit is None
    &&& !findings.signs.error_start
    &&& !findings.signs.error_anywhere
    &&& !findings.signs.warning_start
    &&& !findings.signs.warning_anywhere
    &&& !findings.signs.success
    &&& !findings.signs.stack_start
    &&& !findings.signs.decorative
}

/// A line repeats the one before it exactly where both begin with the same word,
/// neither takes more than twice the bytes of the other, and fewer edits than three
/// tenths of the bytes of the longer one lead from it to the other. Else it is asked
/// whether it goes on with a streak.
pub proof fn law_repetitions_are_few_edits_away(
    s: ClassifierView,
    after_silence: bool,
    raw: Seq<char>,
    meta: AnsiView,
    findings: Findings,
    previous: Seq<char>,
)
    requires
        is_left_to_likeness(s, after_silence, findings),
        s.previous == Some(previous),
        meta.clean.len() > 0,
        previous.len() > 0,
    ensures
        ({
            let line = meta.clean;
            let a = vstd::utf8::encode_utf8(line).len();
            let b = vstd::utf8::encode_utf8(previous).len();
            let step = line_step(s, after_silence, LineView::Complete(raw), meta, findings).1;
            let repeats = {
                &&& a <= 2 * b
                &&& b <= 2 * a
                &&& text::first_word(line) == text::first_word(previous)
                &&& exists|n: nat|
                    #[trigger] distance::leads_to(line, previous, n) && (10 * n < 3 * a || 10 * n
                        < 3 * b)
            };
            &&& repeats ==> step == StepView::Done(
                ClassView::Noise { action: NoiseAction::Dedup, text: line },
            )
            &&& !repeats ==> step == StepView::CheckDedup(line)
        }),
{
    let line = meta.clean;
    text::lemma_bytes_of_characters(line);
    text::lemma_bytes_of_characters(previous);
    law_similar_lines_are_few_edits_away(line, previous);
}

/// Two lines are similar exactly where both are empty, or where neither is, both begin
/// with the same word, neither takes more than twice the bytes of the other, and fewer
/// edits than three tenths of the bytes of the longer one lead from one to the other.
pub proof fn law_similar_lines_are_few_edits_away(line: Seq<char>, previous: Seq<char>)
    ensures
        ({
            let a = vstd::utf8::encode_utf8(line).len();
            let b = vstd::utf8::encode_utf8(previous).len();
            similar(line, previous) <==> (line.len() == 0 && previous.len() == 0) || {
                &&& line.len() > 0
                &&& previous.len() > 0
                &&& a <= 2 * b
                &&& b <= 2 * a
                &&& text::first_word(line) == text::first_word(previous)
                &&& exists|n: nat|
                    #[trigger] distance::leads_to(line, previous, n) && (10 * n < 3 * a || 10 * n
                        < 3 * b)
            }
        }),
{
    let a = text::byte_len(line);
    let b = text::byte_len(previous);
    text::lemma_bytes_of_characters(line);
    text::lemma_bytes_of_characters(previous);
    let n = distance::edits(line, previous);
    distance::law_distance_is_the_shortest_way(line, previous, n);
    if 10 * n < 3 * a || 10 * n < 3 * b {
        assert(distance::leads_to(line, previous, n));
    }
    assert forall|k: nat| #[trigger] distance::leads_to(line, previous, k) implies n <= k by {
        distance::law_distance_is_the_shortest_way(line, previous, k);
    }
}

/// An empty line repeats an empty one and nothing else, and the first line of all
/// repeats nothing.
pub proof fn law_empty_lines_repeat_empty_ones(
    s: ClassifierView,
    after_silence: bool,
    raw: Seq<char>,
    meta: AnsiView,
    findings: Findings,
)
    requires
        is_left_to_likeness(s, after_silence, findings),
        s.previous is None || (meta.clean.len() == 0 || s.previous->0.len() == 0),
    ensures
        line_step(s, after_silence, LineView::Complete(raw), meta, findings).1 == (
        if s.previous is Some && meta.clean.len() == s.previous->0.len() {
            StepView::Done(ClassView::Noise { action: NoiseAction::Dedup, text: meta.clean })
        } else {
            StepView::CheckDedup(meta.clean)
        }),
{
    text::lemma_bytes_of_characters(meta.clean);
    if s.previous is Some {
        text::lemma_bytes_of_characters(s.previous->0);
    }
}

/// A line on which no open trace and no hazard of several lines has a claim goes by the
/// first hazard rule that matches it, whatever the other rules and the universal
/// patterns say: it is that hazard, or the start of it where the rule takes further
/// lines.
pub proof fn law_first_hazard_rule_decides(
    rules: RuleSet,
    s: ClassifierView,
    after_silence: bool,
    raw: Seq<char>,
    meta: AnsiView,
    findings: Findings,
)
    requires
        s.remaining == 0,
        s.state != ClassifierState::ConsumingTrace,
        findings.hit == grammar_hit(rules, meta.clean),
        grammar::first_rule(rules.hazard, meta.clean) is Some,
    ensures
        ({
            let rule = grammar::first_rule(rules.hazard, meta.clean)->0;
            let (next, step) = line_step(
                s,
                after_silence,
                LineView::Complete(raw),
                meta,
                findings,
            );
            let severity = match rule.severity {
                Some(severity) => severity,
                None => Severity::Error,
            };
            let captures = grammar::caught(rule.pattern, meta.clean, rule.captures);
            match rule.multiline {
                Some(n) if n > 0 => {
                    &&& step == StepView::Done(suppressed())
                    &&& next.remaining == n
                    &&& next.hazard_severity == severity
                    &&& next.hazard_text == meta.clean
                    &&& next.hazard_captures == captures
                    &&& next.attached == Seq::<Seq<char>>::empty()
                },
                _ => step == StepView::Done(
                    ClassView::Hazard { severity, text: meta.clean, captures },
                ),
            }
        }),
{
}

/// A line as it is met: after a silence or not, and with what is found in it.
pub struct Met {
    pub after_silence: bool,
    pub line: LineView,
    pub meta: AnsiView,
    pub findings: Findings,
}

pub open spec fn met_step(s: ClassifierView, met: Met) -> (ClassifierView, StepView) {
    line_step(s, met.after_silence, met.line, met.meta, met.findings)
}

/// The state and the step that the last of several lines leads to.
pub open spec fn met_all(s: ClassifierView, lines: Seq<Met>) -> (ClassifierView, StepView)
    decreases lines.len(),
{
    if lines.len() <= 1 {
        met_step(s, lines[0])
    } else {
        met_all(met_step(s, lines[0]).0, lines.skip(1))
    }
}

/// The texts of the complete lines.
pub open spec fn complete_texts(lines: Seq<Met>) -> Seq<Seq<char>>
    decreases lines.len(),
{
    if lines.len() == 0 {
        Seq::empty()
    } else if lines[0].line is Complete {
        seq![lines[0].meta.clean] + complete_texts(lines.skip(1))
    } else {
        complete_texts(lines.skip(1))
    }
}

proof fn lemma_last_complete_counts(lines: Seq<Met>)
    requires
        lines.len() > 0,
        lines.last().line is Complete,
    ensures
        complete_texts(lines).len() > 0,
    decreases lines.len(),
{
    if lines.len() > 1 {
        assert(lines.skip(1).last() == lines.last());
        lemma_last_complete_counts(lines.skip(1));
    }
}

proof fn lemma_join_behind(first: Seq<char>, parts: Seq<Seq<char>>, sep: Seq<char>)
    requires
        parts.len() > 0,
    ensures
        text::join(seq![first] + parts, sep) == first + sep + text::join(parts, sep),
    decreases parts.len(),
{
    let all = seq![first] + parts;
    if parts.len() == 1 {
        assert(all.drop_last() =~= seq![first]);
        assert(text::join(seq![first], sep) == first);
    } else {
        lemma_join_behind(first, parts.drop_last(), sep);
        assert(all.drop_last() =~= seq![first] + parts.drop_last());
        assert(text::join(all, sep) =~= first + sep + text::join(parts, sep));
    }
}

proof fn lemma_lines_are_attached(s: ClassifierView, lines: Seq<Met>)
    requires
        lines.len() > 0,
        lines.last().line is Complete,
        s.remaining == complete_texts(lines).len(),
    ensures
        met_all(s, lines).1 == StepView::Done(
            ClassView::Hazard {
                severity: s.hazard_severity,
                text: s.hazard_text + "\n"@ + text::join(
                    s.attached + complete_texts(lines),
                    "\n"@,
                ),
                captures: s.hazard_captures,
            },
        ),
        met_all(s, lines).0.remaining == 0,
        met_all(s, lines).0.state == ClassifierState::Running,
    decreases lines.len(),
{
    let clean = lines[0].meta.clean;
    let rest = lines.skip(1);
    if lines.len() == 1 {
        assert(complete_texts(lines) =~= seq![clean]);
        assert(s.attached.push(clean) =~= s.attached + complete_texts(lines));
    } else {
        assert(rest.last() == lines.last());
        lemma_last_complete_counts(rest);
        let next = met_step(s, lines[0]).0;
        lemma_lines_are_attached(next, rest);
        assert(next.attached + complete_texts(rest) =~= s.attached + complete_texts(lines));
    }
}

/// A hazard of several lines is told once, when the last of its complete lines has
/// come: with all its lines, in order, and with what its rule caught. The classifier
/// then runs on. Overwritten and unfinished lines between them do not count.
pub proof fn law_multiline_hazard_keeps_its_lines(
    rules: RuleSet,
    s: ClassifierView,
    first: Met,
    lines: Seq<Met>,
)
    requires
        s.remaining == 0,
        s.state != ClassifierState::ConsumingTrace,
        first.line is Complete,
        first.findings.hit == grammar_hit(rules, first.meta.clean),
        grammar::first_rule(rules.hazard, first.meta.clean) matches Some(rule)
            && rule.multiline == Some(complete_texts(lines).len() as u32),
        0 < complete_texts(lines).len() <= u32::MAX,
        lines.last().line is Complete,
        lines.len() > 0,
    ensures
        ({
            let rule = grammar::first_rule(rules.hazard, first.meta.clean)->0;
            let (next, step) = met_all(met_step(s, first).0, lines);
            &&& step == StepView::Done(
                ClassView::Hazard {
                    severity: match rule.severity {
                        Some(severity) => severity,
                        None => Severity::Error,
                    },
                    text: text::join(seq![first.meta.clean] + complete_texts(lines), "\n"@),
                    captures: grammar::caught(rule.pattern, first.meta.clean, rule.captures),
                },
            )
            &&& next.remaining == 0
            &&& next.state == ClassifierState::Running
        }),
{
    let raw = first.line->Complete_0;
    law_first_hazard_rule_decides(
        rules,
        s,
        first.after_silence,
        raw,
        first.meta,
        first.findings,
    );
    let open = met_step(s, first).0;
    lemma_lines_are_attached(open, lines);
    assert(open.attached + complete_texts(lines) =~= complete_texts(lines));
    lemma_join_behind(first.meta.clean, complete_texts(lines), "\n"@);
}

/// A complete line ends a stack trace of several frames.
pub open spec fn ends_a_trace(s: ClassifierView, line: LineView, signs: LineSigns) -> bool {
    &&& line is Complete
    &&& s.remaining == 0
    &&& s.state == ClassifierState::ConsumingTrace
    &&& s.trace.len() >= 2
    &&& !signs.stack_continue
    &&& !signs.stack_start
}

/// The line that ends a stack trace of several frames is put off, not lost: classified
/// once more it is what it is with no trace open, and nothing is put off a second time.
pub proof fn law_line_behind_a_trace_is_kept(
    s: ClassifierView,
    after_silence: bool,
    raw: Seq<char>,
    meta: AnsiView,
    findings: Findings,
    later: bool,
)
    requires
        ends_a_trace(s, LineView::Complete(raw), findings.signs),
    ensures
        ({
            let line = LineView::Complete(raw);
            let next = line_step(s, after_silence, line, meta, findings).0;
            let again = line_step(drained(next), later, line, meta, findings);
            let closed_trace = ClassifierView {
                state: ClassifierState::Running,
                trace: Seq::empty(),
                deferred: None,
                bypass: s.bypass || after_silence || later,
                ..s
            };
            &&& next.deferred == Some(DeferredView { raw, meta })
            &&& again == ordinary_step(closed_trace, meta, findings.signs, findings.hit)
            &&& again.0.deferred is None
        }),
{
}

/// Nothing else is put off.
pub proof fn law_other_lines_are_not_put_off(
    s: ClassifierView,
    after_silence: bool,
    line: LineView,
    meta: AnsiView,
    findings: Findings,
)
    requires
        s.deferred is None,
        !ends_a_trace(s, line, findings.signs),
    ensures
        line_step(s, after_silence, line, meta, findings).0.deferred is None,
{
}

/// Nothing before a line has a claim on it, and no rule speaks of it.
pub open spec fn is_left_to_signs(s: ClassifierView, findings: Findings) -> bool {
    &&& s.remaining == 0
    &&& s.state != ClassifierState::ConsumingTrace
    &&& findings.hit is None
}

/// Words of a warning make a warning, unless they stand in a green line with words of
/// success or beside words of an error; in a yellow line that is not red they do so all
/// the same.
pub proof fn law_warning_words_make_warnings(
    s: ClassifierView,
    after_silence: bool,
    raw: Seq<char>,
    meta: AnsiView,
    findings: Findings,
)
    requires
        is_left_to_signs(s, findings),
        findings.signs.warning_start || findings.signs.warning_anywhere,
        ({
            let errors = findings.signs.error_start || findings.signs.error_anywhere;
            let red = meta.colors.contains(AnsiColor::Red) || meta.colors.contains(
                AnsiColor::BrightRed,
            );
            let yellow = meta.colors.contains(AnsiColor::Yellow) || meta.colors.contains(
                AnsiColor::BrightYellow,
            );
            let green = meta.colors.contains(AnsiColor::Green) || meta.colors.contains(
                AnsiColor::BrightGreen,
            );
            ||| yellow && !(red && errors)
            ||| !errors && !(green && findings.signs.success)
        }),
    ensures
        line_step(s, after_silence, LineView::Complete(raw), meta, findings).1 == StepView::Done(
            ClassView::Hazard {
                severity: Severity::Warning,
                text: meta.clean,
                captures: Seq::empty(),
            },
        ),
{
}

/// A green line with words of success is an outcome, unless it is a red one with words
/// of an error or a yellow one with words of a warning.
pub proof fn law_green_success_is_an_outcome(
    s: ClassifierView,
    after_silence: bool,
    raw: Seq<char>,
    meta: AnsiView,
    findings: Findings,
)
    requires
        is_left_to_signs(s, findings),
        findings.signs.success,
        meta.colors.contains(AnsiColor::Green) || meta.colors.contains(AnsiColor::BrightGreen),
        !((meta.colors.contains(AnsiColor::Red) || meta.colors.contains(AnsiColor::BrightRed)) && (
        findings.signs.error_start || findings.signs.error_anywhere)),
        !((meta.colors.contains(AnsiColor::Yellow) || meta.colors.contains(
            AnsiColor::BrightYellow,
        )) && (findings.signs.warning_start || findings.signs.warning_anywhere)),
    ensures
        line_step(s, after_silence, LineView::Complete(raw), meta, findings).1 == StepView::Done(
            ClassView::Outcome { text: meta.clean, captures: Seq::empty() },
        ),
{
}

/// No color tells anything by itself, and words of success tell nothing in a line that
/// is not green: a line with no other signs is neither a hazard nor an outcome.
pub proof fn law_colors_tell_nothing_without_words(
    s: ClassifierView,
    after_silence: bool,
    raw: Seq<char>,
    meta: AnsiView,
    findings: Findings,
)
    requires
        is_left_to_signs(s, findings),
        !findings.signs.error_start,
        !findings.signs.error_anywhere,
        !findings.signs.warning_start,
        !findings.signs.warning_anywhere,
        !findings.signs.stack_start,
        !findings.signs.success || !(meta.colors.contains(AnsiColor::Green)
            || meta.colors.contains(AnsiColor::BrightGreen)),
    ensures
        ({
            let step = line_step(s, after_silence, LineView::Complete(raw), meta, findings).1;
            if s.bypass || after_silence {
                step == StepView::Done(ClassView::Unknown { text: meta.clean })
            } else if findings.signs.decorative {
                step == StepView::Done(
                    ClassView::Noise { action: NoiseAction::Strip, text: meta.clean },
                )
            } else {
                ||| step == StepView::CheckDedup(meta.clean)
                ||| step == StepView::Done(
                    ClassView::Noise { action: NoiseAction::Dedup, text: meta.clean },
                )
            }
        }),
{
}

/// Where no hazard rule matches a line, the first outcome rule that does makes it an
/// outcome with what the rule catches; where none of those matches either, the first
/// noise rule makes it noise, to be counted where the rule says so and else to be
/// stripped.
pub proof fn law_outcome_rules_come_before_noise(
    rules: RuleSet,
    s: ClassifierView,
    after_silence: bool,
    raw: Seq<char>,
    meta: AnsiView,
    findings: Findings,
    i: int,
)
    requires
        s.remaining == 0,
        s.state != ClassifierState::ConsumingTrace,
        findings.hit == grammar_hit(rules, meta.clean),
        grammar::none_matches(rules.hazard, meta.clean),
    ensures
        ({
            let step = line_step(s, after_silence, LineView::Complete(raw), meta, findings).1;
            &&& grammar::matches_first(rules.outcome, i, meta.clean) ==> step == StepView::Done(
                ClassView::Outcome {
                    text: meta.clean,
                    captures: grammar::caught(
                        rules.outcome[i].pattern,
                        meta.clean,
                        rules.outcome[i].captures,
                    ),
                },
            )
            &&& grammar::none_matches(rules.outcome, meta.clean) && grammar::matches_first(
                rules.noise,
                i,
                meta.clean,
            ) ==> step == StepView::Done(
                ClassView::Noise {
                    action: if rules.noise[i].action == RuleAction::Dedup {
                        NoiseAction::Dedup
                    } else {
                        NoiseAction::Strip
                    },
                    text: meta.clean,
                },
            )
            &&& grammar::none_matches(rules.outcome, meta.clean) && grammar::none_matches(
                rules.noise,
                meta.clean,
            ) ==> findings.hit is None
        }),
{
    grammar::law_first_matching_rule_decides(rules.hazard, meta.clean);
    grammar::law_first_matching_rule_decides(rules.outcome, meta.clean);
    grammar::law_first_matching_rule_decides(rules.noise, meta.clean);
}

/// The rules are those of the action, or else of the fallback, and behind its noise the
/// noise of the grammar; without a grammar there are none.
pub proof fn law_rules_are_those_of_the_action(
    grammar: grammar::GrammarView,
    action: Option<grammar::ActionView>,
)
    ensures
        ({
            let rules = rules_for(Some(grammar), action);
            let chosen = match action {
                Some(a) => Some(a),
                None => grammar.fallback,
            };
            match chosen {
                Some(a) => {
                    &&& rules.hazard == a.hazard
                    &&& rules.outcome == a.outcome
                    &&& rules.noise == a.noise + grammar.global_noise
                },
                None => {
                    &&& rules.hazard.len() == 0
                    &&& rules.outcome.len() == 0
                    &&& rules.noise == grammar.global_noise
                },
            }
        }),
        rules_for(None, action).hazard.len() == 0,
        rules_for(None, action).outcome.len() == 0,
        rules_for(None, action).noise.len() == 0,
{
}

/// An unfinished line is a prompt where a prompt pattern matches it, and else unknown;
/// nothing is remembered of it.
pub proof fn law_unfinished_lines_are_prompts_or_unknown(
    s: ClassifierView,
    after_silence: bool,
    raw: Seq<char>,
    meta: AnsiView,
    findings: Findings,
)
    ensures
        ({
            let (next, step) = line_step(
                s,
                after_silence,
                LineView::Partial(raw),
                meta,
                findings,
            );
            &&& step == StepView::Done(
                if findings.prompt {
                    ClassView::Prompt { text: meta.clean }
                } else {
                    ClassView::Unknown { text: meta.clean }
                },
            )
            &&& next.ring == s.ring
            &&& next.unknown == s.unknown
            &&& next.previous == s.previous
            &&& next.has_outcome == s.has_outcome
            &&& next.trace == s.trace
            &&& next.remaining == s.remaining
            &&& next.attached == s.attached
        }),
{
}

/// A complete line that is judged for itself is remembered: as the line before the next
/// one and as the last of those in the ring. Unknown lines are counted until another
/// comes, and an outcome is never forgotten.
pub proof fn law_judged_lines_are_remembered(
    s: ClassifierView,
    after_silence: bool,
    raw: Seq<char>,
    meta: AnsiView,
    findings: Findings,
)
    requires
        s.remaining == 0,
        s.state != ClassifierState::ConsumingTrace,
    ensures
        ({
            let (next, step) = line_step(
                s,
                after_silence,
                LineView::Complete(raw),
                meta,
                findings,
            );
            step is Done ==> {
                let class = step->Done_0;
                &&& next.previous == Some(meta.clean)
                &&& next.ring.last() == meta.clean
                &&& next.ring.len() > 0
                &&& next.unknown == (if class is Unknown {
                    s.unknown + 1
                } else {
                    0
                })
                &&& next.has_outcome == (s.has_outcome || class is Outcome)
            }
        }),
{
}

/// A line that goes on with a streak of similar ones is noise to be counted, any other
/// that was asked about is unknown; either is remembered.
pub proof fn law_streaks_decide_open_lines(s: ClassifierView, line: Seq<char>, result: DedupResult)
    ensures
        ({
            let (next, class) = dedup_step(s, line, result);
            &&& result == DedupResult::Absorbed ==> class == (ClassView::Noise {
                action: NoiseAction::Dedup,
                text: line,
            }) && next.unknown == 0
            &&& result != DedupResult::Absorbed ==> class == (ClassView::Unknown { text: line })
                && next.unknown == s.unknown + 1
            &&& next.previous == Some(line)
            &&& next.ring.last() == line
            &&& next.has_outcome == s.has_outcome
            &&& next.state == s.state
        }),
{
}

/// The frames of a trace: complete lines that go on with it.
pub open spec fn are_frames(frames: Seq<Met>) -> bool {
    forall|i: int|
        0 <= i < frames.len() ==> (#[trigger] frames[i]).line is Complete && (
        frames[i].findings.signs.stack_continue || frames[i].findings.signs.stack_start)
}

/// The state after several lines.
pub open spec fn met_state(s: ClassifierView, lines: Seq<Met>) -> ClassifierView
    decreases lines.len(),
{
    if lines.len() == 0 {
        s
    } else {
        met_step(met_state(s, lines.drop_last()), lines.last()).0
    }
}

proof fn lemma_frames_are_collected(s: ClassifierView, frames: Seq<Met>)
    requires
        s.remaining == 0,
        s.state == ClassifierState::ConsumingTrace,
        are_frames(frames),
    ensures
        ({
            let next = met_state(s, frames);
            &&& next.remaining == 0
            &&& next.state == ClassifierState::ConsumingTrace
            &&& next.trace == s.trace + Seq::new(frames.len(), |i: int| frames[i].meta.clean)
            &&& next.ring == s.ring
            &&& next.unknown == s.unknown
        }),
    decreases frames.len(),
{
    let cleans = Seq::new(frames.len(), |i: int| frames[i].meta.clean);
    if frames.len() > 0 {
        let fewer = frames.drop_last();
        assert forall|i: int| 0 <= i < fewer.len() implies (#[trigger] fewer[i]).line is Complete
            && (fewer[i].findings.signs.stack_continue
            || fewer[i].findings.signs.stack_start) by {
            assert(fewer[i] == frames[i]);
        }
        lemma_frames_are_collected(s, fewer);
        assert(frames[frames.len() - 1] == frames.last());
        let before = Seq::new(fewer.len(), |i: int| fewer[i].meta.clean);
        assert((s.trace + before).push(frames.last().meta.clean) =~= s.trace + cleans);
    } else {
        assert(s.trace + cleans =~= s.trace);
    }
}

/// A stack trace is told by its first frame, as a hazard, at once; its further frames are
/// suppressed one by one, and when another line comes they are told in short: the last
/// of them, and how many stand between it and the first where there are any.
pub proof fn law_traces_are_told_in_short(
    s: ClassifierView,
    first: Met,
    frames: Seq<Met>,
    last: Met,
)
    requires
        s.remaining == 0,
        s.state != ClassifierState::ConsumingTrace,
        first.line is Complete,
        first.findings.hit is None,
        first.findings.signs.stack_start,
        !first.findings.signs.success,
        are_frames(frames),
        frames.len() > 0,
        last.line is Complete,
        !last.findings.signs.stack_continue,
        !last.findings.signs.stack_start,
    ensures
        met_step(s, first).1 matches StepView::Done(class) && class is Hazard && class_text(class)
            == first.meta.clean,
        ({
            let open = met_state(met_step(s, first).0, frames.drop_last());
            met_step(open, frames.last()).1 == StepView::Done(suppressed())
        }),
        met_step(met_state(met_step(s, first).0, frames), last).1 == StepView::Done(
            ClassView::Hazard {
                severity: Severity::Error,
                text: if frames.len() == 1 {
                    frames[0].meta.clean
                } else {
                    seq!['.', '.', '.', ' '] + text::dec((frames.len() - 1) as nat) + seq![
                        ' ', 'f', 'r', 'a', 'm', 'e', 's', ' ', '.', '.', '.', '\n',
                    ] + frames.last().meta.clean
                },
                captures: Seq::empty(),
            },
        ),
{
    reveal_strlit("... ");
    reveal_strlit(" frames ...\n");
    assert("... "@ =~= seq!['.', '.', '.', ' ']);
    assert(" frames ...\n"@ =~= seq![' ', 'f', 'r', 'a', 'm', 'e', 's', ' ', '.', '.', '.', '\n']);
    let open = met_step(s, first).0;
    assert(open.trace =~= seq![first.meta.clean]);
    lemma_frames_are_collected(open, frames);
    let fewer = frames.drop_last();
    assert forall|i: int| 0 <= i < fewer.len() implies (#[trigger] fewer[i]).line is Complete && (
    fewer[i].findings.signs.stack_continue || fewer[i].findings.signs.stack_start) by {
        assert(fewer[i] == frames[i]);
    }
    lemma_frames_are_collected(open, fewer);
    assert(frames[frames.len() - 1] == frames.last());
    let trace = met_state(open, frames).trace;
    assert(trace.len() == frames.len() + 1);
    assert(trace.last() == frames.last().meta.clean);
}

/// What is remembered after lines were noted one after the other.
pub open spec fn remembered(lines: Seq<Seq<char>>) -> Seq<Seq<char>>
    decreases lines.len(),
{
    if lines.len() == 0 {
        Seq::empty()
    } else {
        ring_with(remembered(lines.drop_last()), lines.last())
    }
}

/// The last five lines are remembered, in their order.
pub proof fn law_last_five_lines_are_remembered(lines: Seq<Seq<char>>)
    ensures
        remembered(lines) == (if lines.len() <= 5 {
            lines
        } else {
            lines.skip(lines.len() - 5)
        }),
    decreases lines.len(),
{
    if lines.len() > 0 {
        law_last_five_lines_are_remembered(lines.drop_last());
        assert(lines.drop_last().push(lines.last()) =~= lines);
        if lines.len() > 5 {
            assert(remembered(lines) =~= lines.skip(lines.len() - 5));
        }
    } else {
        assert(lines =~= Seq::empty());
    }
}

/// The line matches the expression that a text stands for.
pub open spec fn is_matched(pattern: Seq<char>, line: Seq<char>) -> bool {
    outside::compiled(pattern) matches Ok(regex) && outside::regex_matches(regex, line)
}

proof fn lemma_any_is_matched(patterns: Seq<Seq<char>>, list: Seq<Regex>, line: Seq<char>)
    requires
        compiles_to(patterns, list),
    ensures
        any_matches(list, line) <==> exists|i: int|
            0 <= i < patterns.len() && is_matched(#[trigger] patterns[i], line),
{
    lemma_compiled_all_parts(patterns);
    if any_matches(list, line) {
        let i = choose|i: int|
            0 <= i < list.len() && outside::regex_matches(#[trigger] list[i], line);
        assert(is_matched(patterns[i], line));
    }
    if exists|i: int| 0 <= i < patterns.len() && is_matched(#[trigger] patterns[i], line) {
        let i = choose|i: int| 0 <= i < patterns.len() && is_matched(#[trigger] patterns[i], line);
        assert(outside::regex_matches(list[i], line));
    }
}

proof fn lemma_compiled_all_parts(patterns: Seq<Seq<char>>)
    requires
        compiled_all(patterns) is Ok,
    ensures
        compiled_all(patterns)->Ok_0.len() == patterns.len(),
        forall|i: int|
            0 <= i < patterns.len() ==> outside::compiled(#[trigger] patterns[i]) == Ok::<
                Regex,
                regex::Error,
            >(compiled_all(patterns)->Ok_0[i]),
    decreases patterns.len(),
{
    if patterns.len() > 0 {
        let fewer = patterns.drop_last();
        lemma_compiled_all_parts(fewer);
        let list = compiled_all(patterns)->Ok_0;
        let before = compiled_all(fewer)->Ok_0;
        assert forall|i: int| 0 <= i < patterns.len() implies outside::compiled(
            #[trigger] patterns[i],
        ) == Ok::<Regex, regex::Error>(list[i]) by {
            if i < fewer.len() {
                assert(fewer[i] == patterns[i]);
                assert(before[i] == list[i]);
            }
        }
    }
}

/// Which lines show which sign: those that one of its expressions matches, and no
/// others.
#[verifier::rlimit(40)]
pub proof fn law_signs_are_matched_expressions(patterns: UniversalPatterns, line: Seq<char>)
    requires
        patterns.wf(),
    ensures
        signs_of(patterns, line).error_start <==> {
            ||| is_matched(r"(?i)^(error|Error|ERROR)[:\s]"@, line)
            ||| is_matched(r"(?i)^(FAIL|FAILED|FATAL|fatal|Fatal)[:\s]"@, line)
            ||| is_matched(r"(?i)^(panic|Panic|PANIC)[:\s]"@, line)
            ||| is_matched(r"^Traceback \(most recent call last\)"@, line)
            ||| is_matched(r"^Exception"@, line)
            ||| is_matched(r"^Unhandled\s"@, line)
        },
        signs_of(patterns, line).error_anywhere <==> {
            ||| is_matched(r"command not found$"@, line)
            ||| is_matched(r"(?i)permission denied"@, line)
            ||| is_matched(r"No such file or directory"@, line)
            ||| is_matched(r"ENOENT|EACCES|EPERM|ECONNREFUSED"@, line)
            ||| is_matched(r"(?i)segmentation fault|SIGSEGV"@, line)
            ||| is_matched(r"(?i)killed|OOMKilled"@, line)
            ||| is_matched(r"(?i)out of memory"@, line)
            ||| is_matched(r"cannot find module"@, line)
            ||| is_matched(r"ModuleNotFoundError"@, line)
            ||| is_matched(r"ImportError"@, line)
            ||| is_matched(r"SyntaxError"@, line)
        },
        signs_of(patterns, line).warning_start <==> {
            ||| is_matched(r"(?i)^(warn|WARN|Warning|WARNING|DEPRECAT)[:\s!]"@, line)
        },
        signs_of(patterns, line).warning_anywhere <==> {
            ||| is_matched(r"\bdeprecated\b"@, line)
            ||| is_matched(r"⚠"@, line)
            ||| is_matched(r"\b(moderate|high|critical)\s+vulnerabilit"@, line)
        },
        signs_of(patterns, line).success <==> {
            ||| is_matched(r"(?i)\b(success|succeeded|passed|complete|done|ok|ready)\b"@, line)
        },
        signs_of(patterns, line).stack_start <==> {
            ||| is_matched(r"^\s+at\s+\S+\s+\(.*:\d+:\d+\)"@, line)
            ||| is_matched(r"^\s+at\s+\S+\s+\(node:"@, line)
            ||| is_matched(r#"^\s+File ".+", line \d+"#@, line)
            ||| is_matched(r"^goroutine \d+"@, line)
            ||| is_matched(r"^\s+.+\.go:\d+"@, line)
            ||| is_matched(r"^\s+\d+:\s+0x[0-9a-f]+\s+-\s+"@, line)
            ||| is_matched(r"^\s+at\s+[\w.$]+\([\w.]+:\d+\)"@, line)
            ||| is_matched(r"^Caused by:"@, line)
            ||| is_matched(r"^\S+:\d+:\d+:"@, line)
        },
        signs_of(patterns, line).stack_continue <==> {
            ||| is_matched(r"^\s+"@, line)
        },
        signs_of(patterns, line).decorative <==> {
            ||| is_matched(r"^[\s=\-─━_*#~.·•]+$"@, line)
            ||| is_matched(r"^[┌┐└┘├┤┬┴┼│─]+$"@, line)
            ||| is_matched(r"^\s*$"@, line)
        },
        any_matches(patterns.prompt_patterns@, line) <==> {
            ||| is_matched(r"\?\s*$"@, line)
            ||| is_matched(r"\(y/n\)|\(Y/N\)|\[y/N\]|\[Y/n\]"@, line)
            ||| is_matched(r"(?i)[Pp]assword:?\s*$"@, line)
            ||| is_matched(r"(?i)[Ee]nter\s.*:\s*$"@, line)
            ||| is_matched(r"(?i)[Pp]ress any key"@, line)
            ||| is_matched(r"\S+>\s*$"@, line)
            ||| is_matched(r":\s*$"@, line)
            ||| is_matched(r"\$\s*$"@, line)
        },
{
    lemma_any_is_matched(error_start_patterns(), patterns.error_start@, line);
    let listed = error_start_patterns();
    assert(listed[0] == r"(?i)^(error|Error|ERROR)[:\s]"@);
    assert(listed[1] == r"(?i)^(FAIL|FAILED|FATAL|fatal|Fatal)[:\s]"@);
    assert(listed[2] == r"(?i)^(panic|Panic|PANIC)[:\s]"@);
    assert(listed[3] == r"^Traceback \(most recent call last\)"@);
    assert(listed[4] == r"^Exception"@);
    assert(listed[5] == r"^Unhandled\s"@);
    lemma_any_is_matched(error_anywhere_patterns(), patterns.error_anywhere@, line);
    let listed = error_anywhere_patterns();
    assert(listed[0] == r"command not found$"@);
    assert(listed[1] == r"(?i)permission denied"@);
    assert(listed[2] == r"No such file or directory"@);
    assert(listed[3] == r"ENOENT|EACCES|EPERM|ECONNREFUSED"@);
    assert(listed[4] == r"(?i)segmentation fault|SIGSEGV"@);
    assert(listed[5] == r"(?i)killed|OOMKilled"@);
    assert(listed[6] == r"(?i)out of memory"@);
    assert(listed[7] == r"cannot find module"@);
    assert(listed[8] == r"ModuleNotFoundError"@);
    assert(listed[9] == r"ImportError"@);
    assert(listed[10] == r"SyntaxError"@);
    lemma_any_is_matched(warning_start_patterns(), patterns.warning_start@, line);
    let listed = warning_start_patterns();
    assert(listed[0] == r"(?i)^(warn|WARN|Warning|WARNING|DEPRECAT)[:\s!]"@);
    lemma_any_is_matched(warning_anywhere_patterns(), patterns.warning_anywhere@, line);
    let listed = warning_anywhere_patterns();
    assert(listed[0] == r"\bdeprecated\b"@);
    assert(listed[1] == r"⚠"@);
    assert(listed[2] == r"\b(moderate|high|critical)\s+vulnerabilit"@);
    lemma_any_is_matched(success_patterns(), patterns.success_keywords@, line);
    let listed = success_patterns();
    assert(listed[0] == r"(?i)\b(success|succeeded|passed|complete|done|ok|ready)\b"@);
    lemma_any_is_matched(stack_start_patterns(), patterns.stack_start@, line);
    let listed = stack_start_patterns();
    assert(listed[0] == r"^\s+at\s+\S+\s+\(.*:\d+:\d+\)"@);
    assert(listed[1] == r"^\s+at\s+\S+\s+\(node:"@);
    assert(listed[2] == r#"^\s+File ".+", line \d+"#@);
    assert(listed[3] == r"^goroutine \d+"@);
    assert(listed[4] == r"^\s+.+\.go:\d+"@);
    assert(listed[5] == r"^\s+\d+:\s+0x[0-9a-f]+\s+-\s+"@);
    assert(listed[6] == r"^\s+at\s+[\w.$]+\([\w.]+:\d+\)"@);
    assert(listed[7] == r"^Caused by:"@);
    assert(listed[8] == r"^\S+:\d+:\d+:"@);
    lemma_any_is_matched(stack_continue_patterns(), patterns.stack_continue@, line);
    let listed = stack_continue_patterns();
    assert(listed[0] == r"^\s+"@);
    lemma_any_is_matched(decorative_patterns(), patterns.decorative@, line);
    let listed = decorative_patterns();
    assert(listed[0] == r"^[\s=\-─━_*#~.·•]+$"@);
    assert(listed[1] == r"^[┌┐└┘├┤┬┴┼│─]+$"@);
    assert(listed[2] == r"^\s*$"@);
    lemma_any_is_matched(prompt_patterns(), patterns.prompt_patterns@, line);
    let listed = prompt_patterns();
    assert(listed[0] == r"\?\s*$"@);
    assert(listed[1] == r"\(y/n\)|\(Y/N\)|\[y/N\]|\[Y/n\]"@);
    assert(listed[2] == r"(?i)[Pp]assword:?\s*$"@);
    assert(listed[3] == r"(?i)[Ee]nter\s.*:\s*$"@);
    assert(listed[4] == r"(?i)[Pp]ress any key"@);
    assert(listed[5] == r"\S+>\s*$"@);
    assert(listed[6] == r":\s*$"@);
    assert(listed[7] == r"\$\s*$"@);
}

/// A silence counts for the next complete line only, and a silence of less than two
/// seconds does not count.
pub proof fn law_silence_counts_for_one_line(
    s: ClassifierView,
    idle: Duration,
    raw: Seq<char>,
    meta: AnsiView,
    findings: Findings,
)
    requires
        s.remaining == 0,
        s.state != ClassifierState::ConsumingTrace,
    ensures
        ({
            let silent = outside::nanos(idle) >= SILENCE_THRESHOLD_NANOS;
            &&& silent <==> outside::nanos(idle) >= 2_000_000_000
            &&& !line_step(s, silent, LineView::Complete(raw), meta, findings).0.bypass
            &&& line_step(s, silent, LineView::Partial(raw), meta, findings).0.bypass == (s.bypass
                || silent)
            &&& line_step(s, silent, LineView::Overwrite(raw), meta, findings).0.bypass == (
            s.bypass || silent)
        }),
{
}

/// Output shows that a command runs: what was idle, or might have waited for input, runs
/// again with the next line, and only an unfinished line that looks like a prompt makes
/// it wait.
pub proof fn law_output_shows_that_a_command_runs(
    s: ClassifierView,
    after_silence: bool,
    line: LineView,
    meta: AnsiView,
    findings: Findings,
)
    requires
        s.remaining == 0,
        s.state == ClassifierState::Idle || s.state == ClassifierState::MaybePrompt,
    ensures
        ({
            let next = line_step(s, after_silence, line, meta, findings).0;
            &&& line is Overwrite ==> next.state == ClassifierState::Running
            &&& line is Partial && !findings.prompt ==> next.state == ClassifierState::Running
            &&& line is Partial && findings.prompt ==> next.state == ClassifierState::AwaitingInput
            &&& line is Complete ==> next.state == ClassifierState::Running || next.state
                == ClassifierState::ConsumingTrace
            &&& line is Complete && findings.hit is None && !findings.signs.stack_start
                ==> next.state == ClassifierState::Running
        }),
{
}

} // verus!
