//! Grammars: what is known of a tool's output, how a tool and its action are
//! found from a command, and how a line is held against the rules.
//!
//! A grammar is read in its raw form, in which patterns and keywords are texts,
//! and then compiled.
use regex::Regex;
use vstd::prelude::*;
use vstd::string::*;

use crate::category;
use crate::category::Category;
use crate::outside;
use crate::outside::captured_text;
use crate::strmap;
use crate::strmap::StrMap;
use crate::text;
use crate::text::{
    chars_of, concat2, concat3, copy_strings, has_suffix, list_has, replace_all, same, slice_string,
};

verus! {

// ---------------------------------------------------------------------------
// Errors
// ---------------------------------------------------------------------------

#[derive(Debug)]
pub enum GrammarError {
    Io(std::io::Error),
    Parse(toml::de::Error),
    InvalidRegex { pattern: String, source: regex::Error },
    InvalidAction(String),
    InvalidSeverity(String),
    InvalidCategory(String),
}

/// An error as its kind and its characters.
pub enum Issue {
    Io(std::io::Error),
    Parse(toml::de::Error),
    Pattern { pattern: Seq<char>, source: regex::Error },
    Action(Seq<char>),
    Severity(Seq<char>),
    Category(Seq<char>),
}

impl View for GrammarError {
    type V = Issue;

    open spec fn view(&self) -> Issue {
        match *self {
            GrammarError::Io(e) => Issue::Io(e),
            GrammarError::Parse(e) => Issue::Parse(e),
            GrammarError::InvalidRegex { pattern, source } => Issue::Pattern {
                pattern: pattern@,
                source,
            },
            GrammarError::InvalidAction(a) => Issue::Action(a@),
            GrammarError::InvalidSeverity(s) => Issue::Severity(s@),
            GrammarError::InvalidCategory(c) => Issue::Category(c@),
        }
    }
}

impl GrammarError {
    /// The message for the user.
    pub fn message(&self) -> (r: String)
        ensures
            match *self {
                GrammarError::Io(e) => exists|t: String|
                    #[trigger] to_string_from_display_ensures(&e, t) && r@ == "IO error: "@ + t@,
                GrammarError::Parse(e) => exists|t: String|
                    #[trigger] to_string_from_display_ensures(&e, t) && r@ == "TOML parse error: "@
                        + t@,
                GrammarError::InvalidRegex { pattern, source } => exists|t: String|
                    #[trigger] to_string_from_display_ensures(&source, t) && r@
                        == "invalid regex '"@ + pattern@ + "': "@ + t@,
                GrammarError::InvalidAction(a) => r@ == "invalid rule action: "@ + a@,
                GrammarError::InvalidSeverity(s) => r@ == "invalid severity: "@ + s@,
                GrammarError::InvalidCategory(c) => r@ == "invalid category: "@ + c@,
            },
    {
        match self {
            GrammarError::Io(e) => {
                let t = e.to_string();
                concat2("IO error: ", t.as_str())
            },
            GrammarError::Parse(e) => {
                let t = e.to_string();
                concat2("TOML parse error: ", t.as_str())
            },
            GrammarError::InvalidRegex { pattern, source } => {
                let t = source.to_string();
                let mut r = concat3("invalid regex '", pattern.as_str(), "': ");
                r.append(t.as_str());
                r
            },
            GrammarError::InvalidAction(a) => concat2("invalid rule action: ", a.as_str()),
            GrammarError::InvalidSeverity(s) => concat2("invalid severity: ", s.as_str()),
            GrammarError::InvalidCategory(c) => concat2("invalid category: ", c.as_str()),
        }
    }
}

// ---------------------------------------------------------------------------
// Compiled grammars
// ---------------------------------------------------------------------------

#[derive(Debug, Clone)]
pub struct Grammar {
    pub tool: ToolInfo,
    pub detect: Vec<String>,
    pub inherit: Vec<String>,
    pub global_noise: Vec<Rule>,
    pub actions: StrMap<Action>,
    pub fallback: Option<Action>,
    pub quiet: Option<QuietConfig>,
    pub verbosity: Option<VerbosityConfig>,
    pub enrich: Option<EnrichConfig>,
    pub category: Option<Category>,
    pub block: Vec<BlockRule>,
    pub llm_hints: Vec<LlmHint>,
}

#[derive(Debug, Clone)]
pub struct ToolInfo {
    pub name: String,
}

#[derive(Debug, Clone)]
pub struct Action {
    pub detect: Vec<String>,
    pub noise: Vec<Rule>,
    pub hazard: Vec<Rule>,
    pub outcome: Vec<Rule>,
    pub summary: SummaryTemplate,
    pub llm_hints: Vec<LlmHint>,
    pub category: Option<Category>,
}

#[derive(Debug, Clone)]
pub struct Rule {
    pub pattern: Regex,
    pub action: RuleAction,
    pub severity: Option<Severity>,
    pub captures: Vec<String>,
    pub multiline: Option<u32>,
}

#[derive(Debug, Clone, Copy, PartialEq, Eq, Structural)]
pub enum RuleAction {
    Strip,
    Dedup,
    Keep,
    Promote,
}

#[derive(Debug, Clone, Copy, PartialEq, Eq, Structural)]
pub enum Severity {
    Error,
    Warning,
}

#[derive(Debug, Clone)]
pub struct SummaryTemplate {
    pub success: String,
    pub failure: String,
    pub partial: String,
}

#[derive(Debug, Clone)]
pub struct QuietConfig {
    pub safe_inject: Vec<String>,
    pub recommend: Vec<String>,
    pub actions: StrMap<QuietActionConfig>,
}

#[derive(Debug, Clone)]
pub struct QuietActionConfig {
    pub safe_inject: Vec<String>,
    pub recommend: Vec<String>,
}

#[derive(Debug, Clone)]
pub struct VerbosityConfig {
    pub inject: Vec<String>,
    pub provides: Vec<String>,
}

#[derive(Debug, Clone)]
pub struct EnrichConfig {
    pub on_failure: Vec<String>,
    pub args: Option<EnrichArgMapping>,
    pub actions: StrMap<EnrichActionConfig>,
}

#[derive(Debug, Clone)]
pub struct EnrichArgMapping {
    pub path_args: Vec<usize>,
}

#[derive(Debug, Clone)]
pub struct EnrichActionConfig {
    pub on_failure: Vec<String>,
}

/// A hint on the preferred way to call a tool or one of its actions.
#[derive(Debug, Clone)]
pub struct LlmHint {
    pub prefer: String,
    pub reason: String,
    /// The mode that the hint is for ("mcp" or "cli"); both where it is `None`.
    pub mode: Option<String>,
}

/// A rule that collapses a block of diagnostic lines into one digest line.
#[derive(Debug, Clone)]
pub struct BlockRule {
    pub start: Regex,
    pub end: Regex,
    pub extract: Regex,
    pub digest: String,
}

/// What the groups of an outcome rule caught.
#[derive(Debug, Clone)]
pub struct CapturedOutcome {
    pub captures: StrMap<String>,
}

// ---------------------------------------------------------------------------
// Their mathematical form
// ---------------------------------------------------------------------------

pub struct RuleView {
    pub pattern: Regex,
    pub action: RuleAction,
    pub severity: Option<Severity>,
    pub captures: Seq<Seq<char>>,
    pub multiline: Option<u32>,
}

impl View for Rule {
    type V = RuleView;

    open spec fn view(&self) -> RuleView {
        RuleView {
            pattern: self.pattern,
            action: self.action,
            severity: self.severity,
            captures: text::views(self.captures@),
            multiline: self.multiline,
        }
    }
}

pub open spec fn rule_views(rules: Seq<Rule>) -> Seq<RuleView> {
    Seq::new(rules.len(), |i: int| rules[i]@)
}

pub struct SummaryTemplateView {
    pub success: Seq<char>,
    pub failure: Seq<char>,
    pub partial: Seq<char>,
}

impl View for SummaryTemplate {
    type V = SummaryTemplateView;

    open spec fn view(&self) -> SummaryTemplateView {
        SummaryTemplateView {
            success: self.success@,
            failure: self.failure@,
            partial: self.partial@,
        }
    }
}

pub struct LlmHintView {
    pub prefer: Seq<char>,
    pub reason: Seq<char>,
    pub mode: Option<Seq<char>>,
}

/// An optional text as characters.
pub open spec fn opt_view(text: Option<String>) -> Option<Seq<char>> {
    match text {
        Some(t) => Some(t@),
        None => None,
    }
}

impl View for LlmHint {
    type V = LlmHintView;

    open spec fn view(&self) -> LlmHintView {
        LlmHintView { prefer: self.prefer@, reason: self.reason@, mode: opt_view(self.mode) }
    }
}

pub open spec fn hint_views(hints: Seq<LlmHint>) -> Seq<LlmHintView> {
    Seq::new(hints.len(), |i: int| hints[i]@)
}

pub struct ActionView {
    pub detect: Seq<Seq<char>>,
    pub noise: Seq<RuleView>,
    pub hazard: Seq<RuleView>,
    pub outcome: Seq<RuleView>,
    pub summary: SummaryTemplateView,
    pub llm_hints: Seq<LlmHintView>,
    pub category: Option<Category>,
}

impl View for Action {
    type V = ActionView;

    open spec fn view(&self) -> ActionView {
        ActionView {
            detect: text::views(self.detect@),
            noise: rule_views(self.noise@),
            hazard: rule_views(self.hazard@),
            outcome: rule_views(self.outcome@),
            summary: self.summary@,
            llm_hints: hint_views(self.llm_hints@),
            category: self.category,
        }
    }
}

pub open spec fn action_views(actions: Seq<(Seq<char>, Action)>) -> Seq<(Seq<char>, ActionView)> {
    Seq::new(actions.len(), |i: int| (actions[i].0, actions[i].1@))
}

pub open spec fn opt_action_view(action: Option<Action>) -> Option<ActionView> {
    match action {
        Some(a) => Some(a@),
        None => None,
    }
}

pub struct BlockRuleView {
    pub start: Regex,
    pub end: Regex,
    pub extract: Regex,
    pub digest: Seq<char>,
}

impl View for BlockRule {
    type V = BlockRuleView;

    open spec fn view(&self) -> BlockRuleView {
        BlockRuleView {
            start: self.start,
            end: self.end,
            extract: self.extract,
            digest: self.digest@,
        }
    }
}

pub open spec fn block_views(blocks: Seq<BlockRule>) -> Seq<BlockRuleView> {
    Seq::new(blocks.len(), |i: int| blocks[i]@)
}

pub struct QuietActionView {
    pub safe_inject: Seq<Seq<char>>,
    pub recommend: Seq<Seq<char>>,
}

impl View for QuietActionConfig {
    type V = QuietActionView;

    open spec fn view(&self) -> QuietActionView {
        QuietActionView {
            safe_inject: text::views(self.safe_inject@),
            recommend: text::views(self.recommend@),
        }
    }
}

pub struct QuietView {
    pub safe_inject: Seq<Seq<char>>,
    pub recommend: Seq<Seq<char>>,
    pub actions: Seq<(Seq<char>, QuietActionView)>,
}

impl View for QuietConfig {
    type V = QuietView;

    open spec fn view(&self) -> QuietView {
        QuietView {
            safe_inject: text::views(self.safe_inject@),
            recommend: text::views(self.recommend@),
            actions: Seq::new(
                self.actions@.len(),
                |i: int| (self.actions@[i].0, self.actions@[i].1@),
            ),
        }
    }
}

pub struct VerbosityView {
    pub inject: Seq<Seq<char>>,
    pub provides: Seq<Seq<char>>,
}

impl View for VerbosityConfig {
    type V = VerbosityView;

    open spec fn view(&self) -> VerbosityView {
        VerbosityView {
            inject: text::views(self.inject@),
            provides: text::views(self.provides@),
        }
    }
}

pub struct EnrichView {
    pub on_failure: Seq<Seq<char>>,
    pub path_args: Option<Seq<usize>>,
    pub actions: Seq<(Seq<char>, Seq<Seq<char>>)>,
}

impl View for EnrichConfig {
    type V = EnrichView;

    open spec fn view(&self) -> EnrichView {
        EnrichView {
            on_failure: text::views(self.on_failure@),
            path_args: match self.args {
                Some(a) => Some(a.path_args@),
                None => None,
            },
            actions: Seq::new(
                self.actions@.len(),
                |i: int| (self.actions@[i].0, text::views(self.actions@[i].1.on_failure@)),
            ),
        }
    }
}

pub open spec fn opt_quiet_view(quiet: Option<QuietConfig>) -> Option<QuietView> {
    match quiet {
        Some(q) => Some(q@),
        None => None,
    }
}

pub open spec fn opt_verbosity_view(verbosity: Option<VerbosityConfig>) -> Option<VerbosityView> {
    match verbosity {
        Some(v) => Some(v@),
        None => None,
    }
}

pub open spec fn opt_enrich_view(enrich: Option<EnrichConfig>) -> Option<EnrichView> {
    match enrich {
        Some(e) => Some(e@),
        None => None,
    }
}

pub struct GrammarView {
    pub name: Seq<char>,
    pub detect: Seq<Seq<char>>,
    pub inherit: Seq<Seq<char>>,
    pub global_noise: Seq<RuleView>,
    pub actions: Seq<(Seq<char>, ActionView)>,
    pub fallback: Option<ActionView>,
    pub quiet: Option<QuietView>,
    pub verbosity: Option<VerbosityView>,
    pub enrich: Option<EnrichView>,
    pub category: Option<Category>,
    pub block: Seq<BlockRuleView>,
    pub llm_hints: Seq<LlmHintView>,
}

impl View for Grammar {
    type V = GrammarView;

    open spec fn view(&self) -> GrammarView {
        GrammarView {
            name: self.tool.name@,
            detect: text::views(self.detect@),
            inherit: text::views(self.inherit@),
            global_noise: rule_views(self.global_noise@),
            actions: action_views(self.actions@),
            fallback: opt_action_view(self.fallback),
            quiet: opt_quiet_view(self.quiet),
            verbosity: opt_verbosity_view(self.verbosity),
            enrich: opt_enrich_view(self.enrich),
            category: self.category,
            block: block_views(self.block@),
            llm_hints: hint_views(self.llm_hints@),
        }
    }
}

// ---------------------------------------------------------------------------
// Raw grammars
// ---------------------------------------------------------------------------

pub struct RawGrammar {
    pub tool: RawToolInfo,
    pub detect: Option<Vec<String>>,
    pub inherit: Option<Vec<String>>,
    pub global_noise: Vec<RawRule>,
    pub actions: StrMap<RawAction>,
    pub fallback: Option<RawAction>,
    pub quiet: Option<QuietConfig>,
    pub verbosity: Option<VerbosityConfig>,
    pub enrich: Option<EnrichConfig>,
    pub category: Option<String>,
    pub block: Vec<RawBlockRule>,
    pub llm_hints: Vec<LlmHint>,
}

pub struct RawToolInfo {
    pub name: String,
    pub detect: Option<Vec<String>>,
    pub inherit: Option<Vec<String>>,
    pub category: Option<String>,
}

pub struct RawRule {
    pub pattern: String,
    pub action: String,
    pub severity: Option<String>,
    pub captures: Option<Vec<String>>,
    pub multiline: Option<u32>,
}

pub struct RawBlockRule {
    pub start: String,
    pub end: Option<String>,
    pub extract: String,
    pub digest: String,
}

pub struct RawAction {
    pub detect: Option<Vec<String>>,
    pub noise: Vec<RawRule>,
    pub hazard: Vec<RawRule>,
    pub outcome: Vec<RawRule>,
    pub summary: Option<RawSummaryTemplate>,
    pub llm_hints: Vec<LlmHint>,
    pub category: Option<String>,
}

pub struct RawSummaryTemplate {
    pub success: Option<String>,
    pub failure: Option<String>,
    pub partial: Option<String>,
}

// ---------------------------------------------------------------------------
// Compilation, specified
// ---------------------------------------------------------------------------

/// The action that a keyword names.
pub open spec fn action_named(s: Seq<char>) -> Option<RuleAction> {
    if s == "strip"@ {
        Some(RuleAction::Strip)
    } else if s == "dedup"@ {
        Some(RuleAction::Dedup)
    } else if s == "keep"@ {
        Some(RuleAction::Keep)
    } else if s == "promote"@ {
        Some(RuleAction::Promote)
    } else {
        None
    }
}

/// The severity that a keyword names.
pub open spec fn severity_named(s: Seq<char>) -> Option<Severity> {
    if s == "error"@ {
        Some(Severity::Error)
    } else if s == "warning"@ {
        Some(Severity::Warning)
    } else {
        None
    }
}

/// The category that a keyword names.
pub open spec fn category_named(s: Seq<char>) -> Option<Category> {
    if s == "condense"@ {
        Some(Category::Condense)
    } else if s == "narrate"@ {
        Some(Category::Narrate)
    } else if s == "passthrough"@ {
        Some(Category::Passthrough)
    } else if s == "structured"@ {
        Some(Category::Structured)
    } else if s == "interactive"@ {
        Some(Category::Interactive)
    } else if s == "dangerous"@ {
        Some(Category::Dangerous)
    } else {
        None
    }
}

pub open spec fn parsed_action(s: Seq<char>) -> Result<RuleAction, Issue> {
    match action_named(s) {
        Some(a) => Ok(a),
        None => Err(Issue::Action(s)),
    }
}

pub open spec fn parsed_severity(s: Option<Seq<char>>) -> Result<Option<Severity>, Issue> {
    match s {
        None => Ok(None),
        Some(t) => match severity_named(t) {
            Some(severity) => Ok(Some(severity)),
            None => Err(Issue::Severity(t)),
        },
    }
}

pub open spec fn parsed_category(s: Option<Seq<char>>) -> Result<Option<Category>, Issue> {
    match s {
        None => Ok(None),
        Some(t) => match category_named(t) {
            Some(category) => Ok(Some(category)),
            None => Err(Issue::Category(t)),
        },
    }
}

/// The texts of a list that may be missing, which is then empty.
pub open spec fn list_or_empty(list: Option<Vec<String>>) -> Seq<Seq<char>> {
    match list {
        Some(l) => text::views(l@),
        None => Seq::empty(),
    }
}

/// A text that may be missing, which is then empty.
pub open spec fn text_or_empty(text: Option<String>) -> Seq<char> {
    match text {
        Some(t) => t@,
        None => Seq::empty(),
    }
}

/// A rule from its compiled pattern: a pattern that was refused is reported before
/// the keywords are read, and then the first failure.
pub open spec fn rule_with(raw: RawRule, compiled: Result<Regex, regex::Error>) -> Result<
    RuleView,
    Issue,
> {
    match compiled {
        Err(source) => Err(Issue::Pattern { pattern: raw.pattern@, source }),
        Ok(pattern) => match parsed_action(raw.action@) {
            Err(e) => Err(e),
            Ok(action) => match parsed_severity(opt_view(raw.severity)) {
                Err(e) => Err(e),
                Ok(severity) => Ok(
                    RuleView {
                        pattern,
                        action,
                        severity,
                        captures: list_or_empty(raw.captures),
                        multiline: raw.multiline,
                    },
                ),
            },
        },
    }
}

pub open spec fn rule_of(raw: RawRule) -> Result<RuleView, Issue> {
    rule_with(raw, outside::compiled(raw.pattern@))
}

/// All rules, or the failure of the first that has one.
pub open spec fn rules_of(raws: Seq<RawRule>) -> Result<Seq<RuleView>, Issue>
    decreases raws.len(),
{
    if raws.len() == 0 {
        Ok(Seq::empty())
    } else {
        match rules_of(raws.drop_last()) {
            Err(e) => Err(e),
            Ok(done) => match rule_of(raws.last()) {
                Err(e) => Err(e),
                Ok(rule) => Ok(done.push(rule)),
            },
        }
    }
}

/// The pattern that ends a block where none is given: an empty line.
pub open spec fn block_end(raw: RawBlockRule) -> Seq<char> {
    match raw.end {
        Some(e) => e@,
        None => r"^\s*$"@,
    }
}

/// A block rule from its compiled patterns, or the first that was refused.
pub open spec fn block_with(
    raw: RawBlockRule,
    start: Result<Regex, regex::Error>,
    end: Result<Regex, regex::Error>,
    extract: Result<Regex, regex::Error>,
) -> Result<BlockRuleView, Issue> {
    match start {
        Err(source) => Err(Issue::Pattern { pattern: raw.start@, source }),
        Ok(start) => match end {
            Err(source) => Err(Issue::Pattern { pattern: block_end(raw), source }),
            Ok(end) => match extract {
                Err(source) => Err(Issue::Pattern { pattern: raw.extract@, source }),
                Ok(extract) => Ok(BlockRuleView { start, end, extract, digest: raw.digest@ }),
            },
        },
    }
}

/// In the pattern that extracts from a block, a dot matches line ends too.
pub open spec fn block_of(raw: RawBlockRule) -> Result<BlockRuleView, Issue> {
    block_with(
        raw,
        outside::compiled(raw.start@),
        outside::compiled(block_end(raw)),
        outside::compiled("(?s)"@ + raw.extract@),
    )
}

pub open spec fn blocks_of(raws: Seq<RawBlockRule>) -> Result<Seq<BlockRuleView>, Issue>
    decreases raws.len(),
{
    if raws.len() == 0 {
        Ok(Seq::empty())
    } else {
        match blocks_of(raws.drop_last()) {
            Err(e) => Err(e),
            Ok(done) => match block_of(raws.last()) {
                Err(e) => Err(e),
                Ok(block) => Ok(done.push(block)),
            },
        }
    }
}

pub open spec fn summary_of(raw: Option<RawSummaryTemplate>) -> SummaryTemplateView {
    match raw {
        Some(s) => SummaryTemplateView {
            success: text_or_empty(s.success),
            failure: text_or_empty(s.failure),
            partial: text_or_empty(s.partial),
        },
        None => SummaryTemplateView {
            success: Seq::empty(),
            failure: Seq::empty(),
            partial: Seq::empty(),
        },
    }
}

pub open spec fn action_of(raw: RawAction) -> Result<ActionView, Issue> {
    match rules_of(raw.noise@) {
        Err(e) => Err(e),
        Ok(noise) => match rules_of(raw.hazard@) {
            Err(e) => Err(e),
            Ok(hazard) => match rules_of(raw.outcome@) {
                Err(e) => Err(e),
                Ok(outcome) => match parsed_category(opt_view(raw.category)) {
                    Err(e) => Err(e),
                    Ok(category) => Ok(
                        ActionView {
                            detect: list_or_empty(raw.detect),
                            noise,
                            hazard,
                            outcome,
                            summary: summary_of(raw.summary),
                            llm_hints: hint_views(raw.llm_hints@),
                            category,
                        },
                    ),
                },
            },
        },
    }
}

/// All actions under their names, or the failure of the first that has one.
pub open spec fn actions_of(raws: Seq<(Seq<char>, RawAction)>) -> Result<
    Seq<(Seq<char>, ActionView)>,
    Issue,
>
    decreases raws.len(),
{
    if raws.len() == 0 {
        Ok(Seq::empty())
    } else {
        match actions_of(raws.drop_last()) {
            Err(e) => Err(e),
            Ok(done) => match action_of(raws.last().1) {
                Err(e) => Err(e),
                Ok(action) => Ok(done.push((raws.last().0, action))),
            },
        }
    }
}

pub open spec fn fallback_of(raw: Option<RawAction>) -> Result<Option<ActionView>, Issue> {
    match raw {
        None => Ok(None),
        Some(a) => match action_of(a) {
            Err(e) => Err(e),
            Ok(action) => Ok(Some(action)),
        },
    }
}

/// The category: the grammar's own, or else its tool's.
pub open spec fn raw_category(raw: RawGrammar) -> Option<Seq<char>> {
    if raw.category is Some {
        opt_view(raw.category)
    } else {
        opt_view(raw.tool.category)
    }
}

/// The commands that the grammar is for: its own list, or else its tool's, or
/// else the tool's name.
pub open spec fn raw_detect(raw: RawGrammar) -> Seq<Seq<char>> {
    match raw.detect {
        Some(list) => text::views(list@),
        None => match raw.tool.detect {
            Some(list) => text::views(list@),
            None => seq![raw.tool.name@],
        },
    }
}

/// The shared rules that the grammar inherits: its own list, or else its
/// tool's.
pub open spec fn raw_inherit(raw: RawGrammar) -> Seq<Seq<char>> {
    if raw.inherit is Some {
        list_or_empty(raw.inherit)
    } else {
        list_or_empty(raw.tool.inherit)
    }
}

/// A compiled grammar, or the first failure: of the category, the global rules,
/// the actions, the fallback and the block rules, in this order.
pub open spec fn grammar_of(raw: RawGrammar) -> Result<GrammarView, Issue> {
    match parsed_category(raw_category(raw)) {
        Err(e) => Err(e),
        Ok(category) => match rules_of(raw.global_noise@) {
            Err(e) => Err(e),
            Ok(global_noise) => match actions_of(raw.actions@) {
                Err(e) => Err(e),
                Ok(actions) => match fallback_of(raw.fallback) {
                    Err(e) => Err(e),
                    Ok(fallback) => match blocks_of(raw.block@) {
                        Err(e) => Err(e),
                        Ok(block) => Ok(
                            GrammarView {
                                name: raw.tool.name@,
                                detect: raw_detect(raw),
                                inherit: raw_inherit(raw),
                                global_noise,
                                actions,
                                fallback,
                                quiet: opt_quiet_view(raw.quiet),
                                verbosity: opt_verbosity_view(raw.verbosity),
                                enrich: opt_enrich_view(raw.enrich),
                                category,
                                block,
                                llm_hints: hint_views(raw.llm_hints@),
                            },
                        ),
                    },
                },
            },
        },
    }
}

// ---------------------------------------------------------------------------
// Compilation
// ---------------------------------------------------------------------------

pub fn parse_rule_action(s: &str) -> (r: Result<RuleAction, GrammarError>)
    ensures
        match r {
            Ok(a) => parsed_action(s@) == Ok::<RuleAction, Issue>(a),
            Err(e) => parsed_action(s@) == Err::<RuleAction, Issue>(e@),
        },
{
    if same(s, "strip") {
        Ok(RuleAction::Strip)
    } else if same(s, "dedup") {
        Ok(RuleAction::Dedup)
    } else if same(s, "keep") {
        Ok(RuleAction::Keep)
    } else if same(s, "promote") {
        Ok(RuleAction::Promote)
    } else {
        Err(GrammarError::InvalidAction(s.to_owned()))
    }
}

pub fn parse_severity(s: &str) -> (r: Result<Severity, GrammarError>)
    ensures
        match r {
            Ok(severity) => severity_named(s@) == Some(severity),
            Err(e) => severity_named(s@) is None && e@ == Issue::Severity(s@),
        },
{
    if same(s, "error") {
        Ok(Severity::Error)
    } else if same(s, "warning") {
        Ok(Severity::Warning)
    } else {
        Err(GrammarError::InvalidSeverity(s.to_owned()))
    }
}

pub fn parse_category(s: &str) -> (r: Result<Category, GrammarError>)
    ensures
        match r {
            Ok(category) => category_named(s@) == Some(category),
            Err(e) => category_named(s@) is None && e@ == Issue::Category(s@),
        },
{
    if same(s, "condense") {
        Ok(Category::Condense)
    } else if same(s, "narrate") {
        Ok(Category::Narrate)
    } else if same(s, "passthrough") {
        Ok(Category::Passthrough)
    } else if same(s, "structured") {
        Ok(Category::Structured)
    } else if same(s, "interactive") {
        Ok(Category::Interactive)
    } else if same(s, "dangerous") {
        Ok(Category::Dangerous)
    } else {
        Err(GrammarError::InvalidCategory(s.to_owned()))
    }
}

/// Copies an optional list, an empty one where it is missing.
fn copy_list_or_empty(list: &Option<Vec<String>>) -> (r: Vec<String>)
    ensures
        text::views(r@) == list_or_empty(*list),
{
    match list {
        Some(l) => copy_strings(l.as_slice()),
        None => {
            let r: Vec<String> = Vec::new();
            proof {
                assert(text::views(r@) =~= Seq::<Seq<char>>::empty());
            }
            r
        },
    }
}

/// Copies an optional text, an empty one where it is missing.
fn copy_text_or_empty(t: &Option<String>) -> (r: String)
    ensures
        r@ == text_or_empty(*t),
{
    match t {
        Some(t) => t.clone(),
        None => String::new(),
    }
}

fn copy_opt_text(t: &Option<String>) -> (r: Option<String>)
    ensures
        r == *t,
{
    match t {
        Some(t) => Some(t.clone()),
        None => None,
    }
}

fn copy_hints(hints: &[LlmHint]) -> (r: Vec<LlmHint>)
    ensures
        hint_views(r@) == hint_views(hints@),
{
    let mut r: Vec<LlmHint> = Vec::new();
    let mut i: usize = 0;
    while i < hints.len()
        invariant
            i <= hints.len(),
            hint_views(r@) == hint_views(hints@).take(i as int),
        decreases hints.len() - i,
    {
        let h = &hints[i];
        let ghost before = r@;
        r.push(
            LlmHint {
                prefer: h.prefer.clone(),
                reason: h.reason.clone(),
                mode: copy_opt_text(&h.mode),
            },
        );
        proof {
            assert(hint_views(r@) =~= hint_views(before).push(hints@[i as int]@));
            assert(hint_views(r@) =~= hint_views(hints@).take(i + 1));
        }
        i += 1;
    }
    proof {
        assert(hint_views(hints@).take(i as int) =~= hint_views(hints@));
    }
    r
}

fn parse_opt_severity(s: &Option<String>) -> (r: Result<Option<Severity>, GrammarError>)
    ensures
        match r {
            Ok(severity) => parsed_severity(opt_view(*s)) == Ok::<Option<Severity>, Issue>(
                severity,
            ),
            Err(e) => parsed_severity(opt_view(*s)) == Err::<Option<Severity>, Issue>(e@),
        },
{
    match s {
        None => Ok(None),
        Some(t) => match parse_severity(t.as_str()) {
            Ok(severity) => Ok(Some(severity)),
            Err(e) => Err(e),
        },
    }
}

fn parse_opt_category(s: &Option<String>) -> (r: Result<Option<Category>, GrammarError>)
    ensures
        match r {
            Ok(category) => parsed_category(opt_view(*s)) == Ok::<Option<Category>, Issue>(
                category,
            ),
            Err(e) => parsed_category(opt_view(*s)) == Err::<Option<Category>, Issue>(e@),
        },
{
    match s {
        None => Ok(None),
        Some(t) => match parse_category(t.as_str()) {
            Ok(category) => Ok(Some(category)),
            Err(e) => Err(e),
        },
    }
}

impl Rule {
    /// Makes a rule with its compiled pattern.
    pub fn from_compiled(raw: &RawRule, compiled: Result<Regex, regex::Error>) -> (r: Result<
        Rule,
        GrammarError,
    >)
        ensures
            match r {
                Ok(rule) => rule_with(*raw, compiled) == Ok::<RuleView, Issue>(rule@),
                Err(e) => rule_with(*raw, compiled) == Err::<RuleView, Issue>(e@),
            },
    {
        let pattern = match compiled {
            Ok(p) => p,
            Err(source) => {
                return Err(GrammarError::InvalidRegex { pattern: raw.pattern.clone(), source });
            },
        };
        let action = match parse_rule_action(raw.action.as_str()) {
            Ok(a) => a,
            Err(e) => {
                return Err(e);
            },
        };
        let severity = match parse_opt_severity(&raw.severity) {
            Ok(severity) => severity,
            Err(e) => {
                return Err(e);
            },
        };
        let captures = copy_list_or_empty(&raw.captures);
        Ok(Rule { pattern, action, severity, captures, multiline: raw.multiline })
    }

    /// Compiles a rule.
    pub fn try_from(raw: &RawRule) -> (r: Result<Rule, GrammarError>)
        ensures
            match r {
                Ok(rule) => rule_of(*raw) == Ok::<RuleView, Issue>(rule@),
                Err(e) => rule_of(*raw) == Err::<RuleView, Issue>(e@),
            },
    {
        Rule::from_compiled(raw, Regex::new(raw.pattern.as_str()))
    }

    /// A copy of the rule.
    pub fn copied(&self) -> (r: Rule)
        ensures
            r@ == self@,
    {
        Rule {
            pattern: self.pattern.clone(),
            action: self.action,
            severity: self.severity,
            captures: copy_strings(self.captures.as_slice()),
            multiline: self.multiline,
        }
    }
}

/// Copies of rules.
pub fn copy_rules(rules: &[Rule]) -> (r: Vec<Rule>)
    ensures
        rule_views(r@) == rule_views(rules@),
{
    let mut r: Vec<Rule> = Vec::new();
    let mut i: usize = 0;
    while i < rules.len()
        invariant
            i <= rules.len(),
            rule_views(r@) == rule_views(rules@).take(i as int),
        decreases rules.len() - i,
    {
        let ghost before = r@;
        r.push(rules[i].copied());
        proof {
            assert(rule_views(r@) =~= rule_views(before).push(rules@[i as int]@));
            assert(rule_views(r@) =~= rule_views(rules@).take(i + 1));
        }
        i += 1;
    }
    proof {
        assert(rule_views(rules@).take(i as int) =~= rule_views(rules@));
    }
    r
}

proof fn lemma_rules_prefix_fails(raws: Seq<RawRule>, n: int, e: Issue)
    requires
        0 <= n <= raws.len(),
        rules_of(raws.take(n)) == Err::<Seq<RuleView>, Issue>(e),
    ensures
        rules_of(raws) == Err::<Seq<RuleView>, Issue>(e),
    decreases raws.len() - n,
{
    if n == raws.len() {
        assert(raws.take(n) =~= raws);
    } else {
        assert(raws.take(n + 1).drop_last() =~= raws.take(n));
        lemma_rules_prefix_fails(raws, n + 1, e);
    }
}

/// Compiles rules in order, up to the first failure. This is also how the
/// shared rules of a file are read.
pub fn compile_rules(raws: &[RawRule]) -> (r: Result<Vec<Rule>, GrammarError>)
    ensures
        match r {
            Ok(rules) => rules_of(raws@) == Ok::<Seq<RuleView>, Issue>(rule_views(rules@)),
            Err(e) => rules_of(raws@) == Err::<Seq<RuleView>, Issue>(e@),
        },
{
    let mut rules: Vec<Rule> = Vec::new();
    let mut i: usize = 0;
    proof {
        assert(rule_views(rules@) =~= Seq::<RuleView>::empty());
    }
    while i < raws.len()
        invariant
            i <= raws.len(),
            rules_of(raws@.take(i as int)) == Ok::<Seq<RuleView>, Issue>(rule_views(rules@)),
        decreases raws.len() - i,
    {
        proof {
            assert(raws@.take(i + 1).drop_last() =~= raws@.take(i as int));
            assert(raws@.take(i + 1).last() == raws@[i as int]);
        }
        match Rule::try_from(&raws[i]) {
            Ok(rule) => {
                let ghost before = rules@;
                rules.push(rule);
                proof {
                    assert(rule_views(rules@) =~= rule_views(before).push(rule@));
                }
            },
            Err(e) => {
                proof {
                    lemma_rules_prefix_fails(raws@, i + 1, e@);
                }
                return Err(e);
            },
        }
        i += 1;
    }
    proof {
        assert(raws@.take(i as int) =~= raws@);
    }
    Ok(rules)
}

impl BlockRule {
    /// Makes a block rule with its compiled patterns.
    pub fn from_compiled(
        raw: &RawBlockRule,
        start: Result<Regex, regex::Error>,
        end: Result<Regex, regex::Error>,
        extract: Result<Regex, regex::Error>,
    ) -> (r: Result<BlockRule, GrammarError>)
        ensures
            match r {
                Ok(block) => block_with(*raw, start, end, extract) == Ok::<BlockRuleView, Issue>(
                    block@,
                ),
                Err(e) => block_with(*raw, start, end, extract) == Err::<BlockRuleView, Issue>(e@),
            },
    {
        let start = match start {
            Ok(re) => re,
            Err(source) => {
                return Err(GrammarError::InvalidRegex { pattern: raw.start.clone(), source });
            },
        };
        let end = match end {
            Ok(re) => re,
            Err(source) => {
                return Err(GrammarError::InvalidRegex { pattern: end_pattern(raw), source });
            },
        };
        let extract = match extract {
            Ok(re) => re,
            Err(source) => {
                return Err(GrammarError::InvalidRegex { pattern: raw.extract.clone(), source });
            },
        };
        Ok(BlockRule { start, end, extract, digest: raw.digest.clone() })
    }

    /// Compiles a block rule.
    pub fn try_from(raw: &RawBlockRule) -> (r: Result<BlockRule, GrammarError>)
        ensures
            match r {
                Ok(block) => block_of(*raw) == Ok::<BlockRuleView, Issue>(block@),
                Err(e) => block_of(*raw) == Err::<BlockRuleView, Issue>(e@),
            },
    {
        let end = end_pattern(raw);
        let extract = concat2("(?s)", raw.extract.as_str());
        BlockRule::from_compiled(
            raw,
            Regex::new(raw.start.as_str()),
            Regex::new(end.as_str()),
            Regex::new(extract.as_str()),
        )
    }
}

/// The pattern that ends a block.
fn end_pattern(raw: &RawBlockRule) -> (r: String)
    ensures
        r@ == block_end(*raw),
{
    match &raw.end {
        Some(e) => e.clone(),
        None => r"^\s*$".to_owned(),
    }
}

proof fn lemma_blocks_prefix_fails(raws: Seq<RawBlockRule>, n: int, e: Issue)
    requires
        0 <= n <= raws.len(),
        blocks_of(raws.take(n)) == Err::<Seq<BlockRuleView>, Issue>(e),
    ensures
        blocks_of(raws) == Err::<Seq<BlockRuleView>, Issue>(e),
    decreases raws.len() - n,
{
    if n == raws.len() {
        assert(raws.take(n) =~= raws);
    } else {
        assert(raws.take(n + 1).drop_last() =~= raws.take(n));
        lemma_blocks_prefix_fails(raws, n + 1, e);
    }
}

fn compile_blocks(raws: &[RawBlockRule]) -> (r: Result<Vec<BlockRule>, GrammarError>)
    ensures
        match r {
            Ok(blocks) => blocks_of(raws@) == Ok::<Seq<BlockRuleView>, Issue>(
                block_views(blocks@),
            ),
            Err(e) => blocks_of(raws@) == Err::<Seq<BlockRuleView>, Issue>(e@),
        },
{
    let mut blocks: Vec<BlockRule> = Vec::new();
    let mut i: usize = 0;
    proof {
        assert(block_views(blocks@) =~= Seq::<BlockRuleView>::empty());
    }
    while i < raws.len()
        invariant
            i <= raws.len(),
            blocks_of(raws@.take(i as int)) == Ok::<Seq<BlockRuleView>, Issue>(
                block_views(blocks@),
            ),
        decreases raws.len() - i,
    {
        proof {
            assert(raws@.take(i + 1).drop_last() =~= raws@.take(i as int));
            assert(raws@.take(i + 1).last() == raws@[i as int]);
        }
        match BlockRule::try_from(&raws[i]) {
            Ok(block) => {
                let ghost before = blocks@;
                blocks.push(block);
                proof {
                    assert(block_views(blocks@) =~= block_views(before).push(block@));
                }
            },
            Err(e) => {
                proof {
                    lemma_blocks_prefix_fails(raws@, i + 1, e@);
                }
                return Err(e);
            },
        }
        i += 1;
    }
    proof {
        assert(raws@.take(i as int) =~= raws@);
    }
    Ok(blocks)
}

fn summary_from(raw: &Option<RawSummaryTemplate>) -> (r: SummaryTemplate)
    ensures
        r@ == summary_of(*raw),
{
    match raw {
        Some(s) => SummaryTemplate {
            success: copy_text_or_empty(&s.success),
            failure: copy_text_or_empty(&s.failure),
            partial: copy_text_or_empty(&s.partial),
        },
        None => SummaryTemplate {
            success: String::new(),
            failure: String::new(),
            partial: String::new(),
        },
    }
}

impl Default for SummaryTemplate {
    fn default() -> (r: Self)
        ensures
            r@ == summary_of(None),
    {
        summary_from(&None)
    }
}

impl Action {
    /// Compiles an action.
    pub fn try_from(raw: &RawAction) -> (r: Result<Action, GrammarError>)
        ensures
            match r {
                Ok(action) => action_of(*raw) == Ok::<ActionView, Issue>(action@),
                Err(e) => action_of(*raw) == Err::<ActionView, Issue>(e@),
            },
    {
        let detect = copy_list_or_empty(&raw.detect);
        let noise = match compile_rules(raw.noise.as_slice()) {
            Ok(rules) => rules,
            Err(e) => {
                return Err(e);
            },
        };
        let hazard = match compile_rules(raw.hazard.as_slice()) {
            Ok(rules) => rules,
            Err(e) => {
                return Err(e);
            },
        };
        let outcome = match compile_rules(raw.outcome.as_slice()) {
            Ok(rules) => rules,
            Err(e) => {
                return Err(e);
            },
        };
        let summary = summary_from(&raw.summary);
        let llm_hints = copy_hints(raw.llm_hints.as_slice());
        let category = match parse_opt_category(&raw.category) {
            Ok(category) => category,
            Err(e) => {
                return Err(e);
            },
        };
        Ok(Action { detect, noise, hazard, outcome, summary, llm_hints, category })
    }
}

proof fn lemma_actions_prefix_fails(raws: Seq<(Seq<char>, RawAction)>, n: int, e: Issue)
    requires
        0 <= n <= raws.len(),
        actions_of(raws.take(n)) == Err::<Seq<(Seq<char>, ActionView)>, Issue>(e),
    ensures
        actions_of(raws) == Err::<Seq<(Seq<char>, ActionView)>, Issue>(e),
    decreases raws.len() - n,
{
    if n == raws.len() {
        assert(raws.take(n) =~= raws);
    } else {
        assert(raws.take(n + 1).drop_last() =~= raws.take(n));
        lemma_actions_prefix_fails(raws, n + 1, e);
    }
}

fn compile_actions(raws: &StrMap<RawAction>) -> (r: Result<StrMap<Action>, GrammarError>)
    ensures
        match r {
            Ok(actions) => {
                &&& actions_of(raws@) == Ok::<Seq<(Seq<char>, ActionView)>, Issue>(
                    action_views(actions@),
                )
                &&& raws.wf() ==> actions.wf()
            },
            Err(e) => actions_of(raws@) == Err::<Seq<(Seq<char>, ActionView)>, Issue>(e@),
        },
{
    let mut entries: Vec<(String, Action)> = Vec::new();
    let ghost mut done: Seq<(Seq<char>, ActionView)> = Seq::empty();
    let mut i: usize = 0;
    while i < raws.entries.len()
        invariant
            i <= raws.entries.len(),
            entries.len() == i,
            done.len() == i,
            forall|j: int| 0 <= j < i ==> (#[trigger] done[j]) == (entries@[j].0@, entries@[j].1@),
            forall|j: int| 0 <= j < i ==> (#[trigger] entries@[j]).0@ == raws@[j].0,
            actions_of(raws@.take(i as int)) == Ok::<Seq<(Seq<char>, ActionView)>, Issue>(done),
        decreases raws.entries.len() - i,
    {
        proof {
            assert(raws@.take(i + 1).drop_last() =~= raws@.take(i as int));
            assert(raws@.take(i + 1).last() == raws@[i as int]);
        }
        let raw = &raws.entries[i];
        match Action::try_from(&raw.1) {
            Ok(action) => {
                let ghost old_entries = entries@;
                entries.push((raw.0.clone(), action));
                proof {
                    done = done.push((raw.0@, action@));
                    assert forall|j: int| 0 <= j < i implies (#[trigger] done[j]) == (
                        entries@[j].0@,
                        entries@[j].1@,
                    ) by {
                        assert(entries@[j] == old_entries[j]);
                    }
                }
            },
            Err(e) => {
                proof {
                    lemma_actions_prefix_fails(raws@, i + 1, e@);
                }
                return Err(e);
            },
        }
        i += 1;
    }
    let actions = StrMap { entries };
    proof {
        assert(raws@.take(i as int) =~= raws@);
        assert(action_views(actions@) =~= done);
        if raws.wf() {
            assert forall|a: int, b: int|
                0 <= a < b < actions@.len() implies #[trigger] actions@[a].0
                != #[trigger] actions@[b].0 by {
                assert(actions@[a].0 == raws@[a].0);
                assert(actions@[b].0 == raws@[b].0);
            }
        }
    }
    Ok(actions)
}

/// Compiles a grammar.
pub fn convert_raw_grammar(raw: RawGrammar) -> (r: Result<Grammar, GrammarError>)
    ensures
        match r {
            Ok(grammar) => {
                &&& grammar_of(raw) == Ok::<GrammarView, Issue>(grammar@)
                &&& raw.actions.wf() ==> grammar.actions.wf()
            },
            Err(e) => grammar_of(raw) == Err::<GrammarView, Issue>(e@),
        },
{
    let category_text = if raw.category.is_some() {
        copy_opt_text(&raw.category)
    } else {
        copy_opt_text(&raw.tool.category)
    };
    let category = match parse_opt_category(&category_text) {
        Ok(category) => category,
        Err(e) => {
            return Err(e);
        },
    };
    let detect = match &raw.detect {
        Some(list) => copy_strings(list.as_slice()),
        None => match &raw.tool.detect {
            Some(list) => copy_strings(list.as_slice()),
            None => {
                let mut list: Vec<String> = Vec::new();
                list.push(raw.tool.name.clone());
                proof {
                    assert(text::views(list@) =~= seq![raw.tool.name@]);
                }
                list
            },
        },
    };
    let inherit = if raw.inherit.is_some() {
        copy_list_or_empty(&raw.inherit)
    } else {
        copy_list_or_empty(&raw.tool.inherit)
    };
    let global_noise = match compile_rules(raw.global_noise.as_slice()) {
        Ok(rules) => rules,
        Err(e) => {
            return Err(e);
        },
    };
    let actions = match compile_actions(&raw.actions) {
        Ok(actions) => actions,
        Err(e) => {
            return Err(e);
        },
    };
    let fallback = match &raw.fallback {
        None => None,
        Some(action) => match Action::try_from(action) {
            Ok(action) => Some(action),
            Err(e) => {
                return Err(e);
            },
        },
    };
    let block = match compile_blocks(raw.block.as_slice()) {
        Ok(block) => block,
        Err(e) => {
            return Err(e);
        },
    };
    let llm_hints = copy_hints(raw.llm_hints.as_slice());
    Ok(
        Grammar {
            tool: ToolInfo { name: raw.tool.name },
            detect,
            inherit,
            global_noise,
            actions,
            fallback,
            quiet: raw.quiet,
            verbosity: raw.verbosity,
            enrich: raw.enrich,
            category,
            block,
            llm_hints,
        },
    )
}

// ---------------------------------------------------------------------------
// Shared rules
// ---------------------------------------------------------------------------

/// The shared rules under the given names, in the order of the names; a name
/// that is not shared adds nothing.
pub open spec fn inherited(names: Seq<Seq<char>>, shared: Seq<(Seq<char>, Vec<Rule>)>) -> Seq<
    RuleView,
>
    decreases names.len(),
{
    if names.len() == 0 {
        Seq::empty()
    } else {
        inherited(names.drop_last(), shared) + (match strmap::lookup(shared, names.last()) {
            Some(rules) => rule_views(rules@),
            None => Seq::empty(),
        })
    }
}

/// Appends the shared rules that a grammar inherits to its global rules, so
/// that the grammar's own rules are tried first.
pub fn resolve_inherit(grammar: &mut Grammar, shared_rules: &StrMap<Vec<Rule>>)
    ensures
        final(grammar)@ == (GrammarView {
            global_noise: old(grammar)@.global_noise + inherited(
                old(grammar)@.inherit,
                shared_rules@,
            ),
            ..old(grammar)@
        }),
        final(grammar).actions == old(grammar).actions,
{
    let names = copy_strings(grammar.inherit.as_slice());
    let mut i: usize = 0;
    let ghost start = grammar@;
    proof {
        assert(start.global_noise + Seq::<RuleView>::empty() =~= start.global_noise);
    }
    while i < names.len()
        invariant
            i <= names.len(),
            text::views(names@) == start.inherit,
            grammar@ == (GrammarView {
                global_noise: start.global_noise + inherited(
                    start.inherit.take(i as int),
                    shared_rules@,
                ),
                ..start
            }),
            grammar.actions == old(grammar).actions,
        decreases names.len() - i,
    {
        proof {
            assert(start.inherit.take(i + 1).drop_last() =~= start.inherit.take(i as int));
            assert(start.inherit.take(i + 1).last() == names@[i as int]@);
        }
        let ghost before = grammar.global_noise@;
        let ghost so_far = inherited(start.inherit.take(i as int), shared_rules@);
        match shared_rules.get(names[i].as_str()) {
            Some(rules) => {
                let mut more = copy_rules(rules.as_slice());
                let ghost extra = more@;
                grammar.global_noise.append(&mut more);
                proof {
                    assert(rule_views(grammar.global_noise@) =~= rule_views(before) + rule_views(
                        extra,
                    ));
                    assert((start.global_noise + so_far) + rule_views(extra)
                        =~= start.global_noise + (so_far + rule_views(extra)));
                }
            },
            None => {
                proof {
                    assert(so_far + Seq::<RuleView>::empty() =~= so_far);
                }
            },
        }
        i += 1;
    }
    proof {
        assert(start.inherit.take(i as int) =~= start.inherit);
    }
}

// ---------------------------------------------------------------------------
// Directories of grammars
// ---------------------------------------------------------------------------

/// The name before the extension `toml`, where a file has it.
pub open spec fn stem(file_name: Seq<char>) -> Option<Seq<char>> {
    if text::ends_with(file_name, ".toml"@) && file_name.len() > 5 {
        Some(file_name.take(file_name.len() - 5))
    } else {
        None
    }
}

/// Finds the name before the extension `toml`, where a file has it.
pub fn toml_stem(file_name: &str) -> (r: Option<String>)
    ensures
        opt_view(r) == stem(file_name@),
{
    if !has_suffix(file_name, ".toml") {
        return None;
    }
    let chars = chars_of(file_name);
    if chars.len() <= 5 {
        return None;
    }
    let name = slice_string(chars.as_slice(), 0, chars.len() - 5);
    assert(file_name@.subrange(0, file_name@.len() - 5) =~= file_name@.take(
        file_name@.len() - 5,
    ));
    Some(name)
}

/// Whether what has this name holds grammars: what begins with an underscore holds
/// other things.
pub fn holds_grammars(name: &str) -> (r: bool)
    ensures
        r == !(name@.len() > 0 && name@[0] == '_'),
{
    let chars = chars_of(name);
    !(chars.len() > 0 && chars[0] == '_')
}

/// A grammar with the shared rules that it inherits behind its own.
pub open spec fn with_inherited(
    grammar: GrammarView,
    shared: Seq<(Seq<char>, Vec<Rule>)>,
) -> GrammarView {
    GrammarView {
        global_noise: grammar.global_noise + inherited(grammar.inherit, shared),
        ..grammar
    }
}

/// Grammars by the names of their tools, with the shared rules that they inherit.
pub open spec fn collected(
    loaded: Seq<Grammar>,
    shared: Seq<(Seq<char>, Vec<Rule>)>,
) -> Seq<(Seq<char>, GrammarView)>
    decreases loaded.len(),
{
    if loaded.len() == 0 {
        Seq::empty()
    } else {
        strmap::put(
            collected(loaded.drop_last(), shared),
            loaded.last()@.name,
            with_inherited(loaded.last()@, shared),
        )
    }
}

/// Grammars by names, in their mathematical form.
pub open spec fn grammar_pairs(pairs: Seq<(Seq<char>, Grammar)>) -> Seq<(Seq<char>, GrammarView)> {
    Seq::new(pairs.len(), |i: int| (pairs[i].0, pairs[i].1@))
}

proof fn lemma_grammar_pairs_position(pairs: Seq<(Seq<char>, Grammar)>, key: Seq<char>)
    ensures
        strmap::position(grammar_pairs(pairs), key) == strmap::position(pairs, key),
    decreases pairs.len(),
{
    strmap::lemma_position_is_first(pairs, key);
    let i = strmap::position(pairs, key);
    let views = grammar_pairs(pairs);
    assert forall|j: int| 0 <= j < i implies (#[trigger] views[j]).0 != key by {
        assert(pairs[j].0 != key);
    }
    strmap::lemma_position(views, key, i);
}

proof fn lemma_grammar_pairs_put(pairs: Seq<(Seq<char>, Grammar)>, key: Seq<char>, value: Grammar)
    ensures
        grammar_pairs(strmap::put(pairs, key, value)) == strmap::put(
            grammar_pairs(pairs),
            key,
            value@,
        ),
{
    lemma_grammar_pairs_position(pairs, key);
    assert(grammar_pairs(strmap::put(pairs, key, value)) =~= strmap::put(
        grammar_pairs(pairs),
        key,
        value@,
    ));
}

/// Gathers the grammars of a directory, in the order in which they were loaded:
/// each gets the shared rules that it inherits, and stands under the name of its
/// tool.
pub fn collect_grammars(loaded: Vec<Grammar>, shared_rules: &StrMap<Vec<Rule>>) -> (r: StrMap<
    Grammar,
>)
    ensures
        grammar_pairs(r@) == collected(loaded@, shared_rules@),
        r.wf(),
{
    let ghost all = loaded@;
    let mut grammars: StrMap<Grammar> = StrMap::new();
    assert(all.take(0).len() == 0);
    assert(grammar_pairs(grammars@) =~= Seq::empty());
    for grammar in it: loaded
        invariant
            it.seq() == all,
            grammar_pairs(grammars@) == collected(all.take(it.index()), shared_rules@),
            grammars.wf(),
    {
        assert(grammar == all[it.index()]);
        assert(all.take(it.index() + 1).drop_last() =~= all.take(it.index()));
        assert(all.take(it.index() + 1).last() == grammar);
        let mut grammar = grammar;
        resolve_inherit(&mut grammar, shared_rules);
        let name = grammar.tool.name.clone();
        proof {
            lemma_grammar_pairs_put(grammars@, name@, grammar);
        }
        grammars.insert(name, grammar);
    }
    assert(all.take(all.len() as int) =~= all);
    grammars
}

// ---------------------------------------------------------------------------
// Tools and actions
// ---------------------------------------------------------------------------

/// The list names one of the arguments behind the command.
pub open spec fn detects_argument(detect: Seq<Seq<char>>, args: Seq<Seq<char>>) -> bool {
    exists|i: int| 1 <= i < args.len() && detect.contains(#[trigger] args[i])
}

fn names_argument(detect: &[String], args: &[String]) -> (r: bool)
    ensures
        r == detects_argument(text::views(detect@), text::views(args@)),
        r <==> exists|i: int, k: int|
            1 <= i < args@.len() && 0 <= k < detect@.len() && (#[trigger] args@[i])@ == (
            #[trigger] detect@[k])@,
{
    proof {
        let words = text::views(args@);
        let listed = text::views(detect@);
        if detects_argument(listed, words) {
            let i = choose|i: int| 1 <= i < words.len() && listed.contains(#[trigger] words[i]);
            let k = choose|k: int| 0 <= k < listed.len() && listed[k] == words[i];
            assert(args@[i]@ == detect@[k]@);
        }
        if exists|i: int, k: int|
            1 <= i < args@.len() && 0 <= k < detect@.len() && (#[trigger] args@[i])@ == (
            #[trigger] detect@[k])@ {
            let (i, k) = choose|i: int, k: int|
                1 <= i < args@.len() && 0 <= k < detect@.len() && (#[trigger] args@[i])@ == (
                #[trigger] detect@[k])@;
            assert(words[i] == listed[k]);
            assert(listed.contains(words[i]));
        }
    }
    if args.len() == 0 {
        return false;
    }
    let mut i: usize = 1;
    while i < args.len()
        invariant
            1 <= i <= args.len(),
            forall|j: int|
                1 <= j < i ==> !text::views(detect@).contains(#[trigger] text::views(args@)[j]),
        decreases args.len() - i,
    {
        if list_has(detect, args[i].as_str()) {
            proof {
                assert(text::views(detect@).contains(text::views(args@)[i as int]));
            }
            return true;
        }
        i += 1;
    }
    false
}

/// The action of a grammar that the arguments ask for: the first that lists one
/// of them, or else the fallback.
pub open spec fn chosen_action(grammar: Grammar, args: Seq<Seq<char>>) -> Option<Action> {
    let i = first_asked(grammar.actions@, args);
    if i < grammar.actions@.len() {
        Some(grammar.actions@[i as int].1)
    } else {
        grammar.fallback
    }
}

/// The position of the first action that lists one of the arguments, or the
/// number of actions.
pub open spec fn first_asked(actions: Seq<(Seq<char>, Action)>, args: Seq<Seq<char>>) -> nat
    decreases actions.len(),
{
    if actions.len() == 0 || detects_argument(text::views(actions[0].1.detect@), args) {
        0
    } else {
        1 + first_asked(actions.skip(1), args)
    }
}

proof fn lemma_first_asked(actions: Seq<(Seq<char>, Action)>, args: Seq<Seq<char>>, i: nat)
    requires
        i <= actions.len(),
        forall|j: int|
            0 <= j < i ==> !detects_argument(
                text::views((#[trigger] actions[j]).1.detect@),
                args,
            ),
        i == actions.len() || detects_argument(text::views(actions[i as int].1.detect@), args),
    ensures
        first_asked(actions, args) == i,
    decreases actions.len(),
{
    if i > 0 {
        assert(!detects_argument(text::views(actions[0].1.detect@), args));
        let rest = actions.skip(1);
        assert forall|j: int| 0 <= j < i - 1 implies !detects_argument(
            text::views((#[trigger] rest[j]).1.detect@),
            args,
        ) by {
            assert(rest[j] == actions[j + 1]);
        }
        lemma_first_asked(rest, args, (i - 1) as nat);
    }
}

/// An optional reference as an optional value.
pub open spec fn opt_deref(action: Option<&Action>) -> Option<Action> {
    match action {
        Some(a) => Some(*a),
        None => None,
    }
}

/// Finds the action that the command's arguments ask for.
pub fn resolve_action<'a>(grammar: &'a Grammar, args: &[String]) -> (r: Option<&'a Action>)
    ensures
        opt_deref(r) == chosen_action(*grammar, text::views(args@)),
{
    let mut i: usize = 0;
    while i < grammar.actions.entries.len()
        invariant
            i <= grammar.actions.entries.len(),
            forall|j: int|
                0 <= j < i ==> !detects_argument(
                    text::views((#[trigger] grammar.actions@[j]).1.detect@),
                    text::views(args@),
                ),
        decreases grammar.actions.entries.len() - i,
    {
        let action = &grammar.actions.entries[i].1;
        if names_argument(action.detect.as_slice(), args) {
            proof {
                assert(grammar.actions@[i as int].1 == *action);
                lemma_first_asked(grammar.actions@, text::views(args@), i as nat);
            }
            return Some(action);
        }
        proof {
            assert(grammar.actions@[i as int].1 == *action);
        }
        i += 1;
    }
    proof {
        lemma_first_asked(grammar.actions@, text::views(args@), i as nat);
    }
    match &grammar.fallback {
        Some(action) => Some(action),
        None => None,
    }
}

/// The name of the action that a command's arguments ask for; the fallback has
/// none.
pub open spec fn chosen_name(grammar: Grammar, args: Seq<Seq<char>>) -> Option<Seq<char>> {
    let i = first_asked(grammar.actions@, args);
    if i < grammar.actions@.len() {
        Some(grammar.actions@[i as int].0)
    } else {
        None
    }
}

/// Finds the name of the action that the command's arguments ask for.
pub fn resolve_action_name(grammar: &Grammar, args: &[String]) -> (r: Option<String>)
    ensures
        opt_view(r) == chosen_name(*grammar, text::views(args@)),
{
    let mut i: usize = 0;
    while i < grammar.actions.entries.len()
        invariant
            i <= grammar.actions.entries.len(),
            forall|j: int|
                0 <= j < i ==> !detects_argument(
                    text::views((#[trigger] grammar.actions@[j]).1.detect@),
                    text::views(args@),
                ),
        decreases grammar.actions.entries.len() - i,
    {
        let action = &grammar.actions.entries[i].1;
        proof {
            assert(grammar.actions@[i as int].1 == *action);
        }
        if names_argument(action.detect.as_slice(), args) {
            proof {
                lemma_first_asked(grammar.actions@, text::views(args@), i as nat);
            }
            return Some(grammar.actions.entries[i].0.clone());
        }
        i += 1;
    }
    proof {
        lemma_first_asked(grammar.actions@, text::views(args@), i as nat);
    }
    None
}

/// The position of the first grammar that is for the command, or the number of
/// grammars.
pub open spec fn first_for(grammars: Seq<(Seq<char>, Grammar)>, command: Seq<char>) -> nat
    decreases grammars.len(),
{
    if grammars.len() == 0 || text::views(grammars[0].1.detect@).contains(command) {
        0
    } else {
        1 + first_for(grammars.skip(1), command)
    }
}

proof fn lemma_first_for(grammars: Seq<(Seq<char>, Grammar)>, command: Seq<char>, i: nat)
    requires
        i <= grammars.len(),
        forall|j: int|
            0 <= j < i ==> !text::views((#[trigger] grammars[j]).1.detect@).contains(command),
        i == grammars.len() || text::views(grammars[i as int].1.detect@).contains(command),
    ensures
        first_for(grammars, command) == i,
    decreases grammars.len(),
{
    if i > 0 {
        assert(!text::views(grammars[0].1.detect@).contains(command));
        let rest = grammars.skip(1);
        assert forall|j: int| 0 <= j < i - 1 implies !text::views(
            (#[trigger] rest[j]).1.detect@,
        ).contains(command) by {
            assert(rest[j] == grammars[j + 1]);
        }
        lemma_first_for(rest, command, (i - 1) as nat);
    }
}

/// Finds the grammar for a command, and the action that its arguments ask for.
pub fn detect_tool<'a>(args: &[String], grammars: &'a StrMap<Grammar>) -> (r: Option<
    (&'a Grammar, Option<&'a Action>),
>)
    ensures
        args@.len() == 0 ==> r is None,
        args@.len() > 0 ==> ({
            let i = first_for(grammars@, args@[0]@) as int;
            match r {
                Some((grammar, action)) => {
                    &&& i < grammars@.len()
                    &&& *grammar == grammars@[i].1
                    &&& opt_deref(action) == chosen_action(*grammar, text::views(args@))
                },
                None => i >= grammars@.len(),
            }
        }),
{
    if args.len() == 0 {
        return None;
    }
    let command = args[0].as_str();
    let mut i: usize = 0;
    while i < grammars.entries.len()
        invariant
            i <= grammars.entries.len(),
            args@.len() > 0,
            command@ == args@[0]@,
            forall|j: int|
                0 <= j < i ==> !text::views((#[trigger] grammars@[j]).1.detect@).contains(command@),
        decreases grammars.entries.len() - i,
    {
        let grammar = &grammars.entries[i].1;
        proof {
            assert(grammars@[i as int].1 == *grammar);
        }
        if list_has(grammar.detect.as_slice(), command) {
            proof {
                lemma_first_for(grammars@, command@, i as nat);
            }
            let action = resolve_action(grammar, args);
            return Some((grammar, action));
        }
        i += 1;
    }
    proof {
        lemma_first_for(grammars@, command@, i as nat);
    }
    None
}

// ---------------------------------------------------------------------------
// Summaries
// ---------------------------------------------------------------------------

/// `pairs` with all of `more` put in, in order.
pub open spec fn put_all(
    pairs: Seq<(Seq<char>, Seq<char>)>,
    more: Seq<(Seq<char>, Seq<char>)>,
) -> Seq<(Seq<char>, Seq<char>)>
    decreases more.len(),
{
    if more.len() == 0 {
        pairs
    } else {
        strmap::put(put_all(pairs, more.drop_last()), more.last().0, more.last().1)
    }
}

/// What each outcome caught.
pub open spec fn outcome_captures(outcomes: Seq<CapturedOutcome>) -> Seq<
    Seq<(Seq<char>, Seq<char>)>,
> {
    Seq::new(outcomes.len(), |i: int| strmap::text_pairs(outcomes[i].captures@))
}

/// What the outcomes caught, taken together: of several values under one name
/// the last counts.
pub open spec fn combined(outcomes: Seq<Seq<(Seq<char>, Seq<char>)>>) -> Seq<
    (Seq<char>, Seq<char>),
>
    decreases outcomes.len(),
{
    if outcomes.len() == 0 {
        Seq::empty()
    } else {
        put_all(combined(outcomes.drop_last()), outcomes.last())
    }
}

/// The placeholder for a name.
pub open spec fn placeholder(name: Seq<char>) -> Seq<char> {
    "{"@ + name + "}"@
}

/// A template with the placeholders of all names replaced by their values, one
/// name after the other.
pub open spec fn substituted(template: Seq<char>, vars: Seq<(Seq<char>, Seq<char>)>) -> Seq<char>
    decreases vars.len(),
{
    if vars.len() == 0 {
        template
    } else {
        text::replace(
            substituted(template, vars.drop_last()),
            placeholder(vars.last().0),
            vars.last().1,
        )
    }
}

/// The template of an action, or else of the fallback.
pub open spec fn chosen_template(
    grammar: GrammarView,
    action: Option<ActionView>,
) -> Option<SummaryTemplateView> {
    match action {
        Some(a) => Some(a.summary),
        None => match grammar.fallback {
            Some(f) => Some(f.summary),
            None => None,
        },
    }
}

/// The summary: the template for success or failure, with the exit code, the number
/// of lines and what the outcomes caught put in. What was caught under the name of the
/// number of lines comes before it. There is no summary where the template is empty.
pub open spec fn summary_text(
    grammar: GrammarView,
    action: Option<ActionView>,
    outcomes: Seq<Seq<(Seq<char>, Seq<char>)>>,
    exit_code: int,
    lines: nat,
) -> Seq<Seq<char>> {
    match chosen_template(grammar, action) {
        None => Seq::empty(),
        Some(template) => {
            let chosen = if exit_code == 0 {
                template.success
            } else {
                template.failure
            };
            if chosen.len() == 0 {
                Seq::empty()
            } else {
                let start = text::replace(chosen, "{exit_code}"@, text::dec_int(exit_code));
                let vars = combined(outcomes);
                let counted = if strmap::lookup(vars, "lines"@) is Some {
                    start
                } else {
                    text::replace(start, "{lines}"@, text::dec(lines))
                };
                seq![substituted(counted, vars)]
            }
        },
    }
}

/// The view of an optional reference to an action.
pub open spec fn ref_view(action: Option<&Action>) -> Option<ActionView> {
    match action {
        Some(a) => Some(a@),
        None => None,
    }
}

fn put_captures(vars: &mut StrMap<String>, captures: &StrMap<String>)
    ensures
        strmap::text_pairs(final(vars)@) == put_all(
            strmap::text_pairs(old(vars)@),
            strmap::text_pairs(captures@),
        ),
{
    let ghost start = strmap::text_pairs(vars@);
    let ghost pairs = strmap::text_pairs(captures@);
    let mut i: usize = 0;
    while i < captures.entries.len()
        invariant
            i <= captures.entries.len(),
            pairs == strmap::text_pairs(captures@),
            strmap::text_pairs(vars@) == put_all(start, pairs.take(i as int)),
        decreases captures.entries.len() - i,
    {
        let entry = &captures.entries[i];
        proof {
            assert(pairs.take(i + 1).drop_last() =~= pairs.take(i as int));
            assert(pairs.take(i + 1).last() == (entry.0@, entry.1@));
            strmap::lemma_text_pairs_put(vars@, entry.0@, entry.1);
        }
        vars.insert(entry.0.clone(), entry.1.clone());
        i += 1;
    }
    proof {
        assert(pairs.take(i as int) =~= pairs);
    }
}

fn combine_outcomes(outcomes: &[CapturedOutcome]) -> (r: StrMap<String>)
    ensures
        strmap::text_pairs(r@) == combined(outcome_captures(outcomes@)),
{
    let mut vars: StrMap<String> = StrMap::new();
    let ghost all = outcome_captures(outcomes@);
    let mut i: usize = 0;
    proof {
        assert(strmap::text_pairs(vars@) =~= Seq::<(Seq<char>, Seq<char>)>::empty());
    }
    while i < outcomes.len()
        invariant
            i <= outcomes.len(),
            all == outcome_captures(outcomes@),
            strmap::text_pairs(vars@) == combined(all.take(i as int)),
        decreases outcomes.len() - i,
    {
        proof {
            assert(all.take(i + 1).drop_last() =~= all.take(i as int));
            assert(all.take(i + 1).last() == strmap::text_pairs(outcomes@[i as int].captures@));
        }
        put_captures(&mut vars, &outcomes[i].captures);
        i += 1;
    }
    proof {
        assert(all.take(i as int) =~= all);
    }
    vars
}

/// Formats the summary of a command that wrote so many lines: no line or one.
pub fn format_summary(
    grammar: &Grammar,
    action: Option<&Action>,
    outcomes: &[CapturedOutcome],
    exit_code: i32,
    lines: u64,
) -> (r: Vec<String>)
    ensures
        text::views(r@) == summary_text(
            grammar@,
            ref_view(action),
            outcome_captures(outcomes@),
            exit_code as int,
            lines as nat,
        ),
{
    let mut summary: Vec<String> = Vec::new();
    proof {
        assert(text::views(summary@) =~= Seq::<Seq<char>>::empty());
    }
    let template = match action {
        Some(a) => &a.summary,
        None => match &grammar.fallback {
            Some(f) => &f.summary,
            None => {
                return summary;
            },
        },
    };
    let chosen = if exit_code == 0 {
        template.success.as_str()
    } else {
        template.failure.as_str()
    };
    if chosen.is_empty() {
        return summary;
    }
    let vars = combine_outcomes(outcomes);
    proof {
        reveal_strlit("{exit_code}");
        reveal_strlit("{lines}");
        strmap::lemma_text_pairs_position(vars@, "lines"@);
    }
    let code = text::dec_i64(exit_code as i64);
    let mut result = replace_all(chosen, "{exit_code}", code.as_str());
    if !vars.contains_key("lines") {
        let count = text::dec_u64(lines);
        result = replace_all(result.as_str(), "{lines}", count.as_str());
    }
    let ghost start = result@;
    let ghost pairs = strmap::text_pairs(vars@);
    let mut i: usize = 0;
    while i < vars.entries.len()
        invariant
            i <= vars.entries.len(),
            pairs == strmap::text_pairs(vars@),
            result@ == substituted(start, pairs.take(i as int)),
        decreases vars.entries.len() - i,
    {
        let entry = &vars.entries[i];
        let sought = concat3("{", entry.0.as_str(), "}");
        proof {
            reveal_strlit("{");
            assert(pairs.take(i + 1).drop_last() =~= pairs.take(i as int));
            assert(pairs.take(i + 1).last() == (entry.0@, entry.1@));
        }
        result = replace_all(result.as_str(), sought.as_str(), entry.1.as_str());
        i += 1;
    }
    proof {
        assert(pairs.take(i as int) =~= pairs);
    }
    summary.push(result);
    proof {
        assert(text::views(summary@) =~= seq![result@]);
    }
    summary
}

// ---------------------------------------------------------------------------
// Rules and lines
// ---------------------------------------------------------------------------

/// The result of holding a line against the rules.
#[derive(Debug, Clone, PartialEq, Eq)]
pub enum RuleMatch {
    /// The line matched a hazard rule.
    Hazard {
        action: RuleAction,
        severity: Option<Severity>,
        captures: StrMap<String>,
        multiline: Option<u32>,
    },
    /// The line matched an outcome rule.
    Outcome { action: RuleAction, captures: StrMap<String>, multiline: Option<u32> },
    /// The line matched a noise rule, of the action or a global one.
    Noise { action: RuleAction, multiline: Option<u32> },
    /// No rule matched the line.
    NoMatch,
}

pub enum RuleMatchView {
    Hazard {
        action: RuleAction,
        severity: Option<Severity>,
        captures: Seq<(Seq<char>, Seq<char>)>,
        multiline: Option<u32>,
    },
    Outcome {
        action: RuleAction,
        captures: Seq<(Seq<char>, Seq<char>)>,
        multiline: Option<u32>,
    },
    Noise { action: RuleAction, multiline: Option<u32> },
    NoMatch,
}

impl View for RuleMatch {
    type V = RuleMatchView;

    open spec fn view(&self) -> RuleMatchView {
        match *self {
            RuleMatch::Hazard { action, severity, captures, multiline } => RuleMatchView::Hazard {
                action,
                severity,
                captures: strmap::text_pairs(captures@),
                multiline,
            },
            RuleMatch::Outcome { action, captures, multiline } => RuleMatchView::Outcome {
                action,
                captures: strmap::text_pairs(captures@),
                multiline,
            },
            RuleMatch::Noise { action, multiline } => RuleMatchView::Noise { action, multiline },
            RuleMatch::NoMatch => RuleMatchView::NoMatch,
        }
    }
}

/// The first rule that matches the line.
pub open spec fn first_rule(rules: Seq<RuleView>, line: Seq<char>) -> Option<RuleView>
    decreases rules.len(),
{
    if rules.len() == 0 {
        None
    } else if outside::regex_matches(rules[0].pattern, line) {
        Some(rules[0])
    } else {
        first_rule(rules.skip(1), line)
    }
}

/// What the named groups of an expression catch in a text; a group that takes
/// no part in the match is left out.
pub open spec fn caught(pattern: Regex, text: Seq<char>, names: Seq<Seq<char>>) -> Seq<
    (Seq<char>, Seq<char>),
>
    decreases names.len(),
{
    if names.len() == 0 {
        Seq::empty()
    } else {
        let before = caught(pattern, text, names.drop_last());
        match outside::named_group(pattern, text, names.last()) {
            Some(group) => strmap::put(before, names.last(), group),
            None => before,
        }
    }
}

/// What the rules make of a line. Hazards come first, then outcomes, then
/// noise: the action's rules before the global ones. The first match counts.
pub open spec fn evaluated(
    grammar: GrammarView,
    action: Option<ActionView>,
    line: Seq<char>,
) -> RuleMatchView {
    let hazards = match action {
        Some(a) => a.hazard,
        None => Seq::empty(),
    };
    let outcomes = match action {
        Some(a) => a.outcome,
        None => Seq::empty(),
    };
    let noise = match action {
        Some(a) => a.noise + grammar.global_noise,
        None => grammar.global_noise,
    };
    if first_rule(hazards, line) is Some {
        let rule = first_rule(hazards, line)->0;
        RuleMatchView::Hazard {
            action: rule.action,
            severity: rule.severity,
            captures: caught(rule.pattern, line, rule.captures),
            multiline: rule.multiline,
        }
    } else if first_rule(outcomes, line) is Some {
        let rule = first_rule(outcomes, line)->0;
        RuleMatchView::Outcome {
            action: rule.action,
            captures: caught(rule.pattern, line, rule.captures),
            multiline: rule.multiline,
        }
    } else if first_rule(noise, line) is Some {
        let rule = first_rule(noise, line)->0;
        RuleMatchView::Noise { action: rule.action, multiline: rule.multiline }
    } else {
        RuleMatchView::NoMatch
    }
}

proof fn lemma_first_rule(rules: Seq<RuleView>, line: Seq<char>, i: int)
    requires
        0 <= i <= rules.len(),
        forall|j: int|
            0 <= j < i ==> !outside::regex_matches((#[trigger] rules[j]).pattern, line),
        i == rules.len() || outside::regex_matches(rules[i].pattern, line),
    ensures
        first_rule(rules, line) == (if i < rules.len() {
            Some(rules[i])
        } else {
            None
        }),
    decreases rules.len(),
{
    if i > 0 {
        assert(!outside::regex_matches(rules[0].pattern, line));
        let rest = rules.skip(1);
        assert forall|j: int| 0 <= j < i - 1 implies !outside::regex_matches(
            (#[trigger] rest[j]).pattern,
            line,
        ) by {
            assert(rest[j] == rules[j + 1]);
        }
        lemma_first_rule(rest, line, i - 1);
    }
}

/// The position of the first rule that matches the line.
pub fn find_rule(rules: &[Rule], line: &str) -> (r: Option<usize>)
    ensures
        match r {
            Some(i) => {
                &&& i < rules@.len()
                &&& first_rule(rule_views(rules@), line@) == Some(rules@[i as int]@)
            },
            None => first_rule(rule_views(rules@), line@) is None,
        },
{
    let mut i: usize = 0;
    while i < rules.len()
        invariant
            i <= rules.len(),
            forall|j: int|
                0 <= j < i ==> !outside::regex_matches(
                    (#[trigger] rule_views(rules@)[j]).pattern,
                    line@,
                ),
        decreases rules.len() - i,
    {
        if rules[i].pattern.is_match(line) {
            proof {
                lemma_first_rule(rule_views(rules@), line@, i as int);
            }
            return Some(i);
        }
        i += 1;
    }
    proof {
        lemma_first_rule(rule_views(rules@), line@, i as int);
    }
    None
}

/// Collects what the named groups of an expression catch.
pub fn extract_captures(pattern: &Regex, line: &str, names: &[String]) -> (r: StrMap<String>)
    ensures
        strmap::text_pairs(r@) == caught(*pattern, line@, text::views(names@)),
        r.wf(),
{
    let mut map: StrMap<String> = StrMap::new();
    let ghost all = text::views(names@);
    let mut i: usize = 0;
    proof {
        assert(strmap::text_pairs(map@) =~= Seq::<(Seq<char>, Seq<char>)>::empty());
    }
    while i < names.len()
        invariant
            i <= names.len(),
            all == text::views(names@),
            map.wf(),
            strmap::text_pairs(map@) == caught(*pattern, line@, all.take(i as int)),
        decreases names.len() - i,
    {
        proof {
            assert(all.take(i + 1).drop_last() =~= all.take(i as int));
            assert(all.take(i + 1).last() == names@[i as int]@);
        }
        match captured_text(pattern, line, names[i].as_str()) {
            Some(group) => {
                proof {
                    strmap::lemma_text_pairs_put(map@, names@[i as int]@, group);
                }
                map.insert(names[i].clone(), group);
            },
            None => {},
        }
        i += 1;
    }
    proof {
        assert(all.take(i as int) =~= all);
    }
    map
}

/// What a single rule catches in a line that it matches.
pub fn try_match_rule(rule: &Rule, line: &str) -> (r: Option<StrMap<String>>)
    ensures
        match r {
            Some(map) => {
                &&& outside::regex_matches(rule.pattern, line@)
                &&& strmap::text_pairs(map@) == caught(rule.pattern, line@, rule@.captures)
                &&& map.wf()
            },
            None => !outside::regex_matches(rule.pattern, line@),
        },
{
    if rule.pattern.is_match(line) {
        Some(extract_captures(&rule.pattern, line, rule.captures.as_slice()))
    } else {
        None
    }
}

/// The position of the first matching rule in each list of rules.
#[derive(Debug, Clone, Copy)]
pub struct LineHits {
    pub hazard: Option<usize>,
    pub outcome: Option<usize>,
    pub noise: Option<usize>,
    pub global: Option<usize>,
}

/// A position, if there is one, lies in the list.
pub open spec fn hit_in(hit: Option<usize>, rules: Seq<RuleView>) -> bool {
    hit matches Some(i) ==> i < rules.len()
}

/// The positions lie in the lists of the action and the grammar.
pub open spec fn hits_in(
    grammar: GrammarView,
    action: Option<ActionView>,
    hits: LineHits,
) -> bool {
    &&& hit_in(hits.global, grammar.global_noise)
    &&& match action {
        Some(a) => hit_in(hits.hazard, a.hazard) && hit_in(hits.outcome, a.outcome) && hit_in(
            hits.noise,
            a.noise,
        ),
        None => hits.hazard is None && hits.outcome is None && hits.noise is None,
    }
}

/// What follows from the first matches in the lists.
pub open spec fn settled(
    grammar: GrammarView,
    action: Option<ActionView>,
    hits: LineHits,
    captures: Seq<(Seq<char>, Seq<char>)>,
) -> RuleMatchView {
    if hits.hazard is Some {
        let rule = action->0.hazard[hits.hazard->0 as int];
        RuleMatchView::Hazard {
            action: rule.action,
            severity: rule.severity,
            captures,
            multiline: rule.multiline,
        }
    } else if hits.outcome is Some {
        let rule = action->0.outcome[hits.outcome->0 as int];
        RuleMatchView::Outcome { action: rule.action, captures, multiline: rule.multiline }
    } else if hits.noise is Some {
        let rule = action->0.noise[hits.noise->0 as int];
        RuleMatchView::Noise { action: rule.action, multiline: rule.multiline }
    } else if hits.global is Some {
        let rule = grammar.global_noise[hits.global->0 as int];
        RuleMatchView::Noise { action: rule.action, multiline: rule.multiline }
    } else {
        RuleMatchView::NoMatch
    }
}

/// Decides by the first matches in the lists; `captures` is what the deciding
/// rule caught.
pub fn match_from_hits(
    grammar: &Grammar,
    action: Option<&Action>,
    hits: LineHits,
    captures: StrMap<String>,
) -> (r: RuleMatch)
    requires
        hits_in(grammar@, ref_view(action), hits),
    ensures
        r@ == settled(grammar@, ref_view(action), hits, strmap::text_pairs(captures@)),
{
    if let Some(a) = action {
        if let Some(i) = hits.hazard {
            let rule = &a.hazard[i];
            return RuleMatch::Hazard {
                action: rule.action,
                severity: rule.severity,
                captures,
                multiline: rule.multiline,
            };
        }
        if let Some(i) = hits.outcome {
            let rule = &a.outcome[i];
            return RuleMatch::Outcome {
                action: rule.action,
                captures,
                multiline: rule.multiline,
            };
        }
        if let Some(i) = hits.noise {
            let rule = &a.noise[i];
            return RuleMatch::Noise { action: rule.action, multiline: rule.multiline };
        }
    }
    if let Some(i) = hits.global {
        let rule = &grammar.global_noise[i];
        return RuleMatch::Noise { action: rule.action, multiline: rule.multiline };
    }
    RuleMatch::NoMatch
}

/// Of rules in two lists the first list's are tried first.
pub proof fn law_earlier_rules_win(first: Seq<RuleView>, second: Seq<RuleView>, line: Seq<char>)
    ensures
        first_rule(first + second, line) == (if first_rule(first, line) is Some {
            first_rule(first, line)
        } else {
            first_rule(second, line)
        }),
    decreases first.len(),
{
    if first.len() == 0 {
        assert(first + second =~= second);
    } else {
        assert((first + second).skip(1) =~= first.skip(1) + second);
        law_earlier_rules_win(first.skip(1), second, line);
    }
}

/// Holds a line against the rules of an action and of its grammar.
pub fn evaluate_line(grammar: &Grammar, action: Option<&Action>, line: &str) -> (r: RuleMatch)
    ensures
        r@ == evaluated(grammar@, ref_view(action), line@),
{
    let mut hits = LineHits { hazard: None, outcome: None, noise: None, global: None };
    let mut captures: StrMap<String> = StrMap::new();
    if let Some(a) = action {
        hits.hazard = find_rule(a.hazard.as_slice(), line);
        if let Some(i) = hits.hazard {
            let rule = &a.hazard[i];
            captures = extract_captures(&rule.pattern, line, rule.captures.as_slice());
            return match_from_hits(grammar, action, hits, captures);
        }
        hits.outcome = find_rule(a.outcome.as_slice(), line);
        if let Some(i) = hits.outcome {
            let rule = &a.outcome[i];
            captures = extract_captures(&rule.pattern, line, rule.captures.as_slice());
            return match_from_hits(grammar, action, hits, captures);
        }
        hits.noise = find_rule(a.noise.as_slice(), line);
    }
    hits.global = find_rule(grammar.global_noise.as_slice(), line);
    proof {
        if let Some(a) = action {
            law_earlier_rules_win(a@.noise, grammar@.global_noise, line@);
        }
    }
    match_from_hits(grammar, action, hits, captures)
}

/// Holds a line against the rules of the fallback action.
pub fn evaluate_line_with_fallback(grammar: &Grammar, line: &str) -> (r: RuleMatch)
    ensures
        r@ == evaluated(grammar@, grammar@.fallback, line@),
{
    match &grammar.fallback {
        Some(action) => evaluate_line(grammar, Some(action), line),
        None => evaluate_line(grammar, None, line),
    }
}

// ---------------------------------------------------------------------------
// Categories
// ---------------------------------------------------------------------------

/// A tool's category: its grammar's, or else the one under its name in the
/// map, or else `Condense`.
pub open spec fn category_for(
    grammar: GrammarView,
    map: Option<Seq<(Seq<char>, Category)>>,
) -> Category {
    match grammar.category {
        Some(category) => category,
        None => match map {
            None => Category::Condense,
            Some(pairs) => match strmap::lookup(pairs, grammar.name) {
                Some(category) => category,
                None => Category::Condense,
            },
        },
    }
}

pub fn resolve_category(
    grammar: &Grammar,
    categories_map: Option<&StrMap<Category>>,
) -> (r: Category)
    ensures
        r == category_for(
            grammar@,
            match categories_map {
                Some(map) => Some(map@),
                None => None,
            },
        ),
{
    if let Some(category) = grammar.category {
        return category;
    }
    if let Some(map) = categories_map {
        if let Some(category) = map.get(grammar.tool.name.as_str()) {
            return *category;
        }
    }
    Category::default()
}

// ---------------------------------------------------------------------------
// Laws
// ---------------------------------------------------------------------------

/// A line that a hazard rule matches is a hazard, whatever other rules match
/// it: no error is suppressed.
pub proof fn law_hazards_are_never_suppressed(
    grammar: GrammarView,
    action: ActionView,
    line: Seq<char>,
    i: int,
)
    requires
        0 <= i < action.hazard.len(),
        outside::regex_matches(action.hazard[i].pattern, line),
    ensures
        evaluated(grammar, Some(action), line) is Hazard,
{
    lemma_some_rule_matches(action.hazard, line, i);
}

proof fn lemma_some_rule_matches(rules: Seq<RuleView>, line: Seq<char>, i: int)
    requires
        0 <= i < rules.len(),
        outside::regex_matches(rules[i].pattern, line),
    ensures
        first_rule(rules, line) is Some,
    decreases rules.len(),
{
    if !outside::regex_matches(rules[0].pattern, line) {
        assert(rules.skip(1)[i - 1] == rules[i]);
        lemma_some_rule_matches(rules.skip(1), line, i - 1);
    }
}

/// Inherited rules come behind the grammar's own: where an own rule decides on
/// a line, inheriting changes nothing.
pub proof fn law_own_rules_override_inherited_ones(
    grammar: GrammarView,
    more: Seq<RuleView>,
    action: Option<ActionView>,
    line: Seq<char>,
)
    requires
        evaluated(grammar, action, line) !is NoMatch,
    ensures
        evaluated(
            GrammarView { global_noise: grammar.global_noise + more, ..grammar },
            action,
            line,
        ) == evaluated(grammar, action, line),
{
    match action {
        Some(a) => {
            assert(a.noise + (grammar.global_noise + more) =~= (a.noise + grammar.global_noise)
                + more);
            law_earlier_rules_win(a.noise + grammar.global_noise, more, line);
        },
        None => {
            law_earlier_rules_win(grammar.global_noise, more, line);
        },
    }
}

/// Every category is read back from its name.
pub proof fn law_category_names_are_read_back(c: Category)
    ensures
        category_named(category::category_name(c)) == Some(c),
{
    reveal_strlit("condense");
    reveal_strlit("narrate");
    reveal_strlit("passthrough");
    reveal_strlit("structured");
    reveal_strlit("interactive");
    reveal_strlit("dangerous");
    assert("condense"@.len() == 8);
    assert("narrate"@.len() == 7);
    assert("passthrough"@.len() == 11);
    assert("structured"@.len() == 10);
    assert("interactive"@.len() == 11);
    assert("dangerous"@.len() == 9);
    assert("passthrough"@[0] != "interactive"@[0]);
}

/// Rules whose patterns compile and whose keywords are known all compile;
/// nothing else in them can fail.
pub proof fn law_valid_rules_compile(raws: Seq<RawRule>)
    requires
        forall|i: int|
            0 <= i < raws.len() ==> {
                &&& outside::compiled((#[trigger] raws[i]).pattern@) is Ok
                &&& action_named(raws[i].action@) is Some
                &&& raws[i].severity matches Some(s) ==> severity_named(s@) is Some
            },
    ensures
        rules_of(raws) is Ok,
        (rules_of(raws)->Ok_0).len() == raws.len(),
    decreases raws.len(),
{
    if raws.len() > 0 {
        let before = raws.drop_last();
        assert forall|i: int| 0 <= i < before.len() implies {
            &&& outside::compiled((#[trigger] before[i]).pattern@) is Ok
            &&& action_named(before[i].action@) is Some
            &&& before[i].severity matches Some(s) ==> severity_named(s@) is Some
        } by {
            assert(before[i] == raws[i]);
        }
        law_valid_rules_compile(before);
        assert(rule_of(raws.last()) is Ok);
    }
}

/// The word stands in the list.
pub open spec fn is_word_of(list: Seq<String>, word: Seq<char>) -> bool {
    exists|d: int| 0 <= d < list.len() && (#[trigger] list[d])@ == word
}

proof fn lemma_words(list: Seq<String>, word: Seq<char>)
    ensures
        text::views(list).contains(word) <==> is_word_of(list, word),
{
    let all = text::views(list);
    if all.contains(word) {
        let d = choose|d: int| 0 <= d < all.len() && all[d] == word;
        assert(list[d]@ == word);
    }
    if is_word_of(list, word) {
        let d = choose|d: int| 0 <= d < list.len() && (#[trigger] list[d])@ == word;
        assert(all[d] == word);
    }
}

proof fn lemma_asked(actions: Seq<(Seq<char>, Action)>, args: Seq<Seq<char>>)
    ensures
        ({
            let m = first_asked(actions, args) as int;
            &&& m <= actions.len()
            &&& forall|j: int, i: int|
                0 <= j < m && 1 <= i < args.len() ==> !is_word_of(
                    (#[trigger] actions[j]).1.detect@,
                    #[trigger] args[i],
                )
            &&& m < actions.len() ==> exists|i: int|
                1 <= i < args.len() && is_word_of(actions[m].1.detect@, #[trigger] args[i])
        }),
    decreases actions.len(),
{
    if actions.len() > 0 {
        let detect = actions[0].1.detect@;
        assert forall|i: int| 1 <= i < args.len() implies text::views(detect).contains(
            args[i],
        ) == is_word_of(detect, #[trigger] args[i]) by {
            lemma_words(detect, args[i]);
        }
        if detects_argument(text::views(detect), args) {
            let i = choose|i: int|
                1 <= i < args.len() && text::views(detect).contains(#[trigger] args[i]);
            assert(is_word_of(detect, args[i]));
        } else {
            let rest = actions.skip(1);
            lemma_asked(rest, args);
            let m = first_asked(actions, args) as int;
            assert forall|j: int, i: int|
                0 <= j < m && 1 <= i < args.len() implies !is_word_of(
                (#[trigger] actions[j]).1.detect@,
                #[trigger] args[i],
            ) by {
                if j > 0 {
                    assert(rest[j - 1] == actions[j]);
                } else {
                    assert(!text::views(detect).contains(args[i]));
                }
            }
            if m < actions.len() {
                assert(rest[m - 1] == actions[m]);
            }
        }
    }
}

/// Where an action lists one of the arguments behind the command, at whatever place it
/// stands, an action that lists one is chosen and not the fallback: the first such one.
pub proof fn law_asked_action_is_chosen(grammar: Grammar, args: Seq<Seq<char>>, k: int, i: int)
    requires
        0 <= k < grammar.actions@.len(),
        1 <= i < args.len(),
        is_word_of(grammar.actions@[k].1.detect@, args[i]),
    ensures
        exists|m: int|
            {
                &&& 0 <= m <= k
                &&& chosen_action(grammar, args) == Some((#[trigger] grammar.actions@[m]).1)
                &&& chosen_name(grammar, args) == Some(grammar.actions@[m].0)
                &&& exists|j: int|
                    1 <= j < args.len() && is_word_of(
                        grammar.actions@[m].1.detect@,
                        #[trigger] args[j],
                    )
                &&& forall|e: int, j: int|
                    0 <= e < m && 1 <= j < args.len() ==> !is_word_of(
                        (#[trigger] grammar.actions@[e]).1.detect@,
                        #[trigger] args[j],
                    )
            },
{
    lemma_asked(grammar.actions@, args);
    let m = first_asked(grammar.actions@, args) as int;
    assert(m <= k);
    assert(chosen_action(grammar, args) == Some(grammar.actions@[m].1));
}

/// Where no action lists any argument behind the command, the fallback is all there is.
pub proof fn law_fallback_is_for_unasked_actions(grammar: Grammar, args: Seq<Seq<char>>)
    requires
        forall|k: int, i: int|
            0 <= k < grammar.actions@.len() && 1 <= i < args.len() ==> !is_word_of(
                (#[trigger] grammar.actions@[k]).1.detect@,
                #[trigger] args[i],
            ),
    ensures
        chosen_action(grammar, args) == grammar.fallback,
        chosen_name(grammar, args) is None,
{
    lemma_asked(grammar.actions@, args);
}

/// A word that no action lists, wherever it stands behind the command, changes nothing
/// of the choice.
pub proof fn law_unlisted_words_ask_for_nothing(
    grammar: Grammar,
    args: Seq<Seq<char>>,
    at: int,
    word: Seq<char>,
)
    requires
        1 <= at <= args.len(),
        forall|k: int|
            0 <= k < grammar.actions@.len() ==> !is_word_of(
                (#[trigger] grammar.actions@[k]).1.detect@,
                word,
            ),
    ensures
        chosen_action(grammar, args.insert(at, word)) == chosen_action(grammar, args),
        chosen_name(grammar, args.insert(at, word)) == chosen_name(grammar, args),
{
    lemma_unlisted(grammar.actions@, args, at, word);
}

proof fn lemma_unlisted(
    actions: Seq<(Seq<char>, Action)>,
    args: Seq<Seq<char>>,
    at: int,
    word: Seq<char>,
)
    requires
        1 <= at <= args.len(),
        forall|k: int|
            0 <= k < actions.len() ==> !is_word_of((#[trigger] actions[k]).1.detect@, word),
    ensures
        first_asked(actions, args.insert(at, word)) == first_asked(actions, args),
    decreases actions.len(),
{
    if actions.len() > 0 {
        let more = args.insert(at, word);
        let list = text::views(actions[0].1.detect@);
        assert(!is_word_of(actions[0].1.detect@, word));
        lemma_words(actions[0].1.detect@, word);
        if detects_argument(list, args) {
            let i = choose|i: int| 1 <= i < args.len() && list.contains(#[trigger] args[i]);
            let j = if i < at {
                i
            } else {
                i + 1
            };
            assert(more[j] == args[i]);
        }
        if detects_argument(list, more) {
            let j = choose|j: int| 1 <= j < more.len() && list.contains(#[trigger] more[j]);
            assert(j != at);
            let i = if j < at {
                j
            } else {
                j - 1
            };
            assert(args[i] == more[j]);
        }
        let rest = actions.skip(1);
        assert forall|k: int| 0 <= k < rest.len() implies !is_word_of(
            (#[trigger] rest[k]).1.detect@,
            word,
        ) by {
            assert(rest[k] == actions[k + 1]);
        }
        lemma_unlisted(rest, args, at, word);
    }
}

/// The grammar for a command is the first that lists it by its name; there is none
/// only where no grammar does.
pub proof fn law_first_grammar_that_lists_a_command(
    grammars: Seq<(Seq<char>, Grammar)>,
    command: Seq<char>,
)
    ensures
        ({
            let m = first_for(grammars, command) as int;
            &&& m <= grammars.len()
            &&& forall|j: int|
                0 <= j < m ==> !is_word_of((#[trigger] grammars[j]).1.detect@, command)
            &&& m < grammars.len() ==> is_word_of(grammars[m].1.detect@, command)
        }),
    decreases grammars.len(),
{
    if grammars.len() > 0 {
        lemma_words(grammars[0].1.detect@, command);
        if !is_word_of(grammars[0].1.detect@, command) {
            let rest = grammars.skip(1);
            law_first_grammar_that_lists_a_command(rest, command);
            let m = first_for(grammars, command) as int;
            assert forall|j: int| 0 <= j < m implies !is_word_of(
                (#[trigger] grammars[j]).1.detect@,
                command,
            ) by {
                if j > 0 {
                    assert(rest[j - 1] == grammars[j]);
                }
            }
            if m < grammars.len() {
                assert(rest[m - 1] == grammars[m]);
            }
        }
    }
}

/// Of a list of rules the first that matches decides, and none only where none
/// matches.
pub proof fn law_first_matching_rule_decides(rules: Seq<RuleView>, line: Seq<char>)
    ensures
        match first_rule(rules, line) {
            Some(rule) => exists|i: int|
                {
                    &&& 0 <= i < rules.len()
                    &&& rule == #[trigger] rules[i]
                    &&& outside::regex_matches(rule.pattern, line)
                    &&& forall|j: int|
                        0 <= j < i ==> !outside::regex_matches((#[trigger] rules[j]).pattern, line)
                },
            None => forall|j: int|
                0 <= j < rules.len() ==> !outside::regex_matches(
                    (#[trigger] rules[j]).pattern,
                    line,
                ),
        },
    decreases rules.len(),
{
    if rules.len() > 0 {
        if outside::regex_matches(rules[0].pattern, line) {
            assert(rules[0] == rules[0]);
        } else {
            let rest = rules.skip(1);
            law_first_matching_rule_decides(rest, line);
            if first_rule(rest, line) is Some {
                let rule = first_rule(rest, line)->0;
                let i = choose|i: int|
                    {
                        &&& 0 <= i < rest.len()
                        &&& rule == #[trigger] rest[i]
                        &&& outside::regex_matches(rule.pattern, line)
                        &&& forall|j: int|
                            0 <= j < i ==> !outside::regex_matches(
                                (#[trigger] rest[j]).pattern,
                                line,
                            )
                    };
                assert(rules[i + 1] == rest[i]);
                assert forall|j: int| 0 <= j < i + 1 implies !outside::regex_matches(
                    (#[trigger] rules[j]).pattern,
                    line,
                ) by {
                    if j > 0 {
                        assert(rest[j - 1] == rules[j]);
                    }
                }
            } else {
                assert forall|j: int| 0 <= j < rules.len() implies !outside::regex_matches(
                    (#[trigger] rules[j]).pattern,
                    line,
                ) by {
                    if j > 0 {
                        assert(rest[j - 1] == rules[j]);
                    }
                }
            }
        }
    }
}

/// No rule of the list matches the line.
pub open spec fn none_matches(rules: Seq<RuleView>, line: Seq<char>) -> bool {
    forall|j: int|
        0 <= j < rules.len() ==> !outside::regex_matches((#[trigger] rules[j]).pattern, line)
}

/// The rule is the first of the list that matches the line.
pub open spec fn matches_first(rules: Seq<RuleView>, i: int, line: Seq<char>) -> bool {
    &&& 0 <= i < rules.len()
    &&& outside::regex_matches(rules[i].pattern, line)
    &&& forall|j: int|
        0 <= j < i ==> !outside::regex_matches((#[trigger] rules[j]).pattern, line)
}

proof fn lemma_matches_first(rules: Seq<RuleView>, i: int, line: Seq<char>)
    requires
        matches_first(rules, i, line),
    ensures
        first_rule(rules, line) == Some(rules[i]),
{
    lemma_first_rule(rules, line, i);
}

proof fn lemma_none_matches(rules: Seq<RuleView>, line: Seq<char>)
    requires
        none_matches(rules, line),
    ensures
        first_rule(rules, line) is None,
{
    lemma_first_rule(rules, line, rules.len() as int);
}

/// A line is judged by the hazards of an action, then by its outcomes, then by its
/// noise, then by the noise of the grammar: in each list by the first rule that
/// matches, with what that rule says and catches. A later list counts only where no
/// rule of an earlier one matches.
pub proof fn law_lists_of_rules_are_asked_in_order(
    grammar: GrammarView,
    action: ActionView,
    line: Seq<char>,
    i: int,
)
    ensures
        matches_first(action.hazard, i, line) ==> evaluated(grammar, Some(action), line) == ({
            let rule = action.hazard[i];
            RuleMatchView::Hazard {
                action: rule.action,
                severity: rule.severity,
                captures: caught(rule.pattern, line, rule.captures),
                multiline: rule.multiline,
            }
        }),
        none_matches(action.hazard, line) && matches_first(action.outcome, i, line) ==> evaluated(
            grammar,
            Some(action),
            line,
        ) == ({
            let rule = action.outcome[i];
            RuleMatchView::Outcome {
                action: rule.action,
                captures: caught(rule.pattern, line, rule.captures),
                multiline: rule.multiline,
            }
        }),
        none_matches(action.hazard, line) && none_matches(action.outcome, line) && matches_first(
            action.noise,
            i,
            line,
        ) ==> evaluated(grammar, Some(action), line) == (RuleMatchView::Noise {
            action: action.noise[i].action,
            multiline: action.noise[i].multiline,
        }),
        none_matches(action.hazard, line) && none_matches(action.outcome, line) && none_matches(
            action.noise,
            line,
        ) && matches_first(grammar.global_noise, i, line) ==> evaluated(
            grammar,
            Some(action),
            line,
        ) == (RuleMatchView::Noise {
            action: grammar.global_noise[i].action,
            multiline: grammar.global_noise[i].multiline,
        }),
        none_matches(action.hazard, line) && none_matches(action.outcome, line) && none_matches(
            action.noise,
            line,
        ) && none_matches(grammar.global_noise, line) ==> evaluated(grammar, Some(action), line)
            is NoMatch,
        matches_first(grammar.global_noise, i, line) ==> evaluated(grammar, None, line) == (
        RuleMatchView::Noise {
            action: grammar.global_noise[i].action,
            multiline: grammar.global_noise[i].multiline,
        }),
        none_matches(grammar.global_noise, line) ==> evaluated(grammar, None, line) is NoMatch,
{
    law_earlier_rules_win(action.noise, grammar.global_noise, line);
    let none = Seq::<RuleView>::empty();
    lemma_none_matches(none, line);
    if matches_first(action.hazard, i, line) {
        lemma_matches_first(action.hazard, i, line);
    }
    if none_matches(action.hazard, line) {
        lemma_none_matches(action.hazard, line);
    }
    if matches_first(action.outcome, i, line) {
        lemma_matches_first(action.outcome, i, line);
    }
    if none_matches(action.outcome, line) {
        lemma_none_matches(action.outcome, line);
    }
    if matches_first(action.noise, i, line) {
        lemma_matches_first(action.noise, i, line);
    }
    if none_matches(action.noise, line) {
        lemma_none_matches(action.noise, line);
    }
    if matches_first(grammar.global_noise, i, line) {
        lemma_matches_first(grammar.global_noise, i, line);
    }
    if none_matches(grammar.global_noise, line) {
        lemma_none_matches(grammar.global_noise, line);
    }
}

/// Under each name that a rule lists stands what its group caught, and nothing else
/// stands there.
pub proof fn law_rules_catch_what_they_list(
    pattern: Regex,
    line: Seq<char>,
    names: Seq<Seq<char>>,
    name: Seq<char>,
)
    ensures
        strmap::lookup(caught(pattern, line, names), name) == (if names.contains(name) {
            outside::named_group(pattern, line, name)
        } else {
            None
        }),
    decreases names.len(),
{
    if names.len() > 0 {
        let fewer = names.drop_last();
        law_rules_catch_what_they_list(pattern, line, fewer, name);
        let before = caught(pattern, line, fewer);
        if let Some(group) = outside::named_group(pattern, line, names.last()) {
            strmap::law_get_after_put(before, names.last(), group, name);
        }
        if names.contains(name) && name != names.last() {
            let k = choose|k: int| 0 <= k < names.len() && names[k] == name;
            assert(fewer[k] == name);
        }
        if fewer.contains(name) {
            let k = choose|k: int| 0 <= k < fewer.len() && fewer[k] == name;
            assert(names[k] == name);
        }
        assert(names[names.len() - 1] == names.last());
    }
}

/// Of what several outcomes caught under one name the last counts.
pub proof fn law_last_outcome_wins(
    outcomes: Seq<Seq<(Seq<char>, Seq<char>)>>,
    last: Seq<(Seq<char>, Seq<char>)>,
    name: Seq<char>,
)
    requires
        strmap::distinct_keys(last),
    ensures
        strmap::lookup(combined(outcomes.push(last)), name) == (if strmap::lookup(
            last,
            name,
        ) is Some {
            strmap::lookup(last, name)
        } else {
            strmap::lookup(combined(outcomes), name)
        }),
{
    assert(outcomes.push(last).drop_last() =~= outcomes);
    lemma_put_all(combined(outcomes), last, name);
}

proof fn lemma_put_all(
    pairs: Seq<(Seq<char>, Seq<char>)>,
    more: Seq<(Seq<char>, Seq<char>)>,
    name: Seq<char>,
)
    requires
        strmap::distinct_keys(more),
    ensures
        strmap::lookup(put_all(pairs, more), name) == (if strmap::lookup(more, name) is Some {
            strmap::lookup(more, name)
        } else {
            strmap::lookup(pairs, name)
        }),
    decreases more.len(),
{
    strmap::lemma_position_is_first(more, name);
    if more.len() > 0 {
        let fewer = more.drop_last();
        assert forall|i: int, j: int| 0 <= i < j < fewer.len() implies #[trigger] fewer[i].0
            != #[trigger] fewer[j].0 by {
            assert(more[i].0 != more[j].0);
        }
        lemma_put_all(pairs, fewer, name);
        strmap::lemma_position_is_first(fewer, name);
        strmap::law_get_after_put(put_all(pairs, fewer), more.last().0, more.last().1, name);
        let at = strmap::position(more, name) as int;
        if at < fewer.len() {
            assert forall|j: int| 0 <= j < at implies (#[trigger] fewer[j]).0 != name by {
                assert(fewer[j] == more[j]);
            }
            strmap::lemma_position(fewer, name, at as nat);
            assert(more[at].0 != more[more.len() - 1].0);
        } else {
            assert forall|j: int| 0 <= j < fewer.len() implies (#[trigger] fewer[j]).0 != name by {
                assert(fewer[j] == more[j]);
            }
            strmap::lemma_position(fewer, name, fewer.len());
        }
    }
}

/// The word for a rule's action.
pub open spec fn action_word(action: RuleAction) -> Seq<char> {
    match action {
        RuleAction::Strip => seq!['s', 't', 'r', 'i', 'p'],
        RuleAction::Dedup => seq!['d', 'e', 'd', 'u', 'p'],
        RuleAction::Keep => seq!['k', 'e', 'e', 'p'],
        RuleAction::Promote => seq!['p', 'r', 'o', 'm', 'o', 't', 'e'],
    }
}

pub open spec fn severity_word(severity: Severity) -> Seq<char> {
    match severity {
        Severity::Error => seq!['e', 'r', 'r', 'o', 'r'],
        Severity::Warning => seq!['w', 'a', 'r', 'n', 'i', 'n', 'g'],
    }
}

/// Each action and each severity has one word, and no other word names it.
pub proof fn law_keywords_name_one_thing(
    word: Seq<char>,
    action: RuleAction,
    severity: Severity,
)
    ensures
        action_named(word) == Some(action) <==> word == action_word(action),
        severity_named(word) == Some(severity) <==> word == severity_word(severity),
{
    reveal_strlit("strip");
    reveal_strlit("dedup");
    reveal_strlit("keep");
    reveal_strlit("promote");
    reveal_strlit("error");
    reveal_strlit("warning");
    assert("strip"@ =~= action_word(RuleAction::Strip));
    assert("dedup"@ =~= action_word(RuleAction::Dedup));
    assert("keep"@ =~= action_word(RuleAction::Keep));
    assert("promote"@ =~= action_word(RuleAction::Promote));
    assert("error"@ =~= severity_word(Severity::Error));
    assert("warning"@ =~= severity_word(Severity::Warning));
    assert("strip"@[0] != "dedup"@[0]);
}

/// The text holds neither brace.
pub open spec fn is_unbraced(text: Seq<char>) -> bool {
    !text.contains('{') && !text.contains('}')
}

/// A name between braces.
pub open spec fn braced(name: Seq<char>) -> Seq<char> {
    seq!['{'] + name + seq!['}']
}

proof fn lemma_braced(name: Seq<char>)
    ensures
        placeholder(name) == braced(name),
        "{exit_code}"@ == braced("exit_code"@),
        "{lines}"@ == braced("lines"@),
        is_unbraced("exit_code"@),
        is_unbraced("lines"@),
{
    reveal_strlit("{");
    reveal_strlit("}");
    reveal_strlit("{exit_code}");
    reveal_strlit("exit_code");
    reveal_strlit("{lines}");
    reveal_strlit("lines");
    assert("{"@ =~= seq!['{']);
    assert("}"@ =~= seq!['}']);
    assert("{exit_code}"@ =~= braced("exit_code"@));
    assert("{lines}"@ =~= braced("lines"@));
}

proof fn lemma_nothing_to_fill(text: Seq<char>, key: Seq<char>, to: Seq<char>)
    requires
        !text.contains('{'),
    ensures
        text::replace(text, braced(key), to) == text,
{
    let from = braced(key);
    assert forall|j: int|
        0 <= j < text.len() && j + from.len() <= text.len() implies #[trigger] text.subrange(
        j,
        j + from.len(),
    ) != from by {
        assert(from[0] == '{');
        assert(text.subrange(j, j + from.len())[0] == text[j]);
    }
    text::law_replacing_starts_with_the_first(text, from, to, text.len() as int);
}

proof fn lemma_fill_one(
    a: Seq<char>,
    name: Seq<char>,
    b: Seq<char>,
    key: Seq<char>,
    to: Seq<char>,
)
    requires
        is_unbraced(a),
        is_unbraced(b),
        is_unbraced(name),
        !key.contains('}'),
    ensures
        text::replace(a + braced(name) + b, braced(key), to) == (if key == name {
            a + to + b
        } else {
            a + braced(name) + b
        }),
{
    let text = a + braced(name) + b;
    let from = braced(key);
    let n = from.len() as int;
    let at = a.len() as int;
    assert(text[at] == '{');
    assert forall|j: int| 0 <= j < text.len() && j != at implies text[j] != '{' by {
        if j < at {
            assert(text[j] == a[j]);
        } else if j < at + 1 + name.len() {
            assert(text[j] == name[j - at - 1]);
        } else if j > at + 1 + name.len() {
            assert(text[j] == b[j - at - name.len() - 2]);
        }
    }
    assert forall|j: int|
        0 <= j < text.len() && j != at && j + n <= text.len() implies #[trigger] text.subrange(
        j,
        j + n,
    ) != from by {
        assert(from[0] == '{');
        assert(text.subrange(j, j + n)[0] == text[j]);
    }
    if key == name {
        assert(text.subrange(at, at + n) =~= from);
        text::law_replacing_starts_with_the_first(text, from, to, at);
        assert(text.take(at) =~= a);
        assert(text.skip(at + n) =~= b);
        lemma_nothing_to_fill(b, key, to);
    } else {
        if at + n <= text.len() && text.subrange(at, at + n) == from {
            let found = text.subrange(at, at + n);
            if key.len() == name.len() {
                assert forall|i: int| 0 <= i < key.len() implies key[i] == name[i] by {
                    assert(found[i + 1] == text[at + i + 1]);
                    assert(from[i + 1] == key[i]);
                }
                assert(key =~= name);
            } else if key.len() < name.len() {
                let k = key.len() as int;
                assert(found[k + 1] == text[at + k + 1]);
                assert(from[k + 1] == '}');
                assert(name[k] == '}');
                assert(name.contains('}'));
            } else {
                let k = name.len() as int;
                assert(found[k + 1] == text[at + k + 1]);
                assert(from[k + 1] == key[k]);
                assert(text[at + k + 1] == '}');
                assert(key.contains('}'));
            }
            assert(false);
        }
        text::law_replacing_starts_with_the_first(text, from, to, text.len() as int);
    }
}

proof fn lemma_substituted_plain(text: Seq<char>, vars: Seq<(Seq<char>, Seq<char>)>)
    requires
        !text.contains('{'),
    ensures
        substituted(text, vars) == text,
    decreases vars.len(),
{
    if vars.len() > 0 {
        lemma_substituted_plain(text, vars.drop_last());
        lemma_braced(vars.last().0);
        lemma_nothing_to_fill(text, vars.last().0, vars.last().1);
    }
}

proof fn lemma_substituted_one(
    a: Seq<char>,
    name: Seq<char>,
    b: Seq<char>,
    vars: Seq<(Seq<char>, Seq<char>)>,
)
    requires
        is_unbraced(a),
        is_unbraced(b),
        is_unbraced(name),
        forall|i: int| 0 <= i < vars.len() ==> !(#[trigger] vars[i]).0.contains('}'),
        strmap::lookup(vars, name) matches Some(value) ==> !value.contains('{'),
    ensures
        substituted(a + braced(name) + b, vars) == (match strmap::lookup(vars, name) {
            Some(value) => a + value + b,
            None => a + braced(name) + b,
        }),
    decreases vars.len(),
{
    strmap::lemma_position_is_first(vars, name);
    let at = strmap::position(vars, name) as int;
    if vars.len() > 0 {
        let fewer = vars.drop_last();
        let (key, value) = vars.last();
        assert(vars[vars.len() - 1] == vars.last());
        assert forall|i: int| 0 <= i < fewer.len() implies !(#[trigger] fewer[i]).0.contains(
            '}',
        ) by {
            assert(fewer[i] == vars[i]);
        }
        lemma_braced(key);
        if at < fewer.len() {
            assert forall|j: int| 0 <= j < at implies (#[trigger] fewer[j]).0 != name by {
                assert(fewer[j] == vars[j]);
            }
            assert(fewer[at] == vars[at]);
            strmap::lemma_position(fewer, name, at as nat);
            lemma_substituted_one(a, name, b, fewer);
            let filled = a + vars[at].1 + b;
            assert(!filled.contains('{')) by {
                if filled.contains('{') {
                    let j = choose|j: int| 0 <= j < filled.len() && filled[j] == '{';
                    let (p, q) = (a.len() as int, vars[at].1.len() as int);
                    if j < p {
                        assert(a[j] == '{');
                    } else if j < p + q {
                        assert(vars[at].1[j - p] == '{');
                    } else {
                        assert(b[j - p - q] == '{');
                    }
                }
            }
            lemma_nothing_to_fill(filled, key, value);
        } else {
            assert forall|j: int| 0 <= j < fewer.len() implies (#[trigger] fewer[j]).0
                != name by {
                assert(fewer[j] == vars[j]);
            }
            strmap::lemma_position(fewer, name, fewer.len());
            lemma_substituted_one(a, name, b, fewer);
            lemma_fill_one(a, name, b, key, value);
        }
    }
}

/// The template for success serves exit code zero and that for failure all others; of
/// an action where there is one, and else of the fallback. A template without
/// placeholders is told as it is, and an empty one is not told.
pub proof fn law_template_goes_by_the_exit_code(
    grammar: GrammarView,
    action: Option<ActionView>,
    outcomes: Seq<Seq<(Seq<char>, Seq<char>)>>,
    exit_code: int,
    lines: nat,
    template: SummaryTemplateView,
)
    requires
        action is Some ==> template == action->0.summary,
        action is None ==> grammar.fallback is Some && template == grammar.fallback->0.summary,
        is_unbraced(template.success),
        is_unbraced(template.failure),
    ensures
        ({
            let text = if exit_code == 0 {
                template.success
            } else {
                template.failure
            };
            summary_text(grammar, action, outcomes, exit_code, lines) == (if text.len() == 0 {
                Seq::empty()
            } else {
                seq![text]
            })
        }),
{
    let text = if exit_code == 0 {
        template.success
    } else {
        template.failure
    };
    lemma_braced(text);
    lemma_nothing_to_fill(text, "exit_code"@, text::dec_int(exit_code));
    lemma_nothing_to_fill(text, "lines"@, text::dec(lines));
    lemma_substituted_plain(text, combined(outcomes));
}

/// A placeholder in a template gives way to its value: the exit code, what an outcome
/// caught under the name, or else the number of lines. One without a value stays.
pub proof fn law_placeholders_are_filled(
    grammar: GrammarView,
    action: ActionView,
    outcomes: Seq<Seq<(Seq<char>, Seq<char>)>>,
    exit_code: int,
    lines: nat,
    before: Seq<char>,
    name: Seq<char>,
    behind: Seq<char>,
)
    requires
        is_unbraced(before),
        is_unbraced(name),
        is_unbraced(behind),
        exit_code == 0 ==> action.summary.success == before + braced(name) + behind,
        exit_code != 0 ==> action.summary.failure == before + braced(name) + behind,
        forall|i: int|
            0 <= i < combined(outcomes).len() ==> !(#[trigger] combined(outcomes)[i]).0.contains(
                '}',
            ),
        strmap::lookup(combined(outcomes), name) matches Some(value) ==> !value.contains('{'),
    ensures
        summary_text(grammar, Some(action), outcomes, exit_code, lines) == seq![
            if name == "exit_code"@ {
                before + text::dec_int(exit_code) + behind
            } else if strmap::lookup(combined(outcomes), name) is Some {
                before + strmap::lookup(combined(outcomes), name)->0 + behind
            } else if name == "lines"@ {
                before + text::dec(lines) + behind
            } else {
                before + braced(name) + behind
            },
        ],
{
    let template = before + braced(name) + behind;
    let vars = combined(outcomes);
    lemma_braced(name);
    lemma_fill_one(before, name, behind, "exit_code"@, text::dec_int(exit_code));
    lemma_fill_one(before, name, behind, "lines"@, text::dec(lines));
    lemma_substituted_one(before, name, behind, vars);
    text::lemma_numbers_hold_no_braces(exit_code);
    text::lemma_numbers_hold_no_braces(lines as int);
    lemma_no_brace_between(before, text::dec_int(exit_code), behind);
    lemma_no_brace_between(before, text::dec(lines), behind);
    let coded = before + text::dec_int(exit_code) + behind;
    let counted = before + text::dec(lines) + behind;
    lemma_nothing_to_fill(coded, "lines"@, text::dec(lines));
    lemma_substituted_plain(coded, vars);
    lemma_substituted_plain(counted, vars);
    if name == "exit_code"@ {
        reveal_strlit("exit_code");
        reveal_strlit("lines");
        assert("exit_code"@.len() != "lines"@.len());
    }
}

proof fn lemma_no_brace_between(a: Seq<char>, value: Seq<char>, b: Seq<char>)
    requires
        !a.contains('{'),
        !b.contains('{'),
        !value.contains('{'),
    ensures
        !(a + value + b).contains('{'),
{
    let all = a + value + b;
    if all.contains('{') {
        let j = choose|j: int| 0 <= j < all.len() && all[j] == '{';
        let (p, q) = (a.len() as int, value.len() as int);
        if j < p {
            assert(a[j] == '{');
        } else if j < p + q {
            assert(value[j - p] == '{');
        } else {
            assert(b[j - p - q] == '{');
        }
    }
}

/// A grammar inherits the rules under each of its names, one name after the other, and
/// under a name that is not shared nothing.
pub proof fn law_each_name_is_inherited(
    first: Seq<Seq<char>>,
    name: Seq<char>,
    second: Seq<Seq<char>>,
    shared: Seq<(Seq<char>, Vec<Rule>)>,
)
    ensures
        inherited(first.push(name) + second, shared) == inherited(first, shared) + (
        match strmap::lookup(shared, name) {
            Some(rules) => rule_views(rules@),
            None => Seq::empty(),
        }) + inherited(second, shared),
    decreases second.len(),
{
    let names = first.push(name) + second;
    if second.len() == 0 {
        assert(names.drop_last() =~= first);
        assert(names.last() == name);
        assert(inherited(second, shared) =~= Seq::empty());
        assert(inherited(names, shared) =~= inherited(first, shared) + (match strmap::lookup(
            shared,
            name,
        ) {
            Some(rules) => rule_views(rules@),
            None => Seq::empty(),
        }) + inherited(second, shared));
    } else {
        law_each_name_is_inherited(first, name, second.drop_last(), shared);
        assert(names.drop_last() =~= first.push(name) + second.drop_last());
        assert(names.last() == second.last());
        assert(inherited(names, shared) =~= inherited(first, shared) + (match strmap::lookup(
            shared,
            name,
        ) {
            Some(rules) => rule_views(rules@),
            None => Seq::empty(),
        }) + inherited(second, shared));
    }
}

/// The six categories have a word each, and a word that is none of them names nothing.
pub proof fn law_categories_have_a_word_each(word: Seq<char>, c: Category)
    ensures
        category_named(word) == Some(c) <==> word == (match c {
            Category::Condense => "condense"@,
            Category::Narrate => "narrate"@,
            Category::Passthrough => "passthrough"@,
            Category::Structured => "structured"@,
            Category::Interactive => "interactive"@,
            Category::Dangerous => "dangerous"@,
        }),
        category_named(crate::category::category_name(c)) == Some(c),
{
    reveal_strlit("condense");
    reveal_strlit("narrate");
    reveal_strlit("passthrough");
    reveal_strlit("structured");
    reveal_strlit("interactive");
    reveal_strlit("dangerous");
    assert("condense"@.len() == 8 && "narrate"@.len() == 7 && "structured"@.len() == 10);
    assert("passthrough"@.len() == 11 && "interactive"@.len() == 11 && "dangerous"@.len() == 9);
    assert("passthrough"@[0] == 'p' && "interactive"@[0] == 'i');
}

/// What a rule is read from: its pattern compiles, and its words are known.
pub open spec fn is_readable(raw: RawRule) -> bool {
    &&& outside::compiled(raw.pattern@) is Ok
    &&& raw.action@ == "strip"@ || raw.action@ == "dedup"@ || raw.action@ == "keep"@
        || raw.action@ == "promote"@
    &&& raw.severity is None || raw.severity->0@ == "error"@ || raw.severity->0@ == "warning"@
}

/// A list of rules is read where each of them can be, one rule from each in their
/// order, with its own pattern, action, severity, groups and number of lines.
pub proof fn law_rules_are_read_one_by_one(raws: Seq<RawRule>)
    ensures
        rules_of(raws) is Ok <==> forall|i: int|
            0 <= i < raws.len() ==> is_readable(#[trigger] raws[i]),
        rules_of(raws) matches Ok(rules) ==> {
            &&& rules.len() == raws.len()
            &&& forall|i: int|
                0 <= i < rules.len() ==> {
                    &&& outside::compiled(raws[i].pattern@) == Ok::<Regex, regex::Error>(
                        (#[trigger] rules[i]).pattern,
                    )
                    &&& action_named(raws[i].action@) == Some(rules[i].action)
                    &&& rules[i].severity == (match raws[i].severity {
                        Some(word) => severity_named(word@),
                        None => None,
                    })
                    &&& rules[i].captures == list_or_empty(raws[i].captures)
                    &&& rules[i].multiline == raws[i].multiline
                }
        },
    decreases raws.len(),
{
    if raws.len() > 0 {
        let fewer = raws.drop_last();
        law_rules_are_read_one_by_one(fewer);
        let last = raws[raws.len() - 1];
        assert(rule_of(last) is Ok <==> is_readable(last));
        if rules_of(raws) is Ok {
            assert forall|i: int| 0 <= i < raws.len() implies is_readable(#[trigger] raws[i]) by {
                if i < fewer.len() {
                    assert(fewer[i] == raws[i]);
                }
            }
            let rules = rules_of(raws)->Ok_0;
            let before = rules_of(fewer)->Ok_0;
            assert forall|i: int| 0 <= i < rules.len() implies {
                &&& outside::compiled(raws[i].pattern@) == Ok::<Regex, regex::Error>(
                    (#[trigger] rules[i]).pattern,
                )
                &&& action_named(raws[i].action@) == Some(rules[i].action)
                &&& rules[i].severity == (match raws[i].severity {
                    Some(word) => severity_named(word@),
                    None => None,
                })
                &&& rules[i].captures == list_or_empty(raws[i].captures)
                &&& rules[i].multiline == raws[i].multiline
            } by {
                if i < fewer.len() {
                    assert(fewer[i] == raws[i]);
                    assert(before[i] == rules[i]);
                }
            }
        }
        if forall|i: int| 0 <= i < raws.len() ==> is_readable(#[trigger] raws[i]) {
            assert forall|i: int| 0 <= i < fewer.len() implies is_readable(#[trigger] fewer[i]) by {
                assert(fewer[i] == raws[i]);
            }
        }
    }
}

/// The first rule that cannot be read is the one that is told: its pattern, where that
/// does not compile, else its action, else its severity.
pub proof fn law_first_unreadable_rule_is_told(raws: Seq<RawRule>, k: int)
    requires
        0 <= k < raws.len(),
        !is_readable(raws[k]),
        forall|i: int| 0 <= i < k ==> is_readable(#[trigger] raws[i]),
    ensures
        ({
            let raw = raws[k];
            let known = raw.action@ == "strip"@ || raw.action@ == "dedup"@ || raw.action@
                == "keep"@ || raw.action@ == "promote"@;
            rules_of(raws) == Err::<Seq<RuleView>, Issue>(
                match outside::compiled(raw.pattern@) {
                    Err(source) => Issue::Pattern { pattern: raw.pattern@, source },
                    Ok(_) => if known {
                        Issue::Severity(raw.severity->0@)
                    } else {
                        Issue::Action(raw.action@)
                    },
                },
            )
        }),
    decreases raws.len(),
{
    let fewer = raws.drop_last();
    if k < fewer.len() {
        assert(fewer[k] == raws[k]);
        assert forall|i: int| 0 <= i < k implies is_readable(#[trigger] fewer[i]) by {
            assert(fewer[i] == raws[i]);
        }
        law_first_unreadable_rule_is_told(fewer, k);
    } else {
        assert forall|i: int| 0 <= i < fewer.len() implies is_readable(#[trigger] fewer[i]) by {
            assert(fewer[i] == raws[i]);
        }
        law_rules_are_read_one_by_one(fewer);
    }
}

/// What a grammar says itself comes before what its tool says; without either it is for
/// the command of the tool's name, of no category, and inherits nothing.
pub proof fn law_own_words_come_before_the_tools(raw: RawGrammar, list: Vec<String>, word: String)
    ensures
        raw.detect == Some(list) ==> raw_detect(raw) == text::views(list@),
        raw.detect is None && raw.tool.detect == Some(list) ==> raw_detect(raw) == text::views(
            list@,
        ),
        raw.detect is None && raw.tool.detect is None ==> raw_detect(raw) == seq![raw.tool.name@],
        raw.inherit == Some(list) ==> raw_inherit(raw) == text::views(list@),
        raw.inherit is None && raw.tool.inherit == Some(list) ==> raw_inherit(raw) == text::views(
            list@,
        ),
        raw.inherit is None && raw.tool.inherit is None ==> raw_inherit(raw).len() == 0,
        raw.category == Some(word) ==> raw_category(raw) == Some(word@),
        raw.category is None && raw.tool.category == Some(word) ==> raw_category(raw) == Some(
            word@,
        ),
        raw.category is None && raw.tool.category is None ==> raw_category(raw) is None,
{
}

/// A block ends at a blank line where its rule does not say at what else, and what it
/// extracts may reach over the ends of lines.
pub proof fn law_blocks_end_at_a_blank_line(raw: RawBlockRule)
    ensures
        ({
            let end = match raw.end {
                Some(end) => end@,
                None => seq!['^', '\\', 's', '*', '$'],
            };
            let extract = seq!['(', '?', 's', ')'] + raw.extract@;
            let readable = outside::compiled(raw.start@) is Ok && outside::compiled(end) is Ok
                && outside::compiled(extract) is Ok;
            &&& block_of(raw) is Ok <==> readable
            &&& readable ==> block_of(raw) == Ok::<BlockRuleView, Issue>(
                BlockRuleView {
                    start: outside::compiled(raw.start@)->Ok_0,
                    end: outside::compiled(end)->Ok_0,
                    extract: outside::compiled(extract)->Ok_0,
                    digest: raw.digest@,
                },
            )
        }),
{
    reveal_strlit(r"^\s*$");
    reveal_strlit("(?s)");
    assert(r"^\s*$"@ =~= seq!['^', '\\', 's', '*', '$']);
    assert("(?s)"@ =~= seq!['(', '?', 's', ')']);
}

/// An action is read where its three lists of rules and its category are, and each part
/// comes from the part of the same name.
pub proof fn law_actions_are_read_part_by_part(raw: RawAction)
    ensures
        action_of(raw) is Ok <==> rules_of(raw.noise@) is Ok && rules_of(raw.hazard@) is Ok
            && rules_of(raw.outcome@) is Ok && (raw.category is None || category_named(
            raw.category->0@,
        ) is Some),
        action_of(raw) matches Ok(action) ==> {
            &&& action.detect == list_or_empty(raw.detect)
            &&& action.noise == rules_of(raw.noise@)->Ok_0
            &&& action.hazard == rules_of(raw.hazard@)->Ok_0
            &&& action.outcome == rules_of(raw.outcome@)->Ok_0
            &&& raw.category is None ==> action.category is None
            &&& raw.category is Some ==> action.category == category_named(raw.category->0@)
            &&& raw.summary is Some ==> action.summary.success == text_or_empty(
                raw.summary->0.success,
            ) && action.summary.failure == text_or_empty(raw.summary->0.failure)
                && action.summary.partial == text_or_empty(raw.summary->0.partial)
            &&& raw.summary is None ==> action.summary.success.len() == 0
                && action.summary.failure.len() == 0 && action.summary.partial.len() == 0
        },
{
}

/// What is read of a grammar comes from its parts, and what it inherits stands behind
/// its own rules.
pub proof fn law_grammars_are_read_part_by_part(
    raw: RawGrammar,
    shared: Seq<(Seq<char>, Vec<Rule>)>,
)
    ensures
        grammar_of(raw) matches Ok(grammar) ==> {
            &&& grammar.name == raw.tool.name@
            &&& grammar.detect == raw_detect(raw)
            &&& grammar.inherit == raw_inherit(raw)
            &&& grammar.global_noise == rules_of(raw.global_noise@)->Ok_0
            &&& grammar.actions == actions_of(raw.actions@)->Ok_0
            &&& grammar.block == blocks_of(raw.block@)->Ok_0
            &&& raw.fallback is None ==> grammar.fallback is None
            &&& raw.fallback is Some ==> grammar.fallback == Some(action_of(raw.fallback->0)->Ok_0)
            &&& with_inherited(grammar, shared).global_noise == grammar.global_noise + inherited(
                raw_inherit(raw),
                shared,
            )
            &&& with_inherited(grammar, shared).actions == grammar.actions
        },
        grammar_of(raw) is Ok <==> (raw_category(raw) is None || category_named(
            raw_category(raw)->0,
        ) is Some) && rules_of(raw.global_noise@) is Ok && actions_of(raw.actions@) is Ok && (
        raw.fallback is None || action_of(raw.fallback->0) is Ok) && blocks_of(raw.block@) is Ok,
{
}

/// Every action keeps its name and its place.
pub proof fn law_actions_keep_their_names(raws: Seq<(Seq<char>, RawAction)>)
    ensures
        actions_of(raws) is Ok <==> forall|i: int|
            0 <= i < raws.len() ==> action_of((#[trigger] raws[i]).1) is Ok,
        actions_of(raws) matches Ok(actions) ==> actions.len() == raws.len() && forall|i: int|
            0 <= i < raws.len() ==> (#[trigger] actions[i]).0 == raws[i].0 && action_of(raws[i].1)
                == Ok::<ActionView, Issue>(actions[i].1),
    decreases raws.len(),
{
    if raws.len() > 0 {
        let fewer = raws.drop_last();
        law_actions_keep_their_names(fewer);
        assert(raws.last() == raws[raws.len() - 1]);
        if actions_of(raws) is Ok {
            assert forall|i: int| 0 <= i < raws.len() implies action_of(
                (#[trigger] raws[i]).1,
            ) is Ok by {
                if i < fewer.len() {
                    assert(fewer[i] == raws[i]);
                }
            }
            let actions = actions_of(raws)->Ok_0;
            let before = actions_of(fewer)->Ok_0;
            assert forall|i: int| 0 <= i < raws.len() implies (#[trigger] actions[i]).0
                == raws[i].0 && action_of(raws[i].1) == Ok::<ActionView, Issue>(actions[i].1) by {
                if i < fewer.len() {
                    assert(fewer[i] == raws[i]);
                    assert(before[i] == actions[i]);
                }
            }
        }
        if forall|i: int| 0 <= i < raws.len() ==> action_of((#[trigger] raws[i]).1) is Ok {
            assert forall|i: int| 0 <= i < fewer.len() implies action_of(
                (#[trigger] fewer[i]).1,
            ) is Ok by {
                assert(fewer[i] == raws[i]);
            }
        }
    }
}

/// The groups that took part in a match are found under their names, and the others are
/// not.
pub proof fn law_groups_are_found_by_name(
    pattern: Regex,
    line: Seq<char>,
    names: Seq<Seq<char>>,
    name: Seq<char>,
)
    ensures
        strmap::lookup(caught(pattern, line, names), name) == (if names.contains(name) {
            outside::named_group(pattern, line, name)
        } else {
            None
        }),
    decreases names.len(),
{
    if names.len() == 0 {
        strmap::law_first_pair_decides(caught(pattern, line, names), name, 0);
    } else {
        let fewer = names.drop_last();
        law_groups_are_found_by_name(pattern, line, fewer, name);
        let last = names[names.len() - 1];
        assert(names.contains(name) <==> fewer.contains(name) || last == name) by {
            if fewer.contains(name) {
                let i = choose|i: int| 0 <= i < fewer.len() && fewer[i] == name;
                assert(names[i] == name);
            }
            if names.contains(name) && last != name {
                let i = choose|i: int| 0 <= i < names.len() && names[i] == name;
                assert(fewer[i] == name);
            }
        }
        match outside::named_group(pattern, line, last) {
            Some(group) => {
                strmap::law_get_after_put(caught(pattern, line, fewer), last, group, name);
            },
            None => {},
        }
    }
}

/// Hazards come before outcomes, outcomes before noise, and the action's noise before
/// the grammar's; what the rule of the first match says is told.
pub proof fn law_hazards_come_before_outcomes(
    grammar: GrammarView,
    action: ActionView,
    line: Seq<char>,
)
    ensures
        ({
            let told = evaluated(grammar, Some(action), line);
            let hazard = first_rule(action.hazard, line);
            let outcome = first_rule(action.outcome, line);
            let own = first_rule(action.noise, line);
            let global = first_rule(grammar.global_noise, line);
            &&& told is Hazard <==> hazard is Some
            &&& told is Outcome <==> hazard is None && outcome is Some
            &&& told is Noise <==> hazard is None && outcome is None && (own is Some
                || global is Some)
            &&& told is Hazard ==> told->Hazard_severity == hazard->0.severity
                && told->Hazard_multiline == hazard->0.multiline && told->Hazard_action
                == hazard->0.action
            &&& told is Noise && own is Some ==> told->Noise_action == own->0.action
                && told->Noise_multiline == own->0.multiline
            &&& told is Noise && own is None ==> told->Noise_action == global->0.action
                && told->Noise_multiline == global->0.multiline
        }),
        evaluated(grammar, None, line) is Noise <==> first_rule(grammar.global_noise, line) is Some,
        evaluated(grammar, None, line) is NoMatch <==> first_rule(
            grammar.global_noise,
            line,
        ) is None,
{
    law_earlier_rules_win(action.noise, grammar.global_noise, line);
}

} // verus!
