//! How command results are shown: for people, as JSON, behind the raw output, or
//! on one line.
use vstd::prelude::*;

use crate::json;
use crate::json::{push_field, texts_value};
use crate::outside;
use crate::outside::{
    array_value, integer_value, natural_value, object_value, pretty_json, string_value,
};
use crate::strmap;
use crate::text;
use crate::text::{concat2, concat3, dec_i64, dec_u64, join_strings, lines_of, list_has};

verus! {

/// How results are shown.
#[derive(Debug, Clone, Copy, PartialEq, Eq, Structural)]
pub enum OutputMode {
    /// Status symbols and the body.
    Human,
    /// A JSON object.
    Json,
    /// The raw output with a summary behind it.
    Passthrough,
    /// A single line.
    Context,
}

impl Default for OutputMode {
    fn default() -> (r: Self)
        ensures
            r == OutputMode::Human,
    {
        OutputMode::Human
    }
}

/// A hazard or warning from a command's output.
#[derive(Debug, Clone)]
pub struct HazardEntry {
    pub severity: String,
    pub text: String,
}

/// A diagnostic line from the analysis of a failure.
#[derive(Debug, Clone)]
pub struct EnrichmentLine {
    pub kind: String,
    pub message: String,
}

/// A flag that could be added the next time.
#[derive(Debug, Clone)]
pub struct RecommendationEntry {
    pub flag: String,
    pub reason: String,
}

/// How long a command took, in the notations that the modes show.
#[derive(Debug, Clone)]
pub struct Elapsed {
    /// The short notation of the header, such as `12.3s`.
    pub compact: String,
    /// The number of seconds, such as `12.3`.
    pub seconds: String,
    /// The number of seconds as JSON.
    pub json: serde_json::Value,
}

/// A command result ready to be shown.
#[derive(Debug, Clone)]
pub struct FormatInput {
    pub command: String,
    pub exit_code: i32,
    pub category: String,
    pub body: String,
    pub raw_output: Option<String>,
    pub total_lines: Option<u64>,
    pub elapsed: Option<Elapsed>,
    pub outcomes: Vec<String>,
    pub hazards: Vec<HazardEntry>,
    pub enrichment: Vec<EnrichmentLine>,
    pub recommendations: Vec<RecommendationEntry>,
}

// ---------------------------------------------------------------------------
// Status symbols
// ---------------------------------------------------------------------------

/// The symbol of a category and an exit code: `+` success, `!` error, `→`
/// narration, `⚠` danger.
pub open spec fn symbol(category: Seq<char>, exit_code: int) -> Seq<char> {
    if category == "dangerous"@ {
        "\u{26a0}"@
    } else if category == "interactive"@ {
        "\u{2192}"@
    } else if exit_code != 0 {
        "!"@
    } else if category == "narrate"@ || category == "structured"@ {
        "\u{2192}"@
    } else {
        "+"@
    }
}

pub fn status_symbol(category: &str, exit_code: i32) -> (r: &'static str)
    ensures
        r@ == symbol(category@, exit_code as int),
{
    if text::same(category, "dangerous") {
        "\u{26a0}"
    } else if text::same(category, "interactive") {
        "\u{2192}"
    } else if exit_code != 0 {
        "!"
    } else if text::same(category, "narrate") || text::same(category, "structured") {
        "\u{2192}"
    } else {
        "+"
    }
}

/// The mark before a hazard.
pub open spec fn hazard_mark(severity: Seq<char>) -> Seq<char> {
    if severity == "error"@ {
        "!"@
    } else {
        "~"@
    }
}

fn mark_of(hazard: &HazardEntry) -> (r: &'static str)
    ensures
        r@ == hazard_mark(hazard.severity@),
{
    if text::same(hazard.severity.as_str(), "error") {
        "!"
    } else {
        "~"
    }
}

// ---------------------------------------------------------------------------
// Lines
// ---------------------------------------------------------------------------

/// The outcomes, each behind a `+`.
pub open spec fn outcome_lines(outcomes: Seq<String>) -> Seq<Seq<char>> {
    Seq::new(outcomes.len(), |i: int| "+ "@ + outcomes[i]@)
}

/// The hazards, each behind its mark and after `indent`.
pub open spec fn hazard_lines(hazards: Seq<HazardEntry>, indent: Seq<char>) -> Seq<Seq<char>> {
    Seq::new(
        hazards.len(),
        |i: int| indent + hazard_mark(hazards[i].severity@) + (" "@ + hazards[i].text@),
    )
}

/// The diagnostic lines, each behind a `~`.
pub open spec fn enrichment_lines(enrichment: Seq<EnrichmentLine>) -> Seq<Seq<char>> {
    Seq::new(
        enrichment.len(),
        |i: int| "~ "@ + enrichment[i].kind@ + (" "@ + enrichment[i].message@),
    )
}

/// The recommendations, each after `lead`; none after a failure.
pub open spec fn recommendation_lines(
    recommendations: Seq<RecommendationEntry>,
    exit_code: int,
    lead: Seq<char>,
) -> Seq<Seq<char>> {
    if exit_code != 0 {
        Seq::empty()
    } else {
        Seq::new(
            recommendations.len(),
            |i: int|
                lead + recommendations[i].flag@ + (" ("@ + recommendations[i].reason@ + ")"@),
        )
    }
}

fn push_outcomes(lines: &mut Vec<String>, outcomes: &[String])
    ensures
        text::views(final(lines)@) == text::views(old(lines)@) + outcome_lines(outcomes@),
{
    let ghost start = text::views(lines@);
    let mut i: usize = 0;
    while i < outcomes.len()
        invariant
            i <= outcomes@.len(),
            text::views(lines@) =~= start + outcome_lines(outcomes@).take(i as int),
        decreases outcomes.len() - i,
    {
        let ghost before = lines@;
        let line = concat2("+ ", outcomes[i].as_str());
        lines.push(line);
        assert(text::views(lines@) =~= text::views(before).push(line@));
        i += 1;
    }
    assert(outcome_lines(outcomes@).take(i as int) =~= outcome_lines(outcomes@));
}

fn push_hazards(lines: &mut Vec<String>, hazards: &[HazardEntry], indent: &str)
    ensures
        text::views(final(lines)@) == text::views(old(lines)@) + hazard_lines(hazards@, indent@),
{
    let ghost start = text::views(lines@);
    let mut i: usize = 0;
    while i < hazards.len()
        invariant
            i <= hazards@.len(),
            text::views(lines@) =~= start + hazard_lines(hazards@, indent@).take(i as int),
        decreases hazards.len() - i,
    {
        let ghost before = lines@;
        let told = concat2(" ", hazards[i].text.as_str());
        let line = concat3(indent, mark_of(&hazards[i]), told.as_str());
        lines.push(line);
        assert(text::views(lines@) =~= text::views(before).push(line@));
        i += 1;
    }
    assert(hazard_lines(hazards@, indent@).take(i as int) =~= hazard_lines(hazards@, indent@));
}

fn push_enrichment(lines: &mut Vec<String>, enrichment: &[EnrichmentLine])
    ensures
        text::views(final(lines)@) == text::views(old(lines)@) + enrichment_lines(enrichment@),
{
    let ghost start = text::views(lines@);
    let mut i: usize = 0;
    while i < enrichment.len()
        invariant
            i <= enrichment@.len(),
            text::views(lines@) =~= start + enrichment_lines(enrichment@).take(i as int),
        decreases enrichment.len() - i,
    {
        let ghost before = lines@;
        let told = concat2(" ", enrichment[i].message.as_str());
        let line = concat3("~ ", enrichment[i].kind.as_str(), told.as_str());
        lines.push(line);
        assert(text::views(lines@) =~= text::views(before).push(line@));
        i += 1;
    }
    assert(enrichment_lines(enrichment@).take(i as int) =~= enrichment_lines(enrichment@));
}

fn push_recommendations(
    lines: &mut Vec<String>,
    recommendations: &[RecommendationEntry],
    exit_code: i32,
    lead: &str,
)
    ensures
        text::views(final(lines)@) == text::views(old(lines)@) + recommendation_lines(
            recommendations@,
            exit_code as int,
            lead@,
        ),
{
    if exit_code != 0 {
        assert(text::views(lines@) + Seq::<Seq<char>>::empty() =~= text::views(lines@));
        return ;
    }
    let ghost start = text::views(lines@);
    let ghost all = recommendation_lines(recommendations@, exit_code as int, lead@);
    let mut i: usize = 0;
    while i < recommendations.len()
        invariant
            i <= recommendations@.len(),
            exit_code == 0,
            all == recommendation_lines(recommendations@, exit_code as int, lead@),
            text::views(lines@) =~= start + all.take(i as int),
        decreases recommendations.len() - i,
    {
        let ghost before = lines@;
        let told = concat3(" (", recommendations[i].reason.as_str(), ")");
        let line = concat3(lead, recommendations[i].flag.as_str(), told.as_str());
        lines.push(line);
        assert(text::views(lines@) =~= text::views(before).push(line@));
        i += 1;
    }
    assert(all.take(i as int) =~= all);
}

// ---------------------------------------------------------------------------
// For people
// ---------------------------------------------------------------------------

/// The line counts before and after condensing, where they differ.
pub open spec fn ratio_part(total: Option<u64>, shown: nat) -> Seq<Seq<char>> {
    match total {
        Some(total) if total != shown => seq![
            "("@ + text::dec(total as nat) + ("\u{2192}"@ + text::dec(shown) + ")"@),
        ],
        _ => Seq::empty(),
    }
}

/// The short notation of the time taken, where there is one.
pub open spec fn elapsed_part(elapsed: Option<Elapsed>) -> Seq<Seq<char>> {
    match elapsed {
        Some(e) if e.compact@.len() > 0 => seq![e.compact@],
        _ => Seq::empty(),
    }
}

/// The header of a result of which the time or the line count is known.
pub open spec fn header(input: FormatInput) -> Seq<char> {
    let status = symbol(input.category@, input.exit_code as int) + " exit:"@ + text::dec_int(
        input.exit_code as int,
    );
    text::join(
        seq![status] + elapsed_part(input.elapsed) + ratio_part(
            input.total_lines,
            text::lines(input.body@).len(),
        ),
        " "@,
    )
}

/// What stands before the outcomes.
pub open spec fn opening(input: FormatInput) -> Seq<Seq<char>> {
    if input.total_lines is Some || input.elapsed is Some {
        seq![header(input)] + text::lines(input.body@)
    } else if input.category@ == "passthrough"@ {
        seq![input.body@]
    } else {
        seq![symbol(input.category@, input.exit_code as int) + " "@ + input.body@]
    }
}

/// All lines of a result as people see it.
pub open spec fn human_lines(input: FormatInput) -> Seq<Seq<char>> {
    opening(input) + outcome_lines(input.outcomes@) + hazard_lines(input.hazards@, ""@)
        + enrichment_lines(input.enrichment@) + recommendation_lines(
        input.recommendations@,
        input.exit_code as int,
        "\u{2192} prefer: "@,
    )
}

fn header_of(input: &FormatInput, shown: usize) -> (r: String)
    requires
        shown == text::lines(input.body@).len(),
    ensures
        r@ == header(*input),
{
    let code = dec_i64(input.exit_code as i64);
    let symbol = status_symbol(input.category.as_str(), input.exit_code);
    let status = concat3(symbol, " exit:", code.as_str());
    let ghost first = status@;
    let mut parts: Vec<String> = Vec::new();
    parts.push(status);
    assert(text::views(parts@) =~= seq![first]);
    if let Some(elapsed) = &input.elapsed {
        if !elapsed.compact.as_str().is_empty() {
            parts.push(elapsed.compact.clone());
        }
    }
    assert(text::views(parts@) =~= seq![first] + elapsed_part(input.elapsed));
    if let Some(total) = input.total_lines {
        if total != shown as u64 {
            let ghost before = parts@;
            let total_text = dec_u64(total);
            let shown_text = dec_u64(shown as u64);
            let tail = concat3("\u{2192}", shown_text.as_str(), ")");
            let ratio = concat3("(", total_text.as_str(), tail.as_str());
            parts.push(ratio);
            assert(text::views(parts@) =~= text::views(before).push(ratio@));
        }
    }
    assert(text::views(parts@) =~= seq![first] + elapsed_part(input.elapsed) + ratio_part(
        input.total_lines,
        text::lines(input.body@).len(),
    ));
    join_strings(parts.as_slice(), " ")
}

fn format_human(input: &FormatInput) -> (r: String)
    ensures
        r@ == text::join(human_lines(*input), "\n"@),
{
    let mut lines: Vec<String> = Vec::new();
    if input.total_lines.is_some() || input.elapsed.is_some() {
        let mut body = lines_of(input.body.as_str());
        let head = header_of(input, body.len());
        let ghost told = text::views(body@);
        let ghost first = head@;
        lines.push(head);
        let ghost before = lines@;
        let ghost shown = body@;
        lines.append(&mut body);
        assert(lines@ =~= before + shown);
        assert(text::views(lines@) =~= seq![first] + told);
    } else if text::same(input.category.as_str(), "passthrough") {
        lines.push(input.body.clone());
        assert(text::views(lines@) =~= seq![input.body@]);
    } else {
        let symbol = status_symbol(input.category.as_str(), input.exit_code);
        let line = concat3(symbol, " ", input.body.as_str());
        let ghost told = line@;
        lines.push(line);
        assert(text::views(lines@) =~= seq![told]);
    }
    assert(text::views(lines@) == opening(*input));
    push_outcomes(&mut lines, input.outcomes.as_slice());
    push_hazards(&mut lines, input.hazards.as_slice(), "");
    push_enrichment(&mut lines, input.enrichment.as_slice());
    push_recommendations(
        &mut lines,
        input.recommendations.as_slice(),
        input.exit_code,
        "\u{2192} prefer: ",
    );
    join_strings(lines.as_slice(), "\n")
}

// ---------------------------------------------------------------------------
// Behind the raw output
// ---------------------------------------------------------------------------

/// The first line of the summary.
pub open spec fn summary_line(input: FormatInput) -> Seq<char> {
    let lead = symbol(input.category@, input.exit_code as int) + " "@ + input.command@;
    if input.outcomes@.len() > 0 {
        lead + ": "@ + input.outcomes@[0]@
    } else {
        lead + ": exit "@ + text::dec_int(input.exit_code as int)
    }
}

/// The raw output and the summary behind it.
pub open spec fn passthrough_text(input: FormatInput) -> Seq<char> {
    let raw = match input.raw_output {
        Some(raw) => raw@,
        None => input.body@,
    };
    let summary = seq![summary_line(input)] + hazard_lines(input.hazards@, "  "@)
        + recommendation_lines(
        input.recommendations@,
        input.exit_code as int,
        "  ~ next time: consider "@,
    );
    raw + "\n\u{2500}\u{2500} mish summary \u{2500}\u{2500}\n"@ + text::join(summary, "\n"@)
}

fn format_passthrough(input: &FormatInput) -> (r: String)
    ensures
        r@ == passthrough_text(*input),
{
    let symbol = status_symbol(input.category.as_str(), input.exit_code);
    let lead = concat3(symbol, " ", input.command.as_str());
    let line = if input.outcomes.len() > 0 {
        concat3(lead.as_str(), ": ", input.outcomes[0].as_str())
    } else {
        let code = dec_i64(input.exit_code as i64);
        concat3(lead.as_str(), ": exit ", code.as_str())
    };
    let ghost first = line@;
    let mut summary: Vec<String> = Vec::new();
    summary.push(line);
    assert(text::views(summary@) =~= seq![first]);
    push_hazards(&mut summary, input.hazards.as_slice(), "  ");
    push_recommendations(
        &mut summary,
        input.recommendations.as_slice(),
        input.exit_code,
        "  ~ next time: consider ",
    );
    let told = join_strings(summary.as_slice(), "\n");
    let rule = "\n\u{2500}\u{2500} mish summary \u{2500}\u{2500}\n";
    match &input.raw_output {
        Some(raw) => concat3(raw.as_str(), rule, told.as_str()),
        None => concat3(input.body.as_str(), rule, told.as_str()),
    }
}

// ---------------------------------------------------------------------------
// On one line
// ---------------------------------------------------------------------------

/// How often `text` stands in `texts`.
pub open spec fn occurrences(texts: Seq<Seq<char>>, text: Seq<char>) -> nat
    decreases texts.len(),
{
    if texts.len() == 0 {
        0
    } else {
        occurrences(texts.drop_last(), text) + if texts.last() == text {
            1nat
        } else {
            0nat
        }
    }
}

/// The texts without repetition, in the order in which they first stand.
pub open spec fn first_seen(texts: Seq<Seq<char>>) -> Seq<Seq<char>>
    decreases texts.len(),
{
    if texts.len() == 0 {
        Seq::empty()
    } else {
        let before = first_seen(texts.drop_last());
        if before.contains(texts.last()) {
            before
        } else {
            before.push(texts.last())
        }
    }
}

/// The hazards with their marks.
pub open spec fn marked(hazards: Seq<HazardEntry>) -> Seq<Seq<char>> {
    Seq::new(hazards.len(), |i: int| hazard_mark(hazards[i].severity@) + hazards[i].text@)
}

/// A text with the number of its occurrences, where it occurs more than once.
pub open spec fn with_count(text: Seq<char>, n: nat) -> Seq<char> {
    if n > 1 {
        text + "(x"@ + (text::dec(n) + ")"@)
    } else {
        text
    }
}

/// Each text once, with the number of its occurrences.
pub open spec fn counted(texts: Seq<Seq<char>>) -> Seq<Seq<char>> {
    Seq::new(
        first_seen(texts).len(),
        |i: int| with_count(first_seen(texts)[i], occurrences(texts, first_seen(texts)[i])),
    )
}

/// The outcomes after a space.
pub open spec fn outcomes_text(input: FormatInput) -> Seq<char> {
    if input.outcomes@.len() > 0 {
        " "@ + text::join(text::views(input.outcomes@), " "@)
    } else {
        Seq::empty()
    }
}

/// The seconds after a space.
pub open spec fn elapsed_text(input: FormatInput) -> Seq<char> {
    match input.elapsed {
        Some(e) => " "@ + e.seconds@ + "s"@,
        None => Seq::empty(),
    }
}

/// The hazards, each once, after a space.
pub open spec fn hazards_text(input: FormatInput) -> Seq<char> {
    if input.hazards@.len() > 0 {
        " "@ + text::join(counted(marked(input.hazards@)), " "@)
    } else {
        Seq::empty()
    }
}

/// A result on one line.
pub open spec fn context_text(input: FormatInput) -> Seq<char> {
    let status = if input.exit_code == 0 {
        "ok"@
    } else {
        "err"@
    };
    input.command@ + ": "@ + status + outcomes_text(input) + elapsed_text(input) + hazards_text(
        input,
    )
}

fn count_of(texts: &[String], text: &str) -> (n: usize)
    ensures
        n == occurrences(text::views(texts@), text@),
{
    let ghost all = text::views(texts@);
    let mut n: usize = 0;
    let mut i: usize = 0;
    while i < texts.len()
        invariant
            all == text::views(texts@),
            n <= i <= texts@.len(),
            n == occurrences(all.take(i as int), text@),
        decreases texts.len() - i,
    {
        assert(all.take(i + 1).drop_last() =~= all.take(i as int));
        assert(all.take(i + 1).last() == texts@[i as int]@);
        if text::same(texts[i].as_str(), text) {
            n += 1;
        }
        i += 1;
    }
    assert(all.take(i as int) =~= all);
    n
}

fn count_texts(texts: &[String]) -> (r: Vec<String>)
    ensures
        text::views(r@) == counted(text::views(texts@)),
{
    let ghost all = text::views(texts@);
    let mut seen: Vec<String> = Vec::new();
    let mut i: usize = 0;
    assert(text::views(seen@) =~= first_seen(all.take(0)));
    while i < texts.len()
        invariant
            all == text::views(texts@),
            i <= texts@.len(),
            text::views(seen@) == first_seen(all.take(i as int)),
        decreases texts.len() - i,
    {
        assert(all.take(i + 1).drop_last() =~= all.take(i as int));
        assert(all.take(i + 1).last() == texts@[i as int]@);
        if !list_has(seen.as_slice(), texts[i].as_str()) {
            let ghost before = seen@;
            seen.push(texts[i].clone());
            assert(text::views(seen@) =~= text::views(before).push(texts@[i as int]@));
        }
        i += 1;
    }
    assert(all.take(i as int) =~= all);
    let ghost firsts = first_seen(all);
    let mut r: Vec<String> = Vec::new();
    let mut j: usize = 0;
    while j < seen.len()
        invariant
            all == text::views(texts@),
            firsts == first_seen(all),
            text::views(seen@) == firsts,
            j <= seen@.len(),
            text::views(r@) =~= counted(all).take(j as int),
        decreases seen.len() - j,
    {
        assert(text::views(seen@).len() == seen@.len());
        assert(firsts[j as int] == seen@[j as int]@);
        let n = count_of(texts, seen[j].as_str());
        let line = if n > 1 {
            let number = dec_u64(n as u64);
            let tail = concat2(number.as_str(), ")");
            concat3(seen[j].as_str(), "(x", tail.as_str())
        } else {
            seen[j].clone()
        };
        let ghost before = r@;
        r.push(line);
        assert(text::views(r@) =~= text::views(before).push(line@));
        j += 1;
    }
    assert(text::views(seen@).len() == seen@.len());
    assert(counted(all).take(j as int) =~= counted(all));
    r
}

fn marked_hazards(hazards: &[HazardEntry]) -> (r: Vec<String>)
    ensures
        text::views(r@) == marked(hazards@),
{
    let mut r: Vec<String> = Vec::new();
    let mut i: usize = 0;
    while i < hazards.len()
        invariant
            i <= hazards@.len(),
            text::views(r@) =~= marked(hazards@).take(i as int),
        decreases hazards.len() - i,
    {
        let line = concat2(mark_of(&hazards[i]), hazards[i].text.as_str());
        let ghost before = r@;
        r.push(line);
        assert(text::views(r@) =~= text::views(before).push(line@));
        i += 1;
    }
    assert(marked(hazards@).take(i as int) =~= marked(hazards@));
    r
}

fn format_context(input: &FormatInput) -> (r: String)
    ensures
        r@ == context_text(*input),
{
    let status = if input.exit_code == 0 {
        "ok"
    } else {
        "err"
    };
    let mut r = concat3(input.command.as_str(), ": ", status);
    let ghost told = r@;
    if input.outcomes.len() > 0 {
        let joined = join_strings(input.outcomes.as_slice(), " ");
        r.append(" ");
        r.append(joined.as_str());
    }
    assert(r@ =~= told + outcomes_text(*input));
    let ghost told = r@;
    if let Some(e) = &input.elapsed {
        r.append(" ");
        r.append(e.seconds.as_str());
        r.append("s");
    }
    assert(r@ =~= told + elapsed_text(*input));
    let ghost told = r@;
    if input.hazards.len() > 0 {
        let texts = marked_hazards(input.hazards.as_slice());
        let lines = count_texts(texts.as_slice());
        let joined = join_strings(lines.as_slice(), " ");
        r.append(" ");
        r.append(joined.as_str());
    }
    assert(r@ =~= told + hazards_text(*input));
    r
}

// ---------------------------------------------------------------------------
// As JSON
// ---------------------------------------------------------------------------

/// A JSON object with two texts.
pub open spec fn json_pair(
    first: Seq<char>,
    a: Seq<char>,
    second: Seq<char>,
    b: Seq<char>,
) -> serde_json::Value {
    outside::json_object(
        seq![(first, outside::json_string(a)), (second, outside::json_string(b))],
    )
}

pub open spec fn json_hazards(hazards: Seq<HazardEntry>) -> serde_json::Value {
    outside::json_array(
        Seq::new(
            hazards.len(),
            |i: int| json_pair("severity"@, hazards[i].severity@, "text"@, hazards[i].text@),
        ),
    )
}

pub open spec fn json_enrichment(enrichment: Seq<EnrichmentLine>) -> serde_json::Value {
    outside::json_array(
        Seq::new(
            enrichment.len(),
            |i: int| json_pair("kind"@, enrichment[i].kind@, "message"@, enrichment[i].message@),
        ),
    )
}

pub open spec fn json_recommendations(
    recommendations: Seq<RecommendationEntry>,
) -> serde_json::Value {
    outside::json_array(
        Seq::new(
            recommendations.len(),
            |i: int|
                json_pair(
                    "flag"@,
                    recommendations[i].flag@,
                    "reason"@,
                    recommendations[i].reason@,
                ),
        ),
    )
}

/// The fields of a result as JSON. The time, the line count, an empty body and
/// empty lists of diagnostics or recommendations are left out, and so are the
/// recommendations after a failure.
pub open spec fn json_report(input: FormatInput) -> Seq<(Seq<char>, serde_json::Value)> {
    seq![
        ("command"@, outside::json_string(input.command@)),
        ("exit_code"@, outside::json_integer(input.exit_code as i64)),
        ("category"@, outside::json_string(input.category@)),
    ] + json::field_if(
        input.elapsed is Some,
        "elapsed_seconds"@,
        input.elapsed->0.json,
    ) + json::field_if(
        input.total_lines is Some,
        "total_lines"@,
        outside::json_natural(input.total_lines->0),
    ) + json::field_if(input.body@.len() > 0, "body"@, outside::json_string(input.body@)) + seq![
        ("outcomes"@, json::json_texts(input.outcomes@)),
        ("hazards"@, json_hazards(input.hazards@)),
    ] + json::field_if(
        input.enrichment@.len() > 0,
        "enrichment"@,
        json_enrichment(input.enrichment@),
    ) + json::field_if(
        input.exit_code == 0 && input.recommendations@.len() > 0,
        "recommendations"@,
        json_recommendations(input.recommendations@),
    )
}

/// The JSON text of a result.
pub open spec fn json_text(input: FormatInput) -> Seq<char> {
    outside::json_pretty(outside::json_object(json_report(input)))
}

fn pair_value(first: &str, a: &str, second: &str, b: &str) -> (r: serde_json::Value)
    ensures
        r == json_pair(first@, a@, second@, b@),
{
    let mut fields: Vec<(String, serde_json::Value)> = Vec::new();
    fields.push((first.to_owned(), string_value(a)));
    fields.push((second.to_owned(), string_value(b)));
    assert(outside::json_fields(fields@) =~= seq![
        (first@, outside::json_string(a@)),
        (second@, outside::json_string(b@)),
    ]);
    object_value(fields)
}

fn hazards_value(hazards: &[HazardEntry]) -> (r: serde_json::Value)
    ensures
        r == json_hazards(hazards@),
{
    let mut items: Vec<serde_json::Value> = Vec::new();
    let mut i: usize = 0;
    while i < hazards.len()
        invariant
            i <= hazards@.len(),
            items@.len() == i,
            forall|k: int|
                #![trigger items@[k]]
                0 <= k < i ==> items@[k] == json_pair(
                    "severity"@,
                    hazards@[k].severity@,
                    "text"@,
                    hazards@[k].text@,
                ),
        decreases hazards.len() - i,
    {
        items.push(
            pair_value("severity", hazards[i].severity.as_str(), "text", hazards[i].text.as_str()),
        );
        i += 1;
    }
    assert(items@ =~= Seq::new(
        hazards@.len(),
        |i: int| json_pair("severity"@, hazards@[i].severity@, "text"@, hazards@[i].text@),
    ));
    array_value(items)
}

fn enrichment_value(enrichment: &[EnrichmentLine]) -> (r: serde_json::Value)
    ensures
        r == json_enrichment(enrichment@),
{
    let mut items: Vec<serde_json::Value> = Vec::new();
    let mut i: usize = 0;
    while i < enrichment.len()
        invariant
            i <= enrichment@.len(),
            items@.len() == i,
            forall|k: int|
                #![trigger items@[k]]
                0 <= k < i ==> items@[k] == json_pair(
                    "kind"@,
                    enrichment@[k].kind@,
                    "message"@,
                    enrichment@[k].message@,
                ),
        decreases enrichment.len() - i,
    {
        items.push(
            pair_value(
                "kind",
                enrichment[i].kind.as_str(),
                "message",
                enrichment[i].message.as_str(),
            ),
        );
        i += 1;
    }
    assert(items@ =~= Seq::new(
        enrichment@.len(),
        |i: int| json_pair("kind"@, enrichment@[i].kind@, "message"@, enrichment@[i].message@),
    ));
    array_value(items)
}

fn recommendations_value(recommendations: &[RecommendationEntry]) -> (r: serde_json::Value)
    ensures
        r == json_recommendations(recommendations@),
{
    let mut items: Vec<serde_json::Value> = Vec::new();
    let mut i: usize = 0;
    while i < recommendations.len()
        invariant
            i <= recommendations@.len(),
            items@.len() == i,
            forall|k: int|
                #![trigger items@[k]]
                0 <= k < i ==> items@[k] == json_pair(
                    "flag"@,
                    recommendations@[k].flag@,
                    "reason"@,
                    recommendations@[k].reason@,
                ),
        decreases recommendations.len() - i,
    {
        items.push(
            pair_value(
                "flag",
                recommendations[i].flag.as_str(),
                "reason",
                recommendations[i].reason.as_str(),
            ),
        );
        i += 1;
    }
    assert(items@ =~= Seq::new(
        recommendations@.len(),
        |i: int|
            json_pair("flag"@, recommendations@[i].flag@, "reason"@, recommendations@[i].reason@),
    ));
    array_value(items)
}

fn format_json(input: &FormatInput) -> (r: String)
    ensures
        r@ == json_text(*input),
{
    let mut fields: Vec<(String, serde_json::Value)> = Vec::new();
    push_field(&mut fields, "command", string_value(input.command.as_str()));
    push_field(&mut fields, "exit_code", integer_value(input.exit_code as i64));
    push_field(&mut fields, "category", string_value(input.category.as_str()));
    if let Some(elapsed) = &input.elapsed {
        push_field(&mut fields, "elapsed_seconds", elapsed.json.clone());
    }
    if let Some(total) = input.total_lines {
        push_field(&mut fields, "total_lines", natural_value(total));
    }
    if !input.body.as_str().is_empty() {
        push_field(&mut fields, "body", string_value(input.body.as_str()));
    }
    push_field(&mut fields, "outcomes", texts_value(input.outcomes.as_slice()));
    push_field(&mut fields, "hazards", hazards_value(input.hazards.as_slice()));
    if input.enrichment.len() > 0 {
        push_field(&mut fields, "enrichment", enrichment_value(input.enrichment.as_slice()));
    }
    if input.exit_code == 0 && input.recommendations.len() > 0 {
        push_field(
            &mut fields,
            "recommendations",
            recommendations_value(input.recommendations.as_slice()),
        );
    }
    assert(outside::json_fields(fields@) =~= json_report(*input));
    match pretty_json(&object_value(fields)) {
        Some(text) => text,
        None => "{}".to_owned(),
    }
}

// ---------------------------------------------------------------------------
// All modes
// ---------------------------------------------------------------------------

/// A result in the given mode.
pub open spec fn formatted(input: FormatInput, mode: OutputMode) -> Seq<char> {
    match mode {
        OutputMode::Human => text::join(human_lines(input), "\n"@),
        OutputMode::Json => json_text(input),
        OutputMode::Passthrough => passthrough_text(input),
        OutputMode::Context => context_text(input),
    }
}

/// Shows one result.
pub fn format_result(input: &FormatInput, mode: OutputMode) -> (r: String)
    ensures
        r@ == formatted(*input, mode),
{
    match mode {
        OutputMode::Human => format_human(input),
        OutputMode::Json => format_json(input),
        OutputMode::Passthrough => format_passthrough(input),
        OutputMode::Context => format_context(input),
    }
}

/// Shows the results of a compound command, one after the other.
pub fn format_results(inputs: &[FormatInput], mode: OutputMode) -> (r: String)
    ensures
        r@ == text::join(
            Seq::new(inputs@.len(), |i: int| formatted(inputs@[i], mode)),
            "\n"@,
        ),
{
    let ghost all = Seq::new(inputs@.len(), |i: int| formatted(inputs@[i], mode));
    let mut texts: Vec<String> = Vec::new();
    let mut i: usize = 0;
    while i < inputs.len()
        invariant
            i <= inputs@.len(),
            all == Seq::new(inputs@.len(), |k: int| formatted(inputs@[k], mode)),
            text::views(texts@) =~= all.take(i as int),
        decreases inputs.len() - i,
    {
        let shown = format_result(&inputs[i], mode);
        let ghost before = texts@;
        texts.push(shown);
        assert(text::views(texts@) =~= text::views(before).push(shown@));
        i += 1;
    }
    assert(all.take(i as int) =~= all);
    join_strings(texts.as_slice(), "\n")
}

// ---------------------------------------------------------------------------
// Laws
// ---------------------------------------------------------------------------

/// Two results that differ in their recommendations at most.
pub open spec fn same_but_for_advice(a: FormatInput, b: FormatInput) -> bool {
    &&& a.command == b.command
    &&& a.exit_code == b.exit_code
    &&& a.category == b.category
    &&& a.body == b.body
    &&& a.raw_output == b.raw_output
    &&& a.total_lines == b.total_lines
    &&& a.elapsed == b.elapsed
    &&& a.outcomes == b.outcomes
    &&& a.hazards == b.hazards
    &&& a.enrichment == b.enrichment
}

/// After a failure no mode shows recommendations: they make no difference.
pub proof fn law_failures_give_no_advice(a: FormatInput, b: FormatInput, mode: OutputMode)
    requires
        same_but_for_advice(a, b),
        a.exit_code != 0,
    ensures
        formatted(a, mode) == formatted(b, mode),
{
}

/// On one line each text stands once, and every text stands.
pub proof fn law_each_hazard_is_told_once(texts: Seq<Seq<char>>)
    ensures
        first_seen(texts).no_duplicates(),
        forall|t: Seq<char>| #[trigger] first_seen(texts).contains(t) <==> texts.contains(t),
        forall|t: Seq<char>| #[trigger]
            texts.contains(t) ==> occurrences(texts, t) >= 1,
    decreases texts.len(),
{
    if texts.len() > 0 {
        let before = texts.drop_last();
        law_each_hazard_is_told_once(before);
        let seen = first_seen(before);
        assert forall|t: Seq<char>| texts.contains(t) implies (before.contains(t) || t
            == texts.last()) by {
            let i = texts.index_of(t);
            if i < before.len() {
                assert(before[i] == t);
            }
        }
        assert forall|t: Seq<char>| before.contains(t) || t == texts.last() implies texts.contains(
            t,
        ) by {
            if t == texts.last() {
                assert(texts[texts.len() - 1] == t);
            } else {
                let i = before.index_of(t);
                assert(texts[i] == t);
            }
        }
        if !seen.contains(texts.last()) {
            let now = seen.push(texts.last());
            assert forall|t: Seq<char>| #[trigger] now.contains(t) <==> (seen.contains(t) || t
                == texts.last()) by {
                if seen.contains(t) {
                    let i = seen.index_of(t);
                    assert(now[i] == t);
                }
                if t == texts.last() {
                    assert(now[seen.len() as int] == t);
                }
                if now.contains(t) {
                    let i = now.index_of(t);
                    if i < seen.len() {
                        assert(seen[i] == t);
                    }
                }
            }
        }
        assert forall|t: Seq<char>| #[trigger] texts.contains(t) implies occurrences(texts, t)
            >= 1 by {
            if t != texts.last() {
                assert(before.contains(t));
            }
        }
    }
}

/// The symbol tells how a command ended: a warning sign before what is dangerous, an
/// arrow before what is interactive, and of the rest an exclamation mark after a
/// failure, an arrow before what is narrated or structured, and else a plus sign.
pub proof fn law_symbols_tell_how_it_ended(category: Seq<char>, exit_code: int)
    ensures
        ({
            let told = symbol(category, exit_code);
            let plain = category != "dangerous"@ && category != "interactive"@;
            &&& category == "dangerous"@ ==> told == seq!['\u{26a0}']
            &&& category == "interactive"@ && category != "dangerous"@ ==> told == seq![
                '\u{2192}',
            ]
            &&& plain && exit_code != 0 ==> told == seq!['!']
            &&& plain && exit_code == 0 && (category == "narrate"@ || category == "structured"@)
                ==> told == seq!['\u{2192}']
            &&& plain && exit_code == 0 && category != "narrate"@ && category != "structured"@
                ==> told == seq!['+']
        }),
{
    reveal_strlit("\u{26a0}");
    reveal_strlit("\u{2192}");
    reveal_strlit("!");
    reveal_strlit("+");
    assert("\u{26a0}"@ =~= seq!['\u{26a0}']);
    assert("\u{2192}"@ =~= seq!['\u{2192}']);
    assert("!"@ =~= seq!['!']);
    assert("+"@ =~= seq!['+']);
}

/// People see what opens the result, then every outcome, every hazard, every diagnostic
/// and, after a success, every recommendation, each on a line of its own and in its
/// order.
pub proof fn law_people_see_everything_in_order(input: FormatInput)
    ensures
        human_lines(input) == opening(input) + Seq::new(
            input.outcomes@.len(),
            |i: int| seq!['+', ' '] + input.outcomes@[i]@,
        ) + Seq::new(
            input.hazards@.len(),
            |i: int|
                (if input.hazards@[i].severity@ == "error"@ {
                    seq!['!', ' ']
                } else {
                    seq!['~', ' ']
                }) + input.hazards@[i].text@,
        ) + Seq::new(
            input.enrichment@.len(),
            |i: int|
                seq!['~', ' '] + input.enrichment@[i].kind@ + seq![' ']
                    + input.enrichment@[i].message@,
        ) + (if input.exit_code == 0 {
            Seq::new(
                input.recommendations@.len(),
                |i: int|
                    "\u{2192} prefer: "@ + input.recommendations@[i].flag@ + seq![' ', '(']
                        + input.recommendations@[i].reason@ + seq![')'],
            )
        } else {
            Seq::empty()
        }),
{
    reveal_strlit("+ ");
    reveal_strlit("~ ");
    reveal_strlit("!");
    reveal_strlit("~");
    reveal_strlit(" ");
    reveal_strlit("");
    reveal_strlit(" (");
    reveal_strlit(")");
    assert("+ "@ =~= seq!['+', ' ']);
    assert("~ "@ =~= seq!['~', ' ']);
    assert(" "@ =~= seq![' ']);
    assert(" ("@ =~= seq![' ', '(']);
    assert(")"@ =~= seq![')']);
    let outcomes = Seq::new(
        input.outcomes@.len(),
        |i: int| seq!['+', ' '] + input.outcomes@[i]@,
    );
    assert(outcome_lines(input.outcomes@) =~= outcomes);
    let hazards = Seq::new(
        input.hazards@.len(),
        |i: int|
            (if input.hazards@[i].severity@ == "error"@ {
                seq!['!', ' ']
            } else {
                seq!['~', ' ']
            }) + input.hazards@[i].text@,
    );
    assert forall|i: int| 0 <= i < hazards.len() implies hazard_lines(input.hazards@, ""@)[i]
        == hazards[i] by {
        assert(hazard_lines(input.hazards@, ""@)[i] =~= hazards[i]);
    }
    assert(hazard_lines(input.hazards@, ""@) =~= hazards);
    let enrichment = Seq::new(
        input.enrichment@.len(),
        |i: int|
            seq!['~', ' '] + input.enrichment@[i].kind@ + seq![' '] + input.enrichment@[i].message@,
    );
    assert forall|i: int| 0 <= i < enrichment.len() implies enrichment_lines(
        input.enrichment@,
    )[i] == enrichment[i] by {
        assert(enrichment_lines(input.enrichment@)[i] =~= enrichment[i]);
    }
    assert(enrichment_lines(input.enrichment@) =~= enrichment);
    let lead = "\u{2192} prefer: "@;
    let advice = Seq::new(
        input.recommendations@.len(),
        |i: int|
            lead + input.recommendations@[i].flag@ + seq![' ', '(']
                + input.recommendations@[i].reason@ + seq![')'],
    );
    let told = recommendation_lines(input.recommendations@, input.exit_code as int, lead);
    if input.exit_code == 0 {
        assert forall|i: int| 0 <= i < advice.len() implies told[i] == advice[i] by {
            assert(told[i] =~= advice[i]);
        }
        assert(told =~= advice);
    }
}

/// What opens a result: where its time or its number of lines is known, a header and the
/// lines of the body; else the body, behind its symbol unless the output was passed
/// through.
pub proof fn law_results_open_with_the_body(input: FormatInput)
    ensures
        ({
            let told = opening(input);
            let measured = input.total_lines is Some || input.elapsed is Some;
            &&& measured ==> told.len() == 1 + text::lines(input.body@).len() && told.skip(1)
                == text::lines(input.body@) && text::starts_with(
                told[0],
                symbol(input.category@, input.exit_code as int) + " exit:"@ + text::dec_int(
                    input.exit_code as int,
                ),
            )
            &&& !measured && input.category@ == "passthrough"@ ==> told == seq![input.body@]
            &&& !measured && input.category@ != "passthrough"@ ==> told == seq![
                symbol(input.category@, input.exit_code as int) + seq![' '] + input.body@,
            ]
        }),
{
    reveal_strlit(" ");
    assert(" "@ =~= seq![' ']);
    let told = opening(input);
    let status = symbol(input.category@, input.exit_code as int) + " exit:"@ + text::dec_int(
        input.exit_code as int,
    );
    if input.total_lines is Some || input.elapsed is Some {
        assert(told.skip(1) =~= text::lines(input.body@));
        let rest = elapsed_part(input.elapsed) + ratio_part(
            input.total_lines,
            text::lines(input.body@).len(),
        );
        let parts = seq![status] + elapsed_part(input.elapsed) + ratio_part(
            input.total_lines,
            text::lines(input.body@).len(),
        );
        assert(parts =~= seq![status] + rest);
        lemma_join_starts(status, rest);
    }
}

proof fn lemma_join_starts(first: Seq<char>, rest: Seq<Seq<char>>)
    ensures
        text::starts_with(text::join(seq![first] + rest, " "@), first),
    decreases rest.len(),
{
    let all = seq![first] + rest;
    if rest.len() == 0 {
        assert(all =~= seq![first]);
        assert(first.take(first.len() as int) =~= first);
    } else {
        lemma_join_starts(first, rest.drop_last());
        assert(all.drop_last() =~= seq![first] + rest.drop_last());
        let before = text::join(all.drop_last(), " "@);
        let told = text::join(all, " "@);
        assert(told.take(first.len() as int) =~= before.take(first.len() as int));
    }
}

/// A header tells the time where it is told at all, and the numbers of lines before and
/// after where they differ.
pub proof fn law_headers_tell_what_was_saved(total: Option<u64>, shown: nat)
    ensures
        total is Some && total->0 != shown ==> ratio_part(total, shown) == seq![
            seq!['('] + text::dec(total->0 as nat) + seq!['\u{2192}'] + text::dec(shown) + seq![
                ')',
            ],
        ],
        total is None || total->0 == shown ==> ratio_part(total, shown).len() == 0,
{
    reveal_strlit("(");
    reveal_strlit("\u{2192}");
    reveal_strlit(")");
    assert("("@ =~= seq!['(']);
    assert("\u{2192}"@ =~= seq!['\u{2192}']);
    assert(")"@ =~= seq![')']);
    if total is Some && total->0 != shown {
        assert("("@ + text::dec(total->0 as nat) + ("\u{2192}"@ + text::dec(shown) + ")"@)
            =~= seq!['('] + text::dec(total->0 as nat) + seq!['\u{2192}'] + text::dec(shown)
            + seq![')']);
    }
}

/// Output that is passed through comes first and unchanged; behind it stands what it
/// came to: the first outcome, or else the exit code, and then the hazards.
pub proof fn law_raw_output_comes_first(input: FormatInput)
    ensures
        ({
            let raw = match input.raw_output {
                Some(raw) => raw@,
                None => input.body@,
            };
            text::starts_with(formatted(input, OutputMode::Passthrough), raw)
        }),
        input.outcomes@.len() > 0 ==> text::ends_with(
            summary_line(input),
            seq![':', ' '] + input.outcomes@[0]@,
        ),
        input.outcomes@.len() == 0 ==> text::ends_with(
            summary_line(input),
            text::dec_int(input.exit_code as int),
        ),
{
    reveal_strlit(": ");
    assert(": "@ =~= seq![':', ' ']);
    let raw = match input.raw_output {
        Some(raw) => raw@,
        None => input.body@,
    };
    let told = formatted(input, OutputMode::Passthrough);
    assert(told.take(raw.len() as int) =~= raw);
    let line = summary_line(input);
    if input.outcomes@.len() > 0 {
        let end = seq![':', ' '] + input.outcomes@[0]@;
        assert(line.skip(line.len() - end.len()) =~= end);
    } else {
        let end = text::dec_int(input.exit_code as int);
        assert(line.skip(line.len() - end.len()) =~= end);
    }
}

/// How often a text stands among others is how many of them are that text.
pub proof fn law_occurrences_are_counted(texts: Seq<Seq<char>>, told: Seq<char>)
    ensures
        occurrences(texts, told) == texts.filter(|t: Seq<char>| t == told).len(),
    decreases texts.len(),
{
    reveal(Seq::filter);
    if texts.len() > 0 {
        law_occurrences_are_counted(texts.drop_last(), told);
    }
}

/// Texts are told in the order in which they first stand: further ones come behind.
pub proof fn law_first_seen_come_first(texts: Seq<Seq<char>>, next: Seq<char>)
    ensures
        first_seen(texts.push(next)) == (if texts.contains(next) {
            first_seen(texts)
        } else {
            first_seen(texts).push(next)
        }),
{
    assert(texts.push(next).drop_last() =~= texts);
    law_each_hazard_is_told_once(texts);
}

/// On one line a hazard that comes more than once is told with its number, and one that
/// comes once without.
pub proof fn law_repeated_hazards_are_told_with_their_number(
    texts: Seq<Seq<char>>,
    i: int,
)
    requires
        0 <= i < first_seen(texts).len(),
    ensures
        ({
            let told = first_seen(texts)[i];
            let n = texts.filter(|t: Seq<char>| t == told).len();
            counted(texts)[i] == (if n > 1 {
                told + seq!['(', 'x'] + text::dec(n) + seq![')']
            } else {
                told
            })
        }),
{
    reveal_strlit("(x");
    reveal_strlit(")");
    assert("(x"@ =~= seq!['(', 'x']);
    assert(")"@ =~= seq![')']);
    let told = first_seen(texts)[i];
    law_occurrences_are_counted(texts, told);
    let n = texts.filter(|t: Seq<char>| t == told).len();
    assert(told + "(x"@ + (text::dec(n) + ")"@) =~= told + seq!['(', 'x'] + text::dec(n) + seq![
        ')',
    ]);
}

/// On one line the command comes first, then whether it went well.
pub proof fn law_one_line_starts_with_the_command(input: FormatInput)
    ensures
        text::starts_with(
            formatted(input, OutputMode::Context),
            input.command@ + (if input.exit_code == 0 {
                seq![':', ' ', 'o', 'k']
            } else {
                seq![':', ' ', 'e', 'r', 'r']
            }),
        ),
        input.outcomes@.len() == 0 && input.elapsed is None && input.hazards@.len() == 0
            ==> formatted(input, OutputMode::Context) == input.command@ + (
        if input.exit_code == 0 {
            seq![':', ' ', 'o', 'k']
        } else {
            seq![':', ' ', 'e', 'r', 'r']
        }),
{
    reveal_strlit(": ");
    reveal_strlit("ok");
    reveal_strlit("err");
    let told = formatted(input, OutputMode::Context);
    let lead = input.command@ + (if input.exit_code == 0 {
        seq![':', ' ', 'o', 'k']
    } else {
        seq![':', ' ', 'e', 'r', 'r']
    });
    assert(told.take(lead.len() as int) =~= lead);
    if input.outcomes@.len() == 0 && input.elapsed is None && input.hazards@.len() == 0 {
        assert(told =~= lead);
    }
}

/// The report of a result holds what is known of it under its names. The command, its
/// code, its category, its outcomes and its hazards are always there; the time, the
/// number of lines, the body and the diagnostics where there are any; and the
/// recommendations after a success only.
#[verifier::rlimit(40)]
pub proof fn law_reports_hold_what_is_known(input: FormatInput)
    ensures
        ({
            let told = json_report(input);
            &&& strmap::lookup(told, "command"@) == Some(outside::json_string(input.command@))
            &&& strmap::lookup(told, "exit_code"@) == Some(
                outside::json_integer(input.exit_code as i64),
            )
            &&& strmap::lookup(told, "category"@) == Some(outside::json_string(input.category@))
            &&& strmap::lookup(told, "elapsed_seconds"@) == (match input.elapsed {
                Some(elapsed) => Some(elapsed.json),
                None => None,
            })
            &&& strmap::lookup(told, "total_lines"@) == (match input.total_lines {
                Some(n) => Some(outside::json_natural(n)),
                None => None,
            })
            &&& strmap::lookup(told, "body"@) == (if input.body@.len() == 0 {
                None
            } else {
                Some(outside::json_string(input.body@))
            })
            &&& strmap::lookup(told, "outcomes"@) == Some(json::json_texts(input.outcomes@))
            &&& strmap::lookup(told, "hazards"@) == Some(json_hazards(input.hazards@))
            &&& strmap::lookup(told, "enrichment"@) == (if input.enrichment@.len() == 0 {
                None
            } else {
                Some(json_enrichment(input.enrichment@))
            })
            &&& strmap::lookup(told, "recommendations"@) == (if input.exit_code != 0
                || input.recommendations@.len() == 0 {
                None
            } else {
                Some(json_recommendations(input.recommendations@))
            })
        }),
{
    reveal_strlit("command");
    reveal_strlit("exit_code");
    reveal_strlit("category");
    reveal_strlit("elapsed_seconds");
    reveal_strlit("total_lines");
    reveal_strlit("body");
    reveal_strlit("outcomes");
    reveal_strlit("hazards");
    reveal_strlit("enrichment");
    reveal_strlit("recommendations");
    assert("command"@.len() == 7 && "command"@[0] == 'c');
    assert("exit_code"@.len() == 9 && "exit_code"@[0] == 'e');
    assert("category"@.len() == 8 && "category"@[0] == 'c');
    assert("elapsed_seconds"@.len() == 15 && "elapsed_seconds"@[0] == 'e');
    assert("total_lines"@.len() == 11 && "total_lines"@[0] == 't');
    assert("body"@.len() == 4 && "body"@[0] == 'b');
    assert("outcomes"@.len() == 8 && "outcomes"@[0] == 'o');
    assert("hazards"@.len() == 7 && "hazards"@[0] == 'h');
    assert("enrichment"@.len() == 10 && "enrichment"@[0] == 'e');
    assert("recommendations"@.len() == 15 && "recommendations"@[0] == 'r');
    lemma_report_holds(input, "command"@);
    lemma_report_holds(input, "exit_code"@);
    lemma_report_holds(input, "category"@);
    lemma_report_holds(input, "elapsed_seconds"@);
    lemma_report_holds(input, "total_lines"@);
    lemma_report_holds(input, "body"@);
    lemma_report_holds(input, "outcomes"@);
    lemma_report_holds(input, "hazards"@);
    lemma_report_holds(input, "enrichment"@);
    lemma_report_holds(input, "recommendations"@);
}

proof fn lemma_report_holds(input: FormatInput, key: Seq<char>)
    ensures
        strmap::lookup(json_report(input), key) == (if key == "command"@ {
            Some(outside::json_string(input.command@))
        } else if key == "exit_code"@ {
            Some(outside::json_integer(input.exit_code as i64))
        } else if key == "category"@ {
            Some(outside::json_string(input.category@))
        } else if key == "elapsed_seconds"@ && input.elapsed is Some {
            Some(input.elapsed->0.json)
        } else if key == "total_lines"@ && input.total_lines is Some {
            Some(outside::json_natural(input.total_lines->0))
        } else if key == "body"@ && input.body@.len() > 0 {
            Some(outside::json_string(input.body@))
        } else if key == "outcomes"@ {
            Some(json::json_texts(input.outcomes@))
        } else if key == "hazards"@ {
            Some(json_hazards(input.hazards@))
        } else if key == "enrichment"@ && input.enrichment@.len() > 0 {
            Some(json_enrichment(input.enrichment@))
        } else if key == "recommendations"@ && input.exit_code == 0
            && input.recommendations@.len() > 0 {
            Some(json_recommendations(input.recommendations@))
        } else {
            None
        }),
{
    let first = seq![
        ("command"@, outside::json_string(input.command@)),
        ("exit_code"@, outside::json_integer(input.exit_code as i64)),
        ("category"@, outside::json_string(input.category@)),
    ];
    let time = json::field_if(input.elapsed is Some, "elapsed_seconds"@, input.elapsed->0.json);
    let lines = json::field_if(
        input.total_lines is Some,
        "total_lines"@,
        outside::json_natural(input.total_lines->0),
    );
    let body = json::field_if(
        input.body@.len() > 0,
        "body"@,
        outside::json_string(input.body@),
    );
    let found = seq![
        ("outcomes"@, json::json_texts(input.outcomes@)),
        ("hazards"@, json_hazards(input.hazards@)),
    ];
    let enrichment = json::field_if(
        input.enrichment@.len() > 0,
        "enrichment"@,
        json_enrichment(input.enrichment@),
    );
    let advice = json::field_if(
        input.exit_code == 0 && input.recommendations@.len() > 0,
        "recommendations"@,
        json_recommendations(input.recommendations@),
    );
    strmap::law_first_list_decides(first, time, key);
    strmap::law_first_list_decides(first + time, lines, key);
    strmap::law_first_list_decides(first + time + lines, body, key);
    strmap::law_first_list_decides(first + time + lines + body, found, key);
    strmap::law_first_list_decides(first + time + lines + body + found, enrichment, key);
    strmap::law_first_list_decides(
        first + time + lines + body + found + enrichment,
        advice,
        key,
    );
    strmap::law_first_pair_decides(
        first,
        key,
        if key == "command"@ {
            0
        } else if key == "exit_code"@ {
            1
        } else if key == "category"@ {
            2
        } else {
            3
        },
    );
    strmap::law_first_pair_decides(
        found,
        key,
        if key == "outcomes"@ {
            0
        } else if key == "hazards"@ {
            1
        } else {
            2
        },
    );
    lemma_field_if(
        input.elapsed is Some,
        "elapsed_seconds"@,
        input.elapsed->0.json,
        key,
    );
    lemma_field_if(
        input.total_lines is Some,
        "total_lines"@,
        outside::json_natural(input.total_lines->0),
        key,
    );
    lemma_field_if(input.body@.len() > 0, "body"@, outside::json_string(input.body@), key);
    lemma_field_if(
        input.enrichment@.len() > 0,
        "enrichment"@,
        json_enrichment(input.enrichment@),
        key,
    );
    lemma_field_if(
        input.exit_code == 0 && input.recommendations@.len() > 0,
        "recommendations"@,
        json_recommendations(input.recommendations@),
        key,
    );
}

proof fn lemma_field_if(present: bool, name: Seq<char>, value: serde_json::Value, key: Seq<char>)
    ensures
        strmap::lookup(json::field_if(present, name, value), key) == (if present && key == name {
            Some(value)
        } else {
            None
        }),
{
    let field = json::field_if(present, name, value);
    strmap::law_first_pair_decides(
        field,
        key,
        if present && key != name {
            1
        } else {
            0
        },
    );
}

/// On one line the outcomes follow the command and how it ended, then the time in
/// seconds, then the hazards, each behind a blank.
pub proof fn law_one_line_tells_everything(input: FormatInput)
    ensures
        formatted(input, OutputMode::Context) == input.command@ + (if input.exit_code == 0 {
            seq![':', ' ', 'o', 'k']
        } else {
            seq![':', ' ', 'e', 'r', 'r']
        }) + (if input.outcomes@.len() == 0 {
            Seq::empty()
        } else {
            seq![' '] + text::join(text::views(input.outcomes@), seq![' '])
        }) + (match input.elapsed {
            Some(elapsed) => seq![' '] + elapsed.seconds@ + seq!['s'],
            None => Seq::empty(),
        }) + (if input.hazards@.len() == 0 {
            Seq::empty()
        } else {
            seq![' '] + text::join(
                counted(
                    Seq::new(
                        input.hazards@.len(),
                        |i: int|
                            (if input.hazards@[i].severity@ == "error"@ {
                                seq!['!']
                            } else {
                                seq!['~']
                            }) + input.hazards@[i].text@,
                    ),
                ),
                seq![' '],
            )
        }),
{
    reveal_strlit(": ");
    reveal_strlit("ok");
    reveal_strlit("err");
    reveal_strlit(" ");
    reveal_strlit("s");
    reveal_strlit("!");
    reveal_strlit("~");
    assert(" "@ =~= seq![' ']);
    assert("s"@ =~= seq!['s']);
    assert("!"@ =~= seq!['!']);
    assert("~"@ =~= seq!['~']);
    assert(": "@ + "ok"@ =~= seq![':', ' ', 'o', 'k']);
    assert(": "@ + "err"@ =~= seq![':', ' ', 'e', 'r', 'r']);
    assert(marked(input.hazards@) =~= Seq::new(
        input.hazards@.len(),
        |i: int|
            (if input.hazards@[i].severity@ == "error"@ {
                seq!['!']
            } else {
                seq!['~']
            }) + input.hazards@[i].text@,
    ));
    let ok = input.command@ + seq![':', ' ', 'o', 'k'];
    let err = input.command@ + seq![':', ' ', 'e', 'r', 'r'];
    assert(input.command@ + ": "@ + "ok"@ =~= ok);
    assert(input.command@ + ": "@ + "err"@ =~= err);
}

} // verus!
