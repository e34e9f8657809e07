//! What is gathered at the start: grammars from several places, the patterns of
//! dangerous commands, and the configuration.
use regex::Regex;
use vstd::prelude::*;
use vstd::string::*;

use crate::category::Category;
use crate::config::{default_config, MishConfig};
use crate::config;
use crate::grammar;
use crate::grammar::{holds_grammars, toml_stem, Grammar};
use crate::outside;
use crate::strmap;
use crate::strmap::StrMap;
use crate::text;
use crate::text::{concat2, concat3};

verus! {

/// The categories of commands by their names.
#[derive(Debug, Clone)]
pub struct CategoriesConfig {
    pub categories: StrMap<Category>,
}

/// A pattern of commands that do harm.
#[derive(Debug, Clone)]
pub struct DangerousPattern {
    pub pattern: Regex,
    pub reason: String,
}

/// A pattern of commands that do harm, as it is written.
#[derive(Debug, Clone)]
pub struct RawDangerousPattern {
    pub pattern: String,
    pub reason: String,
}

/// Everything needed to route commands.
#[derive(Debug, Clone)]
pub struct RuntimeConfig {
    pub grammars: StrMap<Grammar>,
    pub categories_config: CategoriesConfig,
    pub dangerous_patterns: Vec<DangerousPattern>,
    pub mish_config: MishConfig,
}

// ---------------------------------------------------------------------------
// Grammars
// ---------------------------------------------------------------------------

/// What came of reading a grammar file.
#[derive(Debug, Clone)]
pub enum GrammarOutcome {
    Loaded(Grammar),
    /// It could not be read; the reason.
    Unreadable(String),
    /// It is no grammar; the reason.
    Malformed(String),
}

/// A file in a directory of grammars.
#[derive(Debug, Clone)]
pub struct GrammarFile {
    pub file_name: String,
    /// The path, as it is shown.
    pub path: String,
    pub outcome: GrammarOutcome,
}

/// The tool that a file is a grammar for. Only files named `*.toml` are
/// grammars, and none whose name begins with an underscore.
pub open spec fn tool_of(file_name: Seq<char>) -> Option<Seq<char>> {
    match grammar::stem(file_name) {
        Some(tool) if tool[0] != '_' => Some(tool),
        _ => None,
    }
}

/// Finds the tool that a file is a grammar for.
pub fn grammar_tool(file_name: &str) -> (r: Option<String>)
    ensures
        match r {
            Some(tool) => tool_of(file_name@) == Some(tool@),
            None => tool_of(file_name@) is None,
        },
{
    match toml_stem(file_name) {
        Some(tool) => {
            if holds_grammars(tool.as_str()) {
                Some(tool)
            } else {
                None
            }
        },
        None => None,
    }
}

/// The grammars after those of the files were put to them, each in place of an
/// earlier one for the same tool.
pub open spec fn with_files(
    grammars: Seq<(Seq<char>, Grammar)>,
    files: Seq<GrammarFile>,
) -> Seq<(Seq<char>, Grammar)>
    decreases files.len(),
{
    if files.len() == 0 {
        grammars
    } else {
        let before = with_files(grammars, files.drop_last());
        match (tool_of(files.last().file_name@), files.last().outcome) {
            (Some(tool), GrammarOutcome::Loaded(grammar)) => strmap::put(before, tool, grammar),
            _ => before,
        }
    }
}

/// The warnings about files that gave no grammar.
pub open spec fn file_warnings(files: Seq<GrammarFile>) -> Seq<Seq<char>>
    decreases files.len(),
{
    if files.len() == 0 {
        Seq::empty()
    } else {
        let before = file_warnings(files.drop_last());
        let file = files.last();
        match (tool_of(file.file_name@), file.outcome) {
            (Some(_), GrammarOutcome::Unreadable(why)) => before.push(
                "warning: failed to read grammar file '"@ + file.path@ + ("': "@ + why@),
            ),
            (Some(_), GrammarOutcome::Malformed(why)) => before.push(
                "warning: failed to parse grammar '"@ + file.path@ + ("': "@ + why@),
            ),
            _ => before,
        }
    }
}

/// Puts the grammars of a directory's files to those at hand, and gives the
/// warnings about files that gave none.
pub fn load_grammars(grammars: &mut StrMap<Grammar>, files: Vec<GrammarFile>) -> (r: Vec<String>)
    ensures
        final(grammars)@ == with_files(old(grammars)@, files@),
        old(grammars).wf() ==> final(grammars).wf(),
        text::views(r@) == file_warnings(files@),
{
    let ghost start = grammars@;
    let ghost all = files@;
    let mut warnings: Vec<String> = Vec::new();
    assert(all.take(0).len() == 0);
    assert(text::views(warnings@) =~= Seq::empty());
    for file in it: files
        invariant
            it.seq() == all,
            grammars@ == with_files(start, all.take(it.index())),
            old(grammars).wf() ==> grammars.wf(),
            text::views(warnings@) == file_warnings(all.take(it.index())),
    {
        assert(file == all[it.index()]);
        assert(all.take(it.index() + 1).drop_last() =~= all.take(it.index()));
        assert(all.take(it.index() + 1).last() == file);
        if let Some(tool) = grammar_tool(file.file_name.as_str()) {
            match file.outcome {
                GrammarOutcome::Loaded(grammar) => {
                    grammars.insert(tool, grammar);
                },
                GrammarOutcome::Unreadable(why) => {
                    let end = concat2("': ", why.as_str());
                    let line = concat3(
                        "warning: failed to read grammar file '",
                        file.path.as_str(),
                        end.as_str(),
                    );
                    let ghost before = warnings@;
                    warnings.push(line);
                    assert(text::views(warnings@) =~= text::views(before).push(line@));
                },
                GrammarOutcome::Malformed(why) => {
                    let end = concat2("': ", why.as_str());
                    let line = concat3(
                        "warning: failed to parse grammar '",
                        file.path.as_str(),
                        end.as_str(),
                    );
                    let ghost before = warnings@;
                    warnings.push(line);
                    assert(text::views(warnings@) =~= text::views(before).push(line@));
                },
            }
        }
    }
    assert(all.take(all.len() as int) =~= all);
    warnings
}

/// The grammars that come with the program: those that parse, by their names.
pub open spec fn bundled(list: Seq<(String, Result<Grammar, String>)>) -> Seq<(Seq<char>, Grammar)>
    decreases list.len(),
{
    if list.len() == 0 {
        Seq::empty()
    } else {
        let before = bundled(list.drop_last());
        match list.last().1 {
            Ok(grammar) => strmap::put(before, list.last().0@, grammar),
            Err(_) => before,
        }
    }
}

/// The warnings about grammars that come with the program and do not parse.
pub open spec fn bundled_warnings(list: Seq<(String, Result<Grammar, String>)>) -> Seq<Seq<char>>
    decreases list.len(),
{
    if list.len() == 0 {
        Seq::empty()
    } else {
        let before = bundled_warnings(list.drop_last());
        match list.last().1 {
            Ok(_) => before,
            Err(why) => before.push(
                "warning: failed to parse bundled grammar '"@ + list.last().0@ + ("': "@ + why@),
            ),
        }
    }
}

/// Takes the grammars that come with the program, each given by its name and
/// what parsing it gave.
pub fn load_bundled_grammars(list: Vec<(String, Result<Grammar, String>)>) -> (r: (
    StrMap<Grammar>,
    Vec<String>,
))
    ensures
        r.0@ == bundled(list@),
        r.0.wf(),
        text::views(r.1@) == bundled_warnings(list@),
{
    let ghost all = list@;
    let mut grammars: StrMap<Grammar> = StrMap::new();
    let mut warnings: Vec<String> = Vec::new();
    assert(all.take(0).len() == 0);
    assert(text::views(warnings@) =~= Seq::empty());
    for entry in it: list
        invariant
            it.seq() == all,
            grammars@ == bundled(all.take(it.index())),
            grammars.wf(),
            text::views(warnings@) == bundled_warnings(all.take(it.index())),
    {
        assert(entry == all[it.index()]);
        assert(all.take(it.index() + 1).drop_last() =~= all.take(it.index()));
        assert(all.take(it.index() + 1).last() == entry);
        let (name, parsed) = entry;
        match parsed {
            Ok(grammar) => {
                grammars.insert(name, grammar);
            },
            Err(why) => {
                let end = concat2("': ", why.as_str());
                let line = concat3(
                    "warning: failed to parse bundled grammar '",
                    name.as_str(),
                    end.as_str(),
                );
                let ghost before = warnings@;
                warnings.push(line);
                assert(text::views(warnings@) =~= text::views(before).push(line@));
            },
        }
    }
    assert(all.take(all.len() as int) =~= all);
    (grammars, warnings)
}

// ---------------------------------------------------------------------------
// Dangerous commands
// ---------------------------------------------------------------------------

/// The patterns that compiled, each with its reason.
pub open spec fn valid_patterns(
    raw: Seq<RawDangerousPattern>,
    compiled: Seq<Result<Regex, regex::Error>>,
) -> Seq<(Regex, Seq<char>)>
    decreases raw.len(),
{
    if raw.len() == 0 {
        Seq::empty()
    } else {
        let before = valid_patterns(raw.drop_last(), compiled.drop_last());
        match compiled.last() {
            Ok(regex) => before.push((regex, raw.last().reason@)),
            Err(_) => before,
        }
    }
}

/// The patterns that did not compile, each with the error.
pub open spec fn invalid_patterns(
    raw: Seq<RawDangerousPattern>,
    compiled: Seq<Result<Regex, regex::Error>>,
) -> Seq<(Seq<char>, regex::Error)>
    decreases raw.len(),
{
    if raw.len() == 0 {
        Seq::empty()
    } else {
        let before = invalid_patterns(raw.drop_last(), compiled.drop_last());
        match compiled.last() {
            Ok(_) => before,
            Err(e) => before.push((raw.last().pattern@, e)),
        }
    }
}

/// What `Regex::new` makes of each pattern.
pub open spec fn compiled_patterns(raw: Seq<RawDangerousPattern>) -> Seq<
    Result<Regex, regex::Error>,
> {
    Seq::new(raw.len(), |i: int| outside::compiled(raw[i].pattern@))
}

pub open spec fn pattern_views(patterns: Seq<DangerousPattern>) -> Seq<(Regex, Seq<char>)> {
    Seq::new(patterns.len(), |i: int| (patterns[i].pattern, patterns[i].reason@))
}

pub open spec fn skip_views(skipped: Seq<(String, regex::Error)>) -> Seq<
    (Seq<char>, regex::Error),
> {
    Seq::new(skipped.len(), |i: int| (skipped[i].0@, skipped[i].1))
}

/// Keeps the patterns that compiled and lists those that did not.
pub fn keep_valid(
    raw: &[RawDangerousPattern],
    compiled: Vec<Result<Regex, regex::Error>>,
) -> (r: (Vec<DangerousPattern>, Vec<(String, regex::Error)>))
    requires
        compiled@.len() == raw@.len(),
    ensures
        pattern_views(r.0@) == valid_patterns(raw@, compiled@),
        skip_views(r.1@) == invalid_patterns(raw@, compiled@),
{
    let ghost all = compiled@;
    let mut kept: Vec<DangerousPattern> = Vec::new();
    let mut skipped: Vec<(String, regex::Error)> = Vec::new();
    let mut i: usize = 0;
    assert(raw@.take(0).len() == 0);
    assert(pattern_views(kept@) =~= Seq::empty());
    assert(skip_views(skipped@) =~= Seq::empty());
    for outcome in it: compiled
        invariant
            it.seq() == all,
            i == it.index(),
            raw@.len() == all.len(),
            pattern_views(kept@) == valid_patterns(
                raw@.take(it.index()),
                all.take(it.index()),
            ),
            skip_views(skipped@) == invalid_patterns(
                raw@.take(it.index()),
                all.take(it.index()),
            ),
    {
        assert(outcome == all[it.index()]);
        assert(all.take(it.index() + 1).drop_last() =~= all.take(it.index()));
        assert(all.take(it.index() + 1).last() == outcome);
        assert(raw@.take(it.index() + 1).drop_last() =~= raw@.take(it.index()));
        assert(raw@.take(it.index() + 1).last() == raw@[i as int]);
        match outcome {
            Ok(regex) => {
                let ghost before = kept@;
                kept.push(DangerousPattern { pattern: regex, reason: raw[i].reason.clone() });
                assert(pattern_views(kept@) =~= pattern_views(before).push(
                    (regex, raw@[i as int].reason@),
                ));
            },
            Err(e) => {
                let ghost before = skipped@;
                skipped.push((raw[i].pattern.clone(), e));
                assert(skip_views(skipped@) =~= skip_views(before).push(
                    (raw@[i as int].pattern@, e),
                ));
            },
        }
        i += 1;
    }
    assert(all.take(all.len() as int) =~= all);
    assert(raw@.take(all.len() as int) =~= raw@);
    (kept, skipped)
}

/// Compiles the patterns of dangerous commands; one that is no regular
/// expression is left out.
pub fn load_dangerous_patterns_lenient(raw: &[RawDangerousPattern]) -> (r: (
    Vec<DangerousPattern>,
    Vec<(String, regex::Error)>,
))
    ensures
        pattern_views(r.0@) == valid_patterns(raw@, compiled_patterns(raw@)),
        skip_views(r.1@) == invalid_patterns(raw@, compiled_patterns(raw@)),
{
    let mut compiled: Vec<Result<Regex, regex::Error>> = Vec::new();
    let mut i: usize = 0;
    while i < raw.len()
        invariant
            i <= raw@.len(),
            compiled@ =~= compiled_patterns(raw@).take(i as int),
        decreases raw.len() - i,
    {
        compiled.push(Regex::new(raw[i].pattern.as_str()));
        i += 1;
    }
    assert(compiled@ =~= compiled_patterns(raw@));
    keep_valid(raw, compiled)
}

/// The warning about a pattern that was left out.
pub fn skip_warning(pattern: &str, why: &regex::Error) -> (r: String)
    ensures
        exists|t: String| #[trigger]
            to_string_from_display_ensures(why, t) && r@
                == "warning: skipping dangerous pattern '"@ + pattern@ + ("': invalid regex: "@
                + t@),
{
    let t = why.to_string();
    let end = concat2("': invalid regex: ", t.as_str());
    concat3("warning: skipping dangerous pattern '", pattern, end.as_str())
}

// ---------------------------------------------------------------------------
// The whole
// ---------------------------------------------------------------------------

/// Everything from the parts that come with the program, with the default
/// configuration.
pub fn default_runtime_config(
    grammars: StrMap<Grammar>,
    categories_config: CategoriesConfig,
    dangerous_patterns: Vec<DangerousPattern>,
) -> (r: RuntimeConfig)
    ensures
        r.grammars == grammars,
        r.categories_config == categories_config,
        r.dangerous_patterns == dangerous_patterns,
        config::is_default(r.mish_config),
{
    RuntimeConfig {
        grammars,
        categories_config,
        dangerous_patterns,
        mish_config: default_config(),
    }
}

/// Everything from the configuration, the grammars that come with the program,
/// those of the user and those of the project, which take precedence in this
/// order, and the warnings about grammar files.
pub fn load_runtime_config(
    mish_config: MishConfig,
    bundled_grammars: StrMap<Grammar>,
    user_files: Vec<GrammarFile>,
    project_files: Vec<GrammarFile>,
    categories_config: CategoriesConfig,
    dangerous_patterns: Vec<DangerousPattern>,
) -> (r: (RuntimeConfig, Vec<String>))
    ensures
        r.0.mish_config == mish_config,
        r.0.grammars@ == with_files(
            with_files(bundled_grammars@, user_files@),
            project_files@,
        ),
        bundled_grammars.wf() ==> r.0.grammars.wf(),
        r.0.categories_config == categories_config,
        r.0.dangerous_patterns == dangerous_patterns,
        text::views(r.1@) == file_warnings(user_files@) + file_warnings(project_files@),
{
    let mut grammars = bundled_grammars;
    let mut warnings = load_grammars(&mut grammars, user_files);
    let mut more = load_grammars(&mut grammars, project_files);
    let ghost first = warnings@;
    let ghost second = more@;
    warnings.append(&mut more);
    assert(text::views(warnings@) =~= text::views(first) + text::views(second));
    (RuntimeConfig { grammars, categories_config, dangerous_patterns, mish_config }, warnings)
}

// ---------------------------------------------------------------------------
// Laws
// ---------------------------------------------------------------------------

/// The last file for a tool decides: its grammar takes the place of every
/// earlier one, and grammars for other tools stay.
pub proof fn law_last_grammar_wins(
    grammars: Seq<(Seq<char>, Grammar)>,
    files: Seq<GrammarFile>,
    file: GrammarFile,
    grammar: Grammar,
    tool: Seq<char>,
)
    requires
        file.outcome == GrammarOutcome::Loaded(grammar),
        tool_of(file.file_name@) is Some,
    ensures
        strmap::lookup(with_files(grammars, files.push(file)), tool) == (if tool_of(
            file.file_name@,
        ) == Some(tool) {
            Some(grammar)
        } else {
            strmap::lookup(with_files(grammars, files), tool)
        }),
{
    assert(files.push(file).drop_last() =~= files);
    strmap::law_get_after_put(
        with_files(grammars, files),
        tool_of(file.file_name@)->0,
        grammar,
        tool,
    );
}

/// A file that gives no grammar, or is none by its name, changes nothing.
pub proof fn law_bad_grammars_are_skipped(
    grammars: Seq<(Seq<char>, Grammar)>,
    files: Seq<GrammarFile>,
    file: GrammarFile,
)
    requires
        !(file.outcome is Loaded) || tool_of(file.file_name@) is None,
    ensures
        with_files(grammars, files.push(file)) == with_files(grammars, files),
{
    assert(files.push(file).drop_last() =~= files);
}

/// Where no file gives a grammar for a tool, the earlier one stays.
pub proof fn law_other_grammars_stay(
    grammars: Seq<(Seq<char>, Grammar)>,
    files: Seq<GrammarFile>,
    tool: Seq<char>,
)
    requires
        forall|i: int|
            0 <= i < files.len() ==> tool_of((#[trigger] files[i]).file_name@) != Some(tool),
    ensures
        strmap::lookup(with_files(grammars, files), tool) == strmap::lookup(grammars, tool),
    decreases files.len(),
{
    if files.len() > 0 {
        let rest = files.drop_last();
        assert forall|i: int| 0 <= i < rest.len() implies tool_of(
            (#[trigger] rest[i]).file_name@,
        ) != Some(tool) by {
            assert(rest[i] == files[i]);
        }
        law_other_grammars_stay(grammars, rest, tool);
        let file = files[files.len() - 1];
        match (tool_of(file.file_name@), file.outcome) {
            (Some(other), GrammarOutcome::Loaded(grammar)) => {
                strmap::law_get_after_put(with_files(grammars, rest), other, grammar, tool);
            },
            _ => {},
        }
    }
}

/// A file is a grammar for the tool that it is named after, before its extension; one
/// with an underscore in front is for none, and neither is one with another extension.
pub proof fn law_grammars_are_named_after_their_tools(name: Seq<char>)
    ensures
        name.len() > 0 && name[0] != '_' ==> tool_of(
            name + seq!['.', 't', 'o', 'm', 'l'],
        ) == Some(name),
        name.len() > 0 && name[0] == '_' ==> tool_of(name + seq!['.', 't', 'o', 'm', 'l']) is None,
        tool_of(name) is Some ==> name == tool_of(name)->0 + seq!['.', 't', 'o', 'm', 'l']
            && name[0] != '_' && tool_of(name)->0.len() > 0,
{
    reveal_strlit(".toml");
    let end = seq!['.', 't', 'o', 'm', 'l'];
    assert(".toml"@ =~= end);
    let file = name + end;
    assert(file.skip(file.len() - 5) =~= end);
    assert(file.take(file.len() - 5) =~= name);
    if tool_of(name) is Some {
        assert(name.skip(name.len() - 5) == end);
        assert(name =~= name.take(name.len() - 5) + end);
    }
}

/// A file for a tool that could not be read or parsed is told with its path and the
/// reason, behind the earlier ones; no other file is.
pub proof fn law_unusable_files_are_told(files: Seq<GrammarFile>, file: GrammarFile)
    ensures
        ({
            let told = file_warnings(files.push(file));
            let before = file_warnings(files);
            let counts = tool_of(file.file_name@) is Some;
            &&& counts && file.outcome is Unreadable ==> told == before.push(
                "warning: failed to read grammar file '"@ + file.path@ + seq!['\'', ':', ' ']
                    + file.outcome->Unreadable_0@,
            )
            &&& counts && file.outcome is Malformed ==> told == before.push(
                "warning: failed to parse grammar '"@ + file.path@ + seq!['\'', ':', ' ']
                    + file.outcome->Malformed_0@,
            )
            &&& !counts || file.outcome is Loaded ==> told == before
        }),
{
    reveal_strlit("': ");
    assert("': "@ =~= seq!['\'', ':', ' ']);
    assert(files.push(file).drop_last() =~= files);
    match file.outcome {
        GrammarOutcome::Unreadable(why) => {
            assert("warning: failed to read grammar file '"@ + file.path@ + ("': "@ + why@)
                =~= "warning: failed to read grammar file '"@ + file.path@ + seq!['\'', ':', ' ']
                + why@);
        },
        GrammarOutcome::Malformed(why) => {
            assert("warning: failed to parse grammar '"@ + file.path@ + ("': "@ + why@)
                =~= "warning: failed to parse grammar '"@ + file.path@ + seq!['\'', ':', ' ']
                + why@);
        },
        _ => {},
    }
}

/// Of the grammars that come with the program the last one under a name counts, and one
/// that does not parse changes nothing and is told.
pub proof fn law_bundled_grammars_that_parse_are_kept(
    list: Seq<(String, Result<Grammar, String>)>,
    name: String,
    parsed: Result<Grammar, String>,
    tool: Seq<char>,
)
    ensures
        parsed is Ok ==> strmap::lookup(bundled(list.push((name, parsed))), tool) == (if tool
            == name@ {
            Some(parsed->Ok_0)
        } else {
            strmap::lookup(bundled(list), tool)
        }),
        parsed is Err ==> bundled(list.push((name, parsed))) == bundled(list),
        parsed is Ok ==> bundled_warnings(list.push((name, parsed))) == bundled_warnings(list),
        parsed is Err ==> bundled_warnings(list.push((name, parsed))) == bundled_warnings(
            list,
        ).push(
            "warning: failed to parse bundled grammar '"@ + name@ + seq!['\'', ':', ' ']
                + parsed->Err_0@,
        ),
{
    reveal_strlit("': ");
    assert("': "@ =~= seq!['\'', ':', ' ']);
    assert(list.push((name, parsed)).drop_last() =~= list);
    match parsed {
        Ok(grammar) => {
            strmap::law_get_after_put(bundled(list), name@, grammar, tool);
        },
        Err(why) => {
            assert("warning: failed to parse bundled grammar '"@ + name@ + ("': "@ + why@)
                =~= "warning: failed to parse bundled grammar '"@ + name@ + seq!['\'', ':', ' ']
                + why@);
        },
    }
}

/// Each pattern of a dangerous command is either kept with its reason, where it
/// compiled, or listed with the error; both in their order.
pub proof fn law_each_pattern_is_kept_or_listed(
    raw: Seq<RawDangerousPattern>,
    compiled: Seq<Result<Regex, regex::Error>>,
    pattern: RawDangerousPattern,
    outcome: Result<Regex, regex::Error>,
)
    requires
        raw.len() == compiled.len(),
    ensures
        outcome is Ok ==> valid_patterns(raw.push(pattern), compiled.push(outcome))
            == valid_patterns(raw, compiled).push((outcome->Ok_0, pattern.reason@))
            && invalid_patterns(raw.push(pattern), compiled.push(outcome)) == invalid_patterns(
            raw,
            compiled,
        ),
        outcome is Err ==> invalid_patterns(raw.push(pattern), compiled.push(outcome))
            == invalid_patterns(raw, compiled).push((pattern.pattern@, outcome->Err_0))
            && valid_patterns(raw.push(pattern), compiled.push(outcome)) == valid_patterns(
            raw,
            compiled,
        ),
        valid_patterns(raw, compiled).len() + invalid_patterns(raw, compiled).len() == raw.len(),
{
    assert(raw.push(pattern).drop_last() =~= raw);
    assert(compiled.push(outcome).drop_last() =~= compiled);
    lemma_patterns_are_counted(raw, compiled);
}

proof fn lemma_patterns_are_counted(
    raw: Seq<RawDangerousPattern>,
    compiled: Seq<Result<Regex, regex::Error>>,
)
    requires
        raw.len() == compiled.len(),
    ensures
        valid_patterns(raw, compiled).len() + invalid_patterns(raw, compiled).len() == raw.len(),
    decreases raw.len(),
{
    if raw.len() > 0 {
        lemma_patterns_are_counted(raw.drop_last(), compiled.drop_last());
    }
}

/// A grammar of the project comes before one of the user, and that before one that comes
/// with the program.
pub proof fn law_projects_come_before_users(
    mish_config: MishConfig,
    bundled_grammars: StrMap<Grammar>,
    user_files: Vec<GrammarFile>,
    project_files: Vec<GrammarFile>,
    categories_config: CategoriesConfig,
    dangerous_patterns: Vec<DangerousPattern>,
    r: (RuntimeConfig, Vec<String>),
    tool: Seq<char>,
)
    requires
        call_ensures(
            load_runtime_config,
            (
                mish_config,
                bundled_grammars,
                user_files,
                project_files,
                categories_config,
                dangerous_patterns,
            ),
            r,
        ),
    ensures
        ({
            let found = strmap::lookup(r.0.grammars@, tool);
            let project = strmap::lookup(with_files(Seq::empty(), project_files@), tool);
            let user = strmap::lookup(with_files(Seq::empty(), user_files@), tool);
            &&& project is Some ==> found == project
            &&& project is None && user is Some ==> found == user
            &&& project is None && user is None ==> found == strmap::lookup(
                bundled_grammars@,
                tool,
            )
        }),
{
    lemma_files_come_first(with_files(bundled_grammars@, user_files@), project_files@, tool);
    lemma_files_come_first(bundled_grammars@, user_files@, tool);
}

proof fn lemma_files_come_first(
    grammars: Seq<(Seq<char>, Grammar)>,
    files: Seq<GrammarFile>,
    tool: Seq<char>,
)
    ensures
        strmap::lookup(with_files(grammars, files), tool) == (match strmap::lookup(
            with_files(Seq::empty(), files),
            tool,
        ) {
            Some(grammar) => Some(grammar),
            None => strmap::lookup(grammars, tool),
        }),
    decreases files.len(),
{
    if files.len() > 0 {
        let rest = files.drop_last();
        lemma_files_come_first(grammars, rest, tool);
        match (tool_of(files.last().file_name@), files.last().outcome) {
            (Some(other), GrammarOutcome::Loaded(grammar)) => {
                strmap::law_get_after_put(with_files(grammars, rest), other, grammar, tool);
                strmap::law_get_after_put(with_files(Seq::empty(), rest), other, grammar, tool);
            },
            _ => {},
        }
    }
}

} // verus!
