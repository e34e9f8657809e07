//! Flags that a grammar adds to a command before it runs: quiet ones that cut
//! noise at its source, and verbose ones that enrich terse commands.
use vstd::prelude::*;

use crate::grammar::{Grammar, QuietConfig};
use crate::strmap;
use crate::text;
use crate::text::{concat3, list_has};

pub use crate::format::OutputMode;

verus! {

/// A flag that could be added, and why.
#[derive(Debug, Clone, PartialEq, Eq)]
pub struct Recommendation {
    pub flag: String,
    pub reason: String,
}

/// What was added to a command, and what could be.
#[derive(Debug, Clone)]
pub struct PreflightResult {
    pub injected: Vec<String>,
    pub recommendations: Vec<Recommendation>,
}

// ---------------------------------------------------------------------------
// Specifications
// ---------------------------------------------------------------------------

/// The flags, each once and in their order, that the command lacks.
pub open spec fn added(command: Seq<Seq<char>>, flags: Seq<Seq<char>>) -> Seq<Seq<char>>
    decreases flags.len(),
{
    if flags.len() == 0 {
        Seq::empty()
    } else {
        let before = added(command, flags.drop_last());
        if (command + before).contains(flags.last()) {
            before
        } else {
            before.push(flags.last())
        }
    }
}

/// The flags, in their order, that the command lacks.
pub open spec fn missing(command: Seq<Seq<char>>, flags: Seq<Seq<char>>) -> Seq<Seq<char>>
    decreases flags.len(),
{
    if flags.len() == 0 {
        Seq::empty()
    } else if command.contains(flags.last()) {
        missing(command, flags.drop_last())
    } else {
        missing(command, flags.drop_last()).push(flags.last())
    }
}

/// The flags to add and the flags to recommend. An action's own settings take
/// the place of the general ones.
pub open spec fn quiet_flags(quiet: QuietConfig, action: Option<Seq<char>>) -> (
    Seq<Seq<char>>,
    Seq<Seq<char>>,
) {
    let own = match action {
        Some(name) => strmap::lookup(quiet.actions@, name),
        None => None,
    };
    match own {
        Some(own) => (text::views(own.safe_inject@), text::views(own.recommend@)),
        None => (text::views(quiet.safe_inject@), text::views(quiet.recommend@)),
    }
}

/// The flags that apply in a mode: none where the output is passed through, and
/// none where the grammar has no quiet settings.
pub open spec fn flags_for(
    grammar: Grammar,
    action: Option<Seq<char>>,
    mode: OutputMode,
) -> (Seq<Seq<char>>, Seq<Seq<char>>) {
    if mode == OutputMode::Passthrough {
        (Seq::empty(), Seq::empty())
    } else {
        match grammar.quiet {
            Some(quiet) => quiet_flags(quiet, action),
            None => (Seq::empty(), Seq::empty()),
        }
    }
}

/// Why a flag is recommended.
pub open spec fn reason(flag: Seq<char>) -> Seq<char> {
    "Consider adding "@ + flag + " for quieter output"@
}

/// A recommendation as its flag and its reason.
pub open spec fn advice(recommendations: Seq<Recommendation>) -> Seq<(Seq<char>, Seq<char>)> {
    Seq::new(recommendations.len(), |i: int| (recommendations[i].flag@, recommendations[i].reason@))
}

/// Flags with the reason for each.
pub open spec fn with_reasons(flags: Seq<Seq<char>>) -> Seq<(Seq<char>, Seq<char>)> {
    Seq::new(flags.len(), |i: int| (flags[i], reason(flags[i])))
}

/// A name given as an optional reference.
pub open spec fn opt_name(name: Option<&str>) -> Option<Seq<char>> {
    match name {
        Some(name) => Some(name@),
        None => None,
    }
}

// ---------------------------------------------------------------------------
// Injection
// ---------------------------------------------------------------------------

/// Appends the flags that the command lacks and gives them back.
fn inject(command: &mut Vec<String>, flags: &[String]) -> (r: Vec<String>)
    ensures
        text::views(r@) == added(text::views(old(command)@), text::views(flags@)),
        text::views(final(command)@) == text::views(old(command)@) + added(
            text::views(old(command)@),
            text::views(flags@),
        ),
{
    let ghost start = text::views(command@);
    let ghost all = text::views(flags@);
    let mut r: Vec<String> = Vec::new();
    let mut i: usize = 0;
    assert(all.take(0).len() == 0);
    assert(text::views(r@) =~= Seq::<Seq<char>>::empty());
    assert(start + Seq::<Seq<char>>::empty() =~= start);
    while i < flags.len()
        invariant
            all == text::views(flags@),
            i <= flags@.len(),
            text::views(r@) == added(start, all.take(i as int)),
            text::views(command@) == start + added(start, all.take(i as int)),
        decreases flags.len() - i,
    {
        assert(all.take(i + 1).drop_last() =~= all.take(i as int));
        assert(all.take(i + 1).last() == flags@[i as int]@);
        if !list_has(command.as_slice(), flags[i].as_str()) {
            let ghost had = r@;
            let ghost stood = command@;
            command.push(flags[i].clone());
            r.push(flags[i].clone());
            assert(text::views(r@) =~= text::views(had).push(flags@[i as int]@));
            assert(text::views(command@) =~= text::views(stood).push(flags@[i as int]@));
            assert(text::views(command@) =~= start + added(start, all.take(i + 1)));
        }
        i += 1;
    }
    assert(all.take(i as int) =~= all);
    r
}

/// The recommendations for the flags that the command lacks.
fn recommend(command: &[String], flags: &[String]) -> (r: Vec<Recommendation>)
    ensures
        advice(r@) == with_reasons(missing(text::views(command@), text::views(flags@))),
{
    let ghost had = text::views(command@);
    let ghost all = text::views(flags@);
    let mut r: Vec<Recommendation> = Vec::new();
    let mut i: usize = 0;
    assert(all.take(0).len() == 0);
    while i < flags.len()
        invariant
            had == text::views(command@),
            all == text::views(flags@),
            i <= flags@.len(),
            advice(r@) =~= with_reasons(missing(had, all.take(i as int))),
        decreases flags.len() - i,
    {
        assert(all.take(i + 1).drop_last() =~= all.take(i as int));
        assert(all.take(i + 1).last() == flags@[i as int]@);
        if !list_has(command, flags[i].as_str()) {
            let ghost before = r@;
            let told = concat3("Consider adding ", flags[i].as_str(), " for quieter output");
            r.push(Recommendation { flag: flags[i].clone(), reason: told });
            assert(advice(r@) =~= advice(before).push(
                (flags@[i as int]@, reason(flags@[i as int]@)),
            ));
        }
        i += 1;
    }
    assert(all.take(i as int) =~= all);
    r
}

/// Adds the quiet flags that a grammar calls safe, and recommends others. The
/// action is given by its name in the grammar.
///
/// Nothing is added where the output is passed through, and a flag that stands
/// in the command already is neither added nor recommended.
pub fn preflight(
    command: &mut Vec<String>,
    grammar: &Grammar,
    action: Option<&str>,
    mode: OutputMode,
) -> (r: PreflightResult)
    ensures
        ({
            let (inject, recommend) = flags_for(*grammar, opt_name(action), mode);
            let new = added(text::views(old(command)@), inject);
            &&& text::views(r.injected@) == new
            &&& text::views(final(command)@) == text::views(old(command)@) + new
            &&& advice(r.recommendations@) == with_reasons(
                missing(text::views(final(command)@), recommend),
            )
        }),
{
    let none = PreflightResult { injected: Vec::new(), recommendations: Vec::new() };
    proof {
        assert(text::views(none.injected@) =~= Seq::<Seq<char>>::empty());
        assert(text::views(command@) + Seq::<Seq<char>>::empty() =~= text::views(command@));
        assert(advice(none.recommendations@) =~= with_reasons(Seq::empty()));
    }
    if mode == OutputMode::Passthrough {
        return none;
    }
    let quiet = match &grammar.quiet {
        Some(quiet) => quiet,
        None => return none,
    };
    let own = match action {
        Some(name) => quiet.actions.get(name),
        None => None,
    };
    match own {
        Some(own) => {
            let injected = inject(command, own.safe_inject.as_slice());
            let recommendations = recommend(command.as_slice(), own.recommend.as_slice());
            PreflightResult { injected, recommendations }
        },
        None => {
            let injected = inject(command, quiet.safe_inject.as_slice());
            let recommendations = recommend(command.as_slice(), quiet.recommend.as_slice());
            PreflightResult { injected, recommendations }
        },
    }
}

/// The verbose flags of a grammar.
pub open spec fn verbose_flags(grammar: Grammar) -> Seq<Seq<char>> {
    match grammar.verbosity {
        Some(verbosity) => text::views(verbosity.inject@),
        None => Seq::empty(),
    }
}

/// Adds the grammar's verbose flags that the command lacks and gives them back.
pub fn inject_verbosity(command: &mut Vec<String>, grammar: &Grammar) -> (r: Vec<String>)
    ensures
        text::views(r@) == added(text::views(old(command)@), verbose_flags(*grammar)),
        text::views(final(command)@) == text::views(old(command)@) + added(
            text::views(old(command)@),
            verbose_flags(*grammar),
        ),
{
    match &grammar.verbosity {
        Some(verbosity) => inject(command, verbosity.inject.as_slice()),
        None => {
            let none: Vec<String> = Vec::new();
            proof {
                assert(text::views(none@) =~= Seq::<Seq<char>>::empty());
                assert(text::views(command@) + Seq::<Seq<char>>::empty() =~= text::views(command@));
            }
            none
        },
    }
}

// ---------------------------------------------------------------------------
// Laws
// ---------------------------------------------------------------------------

/// Every flag stands in the command after it was added.
proof fn lemma_added_stands(command: Seq<Seq<char>>, flags: Seq<Seq<char>>)
    ensures
        forall|f: Seq<char>| #[trigger]
            flags.contains(f) ==> (command + added(command, flags)).contains(f),
    decreases flags.len(),
{
    if flags.len() > 0 {
        let rest = flags.drop_last();
        lemma_added_stands(command, rest);
        let before = command + added(command, rest);
        let after = command + added(command, flags);
        assert forall|f: Seq<char>| #[trigger] flags.contains(f) implies after.contains(f) by {
            if f == flags.last() {
                if !before.contains(f) {
                    assert(after[after.len() - 1] == f);
                }
            } else {
                let i = flags.index_of(f);
                assert(rest[i] == f);
                assert(rest.contains(f));
                assert(before.contains(f));
                let j = before.index_of(f);
                assert(after[j] == f);
            }
        }
    }
}

/// Only flags on the list are added, none that the command had, and none twice.
pub proof fn law_only_listed_flags_are_added(command: Seq<Seq<char>>, flags: Seq<Seq<char>>)
    ensures
        added(command, flags).no_duplicates(),
        forall|f: Seq<char>| #[trigger]
            added(command, flags).contains(f) <==> flags.contains(f) && !command.contains(f),
    decreases flags.len(),
{
    if flags.len() > 0 {
        let rest = flags.drop_last();
        law_only_listed_flags_are_added(command, rest);
        let before = added(command, rest);
        let after = added(command, flags);
        let last = flags.last();
        assert forall|f: Seq<char>| (command + before).contains(f) <==> (command.contains(f)
            || before.contains(f)) by {
            if (command + before).contains(f) {
                let i = (command + before).index_of(f);
                if i < command.len() {
                    assert(command[i] == f);
                } else {
                    assert(before[i - command.len()] == f);
                }
            }
            if command.contains(f) {
                let i = command.index_of(f);
                assert((command + before)[i] == f);
            }
            if before.contains(f) {
                let i = before.index_of(f);
                assert((command + before)[command.len() + i] == f);
            }
        }
        assert forall|f: Seq<char>| flags.contains(f) <==> (rest.contains(f) || f == last) by {
            if flags.contains(f) {
                let i = flags.index_of(f);
                if i < rest.len() {
                    assert(rest[i] == f);
                }
            }
            if rest.contains(f) {
                let i = rest.index_of(f);
                assert(flags[i] == f);
            }
            if f == last {
                assert(flags[flags.len() - 1] == f);
            }
        }
        if !(command + before).contains(last) {
            assert forall|f: Seq<char>|
                after.contains(f) <==> (before.contains(f) || f == last) by {
                if after.contains(f) {
                    let i = after.index_of(f);
                    if i < before.len() {
                        assert(before[i] == f);
                    }
                }
                if before.contains(f) {
                    let i = before.index_of(f);
                    assert(after[i] == f);
                }
                if f == last {
                    assert(after[before.len() as int] == f);
                }
            }
            assert(!before.contains(last));
            assert(after =~= before.push(last));
        }
    }
}

/// Adding the same flags again changes nothing.
pub proof fn law_adding_again_changes_nothing(command: Seq<Seq<char>>, flags: Seq<Seq<char>>)
    ensures
        added(command + added(command, flags), flags) == Seq::<Seq<char>>::empty(),
{
    lemma_added_stands(command, flags);
    let now = command + added(command, flags);
    law_only_listed_flags_are_added(now, flags);
    let again = added(now, flags);
    if again.len() > 0 {
        assert(again.contains(again[0]));
    }
}

/// Where the output is passed through, a command is left as it is.
pub proof fn law_passthrough_adds_nothing(
    grammar: Grammar,
    action: Option<Seq<char>>,
    command: Seq<Seq<char>>,
)
    ensures
        ({
            let (inject, recommend) = flags_for(grammar, action, OutputMode::Passthrough);
            &&& added(command, inject) == Seq::<Seq<char>>::empty()
            &&& missing(command, recommend) == Seq::<Seq<char>>::empty()
        }),
{
}

/// More flags come behind those that were added before: what is added of two lists is
/// what is added of the first, and then of the second to the longer command.
pub proof fn law_flags_are_added_in_their_order(
    command: Seq<Seq<char>>,
    first: Seq<Seq<char>>,
    second: Seq<Seq<char>>,
)
    ensures
        added(command, first + second) == added(command, first) + added(
            command + added(command, first),
            second,
        ),
    decreases second.len(),
{
    let before = added(command, first);
    if second.len() == 0 {
        assert(first + second =~= first);
        assert(before + added(command + before, second) =~= before);
    } else {
        let fewer = second.drop_last();
        law_flags_are_added_in_their_order(command, first, fewer);
        assert((first + second).drop_last() =~= first + fewer);
        assert((first + second).last() == second.last());
        let more = added(command + before, fewer);
        assert(command + (before + more) =~= (command + before) + more);
        assert((before + more).push(second.last()) =~= before + more.push(second.last()));
    }
}

/// A flag is added exactly where the command lacks it.
pub proof fn law_one_flag_is_added_where_it_is_missing(command: Seq<Seq<char>>, flag: Seq<char>)
    ensures
        added(command, seq![flag]) == (if command.contains(flag) {
            Seq::empty()
        } else {
            seq![flag]
        }),
{
    let none = Seq::<Seq<char>>::empty();
    assert(seq![flag].drop_last() =~= none);
    assert(added(command, none) =~= none);
    assert(command + none =~= command);
    assert(none.push(flag) =~= seq![flag]);
}

/// Recommended is every flag of the list, in its order, that the command lacks.
pub proof fn law_missing_flags_are_recommended(command: Seq<Seq<char>>, flags: Seq<Seq<char>>)
    ensures
        missing(command, flags) == flags.filter(|flag: Seq<char>| !command.contains(flag)),
    decreases flags.len(),
{
    reveal(Seq::filter);
    if flags.len() > 0 {
        law_missing_flags_are_recommended(command, flags.drop_last());
    }
    assert(missing(command, flags) =~= flags.filter(|flag: Seq<char>| !command.contains(flag)));
}

/// An action that has settings of its own goes by those alone, and every other goes by
/// the general ones; a grammar without settings asks for nothing.
pub proof fn law_own_settings_replace_the_general_ones(
    grammar: Grammar,
    action: Option<Seq<char>>,
    mode: OutputMode,
    quiet: QuietConfig,
)
    requires
        mode != OutputMode::Passthrough,
    ensures
        grammar.quiet is None ==> flags_for(grammar, action, mode).0.len() == 0 && flags_for(
            grammar,
            action,
            mode,
        ).1.len() == 0,
        grammar.quiet == Some(quiet) ==> ({
            let (inject, recommend) = flags_for(grammar, action, mode);
            let own = action is Some && strmap::lookup(quiet.actions@, action->0) is Some;
            &&& own ==> inject == text::views(
                strmap::lookup(quiet.actions@, action->0)->0.safe_inject@,
            ) && recommend == text::views(
                strmap::lookup(quiet.actions@, action->0)->0.recommend@,
            )
            &&& !own ==> inject == text::views(quiet.safe_inject@) && recommend == text::views(
                quiet.recommend@,
            )
        }),
{
}

} // verus!
