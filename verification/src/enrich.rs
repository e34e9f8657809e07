//! Diagnostics for a command that failed.
//!
//! The facts that a reader of the failure would ask for next are looked up:
//! paths, permissions, the state of a repository, a port. What to look up, in
//! which order, and what is told of the answers is decided here; the looking up
//! itself is done by the caller, probe by probe.
use std::time::{Duration, Instant};
use vstd::prelude::*;

use crate::classifier;
use crate::distance;
use crate::distance::levenshtein;
use crate::grammar;
use crate::grammar::Grammar;
use crate::order;
use crate::order::sort_texts;
use crate::outside;
use crate::outside::parent_path;
use crate::strmap;
use crate::text;
use crate::text::{
    chars_of, concat2, concat3, copy_strings, find_part, has_part, has_prefix, join_strings,
    len_in_bytes, lines_of, list_has, parse_number, same, slice_string, split_at_char, trimmed,
};

verus! {

// ---------------------------------------------------------------------------
// Diagnoses
// ---------------------------------------------------------------------------

/// Where a path breaks.
#[derive(Debug, Clone)]
pub struct PathDiagnosis {
    pub requested: String,
    pub last_valid: String,
    pub breaks_at: String,
    pub siblings: Vec<String>,
}

/// What is known of the two ends of a file operation.
#[derive(Debug, Clone)]
pub struct FileOpDiagnosis {
    pub source_exists: bool,
    pub source_info: Option<String>,
    pub dest_exists: bool,
    pub dest_info: Option<String>,
    pub dest_parent_exists: bool,
    pub dest_parent_info: Option<String>,
}

/// Who may do what with a file, and who tries to.
#[derive(Debug, Clone)]
pub struct PermissionDiagnosis {
    pub path: String,
    pub owner: String,
    pub group: String,
    pub mode: u32,
    pub running_as: String,
    pub running_group: String,
    pub issue: String,
}

/// What is known of a command that was not found.
#[derive(Debug, Clone)]
pub struct CommandDiagnosis {
    pub command: String,
    pub in_path: bool,
    pub package_hint: Option<String>,
}

/// The diagnostics for a failure.
#[derive(Debug, Clone)]
pub struct EnrichmentResult {
    pub diagnostics: Vec<DiagnosticLine>,
}

/// A single diagnostic.
#[derive(Debug, Clone)]
pub struct DiagnosticLine {
    pub key: String,
    pub value: String,
}

pub struct DiagnosticView {
    pub key: Seq<char>,
    pub value: Seq<char>,
}

impl View for DiagnosticLine {
    type V = DiagnosticView;

    open spec fn view(&self) -> DiagnosticView {
        DiagnosticView { key: self.key@, value: self.value@ }
    }
}

pub open spec fn diagnostic_views(lines: Seq<DiagnosticLine>) -> Seq<DiagnosticView> {
    Seq::new(lines.len(), |i: int| lines[i]@)
}

fn diagnostic(key: &str, value: String) -> (r: DiagnosticLine)
    ensures
        r@ == (DiagnosticView { key: key@, value: value@ }),
{
    DiagnosticLine { key: key.to_owned(), value }
}

// ---------------------------------------------------------------------------
// Intent
// ---------------------------------------------------------------------------

/// What a command is about.
#[derive(Debug, Clone, Copy, PartialEq, Eq, Structural)]
pub enum CommandIntent {
    FileOp,
    DirOp,
    NetworkOp,
    BuildRun,
    ProcessExec,
}

pub open spec fn file_commands() -> Seq<Seq<char>> {
    seq![
        "cp"@, "mv"@, "ln"@, "rm"@, "touch"@, "chmod"@, "chown"@, "cat"@, "head"@, "tail"@,
        "less"@, "more"@,
    ]
}

pub open spec fn dir_commands() -> Seq<Seq<char>> {
    seq!["mkdir"@, "cd"@, "ls"@, "rmdir"@]
}

pub open spec fn network_commands() -> Seq<Seq<char>> {
    seq!["curl"@, "wget"@, "ssh"@]
}

pub open spec fn build_commands() -> Seq<Seq<char>> {
    seq![
        "cargo"@, "npm"@, "npx"@, "python"@, "python3"@, "go"@, "make"@, "node"@, "rustc"@,
        "gcc"@, "javac"@,
    ]
}

/// The name of a command without the path before it.
pub open spec fn base_name(command: Seq<char>) -> Seq<char> {
    text::split(command, '/').last()
}

/// What a command is about, by its name.
pub open spec fn intent_of(command: Seq<Seq<char>>) -> CommandIntent {
    if command.len() == 0 {
        CommandIntent::ProcessExec
    } else {
        let name = base_name(command[0]);
        if file_commands().contains(name) {
            CommandIntent::FileOp
        } else if dir_commands().contains(name) {
            CommandIntent::DirOp
        } else if network_commands().contains(name) {
            CommandIntent::NetworkOp
        } else if build_commands().contains(name) {
            CommandIntent::BuildRun
        } else {
            CommandIntent::ProcessExec
        }
    }
}

/// Whether a text is one of the given ones.
fn is_one_of(text: &str, list: &[&str]) -> (r: bool)
    ensures
        r == classifier::str_views(list@).contains(text@),
{
    let mut i: usize = 0;
    while i < list.len()
        invariant
            i <= list.len(),
            forall|j: int| 0 <= j < i ==> #[trigger] classifier::str_views(list@)[j] != text@,
        decreases list.len() - i,
    {
        if same(list[i], text) {
            proof {
                assert(classifier::str_views(list@)[i as int] == text@);
            }
            return true;
        }
        i += 1;
    }
    false
}

/// The name of a command without the path before it.
pub fn base_command(command: &str) -> (r: String)
    ensures
        r@ == base_name(command@),
{
    let parts = split_at_char(command, '/');
    proof {
        assert(text::views(parts@).last() == parts@[parts@.len() - 1]@);
    }
    parts[parts.len() - 1].clone()
}

pub fn detect_intent(command: &[String]) -> (r: CommandIntent)
    ensures
        r == intent_of(text::views(command@)),
{
    if command.len() == 0 {
        return CommandIntent::ProcessExec;
    }
    let name = base_command(command[0].as_str());
    let files = [
        "cp", "mv", "ln", "rm", "touch", "chmod", "chown", "cat", "head", "tail", "less", "more",
    ];
    let dirs = ["mkdir", "cd", "ls", "rmdir"];
    let network = ["curl", "wget", "ssh"];
    let build = [
        "cargo", "npm", "npx", "python", "python3", "go", "make", "node", "rustc", "gcc", "javac",
    ];
    proof {
        assert(classifier::str_views(files@) =~= file_commands());
        assert(classifier::str_views(dirs@) =~= dir_commands());
        assert(classifier::str_views(network@) =~= network_commands());
        assert(classifier::str_views(build@) =~= build_commands());
    }
    if is_one_of(name.as_str(), &files) {
        CommandIntent::FileOp
    } else if is_one_of(name.as_str(), &dirs) {
        CommandIntent::DirOp
    } else if is_one_of(name.as_str(), &network) {
        CommandIntent::NetworkOp
    } else if is_one_of(name.as_str(), &build) {
        CommandIntent::BuildRun
    } else {
        CommandIntent::ProcessExec
    }
}

// ---------------------------------------------------------------------------
// Package hints
// ---------------------------------------------------------------------------

/// Commands with the packages that they come in.
pub open spec fn package_hints() -> Seq<(Seq<char>, Seq<char>)> {
    seq![
        ("rg"@, "ripgrep"@),
        ("fd"@, "fd-find"@),
        ("bat"@, "bat"@),
        ("exa"@, "exa"@),
        ("jq"@, "jq"@),
        ("yq"@, "yq"@),
        ("fzf"@, "fzf"@),
        ("htop"@, "htop"@),
        ("tree"@, "tree"@),
        ("wget"@, "wget"@),
        ("curl"@, "curl"@),
    ]
}

/// The package that a command comes in.
pub fn lookup_package_hint(command: &str) -> (r: Option<&'static str>)
    ensures
        match r {
            Some(package) => strmap::lookup(package_hints(), command@) == Some(package@),
            None => strmap::lookup(package_hints(), command@) is None,
        },
{
    let hints: [(&'static str, &'static str); 11] = [
        ("rg", "ripgrep"),
        ("fd", "fd-find"),
        ("bat", "bat"),
        ("exa", "exa"),
        ("jq", "jq"),
        ("yq", "yq"),
        ("fzf", "fzf"),
        ("htop", "htop"),
        ("tree", "tree"),
        ("wget", "wget"),
        ("curl", "curl"),
    ];
    let ghost pairs = package_hints();
    assert(forall|j: int|
        0 <= j < 11 ==> (#[trigger] pairs[j]).0 == hints@[j].0@ && pairs[j].1 == hints@[j].1@);
    let mut i: usize = 0;
    while i < 11
        invariant
            i <= 11,
            pairs == package_hints(),
            pairs.len() == 11,
            hints@.len() == 11,
            forall|j: int|
                0 <= j < 11 ==> (#[trigger] pairs[j]).0 == hints@[j].0@ && pairs[j].1
                    == hints@[j].1@,
            forall|j: int| 0 <= j < i ==> (#[trigger] pairs[j]).0 != command@,
        decreases 11 - i,
    {
        proof {
            assert(pairs[i as int].0 == hints@[i as int].0@);
        }
        if same(hints[i].0, command) {
            proof {
                strmap::lemma_position(pairs, command@, i as nat);
            }
            return Some(hints[i].1);
        }
        i += 1;
    }
    proof {
        strmap::lemma_position(pairs, command@, i as nat);
    }
    None
}

// ---------------------------------------------------------------------------
// Budget
// ---------------------------------------------------------------------------

/// The time that the diagnostics for a failure may take, in milliseconds.
pub const ENRICHMENT_MS: u64 = 100;

/// A limit on the time that diagnostics may take.
pub struct Budget {
    pub start: Instant,
    pub limit: Duration,
}

impl Budget {
    pub fn new(limit_ms: u64) -> (r: Self)
        ensures
            outside::nanos(r.limit) == limit_ms * 1_000_000,
            call_ensures(Instant::now, (), r.start),
    {
        Budget { start: Instant::now(), limit: Duration::from_millis(limit_ms) }
    }

    /// What is left when `elapsed` has passed.
    pub fn remaining_after(&self, elapsed: Duration) -> (r: Duration)
        ensures
            outside::nanos(r) == (if outside::nanos(self.limit) >= outside::nanos(elapsed) {
                (outside::nanos(self.limit) - outside::nanos(elapsed)) as nat
            } else {
                0
            }),
    {
        self.limit.saturating_sub(elapsed)
    }

    /// What is left by now: the limit without the time that the clock shows since the
    /// start.
    pub fn remaining(&self) -> (r: Duration)
        ensures
            outside::nanos(r) <= outside::nanos(self.limit),
            exists|elapsed: Duration|
                {
                    &&& #[trigger] call_ensures(Instant::elapsed, (&self.start,), elapsed)
                    &&& outside::nanos(r) == (if outside::nanos(self.limit) >= outside::nanos(
                        elapsed,
                    ) {
                        (outside::nanos(self.limit) - outside::nanos(elapsed)) as nat
                    } else {
                        0
                    })
                },
    {
        let elapsed = self.start.elapsed();
        self.remaining_after(elapsed)
    }

    /// Whether nothing is left when `elapsed` has passed.
    pub fn exhausted_after(&self, elapsed: Duration) -> (r: bool)
        ensures
            r == (outside::nanos(elapsed) >= outside::nanos(self.limit)),
    {
        elapsed.as_nanos() >= self.limit.as_nanos()
    }

    /// Whether nothing is left by now: the time that the clock shows since the start
    /// decides. A budget of no time is used up at once.
    pub fn exhausted(&self) -> (r: bool)
        ensures
            outside::nanos(self.limit) == 0 ==> r,
            exists|elapsed: Duration|
                {
                    &&& #[trigger] call_ensures(Instant::elapsed, (&self.start,), elapsed)
                    &&& r == (outside::nanos(elapsed) >= outside::nanos(self.limit))
                },
    {
        let elapsed = self.start.elapsed();
        self.exhausted_after(elapsed)
    }
}

// ---------------------------------------------------------------------------
// Exit codes
// ---------------------------------------------------------------------------

/// What an exit code says by itself.
pub open spec fn exit_code_text(exit_code: int) -> Option<Seq<char>> {
    if exit_code == 126 {
        Some("permission denied (exit 126)"@)
    } else if exit_code == 127 {
        Some("command not found (exit 127)"@)
    } else if exit_code == 130 {
        Some("interrupted by user (SIGINT)"@)
    } else if exit_code == 137 {
        Some("killed by signal 9 (likely OOM)"@)
    } else if exit_code == 139 {
        Some("segmentation fault (SIGSEGV)"@)
    } else {
        None
    }
}

pub fn map_exit_code(exit_code: i32) -> (r: Option<DiagnosticLine>)
    ensures
        match r {
            Some(line) => exit_code_text(exit_code as int) == Some(line.value@) && line.key@
                == "signal"@,
            None => exit_code_text(exit_code as int) is None,
        },
{
    let value = if exit_code == 126 {
        "permission denied (exit 126)"
    } else if exit_code == 127 {
        "command not found (exit 127)"
    } else if exit_code == 130 {
        "interrupted by user (SIGINT)"
    } else if exit_code == 137 {
        "killed by signal 9 (likely OOM)"
    } else if exit_code == 139 {
        "segmentation fault (SIGSEGV)"
    } else {
        return None;
    };
    Some(diagnostic("signal", value.to_owned()))
}

// ---------------------------------------------------------------------------
// Likeness of names
// ---------------------------------------------------------------------------

/// Two names in lower case are alike: one is a part of the other, or both are
/// short and at most two edits apart.
pub open spec fn alike(a: Seq<char>, b: Seq<char>) -> bool {
    ||| text::contains(b, a)
    ||| text::contains(a, b)
    ||| text::byte_len(a) <= 10 && text::byte_len(b) <= 10 && distance::edits(a, b) <= 2
}

/// A name is like another one: not the same, but alike but for upper and lower
/// case.
pub open spec fn fuzzy(needle: Seq<char>, candidate: Seq<char>) -> bool {
    needle != candidate && alike(outside::lowercase(needle), outside::lowercase(candidate))
}

/// The edit distance between two names.
pub fn edit_distance(a: &str, b: &str) -> (r: usize)
    ensures
        r == distance::edits(a@, b@),
{
    levenshtein(a, b)
}

/// Whether two names in lower case are alike.
pub fn alike_lowered(a: &str, b: &str) -> (r: bool)
    ensures
        r == alike(a@, b@),
{
    if has_part(b, a) || has_part(a, b) {
        return true;
    }
    if len_in_bytes(a) <= 10 && len_in_bytes(b) <= 10 {
        return edit_distance(a, b) <= 2;
    }
    false
}

/// Whether a name is like another one without being the same.
pub fn fuzzy_match(needle: &str, haystack: &str) -> (r: bool)
    ensures
        r == fuzzy(needle@, haystack@),
{
    if same(needle, haystack) {
        return false;
    }
    let n = needle.to_lowercase();
    let h = haystack.to_lowercase();
    alike_lowered(n.as_str(), h.as_str())
}

/// How many similar names are told at most.
pub const MAX_SIMILAR: usize = 5;

/// The first names that are like the command, each once.
pub open spec fn similar_names(command: Seq<char>, names: Seq<Seq<char>>) -> Seq<Seq<char>>
    decreases names.len(),
{
    if names.len() == 0 {
        Seq::empty()
    } else {
        let before = similar_names(command, names.drop_last());
        if before.len() < MAX_SIMILAR && fuzzy(command, names.last()) && !before.contains(
            names.last(),
        ) {
            before.push(names.last())
        } else {
            before
        }
    }
}

/// The first names that are like a branch.
pub open spec fn similar_branches(branch: Seq<char>, names: Seq<Seq<char>>) -> Seq<Seq<char>>
    decreases names.len(),
{
    if names.len() == 0 {
        Seq::empty()
    } else {
        let before = similar_branches(branch, names.drop_last());
        if before.len() < MAX_SIMILAR && fuzzy(branch, names.last()) {
            before.push(names.last())
        } else {
            before
        }
    }
}

fn pick_similar_names(command: &str, names: &[String]) -> (r: Vec<String>)
    ensures
        text::views(r@) == similar_names(command@, text::views(names@)),
{
    let mut r: Vec<String> = Vec::new();
    let ghost all = text::views(names@);
    let mut i: usize = 0;
    proof {
        assert(text::views(r@) =~= Seq::<Seq<char>>::empty());
    }
    while i < names.len()
        invariant
            i <= names.len(),
            all == text::views(names@),
            text::views(r@) == similar_names(command@, all.take(i as int)),
        decreases names.len() - i,
    {
        let ghost before = r@;
        proof {
            assert(all.take(i + 1).drop_last() =~= all.take(i as int));
            assert(all.take(i + 1).last() == names@[i as int]@);
            assert(text::views(r@).len() == r@.len());
        }
        let name = names[i].as_str();
        if r.len() < MAX_SIMILAR && fuzzy_match(command, name) && !list_has(r.as_slice(), name) {
            r.push(names[i].clone());
            proof {
                assert(text::views(r@) =~= text::views(before).push(name@));
            }
        }
        i += 1;
    }
    proof {
        assert(all.take(i as int) =~= all);
    }
    r
}

fn pick_similar_branches(branch: &str, names: &[String]) -> (r: Vec<String>)
    ensures
        text::views(r@) == similar_branches(branch@, text::views(names@)),
{
    let mut r: Vec<String> = Vec::new();
    let ghost all = text::views(names@);
    let mut i: usize = 0;
    proof {
        assert(text::views(r@) =~= Seq::<Seq<char>>::empty());
    }
    while i < names.len()
        invariant
            i <= names.len(),
            all == text::views(names@),
            text::views(r@) == similar_branches(branch@, all.take(i as int)),
        decreases names.len() - i,
    {
        let ghost before = r@;
        proof {
            assert(all.take(i + 1).drop_last() =~= all.take(i as int));
            assert(all.take(i + 1).last() == names@[i as int]@);
            assert(text::views(r@).len() == r@.len());
        }
        let name = names[i].as_str();
        if r.len() < MAX_SIMILAR && fuzzy_match(branch, name) {
            r.push(names[i].clone());
            proof {
                assert(text::views(r@) =~= text::views(before).push(name@));
            }
        }
        i += 1;
    }
    proof {
        assert(all.take(i as int) =~= all);
    }
    r
}

// ---------------------------------------------------------------------------
// What is told of an answer
// ---------------------------------------------------------------------------

/// A check mark for what is there, a cross for what is not.
pub open spec fn mark(exists: bool) -> Seq<char> {
    if exists {
        "\u{2713}"@
    } else {
        "\u{2717}"@
    }
}

fn mark_text(exists: bool) -> (r: &'static str)
    ensures
        r@ == mark(exists),
{
    if exists {
        "\u{2713}"
    } else {
        "\u{2717}"
    }
}

/// The source of a file operation.
pub fn source_exists(info: &str, exists: bool) -> (r: DiagnosticLine)
    ensures
        r@ == (DiagnosticView { key: "source"@, value: info@ + " "@ + mark(exists) }),
{
    diagnostic("source", concat3(info, " ", mark_text(exists)))
}

/// The repository around the working directory, if there is one.
pub open spec fn git_repo_text(found: Option<Seq<char>>) -> Seq<char> {
    match found {
        Some(dir) => dir + " (found .git)"@,
        None => "not a git repository"@,
    }
}

pub fn is_git_repo(found: Option<&str>) -> (r: DiagnosticLine)
    ensures
        r@ == (DiagnosticView {
            key: "git_repo"@,
            value: git_repo_text(
                match found {
                    Some(dir) => Some(dir@),
                    None => None,
                },
            ),
        }),
{
    match found {
        Some(dir) => diagnostic("git_repo", concat2(dir, " (found .git)")),
        None => diagnostic("git_repo", "not a git repository".to_owned()),
    }
}

/// What a program wrote, or nothing where it could not be run.
pub open spec fn output_view(output: Option<&str>) -> Option<Seq<char>> {
    match output {
        Some(o) => Some(o@),
        None => None,
    }
}

pub open spec fn branch_text(branch: Seq<char>, output: Option<Seq<char>>) -> Seq<char> {
    match output {
        None => branch + " (git not available)"@,
        Some(o) => if text::trim(o).len() == 0 {
            branch + " (not found)"@
        } else {
            branch + " (exists)"@
        },
    }
}

/// Whether a branch exists, by what `git branch --list` wrote.
pub fn branch_exists(branch: &str, output: Option<&str>) -> (r: DiagnosticLine)
    ensures
        r@ == (DiagnosticView {
            key: "branch"@,
            value: branch_text(branch@, output_view(output)),
        }),
{
    let note = match output {
        None => " (git not available)",
        Some(o) => {
            let t = trimmed(o);
            if t.as_str().is_empty() {
                " (not found)"
            } else {
                " (exists)"
            }
        },
    };
    diagnostic("branch", concat2(branch, note))
}

/// A text without the stars that mark the current branch.
pub open spec fn without_stars(line: Seq<char>) -> Seq<char>
    decreases line.len(),
{
    if text::starts_with(line, "* "@) && "* "@.len() > 0 {
        without_stars(line.skip("* "@.len() as int))
    } else {
        line
    }
}

/// The branches in what `git branch` wrote.
pub open spec fn branch_names(output: Seq<char>) -> Seq<Seq<char>> {
    Seq::new(
        text::lines(output).len(),
        |i: int| without_stars(text::trim(text::lines(output)[i])),
    )
}

fn strip_stars(line: String) -> (r: String)
    ensures
        r@ == without_stars(line@),
{
    let mut rest = line;
    proof {
        reveal_strlit("* ");
    }
    loop
        invariant_except_break
            without_stars(rest@) == without_stars(line@),
            "* "@.len() == 2,
        ensures
            rest@ == without_stars(line@),
        decreases rest@.len(),
    {
        match text::without_prefix(rest.as_str(), "* ") {
            Some(shorter) => {
                rest = shorter;
            },
            None => {
                break;
            },
        }
    }
    rest
}

fn branches_in(output: &str) -> (r: Vec<String>)
    ensures
        text::views(r@) == branch_names(output@),
{
    let lines = lines_of(output);
    let mut r: Vec<String> = Vec::new();
    let mut i: usize = 0;
    while i < lines.len()
        invariant
            i <= lines.len(),
            text::views(lines@) == text::lines(output@),
            r@.len() == i,
            forall|j: int| 0 <= j < i ==> (#[trigger] r@[j])@ == branch_names(output@)[j],
        decreases lines.len() - i,
    {
        proof {
            assert(text::lines(output@)[i as int] == lines@[i as int]@);
        }
        let name = strip_stars(trimmed(lines[i].as_str()));
        r.push(name);
        i += 1;
    }
    proof {
        assert(text::views(r@) =~= branch_names(output@));
    }
    r
}

/// Names, or a word where there are none.
pub open spec fn names_or_none(names: Seq<Seq<char>>) -> Seq<char> {
    if names.len() == 0 {
        "none found"@
    } else {
        text::join(names, ", "@)
    }
}

fn tell_names(names: &[String]) -> (r: String)
    ensures
        r@ == names_or_none(text::views(names@)),
{
    proof {
        assert(text::views(names@).len() == names@.len());
    }
    if names.len() == 0 {
        "none found".to_owned()
    } else {
        join_strings(names, ", ")
    }
}

/// Branches that are like the one asked for, by what `git branch` wrote.
pub fn branch_list_similar(branch: &str, output: Option<&str>) -> (r: DiagnosticLine)
    ensures
        r@ == (DiagnosticView {
            key: "similar_branches"@,
            value: match output {
                None => "git not available"@,
                Some(o) => names_or_none(similar_branches(branch@, branch_names(o@))),
            },
        }),
{
    match output {
        None => diagnostic("similar_branches", "git not available".to_owned()),
        Some(o) => {
            let names = branches_in(o);
            let similar = pick_similar_branches(branch, names.as_slice());
            diagnostic("similar_branches", tell_names(similar.as_slice()))
        },
    }
}

/// The state of the working tree, by what `git status --porcelain` wrote.
pub fn working_tree_clean(output: Option<&str>) -> (r: DiagnosticLine)
    ensures
        r@ == (DiagnosticView {
            key: "working_tree"@,
            value: match output {
                None => "git not available"@,
                Some(o) => if text::trim(o@).len() == 0 {
                    "clean"@
                } else {
                    text::dec(text::lines(o@).len()) + " changed file(s)"@
                },
            },
        }),
{
    match output {
        None => diagnostic("working_tree", "git not available".to_owned()),
        Some(o) => {
            let t = trimmed(o);
            if t.as_str().is_empty() {
                return diagnostic("working_tree", "clean".to_owned());
            }
            let lines = lines_of(o);
            proof {
                assert(text::views(lines@).len() == lines@.len());
            }
            let mut value = text::dec_u64(lines.len() as u64);
            value.append(" changed file(s)");
            diagnostic("working_tree", value)
        },
    }
}

/// The first remote, by what `git remote -v` wrote.
pub fn remote_ref_status(output: Option<&str>) -> (r: DiagnosticLine)
    ensures
        r@ == (DiagnosticView {
            key: "remote"@,
            value: match output {
                None => "git not available"@,
                Some(o) => if text::trim(o@).len() == 0 {
                    "no remotes configured"@
                } else if text::lines(o@).len() == 0 {
                    "unknown"@
                } else {
                    text::lines(o@)[0]
                },
            },
        }),
{
    match output {
        None => diagnostic("remote", "git not available".to_owned()),
        Some(o) => {
            let t = trimmed(o);
            if t.as_str().is_empty() {
                return diagnostic("remote", "no remotes configured".to_owned());
            }
            let lines = lines_of(o);
            proof {
                assert(text::views(lines@).len() == lines@.len());
            }
            if lines.len() == 0 {
                return diagnostic("remote", "unknown".to_owned());
            }
            proof {
                assert(text::lines(o@)[0] == lines@[0]@);
            }
            diagnostic("remote", lines[0].clone())
        },
    }
}

/// How far the branch is from its upstream, by what `git rev-list` wrote: two
/// numbers with a tab between them.
pub fn ahead_behind(output: Option<&str>) -> (r: DiagnosticLine)
    ensures
        r@ == (DiagnosticView {
            key: "ahead_behind"@,
            value: match output {
                None => "git not available"@,
                Some(o) => {
                    let parts = text::split(text::trim(o@), '\t');
                    if parts.len() == 2 {
                        "ahead "@ + parts[0] + ", behind "@ + parts[1]
                    } else {
                        "no upstream configured"@
                    }
                },
            },
        }),
{
    match output {
        None => diagnostic("ahead_behind", "git not available".to_owned()),
        Some(o) => {
            let t = trimmed(o);
            let parts = split_at_char(t.as_str(), '\t');
            proof {
                assert(text::views(parts@).len() == parts@.len());
            }
            if parts.len() == 2 {
                proof {
                    assert(text::split(text::trim(o@), '\t')[0] == parts@[0]@);
                    assert(text::split(text::trim(o@), '\t')[1] == parts@[1]@);
                }
                let mut value = concat3("ahead ", parts[0].as_str(), ", behind ");
                value.append(parts[1].as_str());
                diagnostic("ahead_behind", value)
            } else {
                diagnostic("ahead_behind", "no upstream configured".to_owned())
            }
        },
    }
}

/// Whether a port of this machine takes connections.
pub fn port_listening(port: u16, listening: bool) -> (r: DiagnosticLine)
    ensures
        r@ == (DiagnosticView {
            key: "port"@,
            value: ":"@ + text::dec(port as nat) + (if listening {
                " is listening"@
            } else {
                " not listening"@
            }),
        }),
{
    let mut value = String::new();
    value.append(":");
    text::push_dec(&mut value, port as u64);
    if listening {
        value.append(" is listening");
    } else {
        value.append(" not listening");
    }
    proof {
        let end = if listening {
            " is listening"@
        } else {
            " not listening"@
        };
        assert(value@ =~= ":"@ + text::dec(port as nat) + end);
    }
    diagnostic("port", value)
}

/// An entry of a directory: its name, and whether it is a directory itself.
#[derive(Debug, Clone)]
pub struct DirEntry {
    pub name: String,
    pub is_dir: bool,
}

/// How many entries of a directory are told at most.
pub const MAX_ENTRIES: usize = 20;

pub open spec fn entry_text(entry: DirEntry) -> Seq<char> {
    if entry.is_dir {
        entry.name@ + "/"@
    } else {
        entry.name@
    }
}

/// The first entries of a directory, in their order.
pub open spec fn entry_texts(entries: Seq<DirEntry>) -> Seq<Seq<char>> {
    let n = if entries.len() < MAX_ENTRIES {
        entries.len()
    } else {
        MAX_ENTRIES as nat
    };
    Seq::new(n, |i: int| entry_text(entries[i]))
}

pub fn entry_names(entries: &[DirEntry]) -> (r: Vec<String>)
    ensures
        text::views(r@) == entry_texts(entries@),
{
    let mut r: Vec<String> = Vec::new();
    let mut i: usize = 0;
    while i < entries.len() && i < MAX_ENTRIES
        invariant
            i <= entries.len(),
            i <= MAX_ENTRIES,
            r@.len() == i,
            forall|j: int| 0 <= j < i ==> (#[trigger] r@[j])@ == entry_text(entries@[j]),
        decreases entries.len() - i,
    {
        let entry = &entries[i];
        if entry.is_dir {
            r.push(concat2(entry.name.as_str(), "/"));
        } else {
            r.push(entry.name.clone());
        }
        i += 1;
    }
    proof {
        assert(text::views(r@) =~= entry_texts(entries@));
    }
    r
}

/// What is known of a directory: its entries, or why they cannot be read.
#[derive(Debug, Clone)]
pub enum Listing {
    Entries(Vec<DirEntry>),
    Failed(String),
}

/// What stands in a directory.
pub fn dir_listing(dir: &str, listing: &Listing) -> (r: DiagnosticLine)
    ensures
        r@ == (DiagnosticView {
            key: "nearest"@,
            value: match *listing {
                Listing::Entries(entries) => dir@ + " contains: "@ + text::join(
                    entry_texts(entries@),
                    ", "@,
                ),
                Listing::Failed(e) => dir@ + ": "@ + e@,
            },
        }),
{
    match listing {
        Listing::Entries(entries) => {
            let names = entry_names(entries.as_slice());
            let joined = join_strings(names.as_slice(), ", ");
            diagnostic("nearest", concat3(dir, " contains: ", joined.as_str()))
        },
        Listing::Failed(e) => diagnostic("nearest", concat3(dir, ": ", e.as_str())),
    }
}

/// The free space, by what `df` wrote: its second line.
pub fn disk_space(output: Option<&str>) -> (r: DiagnosticLine)
    ensures
        r@ == (DiagnosticView {
            key: "disk"@,
            value: match output {
                None => "df not available"@,
                Some(o) => if text::lines(o@).len() > 1 {
                    text::trim(text::lines(o@)[1])
                } else {
                    text::trim("unknown"@)
                },
            },
        }),
{
    match output {
        None => diagnostic("disk", "df not available".to_owned()),
        Some(o) => {
            let lines = lines_of(o);
            proof {
                assert(text::views(lines@).len() == lines@.len());
            }
            if lines.len() > 1 {
                proof {
                    assert(text::lines(o@)[1] == lines@[1]@);
                }
                diagnostic("disk", trimmed(lines[1].as_str()))
            } else {
                diagnostic("disk", trimmed("unknown"))
            }
        },
    }
}

/// The age of a directory in days, or in hours where it is less than a day.
pub open spec fn age_text(seconds: nat) -> Seq<char> {
    let hours = seconds / 3600;
    let days = hours / 24;
    if days > 0 {
        text::dec(days) + "d old"@
    } else {
        text::dec(hours) + "h old"@
    }
}

/// Whether the packages of a node project are there, and since when.
pub fn node_modules_check(exists: bool, age_seconds: Option<u64>) -> (r: DiagnosticLine)
    ensures
        r@ == (DiagnosticView {
            key: "node_modules"@,
            value: if !exists {
                "not found (try: npm install)"@
            } else {
                match age_seconds {
                    Some(seconds) => "exists ("@ + age_text(seconds as nat) + ")"@,
                    None => "exists (unknown age)"@,
                }
            },
        }),
{
    if !exists {
        return diagnostic("node_modules", "not found (try: npm install)".to_owned());
    }
    match age_seconds {
        None => diagnostic("node_modules", "exists (unknown age)".to_owned()),
        Some(seconds) => {
            let hours: u64 = seconds / 3600;
            let days: u64 = hours / 24;
            let mut age = String::new();
            if days > 0 {
                text::push_dec(&mut age, days);
                age.append("d old");
            } else {
                text::push_dec(&mut age, hours);
                age.append("h old");
            }
            proof {
                assert(age@ =~= age_text(seconds as nat));
            }
            diagnostic("node_modules", concat3("exists (", age.as_str(), ")"))
        },
    }
}

pub open spec fn package_hint_text(command: Seq<char>) -> Seq<char> {
    match strmap::lookup(package_hints(), command) {
        Some(package) => "install package '"@ + package + "' to get '"@ + command + "'"@,
        None => "no known package for '"@ + command + "'"@,
    }
}

/// Where to get a command that was not found.
pub fn command_not_found_hint(command: &str) -> (r: DiagnosticLine)
    ensures
        r@ == (DiagnosticView { key: "package_hint"@, value: package_hint_text(command@) }),
{
    match lookup_package_hint(command) {
        Some(package) => {
            let mut value = concat3("install package '", package, "' to get '");
            value.append(command);
            value.append("'");
            diagnostic("package_hint", value)
        },
        None => diagnostic("package_hint", concat3("no known package for '", command, "'")),
    }
}

/// Commands that are like one that was not found; `names` are the programs that
/// can be run, in the order in which they are found.
pub fn command_similar(command: &str, names: &[String]) -> (r: DiagnosticLine)
    ensures
        r@ == (DiagnosticView {
            key: "similar_commands"@,
            value: names_or_none(similar_names(command@, text::views(names@))),
        }),
{
    let similar = pick_similar_names(command, names);
    diagnostic("similar_commands", tell_names(similar.as_slice()))
}

// ---------------------------------------------------------------------------
// Permissions
// ---------------------------------------------------------------------------

/// What stands in the way of using a file, by its mode bits.
pub open spec fn permission_issue(
    mode: u32,
    is_owner: bool,
    is_group: bool,
    owner: Seq<char>,
    group: Seq<char>,
) -> Seq<char> {
    if is_owner {
        if mode & 0o200 == 0 {
            "owner lacks write permission"@
        } else if mode & 0o100 == 0 {
            "owner lacks execute permission"@
        } else {
            "permissions appear adequate"@
        }
    } else if is_group {
        if mode & 0o020 == 0 {
            "group lacks write permission"@
        } else if mode & 0o010 == 0 {
            "group lacks execute permission"@
        } else {
            "permissions appear adequate"@
        }
    } else {
        if mode & 0o002 == 0 {
            "no write for others (owned by "@ + owner + ":"@ + group + ")"@
        } else if mode & 0o001 == 0 {
            "no execute for others (owned by "@ + owner + ":"@ + group + ")"@
        } else {
            "permissions appear adequate"@
        }
    }
}

/// The facts on a file and on the user who runs the command.
#[derive(Debug, Clone)]
pub struct FileAccess {
    pub path: String,
    pub mode: u32,
    pub file_uid: u32,
    pub file_gid: u32,
    pub running_uid: u32,
    pub running_gid: u32,
    pub owner: String,
    pub group: String,
    pub running_as: String,
    pub running_group: String,
}

fn others_issue(start: &str, owner: &str, group: &str) -> (r: String)
    ensures
        r@ == start@ + owner@ + ":"@ + group@ + ")"@,
{
    let mut r = concat3(start, owner, ":");
    r.append(group);
    r.append(")");
    r
}

/// Finds what stands in the way of using a file.
pub fn diagnose_permissions(access: &FileAccess) -> (r: PermissionDiagnosis)
    ensures
        r.path@ == access.path@,
        r.owner@ == access.owner@,
        r.group@ == access.group@,
        r.mode == access.mode,
        r.running_as@ == access.running_as@,
        r.running_group@ == access.running_group@,
        r.issue@ == permission_issue(
            access.mode,
            access.running_uid == access.file_uid,
            access.running_gid == access.file_gid,
            access.owner@,
            access.group@,
        ),
{
    let mode: u32 = access.mode;
    let issue = if access.running_uid == access.file_uid {
        if mode & 0o200 == 0 {
            "owner lacks write permission".to_owned()
        } else if mode & 0o100 == 0 {
            "owner lacks execute permission".to_owned()
        } else {
            "permissions appear adequate".to_owned()
        }
    } else if access.running_gid == access.file_gid {
        if mode & 0o020 == 0 {
            "group lacks write permission".to_owned()
        } else if mode & 0o010 == 0 {
            "group lacks execute permission".to_owned()
        } else {
            "permissions appear adequate".to_owned()
        }
    } else {
        if mode & 0o002 == 0 {
            others_issue(
                "no write for others (owned by ",
                access.owner.as_str(),
                access.group.as_str(),
            )
        } else if mode & 0o001 == 0 {
            others_issue(
                "no execute for others (owned by ",
                access.owner.as_str(),
                access.group.as_str(),
            )
        } else {
            "permissions appear adequate".to_owned()
        }
    };
    PermissionDiagnosis {
        path: access.path.clone(),
        owner: access.owner.clone(),
        group: access.group.clone(),
        mode,
        running_as: access.running_as.clone(),
        running_group: access.running_group.clone(),
        issue,
    }
}

/// The permission bits of a mode as four octal digits.
pub open spec fn octal4(mode: u32) -> Seq<char> {
    seq![
        text::digit((mode as nat / 512) % 8),
        text::digit((mode as nat / 64) % 8),
        text::digit((mode as nat / 8) % 8),
        text::digit(mode as nat % 8),
    ]
}

fn push_octal4(out: &mut String, mode: u32)
    ensures
        final(out)@ == old(out)@ + octal4(mode),
{
    let a: u8 = ((mode / 512) % 8) as u8 + 48;
    let b: u8 = ((mode / 64) % 8) as u8 + 48;
    let c: u8 = ((mode / 8) % 8) as u8 + 48;
    let d: u8 = (mode % 8) as u8 + 48;
    out.push(a as char);
    out.push(b as char);
    out.push(c as char);
    out.push(d as char);
    proof {
        assert(out@ =~= old(out)@ + octal4(mode));
    }
}

/// The line on a file, up to what stands in the way of using it.
pub open spec fn access_text(
    path: Seq<char>,
    mode: u32,
    owner: Seq<char>,
    group: Seq<char>,
    running_as: Seq<char>,
    running_group: Seq<char>,
) -> Seq<char> {
    path + " (mode "@ + octal4(mode) + ", "@ + owner + ":"@ + group + ", running as "@
        + running_as + ":"@ + running_group + ") \u{2014} "@
}

pub open spec fn permission_text(diag: PermissionDiagnosis) -> Seq<char> {
    access_text(
        diag.path@,
        diag.mode,
        diag.owner@,
        diag.group@,
        diag.running_as@,
        diag.running_group@,
    ) + diag.issue@
}

pub fn permission_diagnosis_to_line(diag: &PermissionDiagnosis) -> (r: DiagnosticLine)
    ensures
        r@ == (DiagnosticView { key: "permissions"@, value: permission_text(*diag) }),
{
    let mut value = diag.path.clone();
    value.append(" (mode ");
    push_octal4(&mut value, diag.mode);
    value.append(", ");
    value.append(diag.owner.as_str());
    value.append(":");
    value.append(diag.group.as_str());
    value.append(", running as ");
    value.append(diag.running_as.as_str());
    value.append(":");
    value.append(diag.running_group.as_str());
    value.append(") \u{2014} ");
    value.append(diag.issue.as_str());
    diagnostic("permissions", value)
}

// ---------------------------------------------------------------------------
// Paths
// ---------------------------------------------------------------------------

/// The path starts at the root.
pub open spec fn is_absolute(path: Seq<char>) -> bool {
    path.len() > 0 && path[0] == '/'
}

/// The names in a path of which the first `n` parts are looked at. Empty parts
/// do not count, and a dot counts only at the start.
pub open spec fn names_upto(parts: Seq<Seq<char>>, n: nat) -> Seq<Seq<char>>
    decreases n,
{
    if n == 0 {
        Seq::empty()
    } else {
        let before = names_upto(parts, (n - 1) as nat);
        let part = parts[n - 1];
        if part.len() == 0 || (part == "."@ && n > 1) {
            before
        } else {
            before.push(part)
        }
    }
}

/// The names in a path, from its start to its end.
pub open spec fn path_names(path: Seq<char>) -> Seq<Seq<char>> {
    let parts = text::split(path, '/');
    names_upto(parts, parts.len())
}

/// The path that names make, from the root or from the working directory.
pub open spec fn path_of(absolute: bool, names: Seq<Seq<char>>) -> Seq<char> {
    if absolute {
        "/"@ + text::join(names, "/"@)
    } else {
        text::join(names, "/"@)
    }
}

/// The paths that are passed on the way to `path`, `path` itself among them.
pub open spec fn steps_of(path: Seq<char>) -> Seq<Seq<char>> {
    let names = path_names(path);
    Seq::new(names.len(), |i: int| path_of(is_absolute(path), names.take(i + 1)))
}

fn split_names(path: &str) -> (r: Vec<String>)
    ensures
        text::views(r@) == path_names(path@),
{
    let parts = split_at_char(path, '/');
    let ghost all = text::split(path@, '/');
    let mut names: Vec<String> = Vec::new();
    let mut i: usize = 0;
    proof {
        assert(text::views(names@) =~= Seq::<Seq<char>>::empty());
        assert(all.len() == parts@.len());
    }
    while i < parts.len()
        invariant
            i <= parts.len(),
            text::views(parts@) == all,
            text::views(names@) == names_upto(all, i as nat),
        decreases parts.len() - i,
    {
        let ghost before = names@;
        proof {
            assert(all[i as int] == parts@[i as int]@);
        }
        let part = parts[i].as_str();
        if !(part.is_empty() || (same(part, ".") && i > 0)) {
            names.push(parts[i].clone());
            proof {
                assert(text::views(names@) =~= text::views(before).push(all[i as int]));
            }
        }
        i += 1;
    }
    names
}

/// The paths that are passed on the way to a path.
pub fn path_steps(path: &str) -> (r: Vec<String>)
    ensures
        text::views(r@) == steps_of(path@),
{
    let names = split_names(path);
    let chars = chars_of(path);
    let absolute = chars.len() > 0 && chars[0] == '/';
    let ghost all = path_names(path@);
    let mut steps: Vec<String> = Vec::new();
    let mut joined = String::new();
    let mut i: usize = 0;
    proof {
        assert(text::views(steps@) =~= steps_of(path@).take(0));
        assert(all.len() == names@.len());
    }
    while i < names.len()
        invariant
            i <= names.len(),
            text::views(names@) == all,
            all == path_names(path@),
            absolute == is_absolute(path@),
            joined@ == text::join(all.take(i as int), "/"@),
            text::views(steps@) == steps_of(path@).take(i as int),
        decreases names.len() - i,
    {
        let ghost before = steps@;
        proof {
            let next = all.take(i + 1);
            assert(next.drop_last() =~= all.take(i as int));
            assert(next.last() == names@[i as int]@);
            if i == 0 {
                assert(joined@ + next[0] =~= next[0]);
            }
        }
        if i > 0 {
            joined.append("/");
        }
        joined.append(names[i].as_str());
        let step = if absolute {
            concat2("/", joined.as_str())
        } else {
            joined.clone()
        };
        steps.push(step);
        proof {
            assert(step@ == steps_of(path@)[i as int]);
            assert(text::views(steps@) =~= text::views(before).push(step@));
            assert(text::views(steps@) =~= steps_of(path@).take(i + 1));
        }
        i += 1;
    }
    proof {
        assert(steps_of(path@).take(i as int) =~= steps_of(path@));
    }
    steps
}

/// The step before the one at `i`: the last that is there where that one is the first
/// that is not.
pub open spec fn step_before(path: Seq<char>, i: int) -> Seq<char> {
    if i > 0 {
        steps_of(path)[i - 1]
    } else {
        path_of(is_absolute(path), Seq::empty())
    }
}

/// The last step of a path that is there, where the one at `missing` is the first that
/// is not.
pub fn last_valid_step(path: &str, missing: usize) -> (r: String)
    requires
        missing < steps_of(path@).len(),
    ensures
        r@ == step_before(path@, missing as int),
{
    if missing > 0 {
        let steps = path_steps(path);
        proof {
            assert(text::views(steps@).len() == steps@.len());
            assert(steps_of(path@)[missing - 1] == steps@[missing - 1]@);
        }
        return steps[missing - 1].clone();
    }
    let chars = chars_of(path);
    if chars.len() > 0 && chars[0] == '/' {
        proof {
            assert("/"@ + Seq::<char>::empty() =~= "/"@);
        }
        "/".to_owned()
    } else {
        String::new()
    }
}

/// Diagnoses a path of whose steps the one at `missing` is the first that does
/// not exist; `siblings` stand where the path breaks. There is nothing to tell
/// of a path that exists.
pub fn path_walk(path: &str, missing: Option<usize>, siblings: Vec<String>) -> (r: Option<
    PathDiagnosis,
>)
    requires
        missing matches Some(i) ==> i < steps_of(path@).len(),
    ensures
        match r {
            None => missing is None,
            Some(d) => {
                &&& missing matches Some(i)
                &&& d.requested@ == path@
                &&& d.breaks_at@ == steps_of(path@)[i as int]
                &&& d.last_valid@ == step_before(path@, i as int)
                &&& d.siblings@ == siblings@
            },
        },
{
    match missing {
        None => None,
        Some(i) => {
            let steps = path_steps(path);
            proof {
                assert(text::views(steps@).len() == steps@.len());
                assert(steps_of(path@)[i as int] == steps@[i as int]@);
            }
            let last_valid = last_valid_step(path, i);
            Some(
                PathDiagnosis {
                    requested: path.to_owned(),
                    last_valid,
                    breaks_at: steps[i].clone(),
                    siblings,
                },
            )
        },
    }
}

/// A path and what is left of it as its last parts are taken away one by one.
pub open spec fn ancestors_of(path: Seq<char>) -> Seq<Seq<char>>
    decreases path.len(),
{
    match outside::parent(path) {
        Some(dir) if dir.len() < path.len() => seq![path] + ancestors_of(dir),
        _ => seq![path],
    }
}

/// The starts of a path that are paths themselves, the whole one first.
pub fn ancestors(path: &str) -> (r: Vec<String>)
    ensures
        text::views(r@) == ancestors_of(path@),
        r@.len() > 0,
        forall|i: int| 0 <= i < r@.len() ==> (#[trigger] r@[i])@.is_prefix_of(path@),
        forall|i: int, j: int|
            0 <= i < j < r@.len() ==> (#[trigger] r@[i])@.len() > (#[trigger] r@[j])@.len(),
{
    let mut r: Vec<String> = Vec::new();
    let mut current = path.to_owned();
    proof {
        assert(text::views(r@) + ancestors_of(path@) =~= ancestors_of(path@));
    }
    loop
        invariant
            text::views(r@) + ancestors_of(current@) == ancestors_of(path@),
            current@.is_prefix_of(path@),
            forall|i: int|
                0 <= i < r@.len() ==> (#[trigger] r@[i])@.is_prefix_of(path@) && r@[i]@.len()
                    > current@.len(),
            forall|i: int, j: int|
                0 <= i < j < r@.len() ==> (#[trigger] r@[i])@.len() > (#[trigger] r@[j])@.len(),
        decreases current@.len(),
    {
        let ghost before = r@;
        match parent_path(current.as_str()) {
            Some(dir) => {
                proof {
                    let done = text::views(before).push(current@);
                    assert(text::views(before) + (seq![current@] + ancestors_of(dir@)) =~= done
                        + ancestors_of(dir@));
                    assert(text::views(before.push(current)) =~= done);
                }
                r.push(current);
                current = dir;
            },
            None => {
                proof {
                    assert(text::views(before.push(current)) =~= text::views(before) + seq![
                        current@,
                    ]);
                }
                r.push(current);
                return r;
            },
        }
    }
}

/// The directories to list for a path, the one that is meant first: the path itself,
/// then the one that holds it and those above.
pub open spec fn listing_places_of(path: Seq<char>) -> Seq<Seq<char>> {
    seq![path] + ancestors_of(
        match outside::parent(path) {
            Some(dir) => dir,
            None => "."@,
        },
    )
}

pub fn listing_places(path: &str) -> (r: Vec<String>)
    ensures
        text::views(r@) == listing_places_of(path@),
{
    let dir = match parent_path(path) {
        Some(dir) => dir,
        None => ".".to_owned(),
    };
    let mut above = ancestors(dir.as_str());
    let ghost tail = above@;
    let mut r: Vec<String> = Vec::new();
    r.push(path.to_owned());
    r.append(&mut above);
    proof {
        assert(text::views(r@) =~= seq![path@] + text::views(tail));
    }
    r
}

/// The position of the first of several questions that is answered with yes.
pub fn first_true(found: &[bool]) -> (r: Option<usize>)
    ensures
        match r {
            Some(i) => {
                &&& i < found@.len()
                &&& found@[i as int]
                &&& forall|j: int| 0 <= j < i ==> !#[trigger] found@[j]
            },
            None => forall|j: int| 0 <= j < found@.len() ==> !#[trigger] found@[j],
        },
{
    let mut i: usize = 0;
    while i < found.len()
        invariant
            i <= found.len(),
            forall|j: int| 0 <= j < i ==> !#[trigger] found@[j],
        decreases found.len() - i,
    {
        if found[i] {
            return Some(i);
        }
        i += 1;
    }
    None
}

/// The first of several places that was found, or else the last.
pub fn first_or_last(places: &[String], found: &[bool]) -> (r: String)
    requires
        places@.len() > 0,
        places@.len() == found@.len(),
    ensures
        exists|i: int|
            {
                &&& 0 <= i < places@.len()
                &&& r@ == (#[trigger] places@[i])@
                &&& found@[i] || i == places@.len() - 1
                &&& forall|j: int| 0 <= j < i ==> !#[trigger] found@[j]
            },
{
    match first_true(found) {
        Some(i) => {
            proof {
                assert(places@[i as int]@ == places@[i as int]@);
            }
            places[i].clone()
        },
        None => places[places.len() - 1].clone(),
    }
}

/// The first entries of a directory, sorted.
pub fn list_siblings(entries: &[DirEntry]) -> (r: Vec<String>)
    ensures
        order::in_order(text::views(r@)),
        text::views(r@).to_multiset() == entry_texts(entries@).to_multiset(),
{
    sort_texts(entry_names(entries))
}

pub open spec fn path_lines(diag: PathDiagnosis) -> Seq<DiagnosticView> {
    let broken = DiagnosticView {
        key: "path"@,
        value: diag.last_valid@ + " \u{2713}  "@ + diag.breaks_at@ + " \u{2717}"@,
    };
    if diag.siblings@.len() == 0 {
        seq![broken]
    } else {
        seq![
            broken,
            DiagnosticView {
                key: "nearest"@,
                value: diag.last_valid@ + " contains: "@ + text::join(
                    text::views(diag.siblings@),
                    ", "@,
                ),
            },
        ]
    }
}

/// What is told of a path that breaks.
pub fn path_diagnosis_to_lines(diag: &PathDiagnosis) -> (r: Vec<DiagnosticLine>)
    ensures
        diagnostic_views(r@) == path_lines(*diag),
{
    let mut lines: Vec<DiagnosticLine> = Vec::new();
    let mut value = concat3(diag.last_valid.as_str(), " \u{2713}  ", diag.breaks_at.as_str());
    value.append(" \u{2717}");
    lines.push(diagnostic("path", value));
    if diag.siblings.len() > 0 {
        let joined = join_strings(diag.siblings.as_slice(), ", ");
        lines.push(
            diagnostic(
                "nearest",
                concat3(diag.last_valid.as_str(), " contains: ", joined.as_str()),
            ),
        );
    }
    proof {
        assert(diagnostic_views(lines@) =~= path_lines(*diag));
    }
    lines
}

// ---------------------------------------------------------------------------
// Arguments
// ---------------------------------------------------------------------------

/// The argument is a flag.
pub open spec fn is_flag(arg: Seq<char>) -> bool {
    text::starts_with(arg, "-"@)
}

/// The arguments among the first `n` texts of a command that are no flags.
pub open spec fn plain_args_upto(command: Seq<Seq<char>>, n: nat) -> Seq<Seq<char>>
    decreases n,
{
    if n <= 1 {
        Seq::empty()
    } else {
        let before = plain_args_upto(command, (n - 1) as nat);
        if is_flag(command[n - 1]) {
            before
        } else {
            before.push(command[n - 1])
        }
    }
}

/// The arguments of a command that are no flags.
pub open spec fn plain_args(command: Seq<Seq<char>>) -> Seq<Seq<char>> {
    plain_args_upto(command, command.len())
}

fn plain_arguments(command: &[String]) -> (r: Vec<String>)
    ensures
        text::views(r@) == plain_args(text::views(command@)),
        command@.len() > 0 ==> text::views(r@) == text::views(command@).skip(1).filter(
            |word: Seq<char>| word.len() == 0 || word[0] != '-',
        ),
{
    let ghost all = text::views(command@);
    proof {
        if all.len() > 0 {
            law_plain_arguments_begin_with_no_dash(all);
        }
    }
    let mut r: Vec<String> = Vec::new();
    let mut i: usize = if command.len() == 0 {
        0
    } else {
        1
    };
    proof {
        assert(text::views(r@) =~= Seq::<Seq<char>>::empty());
    }
    while i < command.len()
        invariant
            i <= command.len(),
            command.len() > 0 ==> i >= 1,
            all == text::views(command@),
            text::views(r@) == plain_args_upto(all, i as nat),
        decreases command.len() - i,
    {
        let ghost before = r@;
        proof {
            assert(all[i as int] == command@[i as int]@);
        }
        if !has_prefix(command[i].as_str(), "-") {
            r.push(command[i].clone());
            proof {
                assert(text::views(r@) =~= text::views(before).push(all[i as int]));
            }
        }
        i += 1;
    }
    r
}

/// The arguments at the given positions; a position behind the last argument is
/// left out.
pub open spec fn chosen_args(args: Seq<Seq<char>>, positions: Seq<usize>) -> Seq<Seq<char>>
    decreases positions.len(),
{
    if positions.len() == 0 {
        Seq::empty()
    } else {
        let before = chosen_args(args, positions.drop_last());
        if positions.last() < args.len() {
            before.push(args[positions.last() as int])
        } else {
            before
        }
    }
}

/// The arguments of a command that are paths: those that the grammar points
/// out, or else all that are no flags.
pub open spec fn path_args_of(
    command: Seq<Seq<char>>,
    grammar: Option<grammar::GrammarView>,
) -> Seq<Seq<char>> {
    let args = plain_args(command);
    match grammar {
        Some(g) => match g.enrich {
            Some(e) => match e.path_args {
                Some(positions) => chosen_args(args, positions),
                None => args,
            },
            None => args,
        },
        None => args,
    }
}

/// Finds the arguments of a command that are paths.
pub fn extract_path_args(command: &[String], grammar: Option<&Grammar>) -> (r: Vec<String>)
    ensures
        text::views(r@) == path_args_of(
            text::views(command@),
            classifier::ref_grammar_view(grammar),
        ),
{
    let args = plain_arguments(command);
    if let Some(g) = grammar {
        if let Some(enrich) = &g.enrich {
            if let Some(mapping) = &enrich.args {
                let ghost all = text::views(args@);
                let positions = &mapping.path_args;
                let mut paths: Vec<String> = Vec::new();
                let mut i: usize = 0;
                proof {
                    assert(text::views(paths@) =~= Seq::<Seq<char>>::empty());
                    assert(all.len() == args@.len());
                }
                while i < positions.len()
                    invariant
                        i <= positions.len(),
                        all == text::views(args@),
                        all.len() == args@.len(),
                        text::views(paths@) == chosen_args(all, positions@.take(i as int)),
                    decreases positions.len() - i,
                {
                    let ghost before = paths@;
                    proof {
                        assert(positions@.take(i + 1).drop_last() =~= positions@.take(i as int));
                        assert(positions@.take(i + 1).last() == positions@[i as int]);
                    }
                    let at: usize = positions[i];
                    if at < args.len() {
                        paths.push(args[at].clone());
                        proof {
                            assert(text::views(paths@) =~= text::views(before).push(
                                all[at as int],
                            ));
                        }
                    }
                    i += 1;
                }
                proof {
                    assert(positions@.take(i as int) =~= positions@);
                }
                return paths;
            }
        }
    }
    args
}

/// The part of a text behind the first `sep` and before the next one.
pub open spec fn second_part(text: Seq<char>, sep: Seq<char>) -> Option<Seq<char>> {
    match text::find(text, sep) {
        None => None,
        Some(i) => {
            let rest = text.skip(i + sep.len());
            match text::find(rest, sep) {
                None => Some(rest),
                Some(j) => Some(rest.take(j)),
            }
        },
    }
}

/// The port in an address: `scheme://host:port/...`.
pub open spec fn url_port(arg: Seq<char>) -> Option<nat> {
    match second_part(arg, "://"@) {
        None => None,
        Some(rest) => {
            let host = text::split(text::split(rest, '/')[0], ':');
            if host.len() > 1 {
                text::parsed(host[1], 65535)
            } else {
                None
            }
        },
    }
}

/// The port in an argument: in an address, or else a number that is not zero.
pub open spec fn argument_port(arg: Seq<char>) -> Option<nat> {
    if url_port(arg) is Some {
        url_port(arg)
    } else if text::parsed(arg, 65535) matches Some(n) && n > 0 {
        text::parsed(arg, 65535)
    } else {
        None
    }
}

/// The first port in the arguments from the one at `i` on.
pub open spec fn port_from(command: Seq<Seq<char>>, i: int) -> Option<nat>
    decreases command.len() - i,
{
    if i >= command.len() {
        None
    } else if argument_port(command[i]) is Some {
        argument_port(command[i])
    } else {
        port_from(command, i + 1)
    }
}

pub open spec fn is_port_flag(arg: Seq<char>) -> bool {
    arg == "-p"@ || arg == "--port"@
}

/// The first number behind a flag for a port, from position `i` on.
pub open spec fn flagged_port_from(command: Seq<Seq<char>>, i: int) -> Option<nat>
    decreases command.len() - i,
{
    if i + 1 >= command.len() {
        None
    } else if is_port_flag(command[i]) && text::parsed(command[i + 1], 65535) is Some {
        text::parsed(command[i + 1], 65535)
    } else {
        flagged_port_from(command, i + 1)
    }
}

/// The port that a command is about.
pub open spec fn port_of(command: Seq<Seq<char>>) -> Option<nat> {
    if port_from(command, 1) is Some {
        port_from(command, 1)
    } else {
        flagged_port_from(command, 0)
    }
}

/// An optional number as a natural number.
pub open spec fn opt_nat(n: Option<u16>) -> Option<nat> {
    match n {
        Some(n) => Some(n as nat),
        None => None,
    }
}

fn parse_port(text: &str) -> (r: Option<u16>)
    ensures
        opt_nat(r) == text::parsed(text@, 65535),
{
    match parse_number(text, 65535) {
        Some(n) => Some(n as u16),
        None => None,
    }
}

fn part_behind(text: &str, sep: &str) -> (r: Option<String>)
    requires
        sep@.len() > 0,
    ensures
        grammar::opt_view(r) == second_part(text@, sep@),
{
    let chars = chars_of(text);
    let sought = chars_of(sep);
    match find_part(chars.as_slice(), sought.as_slice()) {
        None => None,
        Some(i) => {
            proof {
                assert(i + sought.len() <= chars.len());
            }
            let from: usize = i + sought.len();
            let rest = slice_string(chars.as_slice(), from, chars.len());
            proof {
                assert(rest@ =~= text@.skip(i + sep@.len()));
            }
            let rest_chars = chars_of(rest.as_str());
            match find_part(rest_chars.as_slice(), sought.as_slice()) {
                None => Some(rest),
                Some(j) => {
                    let part = slice_string(rest_chars.as_slice(), 0, j);
                    proof {
                        assert(part@ =~= rest@.take(j as int));
                    }
                    Some(part)
                },
            }
        },
    }
}

fn port_in_url(arg: &str) -> (r: Option<u16>)
    ensures
        opt_nat(r) == url_port(arg@),
{
    proof {
        reveal_strlit("://");
    }
    match part_behind(arg, "://") {
        None => None,
        Some(rest) => {
            let parts = split_at_char(rest.as_str(), '/');
            proof {
                assert(text::split(rest@, '/')[0] == parts@[0]@);
            }
            let host = split_at_char(parts[0].as_str(), ':');
            proof {
                assert(text::views(host@).len() == host@.len());
            }
            if host.len() > 1 {
                proof {
                    assert(text::split(parts@[0]@, ':')[1] == host@[1]@);
                }
                parse_port(host[1].as_str())
            } else {
                None
            }
        },
    }
}

fn port_in_argument(arg: &str) -> (r: Option<u16>)
    ensures
        opt_nat(r) == argument_port(arg@),
{
    let in_url = port_in_url(arg);
    if in_url.is_some() {
        return in_url;
    }
    match parse_port(arg) {
        Some(n) => {
            if n > 0 {
                Some(n)
            } else {
                None
            }
        },
        None => None,
    }
}

/// Finds the port that a command is about.
pub fn extract_port(command: &[String], _stderr: &str) -> (r: Option<u16>)
    ensures
        opt_nat(r) == port_of(text::views(command@)),
{
    let ghost all = text::views(command@);
    let mut i: usize = 1;
    while i < command.len()
        invariant
            1 <= i,
            all == text::views(command@),
            port_from(all, 1) == port_from(all, i as int),
        decreases command.len() - i,
    {
        proof {
            assert(all[i as int] == command@[i as int]@);
        }
        let port = port_in_argument(command[i].as_str());
        if port.is_some() {
            return port;
        }
        i += 1;
    }
    proof {
        assert(port_from(all, 1) is None);
    }
    if command.len() == 0 {
        return None;
    }
    let mut k: usize = 0;
    while k < command.len() - 1
        invariant
            command.len() > 0,
            k <= command.len() - 1,
            all == text::views(command@),
            port_from(all, 1) is None,
            flagged_port_from(all, 0) == flagged_port_from(all, k as int),
        decreases command.len() - k,
    {
        proof {
            assert(all[k as int] == command@[k as int]@);
            assert(all[k + 1] == command@[k + 1]@);
        }
        let flag = command[k].as_str();
        if same(flag, "-p") || same(flag, "--port") {
            let port = parse_port(command[k + 1].as_str());
            if port.is_some() {
                return port;
            }
        }
        k += 1;
    }
    None
}

// ---------------------------------------------------------------------------
// Probes
// ---------------------------------------------------------------------------

/// A fact to look up.
#[derive(Debug, Clone)]
pub enum Probe {
    /// What a path is, and whether it is there.
    Source(String),
    /// Where a path breaks.
    PathWalk(String),
    /// Who may do what with a file.
    Permissions(String),
    /// Whether the working directory is in a repository.
    GitRepo,
    /// What `git branch --list` says of a branch.
    Branch(String),
    /// Which branches there are.
    SimilarBranches(String),
    WorkingTree,
    Remote,
    AheadBehind,
    /// Whether a port takes connections.
    Port(u16),
    /// What stands in a directory, or in the nearest one that is there.
    Listing(String),
    DiskSpace(String),
    NodeModules,
    /// Nothing is to be looked up for this one.
    PackageHint(String),
    /// Which programs can be run.
    SimilarCommands(String),
    /// What the two ends of a file operation are.
    FileOp { source: String, dest: String },
}

pub enum ProbeView {
    Source(Seq<char>),
    PathWalk(Seq<char>),
    Permissions(Seq<char>),
    GitRepo,
    Branch(Seq<char>),
    SimilarBranches(Seq<char>),
    WorkingTree,
    Remote,
    AheadBehind,
    Port(u16),
    Listing(Seq<char>),
    DiskSpace(Seq<char>),
    NodeModules,
    PackageHint(Seq<char>),
    SimilarCommands(Seq<char>),
    FileOp { source: Seq<char>, dest: Seq<char> },
}

impl View for Probe {
    type V = ProbeView;

    open spec fn view(&self) -> ProbeView {
        match *self {
            Probe::Source(path) => ProbeView::Source(path@),
            Probe::PathWalk(path) => ProbeView::PathWalk(path@),
            Probe::Permissions(path) => ProbeView::Permissions(path@),
            Probe::GitRepo => ProbeView::GitRepo,
            Probe::Branch(name) => ProbeView::Branch(name@),
            Probe::SimilarBranches(name) => ProbeView::SimilarBranches(name@),
            Probe::WorkingTree => ProbeView::WorkingTree,
            Probe::Remote => ProbeView::Remote,
            Probe::AheadBehind => ProbeView::AheadBehind,
            Probe::Port(port) => ProbeView::Port(port),
            Probe::Listing(path) => ProbeView::Listing(path@),
            Probe::DiskSpace(path) => ProbeView::DiskSpace(path@),
            Probe::NodeModules => ProbeView::NodeModules,
            Probe::PackageHint(command) => ProbeView::PackageHint(command@),
            Probe::SimilarCommands(command) => ProbeView::SimilarCommands(command@),
            Probe::FileOp { source, dest } => ProbeView::FileOp { source: source@, dest: dest@ },
        }
    }
}

pub open spec fn probe_views(probes: Seq<Probe>) -> Seq<ProbeView> {
    Seq::new(probes.len(), |i: int| probes[i]@)
}

/// A probe of each path.
pub open spec fn permission_probes(paths: Seq<Seq<char>>) -> Seq<ProbeView> {
    Seq::new(paths.len(), |i: int| ProbeView::Permissions(paths[i]))
}

/// The probes that a diagnostic asks for, by its name. An unknown name asks for
/// nothing, and so does a diagnostic to which the command gives no argument.
pub open spec fn probes_for(
    name: Seq<char>,
    command: Seq<Seq<char>>,
    paths: Seq<Seq<char>>,
) -> Seq<ProbeView> {
    let args = plain_args(command);
    if name == "source_exists"@ {
        if paths.len() > 0 {
            seq![ProbeView::Source(paths[0])]
        } else {
            Seq::empty()
        }
    } else if name == "dest_path_walk"@ {
        if paths.len() > 1 {
            seq![ProbeView::PathWalk(paths[1])]
        } else if paths.len() > 0 {
            seq![ProbeView::PathWalk(paths[0])]
        } else {
            Seq::empty()
        }
    } else if name == "permissions"@ {
        permission_probes(paths)
    } else if name == "is_git_repo"@ {
        seq![ProbeView::GitRepo]
    } else if name == "branch_exists"@ {
        if args.len() > 0 {
            seq![ProbeView::Branch(args[0])]
        } else {
            Seq::empty()
        }
    } else if name == "branch_list_similar"@ {
        if args.len() > 0 {
            seq![ProbeView::SimilarBranches(args[0])]
        } else {
            Seq::empty()
        }
    } else if name == "working_tree_clean"@ {
        seq![ProbeView::WorkingTree]
    } else if name == "remote_ref_status"@ {
        seq![ProbeView::Remote]
    } else if name == "ahead_behind"@ {
        seq![ProbeView::AheadBehind]
    } else if name == "port_listening"@ {
        match port_of(command) {
            Some(port) => seq![ProbeView::Port(port as u16)],
            None => Seq::empty(),
        }
    } else if name == "dir_listing"@ {
        if paths.len() > 0 {
            seq![ProbeView::Listing(paths[0])]
        } else {
            Seq::empty()
        }
    } else if name == "disk_space"@ {
        if paths.len() > 0 {
            seq![ProbeView::DiskSpace(paths[0])]
        } else {
            Seq::empty()
        }
    } else if name == "node_modules_check"@ {
        seq![ProbeView::NodeModules]
    } else if name == "command_not_found_hint"@ {
        if command.len() > 0 {
            seq![ProbeView::PackageHint(base_name(command[0]))]
        } else {
            Seq::empty()
        }
    } else if name == "command_similar"@ {
        if command.len() > 0 {
            seq![ProbeView::SimilarCommands(base_name(command[0]))]
        } else {
            Seq::empty()
        }
    } else {
        Seq::empty()
    }
}

fn permission_probes_for(paths: &[String]) -> (r: Vec<Probe>)
    ensures
        probe_views(r@) == permission_probes(text::views(paths@)),
{
    let mut r: Vec<Probe> = Vec::new();
    let mut i: usize = 0;
    while i < paths.len()
        invariant
            i <= paths.len(),
            r@.len() == i,
            forall|j: int|
                0 <= j < i ==> (#[trigger] r@[j])@ == ProbeView::Permissions(paths@[j]@),
        decreases paths.len() - i,
    {
        r.push(Probe::Permissions(paths[i].clone()));
        i += 1;
    }
    proof {
        assert(probe_views(r@) =~= permission_probes(text::views(paths@)));
    }
    r
}

fn one_probe(probe: Probe) -> (r: Vec<Probe>)
    ensures
        probe_views(r@) == seq![probe@],
{
    let mut r: Vec<Probe> = Vec::new();
    r.push(probe);
    proof {
        assert(probe_views(r@) =~= seq![probe@]);
    }
    r
}

fn no_probe() -> (r: Vec<Probe>)
    ensures
        probe_views(r@) == Seq::<ProbeView>::empty(),
{
    let r: Vec<Probe> = Vec::new();
    proof {
        assert(probe_views(r@) =~= Seq::<ProbeView>::empty());
    }
    r
}

/// The probes that a diagnostic of a given name asks for.
pub fn run_grammar_diagnostic(name: &str, command: &[String], paths: &[String]) -> (r: Vec<Probe>)
    ensures
        probe_views(r@) == probes_for(name@, text::views(command@), text::views(paths@)),
{
    proof {
        assert(text::views(paths@).len() == paths@.len());
        assert(text::views(command@).len() == command@.len());
        assert(paths@.len() > 0 ==> text::views(paths@)[0] == paths@[0]@);
        assert(paths@.len() > 1 ==> text::views(paths@)[1] == paths@[1]@);
        assert(command@.len() > 0 ==> text::views(command@)[0] == command@[0]@);
    }
    if same(name, "source_exists") {
        if paths.len() > 0 {
            return one_probe(Probe::Source(paths[0].clone()));
        }
    } else if same(name, "dest_path_walk") {
        if paths.len() > 1 {
            return one_probe(Probe::PathWalk(paths[1].clone()));
        }
        if paths.len() > 0 {
            return one_probe(Probe::PathWalk(paths[0].clone()));
        }
    } else if same(name, "permissions") {
        return permission_probes_for(paths);
    } else if same(name, "is_git_repo") {
        return one_probe(Probe::GitRepo);
    } else if same(name, "branch_exists") {
        let args = plain_arguments(command);
        proof {
            assert(text::views(args@).len() == args@.len());
        }
        if args.len() > 0 {
            proof {
                assert(text::views(args@)[0] == args@[0]@);
            }
            return one_probe(Probe::Branch(args[0].clone()));
        }
    } else if same(name, "branch_list_similar") {
        let args = plain_arguments(command);
        proof {
            assert(text::views(args@).len() == args@.len());
        }
        if args.len() > 0 {
            proof {
                assert(text::views(args@)[0] == args@[0]@);
            }
            return one_probe(Probe::SimilarBranches(args[0].clone()));
        }
    } else if same(name, "working_tree_clean") {
        return one_probe(Probe::WorkingTree);
    } else if same(name, "remote_ref_status") {
        return one_probe(Probe::Remote);
    } else if same(name, "ahead_behind") {
        return one_probe(Probe::AheadBehind);
    } else if same(name, "port_listening") {
        if let Some(port) = extract_port(command, "") {
            return one_probe(Probe::Port(port));
        }
    } else if same(name, "dir_listing") {
        if paths.len() > 0 {
            return one_probe(Probe::Listing(paths[0].clone()));
        }
    } else if same(name, "disk_space") {
        if paths.len() > 0 {
            return one_probe(Probe::DiskSpace(paths[0].clone()));
        }
    } else if same(name, "node_modules_check") {
        return one_probe(Probe::NodeModules);
    } else if same(name, "command_not_found_hint") {
        if command.len() > 0 {
            return one_probe(Probe::PackageHint(base_command(command[0].as_str())));
        }
    } else if same(name, "command_similar") {
        if command.len() > 0 {
            return one_probe(Probe::SimilarCommands(base_command(command[0].as_str())));
        }
    }
    no_probe()
}

/// The diagnostics that a grammar asks for: of the first action that has any
/// and that the arguments name, or else of the grammar itself.
pub open spec fn on_failure_of(
    actions: Seq<(Seq<char>, Seq<Seq<char>>)>,
    general: Seq<Seq<char>>,
    command: Seq<Seq<char>>,
) -> Seq<Seq<char>>
    decreases actions.len(),
{
    if actions.len() == 0 {
        general
    } else if names_action(command, actions[0].0) && actions[0].1.len() > 0 {
        actions[0].1
    } else {
        on_failure_of(actions.skip(1), general, command)
    }
}

/// One of the arguments is the name of the action.
pub open spec fn names_action(command: Seq<Seq<char>>, action: Seq<char>) -> bool {
    exists|i: int| 1 <= i < command.len() && #[trigger] command[i] == action
}

pub open spec fn grammar_on_failure(
    enrich: Option<grammar::EnrichView>,
    command: Seq<Seq<char>>,
) -> Seq<Seq<char>> {
    match enrich {
        Some(e) => on_failure_of(e.actions, e.on_failure, command),
        None => Seq::empty(),
    }
}

fn has_action_name(command: &[String], action: &str) -> (r: bool)
    ensures
        r == names_action(text::views(command@), action@),
{
    if command.len() == 0 {
        return false;
    }
    let mut i: usize = 1;
    while i < command.len()
        invariant
            1 <= i <= command.len(),
            forall|j: int| 1 <= j < i ==> #[trigger] text::views(command@)[j] != action@,
        decreases command.len() - i,
    {
        if same(command[i].as_str(), action) {
            proof {
                assert(text::views(command@)[i as int] == action@);
            }
            return true;
        }
        i += 1;
    }
    false
}

/// The diagnostics that a grammar asks for.
pub fn grammar_on_failure_list(grammar: &Grammar, command: &[String]) -> (r: Vec<String>)
    ensures
        text::views(r@) == grammar_on_failure(grammar@.enrich, text::views(command@)),
{
    match &grammar.enrich {
        None => {
            let r: Vec<String> = Vec::new();
            proof {
                assert(text::views(r@) =~= Seq::<Seq<char>>::empty());
            }
            r
        },
        Some(enrich) => {
            let ghost actions = enrich@.actions;
            let mut i: usize = 0;
            proof {
                assert(actions.skip(0) =~= actions);
                assert(actions.len() == enrich.actions.entries@.len());
            }
            while i < enrich.actions.entries.len()
                invariant
                    i <= enrich.actions.entries.len(),
                    grammar.enrich == Some(*enrich),
                    actions == enrich@.actions,
                    actions.len() == enrich.actions.entries@.len(),
                    on_failure_of(
                        actions,
                        text::views(enrich.on_failure@),
                        text::views(command@),
                    ) == on_failure_of(
                        actions.skip(i as int),
                        text::views(enrich.on_failure@),
                        text::views(command@),
                    ),
                decreases enrich.actions.entries.len() - i,
            {
                let entry = &enrich.actions.entries[i];
                proof {
                    assert(actions[i as int] == (
                        entry.0@,
                        text::views(entry.1.on_failure@),
                    ));
                    assert(actions.skip(i as int)[0] == actions[i as int]);
                    assert(actions.skip(i as int).skip(1) =~= actions.skip(i + 1));
                    assert(text::views(entry.1.on_failure@).len() == entry.1.on_failure@.len());
                }
                if has_action_name(command, entry.0.as_str()) && entry.1.on_failure.len() > 0 {
                    return copy_strings(entry.1.on_failure.as_slice());
                }
                i += 1;
            }
            copy_strings(enrich.on_failure.as_slice())
        },
    }
}

/// The diagnostics for what a command is about.
pub open spec fn default_diagnostics(intent: CommandIntent) -> Seq<Seq<char>> {
    match intent {
        CommandIntent::FileOp => seq![
            "source_exists"@,
            "dest_path_walk"@,
            "permissions"@,
            "dir_listing"@,
        ],
        CommandIntent::DirOp => seq!["dest_path_walk"@, "dir_listing"@, "permissions"@],
        CommandIntent::NetworkOp => seq!["port_listening"@],
        CommandIntent::BuildRun => seq!["is_git_repo"@, "node_modules_check"@],
        CommandIntent::ProcessExec => Seq::empty(),
    }
}

fn owned_list(list: &[&str]) -> (r: Vec<String>)
    ensures
        text::views(r@) == classifier::str_views(list@),
{
    let mut r: Vec<String> = Vec::new();
    let mut i: usize = 0;
    while i < list.len()
        invariant
            i <= list.len(),
            r@.len() == i,
            forall|j: int| 0 <= j < i ==> (#[trigger] r@[j])@ == list@[j]@,
        decreases list.len() - i,
    {
        r.push(list[i].to_owned());
        i += 1;
    }
    proof {
        assert(text::views(r@) =~= classifier::str_views(list@));
    }
    r
}

pub fn default_diagnostics_for_intent(intent: CommandIntent) -> (r: Vec<String>)
    ensures
        text::views(r@) == default_diagnostics(intent),
{
    match intent {
        CommandIntent::FileOp => {
            let list = ["source_exists", "dest_path_walk", "permissions", "dir_listing"];
            proof {
                assert(classifier::str_views(list@) =~= default_diagnostics(intent));
            }
            owned_list(&list)
        },
        CommandIntent::DirOp => {
            let list = ["dest_path_walk", "dir_listing", "permissions"];
            proof {
                assert(classifier::str_views(list@) =~= default_diagnostics(intent));
            }
            owned_list(&list)
        },
        CommandIntent::NetworkOp => {
            let list = ["port_listening"];
            proof {
                assert(classifier::str_views(list@) =~= default_diagnostics(intent));
            }
            owned_list(&list)
        },
        CommandIntent::BuildRun => {
            let list = ["is_git_repo", "node_modules_check"];
            proof {
                assert(classifier::str_views(list@) =~= default_diagnostics(intent));
            }
            owned_list(&list)
        },
        CommandIntent::ProcessExec => {
            let r: Vec<String> = Vec::new();
            proof {
                assert(text::views(r@) =~= default_diagnostics(intent));
            }
            r
        },
    }
}

// ---------------------------------------------------------------------------
// Answers
// ---------------------------------------------------------------------------

/// What was found for a probe.
#[derive(Debug, Clone)]
pub enum Answer {
    /// For `Source`.
    Info { info: String, exists: bool },
    /// For `PathWalk`: nothing where the whole path is there.
    Path(Option<PathDiagnosis>),
    /// For `Permissions`: nothing where the file is not there.
    Access(Option<FileAccess>),
    /// For `GitRepo`: the directory that holds the repository.
    Found(Option<String>),
    /// For the probes that run a program: what it wrote, if it could be run.
    Output(Option<String>),
    /// For `Port`.
    Listening(bool),
    /// For `Listing`.
    Directory { dir: String, listing: Listing },
    /// For `NodeModules`.
    Age { exists: bool, seconds: Option<u64> },
    /// For `SimilarCommands`.
    Programs(Vec<String>),
    /// For `FileOp`.
    Ends(FileOpDiagnosis),
    /// For `PackageHint`.
    Nothing,
}

/// The line on one end of a file operation.
pub open spec fn end_text(info: Option<String>, path: Seq<char>, exists: bool) -> Seq<char> {
    match info {
        Some(i) => i@ + " "@ + mark(exists),
        None => path + " "@ + mark(exists),
    }
}

/// The lines on the two ends of a file operation.
pub open spec fn file_op_lines(
    source: Seq<char>,
    dest: Seq<char>,
    d: FileOpDiagnosis,
) -> Seq<DiagnosticView> {
    let ends = seq![
        DiagnosticView {
            key: "source"@,
            value: end_text(d.source_info, source, d.source_exists),
        },
        DiagnosticView { key: "dest"@, value: end_text(d.dest_info, dest, d.dest_exists) },
    ];
    match d.dest_parent_info {
        Some(parent) => ends.push(
            DiagnosticView {
                key: "dest_parent"@,
                value: parent@ + " "@ + mark(d.dest_parent_exists),
            },
        ),
        None => ends,
    }
}

fn end_line(key: &str, info: &Option<String>, path: &str, exists: bool) -> (r: DiagnosticLine)
    ensures
        r@ == (DiagnosticView { key: key@, value: end_text(*info, path@, exists) }),
{
    match info {
        Some(i) => diagnostic(key, concat3(i.as_str(), " ", mark_text(exists))),
        None => diagnostic(key, concat3(path, " ", mark_text(exists))),
    }
}

/// What is told of the two ends of a file operation.
pub fn file_op_diagnosis_to_lines(source: &str, dest: &str, d: &FileOpDiagnosis) -> (r: Vec<
    DiagnosticLine,
>)
    ensures
        diagnostic_views(r@) == file_op_lines(source@, dest@, *d),
{
    let mut lines: Vec<DiagnosticLine> = Vec::new();
    lines.push(end_line("source", &d.source_info, source, d.source_exists));
    lines.push(end_line("dest", &d.dest_info, dest, d.dest_exists));
    if let Some(parent) = &d.dest_parent_info {
        lines.push(
            diagnostic(
                "dest_parent",
                concat3(parent.as_str(), " ", mark_text(d.dest_parent_exists)),
            ),
        );
    }
    proof {
        assert(diagnostic_views(lines@) =~= file_op_lines(source@, dest@, *d));
    }
    lines
}

/// What is told of what was found for a probe; nothing where the answer does
/// not fit the probe.
pub open spec fn told(probe: Probe, answer: Answer) -> Seq<DiagnosticView> {
    match (probe, answer) {
        (Probe::Source(_), Answer::Info { info, exists }) => seq![
            DiagnosticView { key: "source"@, value: info@ + " "@ + mark(exists) },
        ],
        (Probe::PathWalk(_), Answer::Path(found)) => match found {
            Some(d) => path_lines(d),
            None => Seq::empty(),
        },
        (Probe::Permissions(_), Answer::Access(found)) => match found {
            None => Seq::empty(),
            Some(a) => seq![
                DiagnosticView {
                    key: "permissions"@,
                    value: access_text(
                        a.path@,
                        a.mode,
                        a.owner@,
                        a.group@,
                        a.running_as@,
                        a.running_group@,
                    ) + permission_issue(
                        a.mode,
                        a.running_uid == a.file_uid,
                        a.running_gid == a.file_gid,
                        a.owner@,
                        a.group@,
                    ),
                },
            ],
        },
        (Probe::GitRepo, Answer::Found(found)) => seq![
            DiagnosticView {
                key: "git_repo"@,
                value: git_repo_text(grammar::opt_view(found)),
            },
        ],
        (Probe::Branch(branch), Answer::Output(output)) => seq![
            DiagnosticView {
                key: "branch"@,
                value: branch_text(branch@, grammar::opt_view(output)),
            },
        ],
        (Probe::SimilarBranches(branch), Answer::Output(output)) => seq![
            DiagnosticView {
                key: "similar_branches"@,
                value: match output {
                    None => "git not available"@,
                    Some(o) => names_or_none(similar_branches(branch@, branch_names(o@))),
                },
            },
        ],
        (Probe::WorkingTree, Answer::Output(output)) => seq![
            DiagnosticView {
                key: "working_tree"@,
                value: match output {
                    None => "git not available"@,
                    Some(o) => if text::trim(o@).len() == 0 {
                        "clean"@
                    } else {
                        text::dec(text::lines(o@).len()) + " changed file(s)"@
                    },
                },
            },
        ],
        (Probe::Remote, Answer::Output(output)) => seq![
            DiagnosticView {
                key: "remote"@,
                value: match output {
                    None => "git not available"@,
                    Some(o) => if text::trim(o@).len() == 0 {
                        "no remotes configured"@
                    } else if text::lines(o@).len() == 0 {
                        "unknown"@
                    } else {
                        text::lines(o@)[0]
                    },
                },
            },
        ],
        (Probe::AheadBehind, Answer::Output(output)) => seq![
            DiagnosticView {
                key: "ahead_behind"@,
                value: match output {
                    None => "git not available"@,
                    Some(o) => {
                        let parts = text::split(text::trim(o@), '\t');
                        if parts.len() == 2 {
                            "ahead "@ + parts[0] + ", behind "@ + parts[1]
                        } else {
                            "no upstream configured"@
                        }
                    },
                },
            },
        ],
        (Probe::Port(port), Answer::Listening(listening)) => seq![
            DiagnosticView {
                key: "port"@,
                value: ":"@ + text::dec(port as nat) + (if listening {
                    " is listening"@
                } else {
                    " not listening"@
                }),
            },
        ],
        (Probe::Listing(_), Answer::Directory { dir, listing }) => seq![
            DiagnosticView {
                key: "nearest"@,
                value: match listing {
                    Listing::Entries(entries) => dir@ + " contains: "@ + text::join(
                        entry_texts(entries@),
                        ", "@,
                    ),
                    Listing::Failed(e) => dir@ + ": "@ + e@,
                },
            },
        ],
        (Probe::DiskSpace(_), Answer::Output(output)) => seq![
            DiagnosticView {
                key: "disk"@,
                value: match output {
                    None => "df not available"@,
                    Some(o) => if text::lines(o@).len() > 1 {
                        text::trim(text::lines(o@)[1])
                    } else {
                        text::trim("unknown"@)
                    },
                },
            },
        ],
        (Probe::NodeModules, Answer::Age { exists, seconds }) => seq![
            DiagnosticView {
                key: "node_modules"@,
                value: if !exists {
                    "not found (try: npm install)"@
                } else {
                    match seconds {
                        Some(s) => "exists ("@ + age_text(s as nat) + ")"@,
                        None => "exists (unknown age)"@,
                    }
                },
            },
        ],
        (Probe::PackageHint(command), _) => seq![
            DiagnosticView { key: "package_hint"@, value: package_hint_text(command@) },
        ],
        (Probe::SimilarCommands(command), Answer::Programs(names)) => seq![
            DiagnosticView {
                key: "similar_commands"@,
                value: names_or_none(similar_names(command@, text::views(names@))),
            },
        ],
        (Probe::FileOp { source, dest }, Answer::Ends(d)) => file_op_lines(
            source@,
            dest@,
            d,
        ),
        _ => Seq::empty(),
    }
}

fn one_line(line: DiagnosticLine) -> (r: Vec<DiagnosticLine>)
    ensures
        diagnostic_views(r@) == seq![line@],
{
    let mut r: Vec<DiagnosticLine> = Vec::new();
    r.push(line);
    proof {
        assert(diagnostic_views(r@) =~= seq![line@]);
    }
    r
}

fn no_line() -> (r: Vec<DiagnosticLine>)
    ensures
        diagnostic_views(r@) == Seq::<DiagnosticView>::empty(),
{
    let r: Vec<DiagnosticLine> = Vec::new();
    proof {
        assert(diagnostic_views(r@) =~= Seq::<DiagnosticView>::empty());
    }
    r
}

fn opt_str(t: &Option<String>) -> (r: Option<&str>)
    ensures
        output_view(r) == grammar::opt_view(*t),
{
    match t {
        Some(t) => Some(t.as_str()),
        None => None,
    }
}

/// Tells what was found for a probe.
pub fn tell(probe: &Probe, answer: &Answer) -> (r: Vec<DiagnosticLine>)
    ensures
        diagnostic_views(r@) == told(*probe, *answer),
{
    match (probe, answer) {
        (Probe::Source(_), Answer::Info { info, exists }) => one_line(
            source_exists(info.as_str(), *exists),
        ),
        (Probe::PathWalk(_), Answer::Path(found)) => match found {
            Some(d) => path_diagnosis_to_lines(d),
            None => no_line(),
        },
        (Probe::Permissions(_), Answer::Access(found)) => match found {
            Some(a) => {
                let d = diagnose_permissions(a);
                one_line(permission_diagnosis_to_line(&d))
            },
            None => no_line(),
        },
        (Probe::GitRepo, Answer::Found(found)) => one_line(is_git_repo(opt_str(found))),
        (Probe::Branch(branch), Answer::Output(output)) => one_line(
            branch_exists(branch.as_str(), opt_str(output)),
        ),
        (Probe::SimilarBranches(branch), Answer::Output(output)) => one_line(
            branch_list_similar(branch.as_str(), opt_str(output)),
        ),
        (Probe::WorkingTree, Answer::Output(output)) => one_line(
            working_tree_clean(opt_str(output)),
        ),
        (Probe::Remote, Answer::Output(output)) => one_line(remote_ref_status(opt_str(output))),
        (Probe::AheadBehind, Answer::Output(output)) => one_line(ahead_behind(opt_str(output))),
        (Probe::Port(port), Answer::Listening(listening)) => one_line(
            port_listening(*port, *listening),
        ),
        (Probe::Listing(_), Answer::Directory { dir, listing }) => one_line(
            dir_listing(dir.as_str(), listing),
        ),
        (Probe::DiskSpace(_), Answer::Output(output)) => one_line(disk_space(opt_str(output))),
        (Probe::NodeModules, Answer::Age { exists, seconds }) => one_line(
            node_modules_check(*exists, *seconds),
        ),
        (Probe::PackageHint(command), _) => one_line(command_not_found_hint(command.as_str())),
        (Probe::SimilarCommands(command), Answer::Programs(names)) => one_line(
            command_similar(command.as_str(), names.as_slice()),
        ),
        (Probe::FileOp { source, dest }, Answer::Ends(d)) => file_op_diagnosis_to_lines(
            source.as_str(),
            dest.as_str(),
            d,
        ),
        _ => no_line(),
    }
}

// ---------------------------------------------------------------------------
// The course of an enrichment
// ---------------------------------------------------------------------------

/// How far an enrichment has come.
#[derive(Debug, Clone, Copy, PartialEq, Eq, Structural)]
pub enum Stage {
    /// The command was not found: similar ones are looked for.
    Similar,
    /// The command may not be run: its own permissions come first.
    CommandPermissions,
    /// Then those of its paths.
    PathPermissions { next: usize },
    /// The diagnostics that the grammar asks for.
    Grammar { next: usize },
    /// The diagnostics for what the command is about.
    Defaults { next: usize },
    /// The two ends of a file operation.
    FileOp,
    /// The port of a network operation.
    Port,
    Done,
}

pub struct EnrichmentView {
    pub command: Seq<Seq<char>>,
    pub paths: Seq<Seq<char>>,
    /// The diagnostics that are asked for at this stage.
    pub names: Seq<Seq<char>>,
    pub stage: Stage,
    pub lines: Seq<DiagnosticView>,
}

/// What an exit code says by itself, as a diagnostic.
pub open spec fn signal_lines(exit_code: int) -> Seq<DiagnosticView> {
    match exit_code_text(exit_code) {
        Some(value) => seq![DiagnosticView { key: "signal"@, value }],
        None => Seq::empty(),
    }
}

/// The start of an enrichment. The exit code is explained first; some exit
/// codes decide what follows.
pub open spec fn enrichment_start(
    command: Seq<Seq<char>>,
    exit_code: int,
    grammar: Option<grammar::GrammarView>,
) -> EnrichmentView {
    let lines = signal_lines(exit_code);
    let bare = EnrichmentView {
        command,
        paths: path_args_of(command, grammar),
        names: Seq::empty(),
        stage: Stage::Done,
        lines,
    };
    if exit_code == 127 && command.len() > 0 {
        EnrichmentView {
            stage: Stage::Similar,
            lines: lines.push(
                DiagnosticView {
                    key: "package_hint"@,
                    value: package_hint_text(base_name(command[0])),
                },
            ),
            ..bare
        }
    } else if exit_code == 130 || exit_code == 137 || exit_code == 139 {
        bare
    } else if exit_code == 126 && command.len() > 0 {
        EnrichmentView { stage: Stage::CommandPermissions, ..bare }
    } else {
        match grammar {
            Some(g) => EnrichmentView {
                stage: Stage::Grammar { next: 0 },
                names: grammar_on_failure(g.enrich, command),
                ..bare
            },
            None => EnrichmentView {
                stage: Stage::Defaults { next: 0 },
                names: default_diagnostics(intent_of(command)),
                ..bare
            },
        }
    }
}

/// The next round of an enrichment: the probes to be made, if there is one.
/// `exhausted` tells whether the time for it is used up; then no named
/// diagnostic is started any more, and every other probe that is due is left
/// out, except for that of the command itself.
pub open spec fn enrichment_round(s: EnrichmentView, exhausted: bool) -> (
    EnrichmentView,
    Option<Seq<ProbeView>>,
) {
    match s.stage {
        Stage::Similar => (
            EnrichmentView { stage: Stage::Done, ..s },
            Some(
                if exhausted || s.command.len() == 0 {
                    Seq::empty()
                } else {
                    seq![ProbeView::SimilarCommands(base_name(s.command[0]))]
                },
            ),
        ),
        Stage::CommandPermissions => (
            EnrichmentView { stage: Stage::PathPermissions { next: 0 }, ..s },
            Some(
                if s.command.len() == 0 {
                    Seq::empty()
                } else {
                    seq![ProbeView::Permissions(s.command[0])]
                },
            ),
        ),
        Stage::PathPermissions { next } => if next < s.paths.len() {
            (
                EnrichmentView {
                    stage: Stage::PathPermissions { next: (next + 1) as usize },
                    ..s
                },
                Some(
                    if exhausted {
                        Seq::empty()
                    } else {
                        seq![ProbeView::Permissions(s.paths[next as int])]
                    },
                ),
            )
        } else {
            (EnrichmentView { stage: Stage::Done, ..s }, None)
        },
        Stage::Grammar { next } => if next < s.names.len() && !exhausted {
            (
                EnrichmentView { stage: Stage::Grammar { next: (next + 1) as usize }, ..s },
                Some(probes_for(s.names[next as int], s.command, s.paths)),
            )
        } else if s.lines.len() > 0 {
            (EnrichmentView { stage: Stage::Done, ..s }, None)
        } else {
            (
                EnrichmentView {
                    stage: Stage::Defaults { next: 0 },
                    names: default_diagnostics(intent_of(s.command)),
                    ..s
                },
                Some(Seq::empty()),
            )
        },
        Stage::Defaults { next } => if next < s.names.len() && !exhausted {
            (
                EnrichmentView { stage: Stage::Defaults { next: (next + 1) as usize }, ..s },
                Some(probes_for(s.names[next as int], s.command, s.paths)),
            )
        } else {
            (EnrichmentView { stage: Stage::FileOp, ..s }, Some(Seq::empty()))
        },
        Stage::FileOp => (
            EnrichmentView { stage: Stage::Port, ..s },
            Some(
                if intent_of(s.command) == CommandIntent::FileOp && s.paths.len() >= 2
                    && !exhausted {
                    seq![ProbeView::FileOp { source: s.paths[0], dest: s.paths.last() }]
                } else {
                    Seq::empty()
                },
            ),
        ),
        Stage::Port => (
            EnrichmentView { stage: Stage::Done, ..s },
            Some(
                if intent_of(s.command) == CommandIntent::NetworkOp && !exhausted {
                    match port_of(s.command) {
                        Some(port) => seq![ProbeView::Port(port as u16)],
                        None => Seq::empty(),
                    }
                } else {
                    Seq::empty()
                },
            ),
        ),
        Stage::Done => (s, None),
    }
}

/// An enrichment under way. The caller asks for rounds of probes, makes them,
/// and hands the answers in, until there is no further round.
pub struct Enrichment {
    pub command: Vec<String>,
    pub paths: Vec<String>,
    pub names: Vec<String>,
    pub stage: Stage,
    pub diagnostics: Vec<DiagnosticLine>,
}

impl View for Enrichment {
    type V = EnrichmentView;

    open spec fn view(&self) -> EnrichmentView {
        EnrichmentView {
            command: text::views(self.command@),
            paths: text::views(self.paths@),
            names: text::views(self.names@),
            stage: self.stage,
            lines: diagnostic_views(self.diagnostics@),
        }
    }
}

/// Starts the enrichment of a command that failed.
pub fn enrich(command: &[String], exit_code: i32, grammar: Option<&Grammar>) -> (r: Enrichment)
    ensures
        r@ == enrichment_start(
            text::views(command@),
            exit_code as int,
            classifier::ref_grammar_view(grammar),
        ),
{
    let mut r = Enrichment {
        command: copy_strings(command),
        paths: extract_path_args(command, grammar),
        names: Vec::new(),
        stage: Stage::Done,
        diagnostics: Vec::new(),
    };
    if let Some(line) = map_exit_code(exit_code) {
        r.diagnostics.push(line);
    }
    proof {
        assert(r@.lines =~= signal_lines(exit_code as int));
        assert(r@.names =~= Seq::<Seq<char>>::empty());
        assert(text::views(command@).len() == command@.len());
    }
    if exit_code == 127 && command.len() > 0 {
        let name = base_command(command[0].as_str());
        let ghost before = r@.lines;
        r.diagnostics.push(command_not_found_hint(name.as_str()));
        r.stage = Stage::Similar;
        proof {
            assert(r@.lines =~= before.push(
                DiagnosticView { key: "package_hint"@, value: package_hint_text(name@) },
            ));
        }
        return r;
    }
    if exit_code == 130 || exit_code == 137 || exit_code == 139 {
        return r;
    }
    if exit_code == 126 && command.len() > 0 {
        r.stage = Stage::CommandPermissions;
        return r;
    }
    match grammar {
        Some(g) => {
            r.names = grammar_on_failure_list(g, command);
            r.stage = Stage::Grammar { next: 0 };
        },
        None => {
            r.names = default_diagnostics_for_intent(detect_intent(command));
            r.stage = Stage::Defaults { next: 0 };
        },
    }
    r
}

impl Enrichment {
    /// The probes of the next round; `None` when the enrichment is done.
    pub fn next_round(&mut self, exhausted: bool) -> (r: Option<Vec<Probe>>)
        ensures
            final(self)@ == enrichment_round(old(self)@, exhausted).0,
            match r {
                Some(probes) => enrichment_round(old(self)@, exhausted).1 == Some(
                    probe_views(probes@),
                ),
                None => enrichment_round(old(self)@, exhausted).1 is None,
            },
    {
        proof {
            assert(self@.command.len() == self.command@.len());
            assert(self@.paths.len() == self.paths@.len());
            assert(self@.names.len() == self.names@.len());
            assert(self@.lines.len() == self.diagnostics@.len());
        }
        match self.stage {
            Stage::Similar => {
                self.stage = Stage::Done;
                if exhausted || self.command.len() == 0 {
                    return Some(no_probe());
                }
                Some(
                    one_probe(
                        Probe::SimilarCommands(base_command(self.command[0].as_str())),
                    ),
                )
            },
            Stage::CommandPermissions => {
                self.stage = Stage::PathPermissions { next: 0 };
                if self.command.len() == 0 {
                    return Some(no_probe());
                }
                Some(one_probe(Probe::Permissions(self.command[0].clone())))
            },
            Stage::PathPermissions { next } => {
                if next < self.paths.len() {
                    self.stage = Stage::PathPermissions { next: next + 1 };
                    if exhausted {
                        return Some(no_probe());
                    }
                    return Some(one_probe(Probe::Permissions(self.paths[next].clone())));
                }
                self.stage = Stage::Done;
                None
            },
            Stage::Grammar { next } => {
                if next < self.names.len() && !exhausted {
                    self.stage = Stage::Grammar { next: next + 1 };
                    return Some(
                        run_grammar_diagnostic(
                            self.names[next].as_str(),
                            self.command.as_slice(),
                            self.paths.as_slice(),
                        ),
                    );
                }
                if self.diagnostics.len() > 0 {
                    self.stage = Stage::Done;
                    return None;
                }
                self.names = default_diagnostics_for_intent(
                    detect_intent(self.command.as_slice()),
                );
                self.stage = Stage::Defaults { next: 0 };
                Some(no_probe())
            },
            Stage::Defaults { next } => {
                if next < self.names.len() && !exhausted {
                    self.stage = Stage::Defaults { next: next + 1 };
                    return Some(
                        run_grammar_diagnostic(
                            self.names[next].as_str(),
                            self.command.as_slice(),
                            self.paths.as_slice(),
                        ),
                    );
                }
                self.stage = Stage::FileOp;
                Some(no_probe())
            },
            Stage::FileOp => {
                self.stage = Stage::Port;
                let n: usize = self.paths.len();
                let intent = detect_intent(self.command.as_slice());
                if intent == CommandIntent::FileOp && n >= 2 && !exhausted {
                    return Some(
                        one_probe(
                            Probe::FileOp {
                                source: self.paths[0].clone(),
                                dest: self.paths[n - 1].clone(),
                            },
                        ),
                    );
                }
                Some(no_probe())
            },
            Stage::Port => {
                self.stage = Stage::Done;
                let intent = detect_intent(self.command.as_slice());
                if intent == CommandIntent::NetworkOp && !exhausted {
                    if let Some(port) = extract_port(self.command.as_slice(), "") {
                        return Some(one_probe(Probe::Port(port)));
                    }
                }
                Some(no_probe())
            },
            Stage::Done => None,
        }
    }

    /// Takes what was found for a probe.
    pub fn take_answer(&mut self, probe: &Probe, answer: &Answer)
        ensures
            final(self)@ == (EnrichmentView {
                lines: old(self)@.lines + told(*probe, *answer),
                ..old(self)@
            }),
    {
        let mut lines = tell(probe, answer);
        let ghost more = diagnostic_views(lines@);
        self.diagnostics.append(&mut lines);
        proof {
            assert(self@.lines =~= old(self)@.lines + more);
        }
    }

    /// The diagnostics.
    pub fn finish(self) -> (r: EnrichmentResult)
        ensures
            diagnostic_views(r.diagnostics@) == self@.lines,
    {
        EnrichmentResult { diagnostics: self.diagnostics }
    }
}

// ---------------------------------------------------------------------------
// Laws
// ---------------------------------------------------------------------------

/// How many rounds an enrichment can still have.
pub open spec fn rounds_left(s: EnrichmentView) -> int {
    match s.stage {
        Stage::Similar => 1,
        Stage::CommandPermissions => s.paths.len() as int + 2,
        Stage::PathPermissions { next } => if next <= s.paths.len() {
            s.paths.len() - next + 1
        } else {
            1
        },
        Stage::Grammar { next } => if next <= s.names.len() {
            s.names.len() - next + 8
        } else {
            8
        },
        Stage::Defaults { next } => if next <= s.names.len() {
            s.names.len() - next + 3
        } else {
            3
        },
        Stage::FileOp => 2,
        Stage::Port => 1,
        Stage::Done => 0,
    }
}

/// An enrichment comes to an end, whatever is found and however long it takes.
pub proof fn law_enrichment_ends(s: EnrichmentView, exhausted: bool)
    requires
        s.names.len() <= usize::MAX,
        s.paths.len() <= usize::MAX,
    ensures
        enrichment_round(s, exhausted).1 is Some ==> rounds_left(enrichment_round(s, exhausted).0)
            < rounds_left(s),
        enrichment_round(s, exhausted).1 is None ==> enrichment_round(s, exhausted).0.stage
            == Stage::Done,
        rounds_left(s) >= 0,
{
}

/// The arguments of a command that are no flags are its words behind the first, in their
/// order, that do not begin with a dash.
pub proof fn law_plain_arguments_begin_with_no_dash(command: Seq<Seq<char>>)
    requires
        command.len() > 0,
    ensures
        plain_args(command) == command.skip(1).filter(
            |word: Seq<char>| word.len() == 0 || word[0] != '-',
        ),
{
    lemma_plain_args_upto(command, command.len());
    assert(command.subrange(1, command.len() as int) =~= command.skip(1));
}

proof fn lemma_dash(word: Seq<char>)
    ensures
        is_flag(word) <==> word.len() > 0 && word[0] == '-',
{
    reveal_strlit("-");
    assert("-"@ =~= seq!['-']);
    if word.len() > 0 {
        assert(word.take(1) =~= seq![word[0]]);
        assert(seq![word[0]][0] == word[0]);
    }
    if is_flag(word) {
        assert(word.take(1)[0] == word[0]);
    }
}

proof fn lemma_plain_args_upto(command: Seq<Seq<char>>, n: nat)
    requires
        1 <= n <= command.len(),
    ensures
        plain_args_upto(command, n) == command.subrange(1, n as int).filter(
            |word: Seq<char>| word.len() == 0 || word[0] != '-',
        ),
    decreases n,
{
    let plain = |word: Seq<char>| word.len() == 0 || word[0] != '-';
    reveal(Seq::filter);
    if n == 1 {
        assert(command.subrange(1, 1) =~= Seq::empty());
        assert(plain_args_upto(command, n) =~= command.subrange(1, 1).filter(plain));
    } else {
        lemma_plain_args_upto(command, (n - 1) as nat);
        lemma_dash(command[n - 1]);
        let words = command.subrange(1, n as int);
        assert(words.drop_last() =~= command.subrange(1, n - 1));
        assert(words.last() == command[n - 1]);
    }
}

/// Where no grammar points its paths out, the path arguments of a command are all its
/// arguments that do not begin with a dash.
pub proof fn law_paths_are_the_plain_arguments(
    command: Seq<Seq<char>>,
    grammar: Option<grammar::GrammarView>,
)
    requires
        command.len() > 0,
        grammar is None || grammar->0.enrich is None || grammar->0.enrich->0.path_args is None,
    ensures
        path_args_of(command, grammar) == command.skip(1).filter(
            |word: Seq<char>| word.len() == 0 || word[0] != '-',
        ),
{
    law_plain_arguments_begin_with_no_dash(command);
}

/// Where a grammar points the paths out, they are the plain arguments at its positions,
/// in the order of the positions; positions behind the last argument do not count.
pub proof fn law_paths_are_those_pointed_out(
    command: Seq<Seq<char>>,
    grammar: grammar::GrammarView,
    positions: Seq<usize>,
)
    requires
        command.len() > 0,
        grammar.enrich is Some,
        grammar.enrich->0.path_args == Some(positions),
    ensures
        ({
            let args = command.skip(1).filter(
                |word: Seq<char>| word.len() == 0 || word[0] != '-',
            );
            path_args_of(command, Some(grammar)) == positions.filter(
                |at: usize| at < args.len(),
            ).map_values(|at: usize| args[at as int])
        }),
{
    law_plain_arguments_begin_with_no_dash(command);
    lemma_chosen_args(plain_args(command), positions);
}

proof fn lemma_chosen_args(args: Seq<Seq<char>>, positions: Seq<usize>)
    ensures
        chosen_args(args, positions) == positions.filter(
            |at: usize| at < args.len(),
        ).map_values(|at: usize| args[at as int]),
    decreases positions.len(),
{
    let known = |at: usize| at < args.len();
    let word = |at: usize| args[at as int];
    reveal(Seq::filter);
    if positions.len() > 0 {
        lemma_chosen_args(args, positions.drop_last());
        let before = positions.drop_last().filter(known);
        assert(before.push(positions.last()).map_values(word) =~= before.map_values(word).push(
            word(positions.last()),
        ));
    }
    assert(chosen_args(args, positions) =~= positions.filter(known).map_values(word));
}

/// A flag more, wherever it stands behind the name of the command, changes no path
/// argument.
pub proof fn law_flags_are_no_paths(
    command: Seq<Seq<char>>,
    grammar: Option<grammar::GrammarView>,
    at: int,
    flag: Seq<char>,
)
    requires
        1 <= at <= command.len(),
        flag.len() > 0,
        flag[0] == '-',
    ensures
        path_args_of(command.insert(at, flag), grammar) == path_args_of(command, grammar),
{
    let plain = |word: Seq<char>| word.len() == 0 || word[0] != '-';
    let more = command.insert(at, flag);
    law_plain_arguments_begin_with_no_dash(command);
    law_plain_arguments_begin_with_no_dash(more);
    let (first, rest) = (command.subrange(1, at), command.skip(at));
    assert(command.skip(1) =~= first + rest);
    assert(more.skip(1) =~= first + (seq![flag] + rest));
    Seq::filter_distributes_over_add(first, rest, plain);
    Seq::filter_distributes_over_add(first, seq![flag] + rest, plain);
    Seq::filter_distributes_over_add(seq![flag], rest, plain);
    reveal(Seq::filter);
    assert(Seq::<Seq<char>>::empty().filter(plain) =~= Seq::empty());
    assert(seq![flag].drop_last() =~= Seq::empty());
    assert(seq![flag].last() == flag && !plain(flag));
    assert(seq![flag].filter(plain) =~= Seq::empty());
    assert(Seq::<Seq<char>>::empty() + rest.filter(plain) =~= rest.filter(plain));
}

/// After an interrupt or a crash nothing is looked up: the exit code says all.
pub proof fn law_interrupts_are_explained_only(
    command: Seq<Seq<char>>,
    exit_code: int,
    grammar: Option<grammar::GrammarView>,
    exhausted: bool,
)
    requires
        exit_code == 130 || exit_code == 137 || exit_code == 139,
    ensures
        ({
            let s = enrichment_start(command, exit_code, grammar);
            &&& s.lines == signal_lines(exit_code)
            &&& s.lines.len() == 1
            &&& enrichment_round(s, exhausted).1 is None
        }),
{
}

/// A command that was not found is always told as such, with where to get it,
/// even where no time is left.
pub proof fn law_missing_commands_get_a_hint(
    command: Seq<Seq<char>>,
    grammar: Option<grammar::GrammarView>,
)
    requires
        command.len() > 0,
    ensures
        enrichment_start(command, 127, grammar).lines == seq![
            DiagnosticView { key: "signal"@, value: "command not found (exit 127)"@ },
            DiagnosticView {
                key: "package_hint"@,
                value: package_hint_text(base_name(command[0])),
            },
        ],
{
    assert(enrichment_start(command, 127, grammar).lines =~= seq![
        DiagnosticView { key: "signal"@, value: "command not found (exit 127)"@ },
        DiagnosticView { key: "package_hint"@, value: package_hint_text(base_name(command[0])) },
    ]);
}

/// With no time left an enrichment makes no probe but that of a command that
/// may not be run.
pub proof fn law_no_probes_without_time(s: EnrichmentView)
    requires
        s.stage != Stage::CommandPermissions,
    ensures
        enrichment_round(s, true).1 matches Some(probes) ==> probes.len() == 0,
{
}

/// What stands before the last slash of a command does not count.
pub proof fn law_commands_go_by_their_last_name(dir: Seq<char>, name: Seq<char>)
    requires
        !name.contains('/'),
    ensures
        base_name(name) == name,
        base_name(dir + seq!['/'] + name) == name,
{
    text::law_last_part_is_behind_the_last_separator(dir, name, '/');
    assert(dir + seq!['/'] + name =~= dir.push('/') + name);
}

/// What a command is about: each is listed under one heading at most, and one that is
/// not listed runs a process.
pub proof fn law_listed_commands_have_an_intent(command: Seq<Seq<char>>)
    requires
        command.len() > 0,
    ensures
        ({
            let name = base_name(command[0]);
            let files = name == "cp"@ || name == "mv"@ || name == "ln"@ || name == "rm"@ || name
                == "touch"@ || name == "chmod"@ || name == "chown"@ || name == "cat"@ || name
                == "head"@ || name == "tail"@ || name == "less"@ || name == "more"@;
            let dirs = name == "mkdir"@ || name == "cd"@ || name == "ls"@ || name == "rmdir"@;
            let network = name == "curl"@ || name == "wget"@ || name == "ssh"@;
            let build = name == "cargo"@ || name == "npm"@ || name == "npx"@ || name == "python"@
                || name == "python3"@ || name == "go"@ || name == "make"@ || name == "node"@
                || name == "rustc"@ || name == "gcc"@ || name == "javac"@;
            &&& intent_of(command) == CommandIntent::FileOp <==> files
            &&& intent_of(command) == CommandIntent::DirOp <==> !files && dirs
            &&& intent_of(command) == CommandIntent::NetworkOp <==> !files && !dirs && network
            &&& intent_of(command) == CommandIntent::BuildRun <==> !files && !dirs && !network
                && build
        }),
{
    let name = base_name(command[0]);
    let f = file_commands();
    assert(f[0] == "cp"@ && f[1] == "mv"@ && f[2] == "ln"@ && f[3] == "rm"@ && f[4] == "touch"@
        && f[5] == "chmod"@ && f[6] == "chown"@ && f[7] == "cat"@ && f[8] == "head"@ && f[9]
        == "tail"@ && f[10] == "less"@ && f[11] == "more"@);
    let d = dir_commands();
    assert(d[0] == "mkdir"@ && d[1] == "cd"@ && d[2] == "ls"@ && d[3] == "rmdir"@);
    let n = network_commands();
    assert(n[0] == "curl"@ && n[1] == "wget"@ && n[2] == "ssh"@);
    let b = build_commands();
    assert(b[0] == "cargo"@ && b[1] == "npm"@ && b[2] == "npx"@ && b[3] == "python"@ && b[4]
        == "python3"@ && b[5] == "go"@ && b[6] == "make"@ && b[7] == "node"@ && b[8] == "rustc"@
        && b[9] == "gcc"@ && b[10] == "javac"@);
}

/// Two names are alike where one stands in the other, or where both are short and two
/// edits lead from one to the other.
pub proof fn law_alike_names_are_two_edits_away(a: Seq<char>, b: Seq<char>)
    ensures
        alike(a, b) <==> (exists|i: int|
            0 <= i && i + a.len() <= b.len() && #[trigger] b.subrange(i, i + a.len()) == a) || (
        exists|i: int|
            0 <= i && i + b.len() <= a.len() && #[trigger] a.subrange(i, i + b.len()) == b) || (
        vstd::utf8::encode_utf8(a).len() <= 10 && vstd::utf8::encode_utf8(b).len() <= 10
            && distance::leads_to(a, b, 2)),
{
    distance::law_distance_is_the_shortest_way(a, b, 2);
    assert(text::contains(b, a) <==> exists|i: int|
        0 <= i && i + a.len() <= b.len() && #[trigger] b.subrange(i, i + a.len()) == a) by {
        if text::contains(b, a) {
            let i = choose|i: int| text::occurs_at(b, a, i);
            assert(b.subrange(i, i + a.len()) == a);
        }
        if exists|i: int|
            0 <= i && i + a.len() <= b.len() && #[trigger] b.subrange(i, i + a.len()) == a {
            let i = choose|i: int|
                0 <= i && i + a.len() <= b.len() && #[trigger] b.subrange(i, i + a.len()) == a;
            assert(text::occurs_at(b, a, i));
        }
    }
    assert(text::contains(a, b) <==> exists|i: int|
        0 <= i && i + b.len() <= a.len() && #[trigger] a.subrange(i, i + b.len()) == b) by {
        if text::contains(a, b) {
            let i = choose|i: int| text::occurs_at(a, b, i);
            assert(a.subrange(i, i + b.len()) == b);
        }
        if exists|i: int|
            0 <= i && i + b.len() <= a.len() && #[trigger] a.subrange(i, i + b.len()) == b {
            let i = choose|i: int|
                0 <= i && i + b.len() <= a.len() && #[trigger] a.subrange(i, i + b.len()) == b;
            assert(text::occurs_at(a, b, i));
        }
    }
}

/// A name is never like itself, and likeness goes both ways.
pub proof fn law_likeness_goes_both_ways(a: Seq<char>, b: Seq<char>)
    ensures
        !fuzzy(a, a),
        fuzzy(a, b) == fuzzy(b, a),
        a != b && outside::lowercase(a) == outside::lowercase(b) ==> fuzzy(a, b),
{
    let x = outside::lowercase(a);
    let y = outside::lowercase(b);
    distance::law_edits_are_symmetric(x, y);
    assert(x.subrange(0, x.len() as int) =~= x);
    assert(text::occurs_at(x, x, 0));
}

/// The similar names are told once each, five at most, and none is left out while fewer
/// than five are told.
pub proof fn law_similar_names_are_the_first_five(command: Seq<char>, names: Seq<Seq<char>>)
    ensures
        similar_names(command, names).len() <= 5,
        similar_names(command, names).no_duplicates(),
        forall|i: int|
            0 <= i < similar_names(command, names).len() ==> names.contains(
                #[trigger] similar_names(command, names)[i],
            ) && fuzzy(command, similar_names(command, names)[i]),
        similar_names(command, names).len() < 5 ==> forall|i: int|
            0 <= i < names.len() && fuzzy(command, #[trigger] names[i]) ==> similar_names(
                command,
                names,
            ).contains(names[i]),
    decreases names.len(),
{
    if names.len() > 0 {
        let fewer = names.drop_last();
        law_similar_names_are_the_first_five(command, fewer);
        let before = similar_names(command, fewer);
        let told = similar_names(command, names);
        assert forall|i: int| 0 <= i < told.len() implies names.contains(#[trigger] told[i])
            && fuzzy(command, told[i]) by {
            if i < before.len() {
                assert(told[i] == before[i]);
                let k = choose|k: int| 0 <= k < fewer.len() && fewer[k] == before[i];
                assert(names[k] == told[i]);
            } else {
                assert(told[i] == names[names.len() - 1]);
            }
        }
        if told.len() < 5 {
            assert forall|i: int|
                0 <= i < names.len() && fuzzy(command, #[trigger] names[i]) implies told.contains(
                names[i],
            ) by {
                if i < fewer.len() {
                    assert(fewer[i] == names[i]);
                    let k = choose|k: int| 0 <= k < before.len() && before[k] == fewer[i];
                    assert(told[k] == names[i]);
                } else if !before.contains(names.last()) {
                    assert(told[before.len() as int] == names[i]);
                }
            }
        }
    }
}

/// The names that are told stay in their order: further names only come behind.
pub proof fn law_further_names_come_behind(
    command: Seq<char>,
    names: Seq<Seq<char>>,
    more: Seq<Seq<char>>,
)
    ensures
        similar_names(command, names + more).len() >= similar_names(command, names).len(),
        similar_names(command, names + more).take(
            similar_names(command, names).len() as int,
        ) == similar_names(command, names),
    decreases more.len(),
{
    let first = similar_names(command, names);
    if more.len() == 0 {
        assert(names + more =~= names);
        assert(first.take(first.len() as int) =~= first);
    } else {
        law_further_names_come_behind(command, names, more.drop_last());
        assert((names + more).drop_last() =~= names + more.drop_last());
        let before = similar_names(command, names + more.drop_last());
        let told = similar_names(command, names + more);
        assert(told.take(first.len() as int) =~= before.take(first.len() as int));
    }
}

/// The similar branches are the first five of those that are like the one asked for.
pub proof fn law_similar_branches_are_the_first_five(branch: Seq<char>, names: Seq<Seq<char>>)
    ensures
        ({
            let all = names.filter(|name: Seq<char>| fuzzy(branch, name));
            similar_branches(branch, names) == (if all.len() < 5 {
                all
            } else {
                all.take(5)
            })
        }),
    decreases names.len(),
{
    reveal(Seq::filter);
    let like = |name: Seq<char>| fuzzy(branch, name);
    let all = names.filter(like);
    if names.len() > 0 {
        law_similar_branches_are_the_first_five(branch, names.drop_last());
        let less = names.drop_last().filter(like);
        if all.len() >= 5 && less.len() >= 5 {
            assert(all.take(5) =~= less.take(5));
        } else if all.len() >= 5 {
            assert(all.take(5) =~= all);
        }
    }
    assert(similar_branches(branch, names) =~= (if all.len() < 5 {
        all
    } else {
        all.take(5)
    }));
}

/// The first argument that holds a port gives it; the command itself gives none.
pub proof fn law_first_argument_with_a_port_counts(command: Seq<Seq<char>>, k: int)
    requires
        1 <= k < command.len(),
        argument_port(command[k]) is Some,
        forall|i: int| 1 <= i < k ==> argument_port(#[trigger] command[i]) is None,
    ensures
        port_of(command) == argument_port(command[k]),
{
    lemma_port_from(command, k, 1);
}

proof fn lemma_port_from(command: Seq<Seq<char>>, k: int, i: int)
    requires
        1 <= i <= k < command.len(),
        argument_port(command[k]) is Some,
        forall|j: int| 1 <= j < k ==> argument_port(#[trigger] command[j]) is None,
    ensures
        port_from(command, i) == argument_port(command[k]),
    decreases k - i,
{
    if i < k {
        assert(argument_port(command[i]) is None);
        lemma_port_from(command, k, i + 1);
    }
}

/// A number from one to the greatest port is a port as an argument; a zero is one only
/// behind a flag.
pub proof fn law_numbers_are_ports(command: Seq<Seq<char>>, n: nat)
    requires
        n <= 65535,
        command.len() == 3,
        argument_port(command[1]) is None,
        command[2] == text::dec(n),
        url_port(command[2]) is None,
    ensures
        n > 0 ==> port_of(command) == Some(n),
        n == 0 && (command[1] == "-p"@ || command[1] == "--port"@) ==> port_of(command) == Some(n),
        n == 0 && command[0] != "-p"@ && command[0] != "--port"@ && command[1] != "-p"@
            && command[1] != "--port"@ ==> port_of(command) is None,
{
    text::law_decimal_is_read_back(n, 65535);
    reveal_with_fuel(port_from, 4);
    reveal_with_fuel(flagged_port_from, 4);
    assert(argument_port(command[2]) == (if n > 0 {
        Some(n)
    } else {
        None
    }));
    if n == 0 && (command[1] == "-p"@ || command[1] == "--port"@) {
        assert(port_from(command, 1) is None);
        assert(text::parsed(command[1], 65535) is None) by {
            reveal_strlit("-p");
            reveal_strlit("--port");
            assert(command[1][0] == '-');
            assert(!text::is_digit('-'));
        }
    }
}

/// The port of an address stands between the colon behind the host and the next slash.
pub proof fn law_ports_stand_behind_the_host(
    scheme: Seq<char>,
    host: Seq<char>,
    n: nat,
    path: Seq<char>,
)
    requires
        n <= 65535,
        !scheme.contains(':'),
        !host.contains(':'),
        !host.contains('/'),
    ensures
        argument_port(
            scheme + seq![':', '/', '/'] + host + seq![':'] + text::dec(n) + seq!['/'] + path,
        ) == Some(n),
{
    reveal_strlit("://");
    let sep = seq![':', '/', '/'];
    assert("://"@ =~= sep);
    let address = host.push(':') + text::dec(n);
    let rest = address.push('/') + path;
    let arg = scheme + seq![':', '/', '/'] + host + seq![':'] + text::dec(n) + seq!['/'] + path;
    assert(arg =~= scheme + sep + rest);
    lemma_behind_the_scheme(scheme, rest);
    let found = second_part(arg, sep)->0;
    lemma_address_holds_no_slash(host, n);
    assert(exists|short: Seq<char>| found == #[trigger] (address.push('/') + short)) by {
        if text::find(rest, sep) is None {
            assert(found == address.push('/') + path);
        } else {
            let j = text::find(rest, sep)->0;
            lemma_found_place(rest, sep);
            assert(rest.subrange(j, j + 3)[0] == rest[j]);
            assert(rest.subrange(j, j + 3)[1] == rest[j + 1]);
            assert(rest[j] == ':' && rest[j + 1] == '/');
            if j < address.len() {
                assert(address[j] == ':');
                lemma_address_colon(host, n, j);
                text::lemma_dec_is_not_empty(n);
                assert(rest[j + 1] == address[j + 1]);
                assert(address.contains(address[j + 1]));
            }
            assert(rest[address.len() as int] == '/');
            let short = path.take(j - address.len() - 1);
            assert(rest.take(j) =~= address.push('/') + short);
        }
    }
    let short = choose|short: Seq<char>| found == #[trigger] (address.push('/') + short);
    text::law_parts_before_a_separator_stay(address, short, '/');
    text::law_last_part_is_behind_the_last_separator(Seq::empty(), address, '/');
    assert(text::split(found, '/')[0] == address);
    lemma_dec_holds_no(n, ':');
    text::law_decimal_is_read_back(n, 65535);
    text::law_last_part_is_behind_the_last_separator(host, text::dec(n), ':');
    text::law_last_part_is_behind_the_last_separator(Seq::empty(), host, ':');
    assert(text::split(address, ':') =~= seq![host, text::dec(n)]);
}

proof fn lemma_behind_the_scheme(scheme: Seq<char>, rest: Seq<char>)
    requires
        !scheme.contains(':'),
    ensures
        ({
            let sep = seq![':', '/', '/'];
            second_part(scheme + sep + rest, sep) == Some(
                match text::find(rest, sep) {
                    None => rest,
                    Some(j) => rest.take(j),
                },
            )
        }),
{
    let sep = seq![':', '/', '/'];
    let arg = scheme + sep + rest;
    let at = scheme.len() as int;
    assert(arg.subrange(at, at + 3) =~= sep);
    assert forall|i: int| 0 <= i < at implies #[trigger] arg.subrange(i, i + sep.len()) != sep by {
        assert(arg.subrange(i, i + 3)[0] == scheme[i]);
        assert(scheme.contains(scheme[i]));
    }
    text::law_first_place_is_found(arg, sep, at);
    assert(arg.skip(at + 3) =~= rest);
}

proof fn lemma_found_place(text: Seq<char>, part: Seq<char>)
    requires
        text::find(text, part) is Some,
        part.len() > 0,
    ensures
        text::occurs_at(text, part, text::find(text, part)->0),
{
    let at = choose|at: int| text::occurs_at(text, part, at);
    lemma_found_upto(text, part, 0, at);
}

proof fn lemma_found_upto(text: Seq<char>, part: Seq<char>, i: int, at: int)
    requires
        0 <= i <= at,
        part.len() > 0,
        text::occurs_at(text, part, at),
    ensures
        text::occurs_at(text, part, text::first_at(text, part, i)),
    decreases at - i,
{
    if !text::occurs_at(text, part, i) {
        lemma_found_upto(text, part, i + 1, at);
    }
}

proof fn lemma_address_holds_no_slash(host: Seq<char>, n: nat)
    requires
        !host.contains('/'),
    ensures
        !(host.push(':') + text::dec(n)).contains('/'),
{
    let address = host.push(':') + text::dec(n);
    lemma_dec_holds_no(n, '/');
    if address.contains('/') {
        let j = choose|j: int| 0 <= j < address.len() && address[j] == '/';
        if j < host.len() {
            assert(host[j] == '/');
        } else if j > host.len() {
            assert(text::dec(n)[j - host.len() - 1] == '/');
        }
    }
}

proof fn lemma_address_colon(host: Seq<char>, n: nat, j: int)
    requires
        !host.contains(':'),
        0 <= j < host.len() + 1 + text::dec(n).len(),
        (host.push(':') + text::dec(n))[j] == ':',
    ensures
        j == host.len(),
{
    lemma_dec_holds_no(n, ':');
    if j < host.len() {
        assert(host[j] == ':');
    } else if j > host.len() {
        assert(text::dec(n)[j - host.len() - 1] == ':');
    }
}

proof fn lemma_dec_holds_no(n: nat, c: char)
    requires
        !text::is_digit(c),
    ensures
        !text::dec(n).contains(c),
{
    text::lemma_dec_is_not_empty(n);
}

/// On the way to a path each step goes one name further than the one before.
pub proof fn law_steps_go_one_name_further(path: Seq<char>, i: int)
    requires
        0 <= i < path_names(path).len(),
    ensures
        steps_of(path).len() == path_names(path).len(),
        i == 0 ==> steps_of(path)[0] == (if path.len() > 0 && path[0] == '/' {
            seq!['/']
        } else {
            Seq::empty()
        }) + path_names(path)[0],
        i > 0 ==> steps_of(path)[i] == steps_of(path)[i - 1] + seq!['/'] + path_names(path)[i],
{
    reveal_strlit("/");
    assert("/"@ =~= seq!['/']);
    let names = path_names(path);
    let upto = names.take(i + 1);
    assert(upto.drop_last() =~= names.take(i));
    assert(upto.last() == names[i]);
    if i == 0 {
        assert(names.take(1) =~= seq![names[0]]);
        assert(text::join(names.take(1), "/"@) =~= names[0]);
        assert(steps_of(path)[0] =~= (if path.len() > 0 && path[0] == '/' {
            seq!['/']
        } else {
            Seq::empty()
        }) + names[0]);
    } else {
        assert(text::join(upto, "/"@) =~= text::join(names.take(i), "/"@) + "/"@ + names[i]);
        assert(steps_of(path)[i] =~= steps_of(path)[i - 1] + seq!['/'] + names[i]);
    }
}

/// The names in a path are the parts between its slashes that are not empty; a dot
/// counts as the first part only.
pub proof fn law_names_stand_between_slashes(path: Seq<char>)
    ensures
        path_names(path) == (if text::split(path, '/')[0].len() == 0 {
            Seq::empty()
        } else {
            seq![text::split(path, '/')[0]]
        }) + text::split(path, '/').skip(1).filter(
            |part: Seq<char>| part.len() > 0 && part != seq!['.'],
        ),
{
    let parts = text::split(path, '/');
    text::lemma_split_is_not_empty(path, '/');
    lemma_names_upto(parts, parts.len());
    assert(parts.skip(1).take(parts.len() - 1) =~= parts.skip(1));
}

proof fn lemma_names_upto(parts: Seq<Seq<char>>, n: nat)
    requires
        1 <= n <= parts.len(),
    ensures
        names_upto(parts, n) == (if parts[0].len() == 0 {
            Seq::empty()
        } else {
            seq![parts[0]]
        }) + parts.skip(1).take(n - 1).filter(
            |part: Seq<char>| part.len() > 0 && part != seq!['.'],
        ),
    decreases n,
{
    reveal(Seq::filter);
    reveal_strlit(".");
    assert("."@ =~= seq!['.']);
    let counts = |part: Seq<char>| part.len() > 0 && part != seq!['.'];
    let first = if parts[0].len() == 0 {
        Seq::empty()
    } else {
        seq![parts[0]]
    };
    let rest = parts.skip(1).take(n - 1);
    if n == 1 {
        assert(names_upto(parts, 0) =~= Seq::<Seq<char>>::empty());
        assert(rest =~= Seq::<Seq<char>>::empty());
        assert(rest.filter(counts) =~= Seq::<Seq<char>>::empty());
        assert(names_upto(parts, 1) =~= first + rest.filter(counts));
    } else {
        lemma_names_upto(parts, (n - 1) as nat);
        assert(rest.drop_last() =~= parts.skip(1).take(n - 2));
        assert(rest.last() == parts[n - 1]);
        assert(names_upto(parts, n) =~= first + rest.filter(counts));
    }
}

/// The first action that has diagnostics of its own and that any argument names decides
/// which are asked for.
pub proof fn law_named_action_chooses_the_diagnostics(
    actions: Seq<(Seq<char>, Seq<Seq<char>>)>,
    general: Seq<Seq<char>>,
    command: Seq<Seq<char>>,
    k: int,
    at: int,
)
    requires
        0 <= k < actions.len(),
        actions[k].1.len() > 0,
        1 <= at < command.len(),
        command[at] == actions[k].0,
        forall|j: int, i: int|
            0 <= j < k && 1 <= i < command.len() && #[trigger] command[i] == (
            #[trigger] actions[j]).0 ==> actions[j].1.len() == 0,
    ensures
        on_failure_of(actions, general, command) == actions[k].1,
    decreases k,
{
    if k > 0 {
        let rest = actions.skip(1);
        assert forall|j: int, i: int|
            0 <= j < k - 1 && 1 <= i < command.len() && #[trigger] command[i] == (
            #[trigger] rest[j]).0 implies rest[j].1.len() == 0 by {
            assert(rest[j] == actions[j + 1]);
        }
        assert(rest[k - 1] == actions[k]);
        law_named_action_chooses_the_diagnostics(rest, general, command, k - 1, at);
        if names_action(command, actions[0].0) {
            let i = choose|i: int|
                1 <= i < command.len() && #[trigger] command[i] == actions[0].0;
            assert(command[i] == actions[0].0);
        }
    }
}

/// Where no argument names an action with diagnostics of its own, the general ones are
/// asked for.
pub proof fn law_general_diagnostics_are_the_rest(
    actions: Seq<(Seq<char>, Seq<Seq<char>>)>,
    general: Seq<Seq<char>>,
    command: Seq<Seq<char>>,
)
    requires
        forall|j: int, i: int|
            0 <= j < actions.len() && 1 <= i < command.len() && #[trigger] command[i] == (
            #[trigger] actions[j]).0 ==> actions[j].1.len() == 0,
    ensures
        on_failure_of(actions, general, command) == general,
    decreases actions.len(),
{
    if actions.len() > 0 {
        let rest = actions.skip(1);
        assert forall|j: int, i: int|
            0 <= j < rest.len() && 1 <= i < command.len() && #[trigger] command[i] == (
            #[trigger] rest[j]).0 implies rest[j].1.len() == 0 by {
            assert(rest[j] == actions[j + 1]);
        }
        law_general_diagnostics_are_the_rest(rest, general, command);
        if names_action(command, actions[0].0) {
            let i = choose|i: int|
                1 <= i < command.len() && #[trigger] command[i] == actions[0].0;
            assert(command[i] == actions[0].0);
        }
    }
}

/// A diagnostic on paths looks at the path that it is about: the source is the first,
/// the destination the second where there is one, and the permissions are those of all.
pub proof fn law_path_diagnostics_look_at_paths(
    command: Seq<Seq<char>>,
    paths: Seq<Seq<char>>,
)
    ensures
        paths.len() > 0 ==> probes_for("source_exists"@, command, paths) == seq![
            ProbeView::Source(paths[0]),
        ],
        paths.len() == 1 ==> probes_for("dest_path_walk"@, command, paths) == seq![
            ProbeView::PathWalk(paths[0]),
        ],
        paths.len() > 1 ==> probes_for("dest_path_walk"@, command, paths) == seq![
            ProbeView::PathWalk(paths[1]),
        ],
        probes_for("permissions"@, command, paths) == paths.map_values(
            |path: Seq<char>| ProbeView::Permissions(path),
        ),
        paths.len() > 0 ==> probes_for("dir_listing"@, command, paths) == seq![
            ProbeView::Listing(paths[0]),
        ],
        paths.len() > 0 ==> probes_for("disk_space"@, command, paths) == seq![
            ProbeView::DiskSpace(paths[0]),
        ],
        paths.len() == 0 ==> probes_for("source_exists"@, command, paths).len() == 0
            && probes_for("dest_path_walk"@, command, paths).len() == 0 && probes_for(
            "dir_listing"@,
            command,
            paths,
        ).len() == 0 && probes_for("disk_space"@, command, paths).len() == 0,
{
    lemma_diagnostic_names();
    assert(permission_probes(paths) =~= paths.map_values(
        |path: Seq<char>| ProbeView::Permissions(path),
    ));
}

/// A diagnostic on a branch asks for the first argument that is no flag, and the others
/// on a repository ask for nothing of the command.
pub proof fn law_branch_diagnostics_look_at_the_first_argument(
    command: Seq<Seq<char>>,
    paths: Seq<Seq<char>>,
    at: int,
)
    requires
        1 <= at < command.len(),
        command[at].len() == 0 || command[at][0] != '-',
        forall|i: int|
            1 <= i < at ==> (#[trigger] command[i]).len() > 0 && command[i][0] == '-',
    ensures
        probes_for("branch_exists"@, command, paths) == seq![ProbeView::Branch(command[at])],
        probes_for("branch_list_similar"@, command, paths) == seq![
            ProbeView::SimilarBranches(command[at]),
        ],
        probes_for("is_git_repo"@, command, paths) == seq![ProbeView::GitRepo],
        probes_for("working_tree_clean"@, command, paths) == seq![ProbeView::WorkingTree],
        probes_for("remote_ref_status"@, command, paths) == seq![ProbeView::Remote],
        probes_for("ahead_behind"@, command, paths) == seq![ProbeView::AheadBehind],
        probes_for("node_modules_check"@, command, paths) == seq![ProbeView::NodeModules],
{
    lemma_diagnostic_names();
    lemma_first_plain(command, at, command.len());
}

proof fn lemma_first_plain(command: Seq<Seq<char>>, at: int, n: nat)
    requires
        1 <= at < n <= command.len(),
        command[at].len() == 0 || command[at][0] != '-',
        forall|i: int|
            1 <= i < at ==> (#[trigger] command[i]).len() > 0 && command[i][0] == '-',
    ensures
        plain_args_upto(command, n).len() > 0,
        plain_args_upto(command, n)[0] == command[at],
    decreases n,
{
    lemma_dash(command[n - 1]);
    if n == at + 1 {
        lemma_no_plain(command, at as nat);
    } else {
        lemma_first_plain(command, at, (n - 1) as nat);
    }
}

proof fn lemma_no_plain(command: Seq<Seq<char>>, n: nat)
    requires
        n <= command.len(),
        forall|i: int|
            1 <= i < n ==> (#[trigger] command[i]).len() > 0 && command[i][0] == '-',
    ensures
        plain_args_upto(command, n).len() == 0,
    decreases n,
{
    if n > 1 {
        lemma_dash(command[n - 1]);
        lemma_no_plain(command, (n - 1) as nat);
    }
}

/// A diagnostic on the command asks for its name without the path before it, and one on
/// a port for the port that the command is about.
pub proof fn law_command_diagnostics_look_at_the_name(
    command: Seq<Seq<char>>,
    paths: Seq<Seq<char>>,
    dir: Seq<char>,
    name: Seq<char>,
)
    requires
        command.len() > 0,
        !name.contains('/'),
        command[0] == name || command[0] == dir + seq!['/'] + name,
    ensures
        probes_for("command_not_found_hint"@, command, paths) == seq![
            ProbeView::PackageHint(name),
        ],
        probes_for("command_similar"@, command, paths) == seq![ProbeView::SimilarCommands(name)],
        port_of(command) is None ==> probes_for("port_listening"@, command, paths).len() == 0,
        port_of(command) is Some ==> probes_for("port_listening"@, command, paths) == seq![
            ProbeView::Port(port_of(command)->0 as u16),
        ],
{
    lemma_diagnostic_names();
    law_commands_go_by_their_last_name(dir, name);
}

/// The names of the diagnostics differ in their lengths or in their first letters.
proof fn lemma_diagnostic_names()
    ensures
        "source_exists"@.len() == 13 && "source_exists"@[0] == 's',
        "dest_path_walk"@.len() == 14 && "dest_path_walk"@[0] == 'd',
        "permissions"@.len() == 11 && "permissions"@[0] == 'p',
        "is_git_repo"@.len() == 11 && "is_git_repo"@[0] == 'i',
        "branch_exists"@.len() == 13 && "branch_exists"@[0] == 'b',
        "branch_list_similar"@.len() == 19 && "branch_list_similar"@[0] == 'b',
        "working_tree_clean"@.len() == 18 && "working_tree_clean"@[0] == 'w',
        "remote_ref_status"@.len() == 17 && "remote_ref_status"@[0] == 'r',
        "ahead_behind"@.len() == 12 && "ahead_behind"@[0] == 'a',
        "port_listening"@.len() == 14 && "port_listening"@[0] == 'p',
        "dir_listing"@.len() == 11 && "dir_listing"@[0] == 'd',
        "disk_space"@.len() == 10 && "disk_space"@[0] == 'd',
        "node_modules_check"@.len() == 18 && "node_modules_check"@[0] == 'n',
        "command_not_found_hint"@.len() == 22 && "command_not_found_hint"@[0] == 'c',
        "command_similar"@.len() == 15 && "command_similar"@[0] == 'c',
{
    reveal_strlit("source_exists");
    reveal_strlit("dest_path_walk");
    reveal_strlit("permissions");
    reveal_strlit("is_git_repo");
    reveal_strlit("branch_exists");
    reveal_strlit("branch_list_similar");
    reveal_strlit("working_tree_clean");
    reveal_strlit("remote_ref_status");
    reveal_strlit("ahead_behind");
    reveal_strlit("port_listening");
    reveal_strlit("dir_listing");
    reveal_strlit("disk_space");
    reveal_strlit("node_modules_check");
    reveal_strlit("command_not_found_hint");
    reveal_strlit("command_similar");
}

/// What is asked of a failed command where no grammar says so, by what it is about.
pub proof fn law_default_diagnostics_go_by_the_intent()
    ensures
        default_diagnostics(CommandIntent::FileOp) == seq![
            "source_exists"@,
            "dest_path_walk"@,
            "permissions"@,
            "dir_listing"@,
        ],
        default_diagnostics(CommandIntent::DirOp) == seq![
            "dest_path_walk"@,
            "dir_listing"@,
            "permissions"@,
        ],
        default_diagnostics(CommandIntent::NetworkOp) == seq!["port_listening"@],
        default_diagnostics(CommandIntent::BuildRun) == seq![
            "is_git_repo"@,
            "node_modules_check"@,
        ],
        default_diagnostics(CommandIntent::ProcessExec).len() == 0,
{
}

/// Each user goes by the octal digit that is theirs: the owner by the third from the
/// right, the group by the second, others by the last. Its two is for writing and its
/// one for executing, and a lack of the first is told before one of the second.
pub proof fn law_permissions_go_by_the_octal_digit(
    mode: u32,
    is_owner: bool,
    is_group: bool,
    owner: Seq<char>,
    group: Seq<char>,
)
    ensures
        ({
            let digit: int = if is_owner {
                (mode as int / 64) % 8
            } else if is_group {
                (mode as int / 8) % 8
            } else {
                mode as int % 8
            };
            let told = permission_issue(mode, is_owner, is_group, owner, group);
            let owned = " (owned by "@ + owner + seq![':'] + group + seq![')'];
            &&& (digit / 2) % 2 == 0 ==> told == (if is_owner {
                "owner lacks write permission"@
            } else if is_group {
                "group lacks write permission"@
            } else {
                "no write for others"@ + owned
            })
            &&& (digit / 2) % 2 == 1 && digit % 2 == 0 ==> told == (if is_owner {
                "owner lacks execute permission"@
            } else if is_group {
                "group lacks execute permission"@
            } else {
                "no execute for others"@ + owned
            })
            &&& (digit / 2) % 2 == 1 && digit % 2 == 1 ==> told == "permissions appear adequate"@
        }),
{
    assert((mode & 0o200 == 0) == (((mode / 64) % 8 / 2) % 2 == 0)) by (bit_vector);
    assert((mode & 0o100 == 0) == (((mode / 64) % 8) % 2 == 0)) by (bit_vector);
    assert((mode & 0o020 == 0) == (((mode / 8) % 8 / 2) % 2 == 0)) by (bit_vector);
    assert((mode & 0o010 == 0) == (((mode / 8) % 8) % 2 == 0)) by (bit_vector);
    assert((mode & 0o002 == 0) == ((mode % 8 / 2) % 2 == 0)) by (bit_vector);
    assert((mode & 0o001 == 0) == (mode % 8 % 2 == 0)) by (bit_vector);
    reveal_strlit("no write for others (owned by ");
    reveal_strlit("no execute for others (owned by ");
    reveal_strlit("no write for others");
    reveal_strlit("no execute for others");
    reveal_strlit(" (owned by ");
    reveal_strlit(":");
    reveal_strlit(")");
    assert(":"@ =~= seq![':']);
    assert(")"@ =~= seq![')']);
    let owned = " (owned by "@ + owner + seq![':'] + group + seq![')'];
    assert("no write for others"@ + " (owned by "@ =~= "no write for others (owned by "@);
    assert("no execute for others"@ + " (owned by "@ =~= "no execute for others (owned by "@);
    assert("no write for others"@ + owned =~= "no write for others (owned by "@ + owner + ":"@
        + group + ")"@);
    assert("no execute for others"@ + owned =~= "no execute for others (owned by "@ + owner
        + ":"@ + group + ")"@);
}

/// An age is told in whole days from the first full day on, and in whole hours before.
pub proof fn law_ages_are_told_in_days_or_hours(seconds: nat)
    ensures
        seconds >= 86400 ==> age_text(seconds) == text::dec(seconds / 86400) + seq![
            'd',
            ' ',
            'o',
            'l',
            'd',
        ],
        seconds < 86400 ==> age_text(seconds) == text::dec(seconds / 3600) + seq![
            'h',
            ' ',
            'o',
            'l',
            'd',
        ],
{
    reveal_strlit("d old");
    reveal_strlit("h old");
    assert("d old"@ =~= seq!['d', ' ', 'o', 'l', 'd']);
    assert("h old"@ =~= seq!['h', ' ', 'o', 'l', 'd']);
    assert(seconds / 3600 / 24 == seconds / 86400);
}

/// Of a directory twenty entries at most are told, in their order, with a slash behind
/// those that are directories.
pub proof fn law_entries_are_the_first_twenty(entries: Seq<DirEntry>)
    ensures
        entry_texts(entries).len() <= 20,
        entry_texts(entries).len() < 20 ==> entry_texts(entries).len() == entries.len(),
        entry_texts(entries).len() <= entries.len(),
        forall|i: int|
            0 <= i < entry_texts(entries).len() ==> #[trigger] entry_texts(entries)[i]
                == entries[i].name@ + (if entries[i].is_dir {
                seq!['/']
            } else {
                Seq::empty()
            }),
{
    reveal_strlit("/");
    assert("/"@ =~= seq!['/']);
    let told = entry_texts(entries);
    assert forall|i: int| 0 <= i < told.len() implies #[trigger] told[i] == entries[i].name@ + (
    if entries[i].is_dir {
        seq!['/']
    } else {
        Seq::empty()
    }) by {
        assert(told[i] =~= entries[i].name@ + (if entries[i].is_dir {
            seq!['/']
        } else {
            Seq::empty()
        }));
    }
}

/// The exit codes that say something by themselves, and no others do.
pub proof fn law_exit_codes_are_explained(code: int)
    ensures
        exit_code_text(126) == Some("permission denied (exit 126)"@),
        exit_code_text(127) == Some("command not found (exit 127)"@),
        exit_code_text(130) == Some("interrupted by user (SIGINT)"@),
        exit_code_text(137) == Some("killed by signal 9 (likely OOM)"@),
        exit_code_text(139) == Some("segmentation fault (SIGSEGV)"@),
        code != 126 && code != 127 && code != 130 && code != 137 && code != 139
            ==> exit_code_text(code) is None,
{
}

/// The diagnostics that a grammar names are asked for one by one. When all were, what
/// was told ends the enrichment, and only where nothing was told do the defaults follow.
pub proof fn law_defaults_follow_where_nothing_was_told(s: EnrichmentView, next: usize)
    requires
        s.stage == (Stage::Grammar { next }),
    ensures
        next < s.names.len() ==> enrichment_round(s, false) == (
            EnrichmentView { stage: Stage::Grammar { next: (next + 1) as usize }, ..s },
            Some(probes_for(s.names[next as int], s.command, s.paths)),
        ),
        next >= s.names.len() && s.lines.len() > 0 ==> enrichment_round(s, false).0.stage
            == Stage::Done && enrichment_round(s, false).1 is None,
        next >= s.names.len() && s.lines.len() == 0 ==> enrichment_round(s, false).0.stage == (
        Stage::Defaults { next: 0 }) && enrichment_round(s, false).0.names == default_diagnostics(
            intent_of(s.command),
        ) && enrichment_round(s, false).1 is Some,
        enrichment_round(s, false).0.lines == s.lines,
{
}

/// A command that may not be run has its own permissions asked for first, then those of
/// each of its paths.
pub proof fn law_refused_commands_are_looked_at_first(
    command: Seq<Seq<char>>,
    grammar: Option<grammar::GrammarView>,
)
    requires
        command.len() > 0,
    ensures
        ({
            let start = enrichment_start(command, 126, grammar);
            let (first, asked) = enrichment_round(start, false);
            &&& asked == Some(seq![ProbeView::Permissions(command[0])])
            &&& first.stage == (Stage::PathPermissions { next: 0 })
            &&& first.paths == path_args_of(command, grammar)
            &&& first.paths.len() > 0 ==> enrichment_round(first, false).1 == Some(
                seq![ProbeView::Permissions(first.paths[0])],
            )
            &&& first.paths.len() == 0 ==> enrichment_round(first, false).1 is None
        }),
{
}

/// A file operation on two paths or more is looked at from its first to its last one,
/// and a command for the network at its port.
pub proof fn law_last_rounds_go_by_the_intent(s: EnrichmentView)
    ensures
        s.stage == Stage::FileOp ==> enrichment_round(s, false).0.stage == Stage::Port,
        s.stage == Stage::FileOp && intent_of(s.command) == CommandIntent::FileOp
            && s.paths.len() >= 2 ==> enrichment_round(s, false).1 == Some(
            seq![ProbeView::FileOp { source: s.paths[0], dest: s.paths[s.paths.len() - 1] }],
        ),
        s.stage == Stage::FileOp && (intent_of(s.command) != CommandIntent::FileOp
            || s.paths.len() < 2) ==> enrichment_round(s, false).1->0.len() == 0,
        s.stage == Stage::Port ==> enrichment_round(s, false).0.stage == Stage::Done,
        s.stage == Stage::Port && intent_of(s.command) == CommandIntent::NetworkOp && port_of(
            s.command,
        ) is Some ==> enrichment_round(s, false).1 == Some(
            seq![ProbeView::Port(port_of(s.command)->0 as u16)],
        ),
        s.stage == Stage::Port && intent_of(s.command) != CommandIntent::NetworkOp
            ==> enrichment_round(s, false).1->0.len() == 0,
{
}

/// A path breaks one name behind the last step that is there: at the root, at the
/// working directory, or at the step before.
pub proof fn law_paths_break_one_name_further(
    path: &str,
    missing: Option<usize>,
    siblings: Vec<String>,
    r: Option<PathDiagnosis>,
)
    requires
        missing matches Some(i) ==> i < steps_of(path@).len(),
        call_ensures(path_walk, (path, missing, siblings), r),
    ensures
        r is Some <==> missing is Some,
        r matches Some(d) ==> {
            let i = missing->0 as int;
            &&& d.requested@ == path@
            &&& d.siblings@ == siblings@
            &&& i > 0 ==> d.breaks_at@ == d.last_valid@ + seq!['/'] + path_names(path@)[i]
            &&& i == 0 ==> d.breaks_at@ == d.last_valid@ + path_names(path@)[i]
            &&& i == 0 ==> d.last_valid@ == (if path@.len() > 0 && path@[0] == '/' {
                seq!['/']
            } else {
                Seq::empty()
            })
        },
{
    reveal_strlit("/");
    assert("/"@ =~= seq!['/']);
    if missing is Some {
        let i = missing->0 as int;
        law_steps_go_one_name_further(path@, i);
        assert(text::join(Seq::<Seq<char>>::empty(), "/"@) =~= Seq::<char>::empty());
        assert("/"@ + Seq::<char>::empty() =~= "/"@);
    }
}

/// What is told of where a path breaks: the last step that is there with a check mark,
/// the first that is not with a cross, and what stands beside it where anything does.
pub proof fn law_breaks_are_told_with_marks(diag: PathDiagnosis)
    ensures
        ({
            let told = path_lines(diag);
            &&& told.len() == (if diag.siblings@.len() > 0 {
                2
            } else {
                1nat
            })
            &&& told[0].key == "path"@
            &&& told[0].value == diag.last_valid@ + seq![' ', '\u{2713}', ' ', ' ']
                + diag.breaks_at@ + seq![' ', '\u{2717}']
            &&& diag.siblings@.len() > 0 ==> told[1].key == "nearest"@ && told[1].value
                == diag.last_valid@ + " contains: "@ + text::join(
                text::views(diag.siblings@),
                seq![',', ' '],
            )
        }),
{
    reveal_strlit(" \u{2713}  ");
    reveal_strlit(" \u{2717}");
    reveal_strlit(", ");
    assert(" \u{2713}  "@ =~= seq![' ', '\u{2713}', ' ', ' ']);
    assert(" \u{2717}"@ =~= seq![' ', '\u{2717}']);
    assert(", "@ =~= seq![',', ' ']);
}

/// The stars before the current branch go, however many there are, and nothing else
/// does.
pub proof fn law_stars_are_taken_off(name: Seq<char>)
    ensures
        without_stars(seq!['*', ' '] + name) == without_stars(name),
        name.len() < 2 || name[0] != '*' || name[1] != ' ' ==> without_stars(name) == name,
{
    reveal_strlit("* ");
    assert("* "@ =~= seq!['*', ' ']);
    let starred = seq!['*', ' '] + name;
    assert(starred.take(2) =~= seq!['*', ' ']);
    assert(starred.skip(2) =~= name);
    if name.len() >= 2 {
        assert(name.take(2)[0] == name[0] && name.take(2)[1] == name[1]);
    }
}

/// What is told of a branch, of the working tree and of the remotes where `git` could
/// not be run, and where it wrote nothing but white space.
pub proof fn law_silent_programs_are_told(branch: String, output: String)
    ensures
        told(Probe::Branch(branch), Answer::Output(None))[0].value == branch@
            + " (git not available)"@,
        told(Probe::WorkingTree, Answer::Output(None))[0].value == "git not available"@,
        told(Probe::Remote, Answer::Output(None))[0].value == "git not available"@,
        told(Probe::AheadBehind, Answer::Output(None))[0].value == "git not available"@,
        text::trim(output@).len() == 0 ==> {
            &&& told(Probe::Branch(branch), Answer::Output(Some(output)))[0].value == branch@
                + " (not found)"@
            &&& told(Probe::WorkingTree, Answer::Output(Some(output)))[0].value == "clean"@
            &&& told(Probe::Remote, Answer::Output(Some(output)))[0].value
                == "no remotes configured"@
        },
        text::trim(output@).len() > 0 ==> {
            &&& told(Probe::Branch(branch), Answer::Output(Some(output)))[0].value == branch@
                + " (exists)"@
            &&& told(Probe::WorkingTree, Answer::Output(Some(output)))[0].value == text::dec(
                text::lines(output@).len(),
            ) + " changed file(s)"@
        },
{
}

/// Two numbers with a tab between them tell how far a branch is ahead and behind;
/// without a tab there is no upstream.
pub proof fn law_ahead_comes_before_behind(output: String, ahead: Seq<char>, behind: Seq<char>)
    requires
        !ahead.contains('\t'),
        !behind.contains('\t'),
    ensures
        text::trim(output@) == ahead.push('\t') + behind ==> told(
            Probe::AheadBehind,
            Answer::Output(Some(output)),
        )[0].value == "ahead "@ + ahead + ", behind "@ + behind,
        text::trim(output@) == ahead ==> told(
            Probe::AheadBehind,
            Answer::Output(Some(output)),
        )[0].value == "no upstream configured"@,
{
    text::law_last_part_is_behind_the_last_separator(ahead, behind, '\t');
    text::law_last_part_is_behind_the_last_separator(Seq::empty(), ahead, '\t');
    let parts = text::split(ahead.push('\t') + behind, '\t');
    assert(parts[0] == ahead && parts[1] == behind && parts.len() == 2);
}

/// Each end of a file operation is told with a check mark where it is there and a cross
/// where it is not, the source first.
pub proof fn law_ends_are_told_with_marks(
    source: Seq<char>,
    dest: Seq<char>,
    d: FileOpDiagnosis,
)
    ensures
        ({
            let told = file_op_lines(source, dest, d);
            let sign = |there: bool|
                if there {
                    seq![' ', '\u{2713}']
                } else {
                    seq![' ', '\u{2717}']
                };
            &&& told[0].key == "source"@
            &&& told[1].key == "dest"@
            &&& told[0].value == (match d.source_info {
                Some(info) => info@,
                None => source,
            }) + sign(d.source_exists)
            &&& told[1].value == (match d.dest_info {
                Some(info) => info@,
                None => dest,
            }) + sign(d.dest_exists)
            &&& d.dest_parent_info is None ==> told.len() == 2
            &&& d.dest_parent_info is Some ==> told.len() == 3 && told[2].key == "dest_parent"@
                && told[2].value == d.dest_parent_info->0@ + sign(d.dest_parent_exists)
        }),
{
    reveal_strlit(" ");
    reveal_strlit("\u{2713}");
    reveal_strlit("\u{2717}");
    assert(" "@ + mark(true) =~= seq![' ', '\u{2713}']);
    assert(" "@ + mark(false) =~= seq![' ', '\u{2717}']);
    let lines = file_op_lines(source, dest, d);
    let sign = |there: bool|
        if there {
            seq![' ', '\u{2713}']
        } else {
            seq![' ', '\u{2717}']
        };
    assert(lines[0].value =~= (match d.source_info {
        Some(info) => info@,
        None => source,
    }) + sign(d.source_exists));
    assert(lines[1].value =~= (match d.dest_info {
        Some(info) => info@,
        None => dest,
    }) + sign(d.dest_exists));
    if d.dest_parent_info is Some {
        assert(lines[2].value =~= d.dest_parent_info->0@ + sign(d.dest_parent_exists));
    }
}

/// A port is told with whether anything listens on it, and the space on a disk by the
/// second line that `df` writes.
pub proof fn law_ports_and_disks_are_told(port: u16, path: String, output: String)
    ensures
        told(Probe::Port(port), Answer::Listening(true))[0].value == seq![':'] + text::dec(
            port as nat,
        ) + " is listening"@,
        told(Probe::Port(port), Answer::Listening(false))[0].value == seq![':'] + text::dec(
            port as nat,
        ) + " not listening"@,
        text::lines(output@).len() > 1 ==> told(
            Probe::DiskSpace(path),
            Answer::Output(Some(output)),
        )[0].value == text::trim(text::lines(output@)[1]),
        told(Probe::DiskSpace(path), Answer::Output(None))[0].value == "df not available"@,
{
    reveal_strlit(":");
    assert(":"@ =~= seq![':']);
}

/// The permissions that are told of a file go by whether the one who runs the command
/// owns it, or else belongs to its group.
pub proof fn law_access_goes_by_the_user(path: String, a: FileAccess)
    ensures
        ({
            let lines = told(Probe::Permissions(path), Answer::Access(Some(a)));
            let lead = a.path@ + " (mode "@ + octal4(a.mode) + ", "@ + a.owner@ + ":"@ + a.group@
                + ", running as "@ + a.running_as@ + ":"@ + a.running_group@ + ") \u{2014} "@;
            &&& lines.len() == 1
            &&& a.running_uid == a.file_uid ==> lines[0].value == lead + permission_issue(
                a.mode,
                true,
                false,
                a.owner@,
                a.group@,
            )
            &&& a.running_uid != a.file_uid && a.running_gid == a.file_gid ==> lines[0].value
                == lead + permission_issue(a.mode, false, true, a.owner@, a.group@)
            &&& a.running_uid != a.file_uid && a.running_gid != a.file_gid ==> lines[0].value
                == lead + permission_issue(a.mode, false, false, a.owner@, a.group@)
        }),
        told(Probe::Permissions(path), Answer::Access(None)).len() == 0,
{
}

} // verus!
