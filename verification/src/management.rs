//! The management commands: which servers run, what the log says, and whether
//! the configuration is in order.
use vstd::prelude::*;
use vstd::string::*;

use crate::config;
use crate::config::{validate_config, ConfigFile};
use crate::text;
use crate::text::{
    chars_of, concat2, concat3, dec_u64, has_suffix, join_strings, lines_of, padded_right,
    parse_number, trimmed,
};

verus! {

// ---------------------------------------------------------------------------
// Errors
// ---------------------------------------------------------------------------

/// Why a management command failed.
#[derive(Debug)]
pub enum ManagementError {
    Io(std::io::Error),
    Config(Vec<String>),
    NotFound(String),
}

impl ManagementError {
    /// The message for the user.
    pub fn message(&self) -> (r: String)
        ensures
            match *self {
                ManagementError::Io(e) => exists|t: String|
                    #[trigger] to_string_from_display_ensures(&e, t) && r@ == "I/O error: "@ + t@,
                ManagementError::Config(errors) => r@ == "config errors: "@ + text::join(
                    text::views(errors@),
                    "; "@,
                ),
                ManagementError::NotFound(what) => r@ == "not found: "@ + what@,
            },
    {
        match self {
            ManagementError::Io(e) => {
                let t = e.to_string();
                concat2("I/O error: ", t.as_str())
            },
            ManagementError::Config(errors) => {
                let told = join_strings(errors.as_slice(), "; ");
                concat2("config errors: ", told.as_str())
            },
            ManagementError::NotFound(what) => concat2("not found: ", what.as_str()),
        }
    }
}

// ---------------------------------------------------------------------------
// The configuration
// ---------------------------------------------------------------------------

/// The configuration file: the one that was named, or the usual one.
pub fn config_path(path: Option<&str>) -> (r: String)
    ensures
        r@ == match path {
            Some(path) => path@,
            None => "~/.config/mish/mish.toml"@,
        },
{
    match path {
        Some(path) => path.to_owned(),
        None => "~/.config/mish/mish.toml".to_owned(),
    }
}

/// Checks the configuration file. That the usual one is missing is no error: the
/// defaults are valid.
pub fn config_check(named: bool, file: ConfigFile, home: Option<&str>) -> (r: Result<
    (),
    ManagementError,
>)
    ensures
        match file {
            ConfigFile::Missing(e) => if named {
                r matches Err(ManagementError::Config(errors)) && config::tells_unreadable(
                    errors@,
                    e,
                )
            } else {
                r is Ok
            },
            ConfigFile::Unreadable(e) => r matches Err(ManagementError::Config(errors))
                && config::tells_unreadable(errors@, e),
            ConfigFile::Malformed(e) => r matches Err(ManagementError::Config(errors))
                && text::views(errors@) == seq!["TOML parse error: "@ + e@],
            ConfigFile::Parsed(parsed) => match r {
                Ok(()) => config::errors_of(parsed).len() == 0,
                Err(ManagementError::Config(errors)) => config::errors_of(parsed).len() > 0
                    && text::views(errors@) == config::errors_of(parsed),
                Err(_) => false,
            },
        },
{
    let usual_is_missing = match &file {
        ConfigFile::Missing(_) => !named,
        _ => false,
    };
    if usual_is_missing {
        return Ok(());
    }
    match validate_config(file, home) {
        Ok(()) => Ok(()),
        Err(errors) => Err(ManagementError::Config(errors)),
    }
}

/// The lines that tell of configuration errors.
pub open spec fn error_lines(errors: Seq<Seq<char>>) -> Seq<Seq<char>> {
    seq!["! config errors:"@] + Seq::new(errors.len(), |i: int| "  - "@ + errors[i])
}

/// What the check of the configuration prints, and its exit code.
pub fn config_report(checked: &Result<(), ManagementError>) -> (r: (Vec<String>, i32))
    ensures
        match *checked {
            Ok(()) => text::views(r.0@) == seq!["+ config valid"@] && r.1 == 0,
            Err(ManagementError::Config(errors)) => text::views(r.0@) == error_lines(
                text::views(errors@),
            ) && r.1 == 1,
            Err(ManagementError::Io(e)) => r.1 == 1 && r.0@.len() == 1 && exists|t: String|
                #[trigger] to_string_from_display_ensures(&e, t) && r.0@[0]@ == "! "@
                    + ("I/O error: "@ + t@),
            Err(ManagementError::NotFound(what)) => text::views(r.0@) == seq![
                "! "@ + ("not found: "@ + what@),
            ] && r.1 == 1,
        },
{
    let mut lines: Vec<String> = Vec::new();
    match checked {
        Ok(()) => {
            lines.push("+ config valid".to_owned());
            assert(text::views(lines@) =~= seq!["+ config valid"@]);
            (lines, 0)
        },
        Err(e) => {
            if let ManagementError::Config(errors) = e {
                lines.push("! config errors:".to_owned());
                let ghost all = error_lines(text::views(errors@));
                let mut i: usize = 0;
                assert(text::views(lines@) =~= all.take(1));
                while i < errors.len()
                    invariant
                        i <= errors@.len(),
                        all == error_lines(text::views(errors@)),
                        text::views(lines@) =~= all.take(i + 1),
                    decreases errors.len() - i,
                {
                    let line = concat2("  - ", errors[i].as_str());
                    let ghost before = lines@;
                    lines.push(line);
                    assert(text::views(lines@) =~= text::views(before).push(line@));
                    i += 1;
                }
                assert(all.take(i + 1) =~= all);
                return (lines, 1);
            }
            let told = e.message();
            let line = concat2("! ", told.as_str());
            let ghost shown = line@;
            lines.push(line);
            assert(text::views(lines@) =~= seq![shown]);
            (lines, 1)
        },
    }
}

// ---------------------------------------------------------------------------
// Servers
// ---------------------------------------------------------------------------

/// A server that was found by its PID file, running or not.
#[derive(Debug, Clone, Copy, PartialEq, Eq, Structural)]
pub struct ServerInstance {
    pub pid: u32,
    pub alive: bool,
}

/// A file is a PID file by its name.
pub open spec fn is_pid_file(file_name: Seq<char>) -> bool {
    text::ends_with(file_name, ".pid"@) && file_name.len() > 4
}

/// The server that a file tells of, if it is a PID file with a number in it.
pub fn instance_of(file_name: &str, content: &str, stale: bool) -> (r: Option<ServerInstance>)
    ensures
        r == match text::parsed(text::trim(content@), u32::MAX as nat) {
            Some(pid) if is_pid_file(file_name@) => Some(
                ServerInstance { pid: pid as u32, alive: !stale },
            ),
            _ => None,
        },
{
    if !has_suffix(file_name, ".pid") || chars_of(file_name).len() <= 4 {
        return None;
    }
    let number = trimmed(content);
    match parse_number(number.as_str(), u32::MAX as u64) {
        Some(pid) => Some(ServerInstance { pid: pid as u32, alive: !stale }),
        None => None,
    }
}

/// A list with one more server, behind all whose numbers are not greater.
pub open spec fn inserted(list: Seq<ServerInstance>, x: ServerInstance) -> Seq<ServerInstance>
    decreases list.len(),
{
    if list.len() == 0 || list.last().pid <= x.pid {
        list.push(x)
    } else {
        inserted(list.drop_last(), x).push(list.last())
    }
}

/// Servers by their numbers; equal ones keep their order.
pub open spec fn by_pid(list: Seq<ServerInstance>) -> Seq<ServerInstance>
    decreases list.len(),
{
    if list.len() == 0 {
        list
    } else {
        inserted(by_pid(list.drop_last()), list.last())
    }
}

/// Where a server goes into a list.
proof fn lemma_inserted(list: Seq<ServerInstance>, x: ServerInstance, i: int)
    requires
        0 <= i <= list.len(),
        i == 0 || list[i - 1].pid <= x.pid,
        forall|j: int| i <= j < list.len() ==> (#[trigger] list[j]).pid > x.pid,
    ensures
        inserted(list, x) == list.insert(i, x),
    decreases list.len(),
{
    if i == list.len() {
        assert(list.insert(i, x) =~= list.push(x));
    } else {
        assert(list[list.len() - 1].pid > x.pid);
        let rest = list.drop_last();
        assert forall|j: int| i <= j < rest.len() implies (#[trigger] rest[j]).pid > x.pid by {
            assert(rest[j] == list[j]);
        }
        lemma_inserted(rest, x, i);
        assert(list.insert(i, x) =~= rest.insert(i, x).push(list.last()));
    }
}

/// Puts servers in the order of their numbers.
pub fn sort_instances(list: &[ServerInstance]) -> (r: Vec<ServerInstance>)
    ensures
        r@ == by_pid(list@),
{
    let mut r: Vec<ServerInstance> = Vec::new();
    let mut i: usize = 0;
    assert(list@.take(0).len() == 0);
    assert(r@ =~= by_pid(list@.take(0)));
    while i < list.len()
        invariant
            i <= list@.len(),
            r@ == by_pid(list@.take(i as int)),
        decreases list.len() - i,
    {
        assert(list@.take(i + 1).drop_last() =~= list@.take(i as int));
        let x = list[i];
        let mut at: usize = r.len();
        while at > 0 && r[at - 1].pid > x.pid
            invariant
                at <= r@.len(),
                forall|j: int| at <= j < r@.len() ==> (#[trigger] r@[j]).pid > x.pid,
            decreases at,
        {
            at -= 1;
        }
        proof {
            lemma_inserted(r@, x, at as int);
        }
        r.insert(at, x);
        i += 1;
    }
    assert(list@.take(i as int) =~= list@);
    r
}

/// The line of a server in the table.
pub open spec fn ps_line(first: Seq<char>, second: Seq<char>) -> Seq<char> {
    text::pad_right(first, 10) + " "@ + text::pad_right(second, 10)
}

pub open spec fn status_word(alive: bool) -> Seq<char> {
    if alive {
        "running"@
    } else {
        "stale"@
    }
}

/// The lines of the table of servers.
pub open spec fn ps_lines(instances: Seq<ServerInstance>) -> Seq<Seq<char>> {
    seq![ps_line("PID"@, "STATUS"@)] + Seq::new(
        instances.len(),
        |i: int| ps_line(text::dec(instances[i].pid as nat), status_word(instances[i].alive)),
    )
}

fn ps_line_of(first: &str, second: &str) -> (r: String)
    ensures
        r@ == ps_line(first@, second@),
{
    let a = padded_right(first, 10);
    let b = padded_right(second, 10);
    concat3(a.as_str(), " ", b.as_str())
}

/// Shows the servers as a table.
pub fn format_ps(instances: &[ServerInstance]) -> (r: String)
    ensures
        r@ == (if instances@.len() == 0 {
            "No mish server instances found."@
        } else {
            text::join(ps_lines(instances@), "\n"@)
        }),
{
    if instances.len() == 0 {
        return "No mish server instances found.".to_owned();
    }
    let ghost all = ps_lines(instances@);
    let mut lines: Vec<String> = Vec::new();
    lines.push(ps_line_of("PID", "STATUS"));
    let mut i: usize = 0;
    assert(text::views(lines@) =~= all.take(1));
    while i < instances.len()
        invariant
            i <= instances@.len(),
            all == ps_lines(instances@),
            text::views(lines@) =~= all.take(i + 1),
        decreases instances.len() - i,
    {
        let pid = dec_u64(instances[i].pid as u64);
        let status = if instances[i].alive {
            "running"
        } else {
            "stale"
        };
        let line = ps_line_of(pid.as_str(), status);
        let ghost before = lines@;
        lines.push(line);
        assert(text::views(lines@) =~= text::views(before).push(line@));
        i += 1;
    }
    assert(all.take(i + 1) =~= all);
    join_strings(lines.as_slice(), "\n")
}

// ---------------------------------------------------------------------------
// The log
// ---------------------------------------------------------------------------

/// The last `n` lines.
pub open spec fn last_lines(lines: Seq<Seq<char>>, n: nat) -> Seq<Seq<char>> {
    if lines.len() <= n {
        lines
    } else {
        lines.skip(lines.len() - n)
    }
}

/// The last `n` lines of a file's content.
pub fn read_last_n_lines(content: &str, n: usize) -> (r: Vec<String>)
    ensures
        text::views(r@) == last_lines(text::lines(content@), n as nat),
{
    let lines = lines_of(content);
    let ghost all = text::lines(content@);
    proof {
        assert(text::views(lines@).len() == lines@.len());
    }
    if lines.len() <= n {
        return lines;
    }
    let start: usize = lines.len() - n;
    let mut r: Vec<String> = Vec::new();
    let mut i: usize = start;
    assert(text::views(r@) =~= all.subrange(start as int, i as int));
    while i < lines.len()
        invariant
            start <= i <= lines@.len(),
            text::views(lines@) == all,
            all.len() == lines@.len(),
            text::views(r@) == all.subrange(start as int, i as int),
        decreases lines.len() - i,
    {
        let ghost before = r@;
        r.push(lines[i].clone());
        assert(text::views(r@) =~= text::views(before).push(all[i as int]));
        assert(all.subrange(start as int, i + 1) =~= all.subrange(start as int, i as int).push(
            all[i as int],
        ));
        i += 1;
    }
    assert(all.subrange(start as int, i as int) =~= all.skip(start as int));
    r
}

/// What the log command prints: the lines, or that there are none.
pub fn logs_report(lines: Vec<String>) -> (r: Vec<String>)
    ensures
        text::views(r@) == (if lines@.len() == 0 {
            seq!["(audit log empty)"@]
        } else {
            text::views(lines@)
        }),
{
    if lines.len() == 0 {
        let mut r: Vec<String> = Vec::new();
        r.push("(audit log empty)".to_owned());
        assert(text::views(r@) =~= seq!["(audit log empty)"@]);
        r
    } else {
        lines
    }
}

// ---------------------------------------------------------------------------
// Laws
// ---------------------------------------------------------------------------

/// Numbers that do not fall.
pub open spec fn in_pid_order(list: Seq<ServerInstance>) -> bool {
    forall|i: int, j: int|
        0 <= i <= j < list.len() ==> (#[trigger] list[i]).pid <= (#[trigger] list[j]).pid
}

proof fn lemma_inserted_keeps_order(list: Seq<ServerInstance>, x: ServerInstance)
    requires
        in_pid_order(list),
    ensures
        in_pid_order(inserted(list, x)),
        inserted(list, x).to_multiset() == list.to_multiset().insert(x),
        inserted(list, x).len() == list.len() + 1,
        forall|i: int|
            0 <= i < inserted(list, x).len() ==> (#[trigger] inserted(list, x)[i]).pid <= x.pid || (
            list.len() > 0 && inserted(list, x)[i].pid <= list.last().pid),
    decreases list.len(),
{
    broadcast use vstd::seq_lib::group_to_multiset_ensures;

    if list.len() == 0 || list.last().pid <= x.pid {
    } else {
        let rest = list.drop_last();
        lemma_inserted_keeps_order(rest, x);
        let now = inserted(rest, x);
        let last = list.last();
        assert(list =~= rest.push(last));
        assert(list.to_multiset() =~= rest.to_multiset().insert(last));
        assert(now.push(last).to_multiset() =~= now.to_multiset().insert(last));
        assert(rest.to_multiset().insert(x).insert(last) =~= rest.to_multiset().insert(
            last,
        ).insert(x));
        assert forall|i: int| 0 <= i < now.len() implies (#[trigger] now[i]).pid <= last.pid by {
            if now[i].pid > x.pid {
                assert(rest.len() > 0 && now[i].pid <= rest.last().pid);
                assert(list[list.len() - 2].pid <= list[list.len() - 1].pid);
            }
        }
    }
}

/// The list of servers is in the order of their numbers, and every server that
/// was found is in it as often as it was found.
pub proof fn law_listing_is_complete_and_in_order(list: Seq<ServerInstance>)
    ensures
        in_pid_order(by_pid(list)),
        by_pid(list).to_multiset() == list.to_multiset(),
    decreases list.len(),
{
    broadcast use vstd::seq_lib::group_to_multiset_ensures;

    if list.len() > 0 {
        law_listing_is_complete_and_in_order(list.drop_last());
        lemma_inserted_keeps_order(by_pid(list.drop_last()), list.last());
        assert(list =~= list.drop_last().push(list.last()));
    }
}

/// The last lines are the end of all lines: as many as were asked for, or all where
/// there are fewer.
pub proof fn law_last_lines_are_the_end(lines: Seq<Seq<char>>, n: nat)
    ensures
        last_lines(lines, n).len() == (if lines.len() < n {
            lines.len()
        } else {
            n
        }),
        lines.take(lines.len() - last_lines(lines, n).len()) + last_lines(lines, n) == lines,
{
    assert(lines.take(lines.len() - last_lines(lines, n).len()) + last_lines(lines, n) =~= lines);
}

/// A file tells of a server where it is named after one and holds a number; the server
/// runs unless the file is stale.
pub proof fn law_pid_files_tell_of_servers(
    file_name: &str,
    content: &str,
    stale: bool,
    r: Option<ServerInstance>,
    name: Seq<char>,
    pid: u32,
)
    requires
        call_ensures(instance_of, (file_name, content, stale), r),
    ensures
        r is Some ==> file_name@.len() > 4 && file_name@.skip(file_name@.len() - 4) == seq![
            '.',
            'p',
            'i',
            'd',
        ] && r->0.alive == !stale,
        file_name@ == name + seq!['.', 'p', 'i', 'd'] && name.len() > 0 && text::trim(content@)
            == text::dec(pid as nat) ==> r == Some(ServerInstance { pid, alive: !stale }),
{
    reveal_strlit(".pid");
    assert(".pid"@ =~= seq!['.', 'p', 'i', 'd']);
    text::law_decimal_is_read_back(pid as nat, u32::MAX as nat);
    if file_name@ == name + seq!['.', 'p', 'i', 'd'] {
        assert(file_name@.skip(file_name@.len() - 4) =~= seq!['.', 'p', 'i', 'd']);
    }
}

/// The table of servers has a line for its columns and then one for each server, in
/// their order, with its number and whether it runs.
pub proof fn law_each_server_has_a_line(instances: Seq<ServerInstance>, i: int)
    requires
        0 <= i < instances.len(),
    ensures
        ps_lines(instances).len() == instances.len() + 1,
        text::starts_with(ps_lines(instances)[i + 1], text::dec(instances[i].pid as nat)),
        instances[i].alive ==> ps_lines(instances)[i + 1] == text::pad_right(
            text::dec(instances[i].pid as nat),
            10,
        ) + seq![' '] + text::pad_right("running"@, 10),
        !instances[i].alive ==> ps_lines(instances)[i + 1] == text::pad_right(
            text::dec(instances[i].pid as nat),
            10,
        ) + seq![' '] + text::pad_right("stale"@, 10),
{
    reveal_strlit(" ");
    assert(" "@ =~= seq![' ']);
    let number = text::dec(instances[i].pid as nat);
    let line = ps_lines(instances)[i + 1];
    assert(line == ps_line(number, status_word(instances[i].alive)));
    assert(line.take(number.len() as int) =~= number);
}

/// A file that was named must be there, the usual one need not; what is there must be
/// readable and hold a valid configuration.
pub proof fn law_only_the_usual_file_may_be_missing(
    named: bool,
    file: ConfigFile,
    home: Option<&str>,
    r: Result<(), ManagementError>,
)
    requires
        call_ensures(config_check, (named, file, home), r),
    ensures
        file is Missing ==> (r is Ok <==> !named),
        file is Unreadable || file is Malformed ==> r is Err,
        file matches ConfigFile::Parsed(parsed) ==> (r is Ok <==> config::errors_of(
            parsed,
        ).len() == 0),
{
}

} // verus!
