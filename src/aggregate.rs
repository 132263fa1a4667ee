//! Routing each fetched log to the parser of its command, and collecting the records per run.
use vstd::prelude::*;

use crate::checks::{
    failed_matching, filter_check_runs, runs_view, CheckRunView, JobPattern, SimpleCheckRun,
};
use crate::eslint::{eslint_records, EslintLogParser};
use crate::jest::{jest_records, JestLogParser};
use crate::record::{records_view, CheckError, RecordView};
use crate::tsc::{tsc_records, TscLogParser};

verus! {

/// The kinds of check that a run can belong to.
#[derive(Debug, Clone, Copy, PartialEq, Eq, Hash, Structural)]
pub enum CommandType {
    Test,
    Lint,
    Build,
    Typecheck,
}

impl CommandType {
    pub fn name(&self) -> (r: &'static str)
        ensures
            r@ == match *self {
                CommandType::Test => "test"@,
                CommandType::Lint => "lint"@,
                CommandType::Build => "build"@,
                CommandType::Typecheck => "typecheck"@,
            },
    {
        match self {
            CommandType::Test => "test",
            CommandType::Lint => "lint",
            CommandType::Build => "build",
            CommandType::Typecheck => "typecheck",
        }
    }

    /// What the records of this command are called, in the plural.
    pub fn check_error_plural(&self) -> (r: &'static str)
        ensures
            r@ == match *self {
                CommandType::Test => "test errors"@,
                CommandType::Lint => "lint issues"@,
                CommandType::Build => "build errors"@,
                CommandType::Typecheck => "type errors"@,
            },
    {
        match self {
            CommandType::Test => "test errors",
            CommandType::Lint => "lint issues",
            CommandType::Build => "build errors",
            CommandType::Typecheck => "type errors",
        }
    }
}

/// The records of a log, by the parser of the command.
pub open spec fn records_for(command: CommandType, log: Seq<char>) -> Seq<RecordView> {
    match command {
        CommandType::Test => jest_records(log),
        CommandType::Lint => eslint_records(log),
        CommandType::Build => tsc_records(log),
        CommandType::Typecheck => tsc_records(log),
    }
}

/// Parses a log with the parser of the command.
pub fn parse_log(command: CommandType, log: &str) -> (r: Vec<CheckError>)
    ensures
        records_view(r@) == records_for(command, log@),
{
    match command {
        CommandType::Test => JestLogParser::parse(log),
        CommandType::Lint => EslintLogParser::parse(log),
        CommandType::Build => TscLogParser::parse(log),
        CommandType::Typecheck => TscLogParser::parse(log),
    }
}

/// The name of what `String::from_utf8_lossy` makes of some bytes.
pub uninterp spec fn utf8_lossy(bytes: Seq<u8>) -> Seq<char>;

/// Relies on `String::from_utf8_lossy`: the bytes decoded as UTF-8, each invalid sequence
/// replaced; which depends on the bytes alone.
#[verifier::external_body]
fn decode_lossy(bytes: &Vec<u8>) -> (r: String)
    ensures
        r@ == utf8_lossy(bytes@),
{
    String::from_utf8_lossy(bytes).into_owned()
}

/// Decodes a job's raw log, replacing what is not UTF-8, and parses it with the parser of the
/// command.
pub fn parse_log_bytes(command: CommandType, bytes: &Vec<u8>) -> (r: Vec<CheckError>)
    ensures
        records_view(r@) == records_for(command, utf8_lossy(bytes@)),
{
    let text = decode_lossy(bytes);
    parse_log(command, text.as_str())
}

/// The command of the first route for `id`.
pub open spec fn route_of(routes: Seq<(u64, CommandType)>, id: u64) -> Option<CommandType>
    decreases routes.len(),
{
    if routes.len() == 0 {
        None
    } else if routes[0].0 == id {
        Some(routes[0].1)
    } else {
        route_of(routes.drop_first(), id)
    }
}

pub fn route_of_exec(routes: &Vec<(u64, CommandType)>, id: u64) -> (r: Option<CommandType>)
    ensures
        r == route_of(routes@, id),
{
    let mut i: usize = 0;
    proof {
        assert(routes@.subrange(0, routes@.len() as int) =~= routes@);
    }
    while i < routes.len()
        invariant
            i <= routes.len(),
            route_of(routes@.subrange(i as int, routes@.len() as int), id) == route_of(
                routes@,
                id,
            ),
        decreases routes.len() - i,
    {
        let ghost rest = routes@.subrange(i as int, routes@.len() as int);
        proof {
            assert(rest.drop_first() =~= routes@.subrange(i + 1, routes@.len() as int));
            assert(rest[0] == routes@[i as int]);
        }
        if routes[i].0 == id {
            return Some(routes[i].1);
        }
        i += 1;
    }
    None
}

/// The records found in one run's log.
pub struct RunFailures {
    pub run_id: u64,
    pub command: CommandType,
    pub records: Vec<CheckError>,
}

/// A log belongs to a run that no route names.
#[derive(Debug, Clone, Copy, PartialEq, Eq, Structural)]
pub enum AggregateError {
    UnknownRun(u64),
}

/// All logs' runs are routed.
pub open spec fn all_routed(routes: Seq<(u64, CommandType)>, logs: Seq<(u64, Vec<u8>)>) -> bool {
    forall|i: int| 0 <= i < logs.len() ==> route_of(routes, (#[trigger] logs[i]).0) is Some
}

/// The result for the `i`-th log is what its command's parser makes of its bytes.
pub open spec fn is_run_result(
    routes: Seq<(u64, CommandType)>,
    log: (u64, Vec<u8>),
    f: RunFailures,
) -> bool {
    &&& f.run_id == log.0
    &&& route_of(routes, log.0) == Some(f.command)
    &&& records_view(f.records@) == records_for(f.command, utf8_lossy(log.1@))
}

/// Parses each fetched log with the parser that `routes` names for its run, in the order of
/// `logs`. A log whose run has no route fails the whole batch, with the first such run.
pub fn aggregate(routes: &Vec<(u64, CommandType)>, logs: &Vec<(u64, Vec<u8>)>) -> (r: Result<
    Vec<RunFailures>,
    AggregateError,
>)
    ensures
        r is Ok <==> all_routed(routes@, logs@),
        r is Ok ==> r->Ok_0@.len() == logs@.len() && forall|i: int|
            0 <= i < logs@.len() ==> is_run_result(routes@, logs@[i], #[trigger] r->Ok_0@[i]),
        r matches Err(AggregateError::UnknownRun(id)) ==> exists|i: int|
            0 <= i < logs@.len() && logs@[i].0 == id && route_of(routes@, id) is None && forall|
                j: int,
            |
                0 <= j < i ==> route_of(routes@, (#[trigger] logs@[j]).0) is Some,
{
    let mut out: Vec<RunFailures> = Vec::new();
    let mut i: usize = 0;
    while i < logs.len()
        invariant
            i <= logs.len(),
            out@.len() == i,
            forall|k: int| 0 <= k < i ==> route_of(routes@, (#[trigger] logs@[k]).0) is Some,
            forall|k: int| 0 <= k < i ==> is_run_result(routes@, logs@[k], #[trigger] out@[k]),
        decreases logs.len() - i,
    {
        let id = logs[i].0;
        match route_of_exec(routes, id) {
            None => {
                return Err(AggregateError::UnknownRun(id));
            },
            Some(command) => {
                let records = parse_log_bytes(command, &logs[i].1);
                out.push(RunFailures { run_id: id, command, records });
            },
        }
        i += 1;
    }
    Ok(out)
}

/// A failed run together with the command it belongs to.
pub struct RoutedRun {
    pub run: SimpleCheckRun,
    pub command: CommandType,
}

pub open spec fn tag_runs(runs: Seq<CheckRunView>, command: CommandType) -> Seq<
    (CheckRunView, CommandType),
> {
    runs.map_values(|r: CheckRunView| (r, command))
}

/// For each command in turn, its failed runs, each tagged with the command.
pub open spec fn failed_by_command(
    commands: Seq<(CommandType, Seq<char>)>,
    runs: Seq<CheckRunView>,
) -> Seq<(CheckRunView, CommandType)>
    decreases commands.len(),
{
    if commands.len() == 0 {
        Seq::empty()
    } else {
        failed_by_command(commands.drop_last(), runs) + tag_runs(
            failed_matching(commands.last().1, runs),
            commands.last().0,
        )
    }
}

pub open spec fn routed_view(v: Seq<RoutedRun>) -> Seq<(CheckRunView, CommandType)> {
    v.map_values(|r: RoutedRun| (r.run@, r.command))
}

pub open spec fn commands_view(v: Seq<(CommandType, JobPattern)>) -> Seq<(CommandType, Seq<char>)> {
    v.map_values(|c: (CommandType, JobPattern)| (c.0, c.1@))
}

/// The failed runs of every command, command after command, each with the command it belongs
/// to.
pub fn collect_failed_runs(commands: &Vec<(CommandType, JobPattern)>, runs: &Vec<SimpleCheckRun>) -> (r:
    Vec<RoutedRun>)
    ensures
        routed_view(r@) == failed_by_command(commands_view(commands@), runs_view(runs@)),
{
    let ghost cmds = commands_view(commands@);
    let mut out: Vec<RoutedRun> = Vec::new();
    let mut c: usize = 0;
    while c < commands.len()
        invariant
            c <= commands.len(),
            cmds == commands_view(commands@),
            routed_view(out@) == failed_by_command(cmds.subrange(0, c as int), runs_view(runs@)),
        decreases commands.len() - c,
    {
        let command = commands[c].0;
        let (failed, _, _) = filter_check_runs(&commands[c].1, runs);
        let ghost start = routed_view(out@);
        let mut k: usize = 0;
        while k < failed.len()
            invariant
                k <= failed.len(),
                routed_view(out@) == start + tag_runs(
                    runs_view(failed@).subrange(0, k as int),
                    command,
                ),
            decreases failed.len() - k,
        {
            let ghost before = routed_view(out@);
            out.push(RoutedRun { run: failed[k].duplicate(), command });
            proof {
                assert(routed_view(out@) =~= before.push((failed@[k as int]@, command)));
                assert(tag_runs(runs_view(failed@).subrange(0, k + 1), command) =~= tag_runs(
                    runs_view(failed@).subrange(0, k as int),
                    command,
                ).push((failed@[k as int]@, command)));
                assert(start + tag_runs(runs_view(failed@).subrange(0, k as int), command).push(
                    (failed@[k as int]@, command),
                ) =~= (start + tag_runs(runs_view(failed@).subrange(0, k as int), command)).push(
                    (failed@[k as int]@, command),
                ));
            }
            k += 1;
        }
        proof {
            assert(runs_view(failed@).subrange(0, k as int) =~= runs_view(failed@));
            assert(cmds.subrange(0, c + 1).drop_last() =~= cmds.subrange(0, c as int));
            assert(cmds.subrange(0, c + 1).last() == (command, commands@[c as int].1@));
        }
        c += 1;
    }
    proof {
        assert(cmds.subrange(0, c as int) =~= cmds);
    }
    out
}

/// The order in which the commands' results are shown when all of them run.
pub open spec fn display_order() -> Seq<CommandType> {
    seq![CommandType::Test, CommandType::Build, CommandType::Lint, CommandType::Typecheck]
}

/// The positions of the results of `command`, in order.
pub open spec fn indices_of(results: Seq<RunFailures>, command: CommandType) -> Seq<usize>
    decreases results.len(),
{
    if results.len() == 0 {
        Seq::empty()
    } else {
        let prev = indices_of(results.drop_last(), command);
        if results.last().command == command {
            prev.push((results.len() - 1) as usize)
        } else {
            prev
        }
    }
}

/// Some result of `command` holds a record.
pub open spec fn has_records(results: Seq<RunFailures>, command: CommandType) -> bool {
    exists|i: int| 0 <= i < results.len() && (#[trigger] results[i]).command == command && results[i].records@.len() > 0
}

/// For each command of `order` whose results hold a record, the command and the positions of
/// its results.
pub open spec fn groups(results: Seq<RunFailures>, order: Seq<CommandType>) -> Seq<
    (CommandType, Seq<usize>),
>
    decreases order.len(),
{
    if order.len() == 0 {
        Seq::empty()
    } else {
        let prev = groups(results, order.drop_last());
        if has_records(results, order.last()) {
            prev.push((order.last(), indices_of(results, order.last())))
        } else {
            prev
        }
    }
}

/// The results of one command, by their positions.
pub struct CommandGroup {
    pub command: CommandType,
    pub runs: Vec<usize>,
}

pub open spec fn groups_view(v: Seq<CommandGroup>) -> Seq<(CommandType, Seq<usize>)> {
    v.map_values(|g: CommandGroup| (g.command, g.runs@))
}

fn indices_of_exec(results: &Vec<RunFailures>, command: CommandType) -> (r: (Vec<usize>, bool))
    ensures
        r.0@ == indices_of(results@, command),
        r.1 == has_records(results@, command),
{
    let mut out: Vec<usize> = Vec::new();
    let mut any = false;
    let mut i: usize = 0;
    while i < results.len()
        invariant
            i <= results.len(),
            out@ == indices_of(results@.subrange(0, i as int), command),
            any == has_records(results@.subrange(0, i as int), command),
        decreases results.len() - i,
    {
        let ghost prefix = results@.subrange(0, i as int);
        let ghost next = results@.subrange(0, i + 1);
        proof {
            assert(next.drop_last() =~= prefix);
            assert(next.last() == results@[i as int]);
        }
        if results[i].command == command {
            out.push(i);
            if results[i].records.len() > 0 {
                any = true;
            }
        }
        proof {
            if results@[i as int].command == command && results@[i as int].records@.len() > 0 {
                assert(next[i as int] == results@[i as int]);
            }
            if has_records(prefix, command) {
                let k = choose|k: int|
                    0 <= k < prefix.len() && (#[trigger] prefix[k]).command == command
                        && prefix[k].records@.len() > 0;
                assert(next[k] == prefix[k]);
            }
            if has_records(next, command) {
                let k = choose|k: int|
                    0 <= k < next.len() && (#[trigger] next[k]).command == command
                        && next[k].records@.len() > 0;
                if k < i {
                    assert(prefix[k] == next[k]);
                }
            }
        }
        i += 1;
    }
    proof {
        assert(results@.subrange(0, i as int) =~= results@);
    }
    (out, any)
}

/// The results grouped by command, commands in the order tests, build, lint, type check, and
/// only the commands whose results hold a record: all checks are green when there is none.
pub fn group_by_command(results: &Vec<RunFailures>) -> (r: Vec<CommandGroup>)
    ensures
        groups_view(r@) == groups(results@, display_order()),
{
    let order = [CommandType::Test, CommandType::Build, CommandType::Lint, CommandType::Typecheck];
    let ghost ord = display_order();
    let mut out: Vec<CommandGroup> = Vec::new();
    let mut c: usize = 0;
    while c < 4
        invariant
            c <= 4,
            ord == display_order(),
            order@ == ord,
            groups_view(out@) == groups(results@, ord.subrange(0, c as int)),
        decreases 4 - c,
    {
        let command = order[c];
        let (runs, any) = indices_of_exec(results, command);
        proof {
            assert(ord.subrange(0, c + 1).drop_last() =~= ord.subrange(0, c as int));
            assert(ord.subrange(0, c + 1).last() == command);
        }
        if any {
            let ghost before = groups_view(out@);
            out.push(CommandGroup { command, runs });
            proof {
                assert(groups_view(out@) =~= before.push((command, indices_of(results@, command))));
            }
        }
        c += 1;
    }
    proof {
        assert(ord.subrange(0, 4) =~= ord);
    }
    out
}

/// The paths of all records of the results, in order, repeats kept.
pub open spec fn all_paths(results: Seq<RunFailures>) -> Seq<Seq<char>>
    decreases results.len(),
{
    if results.len() == 0 {
        Seq::empty()
    } else {
        all_paths(results.drop_last()) + records_view(results.last().records@).map_values(
            |r: RecordView| r.0,
        )
    }
}

/// The items of `s`, each once, in the order of their first appearance.
pub open spec fn distinct_in_order(s: Seq<Seq<char>>) -> Seq<Seq<char>>
    decreases s.len(),
{
    if s.len() == 0 {
        Seq::empty()
    } else {
        let prev = distinct_in_order(s.drop_last());
        if prev.contains(s.last()) {
            prev
        } else {
            prev.push(s.last())
        }
    }
}

pub open spec fn strings_view(v: Seq<String>) -> Seq<Seq<char>> {
    v.map_values(|s: String| s@)
}

fn contains_string(v: &Vec<String>, s: &String) -> (r: bool)
    ensures
        r == strings_view(v@).contains(s@),
{
    let mut i: usize = 0;
    while i < v.len()
        invariant
            i <= v.len(),
            forall|k: int| 0 <= k < i ==> v@[k]@ != s@,
        decreases v.len() - i,
    {
        if v[i] == *s {
            proof {
                assert(strings_view(v@)[i as int] == s@);
            }
            return true;
        }
        i += 1;
    }
    proof {
        if strings_view(v@).contains(s@) {
            let k = choose|k: int| 0 <= k < strings_view(v@).len() && strings_view(v@)[k] == s@;
            assert(v@[k]@ == s@);
        }
    }
    false
}

/// The files that the records of the results concern, each once, in order of first
/// appearance.
pub fn errored_files(results: &Vec<RunFailures>) -> (r: Vec<String>)
    ensures
        strings_view(r@) == distinct_in_order(all_paths(results@)),
{
    let mut out: Vec<String> = Vec::new();
    let mut i: usize = 0;
    while i < results.len()
        invariant
            i <= results.len(),
            strings_view(out@) == distinct_in_order(all_paths(results@.subrange(0, i as int))),
        decreases results.len() - i,
    {
        let records = &results[i].records;
        let ghost base = all_paths(results@.subrange(0, i as int));
        let ghost paths = records_view(records@).map_values(|r: RecordView| r.0);
        proof {
            assert(results@.subrange(0, i + 1).drop_last() =~= results@.subrange(0, i as int));
            assert(results@.subrange(0, i + 1).last() == results@[i as int]);
        }
        let mut k: usize = 0;
        while k < records.len()
            invariant
                k <= records.len(),
                paths == records_view(records@).map_values(|r: RecordView| r.0),
                paths.len() == records@.len(),
                strings_view(out@) == distinct_in_order(base + paths.subrange(0, k as int)),
            decreases records.len() - k,
        {
            let path = &records[k].path;
            proof {
                assert((base + paths.subrange(0, k + 1)).drop_last() =~= base + paths.subrange(
                    0,
                    k as int,
                ));
                assert((base + paths.subrange(0, k + 1)).last() == path@);
            }
            if !contains_string(&out, path) {
                let ghost before = strings_view(out@);
                out.push(path.clone());
                proof {
                    assert(strings_view(out@) =~= before.push(path@));
                }
            }
            k += 1;
        }
        proof {
            assert(paths.subrange(0, k as int) =~= paths);
        }
        i += 1;
    }
    proof {
        assert(results@.subrange(0, i as int) =~= results@);
    }
    out
}

} // verus!
