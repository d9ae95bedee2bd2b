//! How the target is launched: its command line, the arguments it is
//! handed, and the exit code that the shim's run ends with.

use vstd::prelude::*;
use crate::shims::strings_view;
use crate::text::{chars_of, string_of};

verus! {

broadcast use vstd::string::group_string_axioms;

/// Exit code where the configuration could not be resolved or parsed.
pub const EXIT_FAILED_LOAD_SHIM: u32 = 1;

/// Exit code where the target could not be spawned.
pub const EXIT_FAILED_SPAWN_PROG: u32 = 2;

/// Exit code where waiting for the target or reading its status failed.
pub const EXIT_FAILED_WAIT_PROG: u32 = 3;

/// An argument that holds a space, a tab or a double quote.
pub open spec fn needs_quotes(a: Seq<char>) -> bool {
    exists|i: int| 0 <= i < a.len() && (a[i] == ' ' || a[i] == '\t' || a[i] == '"')
}

/// `a` with each backslash doubled and each double quote escaped.
pub open spec fn escape(a: Seq<char>) -> Seq<char>
    decreases a.len(),
{
    if a.len() == 0 {
        Seq::empty()
    } else {
        let e = escape(a.drop_last());
        let c = a.last();
        if c == '\\' {
            e + seq!['\\', '\\']
        } else if c == '"' {
            e + seq!['\\', '"']
        } else {
            e.push(c)
        }
    }
}

/// An argument as it stands on the target's command line.
pub open spec fn quote_arg(a: Seq<char>) -> Seq<char> {
    if needs_quotes(a) {
        seq!['"'] + escape(a) + seq!['"']
    } else {
        a
    }
}

/// Each argument, quoted, after a space.
pub open spec fn args_tail(args: Seq<Seq<char>>) -> Seq<char>
    decreases args.len(),
{
    if args.len() == 0 {
        Seq::empty()
    } else {
        args_tail(args.drop_last()) + seq![' '] + quote_arg(args.last())
    }
}

/// The target's command line: its path, then each argument quoted.
pub open spec fn command_line_of(program: Seq<char>, args: Seq<Seq<char>>) -> Seq<char> {
    program + args_tail(args)
}

/// An argument without a space, tab or double quote stands on the command
/// line as it is, after one space.
pub proof fn lemma_plain_arg_unchanged(program: Seq<char>, args: Seq<Seq<char>>, a: Seq<char>)
    requires
        !needs_quotes(a),
    ensures
        command_line_of(program, args.push(a)) == command_line_of(program, args) + seq![' '] + a,
{
    assert(args.push(a).drop_last() =~= args);
    assert(program + (args_tail(args) + seq![' '] + a) =~= program + args_tail(args) + seq![' ']
        + a);
}

/// Appends `quote_arg(a)` to `out`.
fn push_quoted(out: &mut Vec<char>, a: &[char])
    ensures
        final(out)@ == old(out)@ + quote_arg(a@),
{
    let n = a.len();
    let mut special = false;
    let mut i: usize = 0;
    while i < n
        invariant
            n == a@.len(),
            i <= n,
            special <==> exists|k: int| 0 <= k < i && (a[k] == ' ' || a[k] == '\t' || a[k] == '"'),
        decreases n - i,
    {
        if a[i] == ' ' || a[i] == '\t' || a[i] == '"' {
            special = true;
        }
        i += 1;
    }
    if !special {
        let mut j: usize = 0;
        let ghost start = out@;
        while j < n
            invariant
                n == a@.len(),
                j <= n,
                out@ == start + a@.subrange(0, j as int),
            decreases n - j,
        {
            out.push(a[j]);
            assert(out@ =~= start + a@.subrange(0, j + 1));
            j += 1;
        }
        assert(a@.subrange(0, n as int) =~= a@);
    } else {
        out.push('"');
        let ghost start = out@;
        let mut j: usize = 0;
        while j < n
            invariant
                n == a@.len(),
                j <= n,
                out@ == start + escape(a@.subrange(0, j as int)),
            decreases n - j,
        {
            let c = a[j];
            assert(a@.subrange(0, j + 1).drop_last() =~= a@.subrange(0, j as int));
            if c == '\\' {
                out.push('\\');
                out.push('\\');
            } else if c == '"' {
                out.push('\\');
                out.push('"');
            } else {
                out.push(c);
            }
            assert(out@ =~= start + escape(a@.subrange(0, j + 1)));
            j += 1;
        }
        assert(a@.subrange(0, n as int) =~= a@);
        out.push('"');
        assert(out@ =~= old(out)@ + quote_arg(a@));
    }
}

/// Appends `args_tail(args)` to `out`.
fn push_args_tail(out: &mut Vec<char>, args: &[String])
    ensures
        final(out)@ == old(out)@ + args_tail(args@.map_values(|s: String| s@)),
{
    let ghost av = args@.map_values(|s: String| s@);
    let ghost start = out@;
    let mut i: usize = 0;
    assert(av.take(0) =~= Seq::<Seq<char>>::empty());
    while i < args.len()
        invariant
            i <= args@.len(),
            av == args@.map_values(|s: String| s@),
            out@ == start + args_tail(av.take(i as int)),
        decreases args.len() - i,
    {
        assert(av.take(i + 1).drop_last() =~= av.take(i as int));
        out.push(' ');
        let cs = chars_of(args[i].as_str());
        push_quoted(out, &cs);
        assert(out@ =~= start + args_tail(av.take(i + 1)));
        i += 1;
    }
    assert(av.take(args.len() as int) =~= av);
}

/// The command line that starts `program` with `args`.
pub fn command_line(program: &str, args: &[String]) -> (r: String)
    ensures
        r@ == command_line_of(program@, args@.map_values(|s: String| s@)),
{
    let mut out = chars_of(program);
    push_args_tail(&mut out, args);
    string_of(&out)
}

/// The parameters of an elevated launch of `args`: the same quoted
/// arguments as on the command line, each after a space.
pub fn parameters(args: &[String]) -> (r: String)
    ensures
        r@ == args_tail(args@.map_values(|s: String| s@)),
{
    let mut out: Vec<char> = Vec::new();
    push_args_tail(&mut out, args);
    assert(out@ =~= args_tail(args@.map_values(|s: String| s@)));
    string_of(&out)
}

/// The caller's arguments without the first (the shim's own path).
pub open spec fn caller_args(argv: Seq<Seq<char>>) -> Seq<Seq<char>> {
    if argv.len() == 0 {
        argv
    } else {
        argv.drop_first()
    }
}

/// The arguments handed to the target: the fixed ones, where there are any,
/// then the caller's own after the shim's path.
pub fn forwarded_args(fixed: Option<Vec<String>>, argv: &[String]) -> (r: Vec<String>)
    ensures
        strings_view(r) == match fixed {
            Some(f) => strings_view(f),
            None => Seq::empty(),
        } + caller_args(argv@.map_values(|s: String| s@)),
{
    let mut r: Vec<String> = match fixed {
        Some(f) => f,
        None => Vec::new(),
    };
    let ghost start = strings_view(r);
    let ghost av = argv@.map_values(|s: String| s@);
    if argv.len() == 0 {
        assert(caller_args(av) =~= Seq::<Seq<char>>::empty());
        assert(strings_view(r) =~= start + caller_args(av));
        return r;
    }
    let mut i: usize = 1;
    while i < argv.len()
        invariant
            1 <= i <= argv@.len(),
            av == argv@.map_values(|s: String| s@),
            strings_view(r) == start + av.subrange(1, i as int),
        decreases argv.len() - i,
    {
        let ghost before = strings_view(r);
        let a = argv[i].clone();
        r.push(a);
        assert(strings_view(r) =~= before.push(a@));
        assert(strings_view(r) =~= start + av.subrange(1, i + 1));
        i += 1;
    }
    assert(av.subrange(1, argv.len() as int) =~= caller_args(av));
    r
}

/// What one launch attempt came to.
#[derive(Clone, Copy, Debug, PartialEq, Eq, Structural)]
pub enum LaunchOutcome {
    /// The target ran and exited with this code.
    Exited(u32),
    /// The target cannot start without elevation.
    ElevationRequired,
    /// The target could not be started.
    SpawnFailed,
    /// The target started, but its end or its exit code could not be read.
    WaitFailed,
}

/// Where a run of the shim stands.
#[derive(Clone, Copy, Debug, PartialEq, Eq, Structural)]
pub enum Phase {
    /// Reading the configuration.
    Resolving,
    /// Starting the target directly.
    Spawning,
    /// Starting the target through an elevation request.
    ElevatedSpawning,
    /// Done: the shim exits with this code.
    Finished(u32),
}

/// What happened in the current phase.
#[derive(Clone, Copy, Debug, PartialEq, Eq, Structural)]
pub enum Event {
    /// The configuration was loaded.
    ConfigLoaded,
    /// The configuration could not be resolved or parsed.
    ConfigFailed,
    /// A launch attempt came to this.
    Launched(LaunchOutcome),
}

/// The phase that follows `p` on `e`. An event that does not belong to a
/// phase leaves it as it is, and a finished run stays finished.
pub open spec fn next_phase(p: Phase, e: Event) -> Phase {
    match (p, e) {
        (Phase::Resolving, Event::ConfigLoaded) => Phase::Spawning,
        (Phase::Resolving, Event::ConfigFailed) => Phase::Finished(EXIT_FAILED_LOAD_SHIM),
        (Phase::Spawning, Event::Launched(o)) => match o {
            LaunchOutcome::Exited(c) => Phase::Finished(c),
            LaunchOutcome::ElevationRequired => Phase::ElevatedSpawning,
            LaunchOutcome::SpawnFailed => Phase::Finished(EXIT_FAILED_SPAWN_PROG),
            LaunchOutcome::WaitFailed => Phase::Finished(EXIT_FAILED_WAIT_PROG),
        },
        (Phase::ElevatedSpawning, Event::Launched(o)) => match o {
            LaunchOutcome::Exited(c) => Phase::Finished(c),
            LaunchOutcome::WaitFailed => Phase::Finished(EXIT_FAILED_WAIT_PROG),
            _ => Phase::Finished(EXIT_FAILED_SPAWN_PROG),
        },
        _ => p,
    }
}

/// Moves the run on by one event.
pub fn step(p: Phase, e: Event) -> (r: Phase)
    ensures
        r == next_phase(p, e),
{
    match (p, e) {
        (Phase::Resolving, Event::ConfigLoaded) => Phase::Spawning,
        (Phase::Resolving, Event::ConfigFailed) => Phase::Finished(EXIT_FAILED_LOAD_SHIM),
        (Phase::Spawning, Event::Launched(o)) => match o {
            LaunchOutcome::Exited(c) => Phase::Finished(c),
            LaunchOutcome::ElevationRequired => Phase::ElevatedSpawning,
            LaunchOutcome::SpawnFailed => Phase::Finished(EXIT_FAILED_SPAWN_PROG),
            LaunchOutcome::WaitFailed => Phase::Finished(EXIT_FAILED_WAIT_PROG),
        },
        (Phase::ElevatedSpawning, Event::Launched(o)) => match o {
            LaunchOutcome::Exited(c) => Phase::Finished(c),
            LaunchOutcome::WaitFailed => Phase::Finished(EXIT_FAILED_WAIT_PROG),
            _ => Phase::Finished(EXIT_FAILED_SPAWN_PROG),
        },
        _ => p,
    }
}

/// The system error code for a start that needs elevation.
pub const ERROR_ELEVATION_REQUIRED: u32 = 740;

/// What a failed direct start comes to, from the system's error code: a
/// request for elevation where the target needs it, else a failed spawn.
pub fn spawn_failure_outcome(code: u32) -> (r: LaunchOutcome)
    ensures
        r == if code == ERROR_ELEVATION_REQUIRED {
            LaunchOutcome::ElevationRequired
        } else {
            LaunchOutcome::SpawnFailed
        },
{
    if code == ERROR_ELEVATION_REQUIRED {
        LaunchOutcome::ElevationRequired
    } else {
        LaunchOutcome::SpawnFailed
    }
}

/// Where the direct launch reports that the target needs elevation, the run
/// goes on with an elevated launch and ends with the elevated target's own
/// exit code.
pub proof fn lemma_elevated_exit_code(code: u32)
    ensures
        next_phase(Phase::Spawning, Event::Launched(LaunchOutcome::ElevationRequired))
            == Phase::ElevatedSpawning,
        next_phase(Phase::ElevatedSpawning, Event::Launched(LaunchOutcome::Exited(code)))
            == Phase::Finished(code),
{
}

/// Console control event: interrupt.
pub const CTRL_C_EVENT: u32 = 0;

/// Console control event: break.
pub const CTRL_BREAK_EVENT: u32 = 1;

/// Console control event: the console is closing.
pub const CTRL_CLOSE_EVENT: u32 = 2;

/// Console control event: the user is logging off.
pub const CTRL_LOGOFF_EVENT: u32 = 5;

/// Console control event: the system is shutting down.
pub const CTRL_SHUTDOWN_EVENT: u32 = 6;

/// The control events that the shim reports as handled, so that they do
/// not end it while the target still runs.
pub open spec fn is_known_ctrl_event(evt: u32) -> bool {
    evt == CTRL_C_EVENT || evt == CTRL_BREAK_EVENT || evt == CTRL_CLOSE_EVENT || evt
        == CTRL_LOGOFF_EVENT || evt == CTRL_SHUTDOWN_EVENT
}

/// Whether the shim's control handler reports `evt` as handled.
pub fn handles_ctrl_event(evt: u32) -> (r: bool)
    ensures
        r == is_known_ctrl_event(evt),
{
    evt == CTRL_C_EVENT || evt == CTRL_BREAK_EVENT || evt == CTRL_CLOSE_EVENT || evt
        == CTRL_LOGOFF_EVENT || evt == CTRL_SHUTDOWN_EVENT
}

/// What to do after asking the system for the shim's own path with a
/// buffer of some capacity.
#[derive(Clone, Copy, Debug, PartialEq, Eq, Structural)]
pub enum PathProbe {
    /// The path fits: it is this many units long.
    Found(usize),
    /// Ask again with a buffer of this capacity.
    Retry(usize),
    /// The path cannot be had.
    Failed,
}

/// The decision after the system wrote `written` units into a buffer of
/// `capacity` units; `insufficient` tells whether it reported the buffer as
/// too small. A full buffer may have cut the path short, so it is tried
/// again at twice the size.
pub fn probe_module_path(written: usize, capacity: usize, insufficient: bool) -> (r: PathProbe)
    ensures
        written == 0 ==> r == PathProbe::Failed,
        0 < written < capacity ==> r == PathProbe::Found(written),
        0 < written && capacity <= written ==> r == if insufficient && 0 < capacity && 2
            * capacity <= usize::MAX {
            PathProbe::Retry((2 * capacity) as usize)
        } else {
            PathProbe::Failed
        },
{
    if written == 0 {
        PathProbe::Failed
    } else if written < capacity {
        PathProbe::Found(written)
    } else if insufficient && 0 < capacity && capacity <= usize::MAX / 2 {
        PathProbe::Retry(capacity * 2)
    } else {
        PathProbe::Failed
    }
}

} // verus!
