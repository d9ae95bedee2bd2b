use shim::diagnostics::{
    load_failure_message, spawn_failure_message, trim_system_message, wait_failure_message,
};
use shim::launch::{
    command_line, forwarded_args, handles_ctrl_event, parameters, probe_module_path,
    spawn_failure_outcome, step, Event,
    LaunchOutcome, PathProbe, Phase, EXIT_FAILED_LOAD_SHIM, EXIT_FAILED_SPAWN_PROG,
    ERROR_ELEVATION_REQUIRED, EXIT_FAILED_WAIT_PROG,
};
use shim::shims::Shim;

fn strings(v: &[&str]) -> Vec<String> {
    v.iter().map(|s| s.to_string()).collect()
}

#[test]
fn plain_argument_is_unchanged() {
    assert_eq!(command_line("prog", &strings(&["plain-arg/x\\y"])), "prog plain-arg/x\\y");
}

#[test]
fn argument_with_quotes_is_escaped() {
    assert_eq!(command_line("prog", &strings(&["a \"b\""])), "prog \"a \\\"b\\\"\"");
}

#[test]
fn backslashes_are_doubled_in_quoted_argument() {
    assert_eq!(command_line("p", &strings(&["C:\\a b"])), "p \"C:\\\\a b\"");
    assert_eq!(command_line("p", &strings(&["x\ty"])), "p \"x\ty\"");
}

#[test]
fn empty_argument_passes_unchanged() {
    assert_eq!(command_line("p", &strings(&["", "x"])), "p  x");
}

#[test]
fn no_arguments_gives_program_alone() {
    assert_eq!(command_line("C:\\bin\\tool.exe", &[]), "C:\\bin\\tool.exe");
}

#[test]
fn parameters_put_a_space_before_each_argument() {
    assert_eq!(parameters(&strings(&["x"])), " x");
    assert_eq!(parameters(&strings(&["-a", "b c"])), " -a \"b c\"");
    assert_eq!(parameters(&[]), "");
}

#[test]
fn elevation_code_gives_elevation_required() {
    assert_eq!(spawn_failure_outcome(740), LaunchOutcome::ElevationRequired);
    assert_eq!(spawn_failure_outcome(ERROR_ELEVATION_REQUIRED), LaunchOutcome::ElevationRequired);
    assert_eq!(spawn_failure_outcome(2), LaunchOutcome::SpawnFailed);
    assert_eq!(spawn_failure_outcome(0), LaunchOutcome::SpawnFailed);
}

#[test]
fn fixed_args_come_before_caller_args() {
    let argv = strings(&["shim.exe", "x", "y"]);
    let r = forwarded_args(Some(strings(&["--f"])), &argv);
    assert_eq!(r, vec!["--f", "x", "y"]);
    assert_eq!(forwarded_args(None, &argv), vec!["x", "y"]);
    assert_eq!(forwarded_args(None, &[]), Vec::<String>::new());
}

#[test]
fn echo_end_to_end() {
    let shim = Shim::init("C:\\bin\\echo.shim", "path = \"C:\\bin\\echo.exe\"").ok().unwrap();
    assert!(shim.args.is_none());
    let args = forwarded_args(shim.args, &strings(&["C:\\bin\\echo.shim", "hello"]));
    assert_eq!(command_line(&shim.target_path, &args), "C:\\bin\\echo.exe hello");
    let p = step(Phase::Resolving, Event::ConfigLoaded);
    assert_eq!(p, Phase::Spawning);
    assert_eq!(step(p, Event::Launched(LaunchOutcome::Exited(7))), Phase::Finished(7));
    assert_eq!(step(p, Event::Launched(LaunchOutcome::Exited(2))), Phase::Finished(2));
}

#[test]
fn malformed_config_end_to_end() {
    let err = Shim::init("a.shim", "path = x\nno separator here").err().unwrap();
    let msg = load_failure_message(&err);
    assert!(msg.contains("no separator here"));
    assert_eq!(msg, "Error while loading shim: invalid line in shim file: no separator here\n");
    assert_eq!(step(Phase::Resolving, Event::ConfigFailed), Phase::Finished(EXIT_FAILED_LOAD_SHIM));
    assert_eq!(EXIT_FAILED_LOAD_SHIM, 1);
}

#[test]
fn spawn_failure_exits_with_two() {
    let r = step(Phase::Spawning, Event::Launched(LaunchOutcome::SpawnFailed));
    assert_eq!(r, Phase::Finished(2));
    assert_eq!(r, Phase::Finished(EXIT_FAILED_SPAWN_PROG));
}

#[test]
fn wait_failure_exits_with_three() {
    let r = step(Phase::Spawning, Event::Launched(LaunchOutcome::WaitFailed));
    assert_eq!(r, Phase::Finished(EXIT_FAILED_WAIT_PROG));
    assert_eq!(EXIT_FAILED_WAIT_PROG, 3);
}

#[test]
fn elevation_required_routes_to_elevated_launch() {
    let p = step(Phase::Spawning, Event::Launched(LaunchOutcome::ElevationRequired));
    assert_eq!(p, Phase::ElevatedSpawning);
    assert_eq!(step(p, Event::Launched(LaunchOutcome::Exited(42))), Phase::Finished(42));
    assert_eq!(step(p, Event::Launched(LaunchOutcome::SpawnFailed)), Phase::Finished(2));
    assert_eq!(step(p, Event::Launched(LaunchOutcome::ElevationRequired)), Phase::Finished(2));
    assert_eq!(step(p, Event::Launched(LaunchOutcome::WaitFailed)), Phase::Finished(3));
}

#[test]
fn finished_run_stays_finished() {
    let p = Phase::Finished(9);
    assert_eq!(step(p, Event::ConfigFailed), p);
    assert_eq!(step(p, Event::Launched(LaunchOutcome::Exited(1))), p);
    assert_eq!(step(Phase::Resolving, Event::Launched(LaunchOutcome::Exited(1))), Phase::Resolving);
}

#[test]
fn known_ctrl_events_are_handled() {
    for evt in [0u32, 1, 2, 5, 6] {
        assert!(handles_ctrl_event(evt));
    }
    for evt in [3u32, 4, 7, 100] {
        assert!(!handles_ctrl_event(evt));
    }
}

#[test]
fn module_path_probe_decisions() {
    assert_eq!(probe_module_path(0, 260, false), PathProbe::Failed);
    assert_eq!(probe_module_path(12, 260, false), PathProbe::Found(12));
    assert_eq!(probe_module_path(260, 260, true), PathProbe::Retry(520));
    assert_eq!(probe_module_path(260, 260, false), PathProbe::Failed);
    assert_eq!(probe_module_path(usize::MAX, usize::MAX, true), PathProbe::Failed);
}

#[test]
fn failure_lines() {
    assert_eq!(
        spawn_failure_message("t.exe", "not found"),
        "Error while spawning target program `t.exe`: not found\n"
    );
    assert_eq!(
        wait_failure_message("t.exe", "denied"),
        "Error while waiting target program `t.exe`: denied\n"
    );
}

#[test]
fn system_message_line_break_is_removed() {
    assert_eq!(trim_system_message("Access is denied.\r\n"), "Access is denied.");
    assert_eq!(trim_system_message("x\n"), "x");
    assert_eq!(trim_system_message("x"), "x");
    assert_eq!(trim_system_message(""), "");
}
