use taskmaster::config::{is_valid_signal, Program};
use taskmaster::instance::{
    command_line, elapsed, group_target, lasted, map_signal_name, process_group_exists, signal_by_name,
    spawn_plan, OutputTarget, ProcessError, ProcessInstance, ProcessPoll, StopAction, StopRun, Waited,
    NANOS_PER_SEC, STOP_POLL_MILLIS,
};
use taskmaster::logger::LogEvent;
use taskmaster::names::NameMap;
use taskmaster::platform::Platform;

fn program(cmd: &str) -> Program {
    Program { cmd: cmd.to_string(), ..Program::default() }
}

fn launched_as(name: &str, id: usize, program: &Program) -> ProcessInstance {
    let (instance, _) =
        ProcessInstance::spawn(name, id, program, Ok(77), 1_000).expect("spawn child");
    instance
}

fn launched(program: &Program) -> ProcessInstance {
    launched_as("web", 0, program)
}

fn run_of(program: &Program, platform: Platform) -> StopRun {
    launched(program).stop(platform).expect("stop").expect("something to stop")
}

#[test]
fn spawns_and_reports_running_child() {
    let program = program("sleep 1");
    let (mut instance, event) =
        ProcessInstance::spawn("web", 0, &program, Ok(77), 5).expect("spawn child");
    assert!(instance.pid().is_some());
    assert!(instance.is_running(&Waited::Running));
    assert!(!instance.is_running(&Waited::Exited(Some(0))));
    assert_eq!(instance.started_at, Some(5));
    assert!(matches!(
        event,
        LogEvent::Start { program, id: 0, pid: Some(77) } if program == "web"
    ));

    let run = instance.stop(Platform::Linux).expect("stop child");
    assert!(run.is_some());
    assert!(instance.child.is_none());
    assert!(!instance.is_running(&Waited::Running));
    assert!(instance.stop(Platform::Linux).expect("stop again").is_none());
}

#[test]
fn failed_launches_make_no_instance() {
    let failed = ProcessInstance::spawn(
        "web",
        0,
        &program("x"),
        Err(ProcessError::Io("no such file".to_string())),
        5,
    );
    assert_eq!(failed.expect_err("failed").message(), "no such file");
}

#[test]
fn redirects_stdout_and_stderr_to_files() {
    let mut program = program("echo hello-out; echo hello-err 1>&2");
    let discarded = spawn_plan(&program, Platform::Linux);
    assert!(matches!(discarded.stdout, OutputTarget::Discard(path) if path == "/dev/null"));
    assert!(matches!(discarded.stderr, OutputTarget::Discard(path) if path == "/dev/null"));

    program.stdout = Some("/tmp/stdout.log".to_string());
    program.stderr = Some("/tmp/stderr.log".to_string());
    let plan = spawn_plan(&program, Platform::Linux);
    assert!(matches!(plan.stdout, OutputTarget::Append(path) if path == "/tmp/stdout.log"));
    assert!(matches!(plan.stderr, OutputTarget::Append(path) if path == "/tmp/stderr.log"));
    let instance = launched_as("web", 1, &program);
    assert_eq!(instance.id, 1);
    assert_eq!(instance.stdout_path.as_deref(), Some("/tmp/stdout.log"));
    assert_eq!(instance.stderr_path.as_deref(), Some("/tmp/stderr.log"));
}

#[test]
fn shell_builtins_are_valid_commands() {
    let program = Program { starttime: 0, ..program("exit 0") };
    let command = spawn_plan(&program, Platform::Linux).command.expect("command");
    assert_eq!(command.executable, "/bin/sh");
    assert_eq!(command.args, vec!["-c", "exit 0"]);
    let instance = launched_as("oneshot", 0, &program);
    assert_eq!(instance.name, "oneshot");
    assert_eq!(
        instance.poll(Waited::Exited(Some(0))).expect("poll"),
        ProcessPoll::Exited(Some(0))
    );
}

#[test]
fn commands_go_to_the_shell_of_the_system() {
    let windows = command_line(&"exit 0".to_string(), Platform::Windows).expect("command");
    assert_eq!(windows.executable, "cmd.exe");
    assert_eq!(windows.args, vec!["/S", "/C", "exit 0"]);
    let other = command_line(&" ls  -l a\t".to_string(), Platform::Other).expect("command");
    assert_eq!(other.executable, "ls");
    assert_eq!(other.args, vec!["-l", "a"]);
    let empty = command_line(&" ".to_string(), Platform::Other);
    assert!(matches!(empty, Err(ProcessError::Spawn(text)) if text == "empty cmd"));
}

#[test]
fn plans_hold_what_the_program_asks_for() {
    let mut env = NameMap::new();
    env.insert("A".to_string(), "1".to_string());
    let program = Program {
        env: Some(env),
        workingdir: Some("/tmp".to_string()),
        umask: Some(18),
        ..program("x")
    };
    let plan = spawn_plan(&program, Platform::Linux);
    assert!(plan.new_group);
    assert_eq!(plan.umask, Some(18));
    assert_eq!(plan.workingdir.as_deref(), Some("/tmp"));
    assert_eq!(plan.env.expect("env").get("A"), Some(&"1".to_string()));
    let plan = spawn_plan(&program, Platform::Windows);
    assert!(!plan.new_group);
    assert_eq!(plan.umask, None);
    assert!(matches!(plan.stdout, OutputTarget::Discard(path) if path == "NUL"));
}

#[test]
fn polls_tell_what_the_system_answered() {
    let mut instance = launched(&program("x"));
    assert_eq!(instance.poll(Waited::Running).expect("poll"), ProcessPoll::Running);
    assert_eq!(instance.poll(Waited::Exited(None)).expect("poll"), ProcessPoll::Exited(None));
    let failed = instance.poll(Waited::Failed(ProcessError::Io("lost".to_string())));
    assert_eq!(failed.expect_err("failed").message(), "lost");
    instance.child = None;
    assert_eq!(instance.poll(Waited::Running).expect("poll"), ProcessPoll::Stopped);
}

#[test]
fn stop_sends_term_and_kills_the_process_group() {
    let program = Program { stoptime: 1, ..program("sleep 30 & wait") };
    let mut instance = launched_as("tree", 0, &program);
    let mut run =
        instance.stop(Platform::Linux).expect("stop process group").expect("something to stop");
    assert!(matches!(run.action(), StopAction::Signal { pid: 77, signal: 15 }));
    run.advance(0, false);
    // The group lives on: it is looked at again and again until a second has passed.
    for moment in [0, NANOS_PER_SEC / 2, NANOS_PER_SEC - 1] {
        assert!(matches!(run.action(), StopAction::Check { pid: 77 }));
        run.advance(moment, true);
        assert!(matches!(run.action(), StopAction::Pause { millis: STOP_POLL_MILLIS }));
        run.advance(moment, true);
    }
    assert!(matches!(run.action(), StopAction::Check { pid: 77 }));
    run.advance(NANOS_PER_SEC, true);
    assert!(matches!(run.action(), StopAction::Recheck { pid: 77 }));
    run.advance(NANOS_PER_SEC, true);
    assert!(matches!(run.action(), StopAction::Kill { pid: 77 }));
    run.advance(NANOS_PER_SEC, true);
    assert!(matches!(run.action(), StopAction::Wait { pid: 77 }));
    run.advance(NANOS_PER_SEC, true);
    assert!(matches!(
        run.action(),
        StopAction::Finished(LogEvent::Stop { program, id: 0 }) if program == "tree"
    ));
    run.advance(NANOS_PER_SEC, true);
    assert!(matches!(run.action(), StopAction::Finished(_)));
}

#[test]
fn a_group_that_is_gone_is_not_killed() {
    let mut run = run_of(&program("x"), Platform::Linux);
    run.advance(10, false);
    run.advance(11, false);
    assert!(matches!(run.action(), StopAction::Recheck { .. }));
    run.advance(12, false);
    assert!(matches!(run.action(), StopAction::Wait { .. }));
}

#[test]
fn a_stoptime_of_zero_escalates_at_once() {
    let mut run = run_of(&Program { stoptime: 0, ..program("x") }, Platform::Linux);
    run.advance(10, false);
    run.advance(10, true);
    run.advance(10, true);
    assert!(matches!(run.action(), StopAction::Kill { .. }));
}

#[test]
fn elsewhere_a_stop_is_a_kill() {
    let mut run = run_of(&program("x"), Platform::Windows);
    assert!(matches!(run.action(), StopAction::Kill { pid: 77 }));
    run.advance(10, false);
    assert!(matches!(run.action(), StopAction::Wait { pid: 77 }));
    run.advance(10, false);
    assert!(matches!(run.action(), StopAction::Finished(_)));
}

#[test]
fn stop_signals_are_checked_when_they_are_sent() {
    let mut odd = launched(&Program { stopsignal: Some("NOPE".to_string()), ..program("x") });
    let refused = odd.stop(Platform::Linux).expect_err("refused");
    assert_eq!(refused.message(), "invalid stop signal 'NOPE'");
    assert!(odd.child.is_none());
    let run = run_of(&Program { stopsignal: None, ..program("x") }, Platform::Linux);
    assert!(matches!(run.action(), StopAction::Signal { pid: 77, signal: 15 }));
    let run = run_of(&Program { stopsignal: Some(" usr1".to_string()), ..program("x") }, Platform::Bsd);
    assert!(matches!(run.action(), StopAction::Signal { pid: 77, signal: 30 }));
}

#[test]
fn signals_have_numbers() {
    let numbers = [
        ("HUP", 1), ("sigint", 2), (" quit ", 3), ("Kill", 9), ("USR1", 10), ("SIGTERM", 15),
        ("usr2", 12), ("64", 64), ("100", 100), ("+3", 3),
    ];
    for (name, number) in numbers {
        assert_eq!(map_signal_name(name, Platform::Linux), Ok(number), "{}", name);
    }
    for name in ["", "0", "-1", "SIG", "TERM1", " 9"] {
        assert_eq!(map_signal_name(name, Platform::Linux), Err(()), "{}", name);
    }
    for name in ["HUP", "sigint", "usr2", "1", "64", "65", "100", "0", "-1", "", "NOPE", " 9"] {
        let mapped = matches!(map_signal_name(name, Platform::Linux), Ok(number) if number < 65);
        assert_eq!(is_valid_signal(name, Platform::Linux), mapped, "{}", name);
    }
    assert_eq!(signal_by_name("SIGUSR2", Platform::Solaris), Some(17));
    assert_eq!(signal_by_name("sigusr2", Platform::Solaris), None);
}

#[test]
fn groups_are_addressed_by_negative_numbers() {
    assert_eq!(group_target(77).expect("target"), -77);
    assert_eq!(group_target(2147483647).expect("target"), -2147483647);
    let refused = group_target(2147483648).expect_err("too large");
    assert_eq!(refused.message(), "pid does not fit i32");
    assert!(process_group_exists(77, 0, None));
    assert!(process_group_exists(77, -1, Some(1)));
    assert!(!process_group_exists(77, -1, Some(3)));
    assert!(!process_group_exists(77, -1, None));
    assert!(!process_group_exists(2147483648, 0, None));
}

#[test]
fn time_never_runs_backwards() {
    assert_eq!(elapsed(5, 9), 4);
    assert_eq!(elapsed(9, 5), 0);
    assert!(lasted(0, 2 * NANOS_PER_SEC, 2));
    assert!(!lasted(0, 2 * NANOS_PER_SEC - 1, 2));
    assert!(lasted(9, 5, 0));
    assert!(!lasted(0, u64::MAX as u128, u64::MAX));
}
