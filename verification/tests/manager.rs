use taskmaster::config::{AutoRestart, Program};
use taskmaster::instance::{ProcessError, ProcessPoll, NANOS_PER_SEC};
use taskmaster::logger::LogEvent;
use taskmaster::manager::{
    is_exit_expected, should_restart, PassAction, ProcessGroup, ProcessStatus, RunningCount,
};
use taskmaster::order::sort_ranked;

fn base_program(cmd: &str) -> Program {
    Program { cmd: cmd.to_string(), ..Program::default() }
}

fn start(group: &mut ProcessGroup, now: u128) -> Vec<usize> {
    let ids = group.start_all();
    for id in &ids {
        let result = group.started(*id, Ok(100 + *id as u32), now);
        assert!(result.error.is_none());
    }
    ids
}

fn state(group: &ProcessGroup, now: u128) -> &'static str {
    group.statuses(now)[0].state
}

fn lines(events: &[LogEvent]) -> Vec<String> {
    events.iter().map(|event| event.line("t")).collect()
}

#[test]
fn start_all_spawns_numprocs_instances() {
    let mut program = base_program("sleep 2");
    program.numprocs = 3;
    let mut group = ProcessGroup::new("web".to_string(), program);

    assert_eq!(start(&mut group, 0), vec![0, 1, 2]);
    assert_eq!(group.instances.len(), 3);
    assert_eq!(group.instance_count(), 3);
    assert_eq!(group.stop_all().len(), 3);
    assert!(!group.is_active());
}

#[test]
fn start_all_leaves_what_runs_alone() {
    let mut program = base_program("sleep 2");
    program.numprocs = 3;
    let mut group = ProcessGroup::new("web".to_string(), program);
    assert!(group.spawn_one(1, Ok(7), 0).is_ok());
    assert_eq!(start(&mut group, 5), vec![0, 2]);
    assert_eq!(group.instance(1).expect("instance").pid(), Some(7));
    assert!(start(&mut group, 9).is_empty());
}

#[test]
fn failed_launches_are_fatal() {
    let mut group = ProcessGroup::new("web".to_string(), base_program("x"));
    assert_eq!(group.start_all(), vec![0]);
    let result = group.started(0, Err(ProcessError::Io("no".to_string())), 0);
    assert_eq!(result.event.line("t"), "[t] FATAL program=web id=0 attempts=1\n");
    assert_eq!(result.error.expect("error").message(), "no");
    assert_eq!(state(&group, 0), "FATAL");
    assert_eq!(group.start_all(), vec![0]);
    assert_eq!(state(&group, 0), "STOPPED");
    assert!(group.spawn_one(0, Err(ProcessError::Spawn("no".to_string())), 0).is_err());
    assert_eq!(state(&group, 0), "STOPPED");
}

#[test]
fn expected_exit_after_starttime_stays_stopped() {
    let mut program = base_program("exit 0");
    program.autorestart = AutoRestart::Never;
    let mut group = ProcessGroup::new("web".to_string(), program);
    start(&mut group, 0);
    for instance in group.instances.values_mut() {
        instance.started_at = Some(1);
    }

    let result = group.reconcile(0, ProcessPoll::Exited(Some(0)), 2 * NANOS_PER_SEC + 1);
    assert!(result.respawn.is_none());
    assert!(group.instances.is_empty());
    assert_eq!(group.statuses(2 * NANOS_PER_SEC + 1)[0].state, "STOPPED");
    assert_eq!(lines(&result.events), vec!["[t] STOP program=web id=0\n"]);
}

#[test]
fn unexpected_exit_restarts() {
    let mut program = base_program("exit 42");
    program.autorestart = AutoRestart::Unexpected;
    let mut group = ProcessGroup::new("web".to_string(), program);
    start(&mut group, 0);

    let now = 2 * NANOS_PER_SEC;
    let result = group.reconcile(0, ProcessPoll::Exited(Some(42)), now);
    assert_eq!(
        lines(&result.events),
        vec![
            "[t] CRASH program=web id=0 exit_code=42\n",
            "[t] RESTART program=web id=0 reason=autorestart=Unexpected\n",
        ]
    );
    assert_eq!(result.respawn, Some(0));
    let launched = group.respawned(0, 0, Ok(200), now);
    assert_eq!(launched.event.line("t"), "[t] START program=web id=0 pid=200\n");
    assert_eq!(group.instances.len(), 1);
    assert_eq!(group.stop_all().len(), 1);
}

#[test]
fn early_death_becomes_fatal_after_retries() {
    let mut program = base_program("exit 1");
    program.autorestart = AutoRestart::Always;
    program.starttime = 10;
    program.startretries = 1;
    let mut group = ProcessGroup::new("web".to_string(), program);
    start(&mut group, 0);

    let first = group.reconcile(0, ProcessPoll::Exited(Some(1)), 100_000_000);
    assert_eq!(
        lines(&first.events),
        vec![
            "[t] CRASH program=web id=0 exit_code=1\n",
            "[t] RESTART program=web id=0 reason=startup retry 1/1\n",
        ]
    );
    assert_eq!(first.respawn, Some(1));
    assert!(group.respawned(0, 1, Ok(200), 100_000_000).error.is_none());
    let second = group.reconcile(0, ProcessPoll::Exited(Some(1)), 200_000_000);
    assert_eq!(
        lines(&second.events),
        vec![
            "[t] CRASH program=web id=0 exit_code=1\n",
            "[t] FATAL program=web id=0 attempts=2\n",
        ]
    );
    assert!(second.respawn.is_none());
    assert!(group.instances.is_empty());
    assert_eq!(group.statuses(200_000_000)[0].state, "FATAL");
}

#[test]
fn starttime_zero_accepts_short_lived_commands() {
    let program = Program { starttime: 0, startretries: 0, ..base_program("exit 0") };
    let mut group = ProcessGroup::new("oneshot".to_string(), program);
    start(&mut group, 0);
    assert_eq!(state(&group, 0), "RUNNING");
    group.reconcile(0, ProcessPoll::Exited(Some(0)), 100_000_000);
    assert_eq!(group.statuses(100_000_000)[0].state, "STOPPED");
}

#[test]
fn a_launch_that_succeeded_owes_all_retries_again() {
    let program = Program { starttime: 1, startretries: 1, ..base_program("x") };
    let mut group = ProcessGroup::new("web".to_string(), program);
    start(&mut group, 0);
    group.reconcile(0, ProcessPoll::Exited(None), 1);
    group.respawned(0, 1, Ok(2), 10);
    assert!(group.reconcile(0, ProcessPoll::Running, 11).respawn.is_none());
    group.reconcile(0, ProcessPoll::Running, 10 + NANOS_PER_SEC);
    for instance in group.instances.values_mut() {
        instance.started_at = Some(20 * NANOS_PER_SEC);
    }
    let result = group.reconcile(0, ProcessPoll::Exited(None), 20 * NANOS_PER_SEC);
    assert_eq!(result.respawn, Some(1));
    assert_eq!(
        lines(&result.events),
        vec![
            "[t] CRASH program=web id=0 exit_code=signal\n",
            "[t] RESTART program=web id=0 reason=startup retry 1/1\n",
        ]
    );
}

#[test]
fn failed_relaunches_are_fatal() {
    let program = Program { starttime: 1, startretries: 3, ..base_program("x") };
    let mut group = ProcessGroup::new("web".to_string(), program);
    start(&mut group, 0);
    let result = group.reconcile(0, ProcessPoll::Exited(Some(1)), 1);
    let attempts = result.respawn.expect("respawn");
    let failed = group.respawned(0, attempts, Err(ProcessError::Io("no".to_string())), 2);
    assert_eq!(failed.event.line("t"), "[t] FATAL program=web id=0 attempts=2\n");
    assert_eq!(state(&group, 2), "FATAL");
    assert!(group.spawn_one(0, Ok(5), 3).is_ok());
    assert_eq!(state(&group, 3), "STARTING");
}

#[test]
fn policies_decide_about_restarts() {
    let mut program = Program { exitcodes: vec![0, 2], ..base_program("x") };
    let codes = [Some(0), Some(2), Some(1), None];
    program.autorestart = AutoRestart::Always;
    assert!(codes.iter().all(|code| should_restart(&program, *code)));
    program.autorestart = AutoRestart::Never;
    assert!(codes.iter().all(|code| !should_restart(&program, *code)));
    program.autorestart = AutoRestart::Unexpected;
    let restarts: Vec<bool> = codes.iter().map(|code| should_restart(&program, *code)).collect();
    assert_eq!(restarts, vec![false, false, true, true]);
    assert!(is_exit_expected(&program, Some(2)));
    assert!(!is_exit_expected(&program, None));
}

#[test]
fn always_records_no_crash_for_an_expected_exit() {
    let program =
        Program { starttime: 0, autorestart: AutoRestart::Always, ..base_program("x") };
    let mut group = ProcessGroup::new("web".to_string(), program);
    start(&mut group, 0);
    let result = group.reconcile(0, ProcessPoll::Exited(Some(0)), 1);
    assert_eq!(
        lines(&result.events),
        vec!["[t] RESTART program=web id=0 reason=autorestart=Always\n"]
    );
}

#[test]
fn an_instance_without_a_process_counts_as_ended() {
    let program = Program { starttime: 9, ..base_program("x") };
    let mut group = ProcessGroup::new("web".to_string(), program);
    start(&mut group, 0);
    let result = group.reconcile(0, ProcessPoll::Stopped, 1);
    assert_eq!(
        lines(&result.events),
        vec!["[t] CRASH program=web id=0 exit_code=signal\n", "[t] STOP program=web id=0\n"]
    );
    assert_eq!(state(&group, 1), "STOPPED");
    assert!(group.reconcile(0, ProcessPoll::Exited(Some(1)), 2).events.is_empty());
}

#[test]
fn statuses_have_a_row_for_each_instance() {
    let program = Program { numprocs: 2, ..base_program("x") };
    let mut group = ProcessGroup::new("web".to_string(), program);
    group.start_all();
    group.started(1, Ok(9), NANOS_PER_SEC);
    let rows = group.statuses(2 * NANOS_PER_SEC - 1);
    assert_eq!(
        rows,
        vec![
            ProcessStatus {
                program: "web".to_string(),
                id: 0,
                pid: None,
                state: "STOPPED",
                uptime: None,
            },
            ProcessStatus {
                program: "web".to_string(),
                id: 1,
                pid: Some(9),
                state: "STARTING",
                uptime: Some(NANOS_PER_SEC - 1),
            },
        ]
    );
    assert_eq!(group.status(1, 2 * NANOS_PER_SEC).state, "RUNNING");
    for instance in group.instances.values_mut() {
        instance.started_at = None;
    }
    assert_eq!(group.status(1, 2 * NANOS_PER_SEC).state, "STARTING");
    group.stop_all();
    assert!(group.statuses(0).iter().all(|row| row.state == "STOPPED" && row.pid.is_none()));
}

#[test]
fn a_pass_looks_at_each_instance_once() {
    let program = Program { numprocs: 3, starttime: 0, ..base_program("x") };
    let mut group = ProcessGroup::new("web".to_string(), program);
    start(&mut group, 0);
    let mut pass = group.begin_pass();
    let mut seen = Vec::new();
    while let PassAction::Poll { id } = pass.action() {
        seen.push(id);
        let step = group.polled(&mut pass, Ok(ProcessPoll::Running), 1);
        assert!(step.events.is_empty() && step.error.is_none());
    }
    assert_eq!(pass.action(), PassAction::Done);
    seen.sort();
    assert_eq!(seen, vec![0, 1, 2]);
}

#[test]
fn instances_are_looked_at_before_they_are_counted() {
    let program = Program {
        numprocs: 3,
        starttime: 0,
        autorestart: AutoRestart::Unexpected,
        ..base_program("x")
    };
    let mut group = ProcessGroup::new("web".to_string(), program);
    start(&mut group, 0);
    // One instance runs, one has ended as expected, and one is launched anew.
    let mut pass = group.begin_pass();
    let count = loop {
        match group.running_count(&pass) {
            RunningCount::Poll { id } => {
                let poll = match id {
                    0 => ProcessPoll::Running,
                    1 => ProcessPoll::Exited(Some(0)),
                    _ => ProcessPoll::Exited(Some(9)),
                };
                group.polled(&mut pass, Ok(poll), 1);
            }
            RunningCount::Launch { id } => {
                assert_eq!(id, 2);
                group.launched(&mut pass, Ok(55), 2);
            }
            RunningCount::Counted(count) => break count,
        }
    };
    assert_eq!(count, 2);
    assert_eq!(group.instance(2).expect("instance").pid(), Some(55));

    let mut pass = group.begin_pass();
    assert!(!matches!(group.running_count(&pass), RunningCount::Counted(_)));
    group.polled(&mut pass, Err(ProcessError::Io("lost".to_string())), 3);
    assert_eq!(group.running_count(&pass), RunningCount::Counted(2));
}

#[test]
fn launches_that_fail_are_given_up_among_those_that_succeed() {
    let program = Program { numprocs: 4, ..base_program("x") };
    let mut group = ProcessGroup::new("web".to_string(), program);
    group.spawn_one(2, Ok(7), 0).expect("spawned");
    assert_eq!(group.start_all(), vec![0, 1, 3]);
    group.started(0, Ok(10), 5);
    group.started(1, Err(ProcessError::Io("no".to_string())), 6);
    group.started(3, Ok(13), 7);
    let rows: Vec<(&str, Option<u32>)> =
        group.statuses(8).iter().map(|row| (row.state, row.pid)).collect();
    assert_eq!(
        rows,
        vec![
            ("STARTING", Some(10)),
            ("FATAL", None),
            ("STARTING", Some(7)),
            ("STARTING", Some(13)),
        ]
    );
}

#[test]
fn a_pass_ends_at_the_first_error() {
    let program = Program {
        numprocs: 2,
        starttime: 0,
        autorestart: AutoRestart::Always,
        ..base_program("x")
    };
    let mut group = ProcessGroup::new("web".to_string(), program);
    start(&mut group, 0);
    let mut pass = group.begin_pass();
    let step = group.polled(&mut pass, Err(ProcessError::Io("lost".to_string())), 1);
    assert!(step.error.is_some());
    assert_eq!(pass.action(), PassAction::Done);
    assert_eq!(group.instance_count(), 2);

    let mut pass = group.begin_pass();
    let step = group.polled(&mut pass, Ok(ProcessPoll::Exited(Some(0))), 1);
    assert_eq!(step.events.len(), 1);
    assert!(matches!(pass.action(), PassAction::Launch { .. }));
    assert_eq!(pass.attempts(), Some(0));
    let step = group.launched(&mut pass, Err(ProcessError::Io("no".to_string())), 2);
    assert!(step.error.is_some());
    assert_eq!(step.events.len(), 1);
    assert_eq!(pass.action(), PassAction::Done);
    assert_eq!(group.instance_count(), 1);
}

#[test]
fn counts_are_checked_before_they_overflow() {
    let mut group = ProcessGroup::new("web".to_string(), base_program("x"));
    start(&mut group, 0);
    assert!(group.can_reconcile(0, ProcessPoll::Exited(None), 0));
    assert!(group.can_reconcile(7, ProcessPoll::Exited(None), 0));
    assert!(group.can_reconcile(0, ProcessPoll::Running, 0));
}

#[test]
fn a_look_at_one_instance_leaves_the_others_alone() {
    let program = Program { numprocs: 2, startretries: 0, ..base_program("x") };
    let mut group = ProcessGroup::new("web".to_string(), program);
    start(&mut group, 0);
    group.reconcile(0, ProcessPoll::Exited(Some(1)), 1);
    let rows = group.statuses(1);
    assert_eq!((rows[0].state, rows[0].pid), ("FATAL", None));
    assert_eq!((rows[1].state, rows[1].pid), ("STARTING", Some(101)));
}

#[test]
fn rows_go_by_program_and_instance() {
    let row = |program: &str, id: usize| ProcessStatus {
        program: program.to_string(),
        id,
        pid: None,
        state: "STOPPED",
        uptime: None,
    };
    let mut rows = vec![row("b", 1), row("a", 10), row("b", 0), row("a", 9)];
    sort_ranked(&mut rows);
    assert_eq!(rows, vec![row("a", 9), row("a", 10), row("b", 0), row("b", 1)]);
}
