use taskmaster::config::{AutoRestart, Config, Program};
use taskmaster::instance::{ProcessError, ProcessPoll, NANOS_PER_SEC};
use taskmaster::platform::Platform;
use taskmaster::supervisor::{
    FirstError, ReloadJob, ReloadPlan, ReloadSummary, Supervisor, SweepAction, WaitStep,
};

fn long_running_program() -> Program {
    Program { cmd: "sleep 5".to_string(), starttime: 0, ..Program::default() }
}

fn config_of(entries: Vec<(&str, Program)>) -> Config {
    let mut config = Config::default();
    for (name, program) in entries {
        config.programs.insert(name.to_string(), program);
    }
    config
}

fn start(supervisor: &mut Supervisor, name: &str, pid: u32) {
    for id in supervisor.start_program(name).expect("start program") {
        let result = supervisor.started(name, id, Ok(pid + id as u32), 0).expect("known");
        assert!(result.error.is_none());
    }
}

fn carry_out(supervisor: &mut Supervisor, plan: &ReloadPlan) -> Vec<String> {
    let mut done = Vec::new();
    for job in &plan.jobs {
        match job {
            ReloadJob::Stop(stopping) => {
                done.push(format!("stop {} {}", stopping.program, stopping.instances.len()));
            }
            ReloadJob::Unregister { program } => done.push(format!("unregister {}", program)),
            ReloadJob::Start { program, ids } => {
                for id in ids {
                    supervisor.started(program, *id, Ok(900), 0);
                }
                done.push(format!("start {} {}", program, ids.len()));
            }
        }
    }
    done
}

fn pid_of(supervisor: &Supervisor, name: &str) -> Option<u32> {
    supervisor
        .statuses(0)
        .into_iter()
        .find(|status| status.program == name)
        .expect("status")
        .pid
}

#[test]
fn supervisor_starts_and_stops_programs() {
    let config = config_of(vec![("web", long_running_program())]);
    let mut supervisor = Supervisor::from_config(config.clone());

    start(&mut supervisor, "web", 10);
    assert_eq!(supervisor.instance_count("web"), Some(1));
    assert_eq!(supervisor.stop_program("web").expect("stop program").len(), 1);
    assert_eq!(supervisor.instance_count("web"), Some(0));
}

#[test]
fn unknown_programs_are_refused() {
    let mut supervisor = Supervisor::from_config(Config::default());
    let error = supervisor.start_program("web").expect_err("unknown");
    assert_eq!(error.message(), "unknown program 'web'");
    let error = supervisor.stop_program("web").expect_err("unknown");
    assert_eq!(error.message(), "unknown program 'web'");
    assert!(supervisor.started("web", 0, Ok(1), 0).is_none());
    assert_eq!(supervisor.instance_count("web"), None);
    let error = supervisor.spawn_plan("web", Platform::Linux).expect_err("unknown");
    assert_eq!(error.message(), "unknown program 'web'");
}

#[test]
fn reload_applies_a_selective_config_diff() {
    let program = long_running_program();
    let initial = config_of(vec![
        ("keep", program.clone()),
        ("change", program.clone()),
        ("remove", program.clone()),
    ]);
    let mut supervisor = Supervisor::from_config(initial);
    for (i, name) in ["keep", "change", "remove"].iter().enumerate() {
        start(&mut supervisor, name, 100 * (i as u32 + 1));
    }
    let original_pid = pid_of(&supervisor, "keep");
    assert_eq!(original_pid, Some(100));

    let mut changed_program = program.clone();
    changed_program.numprocs = 2;
    let added = Program { autostart: true, ..long_running_program() };
    let reloaded =
        config_of(vec![("keep", program), ("change", changed_program), ("added", added)]);
    let plan = supervisor.reload_config(reloaded, Some("test".to_string()), Ok(())).expect("reload");
    assert_eq!(
        carry_out(&mut supervisor, &plan),
        vec![
            "stop remove 1",
            "unregister remove",
            "stop change 1",
            "unregister change",
            "start change 2",
            "unregister added",
            "start added 1",
        ]
    );
    let summary = FirstError::new().result(plan.summary).expect("reload");

    assert_eq!(summary.added, vec!["added"]);
    assert_eq!(summary.removed, vec!["remove"]);
    assert_eq!(summary.changed, vec!["change"]);
    assert_eq!(summary.unchanged, vec!["keep"]);
    assert_eq!(pid_of(&supervisor, "keep"), original_pid);
    assert_eq!(supervisor.instance_count("added"), Some(1));
    assert_eq!(supervisor.instance_count("change"), Some(2));
    assert_eq!(supervisor.instance_count("remove"), None);
    assert_eq!(plan.event.line("t"), "[t] CONFIG_RELOAD source=test\n");

    assert_eq!(supervisor.stop().len(), 3);
}

#[test]
fn reload_of_the_same_configuration_does_nothing() {
    let config = config_of(vec![("b", long_running_program()), ("a", long_running_program())]);
    let mut supervisor = Supervisor::from_config(config.clone());
    start(&mut supervisor, "a", 5);
    let plan = supervisor.reload_config(config, None, Ok(())).expect("reload");
    assert!(plan.jobs.is_empty());
    assert_eq!(plan.summary.unchanged, vec!["a", "b"]);
    assert_eq!(
        plan.summary,
        ReloadSummary {
            unchanged: vec!["a".to_string(), "b".to_string()],
            ..ReloadSummary::default()
        }
    );
    assert_eq!(pid_of(&supervisor, "a"), Some(5));
}

#[test]
fn a_log_that_cannot_be_opened_keeps_the_configuration() {
    let config = config_of(vec![("web", long_running_program())]);
    let mut supervisor = Supervisor::from_config(config.clone());
    start(&mut supervisor, "web", 5);
    let refused = supervisor.reload_config(
        Config::default(),
        None,
        Err(ProcessError::Io("no such directory".to_string())),
    );
    assert_eq!(refused.expect_err("refused").message(), "no such directory");
    assert_eq!(supervisor.program_names(), vec!["web"]);
    assert_eq!(pid_of(&supervisor, "web"), Some(5));
}

#[test]
fn a_reload_goes_on_where_a_launch_fails() {
    let idle = config_of(vec![("web", long_running_program())]);
    let mut supervisor = Supervisor::from_config(idle);
    let auto = Program { autostart: true, numprocs: 3, ..long_running_program() };
    let plan = supervisor
        .reload_config(config_of(vec![("web", auto)]), None, Ok(()))
        .expect("reload");
    let mut first = FirstError::new();
    for job in plan.jobs {
        if let ReloadJob::Start { program, ids } = job {
            assert_eq!(ids, vec![0, 1, 2]);
            for id in ids {
                let outcome = if id == 1 {
                    Err(ProcessError::Io("no".to_string()))
                } else {
                    Ok(40 + id as u32)
                };
                first.note(supervisor.started(&program, id, outcome, 0).expect("known").error);
            }
        }
    }
    assert_eq!(first.result(plan.summary).expect_err("error").message(), "no");
    assert_eq!(supervisor.instance_count("web"), Some(2));
    let states: Vec<&str> = supervisor.statuses(0).iter().map(|row| row.state).collect();
    assert_eq!(states, vec!["RUNNING", "FATAL", "RUNNING"]);
}

#[test]
fn changed_programs_start_only_if_they_were_active_or_start_by_themselves() {
    let idle = config_of(vec![("web", long_running_program())]);
    let logged = Program { log: Some("/tmp/web.log".to_string()), ..long_running_program() };
    let mut supervisor = Supervisor::from_config(idle.clone());
    let plan = supervisor.reload_config(config_of(vec![("web", logged)]), None, Ok(())).expect("reload");
    assert_eq!(carry_out(&mut supervisor, &plan), vec!["stop web 0"]);
    assert_eq!(supervisor.instance_count("web"), Some(0));

    let auto = Program { autostart: true, ..long_running_program() };
    let plan = supervisor.reload_config(config_of(vec![("web", auto)]), None, Ok(())).expect("reload");
    assert_eq!(
        carry_out(&mut supervisor, &plan),
        vec!["stop web 0", "unregister web", "start web 1"]
    );

    let plan = supervisor.reload_config(idle, None, Ok(())).expect("reload");
    assert_eq!(
        carry_out(&mut supervisor, &plan),
        vec!["stop web 1", "unregister web", "start web 1"]
    );

    let plan = supervisor.reload_config(
        config_of(vec![("web", long_running_program()), ("late", long_running_program())]),
        None,
        Ok(()),
    ).expect("reload");
    assert_eq!(carry_out(&mut supervisor, &plan), vec!["unregister late"]);
    assert_eq!(supervisor.instance_count("late"), Some(0));
    assert_eq!(supervisor.program_names(), vec!["late", "web"]);
}

#[test]
fn shutdown_stops_attached_processes() {
    let config = config_of(vec![("web", long_running_program())]);
    let mut supervisor = Supervisor::from_config(config.clone());
    start(&mut supervisor, "web", 7);
    assert!(supervisor.start());
    assert!(!supervisor.start());
    assert!(supervisor.is_running());
    supervisor.halt();
    assert!(!supervisor.is_running());

    let list = supervisor.stop();
    assert_eq!(list.len(), 1);
    assert_eq!(list[0].program, "web");
    assert_eq!(list[0].instances[&0].pid(), Some(7));
    assert_eq!(supervisor.wait_for_all_stopped(0, 0, 1), WaitStep::Stopped);
    assert!(supervisor.stop()[0].instances.is_empty());
    assert!(supervisor.statuses(0).iter().all(|row| row.state == "STOPPED"));
    assert!(supervisor.start());
}

#[test]
fn waiting_ends_when_the_time_is_over() {
    let config = config_of(vec![("a", long_running_program()), ("b", long_running_program())]);
    let mut supervisor = Supervisor::from_config(config.clone());
    start(&mut supervisor, "b", 7);
    assert_eq!(
        supervisor.wait_for_all_stopped(5, 4 + NANOS_PER_SEC, 1),
        WaitStep::Pause { millis: 25 }
    );
    assert_eq!(supervisor.wait_for_all_stopped(5, 5 + NANOS_PER_SEC, 1), WaitStep::TimedOut);
}

#[test]
fn statuses_are_sorted_over_all_programs() {
    let two = Program { numprocs: 2, ..long_running_program() };
    let supervisor =
        Supervisor::from_config(config_of(vec![("b", two), ("a", long_running_program())]));
    let rows: Vec<(String, usize)> =
        supervisor.statuses(0).into_iter().map(|row| (row.program, row.id)).collect();
    assert_eq!(
        rows,
        vec![("a".to_string(), 0), ("b".to_string(), 0), ("b".to_string(), 1)]
    );
    assert!(Supervisor::from_config(Config::default()).statuses(0).is_empty());
}

#[test]
fn the_first_error_is_the_one_that_counts() {
    let mut first = FirstError::new();
    first.note(None);
    first.note(Some(ProcessError::Io("one".to_string())));
    first.note(Some(ProcessError::Io("two".to_string())));
    assert_eq!(first.result(()).expect_err("error").message(), "one");
    assert_eq!(FirstError::new().result(3).expect("none"), 3);
}

fn two_programs() -> Supervisor {
    let program = Program { autorestart: AutoRestart::Always, ..long_running_program() };
    let mut supervisor =
        Supervisor::from_config(config_of(vec![("a", program.clone()), ("b", program)]));
    start(&mut supervisor, "a", 1);
    start(&mut supervisor, "b", 2);
    supervisor
}

fn next(action: SweepAction) -> String {
    match action {
        SweepAction::Poll { program, id } => format!("poll {} {}", program, id),
        SweepAction::Launch { program, id } => format!("launch {} {}", program, id),
        SweepAction::Done => "done".to_string(),
    }
}

#[test]
fn a_sweep_looks_at_all_programs() {
    let mut supervisor = two_programs();
    let mut sweep = supervisor.reconcile_once(false);
    assert_eq!(next(sweep.action()), "poll a 0");
    let answer = Ok(ProcessPoll::Exited(Some(0)));
    assert!(supervisor.can_poll(&sweep, &answer, 1));
    let step = supervisor.polled(&mut sweep, answer, 1);
    assert_eq!(step.events.len(), 1);
    assert_eq!(next(sweep.action()), "launch a 0");
    assert!(!supervisor.can_poll(&sweep, &Ok(ProcessPoll::Running), 1));
    assert!(sweep.can_launch(&Ok(50)));
    let step = supervisor.launched(&mut sweep, Ok(50), 2);
    assert_eq!(step.events[0].line("t"), "[t] START program=a id=0 pid=50\n");
    assert_eq!(pid_of(&supervisor, "a"), Some(50));
    assert_eq!(next(sweep.action()), "poll b 0");
    assert!(!sweep.can_launch(&Ok(50)));
    supervisor.polled(&mut sweep, Ok(ProcessPoll::Running), 3);
    assert_eq!(next(sweep.action()), "done");
    assert!(!supervisor.can_poll(&sweep, &Ok(ProcessPoll::Running), 1));
}

#[test]
fn a_strict_sweep_ends_at_an_error_and_a_lenient_one_goes_on() {
    let mut supervisor = two_programs();
    let mut sweep = supervisor.reconcile_once(false);
    let step = supervisor.polled(&mut sweep, Err(ProcessError::Io("lost".to_string())), 1);
    assert!(step.error.is_some());
    assert_eq!(next(sweep.action()), "done");

    let mut sweep = supervisor.reconcile_once(true);
    supervisor.polled(&mut sweep, Ok(ProcessPoll::Exited(None)), 1);
    let step = supervisor.launched(&mut sweep, Err(ProcessError::Io("no".to_string())), 1);
    assert_eq!(step.events[0].line("t"), "[t] FATAL program=a id=0 attempts=1\n");
    assert_eq!(next(sweep.action()), "poll b 0");
    assert_eq!(supervisor.instance_count("a"), Some(0));
    assert_eq!(supervisor.instance("b", 0).expect("instance").pid(), Some(2));
    assert!(supervisor.instance("a", 0).is_none());
}

#[test]
fn programs_are_launched_as_they_are_configured() {
    let supervisor = two_programs();
    let plan = supervisor.spawn_plan("a", Platform::Linux).expect("plan");
    assert_eq!(plan.command.expect("command").args, vec!["-c", "sleep 5"]);
}
