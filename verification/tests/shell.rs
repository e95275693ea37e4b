use taskmaster::config::{Config, ConfigError, ConfigSource, Program};
use taskmaster::instance::{ProcessError, NANOS_PER_SEC};
use taskmaster::manager::ProcessStatus;
use taskmaster::platform::Platform;
use taskmaster::shell::{
    help, outcome_message, reload_message, reload_rejected, reload_source, reloaded_line, restart_started,
    restart_stopped, status_failed, status_report, targets, welcome, Message, Received, Shell,
    ShellCommand, ShellStep, Wake,
};
use taskmaster::signals::{SignalFlags, SIGHUP, SIGTERM};
use taskmaster::supervisor::ReloadSummary;
use taskmaster::text::trim;

fn out(message: Message) -> String {
    match message {
        Message::Out(text) => text,
        Message::Error(text) => panic!("an error: {}", text),
    }
}

fn err(message: Message) -> String {
    match message {
        Message::Error(text) => text,
        Message::Out(text) => panic!("no error: {}", text),
    }
}

fn failed<T>(text: &str) -> Result<T, ProcessError> {
    Err(ProcessError::Spawn(text.to_string()))
}

#[test]
fn parses_control_commands() {
    assert_eq!(
        ShellCommand::parse("start web"),
        Some(ShellCommand::Start("web".to_string()))
    );
    assert_eq!(
        ShellCommand::parse("stop all"),
        Some(ShellCommand::Stop("all".to_string()))
    );
    assert_eq!(
        ShellCommand::parse("restart api"),
        Some(ShellCommand::Restart("api".to_string()))
    );
    assert_eq!(ShellCommand::parse("status"), Some(ShellCommand::Status));
    assert_eq!(ShellCommand::parse("reload"), Some(ShellCommand::Reload));
    assert_eq!(ShellCommand::parse("history"), Some(ShellCommand::History));
    assert_eq!(ShellCommand::parse("exit"), Some(ShellCommand::Quit));
}

#[test]
fn rejects_missing_or_extra_arguments() {
    assert_eq!(ShellCommand::parse(""), None);
    assert_eq!(ShellCommand::parse("start"), None);
    assert_eq!(ShellCommand::parse("status extra"), None);
    assert_eq!(ShellCommand::parse("unknown"), None);
}

#[test]
fn spacing_and_case_of_verbs_do_not_matter() {
    assert_eq!(
        ShellCommand::parse("\t START   Web \n"),
        Some(ShellCommand::Start("Web".to_string()))
    );
    assert_eq!(ShellCommand::parse("QuIt"), Some(ShellCommand::Quit));
    for line in ["help", "HELP", "h", "?"] {
        assert_eq!(ShellCommand::parse(line), Some(ShellCommand::Help));
    }
    assert_eq!(ShellCommand::parse("q"), Some(ShellCommand::Quit));
    assert_eq!(ShellCommand::parse("Q"), None);
    assert_eq!(ShellCommand::parse("H"), None);
    assert_eq!(ShellCommand::parse("start a b"), None);
}

#[test]
fn all_stands_for_every_program() {
    let names = || vec!["a".to_string(), "b".to_string()];
    assert_eq!(targets("ALL", names()), names());
    assert_eq!(targets("a", names()), vec!["a"]);
    assert_eq!(targets("c", names()), vec!["c"]);
}

#[test]
fn outcomes_are_told() {
    assert_eq!(out(outcome_message("start", "web", &Ok(()))), "start: web");
    assert_eq!(
        err(outcome_message("stop", "web", &failed("no"))),
        "stop web failed: no"
    );
    assert!(restart_stopped("web", &Ok(())).is_none());
    assert_eq!(
        err(restart_stopped("web", &failed("no")).expect("message")),
        "restart web failed while stopping: no"
    );
    assert_eq!(out(restart_started("web", &Ok(()))), "restart: web");
    assert_eq!(
        err(restart_started("web", &failed("no"))),
        "restart web failed while starting: no"
    );
    assert_eq!(err(status_failed(&ProcessError::Io("no".to_string()))), "status failed: no");
}

#[test]
fn reloads_are_told() {
    assert_eq!(
        err(reload_rejected(&ConfigError::Validation("no".to_string()))),
        "Reload rejected; current configuration kept: Validation error: no"
    );
    let summary = ReloadSummary {
        added: vec!["a".to_string(), "b\"c".to_string()],
        removed: vec![],
        changed: vec!["d".to_string()],
        unchanged: vec![],
    };
    assert_eq!(
        out(reload_message(&Ok(summary))),
        "Configuration reloaded. added=[\"a\", \"b\\\"c\"] removed=[] changed=[\"d\"] unchanged=[]"
    );
    assert_eq!(
        err(reload_message(&failed("no"))),
        "Configuration applied with a process error: no"
    );
    assert_eq!(
        reloaded_line("1", "2", "3", "4"),
        "Configuration reloaded. added=1 removed=2 changed=3 unchanged=4"
    );
}

#[test]
fn invalid_configurations_are_rejected() {
    let linux = Platform::Linux;
    assert_eq!(
        err(reload_source(ConfigSource::Unreadable("gone".to_string()), linux).expect_err("io")),
        "Reload rejected; current configuration kept: IO error: gone"
    );
    assert_eq!(
        err(reload_source(ConfigSource::Unparsable("odd".to_string()), linux).expect_err("toml")),
        "Reload rejected; current configuration kept: TOML parse error: odd"
    );
    assert_eq!(
        err(reload_source(ConfigSource::Parsed(Config::default()), linux).expect_err("empty")),
        "Reload rejected; current configuration kept: Validation error: no programs defined"
    );
    let mut config = Config::default();
    config
        .programs
        .insert("web".to_string(), Program { cmd: "x".to_string(), ..Program::default() });
    let accepted = reload_source(ConfigSource::Parsed(config), linux).expect("valid");
    assert_eq!(accepted.program_list(), "web");
}

#[test]
fn the_status_report_is_a_table() {
    assert_eq!(status_report(&vec![]), vec!["No programs configured."]);
    let rows = vec![
        ProcessStatus {
            program: "web".to_string(),
            id: 0,
            pid: Some(4242),
            state: "RUNNING",
            uptime: Some(61 * NANOS_PER_SEC + 999_999_999),
        },
        ProcessStatus {
            program: "a-name-longer-than-the-field".to_string(),
            id: 12,
            pid: None,
            state: "FATAL",
            uptime: None,
        },
    ];
    assert_eq!(
        status_report(&rows),
        vec![
            format!(
                "\n{:<20} {:>8} {:>10} {:>12} {:>10}",
                "PROGRAM", "INSTANCE", "PID", "STATE", "UPTIME"
            ),
            "-".repeat(66),
            format!("{:<20} {:>8} {:>10} {:>12} {:>10}", "web", 0, 4242, "RUNNING", "61s"),
            format!(
                "{:<20} {:>8} {:>10} {:>12} {:>10}",
                "a-name-longer-than-the-field", 12, "-", "FATAL", "-"
            ),
            String::new(),
        ]
    );
}

#[test]
fn a_session_shows_its_prompt_when_it_is_needed() {
    let mut shell = Shell::new();
    assert_eq!(shell.prompt(), Some("taskmaster> "));
    assert_eq!(shell.prompt(), None);
    assert!(matches!(shell.receive(Received::Timeout), ShellStep::Wait));
    assert_eq!(shell.prompt(), None);
    assert!(matches!(
        shell.receive(Received::Line("\n".to_string())),
        ShellStep::Show(lines) if lines.is_empty()
    ));
    assert_eq!(shell.prompt(), Some("taskmaster> "));
    assert!(matches!(shell.receive(Received::Disconnected), ShellStep::Leave));
}

#[test]
fn a_session_carries_out_its_lines() {
    let mut shell = Shell::new();
    assert!(matches!(
        shell.receive(Received::Line(" start web\n".to_string())),
        ShellStep::Carry(ShellCommand::Start(name)) if name == "web"
    ));
    assert!(matches!(
        shell.receive(Received::Line("status\n".to_string())),
        ShellStep::Carry(ShellCommand::Status)
    ));
    assert!(matches!(
        shell.receive(Received::Line("nonsense\n".to_string())),
        ShellStep::Show(lines) if lines == vec!["Invalid command. Type 'help' for usage."]
    ));
    assert!(matches!(
        shell.receive(Received::Line("help\n".to_string())),
        ShellStep::Show(lines) if lines == vec![help()]
    ));
    assert!(matches!(
        shell.receive(Received::Line("  history \n".to_string())),
        ShellStep::Show(lines) if lines == vec![
            "   1  start web", "   2  status", "   3  nonsense", "   4  help", "   5  history",
        ]
    ));
    assert!(matches!(
        shell.receive(Received::Line("exit\n".to_string())),
        ShellStep::Farewell("Shutting down...")
    ));
}

#[test]
fn the_history_holds_the_commands_that_were_entered() {
    for line in ["  start  web \n", "\tSTATUS", "nonsense x\n", " \u{a0}\n"] {
        assert_eq!(ShellCommand::parse(trim(line)), ShellCommand::parse(line));
    }
}

#[test]
fn signals_wake_a_session() {
    let mut shell = Shell::new();
    shell.prompt();
    let mut flags = SignalFlags::new();
    assert!(matches!(shell.wake(&mut flags), Wake::Idle));
    flags.handle_signal(SIGHUP);
    assert!(matches!(
        shell.wake(&mut flags),
        Wake::Reload("\nSIGHUP received. Reloading configuration...")
    ));
    assert_eq!(shell.prompt(), Some("taskmaster> "));
    flags.handle_signal(SIGHUP);
    flags.handle_signal(SIGTERM);
    assert!(matches!(shell.wake(&mut flags), Wake::Leave("\nShutdown signal received.")));
    assert!(matches!(shell.wake(&mut flags), Wake::Reload(_)));
    assert!(matches!(shell.wake(&mut flags), Wake::Idle));
}

#[test]
fn texts_are_what_users_see() {
    assert_eq!(welcome(), "Taskmaster control shell. Type 'help' for commands.");
    let lines: Vec<&str> = help().lines().collect();
    assert_eq!(lines.len(), 9);
    assert_eq!(lines[0], "Commands:");
    assert_eq!(lines[1], "  status                 Show every configured instance and its state");
    assert_eq!(lines[8], "  quit | exit             Stop all children and exit");
}
