use taskmaster::config::{
    is_known_signal, is_valid_signal, AutoRestart, Config, ConfigError, ConfigSource, Program,
    MAX_STARTRETRIES,
};
use taskmaster::names::NameMap;
use taskmaster::platform::Platform;

fn program(cmd: &str) -> Program {
    Program { cmd: cmd.to_string(), ..Program::default() }
}

fn config_of(entries: Vec<(&str, Program)>) -> Config {
    let mut config = Config::default();
    for (name, program) in entries {
        config.programs.insert(name.to_string(), program);
    }
    config
}

fn text_of(table: &toml::Table, field: &str) -> Option<String> {
    table.get(field).map(|value| value.as_str().expect("text").to_string())
}

fn number_of(table: &toml::Table, field: &str) -> Option<i64> {
    table.get(field).map(|value| value.as_integer().expect("number"))
}

/// The program that a table describes; what is not there is as in the defaults.
fn program_from(table: &toml::Table) -> Program {
    let standard = Program::default();
    Program {
        cmd: text_of(table, "cmd").unwrap_or(standard.cmd),
        numprocs: number_of(table, "numprocs").map_or(standard.numprocs, |n| n as usize),
        autostart: table
            .get("autostart")
            .map_or(standard.autostart, |value| value.as_bool().expect("flag")),
        autorestart: match text_of(table, "autorestart").as_deref() {
            Some("always") => AutoRestart::Always,
            Some("never") => AutoRestart::Never,
            Some("unexpected") => AutoRestart::Unexpected,
            Some(other) => panic!("unknown policy {}", other),
            None => standard.autorestart,
        },
        exitcodes: table.get("exitcodes").map_or(standard.exitcodes, |value| {
            let codes = value.as_array().expect("list");
            codes.iter().map(|code| code.as_integer().expect("number") as i32).collect()
        }),
        startretries: number_of(table, "startretries").map_or(standard.startretries, |n| n as u32),
        starttime: number_of(table, "starttime").map_or(standard.starttime, |n| n as u64),
        stopsignal: text_of(table, "stopsignal").or(standard.stopsignal),
        stoptime: number_of(table, "stoptime").map_or(standard.stoptime, |n| n as u64),
        stdout: text_of(table, "stdout"),
        stderr: text_of(table, "stderr"),
        log: text_of(table, "log"),
        env: table.get("env").map(|value| {
            let mut env = NameMap::new();
            for (name, value) in value.as_table().expect("table") {
                env.insert(name.clone(), value.as_str().expect("text").to_string());
            }
            env
        }),
        workingdir: text_of(table, "workingdir"),
        umask: number_of(table, "umask").map(|n| n as u32),
    }
}

fn read(text: &str) -> ConfigSource {
    let table = match text.parse::<toml::Table>() {
        Ok(table) => table,
        Err(error) => return ConfigSource::Unparsable(error.to_string()),
    };
    let mut config = Config::default();
    if let Some(programs) = table.get("programs") {
        for (name, program) in programs.as_table().expect("table") {
            let program = program_from(program.as_table().expect("table"));
            config.programs.insert(name.clone(), program);
        }
    }
    ConfigSource::Parsed(config)
}

fn load_text(text: &str) -> Result<Config, ConfigError> {
    Config::load_from_path(read(text), Platform::Linux)
}

fn load(config: Config) -> Result<Config, ConfigError> {
    Config::load_from_path(ConfigSource::Parsed(config), Platform::Linux)
}

fn problem(program: Program) -> String {
    match load(config_of(vec![("web", program)])) {
        Err(ConfigError::Validation(message)) => message,
        other => panic!("not a validation error: {:?}", other),
    }
}

#[test]
fn program_default_values_are_sane() {
    let program = Program::default();

    assert_eq!(program.numprocs, 1);
    assert!(!program.autostart);
    assert_eq!(program.autorestart, AutoRestart::Never);
    assert_eq!(program.exitcodes, vec![0]);
    assert_eq!(program.startretries, 0);
    assert_eq!(program.starttime, 1);
    assert_eq!(program.stoptime, 5);
    assert_eq!(program.stopsignal.as_deref(), Some("TERM"));
    assert!(program.stdout.is_none());
    assert!(program.stderr.is_none());
}

#[test]
fn program_defaults_leave_the_rest_open() {
    let program = Program::default();
    assert_eq!(program.cmd, "");
    assert!(program.log.is_none());
    assert!(program.env.is_none());
    assert!(program.workingdir.is_none());
    assert!(program.umask.is_none());
}

#[test]
fn parses_minimal_config_with_defaults() {
    let config = load_text(
        r#"
[programs.web]
cmd = "/bin/true"
"#,
    )
    .expect("config should parse");
    let program = config.programs.get("web").expect("missing program");

    assert_eq!(config.programs.len(), 1);
    assert_eq!(program.cmd, "/bin/true");
    assert_eq!(program.numprocs, 1);
    assert_eq!(program.autorestart, AutoRestart::Never);
    assert_eq!(program.exitcodes, vec![0]);
    assert_eq!(program.starttime, 1);
}

#[test]
fn parses_enum_and_maps_program_fields() {
    let config = load_text(
        r#"
[programs.api]
cmd = "/bin/echo hello"
numprocs = 3
autostart = true
autorestart = "unexpected"
exitcodes = [0, 2]
startretries = 4
starttime = 7
stopsignal = "TERM"
stoptime = 9
stdout = "/tmp/api.out"
stderr = "/tmp/api.err"
workingdir = "/tmp"
umask = 18

[programs.api.env]
RUST_LOG = "debug"
PORT = "8080"
"#,
    )
    .expect("config should parse");
    let program = config.programs.get("api").expect("missing program");

    assert_eq!(program.numprocs, 3);
    assert!(program.autostart);
    assert_eq!(program.autorestart, AutoRestart::Unexpected);
    assert_eq!(program.exitcodes, vec![0, 2]);
    assert_eq!(program.startretries, 4);
    assert_eq!(program.starttime, 7);
    assert_eq!(program.stopsignal.as_deref(), Some("TERM"));
    assert_eq!(program.stoptime, 9);
    assert_eq!(program.stdout.as_deref(), Some("/tmp/api.out"));
    assert_eq!(program.stderr.as_deref(), Some("/tmp/api.err"));
    assert_eq!(program.workingdir.as_deref(), Some("/tmp"));
    assert_eq!(program.umask, Some(18));
    assert_eq!(
        program.env.as_ref().and_then(|env| env.get("RUST_LOG")),
        Some(&"debug".to_string())
    );
    assert_eq!(
        program.env.as_ref().and_then(|env| env.get("PORT")),
        Some(&"8080".to_string())
    );
}

#[test]
fn accepts_zero_start_and_stop_times() {
    let config = load_text(
        r#"
[programs.oneshot]
cmd = "exit 0"
starttime = 0
stoptime = 0
"#,
    )
    .expect("zero times should be valid");
    let program = config.programs.get("oneshot").expect("missing program");
    assert_eq!(program.starttime, 0);
    assert_eq!(program.stoptime, 0);
}

#[test]
fn rejects_missing_programs() {
    let err = load_text("").expect_err("empty config should fail");
    assert!(matches!(err, ConfigError::Validation(_)));
    assert_eq!(err.message(), "Validation error: no programs defined");
}

#[test]
fn rejects_empty_command() {
    let err = load_text(
        r#"
[programs.web]
cmd = ""
"#,
    )
    .expect_err("empty cmd should fail");
    assert!(matches!(err, ConfigError::Validation(msg) if msg.contains("empty cmd")));
}

#[test]
fn rejects_blank_command() {
    assert_eq!(problem(program(" \t\u{a0}\u{3000}\n")), "program 'web' has empty cmd");
}

#[test]
fn rejects_zero_processes() {
    let none = Program { numprocs: 0, ..program("true") };
    assert_eq!(problem(none), "program 'web' numprocs must be >= 1");
}

#[test]
fn rejects_no_exit_codes() {
    let none = Program { exitcodes: vec![], ..program("true") };
    assert_eq!(problem(none), "program 'web' exitcodes must not be empty");
}

#[test]
fn rejects_unknown_stop_signals() {
    for name in ["NOPE", "0", "65", "-9", "SIG TERM", ""] {
        let odd = Program { stopsignal: Some(name.to_string()), ..program("true") };
        assert_eq!(problem(odd), format!("program 'web' has invalid stopsignal: {}", name));
    }
}

#[test]
fn rejects_too_many_retries() {
    let many = Program { startretries: MAX_STARTRETRIES + 1, ..program("true") };
    assert_eq!(problem(many), "program 'web' startretries too high (max 1000)");
    let most = Program { startretries: 1000, ..program("true") };
    assert!(load(config_of(vec![("web", most)])).is_ok());
}

#[test]
fn the_first_problem_counts() {
    let bad = Program { numprocs: 0, exitcodes: vec![], startretries: 2000, ..program("true") };
    assert_eq!(problem(bad), "program 'web' numprocs must be >= 1");
}

#[test]
fn unreadable_and_unparsable_files_are_told_apart() {
    let unreadable =
        Config::load_from_path(ConfigSource::Unreadable("gone".to_string()), Platform::Linux);
    assert_eq!(unreadable.expect_err("unreadable").message(), "IO error: gone");
    assert!(matches!(load_text("not = [toml"), Err(ConfigError::Parse(_))));
    let unparsable =
        Config::load_from_path(ConfigSource::Unparsable("odd".to_string()), Platform::Linux);
    assert_eq!(unparsable.expect_err("unparsable").message(), "TOML parse error: odd");
}

#[test]
fn signals_are_named_in_any_case_with_space_around() {
    let names =
        ["TERM", "sigterm", " Hup\t", "usr1", "SigUsr2", "KILL", "int", "quit", "1", "64", "+15"];
    for name in names {
        assert!(is_valid_signal(name, Platform::Linux), "{}", name);
    }
    for name in ["TERMINATE", "SIG", "65", "0", " 9", "9 "] {
        assert!(!is_valid_signal(name, Platform::Linux), "{}", name);
    }
    // The long s is an S in upper case.
    assert!(is_valid_signal("\u{17f}igterm", Platform::Linux));
    assert!(is_valid_signal("anything", Platform::Windows));
    assert!(is_known_signal("SIGQUIT"));
    assert!(!is_known_signal("sigquit"));
}

#[test]
fn programs_are_equal_when_their_fields_are() {
    let mut one = NameMap::new();
    one.insert("A".to_string(), "1".to_string());
    one.insert("B".to_string(), "2".to_string());
    let mut other = NameMap::new();
    other.insert("B".to_string(), "2".to_string());
    other.insert("A".to_string(), "1".to_string());
    let left = Program { env: Some(one), ..program("true") };
    let right = Program { env: Some(other), ..program("true") };
    assert!(left == right);
    assert!(left.clone() == left);
    let changed = Program { stoptime: 6, ..left.clone() };
    assert!(left != changed);
    assert!(left != program("true"));
}

#[test]
fn lists_follow_the_order_of_the_configuration() {
    let log = Program { log: Some("/tmp/b.log".to_string()), ..program("b") };
    let auto = Program { autostart: true, ..program("c") };
    let config = config_of(vec![("a", program("a")), ("b", log), ("c", auto)]);
    assert_eq!(config.program_list(), "a, b, c");
    assert_eq!(config.autostart_programs(), vec!["c".to_string()]);
    assert_eq!(config.log_files(), vec![("b".to_string(), "/tmp/b.log".to_string())]);
    let copy = config.clone();
    assert_eq!(copy.program_list(), "a, b, c");
    assert!(*copy.programs.get("b").expect("b") == *config.programs.get("b").expect("b"));
    assert_eq!(Config::default().program_list(), "");
}
