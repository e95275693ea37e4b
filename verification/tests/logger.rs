use taskmaster::logger::{timestamp, LogError, LogEvent, Loggers};
use taskmaster::single_log::{self, SingleLog, SingleLogError, FIRST_SECOND, LAST_SECOND};

fn start() -> LogEvent {
    LogEvent::Start { program: "web".to_string(), id: 0, pid: Some(42) }
}

#[test]
fn every_event_has_its_line() {
    let web = || "web".to_string();
    let lines = vec![
        (start(), "[7.005Z] START program=web id=0 pid=42\n"),
        (
            LogEvent::Start { program: web(), id: 3, pid: None },
            "[7.005Z] START program=web id=3 pid=-\n",
        ),
        (LogEvent::Stop { program: web(), id: 1 }, "[7.005Z] STOP program=web id=1\n"),
        (
            LogEvent::Restart { program: web(), id: 1, reason: "because".to_string() },
            "[7.005Z] RESTART program=web id=1 reason=because\n",
        ),
        (
            LogEvent::Crash { program: web(), id: 2, exit_code: Some(-7) },
            "[7.005Z] CRASH program=web id=2 exit_code=-7\n",
        ),
        (
            LogEvent::Crash { program: web(), id: 2, exit_code: None },
            "[7.005Z] CRASH program=web id=2 exit_code=signal\n",
        ),
        (
            LogEvent::Fatal { program: web(), id: 10, attempts: 4 },
            "[7.005Z] FATAL program=web id=10 attempts=4\n",
        ),
        (
            LogEvent::ConfigReload { source: Some("/etc/t.toml".to_string()) },
            "[7.005Z] CONFIG_RELOAD source=/etc/t.toml\n",
        ),
        (LogEvent::ConfigReload { source: None }, "[7.005Z] CONFIG_RELOAD source=-\n"),
    ];
    for (event, line) in lines {
        assert_eq!(event.line("7.005Z"), line);
    }
}

#[test]
fn time_stamps_have_three_digits_of_milliseconds() {
    assert_eq!(timestamp(0, 0), "0.000Z");
    assert_eq!(timestamp(1_700_000_000, 7), "1700000000.007Z");
    assert_eq!(timestamp(u64::MAX, 999), "18446744073709551615.999Z");
}

#[test]
fn events_go_to_the_log_of_their_program_or_the_global_one() {
    let mut loggers = Loggers::new();
    assert!(matches!(loggers.log(&start(), 1, 2), Err(LogError::NoLogger)));
    assert_eq!(LogError::NoLogger.message(), "no logger registered for event");

    assert!(loggers.init_global(1).is_ok());
    assert!(matches!(loggers.init_global(2), Err(LogError::AlreadyInitialized)));
    assert_eq!(LogError::AlreadyInitialized.message(), "global logger already initialized");
    assert_eq!(loggers.log(&start(), 1, 2).expect("global").file, 1);

    assert_eq!(loggers.register("web", 5), None);
    let entry = loggers.log(&start(), 1, 2).expect("own");
    assert_eq!(entry.file, 5);
    assert_eq!(entry.line, "[1.002Z] START program=web id=0 pid=42\n");
    let other = LogEvent::Stop { program: "api".to_string(), id: 0 };
    assert_eq!(loggers.log(&other, 1, 2).expect("global").file, 1);
    let reload = LogEvent::ConfigReload { source: None };
    assert_eq!(loggers.log(&reload, 1, 2).expect("global").file, 1);

    assert_eq!(loggers.register("web", 6), Some(5));
    assert_eq!(loggers.log(&start(), 1, 2).expect("own").file, 6);
    assert_eq!(loggers.unregister("web"), Some(6));
    assert_eq!(loggers.unregister("web"), None);
    assert_eq!(loggers.log(&start(), 1, 2).expect("global").file, 1);
}

#[test]
fn the_single_log_stamps_in_the_form_of_rfc_3339() {
    let mut log = SingleLog::new();
    let event = single_log::LogEvent::Start { program: "web".to_string(), id: 0, pid: Some(42) };
    assert!(matches!(log.log(&event, 0, 0), Err(SingleLogError::NotInitialized)));
    assert!(log.init(3).is_ok());
    assert!(matches!(log.init(4), Err(SingleLogError::AlreadyInitialized)));
    let (file, line) = log.log(&event, 1_700_000_000, 5_000_000).expect("line");
    assert_eq!(file, 3);
    assert_eq!(line, "[2023-11-14T22:13:20.005+00:00] START program=web id=0 pid=42\n");
    let (_, line) = log.log(&event, 0, 0).expect("line");
    assert_eq!(line, "[1970-01-01T00:00:00+00:00] START program=web id=0 pid=42\n");
    assert!(log.log(&event, LAST_SECOND, 999_999_999).is_ok());
    assert!(log.log(&event, LAST_SECOND, 1_999_999_999).is_ok());
    assert!(log.log(&event, FIRST_SECOND, 0).is_ok());
    assert!(matches!(log.log(&event, LAST_SECOND + 1, 0), Err(SingleLogError::NoStamp)));
    assert!(matches!(log.log(&event, FIRST_SECOND - 1, 0), Err(SingleLogError::NoStamp)));
    assert!(matches!(log.log(&event, i64::MIN, 0), Err(SingleLogError::NoStamp)));
    assert!(log.log(&event, -1, 1_500_000_000).is_ok());
    assert!(matches!(log.log(&event, 0, 1_000_000_000), Err(SingleLogError::NoStamp)));
    assert!(matches!(log.log(&event, 59, 2_000_000_000), Err(SingleLogError::NoStamp)));
    let (_, line) = log.log(&event, 253402300800, 0).expect("line");
    assert_eq!(line, "[+10000-01-01T00:00:00+00:00] START program=web id=0 pid=42\n");
    assert!(matches!(log.log(&event, i64::MAX, 0), Err(SingleLogError::NoStamp)));
    assert_eq!(SingleLogError::NotInitialized.message(), "logger not initialized");
    assert_eq!(SingleLogError::AlreadyInitialized.message(), "logger already initialized");
    assert_eq!(SingleLogError::NoStamp.message(), "no time stamp for this moment");
}

#[test]
fn the_single_log_writes_a_dash_for_what_is_not_known() {
    let web = || "web".to_string();
    let crash = single_log::LogEvent::Crash { program: web(), id: 1, exit_code: None };
    assert_eq!(crash.line("t"), "[t] CRASH program=web id=1 exit_code=-\n");
    let crash = single_log::LogEvent::Crash { program: web(), id: 1, exit_code: Some(-1) };
    assert_eq!(crash.line("t"), "[t] CRASH program=web id=1 exit_code=-1\n");
    let start = single_log::LogEvent::Start { program: web(), id: 1, pid: None };
    assert_eq!(start.line("t"), "[t] START program=web id=1 pid=-\n");
    let stop = single_log::LogEvent::Stop { program: web(), id: 1 };
    assert_eq!(stop.line("t"), "[t] STOP program=web id=1\n");
    let restart =
        single_log::LogEvent::Restart { program: web(), id: 1, reason: "r".to_string() };
    assert_eq!(restart.line("t"), "[t] RESTART program=web id=1 reason=r\n");
    let reload = single_log::LogEvent::ConfigReload { source: None };
    assert_eq!(reload.line("t"), "[t] CONFIG_RELOAD source=-\n");
}
