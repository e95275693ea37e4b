//! The lifecycle log: its lines, and the file that each line goes to.
use crate::names::NameMap;
use crate::numbers::{
    decimal, flush_right, push_decimal, push_flush_right, signed_decimal, to_decimal,
    to_signed_decimal,
};
use crate::text::opt_text;
use vstd::prelude::*;
use vstd::string::StringExecFns;

verus! {

/// What the supervisor records of the life of its processes.
#[derive(Debug)]
pub enum LogEvent {
    /// An instance was started.
    Start { program: String, id: usize, pid: Option<u32> },
    /// An instance was stopped, or rests after its exit.
    Stop { program: String, id: usize },
    /// An instance is started again.
    Restart { program: String, id: usize, reason: String },
    /// An instance died early, or exited in a way that is not expected.
    Crash { program: String, id: usize, exit_code: Option<i32> },
    /// An instance is given up.
    Fatal { program: String, id: usize, attempts: u32 },
    /// The configuration was reloaded.
    ConfigReload { source: Option<String> },
}

/// An event with its texts as sequences of characters.
pub ghost enum LogEventView {
    Start { program: Seq<char>, id: usize, pid: Option<u32> },
    Stop { program: Seq<char>, id: usize },
    Restart { program: Seq<char>, id: usize, reason: Seq<char> },
    Crash { program: Seq<char>, id: usize, exit_code: Option<i32> },
    Fatal { program: Seq<char>, id: usize, attempts: u32 },
    ConfigReload { source: Option<Seq<char>> },
}

impl View for LogEvent {
    type V = LogEventView;

    open spec fn view(&self) -> LogEventView {
        match *self {
            LogEvent::Start { program, id, pid } => LogEventView::Start {
                program: program@,
                id,
                pid,
            },
            LogEvent::Stop { program, id } => LogEventView::Stop { program: program@, id },
            LogEvent::Restart { program, id, reason } => LogEventView::Restart {
                program: program@,
                id,
                reason: reason@,
            },
            LogEvent::Crash { program, id, exit_code } => LogEventView::Crash {
                program: program@,
                id,
                exit_code,
            },
            LogEvent::Fatal { program, id, attempts } => LogEventView::Fatal {
                program: program@,
                id,
                attempts,
            },
            LogEvent::ConfigReload { source } => LogEventView::ConfigReload {
                source: opt_text(source),
            },
        }
    }
}

/// The events of a list.
pub open spec fn event_views(events: Seq<LogEvent>) -> Seq<LogEventView> {
    events.map_values(|event: LogEvent| event@)
}

impl LogEventView {
    /// The program that the event is about.
    pub open spec fn program(self) -> Option<Seq<char>> {
        match self {
            LogEventView::Start { program, .. } => Some(program),
            LogEventView::Stop { program, .. } => Some(program),
            LogEventView::Restart { program, .. } => Some(program),
            LogEventView::Crash { program, .. } => Some(program),
            LogEventView::Fatal { program, .. } => Some(program),
            LogEventView::ConfigReload { .. } => None,
        }
    }
}

/// The process number of a start, or a dash.
pub open spec fn pid_text(pid: Option<u32>) -> Seq<char> {
    match pid {
        Some(n) => decimal(n as nat),
        None => "-"@,
    }
}

/// The exit code of a crash, or the word for a death by a signal.
pub open spec fn exit_text(exit_code: Option<i32>) -> Seq<char> {
    match exit_code {
        Some(code) => signed_decimal(code as int),
        None => "signal"@,
    }
}

/// The line that records an event.
pub open spec fn log_line(event: LogEventView, stamp: Seq<char>) -> Seq<char> {
    match event {
        LogEventView::Start { program, id, pid } => "["@ + stamp + "] START program="@ + program
            + " id="@ + decimal(id as nat) + " pid="@ + pid_text(pid) + "\n"@,
        LogEventView::Stop { program, id } => "["@ + stamp + "] STOP program="@ + program + " id="@
            + decimal(id as nat) + "\n"@,
        LogEventView::Restart { program, id, reason } => "["@ + stamp + "] RESTART program="@
            + program + " id="@ + decimal(id as nat) + " reason="@ + reason + "\n"@,
        LogEventView::Crash { program, id, exit_code } => "["@ + stamp + "] CRASH program="@
            + program + " id="@ + decimal(id as nat) + " exit_code="@ + exit_text(exit_code)
            + "\n"@,
        LogEventView::Fatal { program, id, attempts } => "["@ + stamp + "] FATAL program="@
            + program + " id="@ + decimal(id as nat) + " attempts="@ + decimal(attempts as nat)
            + "\n"@,
        LogEventView::ConfigReload { source } => "["@ + stamp + "] CONFIG_RELOAD source="@ + (
        match source {
            Some(path) => path,
            None => "-"@,
        }) + "\n"@,
    }
}

/// A moment since the Unix epoch as the log shows it: the seconds, a point, the
/// milliseconds in three digits, and `Z`.
pub open spec fn stamp_text(secs: u64, millis: u32) -> Seq<char> {
    decimal(secs as nat) + "."@ + flush_right(decimal(millis as nat), 3, '0') + "Z"@
}

/// A moment since the Unix epoch as the log shows it.
pub fn timestamp(secs: u64, millis: u32) -> (stamp: String)
    ensures
        stamp@ == stamp_text(secs, millis),
{
    let mut stamp = to_decimal(secs as u128);
    stamp.append(".");
    let fraction = to_decimal(millis as u128);
    proof {
        reveal_strlit("0");
    }
    push_flush_right(&mut stamp, fraction.as_str(), 3, "0");
    stamp.append("Z");
    stamp
}

/// The start of a line about an instance.
pub(crate) fn line_head(stamp: &str, kind: &str, program: &String, id: usize) -> (head: String)
    ensures
        head@ == "["@ + stamp@ + kind@ + program@ + " id="@ + decimal(id as nat),
{
    let mut head = "[".to_string();
    head.append(stamp);
    head.append(kind);
    head.append(program.as_str());
    head.append(" id=");
    push_decimal(&mut head, id as u128);
    head
}

impl LogEvent {
    /// The program that the event is about.
    pub fn program(&self) -> (program: Option<&String>)
        ensures
            match program {
                Some(name) => self@.program() == Some(name@),
                None => self@.program() is None,
            },
    {
        match self {
            LogEvent::Start { program, .. } => Some(program),
            LogEvent::Stop { program, .. } => Some(program),
            LogEvent::Restart { program, .. } => Some(program),
            LogEvent::Crash { program, .. } => Some(program),
            LogEvent::Fatal { program, .. } => Some(program),
            LogEvent::ConfigReload { .. } => None,
        }
    }

    /// The line that records the event, under a time stamp.
    pub fn line(&self, stamp: &str) -> (line: String)
        ensures
            line@ == log_line(self@, stamp@),
    {
        let mut line: String;
        match self {
            LogEvent::Start { program, id, pid } => {
                line = line_head(stamp, "] START program=", program, *id);
                line.append(" pid=");
                match pid {
                    Some(n) => {
                        push_decimal(&mut line, *n as u128);
                    },
                    None => {
                        line.append("-");
                    },
                }
            },
            LogEvent::Stop { program, id } => {
                line = line_head(stamp, "] STOP program=", program, *id);
            },
            LogEvent::Restart { program, id, reason } => {
                line = line_head(stamp, "] RESTART program=", program, *id);
                line.append(" reason=");
                line.append(reason.as_str());
            },
            LogEvent::Crash { program, id, exit_code } => {
                line = line_head(stamp, "] CRASH program=", program, *id);
                line.append(" exit_code=");
                match exit_code {
                    Some(code) => {
                        line.append(to_signed_decimal(*code).as_str());
                    },
                    None => {
                        line.append("signal");
                    },
                }
            },
            LogEvent::Fatal { program, id, attempts } => {
                line = line_head(stamp, "] FATAL program=", program, *id);
                line.append(" attempts=");
                push_decimal(&mut line, *attempts as u128);
            },
            LogEvent::ConfigReload { source } => {
                line = "[".to_string();
                line.append(stamp);
                line.append("] CONFIG_RELOAD source=");
                match source {
                    Some(path) => {
                        line.append(path.as_str());
                    },
                    None => {
                        line.append("-");
                    },
                }
            },
        }
        line.append("\n");
        line
    }
}

/// Why an event has no line in any file, or a global log was refused.
#[derive(Debug, Clone, Copy, PartialEq, Eq, Structural)]
pub enum LogError {
    /// There is a global log already.
    AlreadyInitialized,
    /// There is neither a log of the program nor a global log.
    NoLogger,
}

impl LogError {
    /// The error as a message.
    pub open spec fn text(self) -> Seq<char> {
        match self {
            LogError::AlreadyInitialized => "global logger already initialized"@,
            LogError::NoLogger => "no logger registered for event"@,
        }
    }

    /// The error as a message.
    pub fn message(&self) -> (message: &'static str)
        ensures
            message@ == self.text(),
    {
        match self {
            LogError::AlreadyInitialized => "global logger already initialized",
            LogError::NoLogger => "no logger registered for event",
        }
    }
}

/// A line and the open file that it goes to.
#[derive(Debug)]
pub struct LogEntry {
    /// The handle of the file.
    pub file: u64,
    /// The line.
    pub line: String,
}

/// The open log files, each known by a handle that the caller chose.
#[derive(Debug)]
pub struct Loggers {
    programs: NameMap<u64>,
    global: Option<u64>,
}

/// The open log files: those of programs, and the global one.
pub ghost struct LoggersView {
    pub programs: Map<Seq<char>, u64>,
    pub global: Option<u64>,
}

impl LoggersView {
    /// The file that an event about `program`, or about none, goes to.
    pub open spec fn route(self, program: Option<Seq<char>>) -> Option<u64> {
        if program is Some && self.programs.contains_key(program->0) {
            Some(self.programs[program->0])
        } else {
            self.global
        }
    }

    /// The files after `program` was given a log of its own.
    pub open spec fn with_program(self, program: Seq<char>, file: u64) -> LoggersView {
        LoggersView { programs: self.programs.insert(program, file), ..self }
    }

    /// The files after the log of `program` was taken away.
    pub open spec fn without_program(self, program: Seq<char>) -> LoggersView {
        LoggersView { programs: self.programs.remove(program), ..self }
    }
}

impl View for Loggers {
    type V = LoggersView;

    closed spec fn view(&self) -> LoggersView {
        LoggersView { programs: self.programs.map(), global: self.global }
    }
}

impl Loggers {
    /// No open log file.
    pub fn new() -> (loggers: Self)
        ensures
            loggers@ == (LoggersView { programs: Map::empty(), global: None }),
    {
        Loggers { programs: NameMap::new(), global: None }
    }

    /// Makes `file` the global log, unless there is one.
    pub fn init_global(&mut self, file: u64) -> (done: Result<(), LogError>)
        ensures
            match old(self)@.global {
                None => {
                    &&& done == Ok::<(), LogError>(())
                    &&& final(self)@ == (LoggersView { global: Some(file), ..old(self)@ })
                },
                Some(_) => {
                    &&& done == Err::<(), LogError>(LogError::AlreadyInitialized)
                    &&& final(self)@ == old(self)@
                },
            },
    {
        match self.global {
            Some(_) => Err(LogError::AlreadyInitialized),
            None => {
                self.global = Some(file);
                Ok(())
            },
        }
    }

    /// Makes `file` the log of `program`, and returns the file that was so before.
    pub fn register(&mut self, program: &str, file: u64) -> (previous: Option<u64>)
        ensures
            final(self)@ == old(self)@.with_program(program@, file),
            previous == if old(self)@.programs.contains_key(program@) {
                Some(old(self)@.programs[program@])
            } else {
                None
            },
    {
        self.programs.insert(program.to_string(), file)
    }

    /// Takes the log of `program` away, and returns the file that was so before.
    pub fn unregister(&mut self, program: &str) -> (previous: Option<u64>)
        ensures
            final(self)@ == old(self)@.without_program(program@),
            previous == if old(self)@.programs.contains_key(program@) {
                Some(old(self)@.programs[program@])
            } else {
                None
            },
    {
        self.programs.remove(program)
    }

    /// The line of an event and the file that it goes to: the log of the event's
    /// program where there is one, else the global log. The moment is given as
    /// seconds and milliseconds since the Unix epoch.
    pub fn log(&self, event: &LogEvent, secs: u64, millis: u32) -> (entry: Result<
        LogEntry,
        LogError,
    >)
        ensures
            match self@.route(event@.program()) {
                Some(file) => {
                    &&& entry is Ok
                    &&& entry->Ok_0.file == file
                    &&& entry->Ok_0.line@ == log_line(event@, stamp_text(secs, millis))
                },
                None => entry == Err::<LogEntry, LogError>(LogError::NoLogger),
            },
    {
        let stamp = timestamp(secs, millis);
        let line = event.line(stamp.as_str());
        if let Some(program) = event.program() {
            if let Some(file) = self.programs.get(program.as_str()) {
                return Ok(LogEntry { file: *file, line });
            }
        }
        match self.global {
            Some(file) => Ok(LogEntry { file, line }),
            None => Err(LogError::NoLogger),
        }
    }
}

/// After a program was given a log of its own, its events go there, and the
/// events of every other program, and those of none, go where they went before.
pub proof fn registered_events_go_to_their_log(
    loggers: LoggersView,
    program: Seq<char>,
    file: u64,
    other: Option<Seq<char>>,
)
    ensures
        loggers.with_program(program, file).route(Some(program)) == Some(file),
        other != Some(program) ==> loggers.with_program(program, file).route(other)
            == loggers.route(other),
{
}

/// After the log of a program was taken away, its events go to the global log,
/// and the events of every other program, and those of none, go where they went before.
pub proof fn unregistered_events_go_to_the_global_log(
    loggers: LoggersView,
    program: Seq<char>,
    other: Option<Seq<char>>,
)
    ensures
        loggers.without_program(program).route(Some(program)) == loggers.global,
        other != Some(program) ==> loggers.without_program(program).route(other) == loggers.route(
            other,
        ),
{
}

} // verus!
