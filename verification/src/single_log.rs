//! A lifecycle log in one file, with time stamps in the form of RFC 3339.
use crate::logger::line_head;
use crate::numbers::{decimal, push_decimal, signed_decimal, to_signed_decimal};
use crate::text::opt_text;
use vstd::prelude::*;
use vstd::string::StringExecFns;

verus! {

/// What the log records of the life of processes.
#[derive(Debug)]
pub enum LogEvent {
    /// An instance was started.
    Start { program: String, id: usize, pid: Option<u32> },
    /// An instance was stopped.
    Stop { program: String, id: usize },
    /// An instance is started again.
    Restart { program: String, id: usize, reason: String },
    /// An instance died.
    Crash { program: String, id: usize, exit_code: Option<i32> },
    /// The configuration was reloaded.
    ConfigReload { source: Option<String> },
}

/// A number in decimal, or a dash.
pub open spec fn number_text(number: Option<int>) -> Seq<char> {
    match number {
        Some(n) => signed_decimal(n),
        None => "-"@,
    }
}

/// The line that records an event under a time stamp.
pub open spec fn event_line(event: LogEvent, stamp: Seq<char>) -> Seq<char> {
    match event {
        LogEvent::Start { program, id, pid } => "["@ + stamp + "] START program="@ + program@
            + " id="@ + decimal(id as nat) + " pid="@ + number_text(
            match pid {
                Some(n) => Some(n as int),
                None => None,
            },
        ) + "\n"@,
        LogEvent::Stop { program, id } => "["@ + stamp + "] STOP program="@ + program@ + " id="@
            + decimal(id as nat) + "\n"@,
        LogEvent::Restart { program, id, reason } => "["@ + stamp + "] RESTART program="@ + program@
            + " id="@ + decimal(id as nat) + " reason="@ + reason@ + "\n"@,
        LogEvent::Crash { program, id, exit_code } => "["@ + stamp + "] CRASH program="@ + program@
            + " id="@ + decimal(id as nat) + " exit_code="@ + number_text(
            match exit_code {
                Some(n) => Some(n as int),
                None => None,
            },
        ) + "\n"@,
        LogEvent::ConfigReload { source } => "["@ + stamp + "] CONFIG_RELOAD source="@ + (
        match opt_text(source) {
            Some(path) => path,
            None => "-"@,
        }) + "\n"@,
    }
}

impl LogEvent {
    /// The line that records the event, under a time stamp.
    pub fn line(&self, stamp: &str) -> (line: String)
        ensures
            line@ == event_line(*self, stamp@),
    {
        let mut line: String;
        match self {
            LogEvent::Start { program, id, pid } => {
                line = line_head(stamp, "] START program=", program, *id);
                line.append(" pid=");
                match pid {
                    Some(n) => {
                        push_decimal(&mut line, *n as u128);
                    },
                    None => {
                        line.append("-");
                    },
                }
            },
            LogEvent::Stop { program, id } => {
                line = line_head(stamp, "] STOP program=", program, *id);
            },
            LogEvent::Restart { program, id, reason } => {
                line = line_head(stamp, "] RESTART program=", program, *id);
                line.append(" reason=");
                line.append(reason.as_str());
            },
            LogEvent::Crash { program, id, exit_code } => {
                line = line_head(stamp, "] CRASH program=", program, *id);
                line.append(" exit_code=");
                match exit_code {
                    Some(code) => {
                        line.append(to_signed_decimal(*code).as_str());
                    },
                    None => {
                        line.append("-");
                    },
                }
            },
            LogEvent::ConfigReload { source } => {
                line = "[".to_string();
                line.append(stamp);
                line.append("] CONFIG_RELOAD source=");
                match source {
                    Some(path) => {
                        line.append(path.as_str());
                    },
                    None => {
                        line.append("-");
                    },
                }
            },
        }
        line.append("\n");
        line
    }
}

/// The text that `chrono::DateTime::to_rfc3339` gives for the UTC moment that lies
/// `secs` seconds and `nanos` nanoseconds after the Unix epoch; none where
/// `chrono::DateTime::from_timestamp` knows no such moment.
pub uninterp spec fn rfc3339(secs: i64, nanos: u32) -> Option<Seq<char>>;

/// The first second that `chrono` knows, that of the year -262143, counted from the
/// Unix epoch.
pub const FIRST_SECOND: i64 = -8334601228800;

/// The last second that `chrono` knows, that of the year 262142, counted from the Unix
/// epoch.
pub const LAST_SECOND: i64 = 8210266876799;

/// Whether a moment has a time stamp: it lies in the years that `chrono` knows, and its
/// nanoseconds are less than a second, or less than two in the last second of a minute,
/// where they tell of a leap second.
pub open spec fn has_stamp(secs: i64, nanos: u32) -> bool {
    &&& FIRST_SECOND <= secs <= LAST_SECOND
    &&& nanos < 1_000_000_000 || (nanos < 2_000_000_000 && secs % 60 == 59)
}

/// Writes a moment down through `chrono::DateTime::to_rfc3339`, after
/// `chrono::DateTime::from_timestamp` has made the moment out of the seconds and
/// nanoseconds since the Unix epoch. The result is named `rfc3339`. There is a text
/// exactly for the moments of `has_stamp`; what the text looks like is not said.
#[verifier::external_body]
fn timestamp(secs: i64, nanos: u32) -> (stamp: Option<String>)
    ensures
        opt_text(stamp) == rfc3339(secs, nanos),
        stamp is Some <==> has_stamp(secs, nanos),
{
    match chrono::DateTime::from_timestamp(secs, nanos) {
        Some(moment) => Some(moment.to_rfc3339()),
        None => None,
    }
}

/// Why an event was not recorded, or a file was refused.
#[derive(Debug, Clone, Copy, PartialEq, Eq, Structural)]
pub enum SingleLogError {
    /// There is a file already.
    AlreadyInitialized,
    /// There is no file.
    NotInitialized,
    /// The moment has no time stamp.
    NoStamp,
}

impl SingleLogError {
    /// The error as a message.
    pub fn message(&self) -> (message: &'static str)
        ensures
            message@ == match *self {
                SingleLogError::AlreadyInitialized => "logger already initialized"@,
                SingleLogError::NotInitialized => "logger not initialized"@,
                SingleLogError::NoStamp => "no time stamp for this moment"@,
            },
    {
        match self {
            SingleLogError::AlreadyInitialized => "logger already initialized",
            SingleLogError::NotInitialized => "logger not initialized",
            SingleLogError::NoStamp => "no time stamp for this moment",
        }
    }
}

/// A log in one file, which is known by a handle that the caller chose.
#[derive(Debug)]
pub struct SingleLog {
    /// The handle of the file.
    pub file: Option<u64>,
}

impl SingleLog {
    /// A log that has no file yet.
    pub fn new() -> (log: Self)
        ensures
            log.file is None,
    {
        SingleLog { file: None }
    }

    /// Makes `file` the file of the log, unless there is one.
    pub fn init(&mut self, file: u64) -> (done: Result<(), SingleLogError>)
        ensures
            match old(self).file {
                None => done == Ok::<(), SingleLogError>(()) && final(self).file == Some(file),
                Some(_) => {
                    &&& done == Err::<(), SingleLogError>(SingleLogError::AlreadyInitialized)
                    &&& final(self).file == old(self).file
                },
            },
    {
        match self.file {
            Some(_) => Err(SingleLogError::AlreadyInitialized),
            None => {
                self.file = Some(file);
                Ok(())
            },
        }
    }

    /// The file of the log and the line of an event. The moment is given as
    /// seconds and nanoseconds since the Unix epoch.
    pub fn log(&self, event: &LogEvent, secs: i64, nanos: u32) -> (entry: Result<
        (u64, String),
        SingleLogError,
    >)
        ensures
            match (self.file, rfc3339(secs, nanos)) {
                (Some(file), Some(stamp)) => {
                    &&& entry is Ok
                    &&& entry->Ok_0.0 == file
                    &&& entry->Ok_0.1@ == event_line(*event, stamp)
                },
                (Some(_), None) => entry == Err::<(u64, String), SingleLogError>(
                    SingleLogError::NoStamp,
                ),
                (None, _) => entry == Err::<(u64, String), SingleLogError>(
                    SingleLogError::NotInitialized,
                ),
            },
            self.file is Some ==> (entry is Ok <==> has_stamp(secs, nanos)),
    {
        match self.file {
            Some(file) => {
                match timestamp(secs, nanos) {
                    Some(stamp) => Ok((file, event.line(stamp.as_str()))),
                    None => Err(SingleLogError::NoStamp),
                }
            },
            None => Err(SingleLogError::NotInitialized),
        }
    }
}

} // verus!
