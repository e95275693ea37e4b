//! One supervised process: how it is launched, watched and stopped.
use crate::config::{
    copy_env, opt_env_texts, program_problem, valid_signal, Program, ProgramView,
};
use crate::logger::{LogEvent, LogEventView};
use crate::names::{string_texts, NameMap};
use crate::numbers::{parse_i32, parsed_i32};
use crate::platform::{null_device, null_device_path, Platform};
use crate::text::{
    all_ascii, ascii_uppercase, join3, opt_copy, opt_text, same_text, split_whitespace,
    texts, trim, trimmed, uppercase, words,
};
use vstd::prelude::*;

verus! {

/// The number of `SIGKILL`.
pub const SIGKILL: i32 = 9;

/// The nanoseconds of a second.
pub const NANOS_PER_SEC: u128 = 1_000_000_000;

/// Why an operation on a process failed.
#[derive(Debug)]
pub enum ProcessError {
    /// The system refused it.
    Io(String),
    /// It was not possible as asked.
    Spawn(String),
}

/// An error with its text as a sequence of characters.
pub ghost enum ProcessErrorView {
    Io(Seq<char>),
    Spawn(Seq<char>),
}

impl View for ProcessError {
    type V = ProcessErrorView;

    open spec fn view(&self) -> ProcessErrorView {
        match *self {
            ProcessError::Io(text) => ProcessErrorView::Io(text@),
            ProcessError::Spawn(text) => ProcessErrorView::Spawn(text@),
        }
    }
}

impl ProcessErrorView {
    /// The error as a message.
    pub open spec fn text(self) -> Seq<char> {
        match self {
            ProcessErrorView::Io(text) => text,
            ProcessErrorView::Spawn(text) => text,
        }
    }
}

impl ProcessError {
    /// The error as a message.
    pub fn message(&self) -> (message: &String)
        ensures
            message@ == self@.text(),
    {
        match self {
            ProcessError::Io(text) => text,
            ProcessError::Spawn(text) => text,
        }
    }
}

/// What a look at an instance shows.
#[derive(Debug, Clone, Copy, PartialEq, Eq, Structural)]
pub enum ProcessPoll {
    /// Its process runs.
    Running,
    /// Its process has exited; a death by a signal leaves no exit code.
    Exited(Option<i32>),
    /// It has no process.
    Stopped,
}

/// What the system answers when it is asked, without blocking, for the end of a process.
#[derive(Debug)]
pub enum Waited {
    /// The process runs.
    Running,
    /// The process has exited; a death by a signal leaves no exit code.
    Exited(Option<i32>),
    /// The system could not tell.
    Failed(ProcessError),
}

/// The nanoseconds from `started` to `now`; none where `now` is the earlier one.
pub open spec fn elapsed_nanos(started: u128, now: u128) -> int {
    if now >= started {
        now - started
    } else {
        0
    }
}

/// Whether at least `secs` seconds lie between `started` and `now`.
pub open spec fn has_lasted(started: u128, now: u128, secs: u64) -> bool {
    elapsed_nanos(started, now) >= secs * NANOS_PER_SEC
}

/// The nanoseconds from `started` to `now`; none where `now` is the earlier one.
pub fn elapsed(started: u128, now: u128) -> (nanos: u128)
    ensures
        nanos == elapsed_nanos(started, now),
{
    if now >= started {
        now - started
    } else {
        0
    }
}

/// Whether at least `secs` seconds lie between `started` and `now`.
pub fn lasted(started: u128, now: u128, secs: u64) -> (reached: bool)
    ensures
        reached == has_lasted(started, now, secs),
{
    proof {
        assert(secs * NANOS_PER_SEC <= u128::MAX) by (nonlinear_arith)
            requires
                secs <= u64::MAX,
                NANOS_PER_SEC == 1_000_000_000,
        ;
    }
    elapsed(started, now) >= secs as u128 * NANOS_PER_SEC
}

/// The number of the signal that an upper-case name stands for.
pub open spec fn signal_number(upper: Seq<char>, platform: Platform) -> Option<int> {
    if upper == "SIGHUP"@ || upper == "HUP"@ {
        Some(1)
    } else if upper == "SIGINT"@ || upper == "INT"@ {
        Some(2)
    } else if upper == "SIGQUIT"@ || upper == "QUIT"@ {
        Some(3)
    } else if upper == "SIGKILL"@ || upper == "KILL"@ {
        Some(9)
    } else if upper == "SIGUSR1"@ || upper == "USR1"@ {
        Some(platform.usr1())
    } else if upper == "SIGTERM"@ || upper == "TERM"@ {
        Some(15)
    } else if upper == "SIGUSR2"@ || upper == "USR2"@ {
        Some(platform.usr2())
    } else {
        None
    }
}

/// The number of the signal that an upper-case name stands for.
pub fn signal_by_name(upper: &str, platform: Platform) -> (signal: Option<i32>)
    ensures
        match signal {
            Some(n) => signal_number(upper@, platform) == Some(n as int),
            None => signal_number(upper@, platform) is None,
        },
{
    if same_text(upper, "SIGHUP") || same_text(upper, "HUP") {
        Some(1)
    } else if same_text(upper, "SIGINT") || same_text(upper, "INT") {
        Some(2)
    } else if same_text(upper, "SIGQUIT") || same_text(upper, "QUIT") {
        Some(3)
    } else if same_text(upper, "SIGKILL") || same_text(upper, "KILL") {
        Some(SIGKILL)
    } else if same_text(upper, "SIGUSR1") || same_text(upper, "USR1") {
        Some(platform.sigusr1())
    } else if same_text(upper, "SIGTERM") || same_text(upper, "TERM") {
        Some(15)
    } else if same_text(upper, "SIGUSR2") || same_text(upper, "USR2") {
        Some(platform.sigusr2())
    } else {
        None
    }
}

/// The number of the signal that a name or a positive number stands for.
pub open spec fn mapped_signal(name: Seq<char>, platform: Platform) -> Option<int> {
    match parsed_i32(name) {
        Some(n) => if n > 0 {
            Some(n)
        } else {
            None
        },
        None => signal_number(uppercase(trimmed(name)), platform),
    }
}

/// The number of the signal that a name, in any case and with white space around
/// it, or a positive number stands for.
pub fn map_signal_name(name: &str, platform: Platform) -> (signal: Result<i32, ()>)
    ensures
        match signal {
            Ok(n) => mapped_signal(name@, platform) == Some(n as int),
            Err(_) => mapped_signal(name@, platform) is None,
        },
        parsed_i32(name@) is None && all_ascii(trimmed(name@)) ==> match signal {
            Ok(n) => signal_number(ascii_uppercase(trimmed(name@)), platform) == Some(n as int),
            Err(_) => signal_number(ascii_uppercase(trimmed(name@)), platform) is None,
        },
{
    match parse_i32(name) {
        Some(number) => {
            if number > 0 {
                Ok(number)
            } else {
                Err(())
            }
        },
        None => {
            let upper = trim(name).to_uppercase();
            match signal_by_name(upper.as_str(), platform) {
                Some(number) => Ok(number),
                None => Err(()),
            }
        },
    }
}

/// The stop signals that a configuration may name are the names and numbers of the
/// signals from 1 to 64.
pub proof fn valid_signals_are_mapped(name: Seq<char>, platform: Platform)
    requires
        platform.unix(),
    ensures
        valid_signal(name, platform) <==> (mapped_signal(name, platform) is Some && 0
            < mapped_signal(name, platform)->0 < 65),
{
}

/// Where an output of a process goes.
#[derive(Debug)]
pub enum OutputTarget {
    /// It is appended to the file at this path, which is made where there is none.
    Append(String),
    /// It is written to the device at this path, which discards it.
    Discard(String),
}

/// An output target with its path as a sequence of characters.
pub ghost enum OutputTargetView {
    Append(Seq<char>),
    Discard(Seq<char>),
}

impl View for OutputTarget {
    type V = OutputTargetView;

    open spec fn view(&self) -> OutputTargetView {
        match *self {
            OutputTarget::Append(path) => OutputTargetView::Append(path@),
            OutputTarget::Discard(path) => OutputTargetView::Discard(path@),
        }
    }
}

/// Where an output with this configured path goes.
pub open spec fn target_of(path: Option<Seq<char>>, platform: Platform) -> OutputTargetView {
    match path {
        Some(path) => OutputTargetView::Append(path),
        None => OutputTargetView::Discard(null_device(platform)),
    }
}

/// Where an output with this configured path goes: to the end of that file, or,
/// without a path, nowhere.
pub fn output_target(path: &Option<String>, platform: Platform) -> (target: OutputTarget)
    ensures
        target@ == target_of(opt_text(*path), platform),
{
    match path {
        Some(path) => OutputTarget::Append(path.clone()),
        None => OutputTarget::Discard(null_device_path(platform).to_string()),
    }
}

/// An executable and its arguments.
#[derive(Debug)]
pub struct CommandLine {
    /// The executable.
    pub executable: String,
    /// Its arguments.
    pub args: Vec<String>,
}

/// A command line with its texts as sequences of characters.
pub ghost struct CommandLineView {
    pub executable: Seq<char>,
    pub args: Seq<Seq<char>>,
}

impl View for CommandLine {
    type V = CommandLineView;

    open spec fn view(&self) -> CommandLineView {
        CommandLineView { executable: self.executable@, args: string_texts(self.args@) }
    }
}

/// How a configured command is run: by the shell of the system, or, where there is
/// none, as its first word with the other words for arguments.
pub open spec fn command_of(cmd: Seq<char>, platform: Platform) -> Result<
    CommandLineView,
    ProcessErrorView,
> {
    if platform.unix() {
        Ok(CommandLineView { executable: "/bin/sh"@, args: seq!["-c"@, cmd] })
    } else if platform is Windows {
        Ok(CommandLineView { executable: "cmd.exe"@, args: seq!["/S"@, "/C"@, cmd] })
    } else if words(cmd).len() > 0 {
        Ok(CommandLineView { executable: words(cmd)[0], args: words(cmd).drop_first() })
    } else {
        Err(ProcessErrorView::Spawn("empty cmd"@))
    }
}

/// How a configured command is run.
pub fn command_line(cmd: &String, platform: Platform) -> (command: Result<
    CommandLine,
    ProcessError,
>)
    ensures
        match command {
            Ok(line) => command_of(cmd@, platform) == Ok::<CommandLineView, ProcessErrorView>(
                line@,
            ),
            Err(error) => command_of(cmd@, platform) == Err::<CommandLineView, ProcessErrorView>(
                error@,
            ),
        },
{
    if platform.is_unix() {
        let mut args: Vec<String> = Vec::new();
        args.push("-c".to_string());
        args.push(cmd.clone());
        proof {
            assert(string_texts(args@) =~= seq!["-c"@, cmd@]);
        }
        return Ok(CommandLine { executable: "/bin/sh".to_string(), args });
    }
    match platform {
        Platform::Windows => {
            let mut args: Vec<String> = Vec::new();
            args.push("/S".to_string());
            args.push("/C".to_string());
            args.push(cmd.clone());
            proof {
                assert(string_texts(args@) =~= seq!["/S"@, "/C"@, cmd@]);
            }
            Ok(CommandLine { executable: "cmd.exe".to_string(), args })
        },
        _ => {
            let parts = split_whitespace(cmd.as_str());
            proof {
                assert(texts(parts@).len() == parts@.len());
            }
            if parts.len() == 0 {
                return Err(ProcessError::Spawn("empty cmd".to_string()));
            }
            let mut args: Vec<String> = Vec::new();
            for i in 1..parts.len()
                invariant
                    1 <= i <= parts@.len(),
                    string_texts(args@) == texts(parts@).subrange(1, i as int),
            {
                let ghost before = args@;
                args.push(parts[i].to_string());
                proof {
                    assert(string_texts(args@) =~= string_texts(before).push(parts@[i as int]@));
                    assert(texts(parts@).subrange(1, i + 1) =~= texts(parts@).subrange(
                        1,
                        i as int,
                    ).push(parts@[i as int]@));
                }
            }
            proof {
                assert(texts(parts@).subrange(1, parts@.len() as int) =~= texts(
                    parts@,
                ).drop_first());
            }
            Ok(CommandLine { executable: parts[0].to_string(), args })
        },
    }
}

/// Everything that the system must be told to launch an instance. The outputs are
/// opened first, then the command line is looked at.
#[derive(Debug)]
pub struct SpawnPlan {
    /// Where standard output goes.
    pub stdout: OutputTarget,
    /// Where standard error goes.
    pub stderr: OutputTarget,
    /// The command line, or why there is none.
    pub command: Result<CommandLine, ProcessError>,
    /// The working directory.
    pub workingdir: Option<String>,
    /// Environment variables to set.
    pub env: Option<NameMap<String>>,
    /// Whether the process leads a process group of its own.
    pub new_group: bool,
    /// The file mode creation mask.
    pub umask: Option<u32>,
}

/// A plan with its texts as sequences of characters.
pub ghost struct SpawnPlanView {
    pub stdout: OutputTargetView,
    pub stderr: OutputTargetView,
    pub command: Result<CommandLineView, ProcessErrorView>,
    pub workingdir: Option<Seq<char>>,
    pub env: Option<Map<Seq<char>, Seq<char>>>,
    pub new_group: bool,
    pub umask: Option<u32>,
}

impl View for SpawnPlan {
    type V = SpawnPlanView;

    open spec fn view(&self) -> SpawnPlanView {
        SpawnPlanView {
            stdout: self.stdout@,
            stderr: self.stderr@,
            command: match self.command {
                Ok(line) => Ok(line@),
                Err(error) => Err(error@),
            },
            workingdir: opt_text(self.workingdir),
            env: opt_env_texts(self.env),
            new_group: self.new_group,
            umask: self.umask,
        }
    }
}

/// How an instance of a program is launched.
pub open spec fn plan_of(program: ProgramView, platform: Platform) -> SpawnPlanView {
    SpawnPlanView {
        stdout: target_of(program.stdout, platform),
        stderr: target_of(program.stderr, platform),
        command: command_of(program.cmd, platform),
        workingdir: program.workingdir,
        env: program.env,
        new_group: platform.unix(),
        umask: if platform.unix() {
            program.umask
        } else {
            None
        },
    }
}

/// How an instance of a program is launched.
pub fn spawn_plan(program: &Program, platform: Platform) -> (plan: SpawnPlan)
    ensures
        plan@ == plan_of(program@, platform),
{
    let env = match &program.env {
        Some(env) => Some(copy_env(env)),
        None => None,
    };
    let command = command_line(&program.cmd, platform);
    SpawnPlan {
        stdout: output_target(&program.stdout, platform),
        stderr: output_target(&program.stderr, platform),
        command,
        workingdir: opt_copy(&program.workingdir),
        env,
        new_group: platform.is_unix(),
        umask: if platform.is_unix() {
            program.umask
        } else {
            None
        },
    }
}

/// A single supervised process. Moments are nanoseconds on a clock that never
/// runs backwards.
#[derive(Debug)]
pub struct ProcessInstance {
    /// Its number within its program.
    pub id: usize,
    /// The name of its program.
    pub name: String,
    /// The number of its process, while it has one.
    pub child: Option<u32>,
    /// The file that standard output is appended to.
    pub stdout_path: Option<String>,
    /// The file that standard error is appended to.
    pub stderr_path: Option<String>,
    /// The moment of its launch.
    pub started_at: Option<u128>,
    /// The name or the number of the signal that asks it to stop.
    pub stopsignal: Option<String>,
    /// The seconds between that signal and the kill.
    pub stoptime: u64,
}

/// An instance with its texts as sequences of characters.
pub ghost struct InstanceView {
    pub id: usize,
    pub name: Seq<char>,
    pub child: Option<u32>,
    pub stdout_path: Option<Seq<char>>,
    pub stderr_path: Option<Seq<char>>,
    pub started_at: Option<u128>,
    pub stopsignal: Option<Seq<char>>,
    pub stoptime: u64,
}

impl View for ProcessInstance {
    type V = InstanceView;

    open spec fn view(&self) -> InstanceView {
        InstanceView {
            id: self.id,
            name: self.name@,
            child: self.child,
            stdout_path: opt_text(self.stdout_path),
            stderr_path: opt_text(self.stderr_path),
            started_at: self.started_at,
            stopsignal: opt_text(self.stopsignal),
            stoptime: self.stoptime,
        }
    }
}

/// The instance that a launch at moment `now` makes.
pub open spec fn launched(
    name: Seq<char>,
    id: usize,
    program: ProgramView,
    pid: u32,
    now: u128,
) -> InstanceView {
    InstanceView {
        id,
        name,
        child: Some(pid),
        stdout_path: program.stdout,
        stderr_path: program.stderr,
        started_at: Some(now),
        stopsignal: program.stopsignal,
        stoptime: program.stoptime,
    }
}

/// The signal that asks an instance to stop: the configured one, or `TERM`.
pub open spec fn stop_signal(stopsignal: Option<Seq<char>>) -> Seq<char> {
    match stopsignal {
        Some(name) => name,
        None => "TERM"@,
    }
}

/// What a look at an instance shows.
pub open spec fn poll_of(child: Option<u32>, waited: Waited) -> Result<ProcessPoll, ProcessError> {
    if child is None {
        Ok(ProcessPoll::Stopped)
    } else {
        match waited {
            Waited::Running => Ok(ProcessPoll::Running),
            Waited::Exited(code) => Ok(ProcessPoll::Exited(code)),
            Waited::Failed(error) => Err(error),
        }
    }
}

impl ProcessInstance {
    /// The instance that came of a launch, and the event that records it;
    /// `outcome` is the number of the new process or why there is none.
    pub fn spawn(
        name: &str,
        id: usize,
        program: &Program,
        outcome: Result<u32, ProcessError>,
        now: u128,
    ) -> (spawned: Result<(ProcessInstance, LogEvent), ProcessError>)
        ensures
            match outcome {
                Ok(pid) => {
                    &&& spawned is Ok
                    &&& spawned->Ok_0.0@ == launched(name@, id, program@, pid, now)
                    &&& spawned->Ok_0.1@ == (LogEventView::Start {
                        program: name@,
                        id,
                        pid: Some(pid),
                    })
                },
                Err(error) => spawned == Err::<(ProcessInstance, LogEvent), ProcessError>(error),
            },
    {
        match outcome {
            Ok(pid) => {
                let instance = ProcessInstance {
                    id,
                    name: name.to_string(),
                    child: Some(pid),
                    stdout_path: opt_copy(&program.stdout),
                    stderr_path: opt_copy(&program.stderr),
                    started_at: Some(now),
                    stopsignal: opt_copy(&program.stopsignal),
                    stoptime: program.stoptime,
                };
                let event = LogEvent::Start { program: name.to_string(), id, pid: Some(pid) };
                Ok((instance, event))
            },
            Err(error) => Err(error),
        }
    }

    /// The number of its process, while it has one.
    pub fn pid(&self) -> (pid: Option<u32>)
        ensures
            pid == self.child,
    {
        self.child
    }

    /// What a look at the instance shows, where `waited` is what the system
    /// answered about its process.
    pub fn poll(&self, waited: Waited) -> (polled: Result<ProcessPoll, ProcessError>)
        ensures
            polled == poll_of(self.child, waited),
    {
        match self.child {
            Some(_) => {
                match waited {
                    Waited::Running => Ok(ProcessPoll::Running),
                    Waited::Exited(code) => Ok(ProcessPoll::Exited(code)),
                    Waited::Failed(error) => Err(error),
                }
            },
            None => Ok(ProcessPoll::Stopped),
        }
    }

    /// Whether the instance has a process that runs, where `waited` is what the
    /// system answered about it.
    pub fn is_running(&self, waited: &Waited) -> (running: bool)
        ensures
            running == (self.child is Some && waited is Running),
    {
        match (self.child, waited) {
            (Some(_), Waited::Running) => true,
            _ => false,
        }
    }
}

/// The argument of the system call `kill` that stands for the process group of a
/// process: the negative of its number, where that number fits.
pub fn group_target(pid: u32) -> (target: Result<i32, ProcessError>)
    ensures
        match target {
            Ok(n) => pid <= i32::MAX && n == -(pid as int),
            Err(error) => pid > i32::MAX && error@ == ProcessErrorView::Io(
                "pid does not fit i32"@,
            ),
        },
{
    if pid <= 2147483647 {
        Ok(-(pid as i32))
    } else {
        Err(ProcessError::Io("pid does not fit i32".to_string()))
    }
}

/// The error number that says that a process exists but may not be signalled.
pub const EPERM: i32 = 1;

/// Whether a process group exists, where a probe with signal 0 returned
/// `returned` and left the error number `errno`.
pub fn process_group_exists(pid: u32, returned: i32, errno: Option<i32>) -> (exists_: bool)
    ensures
        exists_ == (pid <= i32::MAX && (returned == 0 || errno == Some(EPERM))),
{
    if pid > 2147483647 {
        return false;
    }
    if returned == 0 {
        return true;
    }
    match errno {
        Some(number) => number == EPERM,
        None => false,
    }
}

/// How far the stop of an instance has come.
#[derive(Debug, Clone, Copy, PartialEq, Eq, Structural)]
pub enum StopStage {
    /// The process group is to be asked to stop.
    Signalling,
    /// The process is to be reaped and its group looked for.
    Checking,
    /// Nothing is to happen for a moment.
    Pausing,
    /// The process group is to be looked for once more.
    Rechecking,
    /// What survived is to be killed.
    Killing,
    /// The end of the process is to be awaited.
    Waiting,
    /// Nothing is left to be done.
    Over,
}

/// What is to be done next to stop an instance.
#[derive(Debug)]
pub enum StopAction {
    /// Send this signal to the process group, whatever comes of it.
    Signal { pid: u32, signal: i32 },
    /// Reap the process if it has ended, then look whether its group exists.
    Check { pid: u32 },
    /// Wait this long.
    Pause { millis: u64 },
    /// Look whether the process group exists.
    Recheck { pid: u32 },
    /// Kill what survived, whatever comes of it: on Unix the process group with
    /// `SIGKILL`, elsewhere the process.
    Kill { pid: u32 },
    /// Wait for the end of the process.
    Wait { pid: u32 },
    /// Record this event: the instance has stopped.
    Finished(LogEvent),
}

/// An action with its texts as sequences of characters.
pub ghost enum StopActionView {
    Signal { pid: u32, signal: i32 },
    Check { pid: u32 },
    Pause { millis: u64 },
    Recheck { pid: u32 },
    Kill { pid: u32 },
    Wait { pid: u32 },
    Finished(LogEventView),
}

impl View for StopAction {
    type V = StopActionView;

    open spec fn view(&self) -> StopActionView {
        match *self {
            StopAction::Signal { pid, signal } => StopActionView::Signal { pid, signal },
            StopAction::Check { pid } => StopActionView::Check { pid },
            StopAction::Pause { millis } => StopActionView::Pause { millis },
            StopAction::Recheck { pid } => StopActionView::Recheck { pid },
            StopAction::Kill { pid } => StopActionView::Kill { pid },
            StopAction::Wait { pid } => StopActionView::Wait { pid },
            StopAction::Finished(event) => StopActionView::Finished(event@),
        }
    }
}

/// The milliseconds between two looks at a process group that is stopping.
pub const STOP_POLL_MILLIS: u64 = 25;

/// The stop of an instance under way.
#[derive(Debug)]
pub struct StopRun {
    pid: u32,
    program: String,
    id: usize,
    signal: i32,
    stoptime: u64,
    asked_at: u128,
    stage: StopStage,
}

/// The stop of an instance with its texts as sequences of characters.
pub ghost struct StopRunView {
    pub pid: u32,
    pub program: Seq<char>,
    pub id: usize,
    pub signal: i32,
    pub stoptime: u64,
    pub asked_at: u128,
    pub stage: StopStage,
}

impl View for StopRun {
    type V = StopRunView;

    closed spec fn view(&self) -> StopRunView {
        StopRunView {
            pid: self.pid,
            program: self.program@,
            id: self.id,
            signal: self.signal,
            stoptime: self.stoptime,
            asked_at: self.asked_at,
            stage: self.stage,
        }
    }
}

impl StopRunView {
    /// What is to be done next.
    pub open spec fn action(self) -> StopActionView {
        match self.stage {
            StopStage::Signalling => StopActionView::Signal { pid: self.pid, signal: self.signal },
            StopStage::Checking => StopActionView::Check { pid: self.pid },
            StopStage::Pausing => StopActionView::Pause { millis: STOP_POLL_MILLIS },
            StopStage::Rechecking => StopActionView::Recheck { pid: self.pid },
            StopStage::Killing => StopActionView::Kill { pid: self.pid },
            StopStage::Waiting => StopActionView::Wait { pid: self.pid },
            StopStage::Over => StopActionView::Finished(
                LogEventView::Stop { program: self.program, id: self.id },
            ),
        }
    }

    /// The stage that follows once the action is done, at moment `now`; `alive` is
    /// what a look at the process group showed.
    pub open spec fn next_stage(self, now: u128, alive: bool) -> StopStage {
        match self.stage {
            StopStage::Signalling => StopStage::Checking,
            StopStage::Checking => if !alive || has_lasted(self.asked_at, now, self.stoptime) {
                StopStage::Rechecking
            } else {
                StopStage::Pausing
            },
            StopStage::Pausing => StopStage::Checking,
            StopStage::Rechecking => if alive {
                StopStage::Killing
            } else {
                StopStage::Waiting
            },
            StopStage::Killing => StopStage::Waiting,
            StopStage::Waiting => StopStage::Over,
            StopStage::Over => StopStage::Over,
        }
    }

    /// The stop after its action is done. The time that the group is given runs from
    /// the moment at which it was asked to stop.
    pub open spec fn advanced(self, now: u128, alive: bool) -> StopRunView {
        StopRunView {
            asked_at: if self.stage == StopStage::Signalling {
                now
            } else {
                self.asked_at
            },
            stage: self.next_stage(now, alive),
            ..self
        }
    }

    /// The stop after its actions are done one after the other.
    pub open spec fn advanced_by(self, replies: Seq<(u128, bool)>) -> StopRunView
        decreases replies.len(),
    {
        if replies.len() == 0 {
            self
        } else {
            let before = self.advanced_by(replies.drop_last());
            before.advanced(replies.last().0, replies.last().1)
        }
    }
}

impl StopRun {
    /// What is to be done next.
    pub fn action(&self) -> (action: StopAction)
        ensures
            action@ == self@.action(),
    {
        match self.stage {
            StopStage::Signalling => StopAction::Signal { pid: self.pid, signal: self.signal },
            StopStage::Checking => StopAction::Check { pid: self.pid },
            StopStage::Pausing => StopAction::Pause { millis: STOP_POLL_MILLIS },
            StopStage::Rechecking => StopAction::Recheck { pid: self.pid },
            StopStage::Killing => StopAction::Kill { pid: self.pid },
            StopStage::Waiting => StopAction::Wait { pid: self.pid },
            StopStage::Over => StopAction::Finished(
                LogEvent::Stop { program: self.program.clone(), id: self.id },
            ),
        }
    }

    /// Takes notice that the action was done by moment `now`; `alive` is what a look
    /// at the process group showed, where the action was one.
    pub fn advance(&mut self, now: u128, alive: bool)
        ensures
            final(self)@ == old(self)@.advanced(now, alive),
    {
        match self.stage {
            StopStage::Signalling => {
                self.asked_at = now;
                self.stage = StopStage::Checking;
            },
            StopStage::Checking => {
                if !alive || lasted(self.asked_at, now, self.stoptime) {
                    self.stage = StopStage::Rechecking;
                } else {
                    self.stage = StopStage::Pausing;
                }
            },
            StopStage::Pausing => {
                self.stage = StopStage::Checking;
            },
            StopStage::Rechecking => {
                if alive {
                    self.stage = StopStage::Killing;
                } else {
                    self.stage = StopStage::Waiting;
                }
            },
            StopStage::Killing => {
                self.stage = StopStage::Waiting;
            },
            StopStage::Waiting => {
                self.stage = StopStage::Over;
            },
            StopStage::Over => {},
        }
    }
}

/// How the stop of an instance with this process begins: by asking its group on
/// Unix, and by a kill elsewhere.
pub open spec fn stop_of(instance: InstanceView, platform: Platform) -> Result<
    Option<StopRunView>,
    ProcessErrorView,
> {
    match instance.child {
        None => Ok(None),
        Some(pid) => if platform.unix() {
            match mapped_signal(stop_signal(instance.stopsignal), platform) {
                Some(signal) => Ok(
                    Some(
                        StopRunView {
                            pid,
                            program: instance.name,
                            id: instance.id,
                            signal: signal as i32,
                            stoptime: instance.stoptime,
                            asked_at: 0,
                            stage: StopStage::Signalling,
                        },
                    ),
                ),
                None => Err(
                    ProcessErrorView::Spawn(
                        "invalid stop signal '"@ + stop_signal(instance.stopsignal) + "'"@,
                    ),
                ),
            }
        } else {
            Ok(
                Some(
                    StopRunView {
                        pid,
                        program: instance.name,
                        id: instance.id,
                        signal: SIGKILL,
                        stoptime: instance.stoptime,
                        asked_at: 0,
                        stage: StopStage::Killing,
                    },
                ),
            )
        },
    }
}

impl ProcessInstance {
    /// Begins to stop the instance, which gives up its process: what is left to be
    /// done about that process, or nothing where there was none.
    pub fn stop(&mut self, platform: Platform) -> (stopping: Result<
        Option<StopRun>,
        ProcessError,
    >)
        ensures
            final(self)@ == (InstanceView { child: None, ..old(self)@ }),
            match stopping {
                Ok(Some(run)) => stop_of(old(self)@, platform) == Ok::<
                    Option<StopRunView>,
                    ProcessErrorView,
                >(Some(run@)),
                Ok(None) => stop_of(old(self)@, platform) == Ok::<
                    Option<StopRunView>,
                    ProcessErrorView,
                >(None),
                Err(error) => stop_of(old(self)@, platform) == Err::<
                    Option<StopRunView>,
                    ProcessErrorView,
                >(error@),
            },
            old(self).stopsignal is None ==> stopping is Ok,
            old(self).stopsignal is None && old(self).child is Some && platform.unix()
                ==> stopping->Ok_0->0@.signal == 15,
    {
        let pid = match self.child {
            Some(pid) => pid,
            None => {
                return Ok(None);
            },
        };
        self.child = None;
        if platform.is_unix() {
            let name = match &self.stopsignal {
                Some(name) => name.clone(),
                None => "TERM".to_string(),
            };
            match map_signal_name(name.as_str(), platform) {
                Ok(signal) => {
                    proof {
                        term_is_fifteen(platform);
                    }
                    Ok(
                        Some(
                            StopRun {
                                pid,
                                program: self.name.clone(),
                                id: self.id,
                                signal,
                                stoptime: self.stoptime,
                                asked_at: 0,
                                stage: StopStage::Signalling,
                            },
                        ),
                    )
                },
                Err(_) => {
                    proof {
                        term_is_fifteen(platform);
                    }
                    Err(ProcessError::Spawn(join3("invalid stop signal '", name.as_str(), "'")))
                },
            }
        } else {
            Ok(
                Some(
                    StopRun {
                        pid,
                        program: self.name.clone(),
                        id: self.id,
                        signal: SIGKILL,
                        stoptime: self.stoptime,
                        asked_at: 0,
                        stage: StopStage::Killing,
                    },
                ),
            )
        }
    }
}

/// The signal that is sent where none is configured has number 15.
proof fn term_is_fifteen(platform: Platform)
    ensures
        parsed_i32("TERM"@) is None,
        all_ascii(trimmed("TERM"@)),
        signal_number(ascii_uppercase(trimmed("TERM"@)), platform) == Some(15int),
{
    reveal_strlit("TERM");
    reveal_strlit("HUP");
    reveal_strlit("INT");
    reveal_strlit("QUIT");
    reveal_strlit("KILL");
    reveal_strlit("USR1");
    reveal_strlit("SIGHUP");
    reveal_strlit("SIGINT");
    reveal_strlit("SIGQUIT");
    reveal_strlit("SIGKILL");
    reveal_strlit("SIGUSR1");
    reveal_strlit("SIGTERM");
    assert(trimmed("TERM"@) =~= "TERM"@);
    assert(ascii_uppercase("TERM"@) =~= "TERM"@);
}

/// No survivor is killed before it has had the whole of its `stoptime`: while the
/// group lives, a look at it before that time leads to no further step but a pause.
pub proof fn no_kill_before_the_stoptime(run: StopRunView, now: u128)
    requires
        run.stage == StopStage::Checking,
        !has_lasted(run.asked_at, now, run.stoptime),
    ensures
        run.advanced(now, true).action() == (StopActionView::Pause { millis: STOP_POLL_MILLIS }),
        run.advanced(now, true).advanced(now, true).stage == StopStage::Checking,
        run.advanced(now, true).advanced(now, true).asked_at == run.asked_at,
{
}

/// A group that lives on past its `stoptime` is killed, and the stop ends with the
/// record of it; with a `stoptime` of 0 the first look is enough.
pub proof fn survivors_are_killed(run: StopRunView, replies: Seq<(u128, bool)>)
    requires
        run.stage == StopStage::Checking,
        replies.len() == 4,
        replies[0].1 && replies[1].1,
        has_lasted(run.asked_at, replies[0].0, run.stoptime),
    ensures
        run.advanced_by(replies.take(2)).action() == (StopActionView::Kill { pid: run.pid }),
        run.advanced_by(replies).action() == StopActionView::Finished(
            LogEventView::Stop { program: run.program, id: run.id },
        ),
        run.stoptime == 0 ==> has_lasted(run.asked_at, replies[0].0, 0),
{
    reveal_with_fuel(StopRunView::advanced_by, 5);
    assert(replies.take(2).drop_last() =~= replies.take(1));
    assert(replies.take(1).drop_last() =~= replies.take(0));
    assert(replies.drop_last() =~= replies.take(3));
    assert(replies.take(3).drop_last() =~= replies.take(2));
}

/// A group that is gone is not killed: its process is awaited and the stop ends with
/// the record of it.
pub proof fn the_stopped_are_not_killed(run: StopRunView, replies: Seq<(u128, bool)>)
    requires
        run.stage == StopStage::Checking,
        replies.len() == 3,
        !replies[0].1 && !replies[1].1,
    ensures
        run.advanced_by(replies.take(2)).action() == (StopActionView::Wait { pid: run.pid }),
        run.advanced_by(replies).action() == StopActionView::Finished(
            LogEventView::Stop { program: run.program, id: run.id },
        ),
{
    reveal_with_fuel(StopRunView::advanced_by, 4);
    assert(replies.take(2).drop_last() =~= replies.take(1));
    assert(replies.take(1).drop_last() =~= replies.take(0));
    assert(replies.drop_last() =~= replies.take(2));
}

/// Whatever the looks at the group show, a stop ends at most four actions after the
/// `stoptime` is over.
pub proof fn stops_end(run: StopRunView, replies: Seq<(u128, bool)>)
    requires
        run.stage == StopStage::Checking,
        replies.len() == 4,
        has_lasted(run.asked_at, replies[0].0, run.stoptime),
    ensures
        run.advanced_by(replies).stage == StopStage::Over,
{
    reveal_with_fuel(StopRunView::advanced_by, 5);
    assert(replies.drop_last() =~= replies.take(3));
    assert(replies.take(3).drop_last() =~= replies.take(2));
    assert(replies.take(2).drop_last() =~= replies.take(1));
    assert(replies.take(1).drop_last() =~= replies.take(0));
}

/// An instance of a program that a configuration may hold can always be stopped.
pub proof fn valid_programs_can_be_stopped(
    name: Seq<char>,
    program: ProgramView,
    instance: InstanceView,
    platform: Platform,
)
    requires
        program_problem(name, program, platform) is None,
        instance.stopsignal == program.stopsignal,
        program.stopsignal is Some,
    ensures
        stop_of(instance, platform) is Ok,
{
    if platform.unix() {
        valid_signals_are_mapped(program.stopsignal->0, platform);
    }
}

} // verus!
