//! The control shell: its commands, its texts and the course of a session.
use crate::config::{config_problem, Config, ConfigError, ConfigSource};
use crate::instance::{ProcessError, NANOS_PER_SEC};
use crate::manager::{status_views, ProcessStatus, StatusView};
use crate::names::string_texts;
use crate::numbers::{
    decimal, flush_left, flush_right, push_flush_left, push_flush_right, push_repeated, repeated,
    to_decimal,
};
use crate::platform::Platform;
use crate::signals::SignalFlags;
use crate::supervisor::ReloadSummary;
use crate::text::{
    ascii_lower, eq_ignore_ascii_case, same_ignoring_case, same_text, split_whitespace, texts, trim,
    trimmed, trimming_keeps_the_words, words,
};
use vstd::prelude::*;
use vstd::string::StringExecFns;

verus! {

/// A command of the shell.
#[derive(Debug, Clone, PartialEq, Eq)]
pub enum ShellCommand {
    /// Start a program, or all.
    Start(String),
    /// Stop a program, or all.
    Stop(String),
    /// Stop, then start a program, or all.
    Restart(String),
    /// Show the state of every instance.
    Status,
    /// Read the configuration anew.
    Reload,
    /// Show the commands of this session.
    History,
    /// Show what commands there are.
    Help,
    /// End the session.
    Quit,
}

/// A command with its text as a sequence of characters.
pub ghost enum ShellCommandView {
    Start(Seq<char>),
    Stop(Seq<char>),
    Restart(Seq<char>),
    Status,
    Reload,
    History,
    Help,
    Quit,
}

impl View for ShellCommand {
    type V = ShellCommandView;

    open spec fn view(&self) -> ShellCommandView {
        match *self {
            ShellCommand::Start(name) => ShellCommandView::Start(name@),
            ShellCommand::Stop(name) => ShellCommandView::Stop(name@),
            ShellCommand::Restart(name) => ShellCommandView::Restart(name@),
            ShellCommand::Status => ShellCommandView::Status,
            ShellCommand::Reload => ShellCommandView::Reload,
            ShellCommand::History => ShellCommandView::History,
            ShellCommand::Help => ShellCommandView::Help,
            ShellCommand::Quit => ShellCommandView::Quit,
        }
    }
}

/// The command that two words make.
pub open spec fn target_command(verb: Seq<char>, name: Seq<char>) -> Option<ShellCommandView> {
    if same_ignoring_case(verb, "start"@) {
        Some(ShellCommandView::Start(name))
    } else if same_ignoring_case(verb, "stop"@) {
        Some(ShellCommandView::Stop(name))
    } else if same_ignoring_case(verb, "restart"@) {
        Some(ShellCommandView::Restart(name))
    } else {
        None
    }
}

/// The command that one word makes.
pub open spec fn plain_command(word: Seq<char>) -> Option<ShellCommandView> {
    if same_ignoring_case(word, "status"@) {
        Some(ShellCommandView::Status)
    } else if same_ignoring_case(word, "reload"@) {
        Some(ShellCommandView::Reload)
    } else if same_ignoring_case(word, "history"@) {
        Some(ShellCommandView::History)
    } else if same_ignoring_case(word, "help"@) || word == "h"@ || word == "?"@ {
        Some(ShellCommandView::Help)
    } else if same_ignoring_case(word, "quit"@) || same_ignoring_case(word, "exit"@) || word
        == "q"@ {
        Some(ShellCommandView::Quit)
    } else {
        None
    }
}

/// The command that the words of a line make.
pub open spec fn command_in(parts: Seq<Seq<char>>) -> Option<ShellCommandView> {
    if parts.len() == 2 {
        target_command(parts[0], parts[1])
    } else if parts.len() == 1 {
        plain_command(parts[0])
    } else {
        None
    }
}

fn parse_target(verb: &str, name: &str) -> (command: Option<ShellCommand>)
    ensures
        match command {
            Some(command) => target_command(verb@, name@) == Some(command@),
            None => target_command(verb@, name@) is None,
        },
{
    if eq_ignore_ascii_case(verb, "start") {
        Some(ShellCommand::Start(name.to_string()))
    } else if eq_ignore_ascii_case(verb, "stop") {
        Some(ShellCommand::Stop(name.to_string()))
    } else if eq_ignore_ascii_case(verb, "restart") {
        Some(ShellCommand::Restart(name.to_string()))
    } else {
        None
    }
}

fn parse_plain(word: &str) -> (command: Option<ShellCommand>)
    ensures
        match command {
            Some(command) => plain_command(word@) == Some(command@),
            None => plain_command(word@) is None,
        },
{
    if eq_ignore_ascii_case(word, "status") {
        Some(ShellCommand::Status)
    } else if eq_ignore_ascii_case(word, "reload") {
        Some(ShellCommand::Reload)
    } else if eq_ignore_ascii_case(word, "history") {
        Some(ShellCommand::History)
    } else if eq_ignore_ascii_case(word, "help") || same_text(word, "h") || same_text(word, "?") {
        Some(ShellCommand::Help)
    } else if eq_ignore_ascii_case(word, "quit") || eq_ignore_ascii_case(word, "exit") || same_text(
        word,
        "q",
    ) {
        Some(ShellCommand::Quit)
    } else {
        None
    }
}

impl ShellCommand {
    /// The command that a line holds, if it holds one.
    pub fn parse(line: &str) -> (command: Option<Self>)
        ensures
            match command {
                Some(command) => command_in(words(line@)) == Some(command@),
                None => command_in(words(line@)) is None,
            },
    {
        let parts = split_whitespace(line);
        proof {
            assert(texts(parts@).len() == parts@.len());
        }
        if parts.len() == 2 {
            proof {
                assert(texts(parts@)[0] == parts@[0]@);
                assert(texts(parts@)[1] == parts@[1]@);
            }
            parse_target(parts[0], parts[1])
        } else if parts.len() == 1 {
            proof {
                assert(texts(parts@)[0] == parts@[0]@);
            }
            parse_plain(parts[0])
        } else {
            None
        }
    }
}

/// What the history keeps of a line holds the same command as the line, and a line of
/// which it keeps nothing holds none.
pub proof fn history_keeps_the_command(line: Seq<char>)
    ensures
        command_in(words(trimmed(line))) == command_in(words(line)),
        trimmed(line).len() == 0 ==> command_in(words(line)) is None,
{
    trimming_keeps_the_words(line);
}

/// The case of a verb does not matter, while that of a name does.
pub proof fn case_of_verbs_does_not_matter(a: Seq<char>, b: Seq<char>, name: Seq<char>)
    requires
        same_ignoring_case(a, b),
    ensures
        target_command(a, name) == target_command(b, name),
        a.len() > 1 ==> plain_command(a) == plain_command(b),
{
    same_as_literal(a, b, "start"@);
    same_as_literal(a, b, "stop"@);
    same_as_literal(a, b, "restart"@);
    same_as_literal(a, b, "status"@);
    same_as_literal(a, b, "reload"@);
    same_as_literal(a, b, "history"@);
    same_as_literal(a, b, "help"@);
    same_as_literal(a, b, "quit"@);
    same_as_literal(a, b, "exit"@);
    reveal_strlit("h");
    reveal_strlit("?");
    reveal_strlit("q");
}

proof fn same_as_literal(a: Seq<char>, b: Seq<char>, verb: Seq<char>)
    requires
        same_ignoring_case(a, b),
    ensures
        same_ignoring_case(a, verb) == same_ignoring_case(b, verb),
{
    if same_ignoring_case(a, verb) {
        assert forall|i: int| 0 <= i < b.len() implies ascii_lower(#[trigger] b[i]) == ascii_lower(
            verb[i],
        ) by {
            assert(ascii_lower(a[i]) == ascii_lower(b[i]));
        }
    }
    if same_ignoring_case(b, verb) {
        assert forall|i: int| 0 <= i < a.len() implies ascii_lower(#[trigger] a[i]) == ascii_lower(
            verb[i],
        ) by {
            assert(ascii_lower(b[i]) == ascii_lower(verb[i]));
        }
    }
}

/// A text that the shell shows.
#[derive(Debug)]
pub enum Message {
    /// A line on the standard output.
    Out(String),
    /// A line on the standard error.
    Error(String),
}

/// A message with its text as a sequence of characters.
pub ghost enum MessageView {
    Out(Seq<char>),
    Error(Seq<char>),
}

impl View for Message {
    type V = MessageView;

    open spec fn view(&self) -> MessageView {
        match *self {
            Message::Out(text) => MessageView::Out(text@),
            Message::Error(text) => MessageView::Error(text@),
        }
    }
}

/// What the shell shows when it begins.
pub fn welcome() -> (text: &'static str)
    ensures
        text@ == "Taskmaster control shell. Type 'help' for commands."@,
{
    "Taskmaster control shell. Type 'help' for commands."
}

/// What commands there are.
pub open spec fn help_text() -> Seq<char> {
    "Commands:
  status                 Show every configured instance and its state
  start <name|all>       Start a program
  stop <name|all>        Gracefully stop a program
  restart <name|all>     Stop, then start a program
  reload                 Reload and selectively apply the config file
  history                Show commands entered in this session
  help                    Show this help
  quit | exit             Stop all children and exit"@
}

/// What commands there are.
pub fn help() -> (text: &'static str)
    ensures
        text@ == help_text(),
{
    "Commands:
  status                 Show every configured instance and its state
  start <name|all>       Start a program
  stop <name|all>        Gracefully stop a program
  restart <name|all>     Stop, then start a program
  reload                 Reload and selectively apply the config file
  history                Show commands entered in this session
  help                    Show this help
  quit | exit             Stop all children and exit"
}

/// The programs that a command is about: `all` stands for every one of them.
pub fn targets(target: &str, program_names: Vec<String>) -> (names: Vec<String>)
    ensures
        string_texts(names@) == if same_ignoring_case(target@, "all"@) {
            string_texts(program_names@)
        } else {
            seq![target@]
        },
{
    if eq_ignore_ascii_case(target, "all") {
        program_names
    } else {
        let mut names: Vec<String> = Vec::new();
        names.push(target.to_string());
        proof {
            assert(string_texts(names@) =~= seq![target@]);
        }
        names
    }
}

/// What the shell says of a command that was carried out, or not, for one program.
pub open spec fn outcome_view(
    verb: Seq<char>,
    name: Seq<char>,
    outcome: Result<(), ProcessError>,
) -> MessageView {
    match outcome {
        Ok(_) => MessageView::Out(verb + ": "@ + name),
        Err(error) => MessageView::Error(verb + " "@ + name + " failed: "@ + error@.text()),
    }
}

/// What the shell says of a command that was carried out, or not, for one program.
pub fn outcome_message(verb: &str, name: &str, outcome: &Result<(), ProcessError>) -> (message:
    Message)
    ensures
        message@ == outcome_view(verb@, name@, *outcome),
{
    let mut text = verb.to_string();
    match outcome {
        Ok(()) => {
            text.append(": ");
            text.append(name);
            Message::Out(text)
        },
        Err(error) => {
            text.append(" ");
            text.append(name);
            text.append(" failed: ");
            text.append(error.message().as_str());
            Message::Error(text)
        },
    }
}

/// What a restart goes on with once the program was told to stop: nothing where it is
/// to be started, and a message where it could not be stopped.
pub fn restart_stopped(name: &str, outcome: &Result<(), ProcessError>) -> (message: Option<Message>)
    ensures
        match outcome {
            Ok(_) => message is None,
            Err(error) => message is Some && message->0@ == MessageView::Error(
                "restart "@ + name@ + " failed while stopping: "@ + error@.text(),
            ),
        },
{
    match outcome {
        Ok(()) => None,
        Err(error) => {
            let mut text = "restart ".to_string();
            text.append(name);
            text.append(" failed while stopping: ");
            text.append(error.message().as_str());
            Some(Message::Error(text))
        },
    }
}

/// What the shell says of a restart once the program was told to start.
pub fn restart_started(name: &str, outcome: &Result<(), ProcessError>) -> (message: Message)
    ensures
        message@ == match outcome {
            Ok(_) => MessageView::Out("restart: "@ + name@),
            Err(error) => MessageView::Error(
                "restart "@ + name@ + " failed while starting: "@ + error@.text(),
            ),
        },
{
    match outcome {
        Ok(()) => {
            let mut text = "restart: ".to_string();
            text.append(name);
            Message::Out(text)
        },
        Err(error) => {
            let mut text = "restart ".to_string();
            text.append(name);
            text.append(" failed while starting: ");
            text.append(error.message().as_str());
            Message::Error(text)
        },
    }
}

/// What the shell says of a configuration that could not be loaded.
pub open spec fn rejection(error: Seq<char>) -> MessageView {
    MessageView::Error("Reload rejected; current configuration kept: "@ + error)
}

/// What the shell says of a configuration that could not be loaded.
pub fn reload_rejected(error: &ConfigError) -> (message: Message)
    ensures
        message@ == rejection(error.text()),
{
    let mut text = "Reload rejected; current configuration kept: ".to_string();
    text.append(error.message().as_str());
    Message::Error(text)
}

/// The configuration to change to, where `source` is what came of reading and parsing
/// it, or what the shell says where it is rejected.
pub fn reload_source(source: ConfigSource, platform: Platform) -> (config: Result<Config, Message>)
    ensures
        match source {
            ConfigSource::Unreadable(error) => config matches Err(message) && message@
                == rejection(ConfigError::Io(error).text()),
            ConfigSource::Unparsable(error) => config matches Err(message) && message@
                == rejection(ConfigError::Parse(error).text()),
            ConfigSource::Parsed(parsed) => match config_problem(parsed.entries(), platform) {
                None => config == Ok::<Config, Message>(parsed),
                Some(problem) => config matches Err(message) && message@ == rejection(
                    "Validation error: "@ + problem,
                ),
            },
        },
{
    match Config::load_from_path(source, platform) {
        Ok(config) => Ok(config),
        Err(error) => Err(reload_rejected(&error)),
    }
}

/// The list of names as the standard library writes it for a developer.
pub uninterp spec fn debug_list(names: Seq<Seq<char>>) -> Seq<char>;

/// Calls `format!` with `{:?}` on a list of names. The result depends on the names
/// alone and goes by `debug_list`; how it quotes them is not stated.
#[verifier::external_body]
fn debug_names(names: &Vec<String>) -> (text: String)
    ensures
        text@ == debug_list(string_texts(names@)),
{
    format!("{:?}", names)
}

/// What the shell says of a new configuration, where the four lists of names are given
/// as texts.
pub open spec fn reloaded_text(
    added: Seq<char>,
    removed: Seq<char>,
    changed: Seq<char>,
    unchanged: Seq<char>,
) -> Seq<char> {
    "Configuration reloaded. added="@ + added + " removed="@ + removed + " changed="@ + changed
        + " unchanged="@ + unchanged
}

/// What the shell says of a new configuration, where the four lists of names are given
/// as texts.
pub fn reloaded_line(added: &str, removed: &str, changed: &str, unchanged: &str) -> (line: String)
    ensures
        line@ == reloaded_text(added@, removed@, changed@, unchanged@),
{
    let mut line = "Configuration reloaded. added=".to_string();
    line.append(added);
    line.append(" removed=");
    line.append(removed);
    line.append(" changed=");
    line.append(changed);
    line.append(" unchanged=");
    line.append(unchanged);
    line
}

/// What the shell says of a change of configuration.
pub fn reload_message(outcome: &Result<ReloadSummary, ProcessError>) -> (message: Message)
    ensures
        message@ == match outcome {
            Ok(summary) => MessageView::Out(
                reloaded_text(
                    debug_list(summary@.added),
                    debug_list(summary@.removed),
                    debug_list(summary@.changed),
                    debug_list(summary@.unchanged),
                ),
            ),
            Err(error) => MessageView::Error(
                "Configuration applied with a process error: "@ + error@.text(),
            ),
        },
{
    match outcome {
        Ok(summary) => {
            let added = debug_names(&summary.added);
            let removed = debug_names(&summary.removed);
            let changed = debug_names(&summary.changed);
            let unchanged = debug_names(&summary.unchanged);
            Message::Out(
                reloaded_line(
                    added.as_str(),
                    removed.as_str(),
                    changed.as_str(),
                    unchanged.as_str(),
                ),
            )
        },
        Err(error) => {
            let mut text = "Configuration applied with a process error: ".to_string();
            text.append(error.message().as_str());
            Message::Error(text)
        },
    }
}

/// What the shell says of a status report that could not be made.
pub fn status_failed(error: &ProcessError) -> (message: Message)
    ensures
        message@ == MessageView::Error("status failed: "@ + error@.text()),
{
    let mut text = "status failed: ".to_string();
    text.append(error.message().as_str());
    Message::Error(text)
}

/// One line of the status table.
pub open spec fn table_line(
    program: Seq<char>,
    instance: Seq<char>,
    pid: Seq<char>,
    state: Seq<char>,
    uptime: Seq<char>,
) -> Seq<char> {
    flush_left(program, 20) + " "@ + flush_right(instance, 8, ' ') + " "@ + flush_right(
        pid,
        10,
        ' ',
    ) + " "@ + flush_right(state, 12, ' ') + " "@ + flush_right(uptime, 10, ' ')
}

fn push_table_line(
    line: &mut String,
    program: &str,
    instance: &str,
    pid: &str,
    state: &str,
    uptime: &str,
)
    ensures
        final(line)@ == old(line)@ + table_line(program@, instance@, pid@, state@, uptime@),
{
    let ghost before = line@;
    proof {
        reveal_strlit(" ");
    }
    push_flush_left(line, program, 20);
    line.append(" ");
    push_flush_right(line, instance, 8, " ");
    line.append(" ");
    push_flush_right(line, pid, 10, " ");
    line.append(" ");
    push_flush_right(line, state, 12, " ");
    line.append(" ");
    push_flush_right(line, uptime, 10, " ");
    proof {
        assert(line@ =~= before + table_line(program@, instance@, pid@, state@, uptime@));
    }
}

/// The head of the status table.
pub open spec fn table_head() -> Seq<char> {
    "\n"@ + table_line("PROGRAM"@, "INSTANCE"@, "PID"@, "STATE"@, "UPTIME"@)
}

/// The line of the status table for one instance: `-` stands for a process or an uptime
/// that there is not, and the uptime is given in whole seconds.
pub open spec fn status_line(row: StatusView) -> Seq<char> {
    table_line(
        row.program,
        decimal(row.id as nat),
        match row.pid {
            Some(pid) => decimal(pid as nat),
            None => "-"@,
        },
        row.state,
        match row.uptime {
            Some(nanos) => decimal((nanos / NANOS_PER_SEC) as nat) + "s"@,
            None => "-"@,
        },
    )
}

/// The lines of the status report.
pub open spec fn report_lines(rows: Seq<StatusView>) -> Seq<Seq<char>> {
    if rows.len() == 0 {
        seq!["No programs configured."@]
    } else {
        seq![table_head(), repeated('-', 66)] + rows.map_values(
            |row: StatusView| status_line(row),
        ) + seq![""@]
    }
}

fn row_line(row: &ProcessStatus) -> (line: String)
    ensures
        line@ == status_line(row@),
{
    let id = to_decimal(row.id as u128);
    let pid = match row.pid {
        Some(pid) => to_decimal(pid as u128),
        None => "-".to_string(),
    };
    let uptime = match row.uptime {
        Some(nanos) => {
            let mut text = to_decimal(nanos / NANOS_PER_SEC);
            text.append("s");
            text
        },
        None => "-".to_string(),
    };
    let mut line = String::new();
    push_table_line(
        &mut line,
        row.program.as_str(),
        id.as_str(),
        pid.as_str(),
        row.state,
        uptime.as_str(),
    );
    proof {
        assert(Seq::<char>::empty() + status_line(row@) =~= status_line(row@));
    }
    line
}

/// The lines of the status report: a table with a line for each row.
pub fn status_report(rows: &Vec<ProcessStatus>) -> (lines: Vec<String>)
    ensures
        string_texts(lines@) == report_lines(status_views(rows@)),
{
    let mut lines: Vec<String> = Vec::new();
    if rows.len() == 0 {
        lines.push("No programs configured.".to_string());
        proof {
            assert(string_texts(lines@) =~= report_lines(status_views(rows@)));
        }
        return lines;
    }
    let mut head = "\n".to_string();
    push_table_line(&mut head, "PROGRAM", "INSTANCE", "PID", "STATE", "UPTIME");
    let mut rule = String::new();
    proof {
        reveal_strlit("-");
    }
    push_repeated(&mut rule, "-", 66);
    proof {
        assert(Seq::<char>::empty() + repeated('-', 66) =~= repeated('-', 66));
    }
    lines.push(head);
    lines.push(rule);
    let ghost body = status_views(rows@).map_values(|row: StatusView| status_line(row));
    let ghost top = seq![table_head(), repeated('-', 66)];
    proof {
        assert(string_texts(lines@) =~= top + body.take(0));
    }
    for i in 0..rows.len()
        invariant
            body == status_views(rows@).map_values(|row: StatusView| status_line(row)),
            string_texts(lines@) == top + body.take(i as int),
    {
        let ghost before = lines@;
        lines.push(row_line(&rows[i]));
        proof {
            assert(body[i as int] == status_line(rows@[i as int]@));
            assert(string_texts(lines@) =~= string_texts(before).push(body[i as int]));
            assert((top + body.take(i as int)).push(body[i as int]) =~= top + body.take(i + 1));
        }
    }
    let ghost before = lines@;
    lines.push("".to_string());
    proof {
        assert(body.take(rows@.len() as int) =~= body);
        assert(string_texts(lines@) =~= string_texts(before).push(""@));
        assert(string_texts(lines@) =~= report_lines(status_views(rows@)));
    }
    lines
}

/// The lines that show the commands of a session, numbered from 1.
pub open spec fn history_lines(history: Seq<Seq<char>>) -> Seq<Seq<char>> {
    Seq::new(
        history.len(),
        |i: int| flush_right(decimal((i + 1) as nat), 4, ' ') + "  "@ + history[i],
    )
}

fn show_history(history: &Vec<String>) -> (lines: Vec<String>)
    ensures
        string_texts(lines@) == history_lines(string_texts(history@)),
{
    let mut lines: Vec<String> = Vec::new();
    let ghost expected = history_lines(string_texts(history@));
    proof {
        reveal_strlit(" ");
        assert(string_texts(lines@) =~= expected.take(0));
    }
    for i in 0..history.len()
        invariant
            " "@.len() == 1,
            " "@[0] == ' ',
            expected == history_lines(string_texts(history@)),
            string_texts(lines@) == expected.take(i as int),
    {
        let ghost before = lines@;
        let number = to_decimal(i as u128 + 1);
        let mut line = String::new();
        push_flush_right(&mut line, number.as_str(), 4, " ");
        line.append("  ");
        line.append(history[i].as_str());
        proof {
            assert(line@ =~= expected[i as int]);
        }
        lines.push(line);
        proof {
            assert(string_texts(lines@) =~= string_texts(before).push(expected[i as int]));
            assert(expected.take(i + 1) =~= expected.take(i as int).push(expected[i as int]));
        }
    }
    proof {
        assert(expected.take(history@.len() as int) =~= expected);
    }
    lines
}

/// A session of the shell: whether the prompt is to be shown, and the commands that were
/// entered.
#[derive(Debug)]
pub struct Shell {
    prompt_needed: bool,
    history: Vec<String>,
}

/// A session with its texts as sequences of characters.
#[verifier::ext_equal]
pub ghost struct ShellView {
    pub prompt_needed: bool,
    pub history: Seq<Seq<char>>,
}

impl View for Shell {
    type V = ShellView;

    closed spec fn view(&self) -> ShellView {
        ShellView { prompt_needed: self.prompt_needed, history: string_texts(self.history@) }
    }
}

/// What pending signals ask of a session, with the line that it shows.
#[derive(Debug, Clone, Copy)]
pub enum Wake {
    /// To end.
    Leave(&'static str),
    /// To read the configuration anew.
    Reload(&'static str),
    /// Nothing.
    Idle,
}

/// What came of waiting for a line.
#[derive(Debug)]
pub enum Received {
    /// A line.
    Line(String),
    /// No line yet.
    Timeout,
    /// There will be no line any more.
    Disconnected,
}

/// The milliseconds that the shell waits for a line before it looks at signals again.
pub const LINE_WAIT_MILLIS: u64 = 100;

/// What a session is to do next.
#[derive(Debug)]
pub enum ShellStep {
    /// Go on waiting.
    Wait,
    /// End.
    Leave,
    /// Show this line, then end.
    Farewell(&'static str),
    /// Show these lines.
    Show(Vec<String>),
    /// Carry out this command.
    Carry(ShellCommand),
}

/// A step with its texts as sequences of characters.
pub ghost enum ShellStepView {
    Wait,
    Leave,
    Farewell(Seq<char>),
    Show(Seq<Seq<char>>),
    Carry(ShellCommandView),
}

impl View for ShellStep {
    type V = ShellStepView;

    open spec fn view(&self) -> ShellStepView {
        match *self {
            ShellStep::Wait => ShellStepView::Wait,
            ShellStep::Leave => ShellStepView::Leave,
            ShellStep::Farewell(text) => ShellStepView::Farewell(text@),
            ShellStep::Show(lines) => ShellStepView::Show(string_texts(lines@)),
            ShellStep::Carry(command) => ShellStepView::Carry(command@),
        }
    }
}

impl ShellView {
    /// The session after a line was entered: a line that is not blank joins the history.
    pub open spec fn entered(self, line: Seq<char>) -> ShellView {
        ShellView {
            prompt_needed: true,
            history: if trimmed(line).len() > 0 {
                self.history.push(trimmed(line))
            } else {
                self.history
            },
        }
    }

    /// What a session does with a line.
    pub open spec fn step(self, line: Seq<char>) -> ShellStepView {
        match command_in(words(line)) {
            Some(ShellCommandView::History) => ShellStepView::Show(
                history_lines(self.entered(line).history),
            ),
            Some(ShellCommandView::Help) => ShellStepView::Show(seq![help_text()]),
            Some(ShellCommandView::Quit) => ShellStepView::Farewell("Shutting down..."@),
            Some(command) => ShellStepView::Carry(command),
            None => if trimmed(line).len() > 0 {
                ShellStepView::Show(seq!["Invalid command. Type 'help' for usage."@])
            } else {
                ShellStepView::Show(Seq::empty())
            },
        }
    }
}

fn one_line(text: &str) -> (lines: Vec<String>)
    ensures
        string_texts(lines@) == seq![text@],
{
    let mut lines: Vec<String> = Vec::new();
    lines.push(text.to_string());
    proof {
        assert(string_texts(lines@) =~= seq![text@]);
    }
    lines
}

impl Shell {
    /// A session that begins with the prompt.
    pub fn new() -> (shell: Self)
        ensures
            shell@.prompt_needed,
            shell@.history == Seq::<Seq<char>>::empty(),
    {
        let shell = Shell { prompt_needed: true, history: Vec::new() };
        proof {
            assert(shell@.history =~= Seq::<Seq<char>>::empty());
        }
        shell
    }

    /// Takes the request of a signal that is pending: a shutdown before a reload, which
    /// stays pending then.
    pub fn wake(&mut self, flags: &mut SignalFlags) -> (wake: Wake)
        ensures
            old(flags).shutdown ==> {
                &&& wake matches Wake::Leave(text) && text@ == "\nShutdown signal received."@
                &&& *final(flags) == (SignalFlags { shutdown: false, ..*old(flags) })
                &&& final(self)@ == old(self)@
            },
            !old(flags).shutdown && old(flags).reload ==> {
                &&& wake matches Wake::Reload(text) && text@
                    == "\nSIGHUP received. Reloading configuration..."@
                &&& *final(flags) == (SignalFlags { reload: false, ..*old(flags) })
                &&& final(self)@ == (ShellView { prompt_needed: true, ..old(self)@ })
            },
            !old(flags).shutdown && !old(flags).reload ==> {
                &&& wake is Idle
                &&& *final(flags) == *old(flags)
                &&& final(self)@ == old(self)@
            },
    {
        if flags.take_shutdown() {
            return Wake::Leave("\nShutdown signal received.");
        }
        if flags.take_reload() {
            self.prompt_needed = true;
            return Wake::Reload("\nSIGHUP received. Reloading configuration...");
        }
        Wake::Idle
    }

    /// The prompt, where it is to be shown; it is then shown.
    pub fn prompt(&mut self) -> (prompt: Option<&'static str>)
        ensures
            final(self)@ == (ShellView { prompt_needed: false, ..old(self)@ }),
            match prompt {
                Some(text) => old(self)@.prompt_needed && text@ == "taskmaster> "@,
                None => !old(self)@.prompt_needed,
            },
    {
        if self.prompt_needed {
            self.prompt_needed = false;
            Some("taskmaster> ")
        } else {
            None
        }
    }

    /// What the session does once it has waited for a line.
    pub fn receive(&mut self, received: Received) -> (step: ShellStep)
        ensures
            match received {
                Received::Line(line) => {
                    &&& final(self)@ == old(self)@.entered(line@)
                    &&& step@ == old(self)@.step(line@)
                },
                Received::Timeout => step is Wait && final(self)@ == old(self)@,
                Received::Disconnected => step is Leave && final(self)@ == old(self)@,
            },
    {
        let line = match received {
            Received::Line(line) => line,
            Received::Timeout => {
                return ShellStep::Wait;
            },
            Received::Disconnected => {
                return ShellStep::Leave;
            },
        };
        let ghost before = self.history@;
        let entry = trim(line.as_str());
        let blank = entry.is_empty();
        if !blank {
            self.history.push(entry.to_string());
            proof {
                assert(string_texts(self.history@) =~= string_texts(before).push(entry@));
            }
        }
        self.prompt_needed = true;
        proof {
            assert(self@ =~= old(self)@.entered(line@));
        }
        match ShellCommand::parse(line.as_str()) {
            Some(ShellCommand::History) => ShellStep::Show(show_history(&self.history)),
            Some(ShellCommand::Help) => ShellStep::Show(one_line(help())),
            Some(ShellCommand::Quit) => ShellStep::Farewell("Shutting down..."),
            Some(command) => ShellStep::Carry(command),
            None => {
                if !blank {
                    ShellStep::Show(one_line("Invalid command. Type 'help' for usage."))
                } else {
                    let lines: Vec<String> = Vec::new();
                    proof {
                        assert(string_texts(lines@) =~= Seq::<Seq<char>>::empty());
                    }
                    ShellStep::Show(lines)
                }
            },
        }
    }
}

} // verus!
