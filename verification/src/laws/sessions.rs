//! Laws of the control shell: which lines are commands, what it says, and what it shows.
use crate::instance::ProcessError;
use crate::manager::StatusView;
use crate::numbers::{decimal, flush_left, flush_right, repeated};
use crate::shell::{
    command_in, history_lines, outcome_view, plain_command, rejection, reloaded_text, report_lines,
    status_line, table_head, table_line, target_command, MessageView, ShellCommandView,
    ShellStepView, ShellView, LINE_WAIT_MILLIS,
};
use crate::text::{ascii_lower, same_ignoring_case, trimmed, words};
use vstd::prelude::*;

verus! {

proof fn words_differ(s: Seq<char>, a: Seq<char>, b: Seq<char>, at: int)
    requires
        a.len() != b.len() || 0 <= at < a.len() && ascii_lower(a[at]) != ascii_lower(b[at]),
    ensures
        !(same_ignoring_case(s, a) && same_ignoring_case(s, b)),
{
    if same_ignoring_case(s, a) && same_ignoring_case(s, b) {
        assert(ascii_lower(s[at]) == ascii_lower(a[at]));
        assert(ascii_lower(s[at]) == ascii_lower(b[at]));
    }
}

/// Two words are a command if the first is `start`, `stop` or `restart`, in any case; the
/// second is what the command is about, as it was written.
pub proof fn two_words_name_a_program(verb: Seq<char>, name: Seq<char>, about: Seq<char>)
    ensures
        ({
            let command = command_in(seq![verb, name]);
            &&& command == Some(ShellCommandView::Start(about)) <==> same_ignoring_case(
                verb,
                "start"@,
            ) && about == name
            &&& command == Some(ShellCommandView::Stop(about)) <==> same_ignoring_case(
                verb,
                "stop"@,
            ) && about == name
            &&& command == Some(ShellCommandView::Restart(about)) <==> same_ignoring_case(
                verb,
                "restart"@,
            ) && about == name
            &&& command is Some ==> command->0 is Start || command->0 is Stop
                || command->0 is Restart
            &&& command == target_command(verb, name)
        }),
{
    reveal_strlit("start");
    reveal_strlit("stop");
    reveal_strlit("restart");
    words_differ(verb, "start"@, "stop"@, 0);
    words_differ(verb, "start"@, "restart"@, 0);
    words_differ(verb, "stop"@, "restart"@, 0);
}

/// One word is a command if it is one of `status`, `reload`, `history`, `help`, `quit` and
/// `exit`, in any case, or `h`, `?` or `q`.
pub proof fn one_word_is_a_plain_command(word: Seq<char>)
    ensures
        ({
            let command = command_in(seq![word]);
            &&& command == Some(ShellCommandView::Status) <==> same_ignoring_case(word, "status"@)
            &&& command == Some(ShellCommandView::Reload) <==> same_ignoring_case(word, "reload"@)
            &&& command == Some(ShellCommandView::History) <==> same_ignoring_case(
                word,
                "history"@,
            )
            &&& command == Some(ShellCommandView::Help) <==> same_ignoring_case(word, "help"@)
                || word == seq!['h'] || word == seq!['?']
            &&& command == Some(ShellCommandView::Quit) <==> same_ignoring_case(word, "quit"@)
                || same_ignoring_case(word, "exit"@) || word == seq!['q']
            &&& command is Some ==> !(command->0 is Start || command->0 is Stop
                || command->0 is Restart)
            &&& command == plain_command(word)
        }),
{
    reveal_strlit("status");
    reveal_strlit("reload");
    reveal_strlit("history");
    reveal_strlit("help");
    reveal_strlit("quit");
    reveal_strlit("exit");
    reveal_strlit("h");
    reveal_strlit("?");
    reveal_strlit("q");
    assert("h"@ =~= seq!['h']);
    assert("?"@ =~= seq!['?']);
    assert("q"@ =~= seq!['q']);
    assert("status"@.len() == 6 && "status"@[0] == 's');
    assert("reload"@.len() == 6 && "reload"@[0] == 'r');
    assert("history"@.len() == 7);
    assert("help"@.len() == 4 && "help"@[0] == 'h');
    assert("quit"@.len() == 4 && "quit"@[0] == 'q');
    assert("exit"@.len() == 4 && "exit"@[0] == 'e');
    assert(seq!['h'].len() == 1 && seq!['h'][0] == 'h');
    assert(seq!['?'].len() == 1 && seq!['?'][0] == '?');
    assert(seq!['q'].len() == 1 && seq!['q'][0] == 'q');
    assert(command_in(seq![word]) == plain_command(word));
    words_differ(word, "status"@, "reload"@, 0);
    words_differ(word, "help"@, "quit"@, 0);
    words_differ(word, "help"@, "exit"@, 0);
}

/// No command has no words, or more than two.
pub proof fn other_lines_are_no_commands(parts: Seq<Seq<char>>)
    ensures
        parts.len() == 0 || parts.len() > 2 ==> command_in(parts) is None,
        parts.len() == 1 ==> command_in(parts) == command_in(seq![parts[0]]),
        parts.len() == 2 ==> command_in(parts) == command_in(seq![parts[0], parts[1]]),
{
}

/// A line that is not blank joins the history, without the space around it, after all the
/// lines that came before; a blank one does not. The prompt is due again.
pub proof fn lines_join_the_history(shell: ShellView, line: Seq<char>)
    ensures
        ({
            let after = shell.entered(line);
            let blank = trimmed(line).len() == 0;
            &&& after.prompt_needed
            &&& blank ==> after.history == shell.history
            &&& !blank ==> {
                &&& after.history.len() == shell.history.len() + 1
                &&& after.history.take(shell.history.len() as int) == shell.history
                &&& after.history[shell.history.len() as int] == trimmed(line)
            }
        }),
{
    if trimmed(line).len() > 0 {
        assert(shell.entered(line).history.take(shell.history.len() as int) =~= shell.history);
    }
}

/// A session shows its history and its help by itself, ends when told to, and hands every
/// other command on. It says so of a line that is none, unless that is blank.
pub proof fn sessions_answer_each_line(shell: ShellView, line: Seq<char>)
    ensures
        ({
            let step = shell.step(line);
            let command = command_in(words(line));
            &&& command == Some(ShellCommandView::History) ==> step == ShellStepView::Show(
                history_lines(shell.entered(line).history),
            )
            &&& command == Some(ShellCommandView::Help) ==> step == ShellStepView::Show(
                seq![crate::shell::help_text()],
            )
            &&& command == Some(ShellCommandView::Quit) ==> step == ShellStepView::Farewell(
                "Shutting down..."@,
            )
            &&& step is Carry <==> command is Some && !(command->0 is History || command->0 is Help
                || command->0 is Quit)
            &&& step is Carry ==> step == ShellStepView::Carry(command->0)
            &&& command is None && trimmed(line).len() > 0 ==> step == ShellStepView::Show(
                seq!["Invalid command. Type 'help' for usage."@],
            )
            &&& command is None && trimmed(line).len() == 0 ==> step == ShellStepView::Show(
                Seq::empty(),
            )
        }),
        LINE_WAIT_MILLIS == 100,
{
}

/// The history is shown line by line, numbered from 1: the number in a field of four,
/// two spaces, and the line.
pub proof fn the_history_is_numbered(history: Seq<Seq<char>>, i: int)
    ensures
        history_lines(history).len() == history.len(),
        0 <= i < history.len() ==> history_lines(history)[i] == flush_right(
            decimal((i + 1) as nat),
            4,
            ' ',
        ) + seq![' ', ' '] + history[i],
{
    reveal_strlit("  ");
    assert("  "@ =~= seq![' ', ' ']);
}

/// The texts of a table's line that fit stand in columns of 20, 8, 10, 12 and 10
/// characters, the first flush left and the others flush right, with a space between two.
pub proof fn tables_have_five_columns(
    program: Seq<char>,
    instance: Seq<char>,
    pid: Seq<char>,
    state: Seq<char>,
    uptime: Seq<char>,
)
    requires
        program.len() <= 20,
        instance.len() <= 8,
        pid.len() <= 10,
        state.len() <= 12,
        uptime.len() <= 10,
    ensures
        ({
            let line = table_line(program, instance, pid, state, uptime);
            &&& line.len() == 64
            &&& line.subrange(0, 20) == flush_left(program, 20)
            &&& line[20] == ' '
            &&& line.subrange(21, 29) == flush_right(instance, 8, ' ')
            &&& line[29] == ' '
            &&& line.subrange(30, 40) == flush_right(pid, 10, ' ')
            &&& line[40] == ' '
            &&& line.subrange(41, 53) == flush_right(state, 12, ' ')
            &&& line[53] == ' '
            &&& line.subrange(54, 64) == flush_right(uptime, 10, ' ')
        }),
{
    reveal_strlit(" ");
    let line = table_line(program, instance, pid, state, uptime);
    let a = flush_left(program, 20);
    let b = flush_right(instance, 8, ' ');
    let c = flush_right(pid, 10, ' ');
    let d = flush_right(state, 12, ' ');
    let e = flush_right(uptime, 10, ' ');
    assert(a.len() == 20 && b.len() == 8 && c.len() == 10 && d.len() == 12 && e.len() == 10);
    assert(line =~= a + seq![' '] + b + seq![' '] + c + seq![' '] + d + seq![' '] + e);
    assert(line.subrange(0, 20) =~= a);
    assert(line.subrange(21, 29) =~= b);
    assert(line.subrange(30, 40) =~= c);
    assert(line.subrange(41, 53) =~= d);
    assert(line.subrange(54, 64) =~= e);
}

/// A text that does not fit takes the place that it needs: no character of a table's line
/// is lost.
pub proof fn tables_lose_no_text(
    program: Seq<char>,
    instance: Seq<char>,
    pid: Seq<char>,
    state: Seq<char>,
    uptime: Seq<char>,
)
    ensures
        table_line(program, instance, pid, state, uptime) == flush_left(program, 20) + seq![' ']
            + flush_right(instance, 8, ' ') + seq![' '] + flush_right(pid, 10, ' ') + seq![' ']
            + flush_right(state, 12, ' ') + seq![' '] + flush_right(uptime, 10, ' '),
{
    reveal_strlit(" ");
    assert(" "@ =~= seq![' ']);
}

/// The line of an instance shows its program, its number, its process, its state and the
/// whole seconds that it has been up; a dash stands for a process and for a time that
/// there is not.
pub proof fn rows_are_shown_in_columns(row: StatusView)
    ensures
        row.pid is Some && row.uptime is Some ==> status_line(row) == table_line(
            row.program,
            decimal(row.id as nat),
            decimal(row.pid->0 as nat),
            row.state,
            decimal((row.uptime->0 / 1_000_000_000) as nat) + seq!['s'],
        ),
        row.pid is None && row.uptime is None ==> status_line(row) == table_line(
            row.program,
            decimal(row.id as nat),
            seq!['-'],
            row.state,
            seq!['-'],
        ),
        row.pid is Some && row.uptime is None ==> status_line(row) == table_line(
            row.program,
            decimal(row.id as nat),
            decimal(row.pid->0 as nat),
            row.state,
            seq!['-'],
        ),
        row.pid is None && row.uptime is Some ==> status_line(row) == table_line(
            row.program,
            decimal(row.id as nat),
            seq!['-'],
            row.state,
            decimal((row.uptime->0 / 1_000_000_000) as nat) + seq!['s'],
        ),
{
    reveal_strlit("s");
    reveal_strlit("-");
    assert("s"@ =~= seq!['s']);
    assert("-"@ =~= seq!['-']);
}

/// The report has a head, a rule of 66 dashes, the line of each row in order, and an empty
/// line; without rows it says that there are no programs.
pub proof fn reports_list_the_rows(rows: Seq<StatusView>, i: int)
    ensures
        rows.len() == 0 ==> report_lines(rows) == seq!["No programs configured."@],
        rows.len() > 0 ==> {
            let lines = report_lines(rows);
            &&& lines.len() == rows.len() + 3
            &&& lines[0] == seq!['\n'] + table_line(
                "PROGRAM"@,
                "INSTANCE"@,
                "PID"@,
                "STATE"@,
                "UPTIME"@,
            )
            &&& lines[1].len() == 66
            &&& lines[1] == repeated('-', 66)
            &&& 0 <= i < rows.len() ==> lines[i + 2] == status_line(rows[i])
            &&& lines[rows.len() as int + 2].len() == 0
        },
        table_head() == seq!['\n'] + table_line(
            "PROGRAM"@,
            "INSTANCE"@,
            "PID"@,
            "STATE"@,
            "UPTIME"@,
        ),
{
    reveal_strlit("\n");
    reveal_strlit("");
    assert("\n"@ =~= seq!['\n']);
}

/// The shell says of a command for one program that it was carried out, on the standard
/// output, or why not, on the standard error.
pub proof fn outcomes_are_told(verb: Seq<char>, name: Seq<char>, error: ProcessError)
    ensures
        outcome_view(verb, name, Ok(())) == MessageView::Out(verb + seq![':', ' '] + name),
        outcome_view(verb, name, Err(error)) == MessageView::Error(
            verb + seq![' '] + name + " failed: "@ + match error {
                ProcessError::Io(text) => text@,
                ProcessError::Spawn(text) => text@,
            },
        ),
{
    reveal_strlit(": ");
    reveal_strlit(" ");
    assert(": "@ =~= seq![':', ' ']);
    assert(" "@ =~= seq![' ']);
}

/// The shell says of a configuration why it was rejected, and of one that is in force now
/// which programs were added, removed, changed and left alone.
pub proof fn reloads_are_told(
    error: Seq<char>,
    added: Seq<char>,
    removed: Seq<char>,
    changed: Seq<char>,
    unchanged: Seq<char>,
)
    ensures
        rejection(error) == MessageView::Error(
            "Reload rejected; current configuration kept: "@ + error,
        ),
        reloaded_text(added, removed, changed, unchanged)
            == "Configuration reloaded. added="@ + added + " removed="@ + removed + " changed="@
            + changed + " unchanged="@ + unchanged,
{
}

} // verus!
