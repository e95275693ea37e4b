//! Laws of the lifecycle logs: what a line holds, and where it goes.
use crate::laws::values::decimals_differ;
use crate::logger::{
    exit_text, log_line, pid_text, stamp_text, LogError, LogEvent, LogEventView, LoggersView,
};
use crate::numbers::{decimal, signed_decimal};
use crate::single_log;
use vstd::prelude::*;

verus! {

/// Whether a line has a stamp in brackets, the name of an event, the program and the
/// number of the instance, `rest`, and a line's end.
pub open spec fn tells(
    line: Seq<char>,
    stamp: Seq<char>,
    kind: Seq<char>,
    program: Seq<char>,
    id: usize,
    rest: Seq<char>,
) -> bool {
    line == seq!['['] + stamp + seq![']', ' '] + kind + " program="@ + program + " id="@ + decimal(
        id as nat,
    ) + rest + seq!['\n']
}

/// The line of an event about an instance tells the moment, the event, the program, the
/// instance, and what there is to know of the event.
pub proof fn lines_tell_the_event(
    stamp: Seq<char>,
    program: Seq<char>,
    id: usize,
    pid: u32,
    code: i32,
    attempts: u32,
    reason: Seq<char>,
)
    ensures
        tells(
            log_line(LogEventView::Start { program, id, pid: Some(pid) }, stamp),
            stamp,
            "START"@,
            program,
            id,
            " pid="@ + decimal(pid as nat),
        ),
        tells(
            log_line(LogEventView::Start { program, id, pid: None }, stamp),
            stamp,
            "START"@,
            program,
            id,
            " pid=-"@,
        ),
        tells(
            log_line(LogEventView::Stop { program, id }, stamp),
            stamp,
            "STOP"@,
            program,
            id,
            Seq::empty(),
        ),
        tells(
            log_line(LogEventView::Restart { program, id, reason }, stamp),
            stamp,
            "RESTART"@,
            program,
            id,
            " reason="@ + reason,
        ),
        tells(
            log_line(LogEventView::Crash { program, id, exit_code: Some(code) }, stamp),
            stamp,
            "CRASH"@,
            program,
            id,
            " exit_code="@ + signed_decimal(code as int),
        ),
        tells(
            log_line(LogEventView::Crash { program, id, exit_code: None }, stamp),
            stamp,
            "CRASH"@,
            program,
            id,
            " exit_code=signal"@,
        ),
        tells(
            log_line(LogEventView::Fatal { program, id, attempts }, stamp),
            stamp,
            "FATAL"@,
            program,
            id,
            " attempts="@ + decimal(attempts as nat),
        ),
{
    heads_are_joined();
    let head = |kind: Seq<char>|
        "["@ + stamp + (seq![']', ' '] + kind + " program="@) + program + " id="@ + decimal(
            id as nat,
        );
    line_is_joined(stamp, "START"@, program, id, " pid="@ + decimal(pid as nat));
    line_is_joined(stamp, "START"@, program, id, " pid=-"@);
    line_is_joined(stamp, "STOP"@, program, id, Seq::empty());
    line_is_joined(stamp, "RESTART"@, program, id, " reason="@ + reason);
    line_is_joined(stamp, "CRASH"@, program, id, " exit_code="@ + signed_decimal(code as int));
    line_is_joined(stamp, "CRASH"@, program, id, " exit_code=signal"@);
    line_is_joined(stamp, "FATAL"@, program, id, " attempts="@ + decimal(attempts as nat));
    in_either_grouping(head("START"@), " pid="@, decimal(pid as nat));
    in_either_grouping(head("START"@), " pid="@, "-"@);
    in_either_grouping(head("RESTART"@), " reason="@, reason);
    in_either_grouping(head("CRASH"@), " exit_code="@, signed_decimal(code as int));
    in_either_grouping(head("CRASH"@), " exit_code="@, "signal"@);
    in_either_grouping(head("FATAL"@), " attempts="@, decimal(attempts as nat));
    assert(head("STOP"@) + Seq::empty() =~= head("STOP"@));
}

proof fn in_either_grouping(a: Seq<char>, b: Seq<char>, c: Seq<char>)
    ensures
        a + b + c == a + (b + c),
{
    assert(a + b + c =~= a + (b + c));
}

proof fn line_is_joined(
    stamp: Seq<char>,
    kind: Seq<char>,
    program: Seq<char>,
    id: usize,
    rest: Seq<char>,
)
    ensures
        tells(
            "["@ + stamp + (seq![']', ' '] + kind + " program="@) + program + " id="@ + decimal(
                id as nat,
            ) + rest + "\n"@,
            stamp,
            kind,
            program,
            id,
            rest,
        ),
{
    heads_are_joined();
    let first = "["@ + stamp;
    let mark = seq![']', ' '];
    in_either_grouping(first, mark + kind, " program="@);
    in_either_grouping(first, mark, kind);
}

proof fn heads_are_joined()
    ensures
        "["@ == seq!['['],
        "\n"@ == seq!['\n'],
        "] START program="@ == seq![']', ' '] + "START"@ + " program="@,
        "] STOP program="@ == seq![']', ' '] + "STOP"@ + " program="@,
        "] RESTART program="@ == seq![']', ' '] + "RESTART"@ + " program="@,
        "] CRASH program="@ == seq![']', ' '] + "CRASH"@ + " program="@,
        "] FATAL program="@ == seq![']', ' '] + "FATAL"@ + " program="@,
        " pid=-"@ == " pid="@ + "-"@,
        " exit_code=signal"@ == " exit_code="@ + "signal"@,
        " exit_code=-"@ == " exit_code="@ + "-"@,
{
    reveal_strlit("[");
    reveal_strlit("\n");
    reveal_strlit("] START program=");
    reveal_strlit("] STOP program=");
    reveal_strlit("] RESTART program=");
    reveal_strlit("] CRASH program=");
    reveal_strlit("] FATAL program=");
    reveal_strlit("START");
    reveal_strlit("STOP");
    reveal_strlit("RESTART");
    reveal_strlit("CRASH");
    reveal_strlit("FATAL");
    reveal_strlit(" program=");
    reveal_strlit(" pid=-");
    reveal_strlit(" pid=");
    reveal_strlit("-");
    reveal_strlit(" exit_code=signal");
    reveal_strlit(" exit_code=-");
    reveal_strlit(" exit_code=");
    reveal_strlit("signal");
    assert("["@ =~= seq!['[']);
    assert("\n"@ =~= seq!['\n']);
    assert("] START program="@ =~= seq![']', ' '] + "START"@ + " program="@);
    assert("] STOP program="@ =~= seq![']', ' '] + "STOP"@ + " program="@);
    assert("] RESTART program="@ =~= seq![']', ' '] + "RESTART"@ + " program="@);
    assert("] CRASH program="@ =~= seq![']', ' '] + "CRASH"@ + " program="@);
    assert("] FATAL program="@ =~= seq![']', ' '] + "FATAL"@ + " program="@);
    assert(" pid=-"@ =~= " pid="@ + "-"@);
    assert(" exit_code=signal"@ =~= " exit_code="@ + "signal"@);
    assert(" exit_code=-"@ =~= " exit_code="@ + "-"@);
}

/// The line of a change of configuration tells where the configuration came from, and a
/// dash where that is not known.
pub proof fn reloads_tell_their_source(stamp: Seq<char>, path: Seq<char>)
    ensures
        log_line(LogEventView::ConfigReload { source: Some(path) }, stamp) == seq!['['] + stamp
            + "] CONFIG_RELOAD source="@ + path + seq!['\n'],
        log_line(LogEventView::ConfigReload { source: None }, stamp) == seq!['['] + stamp
            + "] CONFIG_RELOAD source="@ + seq!['-', '\n'],
{
    reveal_strlit("[");
    reveal_strlit("\n");
    reveal_strlit("-");
    assert(log_line(LogEventView::ConfigReload { source: Some(path) }, stamp) =~= seq!['['] + stamp
        + "] CONFIG_RELOAD source="@ + path + seq!['\n']);
    assert(log_line(LogEventView::ConfigReload { source: None }, stamp) =~= seq!['['] + stamp
        + "] CONFIG_RELOAD source="@ + seq!['-', '\n']);
}

/// The log in one file has the lines of the other log, but for a death by a signal, of
/// which it says a dash.
pub proof fn both_logs_have_the_same_lines(stamp: Seq<char>, event: LogEvent)
    ensures
        match event {
            LogEvent::Start { program, id, pid } => single_log::event_line(
                single_log::LogEvent::Start { program, id, pid },
                stamp,
            ) == log_line(event@, stamp),
            LogEvent::Stop { program, id } => single_log::event_line(
                single_log::LogEvent::Stop { program, id },
                stamp,
            ) == log_line(event@, stamp),
            LogEvent::Restart { program, id, reason } => single_log::event_line(
                single_log::LogEvent::Restart { program, id, reason },
                stamp,
            ) == log_line(event@, stamp),
            LogEvent::Crash { program, id, exit_code } => {
                let line = single_log::event_line(
                    single_log::LogEvent::Crash { program, id, exit_code },
                    stamp,
                );
                &&& exit_code is Some ==> line == log_line(event@, stamp)
                &&& exit_code is None ==> tells(
                    line,
                    stamp,
                    "CRASH"@,
                    program@,
                    id,
                    " exit_code=-"@,
                )
            },
            LogEvent::Fatal { .. } => true,
            LogEvent::ConfigReload { source } => single_log::event_line(
                single_log::LogEvent::ConfigReload { source },
                stamp,
            ) == log_line(event@, stamp),
        },
{
    heads_are_joined();
    if let LogEvent::Crash { program, id, exit_code } = event {
        if exit_code is None {
            let line = single_log::event_line(
                single_log::LogEvent::Crash { program, id, exit_code },
                stamp,
            );
            assert(line =~= seq!['['] + stamp + seq![']', ' '] + "CRASH"@ + " program="@ + program@
                + " id="@ + decimal(id as nat) + " exit_code=-"@ + seq!['\n']);
        }
    }
}

/// An event is about the program that it names; a change of configuration is about none.
pub proof fn events_name_their_program(
    program: Seq<char>,
    id: usize,
    pid: Option<u32>,
    code: Option<i32>,
    attempts: u32,
    text: Seq<char>,
    source: Option<Seq<char>>,
)
    ensures
        (LogEventView::Start { program, id, pid }).program() == Some(program),
        (LogEventView::Stop { program, id }).program() == Some(program),
        (LogEventView::Restart { program, id, reason: text }).program() == Some(program),
        (LogEventView::Crash { program, id, exit_code: code }).program() == Some(program),
        (LogEventView::Fatal { program, id, attempts }).program() == Some(program),
        (LogEventView::ConfigReload { source }).program() is None,
{
}

/// The view of an event shows each of its parts.
pub proof fn events_show_their_parts(event: LogEvent)
    ensures
        match (event, event@) {
            (
                LogEvent::Start { program, id, pid },
                LogEventView::Start { program: p, id: i, pid: n },
            ) => p == program@ && i == id && n == pid,
            (LogEvent::Stop { program, id }, LogEventView::Stop { program: p, id: i }) => p
                == program@ && i == id,
            (
                LogEvent::Restart { program, id, reason },
                LogEventView::Restart { program: p, id: i, reason: r },
            ) => p == program@ && i == id && r == reason@,
            (
                LogEvent::Crash { program, id, exit_code },
                LogEventView::Crash { program: p, id: i, exit_code: c },
            ) => p == program@ && i == id && c == exit_code,
            (
                LogEvent::Fatal { program, id, attempts },
                LogEventView::Fatal { program: p, id: i, attempts: a },
            ) => p == program@ && i == id && a == attempts,
            (LogEvent::ConfigReload { source }, LogEventView::ConfigReload { source: s }) => {
                &&& source is Some == s is Some
                &&& source is Some ==> s->0 == source->0@
            },
            _ => false,
        },
{
}

/// The stamp has the seconds, a point, the milliseconds in three digits and a `Z`. Two
/// moments have two stamps.
pub proof fn stamps_show_the_moment(secs: u64, millis: u32)
    requires
        millis < 1000,
    ensures
        stamp_text(secs, millis).len() == decimal(secs as nat).len() + 5,
        stamp_text(secs, millis).take(decimal(secs as nat).len() as int) == decimal(secs as nat),
        ({
            let stamp = stamp_text(secs, millis);
            let n = decimal(secs as nat).len() as int;
            &&& stamp[n] == '.'
            &&& stamp[n + 1] as u32 == '0' as u32 + millis / 100
            &&& stamp[n + 2] as u32 == '0' as u32 + millis / 10 % 10
            &&& stamp[n + 3] as u32 == '0' as u32 + millis % 10
            &&& stamp[n + 4] == 'Z'
        }),
{
    reveal_strlit(".");
    reveal_strlit("Z");
    reveal_with_fuel(decimal, 4);
    let secs_text = decimal(secs as nat);
    let stamp = stamp_text(secs, millis);
    let shown = decimal(millis as nat);
    let fraction = crate::numbers::flush_right(shown, 3, '0');
    assert(stamp =~= secs_text + seq!['.'] + fraction + seq!['Z']);
    if millis < 10 {
        assert(shown.len() == 1);
    } else if millis < 100 {
        assert(shown.len() == 2);
    } else {
        assert(shown.len() == 3);
    }
    assert(fraction.len() == 3);
    assert(stamp.take(secs_text.len() as int) =~= secs_text);
    let n = secs_text.len() as int;
    assert(stamp[n] == '.');
    assert(stamp[n + 1] == fraction[0] && stamp[n + 2] == fraction[1] && stamp[n + 3] == fraction[2]);
    assert(stamp[n + 4] == 'Z');
}

/// Each moment of the years from -262143 to 262142 has a stamp in the log of one file, if
/// its nanoseconds are less than a second, or less than two where they tell of a leap
/// second: at the end of a minute.
pub proof fn moments_have_stamps(secs: i64, nanos: u32)
    ensures
        single_log::has_stamp(secs, nanos) ==> -8334601228800 <= secs <= 8210266876799,
        single_log::has_stamp(secs, nanos) ==> nanos < 2_000_000_000,
        single_log::has_stamp(secs, nanos) && nanos >= 1_000_000_000 ==> secs % 60 == 59,
        -8334601228800 <= secs <= 8210266876799 && nanos < 1_000_000_000 ==> single_log::has_stamp(
            secs,
            nanos,
        ),
        -8334601228800 <= secs <= 8210266876799 && nanos < 2_000_000_000 && secs % 60 == 59
            ==> single_log::has_stamp(secs, nanos),
{
}

/// The words for what is not known: a dash for a process, `signal` for an exit code.
pub proof fn what_is_not_known_is_marked(pid: u32, code: i32)
    ensures
        pid_text(Some(pid)) == decimal(pid as nat),
        pid_text(None) == "-"@,
        exit_text(Some(code)) == signed_decimal(code as int),
        exit_text(None) == "signal"@,
        single_log::number_text(None) == "-"@,
        single_log::number_text(Some(code as int)) == signed_decimal(code as int),
        LogError::AlreadyInitialized.text() == "global logger already initialized"@,
        LogError::NoLogger.text() == "no logger registered for event"@,
{
}

/// An event goes to the log of its program if that has one, else to the global log; it
/// goes nowhere if there is neither.
pub proof fn events_go_to_one_log(
    loggers: LoggersView,
    program: Seq<char>,
    other: Seq<char>,
    file: u64,
)
    requires
        other != program,
    ensures
        loggers.programs.contains_key(program) ==> loggers.route(Some(program)) == Some(
            loggers.programs[program],
        ),
        !loggers.programs.contains_key(program) ==> loggers.route(Some(program)) == loggers.global,
        loggers.route(None) == loggers.global,
        loggers.with_program(program, file).programs.contains_key(program),
        loggers.with_program(program, file).programs[program] == file,
        loggers.with_program(program, file).global == loggers.global,
        loggers.with_program(program, file).programs.contains_key(other)
            == loggers.programs.contains_key(other),
        loggers.with_program(program, file).programs[other] == loggers.programs[other],
        !loggers.without_program(program).programs.contains_key(program),
        loggers.without_program(program).global == loggers.global,
        loggers.without_program(program).programs.contains_key(other)
            == loggers.programs.contains_key(other),
        loggers.programs.contains_key(other) ==> loggers.without_program(program).programs[other]
            == loggers.programs[other],
{
}

/// Two stops of one program at one moment have the same line only if they are of the same
/// instance.
pub proof fn lines_tell_instances_apart(stamp: Seq<char>, program: Seq<char>, a: usize, b: usize)
    requires
        log_line(LogEventView::Stop { program, id: a }, stamp) == log_line(
            LogEventView::Stop { program, id: b },
            stamp,
        ),
    ensures
        a == b,
{
    reveal_strlit("\n");
    let head = "["@ + stamp + "] STOP program="@ + program + " id="@;
    let one = log_line(LogEventView::Stop { program, id: a }, stamp);
    let two = log_line(LogEventView::Stop { program, id: b }, stamp);
    assert(one =~= head + decimal(a as nat) + "\n"@);
    assert(two =~= head + decimal(b as nat) + "\n"@);
    assert(one.subrange(head.len() as int, one.len() - 1) =~= decimal(a as nat));
    assert(two.subrange(head.len() as int, two.len() - 1) =~= decimal(b as nat));
    if a != b {
        decimals_differ(a as nat, b as nat);
    }
}

} // verus!
