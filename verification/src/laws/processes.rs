//! Laws of one process: its launch, the looks at it and its stop.
use crate::config::ProgramView;
use crate::instance::{
    command_of, launched, mapped_signal, plan_of, poll_of, signal_number, stop_of,
    target_of, CommandLineView, InstanceView, OutputTargetView, ProcessError, ProcessErrorView,
    ProcessPoll, StopActionView, StopRunView, StopStage, Waited, EPERM, SIGKILL,
};
use crate::laws::values::written_numbers_are_read;
use crate::logger::LogEventView;
use crate::numbers::{decimal, parsed_i32, signed_decimal};
use crate::platform::{null_device, Platform};
use crate::text::{trimmed, uppercase, words};
use vstd::prelude::*;

verus! {

/// The time that a group is given runs from the moment at which it was told to stop, and
/// no other. While it lives and that time is not over, it is looked at, then left alone
/// for a moment, then looked at again; nothing else is done to it.
pub proof fn the_grace_runs_from_the_signal(run: StopRunView, replies: Seq<(u128, bool)>)
    requires
        run.stage == StopStage::Signalling,
        replies.len() >= 1,
        forall|i: int|
            1 <= i < replies.len() ==> (#[trigger] replies[i]).1 && run.stoptime > 0
                && replies[i].0 < replies[0].0 + run.stoptime * 1_000_000_000,
    ensures
        run.advanced_by(replies).asked_at == replies[0].0,
        replies.len() % 2 == 1 ==> run.advanced_by(replies).action() == (StopActionView::Check {
            pid: run.pid,
        }),
        replies.len() % 2 == 0 ==> run.advanced_by(replies).action() == (StopActionView::Pause {
            millis: 25,
        }),
    decreases replies.len(),
{
    a_stop_keeps_to_its_process(run, replies);
    let earlier = replies.drop_last();
    if replies.len() == 1 {
        reveal_with_fuel(StopRunView::advanced_by, 2);
        assert(replies.last() == replies[0]);
    } else {
        assert forall|i: int| 1 <= i < earlier.len() implies (#[trigger] earlier[i]).1
            && run.stoptime > 0 && earlier[i].0 < earlier[0].0 + run.stoptime * 1_000_000_000 by {
            assert(earlier[i] == replies[i]);
        }
        assert(earlier[0] == replies[0]);
        the_grace_runs_from_the_signal(run, earlier);
        a_stop_keeps_to_its_process(run, earlier);
        assert(replies.last() == replies[replies.len() - 1]);
    }
}

/// A group that lives on when its time is over is looked for once more and killed, its
/// process is awaited, and the stop is recorded: whatever looks went before.
pub proof fn the_grace_ends_in_a_kill(
    run: StopRunView,
    replies: Seq<(u128, bool)>,
    over: u128,
    second: u128,
    third: (u128, bool),
    fourth: (u128, bool),
)
    requires
        run.stage == StopStage::Signalling,
        replies.len() >= 1,
        replies.len() % 2 == 1,
        forall|i: int|
            1 <= i < replies.len() ==> (#[trigger] replies[i]).1 && run.stoptime > 0
                && replies[i].0 < replies[0].0 + run.stoptime * 1_000_000_000,
        over >= replies[0].0 + run.stoptime * 1_000_000_000 || run.stoptime == 0,
    ensures
        ({
            let looked = run.advanced_by(replies).advanced(over, true);
            let found = looked.advanced(second, true);
            let killed = found.advanced(third.0, third.1);
            let awaited = killed.advanced(fourth.0, fourth.1);
            &&& looked.action() == (StopActionView::Recheck { pid: run.pid })
            &&& found.action() == (StopActionView::Kill { pid: run.pid })
            &&& killed.action() == (StopActionView::Wait { pid: run.pid })
            &&& awaited.action() == StopActionView::Finished(
                LogEventView::Stop { program: run.program, id: run.id },
            )
        }),
{
    the_grace_runs_from_the_signal(run, replies);
    a_stop_keeps_to_its_process(run, replies);
}

/// A group that is gone when it is looked at, in its time or after it, is looked for once
/// more. If it is gone then, its process is awaited and the stop is recorded, and nothing
/// is killed; if it is there after all, it is killed.
pub proof fn what_ends_in_time_is_not_killed(
    run: StopRunView,
    replies: Seq<(u128, bool)>,
    seen: u128,
    again: u128,
    last: (u128, bool),
)
    requires
        run.stage == StopStage::Signalling,
        replies.len() % 2 == 1,
        forall|i: int|
            1 <= i < replies.len() ==> (#[trigger] replies[i]).1 && run.stoptime > 0
                && replies[i].0 < replies[0].0 + run.stoptime * 1_000_000_000,
    ensures
        ({
            let looked = run.advanced_by(replies).advanced(seen, false);
            let gone = looked.advanced(again, false);
            let there = looked.advanced(again, true);
            &&& looked.action() == (StopActionView::Recheck { pid: run.pid })
            &&& gone.action() == (StopActionView::Wait { pid: run.pid })
            &&& there.action() == (StopActionView::Kill { pid: run.pid })
            &&& gone.advanced(last.0, last.1).action() == StopActionView::Finished(
                LogEventView::Stop { program: run.program, id: run.id },
            )
        }),
{
    the_grace_runs_from_the_signal(run, replies);
    a_stop_keeps_to_its_process(run, replies);
}

/// A stop keeps to its process, its signal and its time. It signals first and never
/// again, kills nothing that the last look showed to be gone, ends only once the process
/// was awaited, and stays ended.
pub proof fn a_stop_keeps_to_its_process(run: StopRunView, replies: Seq<(u128, bool)>)
    requires
        run.stage == StopStage::Signalling,
    ensures
        ({
            let after = run.advanced_by(replies);
            &&& after.pid == run.pid && after.program == run.program && after.id == run.id
            &&& after.signal == run.signal && after.stoptime == run.stoptime
            &&& run.action() == (StopActionView::Signal { pid: run.pid, signal: run.signal })
            &&& replies.len() > 0 ==> !(after.action() is Signal)
            &&& replies.len() > 0 && !replies.last().1 ==> !(after.action() is Kill)
            &&& replies.len() > 0 && after.action() is Finished ==> {
                let before = run.advanced_by(replies.drop_last());
                before.action() is Wait || before.action() is Finished
            }
            &&& after.action() is Finished ==> forall|now: u128, alive: bool| #[trigger]
                after.advanced(now, alive).action() == after.action()
        }),
    decreases replies.len(),
{
    if replies.len() > 0 {
        a_stop_keeps_to_its_process(run, replies.drop_last());
    }
}

/// What is stopped is what was launched: the process, under its name and number, with the
/// signal and within the time that its program asks for. Where no group can be signalled
/// it is killed. An instance without a process needs no stop, and a stop signal that is
/// none is refused.
pub proof fn stops_follow_the_program(
    name: Seq<char>,
    id: usize,
    program: ProgramView,
    pid: u32,
    now: u128,
    platform: Platform,
)
    ensures
        ({
            let instance = launched(name, id, program, pid, now);
            let wanted = match program.stopsignal {
                Some(signal) => signal,
                None => "TERM"@,
            };
            let begun = stop_of(instance, platform);
            &&& stop_of(InstanceView { child: None, ..instance }, platform) == Ok::<
                Option<StopRunView>,
                ProcessErrorView,
            >(None)
            &&& begun is Ok ==> {
                let run = begun->Ok_0->0;
                &&& begun->Ok_0 is Some
                &&& run.pid == pid && run.program == name && run.id == id
                &&& run.stoptime == program.stoptime
                &&& platform.unix() ==> run.stage == StopStage::Signalling && mapped_signal(
                    wanted,
                    platform,
                ) is Some && run.signal == mapped_signal(wanted, platform)->0 as i32
                &&& !platform.unix() ==> run.action() == (StopActionView::Kill { pid })
            }
            &&& begun is Err <==> (platform.unix() && mapped_signal(wanted, platform) is None)
            &&& begun is Err ==> begun->Err_0 == ProcessErrorView::Spawn(
                "invalid stop signal '"@ + wanted + "'"@,
            )
            &&& instance.started_at == Some(now) && instance.child == Some(pid)
            &&& instance.stdout_path == program.stdout && instance.stderr_path == program.stderr
        }),
{
}

/// The signals have the numbers that the system gives them, with `SIG` before their
/// names or without.
pub proof fn signals_have_their_numbers(platform: Platform)
    ensures
        signal_number("HUP"@, platform) == Some(1int),
        signal_number("INT"@, platform) == Some(2int),
        signal_number("QUIT"@, platform) == Some(3int),
        signal_number("KILL"@, platform) == Some(9int),
        signal_number("TERM"@, platform) == Some(15int),
        signal_number("SIGHUP"@, platform) == signal_number("HUP"@, platform),
        signal_number("SIGINT"@, platform) == signal_number("INT"@, platform),
        signal_number("SIGQUIT"@, platform) == signal_number("QUIT"@, platform),
        signal_number("SIGKILL"@, platform) == signal_number("KILL"@, platform),
        signal_number("SIGTERM"@, platform) == signal_number("TERM"@, platform),
        signal_number("SIGUSR1"@, platform) == signal_number("USR1"@, platform),
        signal_number("SIGUSR2"@, platform) == signal_number("USR2"@, platform),
        platform is Linux || platform is OtherUnix ==> signal_number("USR1"@, platform) == Some(
            10int,
        ) && signal_number("USR2"@, platform) == Some(12int),
        platform is Bsd ==> signal_number("USR1"@, platform) == Some(30int) && signal_number(
            "USR2"@,
            platform,
        ) == Some(31int),
        SIGKILL == 9,
        EPERM == 1,
        platform is Solaris ==> signal_number("USR1"@, platform) == Some(16int) && signal_number(
            "USR2"@,
            platform,
        ) == Some(17int),
{
    reveal_strlit("HUP");
    reveal_strlit("INT");
    reveal_strlit("QUIT");
    reveal_strlit("KILL");
    reveal_strlit("TERM");
    reveal_strlit("USR1");
    reveal_strlit("USR2");
    reveal_strlit("SIGHUP");
    reveal_strlit("SIGINT");
    reveal_strlit("SIGQUIT");
    reveal_strlit("SIGKILL");
    reveal_strlit("SIGTERM");
    reveal_strlit("SIGUSR1");
    reveal_strlit("SIGUSR2");
    assert("HUP"@[0] == 'H' && "INT"@[0] == 'I' && "QUIT"@[0] == 'Q' && "KILL"@[0] == 'K');
    assert("TERM"@[0] == 'T' && "USR1"@[3] == '1' && "USR2"@[3] == '2' && "USR1"@[0] == 'U');
    assert("USR2"@[0] == 'U');
    assert("SIGHUP"@[3] == 'H' && "SIGINT"@[3] == 'I' && "SIGQUIT"@[3] == 'Q');
    assert("SIGKILL"@[3] == 'K' && "SIGTERM"@[3] == 'T' && "SIGUSR1"@[6] == '1');
    assert("SIGUSR2"@[6] == '2' && "SIGUSR1"@[3] == 'U' && "SIGUSR2"@[3] == 'U');
}

/// No text but those fourteen is the name of a signal.
pub proof fn other_texts_name_no_signal(upper: Seq<char>, platform: Platform)
    requires
        upper != "HUP"@ && upper != "INT"@ && upper != "QUIT"@ && upper != "KILL"@,
        upper != "TERM"@ && upper != "USR1"@ && upper != "USR2"@,
        upper != "SIGHUP"@ && upper != "SIGINT"@ && upper != "SIGQUIT"@ && upper != "SIGKILL"@,
        upper != "SIGTERM"@ && upper != "SIGUSR1"@ && upper != "SIGUSR2"@,
    ensures
        signal_number(upper, platform) is None,
{
}

/// A signal is given by its number, if that is positive, or else by its name.
pub proof fn signals_go_by_number_or_name(n: int, name: Seq<char>, platform: Platform)
    ensures
        0 < n <= i32::MAX ==> mapped_signal(decimal(n as nat), platform) == Some(n),
        i32::MIN <= n <= 0 ==> mapped_signal(signed_decimal(n), platform) is None,
        parsed_i32(name) is None ==> mapped_signal(name, platform) == signal_number(
            uppercase(trimmed(name)),
            platform,
        ),
        mapped_signal(name, platform) is Some ==> mapped_signal(name, platform)->0 > 0,
{
    if i32::MIN <= n <= i32::MAX {
        written_numbers_are_read(n);
    }
}

/// The output of a program goes to the file that it names, and nowhere where it names
/// none; each of its two outputs goes its own way.
pub proof fn outputs_go_where_they_should(program: ProgramView, platform: Platform)
    ensures
        program.stdout is Some ==> plan_of(program, platform).stdout == OutputTargetView::Append(
            program.stdout->0,
        ),
        program.stderr is Some ==> plan_of(program, platform).stderr == OutputTargetView::Append(
            program.stderr->0,
        ),
        program.stdout is None ==> plan_of(program, platform).stdout == OutputTargetView::Discard(
            if platform is Windows {
                "NUL"@
            } else {
                "/dev/null"@
            },
        ),
        program.stderr is None ==> plan_of(program, platform).stderr == target_of(None, platform),
        target_of(None, platform) == OutputTargetView::Discard(null_device(platform)),
{
}

/// A command reaches the shell of the system as it was written, and a system without one
/// as its words.
pub proof fn commands_are_run_as_written(program: ProgramView, platform: Platform)
    ensures
        ({
            let command = plan_of(program, platform).command;
            &&& platform is Linux || platform is Bsd || platform is Solaris
                || platform is OtherUnix ==> command is Ok && command->Ok_0.executable
                == "/bin/sh"@ && command->Ok_0.args == seq!["-c"@, program.cmd]
            &&& platform is Windows ==> command is Ok && command->Ok_0.executable == "cmd.exe"@
                && command->Ok_0.args == seq!["/S"@, "/C"@, program.cmd]
            &&& platform is Other && words(program.cmd).len() > 0 ==> command is Ok && seq![
                command->Ok_0.executable,
            ] + command->Ok_0.args == words(program.cmd)
            &&& platform is Other && words(program.cmd).len() == 0 ==> command == Err::<
                CommandLineView,
                ProcessErrorView,
            >(ProcessErrorView::Spawn("empty cmd"@))
            &&& command == command_of(program.cmd, platform)
        }),
{
    if platform is Other && words(program.cmd).len() > 0 {
        let parts = words(program.cmd);
        assert(seq![parts[0]] + parts.drop_first() =~= parts);
    }
}

/// A process gets the working directory and the variables of its program; a group of its
/// own and the mask only where the system has them.
pub proof fn processes_get_their_surroundings(program: ProgramView, platform: Platform)
    ensures
        plan_of(program, platform).workingdir == program.workingdir,
        plan_of(program, platform).env == program.env,
        plan_of(program, platform).new_group <==> !(platform is Windows || platform is Other),
        platform is Windows || platform is Other ==> plan_of(program, platform).umask is None,
        !(platform is Windows || platform is Other) ==> plan_of(program, platform).umask
            == program.umask,
{
}

/// A look shows what the system answered, and that there is no process where there is
/// none.
pub proof fn looks_show_the_answer(pid: u32, code: Option<i32>, error: ProcessError, waited: Waited)
    ensures
        poll_of(Some(pid), Waited::Running) == Ok::<ProcessPoll, ProcessError>(
            ProcessPoll::Running,
        ),
        poll_of(Some(pid), Waited::Exited(code)) == Ok::<ProcessPoll, ProcessError>(
            ProcessPoll::Exited(code),
        ),
        poll_of(Some(pid), Waited::Failed(error)) == Err::<ProcessPoll, ProcessError>(error),
        poll_of(None, waited) == Ok::<ProcessPoll, ProcessError>(ProcessPoll::Stopped),
{
}

} // verus!
