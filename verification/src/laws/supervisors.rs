//! Laws of all programs together: their state, their end, and the look at all of them.
use crate::config::ConfigView;
use crate::instance::{has_lasted, ProcessErrorView, ProcessPoll};
use crate::manager::{PassAction, PassView, ProcessStatus};
use crate::order::{text_le, Ranked};
use crate::supervisor::{
    first_open, first_open_bounds, row_precedes, unknown_program, ProgramPassView, SupervisorView,
    SweepActionView, SweepView, WaitStep, TICK_MILLIS, WAIT_MILLIS,
};
use vstd::prelude::*;

verus! {

/// A new supervisor has the programs of its configuration, in its order, and nothing runs
/// of any of them.
pub proof fn a_new_supervisor_is_idle(config: ConfigView, name: Seq<char>, id: usize)
    ensures
        ({
            let supervisor = SupervisorView::fresh(config);
            let group = supervisor.groups[name];
            &&& supervisor.names == config.names
            &&& !supervisor.running && !supervisor.attached
            &&& supervisor.groups.contains_key(name) <==> config.programs.contains_key(name)
            &&& config.programs.contains_key(name) ==> {
                &&& group.name == name && group.program == config.programs[name]
                &&& !group.instances.contains_key(id) && group.failures_of(id) == 0
                &&& !group.fatal.contains(id) && !group.stopped.contains(id)
            }
        }),
{
}

/// To stop the supervisor stops each program and changes no program; what runs of each is
/// handed out, program by program.
pub proof fn a_stop_reaches_every_program(
    supervisor: SupervisorView,
    name: Seq<char>,
    id: usize,
    i: int,
)
    ensures
        ({
            let after = supervisor.stopped();
            let out = supervisor.instances_of(supervisor.names);
            &&& after.names == supervisor.names
            &&& !after.running && !after.attached
            &&& after.groups.contains_key(name) <==> supervisor.groups.contains_key(name)
            &&& supervisor.groups.contains_key(name) ==> {
                let group = after.groups[name];
                &&& group.program == supervisor.groups[name].program
                &&& group.name == supervisor.groups[name].name
                &&& !group.instances.contains_key(id) && group.failures_of(id) == 0
                &&& !group.fatal.contains(id)
                &&& group.stopped.contains(id) <==> id < group.program.numprocs
            }
            &&& out.len() == supervisor.names.len()
            &&& 0 <= i < out.len() ==> out[i] == (
                supervisor.names[i],
                supervisor.groups[supervisor.names[i]].instances,
            )
        }),
{
}

/// While an instance of any program has a process, all that is to be done is to wait for
/// 25 milliseconds, until the time is over; nothing is waited for once none has.
pub proof fn the_end_is_waited_for(
    supervisor: SupervisorView,
    started: u128,
    now: u128,
    timeout_secs: u64,
)
    requires
        started <= now,
    ensures
        ({
            let step = supervisor.wait_step(started, now, timeout_secs);
            let runs = exists|name: Seq<char>, id: usize|
                #![trigger supervisor.groups[name].instances.contains_key(id)]
                supervisor.groups.contains_key(name) && supervisor.groups[name].instances.contains_key(
                    id,
                );
            &&& step == WaitStep::Stopped <==> !runs
            &&& step == WaitStep::TimedOut <==> runs && now - started >= timeout_secs
                * 1_000_000_000
            &&& step == (WaitStep::Pause { millis: 25 }) <==> runs && now - started < timeout_secs
                * 1_000_000_000
            &&& supervisor.idle() <==> !runs
        }),
        WAIT_MILLIS == 25,
        TICK_MILLIS == 100,
{
    let runs = exists|name: Seq<char>, id: usize|
        #![trigger supervisor.groups[name].instances.contains_key(id)]
        supervisor.groups.contains_key(name) && supervisor.groups[name].instances.contains_key(id);
    if runs {
        let (name, id) = choose|name: Seq<char>, id: usize|
            #![trigger supervisor.groups[name].instances.contains_key(id)]
            supervisor.groups.contains_key(name) && supervisor.groups[name].instances.contains_key(
                id,
            );
        assert(supervisor.groups.contains_key(name));
        assert(supervisor.groups[name].instances.dom().contains(id));
        assert(!Set::<usize>::empty().contains(id));
    } else {
        assert forall|name: Seq<char>| #[trigger] supervisor.groups.contains_key(name) implies
            supervisor.groups[name].instances.dom().is_empty() by {
            let ids = supervisor.groups[name].instances.dom();
            if !ids.is_empty() {
                let id = ids.choose();
                assert(ids.contains(id));
                assert(supervisor.groups[name].instances.contains_key(id));
            }
        }
    }
}

/// Another state of one program leaves all else as it is.
pub proof fn one_program_is_touched(
    supervisor: SupervisorView,
    name: Seq<char>,
    group: crate::manager::GroupView,
    other: Seq<char>,
)
    requires
        other != name,
    ensures
        ({
            let after = supervisor.with_group(name, group);
            &&& after.groups.contains_key(name) && after.groups[name] == group
            &&& after.groups.contains_key(other) == supervisor.groups.contains_key(other)
            &&& after.groups[other] == supervisor.groups[other]
            &&& after.names == supervisor.names
            &&& after.running == supervisor.running && after.attached == supervisor.attached
        }),
{
}

/// A supervisor is sound if each of its names stands for one program, under that name,
/// with sound states.
pub proof fn sound_supervisors_know_their_programs(supervisor: SupervisorView, name: Seq<char>)
    requires
        supervisor.wf(),
    ensures
        supervisor.names.no_duplicates(),
        supervisor.groups.contains_key(name) <==> supervisor.names.contains(name),
        supervisor.groups.contains_key(name) ==> supervisor.groups[name].name == name
            && supervisor.groups[name].wf(),
{
}

/// A look at all programs is over exactly if nothing is left to be done for any of them.
/// Else what is next is the next thing for the first program of which something is left.
pub proof fn programs_are_looked_at_in_order(sweep: SweepView, i: int)
    requires
        0 <= i < sweep.passes.len(),
    ensures
        sweep.action() is Done <==> forall|k: int|
            0 <= k < sweep.passes.len() ==> (#[trigger] sweep.passes[k]).pass.action() is Done,
        (forall|k: int| 0 <= k < i ==> (#[trigger] sweep.passes[k]).pass.action() is Done)
            && !(sweep.passes[i].pass.action() is Done) ==> {
            &&& sweep.at() == i
            &&& sweep.current() == sweep.passes[i]
            &&& sweep.action() == match sweep.passes[i].pass.action() {
                PassAction::Poll { id } => SweepActionView::Poll {
                    program: sweep.passes[i].program,
                    id,
                },
                PassAction::Launch { id } => SweepActionView::Launch {
                    program: sweep.passes[i].program,
                    id,
                },
                PassAction::Done => SweepActionView::Done,
            }
        },
{
    first_open_is_first(sweep.passes, 0);
    first_open_bounds(sweep.passes, 0);
}

proof fn first_open_is_first(passes: Seq<ProgramPassView>, from: int)
    requires
        0 <= from <= passes.len(),
    ensures
        forall|k: int|
            from <= k < first_open(passes, from) ==> (#[trigger] passes[k]).pass.action() is Done,
        from <= first_open(passes, from) <= passes.len(),
        first_open(passes, from) < passes.len() ==> !(passes[first_open(
            passes,
            from,
        )].pass.action() is Done),
    decreases passes.len() - from,
{
    if from < passes.len() && passes[from].pass.action() is Done {
        first_open_is_first(passes, from + 1);
    }
}

/// What a look at an instance leads to for its program is what it leads to for the
/// supervisor, and no other program is touched. An error ends the look at that program,
/// and with it the whole look unless the look is lenient.
pub proof fn a_look_reaches_its_program(
    supervisor: SupervisorView,
    sweep: SweepView,
    answer: Option<ProcessPoll>,
    now: u128,
    other: Seq<char>,
)
    requires
        !(sweep.action() is Done),
        supervisor.groups.contains_key(sweep.current().program),
        other != sweep.current().program,
    ensures
        ({
            let current = sweep.current();
            let single = supervisor.groups[current.program].polled(current.pass, answer, now);
            let result = supervisor.polled(sweep, answer, now);
            &&& result.supervisor.groups[current.program] == single.group
            &&& result.supervisor.groups.contains_key(other) == supervisor.groups.contains_key(
                other,
            )
            &&& result.supervisor.groups[other] == supervisor.groups[other]
            &&& result.supervisor.names == supervisor.names
            &&& result.supervisor.running == supervisor.running
            &&& result.supervisor.attached == supervisor.attached
            &&& result.events == single.events
            &&& result.sweep.lenient == sweep.lenient
            &&& answer is None && !sweep.lenient ==> result.sweep.action() is Done
            &&& answer is Some || sweep.lenient ==> {
                &&& result.sweep.passes.len() == sweep.passes.len()
                &&& result.sweep.passes[sweep.at()].program == current.program
                &&& result.sweep.passes[sweep.at()].pass == single.pass
                &&& forall|k: int|
                    0 <= k < sweep.passes.len() && k != sweep.at()
                        ==> #[trigger] result.sweep.passes[k] == sweep.passes[k]
            }
        }),
{
    first_open_bounds(sweep.passes, 0);
}

/// What a new launch leads to for its program is what it leads to for the supervisor, and
/// no other program is touched. A failure ends the look at that program, and with it the
/// whole look unless the look is lenient.
pub proof fn a_launch_reaches_its_program(
    supervisor: SupervisorView,
    sweep: SweepView,
    outcome: Option<u32>,
    now: u128,
    other: Seq<char>,
)
    requires
        !(sweep.action() is Done),
        supervisor.groups.contains_key(sweep.current().program),
        other != sweep.current().program,
    ensures
        ({
            let current = sweep.current();
            let single = supervisor.groups[current.program].launched(current.pass, outcome, now);
            let result = supervisor.launched(sweep, outcome, now);
            &&& result.supervisor.groups[current.program] == single.group
            &&& result.supervisor.groups.contains_key(other) == supervisor.groups.contains_key(
                other,
            )
            &&& result.supervisor.groups[other] == supervisor.groups[other]
            &&& result.supervisor.names == supervisor.names
            &&& result.supervisor.running == supervisor.running
            &&& result.supervisor.attached == supervisor.attached
            &&& result.events == single.events
            &&& result.sweep.lenient == sweep.lenient
            &&& outcome is None && !sweep.lenient ==> result.sweep.action() is Done
            &&& outcome is Some || sweep.lenient ==> {
                &&& result.sweep.passes.len() == sweep.passes.len()
                &&& result.sweep.passes[sweep.at()].program == current.program
                &&& result.sweep.passes[sweep.at()].pass == single.pass
                &&& forall|k: int|
                    0 <= k < sweep.passes.len() && k != sweep.at()
                        ==> #[trigger] result.sweep.passes[k] == sweep.passes[k]
            }
        }),
{
    first_open_bounds(sweep.passes, 0);
}

/// A program that is gone is looked at no more: the look at it ends, nothing is recorded,
/// and nothing changes.
pub proof fn what_is_gone_is_passed_over(
    supervisor: SupervisorView,
    sweep: SweepView,
    poll: ProcessPoll,
    pid: u32,
    now: u128,
)
    requires
        !(sweep.action() is Done),
        !supervisor.groups.contains_key(sweep.current().program),
    ensures
        ({
            let looked = supervisor.polled(sweep, Some(poll), now);
            let launched = supervisor.launched(sweep, Some(pid), now);
            &&& looked.supervisor == supervisor && launched.supervisor == supervisor
            &&& looked.events.len() == 0 && launched.events.len() == 0
            &&& looked.sweep.passes[sweep.at()].pass.action() is Done
            &&& launched.sweep.passes[sweep.at()].pass.action() is Done
            &&& PassView::over().action() is Done
        }),
{
    first_open_bounds(sweep.passes, 0);
}

/// Only what is next can be taken notice of, and it can be as long as the failed launches
/// of the instance can be counted.
pub proof fn what_is_next_can_be_noticed(
    supervisor: SupervisorView,
    sweep: SweepView,
    answer: Option<ProcessPoll>,
    outcome: Option<u32>,
    now: u128,
)
    ensures
        supervisor.may_poll(sweep, answer, now) ==> sweep.action() is Poll,
        sweep.action() is Poll && supervisor.groups[sweep.current().program].failures_of(
            sweep.current().pass.left[sweep.current().pass.left.len() - 1],
        ) < u32::MAX ==> supervisor.may_poll(sweep, answer, now),
        sweep.action() is Poll && !(answer is Some && answer->0 is Exited) ==> supervisor.may_poll(
            sweep,
            answer,
            now,
        ),
        ({
            let group = supervisor.groups[sweep.current().program];
            let id = sweep.current().pass.left[sweep.current().pass.left.len() - 1];
            sweep.action() is Poll && (!supervisor.groups.contains_key(sweep.current().program)
                || !group.instances.contains_key(id) || group.instances[id].started_at is Some
                && has_lasted(
                group.instances[id].started_at->0,
                now,
                group.program.starttime,
            )) ==> supervisor.may_poll(sweep, answer, now)
        }),
        ({
            let group = supervisor.groups[sweep.current().program];
            let id = sweep.current().pass.left[sweep.current().pass.left.len() - 1];
            supervisor.groups.contains_key(sweep.current().program) && group.instances.contains_key(
                id,
            ) && group.instances[id].started_at is Some && !has_lasted(
                group.instances[id].started_at->0,
                now,
                group.program.starttime,
            ) && answer is Some && answer->0 is Exited && group.failures_of(id) == u32::MAX
                ==> !supervisor.may_poll(sweep, answer, now)
        }),
        sweep.may_launch(outcome) <==> (sweep.action() is Launch && (outcome is Some
            || sweep.current().pass.respawn->0.attempts < u32::MAX)),
{
}

/// Rows stand by the names of their programs, and those of one program by the numbers of
/// their instances.
pub proof fn rows_stand_by_program_and_number(a: ProcessStatus, b: ProcessStatus)
    ensures
        a.program@ == b.program@ ==> (a.ranks_before(&b) <==> a.id <= b.id),
        a.program@ != b.program@ ==> (a.ranks_before(&b) <==> text_le(a.program@, b.program@)),
        a.program@ == b.program@ ==> (row_precedes(a@, b@) <==> a.id < b.id),
        a.program@ != b.program@ ==> (row_precedes(a@, b@) <==> text_le(a.program@, b.program@)),
        a@.program == a.program@,
        a@.id == a.id,
        a@.pid == a.pid,
        a@.state == a.state@,
        a@.uptime == a.uptime,
{
}

/// The error of a name that stands for no program names it, and each error tells what was
/// told of it.
pub proof fn unknown_programs_are_named(name: Seq<char>, told: Seq<char>)
    ensures
        unknown_program(name) == ProcessErrorView::Spawn("unknown program '"@ + name + "'"@),
        unknown_program(name).text() == "unknown program '"@ + name + "'"@,
        ProcessErrorView::Io(told).text() == told,
        ProcessErrorView::Spawn(told).text() == told,
{
}

} // verus!
