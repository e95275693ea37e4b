//! Laws of a group: how launches are counted, when instances are launched anew or given
//! up, and what the status report shows.
use crate::config::{AutoRestart, ProgramView};
use crate::instance::ProcessPoll;
use crate::logger::LogEventView;
use crate::manager::{
    exit_expected, ids_below, restart_reason, restarts, retry_reason, GroupView, PassAction,
    PassView, Retry,
};
use crate::numbers::decimal;
use vstd::prelude::*;

verus! {

/// What a look at an instance showed: that it lives, or that it died, and then the process
/// and the moment of the launch that follows, where one does.
pub ghost enum Sight {
    Alive { seen: u128 },
    Died { code: Option<i32>, seen: u128, pid: u32, relaunched: u128 },
}

/// When an instance was seen.
pub open spec fn seen_at(sight: Sight) -> u128 {
    match sight {
        Sight::Alive { seen } => seen,
        Sight::Died { seen, .. } => seen,
    }
}

/// How many of several looks showed a death.
pub open spec fn deaths_among(sights: Seq<Sight>) -> nat
    decreases sights.len(),
{
    if sights.len() == 0 {
        0
    } else if sights.last() is Died {
        deaths_among(sights.drop_last()) + 1
    } else {
        deaths_among(sights.drop_last())
    }
}

/// The moment of the last launch, of an instance that was launched at moment `begun`.
pub open spec fn last_launch(begun: u128, sights: Seq<Sight>) -> u128
    decreases sights.len(),
{
    if sights.len() == 0 {
        begun
    } else {
        match sights.last() {
            Sight::Alive { .. } => last_launch(begun, sights.drop_last()),
            Sight::Died { relaunched, .. } => relaunched,
        }
    }
}

/// Whether each look came before the launch that went before it had lasted `starttime`
/// seconds.
pub open spec fn all_before_starttime(begun: u128, starttime: u64, sights: Seq<Sight>) -> bool {
    forall|i: int|
        0 <= i < sights.len() ==> seen_at(#[trigger] sights[i]) < last_launch(begun, sights.take(i))
            + starttime * 1_000_000_000
}

/// A group after several looks at one instance, each followed by the launch that it led
/// to.
pub open spec fn after_sights(group: GroupView, id: usize, sights: Seq<Sight>) -> GroupView
    decreases sights.len(),
{
    if sights.len() == 0 {
        group
    } else {
        let before = after_sights(group, id, sights.drop_last());
        match sights.last() {
            Sight::Alive { seen } => before.reconciled(id, ProcessPoll::Running, seen).group,
            Sight::Died { code, seen, pid, relaunched } => {
                let result = before.reconciled(id, ProcessPoll::Exited(code), seen);
                if result.respawn is Some {
                    result.group.with_respawned(id, pid, relaunched)
                } else {
                    result.group
                }
            },
        }
    }
}

/// A look that shows an instance alive before it has lasted its `starttime` changes
/// nothing: its failed launches stay counted. One that shows it alive later forgets them,
/// and changes nothing else.
pub proof fn only_a_full_start_forgets_the_failures(
    group: GroupView,
    id: usize,
    launched: u128,
    now: u128,
)
    requires
        group.instances.contains_key(id),
        group.instances[id].started_at == Some(launched),
        launched <= now,
    ensures
        ({
            let result = group.reconciled(id, ProcessPoll::Running, now);
            &&& result.events.len() == 0
            &&& result.respawn is None
            &&& now - launched < group.program.starttime * 1_000_000_000 ==> result.group == group
            &&& now - launched >= group.program.starttime * 1_000_000_000 ==> {
                &&& result.group.failures_of(id) == 0
                &&& forall|other: usize|
                    other != id ==> #[trigger] result.group.failures_of(other)
                        == group.failures_of(other)
                &&& result.group.instances == group.instances
                &&& result.group.fatal == group.fatal
                &&& result.group.stopped == group.stopped
                &&& result.group.program == group.program
                &&& result.group.name == group.name
            }
        }),
{
}

/// An instance that is never seen to last its `starttime` is given up at the death that
/// follows `startretries` others, and not before, however often it is seen alive between
/// them.
pub proof fn retries_run_out_whatever_lies_between(
    group: GroupView,
    id: usize,
    begun: u128,
    sights: Seq<Sight>,
)
    requires
        group.instances.contains_key(id),
        group.instances[id].started_at == Some(begun),
        group.failures_of(id) == 0,
        group.program.starttime > 0,
        all_before_starttime(begun, group.program.starttime, sights),
        deaths_among(sights) <= u32::MAX,
    ensures
        ({
            let after = after_sights(group, id, sights);
            let retries = group.program.startretries;
            &&& deaths_among(sights) <= retries ==> {
                &&& after.instances.contains_key(id)
                &&& after.failures_of(id) == deaths_among(sights)
                &&& after.instances[id].started_at == Some(last_launch(begun, sights))
            }
            &&& deaths_among(sights) > retries ==> {
                &&& !after.instances.contains_key(id)
                &&& after.fatal.contains(id)
                &&& after.failures_of(id) == retries + 1
                &&& forall|now: u128| (#[trigger] after.status_of(id, now)).state == "FATAL"@
            }
            &&& after.program == group.program
            &&& after.name == group.name
        }),
    decreases sights.len(),
{
    if sights.len() > 0 {
        let earlier = sights.drop_last();
        assert forall|i: int| 0 <= i < earlier.len() implies seen_at(#[trigger] earlier[i])
            < last_launch(begun, earlier.take(i)) + group.program.starttime * 1_000_000_000 by {
            assert(earlier[i] == sights[i]);
            assert(earlier.take(i) =~= sights.take(i));
        }
        retries_run_out_whatever_lies_between(group, id, begun, earlier);
        assert(sights[sights.len() - 1] == sights.last());
        assert(sights.take(sights.len() - 1) =~= earlier);
    }
}

/// An instance that dies before it has lasted its `starttime` is launched anew, unless it
/// failed `startretries` times before; then it is given up. Both are recorded, with the
/// attempts that failed so far.
pub proof fn an_early_death_costs_a_retry(
    group: GroupView,
    id: usize,
    launched: u128,
    code: Option<i32>,
    now: u128,
)
    requires
        group.instances.contains_key(id),
        group.instances[id].started_at == Some(launched),
        launched <= now,
        now - launched < group.program.starttime * 1_000_000_000,
        group.failures_of(id) < u32::MAX,
    ensures
        ({
            let result = group.reconciled(id, ProcessPoll::Exited(code), now);
            let failed = group.failures_of(id) + 1;
            &&& result.group.failures_of(id) == failed
            &&& forall|other: usize|
                other != id ==> #[trigger] result.group.failures_of(other) == group.failures_of(
                    other,
                )
            &&& result.group.instances == group.instances.remove(id)
            &&& result.group.stopped == group.stopped
            &&& result.group.program == group.program && result.group.name == group.name
            &&& result.events.len() == 2
            &&& result.events[0] == (LogEventView::Crash {
                program: group.name,
                id,
                exit_code: code,
            })
            &&& failed <= group.program.startretries ==> {
                &&& result.respawn == Some(failed as u32)
                &&& result.group.fatal == group.fatal
                &&& result.events[1] == (LogEventView::Restart {
                    program: group.name,
                    id,
                    reason: "startup retry "@ + decimal(failed as nat) + "/"@ + decimal(
                        group.program.startretries as nat,
                    ),
                })
            }
            &&& failed > group.program.startretries ==> {
                &&& result.respawn is None
                &&& result.group.fatal == group.fatal.insert(id)
                &&& result.events[1] == (LogEventView::Fatal {
                    program: group.name,
                    id,
                    attempts: failed as u32,
                })
            }
        }),
{
}

/// An instance that ends once it has lasted its `starttime` is launched anew as its
/// policy says, without a failure being counted; else it counts as stopped, and nothing
/// is held against it. An end that is not expected is recorded as a crash.
pub proof fn a_later_end_follows_the_policy(
    group: GroupView,
    id: usize,
    launched: u128,
    code: Option<i32>,
    now: u128,
)
    requires
        group.instances.contains_key(id),
        group.instances[id].started_at == Some(launched),
        launched <= now,
        now - launched >= group.program.starttime * 1_000_000_000,
    ensures
        ({
            let result = group.reconciled(id, ProcessPoll::Exited(code), now);
            let expected = code is Some && exists|i: int|
                0 <= i < group.program.exitcodes.len() && #[trigger] group.program.exitcodes[i]
                    == code->0;
            let again = group.program.autorestart == AutoRestart::Always
                || group.program.autorestart == AutoRestart::Unexpected && !expected;
            &&& result.group.instances == group.instances.remove(id)
            &&& result.group.fatal == group.fatal
            &&& result.group.program == group.program && result.group.name == group.name
            &&& forall|other: usize|
                other != id ==> #[trigger] result.group.failures_of(other) == group.failures_of(
                    other,
                )
            &&& result.events.len() == if expected {
                1int
            } else {
                2
            }
            &&& !expected ==> result.events[0] == (LogEventView::Crash {
                program: group.name,
                id,
                exit_code: code,
            })
            &&& again ==> {
                &&& result.respawn == Some(0u32)
                &&& result.group.failures == group.failures
                &&& result.group.stopped == group.stopped
                &&& result.events.last() == (LogEventView::Restart {
                    program: group.name,
                    id,
                    reason: match group.program.autorestart {
                        AutoRestart::Always => "autorestart=Always"@,
                        AutoRestart::Never => "autorestart=Never"@,
                        AutoRestart::Unexpected => "autorestart=Unexpected"@,
                    },
                })
            }
            &&& !again ==> {
                &&& result.respawn is None
                &&& result.group.failures_of(id) == 0
                &&& result.group.stopped == group.stopped.insert(id)
                &&& result.events.last() == (LogEventView::Stop { program: group.name, id })
            }
        }),
{
    reasons_name_the_policy();
    expected_ends_are_listed(group.program, code);
}

/// The recorded reason of a restart names the policy.
pub proof fn reasons_name_the_policy()
    ensures
        restart_reason(AutoRestart::Always) == "autorestart=Always"@,
        restart_reason(AutoRestart::Never) == "autorestart=Never"@,
        restart_reason(AutoRestart::Unexpected) == "autorestart=Unexpected"@,
        forall|attempts: u32, startretries: u32| #[trigger]
            retry_reason(attempts, startretries) == "startup retry "@ + decimal(attempts as nat)
                + "/"@ + decimal(startretries as nat),
{
    reveal_strlit("autorestart=");
    reveal_strlit("Always");
    reveal_strlit("Never");
    reveal_strlit("Unexpected");
    reveal_strlit("autorestart=Always");
    reveal_strlit("autorestart=Never");
    reveal_strlit("autorestart=Unexpected");
    assert(restart_reason(AutoRestart::Always) =~= "autorestart=Always"@);
    assert(restart_reason(AutoRestart::Never) =~= "autorestart=Never"@);
    assert(restart_reason(AutoRestart::Unexpected) =~= "autorestart=Unexpected"@);
}

/// An end is expected if its exit code is among those of the program; a death by a signal
/// has none. `Always` launches anew whatever the end, `Never` never, and `Unexpected`
/// after each end that is not expected.
pub proof fn expected_ends_are_listed(program: ProgramView, code: Option<i32>)
    ensures
        code is None ==> !exit_expected(program, code),
        code is Some ==> (exit_expected(program, code) <==> exists|i: int|
            0 <= i < program.exitcodes.len() && #[trigger] program.exitcodes[i] == code->0),
        restarts(ProgramView { autorestart: AutoRestart::Always, ..program }, code),
        !restarts(ProgramView { autorestart: AutoRestart::Never, ..program }, code),
        restarts(ProgramView { autorestart: AutoRestart::Unexpected, ..program }, code)
            != exit_expected(program, code),
{
    if exit_expected(program, code) {
        let i = program.exitcodes.index_of(code->0);
        assert(program.exitcodes[i] == code->0);
    }
}

/// An instance whose process is not there has ended as if by a signal after it had lasted
/// its `starttime`, however long it did; of an instance that is not kept nothing follows.
pub proof fn what_is_not_there_has_ended(
    group: GroupView,
    id: usize,
    launched: u128,
    poll: ProcessPoll,
    now: u128,
    later: u128,
)
    ensures
        group.instances.contains_key(id) && group.instances[id].started_at == Some(launched)
            && later >= launched + group.program.starttime * 1_000_000_000 ==> group.reconciled(
            id,
            ProcessPoll::Stopped,
            now,
        ) == group.reconciled(id, ProcessPoll::Exited(None), later),
        group.instances.contains_key(id) ==> {
            let result = group.reconciled(id, ProcessPoll::Stopped, now);
            &&& result.group.instances == group.instances.remove(id)
            &&& result.group.fatal == group.fatal
            &&& result.events.len() == 2
            &&& result.events[0] == (LogEventView::Crash {
                program: group.name,
                id,
                exit_code: None,
            })
            &&& result.respawn == if group.program.autorestart == AutoRestart::Never {
                None
            } else {
                Some(0u32)
            }
            &&& result.group.stopped == if group.program.autorestart == AutoRestart::Never {
                group.stopped.insert(id)
            } else {
                group.stopped
            }
        },
        !group.instances.contains_key(id) ==> {
            let result = group.reconciled(id, poll, now);
            result.group == group && result.events.len() == 0 && result.respawn is None
        },
{
}

/// The row of an instance that has a process shows that process and the time since its
/// launch. It says `RUNNING` exactly if that time is at least `starttime` seconds, and
/// `STARTING` else.
pub proof fn rows_tell_a_start_from_a_run(
    group: GroupView,
    id: usize,
    pid: u32,
    launched: u128,
    now: u128,
)
    requires
        launched <= now,
    ensures
        "RUNNING"@ != "STARTING"@,
        ({
            let row = group.with_launched(id, pid, launched).status_of(id, now);
            &&& row.state == "RUNNING"@ <==> now - launched >= group.program.starttime
                * 1_000_000_000
            &&& row.state == "STARTING"@ <==> now - launched < group.program.starttime
                * 1_000_000_000
            &&& row.pid == Some(pid)
            &&& row.uptime == Some((now - launched) as u128)
            &&& row.program == group.name
            &&& row.id == id
        }),
        group.instances.contains_key(id) && group.instances[id].started_at == Some(launched) ==> {
            let row = group.status_of(id, now);
            &&& row.state == "RUNNING"@ <==> now - launched >= group.program.starttime
                * 1_000_000_000
            &&& row.state == "STARTING"@ <==> now - launched < group.program.starttime
                * 1_000_000_000
            &&& row.pid == group.instances[id].child
            &&& row.uptime == Some((now - launched) as u128)
            &&& row.program == group.name
            &&& row.id == id
        },
{
    reveal_strlit("RUNNING");
    reveal_strlit("STARTING");
    assert("RUNNING"@[0] == 'R' && "STARTING"@[0] == 'S');
}

/// The report has the rows of the configured instances, and those alone, in order. The
/// row of an instance without a process says `FATAL` exactly if it was given up, and
/// `STOPPED` else.
pub proof fn reports_have_a_row_for_each_instance(group: GroupView, id: usize, now: u128)
    ensures
        group.statuses(now).len() == group.program.numprocs,
        id < group.program.numprocs ==> group.statuses(now)[id as int] == group.status_of(id, now),
        "FATAL"@ != "STOPPED"@,
        !group.instances.contains_key(id) ==> {
            let row = group.status_of(id, now);
            &&& row.program == group.name && row.id == id
            &&& row.pid is None && row.uptime is None
            &&& row.state == "FATAL"@ <==> group.fatal.contains(id)
            &&& row.state == "STOPPED"@ <==> !group.fatal.contains(id)
        },
{
    reveal_strlit("FATAL");
    reveal_strlit("STOPPED");
    assert("FATAL"@[0] == 'F' && "STOPPED"@[0] == 'S');
}

/// A clock that runs backwards counts as one that stands still: an instance whose launch
/// seems to lie ahead has been up for no time.
pub proof fn no_time_passes_backwards(
    group: GroupView,
    id: usize,
    launched: u128,
    poll: ProcessPoll,
    now: u128,
)
    requires
        group.instances.contains_key(id),
        group.instances[id].started_at == Some(launched),
        now < launched,
    ensures
        group.status_of(id, now) == group.status_of(id, launched),
        group.status_of(id, now).uptime == Some(0u128),
        group.reconciled(id, poll, now) == group.reconciled(id, poll, launched),
{
}

/// An instance of which no launch is known has no time to show, and has lasted no
/// `starttime`: its end counts as an early one, and nothing is forgotten while it lives.
pub proof fn without_a_launch_nothing_has_lasted(
    group: GroupView,
    id: usize,
    code: Option<i32>,
    now: u128,
)
    requires
        group.instances.contains_key(id),
        group.instances[id].started_at is None,
        group.failures_of(id) < u32::MAX,
    ensures
        ({
            let row = group.status_of(id, now);
            let dead = group.reconciled(id, ProcessPoll::Exited(code), now);
            &&& row.uptime is None
            &&& row.pid == group.instances[id].child
            &&& row.state == if group.program.starttime == 0 {
                "RUNNING"@
            } else {
                "STARTING"@
            }
            &&& group.reconciled(id, ProcessPoll::Running, now).group == group
            &&& dead.group.failures_of(id) == group.failures_of(id) + 1
            &&& dead.respawn is Some <==> group.failures_of(id) < group.program.startretries
        }),
{
}

/// A launch has failed if the instance is kept and its process has exited before the
/// launch had lasted its `starttime`.
pub proof fn failed_launches_are_early_deaths(
    group: GroupView,
    id: usize,
    launched: u128,
    poll: ProcessPoll,
    now: u128,
)
    ensures
        !group.instances.contains_key(id) ==> !group.died_early(id, poll, now),
        !(poll is Exited) ==> !group.died_early(id, poll, now),
        group.instances.contains_key(id) && poll is Exited && group.instances[id].started_at
            == Some(launched) && launched <= now ==> (group.died_early(id, poll, now) <==> now
            - launched < group.program.starttime * 1_000_000_000),
{
}

/// A new launch of all instances leaves those that have a process as they are, and
/// forgets what is held against any of them.
pub proof fn a_new_start_owes_nothing(group: GroupView, id: usize)
    ensures
        group.starting().instances == group.instances,
        group.starting().program == group.program,
        group.starting().name == group.name,
        group.starting().failures_of(id) == 0,
        !group.starting().fatal.contains(id),
        !group.starting().stopped.contains(id),
{
}

/// A stop of all instances leaves none with a process, and each configured one stopped.
pub proof fn a_full_stop_leaves_nothing(group: GroupView, id: usize)
    ensures
        !group.all_stopped().instances.contains_key(id),
        group.all_stopped().program == group.program,
        group.all_stopped().name == group.name,
        group.all_stopped().failures_of(id) == 0,
        !group.all_stopped().fatal.contains(id),
        group.all_stopped().stopped.contains(id) <==> id < group.program.numprocs,
        ids_below(group.program.numprocs).contains(id) <==> id < group.program.numprocs,
{
}

/// A new group has no instance in any state.
pub proof fn a_new_group_is_empty(name: Seq<char>, program: ProgramView, id: usize)
    ensures
        ({
            let group = GroupView::fresh(name, program);
            &&& group.name == name && group.program == program
            &&& !group.instances.contains_key(id) && group.failures_of(id) == 0
            &&& !group.fatal.contains(id) && !group.stopped.contains(id)
        }),
{
}

/// A launch gives an instance its process and the moment of the launch, and changes
/// nothing of any other. A launch of one instance on its own also takes it out of those
/// given up and those stopped. A launch that failed gives the instance up.
pub proof fn launches_touch_one_instance(
    group: GroupView,
    id: usize,
    pid: u32,
    now: u128,
    other: usize,
)
    requires
        other != id,
    ensures
        ({
            let all = group.with_launched(id, pid, now);
            let one = group.with_respawned(id, pid, now);
            let none = group.with_fatal(id);
            &&& all.instances[id].child == Some(pid) && all.instances[id].started_at == Some(now)
            &&& all.instances[id].id == id && all.instances[id].name == group.name
            &&& all.instances[id].stopsignal == group.program.stopsignal
            &&& all.instances[id].stoptime == group.program.stoptime
            &&& all.instances.contains_key(id)
            &&& all.instances.contains_key(other) == group.instances.contains_key(other)
            &&& all.instances[other] == group.instances[other]
            &&& one.instances == all.instances
            &&& none.instances == group.instances
            &&& all.failures == group.failures && one.failures == group.failures
            &&& none.failures == group.failures
            &&& all.fatal == group.fatal && all.stopped == group.stopped
            &&& !one.fatal.contains(id) && !one.stopped.contains(id)
            &&& one.fatal.contains(other) == group.fatal.contains(other)
            &&& one.stopped.contains(other) == group.stopped.contains(other)
            &&& none.fatal.contains(id) && none.fatal.contains(other) == group.fatal.contains(
                other,
            )
            &&& none.stopped == group.stopped
            &&& all.program == group.program && one.program == group.program
            &&& none.program == group.program
            &&& all.name == group.name && one.name == group.name && none.name == group.name
        }),
{
}

/// In a sound group each instance is in one state, and of those with a process both the
/// process and the moment of the launch are known.
pub proof fn sound_states_exclude_each_other(group: GroupView, id: usize)
    ensures
        group.wf() && group.instances.contains_key(id) ==> {
            &&& group.instances[id].child is Some
            &&& group.instances[id].started_at is Some
            &&& !group.fatal.contains(id) && !group.stopped.contains(id)
        },
        group.wf() && group.fatal.contains(id) ==> !group.stopped.contains(id),
        group.may_give_up(id) <==> (!group.instances.contains_key(id) && !group.stopped.contains(
            id,
        )),
{
}

/// A look at all instances goes on while one is to be launched anew or is still to be
/// looked at, and what is to be launched comes first.
pub proof fn looks_go_on_until_all_is_done(pass: PassView)
    ensures
        pass.action() is Done <==> (pass.respawn is None && pass.left.len() == 0),
        pass.respawn is Some ==> pass.action() == (PassAction::Launch { id: pass.respawn->0.id }),
        pass.respawn is None && pass.left.len() > 0 ==> pass.action() == (PassAction::Poll {
            id: pass.left[pass.left.len() - 1],
        }),
        PassView::over().action() is Done,
{
}

/// The step of a look takes the instance that was next out of those left, and what comes
/// next is its new launch exactly if the look at it led to one. An instance that could not
/// be looked at ends the look and changes nothing.
pub proof fn each_look_takes_one_instance(
    group: GroupView,
    pass: PassView,
    poll: ProcessPoll,
    now: u128,
)
    requires
        pass.left.len() > 0,
        pass.respawn is None,
    ensures
        ({
            let id = pass.left[pass.left.len() - 1];
            let result = group.polled(pass, Some(poll), now);
            let single = group.reconciled(id, poll, now);
            &&& result.group == single.group
            &&& result.events == single.events
            &&& result.pass.left == pass.left.take(pass.left.len() - 1)
            &&& result.pass.respawn == match single.respawn {
                Some(attempts) => Some(Retry { id, attempts }),
                None => None,
            }
        }),
        ({
            let result = group.polled(pass, None, now);
            result.group == group && result.events.len() == 0 && result.pass.action() is Done
        }),
{
    assert(pass.left.drop_last() =~= pass.left.take(pass.left.len() - 1));
}

/// After the new launch of an instance the look goes on with those that are left, if the
/// launch succeeded; else the instance is given up, with one more attempt than had failed
/// before, and the look is over.
pub proof fn new_launches_go_on_or_end_the_look(
    group: GroupView,
    pass: PassView,
    pid: u32,
    now: u128,
)
    requires
        pass.respawn is Some,
        pass.respawn->0.attempts < u32::MAX,
    ensures
        ({
            let id = pass.respawn->0.id;
            let good = group.launched(pass, Some(pid), now);
            let bad = group.launched(pass, None, now);
            &&& good.group == group.with_respawned(id, pid, now)
            &&& good.pass.left == pass.left && good.pass.respawn is None
            &&& good.events == seq![
                LogEventView::Start { program: group.name, id, pid: Some(pid) },
            ]
            &&& bad.group == group.with_fatal(id)
            &&& bad.pass.action() is Done
            &&& bad.events == seq![
                LogEventView::Fatal {
                    program: group.name,
                    id,
                    attempts: (pass.respawn->0.attempts + 1) as u32,
                },
            ]
        }),
{
}

} // verus!
