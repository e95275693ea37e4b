//! Laws of views: what is shown of a value is what the value holds.
use crate::config::pair_texts;
use crate::instance::{
    OutputTarget, OutputTargetView, ProcessError, ProcessErrorView,
    ProcessInstance, SpawnPlan, StopAction, StopActionView,
};
use crate::logger::{event_views, LogEvent};
use crate::manager::{instance_views, status_views, ProcessGroup, ProcessStatus};
use crate::names::{string_texts, without};
use crate::shell::{
    Message, MessageView, ShellCommand, ShellCommandView, ShellStep, ShellStepView,
};
use crate::supervisor::{
    group_views, job_views, stopping_views, ReloadJob, ReloadJobView, ReloadSummary, Stopping,
    SweepAction, SweepActionView,
};
use crate::text::{all_ascii, ascii_uppercase, texts};
use vstd::prelude::*;

verus! {

/// A list is shown item by item.
pub proof fn lists_are_shown_item_by_item(
    strings: Seq<String>,
    parts: Seq<&str>,
    pairs: Seq<(String, String)>,
    events: Seq<LogEvent>,
    rows: Seq<ProcessStatus>,
    i: int,
)
    ensures
        string_texts(strings).len() == strings.len(),
        0 <= i < strings.len() ==> string_texts(strings)[i] == strings[i]@,
        texts(parts).len() == parts.len(),
        0 <= i < parts.len() ==> texts(parts)[i] == parts[i]@,
        pair_texts(pairs).len() == pairs.len(),
        0 <= i < pairs.len() ==> pair_texts(pairs)[i].0 == pairs[i].0@,
        0 <= i < pairs.len() ==> pair_texts(pairs)[i].1 == pairs[i].1@,
        event_views(events).len() == events.len(),
        0 <= i < events.len() ==> event_views(events)[i] == events[i]@,
        status_views(rows).len() == rows.len(),
        0 <= i < rows.len() ==> status_views(rows)[i] == rows[i]@,
{
}

/// What is to be done is shown job by job and program by program.
pub proof fn jobs_are_shown_one_by_one(
    jobs: Seq<ReloadJob>,
    list: Seq<Stopping>,
    summary: ReloadSummary,
    i: int,
)
    ensures
        job_views(jobs).len() == jobs.len(),
        0 <= i < jobs.len() ==> job_views(jobs)[i] == jobs[i]@,
        stopping_views(list).len() == list.len(),
        0 <= i < list.len() ==> stopping_views(list)[i].0 == list[i].program@,
        0 <= i < list.len() ==> stopping_views(list)[i].1 == instance_views(list[i].instances@),
        summary@.added == string_texts(summary.added@),
        summary@.removed == string_texts(summary.removed@),
        summary@.changed == string_texts(summary.changed@),
        summary@.unchanged == string_texts(summary.unchanged@),
{
}

/// Instances and programs are shown under their numbers and names.
pub proof fn maps_are_shown_key_by_key(
    instances: Map<usize, ProcessInstance>,
    groups: Map<Seq<char>, ProcessGroup>,
    id: usize,
    name: Seq<char>,
)
    ensures
        instance_views(instances).contains_key(id) == instances.contains_key(id),
        instances.contains_key(id) ==> instance_views(instances)[id] == instances[id]@,
        group_views(groups).contains_key(name) == groups.contains_key(name),
        groups.contains_key(name) ==> group_views(groups)[name] == groups[name]@,
{
}

/// The view of a job shows its program and what is to be done with it.
pub proof fn jobs_show_their_parts(job: ReloadJob, action: SweepAction)
    ensures
        match job {
            ReloadJob::Stop(stopping) => job@ == (ReloadJobView::Stop {
                program: stopping.program@,
                instances: instance_views(stopping.instances@),
            }),
            ReloadJob::Unregister { program } => job@ == (ReloadJobView::Unregister {
                program: program@,
            }),
            ReloadJob::Start { program, ids } => job@ == (ReloadJobView::Start {
                program: program@,
                ids: ids@,
            }),
        },
        match job {
            ReloadJob::Stop(stopping) => job@.about() == stopping.program@,
            ReloadJob::Unregister { program } => job@.about() == program@,
            ReloadJob::Start { program, ids } => job@.about() == program@,
        },
        match action {
            SweepAction::Poll { program, id } => action@ == (SweepActionView::Poll {
                program: program@,
                id,
            }),
            SweepAction::Launch { program, id } => action@ == (SweepActionView::Launch {
                program: program@,
                id,
            }),
            SweepAction::Done => action@ == SweepActionView::Done,
        },
{
}

/// The view of an instance shows each of its fields.
pub proof fn instances_show_their_fields(instance: ProcessInstance)
    ensures
        instance@.id == instance.id,
        instance@.name == instance.name@,
        instance@.child == instance.child,
        instance@.started_at == instance.started_at,
        instance@.stoptime == instance.stoptime,
        instance@.stdout_path is Some == instance.stdout_path is Some,
        instance.stdout_path is Some ==> instance@.stdout_path->0 == instance.stdout_path->0@,
        instance@.stderr_path is Some == instance.stderr_path is Some,
        instance.stderr_path is Some ==> instance@.stderr_path->0 == instance.stderr_path->0@,
        instance@.stopsignal is Some == instance.stopsignal is Some,
        instance.stopsignal is Some ==> instance@.stopsignal->0 == instance.stopsignal->0@,
{
}

/// The view of a plan shows what the system is told.
pub proof fn plans_show_their_fields(plan: SpawnPlan, name: Seq<char>)
    ensures
        plan.stdout matches OutputTarget::Append(path) ==> plan@.stdout
            == OutputTargetView::Append(path@),
        plan.stdout matches OutputTarget::Discard(path) ==> plan@.stdout
            == OutputTargetView::Discard(path@),
        plan.stderr matches OutputTarget::Append(path) ==> plan@.stderr
            == OutputTargetView::Append(path@),
        plan.stderr matches OutputTarget::Discard(path) ==> plan@.stderr
            == OutputTargetView::Discard(path@),
        plan.command is Ok == plan@.command is Ok,
        plan.command matches Ok(line) ==> plan@.command->Ok_0.executable == line.executable@
            && plan@.command->Ok_0.args == string_texts(line.args@),
        plan.command matches Err(error) ==> plan@.command->Err_0 == error@,
        plan.workingdir is Some == plan@.workingdir is Some,
        plan.workingdir is Some ==> plan@.workingdir->0 == plan.workingdir->0@,
        plan.env is Some == plan@.env is Some,
        plan.env is Some ==> plan@.env->0.contains_key(name) == plan.env->0.map().contains_key(name),
        plan.env is Some && plan.env->0.map().contains_key(name) ==> plan@.env->0[name]
            == plan.env->0.map()[name]@,
        plan@.new_group == plan.new_group,
        plan@.umask == plan.umask,
{
}

/// The view of a step of a stop shows what is to be done to which process, and that of an
/// error what was told of it.
pub proof fn steps_show_their_parts(action: StopAction, error: ProcessError)
    ensures
        match action {
            StopAction::Signal { pid, signal } => action@ == (StopActionView::Signal {
                pid,
                signal,
            }),
            StopAction::Check { pid } => action@ == (StopActionView::Check { pid }),
            StopAction::Pause { millis } => action@ == (StopActionView::Pause { millis }),
            StopAction::Recheck { pid } => action@ == (StopActionView::Recheck { pid }),
            StopAction::Kill { pid } => action@ == (StopActionView::Kill { pid }),
            StopAction::Wait { pid } => action@ == (StopActionView::Wait { pid }),
            StopAction::Finished(event) => action@ == StopActionView::Finished(event@),
        },
        match error {
            ProcessError::Io(text) => error@ == ProcessErrorView::Io(text@),
            ProcessError::Spawn(text) => error@ == ProcessErrorView::Spawn(text@),
        },
{
}

/// The views of what a session reads, says and does show its parts.
pub proof fn sessions_show_their_parts(command: ShellCommand, message: Message, step: ShellStep)
    ensures
        match command {
            ShellCommand::Start(name) => command@ == ShellCommandView::Start(name@),
            ShellCommand::Stop(name) => command@ == ShellCommandView::Stop(name@),
            ShellCommand::Restart(name) => command@ == ShellCommandView::Restart(name@),
            ShellCommand::Status => command@ == ShellCommandView::Status,
            ShellCommand::Reload => command@ == ShellCommandView::Reload,
            ShellCommand::History => command@ == ShellCommandView::History,
            ShellCommand::Help => command@ == ShellCommandView::Help,
            ShellCommand::Quit => command@ == ShellCommandView::Quit,
        },
        match message {
            Message::Out(text) => message@ == MessageView::Out(text@),
            Message::Error(text) => message@ == MessageView::Error(text@),
        },
        match step {
            ShellStep::Wait => step@ == ShellStepView::Wait,
            ShellStep::Leave => step@ == ShellStepView::Leave,
            ShellStep::Farewell(text) => step@ == ShellStepView::Farewell(text@),
            ShellStep::Show(lines) => step@ == ShellStepView::Show(string_texts(lines@)),
            ShellStep::Carry(command) => step@ == ShellStepView::Carry(command@),
        },
{
}

/// The items without one of them are the others, each as often as before.
pub proof fn one_item_is_left_out(items: Seq<Seq<char>>, gone: Seq<char>, name: Seq<char>)
    requires
        items.no_duplicates(),
    ensures
        without(items, gone).contains(name) <==> items.contains(name) && name != gone,
        without(items, gone).no_duplicates(),
{
    if items.contains(gone) {
        let at = items.index_of(gone);
        assert(items[at] == gone);
        crate::names::filter_one_out(items, at);
        let rest = items.remove(at);
        if rest.contains(name) {
            let k = rest.index_of(name);
            let from = if k < at {
                k
            } else {
                k + 1
            };
            assert(items[from] == name);
        }
        if items.contains(name) && name != gone {
            let k = items.index_of(name);
            let to = if k < at {
                k
            } else {
                k - 1
            };
            assert(rest[to] == name);
        }
    } else {
        crate::names::nothing_to_filter_out(items, gone);
    }
}

/// ASCII letters have an upper case 32 below; no other ASCII character changes.
pub proof fn upper_case_is_that_of_ascii_letters(s: Seq<char>, i: int)
    requires
        0 <= i < s.len(),
    ensures
        ascii_uppercase(s).len() == s.len(),
        'a' <= s[i] <= 'z' ==> ascii_uppercase(s)[i] as u32 == s[i] as u32 - 32,
        !('a' <= s[i] <= 'z') ==> ascii_uppercase(s)[i] == s[i],
        all_ascii(s) <==> forall|k: int| 0 <= k < s.len() ==> #[trigger] s[k] < '\u{80}',
{
}

} // verus!
