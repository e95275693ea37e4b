//! Laws of a change of configuration: what is done for each program, in which order, and
//! where its events go afterwards.
use crate::config::{log_paths, ConfigView, ProgramView};
use crate::instance::InstanceView;
use crate::laws::configs::each_log_is_listed;
use crate::logger::LoggersView;
use crate::manager::{missing_ids, GroupView};
use crate::order::{text_le, texts_in_order};
use crate::supervisor::{
    chosen_names, config_jobs_are_exact, names_in, names_out, reload_jobs_are_exact, removal_jobs,
    removal_jobs_are_exact, summary_names_each_program_once, ReloadJobView, SummaryView,
    SupervisorView,
};
use vstd::prelude::*;

verus! {

/// A program that is new or has changed loses its log exactly if it has none configured;
/// one that is the same in both configurations keeps the log that it has, and one that is
/// gone loses it.
pub proof fn logs_are_taken_from_those_without_one(
    supervisor: SupervisorView,
    config: ConfigView,
    name: Seq<char>,
)
    requires
        supervisor.wf(),
        config.wf(),
    ensures
        ({
            let unregistered = supervisor.reload_jobs(config).contains(
                ReloadJobView::Unregister { program: name },
            );
            let was = supervisor.groups.contains_key(name);
            let wanted = config.programs.contains_key(name);
            let same = was && wanted && supervisor.groups[name].program == config.programs[name];
            &&& wanted && !same ==> (unregistered <==> config.programs[name].log is None)
            &&& same ==> !unregistered
            &&& !wanted ==> (unregistered <==> was)
        }),
{
    let job = ReloadJobView::Unregister { program: name };
    let jobs = supervisor.program_jobs(config, name);
    reload_jobs_are_exact(supervisor, config, job);
    if config.programs.contains_key(name) {
        if config.programs[name].log is None && !(supervisor.groups.contains_key(name)
            && supervisor.groups[name].program == config.programs[name]) {
            let at = if supervisor.groups.contains_key(name) {
                1int
            } else {
                0
            };
            assert(jobs[at] == job);
        }
    } else if supervisor.groups.contains_key(name) {
        crate::supervisor::reload_removes_the_removed(supervisor, config, name);
    }
}

/// What runs of a program is stopped exactly if the program is gone or has changed.
pub proof fn what_is_gone_or_changed_is_stopped(
    supervisor: SupervisorView,
    config: ConfigView,
    name: Seq<char>,
    instances: Map<usize, InstanceView>,
)
    requires
        supervisor.wf(),
        config.wf(),
    ensures
        supervisor.reload_jobs(config).contains(ReloadJobView::Stop { program: name, instances })
            <==> {
            &&& supervisor.groups.contains_key(name)
            &&& !(config.programs.contains_key(name) && supervisor.groups[name].program
                == config.programs[name])
            &&& instances == supervisor.groups[name].instances
        },
{
    let job = ReloadJobView::Stop { program: name, instances };
    let jobs = supervisor.program_jobs(config, name);
    reload_jobs_are_exact(supervisor, config, job);
    if config.programs.contains_key(name) {
        if supervisor.groups.contains_key(name) && supervisor.groups[name].program
            != config.programs[name] {
            assert(jobs[0] == (ReloadJobView::Stop {
                program: name,
                instances: supervisor.groups[name].instances,
            }));
        }
    } else if supervisor.groups.contains_key(name) {
        crate::supervisor::reload_removes_the_removed(supervisor, config, name);
        let removed = names_out(supervisor.names, config.programs.dom());
        let first = removal_jobs(supervisor.groups, removed);
        let all = supervisor.reload_jobs(config);
        if all.contains(job) {
            let i = all.index_of(job);
            config_jobs_are_exact(supervisor, config, config.names);
            let second = supervisor.config_jobs(config, config.names);
            if i >= first.len() {
                assert(second[i - first.len()] == job);
                assert(second.contains(job));
                assert(config.programs.contains_key(name));
            }
            assert(first[i] == job);
            removal_stops_what_runs(supervisor.groups, removed, i);
        }
    }
}

proof fn removal_stops_what_runs(
    groups: Map<Seq<char>, GroupView>,
    removed: Seq<Seq<char>>,
    i: int,
)
    requires
        0 <= i < removal_jobs(groups, removed).len(),
    ensures
        match removal_jobs(groups, removed)[i] {
            ReloadJobView::Stop { program, instances } => instances == groups[program].instances,
            _ => true,
        },
    decreases removed.len(),
{
    if removed.len() > 0 {
        let before = removal_jobs(groups, removed.drop_last());
        if i < before.len() {
            removal_stops_what_runs(groups, removed.drop_last(), i);
            assert(removal_jobs(groups, removed)[i] == before[i]);
        }
    }
}

/// Instances are launched of the programs of the new configuration that are new or have
/// changed, if they start by themselves or were active: all that are configured, in order.
pub proof fn what_is_new_or_changed_is_launched(
    supervisor: SupervisorView,
    config: ConfigView,
    name: Seq<char>,
    ids: Seq<usize>,
)
    requires
        supervisor.wf(),
        config.wf(),
    ensures
        supervisor.reload_jobs(config).contains(ReloadJobView::Start { program: name, ids }) <==> {
            &&& config.programs.contains_key(name)
            &&& !(supervisor.groups.contains_key(name) && supervisor.groups[name].program
                == config.programs[name])
            &&& config.programs[name].autostart || supervisor.groups.contains_key(name) && exists|
                id: usize,
            | #[trigger] supervisor.groups[name].instances.contains_key(id)
            &&& ids.len() == config.programs[name].numprocs
            &&& forall|i: int| 0 <= i < ids.len() ==> #[trigger] ids[i] == i
        },
{
    let job = ReloadJobView::Start { program: name, ids };
    let jobs = supervisor.program_jobs(config, name);
    reload_jobs_are_exact(supervisor, config, job);
    if config.programs.contains_key(name) {
        let group = supervisor.groups[name];
        let all = missing_ids(Set::empty(), config.programs[name].numprocs as nat);
        all_ids(config.programs[name].numprocs as nat);
        assert((ids.len() == all.len() && forall|i: int| 0 <= i < ids.len() ==> #[trigger] ids[i]
            == i) <==> ids == all) by {
            if ids.len() == all.len() && forall|i: int| 0 <= i < ids.len() ==> #[trigger] ids[i]
                == i {
                assert(ids =~= all);
            }
        }
        if supervisor.groups.contains_key(name) {
            if !group.instances.dom().is_empty() {
                let id = group.instances.dom().choose();
                assert(group.instances.dom().contains(id));
                assert(group.instances.contains_key(id));
            }
            if exists|id: usize| #[trigger] group.instances.contains_key(id) {
                let id = choose|id: usize| #[trigger] group.instances.contains_key(id);
                assert(group.instances.dom().contains(id));
                assert(Set::<usize>::empty().contains(id) == false);
                assert(!group.instances.dom().is_empty());
            }
        }
        if supervisor.launches(config, name) {
            assert(jobs.last() == (ReloadJobView::Start { program: name, ids: all }));
        }
    } else {
        let removed = names_out(supervisor.names, config.programs.dom());
        let first = removal_jobs(supervisor.groups, removed);
        let second = supervisor.config_jobs(config, config.names);
        let every = supervisor.reload_jobs(config);
        removal_jobs_are_exact(supervisor.groups, removed);
        config_jobs_are_exact(supervisor, config, config.names);
        if every.contains(job) {
            let i = every.index_of(job);
            if i < first.len() {
                assert(first[i] == job);
            } else {
                assert(second[i - first.len()] == job);
                assert(second.contains(job));
                assert(config.programs.contains_key(name));
            }
        }
    }
}

proof fn all_ids(n: nat)
    requires
        n <= usize::MAX,
    ensures
        missing_ids(Set::empty(), n).len() == n,
        forall|i: int| 0 <= i < n ==> #[trigger] missing_ids(Set::empty(), n)[i] == i,
    decreases n,
{
    if n > 0 {
        all_ids((n - 1) as nat);
    }
}

/// What runs of a program is stopped before the program is launched, and no program is
/// stopped or launched twice.
pub proof fn stops_come_before_launches(
    supervisor: SupervisorView,
    config: ConfigView,
    i: int,
    j: int,
)
    requires
        supervisor.wf(),
        config.wf(),
        0 <= i < j < supervisor.reload_jobs(config).len(),
        supervisor.reload_jobs(config)[i].about() == supervisor.reload_jobs(config)[j].about(),
    ensures
        !(supervisor.reload_jobs(config)[i] is Start),
        !(supervisor.reload_jobs(config)[j] is Stop),
        supervisor.reload_jobs(config)[i] != supervisor.reload_jobs(config)[j],
{
    let removed = names_out(supervisor.names, config.programs.dom());
    let first = removal_jobs(supervisor.groups, removed);
    let second = supervisor.config_jobs(config, config.names);
    let all = supervisor.reload_jobs(config);
    chosen_names(supervisor.names, config.programs.dom());
    crate::supervisor::chosen_names_are_unique(supervisor.names, config.programs.dom());
    removal_jobs_are_exact(supervisor.groups, removed);
    config_jobs_are_exact(supervisor, config, config.names);
    if j < first.len() {
        removal_in_order(supervisor.groups, removed, i, j);
    } else if i >= first.len() {
        config_in_order(supervisor, config, config.names, i - first.len(), j - first.len());
    } else {
        assert(first[i] == all[i]);
        assert(removed.contains(first[i].about()));
        assert(second[j - first.len()] == all[j]);
        assert(second.contains(all[j]));
        assert(config.names.contains(all[j].about()));
        assert(config.programs.contains_key(all[j].about()));
    }
}

proof fn removal_in_order(
    groups: Map<Seq<char>, GroupView>,
    removed: Seq<Seq<char>>,
    i: int,
    j: int,
)
    requires
        removed.no_duplicates(),
        0 <= i < j < removal_jobs(groups, removed).len(),
        removal_jobs(groups, removed)[i].about() == removal_jobs(groups, removed)[j].about(),
    ensures
        removal_jobs(groups, removed)[i] is Stop,
        removal_jobs(groups, removed)[j] is Unregister,
    decreases removed.len(),
{
    if removed.len() > 0 {
        let earlier = removed.drop_last();
        let before = removal_jobs(groups, earlier);
        let all = removal_jobs(groups, removed);
        assert(forall|k: int| 0 <= k < before.len() ==> all[k] == #[trigger] before[k]);
        if j < before.len() {
            removal_in_order(groups, earlier, i, j);
        } else if i < before.len() {
            removal_jobs_are_exact(groups, earlier);
            assert(earlier.contains(before[i].about()));
            let k = earlier.index_of(before[i].about());
            assert(removed[k] == removed[removed.len() - 1]);
        }
    }
}

proof fn config_in_order(
    supervisor: SupervisorView,
    config: ConfigView,
    names: Seq<Seq<char>>,
    i: int,
    j: int,
)
    requires
        names.no_duplicates(),
        0 <= i < j < supervisor.config_jobs(config, names).len(),
        supervisor.config_jobs(config, names)[i].about() == supervisor.config_jobs(
            config,
            names,
        )[j].about(),
    ensures
        !(supervisor.config_jobs(config, names)[i] is Start),
        !(supervisor.config_jobs(config, names)[j] is Stop),
        supervisor.config_jobs(config, names)[i] != supervisor.config_jobs(config, names)[j],
    decreases names.len(),
{
    if names.len() > 0 {
        let earlier = names.drop_last();
        let before = supervisor.config_jobs(config, earlier);
        let more = supervisor.program_jobs(config, names.last());
        let all = supervisor.config_jobs(config, names);
        assert(forall|k: int| 0 <= k < before.len() ==> all[k] == #[trigger] before[k]);
        assert(forall|k: int| 0 <= k < more.len() ==> all[before.len() + k] == #[trigger] more[k]);
        if j < before.len() {
            config_in_order(supervisor, config, earlier, i, j);
        } else if i < before.len() {
            config_jobs_are_exact(supervisor, config, earlier);
            assert(before.contains(before[i]));
            assert(earlier.contains(before[i].about()));
            let k = earlier.index_of(before[i].about());
            assert(all[j] == more[j - before.len()]);
            assert(more[j - before.len()].about() == names.last());
            assert(names[k] == names[names.len() - 1]);
        } else {
            assert(all[i] == more[i - before.len()]);
            assert(all[j] == more[j - before.len()]);
        }
    }
}

/// The open logs after each of several programs was given the file that stands for it in
/// `files`.
pub open spec fn registered(
    loggers: LoggersView,
    logs: Seq<(Seq<char>, Seq<char>)>,
    files: Map<Seq<char>, u64>,
) -> LoggersView
    decreases logs.len(),
{
    if logs.len() == 0 {
        loggers
    } else {
        registered(loggers, logs.drop_last(), files).with_program(
            logs.last().0,
            files[logs.last().0],
        )
    }
}

/// The open logs after jobs were carried out.
pub open spec fn unregistered(loggers: LoggersView, jobs: Seq<ReloadJobView>) -> LoggersView
    decreases jobs.len(),
{
    if jobs.len() == 0 {
        loggers
    } else {
        let before = unregistered(loggers, jobs.drop_last());
        match jobs.last() {
            ReloadJobView::Unregister { program } => before.without_program(program),
            _ => before,
        }
    }
}

/// The programs of a configuration with their names, in order.
pub open spec fn entries_of(config: ConfigView) -> Seq<(Seq<char>, ProgramView)> {
    config.names.map_values(|name: Seq<char>| (name, config.programs[name]))
}

/// Once the logs of the new configuration are registered and the jobs of the change are
/// carried out, the events of a program that is new or has changed go to its own log
/// exactly if it has one configured, and to the global log else. Those of a program that
/// is gone go to the global log, and those of one that is the same go to its own log if
/// it has one.
pub proof fn events_go_where_the_configuration_says(
    supervisor: SupervisorView,
    config: ConfigView,
    loggers: LoggersView,
    files: Map<Seq<char>, u64>,
    name: Seq<char>,
)
    requires
        supervisor.wf(),
        config.wf(),
    ensures
        ({
            let opened = registered(loggers, log_paths(entries_of(config)), files);
            let after = unregistered(opened, supervisor.reload_jobs(config));
            let was = supervisor.groups.contains_key(name);
            let wanted = config.programs.contains_key(name);
            let same = was && wanted && supervisor.groups[name].program == config.programs[name];
            &&& wanted && config.programs[name].log is Some ==> after.route(Some(name)) == Some(
                files[name],
            )
            &&& wanted && config.programs[name].log is None && !same ==> after.route(Some(name))
                == loggers.global
            &&& same && config.programs[name].log is None ==> after.route(Some(name))
                == loggers.route(Some(name))
            &&& was && !wanted ==> after.route(Some(name)) == loggers.global
            &&& after.route(None) == loggers.global
        }),
{
    let entries = entries_of(config);
    let logs = log_paths(entries);
    let jobs = supervisor.reload_jobs(config);
    let opened = registered(loggers, logs, files);
    registering_gives_each_its_file(loggers, logs, files, name);
    unregistering_takes_each_file(opened, jobs, name);
    logs_are_taken_from_those_without_one(supervisor, config, name);
    let places = each_log_is_listed(entries);
    assert(config.programs.contains_key(name) <==> config.names.contains(name));
    let listed = exists|k: int| 0 <= k < logs.len() && (#[trigger] logs[k]).0 == name;
    if config.programs.contains_key(name) {
        let i = config.names.index_of(name);
        assert(entries[i] == (name, config.programs[name]));
        if config.programs[name].log is Some {
            let k = places.index_of(i);
            assert(places[k] == i);
            assert(logs[k].0 == name);
        }
    }
    if listed {
        let k = choose|k: int| 0 <= k < logs.len() && (#[trigger] logs[k]).0 == name;
        let i = places[k];
        assert(entries[i].0 == name);
        assert(config.names[i] == name);
        assert(config.names.contains(name));
        assert(entries[i].1 == config.programs[name]);
    }
}

proof fn registering_gives_each_its_file(
    loggers: LoggersView,
    logs: Seq<(Seq<char>, Seq<char>)>,
    files: Map<Seq<char>, u64>,
    name: Seq<char>,
)
    ensures
        ({
            let after = registered(loggers, logs, files);
            let listed = exists|k: int| 0 <= k < logs.len() && (#[trigger] logs[k]).0 == name;
            &&& after.global == loggers.global
            &&& listed ==> after.programs.contains_key(name) && after.programs[name] == files[name]
            &&& !listed ==> after.programs.contains_key(name) == loggers.programs.contains_key(name)
                && after.programs[name] == loggers.programs[name]
        }),
    decreases logs.len(),
{
    if logs.len() > 0 {
        let earlier = logs.drop_last();
        registering_gives_each_its_file(loggers, earlier, files, name);
        assert(forall|k: int| 0 <= k < earlier.len() ==> #[trigger] earlier[k] == logs[k]);
        if exists|k: int| 0 <= k < earlier.len() && (#[trigger] earlier[k]).0 == name {
            let k = choose|k: int| 0 <= k < earlier.len() && (#[trigger] earlier[k]).0 == name;
            assert(logs[k].0 == name);
        }
        if logs.last().0 == name {
            assert(logs[logs.len() - 1].0 == name);
        } else if exists|k: int| 0 <= k < logs.len() && (#[trigger] logs[k]).0 == name {
            let k = choose|k: int| 0 <= k < logs.len() && (#[trigger] logs[k]).0 == name;
            assert(earlier[k].0 == name);
        }
    }
}

proof fn unregistering_takes_each_file(
    loggers: LoggersView,
    jobs: Seq<ReloadJobView>,
    name: Seq<char>,
)
    ensures
        ({
            let after = unregistered(loggers, jobs);
            let taken = jobs.contains(ReloadJobView::Unregister { program: name });
            &&& after.global == loggers.global
            &&& taken ==> !after.programs.contains_key(name)
            &&& !taken ==> after.programs.contains_key(name) == loggers.programs.contains_key(name)
                && after.programs[name] == loggers.programs[name]
        }),
    decreases jobs.len(),
{
    if jobs.len() > 0 {
        let job = ReloadJobView::Unregister { program: name };
        let earlier = jobs.drop_last();
        unregistering_takes_each_file(loggers, earlier, name);
        assert(jobs.contains(job) <==> (earlier.contains(job) || jobs.last() == job)) by {
            if earlier.contains(job) {
                assert(jobs[earlier.index_of(job)] == job);
            }
            if jobs.last() == job {
                assert(jobs[jobs.len() - 1] == job);
            }
            if jobs.contains(job) && jobs.last() != job {
                assert(earlier[jobs.index_of(job)] == job);
            }
        }
    }
}

/// After the change a program is what the new configuration says. One that is the same in
/// both keeps its state, and each other begins with none. The supervisor goes on as it
/// did.
pub proof fn only_the_same_is_kept(
    supervisor: SupervisorView,
    config: ConfigView,
    name: Seq<char>,
    id: usize,
)
    ensures
        ({
            let after = supervisor.reloaded(config);
            let same = supervisor.groups.contains_key(name) && supervisor.groups[name].program
                == config.programs[name];
            &&& after.running == supervisor.running
            &&& after.attached == supervisor.attached
            &&& after.groups.contains_key(name) <==> config.programs.contains_key(name)
            &&& config.programs.contains_key(name) && same ==> after.groups[name]
                == supervisor.groups[name]
            &&& config.programs.contains_key(name) && !same ==> {
                let group = after.groups[name];
                &&& group.name == name && group.program == config.programs[name]
                &&& !group.instances.contains_key(id) && group.failures_of(id) == 0
                &&& !group.fatal.contains(id) && !group.stopped.contains(id)
            }
        }),
{
}

/// After the change the programs that there were come first, in the order that they had,
/// and the new ones after them, in that of the new configuration.
pub proof fn the_order_of_programs_is_kept(supervisor: SupervisorView, config: ConfigView) -> (places:
    (Seq<int>, Seq<int>))
    ensures
        ({
            let after = supervisor.reloaded(config).names;
            let (old_places, new_places) = places;
            &&& after.len() == old_places.len() + new_places.len()
            &&& forall|k: int|
                0 <= k < old_places.len() ==> 0 <= #[trigger] old_places[k]
                    < supervisor.names.len() && after[k] == supervisor.names[old_places[k]]
            &&& forall|k: int|
                0 <= k < new_places.len() ==> 0 <= #[trigger] new_places[k] < config.names.len()
                    && after[old_places.len() + k] == config.names[new_places[k]]
            &&& forall|k: int, m: int|
                #![trigger old_places[k], old_places[m]]
                0 <= k < m < old_places.len() ==> old_places[k] < old_places[m]
            &&& forall|k: int, m: int|
                #![trigger new_places[k], new_places[m]]
                0 <= k < m < new_places.len() ==> new_places[k] < new_places[m]
        }),
{
    let old_places = chosen_names_keep_their_order(supervisor.names, config.programs.dom()).0;
    let new_places = chosen_names_keep_their_order(config.names, supervisor.groups.dom()).1;
    let kept = names_in(supervisor.names, config.programs.dom());
    let added = names_out(config.names, supervisor.groups.dom());
    let after = supervisor.reloaded(config).names;
    assert forall|k: int| 0 <= k < new_places.len() implies 0 <= #[trigger] new_places[k]
        < config.names.len() && after[old_places.len() + k] == config.names[new_places[k]] by {
        assert(after[kept.len() + k] == added[k]);
    }
    assert forall|k: int| 0 <= k < old_places.len() implies 0 <= #[trigger] old_places[k]
        < supervisor.names.len() && after[k] == supervisor.names[old_places[k]] by {
        assert(after[k] == kept[k]);
    }
    (old_places, new_places)
}

/// The chosen names, and those that are not, stand in the order that they had: the places
/// of both.
pub proof fn chosen_names_keep_their_order(names: Seq<Seq<char>>, chosen: Set<Seq<char>>) -> (places:
    (Seq<int>, Seq<int>))
    ensures
        places.0.len() == names_in(names, chosen).len(),
        places.1.len() == names_out(names, chosen).len(),
        places.0.len() + places.1.len() == names.len(),
        forall|k: int|
            0 <= k < places.0.len() ==> 0 <= #[trigger] places.0[k] < names.len() && names_in(
                names,
                chosen,
            )[k] == names[places.0[k]] && chosen.contains(names[places.0[k]]),
        forall|k: int|
            0 <= k < places.1.len() ==> 0 <= #[trigger] places.1[k] < names.len() && names_out(
                names,
                chosen,
            )[k] == names[places.1[k]] && !chosen.contains(names[places.1[k]]),
        forall|k: int, m: int|
            #![trigger places.0[k], places.0[m]]
            0 <= k < m < places.0.len() ==> places.0[k] < places.0[m],
        forall|k: int, m: int|
            #![trigger places.1[k], places.1[m]]
            0 <= k < m < places.1.len() ==> places.1[k] < places.1[m],
    decreases names.len(),
{
    if names.len() == 0 {
        (Seq::empty(), Seq::empty())
    } else {
        let last = names.len() - 1;
        let before = chosen_names_keep_their_order(names.drop_last(), chosen);
        if chosen.contains(names.last()) {
            (before.0.push(last), before.1)
        } else {
            (before.0, before.1.push(last))
        }
    }
}

/// The summary names a program as added, removed, changed or unchanged by what both
/// configurations say of it, and its lists are in order.
pub proof fn summaries_tell_what_changed(
    supervisor: SupervisorView,
    config: ConfigView,
    told: SummaryView,
    name: Seq<char>,
)
    requires
        supervisor.wf(),
        config.wf(),
        told.sorted(),
        told.same_names(supervisor.reload_summary(config)),
    ensures
        ({
            let was = supervisor.groups.contains_key(name);
            let wanted = config.programs.contains_key(name);
            let same = supervisor.groups[name].program == config.programs[name];
            &&& told.added.contains(name) <==> (wanted && !was)
            &&& told.removed.contains(name) <==> (was && !wanted)
            &&& told.changed.contains(name) <==> (was && wanted && !same)
            &&& told.unchanged.contains(name) <==> (was && wanted && same)
            &&& told.added.no_duplicates() && told.removed.no_duplicates()
            &&& told.changed.no_duplicates() && told.unchanged.no_duplicates()
            &&& ascends(told.added) && ascends(told.removed)
            &&& ascends(told.changed) && ascends(told.unchanged)
        }),
{
    let summary = supervisor.reload_summary(config);
    summary_names_each_program_once(supervisor, config, name);
    same_names_are_found(told.added, summary.added, name);
    same_names_are_found(told.removed, summary.removed, name);
    same_names_are_found(told.changed, summary.changed, name);
    same_names_are_found(told.unchanged, summary.unchanged, name);
    texts_in_order_ascend(told.added);
    texts_in_order_ascend(told.removed);
    texts_in_order_ascend(told.changed);
    texts_in_order_ascend(told.unchanged);
}

/// Whether each text stands before those after it.
pub open spec fn ascends(names: Seq<Seq<char>>) -> bool {
    forall|i: int, j: int|
        #![trigger names[i], names[j]]
        0 <= i < j < names.len() ==> text_le(names[i], names[j])
}

/// Texts are in order exactly if each stands before those after it.
pub proof fn texts_in_order_ascend(names: Seq<Seq<char>>)
    ensures
        texts_in_order(names) ==> ascends(names),
{
}

proof fn same_names_are_found(a: Seq<Seq<char>>, b: Seq<Seq<char>>, name: Seq<char>)
    requires
        a.to_multiset() == b.to_multiset(),
        b.no_duplicates(),
    ensures
        a.contains(name) <==> b.contains(name),
        a.no_duplicates(),
{
    broadcast use vstd::seq_lib::group_to_multiset_ensures;

    assert(a.to_multiset().count(name) > 0 <==> a.contains(name));
    assert(b.to_multiset().count(name) > 0 <==> b.contains(name));
    b.lemma_multiset_has_no_duplicates();
    a.lemma_multiset_has_no_duplicates_conv();
}

} // verus!
