//! All programs together: their launch, their end, and the change from one
//! configuration to another.
use crate::config::{Config, ConfigView, Program, ProgramView};
use crate::instance::{
    has_lasted, lasted, plan_of, spawn_plan, InstanceView, ProcessError, ProcessErrorView,
    ProcessInstance, ProcessPoll, SpawnPlan,
};
use crate::logger::{event_views, LogEvent, LogEventView};
use crate::manager::{
    ids_below, instance_views, missing_ids, reconciling_keeps_states_apart,
    starting_fills_the_group, status_views, GroupView, Launch, Launched, Pass, PassAction,
    PassResult, PassStep, PassView, ProcessGroup, ProcessStatus, StatusView,
};
use crate::names::{string_texts, NameMap};
use crate::order::{
    images_of_same_items, in_order, sort_names, sort_ranked, text_le, texts_in_order, Ranked,
};
use crate::platform::Platform;
use crate::text::{join3, opt_text};
use std::collections::HashMap;
use vstd::prelude::*;

verus! {

/// What a change of configuration meant for each program.
#[derive(Debug, Clone, Default, PartialEq, Eq)]
pub struct ReloadSummary {
    /// The programs that are new.
    pub added: Vec<String>,
    /// The programs that are gone.
    pub removed: Vec<String>,
    /// The programs that are not what they were.
    pub changed: Vec<String>,
    /// The programs that are what they were.
    pub unchanged: Vec<String>,
}

/// A summary with its names as sequences of characters.
#[verifier::ext_equal]
pub ghost struct SummaryView {
    pub added: Seq<Seq<char>>,
    pub removed: Seq<Seq<char>>,
    pub changed: Seq<Seq<char>>,
    pub unchanged: Seq<Seq<char>>,
}

impl View for ReloadSummary {
    type V = SummaryView;

    open spec fn view(&self) -> SummaryView {
        SummaryView {
            added: string_texts(self.added@),
            removed: string_texts(self.removed@),
            changed: string_texts(self.changed@),
            unchanged: string_texts(self.unchanged@),
        }
    }
}

impl SummaryView {
    /// Whether each list of names is in order.
    pub open spec fn sorted(self) -> bool {
        &&& texts_in_order(self.added)
        &&& texts_in_order(self.removed)
        &&& texts_in_order(self.changed)
        &&& texts_in_order(self.unchanged)
    }

    /// Whether each list holds the same names as that of `other`.
    pub open spec fn same_names(self, other: SummaryView) -> bool {
        &&& self.added.to_multiset() == other.added.to_multiset()
        &&& self.removed.to_multiset() == other.removed.to_multiset()
        &&& self.changed.to_multiset() == other.changed.to_multiset()
        &&& self.unchanged.to_multiset() == other.unchanged.to_multiset()
    }
}

impl ReloadSummary {
    /// Puts each list of names in order.
    pub fn sort(&mut self)
        ensures
            final(self)@.sorted(),
            final(self)@.same_names(old(self)@),
    {
        sort_names(&mut self.added);
        sort_names(&mut self.removed);
        sort_names(&mut self.changed);
        sort_names(&mut self.unchanged);
    }
}

/// Instances of a program that are to be stopped.
#[derive(Debug)]
pub struct Stopping {
    /// The name of the program.
    pub program: String,
    /// The instances, by their numbers.
    pub instances: HashMap<usize, ProcessInstance>,
}

/// What is to be done for a change of configuration.
#[derive(Debug)]
pub enum ReloadJob {
    /// Stop these instances, each as far as it can be stopped.
    Stop(Stopping),
    /// Let the events of this program go to the global log.
    Unregister { program: String },
    /// Launch these instances of this program, and report what came of each.
    Start { program: String, ids: Vec<usize> },
}

/// A job with its texts as sequences of characters.
pub ghost enum ReloadJobView {
    Stop { program: Seq<char>, instances: Map<usize, InstanceView> },
    Unregister { program: Seq<char> },
    Start { program: Seq<char>, ids: Seq<usize> },
}

impl View for ReloadJob {
    type V = ReloadJobView;

    open spec fn view(&self) -> ReloadJobView {
        match *self {
            ReloadJob::Stop(stopping) => ReloadJobView::Stop {
                program: stopping.program@,
                instances: instance_views(stopping.instances@),
            },
            ReloadJob::Unregister { program } => ReloadJobView::Unregister { program: program@ },
            ReloadJob::Start { program, ids } => ReloadJobView::Start {
                program: program@,
                ids: ids@,
            },
        }
    }
}

/// The views of jobs.
pub open spec fn job_views(jobs: Seq<ReloadJob>) -> Seq<ReloadJobView> {
    jobs.map_values(|job: ReloadJob| job@)
}

/// What a change of configuration means and what is to be done for it, in order.
#[derive(Debug)]
pub struct ReloadPlan {
    /// What the change means for each program.
    pub summary: ReloadSummary,
    /// What is to be done.
    pub jobs: Vec<ReloadJob>,
    /// The event to record once it is done.
    pub event: LogEvent,
}

/// The first of several errors.
#[derive(Debug)]
pub struct FirstError {
    /// The first error, if there was any.
    pub error: Option<ProcessError>,
}

impl FirstError {
    /// No error so far.
    pub fn new() -> (first: Self)
        ensures
            first.error is None,
    {
        FirstError { error: None }
    }

    /// Takes notice of an error, or of none.
    pub fn note(&mut self, error: Option<ProcessError>)
        ensures
            final(self).error == if old(self).error is Some {
                old(self).error
            } else {
                error
            },
    {
        if self.error.is_none() {
            self.error = error;
        }
    }

    /// `value`, unless there was an error: then the first one.
    pub fn result<T>(self, value: T) -> (result: Result<T, ProcessError>)
        ensures
            result == match self.error {
                Some(error) => Err::<T, ProcessError>(error),
                None => Ok(value),
            },
    {
        match self.error {
            Some(error) => Err(error),
            None => Ok(value),
        }
    }
}

/// The views of groups.
pub open spec fn group_views(groups: Map<Seq<char>, ProcessGroup>) -> Map<Seq<char>, GroupView> {
    groups.map_values(|group: ProcessGroup| group@)
}

/// Those of `names` that are in `chosen`, in order.
pub open spec fn names_in(names: Seq<Seq<char>>, chosen: Set<Seq<char>>) -> Seq<Seq<char>>
    decreases names.len(),
{
    if names.len() == 0 {
        Seq::empty()
    } else {
        let before = names_in(names.drop_last(), chosen);
        if chosen.contains(names.last()) {
            before.push(names.last())
        } else {
            before
        }
    }
}

/// Those of `names` that are not in `chosen`, in order.
pub open spec fn names_out(names: Seq<Seq<char>>, chosen: Set<Seq<char>>) -> Seq<Seq<char>>
    decreases names.len(),
{
    if names.len() == 0 {
        Seq::empty()
    } else {
        let before = names_out(names.drop_last(), chosen);
        if chosen.contains(names.last()) {
            before
        } else {
            before.push(names.last())
        }
    }
}

/// What it takes to be among the chosen names.
pub proof fn chosen_names(names: Seq<Seq<char>>, chosen: Set<Seq<char>>)
    ensures
        forall|name: Seq<char>| #[trigger]
            names_in(names, chosen).contains(name) <==> (names.contains(name) && chosen.contains(
                name,
            )),
        forall|name: Seq<char>| #[trigger]
            names_out(names, chosen).contains(name) <==> (names.contains(name)
                && !chosen.contains(name)),
    decreases names.len(),
{
    if names.len() > 0 {
        let before = names.drop_last();
        let last = names.last();
        chosen_names(before, chosen);
        assert(names =~= before.push(last));
        pushing_adds_one(before, last);
        pushing_adds_one(names_in(before, chosen), last);
        pushing_adds_one(names_out(before, chosen), last);
    }
}

/// Of names without duplicates, the chosen ones are without duplicates.
pub proof fn chosen_names_are_unique(names: Seq<Seq<char>>, chosen: Set<Seq<char>>)
    requires
        names.no_duplicates(),
    ensures
        names_in(names, chosen).no_duplicates(),
        names_out(names, chosen).no_duplicates(),
    decreases names.len(),
{
    if names.len() > 0 {
        let before = names.drop_last();
        let last = names.last();
        chosen_names_are_unique(before, chosen);
        chosen_names(before, chosen);
        assert(!before.contains(last)) by {
            if before.contains(last) {
                assert(names[before.index_of(last)] == names[names.len() - 1]);
            }
        }
        assert(!names_in(before, chosen).contains(last));
        assert(!names_out(before, chosen).contains(last));
    }
}

proof fn pushing_adds_one(names: Seq<Seq<char>>, last: Seq<char>)
    ensures
        forall|name: Seq<char>| #[trigger]
            names.push(last).contains(name) <==> (names.contains(name) || name == last),
{
    let after = names.push(last);
    assert forall|name: Seq<char>| #[trigger]
        after.contains(name) <==> (names.contains(name) || name == last) by {
        assert(after[names.len() as int] == last);
        if names.contains(name) {
            assert(after[names.index_of(name)] == name);
        }
        if after.contains(name) && name != last {
            assert(names[after.index_of(name)] == name);
        }
    }
}

/// What is to be done for programs that are gone: each is stopped and has no log of its
/// own any more.
pub open spec fn removal_jobs(
    groups: Map<Seq<char>, GroupView>,
    removed: Seq<Seq<char>>,
) -> Seq<ReloadJobView>
    decreases removed.len(),
{
    if removed.len() == 0 {
        Seq::empty()
    } else {
        let program = removed.last();
        removal_jobs(groups, removed.drop_last()).push(
            ReloadJobView::Stop { program, instances: groups[program].instances },
        ).push(ReloadJobView::Unregister { program })
    }
}

/// What a supervisor knows: its programs, in order, the state of each, whether it is
/// running and whether something looks at the instances in the background.
#[verifier::ext_equal]
pub ghost struct SupervisorView {
    pub names: Seq<Seq<char>>,
    pub groups: Map<Seq<char>, GroupView>,
    pub running: bool,
    pub attached: bool,
}

impl SupervisorView {
    /// Each program has one state, under its own name, and no instance of it is in two
    /// states at once.
    pub open spec fn wf(self) -> bool {
        &&& self.names.no_duplicates()
        &&& forall|name: Seq<char>| #[trigger]
            self.groups.contains_key(name) <==> self.names.contains(name)
        &&& forall|name: Seq<char>| #[trigger]
            self.groups.contains_key(name) ==> self.groups[name].name == name
                && self.groups[name].wf()
    }

    /// The supervisor of a configuration of which nothing runs yet.
    pub open spec fn fresh(config: ConfigView) -> SupervisorView {
        SupervisorView {
            names: config.names,
            groups: Map::new(
                |name: Seq<char>| config.programs.contains_key(name),
                |name: Seq<char>| GroupView::fresh(name, config.programs[name]),
            ),
            running: false,
            attached: false,
        }
    }

    /// Whether a program is in both configurations and the same in both.
    pub open spec fn keeps(self, config: ConfigView, name: Seq<char>) -> bool {
        &&& self.groups.contains_key(name)
        &&& config.programs.contains_key(name)
        &&& self.groups[name].program == config.programs[name]
    }

    /// Whether a program of the new configuration is to be launched at once: a new one
    /// where it starts by itself, a changed one also where it was active.
    pub open spec fn launches(self, config: ConfigView, name: Seq<char>) -> bool {
        &&& config.programs.contains_key(name)
        &&& !self.keeps(config, name)
        &&& config.programs[name].autostart || (self.groups.contains_key(name)
            && !self.groups[name].instances.dom().is_empty())
    }

    /// The supervisor after a change of configuration: what is the same in both stays
    /// as it is, and everything else begins anew.
    pub open spec fn reloaded(self, config: ConfigView) -> SupervisorView {
        SupervisorView {
            names: names_in(self.names, config.programs.dom()) + names_out(
                config.names,
                self.groups.dom(),
            ),
            groups: Map::new(
                |name: Seq<char>| config.programs.contains_key(name),
                |name: Seq<char>| self.reloaded_group(config, name),
            ),
            ..self
        }
    }

    /// The state of a program of the new configuration.
    pub open spec fn reloaded_group(self, config: ConfigView, name: Seq<char>) -> GroupView {
        if self.keeps(config, name) {
            self.groups[name]
        } else {
            GroupView::fresh(name, config.programs[name])
        }
    }

    /// What is to be done for one program of the new configuration: nothing where it is
    /// the same. Otherwise what runs of it is stopped, it loses its own log where it has
    /// none any more, and it is launched where that is called for.
    pub open spec fn program_jobs(self, config: ConfigView, program: Seq<char>) -> Seq<
        ReloadJobView,
    > {
        if self.keeps(config, program) {
            Seq::empty()
        } else {
            let stop = if self.groups.contains_key(program) {
                seq![
                    ReloadJobView::Stop { program, instances: self.groups[program].instances },
                ]
            } else {
                Seq::empty()
            };
            let unregister = if config.programs[program].log is None {
                seq![ReloadJobView::Unregister { program }]
            } else {
                Seq::empty()
            };
            let start = if self.launches(config, program) {
                seq![
                    ReloadJobView::Start {
                        program,
                        ids: missing_ids(
                            Set::empty(),
                            config.programs[program].numprocs as nat,
                        ),
                    },
                ]
            } else {
                Seq::empty()
            };
            stop + unregister + start
        }
    }

    /// What is to be done for several programs of the new configuration.
    pub open spec fn config_jobs(self, config: ConfigView, names: Seq<Seq<char>>) -> Seq<
        ReloadJobView,
    >
        decreases names.len(),
    {
        if names.len() == 0 {
            Seq::empty()
        } else {
            self.config_jobs(config, names.drop_last()) + self.program_jobs(config, names.last())
        }
    }

    /// What is to be done for a change of configuration.
    pub open spec fn reload_jobs(self, config: ConfigView) -> Seq<ReloadJobView> {
        removal_jobs(self.groups, names_out(self.names, config.programs.dom()))
            + self.config_jobs(config, config.names)
    }

    /// The names that are the same in both configurations.
    pub open spec fn kept(self, config: ConfigView) -> Set<Seq<char>> {
        Set::new(|name: Seq<char>| self.keeps(config, name))
    }

    /// What a change of configuration means for each program, not yet in order.
    pub open spec fn reload_summary(self, config: ConfigView) -> SummaryView {
        SummaryView {
            added: names_out(config.names, self.groups.dom()),
            removed: names_out(self.names, config.programs.dom()),
            changed: names_out(
                names_in(config.names, self.groups.dom()),
                self.kept(config),
            ),
            unchanged: names_in(config.names, self.kept(config)),
        }
    }
}

/// The supervisor of all configured programs.
#[derive(Debug)]
pub struct Supervisor {
    groups: NameMap<ProcessGroup>,
    running: bool,
    attached: bool,
}

impl View for Supervisor {
    type V = SupervisorView;

    closed spec fn view(&self) -> SupervisorView {
        SupervisorView {
            names: self.groups.names(),
            groups: group_views(self.groups.map()),
            running: self.running,
            attached: self.attached,
        }
    }
}

impl Supervisor {
    /// The supervisor of a configuration of which nothing runs yet.
    pub fn from_config(config: Config) -> (supervisor: Self)
        ensures
            supervisor@ == SupervisorView::fresh(config@),
            config@.wf(),
            supervisor@.wf(),
    {
        let mut groups: NameMap<ProcessGroup> = NameMap::new();
        let count = config.programs.len();
        let ghost names = config.programs.names();
        for i in 0..count
            invariant
                count == names.len(),
                names == config.programs.names(),
                config.programs.wf(),
                groups.names() == names.take(i as int),
                groups.wf(),
                forall|j: int|
                    0 <= j < i ==> groups.map()[#[trigger] names[j]]@ == GroupView::fresh(
                        names[j],
                        config@.programs[names[j]],
                    ),
        {
            let name = config.programs.name_at(i);
            let program = config.programs.value_at(i);
            proof {
                assert(!groups.names().contains(name@)) by {
                    if groups.names().contains(name@) {
                        let j = groups.names().index_of(name@);
                        assert(names[j] == names[i as int]);
                    }
                }
            }
            groups.insert(name.clone(), ProcessGroup::new(name.clone(), program.clone()));
            proof {
                assert(names.take(i + 1) =~= names.take(i as int).push(name@));
            }
        }
        let supervisor = Supervisor { groups, running: false, attached: false };
        proof {
            assert(names.take(count as int) =~= names);
            let expected = SupervisorView::fresh(config@);
            assert forall|name: Seq<char>| #[trigger] names.contains(name) implies
                supervisor@.groups[name] == expected.groups[name] by {
                let j = names.index_of(name);
                assert(names[j] == name);
            }
            assert(supervisor@.groups =~= expected.groups) by {
                assert forall|name: Seq<char>|
                    supervisor@.groups.contains_key(name) == expected.groups.contains_key(
                        name,
                    ) by {
                    assert(groups.map().contains_key(name) <==> names.contains(name));
                    assert(config.programs.map().contains_key(name) <==> names.contains(name));
                }
                assert forall|name: Seq<char>| #[trigger]
                    supervisor@.groups.contains_key(name) implies supervisor@.groups[name]
                    == expected.groups[name] by {
                    assert(groups.map().contains_key(name));
                    assert(names.contains(name));
                }
            }
            assert(supervisor@ =~= expected);
            assert forall|name: Seq<char>| #[trigger]
                config@.programs.contains_key(name) <==> config@.names.contains(name) by {
                assert(config.programs.map().contains_key(name) <==> names.contains(name));
            }
        }
        supervisor
    }
}

/// Parts `groups` into those of programs that `config` holds and the others, which are
/// stopped; `removed` are the names of the others.
fn part_with_removed(
    groups: NameMap<ProcessGroup>,
    config: &Config,
    removed: &mut Vec<String>,
) -> (parts: (NameMap<ProcessGroup>, Vec<ReloadJob>))
    requires
        old(removed)@.len() == 0,
    ensures
        groups.wf(),
        parts.0.wf(),
        parts.0.names() == names_in(groups.names(), config@.programs.dom()),
        forall|name: Seq<char>| #[trigger]
            parts.0.map().contains_key(name) ==> parts.0.map()[name] == groups.map()[name],
        job_views(parts.1@) == removal_jobs(
            group_views(groups.map()),
            names_out(groups.names(), config@.programs.dom()),
        ),
        string_texts(final(removed)@) == names_out(groups.names(), config@.programs.dom()),
{
    let ghost all = groups.names();
    let ghost programs = config@.programs.dom();
    let ghost views = group_views(groups.map());
    let mut rest = groups;
    let mut kept: NameMap<ProcessGroup> = NameMap::new();
    let mut jobs: Vec<ReloadJob> = Vec::new();
    let ghost mut i: int = 0;
    let mut left: usize = rest.len();
    proof {
        assert(all.skip(0) =~= all);
        assert(string_texts(removed@) =~= Seq::<Seq<char>>::empty());
        assert(job_views(jobs@) =~= Seq::<ReloadJobView>::empty());
        assert(all.take(0) =~= Seq::<Seq<char>>::empty());
    }
    while left > 0
        invariant
            0 <= i <= all.len(),
            left == all.len() - i,
            all == groups.names(),
            groups.wf(),
            programs == config@.programs.dom(),
            views == group_views(groups.map()),
            rest.wf(),
            rest.names() == all.skip(i),
            forall|j: int|
                i <= j < all.len() ==> rest.map()[#[trigger] all[j]] == groups.map()[all[j]],
            kept.wf(),
            kept.names() == names_in(all.take(i), programs),
            forall|name: Seq<char>| #[trigger]
                kept.map().contains_key(name) ==> kept.map()[name] == groups.map()[name],
            job_views(jobs@) == removal_jobs(views, names_out(all.take(i), programs)),
            string_texts(removed@) == names_out(all.take(i), programs),
        decreases left,
    {
        left = left - 1;
        let name = rest.name_at(0).clone();
        let ghost last = all[i];
        proof {
            assert(name@ == last);
            crate::names::filter_one_out(rest.names(), 0);
            assert(rest.names().remove(0) =~= all.skip(i + 1));
            assert(all.take(i + 1).drop_last() =~= all.take(i));
            assert(all.take(i + 1).last() == last);
            assert(rest.names()[0] == last);
            assert(rest.names().contains(last));
            chosen_names(all.take(i), programs);
            assert(!all.take(i).contains(last)) by {
                if all.take(i).contains(last) {
                    assert(all[all.take(i).index_of(last)] == all[i]);
                }
            }
        }
        let taken = rest.remove(name.as_str());
        match taken {
            Some(mut group) => {
                if config.programs.contains_key(name.as_str()) {
                    kept.insert(name, group);
                } else {
                    let ghost jobs_before = jobs@;
                    let ghost removed_before = removed@;
                    let ghost program = name@;
                    let instances = group.stop_all();
                    jobs.push(ReloadJob::Stop(Stopping { program: name.clone(), instances }));
                    jobs.push(ReloadJob::Unregister { program: name.clone() });
                    removed.push(name);
                    proof {
                        assert(groups.map().contains_key(last)) by {
                            assert(groups.names().contains(last));
                        }
                        assert(views[last] == groups.map()[last]@);
                        assert(string_texts(removed@) =~= string_texts(removed_before).push(
                            program,
                        ));
                        assert(names_out(all.take(i + 1), programs).drop_last() =~= names_out(
                            all.take(i),
                            programs,
                        ));
                        assert(job_views(jobs@) =~= job_views(jobs_before).push(
                            ReloadJobView::Stop { program, instances: views[program].instances },
                        ).push(ReloadJobView::Unregister { program }));
                    }
                }
            },
            None => {
                proof {
                    assert(false);
                }
            },
        }
        proof {
            i = i + 1;
            assert forall|j: int| i <= j < all.len() implies rest.map()[#[trigger] all[j]]
                == groups.map()[all[j]] by {
                assert(all[j] != last);
            }
        }
    }
    proof {
        assert(i == all.len());
        assert(all.take(i) =~= all);
    }
    (kept, jobs)
}

/// What one program of the new configuration is to the old one.
enum Change {
    Added,
    Changed,
    Unchanged,
}

/// Brings the state of one program of the new configuration about.
fn apply_program(
    groups: &mut NameMap<ProcessGroup>,
    name: &String,
    program: &Program,
    jobs: &mut Vec<ReloadJob>,
    Ghost(before): Ghost<SupervisorView>,
    Ghost(config): Ghost<ConfigView>,
) -> (change: Change)
    requires
        config.programs.contains_key(name@),
        config.programs[name@] == program@,
        old(groups).map().contains_key(name@) == before.groups.contains_key(name@),
        old(groups).map().contains_key(name@) ==> old(groups).map()[name@]@ == before.groups[name@],
    ensures
        old(groups).wf(),
        final(groups).wf(),
        final(groups).map().contains_key(name@),
        final(groups).map()[name@]@ == before.reloaded_group(config, name@),
        forall|other: Seq<char>|
            #![trigger final(groups).map().contains_key(other)]
            #![trigger final(groups).map()[other]]
            other != name@ ==> final(groups).map().contains_key(other) == old(
                groups,
            ).map().contains_key(other) && final(groups).map()[other] == old(groups).map()[other],
        final(groups).names() == if before.groups.contains_key(name@) {
            old(groups).names()
        } else {
            old(groups).names().push(name@)
        },
        job_views(final(jobs)@) == job_views(old(jobs)@) + before.program_jobs(config, name@),
        change == if !before.groups.contains_key(name@) {
            Change::Added
        } else if before.keeps(config, name@) {
            Change::Unchanged
        } else {
            Change::Changed
        },
{
    let ghost jobs_before = jobs@;
    let mut replacement = ProcessGroup::new(name.clone(), program.clone());
    let ghost mut stop: Seq<ReloadJobView> = Seq::empty();
    let mut should_start = program.autostart;
    let known = groups.contains_key(name.as_str());
    if let Some(group) = groups.get_mut(name.as_str()) {
        if *group.program() == *program {
            proof {
                assert(job_views(jobs@) =~= job_views(jobs_before) + before.program_jobs(
                    config,
                    name@,
                ));
            }
            return Change::Unchanged;
        }
        should_start = should_start || group.is_active();
        let instances = group.stop_all();
        jobs.push(ReloadJob::Stop(Stopping { program: name.clone(), instances }));
        proof {
            stop = seq![
                ReloadJobView::Stop {
                    program: name@,
                    instances: before.groups[name@].instances,
                },
            ];
        }
    }
    proof {
        assert(job_views(jobs@) =~= job_views(jobs_before) + stop);
    }
    let ghost jobs_stopped = jobs@;
    let ghost mut unregister: Seq<ReloadJobView> = Seq::empty();
    if program.log.is_none() {
        jobs.push(ReloadJob::Unregister { program: name.clone() });
        proof {
            unregister = seq![ReloadJobView::Unregister { program: name@ }];
        }
    }
    proof {
        assert(job_views(jobs@) =~= job_views(jobs_stopped) + unregister);
    }
    let ghost jobs_unregistered = jobs@;
    let ghost mut start: Seq<ReloadJobView> = Seq::empty();
    if should_start {
        let ids = replacement.start_all();
        proof {
            assert(Map::<usize, InstanceView>::empty().dom() =~= Set::<usize>::empty());
            assert(replacement@ =~= GroupView::fresh(name@, program@));
            start = seq![ReloadJobView::Start { program: name@, ids: ids@ }];
        }
        jobs.push(ReloadJob::Start { program: name.clone(), ids });
    }
    groups.insert(name.clone(), replacement);
    proof {
        assert(job_views(jobs@) =~= job_views(jobs_unregistered) + start);
        assert(before.program_jobs(config, name@) == stop + unregister + start);
        assert(job_views(jobs@) =~= job_views(jobs_before) + (stop + unregister + start));
    }
    if known {
        Change::Changed
    } else {
        Change::Added
    }
}

/// Adds a name to the end of a list.
fn push_name(names: &mut Vec<String>, name: &String)
    ensures
        string_texts(final(names)@) == string_texts(old(names)@).push(name@),
{
    let ghost before = names@;
    names.push(name.clone());
    proof {
        assert(string_texts(names@) =~= string_texts(before).push(name@));
    }
}

impl Supervisor {
    /// Begins the change to another configuration, unless the logs of its programs could
    /// not be opened, of which `registered` tells: then nothing changes. What is the same
    /// in both configurations is left alone, what is gone or changed loses its processes,
    /// and what is new or changed begins anew: what the change means and what is to be
    /// done for it. `source` is where the configuration came from.
    pub fn reload_config(
        &mut self,
        config: Config,
        source: Option<String>,
        registered: Result<(), ProcessError>,
    ) -> (planned: Result<ReloadPlan, ProcessError>)
        ensures
            match registered {
                Ok(_) => {
                    &&& planned is Ok
                    &&& config@.wf()
                    &&& final(self)@ == old(self)@.reloaded(config@)
                    &&& job_views(planned->Ok_0.jobs@) == old(self)@.reload_jobs(config@)
                    &&& planned->Ok_0.summary@.sorted()
                    &&& planned->Ok_0.summary@.same_names(old(self)@.reload_summary(config@))
                    &&& planned->Ok_0.event@ == (LogEventView::ConfigReload {
                        source: opt_text(source),
                    })
                },
                Err(error) => {
                    &&& planned == Err::<ReloadPlan, ProcessError>(error)
                    &&& final(self)@ == old(self)@
                },
            },
            old(self)@.wf() ==> final(self)@.wf(),
    {
        let ghost before = self@;
        match registered {
            Ok(()) => {
                let plan = self.apply_config(&config, source);
                proof {
                    if before.wf() {
                        reload_follows_the_configuration(before, config@);
                    }
                }
                Ok(plan)
            },
            Err(error) => Err(error),
        }
    }

    fn apply_config(&mut self, config: &Config, source: Option<String>) -> (plan: ReloadPlan)
        ensures
            config@.wf(),
            final(self)@ == old(self)@.reloaded(config@),
            job_views(plan.jobs@) == old(self)@.reload_jobs(config@),
            plan.summary@.sorted(),
            plan.summary@.same_names(old(self)@.reload_summary(config@)),
            plan.event@ == (LogEventView::ConfigReload { source: opt_text(source) }),
    {
        let ghost before = self@;
        let ghost new = config@;
        let mut summary = ReloadSummary {
            added: Vec::new(),
            removed: Vec::new(),
            changed: Vec::new(),
            unchanged: Vec::new(),
        };
        let mut old_groups: NameMap<ProcessGroup> = NameMap::new();
        std::mem::swap(&mut self.groups, &mut old_groups);
        let (mut groups, mut jobs) = part_with_removed(old_groups, config, &mut summary.removed);
        let count = config.programs.len();
        let ghost names = config.programs.names();
        let ghost kept_names = names_in(before.names, new.programs.dom());
        let ghost removal = job_views(jobs@);
        proof {
            assert forall|name: Seq<char>| #[trigger]
                new.programs.contains_key(name) <==> names.contains(name) by {
                assert(config.programs.map().contains_key(name) <==> names.contains(name));
            }
            chosen_names(before.names, new.programs.dom());
            assert(names.take(0) =~= Seq::<Seq<char>>::empty());
            assert(string_texts(summary.added@) =~= Seq::<Seq<char>>::empty());
            assert(string_texts(summary.changed@) =~= Seq::<Seq<char>>::empty());
            assert(string_texts(summary.unchanged@) =~= Seq::<Seq<char>>::empty());
            assert(groups.names() =~= kept_names + Seq::<Seq<char>>::empty());
            assert(job_views(jobs@) =~= removal + Seq::<ReloadJobView>::empty());
            assert forall|name: Seq<char>|
                #![trigger groups.map().contains_key(name)]
                groups.map().contains_key(name) <==> before.groups.contains_key(name)
                    && new.programs.contains_key(name) by {
                assert(groups.map().contains_key(name) <==> groups.names().contains(name));
                assert(old_groups.map().contains_key(name) <==> old_groups.names().contains(name));
                assert(kept_names.contains(name) <==> before.names.contains(name)
                    && new.programs.dom().contains(name));
            }
        }
        for i in 0..count
            invariant
                count == names.len(),
                names == config.programs.names(),
                names == new.names,
                new == config@,
                new.wf(),
                kept_names == names_in(before.names, new.programs.dom()),
                groups.wf(),
                groups.names() == kept_names + names_out(
                    names.take(i as int),
                    before.groups.dom(),
                ),
                forall|name: Seq<char>|
                    #![trigger groups.map().contains_key(name)]
                    new.programs.contains_key(name) && !names.take(i as int).contains(name) ==> {
                        &&& groups.map().contains_key(name) == before.groups.contains_key(name)
                        &&& groups.map().contains_key(name) ==> groups.map()[name]@
                            == before.groups[name]
                    },
                forall|name: Seq<char>| #[trigger]
                    groups.map().contains_key(name) ==> new.programs.contains_key(name),
                forall|j: int|
                    0 <= j < i ==> groups.map().contains_key(#[trigger] names[j])
                        && groups.map()[names[j]]@ == before.reloaded_group(new, names[j]),
                job_views(jobs@) == removal + before.config_jobs(new, names.take(i as int)),
                string_texts(summary.added@) == names_out(
                    names.take(i as int),
                    before.groups.dom(),
                ),
                string_texts(summary.removed@) == names_out(before.names, new.programs.dom()),
                string_texts(summary.changed@) == names_out(
                    names_in(names.take(i as int), before.groups.dom()),
                    before.kept(new),
                ),
                string_texts(summary.unchanged@) == names_in(
                    names.take(i as int),
                    before.kept(new),
                ),
        {
            let name = config.programs.name_at(i);
            let program = config.programs.value_at(i);
            let ghost groups_before = groups;
            let ghost jobs_before = job_views(jobs@);
            let ghost done = names.take(i as int);
            proof {
                assert(names.contains(name@));
                assert(new.programs.contains_key(name@));
                assert(names.take(i + 1).drop_last() =~= done);
                assert(names.take(i + 1).last() == name@);
                assert(!done.contains(name@)) by {
                    if done.contains(name@) {
                        assert(names[done.index_of(name@)] == names[i as int]);
                    }
                }
                assert(groups.map().contains_key(name@) == before.groups.contains_key(name@));
                chosen_names(done, before.groups.dom());
                assert(names_in(names.take(i + 1), before.groups.dom()) == if before.groups.dom()
                    .contains(name@) {
                    names_in(done, before.groups.dom()).push(name@)
                } else {
                    names_in(done, before.groups.dom())
                });
                let current = names_in(done, before.groups.dom()).push(name@);
                assert(current.drop_last() =~= names_in(done, before.groups.dom()));
                assert(current.last() == name@);
            }
            let change = apply_program(
                &mut groups,
                name,
                program,
                &mut jobs,
                Ghost(before),
                Ghost(new),
            );
            match change {
                Change::Added => push_name(&mut summary.added, name),
                Change::Changed => push_name(&mut summary.changed, name),
                Change::Unchanged => push_name(&mut summary.unchanged, name),
            }
            proof {
                assert(before.kept(new).contains(name@) == before.keeps(new, name@));
                assert(removal + before.config_jobs(new, done) + before.program_jobs(new, name@)
                    =~= removal + before.config_jobs(new, names.take(i + 1)));
                assert(kept_names + names_out(done, before.groups.dom()).push(name@)
                    =~= (kept_names + names_out(done, before.groups.dom())).push(name@));
                assert forall|other: Seq<char>| #[trigger]
                    names.take(i + 1).contains(other) <==> (done.contains(other) || other
                        == name@) by {
                    assert(names.take(i + 1) =~= done.push(name@));
                    pushing_adds_one(done, name@);
                }
                assert forall|j: int| 0 <= j < i + 1 implies groups.map().contains_key(
                    #[trigger] names[j],
                ) && groups.map()[names[j]]@ == before.reloaded_group(new, names[j]) by {
                    if j < i {
                        assert(names[j] != names[i as int]);
                        assert(groups_before.map().contains_key(names[j]));
                    }
                }
            }
        }
        summary.sort();
        proof {
            assert(names.take(count as int) =~= names);
            let expected = before.reloaded(new);
            assert forall|name: Seq<char>|
                group_views(groups.map()).contains_key(name) == expected.groups.contains_key(
                    name,
                ) by {
                if new.programs.contains_key(name) {
                    assert(names.contains(name));
                    let j = names.index_of(name);
                    assert(names[j] == name);
                }
                assert(groups.map().contains_key(name) ==> new.programs.contains_key(name));
            }
            assert forall|name: Seq<char>| #[trigger]
                expected.groups.contains_key(name) implies group_views(groups.map())[name]
                == expected.groups[name] by {
                assert(names.contains(name));
                let j = names.index_of(name);
                assert(names[j] == name);
            }
            assert(group_views(groups.map()) =~= expected.groups);
        }
        self.groups = groups;
        proof {
            assert(self@ =~= before.reloaded(new));
        }
        ReloadPlan { summary, jobs, event: LogEvent::ConfigReload { source } }
    }
}

/// Why there is no such program.
pub open spec fn unknown_program(name: Seq<char>) -> ProcessErrorView {
    ProcessErrorView::Spawn("unknown program '"@ + name + "'"@)
}

fn unknown(name: &str) -> (error: ProcessError)
    ensures
        error@ == unknown_program(name@),
{
    ProcessError::Spawn(join3("unknown program '", name, "'"))
}

/// What is to be done next while all processes are to end.
#[derive(Debug, Clone, Copy, PartialEq, Eq, Structural)]
pub enum WaitStep {
    /// Nothing: no instance has a process any more.
    Stopped,
    /// Nothing: the time is over.
    TimedOut,
    /// Wait this long, then look again.
    Pause { millis: u64 },
}

/// The milliseconds between two looks while all processes are to end.
pub const WAIT_MILLIS: u64 = 25;

/// The milliseconds between two looks in the background.
pub const TICK_MILLIS: u64 = 100;

/// What is to be stopped, as texts.
pub open spec fn stopping_views(list: Seq<Stopping>) -> Seq<(Seq<char>, Map<usize, InstanceView>)> {
    list.map_values(|s: Stopping| (s.program@, instance_views(s.instances@)))
}

impl SupervisorView {
    /// The supervisor with another state of one program.
    pub open spec fn with_group(self, name: Seq<char>, group: GroupView) -> SupervisorView {
        SupervisorView { groups: self.groups.insert(name, group), ..self }
    }

    /// The supervisor after it was stopped.
    pub open spec fn stopped(self) -> SupervisorView {
        SupervisorView {
            groups: self.groups.map_values(|group: GroupView| group.all_stopped()),
            running: false,
            attached: false,
            ..self
        }
    }

    /// Whether no instance has a process.
    pub open spec fn idle(self) -> bool {
        forall|name: Seq<char>| #[trigger]
            self.groups.contains_key(name) ==> self.groups[name].instances.dom().is_empty()
    }

    /// The instances of several programs.
    pub open spec fn instances_of(self, names: Seq<Seq<char>>) -> Seq<
        (Seq<char>, Map<usize, InstanceView>),
    > {
        names.map_values(|name: Seq<char>| (name, self.groups[name].instances))
    }

    /// The rows of the status report for several programs, one after the other.
    pub open spec fn rows_of(self, names: Seq<Seq<char>>, now: u128) -> Seq<StatusView>
        decreases names.len(),
    {
        if names.len() == 0 {
            Seq::empty()
        } else {
            self.rows_of(names.drop_last(), now) + self.groups[names.last()].statuses(now)
        }
    }

    /// What is to be done next while all processes are to end.
    pub open spec fn wait_step(self, started: u128, now: u128, timeout_secs: u64) -> WaitStep {
        if self.idle() {
            WaitStep::Stopped
        } else if has_lasted(started, now, timeout_secs) {
            WaitStep::TimedOut
        } else {
            WaitStep::Pause { millis: WAIT_MILLIS }
        }
    }
}

impl Supervisor {
    /// Whether the supervisor is running.
    pub fn is_running(&self) -> (running: bool)
        ensures
            running == self@.running,
    {
        self.running
    }

    /// Lets the supervisor run; `attach` says whether something is to be set up that
    /// looks at the instances in the background.
    pub fn start(&mut self) -> (attach: bool)
        ensures
            attach == !old(self)@.attached,
            final(self)@ == if old(self)@.attached {
                old(self)@
            } else {
                SupervisorView { running: true, attached: true, ..old(self)@ }
            },
    {
        if self.attached {
            return false;
        }
        self.running = true;
        self.attached = true;
        true
    }

    /// Tells what looks at the instances in the background to end.
    pub fn halt(&mut self)
        ensures
            final(self)@ == (SupervisorView { running: false, ..old(self)@ }),
    {
        self.running = false;
    }

    /// Stops the supervisor and every program: the instances to be stopped.
    pub fn stop(&mut self) -> (list: Vec<Stopping>)
        ensures
            final(self)@ == old(self)@.stopped(),
            old(self)@.wf() ==> final(self)@.wf(),
            stopping_views(list@) == old(self)@.instances_of(old(self)@.names),
    {
        let ghost before = self@;
        self.running = false;
        self.attached = false;
        let mut list: Vec<Stopping> = Vec::new();
        let count = self.groups.len();
        proof {
            assert(stopping_views(list@) =~= before.instances_of(before.names.take(0)));
        }
        for i in 0..count
            invariant
                self.groups.wf(),
                self.running == false,
                self.attached == false,
                self.groups.names() == before.names,
                count == before.names.len(),
                group_views(self.groups.map()).dom() == before.groups.dom(),
                forall|j: int|
                    0 <= j < i ==> self.groups.map()[#[trigger] before.names[j]]@
                        == before.groups[before.names[j]].all_stopped(),
                forall|j: int|
                    i <= j < count ==> self.groups.map()[#[trigger] before.names[j]]@
                        == before.groups[before.names[j]],
                stopping_views(list@) == before.instances_of(before.names.take(i as int)),
        {
            let name = self.groups.name_at(i).clone();
            let ghost groups_before = self.groups;
            let ghost list_before = list@;
            proof {
                assert(before.names[i as int] == name@);
                assert(before.names.contains(name@));
                assert(self.groups.map().contains_key(name@));
            }
            if let Some(group) = self.groups.get_mut(name.as_str()) {
                let instances = group.stop_all();
                list.push(Stopping { program: name.clone(), instances });
            }
            proof {
                assert(group_views(self.groups.map()).dom() =~= before.groups.dom());
                assert(before.names.take(i + 1) =~= before.names.take(i as int).push(name@));
                assert(stopping_views(list@) =~= stopping_views(list_before).push(
                    (name@, before.groups[name@].instances),
                ));
                assert(stopping_views(list@) =~= before.instances_of(before.names.take(i + 1)));
                assert forall|j: int| 0 <= j < count && j != i implies #[trigger] before.names[j]
                    != name@ by {}
            }
        }
        proof {
            assert(before.names.take(count as int) =~= before.names);
            let expected = before.stopped();
            assert forall|name: Seq<char>| #[trigger]
                before.groups.contains_key(name) implies self@.groups[name]
                == expected.groups[name] by {
                assert(group_views(self.groups.map()).dom().contains(name));
                assert(self.groups.map().contains_key(name));
                assert(before.names.contains(name));
                let j = before.names.index_of(name);
                assert(before.names[j] == name);
            }
            assert(self@.groups.dom() == before.groups.dom());
            assert(self@.groups =~= expected.groups);
            assert(self@ =~= expected);
        }
        list
    }

    /// Begins to launch a program: the numbers of the instances to launch.
    pub fn start_program(&mut self, name: &str) -> (ids: Result<Vec<usize>, ProcessError>)
        ensures
            match ids {
                Ok(ids) => {
                    &&& old(self)@.groups.contains_key(name@)
                    &&& final(self)@ == old(self)@.with_group(
                        name@,
                        old(self)@.groups[name@].starting(),
                    )
                    &&& ids@ == missing_ids(
                        old(self)@.groups[name@].instances.dom(),
                        old(self)@.groups[name@].program.numprocs as nat,
                    )
                },
                Err(error) => {
                    &&& !old(self)@.groups.contains_key(name@)
                    &&& final(self)@ == old(self)@
                    &&& error@ == unknown_program(name@)
                },
            },
            old(self)@.wf() ==> final(self)@.wf(),
    {
        match self.groups.get_mut(name) {
            Some(group) => {
                let ids = group.start_all();
                proof {
                    assert(final(self)@ =~= old(self)@.with_group(name@, group@));
                    if old(self)@.wf() {
                        assert(old(self)@.groups.contains_key(name@));
                        assert(old(self)@.groups[name@].name == name@);
                        assert(old(self)@.groups[name@].wf());
                        another_state_is_sound(old(self)@, name@, group@);
                    }
                }
                Ok(ids)
            },
            None => Err(unknown(name)),
        }
    }

    /// Takes notice of the launch of an instance that was to be launched with all others
    /// of its program; nothing where there is no such program.
    pub fn started(
        &mut self,
        name: &str,
        id: usize,
        outcome: Result<u32, ProcessError>,
        now: u128,
    ) -> (result: Option<Launched>)
        ensures
            match result {
                Some(result) => {
                    let group = old(self)@.groups[name@];
                    &&& old(self)@.groups.contains_key(name@)
                    &&& final(self)@ == old(self)@.with_group(
                        name@,
                        match outcome {
                            Ok(pid) => group.with_launched(id, pid, now),
                            Err(_) => group.with_fatal(id),
                        },
                    )
                    &&& result.event@ == match outcome {
                        Ok(pid) => LogEventView::Start {
                            program: group.name,
                            id,
                            pid: Some(pid),
                        },
                        Err(_) => LogEventView::Fatal { program: group.name, id, attempts: 1 },
                    }
                    &&& result.error == outcome.err()
                },
                None => {
                    &&& !old(self)@.groups.contains_key(name@)
                    &&& final(self)@ == old(self)@
                },
            },
            old(self)@.wf() && (match outcome {
                Ok(_) => !old(self)@.groups[name@].fatal.contains(id)
                    && !old(self)@.groups[name@].stopped.contains(id),
                Err(_) => old(self)@.groups[name@].may_give_up(id),
            }) ==> final(self)@.wf(),
    {
        match self.groups.get_mut(name) {
            Some(group) => {
                let result = group.started(id, outcome, now);
                proof {
                    assert(final(self)@ =~= old(self)@.with_group(name@, group@));
                    if old(self)@.wf() {
                        assert(old(self)@.groups.contains_key(name@));
                        assert(old(self)@.groups[name@].name == name@);
                        assert(old(self)@.groups[name@].wf());
                        if group@.wf() {
                            another_state_is_sound(old(self)@, name@, group@);
                        }
                    }
                }
                Some(result)
            },
            None => None,
        }
    }

    /// Begins to stop a program: the instances to be stopped.
    pub fn stop_program(&mut self, name: &str) -> (instances: Result<
        HashMap<usize, ProcessInstance>,
        ProcessError,
    >)
        ensures
            match instances {
                Ok(instances) => {
                    &&& old(self)@.groups.contains_key(name@)
                    &&& final(self)@ == old(self)@.with_group(
                        name@,
                        old(self)@.groups[name@].all_stopped(),
                    )
                    &&& instance_views(instances@) == old(self)@.groups[name@].instances
                },
                Err(error) => {
                    &&& !old(self)@.groups.contains_key(name@)
                    &&& final(self)@ == old(self)@
                    &&& error@ == unknown_program(name@)
                },
            },
            old(self)@.wf() ==> final(self)@.wf(),
    {
        match self.groups.get_mut(name) {
            Some(group) => {
                let instances = group.stop_all();
                proof {
                    assert(final(self)@ =~= old(self)@.with_group(name@, group@));
                    if old(self)@.wf() {
                        assert(old(self)@.groups.contains_key(name@));
                        assert(old(self)@.groups[name@].name == name@);
                        assert(old(self)@.groups[name@].wf());
                        another_state_is_sound(old(self)@, name@, group@);
                    }
                }
                Ok(instances)
            },
            None => Err(unknown(name)),
        }
    }
}

impl Supervisor {
    /// How the instances of a program are launched.
    pub fn spawn_plan(&self, name: &str, platform: Platform) -> (plan: Result<
        SpawnPlan,
        ProcessError,
    >)
        ensures
            match plan {
                Ok(plan) => self@.groups.contains_key(name@) && plan@ == plan_of(
                    self@.groups[name@].program,
                    platform,
                ),
                Err(error) => !self@.groups.contains_key(name@) && error@ == unknown_program(name@),
            },
    {
        match self.groups.get(name) {
            Some(group) => Ok(spawn_plan(group.program(), platform)),
            None => Err(unknown(name)),
        }
    }

    /// An instance that has a process.
    pub fn instance(&self, name: &str, id: usize) -> (instance: Option<&ProcessInstance>)
        ensures
            match instance {
                Some(instance) => {
                    &&& self@.groups.contains_key(name@)
                    &&& self@.groups[name@].instances.contains_key(id)
                    &&& instance@ == self@.groups[name@].instances[id]
                },
                None => !(self@.groups.contains_key(name@)
                    && self@.groups[name@].instances.contains_key(id)),
            },
    {
        match self.groups.get(name) {
            Some(group) => group.instance(id),
            None => None,
        }
    }

    /// The number of instances of a program that have a process.
    pub fn instance_count(&self, name: &str) -> (count: Option<usize>)
        ensures
            match count {
                Some(count) => self@.groups.contains_key(name@) && count
                    == self@.groups[name@].instances.dom().len(),
                None => !self@.groups.contains_key(name@),
            },
    {
        match self.groups.get(name) {
            Some(group) => Some(group.instance_count()),
            None => None,
        }
    }

    /// The names of the programs, in order.
    pub fn program_names(&self) -> (names: Vec<String>)
        ensures
            texts_in_order(string_texts(names@)),
            string_texts(names@).to_multiset() == self@.names.to_multiset(),
    {
        let mut names: Vec<String> = Vec::new();
        let count = self.groups.len();
        proof {
            assert(string_texts(names@) =~= self@.names.take(0));
        }
        for i in 0..count
            invariant
                count == self@.names.len(),
                self@.names == self.groups.names(),
                string_texts(names@) == self@.names.take(i as int),
        {
            push_name(&mut names, self.groups.name_at(i));
            proof {
                assert(self@.names.take(i + 1) =~= self@.names.take(i as int).push(
                    self@.names[i as int],
                ));
            }
        }
        proof {
            assert(self@.names.take(count as int) =~= self@.names);
        }
        sort_names(&mut names);
        names
    }

    /// The status report, as of the last look at the instances: the rows of all
    /// programs, by program and instance.
    pub fn statuses(&self, now: u128) -> (rows: Vec<ProcessStatus>)
        ensures
            in_order(rows@),
            status_views(rows@).to_multiset() == self@.rows_of(self@.names, now).to_multiset(),
    {
        let mut rows: Vec<ProcessStatus> = Vec::new();
        let count = self.groups.len();
        let ghost names = self@.names;
        proof {
            assert(names.take(0) =~= Seq::<Seq<char>>::empty());
            assert(status_views(rows@) =~= self@.rows_of(names.take(0), now));
        }
        for i in 0..count
            invariant
                count == names.len(),
                names == self.groups.names(),
                status_views(rows@) == self@.rows_of(names.take(i as int), now),
        {
            let ghost before = rows@;
            let mut more = self.groups.value_at(i).statuses(now);
            let ghost added = more@;
            proof {
                assert(self@.groups[names[i as int]] == self.groups.map()[names[i as int]]@);
            }
            rows.append(&mut more);
            proof {
                assert(status_views(rows@) =~= status_views(before) + status_views(added));
                assert(names.take(i + 1).drop_last() =~= names.take(i as int));
                assert(names.take(i + 1).last() == names[i as int]);
            }
        }
        let ghost collected = rows@;
        sort_ranked(&mut rows);
        proof {
            assert(names.take(count as int) =~= names);
            images_of_same_items(rows@, collected, |row: ProcessStatus| row@);
        }
        rows
    }

    /// What is to be done next while all processes are to end within so many seconds of
    /// moment `started`.
    pub fn wait_for_all_stopped(&self, started: u128, now: u128, timeout_secs: u64) -> (step:
        WaitStep)
        ensures
            step == self@.wait_step(started, now, timeout_secs),
    {
        let count = self.groups.len();
        let ghost names = self.groups.names();
        for i in 0..count
            invariant
                self.groups.wf(),
                count == names.len(),
                names == self.groups.names(),
                forall|j: int|
                    0 <= j < i
                        ==> self@.groups[#[trigger] names[j]].instances.dom().is_empty(),
        {
            let group = self.groups.value_at(i);
            proof {
                assert(self@.groups.contains_key(names[i as int]));
                assert(self@.groups[names[i as int]] == group@);
            }
            if group.is_active() {
                if lasted(started, now, timeout_secs) {
                    return WaitStep::TimedOut;
                }
                return WaitStep::Pause { millis: WAIT_MILLIS };
            }
        }
        proof {
            assert forall|name: Seq<char>| #[trigger] self@.groups.contains_key(name) implies
                self@.groups[name].instances.dom().is_empty() by {
                assert(self.groups.map().contains_key(name));
                assert(names.contains(name));
                assert(names[names.index_of(name)] == name);
            }
        }
        WaitStep::Stopped
    }
}

/// What is to be done next in a look at all instances of all programs.
#[derive(Debug)]
pub enum SweepAction {
    /// Look at this instance.
    Poll { program: String, id: usize },
    /// Launch this instance anew.
    Launch { program: String, id: usize },
    /// Nothing is left to be done.
    Done,
}

/// An action with its texts as sequences of characters.
pub ghost enum SweepActionView {
    Poll { program: Seq<char>, id: usize },
    Launch { program: Seq<char>, id: usize },
    Done,
}

impl View for SweepAction {
    type V = SweepActionView;

    open spec fn view(&self) -> SweepActionView {
        match *self {
            SweepAction::Poll { program, id } => SweepActionView::Poll { program: program@, id },
            SweepAction::Launch { program, id } => SweepActionView::Launch {
                program: program@,
                id,
            },
            SweepAction::Done => SweepActionView::Done,
        }
    }
}

/// The look at all instances of one program.
#[derive(Debug)]
pub struct ProgramPass {
    program: String,
    pass: Pass,
}

/// The look at all instances of one program.
pub ghost struct ProgramPassView {
    pub program: Seq<char>,
    pub pass: PassView,
}

impl View for ProgramPass {
    type V = ProgramPassView;

    closed spec fn view(&self) -> ProgramPassView {
        ProgramPassView { program: self.program@, pass: self.pass@ }
    }
}

/// A look at all instances of all programs under way, one program after the other. An
/// error ends the look at the program it came from; it ends the whole look too, unless
/// the look is lenient.
#[derive(Debug)]
pub struct Sweep {
    passes: Vec<ProgramPass>,
    lenient: bool,
}

/// A look at all instances of all programs.
pub ghost struct SweepView {
    pub passes: Seq<ProgramPassView>,
    pub lenient: bool,
}

impl View for Sweep {
    type V = SweepView;

    closed spec fn view(&self) -> SweepView {
        SweepView {
            passes: self.passes@.map_values(|pass: ProgramPass| pass@),
            lenient: self.lenient,
        }
    }
}

/// The first place, from `from` on, at which something is left to be done.
pub open spec fn first_open(passes: Seq<ProgramPassView>, from: int) -> int
    decreases passes.len() - from,
{
    if from < 0 || from >= passes.len() {
        passes.len() as int
    } else if passes[from].pass.action() is Done {
        first_open(passes, from + 1)
    } else {
        from
    }
}

impl SweepView {
    /// The place of the program that is being looked at.
    pub open spec fn at(self) -> int {
        first_open(self.passes, 0)
    }

    /// The look at the program that is being looked at.
    pub open spec fn current(self) -> ProgramPassView {
        self.passes[self.at()]
    }

    /// What is to be done next.
    pub open spec fn action(self) -> SweepActionView {
        if self.at() >= self.passes.len() {
            SweepActionView::Done
        } else {
            match self.current().pass.action() {
                PassAction::Poll { id } => SweepActionView::Poll {
                    program: self.current().program,
                    id,
                },
                PassAction::Launch { id } => SweepActionView::Launch {
                    program: self.current().program,
                    id,
                },
                PassAction::Done => SweepActionView::Done,
            }
        }
    }

    /// The look after the one at the present program went on to `pass`, with an error
    /// or without.
    pub open spec fn stepped(self, pass: PassView, failed: bool) -> SweepView {
        SweepView {
            passes: if failed && !self.lenient {
                Seq::empty()
            } else {
                self.passes.update(
                    self.at(),
                    ProgramPassView { program: self.current().program, pass },
                )
            },
            ..self
        }
    }
}

pub(crate) proof fn first_open_bounds(passes: Seq<ProgramPassView>, from: int)
    requires
        0 <= from <= passes.len(),
    ensures
        from <= first_open(passes, from) <= passes.len(),
        first_open(passes, from) < passes.len() ==> !(passes[first_open(
            passes,
            from,
        )].pass.action() is Done),
    decreases passes.len() - from,
{
    if from < passes.len() && passes[from].pass.action() is Done {
        first_open_bounds(passes, from + 1);
    }
}

impl Sweep {
    fn place(&self) -> (at: usize)
        ensures
            at == self@.at(),
            at <= self@.passes.len(),
            self@.passes.len() == self.passes@.len(),
            at < self@.passes.len() ==> !(self@.passes[at as int].pass.action() is Done),
    {
        let ghost passes = self@.passes;
        for i in 0..self.passes.len()
            invariant
                passes == self@.passes,
                passes.len() == self.passes@.len(),
                first_open(passes, 0) == first_open(passes, i as int),
        {
            proof {
                assert(passes[i as int] == self.passes@[i as int]@);
            }
            match self.passes[i].pass.action() {
                PassAction::Done => {},
                _ => {
                    return i;
                },
            }
        }
        self.passes.len()
    }

    /// What is to be done next.
    pub fn action(&self) -> (action: SweepAction)
        ensures
            action@ == self@.action(),
    {
        let at = self.place();
        if at >= self.passes.len() {
            return SweepAction::Done;
        }
        proof {
            assert(self@.passes[at as int] == self.passes@[at as int]@);
        }
        match self.passes[at].pass.action() {
            PassAction::Poll { id } => SweepAction::Poll {
                program: self.passes[at].program.clone(),
                id,
            },
            PassAction::Launch { id } => SweepAction::Launch {
                program: self.passes[at].program.clone(),
                id,
            },
            PassAction::Done => SweepAction::Done,
        }
    }
}

/// What one step of a look at all instances of all programs leads to: the new state,
/// what is left of the look, and the events to record.
pub ghost struct SweepResult {
    pub supervisor: SupervisorView,
    pub sweep: SweepView,
    pub events: Seq<LogEventView>,
}

impl SweepResult {
    /// Whether this is what came out.
    pub open spec fn is(
        self,
        supervisor: SupervisorView,
        sweep: SweepView,
        step: PassStep,
    ) -> bool {
        &&& supervisor == self.supervisor
        &&& sweep == self.sweep
        &&& event_views(step.events@) == self.events
    }
}

impl SupervisorView {
    /// What a step in the look at one program leads to in the look at all of them.
    pub open spec fn stepped(
        self,
        sweep: SweepView,
        result: PassResult,
        failed: bool,
    ) -> SweepResult {
        if self.groups.contains_key(sweep.current().program) {
            SweepResult {
                supervisor: self.with_group(sweep.current().program, result.group),
                sweep: sweep.stepped(result.pass, failed),
                events: result.events,
            }
        } else {
            SweepResult {
                supervisor: self,
                sweep: sweep.stepped(PassView::over(), failed),
                events: Seq::empty(),
            }
        }
    }

    /// What follows the look at the next instance, where `answer` is what it showed, if
    /// it could be looked at.
    pub open spec fn polled(
        self,
        sweep: SweepView,
        answer: Option<ProcessPoll>,
        now: u128,
    ) -> SweepResult {
        let current = sweep.current();
        let result = self.groups[current.program].polled(current.pass, answer, now);
        self.stepped(sweep, result, answer is None)
    }

    /// What follows the new launch of an instance, where `outcome` is the number of its
    /// process, if there is one.
    pub open spec fn launched(
        self,
        sweep: SweepView,
        outcome: Option<u32>,
        now: u128,
    ) -> SweepResult {
        let current = sweep.current();
        let result = self.groups[current.program].launched(current.pass, outcome, now);
        self.stepped(sweep, result, outcome is None)
    }

    /// Whether the look at the next instance can be taken notice of: it is the next
    /// thing to be done, and the failed launches can be counted once more where that
    /// look calls for it.
    pub open spec fn may_poll(
        self,
        sweep: SweepView,
        answer: Option<ProcessPoll>,
        now: u128,
    ) -> bool {
        let current = sweep.current();
        let group = self.groups[current.program];
        let id = current.pass.left.last();
        &&& sweep.action() is Poll
        &&& self.groups.contains_key(current.program) && answer is Some && group.died_early(
            id,
            answer->0,
            now,
        ) ==> group.failures_of(id) < u32::MAX
    }
}

impl SweepView {
    /// Whether a new launch can be taken notice of: it is the next thing to be done, and
    /// a failed one can be counted.
    pub open spec fn may_launch(self, outcome: Option<u32>) -> bool {
        &&& self.action() is Launch
        &&& outcome is None ==> self.current().pass.respawn->0.attempts < u32::MAX
    }
}

impl Supervisor {
    /// Begins to look at all instances of all programs, each one once.
    pub fn reconcile_once(&self, lenient: bool) -> (sweep: Sweep)
        ensures
            sweep@.lenient == lenient,
            sweep@.passes.len() == self@.names.len(),
            forall|i: int|
                0 <= i < self@.names.len() ==> {
                    let pass = #[trigger] sweep@.passes[i];
                    &&& pass.program == self@.names[i]
                    &&& pass.pass.respawn is None
                    &&& pass.pass.left.no_duplicates()
                    &&& pass.pass.left.to_set()
                        == self@.groups[self@.names[i]].instances.dom()
                },
    {
        let mut passes: Vec<ProgramPass> = Vec::new();
        let count = self.groups.len();
        for i in 0..count
            invariant
                count == self@.names.len(),
                self@.names == self.groups.names(),
                passes@.len() == i,
                forall|j: int|
                    0 <= j < i ==> {
                        let pass = (#[trigger] passes@[j])@;
                        &&& pass.program == self@.names[j]
                        &&& pass.pass.respawn is None
                        &&& pass.pass.left.no_duplicates()
                        &&& pass.pass.left.to_set()
                            == self@.groups[self@.names[j]].instances.dom()
                    },
        {
            let program = self.groups.name_at(i).clone();
            let group = self.groups.value_at(i);
            proof {
                assert(self@.groups[self@.names[i as int]] == group@);
            }
            passes.push(ProgramPass { program, pass: group.begin_pass() });
        }
        let sweep = Sweep { passes, lenient };
        proof {
            assert forall|i: int| 0 <= i < self@.names.len() implies (#[trigger] sweep@.passes[i])
                == passes@[i]@ by {}
        }
        sweep
    }

    /// Whether the look at the next instance can be taken notice of.
    pub fn can_poll(
        &self,
        sweep: &Sweep,
        answer: &Result<ProcessPoll, ProcessError>,
        now: u128,
    ) -> (can: bool)
        ensures
            can == self@.may_poll(sweep@, answer.ok(), now),
    {
        let at = sweep.place();
        if at >= sweep.passes.len() {
            return false;
        }
        proof {
            assert(sweep@.passes[at as int] == sweep.passes@[at as int]@);
        }
        match (sweep.passes[at].pass.action(), answer) {
            (PassAction::Poll { id }, Ok(poll)) => {
                match self.groups.get(sweep.passes[at].program.as_str()) {
                    Some(group) => group.can_reconcile(id, *poll, now),
                    None => true,
                }
            },
            (PassAction::Poll { id: _ }, Err(_)) => true,
            _ => false,
        }
    }

    /// Takes notice of the look at the next instance; `answer` is what it showed at
    /// moment `now`.
    pub fn polled(
        &mut self,
        sweep: &mut Sweep,
        answer: Result<ProcessPoll, ProcessError>,
        now: u128,
    ) -> (step: PassStep)
        requires
            old(self)@.may_poll(old(sweep)@, answer.ok(), now),
        ensures
            old(self)@.polled(old(sweep)@, answer.ok(), now).is(final(self)@, final(sweep)@, step),
            step.error == answer.err(),
            old(self)@.wf() ==> final(self)@.wf(),
    {
        let at = sweep.place();
        let ghost before = *sweep;
        let ghost passes = sweep.passes@;
        let mut entry = sweep.passes.remove(at);
        proof {
            assert(before@.passes[at as int] == passes[at as int]@);
        }
        let step = match self.groups.get_mut(entry.program.as_str()) {
            Some(group) => group.polled(&mut entry.pass, answer, now),
            None => {
                entry.pass = Pass::ended();
                let step = PassStep { events: Vec::new(), error: answer.err() };
                proof {
                    assert(event_views(step.events@) =~= Seq::<LogEventView>::empty());
                }
                step
            },
        };
        sweep.put_back(at, entry, step.error.is_some());
        proof {
            let expected = old(self)@.polled(before@, answer.ok(), now);
            if old(self)@.wf() {
                looks_keep_states_sound(old(self)@, before@, answer.ok(), now);
            }
            assert(self@ =~= expected.supervisor);
            assert(sweep@.passes =~= expected.sweep.passes);
        }
        step
    }

    /// Takes notice of the launch of the instance that was to be launched anew.
    pub fn launched(
        &mut self,
        sweep: &mut Sweep,
        outcome: Result<u32, ProcessError>,
        now: u128,
    ) -> (step: PassStep)
        requires
            old(sweep)@.may_launch(outcome.ok()),
        ensures
            old(self)@.launched(old(sweep)@, outcome.ok(), now).is(
                final(self)@,
                final(sweep)@,
                step,
            ),
            step.error == outcome.err(),
            old(self)@.wf() && (outcome is Ok || old(
                self,
            )@.groups[old(sweep)@.current().program].may_give_up(
                old(sweep)@.current().pass.respawn->0.id,
            )) ==> final(self)@.wf(),
    {
        let at = sweep.place();
        let ghost before = *sweep;
        let ghost passes = sweep.passes@;
        let mut entry = sweep.passes.remove(at);
        proof {
            assert(before@.passes[at as int] == passes[at as int]@);
        }
        let step = match self.groups.get_mut(entry.program.as_str()) {
            Some(group) => group.launched(&mut entry.pass, outcome, now),
            None => {
                entry.pass = Pass::ended();
                let step = PassStep { events: Vec::new(), error: outcome.err() };
                proof {
                    assert(event_views(step.events@) =~= Seq::<LogEventView>::empty());
                }
                step
            },
        };
        sweep.put_back(at, entry, step.error.is_some());
        proof {
            let expected = old(self)@.launched(before@, outcome.ok(), now);
            assert(self@ =~= expected.supervisor);
            let program = before@.current().program;
            if old(self)@.wf() && old(self)@.groups.contains_key(program) {
                assert(old(self)@.groups[program].name == program);
                assert(old(self)@.groups[program].wf());
                if self@.groups[program].wf() {
                    another_state_is_sound(old(self)@, program, self@.groups[program]);
                }
            }
            assert(sweep@.passes =~= expected.sweep.passes);
        }
        step
    }
}

impl Sweep {
    /// Whether a new launch can be taken notice of.
    pub fn can_launch(&self, outcome: &Result<u32, ProcessError>) -> (can: bool)
        ensures
            can == self@.may_launch(outcome.ok()),
    {
        let at = self.place();
        if at >= self.passes.len() {
            return false;
        }
        proof {
            assert(self@.passes[at as int] == self.passes@[at as int]@);
        }
        match (self.passes[at].pass.attempts(), outcome) {
            (Some(attempts), Err(_)) => attempts < u32::MAX,
            (Some(_), Ok(_)) => true,
            (None, _) => false,
        }
    }

    /// Puts the look at the present program back in its place.
    fn put_back(&mut self, at: usize, entry: ProgramPass, failed: bool)
        requires
            at <= old(self).passes@.len(),
        ensures
            final(self)@.lenient == old(self)@.lenient,
            final(self)@.passes == if failed && !old(self)@.lenient {
                Seq::empty()
            } else {
                old(self)@.passes.insert(at as int, entry@)
            },
    {
        let ghost before = self@;
        if failed && !self.lenient {
            self.passes.clear();
            proof {
                assert(self@.passes =~= Seq::<ProgramPassView>::empty());
            }
        } else {
            self.passes.insert(at, entry);
            proof {
                assert(self@.passes =~= before.passes.insert(at as int, entry@));
            }
        }
    }
}

impl ReloadJobView {
    /// The program that a job is about.
    pub open spec fn about(self) -> Seq<char> {
        match self {
            ReloadJobView::Stop { program, .. } => program,
            ReloadJobView::Unregister { program } => program,
            ReloadJobView::Start { program, .. } => program,
        }
    }
}

/// The jobs for programs that are gone are about those, and each is stopped and loses
/// its log.
pub(crate) proof fn removal_jobs_are_exact(groups: Map<Seq<char>, GroupView>, removed: Seq<Seq<char>>)
    ensures
        forall|i: int|
            0 <= i < removal_jobs(groups, removed).len() ==> removed.contains(
                (#[trigger] removal_jobs(groups, removed)[i]).about(),
            ) && !(removal_jobs(groups, removed)[i] is Start),
        forall|name: Seq<char>| #[trigger]
            removed.contains(name) ==> {
                &&& removal_jobs(groups, removed).contains(
                    ReloadJobView::Stop { program: name, instances: groups[name].instances },
                )
                &&& removal_jobs(groups, removed).contains(
                    ReloadJobView::Unregister { program: name },
                )
            },
    decreases removed.len(),
{
    if removed.len() > 0 {
        let earlier = removed.drop_last();
        let last = removed.last();
        removal_jobs_are_exact(groups, earlier);
        let before = removal_jobs(groups, earlier);
        let all = removal_jobs(groups, removed);
        assert(removed =~= earlier.push(last));
        pushing_adds_one(earlier, last);
        assert(all[before.len() as int] == (ReloadJobView::Stop {
            program: last,
            instances: groups[last].instances,
        }));
        assert(all[before.len() as int + 1] == (ReloadJobView::Unregister { program: last }));
        assert(forall|i: int| 0 <= i < before.len() ==> all[i] == #[trigger] before[i]);
        assert forall|i: int| 0 <= i < all.len() implies removed.contains(
            (#[trigger] all[i]).about(),
        ) && !(all[i] is Start) by {
            if i < before.len() {
                assert(earlier.contains(before[i].about()));
            }
        }
        assert forall|name: Seq<char>| #[trigger] removed.contains(name) implies all.contains(
            ReloadJobView::Stop { program: name, instances: groups[name].instances },
        ) && all.contains(ReloadJobView::Unregister { program: name }) by {
            let stop = ReloadJobView::Stop { program: name, instances: groups[name].instances };
            let unregister = ReloadJobView::Unregister { program: name };
            if earlier.contains(name) {
                assert(all[before.index_of(stop)] == stop);
                assert(all[before.index_of(unregister)] == unregister);
            }
        }
    }
}

/// The jobs for programs of the new configuration are those for each of them.
pub(crate) proof fn config_jobs_are_exact(
    supervisor: SupervisorView,
    config: ConfigView,
    names: Seq<Seq<char>>,
)
    ensures
        forall|job: ReloadJobView| #[trigger]
            supervisor.config_jobs(config, names).contains(job) <==> (names.contains(job.about())
                && supervisor.program_jobs(config, job.about()).contains(job)),
    decreases names.len(),
{
    if names.len() > 0 {
        let earlier = names.drop_last();
        let last = names.last();
        config_jobs_are_exact(supervisor, config, earlier);
        assert(names =~= earlier.push(last));
        pushing_adds_one(earlier, last);
        let before = supervisor.config_jobs(config, earlier);
        let more = supervisor.program_jobs(config, last);
        let all = supervisor.config_jobs(config, names);
        assert forall|i: int| 0 <= i < more.len() implies (#[trigger] more[i]).about() == last by {}
        assert forall|job: ReloadJobView| #[trigger]
            all.contains(job) <==> (names.contains(job.about()) && supervisor.program_jobs(
                config,
                job.about(),
            ).contains(job)) by {
            if all.contains(job) {
                let i = all.index_of(job);
                if i < before.len() {
                    assert(before[i] == job);
                    assert(before.contains(job));
                } else {
                    assert(more[i - before.len()] == job);
                }
            }
            if names.contains(job.about()) && supervisor.program_jobs(
                config,
                job.about(),
            ).contains(job) {
                if earlier.contains(job.about()) {
                    assert(before.contains(job));
                    assert(all[before.index_of(job)] == job);
                } else {
                    assert(all[before.len() + more.index_of(job)] == job);
                }
            }
        }
    }
}

/// What is to be done for a change of configuration is what is to be done for each
/// program that is gone and for each program of the new configuration.
pub(crate) proof fn reload_jobs_are_exact(supervisor: SupervisorView, config: ConfigView, job: ReloadJobView)
    requires
        supervisor.wf(),
        config.wf(),
    ensures
        config.programs.contains_key(job.about()) ==> (supervisor.reload_jobs(config).contains(job)
            <==> supervisor.program_jobs(config, job.about()).contains(job)),
        supervisor.reload_jobs(config).contains(job) ==> supervisor.groups.contains_key(
            job.about(),
        ) || config.programs.contains_key(job.about()),
{
    let removed = names_out(supervisor.names, config.programs.dom());
    let first = removal_jobs(supervisor.groups, removed);
    let second = supervisor.config_jobs(config, config.names);
    let all = supervisor.reload_jobs(config);
    chosen_names(supervisor.names, config.programs.dom());
    removal_jobs_are_exact(supervisor.groups, removed);
    config_jobs_are_exact(supervisor, config, config.names);
    if all.contains(job) {
        let i = all.index_of(job);
        if i < first.len() {
            assert(first[i] == job);
            assert(removed.contains(job.about()));
        } else {
            assert(second[i - first.len()] == job);
            assert(second.contains(job));
        }
    }
    if second.contains(job) {
        assert(all[first.len() + second.index_of(job)] == job);
    }
}

/// A change of configuration leaves a program alone that is the same in both: its
/// state, and with it its processes, stays as it is, and nothing is done about it.
pub proof fn reload_keeps_the_unchanged(
    supervisor: SupervisorView,
    config: ConfigView,
    name: Seq<char>,
)
    requires
        supervisor.wf(),
        config.wf(),
        supervisor.keeps(config, name),
    ensures
        supervisor.reloaded(config).groups.contains_key(name),
        supervisor.reloaded(config).groups[name] == supervisor.groups[name],
        forall|job: ReloadJobView| #[trigger]
            supervisor.reload_jobs(config).contains(job) ==> job.about() != name,
{
    assert forall|job: ReloadJobView| #[trigger]
        supervisor.reload_jobs(config).contains(job) implies job.about() != name by {
        reload_jobs_are_exact(supervisor, config, job);
    }
}

/// A change of configuration stops a program that is gone, forgets it, and sends its
/// events to the global log.
pub proof fn reload_removes_the_removed(
    supervisor: SupervisorView,
    config: ConfigView,
    name: Seq<char>,
)
    requires
        supervisor.wf(),
        supervisor.groups.contains_key(name),
        !config.programs.contains_key(name),
    ensures
        !supervisor.reloaded(config).groups.contains_key(name),
        supervisor.reload_jobs(config).contains(
            ReloadJobView::Stop { program: name, instances: supervisor.groups[name].instances },
        ),
        supervisor.reload_jobs(config).contains(ReloadJobView::Unregister { program: name }),
{
    let removed = names_out(supervisor.names, config.programs.dom());
    let first = removal_jobs(supervisor.groups, removed);
    let all = supervisor.reload_jobs(config);
    let stop = ReloadJobView::Stop {
        program: name,
        instances: supervisor.groups[name].instances,
    };
    let unregister = ReloadJobView::Unregister { program: name };
    chosen_names(supervisor.names, config.programs.dom());
    removal_jobs_are_exact(supervisor.groups, removed);
    assert(removed.contains(name));
    assert(all[first.index_of(stop)] == stop);
    assert(all[first.index_of(unregister)] == unregister);
}

/// A change of configuration stops a program that has changed, replaces it, and
/// launches it if it was active or starts by itself.
pub proof fn reload_replaces_the_changed(
    supervisor: SupervisorView,
    config: ConfigView,
    name: Seq<char>,
)
    requires
        supervisor.wf(),
        config.wf(),
        supervisor.groups.contains_key(name),
        config.programs.contains_key(name),
        supervisor.groups[name].program != config.programs[name],
    ensures
        supervisor.reloaded(config).groups[name] == GroupView::fresh(name, config.programs[name]),
        supervisor.reload_jobs(config).contains(
            ReloadJobView::Stop { program: name, instances: supervisor.groups[name].instances },
        ),
        supervisor.reload_jobs(config).contains(
            ReloadJobView::Start {
                program: name,
                ids: missing_ids(Set::empty(), config.programs[name].numprocs as nat),
            },
        ) <==> (config.programs[name].autostart
            || !supervisor.groups[name].instances.dom().is_empty()),
{
    let stop = ReloadJobView::Stop {
        program: name,
        instances: supervisor.groups[name].instances,
    };
    let start = ReloadJobView::Start {
        program: name,
        ids: missing_ids(Set::empty(), config.programs[name].numprocs as nat),
    };
    let jobs = supervisor.program_jobs(config, name);
    reload_jobs_are_exact(supervisor, config, stop);
    reload_jobs_are_exact(supervisor, config, start);
    assert(jobs[0] == stop);
    if supervisor.launches(config, name) {
        assert(jobs.last() == start);
    }
}

/// A change of configuration launches a program that is new if it starts by itself.
pub proof fn reload_adds_the_added(
    supervisor: SupervisorView,
    config: ConfigView,
    name: Seq<char>,
)
    requires
        supervisor.wf(),
        config.wf(),
        !supervisor.groups.contains_key(name),
        config.programs.contains_key(name),
    ensures
        supervisor.reloaded(config).groups[name] == GroupView::fresh(name, config.programs[name]),
        supervisor.reload_jobs(config).contains(
            ReloadJobView::Start {
                program: name,
                ids: missing_ids(Set::empty(), config.programs[name].numprocs as nat),
            },
        ) <==> config.programs[name].autostart,
{
    let start = ReloadJobView::Start {
        program: name,
        ids: missing_ids(Set::empty(), config.programs[name].numprocs as nat),
    };
    let jobs = supervisor.program_jobs(config, name);
    reload_jobs_are_exact(supervisor, config, start);
    if supervisor.launches(config, name) {
        assert(jobs.last() == start);
    }
}

/// After a change of configuration the programs are those of the new one, and the
/// state of each is sound.
pub proof fn reload_follows_the_configuration(supervisor: SupervisorView, config: ConfigView)
    requires
        supervisor.wf(),
        config.wf(),
    ensures
        supervisor.reloaded(config).wf(),
        forall|name: Seq<char>| #[trigger]
            supervisor.reloaded(config).names.contains(name) <==> config.names.contains(name),
{
    let kept = names_in(supervisor.names, config.programs.dom());
    let added = names_out(config.names, supervisor.groups.dom());
    let after = supervisor.reloaded(config);
    chosen_names(supervisor.names, config.programs.dom());
    chosen_names(config.names, supervisor.groups.dom());
    chosen_names_are_unique(supervisor.names, config.programs.dom());
    chosen_names_are_unique(config.names, supervisor.groups.dom());
    assert forall|name: Seq<char>| #[trigger] after.names.contains(name) <==> config.names.contains(
        name,
    ) by {
        if after.names.contains(name) {
            let i = after.names.index_of(name);
            if i < kept.len() {
                assert(kept[i] == name);
                assert(kept.contains(name));
            } else {
                assert(added[i - kept.len()] == name);
                assert(added.contains(name));
            }
        }
        if config.names.contains(name) {
            assert(config.programs.contains_key(name));
            if supervisor.groups.contains_key(name) {
                assert(kept.contains(name));
                assert(after.names[kept.index_of(name)] == name);
            } else {
                assert(added.contains(name));
                assert(after.names[kept.len() + added.index_of(name)] == name);
            }
        }
    }
    assert(after.names.no_duplicates()) by {
        assert forall|i: int, j: int|
            0 <= i < after.names.len() && 0 <= j < after.names.len() && i
                != j implies after.names[i] != after.names[j] by {
            if i < kept.len() && j >= kept.len() {
                assert(kept.contains(kept[i]));
                assert(added.contains(added[j - kept.len()]));
            }
            if j < kept.len() && i >= kept.len() {
                assert(kept.contains(kept[j]));
                assert(added.contains(added[i - kept.len()]));
            }
        }
    }
}

/// To change to the configuration that is in force changes nothing.
pub proof fn reload_of_the_same_changes_nothing(supervisor: SupervisorView, config: ConfigView)
    requires
        supervisor.wf(),
        config.wf(),
        forall|name: Seq<char>| #[trigger]
            supervisor.groups.contains_key(name) <==> config.programs.contains_key(name),
        forall|name: Seq<char>| #[trigger]
            supervisor.groups.contains_key(name) ==> supervisor.groups[name].program
                == config.programs[name],
    ensures
        supervisor.reloaded(config) == supervisor,
        supervisor.reload_jobs(config).len() == 0,
        supervisor.reload_summary(config).added.len() == 0,
        supervisor.reload_summary(config).removed.len() == 0,
        supervisor.reload_summary(config).changed.len() == 0,
        supervisor.reload_summary(config).unchanged == config.names,
{
    assert forall|name: Seq<char>| supervisor.names.contains(name) implies #[trigger]
        config.programs.dom().contains(name) by {
        assert(supervisor.groups.contains_key(name));
    }
    assert forall|name: Seq<char>| config.names.contains(name) implies #[trigger]
        supervisor.groups.dom().contains(name) by {
        assert(config.programs.contains_key(name));
        assert(supervisor.groups.contains_key(name));
    }
    assert forall|name: Seq<char>| config.names.contains(name) implies #[trigger] supervisor.kept(
        config,
    ).contains(name) by {
        assert(config.programs.contains_key(name));
        assert(supervisor.groups.contains_key(name));
    }
    all_chosen(supervisor.names, config.programs.dom());
    all_chosen(config.names, supervisor.groups.dom());
    all_chosen(config.names, supervisor.kept(config));
    all_chosen(names_in(config.names, supervisor.groups.dom()), supervisor.kept(config));
    let after = supervisor.reloaded(config);
    assert(after.groups =~= supervisor.groups) by {
        assert forall|name: Seq<char>| after.groups.contains_key(name)
            == supervisor.groups.contains_key(name) by {
            assert(supervisor.groups.contains_key(name) <==> config.programs.contains_key(name));
        }
        assert forall|name: Seq<char>| #[trigger] after.groups.contains_key(name) implies
            after.groups[name] == supervisor.groups[name] by {
            assert(supervisor.groups.contains_key(name));
            assert(supervisor.keeps(config, name));
        }
    }
    assert(supervisor.reloaded(config).names =~= supervisor.names);
    assert(supervisor.reloaded(config) =~= supervisor);
    let jobs = supervisor.reload_jobs(config);
    if jobs.len() > 0 {
        let job = jobs[0];
        assert(jobs.contains(job));
        reload_jobs_are_exact(supervisor, config, job);
        assert(supervisor.keeps(config, job.about()));
    }
}

proof fn all_chosen(names: Seq<Seq<char>>, chosen: Set<Seq<char>>)
    requires
        forall|name: Seq<char>| names.contains(name) ==> #[trigger] chosen.contains(name),
    ensures
        names_in(names, chosen) == names,
        names_out(names, chosen) == Seq::<Seq<char>>::empty(),
    decreases names.len(),
{
    if names.len() > 0 {
        let earlier = names.drop_last();
        assert(names =~= earlier.push(names.last()));
        pushing_adds_one(earlier, names.last());
        assert(names.contains(names.last()));
        assert forall|name: Seq<char>| earlier.contains(name) implies #[trigger] chosen.contains(
            name,
        ) by {
            assert(names.contains(name));
        }
        all_chosen(earlier, chosen);
    }
}

/// The summary of a change of configuration names each program of the new
/// configuration once: as added, changed or unchanged. It names each other program
/// that there was as removed.
pub proof fn summary_names_each_program_once(
    supervisor: SupervisorView,
    config: ConfigView,
    name: Seq<char>,
)
    requires
        supervisor.wf(),
        config.wf(),
    ensures
        ({
            let summary = supervisor.reload_summary(config);
            &&& summary.added.contains(name) <==> (config.programs.contains_key(name)
                && !supervisor.groups.contains_key(name))
            &&& summary.removed.contains(name) <==> (supervisor.groups.contains_key(name)
                && !config.programs.contains_key(name))
            &&& summary.changed.contains(name) <==> (supervisor.groups.contains_key(name)
                && config.programs.contains_key(name) && supervisor.groups[name].program
                != config.programs[name])
            &&& summary.unchanged.contains(name) <==> supervisor.keeps(config, name)
            &&& summary.added.no_duplicates() && summary.removed.no_duplicates()
            &&& summary.changed.no_duplicates() && summary.unchanged.no_duplicates()
        }),
{
    let common = names_in(config.names, supervisor.groups.dom());
    chosen_names(config.names, supervisor.groups.dom());
    chosen_names(supervisor.names, config.programs.dom());
    chosen_names(common, supervisor.kept(config));
    chosen_names(config.names, supervisor.kept(config));
    chosen_names_are_unique(config.names, supervisor.groups.dom());
    chosen_names_are_unique(supervisor.names, config.programs.dom());
    chosen_names_are_unique(common, supervisor.kept(config));
    chosen_names_are_unique(config.names, supervisor.kept(config));
    let summary = supervisor.reload_summary(config);
    assert(supervisor.groups.contains_key(name) <==> supervisor.names.contains(name));
    assert(config.programs.contains_key(name) <==> config.names.contains(name));
    assert(supervisor.kept(config).contains(name) == supervisor.keeps(config, name));
    assert(common.contains(name) <==> (config.names.contains(name)
        && supervisor.groups.dom().contains(name)));
    assert(summary.changed.contains(name) <==> (common.contains(name)
        && !supervisor.kept(config).contains(name)));
}

/// A stopped supervisor has no process left: nothing is to be waited for, every row of
/// the status report says so, and to stop it again changes nothing.
pub proof fn stopping_leaves_no_process(
    supervisor: SupervisorView,
    started: u128,
    now: u128,
    timeout_secs: u64,
    name: Seq<char>,
    i: int,
)
    requires
        supervisor.groups.contains_key(name),
        0 <= i < supervisor.groups[name].program.numprocs,
    ensures
        supervisor.stopped().idle(),
        !supervisor.stopped().running,
        supervisor.stopped().wait_step(started, now, timeout_secs) == WaitStep::Stopped,
        supervisor.stopped().stopped() == supervisor.stopped(),
        supervisor.stopped().groups[name].statuses(now)[i].state == "STOPPED"@,
        supervisor.stopped().groups[name].statuses(now)[i].pid is None,
{
    let once = supervisor.stopped();
    assert(once.stopped().groups =~= once.groups) by {
        assert forall|n: Seq<char>| #[trigger] once.groups.contains_key(n) implies
            once.stopped().groups[n] == once.groups[n] by {
            assert(supervisor.groups.contains_key(n));
            assert(once.groups[n].all_stopped() =~= once.groups[n]);
        }
    }
    assert(once.stopped() =~= once);
    assert(once.groups[name] == supervisor.groups[name].all_stopped());
}

proof fn another_state_is_sound(supervisor: SupervisorView, name: Seq<char>, group: GroupView)
    requires
        supervisor.wf(),
        supervisor.groups.contains_key(name),
        group.wf(),
        group.name == name,
    ensures
        supervisor.with_group(name, group).wf(),
{
    let after = supervisor.with_group(name, group);
    assert forall|other: Seq<char>| #[trigger] after.groups.contains_key(other)
        <==> after.names.contains(other) by {
        assert(supervisor.groups.contains_key(other) <==> supervisor.names.contains(other));
        assert(supervisor.groups.contains_key(name) <==> supervisor.names.contains(name));
    }
    assert forall|other: Seq<char>| #[trigger] after.groups.contains_key(other) implies
        after.groups[other].name == other && after.groups[other].wf() by {
        if other != name {
            assert(supervisor.groups.contains_key(other));
        }
    }
}

/// The state of each program stays sound from the first configuration on.
pub proof fn states_stay_sound(
    supervisor: SupervisorView,
    config: ConfigView,
    name: Seq<char>,
    group: GroupView,
)
    requires
        supervisor.wf(),
        config.wf(),
    ensures
        SupervisorView::fresh(config).wf(),
        supervisor.stopped().wf(),
        supervisor.groups.contains_key(name) && group.wf() && group.name == name
            ==> supervisor.with_group(name, group).wf(),
{
    assert forall|n: Seq<char>| #[trigger] supervisor.stopped().groups.contains_key(n) implies
        supervisor.stopped().groups[n].name == n && supervisor.stopped().groups[n].wf() by {
        assert(supervisor.groups.contains_key(n));
    }
    if supervisor.groups.contains_key(name) && group.wf() && group.name == name {
        another_state_is_sound(supervisor, name, group);
    }
}

impl SupervisorView {
    /// Whether a row of the status report is that of an instance of one of `names`.
    pub open spec fn owns_row(self, names: Seq<Seq<char>>, now: u128, row: StatusView) -> bool {
        exists|k: int, id: int|
            0 <= k < names.len() && 0 <= id < self.groups[names[k]].program.numprocs && row
                == #[trigger] self.groups[names[k]].statuses(now)[id]
    }
}

/// The status report has a row for each configured instance of each program, and no
/// other rows.
pub proof fn every_instance_has_a_row(
    supervisor: SupervisorView,
    names: Seq<Seq<char>>,
    now: u128,
)
    ensures
        forall|k: int, id: int|
            #![trigger names[k], supervisor.groups[names[k]].statuses(now)[id]]
            0 <= k < names.len() && 0 <= id < supervisor.groups[names[k]].program.numprocs
                ==> supervisor.rows_of(names, now).contains(
                supervisor.groups[names[k]].statuses(now)[id],
            ),
        forall|r: int|
            0 <= r < supervisor.rows_of(names, now).len() ==> supervisor.owns_row(
                names,
                now,
                #[trigger] supervisor.rows_of(names, now)[r],
            ),
{
    let all = supervisor.rows_of(names, now);
    assert forall|k: int, id: int|
        #![trigger names[k], supervisor.groups[names[k]].statuses(now)[id]]
        0 <= k < names.len() && 0 <= id
            < supervisor.groups[names[k]].program.numprocs implies all.contains(
        supervisor.groups[names[k]].statuses(now)[id],
    ) by {
        instance_has_a_row(supervisor, names, now, k, id);
    }
    assert forall|r: int| 0 <= r < all.len() implies supervisor.owns_row(
        names,
        now,
        #[trigger] all[r],
    ) by {
        row_has_an_instance(supervisor, names, now, r);
    }
}

proof fn instance_has_a_row(
    supervisor: SupervisorView,
    names: Seq<Seq<char>>,
    now: u128,
    k: int,
    id: int,
)
    requires
        0 <= k < names.len(),
        0 <= id < supervisor.groups[names[k]].program.numprocs,
    ensures
        supervisor.rows_of(names, now).contains(supervisor.groups[names[k]].statuses(now)[id]),
    decreases names.len(),
{
    let earlier = names.drop_last();
    let before = supervisor.rows_of(earlier, now);
    let all = supervisor.rows_of(names, now);
    let row = supervisor.groups[names[k]].statuses(now)[id];
    assert(all =~= before + supervisor.groups[names.last()].statuses(now));
    if k < names.len() - 1 {
        assert(earlier[k] == names[k]);
        instance_has_a_row(supervisor, earlier, now, k, id);
        assert(all[before.index_of(row)] == row);
    } else {
        assert(all[before.len() + id] == row);
    }
}

proof fn row_has_an_instance(
    supervisor: SupervisorView,
    names: Seq<Seq<char>>,
    now: u128,
    r: int,
)
    requires
        0 <= r < supervisor.rows_of(names, now).len(),
    ensures
        supervisor.owns_row(names, now, supervisor.rows_of(names, now)[r]),
    decreases names.len(),
{
    if names.len() > 0 {
        let earlier = names.drop_last();
        let last = names.len() - 1;
        let before = supervisor.rows_of(earlier, now);
        let all = supervisor.rows_of(names, now);
        assert(all =~= before + supervisor.groups[names[last]].statuses(now));
        if r < before.len() {
            row_has_an_instance(supervisor, earlier, now, r);
            let (k, id) = choose|k: int, id: int|
                0 <= k < earlier.len() && 0 <= id
                    < supervisor.groups[earlier[k]].program.numprocs && before[r]
                    == #[trigger] supervisor.groups[earlier[k]].statuses(now)[id];
            assert(all[r] == supervisor.groups[names[k]].statuses(now)[id]);
        } else {
            assert(all[r] == supervisor.groups[names[last]].statuses(now)[r - before.len()]);
        }
    }
}

/// What is left to be done at most in the look at one program.
pub open spec fn pass_rest(pass: PassView) -> nat {
    2 * pass.left.len() + if pass.respawn is Some {
        1nat
    } else {
        0
    }
}

/// What is left to be done at most in the looks at several programs.
pub open spec fn sweep_rest(passes: Seq<ProgramPassView>) -> nat
    decreases passes.len(),
{
    if passes.len() == 0 {
        0
    } else {
        sweep_rest(passes.drop_last()) + pass_rest(passes.last().pass)
    }
}

proof fn rest_after_update(passes: Seq<ProgramPassView>, at: int, entry: ProgramPassView)
    requires
        0 <= at < passes.len(),
    ensures
        sweep_rest(passes.update(at, entry)) == sweep_rest(passes) - pass_rest(passes[at].pass)
            + pass_rest(entry.pass),
        sweep_rest(passes) >= pass_rest(passes[at].pass),
    decreases passes.len(),
{
    let after = passes.update(at, entry);
    if at == passes.len() - 1 {
        assert(after.drop_last() =~= passes.drop_last());
    } else {
        assert(after.drop_last() =~= passes.drop_last().update(at, entry));
        rest_after_update(passes.drop_last(), at, entry);
    }
}

/// A look at all instances of all programs comes to an end: each step leaves less to be
/// done, whatever it shows.
pub proof fn sweeps_end(
    supervisor: SupervisorView,
    sweep: SweepView,
    answer: Option<ProcessPoll>,
    outcome: Option<u32>,
    now: u128,
)
    ensures
        sweep.action() is Poll ==> sweep_rest(
            supervisor.polled(sweep, answer, now).sweep.passes,
        ) < sweep_rest(sweep.passes),
        sweep.action() is Launch ==> sweep_rest(
            supervisor.launched(sweep, outcome, now).sweep.passes,
        ) < sweep_rest(sweep.passes),
{
    first_open_bounds(sweep.passes, 0);
    let at = sweep.at();
    if at < sweep.passes.len() {
        let polled = supervisor.polled(sweep, answer, now).sweep;
        let launched = supervisor.launched(sweep, outcome, now).sweep;
        rest_after_update(sweep.passes, at, polled.passes[at]);
        rest_after_update(sweep.passes, at, launched.passes[at]);
    }
}

/// An error in a lenient look ends the look at the program it came from and no other;
/// in a strict one it ends the whole look.
pub proof fn errors_end_what_they_should(
    supervisor: SupervisorView,
    sweep: SweepView,
    now: u128,
    i: int,
)
    requires
        sweep.action() is Poll,
        0 <= i < sweep.passes.len(),
    ensures
        sweep.lenient && i != sweep.at() ==> supervisor.polled(sweep, None, now).sweep.passes[i]
            == sweep.passes[i],
        sweep.lenient ==> supervisor.polled(
            sweep,
            None,
            now,
        ).sweep.passes[sweep.at()].pass.action() is Done,
        !sweep.lenient ==> supervisor.polled(sweep, None, now).sweep.action() is Done,
        supervisor.polled(sweep, None, now).supervisor.groups == supervisor.groups,
{
    first_open_bounds(sweep.passes, 0);
    assert(supervisor.polled(sweep, None, now).supervisor.groups =~= supervisor.groups);
}

/// A look at an instance keeps the state of each program sound.
pub proof fn looks_keep_states_sound(
    supervisor: SupervisorView,
    sweep: SweepView,
    answer: Option<ProcessPoll>,
    now: u128,
)
    requires
        supervisor.wf(),
    ensures
        supervisor.polled(sweep, answer, now).supervisor.wf(),
{
    let current = sweep.current();
    if supervisor.groups.contains_key(current.program) && answer is Some {
        reconciling_keeps_states_apart(
            supervisor.groups[current.program],
            current.pass.left.last(),
            answer->0,
            now,
            0,
            now,
        );
    }
}

/// An instance that is to be launched anew is so at once, and whatever comes of that
/// keeps the state of each program sound.
pub proof fn relaunches_come_at_once(
    supervisor: SupervisorView,
    sweep: SweepView,
    poll: ProcessPoll,
    now: u128,
    outcome: Option<u32>,
    later: u128,
)
    requires
        supervisor.wf(),
        sweep.action() is Poll,
        supervisor.groups.contains_key(sweep.current().program),
        supervisor.groups[sweep.current().program].reconciled(
            sweep.current().pass.left.last(),
            poll,
            now,
        ).respawn is Some,
    ensures
        ({
            let looked = supervisor.polled(sweep, Some(poll), now);
            &&& looked.sweep.action() == (SweepActionView::Launch {
                program: sweep.current().program,
                id: sweep.current().pass.left.last(),
            })
            &&& looked.supervisor.launched(looked.sweep, outcome, later).supervisor.wf()
        }),
{
    let current = sweep.current();
    let id = current.pass.left.last();
    let group = supervisor.groups[current.program];
    let looked = supervisor.polled(sweep, Some(poll), now);
    first_open_bounds(sweep.passes, 0);
    first_open_stays(sweep.passes, looked.sweep.passes, 0, sweep.at());
    reconciling_keeps_states_apart(
        group,
        id,
        poll,
        now,
        match outcome {
            Some(pid) => pid,
            None => 0,
        },
        later,
    );
}

proof fn first_open_stays(
    before: Seq<ProgramPassView>,
    after: Seq<ProgramPassView>,
    from: int,
    at: int,
)
    requires
        0 <= from <= at < before.len(),
        before.len() == after.len(),
        at == first_open(before, from),
        forall|i: int| 0 <= i < at ==> #[trigger] before[i] == after[i],
        !(after[at].pass.action() is Done),
    ensures
        first_open(after, from) == at,
    decreases at - from,
{
    if from < at {
        assert(before[from] == after[from]);
        first_open_bounds(before, from + 1);
        first_open_stays(before, after, from + 1, at);
    }
}

/// The rows of the programs differ from each other.
proof fn rows_differ(supervisor: SupervisorView, names: Seq<Seq<char>>, now: u128)
    requires
        names.no_duplicates(),
        forall|k: int|
            0 <= k < names.len() ==> supervisor.groups[#[trigger] names[k]].name == names[k],
    ensures
        supervisor.rows_of(names, now).no_duplicates(),
    decreases names.len(),
{
    if names.len() > 0 {
        let earlier = names.drop_last();
        let before = supervisor.rows_of(earlier, now);
        let more = supervisor.groups[names.last()].statuses(now);
        let all = supervisor.rows_of(names, now);
        assert forall|k: int| 0 <= k < earlier.len() implies supervisor.groups[
            #[trigger] earlier[k]].name == earlier[k] by {
            assert(earlier[k] == names[k]);
        }
        rows_differ(supervisor, earlier, now);
        every_instance_has_a_row(supervisor, earlier, now);
        assert(names[names.len() - 1] == names.last());
        assert forall|i: int, j: int|
            0 <= i < all.len() && 0 <= j < all.len() && i != j implies all[i] != all[j] by {
            if i < before.len() && j < before.len() {
                assert(before[i] != before[j]);
            } else if i >= before.len() && j >= before.len() {
                assert(more[i - before.len()].id == i - before.len());
                assert(more[j - before.len()].id == j - before.len());
            } else {
                let (first, second) = if i < j {
                    (i, j)
                } else {
                    (j, i)
                };
                assert(all[second] == more[second - before.len()]);
                assert(all[second].program == names.last());
                assert(all[first] == before[first]);
                assert(supervisor.owns_row(earlier, now, before[first]));
                let (k, id) = choose|k: int, id: int|
                    0 <= k < earlier.len() && 0 <= id
                        < supervisor.groups[earlier[k]].program.numprocs && before[first]
                        == #[trigger] supervisor.groups[earlier[k]].statuses(now)[id];
                assert(before[first].program == earlier[k]);
                assert(earlier[k] == names[k]);
            }
        }
    }
}

/// Whether a row stands before another one by program and instance, and not beside it.
pub open spec fn row_precedes(a: StatusView, b: StatusView) -> bool {
    if a.program == b.program {
        a.id < b.id
    } else {
        text_le(a.program, b.program)
    }
}

/// The rows of the status report ascend by program and instance, no two of them are of
/// the same instance, and there is one for each configured instance of each program and
/// no other. `rows` is what the report gives.
pub proof fn the_report_lists_each_instance_once(
    supervisor: SupervisorView,
    rows: Seq<ProcessStatus>,
    now: u128,
)
    requires
        supervisor.wf(),
        in_order(rows),
        status_views(rows).to_multiset() == supervisor.rows_of(
            supervisor.names,
            now,
        ).to_multiset(),
    ensures
        forall|i: int, j: int|
            #![trigger rows[i], rows[j]]
            0 <= i < j < rows.len() ==> row_precedes(rows[i]@, rows[j]@),
        forall|name: Seq<char>, id: int|
            #![trigger supervisor.groups[name].statuses(now)[id]]
            supervisor.groups.contains_key(name) && 0 <= id
                < supervisor.groups[name].program.numprocs ==> status_views(rows).contains(
                supervisor.groups[name].statuses(now)[id],
            ),
        forall|i: int|
            0 <= i < rows.len() ==> supervisor.owns_row(
                supervisor.names,
                now,
                (#[trigger] rows[i])@,
            ),
{
    broadcast use vstd::seq_lib::group_to_multiset_ensures;

    let names = supervisor.names;
    let all = supervisor.rows_of(names, now);
    let views = status_views(rows);
    assert forall|k: int| 0 <= k < names.len() implies supervisor.groups[#[trigger] names[k]].name
        == names[k] by {
        assert(names.contains(names[k]));
        assert(supervisor.groups.contains_key(names[k]));
    }
    rows_differ(supervisor, names, now);
    every_instance_has_a_row(supervisor, names, now);
    all.lemma_multiset_has_no_duplicates();
    views.lemma_multiset_has_no_duplicates_conv();
    assert forall|row: StatusView| views.contains(row) <==> all.contains(row) by {
        assert(views.to_multiset().count(row) > 0 <==> views.contains(row));
        assert(all.to_multiset().count(row) > 0 <==> all.contains(row));
    }
    assert forall|i: int| 0 <= i < rows.len() implies supervisor.owns_row(
        names,
        now,
        (#[trigger] rows[i])@,
    ) by {
        assert(views[i] == rows[i]@);
        assert(views.contains(rows[i]@));
        let r = all.index_of(rows[i]@);
        assert(all[r] == rows[i]@);
    }
    assert forall|name: Seq<char>, id: int|
        #![trigger supervisor.groups[name].statuses(now)[id]]
        supervisor.groups.contains_key(name) && 0 <= id
            < supervisor.groups[name].program.numprocs implies views.contains(
        supervisor.groups[name].statuses(now)[id],
    ) by {
        assert(names.contains(name));
        let k = names.index_of(name);
        assert(names[k] == name);
        assert(all.contains(supervisor.groups[names[k]].statuses(now)[id]));
    }
    assert forall|i: int, j: int|
        #![trigger rows[i], rows[j]]
        0 <= i < j < rows.len() implies row_precedes(rows[i]@, rows[j]@) by {
        assert(rows[i].ranks_before(&rows[j]));
        if rows[i]@.program == rows[j]@.program && rows[i]@.id == rows[j]@.id {
            assert(supervisor.owns_row(names, now, rows[i]@));
            assert(supervisor.owns_row(names, now, rows[j]@));
            let (k, x) = choose|k: int, id: int|
                0 <= k < names.len() && 0 <= id < supervisor.groups[names[k]].program.numprocs
                    && rows[i]@ == #[trigger] supervisor.groups[names[k]].statuses(now)[id];
            let (l, y) = choose|k: int, id: int|
                0 <= k < names.len() && 0 <= id < supervisor.groups[names[k]].program.numprocs
                    && rows[j]@ == #[trigger] supervisor.groups[names[k]].statuses(now)[id];
            assert(rows[i]@.program == names[k]);
            assert(rows[j]@.program == names[l]);
            assert(rows[i]@.id == x && rows[j]@.id == y);
            assert(views[i] == views[j]);
        }
    }
}

impl SupervisorView {
    /// The supervisor after jobs were carried out; `launches` tells for each program what
    /// came of the launches.
    pub open spec fn carried_out(
        self,
        jobs: Seq<ReloadJobView>,
        launches: Map<Seq<char>, Seq<Launch>>,
    ) -> SupervisorView
        decreases jobs.len(),
    {
        if jobs.len() == 0 {
            self
        } else {
            let before = self.carried_out(jobs.drop_last(), launches);
            match jobs.last() {
                ReloadJobView::Start { program, ids } => before.with_group(
                    program,
                    before.groups[program].with_all_started(ids, launches[program]),
                ),
                _ => before,
            }
        }
    }
}

/// To carry jobs out and then others is to carry them all out.
proof fn jobs_in_two_parts(
    supervisor: SupervisorView,
    first: Seq<ReloadJobView>,
    second: Seq<ReloadJobView>,
    launches: Map<Seq<char>, Seq<Launch>>,
)
    ensures
        supervisor.carried_out(first + second, launches) == supervisor.carried_out(
            first,
            launches,
        ).carried_out(second, launches),
    decreases second.len(),
{
    let all = first + second;
    if second.len() == 0 {
        assert(all =~= first);
    } else {
        assert(all.drop_last() =~= first + second.drop_last());
        assert(all.last() == second.last());
        jobs_in_two_parts(supervisor, first, second.drop_last(), launches);
    }
}

/// Jobs that launch nothing leave the supervisor as it is.
proof fn other_jobs_change_nothing(
    supervisor: SupervisorView,
    jobs: Seq<ReloadJobView>,
    launches: Map<Seq<char>, Seq<Launch>>,
)
    requires
        forall|i: int| 0 <= i < jobs.len() ==> !((#[trigger] jobs[i]) is Start),
    ensures
        supervisor.carried_out(jobs, launches) == supervisor,
    decreases jobs.len(),
{
    if jobs.len() > 0 {
        assert(jobs[jobs.len() - 1] == jobs.last());
        assert forall|i: int| 0 <= i < jobs.drop_last().len() implies !((
        #[trigger] jobs.drop_last()[i]) is Start) by {
            assert(jobs.drop_last()[i] == jobs[i]);
        }
        other_jobs_change_nothing(supervisor, jobs.drop_last(), launches);
    }
}

/// The jobs for one program launch that program, where it is to be launched, and
/// nothing else.
proof fn program_jobs_carried_out(
    supervisor: SupervisorView,
    config: ConfigView,
    name: Seq<char>,
    from: SupervisorView,
    launches: Map<Seq<char>, Seq<Launch>>,
)
    ensures
        from.carried_out(supervisor.program_jobs(config, name), launches) == if supervisor.launches(
            config,
            name,
        ) {
            from.with_group(
                name,
                from.groups[name].with_all_started(
                    missing_ids(Set::empty(), config.programs[name].numprocs as nat),
                    launches[name],
                ),
            )
        } else {
            from
        },
{
    let jobs = supervisor.program_jobs(config, name);
    if supervisor.launches(config, name) {
        let earlier = jobs.drop_last();
        assert(jobs.last() == (ReloadJobView::Start {
            program: name,
            ids: missing_ids(Set::empty(), config.programs[name].numprocs as nat),
        }));
        assert forall|i: int| 0 <= i < earlier.len() implies !((
        #[trigger] earlier[i]) is Start) by {
            assert(earlier[i] == jobs[i]);
        }
        other_jobs_change_nothing(from, earlier, launches);
    } else {
        other_jobs_change_nothing(from, jobs, launches);
    }
}

/// The jobs for several programs launch those of them that are to be launched, each
/// once, and nothing else.
proof fn config_jobs_carried_out(
    supervisor: SupervisorView,
    config: ConfigView,
    names: Seq<Seq<char>>,
    from: SupervisorView,
    launches: Map<Seq<char>, Seq<Launch>>,
)
    requires
        names.no_duplicates(),
    ensures
        ({
            let after = from.carried_out(supervisor.config_jobs(config, names), launches);
            &&& after.names == from.names
            &&& forall|name: Seq<char>|
                #![trigger after.groups[name]]
                after.groups[name] == if names.contains(name) && supervisor.launches(
                    config,
                    name,
                ) {
                    from.groups[name].with_all_started(
                        missing_ids(Set::empty(), config.programs[name].numprocs as nat),
                        launches[name],
                    )
                } else {
                    from.groups[name]
                }
        }),
    decreases names.len(),
{
    if names.len() > 0 {
        let earlier = names.drop_last();
        let last = names.last();
        let first = supervisor.config_jobs(config, earlier);
        let second = supervisor.program_jobs(config, last);
        config_jobs_carried_out(supervisor, config, earlier, from, launches);
        let before = from.carried_out(first, launches);
        let after = from.carried_out(supervisor.config_jobs(config, names), launches);
        jobs_in_two_parts(from, first, second, launches);
        program_jobs_carried_out(supervisor, config, last, before, launches);
        assert(names =~= earlier.push(last));
        pushing_adds_one(earlier, last);
        assert(!earlier.contains(last)) by {
            if earlier.contains(last) {
                assert(names[earlier.index_of(last)] == names[names.len() - 1]);
            }
        }
        assert(before.groups[last] == from.groups[last]);
        assert forall|name: Seq<char>|
            #![trigger after.groups[name]]
            after.groups[name] == if names.contains(name) && supervisor.launches(config, name) {
                from.groups[name].with_all_started(
                    missing_ids(Set::empty(), config.programs[name].numprocs as nat),
                    launches[name],
                )
            } else {
                from.groups[name]
            } by {
            assert(names.contains(name) <==> (earlier.contains(name) || name == last));
            if name != last {
                assert(after.groups[name] == before.groups[name]);
            }
        }
    }
}

/// Once what is to be done for a change of configuration is done, a program that is the
/// same in both is as it was. A program that is new or changed has, if it starts by
/// itself or was active, a process for each configured instance whose launch succeeded,
/// so that there are `numprocs` of them where all did, and is given up where a launch
/// failed. Otherwise it has no process.
pub proof fn reload_carried_out(
    supervisor: SupervisorView,
    config: ConfigView,
    launches: Map<Seq<char>, Seq<Launch>>,
    name: Seq<char>,
)
    requires
        supervisor.wf(),
        config.wf(),
        config.programs.contains_key(name),
        launches[name].len() == config.programs[name].numprocs,
    ensures
        ({
            let after = supervisor.reloaded(config).carried_out(
                supervisor.reload_jobs(config),
                launches,
            ).groups[name];
            let numprocs = config.programs[name].numprocs;
            let active = supervisor.groups.contains_key(name)
                && !supervisor.groups[name].instances.dom().is_empty();
            if supervisor.keeps(config, name) {
                after == supervisor.groups[name]
            } else if config.programs[name].autostart || active {
                &&& after.name == name && after.program == config.programs[name]
                &&& forall|id: usize|
                    #![trigger after.instances.contains_key(id)]
                    after.instances.contains_key(id) <==> (id < numprocs
                        && launches[name][id as int].outcome is Some)
                &&& forall|id: usize| #[trigger]
                    after.fatal.contains(id) <==> (id < numprocs
                        && launches[name][id as int].outcome is None)
                &&& (forall|k: int|
                    0 <= k < numprocs ==> (#[trigger] launches[name][k]).outcome is Some)
                    ==> after.instances.dom().len() == numprocs
            } else {
                after == GroupView::fresh(name, config.programs[name])
            }
        }),
{
    groups_after_reload(supervisor, config, launches, name);
    if supervisor.launches(config, name) {
        fresh_groups_started(name, config.programs[name], launches[name]);
    }
}

/// The state of a program once what is to be done for a change of configuration is done.
proof fn groups_after_reload(
    supervisor: SupervisorView,
    config: ConfigView,
    launches: Map<Seq<char>, Seq<Launch>>,
    name: Seq<char>,
)
    requires
        config.wf(),
        config.programs.contains_key(name),
    ensures
        supervisor.reloaded(config).carried_out(
            supervisor.reload_jobs(config),
            launches,
        ).groups[name] == if supervisor.launches(config, name) {
            GroupView::fresh(name, config.programs[name]).with_all_started(
                missing_ids(Set::empty(), config.programs[name].numprocs as nat),
                launches[name],
            )
        } else {
            supervisor.reloaded_group(config, name)
        },
{
    let start = supervisor.reloaded(config);
    let removed = names_out(supervisor.names, config.programs.dom());
    let first = removal_jobs(supervisor.groups, removed);
    let second = supervisor.config_jobs(config, config.names);
    removal_jobs_are_exact(supervisor.groups, removed);
    other_jobs_change_nothing(start, first, launches);
    jobs_in_two_parts(start, first, second, launches);
    config_jobs_carried_out(supervisor, config, config.names, start, launches);
    assert(config.names.contains(name));
    assert(start.groups.contains_key(name));
    assert(start.groups[name] == supervisor.reloaded_group(config, name));
}

/// What comes of launching a program of which nothing ran.
proof fn fresh_groups_started(name: Seq<char>, program: ProgramView, launches: Seq<Launch>)
    requires
        launches.len() == program.numprocs,
    ensures
        ({
            let after = GroupView::fresh(name, program).with_all_started(
                missing_ids(Set::empty(), program.numprocs as nat),
                launches,
            );
            &&& after.name == name && after.program == program
            &&& forall|id: usize|
                #![trigger after.instances.contains_key(id)]
                after.instances.contains_key(id) <==> (id < program.numprocs
                    && launches[id as int].outcome is Some)
            &&& forall|id: usize| #[trigger]
                after.fatal.contains(id) <==> (id < program.numprocs
                    && launches[id as int].outcome is None)
            &&& (forall|k: int|
                0 <= k < program.numprocs ==> (#[trigger] launches[k]).outcome is Some)
                ==> after.instances.dom().len() == program.numprocs
        }),
{
    let numprocs = program.numprocs;
    let fresh = GroupView::fresh(name, program);
    let ids = missing_ids(Set::empty(), numprocs as nat);
    let after = fresh.with_all_started(ids, launches);
    assert(fresh.instances.dom() =~= Set::<usize>::empty());
    assert(fresh.starting() =~= fresh);
    all_ids_are_missing(numprocs as nat);
    starting_fills_the_group(fresh, launches);
    launching_keeps_the_program(fresh, ids, launches);
    assert forall|id: usize|
        #![trigger after.instances.contains_key(id)]
        after.instances.contains_key(id) <==> (id < numprocs
            && launches[id as int].outcome is Some) by {
        if id < numprocs {
            assert(ids[id as int] == id);
        }
    }
    assert forall|id: usize| #[trigger] after.fatal.contains(id) <==> (id < numprocs
        && launches[id as int].outcome is None) by {
        if id < numprocs {
            assert(ids[id as int] == id);
        }
    }
    if forall|k: int| 0 <= k < numprocs ==> (#[trigger] launches[k]).outcome is Some {
        assert forall|id: usize|
            after.instances.dom().contains(id) == ids_below(numprocs).contains(id) by {
            assert(after.instances.contains_key(id) <==> (id < numprocs
                && launches[id as int].outcome is Some));
        }
        assert(after.instances.dom() =~= ids_below(numprocs));
        count_ids_below(numprocs);
    }
}

proof fn launching_keeps_the_program(group: GroupView, ids: Seq<usize>, launches: Seq<Launch>)
    ensures
        group.with_all_started(ids, launches).name == group.name,
        group.with_all_started(ids, launches).program == group.program,
    decreases ids.len(),
{
    if ids.len() > 0 {
        launching_keeps_the_program(group, ids.drop_last(), launches);
    }
}

proof fn all_ids_are_missing(n: nat)
    requires
        n <= usize::MAX,
    ensures
        missing_ids(Set::empty(), n).len() == n,
        forall|k: int| 0 <= k < n ==> #[trigger] missing_ids(Set::empty(), n)[k] == k,
    decreases n,
{
    if n > 0 {
        all_ids_are_missing((n - 1) as nat);
    }
}

proof fn count_ids_below(n: usize)
    ensures
        ids_below(n).finite(),
        ids_below(n).len() == n,
    decreases n,
{
    if n == 0 {
        assert(ids_below(n) =~= Set::<usize>::empty());
    } else {
        let m = (n - 1) as usize;
        count_ids_below(m);
        assert(ids_below(n) =~= ids_below(m).insert(m));
    }
}

} // verus!
