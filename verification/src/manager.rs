//! All instances of one program: when each is launched, given up or launched anew.
use crate::config::{AutoRestart, Program, ProgramView};
use crate::instance::{
    elapsed, elapsed_nanos, has_lasted, lasted, launched, InstanceView, ProcessError,
    ProcessInstance, ProcessPoll,
};
use crate::logger::{event_views, LogEvent, LogEventView};
use crate::numbers::{decimal, push_decimal};
use crate::order::{
    text_at_most, text_le, text_le_antisymmetric, text_le_total, text_le_transitive, Ranked,
};
use crate::text::same_text;
use std::collections::{HashMap, HashSet};
use vstd::prelude::*;
use vstd::std_specs::iter::IteratorSpec;
use vstd::string::StringExecFns;

verus! {

/// One row of the status report.
#[derive(Debug, Clone, PartialEq, Eq)]
pub struct ProcessStatus {
    /// The name of the program.
    pub program: String,
    /// The number of the instance.
    pub id: usize,
    /// The number of its process, while it has one.
    pub pid: Option<u32>,
    /// `STARTING`, `RUNNING`, `STOPPED` or `FATAL`.
    pub state: &'static str,
    /// The nanoseconds since its launch.
    pub uptime: Option<u128>,
}

/// A row with its texts as sequences of characters.
pub ghost struct StatusView {
    pub program: Seq<char>,
    pub id: usize,
    pub pid: Option<u32>,
    pub state: Seq<char>,
    pub uptime: Option<u128>,
}

impl View for ProcessStatus {
    type V = StatusView;

    open spec fn view(&self) -> StatusView {
        StatusView {
            program: self.program@,
            id: self.id,
            pid: self.pid,
            state: self.state@,
            uptime: self.uptime,
        }
    }
}

/// The rows as texts.
pub open spec fn status_views(rows: Seq<ProcessStatus>) -> Seq<StatusView> {
    rows.map_values(|row: ProcessStatus| row@)
}

impl Ranked for ProcessStatus {
    /// Rows go by program, and those of one program by instance.
    open spec fn ranks_before(&self, other: &Self) -> bool {
        if self.program@ == other.program@ {
            self.id <= other.id
        } else {
            text_le(self.program@, other.program@)
        }
    }

    proof fn rank_total(a: &Self, b: &Self) {
        text_le_total(a.program@, b.program@);
    }

    proof fn rank_transitive(a: &Self, b: &Self, c: &Self) {
        if a.program@ != b.program@ && b.program@ != c.program@ {
            text_le_transitive(a.program@, b.program@, c.program@);
            if a.program@ == c.program@ {
                text_le_antisymmetric(a.program@, b.program@);
            }
        }
    }

    fn may_precede(&self, other: &Self) -> (before: bool) {
        if same_text(self.program.as_str(), other.program.as_str()) {
            self.id <= other.id
        } else {
            text_at_most(self.program.as_str(), other.program.as_str())
        }
    }
}

/// The views of a group's instances.
pub open spec fn instance_views(instances: Map<usize, ProcessInstance>) -> Map<
    usize,
    InstanceView,
> {
    instances.map_values(|instance: ProcessInstance| instance@)
}

/// The numbers below `n`.
pub open spec fn ids_below(n: usize) -> Set<usize> {
    Set::new(|id: usize| id < n)
}

/// The numbers below `n` that are not in `present`, ascending.
pub open spec fn missing_ids(present: Set<usize>, n: nat) -> Seq<usize>
    decreases n,
{
    if n == 0 {
        Seq::empty()
    } else {
        let id = (n - 1) as usize;
        let before = missing_ids(present, (n - 1) as nat);
        if present.contains(id) {
            before
        } else {
            before.push(id)
        }
    }
}

/// The name of a restart policy.
pub open spec fn policy_name(autorestart: AutoRestart) -> Seq<char> {
    match autorestart {
        AutoRestart::Always => "Always"@,
        AutoRestart::Never => "Never"@,
        AutoRestart::Unexpected => "Unexpected"@,
    }
}

/// The reason that is recorded for an automatic restart.
pub open spec fn restart_reason(autorestart: AutoRestart) -> Seq<char> {
    "autorestart="@ + policy_name(autorestart)
}

/// The reason that is recorded for another attempt at a launch.
pub open spec fn retry_reason(attempts: u32, startretries: u32) -> Seq<char> {
    "startup retry "@ + decimal(attempts as nat) + "/"@ + decimal(startretries as nat)
}

/// Whether an instance that ended with this exit code is to be launched anew.
pub open spec fn restarts(program: ProgramView, code: Option<i32>) -> bool {
    match program.autorestart {
        AutoRestart::Always => true,
        AutoRestart::Never => false,
        AutoRestart::Unexpected => !exit_expected(program, code),
    }
}

/// Whether a program may end with this exit code; a death by a signal is never
/// expected.
pub open spec fn exit_expected(program: ProgramView, code: Option<i32>) -> bool {
    code is Some && program.exitcodes.contains(code->0)
}

/// What is known of one program's instances: those that have a process, the launches
/// in a row that each failed at, those given up and those stopped.
#[verifier::ext_equal]
pub ghost struct GroupView {
    pub name: Seq<char>,
    pub program: ProgramView,
    pub instances: Map<usize, InstanceView>,
    pub failures: Map<usize, u32>,
    pub fatal: Set<usize>,
    pub stopped: Set<usize>,
}

/// What a look at an instance leads to: the new state, the events to record and, where
/// the instance is to be launched anew, the attempts that failed so far.
pub ghost struct Reconciliation {
    pub group: GroupView,
    pub events: Seq<LogEventView>,
    pub respawn: Option<u32>,
}

impl GroupView {
    /// No instance is in two states at once, and of each one that is kept the process and
    /// the moment of its launch are known.
    pub open spec fn wf(self) -> bool {
        &&& forall|id: usize| #[trigger]
            self.instances.contains_key(id) ==> {
                &&& self.instances[id].child is Some
                &&& self.instances[id].started_at is Some
                &&& !self.fatal.contains(id)
                &&& !self.stopped.contains(id)
            }
        &&& forall|id: usize| #[trigger] self.fatal.contains(id) ==> !self.stopped.contains(id)
    }

    /// Whether an instance can be given up: it neither has a process nor was stopped.
    pub open spec fn may_give_up(self, id: usize) -> bool {
        !self.instances.contains_key(id) && !self.stopped.contains(id)
    }

    /// The group of a program of which nothing runs yet.
    pub open spec fn fresh(name: Seq<char>, program: ProgramView) -> GroupView {
        GroupView {
            name,
            program,
            instances: Map::empty(),
            failures: Map::empty(),
            fatal: Set::empty(),
            stopped: Set::empty(),
        }
    }

    /// The launches in a row that an instance failed at.
    pub open spec fn failures_of(self, id: usize) -> u32 {
        if self.failures.contains_key(id) {
            self.failures[id]
        } else {
            0
        }
    }

    /// Whether an instance has run for as long as a successful launch takes.
    pub open spec fn has_started(self, id: usize, now: u128) -> bool {
        let started_at = self.instances[id].started_at;
        started_at is Some && has_lasted(started_at->0, now, self.program.starttime)
    }

    /// Whether a look at an instance shows that its launch failed.
    pub open spec fn died_early(self, id: usize, poll: ProcessPoll, now: u128) -> bool {
        self.instances.contains_key(id) && poll is Exited && !self.has_started(id, now)
    }

    /// The group that is about to launch its missing instances: what went before is
    /// forgotten.
    pub open spec fn starting(self) -> GroupView {
        GroupView { failures: Map::empty(), fatal: Set::empty(), stopped: Set::empty(), ..self }
    }

    /// The group without its processes.
    pub open spec fn all_stopped(self) -> GroupView {
        GroupView {
            instances: Map::empty(),
            failures: Map::empty(),
            fatal: Set::empty(),
            stopped: ids_below(self.program.numprocs),
            ..self
        }
    }

    /// The group with an instance that was launched at moment `now`.
    pub open spec fn with_launched(self, id: usize, pid: u32, now: u128) -> GroupView {
        GroupView {
            instances: self.instances.insert(id, launched(self.name, id, self.program, pid, now)),
            ..self
        }
    }

    /// The group with an instance that was launched anew.
    pub open spec fn with_respawned(self, id: usize, pid: u32, now: u128) -> GroupView {
        GroupView {
            fatal: self.fatal.remove(id),
            stopped: self.stopped.remove(id),
            ..self.with_launched(id, pid, now)
        }
    }

    /// The group with an instance given up.
    pub open spec fn with_fatal(self, id: usize) -> GroupView {
        GroupView { fatal: self.fatal.insert(id), ..self }
    }

    /// What follows when an instance ended before its launch had succeeded: another
    /// attempt, until there were more failures than retries.
    pub open spec fn after_early_death(self, id: usize, code: Option<i32>) -> Reconciliation {
        let attempts = (self.failures_of(id) + 1) as u32;
        let group = GroupView {
            instances: self.instances.remove(id),
            failures: self.failures.insert(id, attempts),
            ..self
        };
        let crash = LogEventView::Crash { program: self.name, id, exit_code: code };
        if attempts > self.program.startretries {
            Reconciliation {
                group: group.with_fatal(id),
                events: seq![crash, LogEventView::Fatal { program: self.name, id, attempts }],
                respawn: None,
            }
        } else {
            let reason = retry_reason(attempts, self.program.startretries);
            Reconciliation {
                group,
                events: seq![crash, LogEventView::Restart { program: self.name, id, reason }],
                respawn: Some(attempts),
            }
        }
    }

    /// What follows when an instance ended after its launch had succeeded: what the
    /// restart policy says.
    pub open spec fn after_end(self, id: usize, code: Option<i32>) -> Reconciliation {
        let crash = if exit_expected(self.program, code) {
            Seq::empty()
        } else {
            seq![LogEventView::Crash { program: self.name, id, exit_code: code }]
        };
        let group = GroupView { instances: self.instances.remove(id), ..self };
        if restarts(self.program, code) {
            let reason = restart_reason(self.program.autorestart);
            Reconciliation {
                group,
                events: crash.push(LogEventView::Restart { program: self.name, id, reason }),
                respawn: Some(0),
            }
        } else {
            Reconciliation {
                group: GroupView {
                    failures: self.failures.remove(id),
                    stopped: self.stopped.insert(id),
                    ..group
                },
                events: crash.push(LogEventView::Stop { program: self.name, id }),
                respawn: None,
            }
        }
    }

    /// What a look at an instance leads to.
    pub open spec fn reconciled(self, id: usize, poll: ProcessPoll, now: u128) -> Reconciliation {
        let unchanged = Reconciliation { group: self, events: Seq::empty(), respawn: None };
        if !self.instances.contains_key(id) {
            unchanged
        } else {
            match poll {
                ProcessPoll::Running => if self.has_started(id, now) {
                    Reconciliation {
                        group: GroupView { failures: self.failures.insert(id, 0), ..self },
                        ..unchanged
                    }
                } else {
                    unchanged
                },
                ProcessPoll::Exited(code) => if self.has_started(id, now) {
                    self.after_end(id, code)
                } else {
                    self.after_early_death(id, code)
                },
                ProcessPoll::Stopped => self.after_end(id, None),
            }
        }
    }

    /// The row of the status report for an instance.
    pub open spec fn status_of(self, id: usize, now: u128) -> StatusView {
        if self.instances.contains_key(id) {
            let instance = self.instances[id];
            let uptime = match instance.started_at {
                Some(started_at) => Some(elapsed_nanos(started_at, now) as u128),
                None => None,
            };
            let lived = match instance.started_at {
                Some(started_at) => has_lasted(started_at, now, self.program.starttime),
                None => self.program.starttime == 0,
            };
            StatusView {
                program: self.name,
                id,
                pid: instance.child,
                state: if lived {
                    "RUNNING"@
                } else {
                    "STARTING"@
                },
                uptime,
            }
        } else {
            StatusView {
                program: self.name,
                id,
                pid: None,
                state: if self.fatal.contains(id) {
                    "FATAL"@
                } else {
                    "STOPPED"@
                },
                uptime: None,
            }
        }
    }

    /// The rows of the status report: one for each configured instance, in order.
    pub open spec fn statuses(self, now: u128) -> Seq<StatusView> {
        Seq::new(self.program.numprocs as nat, |i: int| self.status_of(i as usize, now))
    }
}

/// What became of launches: the failed ones in a row of each instance, the instances
/// that were given up and those that were stopped.
#[derive(Debug)]
pub struct Record {
    startup_failures: HashMap<usize, u32>,
    fatal_instances: HashSet<usize>,
    stopped_instances: HashSet<usize>,
}

/// All runtime state for one configured program.
#[derive(Debug)]
pub struct ProcessGroup {
    /// The name of the program.
    pub name: String,
    /// The program.
    pub program: Program,
    /// The instances that have a process, by their numbers.
    pub instances: HashMap<usize, ProcessInstance>,
    /// What became of the others.
    pub record: Record,
}

impl View for ProcessGroup {
    type V = GroupView;

    closed spec fn view(&self) -> GroupView {
        GroupView {
            name: self.name@,
            program: self.program@,
            instances: instance_views(self.instances@),
            failures: self.record.startup_failures@,
            fatal: self.record.fatal_instances@,
            stopped: self.record.stopped_instances@,
        }
    }
}

/// The public fields of a group are the like parts of its view.
pub proof fn public_fields_are_shown(group: ProcessGroup)
    ensures
        group@.name == group.name@,
        group@.program == group.program@,
        group@.instances == instance_views(group.instances@),
{
}

/// What came of the launch of one instance of a group.
#[derive(Debug)]
pub struct Launched {
    /// The event to record.
    pub event: LogEvent,
    /// Why there is no new process.
    pub error: Option<ProcessError>,
}

/// What a look at an instance leads to.
#[derive(Debug)]
pub struct Reconciled {
    /// The events to record, in order.
    pub events: Vec<LogEvent>,
    /// Where the instance is to be launched anew: the attempts that failed so far.
    pub respawn: Option<u32>,
}

fn policy_text(autorestart: AutoRestart) -> (text: &'static str)
    ensures
        text@ == policy_name(autorestart),
{
    match autorestart {
        AutoRestart::Always => "Always",
        AutoRestart::Never => "Never",
        AutoRestart::Unexpected => "Unexpected",
    }
}

fn restart_reason_text(autorestart: AutoRestart) -> (reason: String)
    ensures
        reason@ == restart_reason(autorestart),
{
    let mut reason = "autorestart=".to_string();
    reason.append(policy_text(autorestart));
    reason
}

fn retry_reason_text(attempts: u32, startretries: u32) -> (reason: String)
    ensures
        reason@ == retry_reason(attempts, startretries),
{
    let mut reason = "startup retry ".to_string();
    push_decimal(&mut reason, attempts as u128);
    reason.append("/");
    push_decimal(&mut reason, startretries as u128);
    reason
}

/// Whether a program may end with this exit code; a death by a signal is never
/// expected.
pub fn is_exit_expected(program: &Program, code: Option<i32>) -> (expected: bool)
    ensures
        expected == exit_expected(program@, code),
{
    match code {
        Some(number) => {
            for i in 0..program.exitcodes.len()
                invariant
                    code == Some(number),
                    forall|j: int| 0 <= j < i ==> program.exitcodes@[j] != number,
            {
                if program.exitcodes[i] == number {
                    proof {
                        assert(program@.exitcodes[i as int] == number);
                    }
                    return true;
                }
            }
            false
        },
        None => false,
    }
}

/// Whether an instance that ended with this exit code is to be launched anew.
pub fn should_restart(program: &Program, code: Option<i32>) -> (restart: bool)
    ensures
        restart == restarts(program@, code),
{
    match program.autorestart {
        AutoRestart::Always => true,
        AutoRestart::Never => false,
        AutoRestart::Unexpected => !is_exit_expected(program, code),
    }
}

impl ProcessGroup {
    /// The group of a program of which nothing runs yet.
    pub fn new(name: String, program: Program) -> (group: Self)
        ensures
            group@ == GroupView::fresh(name@, program@),
            group@.wf(),
    {
        broadcast use vstd::std_specs::hash::group_hash_axioms;

        let group = ProcessGroup {
            name,
            program,
            instances: HashMap::new(),
            record: Record {
                startup_failures: HashMap::new(),
                fatal_instances: HashSet::new(),
                stopped_instances: HashSet::new(),
            },
        };
        proof {
            assert(group@ =~= GroupView::fresh(name@, program@));
        }
        group
    }

    /// The program.
    pub fn program(&self) -> (program: &Program)
        ensures
            program@ == self@.program,
    {
        &self.program
    }

    /// An instance that has a process.
    pub fn instance(&self, id: usize) -> (instance: Option<&ProcessInstance>)
        ensures
            match instance {
                Some(instance) => self@.instances.contains_key(id) && instance@
                    == self@.instances[id],
                None => !self@.instances.contains_key(id),
            },
    {
        broadcast use vstd::std_specs::hash::group_hash_axioms;

        self.instances.get(&id)
    }

    /// Begins to launch every configured instance that has no process: the numbers of
    /// those, ascending. What became of earlier launches is forgotten.
    pub fn start_all(&mut self) -> (ids: Vec<usize>)
        ensures
            final(self)@ == old(self)@.starting(),
            old(self)@.wf() ==> final(self)@.wf(),
            ids@ == missing_ids(
                old(self)@.instances.dom(),
                old(self)@.program.numprocs as nat,
            ),
    {
        broadcast use vstd::std_specs::hash::group_hash_axioms;

        self.record.stopped_instances.clear();
        self.record.fatal_instances.clear();
        self.record.startup_failures.clear();
        let mut ids: Vec<usize> = Vec::new();
        for id in 0..self.program.numprocs
            invariant
                self@ == old(self)@.starting(),
                ids@ == missing_ids(self@.instances.dom(), id as nat),
        {
            broadcast use vstd::std_specs::hash::group_hash_axioms;

            if !self.instances.contains_key(&id) {
                ids.push(id);
            }
        }
        ids
    }

    /// Takes notice of the launch of an instance that was to be launched with all the
    /// others; `outcome` is the number of the new process or why there is none.
    pub fn started(
        &mut self,
        id: usize,
        outcome: Result<u32, ProcessError>,
        now: u128,
    ) -> (result: Launched)
        ensures
            match outcome {
                Ok(pid) => {
                    &&& final(self)@ == old(self)@.with_launched(id, pid, now)
                    &&& result.event@ == (LogEventView::Start {
                        program: old(self)@.name,
                        id,
                        pid: Some(pid),
                    })
                    &&& result.error is None
                },
                Err(error) => {
                    &&& final(self)@ == old(self)@.with_fatal(id)
                    &&& result.event@ == (LogEventView::Fatal {
                        program: old(self)@.name,
                        id,
                        attempts: 1,
                    })
                    &&& result.error == Some(error)
                },
            },
            old(self)@.wf() && (match outcome {
                Ok(_) => !old(self)@.fatal.contains(id) && !old(self)@.stopped.contains(id),
                Err(_) => old(self)@.may_give_up(id),
            }) ==> final(self)@.wf(),
    {
        broadcast use vstd::std_specs::hash::group_hash_axioms;

        match ProcessInstance::spawn(self.name.as_str(), id, &self.program, outcome, now) {
            Ok((instance, event)) => {
                self.instances.insert(id, instance);
                proof {
                    assert(self@ =~= old(self)@.with_launched(id, outcome->Ok_0, now));
                }
                Launched { event, error: None }
            },
            Err(error) => {
                self.record.fatal_instances.insert(id);
                let event = LogEvent::Fatal { program: self.name.clone(), id, attempts: 1 };
                Launched { event, error: Some(error) }
            },
        }
    }

    /// Begins to stop every instance, and keeps them from being launched anew: the
    /// instances that are to be stopped.
    pub fn stop_all(&mut self) -> (instances: HashMap<usize, ProcessInstance>)
        ensures
            final(self)@ == old(self)@.all_stopped(),
            final(self)@.wf(),
            instance_views(instances@) == old(self)@.instances,
    {
        broadcast use vstd::std_specs::hash::group_hash_axioms;

        let mut instances: HashMap<usize, ProcessInstance> = HashMap::new();
        std::mem::swap(&mut self.instances, &mut instances);
        self.record.startup_failures.clear();
        self.record.fatal_instances.clear();
        let mut stopped: HashSet<usize> = HashSet::new();
        for id in 0..self.program.numprocs
            invariant
                stopped@ == ids_below(id),
        {
            broadcast use vstd::std_specs::hash::group_hash_axioms;

            stopped.insert(id);
            proof {
                assert(stopped@ =~= ids_below((id + 1) as usize));
            }
        }
        self.record.stopped_instances = stopped;
        proof {
            assert(self@ =~= old(self)@.all_stopped());
        }
        instances
    }

    /// Takes notice of the launch of one instance on its own: the event to record, or
    /// why there is no new process.
    pub fn spawn_one(
        &mut self,
        id: usize,
        outcome: Result<u32, ProcessError>,
        now: u128,
    ) -> (spawned: Result<LogEvent, ProcessError>)
        ensures
            match outcome {
                Ok(pid) => {
                    &&& final(self)@ == old(self)@.with_respawned(id, pid, now)
                    &&& spawned is Ok
                    &&& spawned->Ok_0@ == (LogEventView::Start {
                        program: old(self)@.name,
                        id,
                        pid: Some(pid),
                    })
                },
                Err(error) => {
                    &&& final(self)@ == old(self)@
                    &&& spawned == Err::<LogEvent, ProcessError>(error)
                },
            },
            old(self)@.wf() ==> final(self)@.wf(),
    {
        broadcast use vstd::std_specs::hash::group_hash_axioms;

        match ProcessInstance::spawn(self.name.as_str(), id, &self.program, outcome, now) {
            Ok((instance, event)) => {
                self.record.fatal_instances.remove(&id);
                self.record.stopped_instances.remove(&id);
                self.instances.insert(id, instance);
                proof {
                    assert(self@ =~= old(self)@.with_respawned(id, outcome->Ok_0, now));
                }
                Ok(event)
            },
            Err(error) => Err(error),
        }
    }

    /// Whether any instance has a process.
    pub fn is_active(&self) -> (active: bool)
        ensures
            active == !self@.instances.dom().is_empty(),
    {
        broadcast use vstd::std_specs::hash::group_hash_axioms;

        proof {
            assert(self@.instances.dom() =~= self.instances@.dom());
        }
        !self.instances.is_empty()
    }

    /// The number of instances that had a process when they were last looked at.
    pub fn instance_count(&self) -> (count: usize)
        ensures
            count == self@.instances.dom().len(),
    {
        broadcast use vstd::std_specs::hash::group_hash_axioms;

        proof {
            assert(self@.instances.dom() =~= self.instances@.dom());
        }
        self.instances.len()
    }

    /// The rows of the status report: one for each configured instance, in order.
    pub fn statuses(&self, now: u128) -> (rows: Vec<ProcessStatus>)
        ensures
            status_views(rows@) == self@.statuses(now),
    {
        let mut rows: Vec<ProcessStatus> = Vec::new();
        for id in 0..self.program.numprocs
            invariant
                self@.program == self.program@,
                status_views(rows@) == self@.statuses(now).take(id as int),
        {
            let ghost before = rows@;
            rows.push(self.status(id, now));
            proof {
                assert(status_views(rows@) =~= status_views(before).push(self@.status_of(id, now)));
                let all = self@.statuses(now);
                assert(all.take(id + 1) =~= all.take(id as int).push(self@.status_of(id, now)));
            }
        }
        proof {
            assert(self@.statuses(now).take(self.program.numprocs as int) =~= self@.statuses(now));
        }
        rows
    }

    /// The row of the status report for one instance.
    pub fn status(&self, id: usize, now: u128) -> (row: ProcessStatus)
        ensures
            row@ == self@.status_of(id, now),
    {
        broadcast use vstd::std_specs::hash::group_hash_axioms;

        match self.instances.get(&id) {
            Some(instance) => {
                proof {
                    assert(self@.instances[id] == instance@);
                }
                let (uptime, lived) = match instance.started_at {
                    Some(started_at) => (
                        Some(elapsed(started_at, now)),
                        lasted(started_at, now, self.program.starttime),
                    ),
                    None => (None, self.program.starttime == 0),
                };
                ProcessStatus {
                    program: self.name.clone(),
                    id,
                    pid: instance.pid(),
                    state: if lived {
                        "RUNNING"
                    } else {
                        "STARTING"
                    },
                    uptime,
                }
            },
            None => ProcessStatus {
                program: self.name.clone(),
                id,
                pid: None,
                state: if self.record.fatal_instances.contains(&id) {
                    "FATAL"
                } else {
                    "STOPPED"
                },
                uptime: None,
            },
        }
    }

    /// Whether an instance has run for as long as a successful launch takes.
    fn started_by(&self, id: usize, now: u128) -> (started: Option<bool>)
        ensures
            match started {
                Some(started) => self@.instances.contains_key(id) && started == self@.has_started(
                    id,
                    now,
                ),
                None => !self@.instances.contains_key(id),
            },
    {
        broadcast use vstd::std_specs::hash::group_hash_axioms;

        match self.instances.get(&id) {
            Some(instance) => {
                proof {
                    assert(self@.instances[id] == instance@);
                }
                match instance.started_at {
                    Some(started_at) => Some(lasted(started_at, now, self.program.starttime)),
                    None => Some(false),
                }
            },
            None => None,
        }
    }

    fn failures(&self, id: usize) -> (failures: u32)
        ensures
            failures == self@.failures_of(id),
    {
        broadcast use vstd::std_specs::hash::group_hash_axioms;

        match self.record.startup_failures.get(&id) {
            Some(failures) => *failures,
            None => 0,
        }
    }

    /// Whether the failed launches of an instance can be counted once more, where this
    /// look at it calls for that.
    pub fn can_reconcile(&self, id: usize, poll: ProcessPoll, now: u128) -> (can: bool)
        ensures
            can == (self@.died_early(id, poll, now) ==> self@.failures_of(id) < u32::MAX),
    {
        match (self.started_by(id, now), poll) {
            (Some(false), ProcessPoll::Exited(_)) => self.failures(id) < u32::MAX,
            _ => true,
        }
    }

    /// Takes notice of a look at one instance at moment `now`, by the rules for failed
    /// launches and for restarts.
    pub fn reconcile(&mut self, id: usize, poll: ProcessPoll, now: u128) -> (result: Reconciled)
        requires
            old(self)@.died_early(id, poll, now) ==> old(self)@.failures_of(id) < u32::MAX,
        ensures
            final(self)@ == old(self)@.reconciled(id, poll, now).group,
            event_views(result.events@) == old(self)@.reconciled(id, poll, now).events,
            result.respawn == old(self)@.reconciled(id, poll, now).respawn,
            old(self)@.wf() ==> final(self)@.wf(),
    {
        broadcast use vstd::std_specs::hash::group_hash_axioms;

        let started = match self.started_by(id, now) {
            Some(started) => started,
            None => {
                return Reconciled { events: Vec::new(), respawn: None };
            },
        };
        match poll {
            ProcessPoll::Running => {
                if started {
                    self.record.startup_failures.insert(id, 0);
                }
                Reconciled { events: Vec::new(), respawn: None }
            },
            ProcessPoll::Exited(code) => {
                if started {
                    self.end(id, code)
                } else {
                    self.die_early(id, code)
                }
            },
            ProcessPoll::Stopped => self.end(id, None),
        }
    }

    /// Takes notice that an instance ended before its launch had succeeded.
    fn die_early(&mut self, id: usize, code: Option<i32>) -> (result: Reconciled)
        requires
            old(self)@.failures_of(id) < u32::MAX,
        ensures
            final(self)@ == old(self)@.after_early_death(id, code).group,
            event_views(result.events@) == old(self)@.after_early_death(id, code).events,
            result.respawn == old(self)@.after_early_death(id, code).respawn,
    {
        broadcast use vstd::std_specs::hash::group_hash_axioms;

        let attempts = self.failures(id) + 1;
        let startretries = self.program.startretries;
        self.instances.remove(&id);
        self.record.startup_failures.insert(id, attempts);
        let mut events: Vec<LogEvent> = Vec::new();
        events.push(LogEvent::Crash { program: self.name.clone(), id, exit_code: code });
        if attempts > startretries {
            self.record.fatal_instances.insert(id);
            events.push(LogEvent::Fatal { program: self.name.clone(), id, attempts });
            proof {
                assert(self@ =~= old(self)@.after_early_death(id, code).group);
                assert(event_views(events@) =~= old(self)@.after_early_death(id, code).events);
            }
            Reconciled { events, respawn: None }
        } else {
            let reason = retry_reason_text(attempts, startretries);
            events.push(LogEvent::Restart { program: self.name.clone(), id, reason });
            proof {
                assert(self@ =~= old(self)@.after_early_death(id, code).group);
                assert(event_views(events@) =~= old(self)@.after_early_death(id, code).events);
            }
            Reconciled { events, respawn: Some(attempts) }
        }
    }

    /// Takes notice that an instance ended after its launch had succeeded.
    fn end(&mut self, id: usize, code: Option<i32>) -> (result: Reconciled)
        ensures
            final(self)@ == old(self)@.after_end(id, code).group,
            event_views(result.events@) == old(self)@.after_end(id, code).events,
            result.respawn == old(self)@.after_end(id, code).respawn,
    {
        broadcast use vstd::std_specs::hash::group_hash_axioms;

        self.instances.remove(&id);
        let mut events: Vec<LogEvent> = Vec::new();
        if !is_exit_expected(&self.program, code) {
            events.push(LogEvent::Crash { program: self.name.clone(), id, exit_code: code });
        }
        if should_restart(&self.program, code) {
            let reason = restart_reason_text(self.program.autorestart);
            events.push(LogEvent::Restart { program: self.name.clone(), id, reason });
            proof {
                assert(self@ =~= old(self)@.after_end(id, code).group);
                assert(event_views(events@) =~= old(self)@.after_end(id, code).events);
            }
            Reconciled { events, respawn: Some(0) }
        } else {
            self.record.startup_failures.remove(&id);
            self.record.stopped_instances.insert(id);
            events.push(LogEvent::Stop { program: self.name.clone(), id });
            proof {
                assert(self@ =~= old(self)@.after_end(id, code).group);
                assert(event_views(events@) =~= old(self)@.after_end(id, code).events);
            }
            Reconciled { events, respawn: None }
        }
    }

    /// Takes notice of the launch of an instance that was to be launched anew, where
    /// `attempts` launches had failed before: a failure gives the instance up.
    pub fn respawned(
        &mut self,
        id: usize,
        attempts: u32,
        outcome: Result<u32, ProcessError>,
        now: u128,
    ) -> (result: Launched)
        requires
            outcome is Err ==> attempts < u32::MAX,
        ensures
            match outcome {
                Ok(pid) => {
                    &&& final(self)@ == old(self)@.with_respawned(id, pid, now)
                    &&& result.event@ == (LogEventView::Start {
                        program: old(self)@.name,
                        id,
                        pid: Some(pid),
                    })
                    &&& result.error is None
                },
                Err(error) => {
                    &&& final(self)@ == old(self)@.with_fatal(id)
                    &&& result.event@ == (LogEventView::Fatal {
                        program: old(self)@.name,
                        id,
                        attempts: (attempts + 1) as u32,
                    })
                    &&& result.error == Some(error)
                },
            },
            old(self)@.wf() && (outcome is Ok || old(self)@.may_give_up(id)) ==> final(self)@.wf(),
    {
        broadcast use vstd::std_specs::hash::group_hash_axioms;

        match self.spawn_one(id, outcome, now) {
            Ok(event) => Launched { event, error: None },
            Err(error) => {
                self.record.fatal_instances.insert(id);
                let event = LogEvent::Fatal {
                    program: self.name.clone(),
                    id,
                    attempts: attempts + 1,
                };
                Launched { event, error: Some(error) }
            },
        }
    }
}

/// What is to be done next in a look at all instances of a group.
#[derive(Debug, Clone, Copy, PartialEq, Eq, Structural)]
pub enum PassAction {
    /// Look at this instance.
    Poll { id: usize },
    /// Launch this instance anew.
    Launch { id: usize },
    /// Nothing is left to be done.
    Done,
}

/// What is to be done next to count the instances that run.
#[derive(Debug, Clone, Copy, PartialEq, Eq, Structural)]
pub enum RunningCount {
    /// Look at this instance.
    Poll { id: usize },
    /// Launch this instance anew.
    Launch { id: usize },
    /// Nothing: so many instances run.
    Counted(usize),
}

/// An instance that is to be launched anew, and the attempts that failed so far.
#[derive(Debug, Clone, Copy, PartialEq, Eq, Structural)]
pub struct Retry {
    /// The number of the instance.
    pub id: usize,
    /// The attempts that failed so far.
    pub attempts: u32,
}

/// A look at all instances of a group under way: the instances not looked at yet, the
/// last one first, and the one that is to be launched anew. It ends early at the first
/// error.
#[derive(Debug)]
pub struct Pass {
    left: Vec<usize>,
    respawn: Option<Retry>,
}

/// A look at all instances of a group.
pub ghost struct PassView {
    pub left: Seq<usize>,
    pub respawn: Option<Retry>,
}

impl View for Pass {
    type V = PassView;

    closed spec fn view(&self) -> PassView {
        PassView { left: self.left@, respawn: self.respawn }
    }
}

impl PassView {
    /// The look that is over.
    pub open spec fn over() -> PassView {
        PassView { left: Seq::empty(), respawn: None }
    }

    /// What is to be done next.
    pub open spec fn action(self) -> PassAction {
        match self.respawn {
            Some(retry) => PassAction::Launch { id: retry.id },
            None => if self.left.len() > 0 {
                PassAction::Poll { id: self.left.last() }
            } else {
                PassAction::Done
            },
        }
    }

    /// The look after its last instance was looked at, with what that led to.
    pub open spec fn looked(self, respawn: Option<u32>) -> PassView {
        PassView {
            left: self.left.drop_last(),
            respawn: match respawn {
                Some(attempts) => Some(Retry { id: self.left.last(), attempts }),
                None => None,
            },
        }
    }
}

/// What one step of a look at all instances leads to.
#[derive(Debug)]
pub struct PassStep {
    /// The events to record, in order.
    pub events: Vec<LogEvent>,
    /// The error that ends the look.
    pub error: Option<ProcessError>,
}

/// What one step of a look at all instances of a group leads to: the new state, what
/// is left of the look, and the events to record.
pub ghost struct PassResult {
    pub group: GroupView,
    pub pass: PassView,
    pub events: Seq<LogEventView>,
}

impl PassResult {
    /// Whether this is what came out.
    pub open spec fn is(self, group: GroupView, pass: PassView, step: PassStep) -> bool {
        &&& group == self.group
        &&& pass == self.pass
        &&& event_views(step.events@) == self.events
    }
}

impl GroupView {
    /// What follows the look at the next instance, where `answer` is what it showed, if
    /// it could be looked at.
    pub open spec fn polled(
        self,
        pass: PassView,
        answer: Option<ProcessPoll>,
        now: u128,
    ) -> PassResult {
        match answer {
            Some(poll) => {
                let result = self.reconciled(pass.left.last(), poll, now);
                PassResult {
                    group: result.group,
                    pass: pass.looked(result.respawn),
                    events: result.events,
                }
            },
            None => PassResult { group: self, pass: PassView::over(), events: Seq::empty() },
        }
    }

    /// What follows the new launch of an instance, where `outcome` is the number of its
    /// process, if there is one. A failure gives the instance up and ends the look.
    pub open spec fn launched(
        self,
        pass: PassView,
        outcome: Option<u32>,
        now: u128,
    ) -> PassResult {
        let retry = pass.respawn->0;
        match outcome {
            Some(pid) => PassResult {
                group: self.with_respawned(retry.id, pid, now),
                pass: PassView { respawn: None, ..pass },
                events: seq![
                    LogEventView::Start { program: self.name, id: retry.id, pid: Some(pid) },
                ],
            },
            None => PassResult {
                group: self.with_fatal(retry.id),
                pass: PassView::over(),
                events: seq![
                    LogEventView::Fatal {
                        program: self.name,
                        id: retry.id,
                        attempts: (retry.attempts + 1) as u32,
                    },
                ],
            },
        }
    }
}

impl Pass {
    /// What is to be done next.
    pub fn action(&self) -> (action: PassAction)
        ensures
            action == self@.action(),
    {
        match self.respawn {
            Some(retry) => PassAction::Launch { id: retry.id },
            None => {
                if self.left.len() > 0 {
                    PassAction::Poll { id: self.left[self.left.len() - 1] }
                } else {
                    PassAction::Done
                }
            },
        }
    }

    /// The look that is over.
    pub fn ended() -> (pass: Self)
        ensures
            pass@ == PassView::over(),
    {
        let pass = Pass { left: Vec::new(), respawn: None };
        proof {
            assert(pass@.left =~= Seq::<usize>::empty());
        }
        pass
    }

    /// The attempts that failed so far of the instance that is to be launched anew.
    pub fn attempts(&self) -> (attempts: Option<u32>)
        ensures
            attempts == match self@.respawn {
                Some(retry) => Some(retry.attempts),
                None => None,
            },
    {
        match self.respawn {
            Some(retry) => Some(retry.attempts),
            None => None,
        }
    }
}

impl ProcessGroup {
    /// Begins to look at all instances that have a process, each one once.
    pub fn begin_pass(&self) -> (pass: Pass)
        ensures
            pass@.left.no_duplicates(),
            pass@.left.to_set() == self@.instances.dom(),
            pass@.respawn is None,
    {
        broadcast use vstd::std_specs::hash::group_hash_axioms;

        let keys = self.instances.keys();
        let ghost ids = keys.remaining().unref();
        let mut left: Vec<usize> = Vec::new();
        for id in it: keys
            invariant
                it.seq().unref() == ids,
                left@ == ids.take(it.index()),
        {
            left.push(*id);
            proof {
                assert(ids.take(it.index() + 1) =~= ids.take(it.index()).push(*id));
            }
        }
        proof {
            assert(left@ =~= ids);
        }
        let pass = Pass { left, respawn: None };
        proof {
            assert(self@.instances.dom() =~= self.instances@.dom());
        }
        pass
    }

    /// The number of instances that run. They have to be looked at first: what is to be
    /// done next for that in `pass`, which `begin_pass` began, and the number once that
    /// is over, be it by an error.
    pub fn running_count(&self, pass: &Pass) -> (count: RunningCount)
        ensures
            count == match pass@.action() {
                PassAction::Poll { id } => RunningCount::Poll { id },
                PassAction::Launch { id } => RunningCount::Launch { id },
                PassAction::Done => RunningCount::Counted(self@.instances.dom().len() as usize),
            },
            pass@.action() is Done ==> self@.instances.dom().len() <= usize::MAX,
    {
        match pass.action() {
            PassAction::Poll { id } => RunningCount::Poll { id },
            PassAction::Launch { id } => RunningCount::Launch { id },
            PassAction::Done => RunningCount::Counted(self.instance_count()),
        }
    }

    /// Takes notice of the look at the instance that was next; `answer` is what it
    /// showed at moment `now`.
    pub fn polled(
        &mut self,
        pass: &mut Pass,
        answer: Result<ProcessPoll, ProcessError>,
        now: u128,
    ) -> (step: PassStep)
        requires
            old(pass)@.action() is Poll,
            answer is Ok && old(self)@.died_early(old(pass)@.left.last(), answer->Ok_0, now)
                ==> old(self)@.failures_of(old(pass)@.left.last()) < u32::MAX,
        ensures
            old(self)@.polled(old(pass)@, answer.ok(), now).is(final(self)@, final(pass)@, step),
            step.error == answer.err(),
            old(self)@.wf() ==> final(self)@.wf(),
    {
        match answer {
            Ok(poll) => {
                match pass.left.pop() {
                    Some(id) => {
                        let result = self.reconcile(id, poll, now);
                        pass.respawn = match result.respawn {
                            Some(attempts) => Some(Retry { id, attempts }),
                            None => None,
                        };
                        PassStep { events: result.events, error: None }
                    },
                    None => PassStep { events: Vec::new(), error: None },
                }
            },
            Err(error) => {
                pass.left.clear();
                let step = PassStep { events: Vec::new(), error: Some(error) };
                proof {
                    assert(event_views(step.events@) =~= Seq::<LogEventView>::empty());
                    assert(pass@.left =~= Seq::<usize>::empty());
                }
                step
            },
        }
    }

    /// Takes notice of the launch of the instance that was to be launched anew.
    pub fn launched(
        &mut self,
        pass: &mut Pass,
        outcome: Result<u32, ProcessError>,
        now: u128,
    ) -> (step: PassStep)
        requires
            old(pass)@.action() is Launch,
            outcome is Err ==> old(pass)@.respawn->0.attempts < u32::MAX,
        ensures
            old(self)@.launched(old(pass)@, outcome.ok(), now).is(final(self)@, final(pass)@, step),
            step.error == outcome.err(),
            old(self)@.wf() && (outcome is Ok || old(self)@.may_give_up(old(pass)@.respawn->0.id))
                ==> final(self)@.wf(),
    {
        let mut events: Vec<LogEvent> = Vec::new();
        let mut failed: Option<ProcessError> = None;
        match pass.respawn {
            Some(retry) => {
                let result = self.respawned(retry.id, retry.attempts, outcome, now);
                pass.respawn = None;
                if result.error.is_some() {
                    pass.left.clear();
                }
                events.push(result.event);
                failed = result.error;
                proof {
                    assert(event_views(events@) =~= seq![result.event@]);
                }
            },
            None => {},
        }
        PassStep { events, error: failed }
    }
}

/// A look at an instance, and what comes of it, leaves no instance in two states at
/// once.
pub proof fn reconciling_keeps_states_apart(
    group: GroupView,
    id: usize,
    poll: ProcessPoll,
    now: u128,
    pid: u32,
    later: u128,
)
    requires
        group.wf(),
    ensures
        group.reconciled(id, poll, now).group.wf(),
        group.reconciled(id, poll, now).respawn is Some ==> {
            &&& group.reconciled(id, poll, now).group.with_respawned(id, pid, later).wf()
            &&& group.reconciled(id, poll, now).group.with_fatal(id).wf()
        },
{
}

/// To launch or stop all instances leaves no instance in two states at once.
pub proof fn starting_and_stopping_keep_states_apart(
    group: GroupView,
    id: usize,
    pid: u32,
    now: u128,
)
    ensures
        GroupView::fresh(group.name, group.program).wf(),
        group.all_stopped().wf(),
        group.wf() ==> group.starting().wf(),
        group.wf() && !group.fatal.contains(id) && !group.stopped.contains(id)
            ==> group.with_launched(id, pid, now).wf(),
        group.wf() && !group.instances.contains_key(id) && !group.stopped.contains(id)
            ==> group.with_fatal(id).wf(),
{
}

/// A look at one instance, and what comes of it, leaves all others as they were.
pub proof fn reconciling_touches_one_instance(
    group: GroupView,
    id: usize,
    poll: ProcessPoll,
    now: u128,
    pid: u32,
    later: u128,
    other: usize,
)
    requires
        other != id,
    ensures
        group.same_instance(group.reconciled(id, poll, now).group, other),
        group.same_instance(
            group.reconciled(id, poll, now).group.with_respawned(id, pid, later),
            other,
        ),
        group.same_instance(group.reconciled(id, poll, now).group.with_fatal(id), other),
{
}

/// An instance whose launch has succeeded is owed all its retries again.
pub proof fn running_resets_the_retries(group: GroupView, id: usize, now: u128)
    requires
        group.instances.contains_key(id),
        group.has_started(id, now),
    ensures
        group.reconciled(id, ProcessPoll::Running, now).group.failures_of(id) == 0,
        group.reconciled(id, ProcessPoll::Running, now).group.instances == group.instances,
{
}

/// The restart policy decides about an instance that ends after its launch succeeded:
/// `Always` launches it anew, `Never` does not, and `Unexpected` does so unless the
/// exit code is an expected one. What is not launched anew is stopped.
pub proof fn restarts_follow_the_policy(group: GroupView, id: usize, code: Option<i32>, now: u128)
    requires
        group.wf(),
        group.instances.contains_key(id),
        group.has_started(id, now),
    ensures
        ({
            let result = group.reconciled(id, ProcessPoll::Exited(code), now);
            &&& !result.group.instances.contains_key(id)
            &&& result.respawn is Some <==> match group.program.autorestart {
                AutoRestart::Always => true,
                AutoRestart::Never => false,
                AutoRestart::Unexpected => code is None || !group.program.exitcodes.contains(
                    code->0,
                ),
            }
            &&& result.respawn is None ==> result.group.status_of(id, now).state == "STOPPED"@
        }),
{
}

/// With a `starttime` of 0 no instance that was launched ever dies early.
pub proof fn starttime_zero_accepts_any_end(
    group: GroupView,
    id: usize,
    poll: ProcessPoll,
    now: u128,
)
    requires
        group.program.starttime == 0,
        group.instances.contains_key(id),
        group.instances[id].started_at is Some,
    ensures
        !group.died_early(id, poll, now),
        group.status_of(id, now).state == "RUNNING"@,
{
}

/// After all instances were told to stop, every row of the status report says so.
pub proof fn stopping_stops_all(group: GroupView, now: u128)
    ensures
        group.all_stopped().statuses(now).len() == group.program.numprocs,
        forall|i: int|
            0 <= i < group.program.numprocs ==> {
                let row = #[trigger] group.all_stopped().statuses(now)[i];
                row.state == "STOPPED"@ && row.pid is None && row.uptime is None
            },
{
}

/// The status report has one row for each configured instance, in order. A row says
/// `RUNNING` or `STARTING` where the instance has a process, and `FATAL` or `STOPPED`
/// where it has none. While the states are sound it shows the number of the process and
/// the time since its launch where the instance has one, and neither where it has none.
pub proof fn statuses_tell_the_states(group: GroupView, now: u128, i: int)
    requires
        0 <= i < group.program.numprocs,
    ensures
        group.statuses(now).len() == group.program.numprocs,
        ({
            let row = group.statuses(now)[i];
            &&& row.program == group.name
            &&& row.id == i
            &&& group.instances.contains_key(i as usize) ==> row.state == "RUNNING"@ || row.state
                == "STARTING"@
            &&& group.wf() && group.instances.contains_key(i as usize) ==> row.pid is Some
                && row.uptime is Some
            &&& !group.instances.contains_key(i as usize) ==> row.pid is None && row.uptime is None
            &&& !group.instances.contains_key(i as usize) ==> row.state == (
            if group.fatal.contains(i as usize) {
                "FATAL"@
            } else {
                "STOPPED"@
            })
        }),
{
}

/// The missing instances are those below the configured number that have no process,
/// each once and ascending.
pub proof fn missing_ids_are_exact(present: Set<usize>, n: nat)
    requires
        n <= usize::MAX,
    ensures
        forall|id: usize| #[trigger]
            missing_ids(present, n).contains(id) <==> (id < n && !present.contains(id)),
        forall|i: int, j: int|
            #![trigger missing_ids(present, n)[i], missing_ids(present, n)[j]]
            0 <= i < j < missing_ids(present, n).len() ==> missing_ids(present, n)[i]
                < missing_ids(present, n)[j],
    decreases n,
{
    if n > 0 {
        let m = (n - 1) as nat;
        missing_ids_are_exact(present, m);
        let before = missing_ids(present, m);
        let all = missing_ids(present, n);
        let last = m as usize;
        if present.contains(last) {
            assert forall|id: usize| #[trigger]
                all.contains(id) <==> (id < n && !present.contains(id)) by {
                assert(before.contains(id) <==> (id < m && !present.contains(id)));
            }
        } else {
            assert(all == before.push(last));
            assert(all[before.len() as int] == last);
            assert forall|id: usize| #[trigger]
                all.contains(id) <==> (id < n && !present.contains(id)) by {
                assert(before.contains(id) <==> (id < m && !present.contains(id)));
                if before.contains(id) {
                    let i = before.index_of(id);
                    assert(all[i] == id);
                }
                if all.contains(id) && id != last {
                    let i = all.index_of(id);
                    assert(before[i] == id);
                }
            }
            assert forall|i: int, j: int|
                #![trigger all[i], all[j]]
                0 <= i < j < all.len() implies all[i] < all[j] by {
                assert(before.contains(before[i]));
            }
        }
    }
}

impl GroupView {
    /// Whether `other` knows the same of instance `id`.
    pub open spec fn same_instance(self, other: GroupView, id: usize) -> bool {
        &&& self.instances.contains_key(id) == other.instances.contains_key(id)
        &&& self.instances[id] == other.instances[id]
        &&& self.failures_of(id) == other.failures_of(id)
        &&& self.fatal.contains(id) == other.fatal.contains(id)
        &&& self.stopped.contains(id) == other.stopped.contains(id)
    }

    /// The group after it was tried to launch instances `ids` one after the other;
    /// `launches` tells what came of each.
    pub open spec fn with_all_started(
        self,
        ids: Seq<usize>,
        launches: Seq<Launch>,
    ) -> GroupView
        decreases ids.len(),
    {
        if ids.len() == 0 {
            self
        } else {
            let before = self.with_all_started(ids.drop_last(), launches);
            let launch = launches[ids.len() - 1];
            match launch.outcome {
                Some(pid) => before.with_launched(ids.last(), pid, launch.at),
                None => before.with_fatal(ids.last()),
            }
        }
    }

    /// The group after a look at instances `left`, the last one first; `looks` tells
    /// what each showed, and what came of a new launch where one followed. A launch that
    /// failed ends the look.
    pub open spec fn after_looks(self, left: Seq<usize>, looks: Map<usize, Look>) -> GroupView
        decreases left.len(),
    {
        if left.len() == 0 {
            self
        } else {
            let id = left.last();
            let look = looks[id];
            let result = self.reconciled(id, look.poll, look.seen);
            if result.respawn is None {
                result.group.after_looks(left.drop_last(), looks)
            } else {
                match look.outcome {
                    Some(pid) => result.group.with_respawned(id, pid, look.later).after_looks(
                        left.drop_last(),
                        looks,
                    ),
                    None => result.group.with_fatal(id),
                }
            }
        }
    }

    /// The group after an instance died several times, each death having been looked at
    /// and followed by the launch that it led to.
    pub open spec fn after_deaths(self, id: usize, deaths: Seq<Death>) -> GroupView
        decreases deaths.len(),
    {
        if deaths.len() == 0 {
            self
        } else {
            let death = deaths.last();
            let result = self.after_deaths(id, deaths.drop_last()).reconciled(
                id,
                ProcessPoll::Exited(death.code),
                death.seen,
            );
            if result.respawn is Some {
                result.group.with_respawned(id, death.pid, death.relaunched)
            } else {
                result.group
            }
        }
    }

    /// Whether each of several deaths of an instance came before the launch that it
    /// ended had succeeded.
    pub open spec fn all_early(self, id: usize, deaths: Seq<Death>) -> bool {
        forall|i: int|
            0 <= i < deaths.len() ==> !has_lasted(
                if i == 0 {
                    self.instances[id].started_at->0
                } else {
                    deaths[i - 1].relaunched
                },
                (#[trigger] deaths[i]).seen,
                self.program.starttime,
            )
    }
}

/// The death of an instance: its exit code, when it was seen, and the process and the
/// moment of the launch that followed, where one did.
pub ghost struct Death {
    pub code: Option<i32>,
    pub seen: u128,
    pub pid: u32,
    pub relaunched: u128,
}

/// What came of a launch: the number of the process, if there is one, and the moment.
pub ghost struct Launch {
    pub outcome: Option<u32>,
    pub at: u128,
}

/// What a look at an instance showed and when, and what came of the new launch that it
/// led to, where it led to one.
pub ghost struct Look {
    pub poll: ProcessPoll,
    pub seen: u128,
    pub outcome: Option<u32>,
    pub later: u128,
}

/// Whether instance `id` was launched.
pub open spec fn was_launched(ids: Seq<usize>, launches: Seq<Launch>, id: usize) -> bool {
    exists|k: int| 0 <= k < ids.len() && #[trigger] ids[k] == id && launches[k].outcome is Some
}

/// Whether it was tried in vain to launch instance `id`.
pub open spec fn failed_to_launch(ids: Seq<usize>, launches: Seq<Launch>, id: usize) -> bool {
    exists|k: int| 0 <= k < ids.len() && #[trigger] ids[k] == id && launches[k].outcome is None
}

/// To launch all instances tries to launch each configured instance that had no
/// process. Afterwards those have a process that had one, which stays as it is, and
/// those whose launch succeeded; given up are those whose launch failed, and no other.
pub proof fn starting_fills_the_group(group: GroupView, launches: Seq<Launch>)
    requires
        launches.len() == missing_ids(
            group.instances.dom(),
            group.program.numprocs as nat,
        ).len(),
    ensures
        ({
            let ids = missing_ids(group.instances.dom(), group.program.numprocs as nat);
            let after = group.starting().with_all_started(ids, launches);
            &&& forall|id: usize|
                #![trigger after.instances.contains_key(id)]
                after.instances.contains_key(id) <==> group.instances.contains_key(id)
                    || was_launched(ids, launches, id)
            &&& forall|id: usize| #[trigger]
                group.instances.contains_key(id) ==> after.instances[id] == group.instances[id]
            &&& forall|k: int|
                0 <= k < ids.len() && launches[k].outcome is Some
                    ==> after.instances[#[trigger] ids[k]] == launched(
                    group.name,
                    ids[k],
                    group.program,
                    launches[k].outcome->0,
                    launches[k].at,
                )
            &&& forall|id: usize| #[trigger]
                after.fatal.contains(id) <==> failed_to_launch(ids, launches, id)
            &&& forall|id: usize|
                #![trigger after.instances.contains_key(id)]
                id < group.program.numprocs ==> after.instances.contains_key(id)
                    || after.fatal.contains(id)
            &&& after.stopped.is_empty()
            &&& group.wf() ==> after.wf()
        }),
{
    let ids = missing_ids(group.instances.dom(), group.program.numprocs as nat);
    let after = group.starting().with_all_started(ids, launches);
    missing_ids_are_exact(group.instances.dom(), group.program.numprocs as nat);
    launches_settle_the_group(group.starting(), ids, launches);
    assert forall|id: usize|
        #![trigger after.instances.contains_key(id)]
        after.instances.contains_key(id) <==> group.instances.contains_key(id) || was_launched(
            ids,
            launches,
            id,
        ) by {
        assert(ids.contains(id) <==> (id < group.program.numprocs
            && !group.instances.dom().contains(id)));
        if ids.contains(id) {
            let k = ids.index_of(id);
            assert(ids[k] == id);
        }
    }
    assert forall|id: usize| #[trigger] after.fatal.contains(id) <==> failed_to_launch(
        ids,
        launches,
        id,
    ) by {
        if ids.contains(id) {
            let k = ids.index_of(id);
            assert(ids[k] == id);
        }
    }
    assert forall|id: usize|
        #![trigger after.instances.contains_key(id)]
        id < group.program.numprocs implies after.instances.contains_key(id)
        || after.fatal.contains(id) by {
        assert(ids.contains(id) <==> (id < group.program.numprocs
            && !group.instances.dom().contains(id)));
        if ids.contains(id) {
            let k = ids.index_of(id);
            assert(ids[k] == id);
        }
    }
    assert forall|id: usize| #[trigger] group.instances.contains_key(id) implies
        after.instances[id] == group.instances[id] by {
        assert(!ids.contains(id));
    }
    assert forall|id: usize| #[trigger] after.instances.contains_key(id) implies
        !after.fatal.contains(id) by {
        assert(ids.contains(id) <==> (id < group.program.numprocs
            && !group.instances.dom().contains(id)));
        if ids.contains(id) {
            let k = ids.index_of(id);
            assert(ids[k] == id);
        }
    }
}

/// What came of launches one after the other, for each instance that was to be launched
/// and for each that was not.
proof fn launches_settle_the_group(group: GroupView, ids: Seq<usize>, launches: Seq<Launch>)
    requires
        ids.no_duplicates(),
    ensures
        ({
            let after = group.with_all_started(ids, launches);
            &&& after.name == group.name && after.program == group.program
            &&& after.stopped == group.stopped
            &&& forall|k: int|
                #![trigger ids[k]]
                0 <= k < ids.len() ==> match launches[k].outcome {
                    Some(pid) => {
                        &&& after.instances.contains_key(ids[k])
                        &&& after.instances[ids[k]] == launched(
                            group.name,
                            ids[k],
                            group.program,
                            pid,
                            launches[k].at,
                        )
                        &&& after.fatal.contains(ids[k]) == group.fatal.contains(ids[k])
                    },
                    None => {
                        &&& after.instances.contains_key(ids[k]) == group.instances.contains_key(
                            ids[k],
                        )
                        &&& after.fatal.contains(ids[k])
                    },
                }
            &&& forall|id: usize|
                #![trigger after.instances.contains_key(id)]
                #![trigger after.instances[id]]
                #![trigger after.fatal.contains(id)]
                !ids.contains(id) ==> {
                    &&& after.instances.contains_key(id) == group.instances.contains_key(id)
                    &&& after.instances[id] == group.instances[id]
                    &&& after.fatal.contains(id) == group.fatal.contains(id)
                }
        }),
    decreases ids.len(),
{
    if ids.len() > 0 {
        let earlier = ids.drop_last();
        let last = ids.last();
        launches_settle_the_group(group, earlier, launches);
        let before = group.with_all_started(earlier, launches);
        let after = group.with_all_started(ids, launches);
        assert(ids[ids.len() - 1] == last);
        assert(!earlier.contains(last)) by {
            if earlier.contains(last) {
                assert(ids[earlier.index_of(last)] == ids[ids.len() - 1]);
            }
        }
        assert(before.instances.contains_key(last) == group.instances.contains_key(last));
        assert(before.fatal.contains(last) == group.fatal.contains(last));
        assert forall|k: int|
            #![trigger ids[k]]
            0 <= k < ids.len() implies match launches[k].outcome {
            Some(pid) => {
                &&& after.instances.contains_key(ids[k])
                &&& after.instances[ids[k]] == launched(
                    group.name,
                    ids[k],
                    group.program,
                    pid,
                    launches[k].at,
                )
                &&& after.fatal.contains(ids[k]) == group.fatal.contains(ids[k])
            },
            None => {
                &&& after.instances.contains_key(ids[k]) == group.instances.contains_key(ids[k])
                &&& after.fatal.contains(ids[k])
            },
        } by {
            if k < earlier.len() {
                assert(earlier[k] == ids[k]);
                assert(ids[k] != last);
            }
        }
        assert forall|id: usize|
            #![trigger after.instances.contains_key(id)]
            #![trigger after.instances[id]]
            #![trigger after.fatal.contains(id)]
            !ids.contains(id) implies {
            &&& after.instances.contains_key(id) == group.instances.contains_key(id)
            &&& after.instances[id] == group.instances[id]
            &&& after.fatal.contains(id) == group.fatal.contains(id)
        } by {
            assert(id != last) by {
                assert(ids.contains(last));
            }
            if earlier.contains(id) {
                assert(ids[earlier.index_of(id)] == id);
            }
            assert(before.instances.contains_key(id) == group.instances.contains_key(id));
        }
    }
}

/// The steps of a look at all instances, one after the other, come to what the look as
/// a whole comes to.
pub proof fn steps_make_up_the_look(group: GroupView, pass: PassView, looks: Map<usize, Look>)
    requires
        pass.action() is Poll,
    ensures
        ({
            let look = looks[pass.left.last()];
            let polled = group.polled(pass, Some(look.poll), look.seen);
            let whole = group.after_looks(pass.left, looks);
            if polled.pass.respawn is None {
                whole == polled.group.after_looks(polled.pass.left, looks)
            } else {
                let launched = polled.group.launched(polled.pass, look.outcome, look.later);
                whole == launched.group.after_looks(launched.pass.left, looks)
            }
        }),
{
}

/// Once all instances were looked at, and where no new launch failed, those are left
/// that were seen running and those that were launched anew.
pub proof fn looks_leave_what_runs(group: GroupView, left: Seq<usize>, looks: Map<usize, Look>)
    requires
        left.no_duplicates(),
        left.to_set() == group.instances.dom(),
        forall|id: usize|
            group.instances.contains_key(id) ==> (#[trigger] looks[id]).outcome is Some,
    ensures
        forall|id: usize|
            #![trigger group.after_looks(left, looks).instances.contains_key(id)]
            group.after_looks(left, looks).instances.contains_key(id) <==> (
            group.instances.contains_key(id) && (looks[id].poll is Running || group.reconciled(
                id,
                looks[id].poll,
                looks[id].seen,
            ).respawn is Some)),
{
    assert forall|id: usize| left.contains(id) <==> group.instances.contains_key(id) by {
        assert(left.to_set().contains(id) <==> left.contains(id));
    }
    looks_settle_the_group(group, left, looks);
}

proof fn looks_settle_the_group(group: GroupView, left: Seq<usize>, looks: Map<usize, Look>)
    requires
        left.no_duplicates(),
        forall|id: usize| #[trigger] left.contains(id) ==> group.instances.contains_key(id),
        forall|id: usize| #[trigger] left.contains(id) ==> looks[id].outcome is Some,
    ensures
        forall|id: usize|
            #![trigger group.after_looks(left, looks).instances.contains_key(id)]
            group.after_looks(left, looks).instances.contains_key(id) <==> if left.contains(id) {
                looks[id].poll is Running || group.reconciled(
                    id,
                    looks[id].poll,
                    looks[id].seen,
                ).respawn is Some
            } else {
                group.instances.contains_key(id)
            },
    decreases left.len(),
{
    if left.len() > 0 {
        let last = left.last();
        let look = looks[last];
        let rest = left.drop_last();
        let result = group.reconciled(last, look.poll, look.seen);
        let next = if result.respawn is None {
            result.group
        } else {
            result.group.with_respawned(last, look.outcome->0, look.later)
        };
        assert(left[left.len() - 1] == last);
        assert(left.contains(last));
        assert(!rest.contains(last)) by {
            if rest.contains(last) {
                assert(left[rest.index_of(last)] == left[left.len() - 1]);
            }
        }
        assert forall|id: usize| #[trigger] rest.contains(id) implies left.contains(id) && id
            != last by {
            assert(left[rest.index_of(id)] == id);
        }
        assert(group.after_looks(left, looks) == next.after_looks(rest, looks));
        assert forall|id: usize| id != last implies #[trigger] group.same_instance(next, id) by {}
        assert forall|id: usize| #[trigger] rest.contains(id) implies next.instances.contains_key(
            id,
        ) by {
            assert(group.same_instance(next, id));
        }
        looks_settle_the_group(next, rest, looks);
        let after = group.after_looks(left, looks);
        assert forall|id: usize|
            #![trigger after.instances.contains_key(id)]
            after.instances.contains_key(id) <==> if left.contains(id) {
                looks[id].poll is Running || group.reconciled(
                    id,
                    looks[id].poll,
                    looks[id].seen,
                ).respawn is Some
            } else {
                group.instances.contains_key(id)
            } by {
            if id != last {
                assert(group.same_instance(next, id));
                if left.contains(id) {
                    assert(rest[left.index_of(id)] == id);
                    assert(rest.contains(id));
                }
            }
        }
    }
}

/// An instance that keeps dying before its launch has succeeded is launched anew after
/// each of the first `startretries` deaths, and given up after the next one, which is
/// recorded together with the number of attempts.
pub proof fn retries_run_out(group: GroupView, id: usize, deaths: Seq<Death>)
    requires
        group.wf(),
        group.instances.contains_key(id),
        group.failures_of(id) == 0,
        group.all_early(id, deaths),
        deaths.len() <= group.program.startretries + 1,
        deaths.len() <= u32::MAX,
    ensures
        deaths.len() <= group.program.startretries ==> {
            &&& group.after_deaths(id, deaths).instances.contains_key(id)
            &&& group.after_deaths(id, deaths).failures_of(id) == deaths.len()
            &&& !group.after_deaths(id, deaths).fatal.contains(id)
        },
        deaths.len() == group.program.startretries + 1 ==> {
            &&& !group.after_deaths(id, deaths).instances.contains_key(id)
            &&& group.after_deaths(id, deaths).fatal.contains(id)
            &&& forall|now: u128|
                (#[trigger] group.after_deaths(id, deaths).status_of(id, now)).state == "FATAL"@
            &&& group.after_deaths(id, deaths.drop_last()).reconciled(
                id,
                ProcessPoll::Exited(deaths.last().code),
                deaths.last().seen,
            ).events == seq![
                LogEventView::Crash { program: group.name, id, exit_code: deaths.last().code },
                LogEventView::Fatal {
                    program: group.name,
                    id,
                    attempts: (group.program.startretries + 1) as u32,
                },
            ]
        },
{
    retry_step(group, id, deaths);
    if deaths.len() > 0 {
        earlier_deaths_were_early(group, id, deaths);
        retry_step(group, id, deaths.drop_last());
        assert(deaths[deaths.len() - 1] == deaths.last());
    }
}

proof fn earlier_deaths_were_early(group: GroupView, id: usize, deaths: Seq<Death>)
    requires
        deaths.len() > 0,
        group.all_early(id, deaths),
    ensures
        group.all_early(id, deaths.drop_last()),
{
    let earlier = deaths.drop_last();
    assert forall|i: int| 0 <= i < earlier.len() implies !has_lasted(
        if i == 0 {
            group.instances[id].started_at->0
        } else {
            earlier[i - 1].relaunched
        },
        (#[trigger] earlier[i]).seen,
        group.program.starttime,
    ) by {
        assert(earlier[i] == deaths[i]);
    }
}

proof fn retry_step(group: GroupView, id: usize, deaths: Seq<Death>)
    requires
        group.wf(),
        group.instances.contains_key(id),
        group.failures_of(id) == 0,
        group.all_early(id, deaths),
        deaths.len() <= group.program.startretries + 1,
        deaths.len() <= u32::MAX,
    ensures
        group.after_deaths(id, deaths).program == group.program,
        group.after_deaths(id, deaths).name == group.name,
        deaths.len() <= group.program.startretries ==> {
            &&& group.after_deaths(id, deaths).instances.contains_key(id)
            &&& group.after_deaths(id, deaths).failures_of(id) == deaths.len()
            &&& !group.after_deaths(id, deaths).fatal.contains(id)
            &&& group.after_deaths(id, deaths).instances[id].started_at == Some(
                if deaths.len() == 0 {
                    group.instances[id].started_at->0
                } else {
                    deaths.last().relaunched
                },
            )
        },
        deaths.len() == group.program.startretries + 1 ==> {
            &&& !group.after_deaths(id, deaths).instances.contains_key(id)
            &&& group.after_deaths(id, deaths).fatal.contains(id)
        },
    decreases deaths.len(),
{
    if deaths.len() > 0 {
        earlier_deaths_were_early(group, id, deaths);
        retry_step(group, id, deaths.drop_last());
        assert(deaths[deaths.len() - 1] == deaths.last());
    }
}

} // verus!
