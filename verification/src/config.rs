//! The configuration: what each program is, and which configurations are valid.
use crate::names::NameMap;
use crate::numbers::{parse_i32, parsed_i32};
use crate::platform::Platform;
use crate::text::{
    all_ascii, ascii_uppercase, join3, opt_copy, opt_text, same_opt_text, same_text, trim, trimmed,
    uppercase,
};
use vstd::prelude::*;
use vstd::string::StringExecFns;

verus! {

/// When an instance that has run is started again after it exits.
#[derive(Debug, Clone, Copy, PartialEq, Eq, Structural)]
pub enum AutoRestart {
    /// After every exit.
    Always,
    /// Never.
    Never,
    /// After an exit that the configuration does not expect.
    Unexpected,
}

impl Default for AutoRestart {
    fn default() -> (policy: Self)
        ensures
            policy == AutoRestart::Never,
    {
        AutoRestart::Never
    }
}

/// One configured program.
#[derive(Debug)]
pub struct Program {
    /// The command line.
    pub cmd: String,
    /// The number of instances.
    pub numprocs: usize,
    /// Whether the instances start with the supervisor.
    pub autostart: bool,
    /// When an instance is started again.
    pub autorestart: AutoRestart,
    /// The exit codes that are expected.
    pub exitcodes: Vec<i32>,
    /// How many early deaths are followed by another start.
    pub startretries: u32,
    /// The seconds that an instance must stay alive to count as started.
    pub starttime: u64,
    /// The name or the number of the signal that asks an instance to stop.
    pub stopsignal: Option<String>,
    /// The seconds between that signal and the kill.
    pub stoptime: u64,
    /// The file that standard output is appended to.
    pub stdout: Option<String>,
    /// The file that standard error is appended to.
    pub stderr: Option<String>,
    /// The file of this program's own lifecycle log.
    pub log: Option<String>,
    /// Environment variables to set.
    pub env: Option<NameMap<String>>,
    /// The working directory.
    pub workingdir: Option<String>,
    /// The file mode creation mask.
    pub umask: Option<u32>,
}

/// What a program is, with its texts as sequences of characters.
pub ghost struct ProgramView {
    pub cmd: Seq<char>,
    pub numprocs: usize,
    pub autostart: bool,
    pub autorestart: AutoRestart,
    pub exitcodes: Seq<i32>,
    pub startretries: u32,
    pub starttime: u64,
    pub stopsignal: Option<Seq<char>>,
    pub stoptime: u64,
    pub stdout: Option<Seq<char>>,
    pub stderr: Option<Seq<char>>,
    pub log: Option<Seq<char>>,
    pub env: Option<Map<Seq<char>, Seq<char>>>,
    pub workingdir: Option<Seq<char>>,
    pub umask: Option<u32>,
}

/// The texts that the names of a map stand for.
pub open spec fn env_texts(env: NameMap<String>) -> Map<Seq<char>, Seq<char>> {
    env.map().map_values(|value: String| value@)
}

/// The texts that the names of a map stand for, where there is a map.
pub open spec fn opt_env_texts(env: Option<NameMap<String>>) -> Option<
    Map<Seq<char>, Seq<char>>,
> {
    match env {
        Some(map) => Some(env_texts(map)),
        None => None,
    }
}

impl View for Program {
    type V = ProgramView;

    open spec fn view(&self) -> ProgramView {
        ProgramView {
            cmd: self.cmd@,
            numprocs: self.numprocs,
            autostart: self.autostart,
            autorestart: self.autorestart,
            exitcodes: self.exitcodes@,
            startretries: self.startretries,
            starttime: self.starttime,
            stopsignal: opt_text(self.stopsignal),
            stoptime: self.stoptime,
            stdout: opt_text(self.stdout),
            stderr: opt_text(self.stderr),
            log: opt_text(self.log),
            env: opt_env_texts(self.env),
            workingdir: opt_text(self.workingdir),
            umask: self.umask,
        }
    }
}

/// The program that a configuration entry without any field describes.
pub open spec fn default_program() -> ProgramView {
    ProgramView {
        cmd: seq![],
        numprocs: 1,
        autostart: false,
        autorestart: AutoRestart::Never,
        exitcodes: seq![0i32],
        startretries: 0,
        starttime: 1,
        stopsignal: Some("TERM"@),
        stoptime: 5,
        stdout: None,
        stderr: None,
        log: None,
        env: None,
        workingdir: None,
        umask: None,
    }
}

impl Default for Program {
    fn default() -> (program: Self)
        ensures
            program@ == default_program(),
    {
        let exitcodes: Vec<i32> = vec![0];
        proof {
            assert(exitcodes@ =~= seq![0i32]);
        }
        Program {
            cmd: String::new(),
            numprocs: 1,
            autostart: false,
            autorestart: AutoRestart::Never,
            exitcodes,
            startretries: 0,
            starttime: 1,
            stopsignal: Some("TERM".to_string()),
            stoptime: 5,
            stdout: None,
            stderr: None,
            log: None,
            env: None,
            workingdir: None,
            umask: None,
        }
    }
}

/// A copy of a map of texts.
pub fn copy_env(env: &NameMap<String>) -> (copy: NameMap<String>)
    ensures
        copy.names() == env.names(),
        env_texts(copy) == env_texts(*env),
{
    let mut copy: NameMap<String> = NameMap::new();
    let count = env.len();
    proof {
        assert(env.names().take(0) =~= Seq::<Seq<char>>::empty());
    }
    for i in 0..count
        invariant
            count == env.names().len(),
            env.wf(),
            copy.wf(),
            copy.names() == env.names().take(i as int),
            forall|name: Seq<char>| #[trigger]
                copy.map().contains_key(name) ==> env.map().contains_key(name) && copy.map()[name]
                    == env.map()[name],
    {
        let name = env.name_at(i);
        let value = env.value_at(i);
        let ghost before = env.names().take(i as int);
        proof {
            assert(!before.contains(env.names()[i as int]));
            assert(env.names().take(i + 1) =~= before.push(env.names()[i as int]));
        }
        let _ = copy.insert(name.clone(), value.clone());
    }
    proof {
        assert(env.names().take(count as int) =~= env.names());
        assert(copy.map() =~= env.map());
    }
    copy
}

/// Whether every name of `a` stands for the same text in `b`.
fn env_within(a: &NameMap<String>, b: &NameMap<String>) -> (within: bool)
    ensures
        within == env_texts(*a).submap_of(env_texts(*b)),
{
    let count = a.len();
    for i in 0..count
        invariant
            count == a.names().len(),
            a.wf(),
            forall|j: int|
                0 <= j < i ==> {
                    let name = #[trigger] a.names()[j];
                    env_texts(*b).contains_key(name) && env_texts(*b)[name] == env_texts(*a)[name]
                },
    {
        let name = a.name_at(i);
        let value = a.value_at(i);
        match b.get(name.as_str()) {
            Some(other) => {
                if !same_text(value.as_str(), other.as_str()) {
                    proof {
                        assert(env_texts(*a).dom().contains(name@));
                        assert(env_texts(*b).dom().contains(name@));
                    }
                    return false;
                }
            },
            None => {
                proof {
                    assert(env_texts(*a).dom().contains(name@));
                    assert(!env_texts(*b).dom().contains(name@));
                }
                return false;
            },
        }
    }
    proof {
        assert forall|name: Seq<char>| #[trigger] env_texts(*a).contains_key(name) implies env_texts(
            *b,
        ).contains_key(name) && env_texts(*b)[name] == env_texts(*a)[name] by {
            assert(a.names().contains(name));
            let j = a.names().index_of(name);
            assert(a.names()[j] == name);
        }
    }
    true
}

/// Whether two optional maps of texts are the same map.
fn same_env(a: &Option<NameMap<String>>, b: &Option<NameMap<String>>) -> (same: bool)
    ensures
        same == (opt_env_texts(*a) == opt_env_texts(*b)),
{
    match (a, b) {
        (Some(x), Some(y)) => {
            let same = env_within(x, y) && env_within(y, x);
            proof {
                if same {
                    assert(env_texts(*x) =~= env_texts(*y));
                }
            }
            same
        },
        (None, None) => true,
        _ => false,
    }
}

/// Whether two lists of exit codes are the same.
fn same_codes(a: &Vec<i32>, b: &Vec<i32>) -> (same: bool)
    ensures
        same == (a@ == b@),
{
    if a.len() != b.len() {
        return false;
    }
    for i in 0..a.len()
        invariant
            a@.len() == b@.len(),
            forall|j: int| 0 <= j < i ==> a@[j] == b@[j],
    {
        if a[i] != b[i] {
            return false;
        }
    }
    proof {
        assert(a@ =~= b@);
    }
    true
}

impl PartialEq for Program {
    fn eq(&self, other: &Program) -> (same: bool) {
        same_text(self.cmd.as_str(), other.cmd.as_str()) && self.numprocs == other.numprocs
            && self.autostart == other.autostart && self.autorestart == other.autorestart
            && same_codes(&self.exitcodes, &other.exitcodes) && self.startretries
            == other.startretries && self.starttime == other.starttime && same_opt_text(
            &self.stopsignal,
            &other.stopsignal,
        ) && self.stoptime == other.stoptime && same_opt_text(&self.stdout, &other.stdout)
            && same_opt_text(&self.stderr, &other.stderr) && same_opt_text(&self.log, &other.log)
            && same_env(&self.env, &other.env) && same_opt_text(&self.workingdir, &other.workingdir)
            && self.umask == other.umask
    }
}

impl vstd::std_specs::cmp::PartialEqSpecImpl for Program {
    open spec fn obeys_eq_spec() -> bool {
        true
    }

    open spec fn eq_spec(&self, other: &Program) -> bool {
        self@ == other@
    }
}

impl Eq for Program {
}

impl Clone for Program {
    fn clone(&self) -> (copy: Self)
        ensures
            copy@ == self@,
    {
        let mut exitcodes: Vec<i32> = Vec::new();
        for i in 0..self.exitcodes.len()
            invariant
                exitcodes@ == self.exitcodes@.take(i as int),
        {
            exitcodes.push(self.exitcodes[i]);
            proof {
                assert(self.exitcodes@.take(i + 1) =~= self.exitcodes@.take(i as int).push(
                    self.exitcodes@[i as int],
                ));
            }
        }
        proof {
            assert(self.exitcodes@.take(self.exitcodes@.len() as int) =~= self.exitcodes@);
        }
        let env = match &self.env {
            Some(env) => Some(copy_env(env)),
            None => None,
        };
        Program {
            cmd: self.cmd.clone(),
            numprocs: self.numprocs,
            autostart: self.autostart,
            autorestart: self.autorestart,
            exitcodes,
            startretries: self.startretries,
            starttime: self.starttime,
            stopsignal: opt_copy(&self.stopsignal),
            stoptime: self.stoptime,
            stdout: opt_copy(&self.stdout),
            stderr: opt_copy(&self.stderr),
            log: opt_copy(&self.log),
            env,
            workingdir: opt_copy(&self.workingdir),
            umask: self.umask,
        }
    }
}

/// Whether an upper-case text is the name of a signal, with or without `SIG`.
pub open spec fn known_signal(upper: Seq<char>) -> bool {
    ||| upper == "SIGTERM"@ || upper == "TERM"@
    ||| upper == "SIGKILL"@ || upper == "KILL"@
    ||| upper == "SIGINT"@ || upper == "INT"@
    ||| upper == "SIGHUP"@ || upper == "HUP"@
    ||| upper == "SIGQUIT"@ || upper == "QUIT"@
    ||| upper == "SIGUSR1"@ || upper == "USR1"@
    ||| upper == "SIGUSR2"@ || upper == "USR2"@
}

/// Whether an upper-case text is the name of a signal, with or without `SIG`.
pub fn is_known_signal(upper: &str) -> (known: bool)
    ensures
        known == known_signal(upper@),
{
    same_text(upper, "SIGTERM") || same_text(upper, "TERM") || same_text(upper, "SIGKILL")
        || same_text(upper, "KILL") || same_text(upper, "SIGINT") || same_text(upper, "INT")
        || same_text(upper, "SIGHUP") || same_text(upper, "HUP") || same_text(upper, "SIGQUIT")
        || same_text(upper, "QUIT") || same_text(upper, "SIGUSR1") || same_text(upper, "USR1")
        || same_text(upper, "SIGUSR2") || same_text(upper, "USR2")
}

/// Whether `name` may stand as a stop signal: on Unix, a number from 1 to 64 or
/// a signal's name in any case and with white space around it; elsewhere, any text.
pub open spec fn valid_signal(name: Seq<char>, platform: Platform) -> bool {
    !platform.unix() || match parsed_i32(name) {
        Some(n) => 0 < n < 65,
        None => known_signal(uppercase(trimmed(name))),
    }
}

/// Whether `name` may stand as a stop signal.
pub fn is_valid_signal(name: &str, platform: Platform) -> (valid: bool)
    ensures
        valid == valid_signal(name@, platform),
        platform.unix() && parsed_i32(name@) is None && all_ascii(trimmed(name@)) ==> valid
            == known_signal(ascii_uppercase(trimmed(name@))),
{
    if !platform.is_unix() {
        return true;
    }
    match parse_i32(name) {
        Some(n) => n > 0 && n < 65,
        None => {
            let upper = trim(name).to_uppercase();
            is_known_signal(upper.as_str())
        },
    }
}

/// The most startup retries that a configuration may ask for.
pub const MAX_STARTRETRIES: u32 = 1000;

/// A whole configuration: the programs, by name.
#[derive(Debug)]
pub struct Config {
    /// The configured programs.
    pub programs: NameMap<Program>,
}

/// A configuration as its names, in order, and what each stands for.
#[verifier::ext_equal]
pub ghost struct ConfigView {
    pub names: Seq<Seq<char>>,
    pub programs: Map<Seq<char>, ProgramView>,
}

impl View for Config {
    type V = ConfigView;

    open spec fn view(&self) -> ConfigView {
        ConfigView {
            names: self.programs.names(),
            programs: self.programs.map().map_values(|program: Program| program@),
        }
    }
}

impl ConfigView {
    /// No name stands for two programs, and each name stands for one.
    pub open spec fn wf(self) -> bool {
        &&& self.names.no_duplicates()
        &&& forall|name: Seq<char>| #[trigger]
            self.programs.contains_key(name) <==> self.names.contains(name)
    }
}

impl Clone for Config {
    fn clone(&self) -> (copy: Self)
        ensures
            copy@ == self@,
            copy.entries() == self.entries(),
    {
        let mut programs: NameMap<Program> = NameMap::new();
        let count = self.programs.len();
        let ghost names = self.programs.names();
        for i in 0..count
            invariant
                count == names.len(),
                names == self.programs.names(),
                self.programs.wf(),
                programs.names() == names.take(i as int),
                programs.wf(),
                forall|j: int|
                    0 <= j < i ==> programs.map()[#[trigger] names[j]]@
                        == self.programs.map()[names[j]]@,
        {
            let name = self.programs.name_at(i);
            let program = self.programs.value_at(i);
            proof {
                assert(!programs.names().contains(name@)) by {
                    if programs.names().contains(name@) {
                        assert(names[programs.names().index_of(name@)] == names[i as int]);
                    }
                }
                assert(names.take(i + 1) =~= names.take(i as int).push(name@));
            }
            programs.insert(name.clone(), program.clone());
        }
        let copy = Config { programs };
        proof {
            assert(names.take(count as int) =~= names);
            assert forall|name: Seq<char>| copy@.programs.contains_key(name)
                == self@.programs.contains_key(name) by {
                assert(copy.programs.map().contains_key(name) <==> names.contains(name));
                assert(self.programs.map().contains_key(name) <==> names.contains(name));
            }
            assert forall|name: Seq<char>| #[trigger]
                copy@.programs.contains_key(name) implies copy@.programs[name]
                == self@.programs[name] by {
                assert(copy.programs.map().contains_key(name));
                assert(names[names.index_of(name)] == name);
            }
            assert(copy@.programs =~= self@.programs);
            assert(copy@ =~= self@);
            assert(copy.entries() =~= self.entries());
        }
        copy
    }
}

impl Default for Config {
    fn default() -> (config: Self)
        ensures
            config.programs.names() == Seq::<Seq<char>>::empty(),
            config.entries() == Seq::<(Seq<char>, ProgramView)>::empty(),
    {
        let config = Config { programs: NameMap::new() };
        proof {
            assert(config.entries() =~= Seq::<(Seq<char>, ProgramView)>::empty());
        }
        config
    }
}

/// What is wrong with one program, if anything: the first of the checks that it fails.
pub open spec fn program_problem(
    name: Seq<char>,
    program: ProgramView,
    platform: Platform,
) -> Option<Seq<char>> {
    if trimmed(program.cmd).len() == 0 {
        Some("program '"@ + name + "' has empty cmd"@)
    } else if program.numprocs == 0 {
        Some("program '"@ + name + "' numprocs must be >= 1"@)
    } else if program.exitcodes.len() == 0 {
        Some("program '"@ + name + "' exitcodes must not be empty"@)
    } else if program.stopsignal is Some && !valid_signal(program.stopsignal->0, platform) {
        Some("program '"@ + name + "' has invalid stopsignal: "@ + program.stopsignal->0)
    } else if program.startretries > MAX_STARTRETRIES {
        Some("program '"@ + name + "' startretries too high (max 1000)"@)
    } else {
        None
    }
}

/// What is wrong with the first program that something is wrong with.
pub open spec fn first_problem(
    entries: Seq<(Seq<char>, ProgramView)>,
    platform: Platform,
) -> Option<Seq<char>>
    decreases entries.len(),
{
    if entries.len() == 0 {
        None
    } else {
        match program_problem(entries[0].0, entries[0].1, platform) {
            Some(problem) => Some(problem),
            None => first_problem(entries.drop_first(), platform),
        }
    }
}

/// What is wrong with a configuration, if anything.
pub open spec fn config_problem(
    entries: Seq<(Seq<char>, ProgramView)>,
    platform: Platform,
) -> Option<Seq<char>> {
    if entries.len() == 0 {
        Some("no programs defined"@)
    } else {
        first_problem(entries, platform)
    }
}

/// Whether a configuration is valid: it has a program, and nothing is wrong with any.
pub open spec fn config_valid(entries: Seq<(Seq<char>, ProgramView)>, platform: Platform) -> bool {
    &&& entries.len() > 0
    &&& forall|i: int|
        0 <= i < entries.len() ==> program_problem(
            (#[trigger] entries[i]).0,
            entries[i].1,
            platform,
        ) is None
}

/// No problem is found in a list of programs exactly if nothing is wrong with any of them.
pub proof fn first_problem_none(entries: Seq<(Seq<char>, ProgramView)>, platform: Platform)
    ensures
        first_problem(entries, platform) is None <==> forall|i: int|
            0 <= i < entries.len() ==> program_problem(
                (#[trigger] entries[i]).0,
                entries[i].1,
                platform,
            ) is None,
    decreases entries.len(),
{
    if entries.len() > 0 {
        let rest = entries.drop_first();
        first_problem_none(rest, platform);
        assert forall|i: int| 0 <= i < rest.len() implies #[trigger] rest[i] == entries[i + 1] by {}
        if forall|i: int|
            0 <= i < rest.len() ==> program_problem(
                (#[trigger] rest[i]).0,
                rest[i].1,
                platform,
            ) is None {
            assert forall|i: int| 1 <= i < entries.len() implies program_problem(
                (#[trigger] entries[i]).0,
                entries[i].1,
                platform,
            ) is None by {
                assert(entries[i] == rest[i - 1]);
            }
        }
    }
}

/// A problem is found in a configuration exactly if it is not valid.
pub proof fn config_problem_none(entries: Seq<(Seq<char>, ProgramView)>, platform: Platform)
    ensures
        config_problem(entries, platform) is None <==> config_valid(entries, platform),
{
    first_problem_none(entries, platform);
}

/// The names of the programs that start with the supervisor, in order.
pub open spec fn autostart_names(entries: Seq<(Seq<char>, ProgramView)>) -> Seq<Seq<char>>
    decreases entries.len(),
{
    if entries.len() == 0 {
        seq![]
    } else if entries.last().1.autostart {
        autostart_names(entries.drop_last()).push(entries.last().0)
    } else {
        autostart_names(entries.drop_last())
    }
}

/// The programs that have a log of their own, each with its path, in order.
pub open spec fn log_paths(entries: Seq<(Seq<char>, ProgramView)>) -> Seq<(Seq<char>, Seq<char>)>
    decreases entries.len(),
{
    if entries.len() == 0 {
        seq![]
    } else {
        match entries.last().1.log {
            Some(path) => log_paths(entries.drop_last()).push((entries.last().0, path)),
            None => log_paths(entries.drop_last()),
        }
    }
}

/// The names, separated by a comma and a space.
pub open spec fn name_list(names: Seq<Seq<char>>) -> Seq<char>
    decreases names.len(),
{
    if names.len() == 0 {
        seq![]
    } else if names.len() == 1 {
        names[0]
    } else {
        name_list(names.drop_last()) + ", "@ + names.last()
    }
}

/// The texts of a list of pairs.
pub open spec fn pair_texts(pairs: Seq<(String, String)>) -> Seq<(Seq<char>, Seq<char>)> {
    pairs.map_values(|pair: (String, String)| (pair.0@, pair.1@))
}

fn check_program(name: &String, program: &Program, platform: Platform) -> (checked: Result<
    (),
    String,
>)
    ensures
        match checked {
            Ok(()) => program_problem(name@, program@, platform) is None,
            Err(message) => program_problem(name@, program@, platform) == Some(message@),
        },
{
    if trim(program.cmd.as_str()).is_empty() {
        return Err(join3("program '", name.as_str(), "' has empty cmd"));
    }
    if program.numprocs == 0 {
        return Err(join3("program '", name.as_str(), "' numprocs must be >= 1"));
    }
    if program.exitcodes.len() == 0 {
        return Err(join3("program '", name.as_str(), "' exitcodes must not be empty"));
    }
    if let Some(signal) = &program.stopsignal {
        if !is_valid_signal(signal.as_str(), platform) {
            let mut message = join3("program '", name.as_str(), "' has invalid stopsignal: ");
            message.append(signal.as_str());
            return Err(message);
        }
    }
    if program.startretries > MAX_STARTRETRIES {
        return Err(join3("program '", name.as_str(), "' startretries too high (max 1000)"));
    }
    Ok(())
}

impl Config {
    /// The programs with their names, in order.
    pub open spec fn entries(self) -> Seq<(Seq<char>, ProgramView)> {
        self.programs.names().map_values(
            |name: Seq<char>| (name, self.programs.map()[name]@),
        )
    }

    /// Checks that there is a program and that nothing is wrong with any; the
    /// error is the first problem found.
    pub fn validate(&self, platform: Platform) -> (checked: Result<(), String>)
        ensures
            checked is Ok <==> config_valid(self.entries(), platform),
            match checked {
                Ok(()) => config_problem(self.entries(), platform) is None,
                Err(message) => config_problem(self.entries(), platform) == Some(message@),
            },
    {
        let ghost entries = self.entries();
        proof {
            config_problem_none(entries, platform);
        }
        if self.programs.is_empty() {
            return Err("no programs defined".to_string());
        }
        let count = self.programs.len();
        proof {
            assert(entries.skip(0) =~= entries);
        }
        for i in 0..count
            invariant
                count == self.programs.names().len(),
                count > 0,
                entries == self.entries(),
                config_problem(entries, platform) is None <==> config_valid(entries, platform),
                first_problem(entries, platform) == first_problem(
                    entries.skip(i as int),
                    platform,
                ),
        {
            let name = self.programs.name_at(i);
            let program = self.programs.value_at(i);
            proof {
                assert(entries.skip(i as int)[0] == (name@, program@));
                assert(entries.skip(i as int).drop_first() =~= entries.skip(i + 1));
            }
            match check_program(name, program, platform) {
                Ok(()) => {},
                Err(message) => {
                    return Err(message);
                },
            }
        }
        Ok(())
    }

    /// The names of the programs that start with the supervisor, in order.
    pub fn autostart_programs(&self) -> (names: Vec<String>)
        ensures
            crate::names::string_texts(names@) == autostart_names(self.entries()),
    {
        let mut names: Vec<String> = Vec::new();
        let ghost entries = self.entries();
        let count = self.programs.len();
        proof {
            assert(crate::names::string_texts(names@) =~= autostart_names(entries.take(0)));
        }
        for i in 0..count
            invariant
                count == self.programs.names().len(),
                entries == self.entries(),
                crate::names::string_texts(names@) == autostart_names(entries.take(i as int)),
        {
            let ghost before = names@;
            proof {
                assert(entries.take(i + 1).drop_last() =~= entries.take(i as int));
            }
            if self.programs.value_at(i).autostart {
                let name = self.programs.name_at(i);
                names.push(name.clone());
                proof {
                    assert(crate::names::string_texts(names@) =~= crate::names::string_texts(
                        before,
                    ).push(name@));
                }
            }
        }
        proof {
            assert(entries.take(count as int) =~= entries);
        }
        names
    }

    /// The programs that have a log of their own, each with the log's path, in order.
    pub fn log_files(&self) -> (files: Vec<(String, String)>)
        ensures
            pair_texts(files@) == log_paths(self.entries()),
    {
        let mut files: Vec<(String, String)> = Vec::new();
        let ghost entries = self.entries();
        let count = self.programs.len();
        proof {
            assert(pair_texts(files@) =~= log_paths(entries.take(0)));
        }
        for i in 0..count
            invariant
                count == self.programs.names().len(),
                entries == self.entries(),
                pair_texts(files@) == log_paths(entries.take(i as int)),
        {
            let ghost before = files@;
            proof {
                assert(entries.take(i + 1).drop_last() =~= entries.take(i as int));
            }
            if let Some(path) = &self.programs.value_at(i).log {
                let name = self.programs.name_at(i);
                files.push((name.clone(), path.clone()));
                proof {
                    assert(pair_texts(files@) =~= pair_texts(before).push((name@, path@)));
                }
            }
        }
        proof {
            assert(entries.take(count as int) =~= entries);
        }
        files
    }

    /// The names of the programs, separated by a comma and a space.
    pub fn program_list(&self) -> (list: String)
        ensures
            list@ == name_list(self.programs.names()),
    {
        let mut list = String::new();
        let ghost names = self.programs.names();
        let count = self.programs.len();
        proof {
            assert(list@ =~= name_list(names.take(0)));
        }
        for i in 0..count
            invariant
                count == self.programs.names().len(),
                names == self.programs.names(),
                list@ == name_list(names.take(i as int)),
        {
            proof {
                assert(names.take(i + 1).drop_last() =~= names.take(i as int));
            }
            if i > 0 {
                list.append(", ");
            } else {
                proof {
                    assert(Seq::<char>::empty() + names[0] =~= names[0]);
                }
            }
            list.append(self.programs.name_at(i).as_str());
        }
        proof {
            assert(names.take(count as int) =~= names);
        }
        list
    }
}

/// Why a configuration was not loaded.
#[derive(Debug)]
pub enum ConfigError {
    /// The file could not be read.
    Io(String),
    /// The file is not a configuration.
    Parse(String),
    /// The configuration is not valid.
    Validation(String),
}

impl ConfigError {
    /// The error as a message.
    pub open spec fn text(self) -> Seq<char> {
        match self {
            ConfigError::Io(error) => "IO error: "@ + error@,
            ConfigError::Parse(error) => "TOML parse error: "@ + error@,
            ConfigError::Validation(error) => "Validation error: "@ + error@,
        }
    }

    /// The error as a message.
    pub fn message(&self) -> (message: String)
        ensures
            message@ == self.text(),
    {
        match self {
            ConfigError::Io(error) => "IO error: ".to_string().concat(error.as_str()),
            ConfigError::Parse(error) => "TOML parse error: ".to_string().concat(error.as_str()),
            ConfigError::Validation(error) => "Validation error: ".to_string().concat(
                error.as_str(),
            ),
        }
    }
}

/// What came of reading a configuration file and parsing its text.
#[derive(Debug)]
pub enum ConfigSource {
    /// The file could not be read.
    Unreadable(String),
    /// The text does not parse.
    Unparsable(String),
    /// The configuration that the text describes.
    Parsed(Config),
}

impl Config {
    /// Accepts the configuration at a path, where `source` is what came of reading and
    /// parsing it, if it is valid.
    pub fn load_from_path(source: ConfigSource, platform: Platform) -> (loaded: Result<
        Self,
        ConfigError,
    >)
        ensures
            match source {
                ConfigSource::Unreadable(error) => loaded == Err::<Config, ConfigError>(
                    ConfigError::Io(error),
                ),
                ConfigSource::Unparsable(error) => loaded == Err::<Config, ConfigError>(
                    ConfigError::Parse(error),
                ),
                ConfigSource::Parsed(config) => {
                    match config_problem(config.entries(), platform) {
                        None => loaded == Ok::<Config, ConfigError>(config),
                        Some(problem) => loaded matches Err(ConfigError::Validation(message))
                            && message@ == problem,
                    }
                },
            },
    {
        match source {
            ConfigSource::Unreadable(error) => Err(ConfigError::Io(error)),
            ConfigSource::Unparsable(error) => Err(ConfigError::Parse(error)),
            ConfigSource::Parsed(config) => {
                match config.validate(platform) {
                    Ok(()) => Ok(config),
                    Err(message) => Err(ConfigError::Validation(message)),
                }
            },
        }
    }
}

} // verus!
