//! Laws of a configuration: what is valid, what starts by itself and what has a log.
use crate::config::{
    autostart_names, config_problem, config_valid, default_program, env_texts, first_problem,
    known_signal, log_paths, name_list, program_problem, valid_signal, AutoRestart, Config,
    ConfigError, ConfigView, Program, ProgramView, MAX_STARTRETRIES,
};
use crate::instance::{mapped_signal, signal_number};
use crate::laws::values::written_numbers_are_read;
use crate::names::NameMap;
use crate::numbers::{parsed_i32, signed_decimal};
use crate::platform::Platform;
use crate::text::{opt_text, trimmed, uppercase};
use vstd::prelude::*;

verus! {

/// Whether no two entries have the same name.
pub open spec fn names_differ(entries: Seq<(Seq<char>, ProgramView)>) -> bool {
    forall|i: int, j: int|
        #![trigger entries[i], entries[j]]
        0 <= i < j < entries.len() ==> entries[i].0 != entries[j].0
}

/// The programs that start by themselves are listed in the order of the configuration,
/// each entry that asks for it once and no other: the places of those entries.
pub proof fn what_starts_by_itself_is_listed(entries: Seq<(Seq<char>, ProgramView)>) -> (places:
    Seq<int>)
    ensures
        places.len() == autostart_names(entries).len(),
        forall|k: int|
            0 <= k < places.len() ==> 0 <= #[trigger] places[k] < entries.len()
                && entries[places[k]].1.autostart && autostart_names(entries)[k]
                == entries[places[k]].0,
        forall|k: int, m: int|
            #![trigger places[k], places[m]]
            0 <= k < m < places.len() ==> places[k] < places[m],
        forall|i: int|
            0 <= i < entries.len() && (#[trigger] entries[i]).1.autostart ==> places.contains(i),
    decreases entries.len(),
{
    if entries.len() == 0 {
        Seq::empty()
    } else {
        let last = entries.len() - 1;
        let before = what_starts_by_itself_is_listed(entries.drop_last());
        let places = if entries.last().1.autostart {
            before.push(last)
        } else {
            before
        };
        assert forall|i: int|
            0 <= i < entries.len() && (#[trigger] entries[i]).1.autostart implies places.contains(
            i,
        ) by {
            if i < last {
                assert(entries.drop_last()[i] == entries[i]);
                let k = before.index_of(i);
                assert(places[k] == i);
            } else {
                assert(places[before.len() as int] == i);
            }
        }
        places
    }
}

/// A name is listed exactly if the entry of that name starts by itself, and none is
/// listed twice.
pub proof fn a_program_is_listed_if_it_starts_by_itself(
    entries: Seq<(Seq<char>, ProgramView)>,
)
    requires
        names_differ(entries),
    ensures
        forall|i: int|
            0 <= i < entries.len() ==> ((#[trigger] entries[i]).1.autostart <==> autostart_names(
                entries,
            ).contains(entries[i].0)),
        forall|name: Seq<char>| #[trigger]
            autostart_names(entries).contains(name) ==> exists|i: int|
                0 <= i < entries.len() && (#[trigger] entries[i]).0 == name
                    && entries[i].1.autostart,
        autostart_names(entries).no_duplicates(),
{
    let names = autostart_names(entries);
    let places = what_starts_by_itself_is_listed(entries);
    assert forall|i: int| 0 <= i < entries.len() implies ((#[trigger] entries[i]).1.autostart
        <==> names.contains(entries[i].0)) by {
        if entries[i].1.autostart {
            let k = places.index_of(i);
            assert(places[k] == i);
            assert(names[k] == entries[i].0);
        }
        if names.contains(entries[i].0) {
            let k = names.index_of(entries[i].0);
            let j = places[k];
            assert(entries[j].0 == entries[i].0);
        }
    }
    assert forall|name: Seq<char>| #[trigger] names.contains(name) implies exists|i: int|
        0 <= i < entries.len() && (#[trigger] entries[i]).0 == name && entries[i].1.autostart by {
        let k = names.index_of(name);
        assert(entries[places[k]].0 == name);
    }
    assert forall|k: int, m: int| 0 <= k < names.len() && 0 <= m < names.len() && k
        != m implies names[k] != names[m] by {
        if k < m {
            assert(places[k] < places[m]);
            assert(entries[places[k]].0 != entries[places[m]].0);
        } else {
            assert(places[m] < places[k]);
            assert(entries[places[m]].0 != entries[places[k]].0);
        }
    }
}

/// The logs are listed in the order of the configuration, that of each entry that has one
/// once and no other: the places of those entries.
pub proof fn each_log_is_listed(entries: Seq<(Seq<char>, ProgramView)>) -> (places: Seq<int>)
    ensures
        places.len() == log_paths(entries).len(),
        forall|k: int|
            0 <= k < places.len() ==> 0 <= #[trigger] places[k] < entries.len()
                && entries[places[k]].1.log is Some && log_paths(entries)[k] == (
                entries[places[k]].0,
                entries[places[k]].1.log->0,
            ),
        forall|k: int, m: int|
            #![trigger places[k], places[m]]
            0 <= k < m < places.len() ==> places[k] < places[m],
        forall|i: int|
            0 <= i < entries.len() && (#[trigger] entries[i]).1.log is Some ==> places.contains(i),
    decreases entries.len(),
{
    if entries.len() == 0 {
        Seq::empty()
    } else {
        let last = entries.len() - 1;
        let before = each_log_is_listed(entries.drop_last());
        let places = if entries.last().1.log is Some {
            before.push(last)
        } else {
            before
        };
        assert forall|i: int|
            0 <= i < entries.len() && (#[trigger] entries[i]).1.log is Some implies places.contains(
            i,
        ) by {
            if i < last {
                assert(entries.drop_last()[i] == entries[i]);
                let k = before.index_of(i);
                assert(places[k] == i);
            } else {
                assert(places[before.len() as int] == i);
            }
        }
        places
    }
}

/// The list of no names is empty, that of one name is that name, and that of two lists of
/// names is the list of the first, a comma and a space, and the list of the second.
pub proof fn lists_are_joined_by_commas(a: Seq<Seq<char>>, b: Seq<Seq<char>>, name: Seq<char>)
    requires
        a.len() > 0,
        b.len() > 0,
    ensures
        name_list(Seq::empty()) == Seq::<char>::empty(),
        name_list(seq![name]) == name,
        name_list(a + b) == name_list(a) + seq![',', ' '] + name_list(b),
    decreases b.len(),
{
    reveal_strlit(", ");
    assert(", "@ =~= seq![',', ' ']);
    if b.len() == 1 {
        assert((a + b).drop_last() =~= a);
    } else {
        lists_are_joined_by_commas(a, b.drop_last(), name);
        assert((a + b).drop_last() =~= a + b.drop_last());
        assert(name_list(a + b) =~= name_list(a) + seq![',', ' '] + name_list(b));
    }
}

/// Nothing is wrong with a program that has a command, an instance, an exit code, a stop
/// signal that is one, if it has any, and at most a thousand retries; and something is
/// wrong with each other one.
pub proof fn programs_are_valid_or_not(name: Seq<char>, program: ProgramView, platform: Platform)
    ensures
        program_problem(name, program, platform) is None <==> {
            &&& trimmed(program.cmd).len() > 0
            &&& program.numprocs >= 1
            &&& program.exitcodes.len() >= 1
            &&& program.stopsignal is Some ==> valid_signal(program.stopsignal->0, platform)
            &&& program.startretries <= 1000
        },
        MAX_STARTRETRIES == 1000,
{
}

/// The first thing that is wrong with a program is told, with the name of the program.
pub proof fn problems_are_told(name: Seq<char>, program: ProgramView, platform: Platform)
    ensures
        ({
            let problem = program_problem(name, program, platform);
            let commanded = trimmed(program.cmd).len() > 0;
            let counted = commanded && program.numprocs > 0;
            let coded = counted && program.exitcodes.len() > 0;
            let stoppable = program.stopsignal is None || valid_signal(
                program.stopsignal->0,
                platform,
            );
            &&& !commanded ==> problem == Some("program '"@ + name + "' has empty cmd"@)
            &&& commanded && program.numprocs == 0 ==> problem == Some(
                "program '"@ + name + "' numprocs must be >= 1"@,
            )
            &&& counted && program.exitcodes.len() == 0 ==> problem == Some(
                "program '"@ + name + "' exitcodes must not be empty"@,
            )
            &&& coded && !stoppable ==> problem == Some(
                "program '"@ + name + "' has invalid stopsignal: "@ + program.stopsignal->0,
            )
            &&& coded && stoppable && program.startretries > 1000 ==> problem == Some(
                "program '"@ + name + "' startretries too high (max 1000)"@,
            )
        }),
{
}

/// A configuration without programs is not valid. Of another, the problem that is told is
/// that of the first program that has one, and it is valid if none has.
pub proof fn the_first_problem_is_told(
    entries: Seq<(Seq<char>, ProgramView)>,
    platform: Platform,
    first: int,
)
    ensures
        config_problem(Seq::empty(), platform) == Some("no programs defined"@),
        0 <= first < entries.len() && program_problem(
            entries[first].0,
            entries[first].1,
            platform,
        ) is Some && (forall|i: int|
            0 <= i < first ==> program_problem(
                (#[trigger] entries[i]).0,
                entries[i].1,
                platform,
            ) is None) ==> {
            &&& config_problem(entries, platform) == program_problem(
                entries[first].0,
                entries[first].1,
                platform,
            )
            &&& first_problem(entries, platform) == config_problem(entries, platform)
            &&& !config_valid(entries, platform)
        },
        entries.len() > 0 && (forall|i: int|
            0 <= i < entries.len() ==> program_problem(
                (#[trigger] entries[i]).0,
                entries[i].1,
                platform,
            ) is None) ==> config_problem(entries, platform) is None && config_valid(
            entries,
            platform,
        ),
        config_valid(entries, platform) ==> entries.len() > 0,
    decreases entries.len(),
{
    if entries.len() > 0 {
        let rest = entries.drop_first();
        the_first_problem_is_told(rest, platform, first - 1);
        assert forall|i: int| 0 <= i < rest.len() implies #[trigger] rest[i] == entries[i + 1] by {}
        if forall|i: int|
            0 <= i < entries.len() ==> program_problem(
                (#[trigger] entries[i]).0,
                entries[i].1,
                platform,
            ) is None {
            crate::config::first_problem_none(entries, platform);
        }
    }
}

/// A stop signal is a number from 1 to 64 or a name that has a number; where there are no
/// signals, any text will do.
pub proof fn valid_signals_are_signals(name: Seq<char>, n: int, platform: Platform)
    ensures
        platform is Windows || platform is Other ==> valid_signal(name, platform),
        !(platform is Windows || platform is Other) ==> {
            &&& i32::MIN <= n <= i32::MAX ==> (valid_signal(signed_decimal(n), platform) <==> 1
                <= n <= 64)
            &&& parsed_i32(name) is None ==> (valid_signal(name, platform) <==> signal_number(
                uppercase(trimmed(name)),
                platform,
            ) is Some)
            &&& valid_signal(name, platform) ==> mapped_signal(name, platform) is Some
        },
        known_signal(name) <==> signal_number(name, platform) is Some,
{
    if i32::MIN <= n <= i32::MAX {
        written_numbers_are_read(n);
    }
}

/// The view of a program shows each of its fields.
pub proof fn programs_show_their_fields(program: Program, name: Seq<char>)
    ensures
        program@.cmd == program.cmd@,
        program@.numprocs == program.numprocs,
        program@.autostart == program.autostart,
        program@.autorestart == program.autorestart,
        program@.exitcodes == program.exitcodes@,
        program@.startretries == program.startretries,
        program@.starttime == program.starttime,
        program@.stoptime == program.stoptime,
        program@.umask == program.umask,
        program.stopsignal is Some == program@.stopsignal is Some,
        program.stopsignal is Some ==> program@.stopsignal->0 == program.stopsignal->0@,
        program.stdout is Some == program@.stdout is Some,
        program.stdout is Some ==> program@.stdout->0 == program.stdout->0@,
        program.stderr is Some == program@.stderr is Some,
        program.stderr is Some ==> program@.stderr->0 == program.stderr->0@,
        program.log is Some == program@.log is Some,
        program.log is Some ==> program@.log->0 == program.log->0@,
        program.workingdir is Some == program@.workingdir is Some,
        program.workingdir is Some ==> program@.workingdir->0 == program.workingdir->0@,
        program.env is Some == program@.env is Some,
        program.env is Some ==> program@.env->0.dom() == program.env->0.map().dom(),
        program.env is Some && program.env->0.map().contains_key(name) ==> program@.env->0[name]
            == program.env->0.map()[name]@,
{
    if program.env is Some {
        assert(env_texts(program.env->0).dom() =~= program.env->0.map().dom());
    }
}

/// The view of a configuration and its entries show each program under its name, in
/// order.
pub proof fn configurations_show_their_programs(config: Config, i: int)
    requires
        0 <= i < config.programs.names().len(),
    ensures
        config.entries().len() == config.programs.names().len(),
        config.entries()[i].0 == config.programs.names()[i],
        config.entries()[i].1 == config.programs.map()[config.programs.names()[i]]@,
        config@.names == config.programs.names(),
        config@.programs.dom() == config.programs.map().dom(),
        config.programs.map().contains_key(config@.names[i]) ==> config@.programs[config@.names[i]]
            == config.entries()[i].1,
{
    assert(config@.programs.dom() =~= config.programs.map().dom());
}

/// In a sound configuration each name stands for one program, and no name stands twice.
pub proof fn sound_configurations_know_their_programs(config: ConfigView, name: Seq<char>)
    ensures
        config.wf() ==> config.names.no_duplicates(),
        config.wf() ==> (config.programs.contains_key(name) <==> config.names.contains(name)),
        config.names.no_duplicates() && (forall|other: Seq<char>| #[trigger]
            config.programs.contains_key(other) <==> config.names.contains(other)) ==> config.wf(),
{
}

/// The names of a map of names stand for its values, and no name stands twice.
pub proof fn sound_maps_know_their_names(map: NameMap<String>, name: Seq<char>)
    requires
        map.wf(),
    ensures
        map.names().no_duplicates(),
        map.map().contains_key(name) <==> map.names().contains(name),
{
}

/// A program of which nothing is said has one instance, starts when it is told to, is not
/// launched anew, is expected to end with 0 after no less than a second, and is stopped by
/// `TERM` within five seconds.
pub proof fn nothing_said_means_the_default()
    ensures
        ({
            let program = default_program();
            &&& program.cmd.len() == 0 && program.numprocs == 1 && !program.autostart
            &&& program.autorestart == AutoRestart::Never
            &&& program.exitcodes.len() == 1 && program.exitcodes[0] == 0
            &&& program.startretries == 0 && program.starttime == 1 && program.stoptime == 5
            &&& program.stopsignal == Some("TERM"@)
            &&& program.stdout is None && program.stderr is None && program.log is None
            &&& program.env is None && program.workingdir is None && program.umask is None
        }),
{
}

/// An error tells what it is about and then what was told of it.
pub proof fn errors_tell_their_cause(told: String)
    ensures
        ConfigError::Io(told).text() == "IO error: "@ + told@,
        ConfigError::Parse(told).text() == "TOML parse error: "@ + told@,
        ConfigError::Validation(told).text() == "Validation error: "@ + told@,
        opt_text(Some(told)) == Some(told@),
        opt_text(None) == None::<Seq<char>>,
{
}

} // verus!
