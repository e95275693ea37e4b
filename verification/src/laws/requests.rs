//! Laws of the requests that come in as signals, and of what differs between systems.
use crate::platform::{null_device, Platform};
use crate::signals::{
    asks_reload, asks_shutdown, console_asks_shutdown, install_failed, next_install, sources,
    InstallStep, SignalFlags, Source, SIGHUP, SIGINT, SIGTERM,
};
use vstd::prelude::*;

verus! {

/// Signal 1 asks for a reload and signals 2 and 15 for a shutdown; no other signal asks
/// for anything. What is asked for is added to what was asked for before.
pub proof fn signals_ask_for_what_they_mean(flags: SignalFlags, signal: i32)
    ensures
        asks_reload(signal) <==> signal == 1,
        asks_shutdown(signal) <==> signal == 2 || signal == 15,
        flags.after_signal(signal).reload <==> flags.reload || signal == 1,
        flags.after_signal(signal).shutdown <==> flags.shutdown || signal == 2 || signal == 15,
        SIGHUP == 1 && SIGINT == 2 && SIGTERM == 15,
{
}

/// The order in which signals come in makes no difference, nor how often one does.
pub proof fn signals_come_in_any_order(flags: SignalFlags, a: i32, b: i32)
    ensures
        flags.after_signal(a).after_signal(b) == flags.after_signal(b).after_signal(a),
        flags.after_signal(a).after_signal(a) == flags.after_signal(a),
{
}

/// The console asks for a shutdown by the events of an interrupt, a break, a closed
/// window, a logoff and a shutdown of the system.
pub proof fn the_console_asks_for_shutdowns(event: u32)
    ensures
        console_asks_shutdown(event) <==> (event <= 2 || event == 5 || event == 6),
{
}

/// Handlers are installed for signals 1, 2 and 15 on Unix, for the console on Windows and
/// for nothing elsewhere, one after the other, as long as none fails; after a failure
/// nothing more is installed.
pub proof fn handlers_are_installed_in_turn(platform: Platform, returned: Seq<isize>, i: int)
    requires
        0 <= i < returned.len(),
    ensures
        platform is Windows ==> (install_failed(platform, returned[i]) <==> returned[i] == 0),
        !(platform is Windows) ==> (install_failed(platform, returned[i]) <==> returned[i] == -1),
        install_failed(platform, returned[i]) ==> next_install(platform, returned)
            == InstallStep::Failed,
        (forall|k: int| 0 <= k < returned.len() ==> !install_failed(platform, #[trigger] returned[k]))
            ==> {
            let step = next_install(platform, returned);
            let unix = !(platform is Windows || platform is Other);
            &&& unix && returned.len() == 1 ==> step == InstallStep::Handle(Source::Signal(2))
            &&& unix && returned.len() == 2 ==> step == InstallStep::Handle(Source::Signal(15))
            &&& unix && returned.len() >= 3 ==> step == InstallStep::Done
            &&& !unix ==> step == InstallStep::Done
        },
        next_install(platform, Seq::empty()) == if platform is Windows {
            InstallStep::Handle(Source::Console)
        } else if platform is Other {
            InstallStep::Done
        } else {
            InstallStep::Handle(Source::Signal(1))
        },
        platform is Windows ==> sources(platform).len() == 1,
        platform is Other ==> sources(platform).len() == 0,
{
}

/// What differs between systems: which are Unix, the numbers of two signals, and the
/// device that discards what is written to it.
pub proof fn systems_differ(platform: Platform)
    ensures
        platform.unix() <==> platform is Linux || platform is Bsd || platform is Solaris
            || platform is OtherUnix,
        platform is Linux || platform is OtherUnix ==> platform.usr1() == 10 && platform.usr2()
            == 12,
        platform is Bsd ==> platform.usr1() == 30 && platform.usr2() == 31,
        platform is Solaris ==> platform.usr1() == 16 && platform.usr2() == 17,
        platform is Windows || platform is Other ==> platform.usr1() == 10 && platform.usr2() == 12,
        platform is Windows ==> null_device(platform) == "NUL"@,
        !(platform is Windows) ==> null_device(platform) == "/dev/null"@,
{
}

} // verus!
