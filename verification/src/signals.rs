//! Requests that reach the supervisor as signals.
use crate::platform::Platform;
use vstd::prelude::*;

verus! {

/// The signal that asks for a reload of the configuration.
pub const SIGHUP: i32 = 1;

/// The signal of an interrupt at the terminal.
pub const SIGINT: i32 = 2;

/// The signal that asks a process to end.
pub const SIGTERM: i32 = 15;

/// The requests that were made and not yet taken.
#[derive(Debug, Clone, Copy, PartialEq, Eq, Structural)]
pub struct SignalFlags {
    /// A shutdown was asked for.
    pub shutdown: bool,
    /// A reload of the configuration was asked for.
    pub reload: bool,
}

/// Whether a signal asks for a shutdown.
pub open spec fn asks_shutdown(signal: i32) -> bool {
    signal == SIGINT || signal == SIGTERM
}

/// Whether a signal asks for a reload.
pub open spec fn asks_reload(signal: i32) -> bool {
    signal == SIGHUP
}

/// Whether a console event of Windows asks for a shutdown: an interrupt, a break,
/// a closed window, a logoff or a shutdown of the system.
pub open spec fn console_asks_shutdown(event: u32) -> bool {
    event == 0 || event == 1 || event == 2 || event == 5 || event == 6
}

impl SignalFlags {
    /// The flags after a signal came in.
    pub open spec fn after_signal(self, signal: i32) -> SignalFlags {
        SignalFlags {
            shutdown: self.shutdown || asks_shutdown(signal),
            reload: self.reload || asks_reload(signal),
        }
    }

    /// No request.
    pub fn new() -> (flags: Self)
        ensures
            !flags.shutdown,
            !flags.reload,
    {
        SignalFlags { shutdown: false, reload: false }
    }

    /// Notes the request that a signal makes.
    pub fn handle_signal(&mut self, signal: i32)
        ensures
            *final(self) == old(self).after_signal(signal),
    {
        if signal == SIGHUP {
            self.reload = true;
        } else if signal == SIGINT || signal == SIGTERM {
            self.shutdown = true;
        }
    }

    /// Notes the request that a console event makes, and returns 1 if the event
    /// was one that asks for a shutdown, else 0.
    pub fn handle_console_event(&mut self, event: u32) -> (handled: i32)
        ensures
            final(self).reload == old(self).reload,
            final(self).shutdown == (old(self).shutdown || console_asks_shutdown(event)),
            handled == if console_asks_shutdown(event) {
                1i32
            } else {
                0i32
            },
    {
        if event == 0 || event == 1 || event == 2 || event == 5 || event == 6 {
            self.shutdown = true;
            1
        } else {
            0
        }
    }

    /// Returns and clears the pending request for a shutdown.
    pub fn take_shutdown(&mut self) -> (pending: bool)
        ensures
            pending == old(self).shutdown,
            *final(self) == (SignalFlags { shutdown: false, ..*old(self) }),
    {
        let pending = self.shutdown;
        self.shutdown = false;
        pending
    }

    /// Returns and clears the pending request for a reload.
    pub fn take_reload(&mut self) -> (pending: bool)
        ensures
            pending == old(self).reload,
            *final(self) == (SignalFlags { reload: false, ..*old(self) }),
    {
        let pending = self.reload;
        self.reload = false;
        pending
    }
}

/// What a handler is installed for.
#[derive(Debug, Clone, Copy, PartialEq, Eq, Structural)]
pub enum Source {
    /// A signal of Unix.
    Signal(i32),
    /// The console events of Windows.
    Console,
}

/// What is to be done next to install the handlers.
#[derive(Debug, Clone, Copy, PartialEq, Eq, Structural)]
pub enum InstallStep {
    /// Install a handler.
    Handle(Source),
    /// All handlers are installed.
    Done,
    /// The last installation failed.
    Failed,
}

/// What handlers are installed for, in order.
pub open spec fn sources(platform: Platform) -> Seq<Source> {
    if platform.unix() {
        seq![Source::Signal(SIGHUP), Source::Signal(SIGINT), Source::Signal(SIGTERM)]
    } else if platform is Windows {
        seq![Source::Console]
    } else {
        seq![]
    }
}

/// Whether what the system returned means that a handler could not be installed.
pub open spec fn install_failed(platform: Platform, returned: isize) -> bool {
    if platform is Windows {
        returned == 0
    } else {
        returned == -1
    }
}

/// The step after the system returned `returned`, in order, for the handlers so far.
pub open spec fn next_install(platform: Platform, returned: Seq<isize>) -> InstallStep {
    if exists|i: int| 0 <= i < returned.len() && install_failed(platform, #[trigger] returned[i]) {
        InstallStep::Failed
    } else if returned.len() < sources(platform).len() {
        InstallStep::Handle(sources(platform)[returned.len() as int])
    } else {
        InstallStep::Done
    }
}

/// The next step of installing the handlers, where `returned` holds what the
/// system returned for the handlers so far.
pub fn install(platform: Platform, returned: &Vec<isize>) -> (step: InstallStep)
    ensures
        step == next_install(platform, returned@),
{
    for i in 0..returned.len()
        invariant
            forall|j: int| 0 <= j < i ==> !install_failed(platform, #[trigger] returned@[j]),
    {
        let failed = match platform {
            Platform::Windows => returned[i] == 0,
            _ => returned[i] == -1,
        };
        if failed {
            assert(install_failed(platform, returned@[i as int]));
            return InstallStep::Failed;
        }
    }
    let done = returned.len();
    if platform.is_unix() {
        if done == 0 {
            InstallStep::Handle(Source::Signal(SIGHUP))
        } else if done == 1 {
            InstallStep::Handle(Source::Signal(SIGINT))
        } else if done == 2 {
            InstallStep::Handle(Source::Signal(SIGTERM))
        } else {
            InstallStep::Done
        }
    } else {
        match platform {
            Platform::Windows if done == 0 => InstallStep::Handle(Source::Console),
            _ => InstallStep::Done,
        }
    }
}

/// A request stays pending, whatever signals come in, and a signal adds no request
/// but its own.
pub proof fn requests_stay_pending(flags: SignalFlags, signal: i32)
    ensures
        flags.shutdown ==> flags.after_signal(signal).shutdown,
        flags.reload ==> flags.after_signal(signal).reload,
        flags.after_signal(signal).shutdown != flags.shutdown ==> asks_shutdown(signal),
        flags.after_signal(signal).reload != flags.reload ==> asks_reload(signal),
{
}

/// Every signal that a handler is installed for makes exactly one request.
pub proof fn handled_signals_make_one_request(platform: Platform, i: int)
    requires
        0 <= i < sources(platform).len(),
    ensures
        sources(platform)[i] matches Source::Signal(signal) ==> asks_shutdown(signal)
            != asks_reload(signal),
{
}

} // verus!
