//! What differs from one operating system to another.
use vstd::prelude::*;

verus! {

/// The family of operating systems that the supervisor runs on.
#[derive(Debug, Clone, Copy, PartialEq, Eq, Structural)]
pub enum Platform {
    /// Linux and Android.
    Linux,
    /// macOS, iOS and the BSD systems.
    Bsd,
    /// Solaris and illumos.
    Solaris,
    /// Any other Unix.
    OtherUnix,
    /// Windows.
    Windows,
    /// A system that is neither Unix nor Windows.
    Other,
}

impl Platform {
    /// Whether this is a Unix.
    pub open spec fn unix(self) -> bool {
        !(self is Windows || self is Other)
    }

    /// Whether this is a Unix.
    pub fn is_unix(&self) -> (unix: bool)
        ensures
            unix == self.unix(),
    {
        match self {
            Platform::Windows => false,
            Platform::Other => false,
            _ => true,
        }
    }

    /// The number of `SIGUSR1`.
    pub open spec fn usr1(self) -> int {
        match self {
            Platform::Bsd => 30,
            Platform::Solaris => 16,
            _ => 10,
        }
    }

    /// The number of `SIGUSR2`.
    pub open spec fn usr2(self) -> int {
        match self {
            Platform::Bsd => 31,
            Platform::Solaris => 17,
            _ => 12,
        }
    }

    /// The number of `SIGUSR1`.
    pub fn sigusr1(&self) -> (number: i32)
        ensures
            number == self.usr1(),
    {
        match self {
            Platform::Bsd => 30,
            Platform::Solaris => 16,
            _ => 10,
        }
    }

    /// The number of `SIGUSR2`.
    pub fn sigusr2(&self) -> (number: i32)
        ensures
            number == self.usr2(),
    {
        match self {
            Platform::Bsd => 31,
            Platform::Solaris => 17,
            _ => 12,
        }
    }
}

/// The path of the device that discards what is written to it.
pub open spec fn null_device(platform: Platform) -> Seq<char> {
    if platform is Windows {
        "NUL"@
    } else {
        "/dev/null"@
    }
}

/// The path of the device that discards what is written to it: `NUL` on
/// Windows, `/dev/null` elsewhere.
pub fn null_device_path(platform: Platform) -> (path: &'static str)
    ensures
        path@ == null_device(platform),
{
    match platform {
        Platform::Windows => "NUL",
        _ => "/dev/null",
    }
}

} // verus!
