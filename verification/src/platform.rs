//! The platform that paths and commands are meant for, as a plain value.

use vstd::prelude::*;

verus! {

/// A family of operating systems. It settles how a path is read, what an
/// executable file is called and which shells exist.
#[derive(Debug, Clone, Copy, PartialEq, Eq, Structural)]
pub enum Platform {
    /// Linux, macOS and the other Unix systems.
    Unix,
    /// Windows.
    Windows,
}

/// A processor architecture, as far as release files tell them apart.
#[derive(Debug, Clone, Copy, PartialEq, Eq, Structural)]
pub enum Architecture {
    X86_64,
    Aarch64,
    Other,
}

/// An operating system, as far as release files tell them apart.
#[derive(Debug, Clone, Copy, PartialEq, Eq, Structural)]
pub enum OperatingSystem {
    Darwin,
    Linux,
    Windows,
    Other,
}

impl Platform {
    /// What the name of an executable file ends in.
    pub open spec fn exe_suffix(self) -> Seq<char> {
        match self {
            Platform::Unix => ""@,
            Platform::Windows => ".exe"@,
        }
    }

    /// What the name of an executable file ends in.
    pub fn executable_suffix(self) -> (r: &'static str)
        ensures
            r@ == self.exe_suffix(),
    {
        match self {
            Platform::Unix => "",
            Platform::Windows => ".exe",
        }
    }
}

} // verus!
