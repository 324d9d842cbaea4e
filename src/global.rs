//! The configuration that each command runs with, and the platform facts the
//! registry layout depends on.

use vstd::prelude::*;

use crate::paths::{join_path, joined};

verus! {

/// Directories, registry location and verbosity of one run.
#[derive(Clone, Debug)]
pub struct GlobalInfo {
    pub home: String,
    pub moonhome: String,
    pub multimoonhome: String,
    pub registry: String,
    pub verbose: bool,
}

/// Why the configuration could not be set.
#[derive(Clone, Copy, Debug, PartialEq, Eq, Structural)]
pub enum GlobalError {
    /// The configuration was already set.
    DuplicateInit,
}

/// Sets the configuration once; a second attempt fails and leaves it as it was.
pub fn init(slot: &mut Option<GlobalInfo>, info: GlobalInfo) -> (r: Result<(), GlobalError>)
    ensures
        (*old(slot)) is None ==> r is Ok && *final(slot) == Some(info),
        (*old(slot)) is Some ==> r == Err::<(), GlobalError>(GlobalError::DuplicateInit) && *final(slot) == *old(slot),
{
    if slot.is_none() {
        *slot = Some(info);
        Ok(())
    } else {
        Err(GlobalError::DuplicateInit)
    }
}

/// The configuration that was set.
pub fn global(slot: &Option<GlobalInfo>) -> (r: &GlobalInfo)
    requires
        slot is Some,
    ensures
        *r == slot->0,
{
    slot.as_ref().unwrap()
}

/// Operating systems the toolchain is published for.
#[derive(Clone, Copy, Debug, PartialEq, Eq, Structural)]
pub enum Os {
    Macos,
    Linux,
    Windows,
    Other,
}

/// Processor architectures, all with 64-bit pointers.
#[derive(Clone, Copy, Debug, PartialEq, Eq, Structural)]
pub enum Cpu {
    Aarch64,
    X86_64,
    Other,
}

/// The platform a run takes place on.
#[derive(Clone, Copy, Debug, PartialEq, Eq, Structural)]
pub struct Platform {
    pub os: Os,
    pub cpu: Cpu,
}

/// The registry's architecture tag of a platform, if the platform is published.
pub open spec fn arch_tag(p: Platform) -> Option<Seq<char>> {
    match (p.os, p.cpu) {
        (Os::Macos, Cpu::Aarch64) => Some(seq!['m', 'a', 'c', 'o', 's', '_', 'a', 'a', 'r', 'c', 'h', '6', '4']),
        (Os::Macos, Cpu::X86_64) => Some(seq!['m', 'a', 'c', 'o', 's', '_', 'a', 'm', 'd', '6', '4']),
        (Os::Linux, Cpu::X86_64) => Some(seq!['u', 'b', 'u', 'n', 't', 'u', '_', 'a', 'm', 'd', '6', '4']),
        (Os::Windows, Cpu::X86_64) => Some(seq!['w', 'i', 'n', 'd', 'o', 'w', 's', '_', 'x', '6', '4']),
        _ => None,
    }
}

/// The file name of the toolchain's build tool on a published platform.
pub open spec fn executable_name(p: Platform) -> Option<Seq<char>> {
    if arch_tag(p) is None {
        None
    } else if p.os == Os::Windows {
        Some(seq!['m', 'o', 'o', 'n', '.', 'e', 'x', 'e'])
    } else {
        Some(seq!['m', 'o', 'o', 'n'])
    }
}

/// The architecture tag under which the registry publishes binaries for `p`.
pub fn arch(p: Platform) -> (r: Option<&'static str>)
    ensures
        r is Some <==> arch_tag(p) is Some,
        r is Some ==> r->0@ == arch_tag(p)->0,
{
    proof {
        reveal_strlit("macos_aarch64");
        reveal_strlit("macos_amd64");
        reveal_strlit("ubuntu_amd64");
        reveal_strlit("windows_x64");
    }
    match (p.os, p.cpu) {
        (Os::Macos, Cpu::Aarch64) => Some("macos_aarch64"),
        (Os::Macos, Cpu::X86_64) => Some("macos_amd64"),
        (Os::Linux, Cpu::X86_64) => Some("ubuntu_amd64"),
        (Os::Windows, Cpu::X86_64) => Some("windows_x64"),
        _ => None,
    }
}

/// The file name of the build tool in the binaries directory on `p`.
pub fn moon_executable_name(p: Platform) -> (r: Option<&'static str>)
    ensures
        r is Some <==> executable_name(p) is Some,
        r is Some ==> r->0@ == executable_name(p)->0,
{
    proof {
        reveal_strlit("moon.exe");
        reveal_strlit("moon");
    }
    match (p.os, p.cpu) {
        (Os::Macos, Cpu::Aarch64) => Some("moon"),
        (Os::Macos, Cpu::X86_64) => Some("moon"),
        (Os::Linux, Cpu::X86_64) => Some("moon"),
        (Os::Windows, Cpu::X86_64) => Some("moon.exe"),
        _ => None,
    }
}

/// The directory that holds named backups of the library.
pub open spec fn backups_dir(info: GlobalInfo) -> Seq<char> {
    joined(info.multimoonhome@, seq!['c', 'o', 'r', 'e', '-', 'b', 'a', 'c', 'k', 'u', 'p', 's'])
}

/// The directory that holds named backups of the library.
pub fn core_backups_path(info: &GlobalInfo) -> (r: String)
    ensures
        r@ == backups_dir(*info),
{
    proof {
        reveal_strlit("core-backups");
        assert("core-backups"@ =~= seq!['c', 'o', 'r', 'e', '-', 'b', 'a', 'c', 'k', 'u', 'p', 's']);
    }
    join_path(info.multimoonhome.as_str(), "core-backups")
}

} // verus!
