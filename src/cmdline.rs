//! The commands and options of a run, and the configuration they give.

use vstd::prelude::*;

use crate::download::{url_parsed, InstallError};
use crate::global::GlobalInfo;
use crate::paths::{join_path, joined};

verus! {

/// Options of a run.
#[derive(Clone, Debug)]
pub struct Args {
    pub command: Command,
    /// Registry location; the official registry if absent.
    pub registry: Option<String>,
    /// Installation directory; `.moon` under the home directory if absent.
    pub moonhome: Option<String>,
    /// Data directory of the manager; `.multimoon` under the home directory if absent.
    pub multimoonhome: Option<String>,
    pub verbose: bool,
}

/// The top-level commands.
#[derive(Clone, Debug)]
pub enum Command {
    Show,
    Update,
    Toolchain(ToolchainArgs),
    Core(CoreArgs),
    UpdateSelf,
}

/// Options of `toolchain`.
#[derive(Clone, Debug)]
pub struct ToolchainArgs {
    pub command: ToolchainCommand,
}

/// The `toolchain` subcommands.
#[derive(Clone, Debug)]
pub enum ToolchainCommand {
    Show,
    List,
    Update(ToolchainUpdateArgs),
    Rollback(ToolchainUpdateArgs),
}

/// Options of `toolchain update`.
#[derive(Clone, Debug)]
pub struct ToolchainUpdateArgs {
    pub toolchain: String,
    pub force: bool,
}

/// Options of `core`.
#[derive(Clone, Debug)]
pub struct CoreArgs {
    pub command: CoreCommand,
}

/// The `core` subcommands.
#[derive(Clone, Debug)]
pub enum CoreCommand {
    List,
    Use,
    Update,
    Rollback,
    Backup(CoreBackupArgs),
    Restore(CoreRestoreArgs),
}

/// Options of `core backup`.
#[derive(Clone, Debug)]
pub struct CoreBackupArgs {
    pub name: Option<String>,
}

/// Options of `core restore`.
#[derive(Clone, Debug)]
pub struct CoreRestoreArgs {
    pub name: Option<String>,
}

/// The registry used when none is given.
pub const DEFAULT_REGISTRY: &'static str = "https://multimoon.lopt.dev/";

/// The registry location given, or the official one.
pub open spec fn registry_text(given: Option<String>) -> Seq<char> {
    match given {
        Some(s) => s@,
        None => DEFAULT_REGISTRY@,
    }
}

/// A directory option, or its default under the home directory.
pub open spec fn dir_or_default(given: Option<String>, home: Seq<char>, default: Seq<char>) -> Seq<char> {
    match given {
        Some(d) => d@,
        None => joined(home, default),
    }
}

fn dir_option(given: &Option<String>, home: &str, default: &str) -> (r: String)
    ensures
        r@ == dir_or_default(*given, home@, default@),
{
    match given {
        Some(d) => d.clone(),
        None => join_path(home, default),
    }
}

/// The configuration of a run from its options and the user's home directory.
/// The registry location must be a valid URL.
pub fn init_global_info(args: &Args, home: &str) -> (r: Result<GlobalInfo, InstallError>)
    ensures
        r is Ok <==> url_parsed(registry_text(args.registry)) is Some,
        r matches Ok(info) ==> {
            &&& info.home@ == home@
            &&& info.moonhome@ == dir_or_default(args.moonhome, home@, ".moon"@)
            &&& info.multimoonhome@ == dir_or_default(args.multimoonhome, home@, ".multimoon"@)
            &&& url_parsed(registry_text(args.registry)) == Some(info.registry@)
            &&& info.verbose == args.verbose
        },
        r is Err ==> r matches Err(InstallError::Url(_)),
{
    let moonhome = dir_option(&args.moonhome, home, ".moon");
    let multimoonhome = dir_option(&args.multimoonhome, home, ".multimoon");
    let registry_text = match &args.registry {
        Some(s) => s.clone(),
        None => DEFAULT_REGISTRY.to_owned(),
    };
    let registry = match crate::download::parse_registry_url(registry_text.as_str()) {
        Ok(u) => u,
        Err(e) => {
            return Err(InstallError::Url(e));
        },
    };
    Ok(GlobalInfo { home: home.to_owned(), moonhome, multimoonhome, registry, verbose: args.verbose })
}

} // verus!
