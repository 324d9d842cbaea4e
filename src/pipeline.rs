//! The install pipeline: its stages, what each outcome leads to, and the writes
//! that install verified binaries.

use vstd::prelude::*;

use crate::download::{fetched_for, gather_binaries, one_result_each, only_failure, result_decodes, result_verified, FetchOutcome, InstallError};
use crate::global::GlobalInfo;
use crate::paths::{join_path, joined};
use crate::registry::File;

verus! {

/// The stages of an install, in order.
#[derive(Clone, Copy, Debug, PartialEq, Eq, Structural)]
pub enum InstallStage {
    NotStarted,
    Matching,
    Downloading,
    InstallingBinaries,
    InstallingLibrary,
    PostInstallBuild,
    RegisteringPath,
    Done,
    Error,
}

/// How the work of a stage ended.
#[derive(Clone, Copy, Debug, PartialEq, Eq, Structural)]
pub enum StageOutcome {
    /// The stage did its work.
    Succeeded,
    /// Matching found the toolchain installed already.
    AlreadyInstalled,
    /// The stage failed.
    Failed,
}

/// The stage after `stage` ended with `outcome`.
pub open spec fn successor(stage: InstallStage, outcome: StageOutcome, force: bool) -> InstallStage {
    match stage {
        InstallStage::NotStarted => InstallStage::Matching,
        InstallStage::Matching => match outcome {
            StageOutcome::Failed => InstallStage::Error,
            StageOutcome::AlreadyInstalled => if force { InstallStage::Downloading } else { InstallStage::Done },
            StageOutcome::Succeeded => InstallStage::Downloading,
        },
        InstallStage::Downloading => if outcome == StageOutcome::Failed { InstallStage::Error } else { InstallStage::InstallingBinaries },
        InstallStage::InstallingBinaries => if outcome == StageOutcome::Failed { InstallStage::Error } else { InstallStage::InstallingLibrary },
        InstallStage::InstallingLibrary => if outcome == StageOutcome::Failed { InstallStage::Error } else { InstallStage::PostInstallBuild },
        InstallStage::PostInstallBuild => if outcome == StageOutcome::Failed { InstallStage::Error } else { InstallStage::RegisteringPath },
        InstallStage::RegisteringPath => InstallStage::Done,
        InstallStage::Done => InstallStage::Done,
        InstallStage::Error => InstallStage::Error,
    }
}

/// The stage that follows when `stage` ends with `outcome`. Matching skips the
/// install when the toolchain is there already, unless forced; a failure of any
/// stage from matching to the post-install build ends in the error state;
/// registering the binaries path is advisory, so the pipeline is done whatever it
/// gives.
pub fn next_stage(stage: InstallStage, outcome: StageOutcome, force: bool) -> (r: InstallStage)
    ensures
        r == successor(stage, outcome, force),
{
    match stage {
        InstallStage::NotStarted => InstallStage::Matching,
        InstallStage::Matching => match outcome {
            StageOutcome::Failed => InstallStage::Error,
            StageOutcome::AlreadyInstalled => if force {
                InstallStage::Downloading
            } else {
                InstallStage::Done
            },
            StageOutcome::Succeeded => InstallStage::Downloading,
        },
        InstallStage::Downloading => if outcome == StageOutcome::Failed {
            InstallStage::Error
        } else {
            InstallStage::InstallingBinaries
        },
        InstallStage::InstallingBinaries => if outcome == StageOutcome::Failed {
            InstallStage::Error
        } else {
            InstallStage::InstallingLibrary
        },
        InstallStage::InstallingLibrary => if outcome == StageOutcome::Failed {
            InstallStage::Error
        } else {
            InstallStage::PostInstallBuild
        },
        InstallStage::PostInstallBuild => if outcome == StageOutcome::Failed {
            InstallStage::Error
        } else {
            InstallStage::RegisteringPath
        },
        InstallStage::RegisteringPath => InstallStage::Done,
        InstallStage::Done => InstallStage::Done,
        InstallStage::Error => InstallStage::Error,
    }
}

/// Whether a stage writes the installation, so that its failures may leave it corrupted.
pub open spec fn writes_installation(stage: InstallStage) -> bool {
    stage == InstallStage::InstallingBinaries || stage == InstallStage::InstallingLibrary
}

/// The note that ends every message of a failed write to the installation.
pub open spec fn corruption_note() -> Seq<char> {
    " (current installation may be corrupted)"@
}

/// An error message as reported for a failure in `stage`: failures while writing
/// the installation carry the corruption note.
pub fn stage_error_message(stage: InstallStage, message: &str) -> (r: String)
    ensures
        writes_installation(stage) ==> r@ == message@ + corruption_note(),
        !writes_installation(stage) ==> r@ == message@,
{
    let mut text = message.to_owned();
    if stage == InstallStage::InstallingBinaries || stage == InstallStage::InstallingLibrary {
        text.append(" (current installation may be corrupted)");
    }
    text
}

/// The mode installed binaries get on Unix-like systems.
pub const BINARY_MODE: u32 = 0o755;

/// One binary to write: its path, its verified content and its mode.
#[derive(Clone, Debug)]
pub struct BinaryWrite {
    pub path: String,
    pub data: Vec<u8>,
    pub mode: u32,
}

/// The binaries directory of an installation.
pub open spec fn bin_dir(info: GlobalInfo) -> Seq<char> {
    joined(info.moonhome@, "bin"@)
}

/// The writes that install the verified binaries of a toolchain: each declared
/// binary, in declaration order, under the binaries directory. Built only when every
/// fetched binary passed its gate, so a late failure never leaves part of a set
/// written.
pub fn binary_writes(info: &GlobalInfo, bin: &Vec<File>, completed: Vec<(usize, FetchOutcome)>) -> (r: Result<Vec<BinaryWrite>, InstallError>)
    ensures
        (exists|k: int| 0 <= k < completed@.len() && !result_verified(bin@, #[trigger] completed@[k])) ==> r is Err,
        one_result_each(bin@.len() as int, completed@)
            && (forall|k: int| 0 <= k < completed@.len() ==> result_verified(bin@, #[trigger] completed@[k])) ==> r is Ok,
        one_result_each(bin@.len() as int, completed@)
            && (forall|k: int| 0 <= k < completed@.len() ==> result_decodes(bin@, #[trigger] completed@[k]))
            ==> (r is Ok || r matches Err(InstallError::ChecksumMismatch { .. })),
        r matches Err(InstallError::ChecksumMismatch { filename }) ==> exists|k: int|
            0 <= k < completed@.len() && (#[trigger] completed@[k]).0 < bin@.len()
                && !result_verified(bin@, completed@[k]) && filename@ == bin@[completed@[k].0 as int].filename@,
        forall|b: int| #![trigger completed@[b]] only_failure(bin@, completed@, b) ==> (r matches Err(InstallError::ChecksumMismatch { filename })
            && filename@ == bin@[completed@[b].0 as int].filename@),
        r matches Ok(writes) ==> {
            &&& writes@.len() == bin@.len()
            &&& forall|i: int| 0 <= i < writes@.len() ==> {
                &&& (#[trigger] writes@[i]).path@ == joined(bin_dir(*info), bin@[i].filename@)
                &&& writes@[i].mode == BINARY_MODE
                &&& fetched_for(completed@, i, writes@[i].data@)
            }
        },
{
    let contents = match gather_binaries(bin, completed) {
        Ok(c) => c,
        Err(e) => {
            return Err(e);
        },
    };
    let dir = join_path(info.moonhome.as_str(), "bin");
    let mut rest = contents;
    let ghost all = rest@;
    let mut writes: Vec<BinaryWrite> = Vec::new();
    let mut i: usize = 0;
    while i < bin.len()
        invariant
            i <= bin@.len(),
            all.len() == bin@.len(),
            dir@ == bin_dir(*info),
            rest@ == all.subrange(i as int, all.len() as int),
            forall|m: int| 0 <= m < bin@.len() ==> fetched_for(completed@, m, (#[trigger] all[m])@),
            writes@.len() == i,
            forall|m: int| 0 <= m < i ==> {
                &&& (#[trigger] writes@[m]).path@ == joined(bin_dir(*info), bin@[m].filename@)
                &&& writes@[m].mode == BINARY_MODE
                &&& fetched_for(completed@, m, writes@[m].data@)
            },
        decreases bin@.len() - i,
    {
        let data = rest.remove(0);
        proof {
            assert(data == all[i as int]);
            assert(rest@ =~= all.subrange(i + 1, all.len() as int));
        }
        let path = join_path(dir.as_str(), bin[i].filename.as_str());
        writes.push(BinaryWrite { path, data, mode: BINARY_MODE });
        i = i + 1;
    }
    Ok(writes)
}

} // verus!
