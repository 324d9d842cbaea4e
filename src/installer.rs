//! Installer generations, and the version matcher that decides whether the
//! installed binaries already are a given toolchain.

use vstd::prelude::*;

use crate::checksum::{digest_matches, fingerprint_of, is_supported, is_supported_checksum, sha256_of};
use crate::registry::{File, Toolchain};

verus! {

/// What reading one installed binary gave.
#[derive(Clone, Debug)]
pub enum LocalBinary {
    /// No such file.
    Missing,
    /// The file exists but could not be read.
    Unreadable,
    /// The file's content.
    Present(Vec<u8>),
}

/// Why a toolchain could not be compared with the installed binaries.
#[derive(Clone, Debug, PartialEq, Eq)]
pub enum MatchError {
    /// The registry declares a checksum of an unsupported algorithm for this file.
    InvalidChecksum { filename: String },
    /// The installed file exists but reading it failed.
    ReadFailed { filename: String },
}

/// Why no installer could be chosen.
#[derive(Clone, Debug, PartialEq, Eq)]
pub enum InstallerError {
    /// The registry names an installer generation this version does not know.
    UnknownInstaller { name: String },
}

/// Whether installed content has the declared fingerprint.
pub open spec fn binary_matches(declared: Seq<char>, local: LocalBinary) -> bool {
    match local {
        LocalBinary::Present(data) => declared == fingerprint_of(sha256_of(data@)),
        _ => false,
    }
}

/// The outcome of comparing binaries `i..` of a toolchain with what was read
/// locally, checking one file at a time and stopping at the first that decides.
pub open spec fn match_from(bin: Seq<File>, local: Seq<LocalBinary>, i: int) -> Result<bool, MatchError>
    decreases bin.len() - i,
{
    if i < 0 || i >= bin.len() {
        Ok(true)
    } else if !is_supported_checksum(bin[i].checksum@) {
        Err(MatchError::InvalidChecksum { filename: bin[i].filename })
    } else {
        match local[i] {
            LocalBinary::Missing => Ok(false),
            LocalBinary::Unreadable => Err(MatchError::ReadFailed { filename: bin[i].filename }),
            LocalBinary::Present(data) => {
                if bin[i].checksum@ == fingerprint_of(sha256_of(data@)) {
                    match_from(bin, local, i + 1)
                } else {
                    Ok(false)
                }
            },
        }
    }
}

/// The outcome of comparing all binaries of a toolchain with what was read locally.
pub open spec fn match_result(bin: Seq<File>, local: Seq<LocalBinary>) -> Result<bool, MatchError> {
    match_from(bin, local, 0)
}

/// Compares the declared binaries with the local read outcomes, `local[i]` being
/// what reading `bin/<bin[i].filename>` gave.
pub fn match_binaries(bin: &Vec<File>, local: &Vec<LocalBinary>) -> (r: Result<bool, MatchError>)
    requires
        local@.len() == bin@.len(),
    ensures
        r == match_result(bin@, local@),
{
    let mut i: usize = 0;
    while i < bin.len()
        invariant
            i <= bin@.len(),
            local@.len() == bin@.len(),
            match_result(bin@, local@) == match_from(bin@, local@, i as int),
        decreases bin@.len() - i,
    {
        let f = &bin[i];
        if !is_supported(&f.checksum) {
            return Err(MatchError::InvalidChecksum { filename: f.filename.clone() });
        }
        match &local[i] {
            LocalBinary::Missing => {
                return Ok(false);
            },
            LocalBinary::Unreadable => {
                return Err(MatchError::ReadFailed { filename: f.filename.clone() });
            },
            LocalBinary::Present(data) => {
                let d = crate::checksum::sha256_digest(data.as_slice());
                if !digest_matches(d.as_slice(), &f.checksum) {
                    return Ok(false);
                }
            },
        }
        i = i + 1;
    }
    Ok(true)
}

/// A toolchain is installed exactly when every declared binary is present locally
/// with the declared fingerprint; a missing binary gives `false`, never an error,
/// as long as every declared checksum is supported and no present file failed to read.
pub proof fn lemma_match_iff_all_present(bin: Seq<File>, local: Seq<LocalBinary>)
    requires
        local.len() == bin.len(),
        forall|i: int| 0 <= i < bin.len() ==> is_supported_checksum(#[trigger] bin[i].checksum@),
        forall|i: int| 0 <= i < local.len() ==> !(#[trigger] local[i] is Unreadable),
    ensures
        match_result(bin, local) is Ok,
        match_result(bin, local) == Ok::<bool, MatchError>(true) <==> forall|i: int|
            0 <= i < bin.len() ==> binary_matches(bin[i].checksum@, #[trigger] local[i]),
{
    lemma_match_from(bin, local, 0);
}

proof fn lemma_match_from(bin: Seq<File>, local: Seq<LocalBinary>, k: int)
    requires
        0 <= k <= bin.len(),
        local.len() == bin.len(),
        forall|i: int| 0 <= i < bin.len() ==> is_supported_checksum(#[trigger] bin[i].checksum@),
        forall|i: int| 0 <= i < local.len() ==> !(#[trigger] local[i] is Unreadable),
    ensures
        match_from(bin, local, k) is Ok,
        match_from(bin, local, k) == Ok::<bool, MatchError>(true) <==> forall|i: int|
            k <= i < bin.len() ==> binary_matches(bin[i].checksum@, #[trigger] local[i]),
    decreases bin.len() - k,
{
    if k < bin.len() {
        lemma_match_from(bin, local, k + 1);
        assert(is_supported_checksum(bin[k].checksum@));
        assert(!(local[k] is Unreadable));
    }
}

/// The installer of the toolchains published since the first registry format.
pub struct InstInitial();

impl InstInitial {
    pub fn new() -> (r: Self) {
        InstInitial()
    }
}

/// What an installer generation does for the toolchains that name it.
pub trait Installer {
    /// Whether the installed binaries already are `toolchain`, given what reading
    /// each of its declared binaries gave.
    fn matches(&self, toolchain: &Toolchain, local: &Vec<LocalBinary>) -> (r: Result<bool, MatchError>)
        requires
            local@.len() == toolchain.bin@.len(),
        ensures
            r == match_result(toolchain.bin@, local@),
    ;
}

impl Installer for InstInitial {
    fn matches(&self, toolchain: &Toolchain, local: &Vec<LocalBinary>) -> (r: Result<bool, MatchError>) {
        match_binaries(&toolchain.bin, local)
    }
}

/// Whether an installer name denotes the first installer generation.
pub open spec fn is_initial_installer(name: Seq<char>) -> bool {
    name == seq!['i', 'n', 'i', 't', 'i', 'a', 'l']
        || name == seq!['2', '0', '2', '4', '-', '0', '5', '-', '0', '7']
}

/// Chooses the installer generation that a registry entry names.
pub fn get_installer(name: &str) -> (r: Result<InstInitial, InstallerError>)
    ensures
        r is Ok <==> is_initial_installer(name@),
        r matches Err(InstallerError::UnknownInstaller { name: n }) ==> n@ == name@,
{
    proof {
        reveal_strlit("initial");
        reveal_strlit("2024-05-07");
        assert("initial"@ =~= seq!['i', 'n', 'i', 't', 'i', 'a', 'l']);
        assert("2024-05-07"@ =~= seq!['2', '0', '2', '4', '-', '0', '5', '-', '0', '7']);
    }
    let owned = name.to_owned();
    if owned == "initial".to_owned() || owned == "2024-05-07".to_owned() {
        Ok(InstInitial::new())
    } else {
        Err(InstallerError::UnknownInstaller { name: owned })
    }
}

} // verus!
