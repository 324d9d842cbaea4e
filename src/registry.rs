//! The registry document: toolchains on offer and where to download them.

use vstd::prelude::*;

verus! {

/// A decoded registry document.
#[derive(Clone, Debug)]
pub struct Registry {
    pub toolchains: Vec<Toolchain>,
    pub last_modified: i64,
    pub downloadfrom: String,
}

/// One toolchain on offer: its binaries and its library bundles.
#[derive(Clone, Debug)]
pub struct Toolchain {
    pub name: String,
    pub moonver: String,
    pub last_modified: i64,
    pub bin: Vec<File>,
    pub core: Vec<File>,
    pub installer: String,
}

/// One downloadable file: local name, relative download path, declared checksum.
#[derive(Clone, Debug)]
pub struct File {
    pub filename: String,
    pub downloadfrom: String,
    pub checksum: String,
}

} // verus!
