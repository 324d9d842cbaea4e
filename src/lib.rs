//! Version manager core for a compiler toolchain: version matching by content
//! fingerprint, checksum-gated downloads, archive packing and unpacking of the
//! bundled library, and named backups of that library.

pub mod archive;
pub mod backup;
pub mod checksum;
pub mod cmdline;
pub mod download;
pub mod global;
pub mod installer;
pub mod paths;
pub mod pipeline;
pub mod registry;
pub mod shell;
pub mod toolchain;
pub mod zipio;
