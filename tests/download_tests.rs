use std::io::Write;

use multimoon::checksum::digest;
use multimoon::download::{
    binary_urls, core_url, gather_binaries, registry_url, verify_binary, verify_core, FetchOutcome, InstallError,
};
use multimoon::global::GlobalInfo;
use multimoon::pipeline::{binary_writes, BINARY_MODE};
use multimoon::registry::{File, Registry, Toolchain};

fn xz(data: &[u8]) -> Vec<u8> {
    let mut enc = xz2::write::XzEncoder::new(Vec::new(), 6);
    enc.write_all(data).unwrap();
    enc.finish().unwrap()
}

fn file(name: &str, content: &[u8]) -> File {
    File { filename: name.to_string(), downloadfrom: format!("{}.xz", name), checksum: digest(content) }
}

fn toolchain(bin: Vec<File>, core: Vec<File>) -> Toolchain {
    Toolchain {
        name: "nightly-2024-05-07".to_string(),
        moonver: "0.1".to_string(),
        last_modified: 1,
        bin,
        core,
        installer: "initial".to_string(),
    }
}

fn registry() -> Registry {
    Registry { toolchains: vec![], last_modified: 0, downloadfrom: "https://dl.example.com/moon/".to_string() }
}

fn info() -> GlobalInfo {
    GlobalInfo {
        home: "/h".to_string(),
        moonhome: "/h/.moon".to_string(),
        multimoonhome: "/h/.multimoon".to_string(),
        registry: "https://example.com/".to_string(),
        verbose: false,
    }
}

#[test]
fn download_locations() {
    let t = toolchain(vec![file("moon", b"m"), file("moonc", b"c")], vec![file("core.zip", b"z")]);
    let urls = binary_urls(&registry(), &t, "ubuntu_amd64").unwrap();
    assert_eq!(
        urls,
        vec![
            "https://dl.example.com/moon/nightly-2024-05-07/ubuntu_amd64/moon.xz".to_string(),
            "https://dl.example.com/moon/nightly-2024-05-07/ubuntu_amd64/moonc.xz".to_string(),
        ]
    );
    assert_eq!(
        core_url(&registry(), &t).unwrap(),
        "https://dl.example.com/moon/nightly-2024-05-07/multiarch/core.zip.xz"
    );
    assert_eq!(registry_url("https://multimoon.lopt.dev/", "ubuntu_amd64").unwrap(), "https://multimoon.lopt.dev/ubuntu_amd64/");
}

#[test]
fn missing_bundle_and_bad_url() {
    let t = toolchain(vec![], vec![]);
    assert!(matches!(core_url(&registry(), &t), Err(InstallError::MissingCore)));
    let bad = Registry { toolchains: vec![], last_modified: 0, downloadfrom: "not a url".to_string() };
    assert!(matches!(binary_urls(&bad, &t, "ubuntu_amd64"), Err(InstallError::Url(_))));
}

#[test]
fn verified_binary_is_decompressed() {
    let f = file("moon", b"the binary");
    assert_eq!(verify_binary(&f, FetchOutcome::Fetched(xz(b"the binary"))).unwrap(), b"the binary".to_vec());
}

#[test]
fn tampered_binary_is_refused() {
    let f = file("moon", b"the binary");
    match verify_binary(&f, FetchOutcome::Fetched(xz(b"tampered"))) {
        Err(InstallError::ChecksumMismatch { filename }) => assert_eq!(filename, "moon"),
        other => panic!("unexpected {:?}", other),
    }
    assert!(matches!(
        verify_binary(&f, FetchOutcome::Fetched(b"plain".to_vec())),
        Err(InstallError::Decompress { .. })
    ));
    assert!(matches!(verify_binary(&f, FetchOutcome::Failed("404".to_string())), Err(InstallError::Network { .. })));
}

#[test]
fn all_binaries_gathered_in_declaration_order() {
    let bin = vec![file("moon", b"one"), file("moonc", b"two")];
    let completed = vec![(1, FetchOutcome::Fetched(xz(b"two"))), (0, FetchOutcome::Fetched(xz(b"one")))];
    assert_eq!(gather_binaries(&bin, completed).unwrap(), vec![b"one".to_vec(), b"two".to_vec()]);
}

#[test]
fn one_bad_checksum_blocks_every_binary() {
    let bin = vec![file("moon", b"one"), file("moonc", b"two"), file("mooncake", b"three")];
    let completed = vec![
        (0, FetchOutcome::Fetched(xz(b"one"))),
        (2, FetchOutcome::Fetched(xz(b"evil"))),
        (1, FetchOutcome::Fetched(xz(b"two"))),
    ];
    assert!(matches!(binary_writes(&info(), &bin, completed), Err(InstallError::ChecksumMismatch { .. })));
}

#[test]
fn first_failure_in_completion_order_is_reported() {
    let bin = vec![file("moon", b"one"), file("moonc", b"two")];
    let completed = vec![(1, FetchOutcome::Failed("timeout".to_string())), (0, FetchOutcome::Fetched(xz(b"bad")))];
    assert!(matches!(gather_binaries(&bin, completed), Err(InstallError::Network { .. })));
}

#[test]
fn results_must_cover_each_binary_once() {
    let bin = vec![file("moon", b"one"), file("moonc", b"two")];
    let dup = vec![(0, FetchOutcome::Fetched(xz(b"one"))), (0, FetchOutcome::Fetched(xz(b"one")))];
    assert!(matches!(gather_binaries(&bin, dup), Err(InstallError::TaskMismatch)));
    let short = vec![(0, FetchOutcome::Fetched(xz(b"one")))];
    assert!(matches!(gather_binaries(&bin, short), Err(InstallError::TaskMismatch)));
    let out_of_range = vec![(0, FetchOutcome::Fetched(xz(b"one"))), (5, FetchOutcome::Fetched(xz(b"two")))];
    assert!(matches!(gather_binaries(&bin, out_of_range), Err(InstallError::TaskMismatch)));
}

#[test]
fn binary_writes_go_to_bin_directory_as_executables() {
    let bin = vec![file("moon", b"one"), file("moonc", b"two")];
    let completed = vec![(0, FetchOutcome::Fetched(xz(b"one"))), (1, FetchOutcome::Fetched(xz(b"two")))];
    let w = binary_writes(&info(), &bin, completed).unwrap();
    assert_eq!(w.len(), 2);
    assert_eq!(w[0].path, "/h/.moon/bin/moon");
    assert_eq!(w[1].path, "/h/.moon/bin/moonc");
    assert_eq!(w[1].data, b"two".to_vec());
    assert_eq!(w[0].mode, BINARY_MODE);
}

#[test]
fn bundle_checked_on_transferred_bytes() {
    let mut zw = zip::ZipWriter::new(std::io::Cursor::new(Vec::new()));
    zw.start_file("core/moon.mod.json", zip::write::SimpleFileOptions::default()).unwrap();
    zw.write_all(b"{}").unwrap();
    let zip_bytes = zw.finish().unwrap().into_inner();
    let core = File { filename: "core.zip".to_string(), downloadfrom: "core.zip".to_string(), checksum: digest(&zip_bytes) };
    let t = toolchain(vec![], vec![core]);
    assert!(verify_core(&t, FetchOutcome::Fetched(zip_bytes.clone())).is_ok());
    let mut other = zip_bytes.clone();
    other.push(0);
    assert!(matches!(verify_core(&t, FetchOutcome::Fetched(other)), Err(InstallError::ChecksumMismatch { .. })));
    assert!(matches!(verify_core(&toolchain(vec![], vec![]), FetchOutcome::Fetched(zip_bytes)), Err(InstallError::MissingCore)));
}

#[test]
fn unsupported_checksum_algorithm_is_a_registry_error() {
    let f = File { filename: "moon".to_string(), downloadfrom: "moon.xz".to_string(), checksum: "md5:abc".to_string() };
    assert!(matches!(
        verify_binary(&f, FetchOutcome::Fetched(xz(b"x"))),
        Err(InstallError::InvalidChecksum { .. })
    ));
    let t = toolchain(vec![], vec![f]);
    assert!(matches!(verify_core(&t, FetchOutcome::Fetched(b"x".to_vec())), Err(InstallError::InvalidChecksum { .. })));
}
