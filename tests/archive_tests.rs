use std::io::{Cursor, Write};

use multimoon::archive::{
    archive, extract, extract_plan, extract_verbose, lookup_times, open_archive_bytes, pack_to_bytes, progress_note, resolve_name,
    timestamp_from_zipfile, ArchiveError, ExtractOp, ExtractOptions, Progress, SourceEntry, SourceKind,
};
use multimoon::zipio::{ZipDateTime, ZipEntry};

fn dir(path: &str) -> SourceEntry {
    SourceEntry { path: path.to_string(), kind: SourceKind::Dir, mode: Some(0o755), data: vec![] }
}

fn file(path: &str, data: &[u8], mode: u32) -> SourceEntry {
    SourceEntry { path: path.to_string(), kind: SourceKind::File, mode: Some(mode), data: data.to_vec() }
}

fn library(manifest: &[u8]) -> Vec<SourceEntry> {
    vec![
        dir("core"),
        dir("core/builtin"),
        file("core/builtin/array.mbt", b"fn main {}", 0o644),
        file("core/moon.mod.json", manifest, 0o644),
        file("core/run.sh", b"#!/bin/sh\n", 0o755),
        dir("core/target"),
        file("core/target/cache.bin", b"cache", 0o644),
        dir("core/targets"),
    ]
}

fn entry(name: &str, data: &[u8]) -> ZipEntry {
    ZipEntry { name: name.to_string(), data: data.to_vec(), unix_mode: None, modified: None }
}

fn options() -> ExtractOptions {
    ExtractOptions { fallback_timestamp: 1_700_000_000 }
}

fn writes(ops: &[ExtractOp]) -> Vec<(String, Vec<u8>, Option<u32>)> {
    ops.iter()
        .filter_map(|op| match op {
            ExtractOp::WriteFile { path, data, mode } => Some((path.clone(), data.clone(), *mode)),
            ExtractOp::CreateDir { .. } => None,
        })
        .collect()
}

fn dirs(ops: &[ExtractOp]) -> Vec<String> {
    ops.iter()
        .filter_map(|op| match op {
            ExtractOp::CreateDir { path, .. } => Some(path.clone()),
            ExtractOp::WriteFile { .. } => None,
        })
        .collect()
}

#[test]
fn pack_then_unpack_restores_files_and_permissions() {
    let mut a = archive(&library(b"{\"name\":\"core\"}")).unwrap();
    let plan = extract_verbose(&mut a, &options()).unwrap();
    let files = writes(&plan.ops);
    assert_eq!(files.len(), 3);
    assert_eq!(files[0].0, "core/builtin/array.mbt");
    assert_eq!(files[0].1, b"fn main {}".to_vec());
    assert_eq!(files[1].0, "core/moon.mod.json");
    assert_eq!(files[1].1, b"{\"name\":\"core\"}".to_vec());
    assert_eq!(files[2].0, "core/run.sh");
    assert_eq!(files[2].2.map(|m| m & 0o777), Some(0o755));
    assert_eq!(files[0].2.map(|m| m & 0o777), Some(0o644));
    assert_eq!(dirs(&plan.ops), vec!["core".to_string(), "core/builtin".to_string(), "core/targets".to_string()]);
}

#[test]
fn cache_directory_is_never_archived() {
    let mut a = archive(&library(b"{}")).unwrap();
    let plan = extract_verbose(&mut a, &options()).unwrap();
    for op in &plan.ops {
        let path = match op {
            ExtractOp::CreateDir { path, .. } => path,
            ExtractOp::WriteFile { path, .. } => path,
        };
        assert!(path != "core/target" && !path.starts_with("core/target/"));
    }
    assert_eq!(plan.ops.len(), 6);
}

#[test]
fn missing_manifest_is_refused() {
    let sources = vec![dir("core"), file("core/a.mbt", b"x", 0o644)];
    assert!(matches!(archive(&sources), Err(ArchiveError::MissingManifest)));
    assert!(matches!(pack_to_bytes(&sources), Err(ArchiveError::MissingManifest)));
}

#[test]
fn missing_core_is_refused() {
    let sources = vec![file("core/moon.mod.json", b"{}", 0o644)];
    assert!(matches!(archive(&sources), Err(ArchiveError::MissingCore)));
}

#[test]
fn restoring_a_backup_brings_back_its_manifest() {
    let v1 = pack_to_bytes(&library(b"version one")).unwrap();
    let _installed_later = pack_to_bytes(&library(b"version two")).unwrap();
    let mut a = open_archive_bytes(v1).unwrap();
    let plan = extract(&mut a).unwrap();
    let manifest = writes(&plan.ops).into_iter().find(|w| w.0 == "core/moon.mod.json").unwrap();
    assert_eq!(manifest.1, b"version one".to_vec());
}

#[test]
fn garbage_bytes_are_not_an_archive() {
    assert!(matches!(open_archive_bytes(b"not a zip".to_vec()), Err(ArchiveError::Zip(_))));
}

#[test]
fn traversal_entry_fails_the_whole_plan() {
    let entries = vec![entry("core/a.txt", b"a"), entry("core/../../evil", b"x")];
    match extract_plan(&entries, &lookup_times(&entries), &options()) {
        Err(ArchiveError::OutsideTarget { path }) => assert_eq!(path, "core/../../evil"),
        other => panic!("unexpected {:?}", other.map(|p| p.ops.len())),
    }
}

#[test]
fn entries_outside_core_are_refused() {
    for name in ["../x", "/etc/passwd", "lib/x", "core/../lib/x", "coreutils/x", "c:/core/x", "", "./"] {
        let entries = vec![entry(name, b"x")];
        assert!(matches!(extract_plan(&entries, &lookup_times(&entries), &options()), Err(ArchiveError::OutsideTarget { .. })), "{}", name);
    }
}

#[test]
fn entry_names_are_normalized() {
    let entries = vec![entry("core/./a/../b.txt", b"b"), entry("core//c/", b""), entry("core\\d.txt", b"d")];
    let plan = extract_plan(&entries, &lookup_times(&entries), &options()).unwrap();
    assert_eq!(writes(&plan.ops)[0].0, "core/b.txt");
    assert_eq!(dirs(&plan.ops), vec!["core/c".to_string()]);
    assert_eq!(writes(&plan.ops)[1].0, "core/d.txt");
    let comps = resolve_name("core/x/../y").unwrap();
    assert_eq!(comps, vec![vec!['c', 'o', 'r', 'e'], vec!['y']]);
    assert!(resolve_name("core/../../y").is_none());
}

#[test]
fn times_are_set_on_files_before_directories() {
    let stamp = ZipDateTime { year: 2024, month: 5, day: 7, hour: 8, minute: 9, second: 10 };
    let entries = vec![
        ZipEntry { name: "core/".to_string(), data: vec![], unix_mode: None, modified: None },
        ZipEntry { name: "core/a.txt".to_string(), data: b"a".to_vec(), unix_mode: None, modified: Some(stamp) },
        ZipEntry { name: "core/sub/".to_string(), data: vec![], unix_mode: None, modified: None },
        ZipEntry { name: "core/sub/b.txt".to_string(), data: b"b".to_vec(), unix_mode: None, modified: None },
    ];
    let plan = extract_plan(&entries, &lookup_times(&entries), &options()).unwrap();
    let order: Vec<&str> = plan.times.iter().map(|t| t.0.as_str()).collect();
    assert_eq!(order, vec!["core/a.txt", "core/sub/b.txt", "core", "core/sub"]);
    assert_eq!(plan.times[1].1, 1_700_000_000);
    assert_eq!(plan.times[2].1, 1_700_000_000);
    assert_ne!(plan.times[0].1, 1_700_000_000);
}

#[test]
fn invalid_entry_time_falls_back() {
    let bad = ZipDateTime { year: 2024, month: 13, day: 40, hour: 25, minute: 0, second: 0 };
    let entries = vec![ZipEntry { name: "core/a".to_string(), data: vec![], unix_mode: None, modified: Some(bad) }];
    let plan = extract_plan(&entries, &lookup_times(&entries), &options()).unwrap();
    assert_eq!(plan.times[0].1, 1_700_000_000);
}

#[test]
fn archive_built_elsewhere_with_traversal_is_rejected() {
    let mut w = zip::ZipWriter::new(Cursor::new(Vec::new()));
    let opts = zip::write::SimpleFileOptions::default();
    w.start_file("core/ok.txt", opts).unwrap();
    w.write_all(b"ok").unwrap();
    w.start_file("core/../../../tmp/evil", opts).unwrap();
    w.write_all(b"evil").unwrap();
    let bytes = w.finish().unwrap().into_inner();
    let mut a = open_archive_bytes(bytes).unwrap();
    assert!(matches!(extract_verbose(&mut a, &options()), Err(ArchiveError::OutsideTarget { .. })));
}

#[test]
fn zip_times_read_as_local_time_or_fallback() {
    assert_eq!(timestamp_from_zipfile(None, 42), 42);
    let bad = ZipDateTime { year: 2024, month: 2, day: 30, hour: 0, minute: 0, second: 0 };
    assert_eq!(timestamp_from_zipfile(Some(bad), 42), 42);
    let good = ZipDateTime { year: 2024, month: 2, day: 29, hour: 12, minute: 0, second: 0 };
    let secs = timestamp_from_zipfile(Some(good), 42);
    assert!((secs - 1_709_208_000).abs() <= 14 * 3600);
}

#[test]
fn progress_names_first_five_then_one_note() {
    assert_eq!(progress_note(0, false), Progress::Name);
    assert_eq!(progress_note(4, false), Progress::Name);
    assert_eq!(progress_note(5, false), Progress::Omitted);
    assert_eq!(progress_note(6, false), Progress::Quiet);
    assert_eq!(progress_note(100, true), Progress::Name);
}

#[test]
fn directory_modes_survive_pack_and_unpack() {
    let mut a = archive(&library(b"{}")).unwrap();
    let plan = extract_verbose(&mut a, &options()).unwrap();
    for op in &plan.ops {
        if let ExtractOp::CreateDir { mode, .. } = op {
            assert_eq!(mode.map(|m| m & 0o777), Some(0o755));
        }
    }
}

#[test]
fn duplicate_walk_paths_are_refused_by_the_writer() {
    let sources = vec![dir("core"), file("core/moon.mod.json", b"{}", 0o644), file("core/moon.mod.json", b"{}", 0o644)];
    assert!(matches!(archive(&sources), Err(ArchiveError::Zip(_))));
}

#[test]
fn planned_times_are_the_looked_up_times() {
    let entries = vec![
        ZipEntry { name: "core/".to_string(), data: vec![], unix_mode: None, modified: None },
        ZipEntry { name: "core/a.txt".to_string(), data: b"a".to_vec(), unix_mode: None, modified: None },
    ];
    let plan = extract_plan(&entries, &vec![Some(111), Some(222)], &options()).unwrap();
    assert_eq!(plan.times, vec![("core/a.txt".to_string(), 222), ("core".to_string(), 111)]);
    let plan = extract_plan(&entries, &vec![None, Some(222)], &options()).unwrap();
    assert_eq!(plan.times[1].1, 1_700_000_000);
}

#[test]
fn over_long_paths_are_refused() {
    let long = format!("core/{}", "x".repeat(16001));
    let sources = vec![dir("core"), file("core/moon.mod.json", b"{}", 0o644), file(&long, b"x", 0o644)];
    match archive(&sources) {
        Err(ArchiveError::PathTooLong { path }) => assert_eq!(path, long),
        other => panic!("unexpected {:?}", other.map(|_| ())),
    }
}
