use multimoon::backup::{
    backup_file_name, backup_name, backup_path, choose_backup_name, ends_with_zip, list, normalize_backup_name,
    timestamp_name, DirEntryInfo, LocalDateTime,
};
use multimoon::archive::{ArchiveError, SourceEntry, SourceKind};
use multimoon::backup::BackupError;
use multimoon::global::GlobalInfo;

fn at(year: i32, month: u32, day: u32, hour: u32, minute: u32, second: u32) -> LocalDateTime {
    LocalDateTime { year, month, day, hour, minute, second }
}

fn entry(name: &str, is_file: bool, modified: Option<i64>) -> DirEntryInfo {
    DirEntryInfo { file_name: name.to_string(), is_file, modified }
}

#[test]
fn names_lose_one_zip_suffix() {
    assert_eq!(normalize_backup_name("v1.zip"), "v1");
    assert_eq!(normalize_backup_name("v1"), "v1");
    assert_eq!(normalize_backup_name("v1.zip.zip"), "v1.zip");
    assert_eq!(normalize_backup_name(".zip"), "");
    assert_eq!(normalize_backup_name("zip"), "zip");
    assert!(ends_with_zip("a.zip"));
    assert!(!ends_with_zip("a.ZIP"));
}

#[test]
fn explicit_name_with_suffix_is_not_doubled() {
    assert_eq!(backup_file_name("v1.zip"), "v1.zip");
    assert_eq!(backup_file_name("v1"), "v1.zip");
    assert_eq!(choose_backup_name(Some("v1.zip"), &at(2024, 1, 1, 0, 0, 0)), "v1");
    assert_eq!(backup_name(Some("v1.zip"), &at(2024, 1, 1, 0, 0, 0)), Some("v1".to_string()));
}

#[test]
fn backup_path_under_backups_directory() {
    let info = GlobalInfo {
        home: "/h".to_string(),
        moonhome: "/h/.moon".to_string(),
        multimoonhome: "/h/.multimoon".to_string(),
        registry: "https://example.com/".to_string(),
        verbose: false,
    };
    assert_eq!(backup_path(&info, "v1"), "/h/.multimoon/core-backups/v1.zip");
    assert_eq!(backup_path(&info, "v1.zip"), "/h/.multimoon/core-backups/v1.zip");
}

#[test]
fn timestamp_names_are_zero_padded() {
    assert_eq!(timestamp_name(&at(2024, 5, 7, 8, 9, 10)), "20240507-080910");
    assert_eq!(timestamp_name(&at(999, 12, 31, 23, 59, 59)), "09991231-235959");
    assert_eq!(choose_backup_name(None, &at(2024, 5, 7, 8, 9, 10)), "20240507-080910");
}

#[test]
fn later_backups_get_larger_distinct_names() {
    let first = timestamp_name(&at(2024, 5, 7, 8, 9, 10));
    let second = timestamp_name(&at(2024, 5, 7, 8, 9, 11));
    let third = timestamp_name(&at(2024, 12, 1, 0, 0, 0));
    assert!(first < second);
    assert!(second < third);
}

#[test]
fn default_name_is_the_stamp_of_a_calendar_time() {
    assert_eq!(backup_name(None, &at(2024, 5, 7, 8, 9, 10)), Some("20240507-080910".to_string()));
    assert_eq!(backup_name(None, &at(12024, 5, 7, 8, 9, 10)), None);
    assert_eq!(backup_name(None, &at(2024, 13, 7, 8, 9, 10)), None);
}

#[test]
fn listing_orders_by_time_and_keeps_only_zip_files() {
    let entries = vec![
        entry("b.zip", true, Some(300)),
        entry("notes.txt", true, Some(50)),
        entry("a.zip", true, Some(100)),
        entry("dir.zip", false, Some(10)),
        entry("c.zip", true, Some(200)),
    ];
    assert_eq!(list(&entries), vec!["a".to_string(), "c".to_string(), "b".to_string()]);
}

#[test]
fn listing_keeps_directory_order_for_equal_times_and_reads_missing_time_as_zero() {
    let entries = vec![
        entry("x.zip", true, Some(5)),
        entry("y.zip", true, Some(5)),
        entry("z.zip", true, None),
    ];
    assert_eq!(list(&entries), vec!["z".to_string(), "x".to_string(), "y".to_string()]);
}

#[test]
fn empty_listing() {
    assert!(list(&vec![]).is_empty());
}

fn source_tree(manifest: &[u8]) -> Vec<SourceEntry> {
    vec![
        SourceEntry { path: "core".to_string(), kind: SourceKind::Dir, mode: None, data: vec![] },
        SourceEntry { path: "core/moon.mod.json".to_string(), kind: SourceKind::File, mode: None, data: manifest.to_vec() },
    ]
}

fn home_info() -> GlobalInfo {
    GlobalInfo {
        home: "/h".to_string(),
        moonhome: "/h/.moon".to_string(),
        multimoonhome: "/h/.multimoon".to_string(),
        registry: "https://example.com/".to_string(),
        verbose: false,
    }
}

#[test]
fn backup_with_explicit_name() {
    let made = multimoon::backup::backup(&home_info(), Some("v1.zip"), &at(2024, 1, 1, 0, 0, 0), &source_tree(b"{}")).unwrap();
    assert_eq!(made.name, "v1");
    assert_eq!(made.path, "/h/.multimoon/core-backups/v1.zip");
    assert!(!made.bytes.is_empty());
    let doubled = multimoon::backup::backup(&home_info(), Some("a.zip.zip"), &at(2024, 1, 1, 0, 0, 0), &source_tree(b"{}")).unwrap();
    assert_eq!(doubled.path, "/h/.multimoon/core-backups/a.zip.zip");
}

#[test]
fn backup_without_name_uses_time_stamp() {
    let made = multimoon::backup::backup(&home_info(), None, &at(2024, 5, 7, 8, 9, 10), &source_tree(b"{}")).unwrap();
    assert_eq!(made.name, "20240507-080910");
    assert_eq!(made.path, "/h/.multimoon/core-backups/20240507-080910.zip");
    let later = multimoon::backup::backup(&home_info(), None, &at(2024, 5, 7, 8, 9, 11), &source_tree(b"{}")).unwrap();
    assert!(made.name < later.name);
}

#[test]
fn backup_of_tree_without_manifest_fails() {
    let tree = vec![SourceEntry { path: "core".to_string(), kind: SourceKind::Dir, mode: None, data: vec![] }];
    assert!(matches!(
        multimoon::backup::backup(&home_info(), Some("v1"), &at(2024, 1, 1, 0, 0, 0), &tree),
        Err(BackupError::Archive(ArchiveError::MissingManifest))
    ));
}

#[test]
fn restore_brings_back_backed_up_manifest() {
    let v1 = multimoon::backup::backup(&home_info(), Some("v1"), &at(2024, 1, 1, 0, 0, 0), &source_tree(b"v1 manifest")).unwrap();
    let _x = multimoon::backup::backup(&home_info(), Some("x"), &at(2024, 1, 1, 0, 0, 0), &source_tree(b"x manifest")).unwrap();
    let plan = multimoon::backup::restore(v1.bytes).unwrap();
    let found = plan.ops.iter().any(|op| match op {
        multimoon::archive::ExtractOp::WriteFile { path, data, .. } => path == "core/moon.mod.json" && data == b"v1 manifest",
        _ => false,
    });
    assert!(found);
    assert!(matches!(multimoon::backup::restore(b"junk".to_vec()), Err(ArchiveError::Zip(_))));
}
