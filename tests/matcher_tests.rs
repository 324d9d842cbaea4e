use multimoon::checksum::digest;
use multimoon::installer::{get_installer, match_binaries, InstallerError, Installer, InstInitial, LocalBinary, MatchError};
use multimoon::registry::{File, Toolchain};

fn file(name: &str, checksum: &str) -> File {
    File { filename: name.to_string(), downloadfrom: format!("{}.xz", name), checksum: checksum.to_string() }
}

fn toolchain(bin: Vec<File>) -> Toolchain {
    Toolchain {
        name: "v1".to_string(),
        moonver: "0.1".to_string(),
        last_modified: 10,
        bin,
        core: vec![],
        installer: "initial".to_string(),
    }
}

#[test]
fn all_present_and_matching() {
    let bin = vec![file("moon", &digest(b"moon-bin")), file("moonc", &digest(b"moonc-bin"))];
    let local = vec![LocalBinary::Present(b"moon-bin".to_vec()), LocalBinary::Present(b"moonc-bin".to_vec())];
    assert_eq!(match_binaries(&bin, &local), Ok(true));
}

#[test]
fn a_missing_binary_is_no_match_not_an_error() {
    let bin = vec![file("moon", &digest(b"moon-bin")), file("moonc", &digest(b"moonc-bin"))];
    let local = vec![LocalBinary::Present(b"moon-bin".to_vec()), LocalBinary::Missing];
    assert_eq!(match_binaries(&bin, &local), Ok(false));
}

#[test]
fn a_changed_binary_is_no_match() {
    let bin = vec![file("moon", &digest(b"moon-bin"))];
    let local = vec![LocalBinary::Present(b"other".to_vec())];
    assert_eq!(match_binaries(&bin, &local), Ok(false));
}

#[test]
fn unsupported_checksum_is_a_registry_error() {
    let bin = vec![file("moon", "md5:00")];
    let local = vec![LocalBinary::Present(b"x".to_vec())];
    assert_eq!(match_binaries(&bin, &local), Err(MatchError::InvalidChecksum { filename: "moon".to_string() }));
}

#[test]
fn unreadable_binary_is_an_error() {
    let bin = vec![file("moon", &digest(b"a"))];
    let local = vec![LocalBinary::Unreadable];
    assert_eq!(match_binaries(&bin, &local), Err(MatchError::ReadFailed { filename: "moon".to_string() }));
}

#[test]
fn first_deciding_file_wins() {
    let bin = vec![file("moon", &digest(b"a")), file("moonc", "md5:00")];
    let local = vec![LocalBinary::Missing, LocalBinary::Present(b"b".to_vec())];
    assert_eq!(match_binaries(&bin, &local), Ok(false));
}

#[test]
fn empty_binary_set_matches() {
    assert_eq!(match_binaries(&vec![], &vec![]), Ok(true));
}

#[test]
fn installer_generations() {
    assert!(get_installer("initial").is_ok());
    assert!(get_installer("2024-05-07").is_ok());
    assert_eq!(
        get_installer("2030-01-01").err(),
        Some(InstallerError::UnknownInstaller { name: "2030-01-01".to_string() })
    );
}

#[test]
fn installer_matches_through_trait() {
    let t = toolchain(vec![file("moon", &digest(b"m"))]);
    let inst = InstInitial::new();
    assert_eq!(inst.matches(&t, &vec![LocalBinary::Present(b"m".to_vec())]), Ok(true));
    assert_eq!(inst.matches(&t, &vec![LocalBinary::Missing]), Ok(false));
}
