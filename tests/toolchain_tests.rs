use multimoon::pipeline::{next_stage, stage_error_message, InstallStage, StageOutcome};
use multimoon::registry::Toolchain;
use multimoon::toolchain::{current_toolchain, decide_update, find_toolchain, latest_toolchain, toolchain_lines, SelectError, UpdateAction};

fn tc(name: &str, last_modified: i64) -> Toolchain {
    Toolchain {
        name: name.to_string(),
        moonver: "0".to_string(),
        last_modified,
        bin: vec![],
        core: vec![],
        installer: "initial".to_string(),
    }
}

#[test]
fn latest_is_newest_first_listed_on_ties() {
    let ts = vec![tc("a", 5), tc("b", 9), tc("c", 9), tc("d", 1)];
    assert_eq!(latest_toolchain(&ts), Ok(1));
    assert_eq!(latest_toolchain(&vec![]), Err(SelectError::NoToolchains));
}

#[test]
fn current_is_newest_matching() {
    let ts = vec![tc("a", 5), tc("b", 9), tc("c", 7)];
    assert_eq!(current_toolchain(&ts, &vec![true, false, true]), Some(2));
    assert_eq!(current_toolchain(&ts, &vec![false, false, false]), None);
}

#[test]
fn find_by_name() {
    let ts = vec![tc("a", 5), tc("b", 9), tc("b", 1)];
    assert_eq!(find_toolchain(&ts, "b"), Ok(1));
    assert_eq!(find_toolchain(&ts, "z"), Err(SelectError::NotFound { name: "z".to_string() }));
}

#[test]
fn update_decisions() {
    assert_eq!(decide_update(true, false), UpdateAction::AlreadyCurrent);
    assert_eq!(decide_update(true, true), UpdateAction::Install);
    assert_eq!(decide_update(false, false), UpdateAction::Install);
}

#[test]
fn lines_oldest_first_with_current_marked() {
    let ts = vec![tc("b", 9), tc("a", 5), tc("c", 9)];
    assert_eq!(
        toolchain_lines(&ts, &vec![false, true, false]),
        vec!["a toolchain (current)".to_string(), "b toolchain".to_string(), "c toolchain".to_string()]
    );
}

#[test]
fn pipeline_stages() {
    assert_eq!(next_stage(InstallStage::NotStarted, StageOutcome::Succeeded, false), InstallStage::Matching);
    assert_eq!(next_stage(InstallStage::Matching, StageOutcome::AlreadyInstalled, false), InstallStage::Done);
    assert_eq!(next_stage(InstallStage::Matching, StageOutcome::AlreadyInstalled, true), InstallStage::Downloading);
    assert_eq!(next_stage(InstallStage::Downloading, StageOutcome::Failed, false), InstallStage::Error);
    assert_eq!(next_stage(InstallStage::Downloading, StageOutcome::Succeeded, false), InstallStage::InstallingBinaries);
    assert_eq!(next_stage(InstallStage::InstallingBinaries, StageOutcome::Succeeded, false), InstallStage::InstallingLibrary);
    assert_eq!(next_stage(InstallStage::InstallingLibrary, StageOutcome::Succeeded, false), InstallStage::PostInstallBuild);
    assert_eq!(next_stage(InstallStage::PostInstallBuild, StageOutcome::Failed, false), InstallStage::Error);
    assert_eq!(next_stage(InstallStage::PostInstallBuild, StageOutcome::Succeeded, false), InstallStage::RegisteringPath);
    assert_eq!(next_stage(InstallStage::RegisteringPath, StageOutcome::Failed, false), InstallStage::Done);
    assert_eq!(next_stage(InstallStage::Error, StageOutcome::Succeeded, false), InstallStage::Error);
}

#[test]
fn write_failures_carry_corruption_note() {
    assert_eq!(
        stage_error_message(InstallStage::InstallingBinaries, "failed to create /h/.moon/bin/moon"),
        "failed to create /h/.moon/bin/moon (current installation may be corrupted)"
    );
    assert_eq!(stage_error_message(InstallStage::Downloading, "timeout"), "timeout");
}
