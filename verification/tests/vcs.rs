use cargo_fix::render::plain_text;
use cargo_fix::vcs::{check_version_control, VcsState};

#[test]
fn clean_tree_passes_silently() {
    let outcome = check_version_control(&VcsState::Clean, false, false);
    assert_eq!(plain_text(&outcome.warning), "");
    assert!(outcome.error.is_none());
}

#[test]
fn missing_vcs_aborts_by_default() {
    let outcome = check_version_control(&VcsState::NoVcs, false, false);
    assert_eq!(
        plain_text(&outcome.warning),
        "warning: Could not detect a version control system\n\
         You should consider using a VCS so you can easily see and revert rustfix's changes.\n"
    );
    assert_eq!(
        outcome.error.as_deref(),
        Some("No VCS found, aborting. Overwrite this behavior with `--allow-no-vcs`.")
    );
}

#[test]
fn missing_vcs_can_be_overridden() {
    let outcome = check_version_control(&VcsState::NoVcs, true, false);
    assert!(outcome.error.is_none());
    assert!(!plain_text(&outcome.warning).is_empty());
}

#[test]
fn dirty_tree_aborts_by_default() {
    let status = " M src/lib.rs\n".to_string();
    let outcome = check_version_control(&VcsState::Dirty(status), false, false);
    assert_eq!(
        plain_text(&outcome.warning),
        "warning: Working directory dirty\n\
         Make sure your working directory is clean so you can easily revert rustfix's changes.\n\
         \x20M src/lib.rs\n"
    );
    assert_eq!(
        outcome.error.as_deref(),
        Some("Aborting because of dirty working directory. Overwrite this behavior with `--allow-dirty`.")
    );
}

#[test]
fn dirty_tree_can_be_overridden() {
    let status = " M src/lib.rs\n".to_string();
    let outcome = check_version_control(&VcsState::Dirty(status), false, true);
    assert!(outcome.error.is_none());
    assert!(plain_text(&outcome.warning).contains(" M src/lib.rs\n"));
}
