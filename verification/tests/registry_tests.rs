use ytdl_core::model::{DownloadStatus, PROGRESS_ONE};
use ytdl_core::registry::TaskRegistry;

fn fresh(ids: &[&str]) -> TaskRegistry {
    let mut reg = TaskRegistry::new();
    for id in ids {
        assert!(reg.insert(id.to_string(), format!("Video ID: {}", id)));
    }
    reg
}

fn progress_of(reg: &TaskRegistry, id: &str) -> u64 {
    reg.list().iter().find(|t| t.video_id == id).unwrap().progress
}

fn done(reg: &TaskRegistry, id: &str) -> bool {
    matches!(reg.list().iter().find(|t| t.video_id == id).unwrap().status, DownloadStatus::Done)
}

#[test]
fn insert_starts_fresh() {
    let reg = fresh(&["a"]);
    let tasks = reg.list();
    assert_eq!(tasks.len(), 1);
    assert_eq!(tasks[0].video_id, "a");
    assert_eq!(tasks[0].title, "Video ID: a");
    assert_eq!(tasks[0].progress, 0);
    assert!(!done(&reg, "a"));
}

#[test]
fn insert_duplicate_refused() {
    let mut reg = fresh(&["a"]);
    assert!(!reg.insert("a".to_string(), "another".to_string()));
    assert_eq!(reg.list().len(), 1);
    assert_eq!(reg.list()[0].title, "Video ID: a");
}

#[test]
fn progress_is_monotone() {
    // Applying 0.3 then 0.1 then 0.5 yields 0.5, never dipping to 0.1.
    let mut reg = fresh(&["a"]);
    reg.apply_progress("a", 300_000);
    assert_eq!(progress_of(&reg, "a"), 300_000);
    reg.apply_progress("a", 100_000);
    assert_eq!(progress_of(&reg, "a"), 300_000);
    reg.apply_progress("a", 500_000);
    assert_eq!(progress_of(&reg, "a"), 500_000);
    assert!(!done(&reg, "a"));
}

#[test]
fn completion_clamps_past_full() {
    // Applying 1.2 yields progress exactly 1.0 and status Done.
    let mut reg = fresh(&["a"]);
    reg.apply_progress("a", 1_200_000);
    assert_eq!(progress_of(&reg, "a"), PROGRESS_ONE);
    assert!(done(&reg, "a"));
}

#[test]
fn completion_at_exactly_full() {
    let mut reg = fresh(&["a"]);
    reg.apply_progress("a", PROGRESS_ONE);
    assert_eq!(progress_of(&reg, "a"), PROGRESS_ONE);
    assert!(done(&reg, "a"));
}

#[test]
fn done_stays_done() {
    let mut reg = fresh(&["a"]);
    reg.apply_progress("a", 1_200_000);
    reg.apply_progress("a", 500_000);
    assert_eq!(progress_of(&reg, "a"), PROGRESS_ONE);
    assert!(done(&reg, "a"));
}

#[test]
fn below_full_is_not_done() {
    let mut reg = fresh(&["a"]);
    reg.apply_progress("a", 999_999);
    assert_eq!(progress_of(&reg, "a"), 999_999);
    assert!(!done(&reg, "a"));
}

#[test]
fn tasks_are_isolated() {
    // Interleaved updates to two distinct ids never influence each other.
    let mut reg = fresh(&["a", "b"]);
    reg.apply_progress("a", 300_000);
    reg.apply_progress("b", 900_000);
    reg.apply_progress("a", 100_000);
    reg.apply_progress("b", 200_000);
    reg.apply_progress("a", 500_000);
    assert_eq!(progress_of(&reg, "a"), 500_000);
    assert_eq!(progress_of(&reg, "b"), 900_000);
    assert!(!done(&reg, "a"));
    assert!(!done(&reg, "b"));
}

#[test]
fn unknown_id_changes_nothing() {
    let mut reg = fresh(&["a"]);
    reg.apply_progress("ghost", 700_000);
    assert_eq!(reg.list().len(), 1);
    assert_eq!(progress_of(&reg, "a"), 0);
}

#[test]
fn remove_then_list_never_includes_id() {
    let mut reg = fresh(&["a", "b"]);
    reg.remove("a");
    assert!(!reg.contains("a"));
    assert!(reg.list().iter().all(|t| t.video_id != "a"));
    assert_eq!(reg.list().len(), 1);
    assert!(reg.contains("b"));
}

#[test]
fn remove_unknown_id_is_noop() {
    let mut reg = fresh(&["a"]);
    reg.remove("ghost");
    assert_eq!(reg.list().len(), 1);
}
