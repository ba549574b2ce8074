use ytdl_core::model::{DownloadStatus, PROGRESS_ONE};
use ytdl_core::orchestrator::{remove_task, submit};
use ytdl_core::registry::TaskRegistry;
use ytdl_core::router::{tick, ProgressRouter};

fn progress_of(reg: &TaskRegistry, id: &str) -> u64 {
    reg.list().iter().find(|t| t.video_id == id).unwrap().progress
}

#[test]
fn submit_registers_task_and_channel() {
    let mut reg = TaskRegistry::new();
    let mut router = ProgressRouter::new();
    let (id, _tx) = submit(&mut reg, &mut router, "https://www.youtube.com/watch?v=abc123")
        .expect("a URL with an id is accepted");
    assert_eq!(id, "abc123");
    assert!(reg.contains("abc123"));
    assert!(router.contains("abc123"));
    assert_eq!(reg.list()[0].title, "Video ID: abc123");
    assert_eq!(reg.list()[0].progress, 0);
}

#[test]
fn submit_without_id_is_refused() {
    let mut reg = TaskRegistry::new();
    let mut router = ProgressRouter::new();
    assert!(submit(&mut reg, &mut router, "https://example.com/nothing-here").is_none());
    assert_eq!(reg.list().len(), 0);
    assert_eq!(router.channel_count(), 0);
}

#[test]
fn submit_duplicate_id_is_refused() {
    let mut reg = TaskRegistry::new();
    let mut router = ProgressRouter::new();
    let first = submit(&mut reg, &mut router, "https://www.youtube.com/watch?v=abc123");
    assert!(first.is_some());
    let second = submit(&mut reg, &mut router, "https://www.youtube.com/watch?v=abc123&t=9");
    assert!(second.is_none());
    assert_eq!(reg.list().len(), 1);
    assert_eq!(router.channel_count(), 1);
}

#[test]
fn tick_applies_sent_values_in_order() {
    let mut reg = TaskRegistry::new();
    let mut router = ProgressRouter::new();
    let (_, tx) = submit(&mut reg, &mut router, "watch?v=vid1").unwrap();
    tx.send(250_000).unwrap();
    tx.send(500_000).unwrap();
    tick(&mut reg, &mut router);
    assert_eq!(progress_of(&reg, "vid1"), 500_000);
    // A later, lower value is discarded.
    tx.send(100_000).unwrap();
    tick(&mut reg, &mut router);
    assert_eq!(progress_of(&reg, "vid1"), 500_000);
}

#[test]
fn tick_without_data_is_no_error() {
    let mut reg = TaskRegistry::new();
    let mut router = ProgressRouter::new();
    let (_, _tx) = submit(&mut reg, &mut router, "watch?v=vid1").unwrap();
    tick(&mut reg, &mut router);
    tick(&mut reg, &mut router);
    assert_eq!(progress_of(&reg, "vid1"), 0);
    assert_eq!(router.channel_count(), 1);
}

#[test]
fn tick_completes_task_at_full_value() {
    let mut reg = TaskRegistry::new();
    let mut router = ProgressRouter::new();
    let (_, tx) = submit(&mut reg, &mut router, "watch?v=vid1").unwrap();
    tx.send(1_250_000).unwrap();
    tick(&mut reg, &mut router);
    assert_eq!(progress_of(&reg, "vid1"), PROGRESS_ONE);
    assert!(matches!(reg.list()[0].status, DownloadStatus::Done));
}

#[test]
fn closed_channel_is_not_a_failure() {
    // The producer dropping its end signals natural completion of the stream;
    // status is driven by progress values, never by channel state.
    let mut reg = TaskRegistry::new();
    let mut router = ProgressRouter::new();
    let (_, tx) = submit(&mut reg, &mut router, "watch?v=vid1").unwrap();
    tx.send(300_000).unwrap();
    drop(tx);
    tick(&mut reg, &mut router);
    assert_eq!(progress_of(&reg, "vid1"), 300_000);
    assert!(matches!(reg.list()[0].status, DownloadStatus::Downloading));
    // The channel survives until the task is removed.
    assert_eq!(router.channel_count(), 1);
    tick(&mut reg, &mut router);
    assert_eq!(progress_of(&reg, "vid1"), 300_000);
}

#[test]
fn stale_channel_is_reclaimed() {
    // A channel whose task is gone is dropped during the next cycle, its
    // waiting values discarded silently.
    let mut reg = TaskRegistry::new();
    let mut router = ProgressRouter::new();
    let (_, tx) = submit(&mut reg, &mut router, "watch?v=vid1").unwrap();
    tx.send(400_000).unwrap();
    reg.remove("vid1");
    tick(&mut reg, &mut router);
    assert_eq!(router.channel_count(), 0);
    assert_eq!(reg.list().len(), 0);
}

#[test]
fn remove_task_discards_pending_data() {
    let mut reg = TaskRegistry::new();
    let mut router = ProgressRouter::new();
    let (_, tx) = submit(&mut reg, &mut router, "watch?v=vid1").unwrap();
    tx.send(600_000).unwrap();
    tx.send(700_000).unwrap();
    remove_task(&mut reg, &mut router, "vid1");
    assert!(!reg.contains("vid1"));
    assert!(!router.contains("vid1"));
    assert_eq!(router.channel_count(), 0);
    tick(&mut reg, &mut router);
    assert_eq!(reg.list().len(), 0);
    // The producer end now reports the channel closed; sending fails cleanly.
    assert!(tx.send(800_000).is_err());
}

#[test]
fn drain_budget_defers_excess_to_next_cycle() {
    // One cycle hands over at most DRAIN_LIMIT values per channel; the rest
    // wait for the next cycle.
    let mut reg = TaskRegistry::new();
    let mut router = ProgressRouter::new();
    let (_, tx) = submit(&mut reg, &mut router, "watch?v=vid1").unwrap();
    let total = ytdl_core::router::DRAIN_LIMIT as u64 + 100;
    for v in 1..=total {
        tx.send(v).unwrap();
    }
    tick(&mut reg, &mut router);
    assert_eq!(progress_of(&reg, "vid1"), ytdl_core::router::DRAIN_LIMIT as u64);
    tick(&mut reg, &mut router);
    assert_eq!(progress_of(&reg, "vid1"), total);
}

#[test]
fn two_tasks_tick_independently() {
    let mut reg = TaskRegistry::new();
    let mut router = ProgressRouter::new();
    let (_, tx1) = submit(&mut reg, &mut router, "watch?v=vid1").unwrap();
    let (_, tx2) = submit(&mut reg, &mut router, "watch?v=vid2").unwrap();
    tx1.send(300_000).unwrap();
    tx2.send(900_000).unwrap();
    tx1.send(100_000).unwrap();
    tick(&mut reg, &mut router);
    assert_eq!(progress_of(&reg, "vid1"), 300_000);
    assert_eq!(progress_of(&reg, "vid2"), 900_000);
}
