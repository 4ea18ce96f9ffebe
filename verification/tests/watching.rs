use order_book_feed::blocks::Block;
use order_book_feed::node_data::{Batch, EventSource};
use order_book_feed::time::Timestamp;
use order_book_feed::watch::{
    FetchPlan, FileEvent, ReplayStep, Wakeup, Watch, WatchAction, plan_fetch, read_failed, replay_step,
};
use std::collections::VecDeque;

fn event() -> FileEvent {
    FileEvent {
        created: false,
        modified: true,
        is_dir: false,
        is_file: true,
        under_order_statuses: false,
        under_fills: true,
        under_order_diffs: false,
    }
}

fn reason(action: WatchAction) -> String {
    match action {
        WatchAction::GiveUp(reason) => reason,
        _ => panic!("the watch was expected to give up"),
    }
}

fn block(number: u64) -> Block {
    let at = Timestamp { secs: 0, nanos: 0 };
    Block { statuses: Batch::new(at, at, number, vec![]), diffs: Batch::new(at, at, number, vec![]) }
}

#[test]
fn changed_files_are_read() {
    let watch = Watch::new("node");
    assert!(matches!(
        watch.wake(Wakeup::Changed(event())),
        WatchAction::Read { source: EventSource::Fills, created: false }
    ));
    let created = FileEvent { created: true, modified: false, under_fills: false, under_order_diffs: true, ..event() };
    assert!(matches!(
        watch.wake(Wakeup::Changed(created)),
        WatchAction::Read { source: EventSource::OrderDiffs, created: true }
    ));
    let statuses = FileEvent { under_order_statuses: true, ..event() };
    assert!(matches!(
        watch.wake(Wakeup::Changed(statuses)),
        WatchAction::Read { source: EventSource::OrderStatuses, created: false }
    ));
}

#[test]
fn new_directories_are_watched() {
    let watch = Watch::new("node");
    let dir = FileEvent { created: true, is_dir: true, is_file: false, ..event() };
    assert!(matches!(watch.wake(Wakeup::Changed(dir)), WatchAction::WatchDirectory));
}

#[test]
fn other_changes_are_passed_over() {
    let watch = Watch::new("node");
    let removed = FileEvent { modified: false, ..event() };
    assert!(matches!(watch.wake(Wakeup::Changed(removed)), WatchAction::Wait));
    let elsewhere = FileEvent { under_fills: false, ..event() };
    assert!(matches!(watch.wake(Wakeup::Changed(elsewhere)), WatchAction::Wait));
    let gone = FileEvent { is_file: false, ..event() };
    assert!(matches!(watch.wake(Wakeup::Changed(gone)), WatchAction::Wait));
}

#[test]
fn a_quiet_stream_ends_the_watch() {
    let watch = Watch::new("hl-node");
    assert_eq!(reason(watch.wake(Wakeup::Quiet)), "Stream has fallen behind (hl-node failed?)");
    watch.wake(Wakeup::Changed(event()));
    assert_eq!(reason(watch.wake(Wakeup::Quiet)), "Stream has fallen behind (hl-node failed?)");
}

#[test]
fn a_failed_fetch_ends_the_watch() {
    let watch = Watch::new("node");
    assert!(matches!(watch.wake(Wakeup::FetchEnded(Ok(()))), WatchAction::Wait));
    assert_eq!(
        reason(watch.wake(Wakeup::FetchEnded(Err("books differ".to_string())))),
        "Abci state reading error: books differ"
    );
    assert_eq!(reason(watch.wake(Wakeup::FetchersGone)), "Snapshot fetch task sender dropped");
}

#[test]
fn a_failed_watcher_ends_the_watch() {
    let watch = Watch::new("node");
    assert_eq!(reason(watch.wake(Wakeup::WatcherFailed("limit".to_string()))), "Watcher error: limit");
    assert_eq!(reason(watch.wake(Wakeup::WatcherGone)), "Channel closed.");
}

#[test]
fn snapshots_are_fetched_when_they_are_due() {
    let watch = Watch::new("node");
    assert!(matches!(watch.wake(Wakeup::SnapshotDue), WatchAction::FetchSnapshot));
}

#[test]
fn failures_to_read_name_the_stream() {
    assert_eq!(read_failed(EventSource::OrderStatuses, "x"), "Order status processing error: x");
    assert_eq!(read_failed(EventSource::Fills, "x"), "Fill update processing error: x");
    assert_eq!(read_failed(EventSource::OrderDiffs, "x"), "Book diff processing error: x");
}

#[test]
fn snapshots_are_compared_or_started_from() {
    assert!(matches!(plan_fetch(Ok(()), true), FetchPlan::Replay));
    assert!(matches!(plan_fetch(Ok(()), false), FetchPlan::StartOver));
    assert!(matches!(plan_fetch(Err("e".to_string()), true), FetchPlan::Report(Err(e)) if e == "e"));
}

#[test]
fn a_replay_stops_at_the_height_of_the_snapshot() {
    let mut kept: VecDeque<Block> = [5, 6, 7].into_iter().map(block).collect();
    let mut height = 4;
    loop {
        match replay_step(&mut kept, Ok(height), 6) {
            ReplayStep::Apply(block) => height = block.diffs.block_number(),
            ReplayStep::Compare => break,
            ReplayStep::Report(outcome) => panic!("{outcome:?}"),
        }
    }
    assert_eq!(height, 6);
    assert_eq!(kept.len(), 1);
}

/// The reason that a replay is reported with, and that the watch then gives up with.
fn failure(step: ReplayStep) -> (String, String) {
    match step {
        ReplayStep::Report(Err(why)) => {
            let watch = Watch::new("node");
            (why.clone(), reason(watch.wake(Wakeup::FetchEnded(Err(why)))))
        }
        _ => panic!("a failure was expected"),
    }
}

#[test]
fn a_replay_without_enough_blocks_ends_the_watch() {
    let mut kept = VecDeque::new();
    let (why, end) = failure(replay_step(&mut kept, Ok(4), 6));
    assert_eq!(why, "Not enough cached updates");
    assert_eq!(end, "Abci state reading error: Not enough cached updates");
}

#[test]
fn a_snapshot_that_is_too_old_ends_the_watch() {
    let mut kept: VecDeque<Block> = [8].into_iter().map(block).collect();
    let (why, end) = failure(replay_step(&mut kept, Ok(7), 6));
    assert_eq!(why, "Fetched snapshot lagging stored state");
    assert_eq!(end, "Abci state reading error: Fetched snapshot lagging stored state");
    assert_eq!(kept.len(), 1);
}

#[test]
fn a_block_that_is_refused_in_a_replay_ends_the_watch() {
    let mut kept: VecDeque<Block> = [8].into_iter().map(block).collect();
    let (why, end) = failure(replay_step(&mut kept, Err("missing order".to_string()), 6));
    assert_eq!(why, "missing order");
    assert_eq!(end, "Abci state reading error: missing order");
    assert_eq!(kept.len(), 1);
}
