//! When the feed reads, fetches, waits and gives up.

use crate::blocks::{Block, BlockView, block_views};
use crate::node_data::EventSource;
use crate::text::join;
use std::collections::VecDeque;
use vstd::prelude::*;

verus! {

/// Seconds before the first snapshot is fetched.
pub const START_DELAY_SECS: u64 = 5;

/// Seconds between two snapshots.
pub const SNAPSHOT_INTERVAL_SECS: u64 = 10;

/// Seconds without anything happening after which the stream counts as quiet.
pub const QUIET_LIMIT_SECS: u64 = 5;

/// Seconds for which blocks are kept once a snapshot has been fetched.
pub const CACHE_WAIT_SECS: u64 = 1;

/// What is known of a change in the watched directories: whether a file was created or modified,
/// what the path is now, and under which of the streams' directories it stands.
#[derive(Clone, Copy, Debug, PartialEq, Eq, Structural)]
pub struct FileEvent {
    pub created: bool,
    pub modified: bool,
    pub is_dir: bool,
    pub is_file: bool,
    pub under_order_statuses: bool,
    pub under_fills: bool,
    pub under_order_diffs: bool,
}

impl FileEvent {
    /// The stream whose file changed, where it is one.
    pub open spec fn concerns(self) -> Option<EventSource> {
        if !self.is_file {
            None
        } else if self.under_order_statuses {
            Some(EventSource::OrderStatuses)
        } else if self.under_fills {
            Some(EventSource::Fills)
        } else if self.under_order_diffs {
            Some(EventSource::OrderDiffs)
        } else {
            None
        }
    }

    /// The stream whose file changed, where it is one.
    pub fn source(self) -> (source: Option<EventSource>)
        ensures
            source == self.concerns(),
    {
        if self.under_order_statuses && self.is_file {
            Some(EventSource::OrderStatuses)
        } else if self.under_fills && self.is_file {
            Some(EventSource::Fills)
        } else if self.under_order_diffs && self.is_file {
            Some(EventSource::OrderDiffs)
        } else {
            None
        }
    }
}

/// What wakes the watch.
pub enum Wakeup {
    /// Something changed in the watched directories.
    Changed(FileEvent),
    /// The directories can no longer be watched, for the given reason.
    WatcherFailed(String),
    /// No more changes will be reported.
    WatcherGone,
    /// A fetch of a snapshot has ended.
    FetchEnded(Result<(), String>),
    /// No more fetches will be reported.
    FetchersGone,
    /// The time for the next snapshot has come.
    SnapshotDue,
    /// Nothing has happened for a while.
    Quiet,
}

/// What the watch does when it is woken.
pub enum WatchAction {
    /// Wait on.
    Wait,
    /// Watch the new directory too.
    WatchDirectory,
    /// Read the stream's file, which was created or has changed.
    Read { source: EventSource, created: bool },
    /// Fetch a snapshot.
    FetchSnapshot,
    /// Give up, for the given reason.
    GiveUp(String),
}

/// What the watch does when it is woken.
pub enum ActionView {
    Wait,
    WatchDirectory,
    Read { source: EventSource, created: bool },
    FetchSnapshot,
    GiveUp(Seq<char>),
}

impl View for WatchAction {
    type V = ActionView;

    open spec fn view(&self) -> ActionView {
        match self {
            WatchAction::Wait => ActionView::Wait,
            WatchAction::WatchDirectory => ActionView::WatchDirectory,
            WatchAction::Read { source, created } => ActionView::Read { source: *source, created: *created },
            WatchAction::FetchSnapshot => ActionView::FetchSnapshot,
            WatchAction::GiveUp(reason) => ActionView::GiveUp(reason@),
        }
    }
}

/// What the watch does when it is woken, where `node` is the node's name.
pub open spec fn reaction(node: Seq<char>, wakeup: Wakeup) -> ActionView {
    match wakeup {
        Wakeup::Changed(event) => if !(event.created || event.modified) {
            ActionView::Wait
        } else if event.is_dir {
            ActionView::WatchDirectory
        } else {
            match event.concerns() {
                Some(source) => ActionView::Read { source, created: event.created },
                None => ActionView::Wait,
            }
        },
        Wakeup::WatcherFailed(reason) => ActionView::GiveUp("Watcher error: "@ + reason@),
        Wakeup::WatcherGone => ActionView::GiveUp("Channel closed."@),
        Wakeup::FetchEnded(Ok(_)) => ActionView::Wait,
        Wakeup::FetchEnded(Err(reason)) => ActionView::GiveUp("Abci state reading error: "@ + reason@),
        Wakeup::FetchersGone => ActionView::GiveUp("Snapshot fetch task sender dropped"@),
        Wakeup::SnapshotDue => ActionView::FetchSnapshot,
        Wakeup::Quiet => ActionView::GiveUp("Stream has fallen behind ("@ + node + " failed?)"@),
    }
}

/// The watch over a node.
pub struct Watch {
    node: String,
}

impl Watch {
    /// The node's name.
    pub closed spec fn node_name(self) -> Seq<char> {
        self.node@
    }

    /// A watch over the node of the given name.
    pub fn new(node: &str) -> (watch: Watch)
        ensures
            watch.node_name() == node@,
    {
        Watch { node: node.to_owned() }
    }

    /// Decides what to do when the watch is woken.
    pub fn wake(&self, wakeup: Wakeup) -> (action: WatchAction)
        ensures
            action@ == reaction(self.node_name(), wakeup),
    {
        match wakeup {
            Wakeup::Changed(event) => {
                if !(event.created || event.modified) {
                    WatchAction::Wait
                } else if event.is_dir {
                    WatchAction::WatchDirectory
                } else {
                    match event.source() {
                        Some(source) => WatchAction::Read { source, created: event.created },
                        None => WatchAction::Wait,
                    }
                }
            },
            Wakeup::WatcherFailed(reason) => WatchAction::GiveUp(join("Watcher error: ", reason.as_str())),
            Wakeup::WatcherGone => WatchAction::GiveUp("Channel closed.".to_owned()),
            Wakeup::FetchEnded(outcome) => match outcome {
                Ok(_) => WatchAction::Wait,
                Err(reason) => WatchAction::GiveUp(join("Abci state reading error: ", reason.as_str())),
            },
            Wakeup::FetchersGone => WatchAction::GiveUp("Snapshot fetch task sender dropped".to_owned()),
            Wakeup::SnapshotDue => WatchAction::FetchSnapshot,
            Wakeup::Quiet => {
                let intro = join("Stream has fallen behind (", self.node.as_str());
                WatchAction::GiveUp(join(intro.as_str(), " failed?)"))
            },
        }
    }
}

/// What is said when a stream could not be read.
pub open spec fn read_complaint(source: EventSource, reason: Seq<char>) -> Seq<char> {
    match source {
        EventSource::OrderStatuses => "Order status processing error: "@ + reason,
        EventSource::Fills => "Fill update processing error: "@ + reason,
        EventSource::OrderDiffs => "Book diff processing error: "@ + reason,
    }
}

/// Says that a stream could not be read.
pub fn read_failed(source: EventSource, reason: &str) -> (complaint: String)
    ensures
        complaint@ == read_complaint(source, reason@),
{
    match source {
        EventSource::OrderStatuses => join("Order status processing error: ", reason),
        EventSource::Fills => join("Fill update processing error: ", reason),
        EventSource::OrderDiffs => join("Book diff processing error: ", reason),
    }
}

/// What is done with a snapshot that was fetched.
pub enum FetchPlan {
    /// The fetch has ended: say so.
    Report(Result<(), String>),
    /// Bring a copy of the book to the snapshot's height, and compare the two.
    Replay,
    /// Build the first book from the snapshot.
    StartOver,
}

/// Decides what to do with a snapshot: `loaded` says why it could not be had, where it could not,
/// and `had_book` whether there was a book when the fetch began.
pub fn plan_fetch(loaded: Result<(), String>, had_book: bool) -> (plan: FetchPlan)
    ensures
        match loaded {
            Err(reason) => plan == FetchPlan::Report(Err(reason)),
            Ok(_) => plan == if had_book {
                FetchPlan::Replay
            } else {
                FetchPlan::StartOver
            },
        },
{
    match loaded {
        Err(reason) => FetchPlan::Report(Err(reason)),
        Ok(_) => {
            if had_book {
                FetchPlan::Replay
            } else {
                FetchPlan::StartOver
            }
        },
    }
}

/// The next step in bringing a copy of the book to a snapshot's height.
pub enum ReplayStep {
    /// Put this block into the copy, and take the next step with what came of it.
    Apply(Block),
    /// The fetch has ended: say so.
    Report(Result<(), String>),
    /// The copy is at the snapshot's height: compare the two, and report what came of it.
    Compare,
}

/// The next step in bringing a copy of the book to a snapshot's height.
pub enum ReplayView {
    Apply(BlockView),
    Report(Result<(), Seq<char>>),
    Compare,
}

impl View for ReplayStep {
    type V = ReplayView;

    open spec fn view(&self) -> ReplayView {
        match self {
            ReplayStep::Apply(block) => ReplayView::Apply(block@),
            ReplayStep::Report(Ok(done)) => ReplayView::Report(Ok(*done)),
            ReplayStep::Report(Err(reason)) => ReplayView::Report(Err(reason@)),
            ReplayStep::Compare => ReplayView::Compare,
        }
    }
}

/// The height of a copy of the book, or why the last block did not go into it.
pub open spec fn height_view(height: Result<u64, String>) -> Result<u64, Seq<char>> {
    match height {
        Ok(at) => Ok(at),
        Err(reason) => Err(reason@),
    }
}

/// The next step in bringing a copy of the book to the height of a snapshot with the blocks that
/// were kept. `height` is the copy's, or says why the last block did not go into it. A replay that
/// cannot come to the snapshot's height is reported as a failure.
pub open spec fn replay_next(
    kept: Seq<BlockView>,
    height: Result<u64, Seq<char>>,
    snapshot_height: u64,
) -> ReplayView {
    match height {
        Err(reason) => ReplayView::Report(Err(reason)),
        Ok(at) => if at < snapshot_height {
            if kept.len() > 0 {
                ReplayView::Apply(kept[0])
            } else {
                ReplayView::Report(Err("Not enough cached updates"@))
            }
        } else if at > snapshot_height {
            ReplayView::Report(Err("Fetched snapshot lagging stored state"@))
        } else {
            ReplayView::Compare
        },
    }
}

/// Takes the next step in bringing a copy of the book to the height of a snapshot with the blocks
/// that were kept. `height` is the copy's, or says why the last block did not go into it.
pub fn replay_step(kept: &mut VecDeque<Block>, height: Result<u64, String>, snapshot_height: u64) -> (step: ReplayStep)
    ensures
        step@ == replay_next(block_views(old(kept)@), height_view(height), snapshot_height),
        block_views(final(kept)@) == if step is Apply {
            block_views(old(kept)@).drop_first()
        } else {
            block_views(old(kept)@)
        },
{
    let at: u64 = match height {
        Ok(at) => at,
        Err(reason) => {
            return ReplayStep::Report(Err(reason));
        },
    };
    if at < snapshot_height {
        let ghost before = kept@;
        match kept.pop_front() {
            Some(block) => {
                assert(block_views(kept@) =~= block_views(before).drop_first());
                ReplayStep::Apply(block)
            },
            None => ReplayStep::Report(Err("Not enough cached updates".to_owned())),
        }
    } else if at > snapshot_height {
        ReplayStep::Report(Err("Fetched snapshot lagging stored state".to_owned()))
    } else {
        ReplayStep::Compare
    }
}

/// Whether a replay comes to compare the book with the snapshot, where every block brings the book
/// to that block's number.
pub open spec fn replay_compares(kept: Seq<BlockView>, height: u64, snapshot_height: u64) -> bool
    decreases kept.len(),
{
    match replay_next(kept, Ok(height), snapshot_height) {
        ReplayView::Apply(block) => replay_compares(kept.drop_first(), block.diffs.block_number, snapshot_height),
        ReplayView::Report(_) => false,
        ReplayView::Compare => true,
    }
}

/// Where every block brings the book to that block's number, and the kept blocks follow the book in
/// increasing order, a snapshot is compared exactly where it was taken at the height of the book or
/// of one of the kept blocks.
pub proof fn law_replay_compares_at_known_heights(kept: Seq<BlockView>, height: u64, snapshot_height: u64)
    requires
        forall|i: int| 0 <= i < kept.len() ==> height < (#[trigger] kept[i]).diffs.block_number,
        forall|i: int, j: int|
            0 <= i < j < kept.len() ==> (#[trigger] kept[i]).diffs.block_number < (
            #[trigger] kept[j]).diffs.block_number,
    ensures
        replay_compares(kept, height, snapshot_height) <==> height == snapshot_height || exists|i: int|
            0 <= i < kept.len() && (#[trigger] kept[i]).diffs.block_number == snapshot_height,
    decreases kept.len(),
{
    if height < snapshot_height && kept.len() > 0 {
        let first = kept[0].diffs.block_number;
        let rest = kept.drop_first();
        assert forall|i: int| 0 <= i < rest.len() implies first < (#[trigger] rest[i]).diffs.block_number by {
            assert(rest[i] == kept[i + 1]);
        }
        law_replay_compares_at_known_heights(rest, first, snapshot_height);
        if exists|i: int| 0 <= i < kept.len() && (#[trigger] kept[i]).diffs.block_number == snapshot_height {
            let i = choose|i: int| 0 <= i < kept.len() && (#[trigger] kept[i]).diffs.block_number == snapshot_height;
            if i > 0 {
                assert(rest[i - 1] == kept[i]);
            }
        }
        if exists|i: int| 0 <= i < rest.len() && (#[trigger] rest[i]).diffs.block_number == snapshot_height {
            let i = choose|i: int| 0 <= i < rest.len() && (#[trigger] rest[i]).diffs.block_number == snapshot_height;
            assert(kept[i + 1] == rest[i]);
        }
    }
}

/// A stream that has gone quiet ends the watch, whatever happened before.
pub proof fn law_quiet_stream_ends_the_watch(node: Seq<char>)
    ensures
        reaction(node, Wakeup::Quiet) == ActionView::GiveUp("Stream has fallen behind ("@ + node + " failed?)"@),
{
}

/// A snapshot that differs from the book, or could not be read, ends the watch.
pub proof fn law_failed_fetch_ends_the_watch(node: Seq<char>, outcome: Result<(), String>)
    ensures
        reaction(node, Wakeup::FetchEnded(outcome)) is GiveUp <==> outcome is Err,
{
}

/// A replay that does not come to compare the snapshot ends the watch: it is reported, always as a
/// failure, and the watch gives up with its reason.
pub proof fn law_failed_replay_ends_the_watch(
    kept: Seq<BlockView>,
    height: Result<u64, String>,
    snapshot_height: u64,
    report: Result<(), String>,
    node: Seq<char>,
)
    requires
        replay_next(kept, height_view(height), snapshot_height) == (ReplayStep::Report(report))@,
    ensures
        report is Err,
        reaction(node, Wakeup::FetchEnded(report)) == ActionView::GiveUp(
            "Abci state reading error: "@ + report->Err_0@,
        ),
{
}

} // verus!
