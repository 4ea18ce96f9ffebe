use order_book_feed::address::Address;
use order_book_feed::book::{Coin, L2Snapshots, L4Order, Px, Side};
use order_book_feed::key_map::CoinMap;
use order_book_feed::lines::LineBuffer;
use order_book_feed::listener::{FileAction, InitStep, Next, OrderBookListener};
use order_book_feed::messages::{Boundaries, EventBatch, InternalMessage};
use order_book_feed::node_data::{
    Batch, EventSource, Fill, NodeDataFill, NodeDataOrderDiff, NodeDataOrderStatus, OrderDiff,
};
use order_book_feed::time::Timestamp;

const T: Timestamp = Timestamp { secs: 100, nanos: 0 };

fn diff(oid: u64) -> NodeDataOrderDiff {
    NodeDataOrderDiff {
        user: Address { hi: 0, lo: 1 },
        oid,
        px: "1".to_string(),
        price: Some(Px { raw: 1 }),
        coin: Coin::new("BTC", false),
        raw_book_diff: OrderDiff::New { sz: "3".to_string() },
    }
}

fn status(oid: u64) -> NodeDataOrderStatus {
    NodeDataOrderStatus {
        time: T,
        user: Address { hi: 0, lo: 9 },
        status: "open".to_string(),
        order: L4Order {
            user: None,
            oid,
            sz: "5".to_string(),
            is_trigger: false,
            tif: None,
            rest: String::new(),
        },
    }
}

fn diffs(block: u64, oids: &[u64]) -> EventBatch {
    EventBatch::BookDiffs(Batch::new(T, T, block, oids.iter().map(|o| diff(*o)).collect()))
}

fn statuses(block: u64, oids: &[u64]) -> EventBatch {
    EventBatch::Orders(Batch::new(T, T, block, oids.iter().map(|o| status(*o)).collect()))
}

fn ready(streaming: bool) -> OrderBookListener {
    let mut listener = OrderBookListener::new(true, false, streaming);
    listener.begin_init(&CoinMap::new());
    assert!(matches!(listener.init_step(Ok(())), InitStep::Ready));
    assert!(listener.is_ready());
    listener
}

fn line(next: Next) -> String {
    match next {
        Next::Parse(line) => line,
        _ => panic!("a line was expected"),
    }
}

#[test]
fn lines_are_read_across_pieces() {
    let mut buffer = LineBuffer::new();
    buffer.feed("{\"a\":");
    assert_eq!(buffer.next_line(), None);
    buffer.feed("1}\r\n\n\r\n{\"b\"");
    assert_eq!(buffer.next_line(), Some("{\"a\":1}".to_string()));
    assert_eq!(buffer.next_line(), None);
    assert!(!buffer.is_empty());
    buffer.feed(":2}\n");
    assert_eq!(buffer.next_line(), Some("{\"b\":2}".to_string()));
    assert!(buffer.is_empty());
}

#[test]
fn only_one_carriage_return_is_cut() {
    let mut buffer = LineBuffer::new();
    buffer.feed("x\r\r\n\r\r\nAé\u{1F600}\n");
    assert_eq!(buffer.next_line(), Some("x\r".to_string()));
    assert_eq!(buffer.next_line(), Some("\r".to_string()));
    assert_eq!(buffer.next_line(), Some("Aé\u{1F600}".to_string()));
    assert_eq!(buffer.next_line(), None);
}

#[test]
fn a_tail_is_taken_with_a_line_feed() {
    let mut buffer = LineBuffer::new();
    assert_eq!(buffer.take_tail(), None);
    buffer.feed("rest");
    assert_eq!(buffer.take_tail(), Some("rest\n".to_string()));
    assert!(buffer.is_empty());
    buffer.feed("x");
    buffer.clear();
    assert!(buffer.is_empty());
}

#[test]
fn data_is_read_line_by_line() {
    let mut listener = OrderBookListener::new(true, false, false);
    assert_eq!(line(listener.process_data("one\ntwo\nthr", EventSource::Fills)), "one");
    let fills = || EventBatch::Fills(Batch::new(T, T, 5, vec![]));
    let (messages, next) = listener.line_parsed(EventSource::Fills, Ok(fills()));
    assert_eq!(messages.len(), 1);
    assert!(matches!(&messages[0], InternalMessage::Fills { batch } if batch.block_number() == 5));
    assert_eq!(line(next), "two");
    let (_, next) = listener.line_parsed(EventSource::Fills, Ok(fills()));
    assert!(matches!(next, Next::Finish));
    assert_eq!(line(listener.process_data("ee\n", EventSource::Fills)), "three");
    assert!(matches!(listener.process_data("", EventSource::OrderDiffs), Next::Finish));
}

#[test]
fn a_line_that_holds_no_batch_is_an_error() {
    let mut listener = OrderBookListener::new(true, false, false);
    assert_eq!(line(listener.process_data("bad\nnext\n", EventSource::OrderStatuses)), "bad");
    let (messages, next) =
        listener.line_parsed(EventSource::OrderStatuses, Err("expected value at line 1 column 1".to_string()));
    assert!(messages.is_empty());
    match next {
        Next::Fail(complaint) => assert_eq!(
            complaint,
            "OrderStatuses serialization error: expected value at line 1 column 1"
        ),
        _ => panic!("a failure was expected"),
    }
    assert_eq!(line(listener.process_data("", EventSource::OrderStatuses)), "next");
}

#[test]
fn blocks_wait_until_there_is_a_book() {
    let mut listener = OrderBookListener::new(true, false, false);
    let (messages, next) = listener.line_parsed(EventSource::OrderDiffs, Ok(diffs(1, &[7])));
    assert!(messages.is_empty());
    assert!(matches!(next, Next::Finish));
    let (_, next) = listener.line_parsed(EventSource::OrderStatuses, Ok(statuses(1, &[7])));
    assert!(matches!(next, Next::Finish));
    listener.begin_init(&CoinMap::new());
    match listener.init_step(Ok(())) {
        InitStep::Apply(block) => assert_eq!(block.diffs.block_number(), 1),
        _ => panic!("a block was expected"),
    }
    assert!(!listener.is_ready());
    assert!(matches!(listener.init_step(Ok(())), InitStep::Ready));
    assert!(listener.is_ready());
    let orders = listener.get_open_orders(&Address { hi: 0, lo: 9 });
    assert_eq!(orders.len(), 1);
    assert_eq!(orders[0].sz, "3");
    assert_eq!(orders[0].user, Some(Address { hi: 0, lo: 9 }));
}

#[test]
fn a_start_that_fails_leaves_no_open_orders() {
    let mut listener = OrderBookListener::new(true, true, false);
    listener.line_parsed(EventSource::OrderDiffs, Ok(diffs(1, &[7])));
    listener.line_parsed(EventSource::OrderStatuses, Ok(statuses(1, &[7])));
    listener.begin_init(&CoinMap::new());
    assert!(matches!(listener.init_step(Ok(())), InitStep::Apply(_)));
    assert_eq!(listener.get_open_orders(&Address { hi: 0, lo: 9 }).len(), 1);
    assert!(matches!(listener.init_step(Err("gap".to_string())), InitStep::Retry));
    assert!(!listener.is_ready());
    assert!(listener.ignores_spot());
    assert!(listener.get_open_orders(&Address { hi: 0, lo: 9 }).is_empty());
}

#[test]
fn a_block_that_goes_into_the_book_is_told() {
    let mut listener = ready(false);
    listener.begin_caching();
    let (messages, next) = listener.line_parsed(EventSource::OrderDiffs, Ok(diffs(1, &[7])));
    assert!(messages.is_empty() && matches!(next, Next::Finish));
    let (messages, next) = listener.line_parsed(EventSource::OrderStatuses, Ok(statuses(1, &[7])));
    assert!(messages.is_empty());
    let block = match next {
        Next::Apply(block) => block,
        _ => panic!("a block was expected"),
    };
    let mut boundaries = CoinMap::new();
    boundaries.insert("BTC".to_string(), Boundaries { bid_floor: Some(Px { raw: 1 }), ask_ceiling: None });
    let (messages, next) = listener.block_applied(EventSource::OrderStatuses, block, Ok(boundaries));
    assert!(matches!(next, Next::Finish));
    assert_eq!(messages.len(), 2);
    match &messages[0] {
        InternalMessage::L4BookUpdates { diff_batch, price_boundaries } => {
            assert_eq!(diff_batch.events_ref(), &[diff(7)]);
            assert!(price_boundaries.get(&"BTC".to_string()).is_some());
        }
        _ => panic!("the diffs were expected"),
    }
    match &messages[1] {
        InternalMessage::OpenOrdersUpdate { changed_users } => {
            let orders = changed_users.get(&Address { hi: 0, lo: 9 }).unwrap();
            assert_eq!(orders.len(), 1);
            assert_eq!(orders[0].oid, 7);
            assert_eq!(changed_users.keys().len(), 1);
        }
        _ => panic!("open orders were expected"),
    }
    let kept = listener.take_cache();
    assert_eq!(kept.len(), 1);
    assert_eq!(kept[0].diffs.block_number(), 1);
    assert!(listener.take_cache().is_empty());
}

#[test]
fn a_block_that_touches_nobody_tells_no_open_orders() {
    let mut listener = ready(false);
    listener.line_parsed(EventSource::OrderDiffs, Ok(diffs(1, &[7])));
    let (_, next) = listener.line_parsed(EventSource::OrderStatuses, Ok(statuses(1, &[])));
    let block = match next {
        Next::Apply(block) => block,
        _ => panic!("a block was expected"),
    };
    let (messages, _) = listener.block_applied(EventSource::OrderStatuses, block, Ok(CoinMap::new()));
    assert_eq!(messages.len(), 1);
    assert!(matches!(&messages[0], InternalMessage::L4BookUpdates { .. }));
}

#[test]
fn nobody_is_told_where_nobody_listens() {
    let mut listener = OrderBookListener::new(false, false, true);
    listener.begin_init(&CoinMap::new());
    assert!(matches!(listener.init_step(Ok(())), InitStep::Ready));
    let (messages, _) = listener.line_parsed(EventSource::OrderDiffs, Ok(diffs(1, &[7])));
    assert!(messages.is_empty());
    let fills = EventBatch::Fills(Batch::new(T, T, 5, vec![]));
    let (messages, _) = listener.line_parsed(EventSource::Fills, Ok(fills));
    assert!(messages.is_empty());
    assert!(listener.l2_message(None).is_none());
}

#[test]
fn a_block_that_does_not_fit_gives_the_book_up() {
    let mut listener = ready(false);
    listener.line_parsed(EventSource::OrderDiffs, Ok(diffs(1, &[7])));
    let (_, next) = listener.line_parsed(EventSource::OrderStatuses, Ok(statuses(1, &[7])));
    let block = match next {
        Next::Apply(block) => block,
        _ => panic!("a block was expected"),
    };
    let (messages, next) =
        listener.block_applied(EventSource::OrderStatuses, block, Err("gap in heights".to_string()));
    assert!(messages.is_empty());
    assert!(matches!(next, Next::Fail(complaint) if complaint == "gap in heights"));
    assert!(!listener.is_ready());
}

#[test]
fn fills_are_told_with_their_sides() {
    let mut listener = OrderBookListener::new(true, false, false);
    let fill = NodeDataFill(
        Address { hi: 0, lo: 3 },
        Fill { coin: "BTC".to_string(), side: Side::Ask, rest: "{}".to_string() },
    );
    let batch = EventBatch::Fills(Batch::new(T, T, 2, vec![fill.clone()]));
    let (messages, _) = listener.line_parsed(EventSource::Fills, Ok(batch));
    assert!(matches!(&messages[0], InternalMessage::Fills { batch } if batch.events_ref() == [fill.clone()]));
}

#[test]
fn created_and_changed_files_are_read() {
    let mut listener = OrderBookListener::new(true, false, false);
    assert_eq!(listener.process_update(true, EventSource::Fills), FileAction::SwitchOver);
    assert_eq!(listener.process_update(false, EventSource::Fills), FileAction::StartAtEnd);
    listener.file_opened(EventSource::Fills);
    assert!(listener.is_reading(EventSource::Fills));
    assert!(!listener.is_reading(EventSource::OrderDiffs));
    assert!(!listener.is_reading(EventSource::OrderStatuses));
    assert_eq!(listener.process_update(false, EventSource::Fills), FileAction::ReadOn);
    assert_eq!(listener.process_update(true, EventSource::Fills), FileAction::SwitchOver);
}

#[test]
fn the_last_line_of_an_old_file_needs_no_line_feed() {
    let mut listener = OrderBookListener::new(true, false, false);
    listener.file_opened(EventSource::OrderDiffs);
    assert!(listener.read_rest("", EventSource::OrderDiffs).is_none());
    let next = listener.read_rest("last", EventSource::OrderDiffs).unwrap();
    assert!(matches!(next, Next::Finish));
    assert_eq!(
        listener.check_flushed(EventSource::OrderDiffs),
        Err("OrderDiffs file ended with a partial JSON record".to_string())
    );
    assert_eq!(line(listener.flush(EventSource::OrderDiffs).unwrap()), "last");
    assert_eq!(listener.check_flushed(EventSource::OrderDiffs), Ok(()));
    assert!(listener.flush(EventSource::OrderDiffs).is_none());
}

#[test]
fn a_new_file_starts_afresh() {
    let mut listener = OrderBookListener::new(true, false, false);
    listener.process_data("half a", EventSource::OrderStatuses);
    listener.file_opened(EventSource::OrderStatuses);
    assert_eq!(listener.check_flushed(EventSource::OrderStatuses), Ok(()));
    assert_eq!(line(listener.process_data("whole\n", EventSource::OrderStatuses)), "whole");
}

#[test]
fn streamed_diffs_are_told_on_arrival() {
    let mut listener = ready(true);
    assert!(listener.is_streaming());
    let (messages, next) = listener.line_parsed(EventSource::OrderDiffs, Ok(diffs(4, &[1, 2])));
    assert!(matches!(next, Next::Finish));
    match &messages[0] {
        InternalMessage::StreamingBookDiffs { diffs, time, height } => {
            assert_eq!(diffs, &vec![diff(1), diff(2)]);
            assert_eq!(*time, 100_000);
            assert_eq!(*height, 4);
        }
        _ => panic!("diffs were expected"),
    }
}

#[test]
fn levels_are_told_once_the_data_is_read() {
    let listener = ready(false);
    assert!(listener.l2_message(None).is_none());
    let message = listener.l2_message(Some((55, L2Snapshots(CoinMap::new()))));
    assert!(matches!(message, Some(InternalMessage::Snapshot { time: 55, .. })));
    let silent = OrderBookListener::new(false, false, false);
    assert!(silent.l2_message(Some((55, L2Snapshots(CoinMap::new())))).is_none());
}

/// What a text does to a listener with a book, read in the given pieces: the blocks that are told,
/// the blocks that go into the book, the number of open orders, and what is said of the text left.
/// A line is a block of one diff: the block's number, and the order's.
fn read_in_pieces(source: EventSource, pieces: &[&str]) -> (Vec<u64>, Vec<u64>, usize, Result<(), String>) {
    let mut listener = ready(false);
    for block in 1..4 {
        listener.line_parsed(EventSource::OrderStatuses, Ok(statuses(block, &[block * 10])));
    }
    let (mut told, mut applied) = (Vec::new(), Vec::new());
    for piece in pieces {
        let mut next = listener.process_data(piece, source);
        loop {
            let (messages, follow) = match next {
                Next::Parse(line) => {
                    let numbers: Vec<u64> = line.split(' ').map(|n| n.parse().unwrap()).collect();
                    listener.line_parsed(source, Ok(diffs(numbers[0], &[numbers[1]])))
                }
                Next::Apply(block) => {
                    applied.push(block.diffs.block_number());
                    listener.block_applied(source, block, Ok(CoinMap::new()))
                }
                Next::Finish => break,
                Next::Fail(complaint) => panic!("{complaint}"),
            };
            for message in messages {
                if let InternalMessage::L4BookUpdates { diff_batch, .. } = message {
                    told.push(diff_batch.block_number());
                }
            }
            next = follow;
        }
    }
    let open = listener.get_open_orders(&Address { hi: 0, lo: 9 }).len();
    (told, applied, open, listener.check_flushed(source))
}

#[test]
fn pieces_leave_the_same_listener() {
    let text = "1 10\r\n\n2 20\r\n3 30\n4 4";
    let whole = read_in_pieces(EventSource::OrderDiffs, &[text]);
    assert_eq!(whole.0, vec![1, 2, 3]);
    assert_eq!(whole.1, vec![1, 2, 3]);
    assert_eq!(whole.2, 3);
    assert!(whole.3.is_err());
    for at in 0..=text.len() {
        assert_eq!(read_in_pieces(EventSource::OrderDiffs, &[&text[..at], &text[at..]]), whole);
    }
}
