use order_book_feed::address::Address;
use order_book_feed::batch_queue::BatchQueue;
use order_book_feed::book::{Coin, InnerL4Order, L4Order, Px, Snapshot};
use order_book_feed::key_map::CoinMap;
use order_book_feed::listener::{InitStep, OrderBookListener};
use order_book_feed::messages::EventBatch;
use order_book_feed::node_data::{Batch, NodeDataOrderDiff, NodeDataOrderStatus, OrderDiff};
use order_book_feed::open_orders::OpenOrders;
use order_book_feed::time::Timestamp;

const T: Timestamp = Timestamp { secs: 7, nanos: 0 };

fn user(n: u128) -> Address {
    Address { hi: 0, lo: n }
}

fn order(oid: u64, sz: &str) -> L4Order {
    L4Order { user: None, oid, sz: sz.to_string(), is_trigger: false, tif: None, rest: "r".to_string() }
}

fn diff(owner: u128, oid: u64, what: OrderDiff) -> NodeDataOrderDiff {
    NodeDataOrderDiff {
        user: user(owner),
        oid,
        px: "x".to_string(),
        price: None,
        coin: Coin::new("ETH", false),
        raw_book_diff: what,
    }
}

fn new(sz: &str) -> OrderDiff {
    OrderDiff::New { sz: sz.to_string() }
}

fn update(sz: &str) -> OrderDiff {
    OrderDiff::Update { orig_sz: "?".to_string(), new_sz: sz.to_string() }
}

fn status(owner: u128, oid: u64, text: &str) -> NodeDataOrderStatus {
    NodeDataOrderStatus { time: T, user: user(owner), status: text.to_string(), order: order(oid, "9") }
}

fn inner(owner: u128, oid: u64) -> InnerL4Order {
    InnerL4Order { user: user(owner), oid, limit_px: Px { raw: 1 }, shown: order(oid, "shown") }
}

fn diffs(block: u64, oids: &[u64]) -> EventBatch {
    EventBatch::BookDiffs(Batch::new(T, T, block, oids.iter().map(|o| diff(1, *o, new("1"))).collect()))
}

fn statuses(block: u64, oids: &[u64]) -> EventBatch {
    EventBatch::Orders(Batch::new(T, T, block, oids.iter().map(|o| status(1, *o, "open")).collect()))
}

fn queue(blocks: &[u64]) -> BatchQueue<u8> {
    let mut queue = BatchQueue::new();
    for block in blocks {
        queue.push(Batch::new(T, T, *block, vec![*block as u8]));
    }
    queue
}

/// The numbers and the counts of statuses and diffs of the blocks that can be taken.
fn take_all(listener: &mut OrderBookListener) -> Vec<(u64, usize, usize)> {
    let mut taken = Vec::new();
    while let Some(block) = listener.pop_cache() {
        assert_eq!(block.statuses.block_number(), block.diffs.block_number());
        taken.push((
            block.diffs.block_number(),
            block.statuses.events_ref().len(),
            block.diffs.events_ref().len(),
        ));
    }
    taken
}

#[test]
fn newer_blocks_queue_up() {
    let mut queue = queue(&[3, 5]);
    assert_eq!(queue.len(), 2);
    assert!(queue.is_front_complete());
    assert_eq!(queue.front().unwrap().block_number(), 3);
    assert_eq!(queue.pop_front().unwrap().block_number(), 3);
    assert!(!queue.is_front_complete());
    assert_eq!(queue.pop_front().unwrap().block_number(), 5);
    assert!(queue.pop_front().is_none());
    assert!(queue.front().is_none());
}

#[test]
fn more_of_the_newest_block_is_put_to_it() {
    let mut queue = queue(&[3]);
    assert!(queue.push(Batch::new(T, T, 3, vec![1, 2])));
    assert_eq!(queue.len(), 1);
    assert_eq!(queue.front().unwrap().events_ref(), &[3, 1, 2]);
}

#[test]
fn older_blocks_come_too_late() {
    let mut queue = queue(&[3, 5]);
    assert!(!queue.push(Batch::new(T, T, 4, vec![1])));
    assert!(!queue.push(Batch::new(T, T, 3, vec![1])));
    assert_eq!(queue.len(), 2);
    queue.pop_front();
    queue.pop_front();
    assert!(!queue.push(Batch::new(T, T, 5, vec![1])));
    assert!(queue.push(Batch::new(T, T, 6, vec![1])));
}

#[test]
fn blocks_of_both_streams_are_brought_together() {
    let mut listener = OrderBookListener::new(true, false, false);
    assert!(take_all(&mut listener).is_empty());
    listener.receive_batch(diffs(1, &[1, 2]));
    assert!(take_all(&mut listener).is_empty());
    listener.receive_batch(statuses(1, &[1]));
    assert_eq!(take_all(&mut listener), vec![(1, 1, 2)]);
}

#[test]
fn a_block_of_one_stream_is_taken_alone() {
    let mut listener = OrderBookListener::new(true, false, false);
    for block in [2, 3, 6] {
        listener.receive_batch(diffs(block, &[block]));
    }
    for block in [1, 3, 4] {
        listener.receive_batch(statuses(block, &[block, block]));
    }
    assert_eq!(take_all(&mut listener), vec![(1, 2, 0), (2, 0, 1), (3, 2, 1), (4, 2, 0)]);
    listener.receive_batch(statuses(6, &[]));
    assert_eq!(take_all(&mut listener), vec![(6, 0, 1)]);
}

#[test]
fn streamed_blocks_wait_for_newer_ones() {
    let mut listener = OrderBookListener::new(true, false, true);
    listener.receive_batch(diffs(1, &[1]));
    listener.receive_batch(statuses(1, &[1]));
    assert!(take_all(&mut listener).is_empty());
    listener.receive_batch(diffs(1, &[2]));
    listener.receive_batch(diffs(2, &[3]));
    assert!(take_all(&mut listener).is_empty());
    listener.receive_batch(statuses(2, &[3]));
    assert_eq!(take_all(&mut listener), vec![(1, 1, 2)]);
}

#[test]
fn streamed_blocks_of_one_stream_wait_too() {
    let mut listener = OrderBookListener::new(true, false, true);
    listener.receive_batch(diffs(1, &[1]));
    listener.receive_batch(statuses(2, &[1]));
    assert!(take_all(&mut listener).is_empty());
    listener.receive_batch(diffs(3, &[1]));
    assert_eq!(take_all(&mut listener), vec![(1, 0, 1)]);
    listener.receive_batch(statuses(4, &[1]));
    assert_eq!(take_all(&mut listener), vec![(2, 1, 0)]);
}

#[test]
fn late_batches_are_dropped() {
    let mut listener = OrderBookListener::new(true, false, false);
    listener.receive_batch(diffs(5, &[1]));
    listener.receive_batch(statuses(5, &[1]));
    assert_eq!(take_all(&mut listener).len(), 1);
    listener.receive_batch(diffs(5, &[2]));
    listener.receive_batch(statuses(4, &[2]));
    listener.receive_batch(diffs(6, &[3]));
    assert!(take_all(&mut listener).is_empty());
    listener.receive_batch(statuses(6, &[]));
    assert_eq!(take_all(&mut listener), vec![(6, 0, 1)]);
}

#[test]
fn new_orders_are_opened_for_the_user_of_their_status() {
    let mut open = OpenOrders::new();
    let changed = open.update_open_orders(&[status(4, 10, "open")], &[diff(1, 10, new("2"))]);
    assert_eq!(changed, vec![user(4)]);
    let orders = open.get_open_orders(&user(4));
    assert_eq!(orders.len(), 1);
    assert_eq!(orders[0].sz, "2");
    assert_eq!(orders[0].user, Some(user(4)));
    assert_eq!(orders[0].rest, "r");
    assert!(open.get_open_orders(&user(1)).is_empty());
}

#[test]
fn new_orders_without_a_status_are_passed_over() {
    let mut open = OpenOrders::new();
    assert!(open.update_open_orders(&[], &[diff(1, 10, new("2"))]).is_empty());
    assert!(open.update_open_orders(&[status(1, 10, "filled")], &[diff(1, 10, new("2"))]).is_empty());
    assert!(open.users().is_empty());
}

#[test]
fn untriggered_orders_are_not_opened() {
    let mut open = OpenOrders::new();
    let mut waiting = status(1, 10, "open");
    waiting.order.is_trigger = true;
    assert!(open.update_open_orders(&[waiting], &[diff(1, 10, new("2"))]).is_empty());
    let mut triggered = status(1, 10, "triggered");
    triggered.order.is_trigger = true;
    assert_eq!(open.update_open_orders(&[triggered], &[diff(1, 10, new("2"))]), vec![user(1)]);
}

#[test]
fn one_status_opens_one_order() {
    let mut open = OpenOrders::new();
    let changed = open.update_open_orders(
        &[status(1, 10, "open"), status(2, 10, "open")],
        &[diff(1, 10, new("2")), diff(1, 10, new("3"))],
    );
    assert_eq!(changed, vec![user(2)]);
    assert_eq!(open.get_open_orders(&user(2))[0].sz, "2");
}

#[test]
fn sizes_follow_updates() {
    let mut open = OpenOrders::new();
    open.update_open_orders(&[status(1, 10, "open")], &[diff(1, 10, new("2"))]);
    assert_eq!(open.update_open_orders(&[], &[diff(1, 10, update("1.5"))]), vec![user(1)]);
    assert_eq!(open.get_open_orders(&user(1))[0].sz, "1.5");
    assert!(open.update_open_orders(&[], &[diff(2, 10, update("1"))]).is_empty());
    assert!(open.update_open_orders(&[], &[diff(1, 11, update("1"))]).is_empty());
}

#[test]
fn removal_undoes_opening() {
    let mut open = OpenOrders::new();
    open.update_open_orders(&[status(1, 10, "open")], &[diff(1, 10, new("2"))]);
    assert_eq!(open.users(), vec![user(1)]);
    assert_eq!(open.update_open_orders(&[], &[diff(1, 10, OrderDiff::Remove)]), vec![user(1)]);
    assert!(open.users().is_empty());
    assert!(open.update_open_orders(&[], &[diff(1, 10, OrderDiff::Remove)]).is_empty());
}

#[test]
fn untouched_users_keep_their_orders() {
    let mut open = OpenOrders::new();
    open.update_open_orders(
        &[status(1, 10, "open"), status(2, 11, "open")],
        &[diff(1, 10, new("2")), diff(2, 11, new("3"))],
    );
    let before = open.get_open_orders(&user(2));
    let changed = open.update_open_orders(&[], &[diff(1, 10, OrderDiff::Remove)]);
    assert_eq!(changed, vec![user(1)]);
    assert_eq!(open.get_open_orders(&user(2)), before);
}

#[test]
fn open_orders_stand_in_order_of_their_numbers() {
    let mut open = OpenOrders::new();
    let mut books = CoinMap::new();
    books.insert("A".to_string(), Snapshot { bids: vec![inner(1, 30), inner(2, 5)], asks: vec![inner(1, 4)] });
    books.insert("B".to_string(), Snapshot { bids: vec![], asks: vec![inner(1, 17)] });
    open.reload(&books);
    let numbers: Vec<u64> = open.get_open_orders(&user(1)).iter().map(|o| o.oid).collect();
    assert_eq!(numbers, vec![4, 17, 30]);
    assert_eq!(open.get_open_orders(&user(2))[0].sz, "shown");
}

#[test]
fn a_snapshot_replaces_the_open_orders() {
    let mut open = OpenOrders::new();
    open.update_open_orders(&[status(1, 10, "open")], &[diff(1, 10, new("2"))]);
    let mut books = CoinMap::new();
    books.insert("A".to_string(), Snapshot { bids: vec![inner(3, 30)], asks: vec![] });
    open.reload(&books);
    assert_eq!(open.users(), vec![user(3)]);
}

#[test]
fn a_start_takes_the_orders_of_the_books() {
    let mut listener = OrderBookListener::new(true, false, false);
    let mut books = CoinMap::new();
    books.insert("A".to_string(), Snapshot { bids: vec![inner(3, 30)], asks: vec![] });
    listener.receive_batch(diffs(8, &[]));
    listener.receive_batch(EventBatch::Orders(Batch::new(T, T, 8, vec![])));
    listener.begin_init(&books);
    let mut step = listener.init_step(Ok(()));
    while let InitStep::Apply(_) = step {
        assert!(!listener.is_ready());
        step = listener.init_step(Ok(()));
    }
    assert!(matches!(step, InitStep::Ready));
    assert!(listener.is_ready());
    assert!(listener.pop_cache().is_none());
    assert_eq!(listener.get_open_orders(&user(3)).len(), 1);
    let listed = listener.open_orders_of(&vec![user(3), user(4)]);
    assert_eq!(listed.get(&user(3)).unwrap().len(), 1);
    assert!(listed.get(&user(4)).unwrap().is_empty());
    assert!(listed.get(&user(5)).is_none());
}
