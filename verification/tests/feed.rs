use order_book_feed::address::Address;
use order_book_feed::address_map::AddressMap;
use order_book_feed::book::{Coin, CoinLevels, L2Snapshots, L4Order, Px};
use order_book_feed::dispatch::dispatch;
use order_book_feed::key_map::{CoinMap, KeyMap};
use order_book_feed::listener::{InitStep, Next, OrderBookListener};
use order_book_feed::messages::{Boundaries, EventBatch, InternalMessage};
use order_book_feed::node_data::{
    Batch, EventSource, NodeDataOrderDiff, NodeDataOrderStatus, OrderDiff,
};
use order_book_feed::responses::{L4Book, ServerResponse};
use order_book_feed::server::receive_client_message;
use order_book_feed::subscription::{ClientMessage, Subscription, SubscriptionManager, Universe};
use order_book_feed::time::Timestamp;

const T: Timestamp = Timestamp { secs: 1, nanos: 0 };
const ALICE: &str = "00000000000000000000000000000000000000aa";

fn alice() -> Address {
    Address { hi: 0, lo: 0xaa }
}

fn diff(coin: &str, oid: u64, what: OrderDiff) -> NodeDataOrderDiff {
    diff_at(8, coin, oid, what)
}

fn diff_at(price: u64, coin: &str, oid: u64, what: OrderDiff) -> NodeDataOrderDiff {
    NodeDataOrderDiff {
        user: alice(),
        oid,
        px: price.to_string(),
        price: Some(Px { raw: price }),
        coin: Coin::new(coin, false),
        raw_book_diff: what,
    }
}

fn new() -> OrderDiff {
    OrderDiff::New { sz: "2".to_string() }
}

fn status(oid: u64) -> NodeDataOrderStatus {
    NodeDataOrderStatus {
        time: T,
        user: alice(),
        status: "open".to_string(),
        order: L4Order {
            user: None,
            oid,
            sz: "3".to_string(),
            is_trigger: false,
            tif: Some("Alo".to_string()),
            rest: String::new(),
        },
    }
}

/// A listener with a book, and a client with the given subscriptions.
struct Scene {
    listener: OrderBookListener,
    manager: SubscriptionManager,
    universe: Universe,
    sent: Vec<ServerResponse>,
}

impl Scene {
    fn new(streaming: bool, subscriptions: Vec<Subscription>) -> Scene {
        let mut listener = OrderBookListener::new(true, false, streaming);
        listener.begin_init(&CoinMap::new());
        assert!(matches!(listener.init_step(Ok(())), InitStep::Ready));
        let mut manager = SubscriptionManager::new();
        for subscription in subscriptions {
            manager.subscribe(subscription);
        }
        Scene { listener, manager, universe: Universe::new(), sent: Vec::new() }
    }

    fn tell(&mut self, messages: Vec<InternalMessage>) {
        for message in messages {
            self.sent.extend(dispatch(&self.manager, &mut self.universe, false, &message));
        }
    }

    fn arrives(&mut self, source: EventSource, batch: EventBatch) {
        let (messages, mut next) = self.listener.line_parsed(source, Ok(batch));
        self.tell(messages);
        while let Next::Apply(block) = next {
            let mut boundaries = CoinMap::new();
            boundaries.insert(
                "BTC".to_string(),
                Boundaries { bid_floor: Some(Px { raw: 7 }), ask_ceiling: Some(Px { raw: 9 }) },
            );
            let (messages, follow) = self.listener.block_applied(source, block, Ok(boundaries));
            self.tell(messages);
            next = follow;
        }
    }

    fn diffs(&mut self, block: u64, diffs: Vec<NodeDataOrderDiff>) {
        self.arrives(EventSource::OrderDiffs, EventBatch::BookDiffs(Batch::new(T, T, block, diffs)));
    }

    fn statuses(&mut self, block: u64, statuses: Vec<NodeDataOrderStatus>) {
        self.arrives(EventSource::OrderStatuses, EventBatch::Orders(Batch::new(T, T, block, statuses)));
    }

    fn book_oids(&self) -> Vec<u64> {
        let mut oids = Vec::new();
        for response in &self.sent {
            if let ServerResponse::L4Book(L4Book::Updates(updates)) = response {
                oids.extend(updates.book_diffs.iter().map(|d| d.oid));
            }
        }
        oids
    }

    fn stream_oids(&self) -> Vec<u64> {
        let mut oids = Vec::new();
        for response in &self.sent {
            if let ServerResponse::L4BookStream(stream) = response {
                oids.extend(stream.book_diffs.iter().map(|d| d.oid));
            }
        }
        oids
    }

    fn open_oids(&self) -> Option<Vec<u64>> {
        self.sent.iter().rev().find_map(|response| match response {
            ServerResponse::OpenOrders(data) => Some(data.open_orders.iter().map(|o| o.oid).collect()),
            _ => None,
        })
    }
}

#[test]
fn book_subscribers_miss_nothing_near_the_top() {
    let mut scene = Scene::new(false, vec![Subscription::L4Book { coin: "BTC".to_string() }]);
    let far = |oid: u64| diff_at(6, "BTC", oid, new());
    scene.diffs(1, vec![diff("BTC", 1, new()), diff("ETH", 2, new()), far(3), diff("BTC", 4, new())]);
    scene.diffs(2, vec![diff("ETH", 5, new()), far(6)]);
    scene.diffs(3, vec![diff_at(10, "BTC", 7, new()), diff("BTC", 8, new())]);
    assert!(scene.book_oids().is_empty());
    scene.statuses(1, vec![]);
    scene.statuses(3, vec![]);
    assert_eq!(scene.book_oids(), vec![1, 4, 8]);
    assert!(scene.stream_oids().is_empty());
    assert_eq!(scene.sent.len(), 2);
}

#[test]
fn stream_subscribers_miss_nothing() {
    let subscriptions = vec![
        Subscription::L4BookStream { coin: "BTC".to_string() },
        Subscription::L4Book { coin: "BTC".to_string() },
    ];
    let mut scene = Scene::new(true, subscriptions);
    scene.diffs(1, vec![diff("BTC", 1, new()), diff("ETH", 2, new())]);
    assert_eq!(scene.stream_oids(), vec![1]);
    scene.diffs(1, vec![diff("BTC", 3, new())]);
    scene.diffs(2, vec![diff("BTC", 4, new())]);
    assert_eq!(scene.stream_oids(), vec![1, 3, 4]);
    assert!(scene.book_oids().is_empty());
    scene.statuses(1, vec![]);
    scene.statuses(2, vec![]);
    assert_eq!(scene.book_oids(), vec![1, 3]);
}

#[test]
fn by_block_mode_does_not_stream() {
    let mut scene = Scene::new(false, vec![Subscription::L4BookStream { coin: "BTC".to_string() }]);
    scene.diffs(1, vec![diff("BTC", 1, new())]);
    scene.statuses(1, vec![]);
    assert!(scene.sent.is_empty());
}

#[test]
fn open_orders_subscribers_are_up_to_date() {
    let mut scene = Scene::new(false, vec![Subscription::OpenOrders { user: ALICE.to_string() }]);
    scene.diffs(1, vec![diff("BTC", 9, new()), diff("BTC", 4, new())]);
    scene.statuses(1, vec![status(4), status(9)]);
    assert_eq!(scene.open_oids(), Some(vec![4, 9]));
    scene.diffs(2, vec![diff("BTC", 4, OrderDiff::Remove)]);
    scene.statuses(2, vec![]);
    assert_eq!(scene.open_oids(), Some(vec![9]));
    let count = scene.sent.len();
    scene.diffs(3, vec![diff("BTC", 77, OrderDiff::Remove)]);
    scene.statuses(3, vec![]);
    assert_eq!(scene.sent.len(), count);
    let open: Vec<u64> = scene.listener.get_open_orders(&alice()).iter().map(|o| o.oid).collect();
    assert_eq!(scene.open_oids(), Some(open));
}

fn told_fills(streaming: bool, blocks: &[u64]) -> Vec<u64> {
    let mut scene = Scene::new(streaming, vec![]);
    let mut told = Vec::new();
    for block in blocks {
        let batch = EventBatch::Fills(Batch::new(T, T, *block, vec![]));
        let (messages, _) = scene.listener.line_parsed(EventSource::Fills, Ok(batch));
        for message in messages {
            match message {
                InternalMessage::Fills { batch } => told.push(batch.block_number()),
                _ => panic!("fills were expected"),
            }
        }
    }
    told
}

#[test]
fn old_fills_are_not_told() {
    assert_eq!(told_fills(false, &[5, 5, 4, 6, 5, 6, 7]), vec![5, 6, 7]);
}

#[test]
fn streamed_fills_of_the_same_block_are_told() {
    assert_eq!(told_fills(true, &[5, 5, 4, 6, 5, 6, 7]), vec![5, 5, 6, 6, 7]);
}

#[test]
fn spot_markets_are_refused_where_they_are_left_out() {
    let mut coins = CoinMap::new();
    coins.insert("@7".to_string(), CoinLevels { spot: true, levels: KeyMap::new() });
    let message = InternalMessage::Snapshot { l2_snapshots: L2Snapshots(coins), time: 1 };
    let mut manager = SubscriptionManager::new();
    let mut universe = Universe::new();
    let coin = "@7".to_string();
    let subscribe = || ClientMessage::Subscribe { subscription: Subscription::Trades { coin: coin.clone() } };
    dispatch(&manager, &mut universe, true, &message);
    let all = vec![
        Subscription::Trades { coin: coin.clone() },
        Subscription::L2Book { coin: coin.clone(), n_sig_figs: None, n_levels: None, mantissa: None },
        Subscription::L4Book { coin: coin.clone() },
        Subscription::L4BookStream { coin: coin.clone() },
    ];
    for subscription in all {
        let message = ClientMessage::Subscribe { subscription };
        let refused = receive_client_message(&mut manager, message, "S", &universe, &None, &AddressMap::new());
        assert!(matches!(refused.as_slice(), [ServerResponse::Error(text)] if text == "Invalid subscription: S"));
    }
    dispatch(&manager, &mut universe, false, &message);
    let served = receive_client_message(&mut manager, subscribe(), "S", &universe, &None, &AddressMap::new());
    assert!(matches!(served.as_slice(), [ServerResponse::SubscriptionResponse(_)]));
}
