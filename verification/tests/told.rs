use order_book_feed::address::Address;
use order_book_feed::address_map::AddressMap;
use order_book_feed::book::{
    Coin, CoinLevels, InnerLevel, L2SnapshotParams, L2Snapshots, L4Order, Px, Side, Snapshot, Sz,
};
use order_book_feed::dispatch::dispatch;
use order_book_feed::grouping::{
    coin_to_book_updates, coin_to_streaming_book_updates, coin_to_trades, new_universe,
};
use order_book_feed::key_map::{CoinMap, KeyMap};
use order_book_feed::messages::{Boundaries, InternalMessage};
use order_book_feed::node_data::{Batch, Fill, NodeDataFill, NodeDataOrderDiff, OrderDiff};
use order_book_feed::responses::{L4Book, ServerResponse};
use order_book_feed::subscription::{Subscription, SubscriptionManager, Universe};
use order_book_feed::time::Timestamp;

const T: Timestamp = Timestamp { secs: 3, nanos: 4_000_000 };
const ALICE: &str = "0x00000000000000000000000000000000000000aa";

fn diff(coin: &str, oid: u64, price: Option<u64>) -> NodeDataOrderDiff {
    NodeDataOrderDiff {
        user: Address { hi: 0, lo: 1 },
        oid,
        px: "p".to_string(),
        price: price.map(|raw| Px { raw }),
        coin: Coin::new(coin, false),
        raw_book_diff: OrderDiff::Remove,
    }
}

fn fill(coin: &str, side: Side, tag: &str) -> NodeDataFill {
    NodeDataFill(Address { hi: 0, lo: 2 }, Fill { coin: coin.to_string(), side, rest: tag.to_string() })
}

fn level(px: u64) -> InnerLevel {
    InnerLevel { px: Px { raw: px }, sz: Sz { raw: 2 }, n: 1 }
}

fn snapshots(n: u64) -> L2Snapshots {
    let mut coins = CoinMap::new();
    for (name, spot) in [("BTC", false), ("@1", true)] {
        let mut levels = KeyMap::new();
        levels.insert(
            L2SnapshotParams::new(None, None),
            Snapshot { bids: (0..n).map(|i| level(1000 - i)).collect(), asks: vec![level(2000)] },
        );
        levels.insert(
            L2SnapshotParams::new(Some(2), None),
            Snapshot { bids: vec![level(990)], asks: vec![level(2100)] },
        );
        coins.insert(name.to_string(), CoinLevels { spot, levels });
    }
    L2Snapshots(coins)
}

fn manager(subscriptions: Vec<Subscription>) -> SubscriptionManager {
    let mut manager = SubscriptionManager::new();
    for subscription in subscriptions {
        assert!(manager.subscribe(subscription));
    }
    manager
}

fn everything() -> SubscriptionManager {
    manager(vec![
        Subscription::Trades { coin: "BTC".to_string() },
        Subscription::L2Book { coin: "BTC".to_string(), n_sig_figs: None, n_levels: None, mantissa: None },
        Subscription::L2Book { coin: "BTC".to_string(), n_sig_figs: Some(2), n_levels: Some(3), mantissa: None },
        Subscription::L2Book { coin: "BTC".to_string(), n_sig_figs: Some(9), n_levels: None, mantissa: None },
        Subscription::L4Book { coin: "BTC".to_string() },
        Subscription::L4Book { coin: "ETH".to_string() },
        Subscription::OpenOrders { user: ALICE.to_string() },
        Subscription::OpenOrders { user: "bob".to_string() },
        Subscription::L4BookStream { coin: "ETH".to_string() },
        Subscription::Trades { coin: "ETH".to_string() },
    ])
}

fn tell(manager: &SubscriptionManager, message: InternalMessage) -> Vec<ServerResponse> {
    dispatch(manager, &mut Universe::new(), false, &message)
}

fn has(universe: &Universe, coin: &str) -> bool {
    universe.contains(&coin.to_string())
}

#[test]
fn the_universe_is_made_of_the_coins_of_a_snapshot() {
    let all = new_universe(&snapshots(1), false);
    assert!(has(&all, "BTC") && has(&all, "@1") && !has(&all, "ETH"));
    let perps = new_universe(&snapshots(1), true);
    assert!(has(&perps, "BTC") && !has(&perps, "@1"));
}

#[test]
fn two_fills_make_a_trade() {
    let batch = Batch::new(
        T,
        T,
        1,
        vec![
            fill("BTC", Side::Ask, "a"),
            fill("BTC", Side::Bid, "b"),
            fill("ETH", Side::Bid, "c"),
            fill("ETH", Side::Ask, "d"),
            fill("BTC", Side::Bid, "e"),
            fill("BTC", Side::Bid, "f"),
            fill("SOL", Side::Ask, "left over"),
        ],
    );
    let trades = coin_to_trades(&batch);
    assert_eq!(trades.keys().len(), 2);
    let btc = trades.get(&"BTC".to_string()).unwrap();
    assert_eq!(btc.len(), 2);
    assert_eq!(btc[0].ask, Some(fill("BTC", Side::Ask, "a")));
    assert_eq!(btc[0].bid, Some(fill("BTC", Side::Bid, "b")));
    assert_eq!(btc[1].ask, None);
    assert_eq!(btc[1].bid, Some(fill("BTC", Side::Bid, "f")));
    let eth = trades.get(&"ETH".to_string()).unwrap();
    assert_eq!(eth[0].ask, Some(fill("ETH", Side::Ask, "d")));
    assert_eq!(eth[0].bid, Some(fill("ETH", Side::Bid, "c")));
}

#[test]
fn diffs_of_a_block_are_sorted_by_coin() {
    let batch = Batch::new(T, T, 8, vec![diff("BTC", 1, None), diff("ETH", 2, None), diff("BTC", 3, None)]);
    let updates = coin_to_book_updates(&batch, &CoinMap::new());
    assert_eq!(updates.keys().len(), 2);
    let btc = updates.get(&"BTC".to_string()).unwrap();
    assert_eq!((btc.time, btc.height), (3004, 8));
    assert_eq!(btc.book_diffs, vec![diff("BTC", 1, None), diff("BTC", 3, None)]);
}

#[test]
fn updates_hold_what_is_near_the_top() {
    let mut boundaries = CoinMap::new();
    boundaries.insert(
        "BTC".to_string(),
        Boundaries { bid_floor: Some(Px { raw: 10 }), ask_ceiling: Some(Px { raw: 20 }) },
    );
    let diffs: Vec<NodeDataOrderDiff> =
        [1, 9, 10, 15, 20, 21, 99].iter().map(|px| diff("BTC", *px, Some(*px))).collect();
    let updates = coin_to_book_updates(&Batch::new(T, T, 8, diffs.clone()), &boundaries);
    assert_eq!(updates.get(&"BTC".to_string()).unwrap().book_diffs, diffs[2..5].to_vec());
    let far = vec![diff("BTC", 1, Some(9)), diff("BTC", 2, Some(21))];
    assert!(coin_to_book_updates(&Batch::new(T, T, 9, far), &boundaries).keys().is_empty());
}

#[test]
fn diffs_without_a_boundary_or_a_price_are_told() {
    let mut boundaries = CoinMap::new();
    boundaries.insert("BTC".to_string(), Boundaries { bid_floor: Some(Px { raw: 20 }), ask_ceiling: None });
    boundaries.insert("ETH".to_string(), Boundaries { bid_floor: None, ask_ceiling: Some(Px { raw: 10 }) });
    boundaries.insert("ARB".to_string(), Boundaries { bid_floor: None, ask_ceiling: None });
    let diffs = vec![
        diff("BTC", 1, Some(19)),
        diff("BTC", 2, Some(1000)),
        diff("BTC", 3, None),
        diff("ETH", 4, Some(1)),
        diff("ETH", 5, Some(11)),
        diff("ARB", 6, Some(5)),
        diff("SOL", 7, Some(15)),
    ];
    let updates = coin_to_book_updates(&Batch::new(T, T, 8, diffs), &boundaries);
    let oids = |coin: &str| -> Vec<u64> {
        updates.get(&coin.to_string()).unwrap().book_diffs.iter().map(|d| d.oid).collect()
    };
    assert_eq!(oids("BTC"), vec![2, 3]);
    assert_eq!(oids("ETH"), vec![4]);
    assert_eq!(oids("ARB"), vec![6]);
    assert_eq!(oids("SOL"), vec![7]);
}

#[test]
fn arriving_diffs_are_sorted_by_coin() {
    let diffs = vec![diff("BTC", 1, None), diff("ETH", 2, None), diff("BTC", 3, None)];
    let updates = coin_to_streaming_book_updates(&diffs, 5, 6);
    let btc = updates.get(&"BTC".to_string()).unwrap();
    assert_eq!((btc.coin.as_str(), btc.time, btc.height), ("BTC", 5, 6));
    assert_eq!(btc.book_diffs, vec![diff("BTC", 1, None), diff("BTC", 3, None)]);
    assert!(updates.get(&"SOL".to_string()).is_none());
}

#[test]
fn levels_are_told_to_those_who_asked() {
    let mut universe = Universe::new();
    let message = InternalMessage::Snapshot { l2_snapshots: snapshots(30), time: 77 };
    let responses = dispatch(&everything(), &mut universe, true, &message);
    assert!(has(&universe, "BTC") && !has(&universe, "@1"));
    assert_eq!(responses.len(), 2);
    match &responses[0] {
        ServerResponse::L2Book(book) => {
            assert_eq!((book.coin.as_str(), book.time), ("BTC", 77));
            assert_eq!(book.levels.bids, (0..20).map(|i| level(1000 - i)).collect::<Vec<InnerLevel>>());
            assert_eq!(book.levels.asks, vec![level(2000)]);
        }
        other => panic!("levels were expected: {other:?}"),
    }
    match &responses[1] {
        ServerResponse::L2Book(book) => assert_eq!(book.levels.bids, vec![level(990)]),
        other => panic!("levels were expected: {other:?}"),
    }
}

#[test]
fn as_many_levels_are_sent_as_were_asked_for() {
    let manager = manager(vec![Subscription::L2Book {
        coin: "BTC".to_string(),
        n_sig_figs: None,
        n_levels: Some(25),
        mantissa: None,
    }]);
    let responses = tell(&manager, InternalMessage::Snapshot { l2_snapshots: snapshots(30), time: 1 });
    assert!(matches!(&responses[0], ServerResponse::L2Book(book) if book.levels.bids.len() == 25));
}

#[test]
fn trades_are_told_to_those_who_asked() {
    let batch = Batch::new(T, T, 1, vec![fill("ETH", Side::Ask, "a"), fill("ETH", Side::Bid, "b")]);
    let responses = tell(&everything(), InternalMessage::Fills { batch });
    assert_eq!(responses.len(), 1);
    assert!(matches!(&responses[0], ServerResponse::Trades(trades) if trades.len() == 1 && trades[0].coin == "ETH"));
}

#[test]
fn blocks_are_told_to_those_who_asked() {
    let diff_batch = Batch::new(T, T, 9, vec![diff("ETH", 1, None), diff("BTC", 2, None), diff("SOL", 3, None)]);
    let message = InternalMessage::L4BookUpdates { diff_batch, price_boundaries: CoinMap::new() };
    let responses = tell(&everything(), message);
    let oids: Vec<u64> = responses
        .iter()
        .map(|response| match response {
            ServerResponse::L4Book(L4Book::Updates(updates)) => {
                assert_eq!((updates.time, updates.height), (3004, 9));
                updates.book_diffs[0].oid
            }
            other => panic!("diffs were expected: {other:?}"),
        })
        .collect();
    assert_eq!(oids, vec![2, 1]);
}

#[test]
fn open_orders_are_told_to_those_who_asked() {
    let order = L4Order {
        user: None,
        oid: 4,
        sz: "1".to_string(),
        is_trigger: false,
        tif: Some("Gtc".to_string()),
        rest: String::new(),
    };
    let mut changed_users = AddressMap::new();
    changed_users.insert(Address { hi: 0, lo: 0xaa }, vec![order.clone()]);
    changed_users.insert(Address { hi: 0, lo: 0xbb }, vec![]);
    let responses = tell(&everything(), InternalMessage::OpenOrdersUpdate { changed_users });
    assert_eq!(responses.len(), 1);
    match &responses[0] {
        ServerResponse::OpenOrders(data) => {
            assert_eq!(data.user, Address { hi: 0, lo: 0xaa });
            assert_eq!(data.open_orders, vec![order]);
        }
        other => panic!("open orders were expected: {other:?}"),
    }
}

#[test]
fn arriving_diffs_are_told_to_those_who_asked() {
    let diffs = vec![diff("ETH", 1, None), diff("BTC", 2, None)];
    let responses = tell(&everything(), InternalMessage::StreamingBookDiffs { diffs, time: 5, height: 6 });
    assert_eq!(responses.len(), 1);
    assert!(matches!(
        &responses[0],
        ServerResponse::L4BookStream(stream)
            if stream.coin == "ETH" && stream.time == 5 && stream.height == 6 && stream.book_diffs.len() == 1
    ));
}

#[test]
fn whoever_has_not_asked_is_told_nothing() {
    let diffs = vec![diff("ETH", 1, None)];
    let message = InternalMessage::StreamingBookDiffs { diffs, time: 5, height: 6 };
    assert!(tell(&SubscriptionManager::new(), message).is_empty());
}
