use order_book_feed::address::Address;
use order_book_feed::address_map::AddressMap;
use order_book_feed::book::{InnerL4Order, L4Order, Px, Snapshot, TimedSnapshots};
use order_book_feed::key_map::CoinMap;
use order_book_feed::levels::truncate_to_n_levels;
use order_book_feed::responses::{L4Book, ServerResponse};
use order_book_feed::server::{
    FrameAction, FrameKind, Request, greet, l4_coins, open_order_addrs, read_frame, receive_client_message,
    receive_client_messages, text_parsed,
};
use order_book_feed::subscription::{ClientMessage, Subscription, SubscriptionManager, Universe};

const ALICE: &str = "0x00000000000000000000000000000000000000aa";

fn alice() -> Address {
    Address { hi: 0, lo: 0xaa }
}

fn order(px: u64, oid: u64) -> InnerL4Order {
    InnerL4Order {
        user: alice(),
        oid,
        limit_px: Px { raw: px },
        shown: L4Order {
            user: Some(alice()),
            oid,
            sz: "1".to_string(),
            is_trigger: false,
            tif: None,
            rest: String::new(),
        },
    }
}

fn oids(orders: &[InnerL4Order]) -> Vec<u64> {
    orders.iter().map(|o| o.oid).collect()
}

fn universe() -> Universe {
    let mut universe = Universe::new();
    universe.insert("BTC".to_string());
    universe
}

fn l4(coin: &str) -> Subscription {
    Subscription::L4Book { coin: coin.to_string() }
}

fn trades(coin: &str) -> Subscription {
    Subscription::Trades { coin: coin.to_string() }
}

fn l2(n_levels: Option<usize>) -> Subscription {
    Subscription::L2Book { coin: "BTC".to_string(), n_sig_figs: None, n_levels, mantissa: None }
}

fn open_orders(user: &str) -> Subscription {
    Subscription::OpenOrders { user: user.to_string() }
}

fn subscribe(subscription: Subscription) -> ClientMessage {
    ClientMessage::Subscribe { subscription }
}

fn unsubscribe(subscription: Subscription) -> ClientMessage {
    ClientMessage::Unsubscribe { subscription }
}

fn books() -> Option<TimedSnapshots> {
    let mut snapshot = CoinMap::new();
    let bids: Vec<InnerL4Order> = (0..13).map(|i| order(100 - i, i)).collect();
    let asks = vec![order(101, 50), order(101, 51)];
    snapshot.insert("BTC".to_string(), Snapshot { bids, asks });
    Some(TimedSnapshots { time: 12, height: 34, snapshot })
}

fn send(manager: &mut SubscriptionManager, message: ClientMessage) -> Vec<ServerResponse> {
    receive_client_message(manager, message, "SUB", &universe(), &books(), &AddressMap::new())
}

fn error(responses: &[ServerResponse]) -> String {
    assert_eq!(responses.len(), 1);
    match &responses[0] {
        ServerResponse::Error(text) => text.clone(),
        other => panic!("an error was expected: {other:?}"),
    }
}

#[test]
fn a_ping_is_answered() {
    let mut manager = SubscriptionManager::new();
    let responses = send(&mut manager, ClientMessage::Ping);
    assert!(matches!(responses.as_slice(), [ServerResponse::Pong]));
}

#[test]
fn a_subscription_is_confirmed() {
    let mut manager = SubscriptionManager::new();
    let responses = send(&mut manager, subscribe(trades("BTC")));
    assert!(matches!(
        responses.as_slice(),
        [ServerResponse::SubscriptionResponse(ClientMessage::Subscribe { subscription: Subscription::Trades { coin } })]
            if coin == "BTC"
    ));
    assert_eq!(manager.subscriptions().len(), 1);
}

#[test]
fn a_second_subscription_is_refused() {
    let mut manager = SubscriptionManager::new();
    send(&mut manager, subscribe(trades("BTC")));
    assert_eq!(error(&send(&mut manager, subscribe(trades("BTC")))), "Already subscribed: SUB");
    assert_eq!(manager.subscriptions().len(), 1);
    assert_eq!(send(&mut manager, subscribe(l2(None))).len(), 1);
    assert_eq!(send(&mut manager, subscribe(l2(Some(5)))).len(), 1);
    assert_eq!(manager.subscriptions().len(), 3);
}

#[test]
fn unknown_coins_are_refused() {
    let mut manager = SubscriptionManager::new();
    let stream = Subscription::L4BookStream { coin: "XYZ".to_string() };
    let levels =
        Subscription::L2Book { coin: "XYZ".to_string(), n_sig_figs: Some(2), n_levels: None, mantissa: None };
    for subscription in [trades("XYZ"), l4("XYZ"), stream, levels] {
        assert_eq!(error(&send(&mut manager, subscribe(subscription.clone()))), "Invalid subscription: SUB");
        assert_eq!(error(&send(&mut manager, unsubscribe(subscription))), "Invalid subscription: SUB");
    }
    assert!(manager.subscriptions().is_empty());
}

#[test]
fn at_most_a_hundred_levels_can_be_asked_for() {
    assert!(l2(Some(100)).validate(&universe()));
    assert!(!l2(Some(101)).validate(&universe()));
    assert!(l2(None).validate(&universe()));
    assert!(open_orders("nobody").validate(&universe()));
}

#[test]
fn unsubscribing_undoes_subscribing() {
    let mut manager = SubscriptionManager::new();
    send(&mut manager, subscribe(trades("BTC")));
    send(&mut manager, subscribe(l2(None)));
    let responses = send(&mut manager, unsubscribe(l2(None)));
    assert!(matches!(
        responses.as_slice(),
        [ServerResponse::SubscriptionResponse(ClientMessage::Unsubscribe { .. })]
    ));
    assert_eq!(manager.subscriptions().len(), 1);
    assert!(manager.subscriptions()[0].same(&trades("BTC")));
}

#[test]
fn whoever_is_not_subscribed_cannot_unsubscribe() {
    let mut manager = SubscriptionManager::new();
    assert_eq!(error(&send(&mut manager, unsubscribe(trades("BTC")))), "Already unsubscribed: SUB");
}

#[test]
fn the_orders_of_a_book_come_first() {
    let mut manager = SubscriptionManager::new();
    let responses = send(&mut manager, subscribe(l4("BTC")));
    assert_eq!(responses.len(), 2);
    assert!(matches!(&responses[0], ServerResponse::SubscriptionResponse(_)));
    match &responses[1] {
        ServerResponse::L4Book(L4Book::Snapshot { coin, time, height, levels }) => {
            assert_eq!(coin, "BTC");
            assert_eq!((*time, *height), (12, 34));
            let bids: Vec<u64> = levels.bids.iter().map(|o| o.oid).collect();
            assert_eq!(bids, (0..10).collect::<Vec<u64>>());
            let asks: Vec<u64> = levels.asks.iter().map(|o| o.oid).collect();
            assert_eq!(asks, vec![50, 51]);
        }
        other => panic!("orders were expected: {other:?}"),
    }
}

#[test]
fn a_stream_begins_without_orders() {
    let mut manager = SubscriptionManager::new();
    let stream = Subscription::L4BookStream { coin: "BTC".to_string() };
    assert!(matches!(
        send(&mut manager, subscribe(stream)).as_slice(),
        [ServerResponse::SubscriptionResponse(_)]
    ));
}

#[test]
fn without_a_book_nobody_is_subscribed_to_its_orders() {
    let mut manager = SubscriptionManager::new();
    let responses =
        receive_client_message(&mut manager, subscribe(l4("BTC")), "SUB", &universe(), &None, &AddressMap::new());
    assert_eq!(error(&responses), "Unable to grab order book snapshot: Snapshot Failed");
    assert!(manager.subscriptions().is_empty());
    let empty = Some(TimedSnapshots { time: 1, height: 1, snapshot: CoinMap::new() });
    let responses =
        receive_client_message(&mut manager, subscribe(l4("BTC")), "SUB", &universe(), &empty, &AddressMap::new());
    assert_eq!(error(&responses), "Unable to grab order book snapshot: Snapshot Failed");
}

#[test]
fn open_orders_are_sent_at_once() {
    let mut manager = SubscriptionManager::new();
    let mut known = AddressMap::new();
    known.insert(alice(), vec![order(1, 77).shown]);
    let responses =
        receive_client_message(&mut manager, subscribe(open_orders(ALICE)), "SUB", &universe(), &None, &known);
    assert_eq!(responses.len(), 2);
    match &responses[1] {
        ServerResponse::OpenOrders(data) => {
            assert_eq!(data.user, alice());
            assert_eq!(data.open_orders, vec![order(1, 77).shown]);
        }
        other => panic!("open orders were expected: {other:?}"),
    }
}

#[test]
fn open_orders_that_were_not_looked_up_are_refused() {
    let mut manager = SubscriptionManager::new();
    assert_eq!(
        error(&send(&mut manager, subscribe(open_orders(ALICE)))),
        "Unable to grab order book snapshot: Open orders not available"
    );
    assert!(manager.subscriptions().is_empty());
}

#[test]
fn a_text_that_names_no_user_is_refused() {
    let mut manager = SubscriptionManager::new();
    let complaint = Address::parse("bob").unwrap_err();
    assert_eq!(
        error(&send(&mut manager, subscribe(open_orders("bob")))),
        format!("Unable to grab order book snapshot: Invalid address: {complaint}")
    );
    assert!(manager.subscriptions().is_empty());
}

#[test]
fn clients_wait_for_a_book() {
    assert!(greet(true).is_none());
    assert!(matches!(
        greet(false),
        Some(ServerResponse::Error(text)) if text == "Order book not ready for streaming (waiting for snapshot)"
    ));
}

#[test]
fn frames_are_read() {
    assert!(matches!(read_frame(FrameKind::Text, "hé".as_bytes()), FrameAction::Parse(text) if text == "hé"));
    assert!(matches!(read_frame(FrameKind::Text, &[0xff, 0x41]), FrameAction::End));
    assert!(matches!(read_frame(FrameKind::Text, &[0xed, 0xa0, 0x80]), FrameAction::End));
    assert!(matches!(read_frame(FrameKind::Text, &[]), FrameAction::Parse(text) if text.is_empty()));
    assert!(matches!(read_frame(FrameKind::Close, b"x"), FrameAction::End));
    assert!(matches!(read_frame(FrameKind::Other, b"x"), FrameAction::Skip));
}

#[test]
fn texts_that_hold_no_message_are_refused() {
    let mut messages = Vec::new();
    assert!(text_parsed(&mut messages, "{}", Some(ClientMessage::Ping)).is_none());
    let complaint = text_parsed(&mut messages, "hello", None);
    assert!(matches!(
        complaint,
        Some(ServerResponse::Error(text)) if text == "Error parsing JSON into valid websocket request: hello"
    ));
    assert_eq!(messages.len(), 1);
}

#[test]
fn what_has_to_be_looked_up_is_known() {
    let messages = vec![
        subscribe(l4("BTC")),
        ClientMessage::Ping,
        subscribe(open_orders(ALICE)),
        unsubscribe(l4("ETH")),
        subscribe(open_orders("bob")),
        subscribe(l4("SOL")),
        subscribe(trades("BTC")),
    ];
    assert_eq!(l4_coins(&messages), vec!["BTC".to_string(), "SOL".to_string()]);
    assert_eq!(open_order_addrs(&messages), vec![alice()]);
}

#[test]
fn messages_are_served_one_after_the_other() {
    let mut manager = SubscriptionManager::new();
    let request = |message| Request { message, sub: "S".to_string() };
    let responses = receive_client_messages(
        &mut manager,
        vec![
            request(subscribe(trades("BTC"))),
            request(ClientMessage::Ping),
            request(subscribe(trades("BTC"))),
            request(unsubscribe(trades("BTC"))),
        ],
        &universe(),
        &None,
        &AddressMap::new(),
    );
    assert!(matches!(
        responses.as_slice(),
        [
            ServerResponse::SubscriptionResponse(_),
            ServerResponse::Pong,
            ServerResponse::Error(_),
            ServerResponse::SubscriptionResponse(_),
        ]
    ));
    assert!(manager.subscriptions().is_empty());
}

#[test]
fn orders_are_cut_to_the_best_levels() {
    let orders = vec![order(9, 1), order(9, 2), order(8, 3), order(7, 4), order(7, 5), order(6, 6)];
    assert_eq!(oids(&truncate_to_n_levels(orders.clone(), 0)), Vec::<u64>::new());
    assert_eq!(oids(&truncate_to_n_levels(orders.clone(), 1)), vec![1, 2]);
    assert_eq!(oids(&truncate_to_n_levels(orders.clone(), 2)), vec![1, 2, 3]);
    assert_eq!(oids(&truncate_to_n_levels(orders.clone(), 3)), vec![1, 2, 3, 4, 5]);
    assert_eq!(oids(&truncate_to_n_levels(orders.clone(), 4)), vec![1, 2, 3, 4, 5, 6]);
    assert_eq!(oids(&truncate_to_n_levels(orders, 9)), vec![1, 2, 3, 4, 5, 6]);
    assert_eq!(oids(&truncate_to_n_levels(vec![], 3)), Vec::<u64>::new());
}

#[test]
fn cutting_twice_is_cutting_once() {
    let orders = vec![order(9, 1), order(8, 2), order(8, 3), order(7, 4)];
    let once = truncate_to_n_levels(orders, 2);
    assert_eq!(truncate_to_n_levels(once.clone(), 2), once);
}
