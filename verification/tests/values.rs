use order_book_feed::address::Address;
use order_book_feed::address_map::AddressMap;
use order_book_feed::book::{Coin, InnerLevel, L2SnapshotParams, L4Order, Oid, Px, Snapshot, Sz};
use order_book_feed::key_map::{CoinMap, KeyMap};
use order_book_feed::node_data::{
    Batch, EventSource, NodeDataOrderDiff, NodeDataOrderStatus, OrderDiff,
};
use order_book_feed::time::Timestamp;

fn at(secs: i64, nanos: u32) -> Timestamp {
    Timestamp { secs, nanos }
}

fn status(text: &str, is_trigger: bool, tif: Option<&str>) -> NodeDataOrderStatus {
    NodeDataOrderStatus {
        time: at(0, 0),
        user: Address { hi: 0, lo: 1 },
        status: text.to_string(),
        order: L4Order {
            user: None,
            oid: 7,
            sz: "1.0".to_string(),
            is_trigger,
            tif: tif.map(|t| t.to_string()),
            rest: "{}".to_string(),
        },
    }
}

#[test]
fn addresses_are_read_from_forty_digits() {
    let plain = Address::parse("0x0000000a000000000000000000000000000000ff").unwrap();
    assert_eq!(plain, Address { hi: 10, lo: 255 });
    let bare = Address::parse("0000000A000000000000000000000000000000fF").unwrap();
    assert_eq!(bare, plain);
    let top = Address::parse("0XffffffffFFFFFFFFffffffffffffffffffffffff").unwrap();
    assert_eq!(top, Address { hi: u32::MAX, lo: u128::MAX });
}

#[test]
fn texts_that_are_no_addresses_are_refused() {
    let texts = [
        "",
        "0x",
        "0x00",
        "zz",
        "0x000000000000000000000000000000000000000",
        "0x00000000000000000000000000000000000000000",
        "0xg000000000000000000000000000000000000000",
    ];
    for text in texts {
        let complaint = Address::parse(text).unwrap_err();
        assert!(!complaint.is_empty());
        assert_ne!(complaint, text);
        assert_eq!(complaint, Address::parse(text).unwrap_err());
    }
}

#[test]
fn milliseconds_of_a_point_in_time() {
    assert_eq!(at(0, 0).timestamp_millis(), Some(0));
    assert_eq!(at(1_700_000_000, 123_456_789).timestamp_millis(), Some(1_700_000_000_123));
    assert_eq!(at(-1, 999_000_000).timestamp_millis(), Some(-1));
    assert_eq!(at(59, 1_500_000_000).timestamp_millis(), Some(60_500));
}

#[test]
fn points_off_the_calendar_have_no_milliseconds() {
    assert_eq!(at(0, 1_000_000_000).timestamp_millis(), None);
    assert_eq!(at(59, 2_000_000_000).timestamp_millis(), None);
    assert_eq!(at(i64::MAX, 0).timestamp_millis(), None);
    assert_eq!(at(order_book_feed::time::FIRST_SECOND, 0).timestamp_millis(), Some(-8_334_601_228_800_000));
    assert_eq!(at(order_book_feed::time::FIRST_SECOND - 1, 0).timestamp_millis(), None);
    assert_eq!(at(order_book_feed::time::LAST_SECOND, 0).timestamp_millis(), Some(8_210_266_876_799_000));
    assert_eq!(at(order_book_feed::time::LAST_SECOND + 1, 0).timestamp_millis(), None);
    assert_eq!(at(order_book_feed::time::FIRST_SECOND, 999_999_999).timestamp_millis(), Some(-8_334_601_228_799_001));
}

#[test]
fn batches_know_their_block() {
    let mut batch = Batch::new(at(9, 0), at(10, 5_000_000), 42, vec![1u32, 2]);
    assert!(batch.is_dated());
    assert_eq!(batch.block_time(), 10_005);
    assert_eq!(batch.block_number(), 42);
    assert_eq!(batch.events_ref(), &[1, 2]);
    batch.extend_events(Batch::new(at(0, 0), at(0, 0), 43, vec![3]));
    assert_eq!(batch.block_number(), 42);
    assert_eq!(batch.duplicate(), batch);
    let empty: Batch<String> = batch.empty_with_metadata();
    assert_eq!(empty.block_number(), 42);
    assert_eq!(empty.block_time(), 10_005);
    assert!(empty.events_ref().is_empty());
    assert_eq!(batch.events(), vec![1, 2, 3]);
}

#[test]
fn batches_before_1970_are_not_dated() {
    assert!(!Batch::<u8>::new(at(0, 0), at(-1, 0), 1, vec![]).is_dated());
    assert!(!Batch::<u8>::new(at(0, 0), at(0, u32::MAX), 1, vec![]).is_dated());
    assert!(Batch::<u8>::new(at(-5, 0), at(0, 0), 1, vec![]).is_dated());
}

#[test]
fn plain_orders_enter_the_book_when_open() {
    assert!(status("open", false, None).is_inserted_into_book());
    assert!(status("open", false, Some("Gtc")).is_inserted_into_book());
    assert!(!status("open", false, Some("Ioc")).is_inserted_into_book());
    assert!(!status("filled", false, Some("Gtc")).is_inserted_into_book());
    assert!(!status("triggered", false, None).is_inserted_into_book());
}

#[test]
fn trigger_orders_enter_the_book_when_triggered() {
    assert!(!status("open", true, None).is_inserted_into_book());
    assert!(status("triggered", true, None).is_inserted_into_book());
    assert!(status("triggered", true, Some("Ioc")).is_inserted_into_book());
}

#[test]
fn streams_have_their_own_directories() {
    assert_eq!(EventSource::Fills.event_source_dir("/home/me"), "/home/me/hl/data/node_fills_by_block");
    assert_eq!(
        EventSource::OrderStatuses.event_source_dir("/home/me/"),
        "/home/me/hl/data/node_order_statuses_by_block"
    );
    assert_eq!(EventSource::OrderDiffs.event_source_dir(""), "hl/data/node_raw_book_diffs_by_block");
    assert_eq!(
        EventSource::OrderDiffs.event_source_dir_streaming("/", true),
        "/hl/data/node_raw_book_diffs_streaming"
    );
    assert_eq!(EventSource::Fills.event_source_dir_streaming("a", true), "a/hl/data/node_fills_streaming");
    assert_eq!(
        EventSource::OrderStatuses.event_source_dir_streaming("a", true),
        "a/hl/data/node_order_statuses_streaming"
    );
}

#[test]
fn streams_have_names() {
    assert_eq!(EventSource::Fills.name(), "Fills");
    assert_eq!(EventSource::OrderStatuses.name(), "OrderStatuses");
    assert_eq!(EventSource::OrderDiffs.name(), "OrderDiffs");
}

#[test]
fn diffs_hand_out_their_parts() {
    let diff = NodeDataOrderDiff {
        user: Address { hi: 1, lo: 2 },
        oid: 5,
        px: "10.5".to_string(),
        price: Some(Px { raw: 1050 }),
        coin: Coin::new("BTC", false),
        raw_book_diff: OrderDiff::Update { orig_sz: "2".to_string(), new_sz: "1".to_string() },
    };
    assert_eq!(diff.user(), Address { hi: 1, lo: 2 });
    assert_eq!(diff.oid(), Oid::new(5));
    assert_eq!(diff.raw_oid(), 5);
    assert_eq!(diff.coin().value(), "BTC");
    assert!(!diff.coin().is_spot());
    assert_eq!(diff.diff(), diff.raw_book_diff);
    assert_eq!(diff.clone(), diff);
}

#[test]
fn address_maps_hold_one_value_for_each_address() {
    let mut map = AddressMap::new();
    let a = Address { hi: 0, lo: 1 };
    let b = Address { hi: 1, lo: 0 };
    assert_eq!(map.insert(a, "x"), None);
    assert_eq!(map.insert(b, "y"), None);
    assert_eq!(map.insert(a, "z"), Some("x"));
    assert_eq!(map.get(&a), Some(&"z"));
    let keys = map.keys();
    assert_eq!(keys.len(), 2);
    assert!(keys.contains(&a) && keys.contains(&b));
    assert_eq!(map.remove(&a), Some("z"));
    assert_eq!(map.remove(&a), None);
    assert_eq!(map.get(&a), None);
}

#[test]
fn key_maps_hold_one_value_for_each_key() {
    let mut map: CoinMap<u32> = CoinMap::new();
    assert_eq!(map.insert("BTC".to_string(), 1), None);
    assert_eq!(map.insert("ETH".to_string(), 2), None);
    assert_eq!(map.insert("BTC".to_string(), 3), Some(1));
    assert_eq!(map.get(&"BTC".to_string()), Some(&3));
    assert_eq!(map.keys().len(), 2);
    assert_eq!(map.remove(&"ETH".to_string()), Some(2));
    assert_eq!(map.remove(&"ETH".to_string()), None);
    let mut params: KeyMap<L2SnapshotParams, u32> = KeyMap::new();
    params.insert(L2SnapshotParams::new(None, None), 1);
    params.insert(L2SnapshotParams::new(Some(5), Some(2)), 2);
    assert_eq!(params.get(&L2SnapshotParams::new(Some(5), Some(2))), Some(&2));
    assert_eq!(params.get(&L2SnapshotParams::new(Some(5), None)), None);
}

#[test]
fn snapshots_are_cut_to_the_best_levels() {
    let level = |px: u64| InnerLevel { px: Px { raw: px }, sz: Sz { raw: 1 }, n: 1 };
    let book = Snapshot { bids: vec![level(9), level(8), level(7)], asks: vec![level(10)] };
    let cut = book.truncate(2);
    assert_eq!(cut.bids, vec![level(9), level(8)]);
    assert_eq!(cut.asks, vec![level(10)]);
    assert_eq!(book.truncate(0).bids, vec![]);
    assert_eq!(book.truncate(100), book);
}
