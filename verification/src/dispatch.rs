//! What a client is sent when the listener has a message.

use crate::address::{Address, is_address_text, named_address};
use crate::address_map::AddressMap;
use crate::book::{CoinLevels, L2SnapshotParams, L2Snapshots, L4Order, first_n};
use crate::grouping::{
    coin_to_book_updates, coin_to_streaming_book_updates, coin_to_trades, coins_in, diffs_near_top, diffs_of,
    holds_streams, holds_trades, holds_updates, new_universe, trades_in, trades_of,
};
use crate::key_map::CoinMap;
use crate::messages::{Boundaries, InternalMessage, MessageView};
use crate::node_data::{Batch, BatchView, NodeDataFill, NodeDataOrderDiff};
use crate::responses::{
    L2Book, L4Book, L4BookStream, L4BookUpdates, OpenOrdersData, ResponseView, ServerResponse, Trade, answers,
};
use crate::server::copy_orders;
use crate::subscription::{DEFAULT_LEVELS, Subscription, SubscriptionManager, SubscriptionView, Universe, asked};
use vstd::prelude::*;

verus! {

/// What a subscription is answered when the listener has a message, where it is answered at all.
pub open spec fn answer_to(message: MessageView, subscription: SubscriptionView) -> Option<ResponseView> {
    match message {
        MessageView::Snapshot { l2_snapshots, time } => l2_answer(l2_snapshots.0@, time, subscription),
        MessageView::Fills { batch } => trades_answer(batch.events, subscription),
        MessageView::L4BookUpdates { diff_batch, price_boundaries } => updates_answer(
            diff_batch,
            price_boundaries,
            subscription,
        ),
        MessageView::OpenOrdersUpdate { changed_users } => open_orders_answer(changed_users, subscription),
        MessageView::StreamingBookDiffs { diffs, time, height } => stream_answer(diffs, time, height, subscription),
    }
}

/// The levels of a coin under the rounding that the subscription asks for, as many as it asks for.
pub open spec fn l2_answer(
    levels: Map<Seq<char>, CoinLevels>,
    time: u64,
    subscription: SubscriptionView,
) -> Option<ResponseView> {
    match subscription {
        SubscriptionView::L2Book { coin, n_sig_figs, n_levels, mantissa } => {
            let params = L2SnapshotParams { n_sig_figs, mantissa };
            let n = match n_levels {
                Some(n) => n,
                None => DEFAULT_LEVELS,
            };
            if levels.contains_key(coin) && levels[coin].levels@.contains_key(params) {
                let book = levels[coin].levels@[params];
                Some(
                    ResponseView::L2Book {
                        coin,
                        time,
                        bid_levels: first_n(book.bids@, n as nat),
                        ask_levels: first_n(book.asks@, n as nat),
                    },
                )
            } else {
                None
            }
        },
        _ => None,
    }
}

/// The trades of the subscription's coin, where there are any.
pub open spec fn trades_answer(fills: Seq<NodeDataFill>, subscription: SubscriptionView) -> Option<ResponseView> {
    match subscription {
        SubscriptionView::Trades { coin } => {
            let trades = trades_of(trades_in(fills), coin);
            if trades.len() > 0 {
                Some(ResponseView::Trades(trades))
            } else {
                None
            }
        },
        _ => None,
    }
}

/// The diffs of the subscription's coin in a block, where any are told of.
pub open spec fn updates_answer(
    batch: BatchView<NodeDataOrderDiff>,
    boundaries: Map<Seq<char>, Boundaries>,
    subscription: SubscriptionView,
) -> Option<ResponseView> {
    match subscription {
        SubscriptionView::L4Book { coin } => {
            let book_diffs = diffs_of(diffs_near_top(batch.events, boundaries), coin);
            if book_diffs.len() > 0 {
                Some(
                    ResponseView::L4Updates {
                        time: batch.block_time.millis() as u64,
                        height: batch.block_number,
                        book_diffs,
                    },
                )
            } else {
                None
            }
        },
        _ => None,
    }
}

/// The open orders of the subscription's user, where the user was touched.
pub open spec fn open_orders_answer(
    changed_users: Map<Address, Seq<L4Order>>,
    subscription: SubscriptionView,
) -> Option<ResponseView> {
    match subscription {
        SubscriptionView::OpenOrders { user } => if is_address_text(user) && changed_users.contains_key(
            named_address(user),
        ) {
            Some(
                ResponseView::OpenOrders {
                    user: named_address(user),
                    open_orders: changed_users[named_address(user)],
                },
            )
        } else {
            None
        },
        _ => None,
    }
}

/// The diffs of the subscription's coin as they arrived, where there are any.
pub open spec fn stream_answer(
    diffs: Seq<NodeDataOrderDiff>,
    time: u64,
    height: u64,
    subscription: SubscriptionView,
) -> Option<ResponseView> {
    match subscription {
        SubscriptionView::L4BookStream { coin } => {
            let book_diffs = diffs_of(diffs, coin);
            if book_diffs.len() > 0 {
                Some(ResponseView::L4BookStream { coin, time, height, book_diffs })
            } else {
                None
            }
        },
        _ => None,
    }
}

/// What a row of subscriptions is answered.
pub open spec fn told(message: MessageView, subscriptions: Seq<SubscriptionView>) -> Seq<ResponseView> {
    subscriptions.filter_map(|subscription: SubscriptionView| answer_to(message, subscription))
}

/// What one more subscription adds to the answers.
proof fn lemma_next_answer(message: MessageView, subscriptions: Seq<SubscriptionView>, i: int)
    requires
        0 <= i < subscriptions.len(),
    ensures
        told(message, subscriptions.take(i + 1)) == match answer_to(message, subscriptions[i]) {
            Some(answer) => told(message, subscriptions.take(i)).push(answer),
            None => told(message, subscriptions.take(i)),
        },
{
    let f = |subscription: SubscriptionView| answer_to(message, subscription);
    subscriptions.lemma_filter_map_take_succ(f, i);
    assert(told(message, subscriptions.take(i)) + Seq::<ResponseView>::empty() =~= told(
        message,
        subscriptions.take(i),
    ));
}

/// Whether a map has the same to say of a coin as it had at first.
spec fn as_before<V>(now: Map<Seq<char>, V>, first: Map<Seq<char>, V>, coin: Seq<char>) -> bool {
    &&& now.contains_key(coin) <==> first.contains_key(coin)
    &&& now.contains_key(coin) ==> now[coin] == first[coin]
}

/// Puts an answer, where there is one, to those before it.
fn put_answer(responses: &mut Vec<ServerResponse>, answer: Option<ServerResponse>)
    ensures
        answers(final(responses)@) == match answer {
            Some(response) => answers(old(responses)@).push(response@),
            None => answers(old(responses)@),
        },
{
    match answer {
        Some(response) => {
            responses.push(response);
            assert(answers(responses@) =~= answers(old(responses)@).push(response@));
        },
        None => {},
    }
}

/// Whether an answer is the expected one.
pub open spec fn is_answer(answer: Option<ServerResponse>, expected: Option<ResponseView>) -> bool {
    match expected {
        Some(view) => answer is Some && answer->0@ == view,
        None => answer is None,
    }
}

/// What a subscription is answered out of the levels of the book.
pub fn ws_data_from_snapshot(subscription: &Subscription, l2_snapshots: &L2Snapshots, time: u64) -> (answer: Option<
    ServerResponse,
>)
    ensures
        is_answer(answer, l2_answer(l2_snapshots.0@, time, subscription@)),
{
    match subscription {
        Subscription::L2Book { coin, n_sig_figs, n_levels, mantissa } => {
            match l2_snapshots.as_ref().get(coin) {
                Some(found) => match found.levels.get(&L2SnapshotParams::new(*n_sig_figs, *mantissa)) {
                    Some(snapshot) => {
                        let n: usize = match n_levels {
                            Some(n) => *n,
                            None => DEFAULT_LEVELS,
                        };
                        let levels = snapshot.truncate(n);
                        Some(ServerResponse::L2Book(L2Book { coin: coin.clone(), time, levels }))
                    },
                    None => None,
                },
                None => None,
            }
        },
        _ => None,
    }
}

/// What a subscription is answered out of trades by coin. The trades are taken out of the map.
pub fn ws_data_from_trades(subscription: &Subscription, trades: &mut CoinMap<Vec<Trade>>) -> (answer: Option<
    ServerResponse,
>)
    ensures
        match subscription@ {
            SubscriptionView::Trades { coin } => {
                &&& final(trades)@ == old(trades)@.remove(coin)
                &&& answer is Some <==> old(trades)@.contains_key(coin)
                &&& answer is Some ==> answer->0@ == ResponseView::Trades(old(trades)@[coin]@)
            },
            _ => answer is None && final(trades)@ == old(trades)@,
        },
{
    match subscription {
        Subscription::Trades { coin } => match trades.remove(coin) {
            Some(row) => Some(ServerResponse::Trades(row)),
            None => None,
        },
        _ => None,
    }
}

/// What a subscription is answered out of a block's diffs by coin. The diffs are taken out of the
/// map.
pub fn ws_data_from_book_updates(
    subscription: &Subscription,
    book_updates: &mut CoinMap<L4BookUpdates>,
) -> (answer: Option<ServerResponse>)
    ensures
        match subscription@ {
            SubscriptionView::L4Book { coin } => {
                &&& final(book_updates)@ == old(book_updates)@.remove(coin)
                &&& answer is Some <==> old(book_updates)@.contains_key(coin)
                &&& answer is Some ==> answer->0@ == (ResponseView::L4Updates {
                    time: old(book_updates)@[coin].time,
                    height: old(book_updates)@[coin].height,
                    book_diffs: old(book_updates)@[coin].book_diffs@,
                })
            },
            _ => answer is None && final(book_updates)@ == old(book_updates)@,
        },
{
    match subscription {
        Subscription::L4Book { coin } => match book_updates.remove(coin) {
            Some(updates) => Some(ServerResponse::L4Book(L4Book::Updates(updates))),
            None => None,
        },
        _ => None,
    }
}

/// What a subscription is answered out of arriving diffs by coin. The diffs are taken out of the
/// map.
pub fn ws_data_from_streaming_book_updates(
    subscription: &Subscription,
    book_updates: &mut CoinMap<L4BookStream>,
) -> (answer: Option<ServerResponse>)
    ensures
        match subscription@ {
            SubscriptionView::L4BookStream { coin } => {
                &&& final(book_updates)@ == old(book_updates)@.remove(coin)
                &&& answer is Some <==> old(book_updates)@.contains_key(coin)
                &&& answer is Some ==> answer->0@ == (ResponseView::L4BookStream {
                    coin: old(book_updates)@[coin].coin@,
                    time: old(book_updates)@[coin].time,
                    height: old(book_updates)@[coin].height,
                    book_diffs: old(book_updates)@[coin].book_diffs@,
                })
            },
            _ => answer is None && final(book_updates)@ == old(book_updates)@,
        },
{
    match subscription {
        Subscription::L4BookStream { coin } => match book_updates.remove(coin) {
            Some(updates) => Some(ServerResponse::L4BookStream(updates)),
            None => None,
        },
        _ => None,
    }
}

/// What a subscription is answered out of the open orders of the users that were touched.
pub fn ws_data_from_open_orders(subscription: &Subscription, changed_users: &AddressMap<Vec<L4Order>>) -> (answer:
    Option<ServerResponse>)
    ensures
        is_answer(
            answer,
            open_orders_answer(changed_users@.map_values(|row: Vec<L4Order>| row@), subscription@),
        ),
{
    match subscription {
        Subscription::OpenOrders { user } => match Address::parse(user.as_str()) {
            Ok(address) => match changed_users.get(&address) {
                Some(orders) => Some(
                    ServerResponse::OpenOrders(
                        OpenOrdersData { user: address, open_orders: copy_orders(orders) },
                    ),
                ),
                None => None,
            },
            Err(_) => None,
        },
        _ => None,
    }
}

/// What a client is answered when levels of the book are told.
fn tell_levels(subscriptions: &Vec<Subscription>, l2_snapshots: &L2Snapshots, time: u64) -> (responses: Vec<
    ServerResponse,
>)
    ensures
        answers(responses@) == told(
            MessageView::Snapshot { l2_snapshots: *l2_snapshots, time },
            asked(subscriptions@),
        ),
{
    let mut responses: Vec<ServerResponse> = Vec::new();
    let mut i: usize = 0;
    let ghost message = MessageView::Snapshot { l2_snapshots: *l2_snapshots, time };
    let ghost subs = asked(subscriptions@);
    assert(answers(responses@) =~= told(message, subs.take(0)));
    while i < subscriptions.len()
        invariant
            i <= subscriptions@.len(),
            subs == asked(subscriptions@),
            message == (MessageView::Snapshot { l2_snapshots: *l2_snapshots, time }),
            answers(responses@) == told(message, subs.take(i as int)),
        decreases subscriptions@.len() - i,
    {
        proof {
            lemma_next_answer(message, subs, i as int);
        }
        let answer = ws_data_from_snapshot(&subscriptions[i], l2_snapshots, time);
        put_answer(&mut responses, answer);
        i = i + 1;
    }
    assert(subs.take(i as int) =~= subs);
    responses
}

/// What a client is answered when fills are told.
fn tell_fills(subscriptions: &Vec<Subscription>, batch: &Batch<NodeDataFill>) -> (responses: Vec<ServerResponse>)
    requires
        asked(subscriptions@).no_duplicates(),
    ensures
        answers(responses@) == told(MessageView::Fills { batch: batch@ }, asked(subscriptions@)),
{
    let mut trades = coin_to_trades(batch);
    let mut responses: Vec<ServerResponse> = Vec::new();
    let mut i: usize = 0;
    let ghost message = MessageView::Fills { batch: batch@ };
    let ghost subs = asked(subscriptions@);
    let ghost all = trades@;
    assert(answers(responses@) =~= told(message, subs.take(0)));
    while i < subscriptions.len()
        invariant
            i <= subscriptions@.len(),
            subs == asked(subscriptions@),
            subs.no_duplicates(),
            message == (MessageView::Fills { batch: batch@ }),
            holds_trades(all, trades_in(batch@.events)),
            forall|k: int, coin: Seq<char>|
                #![trigger subs[k], as_before(trades@, all, coin)]
                i <= k < subs.len() && subs[k] == (SubscriptionView::Trades { coin }) ==> as_before(trades@, all, coin),
            answers(responses@) == told(message, subs.take(i as int)),
        decreases subscriptions@.len() - i,
    {
        proof {
            lemma_next_answer(message, subs, i as int);
            assert(subs[i as int] == subscriptions@[i as int]@);
            if let SubscriptionView::Trades { coin } = subs[i as int] {
                assert(as_before(trades@, all, coin));
                assert(all.contains_key(coin) <==> trades_of(trades_in(batch@.events), coin).len() > 0);
            }
        }
        let ghost before = trades@;
        let answer = ws_data_from_trades(&subscriptions[i], &mut trades);
        put_answer(&mut responses, answer);
        assert forall|k: int, coin: Seq<char>|
            #![trigger subs[k], as_before(trades@, all, coin)]
            i < k < subs.len() && subs[k] == (SubscriptionView::Trades { coin })
                implies as_before(trades@, all, coin) by {
            assert(as_before(before, all, coin));
            assert(subs[k] != subs[i as int]);
        }
        i = i + 1;
    }
    assert(subs.take(i as int) =~= subs);
    responses
}

/// What a client is answered when the diffs of a block are told.
fn tell_updates(
    subscriptions: &Vec<Subscription>,
    diff_batch: &Batch<NodeDataOrderDiff>,
    price_boundaries: &CoinMap<Boundaries>,
) -> (responses: Vec<ServerResponse>)
    requires
        asked(subscriptions@).no_duplicates(),
        diff_batch@.dated(),
    ensures
        answers(responses@) == told(
            MessageView::L4BookUpdates { diff_batch: diff_batch@, price_boundaries: price_boundaries@ },
            asked(subscriptions@),
        ),
{
    let mut updates = coin_to_book_updates(diff_batch, price_boundaries);
    let mut responses: Vec<ServerResponse> = Vec::new();
    let mut i: usize = 0;
    let ghost message = MessageView::L4BookUpdates {
        diff_batch: diff_batch@,
        price_boundaries: price_boundaries@,
    };
    let ghost subs = asked(subscriptions@);
    let ghost all = updates@;
    let ghost diffs = diffs_near_top(diff_batch@.events, price_boundaries@);
    assert(answers(responses@) =~= told(message, subs.take(0)));
    while i < subscriptions.len()
        invariant
            i <= subscriptions@.len(),
            subs == asked(subscriptions@),
            subs.no_duplicates(),
            message == (MessageView::L4BookUpdates {
                diff_batch: diff_batch@,
                price_boundaries: price_boundaries@,
            }),
            diffs == diffs_near_top(diff_batch@.events, price_boundaries@),
            holds_updates(all, diffs, diff_batch@.block_time.millis(), diff_batch@.block_number),
            forall|k: int, coin: Seq<char>|
                #![trigger subs[k], as_before(updates@, all, coin)]
                i <= k < subs.len() && subs[k] == (SubscriptionView::L4Book { coin })
                    ==> as_before(updates@, all, coin),
            answers(responses@) == told(message, subs.take(i as int)),
        decreases subscriptions@.len() - i,
    {
        proof {
            lemma_next_answer(message, subs, i as int);
            assert(subs[i as int] == subscriptions@[i as int]@);
            if let SubscriptionView::L4Book { coin } = subs[i as int] {
                assert(as_before(updates@, all, coin));
                assert(all.contains_key(coin) <==> diffs_of(diffs, coin).len() > 0);
            }
        }
        let ghost before = updates@;
        let answer = ws_data_from_book_updates(&subscriptions[i], &mut updates);
        put_answer(&mut responses, answer);
        assert forall|k: int, coin: Seq<char>|
            #![trigger subs[k], as_before(updates@, all, coin)]
            i < k < subs.len() && subs[k] == (SubscriptionView::L4Book { coin })
                implies as_before(updates@, all, coin) by {
            assert(as_before(before, all, coin));
            assert(subs[k] != subs[i as int]);
        }
        i = i + 1;
    }
    assert(subs.take(i as int) =~= subs);
    responses
}

/// What a client is answered when open orders are told.
fn tell_open_orders(subscriptions: &Vec<Subscription>, changed_users: &AddressMap<Vec<L4Order>>) -> (responses: Vec<
    ServerResponse,
>)
    ensures
        answers(responses@) == told(
            MessageView::OpenOrdersUpdate { changed_users: changed_users@.map_values(|row: Vec<L4Order>| row@) },
            asked(subscriptions@),
        ),
{
    let mut responses: Vec<ServerResponse> = Vec::new();
    let mut i: usize = 0;
    let ghost changed = changed_users@.map_values(|row: Vec<L4Order>| row@);
    let ghost message = MessageView::OpenOrdersUpdate { changed_users: changed };
    let ghost subs = asked(subscriptions@);
    assert(answers(responses@) =~= told(message, subs.take(0)));
    while i < subscriptions.len()
        invariant
            i <= subscriptions@.len(),
            subs == asked(subscriptions@),
            changed == changed_users@.map_values(|row: Vec<L4Order>| row@),
            message == (MessageView::OpenOrdersUpdate { changed_users: changed }),
            answers(responses@) == told(message, subs.take(i as int)),
        decreases subscriptions@.len() - i,
    {
        proof {
            lemma_next_answer(message, subs, i as int);
        }
        let answer = ws_data_from_open_orders(&subscriptions[i], changed_users);
        put_answer(&mut responses, answer);
        i = i + 1;
    }
    assert(subs.take(i as int) =~= subs);
    responses
}

/// What a client is answered when arriving diffs are told.
fn tell_streams(
    subscriptions: &Vec<Subscription>,
    diffs: &Vec<NodeDataOrderDiff>,
    time: u64,
    height: u64,
) -> (responses: Vec<ServerResponse>)
    requires
        asked(subscriptions@).no_duplicates(),
    ensures
        answers(responses@) == told(
            MessageView::StreamingBookDiffs { diffs: diffs@, time, height },
            asked(subscriptions@),
        ),
{
    let mut updates = coin_to_streaming_book_updates(diffs, time, height);
    let mut responses: Vec<ServerResponse> = Vec::new();
    let mut i: usize = 0;
    let ghost message = MessageView::StreamingBookDiffs { diffs: diffs@, time, height };
    let ghost subs = asked(subscriptions@);
    let ghost all = updates@;
    assert(answers(responses@) =~= told(message, subs.take(0)));
    while i < subscriptions.len()
        invariant
            i <= subscriptions@.len(),
            subs == asked(subscriptions@),
            subs.no_duplicates(),
            message == (MessageView::StreamingBookDiffs { diffs: diffs@, time, height }),
            holds_streams(all, diffs@, time, height),
            forall|k: int, coin: Seq<char>|
                #![trigger subs[k], as_before(updates@, all, coin)]
                i <= k < subs.len() && subs[k] == (SubscriptionView::L4BookStream { coin })
                    ==> as_before(updates@, all, coin),
            answers(responses@) == told(message, subs.take(i as int)),
        decreases subscriptions@.len() - i,
    {
        proof {
            lemma_next_answer(message, subs, i as int);
            assert(subs[i as int] == subscriptions@[i as int]@);
            if let SubscriptionView::L4BookStream { coin } = subs[i as int] {
                assert(as_before(updates@, all, coin));
                assert(all.contains_key(coin) <==> diffs_of(diffs@, coin).len() > 0);
            }
        }
        let ghost before = updates@;
        let answer = ws_data_from_streaming_book_updates(&subscriptions[i], &mut updates);
        put_answer(&mut responses, answer);
        assert forall|k: int, coin: Seq<char>|
            #![trigger subs[k], as_before(updates@, all, coin)]
            i < k < subs.len() && subs[k] == (SubscriptionView::L4BookStream { coin })
                implies as_before(updates@, all, coin) by {
            assert(as_before(before, all, coin));
            assert(subs[k] != subs[i as int]);
        }
        i = i + 1;
    }
    assert(subs.take(i as int) =~= subs);
    responses
}

/// Serves one message of the listener: returns what the client is sent, subscription by
/// subscription. Levels of the book also say which coins there are from now on.
pub fn dispatch(
    manager: &SubscriptionManager,
    universe: &mut Universe,
    ignore_spot: bool,
    message: &InternalMessage,
) -> (responses: Vec<ServerResponse>)
    requires
        message@ matches MessageView::L4BookUpdates { diff_batch, .. } ==> diff_batch.dated(),
    ensures
        answers(responses@) == told(message@, manager@),
        final(universe)@ == match message@ {
            MessageView::Snapshot { l2_snapshots, .. } => coins_in(l2_snapshots.0@, ignore_spot),
            _ => old(universe)@,
        },
{
    let subscriptions = manager.subscriptions();
    match message {
        InternalMessage::Snapshot { l2_snapshots, time } => {
            *universe = new_universe(l2_snapshots, ignore_spot);
            tell_levels(subscriptions, l2_snapshots, *time)
        },
        InternalMessage::Fills { batch } => tell_fills(subscriptions, batch),
        InternalMessage::L4BookUpdates { diff_batch, price_boundaries } => tell_updates(
            subscriptions,
            diff_batch,
            price_boundaries,
        ),
        InternalMessage::OpenOrdersUpdate { changed_users } => tell_open_orders(subscriptions, changed_users),
        InternalMessage::StreamingBookDiffs { diffs, time, height } => tell_streams(
            subscriptions,
            diffs,
            *time,
            *height,
        ),
    }
}

} // verus!
