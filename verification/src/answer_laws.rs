//! What each message of a client and of the listener is answered.

use crate::address::{Address, address_complaint, is_address_text, named_address};
use crate::book::{CoinLevels, InnerL4Order, InnerLevel, L2SnapshotParams, L4Order, TimedSnapshots};
use crate::dispatch::{answer_to, l2_answer, open_orders_answer, stream_answer, told, trades_answer, updates_answer};
use crate::grouping::{diffs_near_top, diffs_of, trades_in, trades_of};
use crate::levels::{law_kept_orders_come_first, law_no_more_is_cut_than_has_to_be, level_count, top_levels};
use crate::messages::{Boundaries, MessageView};
use crate::node_data::{BatchView, NodeDataFill, NodeDataOrderDiff};
use crate::responses::{L4Book, ResponseView, ServerResponse, answers};
use crate::server::{Request, first_answer, l4_coin, open_orders_user, replies, reply, shown};
use crate::subscription::{
    ClientMessage, Subscription, SubscriptionView, law_other_subscriptions_keep_their_order, other_than,
};
use vstd::prelude::*;

verus! {

/// A ping is answered with a pong, and changes nothing.
pub proof fn law_pings_are_answered(
    manager: Seq<SubscriptionView>,
    sub: Seq<char>,
    universe: Set<Seq<char>>,
    snapshot: Option<TimedSnapshots>,
    open_orders: Map<Address, Vec<L4Order>>,
)
    ensures
        reply(manager, ClientMessage::Ping, sub, universe, snapshot, open_orders) == (
            manager,
            seq![ResponseView::Pong],
        ),
{
}

/// A subscription that cannot be served is refused, whether it is to begin or to end.
pub proof fn law_invalid_subscriptions_are_refused(
    manager: Seq<SubscriptionView>,
    subscription: Subscription,
    sub: Seq<char>,
    universe: Set<Seq<char>>,
    snapshot: Option<TimedSnapshots>,
    open_orders: Map<Address, Vec<L4Order>>,
)
    requires
        !subscription@.valid(universe),
    ensures
        ({
            let refused = (manager, seq![ResponseView::Error("Invalid subscription: "@ + sub)]);
            &&& reply(manager, ClientMessage::Subscribe { subscription }, sub, universe, snapshot, open_orders)
                == refused
            &&& reply(manager, ClientMessage::Unsubscribe { subscription }, sub, universe, snapshot, open_orders)
                == refused
        }),
{
}

/// A new subscription that can be served is put behind the others and confirmed, and its first answer,
/// where it has one, follows the confirmation. Where the first answer cannot be had, the client is told
/// why and stays subscribed as before.
pub proof fn law_new_subscriptions_are_served(
    manager: Seq<SubscriptionView>,
    subscription: Subscription,
    sub: Seq<char>,
    universe: Set<Seq<char>>,
    snapshot: Option<TimedSnapshots>,
    open_orders: Map<Address, Vec<L4Order>>,
)
    requires
        subscription@.valid(universe),
        !manager.contains(subscription@),
    ensures
        ({
            let message = ClientMessage::Subscribe { subscription };
            let (after, answers) = reply(manager, message, sub, universe, snapshot, open_orders);
            match first_answer(subscription@, snapshot, open_orders) {
                Ok(first) => {
                    &&& after == manager + seq![subscription@]
                    &&& answers.len() == 1 + if first is Some {
                        1int
                    } else {
                        0int
                    }
                    &&& answers[0] == ResponseView::SubscriptionResponse(message)
                    &&& first matches Some(answer) ==> answers[1] == answer
                },
                Err(reason) => {
                    &&& after == manager
                    &&& answers == seq![ResponseView::Error("Unable to grab order book snapshot: "@ + reason)]
                },
            }
        }),
{
    assert(manager + seq![subscription@] =~= manager.push(subscription@));
}

/// Ending a subscription that the client has is confirmed, and takes that one out and no other; ending
/// one that it does not have is refused.
pub proof fn law_ended_subscriptions_are_taken_out(
    manager: Seq<SubscriptionView>,
    subscription: Subscription,
    sub: Seq<char>,
    universe: Set<Seq<char>>,
    snapshot: Option<TimedSnapshots>,
    open_orders: Map<Address, Vec<L4Order>>,
)
    requires
        subscription@.valid(universe),
        manager.no_duplicates(),
    ensures
        ({
            let message = ClientMessage::Unsubscribe { subscription };
            let (after, answers) = reply(manager, message, sub, universe, snapshot, open_orders);
            &&& after == manager.filter(other_than(subscription@))
            &&& manager.contains(subscription@) ==> answers == seq![ResponseView::SubscriptionResponse(message)]
            &&& !manager.contains(subscription@) ==> answers == seq![
                ResponseView::Error("Already unsubscribed: "@ + sub),
            ]
        }),
{
    law_other_subscriptions_keep_their_order(manager, subscription@);
}

/// Messages are served one after the other, each with what the ones before it left, and answered in that
/// order.
pub proof fn law_messages_are_served_in_turn(
    manager: Seq<SubscriptionView>,
    requests: Seq<Request>,
    request: Request,
    universe: Set<Seq<char>>,
    snapshot: Option<TimedSnapshots>,
    open_orders: Map<Address, Vec<L4Order>>,
)
    ensures
        replies(manager, Seq::<Request>::empty(), universe, snapshot, open_orders).0 == manager,
        replies(manager, Seq::<Request>::empty(), universe, snapshot, open_orders).1.len() == 0,
        ({
            let (before, earlier) = replies(manager, requests, universe, snapshot, open_orders);
            let (after, more) = reply(before, request.message, request.sub@, universe, snapshot, open_orders);
            replies(manager, requests + seq![request], universe, snapshot, open_orders) == (after, earlier + more)
        }),
{
    assert((requests + seq![request]).drop_last() =~= requests);
    assert((requests + seq![request]).last() == request);
}

/// The first answer to an `L4Book` subscription shows the best orders of each side of the coin's book,
/// with the time and height of the snapshot: all of them where the side has at most ten levels, and
/// otherwise those of its first ten levels. Without the coin's book there is none.
pub proof fn law_first_orders_are_the_best(
    coin: Seq<char>,
    snapshot: Option<TimedSnapshots>,
    open_orders: Map<Address, Vec<L4Order>>,
)
    ensures
        ({
            let first = first_answer(SubscriptionView::L4Book { coin }, snapshot, open_orders);
            if snapshot is Some && snapshot->0.snapshot@.contains_key(coin) {
                let book = snapshot->0.snapshot@[coin];
                first matches Ok(Some(ResponseView::L4Snapshot { coin: name, time, height, bids, asks })) && {
                    &&& name == coin
                    &&& time == snapshot->0.time
                    &&& height == snapshot->0.height
                    &&& best_of(book.bids@, bids)
                    &&& best_of(book.asks@, asks)
                }
            } else {
                first == Err::<Option<ResponseView>, Seq<char>>("Snapshot Failed"@)
            }
        }),
{
    if snapshot is Some && snapshot->0.snapshot@.contains_key(coin) {
        let book = snapshot->0.snapshot@[coin];
        lemma_best(book.bids@);
        lemma_best(book.asks@);
    }
}

/// Whether a row shows the first orders of a side: all of them in at most ten levels, or as many as ten
/// levels hold.
pub open spec fn best_of(side: Seq<InnerL4Order>, row: Seq<L4Order>) -> bool {
    &&& row.len() <= side.len()
    &&& forall|i: int| 0 <= i < row.len() ==> #[trigger] row[i] == side[i].shown
    &&& level_count(side.take(row.len() as int)) <= 10
    &&& row.len() < side.len() ==> level_count(side.take(row.len() as int + 1)) == 11
}

proof fn lemma_best(side: Seq<InnerL4Order>)
    ensures
        best_of(side, shown(top_levels(side, 10))),
{
    law_kept_orders_come_first(side, 10);
    law_no_more_is_cut_than_has_to_be(side, 10);
    let kept = top_levels(side, 10);
    assert(side.take(kept.len() as int) =~= kept);
}

/// The first answer to a subscription to open orders shows the orders that were looked up for the user
/// that the text names; a text that names nobody, and a user who was not looked up, are refused.
pub proof fn law_first_open_orders_are_those_looked_up(
    user: Seq<char>,
    snapshot: Option<TimedSnapshots>,
    open_orders: Map<Address, Vec<L4Order>>,
)
    ensures
        ({
            let first = first_answer(SubscriptionView::OpenOrders { user }, snapshot, open_orders);
            let address = named_address(user);
            &&& !is_address_text(user) ==> first == Err::<Option<ResponseView>, Seq<char>>(
                "Invalid address: "@ + address_complaint(user),
            )
            &&& is_address_text(user) && !open_orders.contains_key(address) ==> first == Err::<
                Option<ResponseView>,
                Seq<char>,
            >("Open orders not available"@)
            &&& is_address_text(user) && open_orders.contains_key(address) ==> (first matches Ok(
                Some(ResponseView::OpenOrders { user: shown_user, open_orders: row }),
            ) && shown_user == address && row == open_orders[address]@)
        }),
{
}

/// Other subscriptions have no first answer.
pub proof fn law_other_subscriptions_begin_without_an_answer(
    subscription: SubscriptionView,
    snapshot: Option<TimedSnapshots>,
    open_orders: Map<Address, Vec<L4Order>>,
)
    requires
        subscription is Trades || subscription is L2Book || subscription is L4BookStream,
    ensures
        first_answer(subscription, snapshot, open_orders) == Ok::<Option<ResponseView>, Seq<char>>(None),
{
}

/// What has to be looked up for a message: the coin of a new `L4Book` subscription, the user of a new
/// subscription to open orders whose text names one, and otherwise nothing.
pub proof fn law_what_is_looked_up(message: ClientMessage)
    ensures
        match message {
            ClientMessage::Subscribe { subscription: Subscription::L4Book { coin } } => {
                l4_coin(message) == Some(coin@) && open_orders_user(message) is None
            },
            ClientMessage::Subscribe { subscription: Subscription::OpenOrders { user } } => {
                &&& l4_coin(message) is None
                &&& is_address_text(user@) ==> open_orders_user(message) == Some(named_address(user@))
                &&& !is_address_text(user@) ==> open_orders_user(message) is None
            },
            _ => l4_coin(message) is None && open_orders_user(message) is None,
        },
{
}

/// What is shown of a row of orders is what clients are shown of each, in the same order.
pub proof fn law_orders_are_shown_in_order(orders: Seq<InnerL4Order>)
    ensures
        shown(orders).len() == orders.len(),
        forall|i: int| 0 <= i < orders.len() ==> #[trigger] shown(orders)[i] == orders[i].shown,
{
}

/// A side of an `L2Book` answer: the best levels of the side, as many as there are up to `n`.
pub open spec fn best_levels(side: Seq<InnerLevel>, sent: Seq<InnerLevel>, n: nat) -> bool {
    &&& sent.is_prefix_of(side)
    &&& sent.len() <= n
    &&& sent.len() == n || sent.len() == side.len()
}

/// Where a coin's levels under the rounding that was asked for are known, both sides of the answer hold
/// the best levels of that side, as many as were asked for, or twenty where no number was named.
/// Otherwise there is no answer.
pub proof fn law_levels_are_those_asked_for(
    levels: Map<Seq<char>, CoinLevels>,
    now: u64,
    coin: Seq<char>,
    n_sig_figs: Option<u32>,
    n_levels: Option<usize>,
    mantissa: Option<u64>,
)
    ensures
        ({
            let answer = l2_answer(levels, now, SubscriptionView::L2Book { coin, n_sig_figs, n_levels, mantissa });
            let params = L2SnapshotParams { n_sig_figs, mantissa };
            let n: nat = if n_levels is Some {
                n_levels->0 as nat
            } else {
                20
            };
            if levels.contains_key(coin) && levels[coin].levels@.contains_key(params) {
                let book = levels[coin].levels@[params];
                answer matches Some(ResponseView::L2Book { coin: name, time, bid_levels, ask_levels }) && {
                    &&& name == coin
                    &&& time == now
                    &&& best_levels(book.bids@, bid_levels, n)
                    &&& best_levels(book.asks@, ask_levels, n)
                }
            } else {
                answer is None
            }
        }),
{
}

/// A subscription to trades is sent the trades of its coin that a batch of fills makes, where it makes
/// any.
pub proof fn law_trades_are_those_of_the_coin(fills: Seq<NodeDataFill>, coin: Seq<char>)
    ensures
        ({
            let trades = trades_of(trades_in(fills), coin);
            trades_answer(fills, SubscriptionView::Trades { coin }) == if trades.len() > 0 {
                Some(ResponseView::Trades(trades))
            } else {
                None
            }
        }),
{
}

/// An `L4Book` subscription is sent the diffs of its coin in a block that are near the top, with the
/// block's time and height, where there are any.
pub proof fn law_updates_are_those_of_the_coin(
    batch: BatchView<NodeDataOrderDiff>,
    boundaries: Map<Seq<char>, Boundaries>,
    coin: Seq<char>,
)
    requires
        batch.dated(),
    ensures
        ({
            let near = diffs_of(diffs_near_top(batch.events, boundaries), coin);
            let answer = updates_answer(batch, boundaries, SubscriptionView::L4Book { coin });
            if near.len() > 0 {
                answer matches Some(ResponseView::L4Updates { time, height, book_diffs }) && {
                    &&& time == batch.block_time.millis()
                    &&& height == batch.block_number
                    &&& book_diffs == near
                }
            } else {
                answer is None
            }
        }),
{
    assert(batch.block_time.millis() <= u64::MAX);
}

/// An `L4BookStream` subscription is sent the arriving diffs of its coin, with their time and height,
/// where there are any.
pub proof fn law_streams_are_those_of_the_coin(diffs: Seq<NodeDataOrderDiff>, now: u64, at: u64, coin: Seq<char>)
    ensures
        ({
            let mine = diffs_of(diffs, coin);
            let answer = stream_answer(diffs, now, at, SubscriptionView::L4BookStream { coin });
            if mine.len() > 0 {
                answer matches Some(ResponseView::L4BookStream { coin: name, time, height, book_diffs }) && {
                    &&& name == coin
                    &&& time == now
                    &&& height == at
                    &&& book_diffs == mine
                }
            } else {
                answer is None
            }
        }),
{
}

/// A subscription to open orders is sent those of its user, where the user was touched.
pub proof fn law_open_orders_are_those_of_the_user(changed: Map<Address, Seq<L4Order>>, user: Seq<char>)
    ensures
        ({
            let answer = open_orders_answer(changed, SubscriptionView::OpenOrders { user });
            if is_address_text(user) && changed.contains_key(named_address(user)) {
                answer matches Some(ResponseView::OpenOrders { user: shown_user, open_orders }) && {
                    &&& shown_user == named_address(user)
                    &&& open_orders == changed[named_address(user)]
                }
            } else {
                answer is None
            }
        }),
{
}

/// Each message of the listener is answered by its own rule, and only to subscriptions of its own kind.
pub proof fn law_messages_concern_one_kind(message: MessageView, subscription: SubscriptionView)
    ensures
        match message {
            MessageView::Snapshot { l2_snapshots, time } => {
                &&& answer_to(message, subscription) == l2_answer(l2_snapshots.0@, time, subscription)
                &&& answer_to(message, subscription) is Some ==> subscription is L2Book
            },
            MessageView::Fills { batch } => {
                &&& answer_to(message, subscription) == trades_answer(batch.events, subscription)
                &&& answer_to(message, subscription) is Some ==> subscription is Trades
            },
            MessageView::L4BookUpdates { diff_batch, price_boundaries } => {
                &&& answer_to(message, subscription) == updates_answer(diff_batch, price_boundaries, subscription)
                &&& answer_to(message, subscription) is Some ==> subscription is L4Book
            },
            MessageView::OpenOrdersUpdate { changed_users } => {
                &&& answer_to(message, subscription) == open_orders_answer(changed_users, subscription)
                &&& answer_to(message, subscription) is Some ==> subscription is OpenOrders
            },
            MessageView::StreamingBookDiffs { diffs, time, height } => {
                &&& answer_to(message, subscription) == stream_answer(diffs, time, height, subscription)
                &&& answer_to(message, subscription) is Some ==> subscription is L4BookStream
            },
        },
{
}

/// Subscriptions are answered in the order in which they were made, each at most once.
pub proof fn law_subscriptions_are_answered_in_turn(
    message: MessageView,
    subscriptions: Seq<SubscriptionView>,
    subscription: SubscriptionView,
)
    ensures
        told(message, Seq::<SubscriptionView>::empty()).len() == 0,
        told(message, subscriptions + seq![subscription]) == told(message, subscriptions) + match answer_to(
            message,
            subscription,
        ) {
            Some(answer) => seq![answer],
            None => Seq::<ResponseView>::empty(),
        },
{
    let all = subscriptions + seq![subscription];
    assert(all.drop_last() =~= subscriptions);
    assert(all.last() == subscription);
    assert(told(message, subscriptions) + Seq::<ResponseView>::empty() =~= told(message, subscriptions));
}

/// The view of an answer holds every part of it in its own place, and that of a row of answers one view
/// for each.
pub proof fn law_answers_are_seen_whole(response: ServerResponse, row: Seq<ServerResponse>)
    ensures
        match response {
            ServerResponse::SubscriptionResponse(message) => response@ == ResponseView::SubscriptionResponse(message),
            ServerResponse::L2Book(book) => response@ == (ResponseView::L2Book {
                coin: book.coin@,
                time: book.time,
                bid_levels: book.levels.bids@,
                ask_levels: book.levels.asks@,
            }),
            ServerResponse::L4Book(L4Book::Snapshot { coin, time, height, levels }) => response@ == (
            ResponseView::L4Snapshot { coin: coin@, time, height, bids: levels.bids@, asks: levels.asks@ }),
            ServerResponse::L4Book(L4Book::Updates(updates)) => response@ == (ResponseView::L4Updates {
                time: updates.time,
                height: updates.height,
                book_diffs: updates.book_diffs@,
            }),
            ServerResponse::Trades(trades) => response@ == ResponseView::Trades(trades@),
            ServerResponse::OpenOrders(data) => response@ == (ResponseView::OpenOrders {
                user: data.user,
                open_orders: data.open_orders@,
            }),
            ServerResponse::L4BookStream(stream) => response@ == (ResponseView::L4BookStream {
                coin: stream.coin@,
                time: stream.time,
                height: stream.height,
                book_diffs: stream.book_diffs@,
            }),
            ServerResponse::Pong => response@ is Pong,
            ServerResponse::Error(text) => response@ == ResponseView::Error(text@),
        },
        answers(row).len() == row.len(),
        forall|i: int| 0 <= i < row.len() ==> #[trigger] answers(row)[i] == row[i]@,
{
}

} // verus!
