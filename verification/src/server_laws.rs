//! What every client can rely on.

use crate::address::{Address, is_address_text, named_address};
use crate::blocks::BlockView;
use crate::book::{CoinLevels, L4Order, TimedSnapshots};
use crate::dispatch::{answer_to, l2_answer, told};
use crate::grouping::{coins_in, diffs_near_top, diffs_of, of_coin};
use crate::levels::{level_count, law_few_levels_are_kept_whole};
use crate::listener_laws::{applied_all, flow};
use crate::listener_view::ListenerView;
use crate::messages::{Boundaries, EventBatchView, MessageView};
use crate::node_data::{BatchView, NodeDataOrderDiff};
use crate::open_orders::{block_tracked, orders_in_row, orders_of};
use crate::open_orders_laws::law_untouched_users_keep_their_orders;
use crate::responses::ResponseView;
use crate::server::{L4_SNAPSHOT_MAX_LEVELS, reply, shown};
use crate::subscription::{
    ClientMessage, DEFAULT_LEVELS, MAX_LEVELS, Subscription, SubscriptionView, law_unsubscribing_undoes_subscribing,
};
use vstd::prelude::*;

verus! {

/// Every message is answered, and one that is answered with an error leaves the client subscribed
/// as before.
pub proof fn law_refused_message_changes_nothing(
    manager: Seq<SubscriptionView>,
    message: ClientMessage,
    sub: Seq<char>,
    universe: Set<Seq<char>>,
    snapshot: Option<TimedSnapshots>,
    open_orders: Map<Address, Vec<L4Order>>,
)
    ensures
        ({
            let (after, answers) = reply(manager, message, sub, universe, snapshot, open_orders);
            &&& answers.len() > 0
            &&& answers[0] is Error ==> after == manager && answers.len() == 1
        }),
{
}

/// A subscription that is confirmed holds from then on. Ending it is confirmed too, and leaves the
/// client subscribed as it was before.
pub proof fn law_confirmed_subscription_can_be_undone(
    manager: Seq<SubscriptionView>,
    subscription: Subscription,
    sub: Seq<char>,
    universe: Set<Seq<char>>,
    snapshot: Option<TimedSnapshots>,
    open_orders: Map<Address, Vec<L4Order>>,
)
    requires
        !(reply(
            manager,
            ClientMessage::Subscribe { subscription },
            sub,
            universe,
            snapshot,
            open_orders,
        ).1[0] is Error),
    ensures
        ({
            let (during, _) = reply(
                manager,
                ClientMessage::Subscribe { subscription },
                sub,
                universe,
                snapshot,
                open_orders,
            );
            let unsubscribe = ClientMessage::Unsubscribe { subscription };
            let (after, answers) = reply(during, unsubscribe, sub, universe, snapshot, open_orders);
            &&& during.contains(subscription@)
            &&& answers == seq![ResponseView::SubscriptionResponse(unsubscribe)]
            &&& after == manager
        }),
{
    law_unsubscribing_undoes_subscribing(manager, subscription@);
}

/// Whoever is subscribed already is told so, and not sent anything else.
pub proof fn law_no_subscription_is_made_twice(
    manager: Seq<SubscriptionView>,
    subscription: Subscription,
    sub: Seq<char>,
    universe: Set<Seq<char>>,
    snapshot: Option<TimedSnapshots>,
    open_orders: Map<Address, Vec<L4Order>>,
)
    requires
        subscription@.valid(universe),
        manager.contains(subscription@),
    ensures
        reply(manager, ClientMessage::Subscribe { subscription }, sub, universe, snapshot, open_orders) == (
            manager,
            seq![ResponseView::Error("Already subscribed: "@ + sub)],
        ),
{
}

/// An `L4Book` subscription that is confirmed is followed at once by the orders of the coin's book.
/// A side of the book with no more levels than are sent is sent whole.
pub proof fn law_orders_come_before_diffs(
    manager: Seq<SubscriptionView>,
    coin: String,
    sub: Seq<char>,
    universe: Set<Seq<char>>,
    books: TimedSnapshots,
    open_orders: Map<Address, Vec<L4Order>>,
)
    requires
        universe.contains(coin@),
        !manager.contains(SubscriptionView::L4Book { coin: coin@ }),
        books.snapshot@.contains_key(coin@),
    ensures
        ({
            let message = ClientMessage::Subscribe { subscription: Subscription::L4Book { coin } };
            let (after, answers) = reply(manager, message, sub, universe, Some(books), open_orders);
            let book = books.snapshot@[coin@];
            &&& after == manager.push(SubscriptionView::L4Book { coin: coin@ })
            &&& answers.len() == 2
            &&& answers[0] == ResponseView::SubscriptionResponse(message)
            &&& answers[1] matches ResponseView::L4Snapshot { coin: name, time, height, bids, asks } && {
                &&& name == coin@
                &&& time == books.time
                &&& height == books.height
                &&& level_count(book.bids@) <= L4_SNAPSHOT_MAX_LEVELS ==> bids == shown(book.bids@)
                &&& level_count(book.asks@) <= L4_SNAPSHOT_MAX_LEVELS ==> asks == shown(book.asks@)
            }
        }),
{
    let book = books.snapshot@[coin@];
    if level_count(book.bids@) <= L4_SNAPSHOT_MAX_LEVELS {
        law_few_levels_are_kept_whole(book.bids@, L4_SNAPSHOT_MAX_LEVELS as nat);
    }
    if level_count(book.asks@) <= L4_SNAPSHOT_MAX_LEVELS {
        law_few_levels_are_kept_whole(book.asks@, L4_SNAPSHOT_MAX_LEVELS as nat);
    }
}

/// An `L4BookStream` subscription is confirmed and begins with no orders.
pub proof fn law_streams_begin_without_orders(
    manager: Seq<SubscriptionView>,
    coin: String,
    sub: Seq<char>,
    universe: Set<Seq<char>>,
    snapshot: Option<TimedSnapshots>,
    open_orders: Map<Address, Vec<L4Order>>,
)
    requires
        universe.contains(coin@),
        !manager.contains(SubscriptionView::L4BookStream { coin: coin@ }),
    ensures
        ({
            let message = ClientMessage::Subscribe { subscription: Subscription::L4BookStream { coin } };
            reply(manager, message, sub, universe, snapshot, open_orders) == (
                manager.push(SubscriptionView::L4BookStream { coin: coin@ }),
                seq![ResponseView::SubscriptionResponse(message)],
            )
        }),
{
}

/// Whatever a client is sent answers one of its subscriptions.
pub proof fn law_only_subscribers_are_told(
    message: MessageView,
    subscriptions: Seq<SubscriptionView>,
    answer: ResponseView,
)
    requires
        told(message, subscriptions).contains(answer),
    ensures
        exists|subscription: SubscriptionView| #[trigger]
            subscriptions.contains(subscription) && answer_to(message, subscription) == Some(answer),
{
    let f = |subscription: SubscriptionView| answer_to(message, subscription);
    subscriptions.lemma_filter_map_contains(f, answer);
    let subscription = choose|subscription: SubscriptionView| #[trigger]
        subscriptions.contains(subscription) && f(subscription) == Some(answer);
    assert(subscriptions.contains(subscription) && answer_to(message, subscription) == Some(answer));
}

/// Every subscription that a message concerns is answered.
pub proof fn law_every_subscriber_is_told(
    message: MessageView,
    subscriptions: Seq<SubscriptionView>,
    subscription: SubscriptionView,
)
    requires
        subscriptions.contains(subscription),
        answer_to(message, subscription) is Some,
    ensures
        told(message, subscriptions).contains(answer_to(message, subscription)->0),
    decreases subscriptions.len(),
{
    let rest = subscriptions.drop_last();
    let all = told(message, subscriptions);
    let some = told(message, rest);
    let answer = answer_to(message, subscription)->0;
    if subscriptions.last() == subscription {
        assert(all[all.len() - 1] == answer);
    } else {
        let i = choose|i: int| 0 <= i < subscriptions.len() && subscriptions[i] == subscription;
        assert(rest[i] == subscription);
        law_every_subscriber_is_told(message, rest, subscription);
        let k = choose|k: int| 0 <= k < some.len() && some[k] == answer;
        assert(all[k] == answer);
    }
}

/// Where the streams are written within a block, diffs are told as they arrive: an `L4BookStream`
/// subscription is sent those of its coin, all of them, without waiting for the block.
pub proof fn law_streams_forward_arriving_diffs(
    listener: ListenerView,
    batch: BatchView<NodeDataOrderDiff>,
    coin: Seq<char>,
)
    requires
        listener.sending,
        listener.streaming,
        diffs_of(batch.events, coin).len() > 0,
    ensures
        ({
            let messages = listener.announced(EventBatchView::BookDiffs(batch));
            &&& messages.len() == 1
            &&& answer_to(messages[0], SubscriptionView::L4BookStream { coin }) == Some(
                ResponseView::L4BookStream {
                    coin,
                    time: batch.block_time.millis() as u64,
                    height: batch.block_number,
                    book_diffs: diffs_of(batch.events, coin),
                },
            )
        }),
{
}

/// Where the streams are written by block, nothing is told of diffs before their block is taken.
pub proof fn law_whole_blocks_are_not_streamed(listener: ListenerView, batch: BatchView<NodeDataOrderDiff>)
    requires
        !listener.streaming,
    ensures
        listener.announced(EventBatchView::BookDiffs(batch)).len() == 0,
{
}

/// A block that has gone into the book is told at once: an `L4Book` subscription is sent all of the
/// block's diffs of its coin that are near the top of the coin's book, where there are any.
pub proof fn law_books_forward_diffs_near_the_top(
    listener: ListenerView,
    block: BlockView,
    boundaries: Map<Seq<char>, Boundaries>,
    coin: Seq<char>,
)
    requires
        listener.sending,
    ensures
        ({
            let messages = listener.told(block, boundaries);
            let book_diffs = diffs_of(diffs_near_top(block.diffs.events, boundaries), coin);
            &&& messages.len() > 0
            &&& answer_to(messages[0], SubscriptionView::L4Book { coin }) == if book_diffs.len() > 0 {
                Some(
                    ResponseView::L4Updates {
                        time: block.diffs.block_time.millis() as u64,
                        height: block.diffs.block_number,
                        book_diffs,
                    },
                )
            } else {
                None
            }
        }),
{
}

/// A user who is touched by a block is sent the open orders that the block leaves, and a user who
/// is not touched is sent nothing.
pub proof fn law_touched_users_are_told(
    listener: ListenerView,
    block: BlockView,
    boundaries: Map<Seq<char>, Boundaries>,
    user: Seq<char>,
)
    requires
        listener.sending,
        is_address_text(user),
    ensures
        ({
            let messages = listener.told(block, boundaries);
            let after = block_tracked(listener.open, block.statuses.events, block.diffs.events);
            let address = named_address(user);
            let subscription = SubscriptionView::OpenOrders { user };
            if after.changed.contains(address) {
                &&& messages.len() == 2
                &&& answer_to(messages[1], subscription) == Some(
                    ResponseView::OpenOrders {
                        user: address,
                        open_orders: orders_in_row(orders_of(listener.applied(block).open, address)),
                    },
                )
            } else {
                forall|i: int| 0 <= i < messages.len() ==> answer_to(#[trigger] messages[i], subscription) is None
            }
        }),
{
}

/// The levels that a client is sent are the best of each side, as many as it asked for, twenty
/// where it did not say, and never more than a hundred where its subscription was accepted.
pub proof fn law_levels_are_limited(
    levels: Map<Seq<char>, CoinLevels>,
    time: u64,
    subscription: SubscriptionView,
    universe: Set<Seq<char>>,
)
    requires
        subscription.valid(universe),
    ensures
        l2_answer(levels, time, subscription) matches Some(
            ResponseView::L2Book { bid_levels, ask_levels, .. },
        ) ==> {
            &&& bid_levels.len() <= MAX_LEVELS
            &&& ask_levels.len() <= MAX_LEVELS
            &&& subscription->n_levels is None ==> bid_levels.len() <= DEFAULT_LEVELS && ask_levels.len()
                <= DEFAULT_LEVELS
        },
{
}

/// The coin that a subscription names, where it names one.
pub open spec fn coin_named(subscription: SubscriptionView) -> Option<Seq<char>> {
    match subscription {
        SubscriptionView::Trades { coin } => Some(coin),
        SubscriptionView::L2Book { coin, .. } => Some(coin),
        SubscriptionView::L4Book { coin } => Some(coin),
        SubscriptionView::OpenOrders { .. } => None,
        SubscriptionView::L4BookStream { coin } => Some(coin),
    }
}

/// Where spot markets are left out, every subscription to one of them is refused.
pub proof fn law_spot_markets_are_refused(
    manager: Seq<SubscriptionView>,
    subscription: Subscription,
    coin: Seq<char>,
    sub: Seq<char>,
    levels: Map<Seq<char>, CoinLevels>,
    snapshot: Option<TimedSnapshots>,
    open_orders: Map<Address, Vec<L4Order>>,
)
    requires
        coin_named(subscription@) == Some(coin),
        levels.contains_key(coin),
        levels[coin].spot,
    ensures
        reply(
            manager,
            ClientMessage::Subscribe { subscription },
            sub,
            coins_in(levels, true),
            snapshot,
            open_orders,
        ) == (manager, seq![ResponseView::Error("Invalid subscription: "@ + sub)]),
{
}

/// Whatever the universe, a subscription to a coin outside it is refused.
pub proof fn law_unknown_coins_are_refused(
    manager: Seq<SubscriptionView>,
    subscription: Subscription,
    coin: Seq<char>,
    sub: Seq<char>,
    universe: Set<Seq<char>>,
    snapshot: Option<TimedSnapshots>,
    open_orders: Map<Address, Vec<L4Order>>,
)
    requires
        coin_named(subscription@) == Some(coin),
        !universe.contains(coin),
    ensures
        reply(manager, ClientMessage::Subscribe { subscription }, sub, universe, snapshot, open_orders) == (
            manager,
            seq![ResponseView::Error("Invalid subscription: "@ + sub)],
        ),
{
}

/// The diffs that an answer brings.
pub open spec fn diffs_sent(answer: Option<ResponseView>) -> Seq<NodeDataOrderDiff> {
    match answer {
        Some(ResponseView::L4Updates { book_diffs, .. }) => book_diffs,
        Some(ResponseView::L4BookStream { book_diffs, .. }) => book_diffs,
        _ => Seq::empty(),
    }
}

/// The diffs that an `L4Book` subscription is sent while a row of blocks goes into the book, where
/// `boundaries` are the book's after each of them.
pub open spec fn book_feed(
    listener: ListenerView,
    blocks: Seq<BlockView>,
    boundaries: Seq<Map<Seq<char>, Boundaries>>,
    coin: Seq<char>,
) -> Seq<NodeDataOrderDiff>
    decreases blocks.len(),
{
    if blocks.len() == 0 {
        Seq::empty()
    } else {
        let before = applied_all(listener, blocks.drop_last());
        let messages = before.told(blocks.last(), boundaries[blocks.len() - 1]);
        book_feed(listener, blocks.drop_last(), boundaries, coin) + diffs_sent(
            answer_to(messages[0], SubscriptionView::L4Book { coin }),
        )
    }
}

/// The diffs of a row of blocks that are near the top of their coin's book, where `boundaries` are
/// the book's after each block.
pub open spec fn near_top_in(
    blocks: Seq<BlockView>,
    boundaries: Seq<Map<Seq<char>, Boundaries>>,
) -> Seq<NodeDataOrderDiff>
    decreases blocks.len(),
{
    if blocks.len() == 0 {
        Seq::empty()
    } else {
        near_top_in(blocks.drop_last(), boundaries) + diffs_near_top(
            blocks.last().diffs.events,
            boundaries[blocks.len() - 1],
        )
    }
}

/// An `L4Book` subscription misses nothing near the top: what it is sent while blocks go into the
/// book are the blocks' diffs of its coin that are near the top of the coin's book, each once and in
/// their order.
pub proof fn law_book_subscribers_miss_nothing_near_the_top(
    listener: ListenerView,
    blocks: Seq<BlockView>,
    boundaries: Seq<Map<Seq<char>, Boundaries>>,
    coin: Seq<char>,
)
    requires
        listener.sending,
    ensures
        book_feed(listener, blocks, boundaries, coin) == diffs_of(near_top_in(blocks, boundaries), coin),
    decreases blocks.len(),
{
    if blocks.len() == 0 {
        lemma_none_of_none(coin);
    } else {
        let earlier = blocks.drop_last();
        let block = blocks.last();
        let now = boundaries[blocks.len() - 1];
        law_book_subscribers_miss_nothing_near_the_top(listener, earlier, boundaries, coin);
        lemma_audience_stays(listener, earlier);
        let near = diffs_near_top(block.diffs.events, now);
        Seq::filter_distributes_over_add(near_top_in(earlier, boundaries), near, of_coin(coin));
        let messages = applied_all(listener, earlier).told(block, now);
        assert(diffs_sent(answer_to(messages[0], SubscriptionView::L4Book { coin })) =~= diffs_of(near, coin));
    }
}

/// Of no diffs, none are of the coin.
proof fn lemma_none_of_none(coin: Seq<char>)
    ensures
        diffs_of(Seq::<NodeDataOrderDiff>::empty(), coin) == Seq::<NodeDataOrderDiff>::empty(),
{
    reveal(Seq::filter);
}

/// A block that goes into the book does not change whether anyone listens.
proof fn lemma_audience_stays(listener: ListenerView, blocks: Seq<BlockView>)
    ensures
        applied_all(listener, blocks).sending == listener.sending,
    decreases blocks.len(),
{
    if blocks.len() > 0 {
        lemma_audience_stays(listener, blocks.drop_last());
    }
}

/// The diffs that an `L4BookStream` subscription is sent while a row of batches arrives.
pub open spec fn stream_feed(
    listener: ListenerView,
    batches: Seq<BatchView<NodeDataOrderDiff>>,
    coin: Seq<char>,
) -> Seq<NodeDataOrderDiff>
    decreases batches.len(),
{
    if batches.len() == 0 {
        Seq::empty()
    } else {
        let before = arrived_all(listener, batches.drop_last());
        let messages = before.announced(EventBatchView::BookDiffs(batches.last()));
        stream_feed(listener, batches.drop_last(), coin) + diffs_sent(
            answer_to(messages[0], SubscriptionView::L4BookStream { coin }),
        )
    }
}

/// The listener after a row of batches has arrived.
pub open spec fn arrived_all(listener: ListenerView, batches: Seq<BatchView<NodeDataOrderDiff>>) -> ListenerView
    decreases batches.len(),
{
    if batches.len() == 0 {
        listener
    } else {
        arrived_all(listener, batches.drop_last()).received(EventBatchView::BookDiffs(batches.last()))
    }
}

/// An `L4BookStream` subscription misses nothing: where the streams are written within a block,
/// what it is sent are the arriving diffs of its coin, each once and in their order.
pub proof fn law_stream_subscribers_miss_nothing(
    listener: ListenerView,
    batches: Seq<BatchView<NodeDataOrderDiff>>,
    coin: Seq<char>,
)
    requires
        listener.sending,
        listener.streaming,
    ensures
        stream_feed(listener, batches, coin) == diffs_of(flow(batches), coin),
        arrived_all(listener, batches).sending,
        arrived_all(listener, batches).streaming,
    decreases batches.len(),
{
    if batches.len() == 0 {
        lemma_none_of_none(coin);
    } else {
        let earlier = batches.drop_last();
        let batch = batches.last();
        law_stream_subscribers_miss_nothing(listener, earlier, coin);
        Seq::filter_distributes_over_add(flow(earlier), batch.events, of_coin(coin));
        let messages = arrived_all(listener, earlier).announced(EventBatchView::BookDiffs(batch));
        assert(diffs_sent(answer_to(messages[0], SubscriptionView::L4BookStream { coin })) =~= diffs_of(
            batch.events,
            coin,
        ));
    }
}

/// The open orders that a subscriber to a user's orders has last been sent, where it had been sent
/// `seen` before a row of messages.
pub open spec fn orders_last_sent(seen: Seq<L4Order>, messages: Seq<MessageView>, user: Seq<char>) -> Seq<L4Order>
    decreases messages.len(),
{
    if messages.len() == 0 {
        seen
    } else {
        match answer_to(messages.last(), SubscriptionView::OpenOrders { user }) {
            Some(ResponseView::OpenOrders { open_orders, .. }) => open_orders,
            _ => orders_last_sent(seen, messages.drop_last(), user),
        }
    }
}

/// The open orders that a subscriber to a user's orders has last been sent after a row of blocks
/// has gone into the book, where `boundaries` are the book's after each of them. It was sent the
/// user's open orders when it subscribed.
pub open spec fn orders_seen(
    listener: ListenerView,
    blocks: Seq<BlockView>,
    boundaries: Seq<Map<Seq<char>, Boundaries>>,
    user: Seq<char>,
) -> Seq<L4Order>
    decreases blocks.len(),
{
    if blocks.len() == 0 {
        orders_in_row(orders_of(listener.open, named_address(user)))
    } else {
        let before = applied_all(listener, blocks.drop_last());
        orders_last_sent(
            orders_seen(listener, blocks.drop_last(), boundaries, user),
            before.told(blocks.last(), boundaries[blocks.len() - 1]),
            user,
        )
    }
}

/// A subscriber to a user's open orders is up to date after every block: what it has last been sent
/// are the orders that the user has open.
pub proof fn law_open_orders_subscribers_are_up_to_date(
    listener: ListenerView,
    blocks: Seq<BlockView>,
    boundaries: Seq<Map<Seq<char>, Boundaries>>,
    user: Seq<char>,
)
    requires
        listener.sending,
        is_address_text(user),
    ensures
        orders_seen(listener, blocks, boundaries, user) == orders_in_row(
            orders_of(applied_all(listener, blocks).open, named_address(user)),
        ),
    decreases blocks.len(),
{
    if blocks.len() > 0 {
        let earlier = blocks.drop_last();
        let block = blocks.last();
        let now = boundaries[blocks.len() - 1];
        let before = applied_all(listener, earlier);
        let address = named_address(user);
        let after = block_tracked(before.open, block.statuses.events, block.diffs.events);
        law_open_orders_subscribers_are_up_to_date(listener, earlier, boundaries, user);
        lemma_audience_stays(listener, earlier);
        law_touched_users_are_told(before, block, now, user);
        reveal_with_fuel(orders_last_sent, 3);
        if !after.changed.contains(address) {
            law_untouched_users_keep_their_orders(before.open, block.statuses.events, block.diffs.events, address);
        }
    }
}

} // verus!
