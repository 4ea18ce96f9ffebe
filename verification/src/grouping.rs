//! Sorting trades and diffs by coin.

use crate::book::{CoinLevels, L2Snapshots, Px};
use crate::key_map::CoinMap;
use crate::messages::Boundaries;
use crate::node_data::{Batch, NodeDataFill, NodeDataOrderDiff};
use crate::responses::{L4BookStream, L4BookUpdates, Trade, trade_of};
use crate::subscription::Universe;
use vstd::prelude::*;

verus! {

/// The coins of a snapshot that can be subscribed to: all of them, or those that have no spot
/// market.
pub open spec fn coins_in(levels: Map<Seq<char>, CoinLevels>, ignore_spot: bool) -> Set<Seq<char>> {
    Set::new(|coin: Seq<char>| levels.contains_key(coin) && (!levels[coin].spot || !ignore_spot))
}

/// The coins of a snapshot that can be subscribed to.
pub fn new_universe(l2_snapshots: &L2Snapshots, ignore_spot: bool) -> (universe: Universe)
    ensures
        universe@ == coins_in(l2_snapshots.0@, ignore_spot),
{
    let levels = l2_snapshots.as_ref();
    let coins = levels.keys();
    let mut universe = Universe::new();
    let mut i: usize = 0;
    while i < coins.len()
        invariant
            i <= coins@.len(),
            forall|k: int| 0 <= k < coins@.len() ==> levels@.contains_key((#[trigger] coins@[k])@),
            forall|coin: Seq<char>| #[trigger]
                universe@.contains(coin) <==> coins_in(levels@, ignore_spot).contains(coin) && exists|k: int|
                    0 <= k < i && (#[trigger] coins@[k])@ == coin,
        decreases coins@.len() - i,
    {
        let ghost before = universe@;
        let ghost name = coins@[i as int]@;
        match levels.get(&coins[i]) {
            Some(found) => {
                if !found.spot || !ignore_spot {
                    universe.insert(coins[i].clone());
                }
            },
            None => {},
        }
        i = i + 1;
        assert forall|coin: Seq<char>| #[trigger] universe@.contains(coin) <==> coins_in(
            levels@,
            ignore_spot,
        ).contains(coin) && exists|k: int| 0 <= k < i && (#[trigger] coins@[k])@ == coin by {
            if coin == name {
                assert(coins@[i - 1]@ == coin);
            } else {
                assert(universe@.contains(coin) == before.contains(coin));
                if exists|k: int| 0 <= k < i && (#[trigger] coins@[k])@ == coin {
                    let k = choose|k: int| 0 <= k < i && (#[trigger] coins@[k])@ == coin;
                    assert(k < i - 1);
                }
            }
        }
    }
    assert(universe@ =~= coins_in(levels@, ignore_spot));
    universe
}

/// The matches of a row of fills, two fills to a match; a fill left over makes none.
pub open spec fn trades_in(fills: Seq<NodeDataFill>) -> Seq<Trade> {
    Seq::new(fills.len() / 2, |i: int| trade_of(fills[2 * i], fills[2 * i + 1]))
}

/// Those of a row of trades that are of the coin.
pub open spec fn trades_of(trades: Seq<Trade>, coin: Seq<char>) -> Seq<Trade> {
    trades.filter(|trade: Trade| trade.coin@ == coin)
}

/// Which diffs are of the coin.
pub open spec fn of_coin(coin: Seq<char>) -> spec_fn(NodeDataOrderDiff) -> bool {
    |diff: NodeDataOrderDiff| diff.coin.name@ == coin
}

/// Those of a row of diffs that are of the coin.
pub open spec fn diffs_of(diffs: Seq<NodeDataOrderDiff>, coin: Seq<char>) -> Seq<NodeDataOrderDiff> {
    diffs.filter(of_coin(coin))
}

/// Whether a diff is near the top of its coin's book, and so told of: where the book's boundaries
/// are known, its price lies within them.
pub open spec fn near_top(diff: NodeDataOrderDiff, boundaries: Map<Seq<char>, Boundaries>) -> bool {
    boundaries.contains_key(diff.coin.name@) ==> within(diff.price, boundaries[diff.coin.name@])
}

/// Whether a price lies neither below the lowest bid nor above the highest ask. A price that could
/// not be read counts as lying there.
pub open spec fn within(price: Option<Px>, boundaries: Boundaries) -> bool {
    price matches Some(px) ==> {
        &&& boundaries.bid_floor matches Some(bid) ==> bid.raw <= px.raw
        &&& boundaries.ask_ceiling matches Some(ask) ==> px.raw <= ask.raw
    }
}

/// Which diffs are near the top of their coin's book.
pub open spec fn is_told(boundaries: Map<Seq<char>, Boundaries>) -> spec_fn(NodeDataOrderDiff) -> bool {
    |diff: NodeDataOrderDiff| near_top(diff, boundaries)
}

/// The diffs of a row that are told of.
pub open spec fn diffs_near_top(
    diffs: Seq<NodeDataOrderDiff>,
    boundaries: Map<Seq<char>, Boundaries>,
) -> Seq<NodeDataOrderDiff> {
    diffs.filter(is_told(boundaries))
}

/// What one more trade makes of the trades of a coin.
proof fn lemma_next_trade(trades: Seq<Trade>, trade: Trade, coin: Seq<char>)
    ensures
        trades_of(trades.push(trade), coin) == if trade.coin@ == coin {
            trades_of(trades, coin).push(trade)
        } else {
            trades_of(trades, coin)
        },
{
    reveal(Seq::filter);
    assert(trades.push(trade).drop_last() =~= trades);
}

/// What one more diff makes of the diffs of a coin, and of those that are told of.
proof fn lemma_next_diff(
    diffs: Seq<NodeDataOrderDiff>,
    diff: NodeDataOrderDiff,
    coin: Seq<char>,
    boundaries: Map<Seq<char>, Boundaries>,
)
    ensures
        diffs_of(diffs.push(diff), coin) == if diff.coin.name@ == coin {
            diffs_of(diffs, coin).push(diff)
        } else {
            diffs_of(diffs, coin)
        },
        diffs_near_top(diffs.push(diff), boundaries) == if near_top(diff, boundaries) {
            diffs_near_top(diffs, boundaries).push(diff)
        } else {
            diffs_near_top(diffs, boundaries)
        },
{
    reveal(Seq::filter);
    assert(diffs.push(diff).drop_last() =~= diffs);
}

/// Whether a map holds the trades of a row, each under its coin.
pub open spec fn holds_trades(map: Map<Seq<char>, Vec<Trade>>, trades: Seq<Trade>) -> bool {
    forall|coin: Seq<char>|
        {
            &&& #[trigger] map.contains_key(coin) <==> trades_of(trades, coin).len() > 0
            &&& map.contains_key(coin) ==> map[coin]@ == trades_of(trades, coin)
        }
}

/// The trades of a batch of fills, by coin.
pub fn coin_to_trades(batch: &Batch<NodeDataFill>) -> (trades: CoinMap<Vec<Trade>>)
    ensures
        holds_trades(trades@, trades_in(batch@.events)),
{
    let fills = batch.events_ref();
    let mut trades: CoinMap<Vec<Trade>> = CoinMap::new();
    let mut i: usize = 0;
    let ghost all = trades_in(fills@);
    let ghost mut done: nat = 0;
    proof {
        reveal(Seq::filter);
        assert(all.take(0) =~= Seq::<Trade>::empty());
        assert forall|coin: Seq<char>| trades_of(all.take(0), coin).len() == 0 by {}
    }
    while i + 1 < fills.len()
        invariant
            i == 2 * done,
            i <= fills@.len(),
            all == trades_in(fills@),
            done <= all.len(),
            holds_trades(trades@, all.take(done as int)),
        decreases fills@.len() - i,
    {
        let trade = Trade::from_fills(&fills[i], &fills[i + 1]);
        let coin = trade.coin.clone();
        let ghost name = coin@;
        let ghost before = trades@;
        let mut row = match trades.remove(&coin) {
            Some(row) => row,
            None => Vec::new(),
        };
        row.push(trade);
        let ghost now = row@;
        trades.insert(coin, row);
        proof {
            let some = all.take(done as int);
            assert(trade == all[done as int]);
            assert(all.take(done as int + 1) =~= some.push(trade));
            assert(now =~= trades_of(some, name).push(trade));
            assert forall|c: Seq<char>|
                {
                    &&& #[trigger] trades@.contains_key(c) <==> trades_of(some.push(trade), c).len() > 0
                    &&& trades@.contains_key(c) ==> trades@[c]@ == trades_of(some.push(trade), c)
                } by {
                lemma_next_trade(some, trade, c);
                assert(before.contains_key(c) <==> trades_of(some, c).len() > 0);
            }
            done = done + 1;
        }
        i = i + 2;
    }
    assert(all.take(done as int) =~= all);
    trades
}

/// Whether a map holds the diffs of a row, each under its coin, with the block's time and height.
pub open spec fn holds_updates(
    map: Map<Seq<char>, L4BookUpdates>,
    diffs: Seq<NodeDataOrderDiff>,
    time: int,
    height: u64,
) -> bool {
    forall|coin: Seq<char>|
        {
            &&& #[trigger] map.contains_key(coin) <==> diffs_of(diffs, coin).len() > 0
            &&& map.contains_key(coin) ==> {
                &&& map[coin].time == time
                &&& map[coin].height == height
                &&& map[coin].book_diffs@ == diffs_of(diffs, coin)
            }
        }
}

/// Whether a diff is told of.
fn is_near_top(diff: &NodeDataOrderDiff, boundaries: &CoinMap<Boundaries>) -> (near: bool)
    ensures
        near == near_top(*diff, boundaries@),
{
    match boundaries.get(&diff.coin.name) {
        Some(found) => match diff.price {
            Some(px) => {
                let below_bids = match found.bid_floor {
                    Some(bid) => px.raw < bid.raw,
                    None => false,
                };
                let above_asks = match found.ask_ceiling {
                    Some(ask) => px.raw > ask.raw,
                    None => false,
                };
                !(below_bids || above_asks)
            },
            None => true,
        },
        None => true,
    }
}

/// The diffs of a block that are told of, by coin.
pub fn coin_to_book_updates(
    diff_batch: &Batch<NodeDataOrderDiff>,
    price_boundaries: &CoinMap<Boundaries>,
) -> (updates: CoinMap<L4BookUpdates>)
    requires
        diff_batch@.dated(),
    ensures
        holds_updates(
            updates@,
            diffs_near_top(diff_batch@.events, price_boundaries@),
            diff_batch@.block_time.millis(),
            diff_batch@.block_number,
        ),
{
    let time: u64 = diff_batch.block_time();
    let height: u64 = diff_batch.block_number();
    let diffs = diff_batch.events_ref();
    let mut updates: CoinMap<L4BookUpdates> = CoinMap::new();
    let mut i: usize = 0;
    proof {
        reveal(Seq::filter);
        assert(diffs@.take(0) =~= Seq::<NodeDataOrderDiff>::empty());
        assert(diffs_near_top(diffs@.take(0), price_boundaries@) =~= Seq::<NodeDataOrderDiff>::empty());
        assert forall|coin: Seq<char>| diffs_of(Seq::<NodeDataOrderDiff>::empty(), coin).len() == 0 by {}
    }
    while i < diffs.len()
        invariant
            i <= diffs@.len(),
            holds_updates(updates@, diffs_near_top(diffs@.take(i as int), price_boundaries@), time as int, height),
        decreases diffs@.len() - i,
    {
        let diff = &diffs[i];
        let ghost told = diffs_near_top(diffs@.take(i as int), price_boundaries@);
        let ghost before = updates@;
        proof {
            assert(diffs@.take(i + 1) =~= diffs@.take(i as int).push(*diff));
            lemma_next_diff(diffs@.take(i as int), *diff, diff.coin.name@, price_boundaries@);
        }
        if is_near_top(diff, price_boundaries) {
            let coin = diff.coin().value();
            let mut row = match updates.remove(&coin) {
                Some(row) => row,
                None => L4BookUpdates::new(time, height),
            };
            row.book_diffs.push(diff.clone());
            let ghost now = row;
            updates.insert(coin, row);
            proof {
                assert(now.book_diffs@ =~= diffs_of(told, diff.coin.name@).push(*diff));
                assert forall|c: Seq<char>|
                    {
                        &&& #[trigger] updates@.contains_key(c) <==> diffs_of(told.push(*diff), c).len() > 0
                        &&& updates@.contains_key(c) ==> {
                            &&& updates@[c].time == time
                            &&& updates@[c].height == height
                            &&& updates@[c].book_diffs@ == diffs_of(told.push(*diff), c)
                        }
                    } by {
                    lemma_next_diff(told, *diff, c, price_boundaries@);
                    assert(before.contains_key(c) <==> diffs_of(told, c).len() > 0);
                }
            }
        }
        i = i + 1;
    }
    assert(diffs@.take(i as int) =~= diffs@);
    updates
}

/// Whether a map holds the diffs of a row, each under its coin, with the given time and height.
pub open spec fn holds_streams(
    map: Map<Seq<char>, L4BookStream>,
    diffs: Seq<NodeDataOrderDiff>,
    time: u64,
    height: u64,
) -> bool {
    forall|coin: Seq<char>|
        {
            &&& #[trigger] map.contains_key(coin) <==> diffs_of(diffs, coin).len() > 0
            &&& map.contains_key(coin) ==> {
                &&& map[coin].coin@ == coin
                &&& map[coin].time == time
                &&& map[coin].height == height
                &&& map[coin].book_diffs@ == diffs_of(diffs, coin)
            }
        }
}

/// Diffs as they arrived, by coin.
pub fn coin_to_streaming_book_updates(diffs: &Vec<NodeDataOrderDiff>, time: u64, height: u64) -> (updates: CoinMap<
    L4BookStream,
>)
    ensures
        holds_streams(updates@, diffs@, time, height),
{
    let mut updates: CoinMap<L4BookStream> = CoinMap::new();
    let mut i: usize = 0;
    proof {
        reveal(Seq::filter);
        assert(diffs@.take(0) =~= Seq::<NodeDataOrderDiff>::empty());
        assert forall|coin: Seq<char>| diffs_of(diffs@.take(0), coin).len() == 0 by {}
    }
    while i < diffs.len()
        invariant
            i <= diffs@.len(),
            holds_streams(updates@, diffs@.take(i as int), time, height),
        decreases diffs@.len() - i,
    {
        let diff = &diffs[i];
        let ghost some = diffs@.take(i as int);
        let ghost before = updates@;
        let coin = diff.coin().value();
        let mut row = match updates.remove(&coin) {
            Some(row) => row,
            None => L4BookStream { coin: coin.clone(), time, height, book_diffs: Vec::new() },
        };
        row.book_diffs.push(diff.clone());
        let ghost now = row;
        updates.insert(coin, row);
        proof {
            assert(diffs@.take(i + 1) =~= some.push(*diff));
            assert(now.book_diffs@ =~= diffs_of(some, diff.coin.name@).push(*diff));
            assert forall|c: Seq<char>|
                {
                    &&& #[trigger] updates@.contains_key(c) <==> diffs_of(some.push(*diff), c).len() > 0
                    &&& updates@.contains_key(c) ==> {
                        &&& updates@[c].coin@ == c
                        &&& updates@[c].time == time
                        &&& updates@[c].height == height
                        &&& updates@[c].book_diffs@ == diffs_of(some.push(*diff), c)
                    }
                } by {
                lemma_next_diff(some, *diff, c, Map::empty());
                assert(before.contains_key(c) <==> diffs_of(some, c).len() > 0);
            }
        }
        i = i + 1;
    }
    assert(diffs@.take(i as int) =~= diffs@);
    updates
}

/// A diff whose price could not be read is told of.
pub proof fn law_unread_prices_are_told(diff: NodeDataOrderDiff, boundaries: Map<Seq<char>, Boundaries>)
    requires
        diff.price is None,
    ensures
        near_top(diff, boundaries),
{
}

/// Every diff stands under its own coin, and under no other.
pub proof fn law_diffs_stand_under_their_coin(diffs: Seq<NodeDataOrderDiff>, coin: Seq<char>, diff: NodeDataOrderDiff)
    ensures
        diffs_of(diffs, coin).contains(diff) <==> diffs.contains(diff) && diff.coin.name@ == coin,
{
    let mine = diffs_of(diffs, coin);
    let own = of_coin(coin);
    if mine.contains(diff) {
        diffs.lemma_filter_contains_rev(own, diff);
        let i = choose|i: int| 0 <= i < mine.len() && mine[i] == diff;
        diffs.lemma_filter_pred(own, i);
    }
    if diffs.contains(diff) && diff.coin.name@ == coin {
        let i = choose|i: int| 0 <= i < diffs.len() && diffs[i] == diff;
        diffs.lemma_filter_contains(own, i);
    }
}

/// The updates of a coin's book hold the diffs of the coin that are near the top of its book, and no
/// others: a diff whose price lies outside the boundaries stands in no update.
pub proof fn law_updates_hold_what_is_near_the_top(
    diffs: Seq<NodeDataOrderDiff>,
    boundaries: Map<Seq<char>, Boundaries>,
    coin: Seq<char>,
    diff: NodeDataOrderDiff,
)
    ensures
        diffs_of(diffs_near_top(diffs, boundaries), coin).contains(diff) <==> {
            &&& diffs.contains(diff)
            &&& diff.coin.name@ == coin
            &&& boundaries.contains_key(coin) ==> within(diff.price, boundaries[coin])
        },
{
    let told = diffs_near_top(diffs, boundaries);
    let near = is_told(boundaries);
    law_diffs_stand_under_their_coin(told, coin, diff);
    if told.contains(diff) {
        diffs.lemma_filter_contains_rev(near, diff);
        let i = choose|i: int| 0 <= i < told.len() && told[i] == diff;
        diffs.lemma_filter_pred(near, i);
    }
    if diffs.contains(diff) && near_top(diff, boundaries) {
        let i = choose|i: int| 0 <= i < diffs.len() && diffs[i] == diff;
        diffs.lemma_filter_contains(near, i);
    }
}

/// Where every diff of a row is near the top of its coin's book, all of them are told of.
pub proof fn law_diffs_near_the_top_are_all_told(
    diffs: Seq<NodeDataOrderDiff>,
    boundaries: Map<Seq<char>, Boundaries>,
)
    requires
        forall|i: int| 0 <= i < diffs.len() ==> near_top(#[trigger] diffs[i], boundaries),
    ensures
        diffs_near_top(diffs, boundaries) == diffs,
    decreases diffs.len(),
{
    reveal(Seq::filter);
    if diffs.len() > 0 {
        let earlier = diffs.drop_last();
        assert(forall|i: int| 0 <= i < earlier.len() ==> #[trigger] earlier[i] == diffs[i]);
        law_diffs_near_the_top_are_all_told(earlier, boundaries);
        assert(near_top(diffs[diffs.len() - 1], boundaries));
        assert(diffs =~= earlier.push(diffs.last()));
    }
}

/// Which coins there are: those of the snapshot, without the spot markets where these are left out.
pub proof fn law_which_coins_there_are(levels: Map<Seq<char>, CoinLevels>, coin: Seq<char>)
    ensures
        coins_in(levels, false).contains(coin) <==> levels.contains_key(coin),
        coins_in(levels, true).contains(coin) <==> levels.contains_key(coin) && !levels[coin].spot,
{
}

/// A price is near the top where it is neither below the floor of the bids nor above the ceiling of
/// the asks; without a floor, a ceiling, boundaries or a price, nothing is said against it.
pub proof fn law_what_is_near_the_top(diff: NodeDataOrderDiff, boundaries: Map<Seq<char>, Boundaries>)
    ensures
        !near_top(diff, boundaries) <==> {
            &&& boundaries.contains_key(diff.coin.name@)
            &&& diff.price is Some
            &&& {
                let limits = boundaries[diff.coin.name@];
                let px = diff.price->0.raw;
                ||| limits.bid_floor is Some && px < limits.bid_floor->0.raw
                ||| limits.ask_ceiling is Some && px > limits.ask_ceiling->0.raw
            }
        },
{
}

/// The diffs of a coin, and those near the top, keep their order, each once: one more diff is put at
/// the end exactly where it is one of them.
pub proof fn law_chosen_diffs_keep_their_order(
    diffs: Seq<NodeDataOrderDiff>,
    diff: NodeDataOrderDiff,
    coin: Seq<char>,
    boundaries: Map<Seq<char>, Boundaries>,
)
    ensures
        diffs_of(Seq::<NodeDataOrderDiff>::empty(), coin).len() == 0,
        diffs_near_top(Seq::<NodeDataOrderDiff>::empty(), boundaries).len() == 0,
        diff.coin.name@ == coin ==> diffs_of(diffs + seq![diff], coin) == diffs_of(diffs, coin) + seq![diff],
        diff.coin.name@ != coin ==> diffs_of(diffs + seq![diff], coin) == diffs_of(diffs, coin),
        near_top(diff, boundaries) ==> diffs_near_top(diffs + seq![diff], boundaries) == diffs_near_top(
            diffs,
            boundaries,
        ) + seq![diff],
        !near_top(diff, boundaries) ==> diffs_near_top(diffs + seq![diff], boundaries) == diffs_near_top(
            diffs,
            boundaries,
        ),
{
    lemma_next_diff(diffs, diff, coin, boundaries);
    assert(diffs + seq![diff] =~= diffs.push(diff));
    assert(diffs_of(diffs, coin) + seq![diff] =~= diffs_of(diffs, coin).push(diff));
    assert(diffs_near_top(diffs, boundaries) + seq![diff] =~= diffs_near_top(diffs, boundaries).push(diff));
    reveal(Seq::filter);
}

/// Fills make trades two by two, in order; a fill left over makes none.
pub proof fn law_fills_trade_in_pairs(fills: Seq<NodeDataFill>, first: NodeDataFill, second: NodeDataFill)
    ensures
        trades_in(Seq::<NodeDataFill>::empty()).len() == 0,
        trades_in(seq![first]).len() == 0,
        trades_in(seq![first, second] + fills) == seq![trade_of(first, second)] + trades_in(fills),
{
    let all = seq![first, second] + fills;
    assert(all.len() / 2 == fills.len() / 2 + 1);
    assert forall|i: int| 0 < i < trades_in(all).len() implies #[trigger] trades_in(all)[i] == trades_in(fills)[i
        - 1] by {
        assert(all[2 * i] == fills[2 * (i - 1)]);
        assert(all[2 * i + 1] == fills[2 * (i - 1) + 1]);
    }
    assert(trades_in(all) =~= seq![trade_of(first, second)] + trades_in(fills));
}

/// The trades of a coin keep their order, each once: one more trade is put at the end exactly where it
/// is of the coin.
pub proof fn law_trades_of_a_coin_keep_their_order(trades: Seq<Trade>, trade: Trade, coin: Seq<char>)
    ensures
        trades_of(Seq::<Trade>::empty(), coin).len() == 0,
        trade.coin@ == coin ==> trades_of(trades + seq![trade], coin) == trades_of(trades, coin) + seq![trade],
        trade.coin@ != coin ==> trades_of(trades + seq![trade], coin) == trades_of(trades, coin),
{
    lemma_next_trade(trades, trade, coin);
    assert(trades + seq![trade] =~= trades.push(trade));
    assert(trades_of(trades, coin) + seq![trade] =~= trades_of(trades, coin).push(trade));
    reveal(Seq::filter);
}

/// What a map by coin holds of a coin: the trades, the block's diffs or the arriving diffs of the coin,
/// with the time and height that go with them; and nothing where there are none.
pub proof fn law_maps_by_coin_hold_all_of_a_coin(
    trades: Map<Seq<char>, Vec<Trade>>,
    all_trades: Seq<Trade>,
    updates: Map<Seq<char>, L4BookUpdates>,
    streams: Map<Seq<char>, L4BookStream>,
    diffs: Seq<NodeDataOrderDiff>,
    time: u64,
    height: u64,
    coin: Seq<char>,
)
    ensures
        holds_trades(trades, all_trades) ==> {
            &&& trades.contains_key(coin) <==> trades_of(all_trades, coin).len() > 0
            &&& trades.contains_key(coin) ==> trades[coin]@ == trades_of(all_trades, coin)
        },
        holds_updates(updates, diffs, time as int, height) ==> {
            &&& updates.contains_key(coin) <==> diffs_of(diffs, coin).len() > 0
            &&& updates.contains_key(coin) ==> {
                &&& updates[coin].book_diffs@ == diffs_of(diffs, coin)
                &&& updates[coin].time == time
                &&& updates[coin].height == height
            }
        },
        holds_streams(streams, diffs, time, height) ==> {
            &&& streams.contains_key(coin) <==> diffs_of(diffs, coin).len() > 0
            &&& streams.contains_key(coin) ==> {
                &&& streams[coin].coin@ == coin
                &&& streams[coin].book_diffs@ == diffs_of(diffs, coin)
                &&& streams[coin].time == time
                &&& streams[coin].height == height
            }
        },
{
}

} // verus!
