//! What holds of the open orders whatever the blocks bring.

use crate::address::Address;
use crate::book::{InnerL4Order, L4Order, Snapshot};
use crate::node_data::{NodeDataOrderDiff, NodeDataOrderStatus, OrderDiff};
use crate::open_orders::{
    OrdersByUser, Tracking, block_tracked, fresh_orders, increasing, lists_once, opened, orders_in, orders_in_row,
    orders_of, rests_in, sorted_numbers, with_order, with_orders, without_order,
};
use vstd::prelude::*;

verus! {

/// Whether every user that is listed has an order.
pub open spec fn none_listed_in_vain(open: OrdersByUser) -> bool {
    forall|user: Address| #[trigger] open.contains_key(user) ==> open[user].dom() != Set::<u64>::empty()
}

/// Whether every order stands under its own user and number.
pub open spec fn filed(open: OrdersByUser) -> bool {
    forall|user: Address, oid: u64| #[trigger]
        orders_of(open, user).contains_key(oid) ==> {
            &&& orders_of(open, user)[oid].user == Some(user)
            &&& orders_of(open, user)[oid].oid == oid
        }
}

/// Whether no two orders of a row have the same user and number.
pub open spec fn no_order_twice(orders: Seq<InnerL4Order>) -> bool {
    forall|i: int, j: int|
        0 <= i < j < orders.len() ==> !((#[trigger] orders[i]).user == (#[trigger] orders[j]).user && orders[i].oid
            == orders[j].oid)
}

/// Whether one of the statuses brought the order into the book.
pub open spec fn entered(statuses: Seq<NodeDataOrderStatus>, user: Address, oid: u64) -> bool {
    exists|i: int|
        0 <= i < statuses.len() && (#[trigger] statuses[i]).enters_book() && statuses[i].user == user
            && statuses[i].order.oid == oid
}

/// What one change to the open orders leaves as it was.
proof fn lemma_one_order(open: OrdersByUser, user: Address, oid: u64, order: L4Order, other: Address)
    ensures
        ({
            let put = with_order(open, user, oid, order);
            let taken = without_order(open, user, oid);
            &&& orders_of(put, other) == if other == user {
                orders_of(open, user).insert(oid, order)
            } else {
                orders_of(open, other)
            }
            &&& orders_of(taken, other) == if other == user {
                orders_of(open, user).remove(oid)
            } else {
                orders_of(open, other)
            }
        }),
{
    assert(orders_of(without_order(open, user, oid), user) =~= orders_of(open, user).remove(oid));
}

/// A user whom a block did not touch has the same open orders after it as before.
pub proof fn law_untouched_users_keep_their_orders(
    open: OrdersByUser,
    statuses: Seq<NodeDataOrderStatus>,
    diffs: Seq<NodeDataOrderDiff>,
    user: Address,
)
    requires
        !block_tracked(open, statuses, diffs).changed.contains(user),
    ensures
        orders_of(block_tracked(open, statuses, diffs).open, user) == orders_of(open, user),
{
    lemma_untouched(Tracking { open, fresh: fresh_orders(statuses), changed: Set::empty() }, diffs, user);
}

proof fn lemma_untouched(start: Tracking, diffs: Seq<NodeDataOrderDiff>, user: Address)
    requires
        !start.after_all(diffs).changed.contains(user),
    ensures
        orders_of(start.after_all(diffs).open, user) == orders_of(start.open, user),
    decreases diffs.len(),
{
    if diffs.len() > 0 {
        let before = start.after_all(diffs.drop_last());
        let diff = diffs.last();
        assert(!before.changed.contains(user));
        lemma_untouched(start, diffs.drop_last(), user);
    }
}

/// A block leaves no user listed without an order.
pub proof fn law_no_user_is_listed_in_vain(
    open: OrdersByUser,
    statuses: Seq<NodeDataOrderStatus>,
    diffs: Seq<NodeDataOrderDiff>,
)
    requires
        none_listed_in_vain(open),
    ensures
        none_listed_in_vain(block_tracked(open, statuses, diffs).open),
{
    lemma_listed(Tracking { open, fresh: fresh_orders(statuses), changed: Set::empty() }, diffs);
}

proof fn lemma_listed(start: Tracking, diffs: Seq<NodeDataOrderDiff>)
    requires
        none_listed_in_vain(start.open),
    ensures
        none_listed_in_vain(start.after_all(diffs).open),
    decreases diffs.len(),
{
    if diffs.len() > 0 {
        lemma_listed(start, diffs.drop_last());
        let before = start.after_all(diffs.drop_last());
        let diff = diffs.last();
        match diff.raw_book_diff {
            OrderDiff::New { sz } => {
                if before.fresh.contains_key(diff.oid) {
                    let status = before.fresh[diff.oid];
                    lemma_listed_with(before.open, status.user, diff.oid, opened(status, sz));
                }
            },
            OrderDiff::Update { orig_sz, new_sz } => {
                let order = orders_of(before.open, diff.user)[diff.oid];
                lemma_listed_with(before.open, diff.user, diff.oid, L4Order { sz: new_sz, ..order });
            },
            OrderDiff::Remove => {
                let left = orders_of(before.open, diff.user).remove(diff.oid);
                assert(left.dom() =~= Set::<u64>::empty() ==> left =~= Map::<u64, L4Order>::empty());
            },
        }
    }
}

proof fn lemma_listed_with(open: OrdersByUser, user: Address, oid: u64, order: L4Order)
    requires
        none_listed_in_vain(open),
    ensures
        none_listed_in_vain(with_order(open, user, oid, order)),
{
    assert(orders_of(open, user).insert(oid, order).dom().contains(oid));
}

/// Taking out an order that was just put in leaves the open orders as they were.
pub proof fn law_removal_undoes_opening(open: OrdersByUser, user: Address, oid: u64, order: L4Order)
    requires
        none_listed_in_vain(open),
        !orders_of(open, user).contains_key(oid),
    ensures
        without_order(with_order(open, user, oid, order), user, oid) == open,
{
    let put = with_order(open, user, oid, order);
    assert(orders_of(put, user).remove(oid) =~= orders_of(open, user));
    assert(without_order(put, user, oid) =~= open);
}

/// A block files every order under its own user and number.
pub proof fn law_orders_stay_filed(
    open: OrdersByUser,
    statuses: Seq<NodeDataOrderStatus>,
    diffs: Seq<NodeDataOrderDiff>,
)
    requires
        filed(open),
    ensures
        filed(block_tracked(open, statuses, diffs).open),
{
    lemma_fresh(statuses);
    lemma_filed(Tracking { open, fresh: fresh_orders(statuses), changed: Set::empty() }, diffs);
}

/// A fresh order is one that a status brought into the book, under its own number.
proof fn lemma_fresh(statuses: Seq<NodeDataOrderStatus>)
    ensures
        forall|oid: u64| #[trigger]
            fresh_orders(statuses).contains_key(oid) ==> {
                &&& fresh_orders(statuses)[oid].order.oid == oid
                &&& entered(statuses, fresh_orders(statuses)[oid].user, oid)
            },
    decreases statuses.len(),
{
    if statuses.len() > 0 {
        let earlier = statuses.drop_last();
        lemma_fresh(earlier);
        let fresh = fresh_orders(statuses);
        assert forall|oid: u64| #[trigger] fresh.contains_key(oid) implies {
            &&& fresh[oid].order.oid == oid
            &&& entered(statuses, fresh[oid].user, oid)
        } by {
            let status = statuses.last();
            if status.enters_book() && status.order.oid == oid {
                assert(statuses[statuses.len() - 1].enters_book());
            } else {
                assert(fresh_orders(earlier).contains_key(oid));
                let user = fresh[oid].user;
                let i = choose|i: int|
                    0 <= i < earlier.len() && (#[trigger] earlier[i]).enters_book() && earlier[i].user == user
                        && earlier[i].order.oid == oid;
                assert(statuses[i] == earlier[i]);
            }
        }
    }
}

proof fn lemma_filed(start: Tracking, diffs: Seq<NodeDataOrderDiff>)
    requires
        filed(start.open),
        forall|oid: u64| #[trigger] start.fresh.contains_key(oid) ==> start.fresh[oid].order.oid == oid,
    ensures
        filed(start.after_all(diffs).open),
        forall|oid: u64| #[trigger]
            start.after_all(diffs).fresh.contains_key(oid) ==> start.after_all(diffs).fresh[oid].order.oid == oid,
    decreases diffs.len(),
{
    if diffs.len() > 0 {
        lemma_filed(start, diffs.drop_last());
        let before = start.after_all(diffs.drop_last());
        let diff = diffs.last();
        let after = before.after(diff);
        assert forall|user: Address, oid: u64| #[trigger] orders_of(after.open, user).contains_key(oid) implies {
            &&& orders_of(after.open, user)[oid].user == Some(user)
            &&& orders_of(after.open, user)[oid].oid == oid
        } by {
            let held = orders_of(before.open, user).contains_key(oid);
            match diff.raw_book_diff {
                OrderDiff::New { sz } => {
                    if before.fresh.contains_key(diff.oid) {
                        let status = before.fresh[diff.oid];
                        lemma_one_order(before.open, status.user, diff.oid, opened(status, sz), user);
                    }
                },
                OrderDiff::Update { orig_sz, new_sz } => {
                    if orders_of(before.open, diff.user).contains_key(diff.oid) {
                        let order = orders_of(before.open, diff.user)[diff.oid];
                        lemma_one_order(
                            before.open,
                            diff.user,
                            diff.oid,
                            L4Order { sz: new_sz, ..order },
                            user,
                        );
                    }
                },
                OrderDiff::Remove => {
                    if orders_of(before.open, diff.user).contains_key(diff.oid) {
                        let order = orders_of(before.open, diff.user)[diff.oid];
                        lemma_one_order(before.open, diff.user, diff.oid, order, user);
                    }
                },
            }
        }
    }
}

/// A block opens no order that none of its statuses brought into the book.
pub proof fn law_only_entered_orders_are_opened(
    open: OrdersByUser,
    statuses: Seq<NodeDataOrderStatus>,
    diffs: Seq<NodeDataOrderDiff>,
    user: Address,
    oid: u64,
)
    requires
        orders_of(block_tracked(open, statuses, diffs).open, user).contains_key(oid),
        !orders_of(open, user).contains_key(oid),
    ensures
        entered(statuses, user, oid),
{
    lemma_fresh(statuses);
    lemma_opened(open, statuses, diffs, user, oid);
}

proof fn lemma_opened(
    open: OrdersByUser,
    statuses: Seq<NodeDataOrderStatus>,
    diffs: Seq<NodeDataOrderDiff>,
    user: Address,
    oid: u64,
)
    requires
        !orders_of(open, user).contains_key(oid),
        forall|n: u64| #[trigger]
            fresh_orders(statuses).contains_key(n) ==> entered(statuses, fresh_orders(statuses)[n].user, n),
    ensures
        ({
            let after = block_tracked(open, statuses, diffs);
            &&& orders_of(after.open, user).contains_key(oid) ==> entered(statuses, user, oid)
            &&& forall|n: u64| #[trigger]
                after.fresh.contains_key(n) ==> fresh_orders(statuses).contains_key(n) && after.fresh[n]
                    == fresh_orders(statuses)[n]
        }),
    decreases diffs.len(),
{
    if diffs.len() > 0 {
        lemma_opened(open, statuses, diffs.drop_last(), user, oid);
        let before = block_tracked(open, statuses, diffs.drop_last());
        let diff = diffs.last();
        match diff.raw_book_diff {
            OrderDiff::New { sz } => {
                if before.fresh.contains_key(diff.oid) {
                    let status = before.fresh[diff.oid];
                    lemma_one_order(before.open, status.user, diff.oid, opened(status, sz), user);
                }
            },
            OrderDiff::Update { orig_sz, new_sz } => {
                if orders_of(before.open, diff.user).contains_key(diff.oid) {
                    let order = orders_of(before.open, diff.user)[diff.oid];
                    lemma_one_order(before.open, diff.user, diff.oid, L4Order { sz: new_sz, ..order }, user);
                }
            },
            OrderDiff::Remove => {
                if orders_of(before.open, diff.user).contains_key(diff.oid) {
                    let order = orders_of(before.open, diff.user)[diff.oid];
                    lemma_one_order(before.open, diff.user, diff.oid, order, user);
                }
            },
        }
    }
}

/// A trigger order that none of the block's statuses says has been triggered is not opened.
pub proof fn law_untriggered_orders_are_not_opened(
    open: OrdersByUser,
    statuses: Seq<NodeDataOrderStatus>,
    diffs: Seq<NodeDataOrderDiff>,
    user: Address,
    oid: u64,
)
    requires
        !orders_of(open, user).contains_key(oid),
        forall|i: int|
            0 <= i < statuses.len() && (#[trigger] statuses[i]).user == user && statuses[i].order.oid == oid
                ==> statuses[i].order.is_trigger && statuses[i].status@ != "triggered"@,
    ensures
        !orders_of(block_tracked(open, statuses, diffs).open, user).contains_key(oid),
{
    if orders_of(block_tracked(open, statuses, diffs).open, user).contains_key(oid) {
        law_only_entered_orders_are_opened(open, statuses, diffs, user, oid);
    }
}

/// What is open after a row of orders has been put in.
proof fn lemma_row(orders: Seq<InnerL4Order>, user: Address, oid: u64)
    requires
        no_order_twice(orders),
    ensures
        ({
            let mine = orders_of(with_orders(OrdersByUser::empty(), orders), user);
            &&& mine.contains_key(oid) <==> exists|i: int|
                0 <= i < orders.len() && (#[trigger] orders[i]).user == user && orders[i].oid == oid
            &&& forall|i: int|
                0 <= i < orders.len() && (#[trigger] orders[i]).user == user && orders[i].oid == oid ==> mine[oid]
                    == orders[i].shown
        }),
    decreases orders.len(),
{
    if orders.len() > 0 {
        let earlier = orders.drop_last();
        let last = orders.last();
        lemma_row(earlier, user, oid);
        let before = with_orders(OrdersByUser::empty(), earlier);
        lemma_one_order(before, last.user, last.oid, last.shown, user);
        assert(forall|i: int| 0 <= i < earlier.len() ==> #[trigger] orders[i] == earlier[i]);
        assert(orders[orders.len() - 1] == last);
        let mine = orders_of(with_orders(OrdersByUser::empty(), orders), user);
        if mine.contains_key(oid) && !(last.user == user && last.oid == oid) {
            let i = choose|i: int|
                0 <= i < earlier.len() && (#[trigger] earlier[i]).user == user && earlier[i].oid == oid;
            assert(orders[i] == earlier[i]);
        }
        assert forall|i: int| 0 <= i < orders.len() && (#[trigger] orders[i]).user == user && orders[i].oid
            == oid implies mine[oid] == orders[i].shown && mine.contains_key(oid) by {
            if i < earlier.len() {
                assert(earlier[i] == orders[i]);
            }
        }
    }
}

/// The orders of a row of coins are those of the coins' books.
proof fn lemma_orders_in(
    coins: Seq<Seq<char>>,
    books: Map<Seq<char>, Snapshot<InnerL4Order>>,
    order: InnerL4Order,
)
    ensures
        orders_in(coins, books).contains(order) <==> exists|i: int|
            0 <= i < coins.len() && (books[#[trigger] coins[i]].bids@.contains(order) || books[coins[i]].asks@.contains(
                order,
            )),
    decreases coins.len(),
{
    if coins.len() > 0 {
        let earlier = coins.drop_last();
        lemma_orders_in(earlier, books, order);
        let head = orders_in(earlier, books);
        let book = books[coins.last()];
        lemma_joined_holds(head + book.bids@, book.asks@, order);
        lemma_joined_holds(head, book.bids@, order);
        assert(coins[coins.len() - 1] == coins.last());
        assert(forall|i: int| 0 <= i < earlier.len() ==> #[trigger] coins[i] == earlier[i]);
        if head.contains(order) {
            let i = choose|i: int|
                0 <= i < earlier.len() && (books[#[trigger] earlier[i]].bids@.contains(order)
                    || books[earlier[i]].asks@.contains(order));
            assert(coins[i] == earlier[i]);
        }
        if exists|i: int|
            0 <= i < coins.len() && (books[#[trigger] coins[i]].bids@.contains(order) || books[coins[i]].asks@.contains(
                order,
            )) {
            let i = choose|i: int|
                0 <= i < coins.len() && (books[#[trigger] coins[i]].bids@.contains(order)
                    || books[coins[i]].asks@.contains(order));
            if i < earlier.len() {
                assert(earlier[i] == coins[i]);
            }
        }
    }
}

/// A joined row holds what its parts hold.
proof fn lemma_joined_holds(first: Seq<InnerL4Order>, second: Seq<InnerL4Order>, order: InnerL4Order)
    ensures
        (first + second).contains(order) <==> first.contains(order) || second.contains(order),
{
    let both = first + second;
    if first.contains(order) {
        let i = choose|i: int| 0 <= i < first.len() && first[i] == order;
        assert(both[i] == order);
    }
    if second.contains(order) {
        let i = choose|i: int| 0 <= i < second.len() && second[i] == order;
        assert(both[first.len() + i] == order);
    }
    if both.contains(order) {
        let i = choose|i: int| 0 <= i < both.len() && both[i] == order;
        if i < first.len() {
            assert(first[i] == order);
        } else {
            assert(second[i - first.len()] == order);
        }
    }
}

/// Where no two orders of a snapshot have the same user and number, the open orders that it leaves
/// are its orders and no others, in whichever order its coins are read.
pub proof fn law_snapshot_orders_are_the_open_orders(
    coins: Seq<Seq<char>>,
    books: Map<Seq<char>, Snapshot<InnerL4Order>>,
    user: Address,
    oid: u64,
)
    requires
        lists_once(coins, books),
        no_order_twice(orders_in(coins, books)),
    ensures
        ({
            let mine = orders_of(with_orders(OrdersByUser::empty(), orders_in(coins, books)), user);
            &&& mine.contains_key(oid) <==> exists|order: InnerL4Order| #[trigger]
                rests_in(order, books) && order.user == user && order.oid == oid
            &&& forall|order: InnerL4Order| #[trigger]
                rests_in(order, books) && order.user == user && order.oid == oid ==> mine[oid] == order.shown
        }),
{
    let orders = orders_in(coins, books);
    let mine = orders_of(with_orders(OrdersByUser::empty(), orders), user);
    lemma_row(orders, user, oid);
    assert forall|order: InnerL4Order| #[trigger] rests_in(order, books) <==> orders.contains(order) by {
        lemma_orders_in(coins, books, order);
        if rests_in(order, books) {
            let coin = choose|coin: Seq<char>| #[trigger]
                books.contains_key(coin) && (books[coin].bids@.contains(order) || books[coin].asks@.contains(order));
            assert(coins.to_set().contains(coin));
            let i = choose|i: int| 0 <= i < coins.len() && coins[i] == coin;
            assert(books[coins[i]].bids@.contains(order) || books[coins[i]].asks@.contains(order));
        }
        if orders.contains(order) {
            let i = choose|i: int|
                0 <= i < coins.len() && (books[#[trigger] coins[i]].bids@.contains(order)
                    || books[coins[i]].asks@.contains(order));
            assert(coins.contains(coins[i]));
            assert(coins.to_set().contains(coins[i]));
            assert(books.contains_key(coins[i]));
        }
    }
    if mine.contains_key(oid) {
        let i = choose|i: int| 0 <= i < orders.len() && (#[trigger] orders[i]).user == user && orders[i].oid == oid;
        assert(orders.contains(orders[i]));
        assert(rests_in(orders[i], books));
    }
    assert forall|order: InnerL4Order| #[trigger] rests_in(order, books) && order.user == user && order.oid
        == oid implies mine.contains_key(oid) && mine[oid] == order.shown by {
        assert(orders.contains(order));
        let i = choose|i: int| 0 <= i < orders.len() && orders[i] == order;
        assert(orders[i].user == user && orders[i].oid == oid);
    }
}

/// The numbers of a set below a bound, in increasing order.
proof fn lemma_sorted_below(set: Set<u64>, bound: nat) -> (row: Seq<u64>)
    requires
        bound <= u64::MAX + 1,
    ensures
        increasing(row),
        forall|n: u64| #[trigger] row.contains(n) <==> set.contains(n) && n < bound,
    decreases bound,
{
    if bound == 0 {
        Seq::empty()
    } else {
        let last = (bound - 1) as u64;
        let below = lemma_sorted_below(set, (bound - 1) as nat);
        if set.contains(last) {
            let row = below.push(last);
            assert forall|i: int, j: int| 0 <= i < j < row.len() implies #[trigger] row[i] < #[trigger] row[j] by {
                assert(below.contains(below[i]));
            }
            assert forall|n: u64| #[trigger] row.contains(n) <==> set.contains(n) && n < bound by {
                if row.contains(n) {
                    let i = choose|i: int| 0 <= i < row.len() && row[i] == n;
                    if i < below.len() {
                        assert(below.contains(below[i]));
                    }
                }
                if set.contains(n) && n < bound {
                    if n == last {
                        assert(row[below.len() as int] == n);
                    } else {
                        assert(below.contains(n));
                        let i = choose|i: int| 0 <= i < below.len() && below[i] == n;
                        assert(row[i] == n);
                    }
                }
            }
            row
        } else {
            below
        }
    }
}

/// Every set of numbers can be put in increasing order.
pub proof fn law_numbers_can_be_sorted(set: Set<u64>)
    ensures
        increasing(sorted_numbers(set)),
        sorted_numbers(set).to_set() == set,
{
    let row = lemma_sorted_below(set, (u64::MAX + 1) as nat);
    assert forall|n: u64| row.to_set().contains(n) <==> set.contains(n) by {
        assert(row.to_set().contains(n) <==> row.contains(n));
    }
    assert(row.to_set() =~= set);
    assert(increasing(row) && row.to_set() == set);
}

/// A row of a user's orders holds each of the orders once, in increasing order of the numbers that
/// they are filed under.
pub proof fn law_rows_hold_every_order_once(orders: Map<u64, L4Order>)
    ensures
        ({
            let numbers = sorted_numbers(orders.dom());
            let row = orders_in_row(orders);
            &&& row.len() == numbers.len()
            &&& forall|i: int| 0 <= i < row.len() ==> #[trigger] row[i] == orders[numbers[i]]
            &&& numbers.no_duplicates()
            &&& forall|oid: u64| #[trigger] numbers.contains(oid) <==> orders.contains_key(oid)
        }),
{
    let numbers = sorted_numbers(orders.dom());
    law_numbers_can_be_sorted(orders.dom());
    assert forall|oid: u64| #[trigger] numbers.contains(oid) <==> orders.contains_key(oid) by {
        assert(numbers.to_set().contains(oid) <==> numbers.contains(oid));
    }
    assert forall|i: int, j: int| 0 <= i < numbers.len() && 0 <= j < numbers.len() && i != j implies numbers[i]
        != numbers[j] by {
        if i < j {
            assert(numbers[i] < numbers[j]);
        } else {
            assert(numbers[j] < numbers[i]);
        }
    }
}

} // verus!
