//! What each diff of a block does to the open orders, and what a block does to one order.

use crate::address::Address;
use crate::book::{InnerL4Order, L4Order, Snapshot};
use crate::node_data::{NodeDataOrderDiff, NodeDataOrderStatus, OrderDiff};
use crate::open_orders::{
    OrdersByUser, Tracking, block_tracked, fresh_orders, orders_in, orders_in_row, orders_of, sorted_numbers, with_order,
    with_orders, without_order,
};
use crate::open_orders_laws::law_numbers_can_be_sorted;
use vstd::prelude::*;

verus! {

/// A user's open orders are those that are listed for the user; a user who is not listed has none.
pub proof fn law_whose_orders_are_open(open: OrdersByUser, user: Address, oid: u64)
    ensures
        orders_of(open, user).contains_key(oid) <==> open.contains_key(user) && open[user].contains_key(oid),
        orders_of(open, user).contains_key(oid) ==> orders_of(open, user)[oid] == open[user][oid],
{
}

/// Right after a removal, whatever came before it in the block, the diff's user does not have the
/// diff's order open; the user's other orders, and everyone else's, are as before. The user is touched
/// exactly where the order was open.
pub proof fn law_removals_are_followed(before: Tracking, diff: NodeDataOrderDiff, other: Address)
    requires
        diff.raw_book_diff is Remove,
        other != diff.user,
    ensures
        ({
            let after = before.after(diff);
            let had = orders_of(before.open, diff.user).contains_key(diff.oid);
            &&& orders_of(after.open, diff.user) == orders_of(before.open, diff.user).remove(diff.oid)
            &&& orders_of(after.open, other) == orders_of(before.open, other)
            &&& after.fresh == before.fresh
            &&& had ==> after.changed == before.changed.insert(diff.user)
            &&& !had ==> after == before
            &&& had ==> (after.open.contains_key(diff.user) <==> exists|oid: u64|
                oid != diff.oid && #[trigger] orders_of(before.open, diff.user).contains_key(oid))
        }),
{
    let after = before.after(diff);
    let mine = orders_of(before.open, diff.user);
    assert(orders_of(after.open, diff.user) =~= mine.remove(diff.oid));
    if mine.contains_key(diff.oid) {
        let left = mine.remove(diff.oid);
        if after.open.contains_key(diff.user) {
            assert(!(left =~= Map::<u64, L4Order>::empty()));
            assert(exists|oid: u64| #[trigger] left.contains_key(oid));
            let oid = choose|oid: u64| #[trigger] left.contains_key(oid);
            assert(mine.contains_key(oid) && oid != diff.oid);
        }
        if exists|oid: u64| oid != diff.oid && #[trigger] mine.contains_key(oid) {
            let oid = choose|oid: u64| oid != diff.oid && #[trigger] mine.contains_key(oid);
            assert(left.contains_key(oid));
        }
    }
}

/// Right after a change of size, whatever came before it in the block, an order that the diff's user
/// has open has the new size, and is otherwise the same order; all other orders are as before. Where
/// the user does not have the order open, nothing changes.
pub proof fn law_changes_of_size_are_followed(
    before: Tracking,
    diff: NodeDataOrderDiff,
    orig_sz: String,
    new_sz: String,
    other: Address,
    number: u64,
)
    requires
        diff.raw_book_diff == (OrderDiff::Update { orig_sz, new_sz }),
        other != diff.user,
        number != diff.oid,
    ensures
        ({
            let after = before.after(diff);
            let mine = orders_of(before.open, diff.user);
            let now = orders_of(after.open, diff.user);
            if mine.contains_key(diff.oid) {
                &&& now.dom() == mine.dom()
                &&& now[diff.oid].sz == new_sz
                &&& now[diff.oid].user == mine[diff.oid].user
                &&& now[diff.oid].oid == mine[diff.oid].oid
                &&& now[diff.oid].is_trigger == mine[diff.oid].is_trigger
                &&& now[diff.oid].tif == mine[diff.oid].tif
                &&& now[diff.oid].rest == mine[diff.oid].rest
                &&& now[number] == mine[number]
                &&& orders_of(after.open, other) == orders_of(before.open, other)
                &&& after.fresh == before.fresh
                &&& after.changed == before.changed.insert(diff.user)
            } else {
                after == before
            }
        }),
{
    let mine = orders_of(before.open, diff.user);
    if mine.contains_key(diff.oid) {
        assert(orders_of(before.after(diff).open, diff.user).dom() =~= mine.dom());
    }
}

/// Right after a new order, whatever came before it in the block: where a status of the block brought
/// the order into the book and no diff has used that status, the status's user has the order open, as
/// the status gives it but with that user and the size of the diff; the status is used up, and all
/// other orders are as before. Otherwise nothing changes.
pub proof fn law_new_orders_are_followed(
    before: Tracking,
    diff: NodeDataOrderDiff,
    sz: String,
    other: Address,
    number: u64,
)
    requires
        diff.raw_book_diff == (OrderDiff::New { sz }),
        number != diff.oid,
    ensures
        ({
            let after = before.after(diff);
            if before.fresh.contains_key(diff.oid) {
                let status = before.fresh[diff.oid];
                let mine = orders_of(before.open, status.user);
                let now = orders_of(after.open, status.user);
                &&& now.contains_key(diff.oid)
                &&& now[diff.oid].sz == sz
                &&& now[diff.oid].user == Some(status.user)
                &&& now[diff.oid].oid == status.order.oid
                &&& now[diff.oid].is_trigger == status.order.is_trigger
                &&& now[diff.oid].tif == status.order.tif
                &&& now[diff.oid].rest == status.order.rest
                &&& now.contains_key(number) <==> mine.contains_key(number)
                &&& mine.contains_key(number) ==> now[number] == mine[number]
                &&& other != status.user ==> orders_of(after.open, other) == orders_of(before.open, other)
                &&& after.fresh == before.fresh.remove(diff.oid)
                &&& after.changed == before.changed.insert(status.user)
            } else {
                after == before
            }
        }),
{
}

/// The diffs of a block are followed one after the other, from the open orders before the block, with
/// the orders that its statuses brought into the book, and with nobody touched.
pub proof fn law_diffs_are_followed_in_turn(
    open: OrdersByUser,
    statuses: Seq<NodeDataOrderStatus>,
    diffs: Seq<NodeDataOrderDiff>,
    diff: NodeDataOrderDiff,
)
    ensures
        block_tracked(open, statuses, diffs + seq![diff]) == block_tracked(open, statuses, diffs).after(diff),
        ({
            let start = block_tracked(open, statuses, Seq::<NodeDataOrderDiff>::empty());
            &&& start.open == open
            &&& start.fresh == fresh_orders(statuses)
            &&& forall|user: Address| !#[trigger] start.changed.contains(user)
        }),
{
    assert((diffs + seq![diff]).drop_last() =~= diffs);
    assert((diffs + seq![diff]).last() == diff);
}

/// Whether a status brings the order of the given number into the book.
pub open spec fn brings(status: NodeDataOrderStatus, oid: u64) -> bool {
    status.enters_book() && status.order.oid == oid
}

/// An order that a status of a block brings into the book may be opened in the block, as the last such
/// status gives it.
pub proof fn law_the_last_status_of_an_order_counts(statuses: Seq<NodeDataOrderStatus>, at: int, oid: u64)
    requires
        0 <= at < statuses.len(),
        brings(statuses[at], oid),
        forall|i: int| at < i < statuses.len() ==> !brings(#[trigger] statuses[i], oid),
    ensures
        fresh_orders(statuses).contains_key(oid),
        fresh_orders(statuses)[oid] == statuses[at],
    decreases statuses.len(),
{
    let earlier = statuses.drop_last();
    if at < statuses.len() - 1 {
        assert(!brings(statuses[statuses.len() - 1], oid));
        assert forall|i: int| at < i < earlier.len() implies !brings(#[trigger] earlier[i], oid) by {
            assert(earlier[i] == statuses[i]);
        }
        law_the_last_status_of_an_order_counts(earlier, at, oid);
    }
}

/// An order that no status of a block brings into the book cannot be opened in the block.
pub proof fn law_orders_without_a_status_cannot_be_opened(statuses: Seq<NodeDataOrderStatus>, oid: u64)
    requires
        forall|i: int| 0 <= i < statuses.len() ==> !brings(#[trigger] statuses[i], oid),
    ensures
        !fresh_orders(statuses).contains_key(oid),
    decreases statuses.len(),
{
    if statuses.len() > 0 {
        let earlier = statuses.drop_last();
        assert forall|i: int| 0 <= i < earlier.len() implies !brings(#[trigger] earlier[i], oid) by {
            assert(earlier[i] == statuses[i]);
        }
        law_orders_without_a_status_cannot_be_opened(earlier, oid);
        assert(!brings(statuses[statuses.len() - 1], oid));
    }
}

/// What one diff leaves of an order with another number.
proof fn lemma_other_number(before: Tracking, diff: NodeDataOrderDiff, user: Address, oid: u64)
    requires
        diff.oid != oid,
    ensures
        ({
            let after = before.after(diff);
            &&& orders_of(after.open, user).contains_key(oid) <==> orders_of(before.open, user).contains_key(oid)
            &&& orders_of(before.open, user).contains_key(oid) ==> orders_of(after.open, user)[oid] == orders_of(
                before.open,
                user,
            )[oid]
        }),
{
    match diff.raw_book_diff {
        OrderDiff::Remove => {
            let after = before.after(diff);
            assert(orders_of(after.open, diff.user) =~= orders_of(before.open, diff.user).remove(diff.oid));
        },
        _ => {},
    }
}

/// A block changes nothing of an order whose number none of its diffs has.
pub proof fn law_only_named_orders_change(
    open: OrdersByUser,
    statuses: Seq<NodeDataOrderStatus>,
    diffs: Seq<NodeDataOrderDiff>,
    user: Address,
    oid: u64,
)
    requires
        forall|i: int| 0 <= i < diffs.len() ==> (#[trigger] diffs[i]).oid != oid,
    ensures
        ({
            let after = block_tracked(open, statuses, diffs).open;
            &&& orders_of(after, user).contains_key(oid) <==> orders_of(open, user).contains_key(oid)
            &&& orders_of(open, user).contains_key(oid) ==> orders_of(after, user)[oid] == orders_of(open, user)[oid]
        }),
    decreases diffs.len(),
{
    if diffs.len() > 0 {
        let earlier = diffs.drop_last();
        assert(forall|i: int| 0 <= i < earlier.len() ==> #[trigger] earlier[i] == diffs[i]);
        assert(diffs[diffs.len() - 1].oid != oid);
        law_only_named_orders_change(open, statuses, earlier, user, oid);
        lemma_other_number(block_tracked(open, statuses, earlier), diffs.last(), user, oid);
    }
}

/// An order that a diff of a block removes, and that no later diff of the block names, is not open
/// after the block.
pub proof fn law_removed_orders_are_gone(
    open: OrdersByUser,
    statuses: Seq<NodeDataOrderStatus>,
    diffs: Seq<NodeDataOrderDiff>,
    at: int,
)
    requires
        0 <= at < diffs.len(),
        diffs[at].raw_book_diff is Remove,
        forall|i: int| at < i < diffs.len() ==> (#[trigger] diffs[i]).oid != diffs[at].oid,
    ensures
        !orders_of(block_tracked(open, statuses, diffs).open, diffs[at].user).contains_key(diffs[at].oid),
    decreases diffs.len(),
{
    let earlier = diffs.drop_last();
    let before = block_tracked(open, statuses, earlier);
    if at == diffs.len() - 1 {
        let after = before.after(diffs[at]);
        assert(orders_of(after.open, diffs[at].user) =~= orders_of(before.open, diffs[at].user).remove(diffs[at].oid));
    } else {
        assert(forall|i: int| 0 <= i < earlier.len() ==> #[trigger] earlier[i] == diffs[i]);
        law_removed_orders_are_gone(open, statuses, earlier, at);
        assert(diffs[diffs.len() - 1].oid != diffs[at].oid);
        lemma_other_number(before, diffs.last(), diffs[at].user, diffs[at].oid);
    }
}

/// A user who has been touched in a block stays touched.
pub proof fn law_touched_users_stay_touched(before: Tracking, diff: NodeDataOrderDiff, user: Address)
    requires
        before.changed.contains(user),
    ensures
        before.after(diff).changed.contains(user),
{
}

/// An order that is put in is open for its user under its number; one that is taken out is not. Other
/// users' orders, and orders of other numbers, are as before.
pub proof fn law_putting_and_taking_concern_one_order(
    open: OrdersByUser,
    user: Address,
    oid: u64,
    order: L4Order,
    other: Address,
)
    requires
        other != user,
    ensures
        orders_of(with_order(open, user, oid, order), user) == orders_of(open, user).insert(oid, order),
        orders_of(with_order(open, user, oid, order), other) == orders_of(open, other),
        orders_of(without_order(open, user, oid), user) == orders_of(open, user).remove(oid),
        orders_of(without_order(open, user, oid), other) == orders_of(open, other),
{
    assert(orders_of(without_order(open, user, oid), user) =~= orders_of(open, user).remove(oid));
}

/// A row of a book's orders is put in one after the other, each under its own user and number and as
/// clients are shown it.
pub proof fn law_orders_are_put_in_turn(open: OrdersByUser, orders: Seq<InnerL4Order>, order: InnerL4Order, other: Address)
    requires
        other != order.user,
    ensures
        ({
            let before = with_orders(open, orders);
            let after = with_orders(open, orders + seq![order]);
            &&& with_orders(open, Seq::<InnerL4Order>::empty()) == open
            &&& orders_of(after, order.user) == orders_of(before, order.user).insert(order.oid, order.shown)
            &&& orders_of(after, other) == orders_of(before, other)
        }),
{
    assert((orders + seq![order]).drop_last() =~= orders);
    assert((orders + seq![order]).last() == order);
}

/// The orders of a row of coins are those of each coin's bids and asks, coin by coin.
pub proof fn law_both_sides_of_every_book_are_read(
    coins: Seq<Seq<char>>,
    coin: Seq<char>,
    books: Map<Seq<char>, Snapshot<InnerL4Order>>,
)
    ensures
        orders_in(Seq::<Seq<char>>::empty(), books).len() == 0,
        orders_in(coins + seq![coin], books) == orders_in(coins, books) + books[coin].bids@ + books[coin].asks@,
{
    assert((coins + seq![coin]).drop_last() =~= coins);
    assert((coins + seq![coin]).last() == coin);
}

/// A row of a user's orders goes by their numbers: of any two orders in the row, the one whose number is
/// smaller stands first; every order stands in the row, and nothing else does.
pub proof fn law_rows_go_by_number(orders: Map<u64, L4Order>)
    ensures
        ({
            let row = orders_in_row(orders);
            let numbers = sorted_numbers(orders.dom());
            &&& row.len() == numbers.len()
            &&& forall|i: int, j: int| 0 <= i < j < numbers.len() ==> #[trigger] numbers[i] < #[trigger] numbers[j]
            &&& forall|i: int|
                0 <= i < row.len() ==> orders.contains_key(#[trigger] numbers[i]) && row[i] == orders[numbers[i]]
            &&& forall|oid: u64| #[trigger]
                orders.contains_key(oid) ==> exists|i: int| 0 <= i < row.len() && #[trigger] numbers[i] == oid
        }),
{
    let numbers = sorted_numbers(orders.dom());
    law_numbers_can_be_sorted(orders.dom());
    assert forall|i: int| 0 <= i < numbers.len() implies orders.contains_key(#[trigger] numbers[i]) by {
        assert(numbers.to_set().contains(numbers[i]));
    }
    assert forall|oid: u64| #[trigger] orders.contains_key(oid) implies exists|i: int|
        0 <= i < numbers.len() && #[trigger] numbers[i] == oid by {
        assert(numbers.to_set().contains(oid));
        assert(numbers.contains(oid));
    }
}

/// What may be opened under a number stays so until a diff names the number.
proof fn lemma_fresh_stays(
    open: OrdersByUser,
    statuses: Seq<NodeDataOrderStatus>,
    diffs: Seq<NodeDataOrderDiff>,
    oid: u64,
)
    requires
        forall|i: int| 0 <= i < diffs.len() ==> (#[trigger] diffs[i]).oid != oid,
    ensures
        ({
            let now = block_tracked(open, statuses, diffs).fresh;
            &&& now.contains_key(oid) <==> fresh_orders(statuses).contains_key(oid)
            &&& now.contains_key(oid) ==> now[oid] == fresh_orders(statuses)[oid]
        }),
    decreases diffs.len(),
{
    if diffs.len() > 0 {
        let earlier = diffs.drop_last();
        assert(forall|i: int| 0 <= i < earlier.len() ==> #[trigger] earlier[i] == diffs[i]);
        assert(diffs[diffs.len() - 1].oid != oid);
        lemma_fresh_stays(open, statuses, earlier, oid);
    }
}

/// What later diffs leave of an order and of a touched user, where none of them names the order.
proof fn lemma_rest_of_block(
    open: OrdersByUser,
    statuses: Seq<NodeDataOrderStatus>,
    diffs: Seq<NodeDataOrderDiff>,
    upto: int,
    user: Address,
    oid: u64,
)
    requires
        0 <= upto <= diffs.len(),
        forall|i: int| upto <= i < diffs.len() ==> (#[trigger] diffs[i]).oid != oid,
    ensures
        ({
            let before = block_tracked(open, statuses, diffs.take(upto));
            let after = block_tracked(open, statuses, diffs);
            &&& orders_of(after.open, user).contains_key(oid) <==> orders_of(before.open, user).contains_key(oid)
            &&& orders_of(before.open, user).contains_key(oid) ==> orders_of(after.open, user)[oid] == orders_of(
                before.open,
                user,
            )[oid]
            &&& before.changed.contains(user) ==> after.changed.contains(user)
        }),
    decreases diffs.len(),
{
    if upto == diffs.len() {
        assert(diffs.take(upto) =~= diffs);
    } else {
        let earlier = diffs.drop_last();
        assert(forall|i: int| 0 <= i < earlier.len() ==> #[trigger] earlier[i] == diffs[i]);
        assert(diffs[diffs.len() - 1].oid != oid);
        assert(earlier.take(upto) =~= diffs.take(upto));
        lemma_rest_of_block(open, statuses, earlier, upto, user, oid);
        lemma_other_number(block_tracked(open, statuses, earlier), diffs.last(), user, oid);
    }
}

/// An order that a status brings into the book and a diff of the same block makes new, and that no other
/// diff of the block names, is open for the status's user after the block, with the diff's size, and
/// the user is touched.
pub proof fn law_new_orders_are_open(
    open: OrdersByUser,
    statuses: Seq<NodeDataOrderStatus>,
    diffs: Seq<NodeDataOrderDiff>,
    status_at: int,
    diff_at: int,
    sz: String,
)
    requires
        0 <= status_at < statuses.len(),
        0 <= diff_at < diffs.len(),
        diffs[diff_at].raw_book_diff == (OrderDiff::New { sz }),
        brings(statuses[status_at], diffs[diff_at].oid),
        forall|i: int| status_at < i < statuses.len() ==> !brings(#[trigger] statuses[i], diffs[diff_at].oid),
        forall|i: int| 0 <= i < diffs.len() && i != diff_at ==> (#[trigger] diffs[i]).oid != diffs[diff_at].oid,
    ensures
        ({
            let after = block_tracked(open, statuses, diffs);
            let status = statuses[status_at];
            let mine = orders_of(after.open, status.user);
            let oid = diffs[diff_at].oid;
            &&& mine.contains_key(oid)
            &&& mine[oid] == (L4Order { user: Some(status.user), sz, ..status.order })
            &&& after.changed.contains(status.user)
        }),
{
    let diff = diffs[diff_at];
    let earlier = diffs.take(diff_at);
    let upto = diffs.take(diff_at + 1);
    assert(forall|i: int| 0 <= i < earlier.len() ==> #[trigger] earlier[i] == diffs[i]);
    law_the_last_status_of_an_order_counts(statuses, status_at, diff.oid);
    lemma_fresh_stays(open, statuses, earlier, diff.oid);
    assert(upto.drop_last() =~= earlier);
    assert(upto.last() == diff);
    lemma_rest_of_block(open, statuses, diffs, diff_at + 1, statuses[status_at].user, diff.oid);
}

/// An order that the diff's user has open before a block, whose size one diff of the block changes and
/// that no other diff of the block names, is open after the block with the new size and otherwise the
/// same, and the user is touched.
pub proof fn law_changed_sizes_are_kept(
    open: OrdersByUser,
    statuses: Seq<NodeDataOrderStatus>,
    diffs: Seq<NodeDataOrderDiff>,
    at: int,
    orig_sz: String,
    new_sz: String,
)
    requires
        0 <= at < diffs.len(),
        diffs[at].raw_book_diff == (OrderDiff::Update { orig_sz, new_sz }),
        orders_of(open, diffs[at].user).contains_key(diffs[at].oid),
        forall|i: int| 0 <= i < diffs.len() && i != at ==> (#[trigger] diffs[i]).oid != diffs[at].oid,
    ensures
        ({
            let after = block_tracked(open, statuses, diffs);
            let user = diffs[at].user;
            let oid = diffs[at].oid;
            &&& orders_of(after.open, user).contains_key(oid)
            &&& orders_of(after.open, user)[oid] == (L4Order { sz: new_sz, ..orders_of(open, user)[oid] })
            &&& after.changed.contains(user)
        }),
{
    let diff = diffs[at];
    let earlier = diffs.take(at);
    let upto = diffs.take(at + 1);
    assert(forall|i: int| 0 <= i < earlier.len() ==> #[trigger] earlier[i] == diffs[i]);
    law_only_named_orders_change(open, statuses, earlier, diff.user, diff.oid);
    assert(upto.drop_last() =~= earlier);
    assert(upto.last() == diff);
    lemma_rest_of_block(open, statuses, diffs, at + 1, diff.user, diff.oid);
}

} // verus!
