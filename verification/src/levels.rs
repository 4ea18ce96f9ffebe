//! Cutting a side of a book down to its best price levels.

use crate::book::{InnerL4Order, Px};
use vstd::prelude::*;

verus! {

/// How many price levels a row of orders has: an order begins a level where its price differs from
/// that of the order before it.
pub open spec fn level_count(orders: Seq<InnerL4Order>) -> nat
    decreases orders.len(),
{
    if orders.len() == 0 {
        0
    } else {
        let earlier = orders.drop_last();
        if earlier.len() == 0 || earlier.last().limit_px != orders.last().limit_px {
            level_count(earlier) + 1
        } else {
            level_count(earlier)
        }
    }
}

/// The longest run from the start of the row that has at most `n_levels` levels.
pub open spec fn top_levels(orders: Seq<InnerL4Order>, n_levels: nat) -> Seq<InnerL4Order>
    decreases orders.len(),
{
    if level_count(orders) <= n_levels || orders.len() == 0 {
        orders
    } else {
        top_levels(orders.drop_last(), n_levels)
    }
}

/// A longer run from the start of the row has no fewer levels.
proof fn lemma_levels_grow(orders: Seq<InnerL4Order>, short: int, long: int)
    requires
        0 <= short <= long <= orders.len(),
    ensures
        level_count(orders.take(short)) <= level_count(orders.take(long)),
    decreases long - short,
{
    if short < long {
        lemma_levels_grow(orders, short, long - 1);
        assert(orders.take(long).drop_last() =~= orders.take(long - 1));
    }
}

/// The run with at most `n_levels` levels that one more order would take over them is the longest.
proof fn lemma_longest(orders: Seq<InnerL4Order>, n_levels: nat, m: int, k: int)
    requires
        0 <= m <= k <= orders.len(),
        level_count(orders.take(m)) <= n_levels,
        m < orders.len() ==> level_count(orders.take(m + 1)) > n_levels,
    ensures
        top_levels(orders.take(k), n_levels) == orders.take(m),
    decreases k,
{
    if m < k {
        lemma_levels_grow(orders, m + 1, k);
        assert(orders.take(k).drop_last() =~= orders.take(k - 1));
        lemma_longest(orders, n_levels, m, k - 1);
    }
}

/// Cuts a row of orders, best price first, down to its first `n_levels` price levels.
pub fn truncate_to_n_levels(orders: Vec<InnerL4Order>, n_levels: usize) -> (kept: Vec<InnerL4Order>)
    ensures
        kept@ == top_levels(orders@, n_levels as nat),
{
    let mut result = orders;
    let mut seen_levels: usize = 0;
    let mut last_px: Option<Px> = None;
    let mut i: usize = 0;
    let ghost whole = orders@;
    assert(whole.take(0) =~= Seq::<InnerL4Order>::empty());
    while i < result.len()
        invariant
            whole == orders@,
            result@ == whole,
            i <= whole.len(),
            seen_levels <= i,
            seen_levels == level_count(whole.take(i as int)),
            seen_levels <= n_levels,
            last_px == if i == 0 {
                None::<Px>
            } else {
                Some(whole[i - 1].limit_px)
            },
        decreases whole.len() - i,
    {
        let px = result[i].limit_px;
        let same = match last_px {
            Some(last) => last == px,
            None => false,
        };
        proof {
            let next = whole.take(i + 1);
            assert(next.drop_last() =~= whole.take(i as int));
            if i > 0 {
                assert(whole.take(i as int).last() == whole[i - 1]);
            }
        }
        if !same {
            seen_levels = seen_levels + 1;
            if seen_levels > n_levels {
                proof {
                    lemma_longest(whole, n_levels as nat, i as int, whole.len() as int);
                    assert(whole.take(whole.len() as int) =~= whole);
                    assert(whole.subrange(0, i as int) =~= whole.take(i as int));
                }
                result.truncate(i);
                return result;
            }
            last_px = Some(px);
        }
        i = i + 1;
    }
    assert(whole.take(whole.len() as int) =~= whole);
    result
}

/// What is kept are the first orders of the row, in as many levels as there are, up to `n_levels`.
pub proof fn law_kept_orders_come_first(orders: Seq<InnerL4Order>, n_levels: nat)
    ensures
        top_levels(orders, n_levels).is_prefix_of(orders),
        level_count(top_levels(orders, n_levels)) == if level_count(orders) <= n_levels {
            level_count(orders)
        } else {
            n_levels
        },
    decreases orders.len(),
{
    if level_count(orders) > n_levels && orders.len() > 0 {
        law_kept_orders_come_first(orders.drop_last(), n_levels);
    }
}

/// A side with no more than `n_levels` levels is kept whole.
pub proof fn law_few_levels_are_kept_whole(orders: Seq<InnerL4Order>, n_levels: nat)
    requires
        level_count(orders) <= n_levels,
    ensures
        top_levels(orders, n_levels) == orders,
{
}

/// Cutting down again to the same number of levels changes nothing.
pub proof fn law_cutting_twice_is_cutting_once(orders: Seq<InnerL4Order>, n_levels: nat)
    ensures
        top_levels(top_levels(orders, n_levels), n_levels) == top_levels(orders, n_levels),
{
    law_kept_orders_come_first(orders, n_levels);
}

/// Whether orders of the same price stand together, as they do in a side of a book.
pub open spec fn grouped(orders: Seq<InnerL4Order>) -> bool {
    forall|i: int, j: int, k: int|
        0 <= i < j < k < orders.len() && (#[trigger] orders[i]).limit_px == (#[trigger] orders[k]).limit_px ==> (
        #[trigger] orders[j]).limit_px == orders[i].limit_px
}

/// The prices of a row of orders.
pub open spec fn prices(orders: Seq<InnerL4Order>) -> Set<Px> {
    orders.map_values(|order: InnerL4Order| order.limit_px).to_set()
}

/// Where orders of the same price stand together, the levels are the distinct prices.
pub proof fn law_levels_are_distinct_prices(orders: Seq<InnerL4Order>)
    requires
        grouped(orders),
    ensures
        level_count(orders) == prices(orders).len(),
        prices(orders).finite(),
    decreases orders.len(),
{
    let all = orders.map_values(|order: InnerL4Order| order.limit_px);
    if orders.len() == 0 {
        assert(prices(orders) =~= Set::<Px>::empty());
    } else {
        let earlier = orders.drop_last();
        let some = earlier.map_values(|order: InnerL4Order| order.limit_px);
        let last = orders.last().limit_px;
        assert(grouped(earlier)) by {
            assert(forall|i: int| 0 <= i < earlier.len() ==> #[trigger] earlier[i] == orders[i]);
        }
        law_levels_are_distinct_prices(earlier);
        assert(all =~= some.push(last));
        some.lemma_push_to_set_commute(last);
        if earlier.len() > 0 && earlier.last().limit_px == last {
            assert(some[earlier.len() - 1] == last);
            assert(prices(orders) =~= prices(earlier));
        } else {
            assert(!some.contains(last)) by {
                if some.contains(last) {
                    let i = choose|i: int| 0 <= i < some.len() && some[i] == last;
                    let k = orders.len() - 1;
                    assert(orders[i].limit_px == orders[k].limit_px);
                    if i < k - 1 {
                        assert(orders[k - 1].limit_px == orders[i].limit_px);
                    }
                }
            }
        }
    }
}

/// Where orders of the same price stand together, no level is cut in two: an order that is kept and
/// one that is not have different prices.
pub proof fn law_no_level_is_cut_in_two(orders: Seq<InnerL4Order>, n_levels: nat, i: int, j: int)
    requires
        grouped(orders),
        0 <= i < top_levels(orders, n_levels).len(),
        top_levels(orders, n_levels).len() <= j < orders.len(),
    ensures
        orders[i].limit_px != orders[j].limit_px,
{
    let m = top_levels(orders, n_levels).len() as int;
    lemma_where_cut(orders, n_levels);
    if orders[i].limit_px == orders[j].limit_px {
        if i < m - 1 {
            assert(orders[m - 1].limit_px == orders[i].limit_px);
        }
        if m < j {
            assert(orders[m].limit_px == orders[i].limit_px);
        }
    }
}

/// The row is cut where a level begins.
proof fn lemma_where_cut(orders: Seq<InnerL4Order>, n_levels: nat)
    ensures
        ({
            let m = top_levels(orders, n_levels).len() as int;
            0 < m < orders.len() ==> orders[m - 1].limit_px != orders[m].limit_px
        }),
    decreases orders.len(),
{
    if level_count(orders) > n_levels && orders.len() > 0 {
        let earlier = orders.drop_last();
        lemma_where_cut(earlier, n_levels);
        let m = top_levels(orders, n_levels).len() as int;
        law_kept_orders_come_first(earlier, n_levels);
        if m == earlier.len() && m > 0 {
            assert(top_levels(earlier, n_levels) =~= earlier);
            assert(level_count(earlier) <= n_levels);
            assert(earlier.last() == orders[m - 1]);
            assert(orders.last() == orders[m]);
        } else if 0 < m < earlier.len() {
            assert(earlier[m - 1] == orders[m - 1]);
            assert(earlier[m] == orders[m]);
        }
    }
}

/// An order begins a level exactly where it comes first or its price differs from that of the order
/// before it.
pub proof fn law_where_levels_begin(orders: Seq<InnerL4Order>, order: InnerL4Order)
    ensures
        level_count(Seq::<InnerL4Order>::empty()) == 0,
        level_count(orders.push(order)) == level_count(orders) + if orders.len() > 0 && orders.last().limit_px
            == order.limit_px {
            0nat
        } else {
            1nat
        },
{
    assert(orders.push(order).drop_last() =~= orders);
}

/// No more is cut off than has to be: where orders are cut off, `n_levels` levels are left, and the
/// first order that is cut off would begin another one.
pub proof fn law_no_more_is_cut_than_has_to_be(orders: Seq<InnerL4Order>, n_levels: nat)
    ensures
        ({
            let m = top_levels(orders, n_levels).len() as int;
            &&& m <= orders.len()
            &&& m < orders.len() ==> level_count(orders.take(m)) == n_levels && level_count(orders.take(m + 1))
                == n_levels + 1
        }),
    decreases orders.len(),
{
    law_kept_orders_come_first(orders, n_levels);
    if level_count(orders) > n_levels && orders.len() > 0 {
        let earlier = orders.drop_last();
        law_no_more_is_cut_than_has_to_be(earlier, n_levels);
        law_kept_orders_come_first(earlier, n_levels);
        let m = top_levels(orders, n_levels).len() as int;
        assert(orders.take(m) =~= top_levels(orders, n_levels));
        if m < earlier.len() {
            assert(earlier.take(m + 1) =~= orders.take(m + 1));
        } else {
            assert(orders.take(m + 1) =~= orders);
        }
    }
}

} // verus!
