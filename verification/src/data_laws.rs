//! What holds of times, addresses, batches, queues, levels and trades.

use crate::address::{address_digits, digit_value, hex_value, is_address_text, named_address};
use crate::batch_queue::QueueView;
use crate::book::{Side, first_n};
use crate::node_data::{BatchView, EventSource, NodeDataFill, NodeDataOrderStatus, adjoin};
use crate::responses::trade_of;
use crate::time::Timestamp;
use vstd::arithmetic::power::{lemma_pow_adds, pow};
use vstd::prelude::*;

verus! {

/// The milliseconds of a point in time are the whole milliseconds that have passed until it.
pub proof fn law_milliseconds_are_whole(point: Timestamp)
    ensures
        point.millis() * 1_000_000 <= point.secs * 1_000_000_000 + point.nanos,
        point.secs * 1_000_000_000 + point.nanos < (point.millis() + 1) * 1_000_000,
{
}

/// The second at which a year of the Gregorian calendar begins, counted from the start of 1970.
pub open spec fn first_second_of(year: int) -> int {
    (365 * year + (year + 3) / 4 - (year + 99) / 100 + (year + 399) / 400 - 719_528) * 86_400
}

/// The calendar holds every point from the start of the year -262143 to the end of the year 262142.
/// A second is a thousand million nanoseconds long, and only the last one of a minute may be
/// followed by a leap second.
pub proof fn law_which_points_the_calendar_holds(point: Timestamp)
    ensures
        first_second_of(1970) == 0,
        point.on_calendar() ==> first_second_of(-262_143) <= point.secs < first_second_of(262_143),
        first_second_of(-262_143) <= point.secs < first_second_of(262_143) && point.nanos < 1_000_000_000
            ==> point.on_calendar(),
        first_second_of(-262_143) <= point.secs < first_second_of(262_143) && 1_000_000_000 <= point.nanos
            < 2_000_000_000 ==> (point.on_calendar() <==> (point.secs + 1) % 60 == 0),
        point.nanos >= 2_000_000_000 ==> !point.on_calendar(),
{
}

/// A prefix in front of an address changes nothing: forty digits name the same address with `0x`,
/// with `0X` and bare, and it is the one that the digits stand for.
pub proof fn law_address_prefix_changes_nothing(digits: Seq<char>)
    requires
        digits.len() == 40,
        forall|i: int| 0 <= i < 40 ==> digit_value(#[trigger] digits[i]) is Some,
    ensures
        is_address_text(digits),
        is_address_text(seq!['0', 'x'] + digits),
        is_address_text(seq!['0', 'X'] + digits),
        named_address(seq!['0', 'x'] + digits) == named_address(digits),
        named_address(seq!['0', 'X'] + digits) == named_address(digits),
{
    assert(digit_value(digits[1]) is Some);
    assert(address_digits(digits) == digits);
    assert((seq!['0', 'x'] + digits).skip(2) =~= digits);
    assert((seq!['0', 'X'] + digits).skip(2) =~= digits);
}

/// A text without forty hexadecimal digits behind its prefix names no address.
pub proof fn law_other_texts_name_no_address(text: Seq<char>)
    requires
        is_address_text(text),
    ensures
        text.len() == 40 || text.len() == 42 && text[0] == '0' && (text[1] == 'x' || text[1] == 'X'),
        forall|i: int| text.len() - 40 <= i < text.len() ==> digit_value(#[trigger] text[i]) is Some,
{
    let digits = address_digits(text);
    let cut = text.len() - 40;
    assert forall|i: int| cut <= i < text.len() implies digit_value(#[trigger] text[i]) is Some by {
        assert(digits[i - cut] == text[i]);
    }
}

/// The sixteen digits stand for the numbers from zero to fifteen in turn, in either case, and no
/// other character is a digit.
pub proof fn law_digits_stand_for_their_place(c: char, n: int)
    ensures
        ({
            let lower = seq!['0', '1', '2', '3', '4', '5', '6', '7', '8', '9', 'a', 'b', 'c', 'd', 'e', 'f'];
            let upper = seq!['0', '1', '2', '3', '4', '5', '6', '7', '8', '9', 'A', 'B', 'C', 'D', 'E', 'F'];
            &&& 0 <= n < 16 ==> digit_value(lower[n]) == Some(n)
            &&& 0 <= n < 16 ==> digit_value(upper[n]) == Some(n)
            &&& digit_value(c) is Some ==> lower.contains(c) || upper.contains(c)
        }),
{
    let lower = seq!['0', '1', '2', '3', '4', '5', '6', '7', '8', '9', 'a', 'b', 'c', 'd', 'e', 'f'];
    let upper = seq!['0', '1', '2', '3', '4', '5', '6', '7', '8', '9', 'A', 'B', 'C', 'D', 'E', 'F'];
    if digit_value(c) is Some {
        let place = digit_value(c)->0;
        assert(lower[place] == c || upper[place] == c);
    }
}

/// Digits are read as a number to the base of sixteen, the first digit weighing most: what stands
/// in front of a row of digits counts sixteen times as much for each of them.
pub proof fn law_digits_are_read_to_the_base_of_sixteen(front: Seq<char>, row: Seq<char>, c: char)
    ensures
        hex_value(front + row) == hex_value(front) * pow(16, row.len()) + hex_value(row),
        0 <= hex_value(row) < pow(16, row.len()),
        digit_value(c) is Some ==> hex_value(seq![c]) == digit_value(c)->0,
    decreases row.len(),
{
    reveal_with_fuel(hex_value, 2);
    reveal(pow);
    assert(seq![c].drop_last() =~= Seq::<char>::empty());
    if row.len() == 0 {
        assert(front + row =~= front);
    } else {
        let less = row.drop_last();
        law_digits_are_read_to_the_base_of_sixteen(front, less, c);
        assert((front + row).drop_last() =~= front + less);
        assert(pow(16, row.len()) == 16 * pow(16, less.len()));
        assert(hex_value(front) * (16 * pow(16, less.len())) == 16 * (hex_value(front) * pow(16, less.len())))
            by (nonlinear_arith);
    }
}

/// The twenty bytes of an address are the number that the forty last characters of its text stand
/// for.
pub proof fn law_addresses_are_the_number_of_their_digits(text: Seq<char>)
    requires
        is_address_text(text),
    ensures
        named_address(text).value() == hex_value(text.skip(text.len() - 40)),
{
    let digits = address_digits(text);
    assert(text.skip(text.len() - 40) =~= digits);
    law_digits_are_read_to_the_base_of_sixteen(digits, digits, '0');
    reveal_with_fuel(pow, 11);
    lemma_pow_adds(16, 10, 10);
    lemma_pow_adds(16, 20, 20);
    assert(pow(16, 10) == 0x100_0000_0000);
    assert(pow(16, 20) == 0x1_0000_0000_0000_0000_0000);
    assert(pow(16, 40) == 0x1_0000_0000_0000_0000_0000 * 0x1_0000_0000_0000_0000_0000);
}

/// A status brings its order into the book exactly where a plain order is open and not
/// immediate-or-cancel, or a trigger order has been triggered.
pub proof fn law_what_enters_the_book(status: NodeDataOrderStatus)
    ensures
        !status.order.is_trigger && status.status@ == "open"@ && status.order.tif is None ==> status.enters_book(),
        !status.order.is_trigger && status.status@ == "open"@ && status.order.tif is Some ==> (status.enters_book()
            <==> status.order.tif->0@ != "Ioc"@),
        !status.order.is_trigger && status.status@ != "open"@ ==> !status.enters_book(),
        status.order.is_trigger ==> (status.enters_book() <==> status.status@ == "triggered"@),
{
}

/// Where a directory and a name are put together, the directory comes first, the name last, and
/// between them stands a slash exactly where the directory has a name that does not end with one.
pub proof fn law_names_stand_below_their_directory(dir: Seq<char>, tail: Seq<char>)
    ensures
        dir.is_prefix_of(adjoin(dir, tail)),
        adjoin(dir, tail).subrange(adjoin(dir, tail).len() - tail.len(), adjoin(dir, tail).len() as int) == tail,
        adjoin(dir, tail).len() == dir.len() + tail.len() + if dir.len() > 0 && dir.last() != '/' {
            1int
        } else {
            0int
        },
        dir.len() > 0 && dir.last() != '/' ==> adjoin(dir, tail)[dir.len() as int] == '/',
{
    let whole = adjoin(dir, tail);
    assert(whole.subrange(whole.len() - tail.len(), whole.len() as int) =~= tail);
}

/// The name that a stream's files have in the node's data directory, in front of how they are
/// written.
pub open spec fn stem_of(source: EventSource) -> Seq<char> {
    "hl/data/node_"@ + match source {
        EventSource::Fills => "fills"@,
        EventSource::OrderStatuses => "order_statuses"@,
        EventSource::OrderDiffs => "raw_book_diffs"@,
    }
}

/// The place of a stream's files begins with the stream's own name and ends with how the files are
/// written: within a block or by block.
pub proof fn law_places_tell_stream_and_writing(source: EventSource)
    ensures
        source.place(true) == stem_of(source) + "_streaming"@,
        source.place(false) == stem_of(source) + "_by_block"@,
{
    reveal_strlit("hl/data/node_");
    reveal_strlit("fills");
    reveal_strlit("order_statuses");
    reveal_strlit("raw_book_diffs");
    reveal_strlit("hl/data/node_fills");
    reveal_strlit("hl/data/node_order_statuses");
    reveal_strlit("hl/data/node_raw_book_diffs");
    assert(stem_of(EventSource::Fills) =~= "hl/data/node_fills"@);
    assert(stem_of(EventSource::OrderStatuses) =~= "hl/data/node_order_statuses"@);
    assert(stem_of(EventSource::OrderDiffs) =~= "hl/data/node_raw_book_diffs"@);
}

/// No two streams share a directory, whichever way they are written, nor a name in messages, where
/// each is called what it is.
pub proof fn law_streams_stand_apart(
    dir: Seq<char>,
    source: EventSource,
    streaming: bool,
    other: EventSource,
    other_streaming: bool,
)
    ensures
        adjoin(dir, source.place(streaming)) == adjoin(dir, other.place(other_streaming)) ==> source == other
            && streaming == other_streaming,
        source.label() == other.label() ==> source == other,
        source.label() == "Fills"@ <==> source is Fills,
        source.label() == "OrderStatuses"@ <==> source is OrderStatuses,
        source.label() == "OrderDiffs"@ <==> source is OrderDiffs,
{
    let one = source.place(streaming);
    let two = other.place(other_streaming);
    if adjoin(dir, one) == adjoin(dir, two) {
        law_names_stand_below_their_directory(dir, one);
        law_names_stand_below_their_directory(dir, two);
        assert(one == two);
        reveal_strlit("hl/data/node_fills");
        reveal_strlit("hl/data/node_order_statuses");
        reveal_strlit("hl/data/node_raw_book_diffs");
        reveal_strlit("_streaming");
        reveal_strlit("_by_block");
        assert(one[13] == two[13]);
        assert(one.last() == two.last());
    }
    reveal_strlit("Fills");
    reveal_strlit("OrderStatuses");
    reveal_strlit("OrderDiffs");
    assert("Fills"@.len() == 5 && "OrderStatuses"@.len() == 13 && "OrderDiffs"@.len() == 10);
    assert(source.label().len() == other.label().len() ==> source == other);
}

/// A batch is dated exactly where the calendar holds its block's time and the milliseconds of it are
/// not negative.
pub proof fn law_dated_batches<E>(batch: BatchView<E>)
    ensures
        batch.dated() <==> batch.block_time.on_calendar() && batch.block_time.secs * 1000
            + batch.block_time.nanos as int / 1_000_000 >= 0,
{
}

/// A batch without events that stands in for another is of the same block and time.
pub proof fn law_stand_ins_are_of_the_same_block<E, T>(batch: BatchView<E>)
    ensures
        ({
            let empty = batch.emptied::<T>();
            &&& empty.block_number == batch.block_number
            &&& empty.block_time == batch.block_time
            &&& empty.local_time == batch.local_time
            &&& empty.events.len() == 0
        }),
{
}

/// A batch that is put to another leaves that one's block and events, and its own events follow them.
pub proof fn law_more_events_follow<E>(batch: BatchView<E>, other: BatchView<E>)
    ensures
        ({
            let both = batch.extended(other);
            &&& both.block_number == batch.block_number
            &&& both.block_time == batch.block_time
            &&& both.local_time == batch.local_time
            &&& both.events.len() == batch.events.len() + other.events.len()
            &&& forall|i: int| 0 <= i < batch.events.len() ==> #[trigger] both.events[i] == batch.events[i]
            &&& forall|i: int|
                0 <= i < other.events.len() ==> both.events[batch.events.len() + i] == #[trigger] other.events[i]
        }),
{
}

/// The oldest block is complete as soon as any newer block waits behind it, however many do.
pub proof fn law_any_newer_block_completes_the_front<E>(queue: QueueView<E>)
    requires
        queue.in_order(),
        queue.blocks.len() > 0,
    ensures
        queue.front_complete() <==> exists|i: int|
            0 <= i < queue.blocks.len() && (#[trigger] queue.blocks[i]).block_number > queue.blocks[0].block_number,
{
    if queue.blocks.len() > 1 {
        assert(queue.blocks[1].block_number > queue.blocks[0].block_number);
    }
}

/// Taking the oldest block out leaves every other block where it was, and the memory of the newest.
pub proof fn law_taking_a_block_leaves_the_others<E>(queue: QueueView<E>)
    requires
        queue.blocks.len() > 0,
    ensures
        queue.blocks == seq![queue.blocks[0]] + queue.popped().blocks,
        queue.popped().newest == queue.newest,
{
    assert(queue.blocks =~= seq![queue.blocks[0]] + queue.popped().blocks);
}

/// A newer block is put behind those that wait.
pub proof fn law_newer_blocks_queue_up<E>(queue: QueueView<E>, batch: BatchView<E>)
    requires
        queue.newest matches Some(newest) ==> newest < batch.block_number,
    ensures
        queue.keeps(batch),
        queue.pushed(batch).blocks == queue.blocks + seq![batch],
        queue.pushed(batch).newest == Some(batch.block_number),
{
    assert(queue.pushed(batch).blocks =~= queue.blocks + seq![batch]);
}

/// More of the newest block that waits is put to that block, and nothing else moves.
pub proof fn law_more_of_a_block_joins_it<E>(queue: QueueView<E>, batch: BatchView<E>)
    requires
        queue.in_order(),
        queue.blocks.len() > 0,
        queue.blocks.last().block_number == batch.block_number,
    ensures
        queue.keeps(batch),
        queue.pushed(batch).newest == queue.newest,
        queue.pushed(batch).blocks.len() == queue.blocks.len(),
        forall|i: int|
            0 <= i < queue.blocks.len() - 1 ==> #[trigger] queue.pushed(batch).blocks[i] == queue.blocks[i],
        queue.pushed(batch).blocks.last().events == queue.blocks.last().events + batch.events,
        queue.pushed(batch).blocks.last().block_number == batch.block_number,
        queue.pushed(batch).blocks.last().block_time == queue.blocks.last().block_time,
        queue.pushed(batch).blocks.last().local_time == queue.blocks.last().local_time,
{
}

/// A block that is older than the newest that ever arrived, or that has been taken already, is
/// dropped.
pub proof fn law_older_blocks_are_dropped<E>(queue: QueueView<E>, batch: BatchView<E>)
    requires
        queue.in_order(),
        queue.newest is Some,
        batch.block_number < queue.newest->0 || batch.block_number == queue.newest->0 && queue.blocks.len() == 0,
    ensures
        !queue.keeps(batch),
        queue.pushed(batch) == queue,
{
}

/// The first `n` of a row are the row up to its end or its `n`th place, whichever comes first.
pub proof fn law_first_are_a_prefix<T>(row: Seq<T>, n: nat)
    ensures
        first_n(row, n).is_prefix_of(row),
        first_n(row, n).len() <= n,
        first_n(row, n).len() == n || first_n(row, n).len() == row.len(),
{
}

/// Of two fills on opposite sides, each stands unchanged on its own side of the trade, in whichever
/// order they come, and the trade is of the ask's coin.
pub proof fn law_fills_stand_on_their_own_side(ask: NodeDataFill, bid: NodeDataFill)
    requires
        ask.1.side == Side::Ask,
        bid.1.side == Side::Bid,
    ensures
        trade_of(ask, bid).ask == Some(ask),
        trade_of(ask, bid).bid == Some(bid),
        trade_of(ask, bid).coin == ask.1.coin,
        trade_of(bid, ask) == trade_of(ask, bid),
{
}

/// Of two fills on the same side, the second one stands there, and nothing on the other side.
pub proof fn law_second_fill_of_a_side_counts(first: NodeDataFill, second: NodeDataFill)
    requires
        first.1.side == second.1.side,
    ensures
        second.1.side == Side::Ask ==> trade_of(first, second).ask == Some(second) && trade_of(first, second).bid is None,
        second.1.side == Side::Bid ==> trade_of(first, second).bid == Some(second) && trade_of(first, second).ask is None,
        trade_of(first, second).coin == second.1.coin,
{
}

} // verus!
