//! What clients are answered.

use crate::address::Address;
use crate::book::{InnerLevel, L4Order, Side, Snapshot};
use crate::node_data::{NodeDataFill, NodeDataOrderDiff};
use crate::subscription::ClientMessage;
use vstd::prelude::*;

verus! {

/// The levels of one coin's book.
#[derive(Debug)]
pub struct L2Book {
    pub coin: String,
    pub time: u64,
    pub levels: Snapshot<InnerLevel>,
}

/// The diffs of one coin's book in one block.
#[derive(Debug)]
pub struct L4BookUpdates {
    pub time: u64,
    pub height: u64,
    pub book_diffs: Vec<NodeDataOrderDiff>,
}

impl L4BookUpdates {
    /// No diffs yet.
    pub fn new(time: u64, height: u64) -> (updates: L4BookUpdates)
        ensures
            updates.time == time,
            updates.height == height,
            updates.book_diffs@ == Seq::<NodeDataOrderDiff>::empty(),
    {
        L4BookUpdates { time, height, book_diffs: Vec::new() }
    }
}

/// The orders of one coin's book, or what has changed in it.
#[derive(Debug)]
pub enum L4Book {
    Snapshot { coin: String, time: u64, height: u64, levels: Snapshot<L4Order> },
    Updates(L4BookUpdates),
}

/// Diffs of one coin's book, as they arrived.
#[derive(Debug)]
pub struct L4BookStream {
    pub coin: String,
    pub time: u64,
    pub height: u64,
    pub book_diffs: Vec<NodeDataOrderDiff>,
}

/// A user's open orders.
#[derive(Debug)]
pub struct OpenOrdersData {
    pub user: Address,
    pub open_orders: Vec<L4Order>,
}

/// A match: its coin, and the fill on each side.
#[derive(Debug)]
pub struct Trade {
    pub coin: String,
    pub ask: Option<NodeDataFill>,
    pub bid: Option<NodeDataFill>,
}

/// The match that two fills make. Of two fills on the same side the second one counts.
pub open spec fn trade_of(first: NodeDataFill, second: NodeDataFill) -> Trade {
    match (first.1.side, second.1.side) {
        (Side::Ask, Side::Bid) => Trade { coin: first.1.coin, ask: Some(first), bid: Some(second) },
        (Side::Bid, Side::Ask) => Trade { coin: second.1.coin, ask: Some(second), bid: Some(first) },
        (Side::Ask, Side::Ask) => Trade { coin: second.1.coin, ask: Some(second), bid: None },
        (Side::Bid, Side::Bid) => Trade { coin: second.1.coin, ask: None, bid: Some(second) },
    }
}

impl Trade {
    /// The match that two fills make.
    pub fn from_fills(first: &NodeDataFill, second: &NodeDataFill) -> (trade: Trade)
        ensures
            trade == trade_of(*first, *second),
    {
        match (first.1.side, second.1.side) {
            (Side::Ask, Side::Bid) => Trade {
                coin: first.1.coin.clone(),
                ask: Some(first.clone()),
                bid: Some(second.clone()),
            },
            (Side::Bid, Side::Ask) => Trade {
                coin: second.1.coin.clone(),
                ask: Some(second.clone()),
                bid: Some(first.clone()),
            },
            (Side::Ask, Side::Ask) => Trade { coin: second.1.coin.clone(), ask: Some(second.clone()), bid: None },
            (Side::Bid, Side::Bid) => Trade { coin: second.1.coin.clone(), ask: None, bid: Some(second.clone()) },
        }
    }
}

/// An answer to a client.
#[derive(Debug)]
pub enum ServerResponse {
    SubscriptionResponse(ClientMessage),
    L2Book(L2Book),
    L4Book(L4Book),
    Trades(Vec<Trade>),
    OpenOrders(OpenOrdersData),
    L4BookStream(L4BookStream),
    Pong,
    Error(String),
}

/// What an answer holds.
#[verifier::ext_equal]
pub enum ResponseView {
    SubscriptionResponse(ClientMessage),
    L2Book { coin: Seq<char>, time: u64, bid_levels: Seq<InnerLevel>, ask_levels: Seq<InnerLevel> },
    L4Snapshot { coin: Seq<char>, time: u64, height: u64, bids: Seq<L4Order>, asks: Seq<L4Order> },
    L4Updates { time: u64, height: u64, book_diffs: Seq<NodeDataOrderDiff> },
    Trades(Seq<Trade>),
    OpenOrders { user: Address, open_orders: Seq<L4Order> },
    L4BookStream { coin: Seq<char>, time: u64, height: u64, book_diffs: Seq<NodeDataOrderDiff> },
    Pong,
    Error(Seq<char>),
}

impl View for ServerResponse {
    type V = ResponseView;

    open spec fn view(&self) -> ResponseView {
        match self {
            ServerResponse::SubscriptionResponse(message) => ResponseView::SubscriptionResponse(*message),
            ServerResponse::L2Book(book) => ResponseView::L2Book {
                coin: book.coin@,
                time: book.time,
                bid_levels: book.levels.bids@,
                ask_levels: book.levels.asks@,
            },
            ServerResponse::L4Book(L4Book::Snapshot { coin, time, height, levels }) => ResponseView::L4Snapshot {
                coin: coin@,
                time: *time,
                height: *height,
                bids: levels.bids@,
                asks: levels.asks@,
            },
            ServerResponse::L4Book(L4Book::Updates(updates)) => ResponseView::L4Updates {
                time: updates.time,
                height: updates.height,
                book_diffs: updates.book_diffs@,
            },
            ServerResponse::Trades(trades) => ResponseView::Trades(trades@),
            ServerResponse::OpenOrders(data) => ResponseView::OpenOrders {
                user: data.user,
                open_orders: data.open_orders@,
            },
            ServerResponse::L4BookStream(stream) => ResponseView::L4BookStream {
                coin: stream.coin@,
                time: stream.time,
                height: stream.height,
                book_diffs: stream.book_diffs@,
            },
            ServerResponse::Pong => ResponseView::Pong,
            ServerResponse::Error(text) => ResponseView::Error(text@),
        }
    }
}

/// What a row of answers holds.
pub open spec fn answers(responses: Seq<ServerResponse>) -> Seq<ResponseView> {
    responses.map_values(|response: ServerResponse| response@)
}

} // verus!
