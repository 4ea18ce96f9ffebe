//! One client's messages, and what they are answered.

use crate::address::{Address, address_complaint, is_address_text, named_address};
use crate::address_map::AddressMap;
use crate::book::{InnerL4Order, L4Order, Snapshot, TimedSnapshots};
use crate::levels::{top_levels, truncate_to_n_levels};
use crate::responses::{L4Book, OpenOrdersData, ResponseView, ServerResponse, answers};
use crate::subscription::{
    ClientMessage, Subscription, SubscriptionManager, SubscriptionView, Universe, law_unsubscribing_undoes_subscribing,
    without,
};
use crate::text::{join, text_of};
use vstd::prelude::*;
use vstd::utf8::{decode_utf8, valid_utf8};

verus! {

/// The number of price levels on each side of the first answer to an `L4Book` subscription.
pub const L4_SNAPSHOT_MAX_LEVELS: usize = 10;

/// What a client is told when it connects: nothing where there is a book, and that it has to wait
/// for one otherwise. A client that is told so is not served.
pub fn greet(ready: bool) -> (refusal: Option<ServerResponse>)
    ensures
        match refusal {
            Some(response) => {
                &&& !ready
                &&& response@ == ResponseView::Error("Order book not ready for streaming (waiting for snapshot)"@)
            },
            None => ready,
        },
{
    if ready {
        None
    } else {
        Some(ServerResponse::Error("Order book not ready for streaming (waiting for snapshot)".to_owned()))
    }
}

/// What a websocket frame is.
#[derive(Clone, Copy, Debug, PartialEq, Eq, Structural)]
pub enum FrameKind {
    Text,
    Close,
    Other,
}

/// What is done with a frame that a client sent.
pub enum FrameAction {
    /// Make a message of this text.
    Parse(String),
    /// Nothing.
    Skip,
    /// End the connection: the client has left, or does not send text.
    End,
}

/// Decides what to do with a frame.
pub fn read_frame(kind: FrameKind, payload: &[u8]) -> (action: FrameAction)
    ensures
        match action {
            FrameAction::Parse(text) => {
                &&& kind == FrameKind::Text && valid_utf8(payload@)
                &&& text@ == decode_utf8(payload@)
            },
            FrameAction::Skip => kind == FrameKind::Other,
            FrameAction::End => kind == FrameKind::Close || kind == FrameKind::Text && !valid_utf8(payload@),
        },
{
    match kind {
        FrameKind::Text => match text_of(payload) {
            Some(text) => FrameAction::Parse(text.to_owned()),
            None => FrameAction::End,
        },
        FrameKind::Close => FrameAction::End,
        FrameKind::Other => FrameAction::Skip,
    }
}

/// Puts a message to those that have been read, or says that a text holds none.
pub fn text_parsed(messages: &mut Vec<ClientMessage>, text: &str, parsed: Option<ClientMessage>) -> (complaint: Option<
    ServerResponse,
>)
    ensures
        match parsed {
            Some(message) => complaint is None && final(messages)@ == old(messages)@.push(message),
            None => {
                &&& complaint is Some
                &&& complaint->0@ == ResponseView::Error(
                    "Error parsing JSON into valid websocket request: "@ + text@,
                )
                &&& final(messages)@ == old(messages)@
            },
        },
{
    match parsed {
        Some(message) => {
            messages.push(message);
            None
        },
        None => Some(ServerResponse::Error(join("Error parsing JSON into valid websocket request: ", text))),
    }
}

/// The coin whose orders a message asks for, where it asks for a coin's orders.
pub open spec fn l4_coin(message: ClientMessage) -> Option<Seq<char>> {
    match message {
        ClientMessage::Subscribe { subscription: Subscription::L4Book { coin } } => Some(coin@),
        _ => None,
    }
}

/// The coins whose orders a row of messages asks for.
pub fn l4_coins(messages: &Vec<ClientMessage>) -> (coins: Vec<String>)
    ensures
        coins@.map_values(|coin: String| coin@) == messages@.filter_map(|message: ClientMessage| l4_coin(message)),
{
    let mut coins: Vec<String> = Vec::new();
    let mut i: usize = 0;
    let ghost wanted = |message: ClientMessage| l4_coin(message);
    let ghost names = |coin: String| coin@;
    assert(coins@.map_values(names) =~= messages@.take(0).filter_map(wanted));
    while i < messages.len()
        invariant
            i <= messages@.len(),
            wanted == |message: ClientMessage| l4_coin(message),
            names == |coin: String| coin@,
            coins@.map_values(names) == messages@.take(i as int).filter_map(wanted),
        decreases messages@.len() - i,
    {
        let ghost before = coins@;
        match &messages[i] {
            ClientMessage::Subscribe { subscription: Subscription::L4Book { coin } } => {
                coins.push(coin.clone());
            },
            _ => {},
        }
        proof {
            messages@.lemma_filter_map_take_succ(wanted, i as int);
            assert(wanted(messages@[i as int]) == l4_coin(messages@[i as int]));
            assert(coins@.map_values(names) =~= before.map_values(names) + match l4_coin(messages@[i as int]) {
                Some(coin) => seq![coin],
                None => Seq::empty(),
            });
        }
        i = i + 1;
    }
    assert(messages@.take(i as int) =~= messages@);
    coins
}

/// The user whose open orders a message asks for, where it asks for a user's open orders.
pub open spec fn open_orders_user(message: ClientMessage) -> Option<Address> {
    match message {
        ClientMessage::Subscribe { subscription: Subscription::OpenOrders { user } } => if is_address_text(user@) {
            Some(named_address(user@))
        } else {
            None
        },
        _ => None,
    }
}

/// The users whose open orders a row of messages asks for; texts that name no address are passed
/// over.
pub fn open_order_addrs(messages: &Vec<ClientMessage>) -> (users: Vec<Address>)
    ensures
        users@ == messages@.filter_map(|message: ClientMessage| open_orders_user(message)),
{
    let mut users: Vec<Address> = Vec::new();
    let mut i: usize = 0;
    let ghost wanted = |message: ClientMessage| open_orders_user(message);
    assert(users@ =~= messages@.take(0).filter_map(wanted));
    while i < messages.len()
        invariant
            i <= messages@.len(),
            wanted == |message: ClientMessage| open_orders_user(message),
            users@ == messages@.take(i as int).filter_map(wanted),
        decreases messages@.len() - i,
    {
        let ghost before = users@;
        match &messages[i] {
            ClientMessage::Subscribe { subscription: Subscription::OpenOrders { user } } => {
                match Address::parse(user.as_str()) {
                    Ok(address) => {
                        users.push(address);
                    },
                    Err(_) => {},
                }
            },
            _ => {},
        }
        proof {
            messages@.lemma_filter_map_take_succ(wanted, i as int);
            assert(wanted(messages@[i as int]) == open_orders_user(messages@[i as int]));
            assert(users@ =~= before + match open_orders_user(messages@[i as int]) {
                Some(user) => seq![user],
                None => Seq::empty(),
            });
        }
        i = i + 1;
    }
    assert(messages@.take(i as int) =~= messages@);
    users
}

/// The orders that clients are shown for a row of orders of the book.
pub open spec fn shown(orders: Seq<InnerL4Order>) -> Seq<L4Order> {
    orders.map_values(|order: InnerL4Order| order.shown)
}

/// The first answer to a subscription, or why it cannot be had; most subscriptions have none.
pub open spec fn first_answer(
    subscription: SubscriptionView,
    snapshot: Option<TimedSnapshots>,
    open_orders: Map<Address, Vec<L4Order>>,
) -> Result<Option<ResponseView>, Seq<char>> {
    match subscription {
        SubscriptionView::L4Book { coin } => match snapshot {
            Some(books) if books.snapshot@.contains_key(coin) => Ok(
                Some(
                    ResponseView::L4Snapshot {
                        coin,
                        time: books.time,
                        height: books.height,
                        bids: shown(top_levels(books.snapshot@[coin].bids@, L4_SNAPSHOT_MAX_LEVELS as nat)),
                        asks: shown(top_levels(books.snapshot@[coin].asks@, L4_SNAPSHOT_MAX_LEVELS as nat)),
                    },
                ),
            ),
            _ => Err("Snapshot Failed"@),
        },
        SubscriptionView::OpenOrders { user } => if !is_address_text(user) {
            Err("Invalid address: "@ + address_complaint(user))
        } else if open_orders.contains_key(named_address(user)) {
            Ok(
                Some(
                    ResponseView::OpenOrders {
                        user: named_address(user),
                        open_orders: open_orders[named_address(user)]@,
                    },
                ),
            )
        } else {
            Err("Open orders not available"@)
        },
        _ => Ok(None),
    }
}

/// The orders that clients are shown for the best levels of one side of a book.
fn best_orders(orders: &Vec<InnerL4Order>) -> (best: Vec<L4Order>)
    ensures
        best@ == shown(top_levels(orders@, L4_SNAPSHOT_MAX_LEVELS as nat)),
{
    let copy = orders.clone();
    assert(copy@ =~= orders@) by {
        assert forall|i: int| 0 <= i < copy@.len() implies copy@[i] == orders@[i] by {
            assert(cloned::<InnerL4Order>(orders@[i], copy@[i]));
        }
    }
    let kept = truncate_to_n_levels(copy, L4_SNAPSHOT_MAX_LEVELS);
    let mut best: Vec<L4Order> = Vec::new();
    let mut i: usize = 0;
    while i < kept.len()
        invariant
            i <= kept@.len(),
            best@ == shown(kept@.take(i as int)),
        decreases kept@.len() - i,
    {
        best.push(kept[i].shown.clone());
        i = i + 1;
        assert(best@ =~= shown(kept@.take(i as int)));
    }
    assert(kept@.take(i as int) =~= kept@);
    best
}

/// A copy of a row of orders.
pub(crate) fn copy_orders(orders: &Vec<L4Order>) -> (copy: Vec<L4Order>)
    ensures
        copy@ == orders@,
{
    let copy = orders.clone();
    assert(copy@ =~= orders@) by {
        assert forall|i: int| 0 <= i < copy@.len() implies copy@[i] == orders@[i] by {
            assert(cloned::<L4Order>(orders@[i], copy@[i]));
        }
    }
    copy
}

impl Subscription {
    /// The first answer to the subscription, out of what was looked up beforehand. The orders of a
    /// coin are cut down to the best price levels of each side.
    pub fn build_snapshot_response(
        &self,
        precomputed_snapshot: &Option<TimedSnapshots>,
        precomputed_open_orders: &AddressMap<Vec<L4Order>>,
    ) -> (built: Result<Option<ServerResponse>, String>)
        ensures
            match first_answer(self@, *precomputed_snapshot, precomputed_open_orders@) {
                Ok(Some(answer)) => built is Ok && built->Ok_0 is Some && (built->Ok_0->0)@ == answer,
                Ok(None) => built is Ok && built->Ok_0 is None,
                Err(reason) => built is Err && built->Err_0@ == reason,
            },
    {
        match self {
            Subscription::L4Book { coin } => {
                match precomputed_snapshot {
                    Some(books) => match books.snapshot.get(coin) {
                        Some(book) => {
                            let levels = Snapshot { bids: best_orders(&book.bids), asks: best_orders(&book.asks) };
                            return Ok(
                                Some(
                                    ServerResponse::L4Book(
                                        L4Book::Snapshot {
                                            coin: coin.clone(),
                                            time: books.time,
                                            height: books.height,
                                            levels,
                                        },
                                    ),
                                ),
                            );
                        },
                        None => {},
                    },
                    None => {},
                }
                Err("Snapshot Failed".to_owned())
            },
            Subscription::OpenOrders { user } => match Address::parse(user.as_str()) {
                Ok(address) => match precomputed_open_orders.get(&address) {
                    Some(orders) => Ok(
                        Some(
                            ServerResponse::OpenOrders(
                                OpenOrdersData { user: address, open_orders: copy_orders(orders) },
                            ),
                        ),
                    ),
                    None => Err("Open orders not available".to_owned()),
                },
                Err(complaint) => Err(join("Invalid address: ", complaint.as_str())),
            },
            _ => Ok(None),
        }
    }
}

/// What a client is subscribed to after one of its messages, and what it is answered. `sub` is the
/// subscription as it is written in messages.
pub open spec fn reply(
    manager: Seq<SubscriptionView>,
    message: ClientMessage,
    sub: Seq<char>,
    universe: Set<Seq<char>>,
    snapshot: Option<TimedSnapshots>,
    open_orders: Map<Address, Vec<L4Order>>,
) -> (Seq<SubscriptionView>, Seq<ResponseView>) {
    match message {
        ClientMessage::Ping => (manager, seq![ResponseView::Pong]),
        ClientMessage::Subscribe { subscription } => if !subscription@.valid(universe) {
            (manager, seq![ResponseView::Error("Invalid subscription: "@ + sub)])
        } else if manager.contains(subscription@) {
            (manager, seq![ResponseView::Error("Already subscribed: "@ + sub)])
        } else {
            match first_answer(subscription@, snapshot, open_orders) {
                Err(reason) => (
                    manager,
                    seq![ResponseView::Error("Unable to grab order book snapshot: "@ + reason)],
                ),
                Ok(None) => (manager.push(subscription@), seq![ResponseView::SubscriptionResponse(message)]),
                Ok(Some(answer)) => (
                    manager.push(subscription@),
                    seq![ResponseView::SubscriptionResponse(message), answer],
                ),
            }
        },
        ClientMessage::Unsubscribe { subscription } => if !subscription@.valid(universe) {
            (manager, seq![ResponseView::Error("Invalid subscription: "@ + sub)])
        } else if !manager.contains(subscription@) {
            (manager, seq![ResponseView::Error("Already unsubscribed: "@ + sub)])
        } else {
            (without(manager, subscription@), seq![ResponseView::SubscriptionResponse(message)])
        },
    }
}

/// Serves one message of a client: changes what it is subscribed to, and returns its answers in the
/// order in which they are sent. `sub` is the subscription as it is written in messages.
pub fn receive_client_message(
    manager: &mut SubscriptionManager,
    client_message: ClientMessage,
    sub: &str,
    universe: &Universe,
    precomputed_snapshot: &Option<TimedSnapshots>,
    precomputed_open_orders: &AddressMap<Vec<L4Order>>,
) -> (responses: Vec<ServerResponse>)
    ensures
        (final(manager)@, answers(responses@)) == reply(
            old(manager)@,
            client_message,
            sub@,
            universe@,
            *precomputed_snapshot,
            precomputed_open_orders@,
        ),
{
    let mut responses: Vec<ServerResponse> = Vec::new();
    let ghost expected = reply(
        old(manager)@,
        client_message,
        sub@,
        universe@,
        *precomputed_snapshot,
        precomputed_open_orders@,
    );
    let (subscription, subscribing) = match &client_message {
        ClientMessage::Ping => {
            responses.push(ServerResponse::Pong);
            assert(answers(responses@) =~= expected.1);
            return responses;
        },
        ClientMessage::Subscribe { subscription } => (subscription.clone(), true),
        ClientMessage::Unsubscribe { subscription } => (subscription.clone(), false),
    };
    if !subscription.validate(universe) {
        responses.push(ServerResponse::Error(join("Invalid subscription: ", sub)));
        assert(answers(responses@) =~= expected.1);
        return responses;
    }
    if subscribing {
        if manager.subscribe(subscription.clone()) {
            match subscription.build_snapshot_response(precomputed_snapshot, precomputed_open_orders) {
                Ok(first) => {
                    responses.push(ServerResponse::SubscriptionResponse(client_message));
                    match first {
                        Some(answer) => {
                            responses.push(answer);
                        },
                        None => {},
                    }
                },
                Err(reason) => {
                    manager.unsubscribe(subscription);
                    proof {
                        law_unsubscribing_undoes_subscribing(old(manager)@, subscription@);
                    }
                    responses.push(
                        ServerResponse::Error(join("Unable to grab order book snapshot: ", reason.as_str())),
                    );
                },
            }
        } else {
            responses.push(ServerResponse::Error(join("Already subscribed: ", sub)));
        }
    } else {
        if manager.unsubscribe(subscription) {
            responses.push(ServerResponse::SubscriptionResponse(client_message));
        } else {
            responses.push(ServerResponse::Error(join("Already unsubscribed: ", sub)));
        }
    }
    assert(answers(responses@) =~= expected.1);
    responses
}

/// A client's message, and its subscription as it is written in messages.
pub struct Request {
    pub message: ClientMessage,
    pub sub: String,
}

/// What a client is subscribed to after a row of messages, and what it is answered.
pub open spec fn replies(
    manager: Seq<SubscriptionView>,
    requests: Seq<Request>,
    universe: Set<Seq<char>>,
    snapshot: Option<TimedSnapshots>,
    open_orders: Map<Address, Vec<L4Order>>,
) -> (Seq<SubscriptionView>, Seq<ResponseView>)
    decreases requests.len(),
{
    if requests.len() == 0 {
        (manager, Seq::empty())
    } else {
        let (before, earlier) = replies(manager, requests.drop_last(), universe, snapshot, open_orders);
        let request = requests.last();
        let (after, more) = reply(before, request.message, request.sub@, universe, snapshot, open_orders);
        (after, earlier + more)
    }
}

/// Serves a row of messages of a client, one after the other, out of what was looked up beforehand.
pub fn receive_client_messages(
    manager: &mut SubscriptionManager,
    requests: Vec<Request>,
    universe: &Universe,
    precomputed_snapshot: &Option<TimedSnapshots>,
    precomputed_open_orders: &AddressMap<Vec<L4Order>>,
) -> (responses: Vec<ServerResponse>)
    ensures
        (final(manager)@, answers(responses@)) == replies(
            old(manager)@,
            requests@,
            universe@,
            *precomputed_snapshot,
            precomputed_open_orders@,
        ),
{
    let mut responses: Vec<ServerResponse> = Vec::new();
    let ghost all = requests@;
    assert(answers(responses@) =~= Seq::<ResponseView>::empty());
    assert(all.take(0) =~= Seq::<Request>::empty());
    for request in it: requests
        invariant
            it.seq() == all,
            (manager@, answers(responses@)) == replies(
                old(manager)@,
                all.take(it.index() as int),
                universe@,
                *precomputed_snapshot,
                precomputed_open_orders@,
            ),
    {
        let ghost earlier = answers(responses@);
        let mut more = receive_client_message(
            manager,
            request.message,
            request.sub.as_str(),
            universe,
            precomputed_snapshot,
            precomputed_open_orders,
        );
        let ghost added = answers(more@);
        responses.append(&mut more);
        proof {
            let done = it.index() as int;
            assert(all.take(done + 1).drop_last() =~= all.take(done));
            assert(all.take(done + 1).last() == request);
            assert(answers(responses@) =~= earlier + added);
        }
    }
    assert(all.take(all.len() as int) =~= all);
    responses
}

} // verus!
