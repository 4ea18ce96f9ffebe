//! What clients can ask for.

use crate::key_map::{CoinMap, same_u32, same_u64};
use vstd::prelude::*;

verus! {

/// The number of levels on each side of an `L2Book` answer where the client names none.
pub const DEFAULT_LEVELS: usize = 20;

/// The largest number of levels that a client can ask for.
pub const MAX_LEVELS: usize = 100;

/// The coins that can be subscribed to.
pub struct Universe {
    coins: CoinMap<()>,
}

impl View for Universe {
    type V = Set<Seq<char>>;

    closed spec fn view(&self) -> Set<Seq<char>> {
        self.coins@.dom()
    }
}

impl Universe {
    /// No coins.
    pub fn new() -> (universe: Universe)
        ensures
            universe@ == Set::<Seq<char>>::empty(),
    {
        let universe = Universe { coins: CoinMap::new() };
        assert(universe@ =~= Set::<Seq<char>>::empty());
        universe
    }

    /// Adds a coin.
    pub fn insert(&mut self, coin: String)
        ensures
            final(self)@ == old(self)@.insert(coin@),
    {
        self.coins.insert(coin, ());
        assert(self@ =~= old(self)@.insert(coin@));
    }

    /// Whether the coin can be subscribed to.
    pub fn contains(&self, coin: &String) -> (found: bool)
        ensures
            found == self@.contains(coin@),
    {
        self.coins.get(coin).is_some()
    }
}

/// A stream of answers that a client can subscribe to.
#[derive(Debug)]
pub enum Subscription {
    Trades { coin: String },
    L2Book { coin: String, n_sig_figs: Option<u32>, n_levels: Option<usize>, mantissa: Option<u64> },
    L4Book { coin: String },
    OpenOrders { user: String },
    L4BookStream { coin: String },
}

/// What a subscription asks for.
pub enum SubscriptionView {
    Trades { coin: Seq<char> },
    L2Book { coin: Seq<char>, n_sig_figs: Option<u32>, n_levels: Option<usize>, mantissa: Option<u64> },
    L4Book { coin: Seq<char> },
    OpenOrders { user: Seq<char> },
    L4BookStream { coin: Seq<char> },
}

impl View for Subscription {
    type V = SubscriptionView;

    open spec fn view(&self) -> SubscriptionView {
        match self {
            Subscription::Trades { coin } => SubscriptionView::Trades { coin: coin@ },
            Subscription::L2Book { coin, n_sig_figs, n_levels, mantissa } => SubscriptionView::L2Book {
                coin: coin@,
                n_sig_figs: *n_sig_figs,
                n_levels: *n_levels,
                mantissa: *mantissa,
            },
            Subscription::L4Book { coin } => SubscriptionView::L4Book { coin: coin@ },
            Subscription::OpenOrders { user } => SubscriptionView::OpenOrders { user: user@ },
            Subscription::L4BookStream { coin } => SubscriptionView::L4BookStream { coin: coin@ },
        }
    }
}

impl Clone for Subscription {
    fn clone(&self) -> (copy: Subscription)
        ensures
            copy == *self,
    {
        match self {
            Subscription::Trades { coin } => Subscription::Trades { coin: coin.clone() },
            Subscription::L2Book { coin, n_sig_figs, n_levels, mantissa } => Subscription::L2Book {
                coin: coin.clone(),
                n_sig_figs: *n_sig_figs,
                n_levels: *n_levels,
                mantissa: *mantissa,
            },
            Subscription::L4Book { coin } => Subscription::L4Book { coin: coin.clone() },
            Subscription::OpenOrders { user } => Subscription::OpenOrders { user: user.clone() },
            Subscription::L4BookStream { coin } => Subscription::L4BookStream { coin: coin.clone() },
        }
    }
}

impl SubscriptionView {
    /// Whether the subscription can be served: its coin is in the universe, and it asks for no more
    /// levels than there can be.
    pub open spec fn valid(self, universe: Set<Seq<char>>) -> bool {
        match self {
            SubscriptionView::Trades { coin } => universe.contains(coin),
            SubscriptionView::L2Book { coin, n_levels, .. } => {
                &&& universe.contains(coin)
                &&& n_levels matches Some(n) ==> n <= MAX_LEVELS
            },
            SubscriptionView::L4Book { coin } => universe.contains(coin),
            SubscriptionView::OpenOrders { .. } => true,
            SubscriptionView::L4BookStream { coin } => universe.contains(coin),
        }
    }
}

/// Whether two optional numbers are the same.
fn same_usize(first: Option<usize>, second: Option<usize>) -> (same: bool)
    ensures
        same == (first == second),
{
    match (first, second) {
        (Some(a), Some(b)) => a == b,
        (None, None) => true,
        _ => false,
    }
}

impl Subscription {
    /// Whether two subscriptions ask for the same.
    pub fn same(&self, other: &Subscription) -> (same: bool)
        ensures
            same == (self@ == other@),
    {
        match (self, other) {
            (Subscription::Trades { coin }, Subscription::Trades { coin: theirs }) => *coin == *theirs,
            (
                Subscription::L2Book { coin, n_sig_figs, n_levels, mantissa },
                Subscription::L2Book { coin: their_coin, n_sig_figs: figs, n_levels: levels, mantissa: steps },
            ) => *coin == *their_coin && same_u32(*n_sig_figs, *figs) && same_usize(*n_levels, *levels) && same_u64(
                *mantissa,
                *steps,
            ),
            (Subscription::L4Book { coin }, Subscription::L4Book { coin: theirs }) => *coin == *theirs,
            (Subscription::OpenOrders { user }, Subscription::OpenOrders { user: theirs }) => *user == *theirs,
            (Subscription::L4BookStream { coin }, Subscription::L4BookStream { coin: theirs }) => *coin == *theirs,
            _ => false,
        }
    }

    /// Whether the subscription can be served.
    pub fn validate(&self, universe: &Universe) -> (valid: bool)
        ensures
            valid == self@.valid(universe@),
    {
        match self {
            Subscription::Trades { coin } => universe.contains(coin),
            Subscription::L2Book { coin, n_levels, .. } => {
                let enough = match n_levels {
                    Some(n) => *n <= MAX_LEVELS,
                    None => true,
                };
                universe.contains(coin) && enough
            },
            Subscription::L4Book { coin } => universe.contains(coin),
            Subscription::OpenOrders { .. } => true,
            Subscription::L4BookStream { coin } => universe.contains(coin),
        }
    }
}

/// The streams that one client is subscribed to, in the order in which it subscribed; none twice.
pub struct SubscriptionManager {
    subscriptions: Vec<Subscription>,
}

/// What a row of subscriptions asks for.
pub open spec fn asked(subscriptions: Seq<Subscription>) -> Seq<SubscriptionView> {
    subscriptions.map_values(|subscription: Subscription| subscription@)
}

impl View for SubscriptionManager {
    type V = Seq<SubscriptionView>;

    closed spec fn view(&self) -> Seq<SubscriptionView> {
        asked(self.subscriptions@)
    }
}

/// The row without one of its members.
pub open spec fn without<T>(row: Seq<T>, member: T) -> Seq<T> {
    if row.contains(member) {
        row.remove(row.index_of(member))
    } else {
        row
    }
}

impl SubscriptionManager {
    #[verifier::type_invariant]
    spec fn none_twice(self) -> bool {
        asked(self.subscriptions@).no_duplicates()
    }

    /// No subscriptions.
    pub fn new() -> (manager: SubscriptionManager)
        ensures
            manager@ == Seq::<SubscriptionView>::empty(),
    {
        let manager = SubscriptionManager { subscriptions: Vec::new() };
        assert(manager@ =~= Seq::<SubscriptionView>::empty());
        manager
    }

    /// The subscriptions, in the order in which they were made.
    pub fn subscriptions(&self) -> (row: &Vec<Subscription>)
        ensures
            asked(row@) == self@,
            self@.no_duplicates(),
    {
        proof {
            use_type_invariant(self);
        }
        &self.subscriptions
    }

    /// Where a subscription stands, or the number of subscriptions where it does not.
    fn place(&self, subscription: &Subscription) -> (at: usize)
        ensures
            at <= self@.len(),
            at < self@.len() ==> self@[at as int] == subscription@,
            at == self@.len() ==> !self@.contains(subscription@),
    {
        let mut i: usize = 0;
        while i < self.subscriptions.len()
            invariant
                i <= self.subscriptions@.len(),
                forall|j: int| 0 <= j < i ==> (#[trigger] self.subscriptions@[j])@ != subscription@,
            decreases self.subscriptions@.len() - i,
        {
            if self.subscriptions[i].same(subscription) {
                return i;
            }
            i = i + 1;
        }
        assert(forall|j: int| 0 <= j < self@.len() ==> self@[j] == self.subscriptions@[j]@);
        i
    }

    /// Adds a subscription, and says whether it is new.
    pub fn subscribe(&mut self, subscription: Subscription) -> (new: bool)
        ensures
            new == !old(self)@.contains(subscription@),
            final(self)@ == if new {
                old(self)@.push(subscription@)
            } else {
                old(self)@
            },
    {
        proof {
            use_type_invariant(&*self);
        }
        let ghost before = self@;
        let at: usize = self.place(&subscription);
        if at < self.subscriptions.len() {
            assert(before[at as int] == subscription@);
            return false;
        }
        let ghost added = subscription@;
        let mut subscriptions: Vec<Subscription> = Vec::new();
        std::mem::swap(&mut subscriptions, &mut self.subscriptions);
        subscriptions.push(subscription);
        assert(asked(subscriptions@) =~= before.push(added));
        assert(before.push(added).no_duplicates());
        self.subscriptions = subscriptions;
        true
    }

    /// Takes a subscription out, and says whether it was there.
    pub fn unsubscribe(&mut self, subscription: Subscription) -> (found: bool)
        ensures
            found == old(self)@.contains(subscription@),
            final(self)@ == without(old(self)@, subscription@),
    {
        proof {
            use_type_invariant(&*self);
        }
        let ghost before = self@;
        let at: usize = self.place(&subscription);
        if at == self.subscriptions.len() {
            return false;
        }
        let mut subscriptions: Vec<Subscription> = Vec::new();
        std::mem::swap(&mut subscriptions, &mut self.subscriptions);
        subscriptions.remove(at);
        proof {
            assert(before[at as int] == subscription@);
            assert(before.contains(subscription@));
            let first = before.index_of(subscription@);
            assert(before[first] == subscription@);
            assert(first == at);
            assert(asked(subscriptions@) =~= before.remove(at as int));
            let left = before.remove(at as int);
            assert forall|i: int, j: int| 0 <= i < left.len() && 0 <= j < left.len() && i != j implies left[i]
                != left[j] by {
                let k = if i < at { i } else { i + 1 };
                let m = if j < at { j } else { j + 1 };
                assert(left[i] == before[k] && left[j] == before[m]);
            }
        }
        self.subscriptions = subscriptions;
        true
    }
}

/// What a client sends.
#[derive(Debug)]
pub enum ClientMessage {
    Subscribe { subscription: Subscription },
    Unsubscribe { subscription: Subscription },
    Ping,
}

/// Taking back a subscription that was just made leaves the client subscribed as before.
pub proof fn law_unsubscribing_undoes_subscribing(before: Seq<SubscriptionView>, subscription: SubscriptionView)
    requires
        !before.contains(subscription),
    ensures
        before.push(subscription).contains(subscription),
        without(before.push(subscription), subscription) == before,
{
    let during = before.push(subscription);
    assert(during[before.len() as int] == subscription);
    let at = during.index_of(subscription);
    assert(during[at] == subscription);
    if at < before.len() {
        assert(before[at] == subscription);
    }
    assert(during.remove(at) =~= before);
}

/// Whoever has taken a subscription back is no longer subscribed.
pub proof fn law_unsubscribed_is_gone(before: Seq<SubscriptionView>, subscription: SubscriptionView)
    requires
        before.no_duplicates(),
    ensures
        !without(before, subscription).contains(subscription),
        without(before, subscription).no_duplicates(),
{
    if before.contains(subscription) {
        let at = before.index_of(subscription);
        let left = before.remove(at);
        assert(forall|i: int| 0 <= i < left.len() ==> left[i] == before[if i < at { i } else { i + 1 }]);
        assert forall|i: int, j: int| 0 <= i < left.len() && 0 <= j < left.len() && i != j implies left[i]
            != left[j] by {
            let k = if i < at { i } else { i + 1 };
            let m = if j < at { j } else { j + 1 };
            assert(left[i] == before[k] && left[j] == before[m]);
        }
        if left.contains(subscription) {
            let i = choose|i: int| 0 <= i < left.len() && left[i] == subscription;
            let k = if i < at { i } else { i + 1 };
            assert(before[k] == before[at]);
        }
    }
}

/// Which subscriptions are another one.
pub open spec fn other_than(subscription: SubscriptionView) -> spec_fn(SubscriptionView) -> bool {
    |other: SubscriptionView| other != subscription
}

/// Taking a subscription back leaves every other one in place, in the same order: what is left is the
/// row without that subscription.
pub proof fn law_other_subscriptions_keep_their_order(before: Seq<SubscriptionView>, subscription: SubscriptionView)
    requires
        before.no_duplicates(),
    ensures
        without(before, subscription) == before.filter(other_than(subscription)),
{
    if before.contains(subscription) {
        let at = before.index_of(subscription);
        assert(before[at] == subscription);
        let head = before.take(at);
        let tail = before.skip(at + 1);
        assert forall|i: int| 0 <= i < head.len() implies #[trigger] head[i] != subscription by {
            assert(head[i] == before[i]);
        }
        assert forall|i: int| 0 <= i < tail.len() implies #[trigger] tail[i] != subscription by {
            assert(tail[i] == before[at + 1 + i]);
        }
        lemma_one_left_out(head, subscription, tail);
        assert(before =~= head + (seq![subscription] + tail));
        assert(without(before, subscription) =~= head + tail);
    } else {
        assert forall|i: int| 0 <= i < before.len() implies #[trigger] before[i] != subscription by {
            assert(before.contains(before[i]));
        }
        lemma_all_stay(before, subscription);
    }
}

/// Leaving a subscription out of a row that holds it once leaves what stands before and behind it.
proof fn lemma_one_left_out(head: Seq<SubscriptionView>, subscription: SubscriptionView, tail: Seq<SubscriptionView>)
    requires
        forall|i: int| 0 <= i < head.len() ==> #[trigger] head[i] != subscription,
        forall|i: int| 0 <= i < tail.len() ==> #[trigger] tail[i] != subscription,
    ensures
        (head + (seq![subscription] + tail)).filter(other_than(subscription)) == head + tail,
{
    let keep = other_than(subscription);
    let one = seq![subscription];
    lemma_all_stay(head, subscription);
    lemma_all_stay(tail, subscription);
    Seq::filter_distributes_over_add(head, one + tail, keep);
    Seq::filter_distributes_over_add(one, tail, keep);
    assert(one.filter(keep) =~= Seq::<SubscriptionView>::empty()) by {
        reveal(Seq::filter);
        assert(one.drop_last().filter(keep).len() == 0);
    }
    assert(one.filter(keep) + tail =~= tail);
}

/// A row that does not hold a subscription is not changed by leaving it out.
proof fn lemma_all_stay(row: Seq<SubscriptionView>, subscription: SubscriptionView)
    requires
        forall|i: int| 0 <= i < row.len() ==> #[trigger] row[i] != subscription,
    ensures
        row.filter(other_than(subscription)) == row,
    decreases row.len(),
{
    reveal(Seq::filter);
    if row.len() > 0 {
        let earlier = row.drop_last();
        assert(forall|i: int| 0 <= i < earlier.len() ==> #[trigger] earlier[i] == row[i]);
        lemma_all_stay(earlier, subscription);
        assert(row[row.len() - 1] != subscription);
        assert(row =~= earlier.push(row.last()));
    }
}

/// Whoever takes one subscription back is subscribed to any other exactly as before.
pub proof fn law_other_subscriptions_stay(
    before: Seq<SubscriptionView>,
    subscription: SubscriptionView,
    other: SubscriptionView,
)
    requires
        other != subscription,
    ensures
        without(before, subscription).contains(other) <==> before.contains(other),
{
    let left = without(before, subscription);
    if before.contains(subscription) {
        let at = before.index_of(subscription);
        assert(before[at] == subscription);
        if left.contains(other) {
            let i = choose|i: int| 0 <= i < left.len() && left[i] == other;
            assert(before[if i < at { i } else { i + 1 }] == other);
        }
        if before.contains(other) {
            let k = choose|k: int| 0 <= k < before.len() && before[k] == other;
            assert(left[if k < at { k } else { k - 1 }] == other);
        }
    }
}

/// Which subscriptions can be served: to trades, orders, levels or diffs of a coin that there is, for
/// levels with at most a hundred of them; and to any user's open orders.
pub proof fn law_which_subscriptions_can_be_served(
    universe: Set<Seq<char>>,
    coin: Seq<char>,
    user: Seq<char>,
    n_sig_figs: Option<u32>,
    n_levels: Option<usize>,
    mantissa: Option<u64>,
)
    ensures
        (SubscriptionView::Trades { coin }).valid(universe) <==> universe.contains(coin),
        (SubscriptionView::L4Book { coin }).valid(universe) <==> universe.contains(coin),
        (SubscriptionView::L4BookStream { coin }).valid(universe) <==> universe.contains(coin),
        (SubscriptionView::L2Book { coin, n_sig_figs, n_levels, mantissa }).valid(universe) <==> universe.contains(
            coin,
        ) && (n_levels is None || n_levels->0 <= 100),
        (SubscriptionView::OpenOrders { user }).valid(universe),
{
}

/// The view of a subscription holds every part of it, and that of a row of them one view for each.
pub proof fn law_subscriptions_are_seen_whole(subscription: Subscription, row: Seq<Subscription>)
    ensures
        match subscription {
            Subscription::Trades { coin } => subscription@ == (SubscriptionView::Trades { coin: coin@ }),
            Subscription::L2Book { coin, n_sig_figs, n_levels, mantissa } => subscription@ == (
            SubscriptionView::L2Book { coin: coin@, n_sig_figs, n_levels, mantissa }),
            Subscription::L4Book { coin } => subscription@ == (SubscriptionView::L4Book { coin: coin@ }),
            Subscription::OpenOrders { user } => subscription@ == (SubscriptionView::OpenOrders { user: user@ }),
            Subscription::L4BookStream { coin } => subscription@ == (SubscriptionView::L4BookStream { coin: coin@ }),
        },
        asked(row).len() == row.len(),
        forall|i: int| 0 <= i < row.len() ==> #[trigger] asked(row)[i] == row[i]@,
{
}

} // verus!
