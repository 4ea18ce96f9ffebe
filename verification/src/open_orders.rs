//! Every user's open orders, kept up to date block by block.

use crate::address::Address;
use crate::address_map::AddressMap;
use crate::book::{InnerL4Order, L4Order, Snapshot};
use crate::key_map::CoinMap;
use crate::node_data::{NodeDataOrderDiff, NodeDataOrderStatus, OrderDiff};
use std::collections::{BTreeMap, HashMap};
use vstd::prelude::*;

verus! {

/// Open orders by user, and then by order number.
pub type OrdersByUser = Map<Address, Map<u64, L4Order>>;

/// The open orders, the orders of this block that may still enter the book, and the users whose
/// orders have been touched.
#[verifier::ext_equal]
pub struct Tracking {
    pub open: OrdersByUser,
    pub fresh: Map<u64, NodeDataOrderStatus>,
    pub changed: Set<Address>,
}

/// The orders that entered the book with one of the statuses, each under the last such status.
pub open spec fn fresh_orders(statuses: Seq<NodeDataOrderStatus>) -> Map<u64, NodeDataOrderStatus>
    decreases statuses.len(),
{
    if statuses.len() == 0 {
        Map::empty()
    } else {
        let earlier = fresh_orders(statuses.drop_last());
        let status = statuses.last();
        if status.enters_book() {
            earlier.insert(status.order.oid, status)
        } else {
            earlier
        }
    }
}

/// The open orders of one user; none where the user is not listed.
pub open spec fn orders_of(open: OrdersByUser, user: Address) -> Map<u64, L4Order> {
    if open.contains_key(user) {
        open[user]
    } else {
        Map::empty()
    }
}

/// The open orders with `order` put under its user and number.
pub open spec fn with_order(open: OrdersByUser, user: Address, oid: u64, order: L4Order) -> OrdersByUser {
    open.insert(user, orders_of(open, user).insert(oid, order))
}

/// The open orders without one order; a user without orders is not listed.
pub open spec fn without_order(open: OrdersByUser, user: Address, oid: u64) -> OrdersByUser {
    let left = orders_of(open, user).remove(oid);
    if left =~= Map::<u64, L4Order>::empty() {
        open.remove(user)
    } else {
        open.insert(user, left)
    }
}

/// The order that a status opens, with its user filled in and the size that entered the book.
pub open spec fn opened(status: NodeDataOrderStatus, sz: String) -> L4Order {
    L4Order { user: Some(status.user), sz, ..status.order }
}

impl Tracking {
    /// What one diff makes of it. A new order is opened for the user of its status, and only
    /// where this block has a status for it; a change of size and a removal touch an order that
    /// the diff's user has open.
    pub open spec fn after(self, diff: NodeDataOrderDiff) -> Tracking {
        match diff.raw_book_diff {
            OrderDiff::New { sz } => if self.fresh.contains_key(diff.oid) {
                let status = self.fresh[diff.oid];
                Tracking {
                    open: with_order(self.open, status.user, diff.oid, opened(status, sz)),
                    fresh: self.fresh.remove(diff.oid),
                    changed: self.changed.insert(status.user),
                }
            } else {
                self
            },
            OrderDiff::Update { orig_sz, new_sz } => if orders_of(self.open, diff.user).contains_key(diff.oid) {
                let order = orders_of(self.open, diff.user)[diff.oid];
                Tracking {
                    open: with_order(self.open, diff.user, diff.oid, L4Order { sz: new_sz, ..order }),
                    changed: self.changed.insert(diff.user),
                    ..self
                }
            } else {
                self
            },
            OrderDiff::Remove => if orders_of(self.open, diff.user).contains_key(diff.oid) {
                Tracking {
                    open: without_order(self.open, diff.user, diff.oid),
                    changed: self.changed.insert(diff.user),
                    ..self
                }
            } else {
                self
            },
        }
    }

    /// What a row of diffs makes of it, one after the other.
    pub open spec fn after_all(self, diffs: Seq<NodeDataOrderDiff>) -> Tracking
        decreases diffs.len(),
    {
        if diffs.len() == 0 {
            self
        } else {
            self.after_all(diffs.drop_last()).after(diffs.last())
        }
    }
}

/// The open orders, and the users touched, after a block with the given statuses and diffs.
pub open spec fn block_tracked(
    open: OrdersByUser,
    statuses: Seq<NodeDataOrderStatus>,
    diffs: Seq<NodeDataOrderDiff>,
) -> Tracking {
    (Tracking { open, fresh: fresh_orders(statuses), changed: Set::empty() }).after_all(diffs)
}

/// The open orders with every order of a row put under its user and number, one after the other.
pub open spec fn with_orders(open: OrdersByUser, orders: Seq<InnerL4Order>) -> OrdersByUser
    decreases orders.len(),
{
    if orders.len() == 0 {
        open
    } else {
        let order = orders.last();
        with_order(with_orders(open, orders.drop_last()), order.user, order.oid, order.shown)
    }
}

/// Whether a row holds the coins that have a book, each once.
pub open spec fn lists_once(coins: Seq<Seq<char>>, books: Map<Seq<char>, Snapshot<InnerL4Order>>) -> bool {
    coins.no_duplicates() && coins.to_set() == books.dom()
}

/// The orders of the books of a row of coins: coin by coin, the bids before the asks.
pub open spec fn orders_in(
    coins: Seq<Seq<char>>,
    books: Map<Seq<char>, Snapshot<InnerL4Order>>,
) -> Seq<InnerL4Order>
    decreases coins.len(),
{
    if coins.len() == 0 {
        Seq::empty()
    } else {
        let book = books[coins.last()];
        orders_in(coins.drop_last(), books) + book.bids@ + book.asks@
    }
}

/// Whether an order rests in one of the books.
pub open spec fn rests_in(order: InnerL4Order, books: Map<Seq<char>, Snapshot<InnerL4Order>>) -> bool {
    exists|coin: Seq<char>| #[trigger]
        books.contains_key(coin) && (books[coin].bids@.contains(order) || books[coin].asks@.contains(order))
}

/// Whether numbers stand in strictly increasing order.
pub open spec fn increasing(numbers: Seq<u64>) -> bool {
    forall|i: int, j: int| 0 <= i < j < numbers.len() ==> #[trigger] numbers[i] < #[trigger] numbers[j]
}

/// The numbers of a set in increasing order.
pub open spec fn sorted_numbers(set: Set<u64>) -> Seq<u64> {
    choose|numbers: Seq<u64>| increasing(numbers) && numbers.to_set() == set
}

/// Orders in increasing order of their numbers.
pub open spec fn orders_in_row(orders: Map<u64, L4Order>) -> Seq<L4Order> {
    sorted_numbers(orders.dom()).map_values(|oid: u64| orders[oid])
}

/// Two increasing rows of the same numbers are the same row.
proof fn lemma_sorted_once(a: Seq<u64>, b: Seq<u64>)
    requires
        increasing(a),
        increasing(b),
        a.to_set() == b.to_set(),
    ensures
        a == b,
    decreases a.len(),
{
    assert(forall|x: u64| a.contains(x) <==> a.to_set().contains(x));
    assert(forall|x: u64| b.contains(x) <==> b.to_set().contains(x));
    if a.len() == 0 {
        if b.len() > 0 {
            assert(b.contains(b[0]));
        }
        assert(a =~= b);
    } else if b.len() == 0 {
        assert(a.contains(a[0]));
    } else {
        let x = a.last();
        let y = b.last();
        assert(b.contains(x) && a.contains(y)) by {
            assert(a.contains(a[a.len() - 1]));
            assert(b.contains(b[b.len() - 1]));
        }
        let i = choose|i: int| 0 <= i < b.len() && b[i] == x;
        let j = choose|j: int| 0 <= j < a.len() && a[j] == y;
        assert(x <= y && y <= x);
        let s = a.drop_last();
        let t = b.drop_last();
        assert forall|z: u64| s.to_set().contains(z) <==> t.to_set().contains(z) by {
            if s.contains(z) {
                let k = choose|k: int| 0 <= k < s.len() && s[k] == z;
                assert(a[k] == z && a[k] < a[a.len() - 1]);
                assert(a.contains(z));
                let m = choose|m: int| 0 <= m < b.len() && b[m] == z;
                assert(t[m] == z);
            }
            if t.contains(z) {
                let k = choose|k: int| 0 <= k < t.len() && t[k] == z;
                assert(b[k] == z && b[k] < b[b.len() - 1]);
                assert(b.contains(z));
                let m = choose|m: int| 0 <= m < a.len() && a[m] == z;
                assert(s[m] == z);
            }
        }
        assert(s.to_set() =~= t.to_set());
        lemma_sorted_once(s, t);
        assert(a =~= s.push(x));
        assert(b =~= t.push(y));
    }
}

/// Every user's open orders.
pub struct OpenOrders {
    users: AddressMap<BTreeMap<u64, L4Order>>,
}

impl View for OpenOrders {
    type V = OrdersByUser;

    closed spec fn view(&self) -> OrdersByUser {
        self.users@.map_values(|orders: BTreeMap<u64, L4Order>| orders@)
    }
}

/// A row of map keys in the order of a walk through the map is increasing.
proof fn lemma_increasing(numbers: Seq<u64>)
    requires
        vstd::std_specs::btree::increasing_seq(numbers),
    ensures
        increasing(numbers),
{
    broadcast use vstd::laws_cmp::group_laws_cmp;
    broadcast use vstd::std_specs::btree::group_btree_axioms;

    assert(vstd::laws_cmp::obeys_cmp::<u64>());
    assert forall|i: int, j: int| 0 <= i < j < numbers.len() implies #[trigger] numbers[i] < #[trigger] numbers[j] by {
        assert(vstd::std_specs::cmp::OrdSpec::cmp_spec(&numbers[i], &numbers[j]) is Less);
    }
}

/// The orders of a map, in increasing order of their numbers.
fn list_orders(orders: &BTreeMap<u64, L4Order>) -> (row: Vec<L4Order>)
    ensures
        row@ == orders_in_row(orders@),
{
    let mut row: Vec<L4Order> = Vec::new();
    let ghost mut oids: Seq<u64> = Seq::empty();
    let entries = orders.iter();
    let ghost pairs = vstd::std_specs::iter::IteratorSpec::remaining(&entries);
    let ghost all = pairs.map_values(|entry: (&u64, &L4Order)| *entry.0);
    proof {
        assert(vstd::std_specs::btree::increasing_seq(all));
        lemma_increasing(all);
        assert forall|n: u64| all.to_set().contains(n) <==> orders@.dom().contains(n) by {
            if orders@.contains_key(n) {
                assert(pairs.contains((&n, &orders@[n])));
                let i = choose|i: int| 0 <= i < pairs.len() && pairs[i] == (&n, &orders@[n]);
                assert(all[i] == n);
            }
            if all.contains(n) {
                let i = choose|i: int| 0 <= i < all.len() && all[i] == n;
                assert(orders@.contains_key(*pairs[i].0));
            }
        }
        assert(all.to_set() =~= orders@.dom());
    }
    for entry in it: entries
        invariant
            all == it.seq().map_values(|entry: (&u64, &L4Order)| *entry.0),
            forall|i: int| 0 <= i < it.seq().len() ==> *(#[trigger] it.seq()[i]).1 == orders@[*it.seq()[i].0],
            oids == all.take(it.index() as int),
            row@ == oids.map_values(|n: u64| orders@[n]),
    {
        row.push(entry.1.clone());
        proof {
            oids = oids.push(*entry.0);
            assert(oids =~= all.take(it.index() + 1));
        }
        assert(row@ =~= oids.map_values(|n: u64| orders@[n]));
    }
    proof {
        assert(oids =~= all);
        lemma_sorted_once(all, sorted_numbers(orders@.dom()));
    }
    row
}

impl OpenOrders {
    /// No open orders.
    pub fn new() -> (open: OpenOrders)
        ensures
            open@ == OrdersByUser::empty(),
    {
        let open = OpenOrders { users: AddressMap::new() };
        assert(open@ =~= OrdersByUser::empty());
        open
    }

    /// The user's open orders, in increasing order of their numbers.
    pub fn get_open_orders(&self, user: &Address) -> (row: Vec<L4Order>)
        ensures
            row@ == orders_in_row(orders_of(self@, *user)),
    {
        match self.users.get(user) {
            Some(orders) => list_orders(orders),
            None => list_orders(&BTreeMap::new()),
        }
    }

    /// The users that are listed, each once.
    pub fn users(&self) -> (users: Vec<Address>)
        ensures
            users@.no_duplicates(),
            users@.to_set() == self@.dom(),
    {
        let users = self.users.keys();
        assert(users@.to_set() =~= self@.dom());
        users
    }

    /// Puts an order under its user and number.
    fn put(&mut self, user: Address, oid: u64, order: L4Order)
        ensures
            final(self)@ == with_order(old(self)@, user, oid, order),
    {
        let mut orders = match self.users.remove(&user) {
            Some(orders) => orders,
            None => BTreeMap::new(),
        };
        orders.insert(oid, order);
        let ghost now = orders@;
        self.users.insert(user, orders);
        assert(now =~= orders_of(old(self)@, user).insert(oid, order));
        assert(self@ =~= with_order(old(self)@, user, oid, order));
    }

    /// Takes an order out, and the user with it where no order is left.
    fn take(&mut self, user: Address, oid: u64) -> (taken: Option<L4Order>)
        ensures
            taken is Some <==> orders_of(old(self)@, user).contains_key(oid),
            taken matches Some(order) ==> {
                &&& order == orders_of(old(self)@, user)[oid]
                &&& final(self)@ == without_order(old(self)@, user, oid)
            },
            taken is None ==> final(self)@ == old(self)@,
    {
        match self.users.remove(&user) {
            Some(mut orders) => {
                let ghost before = orders@;
                assert(before == orders_of(old(self)@, user));
                let taken = orders.remove(&oid);
                let ghost left = orders@;
                if !orders.is_empty() || taken.is_none() {
                    self.users.insert(user, orders);
                }
                proof {
                    if taken is Some {
                        assert(left =~= orders_of(old(self)@, user).remove(oid));
                        assert(self@ =~= without_order(old(self)@, user, oid));
                    } else {
                        assert(left =~= before);
                        assert(self@ =~= old(self)@);
                    }
                }
                taken
            },
            None => {
                assert(self@ =~= old(self)@);
                None
            },
        }
    }

    /// Puts every order of one side of a book under its user and number.
    fn load(&mut self, orders: &Vec<InnerL4Order>)
        ensures
            final(self)@ == with_orders(old(self)@, orders@),
    {
        let mut i: usize = 0;
        assert(orders@.take(0) =~= Seq::<InnerL4Order>::empty());
        while i < orders.len()
            invariant
                i <= orders@.len(),
                self@ == with_orders(old(self)@, orders@.take(i as int)),
            decreases orders@.len() - i,
        {
            let order = &orders[i];
            self.put(order.user, order.oid, order.shown.clone());
            i = i + 1;
            assert(orders@.take(i as int).drop_last() =~= orders@.take(i - 1));
        }
        assert(orders@.take(i as int) =~= orders@);
    }

    /// Starts over from the books of a snapshot. Where two orders in them have the same user and
    /// number, the one that is read last stands; the coins are read in some order.
    pub fn reload(&mut self, snapshot: &CoinMap<Snapshot<InnerL4Order>>)
        ensures
            exists|coins: Seq<Seq<char>>| #[trigger]
                lists_once(coins, snapshot@) && final(self)@ == with_orders(
                    OrdersByUser::empty(),
                    orders_in(coins, snapshot@),
                ),
    {
        self.users = AddressMap::new();
        assert(self@ =~= OrdersByUser::empty());
        let coins = snapshot.keys();
        let ghost names = coins@.map_values(|coin: String| coin@);
        let mut i: usize = 0;
        assert(names.take(0) =~= Seq::<Seq<char>>::empty());
        proof {
            assert forall|name: Seq<char>| names.to_set().contains(name) <==> snapshot@.dom().contains(name) by {
                if names.contains(name) {
                    let k = choose|k: int| 0 <= k < names.len() && names[k] == name;
                    assert(coins@[k]@ == name);
                    assert(snapshot@.contains_key(name));
                }
                if snapshot@.contains_key(name) {
                    let k = choose|k: int| 0 <= k < coins@.len() && (#[trigger] coins@[k])@ == name;
                    assert(names[k] == name);
                }
            }
            assert(names.to_set() =~= snapshot@.dom());
            assert forall|k: int, m: int| 0 <= k < names.len() && 0 <= m < names.len() && k != m implies names[k]
                != names[m] by {
                if k < m {
                    assert(coins@[k]@ != coins@[m]@);
                } else {
                    assert(coins@[m]@ != coins@[k]@);
                }
            }
            assert(lists_once(names, snapshot@));
        }
        while i < coins.len()
            invariant
                i <= coins@.len(),
                names == coins@.map_values(|coin: String| coin@),
                names.to_set() == snapshot@.dom(),
                self@ == with_orders(OrdersByUser::empty(), orders_in(names.take(i as int), snapshot@)),
            decreases coins@.len() - i,
        {
            let ghost earlier = orders_in(names.take(i as int), snapshot@);
            proof {
                assert(names[i as int] == coins@[i as int]@);
                assert(names.contains(names[i as int]));
                assert(names.to_set().contains(names[i as int]));
                assert(names.take(i + 1).drop_last() =~= names.take(i as int));
            }
            match snapshot.get(&coins[i]) {
                Some(book) => {
                    self.load(&book.bids);
                    self.load(&book.asks);
                    proof {
                        lemma_rows_join(OrdersByUser::empty(), earlier, book.bids@);
                        lemma_rows_join(OrdersByUser::empty(), earlier + book.bids@, book.asks@);
                    }
                },
                None => {},
            }
            i = i + 1;
        }
        assert(names.take(i as int) =~= names);
    }

    /// Brings the open orders up to date with one block, and returns the users whose open orders
    /// it touched, each once.
    pub fn update_open_orders(
        &mut self,
        statuses: &[NodeDataOrderStatus],
        diffs: &[NodeDataOrderDiff],
    ) -> (changed: Vec<Address>)
        ensures
            final(self)@ == block_tracked(old(self)@, statuses@, diffs@).open,
            changed@.to_set() == block_tracked(old(self)@, statuses@, diffs@).changed,
            changed@.no_duplicates(),
    {
        let mut fresh = collect_fresh(statuses);
        let mut changed: Vec<Address> = Vec::new();
        let ghost start = Tracking {
            open: self@,
            fresh: fresh_orders(statuses@),
            changed: Set::<Address>::empty(),
        };
        let mut i: usize = 0;
        proof {
            assert(diffs@.take(0) =~= Seq::<NodeDataOrderDiff>::empty());
            assert(changed@.to_set() =~= Set::<Address>::empty());
        }
        while i < diffs.len()
            invariant
                i <= diffs@.len(),
                ({
                    let now = start.after_all(diffs@.take(i as int));
                    &&& self@ == now.open
                    &&& indexed(fresh@, statuses@) == now.fresh
                    &&& in_range(fresh@, statuses@)
                    &&& changed@.to_set() == now.changed
                }),
                changed@.no_duplicates(),
            decreases diffs@.len() - i,
        {
            let diff = &diffs[i];
            let ghost now = start.after_all(diffs@.take(i as int));
            let ghost next = now.after(*diff);
            proof {
                assert(diffs@.take(i + 1).drop_last() =~= diffs@.take(i as int));
            }
            let oid: u64 = diff.raw_oid();
            let user = diff.user();
            match &diff.raw_book_diff {
                OrderDiff::New { sz } => {
                    let ghost known = fresh@;
                    match fresh.remove(&oid) {
                        Some(place) => {
                            let status = &statuses[place];
                            assert(*status == now.fresh[oid]);
                            let mut order = status.order.clone();
                            order.user = Some(status.user);
                            order.sz = sz.clone();
                            assert(order == opened(*status, *sz));
                            self.put(status.user, oid, order);
                            note(&mut changed, status.user);
                            assert(indexed(fresh@, statuses@) =~= now.fresh.remove(oid));
                        },
                        None => {
                            assert(fresh@ =~= known);
                        },
                    }
                },
                OrderDiff::Update { orig_sz, new_sz } => {
                    match self.take(user, oid) {
                        Some(mut order) => {
                            order.sz = new_sz.clone();
                            self.put(user, oid, order);
                            note(&mut changed, user);
                            proof {
                                lemma_put_back(now.open, user, oid, order);
                            }
                        },
                        None => {},
                    }
                },
                OrderDiff::Remove => {
                    if self.take(user, oid).is_some() {
                        note(&mut changed, user);
                    }
                },
            }
            i = i + 1;
            assert(self@ == next.open);
            assert(changed@.to_set() == next.changed);
        }
        assert(diffs@.take(i as int) =~= diffs@);
        changed
    }
}

/// Putting two rows of orders one after the other is putting the joined row.
proof fn lemma_rows_join(open: OrdersByUser, first: Seq<InnerL4Order>, second: Seq<InnerL4Order>)
    ensures
        with_orders(with_orders(open, first), second) == with_orders(open, first + second),
    decreases second.len(),
{
    if second.len() == 0 {
        assert(first + second =~= first);
    } else {
        lemma_rows_join(open, first, second.drop_last());
        assert((first + second).drop_last() =~= first + second.drop_last());
    }
}

/// Taking an order out and putting another in its place is the same as putting the other over it.
proof fn lemma_put_back(open: OrdersByUser, user: Address, oid: u64, order: L4Order)
    ensures
        with_order(without_order(open, user, oid), user, oid, order) == with_order(open, user, oid, order),
{
    let left = without_order(open, user, oid);
    assert(orders_of(left, user).insert(oid, order) =~= orders_of(open, user).insert(oid, order)) by {
        assert(orders_of(left, user) =~= orders_of(open, user).remove(oid));
    }
    assert(with_order(left, user, oid, order) =~= with_order(open, user, oid, order));
}

/// The statuses that places in a row of statuses stand for.
spec fn indexed(places: Map<u64, usize>, statuses: Seq<NodeDataOrderStatus>) -> Map<u64, NodeDataOrderStatus> {
    places.map_values(|place: usize| statuses[place as int])
}

/// Whether every place is in the row.
spec fn in_range(places: Map<u64, usize>, statuses: Seq<NodeDataOrderStatus>) -> bool {
    forall|oid: u64| #[trigger] places.contains_key(oid) ==> places[oid] < statuses.len()
}

/// The places of the orders that entered the book, by order number.
fn collect_fresh(statuses: &[NodeDataOrderStatus]) -> (places: HashMap<u64, usize>)
    ensures
        indexed(places@, statuses@) == fresh_orders(statuses@),
        in_range(places@, statuses@),
{
    let mut places: HashMap<u64, usize> = HashMap::new();
    let mut i: usize = 0;
    proof {
        assert(statuses@.take(0) =~= Seq::<NodeDataOrderStatus>::empty());
        assert(indexed(places@, statuses@) =~= Map::<u64, NodeDataOrderStatus>::empty());
    }
    while i < statuses.len()
        invariant
            i <= statuses@.len(),
            indexed(places@, statuses@) == fresh_orders(statuses@.take(i as int)),
            in_range(places@, statuses@),
        decreases statuses@.len() - i,
    {
        let ghost before = fresh_orders(statuses@.take(i as int));
        let ghost known = places@;
        proof {
            assert(statuses@.take(i + 1).drop_last() =~= statuses@.take(i as int));
        }
        if statuses[i].is_inserted_into_book() {
            places.insert(statuses[i].order.oid, i);
            assert(places@ == known.insert(statuses@[i as int].order.oid, i));
            assert(indexed(places@, statuses@) =~= before.insert(
                statuses@[i as int].order.oid,
                statuses@[i as int],
            ));
        }
        i = i + 1;
    }
    assert(statuses@.take(i as int) =~= statuses@);
    places
}

/// Adds a user to a list, where the list does not have it yet.
fn note(users: &mut Vec<Address>, user: Address)
    requires
        old(users)@.no_duplicates(),
    ensures
        final(users)@.no_duplicates(),
        final(users)@.to_set() == old(users)@.to_set().insert(user),
{
    let mut i: usize = 0;
    while i < users.len()
        invariant
            i <= users@.len(),
            users@ == old(users)@,
            users@.no_duplicates(),
            forall|j: int| 0 <= j < i ==> users@[j] != user,
        decreases users@.len() - i,
    {
        if users[i] == user {
            proof {
                assert(users@.contains(user));
                assert(users@.to_set() =~= old(users)@.to_set().insert(user));
            }
            return;
        }
        i = i + 1;
    }
    users.push(user);
    proof {
        let now = users@;
        assert(now == old(users)@.push(user));
        assert forall|a: Address| now.to_set().contains(a) <==> old(users)@.to_set().insert(user).contains(a) by {
            if now.contains(a) {
                let k = choose|k: int| 0 <= k < now.len() && now[k] == a;
                if k < old(users)@.len() {
                    assert(old(users)@[k] == a);
                }
            }
            if old(users)@.contains(a) {
                let k = choose|k: int| 0 <= k < old(users)@.len() && old(users)@[k] == a;
                assert(now[k] == a);
            }
            assert(now[now.len() - 1] == user);
        }
        assert(now.to_set() =~= old(users)@.to_set().insert(user));
    }
}

} // verus!
