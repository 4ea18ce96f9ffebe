//! Prices, coins, and the snapshots of a book.

use crate::address::Address;
use crate::key_map::{CoinMap, KeyMap, MapKey, same_u32, same_u64};
use vstd::prelude::*;

verus! {

/// A price, in the book's smallest unit of price.
#[derive(Clone, Copy, Debug, PartialEq, Eq, Structural)]
pub struct Px {
    pub raw: u64,
}

/// A size, in the book's smallest unit of size.
#[derive(Clone, Copy, Debug, PartialEq, Eq, Structural)]
pub struct Sz {
    pub raw: u64,
}

/// An order's number.
#[derive(Clone, Copy, Debug, PartialEq, Eq, Structural)]
pub struct Oid {
    pub raw: u64,
}

impl Oid {
    /// The order number `raw`.
    pub fn new(raw: u64) -> (oid: Oid)
        ensures
            oid == (Oid { raw }),
    {
        Oid { raw }
    }
}

/// A coin: its name, and whether its market is a spot market.
#[derive(Debug, PartialEq, Eq)]
pub struct Coin {
    pub name: String,
    pub spot: bool,
}

impl Clone for Coin {
    fn clone(&self) -> (copy: Coin)
        ensures
            copy == *self,
    {
        Coin { name: self.name.clone(), spot: self.spot }
    }
}

impl Coin {
    /// The coin of the given name.
    pub fn new(name: &str, spot: bool) -> (coin: Coin)
        ensures
            coin.name@ == name@,
            coin.spot == spot,
    {
        Coin { name: name.to_owned(), spot }
    }

    /// The coin's name.
    pub fn value(self) -> (name: String)
        ensures
            name == self.name,
    {
        self.name
    }

    /// Whether the coin's market is a spot market.
    pub fn is_spot(&self) -> (spot: bool)
        ensures
            spot == self.spot,
    {
        self.spot
    }
}

/// Which side of the book an order or a fill is on.
#[derive(Clone, Copy, Debug, PartialEq, Eq, Structural)]
pub enum Side {
    Ask,
    Bid,
}

/// An order as clients see it. `rest` holds the fields that no rule reads, in the form in which
/// they arrived.
#[derive(Debug, PartialEq, Eq)]
pub struct L4Order {
    pub user: Option<Address>,
    pub oid: u64,
    pub sz: String,
    pub is_trigger: bool,
    pub tif: Option<String>,
    pub rest: String,
}

impl Clone for L4Order {
    fn clone(&self) -> (copy: L4Order)
        ensures
            copy == *self,
    {
        let tif = match &self.tif {
            Some(tif) => Some(tif.clone()),
            None => None,
        };
        L4Order {
            user: self.user,
            oid: self.oid,
            sz: self.sz.clone(),
            is_trigger: self.is_trigger,
            tif,
            rest: self.rest.clone(),
        }
    }
}

/// An order as the book holds it: who placed it, its number, its limit price, and the order that
/// clients are shown for it.
#[derive(Debug, PartialEq, Eq)]
pub struct InnerL4Order {
    pub user: Address,
    pub oid: u64,
    pub limit_px: Px,
    pub shown: L4Order,
}

impl Clone for InnerL4Order {
    fn clone(&self) -> (copy: InnerL4Order)
        ensures
            copy == *self,
    {
        InnerL4Order {
            user: self.user,
            oid: self.oid,
            limit_px: self.limit_px,
            shown: self.shown.clone(),
        }
    }
}

/// One price level: its price, the size that rests there, and the number of orders.
#[derive(Clone, Copy, Debug, PartialEq, Eq, Structural)]
pub struct InnerLevel {
    pub px: Px,
    pub sz: Sz,
    pub n: u64,
}

/// The two sides of a book, each with its best price first.
#[derive(Debug, PartialEq, Eq)]
pub struct Snapshot<O> {
    pub bids: Vec<O>,
    pub asks: Vec<O>,
}

/// The first `n` of a row, or the whole row where it is shorter.
pub open spec fn first_n<T>(row: Seq<T>, n: nat) -> Seq<T> {
    if n < row.len() {
        row.take(n as int)
    } else {
        row
    }
}

/// The first `n` levels of one side.
fn first_levels(levels: &Vec<InnerLevel>, n: usize) -> (kept: Vec<InnerLevel>)
    ensures
        kept@ == first_n(levels@, n as nat),
{
    let mut kept: Vec<InnerLevel> = Vec::new();
    let mut i: usize = 0;
    while i < levels.len() && i < n
        invariant
            i <= levels@.len(),
            i <= n,
            kept@ == levels@.take(i as int),
        decreases levels@.len() - i,
    {
        kept.push(levels[i]);
        i = i + 1;
        assert(kept@ =~= levels@.take(i as int));
    }
    assert(kept@ =~= first_n(levels@, n as nat));
    kept
}

impl Snapshot<InnerLevel> {
    /// The snapshot with at most `n_levels` levels on each side, best first.
    pub fn truncate(&self, n_levels: usize) -> (shorter: Snapshot<InnerLevel>)
        ensures
            shorter.bids@ == first_n(self.bids@, n_levels as nat),
            shorter.asks@ == first_n(self.asks@, n_levels as nat),
    {
        Snapshot { bids: first_levels(&self.bids, n_levels), asks: first_levels(&self.asks, n_levels) }
    }
}

/// Every coin's book, with the time and the block height at which they were taken.
pub struct TimedSnapshots {
    pub time: u64,
    pub height: u64,
    pub snapshot: CoinMap<Snapshot<InnerL4Order>>,
}

/// How the levels of a snapshot are rounded together.
#[derive(Clone, Copy, Debug, PartialEq, Eq)]
pub struct L2SnapshotParams {
    pub n_sig_figs: Option<u32>,
    pub mantissa: Option<u64>,
}

impl L2SnapshotParams {
    /// Rounding to `n_sig_figs` significant figures, in steps of `mantissa`.
    pub fn new(n_sig_figs: Option<u32>, mantissa: Option<u64>) -> (params: L2SnapshotParams)
        ensures
            params.n_sig_figs == n_sig_figs,
            params.mantissa == mantissa,
    {
        L2SnapshotParams { n_sig_figs, mantissa }
    }
}

impl View for L2SnapshotParams {
    type V = L2SnapshotParams;

    open spec fn view(&self) -> L2SnapshotParams {
        *self
    }
}

impl MapKey for L2SnapshotParams {
    fn same_key(&self, other: &L2SnapshotParams) -> (same: bool) {
        same_u32(self.n_sig_figs, other.n_sig_figs) && same_u64(self.mantissa, other.mantissa)
    }

    fn copy_key(&self) -> (copy: L2SnapshotParams) {
        *self
    }
}

/// One coin's levels under each rounding, and whether the coin's market is a spot market.
pub struct CoinLevels {
    pub spot: bool,
    pub levels: KeyMap<L2SnapshotParams, Snapshot<InnerLevel>>,
}

/// Every coin's levels.
pub struct L2Snapshots(pub CoinMap<CoinLevels>);

impl L2Snapshots {
    /// The levels by coin name.
    pub fn as_ref(&self) -> (coins: &CoinMap<CoinLevels>)
        ensures
            *coins == self.0,
    {
        &self.0
    }
}

} // verus!
