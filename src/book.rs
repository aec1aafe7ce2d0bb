//! The order book replica: two price-ordered sides mapping price to size.

use std::collections::BTreeMap;
use vstd::std_specs::btree::increasing_seq;
use vstd::std_specs::cmp::OrdSpec;
use vstd::std_specs::iter::IteratorSpec;
use crate::decimal::chars_of;
use vstd::prelude::*;

verus! {

/// One price level: a price and the size resting at it, both in 10^-8 units.
#[derive(Clone, Copy, Debug, PartialEq, Eq, Structural)]
pub struct PriceData {
    pub price: u64,
    pub size: u64,
}

/// Side of the book that a level belongs to.
#[derive(Clone, Copy, Debug, PartialEq, Eq, Structural)]
pub enum Side {
    /// The buy side; its best level has the highest price.
    Bid,
    /// The sell side; its best level has the lowest price.
    Ask,
}

/// One entry of an incremental update: a side label (`"buy"` or `"sell"`),
/// a price and the new size there (zero removes the level).
#[derive(Clone, Debug, PartialEq, Eq)]
pub struct PriceDataWithSide {
    pub side: String,
    pub price: u64,
    pub size: u64,
}

/// A full snapshot of both sides for one instrument.
#[derive(Clone, Debug, PartialEq, Eq)]
pub struct SnapshotData {
    pub product_id: String,
    pub bids: Vec<PriceData>,
    pub asks: Vec<PriceData>,
}

/// An incremental update for one instrument: changes to apply in order.
#[derive(Clone, Debug, PartialEq, Eq)]
pub struct L2UpdateData {
    pub product_id: String,
    pub changes: Vec<PriceDataWithSide>,
}

/// The side that a label names: `"buy"` is the bid side, `"sell"` the ask
/// side; any other label names none.
pub open spec fn side_of_label(s: Seq<char>) -> Option<Side> {
    if s == seq!['b', 'u', 'y'] {
        Some(Side::Bid)
    } else if s == seq!['s', 'e', 'l', 'l'] {
        Some(Side::Ask)
    } else {
        None
    }
}

/// A side after setting the level at `price` to `size`: a zero size removes
/// the level, any other size inserts or overwrites it.
pub open spec fn level_set(m: Map<u64, u64>, price: u64, size: u64) -> Map<u64, u64> {
    if size == 0 {
        m.remove(price)
    } else {
        m.insert(price, size)
    }
}

/// Both sides `(bids, asks)` after one change on `side`.
pub open spec fn sides_set(
    bids: Map<u64, u64>,
    asks: Map<u64, u64>,
    side: Side,
    price: u64,
    size: u64,
) -> (Map<u64, u64>, Map<u64, u64>) {
    match side {
        Side::Bid => (level_set(bids, price, size), asks),
        Side::Ask => (bids, level_set(asks, price, size)),
    }
}

/// An incremental entry as plain values: side label, price, size.
pub open spec fn change_view(c: PriceDataWithSide) -> (Seq<char>, u64, u64) {
    (c.side@, c.price, c.size)
}

pub open spec fn change_views(cs: Seq<PriceDataWithSide>) -> Seq<(Seq<char>, u64, u64)> {
    cs.map_values(|c: PriceDataWithSide| change_view(c))
}

/// Both sides after one incremental entry; an entry whose side label is not
/// recognised leaves them as they are.
pub open spec fn sides_after_change(
    bids: Map<u64, u64>,
    asks: Map<u64, u64>,
    c: (Seq<char>, u64, u64),
) -> (Map<u64, u64>, Map<u64, u64>) {
    match side_of_label(c.0) {
        Some(side) => sides_set(bids, asks, side, c.1, c.2),
        None => (bids, asks),
    }
}

/// Both sides after the entries of `cs`, applied in order.
pub open spec fn sides_after_changes(
    bids: Map<u64, u64>,
    asks: Map<u64, u64>,
    cs: Seq<(Seq<char>, u64, u64)>,
) -> (Map<u64, u64>, Map<u64, u64>)
    decreases cs.len(),
{
    if cs.len() == 0 {
        (bids, asks)
    } else {
        let (b, a) = sides_after_changes(bids, asks, cs.drop_last());
        sides_after_change(b, a, cs.last())
    }
}

/// How many entries of `cs` carry a side label that is not recognised.
pub open spec fn unrecognized_count(cs: Seq<(Seq<char>, u64, u64)>) -> nat
    decreases cs.len(),
{
    if cs.len() == 0 {
        0
    } else {
        unrecognized_count(cs.drop_last()) + if side_of_label(cs.last().0) is None {
            1nat
        } else {
            0nat
        }
    }
}

/// A side built from snapshot levels in order: a later level at a price
/// replaces an earlier one.
pub open spec fn levels_of(s: Seq<PriceData>) -> Map<u64, u64>
    decreases s.len(),
{
    if s.len() == 0 {
        Map::empty()
    } else {
        levels_of(s.drop_last()).insert(s.last().price, s.last().size)
    }
}

/// Reads a side label: `Some(Side::Bid)` for `"buy"`, `Some(Side::Ask)` for
/// `"sell"`, `None` for anything else.
pub fn side_from_label(label: &str) -> (r: Option<Side>)
    ensures
        r == side_of_label(label@),
{
    let c = chars_of(label);
    if c.len() == 3 && c[0] == 'b' && c[1] == 'u' && c[2] == 'y' {
        assert(c@ =~= seq!['b', 'u', 'y']);
        Some(Side::Bid)
    } else if c.len() == 4 && c[0] == 's' && c[1] == 'e' && c[2] == 'l' && c[3] == 'l' {
        assert(c@ =~= seq!['s', 'e', 'l', 'l']);
        Some(Side::Ask)
    } else {
        assert(c@ != seq!['b', 'u', 'y']) by {
            if c@ == seq!['b', 'u', 'y'] {
                assert(c@[0] == 'b' && c@[1] == 'u' && c@[2] == 'y');
            }
        }
        assert(c@ != seq!['s', 'e', 'l', 'l']) by {
            if c@ == seq!['s', 'e', 'l', 'l'] {
                assert(c@[0] == 's' && c@[1] == 'e' && c@[2] == 'l' && c@[3] == 'l');
            }
        }
        None
    }
}

/// `p` is the highest price of side `m`.
pub open spec fn is_top_price(m: Map<u64, u64>, p: u64) -> bool {
    m.contains_key(p) && forall|k: u64| m.contains_key(k) ==> k <= p
}

/// `p` is the lowest price of side `m`.
pub open spec fn is_bottom_price(m: Map<u64, u64>, p: u64) -> bool {
    m.contains_key(p) && forall|k: u64| m.contains_key(k) ==> p <= k
}

/// The highest level of a side, if it has any.
pub open spec fn top_level(m: Map<u64, u64>) -> Option<(u64, u64)> {
    if exists|p: u64| is_top_price(m, p) {
        let p = choose|p: u64| is_top_price(m, p);
        Some((p, m[p]))
    } else {
        None
    }
}

/// The lowest level of a side, if it has any.
pub open spec fn bottom_level(m: Map<u64, u64>) -> Option<(u64, u64)> {
    if exists|p: u64| is_bottom_price(m, p) {
        let p = choose|p: u64| is_bottom_price(m, p);
        Some((p, m[p]))
    } else {
        None
    }
}

/// Mid-point of the best bid and best ask prices, rounded down to a unit;
/// `None` when a side is empty or the book is crossed.
pub open spec fn mid_of(bid: Option<(u64, u64)>, ask: Option<(u64, u64)>) -> Option<u64> {
    match (bid, ask) {
        (Some(b), Some(a)) => if b.0 <= a.0 {
            Some(((b.0 + a.0) / 2) as u64)
        } else {
            None
        },
        _ => None,
    }
}

/// The spread `(ask - bid) / ask` as a fraction in 10^-8 units, rounded down;
/// `None` when a side is empty, the book is crossed, or the ask price is zero.
pub open spec fn spread_of(bid: Option<(u64, u64)>, ask: Option<(u64, u64)>) -> Option<u64> {
    match (bid, ask) {
        (Some(b), Some(a)) => if b.0 <= a.0 && a.0 > 0 {
            Some(((a.0 - b.0) * 100_000_000 / a.0 as int) as u64)
        } else {
            None
        },
        _ => None,
    }
}

/// `s` lists exactly the levels of `m`: each entry is a level of `m`, and each
/// price of `m` has an entry.
pub open spec fn lists_levels(s: Seq<PriceData>, m: Map<u64, u64>) -> bool {
    &&& forall|i: int|
        0 <= i < s.len() ==> m.contains_key(#[trigger] s[i].price) && m[s[i].price] == s[i].size
    &&& forall|p: u64| m.contains_key(p) ==> exists|i: int| 0 <= i < s.len() && #[trigger] s[i].price == p
}

/// Prices rise strictly along `s`.
pub open spec fn strictly_ascending(s: Seq<PriceData>) -> bool {
    forall|i: int, j: int| 0 <= i < j < s.len() ==> s[i].price < s[j].price
}

/// Prices fall strictly along `s`.
pub open spec fn strictly_descending(s: Seq<PriceData>) -> bool {
    forall|i: int, j: int| 0 <= i < j < s.len() ==> s[i].price > s[j].price
}

/// The levels of `m` in ascending price order.
fn ascending_levels(m: &BTreeMap<u64, u64>) -> (r: Vec<PriceData>)
    ensures
        lists_levels(r@, m@),
        strictly_ascending(r@),
{
    let mut r: Vec<PriceData> = Vec::new();
    let iter = m.iter();
    let ghost keys = iter.remaining().map_values(|kv: (&u64, &u64)| *kv.0);
    assert(increasing_seq(keys));
    for (k, v) in it: iter
        invariant
            r@.len() == it.index(),
            it.seq() == iter.remaining(),
            keys == iter.remaining().map_values(|kv: (&u64, &u64)| *kv.0),
            increasing_seq(keys),
            forall|i: int|
                0 <= i < r@.len() ==> r@[i].price == *it.seq()[i].0 && r@[i].size
                    == *it.seq()[i].1,
    {
        r.push(PriceData { price: *k, size: *v });
    }
    proof {
        assert forall|i: int, j: int| 0 <= i < j < r@.len() implies r@[i].price < r@[j].price by {
            assert(keys[i] == r@[i].price && keys[j] == r@[j].price);
            assert(keys[i].cmp_spec(&keys[j]) is Less);
        }
    }
    r
}

/// Reverses a list of levels.
fn reversed(s: &Vec<PriceData>) -> (r: Vec<PriceData>)
    ensures
        r@ == s@.reverse(),
{
    let mut r: Vec<PriceData> = Vec::new();
    let mut i: usize = s.len();
    while i > 0
        invariant
            i <= s.len(),
            r@ == s@.subrange(i as int, s.len() as int).reverse(),
        decreases i,
    {
        i = i - 1;
        r.push(s[i]);
        assert(r@ =~= s@.subrange(i as int, s.len() as int).reverse());
    }
    assert(s@.subrange(0, s.len() as int) =~= s@);
    r
}

/// Relies on `BTreeMap::last_key_value`: the entry with the greatest key,
/// or `None` for an empty map.
#[verifier::external_body]
fn last_level(m: &BTreeMap<u64, u64>) -> (r: Option<(u64, u64)>)
    ensures
        match r {
            Some((k, v)) => m@.contains_key(k) && m@[k] == v && forall|j: u64|
                m@.contains_key(j) ==> j <= k,
            None => forall|j: u64| !m@.contains_key(j),
        },
{
    m.last_key_value().map(|(k, v)| (*k, *v))
}

/// Relies on `BTreeMap::first_key_value`: the entry with the least key,
/// or `None` for an empty map.
#[verifier::external_body]
fn first_level(m: &BTreeMap<u64, u64>) -> (r: Option<(u64, u64)>)
    ensures
        match r {
            Some((k, v)) => m@.contains_key(k) && m@[k] == v && forall|j: u64|
                m@.contains_key(j) ==> k <= j,
            None => forall|j: u64| !m@.contains_key(j),
        },
{
    m.first_key_value().map(|(k, v)| (*k, *v))
}

/// A price-level order book with a bid side and an ask side.
pub struct Book {
    bids: BTreeMap<u64, u64>,
    asks: BTreeMap<u64, u64>,
}

impl Book {
    /// The bid side, price to size.
    pub closed spec fn bid_levels(&self) -> Map<u64, u64> {
        self.bids@
    }

    /// The ask side, price to size.
    pub closed spec fn ask_levels(&self) -> Map<u64, u64> {
        self.asks@
    }

    /// An empty book.
    pub fn new() -> (r: Book)
        ensures
            r.bid_levels() == Map::<u64, u64>::empty(),
            r.ask_levels() == Map::<u64, u64>::empty(),
    {
        Book { bids: BTreeMap::new(), asks: BTreeMap::new() }
    }

    /// Replaces both sides with the levels of a snapshot, taken verbatim in
    /// order (a later level at a price replaces an earlier one).
    #[allow(non_snake_case)]
    pub fn UpdateFullBook(&mut self, data: SnapshotData)
        ensures
            final(self).bid_levels() == levels_of(data.bids@),
            final(self).ask_levels() == levels_of(data.asks@),
    {
        self.bids.clear();
        self.asks.clear();
        for i in 0..data.bids.len()
            invariant
                self.bids@ == levels_of(data.bids@.subrange(0, i as int)),
                self.asks@ == Map::<u64, u64>::empty(),
        {
            assert(data.bids@.subrange(0, i + 1).drop_last() =~= data.bids@.subrange(0, i as int));
            self.bids.insert(data.bids[i].price, data.bids[i].size);
        }
        assert(data.bids@.subrange(0, data.bids.len() as int) =~= data.bids@);
        for i in 0..data.asks.len()
            invariant
                self.asks@ == levels_of(data.asks@.subrange(0, i as int)),
                self.bids@ == levels_of(data.bids@),
        {
            assert(data.asks@.subrange(0, i + 1).drop_last() =~= data.asks@.subrange(0, i as int));
            self.asks.insert(data.asks[i].price, data.asks[i].size);
        }
        assert(data.asks@.subrange(0, data.asks.len() as int) =~= data.asks@);
    }

    /// Applies one change on `side`: a zero size removes the level at `price`
    /// (nothing happens if there is none), any other size inserts the level or
    /// overwrites its size.
    pub fn apply_change(&mut self, side: Side, price: u64, size: u64)
        ensures
            (final(self).bid_levels(), final(self).ask_levels()) == sides_set(
                old(self).bid_levels(),
                old(self).ask_levels(),
                side,
                price,
                size,
            ),
    {
        match side {
            Side::Bid => {
                if size == 0 {
                    self.bids.remove(&price);
                } else {
                    self.bids.insert(price, size);
                }
            },
            Side::Ask => {
                if size == 0 {
                    self.asks.remove(&price);
                } else {
                    self.asks.insert(price, size);
                }
            },
        }
    }

    /// Applies the changes of an incremental update in order. An entry whose
    /// side label is neither `"buy"` nor `"sell"` is skipped and the rest of
    /// the batch still applies; returns how many entries were skipped.
    #[allow(non_snake_case)]
    pub fn UpdateBook(&mut self, data: L2UpdateData) -> (skipped: usize)
        ensures
            (final(self).bid_levels(), final(self).ask_levels()) == sides_after_changes(
                old(self).bid_levels(),
                old(self).ask_levels(),
                change_views(data.changes@),
            ),
            skipped == unrecognized_count(change_views(data.changes@)),
    {
        let ghost b0 = self.bids@;
        let ghost a0 = self.asks@;
        let mut skipped: usize = 0;
        for i in 0..data.changes.len()
            invariant
                (self.bids@, self.asks@) == sides_after_changes(
                    b0,
                    a0,
                    change_views(data.changes@.subrange(0, i as int)),
                ),
                skipped == unrecognized_count(change_views(data.changes@.subrange(0, i as int))),
                skipped <= i,
        {
            let ghost prefix = change_views(data.changes@.subrange(0, i + 1));
            assert(prefix.drop_last() =~= change_views(data.changes@.subrange(0, i as int)));
            let item = &data.changes[i];
            match side_from_label(item.side.as_str()) {
                Some(side) => self.apply_change(side, item.price, item.size),
                None => {
                    skipped = skipped + 1;
                },
            }
        }
        assert(data.changes@.subrange(0, data.changes.len() as int) =~= data.changes@);
        skipped
    }

    /// Both sides for display: bids from best to worst (descending price)
    /// and asks from best to worst (ascending price).
    pub fn dump(&self) -> (r: (Vec<PriceData>, Vec<PriceData>))
        ensures
            lists_levels(r.0@, self.bid_levels()),
            strictly_descending(r.0@),
            lists_levels(r.1@, self.ask_levels()),
            strictly_ascending(r.1@),
    {
        let up = ascending_levels(&self.bids);
        let bids = reversed(&up);
        proof {
            let n = up@.len();
            assert forall|i: int| 0 <= i < n implies #[trigger] bids@[i] == up@[n - 1 - i] by {}
            assert forall|p: u64| self.bids@.contains_key(p) implies exists|i: int|
                0 <= i < bids@.len() && #[trigger] bids@[i].price == p by {
                let j = choose|j: int| 0 <= j < up@.len() && #[trigger] up@[j].price == p;
                assert(bids@[n - 1 - j] == up@[j]);
            }
            assert forall|i: int, j: int| 0 <= i < j < bids@.len() implies bids@[i].price
                > bids@[j].price by {
                assert(bids@[i] == up@[n - 1 - i] && bids@[j] == up@[n - 1 - j]);
            }
        }
        let asks = ascending_levels(&self.asks);
        (bids, asks)
    }

    /// The size resting at `price` on `side`, or `None` when there is no
    /// level there.
    pub fn size_at(&self, side: Side, price: u64) -> (r: Option<u64>)
        ensures
            r == (match side {
                Side::Bid => if self.bid_levels().contains_key(price) {
                    Some(self.bid_levels()[price])
                } else {
                    None
                },
                Side::Ask => if self.ask_levels().contains_key(price) {
                    Some(self.ask_levels()[price])
                } else {
                    None
                },
            }),
    {
        let m = match side {
            Side::Bid => &self.bids,
            Side::Ask => &self.asks,
        };
        match m.get(&price) {
            Some(v) => Some(*v),
            None => None,
        }
    }

    /// The number of levels on `side`.
    pub fn level_count(&self, side: Side) -> (r: usize)
        ensures
            r == (match side {
                Side::Bid => self.bid_levels().len(),
                Side::Ask => self.ask_levels().len(),
            }),
    {
        match side {
            Side::Bid => self.bids.len(),
            Side::Ask => self.asks.len(),
        }
    }

    /// The highest-priced bid level as `(price, size)`, or `None` when the
    /// bid side is empty.
    #[allow(non_snake_case)]
    pub fn BestBidPrice(&self) -> (r: Option<(u64, u64)>)
        ensures
            r == top_level(self.bid_levels()),
    {
        let r = last_level(&self.bids);
        proof {
            if let Some((p, _)) = r {
                assert(is_top_price(self.bids@, p));
                let q = choose|q: u64| is_top_price(self.bids@, q);
                assert(q <= p && p <= q);
            }
        }
        r
    }

    /// The lowest-priced ask level as `(price, size)`, or `None` when the
    /// ask side is empty.
    #[allow(non_snake_case)]
    pub fn BestAskPrice(&self) -> (r: Option<(u64, u64)>)
        ensures
            r == bottom_level(self.ask_levels()),
    {
        let r = first_level(&self.asks);
        proof {
            if let Some((p, _)) = r {
                assert(is_bottom_price(self.asks@, p));
                let q = choose|q: u64| is_bottom_price(self.asks@, q);
                assert(q <= p && p <= q);
            }
        }
        r
    }

    /// The mid-point price `(best_ask + best_bid) / 2`, rounded down to a
    /// unit, when both sides have a level and the best bid does not exceed
    /// the best ask; `None` otherwise.
    #[allow(non_snake_case)]
    pub fn MidPrice(&self) -> (r: Option<u64>)
        ensures
            r == mid_of(top_level(self.bid_levels()), bottom_level(self.ask_levels())),
    {
        match (self.BestBidPrice(), self.BestAskPrice()) {
            (Some((b, _)), Some((a, _))) => {
                if b <= a {
                    Some(b + (a - b) / 2)
                } else {
                    None
                }
            },
            _ => None,
        }
    }

    /// The relative spread `(best_ask - best_bid) / best_ask` as a fraction in
    /// 10^-8 units (multiply by 100 for a percentage), rounded down, when both
    /// sides have a level, the best bid does not exceed the best ask and the
    /// best ask is above zero; `None` otherwise.
    #[allow(non_snake_case)]
    pub fn BidAskSpread(&self) -> (r: Option<u64>)
        ensures
            r == spread_of(top_level(self.bid_levels()), bottom_level(self.ask_levels())),
    {
        match (self.BestBidPrice(), self.BestAskPrice()) {
            (Some((b, _)), Some((a, _))) => {
                if b <= a && a > 0 {
                    let diff: u128 = (a - b) as u128;
                    assert(diff * 100_000_000 <= u64::MAX as u128 * 100_000_000)
                        by (nonlinear_arith)
                        requires diff <= u64::MAX;
                    let q: u128 = diff * 100_000_000 / (a as u128);
                    assert(q <= 100_000_000) by (nonlinear_arith)
                        requires q == diff * 100_000_000 / (a as int), diff <= a, a > 0;
                    Some(q as u64)
                } else {
                    None
                }
            },
            _ => None,
        }
    }
}

} // verus!
