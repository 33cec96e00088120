//! One product's book: price levels per side, from a snapshot and ordered updates.
use vstd::prelude::*;

use std::collections::BTreeMap;

use crate::decimal::Decimal;
use crate::feed::message::{
    BaseCurrencyAmount, OrderBookSnapshot, OrderBookUpdate, Product, QuoteCurrencyPrice, Side,
};

verus! {

broadcast use vstd::laws_cmp::group_laws_cmp;

/// The levels that a list of (price, size) pairs gives, in units: each pair sets its
/// price's size, a later pair overwriting an earlier one at the same price.
pub open spec fn levels(s: Seq<(QuoteCurrencyPrice, BaseCurrencyAmount)>) -> Map<u128, u128>
    decreases s.len(),
{
    if s.len() == 0 {
        Map::empty()
    } else {
        levels(s.drop_last()).insert(s.last().0.0@, s.last().1.0@)
    }
}

/// The levels of one side after applying `changes` in order to `m`: a change on that
/// side sets its price's size, a zero size included; changes on the other side leave it.
pub open spec fn apply_changes(
    m: Map<u128, u128>,
    changes: Seq<(Side, QuoteCurrencyPrice, BaseCurrencyAmount)>,
    side: Side,
) -> Map<u128, u128>
    decreases changes.len(),
{
    if changes.len() == 0 {
        m
    } else {
        let prev = apply_changes(m, changes.drop_last(), side);
        let c = changes.last();
        if c.0 == side {
            prev.insert(c.1.0@, c.2.0@)
        } else {
            prev
        }
    }
}

/// An update for another product than the book's.
#[derive(Debug, Clone, Copy, PartialEq, Eq, Structural)]
pub struct ProductMismatch {
    pub book: Product,
    pub update: Product,
}

/// Bid and ask levels of one product, each mapping a price to a size, both in units.
pub struct OrderBook {
    product_id: Product,
    bids: BTreeMap<u128, u128>,
    asks: BTreeMap<u128, u128>,
}

fn levels_map(s: &Vec<(QuoteCurrencyPrice, BaseCurrencyAmount)>) -> (r: BTreeMap<u128, u128>)
    ensures
        r@ == levels(s@),
{
    let mut m: BTreeMap<u128, u128> = BTreeMap::new();
    let mut i: usize = 0;
    while i < s.len()
        invariant
            i <= s@.len(),
            m@ == levels(s@.subrange(0, i as int)),
        decreases s@.len() - i,
    {
        let (price, size) = s[i];
        m.insert(price.0.units(), size.0.units());
        assert(s@.subrange(0, i + 1).drop_last() =~= s@.subrange(0, i as int));
        i = i + 1;
    }
    assert(s@.subrange(0, s@.len() as int) =~= s@);
    m
}

impl OrderBook {
    /// The product of the book.
    pub closed spec fn product(&self) -> Product {
        self.product_id
    }

    /// Bid levels: price units to size units.
    pub closed spec fn bid_levels(&self) -> Map<u128, u128> {
        self.bids@
    }

    /// Ask levels: price units to size units.
    pub closed spec fn ask_levels(&self) -> Map<u128, u128> {
        self.asks@
    }

    /// The book that a snapshot states.
    pub fn from_snapshot(snapshot: &OrderBookSnapshot) -> (r: OrderBook)
        ensures
            r.product() == snapshot.product_id,
            r.bid_levels() == levels(snapshot.bids@),
            r.ask_levels() == levels(snapshot.asks@),
    {
        OrderBook {
            product_id: snapshot.product_id,
            bids: levels_map(&snapshot.bids),
            asks: levels_map(&snapshot.asks),
        }
    }

    /// Applies an update's changes in order. An update for another product is refused
    /// and leaves the book as it was.
    pub fn update(&mut self, update: &OrderBookUpdate) -> (r: Result<(), ProductMismatch>)
        ensures
            old(self).product() != update.product_id ==> {
                &&& r == Err::<(), ProductMismatch>(
                    ProductMismatch { book: old(self).product(), update: update.product_id },
                )
                &&& final(self).product() == old(self).product()
                &&& final(self).bid_levels() == old(self).bid_levels()
                &&& final(self).ask_levels() == old(self).ask_levels()
            },
            old(self).product() == update.product_id ==> {
                &&& r is Ok
                &&& final(self).product() == old(self).product()
                &&& final(self).bid_levels() == apply_changes(
                    old(self).bid_levels(),
                    update.changes@,
                    Side::Buy,
                )
                &&& final(self).ask_levels() == apply_changes(
                    old(self).ask_levels(),
                    update.changes@,
                    Side::Sell,
                )
            },
    {
        if self.product_id != update.product_id {
            return Err(ProductMismatch { book: self.product_id, update: update.product_id });
        }
        let mut i: usize = 0;
        while i < update.changes.len()
            invariant
                i <= update.changes@.len(),
                self.product_id == old(self).product_id,
                self.bids@ == apply_changes(
                    old(self).bids@,
                    update.changes@.subrange(0, i as int),
                    Side::Buy,
                ),
                self.asks@ == apply_changes(
                    old(self).asks@,
                    update.changes@.subrange(0, i as int),
                    Side::Sell,
                ),
            decreases update.changes@.len() - i,
        {
            let (side, price, size) = update.changes[i];
            match side {
                Side::Buy => {
                    self.bids.insert(price.0.units(), size.0.units());
                },
                Side::Sell => {
                    self.asks.insert(price.0.units(), size.0.units());
                },
            }
            assert(update.changes@.subrange(0, i + 1).drop_last() =~= update.changes@.subrange(
                0,
                i as int,
            ));
            i = i + 1;
        }
        assert(update.changes@.subrange(0, update.changes@.len() as int) =~= update.changes@);
        Ok(())
    }

    /// The product of the book.
    pub fn product_id(&self) -> (r: Product)
        ensures
            r == self.product(),
    {
        self.product_id
    }

    /// The size at a bid price, if that level is present.
    pub fn bid(&self, price: &QuoteCurrencyPrice) -> (r: Option<BaseCurrencyAmount>)
        ensures
            r is Some <==> self.bid_levels().contains_key(price.0@),
            r is Some ==> r->Some_0.0@ == self.bid_levels()[price.0@],
    {
        match self.bids.get(&price.0.units()) {
            Some(size) => Some(BaseCurrencyAmount(Decimal::from_units(*size))),
            None => None,
        }
    }

    /// The size at an ask price, if that level is present.
    pub fn ask(&self, price: &QuoteCurrencyPrice) -> (r: Option<BaseCurrencyAmount>)
        ensures
            r is Some <==> self.ask_levels().contains_key(price.0@),
            r is Some ==> r->Some_0.0@ == self.ask_levels()[price.0@],
    {
        match self.asks.get(&price.0.units()) {
            Some(size) => Some(BaseCurrencyAmount(Decimal::from_units(*size))),
            None => None,
        }
    }

    /// The number of bid levels.
    pub fn bid_count(&self) -> (r: usize)
        ensures
            r == self.bid_levels().len(),
    {
        self.bids.len()
    }

    /// The number of ask levels.
    pub fn ask_count(&self) -> (r: usize)
        ensures
            r == self.ask_levels().len(),
    {
        self.asks.len()
    }
}

} // verus!
