//! The exchange's instruments, channels and the order-book messages.
use vstd::prelude::*;

use crate::decimal::Decimal;
use crate::feed::builder::{all_channels, all_products};

verus! {

/// A tradable pair.
#[derive(Debug, Clone, Copy, PartialEq, Eq, Structural, PartialOrd, Ord, Hash)]
pub enum Product {
    BtcUsd,
    EthUsd,
    LtcUsd,
}

impl Product {
    /// Every product, in declaration order.
    pub fn all() -> (r: Vec<Product>)
        ensures
            r@ == all_products(),
    {
        let r = vec![Product::BtcUsd, Product::EthUsd, Product::LtcUsd];
        assert(r@ =~= seq![Product::BtcUsd, Product::EthUsd, Product::LtcUsd]);
        r
    }
}

/// A feed channel that can be subscribed to.
#[derive(Debug, Clone, Copy, PartialEq, Eq, Structural)]
pub enum Channel {
    Full,
    Heartbeat,
    Level2,
    Matches,
    Ticker,
}

impl Channel {
    /// Every channel, in declaration order.
    pub fn all() -> (r: Vec<Channel>)
        ensures
            r@ == all_channels(),
    {
        let r = vec![
            Channel::Full,
            Channel::Heartbeat,
            Channel::Level2,
            Channel::Matches,
            Channel::Ticker,
        ];
        assert(r@ =~= seq![
            Channel::Full,
            Channel::Heartbeat,
            Channel::Level2,
            Channel::Matches,
            Channel::Ticker,
        ]);
        r
    }
}

/// Buy (bid) or sell (ask).
#[derive(Debug, Clone, Copy, PartialEq, Eq, Structural)]
pub enum Side {
    Buy,
    Sell,
}

#[derive(Debug, Clone, Copy, PartialEq, Eq, Structural)]
pub enum OrderType {
    Limit,
    Market,
}

#[derive(Debug, Clone, Copy, PartialEq, Eq, Structural)]
pub enum Reason {
    Canceled,
    Filled,
}

/// One channel and the products wanted on it.
#[derive(Debug, Clone)]
pub struct Subscription {
    pub name: Channel,
    pub product_ids: Vec<Product>,
}

/// A price in the quote currency.
#[derive(Debug, Clone, Copy, PartialEq, Eq, Structural, PartialOrd, Ord)]
pub struct QuoteCurrencyPrice(pub Decimal);

/// An amount of the quote currency.
#[derive(Debug, Clone, Copy, PartialEq, Eq, Structural, PartialOrd, Ord)]
pub struct QuoteCurrencyAmount(pub Decimal);

/// An amount of the base currency.
#[derive(Debug, Clone, Copy, PartialEq, Eq, Structural, PartialOrd, Ord)]
pub struct BaseCurrencyAmount(pub Decimal);

/// Every price level of one product's book.
#[derive(Debug, Clone)]
pub struct OrderBookSnapshot {
    pub product_id: Product,
    pub bids: Vec<(QuoteCurrencyPrice, BaseCurrencyAmount)>,
    pub asks: Vec<(QuoteCurrencyPrice, BaseCurrencyAmount)>,
}

/// An ordered batch of price-level changes to one product's book.
#[derive(Debug, Clone)]
pub struct OrderBookUpdate {
    pub product_id: Product,
    pub changes: Vec<(Side, QuoteCurrencyPrice, BaseCurrencyAmount)>,
}

/// A message sent to the exchange.
#[derive(Debug, Clone)]
pub enum OutgoingMessage {
    Subscribe { channels: Vec<Subscription> },
}

} // verus!
