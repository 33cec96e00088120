//! What a feed connection is set up with: the endpoint and the subscriptions.
use vstd::prelude::*;

use crate::feed::message::{Channel, OutgoingMessage, Product, Subscription};

verus! {

/// The production endpoint.
pub const LIVE_URL: &'static str = "wss://ws-feed.gdax.com";

/// The sandbox endpoint.
pub const SANDBOX_URL: &'static str = "wss://ws-feed-public.sandbox.gdax.com";

/// Every product, in declaration order.
pub open spec fn all_products() -> Seq<Product> {
    seq![Product::BtcUsd, Product::EthUsd, Product::LtcUsd]
}

/// Every channel, in declaration order.
pub open spec fn all_channels() -> Seq<Channel> {
    seq![Channel::Full, Channel::Heartbeat, Channel::Level2, Channel::Matches, Channel::Ticker]
}

/// The endpoint to connect to and the subscriptions to ask for once connected.
pub struct FeedBuilder {
    sandbox: bool,
    subscriptions: Vec<Subscription>,
}

impl FeedBuilder {
    /// Whether the sandbox endpoint is chosen.
    pub closed spec fn uses_sandbox(&self) -> bool {
        self.sandbox
    }

    /// The subscriptions asked for, in order.
    pub closed spec fn subscriptions(&self) -> Seq<Subscription> {
        self.subscriptions@
    }

    /// The production endpoint, with no subscriptions.
    pub fn new() -> (r: FeedBuilder)
        ensures
            !r.uses_sandbox(),
            r.subscriptions().len() == 0,
    {
        FeedBuilder { sandbox: false, subscriptions: Vec::new() }
    }

    /// Chooses the sandbox endpoint, or the production one.
    pub fn sandbox(self, sandbox: bool) -> (r: FeedBuilder)
        ensures
            r.uses_sandbox() == sandbox,
            r.subscriptions() == self.subscriptions(),
    {
        FeedBuilder { sandbox, subscriptions: self.subscriptions }
    }

    /// Adds a subscription to one product on one channel.
    pub fn subscribe(self, channel: Channel, product: Product) -> (r: FeedBuilder)
        ensures
            r.uses_sandbox() == self.uses_sandbox(),
            r.subscriptions().len() == self.subscriptions().len() + 1,
            r.subscriptions().drop_last() == self.subscriptions(),
            r.subscriptions().last().name == channel,
            r.subscriptions().last().product_ids@ == seq![product],
    {
        let mut subscriptions = self.subscriptions;
        let product_ids = vec![product];
        assert(product_ids@ =~= seq![product]);
        subscriptions.push(Subscription { name: channel, product_ids });
        assert(subscriptions@.drop_last() =~= self.subscriptions@);
        FeedBuilder { sandbox: self.sandbox, subscriptions }
    }

    /// Adds, for each channel in order, a subscription to every product.
    pub fn subscribe_to_all(self) -> (r: FeedBuilder)
        ensures
            r.uses_sandbox() == self.uses_sandbox(),
            r.subscriptions().len() == self.subscriptions().len() + all_channels().len(),
            r.subscriptions().subrange(0, self.subscriptions().len() as int)
                == self.subscriptions(),
            forall|i: int|
                0 <= i < all_channels().len() ==> {
                    let s = #[trigger] r.subscriptions()[self.subscriptions().len() + i];
                    s.name == all_channels()[i] && s.product_ids@ == all_products()
                },
    {
        let channels = Channel::all();
        let mut subscriptions = self.subscriptions;
        let ghost start = self.subscriptions@;
        let mut i: usize = 0;
        while i < channels.len()
            invariant
                channels@ == all_channels(),
                i <= channels@.len(),
                subscriptions@.len() == start.len() + i,
                subscriptions@.subrange(0, start.len() as int) == start,
                forall|k: int|
                    0 <= k < i ==> {
                        let s = #[trigger] subscriptions@[start.len() + k];
                        s.name == all_channels()[k] && s.product_ids@ == all_products()
                    },
            decreases channels@.len() - i,
        {
            let ghost before = subscriptions@;
            subscriptions.push(Subscription { name: channels[i], product_ids: Product::all() });
            assert(subscriptions@.subrange(0, start.len() as int) =~= before.subrange(
                0,
                start.len() as int,
            ));
            assert forall|k: int| 0 <= k < i + 1 implies {
                let s = #[trigger] subscriptions@[start.len() + k];
                s.name == all_channels()[k] && s.product_ids@ == all_products()
            } by {
                if k < i {
                    assert(subscriptions@[start.len() + k] == before[start.len() + k]);
                }
            }
            i = i + 1;
        }
        FeedBuilder { sandbox: self.sandbox, subscriptions }
    }

    /// The endpoint chosen.
    pub fn url(&self) -> (r: &'static str)
        ensures
            r == (if self.uses_sandbox() { SANDBOX_URL } else { LIVE_URL }),
    {
        if self.sandbox {
            SANDBOX_URL
        } else {
            LIVE_URL
        }
    }

    /// The message that asks for every subscription, in order.
    pub fn subscribe_message(self) -> (r: OutgoingMessage)
        ensures
            r matches OutgoingMessage::Subscribe { channels } && channels@ == self.subscriptions(),
    {
        OutgoingMessage::Subscribe { channels: self.subscriptions }
    }
}

} // verus!
