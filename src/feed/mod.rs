//! The exchange feed: its messages, its subscriptions and the channel state.
pub mod builder;
pub mod channel;
pub mod message;
