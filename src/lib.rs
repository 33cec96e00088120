//! Market data from a cryptocurrency exchange: exact decimals, the feed channel's
//! state, and order books rebuilt from snapshots and updates.
pub mod cli;
pub mod decimal;
pub mod feed;
pub mod order_book;
