//! Session core of a market-trade feed client: the symbols a user tracks, a
//! bounded recent-trade history per symbol, and the connection state machine
//! that decides what to send, store and ask.

pub mod feed;
pub mod history;
pub mod model;
pub mod state;
pub mod types;
