//! The frames that are exchanged with the feed, as values.
//!
//! Outbound frames announce or withdraw interest in one symbol. Inbound
//! frames report an error, a heartbeat, or a batch of trades.

use crate::types::{tick_views, Symbol, TickerInfo, TickerInfoView};
use vstd::prelude::*;

verus! {

/// Error text with which the feed rejects a subscription to a symbol that it
/// does not know.
pub const INVALID_SYMBOL: &'static str = "Invalid symbol";

/// A request to the feed.
#[derive(Debug, PartialEq, Eq)]
pub enum Request {
    Subscribe { symbol: Symbol },
    Unsubscribe { symbol: Symbol },
}

/// What a [`Request`] says, with its symbol as plain text.
pub enum RequestView {
    Subscribe { symbol: Seq<char> },
    Unsubscribe { symbol: Seq<char> },
}

impl View for Request {
    type V = RequestView;

    open spec fn view(&self) -> RequestView {
        match self {
            Request::Subscribe { symbol } => RequestView::Subscribe { symbol: symbol@ },
            Request::Unsubscribe { symbol } => RequestView::Unsubscribe { symbol: symbol@ },
        }
    }
}

/// A decoded frame from the feed.
#[derive(Debug)]
pub enum WsMessage {
    Error { message: String },
    Ping,
    Trade { data: Vec<TickerInfo> },
}

/// What a [`WsMessage`] says.
pub enum WsMessageView {
    Error { message: Seq<char> },
    Ping,
    Trade { data: Seq<TickerInfoView> },
}

impl View for WsMessage {
    type V = WsMessageView;

    open spec fn view(&self) -> WsMessageView {
        match self {
            WsMessage::Error { message } => WsMessageView::Error { message: message@ },
            WsMessage::Ping => WsMessageView::Ping,
            WsMessage::Trade { data } => WsMessageView::Trade { data: tick_views(data@) },
        }
    }
}

} // verus!
