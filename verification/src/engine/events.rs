//! Events flowing from connectors into the single-threaded engine loop. `R`
//! carries prices and amounts that are not counts.

use vstd::prelude::*;

use crate::market::book::{BookDelta, BookSnapshot};
use crate::market::reference::Bbo;
use crate::order::model::{ExecResponse, OrderInfo, UserTrade};
use crate::time::Instant;
use crate::types::Ticks;

verus! {

#[derive(Debug, Clone, Copy, PartialEq, Eq, Hash, Structural)]
pub enum Feed {
    Binance,
    GatePublic,
    GatePrivate,
    GateTrade,
}

impl Feed {
    pub fn label(self) -> (r: &'static str)
        ensures
            r@ == (match self {
                Feed::Binance => "binance"@,
                Feed::GatePublic => "gate_public"@,
                Feed::GatePrivate => "gate_private"@,
                Feed::GateTrade => "gate_trade"@,
            }),
    {
        match self {
            Feed::Binance => "binance",
            Feed::GatePublic => "gate_public",
            Feed::GatePrivate => "gate_private",
            Feed::GateTrade => "gate_trade",
        }
    }
}

/// Position record from Gate, normalised.
#[derive(Debug, Clone, PartialEq)]
pub struct PositionInfo<R> {
    /// `single`, `dual_long`, `dual_short`.
    pub mode: String,
    /// Signed contracts.
    pub size: i64,
    pub entry_price: R,
    pub update_ms: i64,
}

#[derive(Debug, Clone, PartialEq)]
pub struct AccountInfo<R> {
    pub user_id: i64,
    pub total: R,
    pub available: R,
    pub unrealised_pnl: R,
    pub order_margin: R,
    pub position_margin: R,
    pub in_dual_mode: bool,
    pub at: Instant,
}

#[derive(Debug, Clone)]
pub enum Event<R> {
    BinanceBbo(Bbo<R>),
    BinanceTrade { price: R, qty: R, buyer_is_maker: bool, at: Instant },
    GateBbo { bid: Ticks, bid_size: i64, ask: Ticks, ask_size: i64, exch_ms: i64, at: Instant },
    GateBookSnapshot(BookSnapshot),
    GateBookDelta(BookDelta),
    /// Public trade. A positive size is a taker buy.
    GateTrade { price: Ticks, price_f64: R, signed_size: i64, trade_id: u64, at: Instant },
    /// Mark and index price and funding rate, used for sanity checks only.
    GateTicker { mark: R, index: R, funding_rate: R, at: Instant },
    GateOrder(OrderInfo),
    GateUserTrade(UserTrade<R>),
    GatePositions(Vec<PositionInfo<R>>),
    /// Balance change (`fee`, `fund`, `pnl`, …).
    GateBalanceChange { change: R, kind: String, at: Instant },
    GateAccount(AccountInfo<R>),
    /// Open-order snapshot (startup or resync).
    GateOpenOrders(Vec<OrderInfo>),
    Exec(ExecResponse),
    FeedStatus { feed: Feed, connected: bool, at: Instant },
    /// Private-stream heartbeat (any message received).
    PrivateHeartbeat(Instant),
    Timer(Instant),
    Shutdown,
}

} // verus!
