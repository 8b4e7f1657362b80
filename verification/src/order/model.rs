//! Order-side data shared by the engine, the order manager and the executors.

use vstd::prelude::*;

use crate::time::Instant;
use crate::types::{Purpose, Side, Ticks};

verus! {

#[derive(Debug, Clone, Copy, PartialEq, Eq, Hash, Structural)]
pub enum Tif {
    /// Post-only (Gate `poc`).
    Poc,
    Ioc,
    Gtc,
}

impl Tif {
    /// Wire name of the time in force.
    pub fn as_gate(self) -> (r: &'static str)
        ensures
            r@ == (match self {
                Tif::Poc => "poc"@,
                Tif::Ioc => "ioc"@,
                Tif::Gtc => "gtc"@,
            }),
    {
        match self {
            Tif::Poc => "poc",
            Tif::Ioc => "ioc",
            Tif::Gtc => "gtc",
        }
    }
}

/// Largest contract count that the order bookkeeping admits in one quantity.
pub const MAX_CONTRACTS: i64 = 2_305_843_009_213_693_951;

/// A contract count that the order bookkeeping admits.
pub open spec fn is_count(n: int) -> bool {
    0 <= n <= MAX_CONTRACTS
}

/// The characters of an optional string.
pub open spec fn opt_text(s: Option<String>) -> Option<Seq<char>> {
    match s {
        Some(t) => Some(t@),
        None => None,
    }
}

/// Commands sent from the engine to an executor.
#[allow(inconsistent_fields)]
#[derive(Debug, Clone, PartialEq)]
pub enum ExecCommand {
    Place {
        req_id: String,
        client_id: String,
        side: Side,
        /// Absolute contracts.
        size: i64,
        /// `None` is a market order.
        price: Option<Ticks>,
        tif: Tif,
        reduce_only: bool,
    },
    Amend {
        req_id: String,
        exchange_id: String,
        client_id: String,
        price: Option<Ticks>,
        /// New **total** absolute size, the filled part counted in.
        size: Option<i64>,
    },
    Cancel { req_id: String, exchange_id: Option<String>, client_id: String },
    Query { req_id: String, exchange_id: Option<String>, client_id: String },
    /// Cancel every open order on the contract.
    CancelAll { req_id: String },
}

/// A command as plain values.
#[allow(inconsistent_fields)]
pub ghost enum CommandView {
    Place {
        req_id: Seq<char>,
        client_id: Seq<char>,
        side: Side,
        size: i64,
        price: Option<Ticks>,
        tif: Tif,
        reduce_only: bool,
    },
    Amend {
        req_id: Seq<char>,
        exchange_id: Seq<char>,
        client_id: Seq<char>,
        price: Option<Ticks>,
        size: Option<i64>,
    },
    Cancel { req_id: Seq<char>, exchange_id: Option<Seq<char>>, client_id: Seq<char> },
    Query { req_id: Seq<char>, exchange_id: Option<Seq<char>>, client_id: Seq<char> },
    CancelAll { req_id: Seq<char> },
}

impl View for ExecCommand {
    type V = CommandView;

    open spec fn view(&self) -> CommandView {
        match *self {
            ExecCommand::Place { req_id, client_id, side, size, price, tif, reduce_only } => {
                CommandView::Place {
                    req_id: req_id@,
                    client_id: client_id@,
                    side,
                    size,
                    price,
                    tif,
                    reduce_only,
                }
            },
            ExecCommand::Amend { req_id, exchange_id, client_id, price, size } => {
                CommandView::Amend {
                    req_id: req_id@,
                    exchange_id: exchange_id@,
                    client_id: client_id@,
                    price,
                    size,
                }
            },
            ExecCommand::Cancel { req_id, exchange_id, client_id } => {
                CommandView::Cancel {
                    req_id: req_id@,
                    exchange_id: opt_text(exchange_id),
                    client_id: client_id@,
                }
            },
            ExecCommand::Query { req_id, exchange_id, client_id } => {
                CommandView::Query {
                    req_id: req_id@,
                    exchange_id: opt_text(exchange_id),
                    client_id: client_id@,
                }
            },
            ExecCommand::CancelAll { req_id } => CommandView::CancelAll { req_id: req_id@ },
        }
    }
}

impl CommandView {
    pub open spec fn req(self) -> Seq<char> {
        match self {
            CommandView::Place { req_id, .. } => req_id,
            CommandView::Amend { req_id, .. } => req_id,
            CommandView::Cancel { req_id, .. } => req_id,
            CommandView::Query { req_id, .. } => req_id,
            CommandView::CancelAll { req_id } => req_id,
        }
    }
}

impl ExecCommand {
    /// Identifier under which the answer to this command comes back.
    pub fn req_id(&self) -> (r: &str)
        ensures
            r@ == self@.req(),
    {
        match self {
            ExecCommand::Place { req_id, .. } => req_id.as_str(),
            ExecCommand::Amend { req_id, .. } => req_id.as_str(),
            ExecCommand::Cancel { req_id, .. } => req_id.as_str(),
            ExecCommand::Query { req_id, .. } => req_id.as_str(),
            ExecCommand::CancelAll { req_id } => req_id.as_str(),
        }
    }
}

/// The commands of a list, as plain values.
pub open spec fn command_views(cmds: Seq<ExecCommand>) -> Seq<CommandView> {
    cmds.map_values(|c: ExecCommand| c@)
}

#[derive(Debug, Clone, Copy, PartialEq, Eq, Structural)]
pub enum ExchangeStatus {
    Open,
    Finished,
}

/// Normalised exchange order record.
#[derive(Debug, Clone, PartialEq)]
pub struct OrderInfo {
    pub exchange_id: String,
    pub client_id: String,
    pub side: Side,
    pub price: Ticks,
    /// Absolute total size.
    pub size: i64,
    /// Absolute remaining size.
    pub left: i64,
    pub status: ExchangeStatus,
    /// Gate `finish_as` (`filled`, `cancelled`, `ioc`, `poc`, `reduce_only`, …).
    pub finish_as: String,
    pub reduce_only: bool,
    pub tif: Option<Tif>,
    pub update_ms: i64,
}

/// An exchange order record as plain values.
pub ghost struct InfoView {
    pub exchange_id: Seq<char>,
    pub client_id: Seq<char>,
    pub side: Side,
    pub price: Ticks,
    pub size: i64,
    pub left: i64,
    pub status: ExchangeStatus,
    pub finish_as: Seq<char>,
    pub reduce_only: bool,
    pub tif: Option<Tif>,
    pub update_ms: i64,
}

impl View for OrderInfo {
    type V = InfoView;

    open spec fn view(&self) -> InfoView {
        InfoView {
            exchange_id: self.exchange_id@,
            client_id: self.client_id@,
            side: self.side,
            price: self.price,
            size: self.size,
            left: self.left,
            status: self.status,
            finish_as: self.finish_as@,
            reduce_only: self.reduce_only,
            tif: self.tif,
            update_ms: self.update_ms,
        }
    }
}

/// The order records of a list, as plain values.
pub open spec fn info_views(infos: Seq<OrderInfo>) -> Seq<InfoView> {
    infos.map_values(|i: OrderInfo| i@)
}

impl InfoView {
    /// Sizes are absolute counts.
    pub open spec fn valid(self) -> bool {
        is_count(self.size as int) && is_count(self.left as int)
    }

    /// Contracts already traded.
    pub open spec fn filled(self) -> int {
        if self.size >= self.left {
            self.size - self.left
        } else {
            0
        }
    }
}

impl OrderInfo {
    /// Whether the sizes are counts that the bookkeeping admits.
    pub fn is_valid(&self) -> (r: bool)
        ensures
            r == self@.valid(),
    {
        0 <= self.size && self.size <= MAX_CONTRACTS && 0 <= self.left && self.left
            <= MAX_CONTRACTS
    }

    /// Contracts already traded.
    pub fn filled(&self) -> (r: i64)
        requires
            self@.valid(),
        ensures
            r == self@.filled(),
    {
        if self.size >= self.left {
            self.size - self.left
        } else {
            0
        }
    }

    pub fn copy(&self) -> (r: OrderInfo)
        ensures
            r@ == self@,
    {
        OrderInfo {
            exchange_id: self.exchange_id.clone(),
            client_id: self.client_id.clone(),
            side: self.side,
            price: self.price,
            size: self.size,
            left: self.left,
            status: self.status,
            finish_as: self.finish_as.clone(),
            reduce_only: self.reduce_only,
            tif: self.tif,
            update_ms: self.update_ms,
        }
    }
}

#[derive(Debug, Clone, PartialEq)]
pub enum ExecResult {
    Placed(OrderInfo),
    Amended(OrderInfo),
    Cancelled(OrderInfo),
    Queried(OrderInfo),
    CancelledAll(usize),
    /// The exchange rejected the request; `label` is Gate's error label.
    Error { label: String, message: String },
}

/// An execution result as plain values.
pub ghost enum ResultView {
    Placed(InfoView),
    Amended(InfoView),
    Cancelled(InfoView),
    Queried(InfoView),
    CancelledAll(usize),
    Error { label: Seq<char>, message: Seq<char> },
}

impl View for ExecResult {
    type V = ResultView;

    open spec fn view(&self) -> ResultView {
        match *self {
            ExecResult::Placed(i) => ResultView::Placed(i@),
            ExecResult::Amended(i) => ResultView::Amended(i@),
            ExecResult::Cancelled(i) => ResultView::Cancelled(i@),
            ExecResult::Queried(i) => ResultView::Queried(i@),
            ExecResult::CancelledAll(n) => ResultView::CancelledAll(n),
            ExecResult::Error { label, message } => ResultView::Error {
                label: label@,
                message: message@,
            },
        }
    }
}

impl ResultView {
    /// The order record that the answer carries, if any.
    pub open spec fn info(self) -> Option<InfoView> {
        match self {
            ResultView::Placed(i) => Some(i),
            ResultView::Amended(i) => Some(i),
            ResultView::Cancelled(i) => Some(i),
            ResultView::Queried(i) => Some(i),
            _ => None,
        }
    }

    pub open spec fn valid(self) -> bool {
        self.info() matches Some(i) ==> i.valid()
    }
}

impl ExecResult {
    /// Whether the sizes of the record are counts that the bookkeeping admits.
    pub fn is_valid(&self) -> (r: bool)
        ensures
            r == self@.valid(),
    {
        match self {
            ExecResult::Placed(i) => i.is_valid(),
            ExecResult::Amended(i) => i.is_valid(),
            ExecResult::Cancelled(i) => i.is_valid(),
            ExecResult::Queried(i) => i.is_valid(),
            _ => true,
        }
    }
}

#[derive(Debug, Clone, PartialEq)]
pub struct ExecResponse {
    pub req_id: String,
    pub result: ExecResult,
    pub at: Instant,
}

/// An answer as plain values.
pub ghost struct ResponseView {
    pub req_id: Seq<char>,
    pub result: ResultView,
    pub at: Instant,
}

impl View for ExecResponse {
    type V = ResponseView;

    open spec fn view(&self) -> ResponseView {
        ResponseView { req_id: self.req_id@, result: self.result@, at: self.at }
    }
}

/// A fill from the private user-trades stream. `R` is the carrier of the
/// decimal price and the fee, which pass through untouched.
#[derive(Debug, Clone, PartialEq)]
pub struct UserTrade<R> {
    pub trade_id: String,
    pub exchange_order_id: String,
    pub client_id: String,
    /// Signed contracts (+ buy, − sell).
    pub signed_size: i64,
    pub price: Ticks,
    pub price_f64: R,
    /// Fee in settle currency (positive = paid, negative = rebate).
    pub fee: R,
    pub is_maker: bool,
    pub exch_ms: i64,
    pub at: Instant,
}

#[derive(Debug, Clone, Copy, PartialEq, Eq, Structural)]
pub enum DoneReason {
    Filled,
    Cancelled,
    /// Post-only would have crossed; the exchange rejected it.
    PostOnlyReject,
    /// IOC finished (possibly partially filled).
    IocDone,
    Rejected,
    /// The exchange says it does not exist or already finished.
    Lost,
}

#[derive(Debug, Clone, Copy, PartialEq, Eq, Structural)]
pub enum OrderState {
    PendingNew,
    Live,
    PendingAmend,
    PendingCancel,
    Done(DoneReason),
}

impl OrderState {
    pub open spec fn terminal(self) -> bool {
        self is Done
    }

    pub open spec fn inflight(self) -> bool {
        self is PendingNew || self is PendingAmend || self is PendingCancel
    }

    pub fn is_terminal(self) -> (r: bool)
        ensures
            r == self.terminal(),
    {
        matches!(self, OrderState::Done(_))
    }

    pub fn is_inflight(self) -> (r: bool)
        ensures
            r == self.inflight(),
    {
        matches!(
            self,
            OrderState::PendingNew | OrderState::PendingAmend | OrderState::PendingCancel
        )
    }
}

#[derive(Debug, Clone, Copy, PartialEq, Eq, Structural)]
pub enum Intent {
    Amend { price: Ticks, size: i64 },
    Cancel,
}

#[derive(Debug, Clone)]
pub struct LocalOrder {
    pub id: u64,
    pub client_id: String,
    pub exchange_id: Option<String>,
    pub side: Side,
    pub purpose: Purpose,
    /// Quote layer (0 = inner). `u8::MAX` for exits.
    pub layer: u8,
    pub tif: Tif,
    pub reduce_only: bool,
    /// Requested or confirmed price. `None` for market orders.
    pub price: Option<Ticks>,
    /// Total absolute size (requested or confirmed).
    pub size: i64,
    /// Filled absolute size: the larger of what order updates report and what
    /// the de-duplicated trades add up to.
    pub filled: i64,
    /// Sum of the de-duplicated user trades attributed to this order.
    pub trade_filled: i64,
    pub state: OrderState,
    pub intent: Option<Intent>,
    /// The pending amend target (price, total size).
    pub amend_target: Option<(Ticks, i64)>,
    pub inflight_since: Option<Instant>,
    pub req_id: Option<String>,
    pub last_update: Instant,
    /// When the exchange said it was finished; fills may still arrive.
    pub done_at: Option<Instant>,
}

/// One of our orders as plain values.
pub ghost struct OrderView {
    pub id: u64,
    pub client_id: Seq<char>,
    pub exchange_id: Option<Seq<char>>,
    pub side: Side,
    pub purpose: Purpose,
    pub layer: u8,
    pub tif: Tif,
    pub reduce_only: bool,
    pub price: Option<Ticks>,
    pub size: i64,
    pub filled: i64,
    pub trade_filled: i64,
    pub state: OrderState,
    pub intent: Option<Intent>,
    pub amend_target: Option<(Ticks, i64)>,
    pub inflight_since: Option<Instant>,
    pub req_id: Option<Seq<char>>,
    pub last_update: Instant,
    pub done_at: Option<Instant>,
}

impl View for LocalOrder {
    type V = OrderView;

    open spec fn view(&self) -> OrderView {
        OrderView {
            id: self.id,
            client_id: self.client_id@,
            exchange_id: opt_text(self.exchange_id),
            side: self.side,
            purpose: self.purpose,
            layer: self.layer,
            tif: self.tif,
            reduce_only: self.reduce_only,
            price: self.price,
            size: self.size,
            filled: self.filled,
            trade_filled: self.trade_filled,
            state: self.state,
            intent: self.intent,
            amend_target: self.amend_target,
            inflight_since: self.inflight_since,
            req_id: opt_text(self.req_id),
            last_update: self.last_update,
            done_at: self.done_at,
        }
    }
}

impl OrderView {
    /// Contracts that may still trade.
    pub open spec fn remaining(self) -> int {
        if self.size >= self.filled {
            self.size - self.filled
        } else {
            0
        }
    }

    pub open spec fn active(self) -> bool {
        !self.state.terminal()
    }

    /// Sizes are counts, a stored amend leaves something to rest, and an amend in
    /// flight is known by what it asked for.
    pub open spec fn valid(self) -> bool {
        &&& is_count(self.size as int)
        &&& is_count(self.filled as int)
        &&& is_count(self.trade_filled as int)
        &&& self.trade_filled <= self.filled
        &&& self.intent matches Some(Intent::Amend { price, size }) ==> 0 < size <= MAX_CONTRACTS
        &&& self.amend_target matches Some(t) ==> 0 <= t.1 <= 2 * MAX_CONTRACTS
        &&& self.state == OrderState::PendingAmend ==> self.amend_target is Some
    }
}

impl LocalOrder {
    /// Contracts that may still trade.
    pub fn remaining(&self) -> (r: i64)
        requires
            self@.valid(),
        ensures
            r == self@.remaining(),
    {
        if self.size >= self.filled {
            self.size - self.filled
        } else {
            0
        }
    }
}

/// Fill event produced by the manager after de-duplication.
#[derive(Debug, Clone, PartialEq)]
pub struct Fill<R> {
    pub local_id: Option<u64>,
    pub client_id: String,
    pub side: Side,
    pub purpose: Purpose,
    pub layer: u8,
    pub reduce_only: bool,
    pub size: i64,
    pub price: Ticks,
    pub price_f64: R,
    pub fee: R,
    pub is_maker: bool,
    pub tif: Tif,
    pub at: Instant,
}

} // verus!
