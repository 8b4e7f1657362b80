//! Paper-trading executor: simulates Gate order handling against the live Gate
//! market data, so that the whole engine runs end to end without sending real
//! orders.
//!
//! - a resting order fills when a public trade prints at or through its price,
//!   or when the external best quote moves through it;
//! - IOC and market orders sweep the local book and fill at the average price
//!   rounded to a tick;
//! - post-only orders that would cross are finished as `poc`;
//! - reduce-only orders are clamped to the available position.

use vstd::hash_map::StringHashMap;
use vstd::prelude::*;

use crate::engine::events::{Event, PositionInfo};
use crate::market::book;
use crate::market::book::{BookView, LocalBook};
use crate::order::model::{
    CommandView, ExchangeStatus, ExecCommand, ExecResponse, ExecResult, InfoView, OrderInfo,
    ResponseView, ResultView, Tif, UserTrade, MAX_CONTRACTS,
};
use crate::strategy::inventory::{FillEffect, Positions};
use crate::text;
use crate::time::Instant;
use crate::types::{Side, Ticks};

verus! {

/// Orders kept before the finished ones are dropped.
pub const MAX_ORDERS: usize = 2_000;

struct PaperOrder {
    n: u64,
    client_id: String,
    side: Side,
    price: Option<Ticks>,
    size: i64,
    left: i64,
    tif: Tif,
    reduce_only: bool,
    finished: bool,
    finish_as: String,
}

/// A simulated order as plain values.
pub ghost struct PaperOrderView {
    pub n: u64,
    pub client_id: Seq<char>,
    pub side: Side,
    pub price: Option<Ticks>,
    pub size: i64,
    pub left: i64,
    pub tif: Tif,
    pub reduce_only: bool,
    pub finished: bool,
    pub finish_as: Seq<char>,
}

/// Exchange id of the `n`-th order.
pub open spec fn order_id(n: u64) -> Seq<char> {
    seq!['P'] + text::decimal(n as nat)
}

impl PaperOrderView {
    pub open spec fn info(self, now_ms: i64) -> InfoView {
        InfoView {
            exchange_id: order_id(self.n),
            client_id: self.client_id,
            side: self.side,
            price: match self.price {
                Some(p) => p,
                None => 0,
            },
            size: self.size,
            left: self.left,
            status: if self.finished {
                ExchangeStatus::Finished
            } else {
                ExchangeStatus::Open
            },
            finish_as: self.finish_as,
            reduce_only: self.reduce_only,
            tif: Some(self.tif),
            update_ms: now_ms,
        }
    }

    pub open spec fn valid(self) -> bool {
        0 <= self.left <= self.size <= MAX_CONTRACTS
    }

    pub open spec fn closed_as(self, finish_as: Seq<char>) -> PaperOrderView {
        PaperOrderView { finished: true, finish_as, ..self }
    }

    /// Contracts that may still add to the position of `side`.
    pub open spec fn adds_to(self, side: Side) -> int {
        if !self.finished && !self.reduce_only && self.side == side {
            self.left as int
        } else {
            0
        }
    }
}

impl PaperOrder {
    spec fn of(self) -> PaperOrderView {
        PaperOrderView {
            n: self.n,
            client_id: self.client_id@,
            side: self.side,
            price: self.price,
            size: self.size,
            left: self.left,
            tif: self.tif,
            reduce_only: self.reduce_only,
            finished: self.finished,
            finish_as: self.finish_as@,
        }
    }

    fn info(&self, now_ms: i64) -> (r: OrderInfo)
        ensures
            r@ == self.of().info(now_ms),
    {
        OrderInfo {
            exchange_id: id_text(self.n),
            client_id: self.client_id.clone(),
            side: self.side,
            price: match self.price {
                Some(p) => p,
                None => 0,
            },
            size: self.size,
            left: self.left,
            status: if self.finished {
                ExchangeStatus::Finished
            } else {
                ExchangeStatus::Open
            },
            finish_as: self.finish_as.clone(),
            reduce_only: self.reduce_only,
            tif: Some(self.tif),
            update_ms: now_ms,
        }
    }
}

fn id_text(n: u64) -> (r: String)
    ensures
        r@ == order_id(n),
{
    let mut r = String::new();
    r.push('P');
    text::push_decimal(&mut r, n);
    assert(r@ =~= order_id(n));
    r
}

/// What the simulated exchange reports.
#[derive(Debug, Clone)]
pub enum PaperEvent {
    Exec(ExecResponse),
    Order(OrderInfo),
    /// A trade of ours, and what it did to the simulated position.
    Trade(UserTrade<()>, FillEffect),
}

/// A trade as plain values.
pub ghost struct TradeView {
    pub trade_id: Seq<char>,
    pub exchange_order_id: Seq<char>,
    pub client_id: Seq<char>,
    pub signed_size: i64,
    pub price: Ticks,
    pub is_maker: bool,
    pub exch_ms: i64,
    pub at: Instant,
}

/// An event as plain values.
pub ghost enum PaperEventView {
    Exec(ResponseView),
    Order(InfoView),
    Trade(TradeView, FillEffect),
}

impl View for PaperEvent {
    type V = PaperEventView;

    open spec fn view(&self) -> PaperEventView {
        match *self {
            PaperEvent::Exec(r) => PaperEventView::Exec(r@),
            PaperEvent::Order(i) => PaperEventView::Order(i@),
            PaperEvent::Trade(t, e) => PaperEventView::Trade(
                TradeView {
                    trade_id: t.trade_id@,
                    exchange_order_id: t.exchange_order_id@,
                    client_id: t.client_id@,
                    signed_size: t.signed_size,
                    price: t.price,
                    is_maker: t.is_maker,
                    exch_ms: t.exch_ms,
                    at: t.at,
                },
                e,
            ),
        }
    }
}

pub open spec fn event_views(evs: Seq<PaperEvent>) -> Seq<PaperEventView> {
    evs.map_values(|e: PaperEvent| e@)
}

/// The simulated exchange as plain values.
pub ghost struct PaperView {
    pub orders: Seq<PaperOrderView>,
    pub by_client: Map<Seq<char>, u64>,
    pub next_id: u64,
    pub next_trade: u64,
    pub pos: Positions,
    pub ext_bid: Option<Ticks>,
    pub ext_ask: Option<Ticks>,
}

/// Some order has this number.
pub open spec fn listed(orders: Seq<PaperOrderView>, n: u64) -> bool {
    exists|i: int| 0 <= i < orders.len() && #[trigger] orders[i].n == n
}

/// Place of the order with this number.
pub open spec fn place_of(orders: Seq<PaperOrderView>, n: u64) -> int {
    choose|i: int| 0 <= i < orders.len() && #[trigger] orders[i].n == n
}

/// Numbers ascend.
pub open spec fn ascending(orders: Seq<PaperOrderView>) -> bool {
    forall|i: int, j: int|
        0 <= i < j < orders.len() ==> (#[trigger] orders[i]).n < (#[trigger] orders[j]).n
}

/// Contracts that open orders may still add to the position of `side`.
pub open spec fn pending_adds(orders: Seq<PaperOrderView>, side: Side) -> int
    decreases orders.len(),
{
    if orders.len() == 0 {
        0
    } else {
        pending_adds(orders.drop_last(), side) + orders.last().adds_to(side)
    }
}

/// The number of the `n`-th order whose exchange id is this text.
pub open spec fn named(orders: Seq<PaperOrderView>, id: Seq<char>) -> Option<u64>
    decreases orders.len(),
{
    if orders.len() == 0 {
        None
    } else if order_id(orders.last().n) == id {
        Some(orders.last().n)
    } else {
        named(orders.drop_last(), id)
    }
}

impl PaperView {
    pub open spec fn empty() -> PaperView {
        PaperView {
            orders: seq![],
            by_client: Map::empty(),
            next_id: 1,
            next_trade: 1,
            pos: Positions::flat(),
            ext_bid: None,
            ext_ask: None,
        }
    }

    pub open spec fn wf(self) -> bool {
        &&& ascending(self.orders)
        &&& forall|i: int|
            0 <= i < self.orders.len() ==> (#[trigger] self.orders[i]).n < self.next_id
        &&& forall|i: int| 0 <= i < self.orders.len() ==> (#[trigger] self.orders[i]).valid()
        &&& forall|k: Seq<char>| #[trigger]
            self.by_client.contains_key(k) ==> listed(self.orders, self.by_client[k]) && self.at(
                self.by_client[k],
            ).client_id == k
        &&& self.pos.wf()
        &&& self.load(Side::Buy) <= MAX_CONTRACTS
        &&& self.load(Side::Sell) <= MAX_CONTRACTS
    }

    /// What may come to be held: the position and the orders that add to it.
    pub open spec fn load(self, side: Side) -> int {
        (match side {
            Side::Buy => self.pos.long as int,
            Side::Sell => self.pos.short as int,
        }) + pending_adds(self.orders, side)
    }

    /// The counters and the positions have room for `size` more contracts on
    /// either side and `n` more orders and trades.
    pub open spec fn room(self, size: int, n: int) -> bool {
        &&& self.load(Side::Buy) + size <= MAX_CONTRACTS
        &&& self.load(Side::Sell) + size <= MAX_CONTRACTS
        &&& self.next_id + n <= u64::MAX
        &&& self.next_trade + n <= u64::MAX
    }

    pub open spec fn at(self, n: u64) -> PaperOrderView {
        self.orders[place_of(self.orders, n)]
    }

    pub open spec fn put(self, o: PaperOrderView) -> PaperView {
        PaperView { orders: self.orders.update(place_of(self.orders, o.n), o), ..self }
    }

    /// The order that an exchange id or a client id names.
    pub open spec fn resolve(self, key: Seq<char>) -> Option<u64> {
        match named(self.orders, key) {
            Some(n) => Some(n),
            None => if self.by_client.contains_key(key) {
                Some(self.by_client[key])
            } else {
                None
            },
        }
    }

    /// Position that a reduce-only order of `side` may close.
    pub open spec fn closable(self, side: Side) -> i64 {
        match side {
            Side::Sell => self.pos.long,
            Side::Buy => self.pos.short,
        }
    }

    /// A fill of at most `qty` contracts at `price`.
    pub open spec fn filled(
        self,
        n: u64,
        qty: int,
        price: Ticks,
        maker: bool,
        now: Instant,
        now_ms: i64,
    ) -> (PaperView, Seq<PaperEventView>) {
        let o = self.at(n);
        let wanted = if qty < o.left {
            qty
        } else {
            o.left as int
        };
        let avail = self.closable(o.side) as int;
        let q = if o.reduce_only && avail < wanted {
            avail
        } else {
            wanted
        };
        if wanted <= 0 {
            (self, seq![])
        } else if q <= 0 {
            let c = PaperOrderView { left: 0, ..o }.closed_as("reduce_only"@);
            (self.put(c), seq![PaperEventView::Order(c.info(now_ms))])
        } else {
            let left = (o.left - q) as i64;
            let f = if left == 0 {
                PaperOrderView { left, ..o }.closed_as("filled"@)
            } else {
                PaperOrderView { left, ..o }
            };
            let signed = q * o.side.spec_sign();
            let (pos, effect) = self.pos.filled(signed, o.reduce_only);
            (
                PaperView { pos, next_trade: (self.next_trade + 1) as u64, ..self.put(f) },
                seq![
                    PaperEventView::Trade(
                        TradeView {
                            trade_id: seq!['p', 't'] + text::decimal(self.next_trade as nat),
                            exchange_order_id: order_id(n),
                            client_id: o.client_id,
                            signed_size: signed as i64,
                            price,
                            is_maker: maker,
                            exch_ms: now_ms,
                            at: now,
                        },
                        effect,
                    ),
                    PaperEventView::Order(f.info(now_ms)),
                ],
            )
        }
    }

    /// An order swept against the book; what it does not fill is cancelled.
    pub open spec fn swept(
        self,
        n: u64,
        b: BookView,
        limit: Option<Ticks>,
        now: Instant,
        now_ms: i64,
    ) -> (PaperView, Seq<PaperEventView>) {
        let o = self.at(n);
        let levels = book::against(b, o.side);
        let qty = book::swept(levels, o.side, o.left as int, seq![], limit);
        let cost = book::sweep_cost(levels, o.side, o.left as int, seq![], limit);
        let (s, evs) = if qty > 0 {
            self.filled(n, qty, book::nearest(cost, qty) as i64, false, now, now_ms)
        } else {
            (self, seq![])
        };
        let p = s.at(n);
        if p.finished {
            (s, evs)
        } else {
            let c = p.closed_as("ioc"@);
            (s.put(c), evs + seq![PaperEventView::Order(c.info(now_ms))])
        }
    }

    /// A price of `side` that the external quote meets.
    pub open spec fn meets(self, side: Side, p: Ticks) -> bool {
        match side {
            Side::Buy => self.ext_ask matches Some(a) && p >= a,
            Side::Sell => self.ext_bid matches Some(b) && p <= b,
        }
    }

    /// What follows the placing or repricing of an order: an IOC sweeps the book,
    /// and so does a marketable order, unless it is post-only: then it finishes as
    /// `poc`.
    pub open spec fn settled(self, n: u64, b: BookView, now: Instant, now_ms: i64) -> (
        PaperView,
        Seq<PaperEventView>,
    ) {
        let o = self.at(n);
        if o.finished {
            (self, seq![])
        } else if o.tif == Tif::Ioc {
            self.swept(n, b, o.price, now, now_ms)
        } else {
            match o.price {
                Some(p) if self.meets(o.side, p) => if o.tif == Tif::Poc {
                    let c = o.closed_as("poc"@);
                    (self.put(c), seq![PaperEventView::Order(c.info(now_ms))])
                } else {
                    self.swept(n, b, Some(p), now, now_ms)
                },
                _ => (self, seq![]),
            }
        }
    }

    /// Beyond the limit, finished orders are dropped.
    pub open spec fn collected(self) -> PaperView {
        if self.orders.len() > MAX_ORDERS {
            let (orders, by_client) = without_finished(self.orders, self.by_client);
            PaperView { orders, by_client, ..self }
        } else {
            self
        }
    }
}

/// Open orders, and the client index without the finished ones.
pub open spec fn without_finished(
    orders: Seq<PaperOrderView>,
    by_client: Map<Seq<char>, u64>,
) -> (Seq<PaperOrderView>, Map<Seq<char>, u64>)
    decreases orders.len(),
{
    if orders.len() == 0 {
        (seq![], by_client)
    } else {
        let (head, m) = without_finished(orders.drop_last(), by_client);
        if orders.last().finished {
            (head, m.remove(orders.last().client_id))
        } else {
            (head.push(orders.last()), m)
        }
    }
}

/// Every open order cancelled.
pub open spec fn all_cancelled(orders: Seq<PaperOrderView>) -> Seq<PaperOrderView> {
    orders.map_values(
        |o: PaperOrderView|
            if o.finished {
                o
            } else {
                o.closed_as("cancelled"@)
            },
    )
}

/// The reports of cancelling every open order.
pub open spec fn cancel_reports(orders: Seq<PaperOrderView>, now_ms: i64) -> Seq<PaperEventView>
    decreases orders.len(),
{
    if orders.len() == 0 {
        seq![]
    } else {
        let head = cancel_reports(orders.drop_last(), now_ms);
        if orders.last().finished {
            head
        } else {
            head.push(PaperEventView::Order(orders.last().closed_as("cancelled"@).info(now_ms)))
        }
    }
}

/// A resting order that is about to fill.
#[derive(Clone, Copy)]
pub struct Target {
    pub n: u64,
    pub price: Ticks,
    pub left: i64,
}

/// Open orders that a quote at `bid` and `ask` moved through, by number.
pub open spec fn through(orders: Seq<PaperOrderView>, bid: Ticks, ask: Ticks) -> Seq<Target>
    decreases orders.len(),
{
    if orders.len() == 0 {
        seq![]
    } else {
        let head = through(orders.drop_last(), bid, ask);
        let o = orders.last();
        match o.price {
            Some(p) if !o.finished && (match o.side {
                Side::Buy => ask <= p,
                Side::Sell => bid >= p,
            }) => head.push(Target { n: o.n, price: p, left: o.left }),
            _ => head,
        }
    }
}

/// `a` fills before `b` on the side that is hit.
pub open spec fn better(hit: Side, a: Ticks, b: Ticks) -> bool {
    match hit {
        Side::Buy => a > b,
        Side::Sell => a < b,
    }
}

/// A target put behind all that are at least as well priced.
pub open spec fn ranked(list: Seq<Target>, t: Target, hit: Side) -> Seq<Target>
    decreases list.len(),
{
    if list.len() == 0 || !better(hit, t.price, list.last().price) {
        list.push(t)
    } else {
        ranked(list.drop_last(), t, hit).push(list.last())
    }
}

/// Open orders of the side that a trade hits at `price`, best price first and
/// older ones before newer ones.
pub open spec fn hit_by(orders: Seq<PaperOrderView>, hit: Side, price: Ticks) -> Seq<Target>
    decreases orders.len(),
{
    if orders.len() == 0 {
        seq![]
    } else {
        let head = hit_by(orders.drop_last(), hit, price);
        let o = orders.last();
        match o.price {
            Some(p) if !o.finished && o.side == hit && !better(hit, price, p) => ranked(
                head,
                Target { n: o.n, price: p, left: o.left },
                hit,
            ),
            _ => head,
        }
    }
}

impl PaperView {
    /// Targets filled with all that was left of them, at their own price.
    pub open spec fn filled_all(self, ts: Seq<Target>, now: Instant, now_ms: i64) -> (
        PaperView,
        Seq<PaperEventView>,
    )
        decreases ts.len(),
    {
        if ts.len() == 0 {
            (self, seq![])
        } else {
            let (s, evs) = self.filled_all(ts.drop_last(), now, now_ms);
            let t = ts.last();
            let (u, more) = s.filled(t.n, t.left as int, t.price, true, now, now_ms);
            (u, evs + more)
        }
    }

    /// Targets filled in turn out of a budget, and what is left of the budget.
    pub open spec fn filled_by(self, ts: Seq<Target>, budget: int, now: Instant, now_ms: i64) -> (
        PaperView,
        Seq<PaperEventView>,
        int,
    )
        decreases ts.len(),
    {
        if ts.len() == 0 {
            (self, seq![], budget)
        } else {
            let (s, evs, left) = self.filled_by(ts.drop_last(), budget, now, now_ms);
            let t = ts.last();
            if left <= 0 {
                (s, evs, left)
            } else {
                let q = if t.left < left {
                    t.left as int
                } else {
                    left
                };
                let (u, more) = s.filled(t.n, q, t.price, true, now, now_ms);
                (u, evs + more, left - q)
            }
        }
    }

    /// The external quote moved: orders that the market traded through fill.
    pub open spec fn quoted(self, bid: Ticks, ask: Ticks, now: Instant, now_ms: i64) -> (
        PaperView,
        Seq<PaperEventView>,
    ) {
        let s = PaperView { ext_bid: Some(bid), ext_ask: Some(ask), ..self };
        let (u, evs) = s.filled_all(through(s.orders, bid, ask), now, now_ms);
        (u.collected(), evs)
    }

    /// A public trade printed: resting orders at or beyond its price fill, in
    /// price order, out of its size.
    pub open spec fn printed(self, price: Ticks, signed_size: i64, now: Instant, now_ms: i64) -> (
        PaperView,
        Seq<PaperEventView>,
    ) {
        let hit = if signed_size < 0 {
            Side::Buy
        } else {
            Side::Sell
        };
        let size = if signed_size < 0 {
            -signed_size
        } else {
            signed_size as int
        };
        let (u, evs, left) = self.filled_by(
            hit_by(self.orders, hit, price),
            size,
            now,
            now_ms,
        );
        (u.collected(), evs)
    }

    /// A new order entered into the books.
    pub open spec fn entered(self, o: PaperOrderView) -> PaperView {
        PaperView {
            orders: self.orders.push(o),
            by_client: self.by_client.insert(o.client_id, o.n),
            ..self
        }
    }

    pub open spec fn not_found(message: Seq<char>) -> ResultView {
        ResultView::Error { label: "ORDER_NOT_FOUND"@, message }
    }

    /// A new order. A reduce-only order needs a position to close; a post-only
    /// order that would cross finishes as `poc` without entering the books.
    pub open spec fn placed(
        self,
        o: PaperOrderView,
        b: BookView,
        now: Instant,
        now_ms: i64,
    ) -> (PaperView, ResultView, Seq<PaperEventView>) {
        let s = PaperView { next_id: (self.next_id + 1) as u64, ..self };
        if o.reduce_only && self.closable(o.side) <= 0 {
            (
                s,
                ResultView::Error {
                    label: "REDUCE_ONLY_NO_POSITION"@,
                    message: "no position to reduce"@,
                },
                seq![],
            )
        } else if o.tif == Tif::Poc && (o.price matches Some(p) && self.meets(o.side, p)) {
            (s, ResultView::Placed(o.closed_as("poc"@).info(now_ms)), seq![])
        } else {
            let (u, evs) = s.entered(o).settled(o.n, b, now, now_ms);
            (u, ResultView::Placed(u.at(o.n).info(now_ms)), evs)
        }
    }

    /// A new price or total size for an order; it may have become marketable.
    pub open spec fn reworked(
        self,
        key: Seq<char>,
        price: Option<Ticks>,
        size: Option<i64>,
        b: BookView,
        now: Instant,
        now_ms: i64,
    ) -> (PaperView, ResultView, Seq<PaperEventView>) {
        match self.resolve(key) {
            Some(n) if !self.at(n).finished => {
                let a = amended(self.at(n), price, size);
                let (u, evs) = self.put(a).settled(n, b, now, now_ms);
                (
                    u,
                    ResultView::Amended(u.at(n).info(now_ms)),
                    seq![PaperEventView::Order(a.info(now_ms))] + evs,
                )
            },
            _ => (self, Self::not_found("paper: not found or finished"@), seq![]),
        }
    }

    pub open spec fn withdrawn(self, key: Seq<char>, now_ms: i64) -> (
        PaperView,
        ResultView,
        Seq<PaperEventView>,
    ) {
        match self.resolve(key) {
            Some(n) if !self.at(n).finished => {
                let o = self.at(n).closed_as("cancelled"@);
                (
                    self.put(o),
                    ResultView::Cancelled(o.info(now_ms)),
                    seq![PaperEventView::Order(o.info(now_ms))],
                )
            },
            _ => (self, Self::not_found("paper: not found or finished"@), seq![]),
        }
    }

    pub open spec fn looked_up(self, key: Seq<char>, now_ms: i64) -> ResultView {
        match self.resolve(key) {
            Some(n) => ResultView::Queried(self.at(n).info(now_ms)),
            None => Self::not_found("paper: not found"@),
        }
    }

    /// A command carried out: the exchange after it, the answer, and the reports
    /// that follow the answer.
    pub open spec fn carried_out(self, c: CommandView, b: BookView, now: Instant, now_ms: i64) -> (
        PaperView,
        ResultView,
        Seq<PaperEventView>,
    ) {
        match c {
            CommandView::Place { req_id, client_id, side, size, price, tif, reduce_only } => {
                self.placed(
                    PaperOrderView {
                        n: self.next_id,
                        client_id,
                        side,
                        price,
                        size,
                        left: size,
                        tif,
                        reduce_only,
                        finished: false,
                        finish_as: seq![],
                    },
                    b,
                    now,
                    now_ms,
                )
            },
            CommandView::Amend { req_id, exchange_id, client_id, price, size } => {
                self.reworked(exchange_id, price, size, b, now, now_ms)
            },
            CommandView::Cancel { req_id, exchange_id, client_id } => {
                self.withdrawn(key_of(exchange_id, client_id), now_ms)
            },
            CommandView::Query { req_id, exchange_id, client_id } => {
                (self, self.looked_up(key_of(exchange_id, client_id), now_ms), seq![])
            },
            CommandView::CancelAll { req_id } => {
                let evs = cancel_reports(self.orders, now_ms);
                (
                    PaperView { orders: all_cancelled(self.orders), ..self },
                    ResultView::CancelledAll(evs.len() as usize),
                    evs,
                )
            },
        }
    }

    /// A command executed: its answer comes first, then the reports.
    pub open spec fn executed(self, c: CommandView, b: BookView, now: Instant, now_ms: i64) -> (
        PaperView,
        Seq<PaperEventView>,
    ) {
        let (u, result, evs) = self.carried_out(c, b, now, now_ms);
        (
            u.collected(),
            seq![PaperEventView::Exec(ResponseView { req_id: c.req(), result, at: now })] + evs,
        )
    }
}

/// The exchange id where it is known, else the client id.
pub open spec fn key_of(exchange_id: Option<Seq<char>>, client_id: Seq<char>) -> Seq<char> {
    match exchange_id {
        Some(e) => e,
        None => client_id,
    }
}

/// An order with a new price and a new **total** size; a total that is already
/// filled closes it.
pub open spec fn amended(o: PaperOrderView, price: Option<Ticks>, size: Option<i64>) -> PaperOrderView {
    let a = PaperOrderView {
        price: match price {
            Some(p) => Some(p),
            None => o.price,
        },
        ..o
    };
    match size {
        None => a,
        Some(s) => {
            let filled = o.size - o.left;
            if s <= filled {
                PaperOrderView { left: 0, ..a }.closed_as("cancelled"@)
            } else {
                PaperOrderView { size: s, left: (s - filled) as i64, ..a }
            }
        },
    }
}

/// A command whose sizes the simulation admits in the state `v`.
pub open spec fn admits_command(v: PaperView, c: CommandView) -> bool {
    let size = match c {
        CommandView::Place { size, .. } => size as int,
        CommandView::Amend { size: Some(s), .. } => s as int,
        _ => 0,
    };
    &&& size <= MAX_CONTRACTS
    &&& c is Place ==> size >= 0
    &&& v.room(
        if size > 0 {
            size
        } else {
            0
        },
        1,
    )
}

proof fn lemma_place(orders: Seq<PaperOrderView>, i: int)
    requires
        ascending(orders),
        0 <= i < orders.len(),
    ensures
        listed(orders, orders[i].n),
        place_of(orders, orders[i].n) == i,
{
    let p = place_of(orders, orders[i].n);
    assert(orders[i].n == orders[i].n);
    if p < i {
        assert(orders[p].n < orders[i].n);
    } else if i < p {
        assert(orders[i].n < orders[p].n);
    }
}

/// Replacing one order changes the pending contracts by the difference.
proof fn lemma_adds_update(orders: Seq<PaperOrderView>, i: int, o: PaperOrderView, side: Side)
    requires
        0 <= i < orders.len(),
    ensures
        pending_adds(orders.update(i, o), side) == pending_adds(orders, side) - orders[i].adds_to(
            side,
        ) + o.adds_to(side),
    decreases orders.len(),
{
    let u = orders.update(i, o);
    if i == orders.len() - 1 {
        assert(u.drop_last() =~= orders.drop_last());
    } else {
        assert(u.drop_last() =~= orders.drop_last().update(i, o));
        lemma_adds_update(orders.drop_last(), i, o, side);
        assert(u.last() == orders.last());
    }
}

/// The pending contracts cover those of each order.
pub(crate) proof fn lemma_adds_cover(orders: Seq<PaperOrderView>, i: int, side: Side)
    requires
        0 <= i < orders.len(),
        forall|k: int| 0 <= k < orders.len() ==> (#[trigger] orders[k]).valid(),
    ensures
        0 <= orders[i].adds_to(side) <= pending_adds(orders, side),
    decreases orders.len(),
{
    assert(orders[orders.len() - 1].valid());
    let init = orders.drop_last();
    assert forall|k: int| 0 <= k < init.len() implies (#[trigger] init[k]).valid() by {
        assert(orders[k].valid());
    }
    if i == orders.len() - 1 {
        if init.len() > 0 {
            lemma_adds_cover(init, 0, side);
        }
    } else {
        lemma_adds_cover(init, i, side);
        assert(init[i] == orders[i]);
        assert(orders.last() == orders[orders.len() - 1]);
    }
    assert(pending_adds(orders, side) == pending_adds(init, side) + orders.last().adds_to(side));
}

proof fn lemma_adds_nonneg(orders: Seq<PaperOrderView>, side: Side)
    requires
        forall|k: int| 0 <= k < orders.len() ==> (#[trigger] orders[k]).valid(),
    ensures
        0 <= pending_adds(orders, side),
{
    if orders.len() > 0 {
        lemma_adds_cover(orders, 0, side);
    }
}

/// Replacing an order by one with the same number and client id keeps the books
/// in order.
proof fn lemma_paper_put(v: PaperView, o: PaperOrderView)
    requires
        v.wf(),
        listed(v.orders, o.n),
        o.valid(),
        o.client_id == v.at(o.n).client_id,
        forall|side: Side| #[trigger]
            v.load(side) - v.at(o.n).adds_to(side) + o.adds_to(side) <= MAX_CONTRACTS,
    ensures
        v.put(o).wf(),
        v.put(o).at(o.n) == o,
        v.put(o).orders.len() == v.orders.len(),
        forall|k: u64| #[trigger] listed(v.put(o).orders, k) == listed(v.orders, k),
        forall|k: u64|
            k != o.n && listed(v.orders, k) ==> #[trigger] v.put(o).at(k) == v.at(k),
        forall|side: Side| #[trigger]
            v.put(o).load(side) == v.load(side) - v.at(o.n).adds_to(side) + o.adds_to(side),
{
    let w = v.put(o);
    let p = place_of(v.orders, o.n);
    assert(0 <= p < v.orders.len() && v.orders[p].n == o.n);
    assert forall|i: int| 0 <= i < w.orders.len() implies (#[trigger] w.orders[i]).n
        == v.orders[i].n by {}
    assert(ascending(w.orders)) by {
        assert forall|i: int, j: int| 0 <= i < j < w.orders.len() implies (
        #[trigger] w.orders[i]).n < (#[trigger] w.orders[j]).n by {
            assert(v.orders[i].n < v.orders[j].n);
        }
    }
    lemma_place(w.orders, p);
    assert forall|k: u64| #[trigger] listed(w.orders, k) == listed(v.orders, k) by {
        if listed(v.orders, k) {
            let i = place_of(v.orders, k);
            assert(w.orders[i].n == k);
        }
        if listed(w.orders, k) {
            let i = place_of(w.orders, k);
            assert(v.orders[i].n == k);
        }
    }
    assert forall|i: int| 0 <= i < w.orders.len() implies (#[trigger] w.orders[i]).n < w.next_id
        && w.orders[i].valid() by {
        assert(v.orders[i].n < v.next_id);
        assert(v.orders[i].valid());
    }
    assert forall|k: Seq<char>| #[trigger] w.by_client.contains_key(k) implies listed(
        w.orders,
        w.by_client[k],
    ) && w.at(w.by_client[k]).client_id == k by {
        assert(v.by_client.contains_key(k));
        let n = v.by_client[k];
        assert(listed(w.orders, n) == listed(v.orders, n));
        if n != o.n {
            let i = place_of(v.orders, n);
            assert(v.orders[i].n == n);
            assert(w.orders[i] == v.orders[i]);
            lemma_place(w.orders, i);
        }
    }
    assert forall|side: Side| #[trigger]
        w.load(side) == v.load(side) - v.at(o.n).adds_to(side) + o.adds_to(side) by {
        lemma_adds_update(v.orders, p, o, side);
    }
    assert(v.load(Side::Buy) - v.at(o.n).adds_to(Side::Buy) + o.adds_to(Side::Buy)
        <= MAX_CONTRACTS);
    assert(v.load(Side::Sell) - v.at(o.n).adds_to(Side::Sell) + o.adds_to(Side::Sell)
        <= MAX_CONTRACTS);
    assert(w.load(Side::Buy) <= MAX_CONTRACTS);
    assert(w.load(Side::Sell) <= MAX_CONTRACTS);
    assert forall|k: u64| k != o.n && listed(v.orders, k) implies #[trigger] w.at(k) == v.at(k) by {
        let i = place_of(v.orders, k);
        assert(v.orders[i].n == k);
        assert(w.orders[i] == v.orders[i]);
        lemma_place(w.orders, i);
    }
}

/// A newly entered order keeps the books in order.
proof fn lemma_entered(v: PaperView, o: PaperOrderView)
    requires
        v.wf(),
        o.valid(),
        o.n < v.next_id,
        forall|i: int| 0 <= i < v.orders.len() ==> (#[trigger] v.orders[i]).n < o.n,
        v.load(Side::Buy) + o.adds_to(Side::Buy) <= MAX_CONTRACTS,
        v.load(Side::Sell) + o.adds_to(Side::Sell) <= MAX_CONTRACTS,
    ensures
        v.entered(o).wf(),
        v.entered(o).at(o.n) == o,
        listed(v.entered(o).orders, o.n),
        forall|side: Side| #[trigger]
            v.entered(o).load(side) == v.load(side) + o.adds_to(side),
{
    let w = v.entered(o);
    assert(ascending(w.orders)) by {
        assert forall|i: int, j: int| 0 <= i < j < w.orders.len() implies (
        #[trigger] w.orders[i]).n < (#[trigger] w.orders[j]).n by {
            assert(v.orders[i].n < o.n);
            if j < v.orders.len() {
                assert(v.orders[i].n < v.orders[j].n);
            }
        }
    }
    lemma_place(w.orders, v.orders.len() as int);
    assert forall|i: int| 0 <= i < w.orders.len() implies (#[trigger] w.orders[i]).n < w.next_id
        && w.orders[i].valid() by {
        if i < v.orders.len() {
            assert(v.orders[i].valid());
        }
    }
    assert forall|k: Seq<char>| #[trigger] w.by_client.contains_key(k) implies listed(
        w.orders,
        w.by_client[k],
    ) && w.at(w.by_client[k]).client_id == k by {
        if k != o.client_id {
            assert(v.by_client.contains_key(k));
            let n = v.by_client[k];
            let i = place_of(v.orders, n);
            assert(v.orders[i].n == n);
            assert(w.orders[i] == v.orders[i]);
            lemma_place(w.orders, i);
        }
    }
    assert forall|side: Side| #[trigger]
        w.load(side) == v.load(side) + o.adds_to(side) by {
        assert(w.orders.drop_last() =~= v.orders);
    }
    assert(w.load(Side::Buy) <= MAX_CONTRACTS);
    assert(w.load(Side::Sell) <= MAX_CONTRACTS);
}

/// A fill keeps the books in order and never raises the load.
proof fn lemma_filled(
    v: PaperView,
    n: u64,
    qty: int,
    price: Ticks,
    maker: bool,
    now: Instant,
    now_ms: i64,
)
    requires
        v.wf(),
        listed(v.orders, n),
        !v.at(n).finished,
        v.next_trade < u64::MAX,
    ensures
        ({
            let w = v.filled(n, qty, price, maker, now, now_ms).0;
            let o = v.at(n);
            let wanted = if qty < o.left {
                qty
            } else {
                o.left as int
            };
            let avail = v.closable(o.side) as int;
            let q = if o.reduce_only && avail < wanted {
                avail
            } else {
                wanted
            };
            &&& w.wf()
            &&& w.load(Side::Buy) <= v.load(Side::Buy)
            &&& w.load(Side::Sell) <= v.load(Side::Sell)
            &&& w.next_id == v.next_id
            &&& v.next_trade <= w.next_trade <= v.next_trade + 1
            &&& w.orders.len() == v.orders.len()
            &&& forall|k: u64| #[trigger] listed(w.orders, k) == listed(v.orders, k)
            &&& forall|k: u64| k != n && listed(v.orders, k) ==> #[trigger] w.at(k) == v.at(k)
            &&& w.at(n).n == n
            &&& w.at(n).client_id == o.client_id
            &&& q > 0 ==> v.pos.admits_fill(q * o.side.spec_sign(), o.reduce_only)
        }),
{
    let o = v.at(n);
    let p = place_of(v.orders, n);
    assert(v.orders[p].n == n);
    assert(o.valid());
    let wanted = if qty < o.left {
        qty
    } else {
        o.left as int
    };
    let avail = v.closable(o.side) as int;
    let q = if o.reduce_only && avail < wanted {
        avail
    } else {
        wanted
    };
    lemma_adds_cover(v.orders, p, Side::Buy);
    lemma_adds_cover(v.orders, p, Side::Sell);
    let w = v.filled(n, qty, price, maker, now, now_ms).0;
    if wanted > 0 && q <= 0 {
        let c = PaperOrderView { left: 0, ..o }.closed_as("reduce_only"@);
        lemma_paper_put(v, c);
        assert(v.put(c).load(Side::Buy) == v.load(Side::Buy) - o.adds_to(Side::Buy) + c.adds_to(
            Side::Buy,
        ));
        assert(v.put(c).load(Side::Sell) == v.load(Side::Sell) - o.adds_to(Side::Sell) + c.adds_to(
            Side::Sell,
        ));
    } else if wanted > 0 {
        let left = (o.left - q) as i64;
        let f = if left == 0 {
            PaperOrderView { left, ..o }.closed_as("filled"@)
        } else {
            PaperOrderView { left, ..o }
        };
        lemma_paper_put(v, f);
        let u = v.put(f);
        assert(u.load(Side::Buy) == v.load(Side::Buy) - o.adds_to(Side::Buy) + f.adds_to(
            Side::Buy,
        ));
        assert(u.load(Side::Sell) == v.load(Side::Sell) - o.adds_to(Side::Sell) + f.adds_to(
            Side::Sell,
        ));
        let signed = q * o.side.spec_sign();
        assert(signed == (if o.side == Side::Buy {
            q
        } else {
            -q
        }));
        assert(w.orders == u.orders);
        assert(w.by_client == u.by_client);
        assert forall|k: u64| k != n && listed(v.orders, k) implies #[trigger] w.at(k) == v.at(
            k,
        ) by {
            assert(u.at(k) == v.at(k));
        }
        assert forall|k: Seq<char>| #[trigger] w.by_client.contains_key(k) implies listed(
            w.orders,
            w.by_client[k],
        ) && w.at(w.by_client[k]).client_id == k by {
            assert(u.by_client.contains_key(k));
        }
    }
}

pub struct PaperExchange {
    orders: Vec<PaperOrder>,
    by_client: StringHashMap<u64>,
    next_id: u64,
    next_trade: u64,
    pos: Positions,
    ext_bid: Option<Ticks>,
    ext_ask: Option<Ticks>,
}

impl View for PaperExchange {
    type V = PaperView;

    closed spec fn view(&self) -> PaperView {
        PaperView {
            orders: self.orders@.map_values(|o: PaperOrder| o.of()),
            by_client: self.by_client@,
            next_id: self.next_id,
            next_trade: self.next_trade,
            pos: self.pos,
            ext_bid: self.ext_bid,
            ext_ask: self.ext_ask,
        }
    }
}

proof fn lemma_events_push(evs: Seq<PaperEvent>, e: PaperEvent)
    ensures
        event_views(evs.push(e)) == event_views(evs).push(e@),
{
    assert(event_views(evs.push(e)) =~= event_views(evs).push(e@));
}

impl PaperExchange {
    pub fn new() -> (r: PaperExchange)
        ensures
            r@ == PaperView::empty(),
            r@.wf(),
    {
        let r = PaperExchange {
            orders: Vec::new(),
            by_client: StringHashMap::new(),
            next_id: 1,
            next_trade: 1,
            pos: Positions::default(),
            ext_bid: None,
            ext_ask: None,
        };
        assert(r@.orders =~= seq![]);
        r
    }

    /// The simulated positions.
    pub fn positions(&self) -> (r: Positions)
        ensures
            r == self@.pos,
    {
        self.pos
    }

    /// Price (none for a market order) and remaining contracts of every open
    /// order, for the account's order margin.
    pub fn open_quantities(&self) -> (r: Vec<(Option<Ticks>, i64)>)
        ensures
            r@ == open_parts(self@.orders),
    {
        let ghost views = self@.orders;
        let mut r: Vec<(Option<Ticks>, i64)> = Vec::new();
        let mut i: usize = 0;
        assert(views.take(0) =~= seq![]);
        while i < self.orders.len()
            invariant
                i <= self.orders.len(),
                views == self@.orders,
                r@ == open_parts(views.take(i as int)),
            decreases self.orders.len() - i,
        {
            assert(views[i as int] == self.orders@[i as int].of());
            if !self.orders[i].finished {
                r.push((self.orders[i].price, self.orders[i].left));
            }
            i = i + 1;
            proof {
                assert(views.take(i as int).drop_last() =~= views.take(i - 1));
                assert(views.take(i as int).last() == views[i - 1]);
            }
        }
        assert(views.take(i as int) =~= views);
        r
    }

    fn index_of(&self, n: u64) -> (i: usize)
        requires
            self@.wf(),
            listed(self@.orders, n),
        ensures
            i < self.orders.len(),
            self@.at(n) == self.orders@[i as int].of(),
            self.orders@[i as int].n == n,
            place_of(self@.orders, n) == i,
    {
        let mut i: usize = 0;
        let ghost p = place_of(self@.orders, n);
        assert(0 <= p < self@.orders.len() && self@.orders[p].n == n);
        while self.orders[i].n != n
            invariant
                i <= p < self.orders.len(),
                self@.orders[p].n == n,
            decreases self.orders.len() - i,
        {
            assert(self@.orders[i as int] == self.orders@[i as int].of());
            i = i + 1;
        }
        proof {
            assert(self@.orders[i as int] == self.orders@[i as int].of());
            lemma_place(self@.orders, i as int);
        }
        i
    }

    fn resolve(&self, key: &str) -> (r: Option<u64>)
        requires
            self@.wf(),
        ensures
            r == self@.resolve(key@),
            r matches Some(n) ==> listed(self@.orders, n),
    {
        let ghost views = self@.orders;
        let mut k: usize = self.orders.len();
        assert(views.take(k as int) =~= views);
        while k > 0
            invariant
                k <= self.orders.len(),
                views == self@.orders,
                named(views, key@) == named(views.take(k as int), key@),
            decreases k,
        {
            proof {
                assert(views.take(k as int).drop_last() =~= views.take(k - 1));
                assert(views.take(k as int).last() == views[k - 1]);
                assert(views[k - 1] == self.orders@[k - 1].of());
            }
            let id = id_text(self.orders[k - 1].n);
            if text::same(id.as_str(), key) {
                assert(views[k - 1].n == self.orders@[k - 1].n);
                return Some(self.orders[k - 1].n);
            }
            k = k - 1;
        }
        match self.by_client.get(key) {
            Some(n) => {
                assert(self@.by_client.contains_key(key@));
                Some(*n)
            },
            None => None,
        }
    }

    fn closable(&self, side: Side) -> (r: i64)
        ensures
            r == self@.closable(side),
    {
        match side {
            Side::Sell => self.pos.long,
            Side::Buy => self.pos.short,
        }
    }

    fn meets(&self, side: Side, p: Ticks) -> (r: bool)
        ensures
            r == self@.meets(side, p),
    {
        match side {
            Side::Buy => match self.ext_ask {
                Some(a) => p >= a,
                None => false,
            },
            Side::Sell => match self.ext_bid {
                Some(b) => p <= b,
                None => false,
            },
        }
    }

    fn fill(
        &mut self,
        n: u64,
        qty: i64,
        price: Ticks,
        maker: bool,
        now: Instant,
        now_ms: i64,
        out: &mut Vec<PaperEvent>,
    )
        requires
            old(self)@.wf(),
            listed(old(self)@.orders, n),
            !old(self)@.at(n).finished,
            old(self)@.next_trade < u64::MAX,
        ensures
            final(self)@ == old(self)@.filled(n, qty as int, price, maker, now, now_ms).0,
            event_views(final(out)@) == event_views(old(out)@) + old(self)@.filled(
                n,
                qty as int,
                price,
                maker,
                now,
                now_ms,
            ).1,
            final(self)@.wf(),
    {
        let ghost v = self@;
        proof {
            lemma_filled(v, n, qty as int, price, maker, now, now_ms);
            assert(event_views(old(out)@) + Seq::<PaperEventView>::empty() =~= event_views(
                old(out)@,
            ));
        }
        let i: usize = self.index_of(n);
        assert(v.orders[i as int].valid());
        let mut q: i64 = if qty < self.orders[i].left {
            qty
        } else {
            self.orders[i].left
        };
        if q <= 0 {
            return ;
        }
        if self.orders[i].reduce_only {
            let avail: i64 = self.closable(self.orders[i].side);
            if avail < q {
                q = avail;
            }
            if q <= 0 {
                self.orders[i].left = 0;
                self.orders[i].finished = true;
                self.orders[i].finish_as = "reduce_only".to_string();
                let info = self.orders[i].info(now_ms);
                let ghost iv = info@;
                out.push(PaperEvent::Order(info));
                proof {
                    lemma_events_push(old(out)@, PaperEvent::Order(info));
                    assert(self@.orders =~= v.filled(
                        n,
                        qty as int,
                        price,
                        maker,
                        now,
                        now_ms,
                    ).0.orders);
                    assert(event_views(old(out)@).push(PaperEventView::Order(iv)) =~= event_views(
                        old(out)@,
                    ) + seq![PaperEventView::Order(iv)]);
                }
                return ;
            }
        }
        let left: i64 = self.orders[i].left - q;
        self.orders[i].left = left;
        if left == 0 {
            self.orders[i].finished = true;
            self.orders[i].finish_as = "filled".to_string();
        }
        let info = self.orders[i].info(now_ms);
        let signed: i64 = match self.orders[i].side {
            Side::Buy => q,
            Side::Sell => -q,
        };
        assert(signed == q * v.at(n).side.spec_sign()) by {
            let sign = v.at(n).side.spec_sign();
            assert(sign == 1 ==> q * sign == q) by (nonlinear_arith);
            assert(sign == -1 ==> q * sign == -q) by (nonlinear_arith);
        }
        let reduce = self.orders[i].reduce_only;
        let client_id = self.orders[i].client_id.clone();
        let effect = self.pos.apply_fill(signed, reduce);
        let mut trade_id = "pt".to_string();
        text::push_decimal(&mut trade_id, self.next_trade);
        self.next_trade = self.next_trade + 1;
        let t = PaperEvent::Trade(
            UserTrade {
                trade_id,
                exchange_order_id: id_text(n),
                client_id,
                signed_size: signed,
                price,
                price_f64: (),
                fee: (),
                is_maker: maker,
                exch_ms: now_ms,
                at: now,
            },
            effect,
        );
        let ghost tv = t@;
        let ghost iv = info@;
        out.push(t);
        out.push(PaperEvent::Order(info));
        proof {
            reveal_strlit("pt");
            assert("pt"@ =~= seq!['p', 't']);
            lemma_events_push(old(out)@, t);
            lemma_events_push(old(out)@.push(t), PaperEvent::Order(info));
            let w = v.filled(n, qty as int, price, maker, now, now_ms);
            assert(self@.orders =~= w.0.orders);
            assert(event_views(old(out)@).push(tv).push(PaperEventView::Order(iv)) =~= event_views(
                old(out)@,
            ) + seq![tv, PaperEventView::Order(iv)]);
        }
    }
}

/// Closing an order only frees contracts.
proof fn lemma_closed(v: PaperView, n: u64, how: Seq<char>)
    requires
        v.wf(),
        listed(v.orders, n),
    ensures
        v.put(v.at(n).closed_as(how)).wf(),
        v.put(v.at(n).closed_as(how)).at(n) == v.at(n).closed_as(how),
        listed(v.put(v.at(n).closed_as(how)).orders, n),
        v.at(n).n == n,
{
    let p = place_of(v.orders, n);
    assert(0 <= p < v.orders.len() && v.orders[p].n == n);
    assert(v.orders[p].valid());
    let c = v.at(n).closed_as(how);
    assert forall|side: Side| #[trigger]
        v.load(side) - v.at(c.n).adds_to(side) + c.adds_to(side) <= MAX_CONTRACTS by {
        lemma_adds_cover(v.orders, p, side);
    }
    lemma_paper_put(v, c);
    assert(listed(v.put(c).orders, n) == listed(v.orders, n));
}

impl PaperExchange {
    /// Close an order and report it.
    fn close(&mut self, n: u64, how: &str, now_ms: i64, out: &mut Vec<PaperEvent>)
        requires
            old(self)@.wf(),
            listed(old(self)@.orders, n),
        ensures
            final(self)@ == old(self)@.put(old(self)@.at(n).closed_as(how@)),
            event_views(final(out)@) == event_views(old(out)@).push(
                PaperEventView::Order(old(self)@.at(n).closed_as(how@).info(now_ms)),
            ),
            final(self)@.wf(),
    {
        let ghost v = self@;
        proof {
            lemma_closed(v, n, how@);
        }
        let i: usize = self.index_of(n);
        self.orders[i].finished = true;
        self.orders[i].finish_as = how.to_string();
        let info = self.orders[i].info(now_ms);
        out.push(PaperEvent::Order(info));
        proof {
            lemma_events_push(old(out)@, PaperEvent::Order(info));
            assert(self@.orders =~= v.put(v.at(n).closed_as(how@)).orders);
        }
    }

    fn sweep_fill(
        &mut self,
        n: u64,
        book: &LocalBook,
        limit: Option<Ticks>,
        now: Instant,
        now_ms: i64,
        out: &mut Vec<PaperEvent>,
    )
        requires
            old(self)@.wf(),
            listed(old(self)@.orders, n),
            !old(self)@.at(n).finished,
            old(self)@.next_trade < u64::MAX,
            book.wf(),
        ensures
            final(self)@ == old(self)@.swept(n, book@, limit, now, now_ms).0,
            event_views(final(out)@) == event_views(old(out)@) + old(self)@.swept(
                n,
                book@,
                limit,
                now,
                now_ms,
            ).1,
            final(self)@.wf(),
            listed(final(self)@.orders, n),
    {
        let ghost v = self@;
        let ghost base = event_views(out@);
        let i: usize = self.index_of(n);
        let own: Vec<(Side, Ticks, i64)> = Vec::new();
        let sw = book.sweep(self.orders[i].side, self.orders[i].left, own.as_slice(), limit);
        let ghost o = v.at(n);
        proof {
            assert(own@ =~= seq![]);
        }
        if sw.filled > 0 {
            proof {
                lemma_filled(
                    v,
                    n,
                    sw.filled as int,
                    book::nearest(sw.cost as int, sw.filled as int) as i64,
                    false,
                    now,
                    now_ms,
                );
            }
            let px: Ticks = sw.average_price();
            self.fill(n, sw.filled, px, false, now, now_ms, out);
            assert(listed(self@.orders, n) == listed(v.orders, n));
        } else {
            assert(base + Seq::<PaperEventView>::empty() =~= base);
        }
        let ghost mid = self@;
        let ghost evs = event_views(out@);
        let j: usize = self.index_of(n);
        if !self.orders[j].finished {
            self.close(n, "ioc", now_ms, out);
            proof {
                lemma_closed(mid, n, "ioc"@);
                let e = PaperEventView::Order(mid.at(n).closed_as("ioc"@).info(now_ms));
                let head = if sw.filled > 0 {
                    v.filled(
                        n,
                        sw.filled as int,
                        book::nearest(sw.cost as int, sw.filled as int) as i64,
                        false,
                        now,
                        now_ms,
                    ).1
                } else {
                    seq![]
                };
                assert(evs =~= base + head);
                assert(evs.push(e) =~= base + (head + seq![e]));
            }
        }
    }

    fn after_place(
        &mut self,
        n: u64,
        book: &LocalBook,
        now: Instant,
        now_ms: i64,
        out: &mut Vec<PaperEvent>,
    )
        requires
            old(self)@.wf(),
            listed(old(self)@.orders, n),
            old(self)@.next_trade < u64::MAX,
            book.wf(),
        ensures
            final(self)@ == old(self)@.settled(n, book@, now, now_ms).0,
            event_views(final(out)@) == event_views(old(out)@) + old(self)@.settled(
                n,
                book@,
                now,
                now_ms,
            ).1,
            final(self)@.wf(),
            listed(final(self)@.orders, n),
    {
        proof {
            assert(event_views(out@) + Seq::<PaperEventView>::empty() =~= event_views(out@));
        }
        let i: usize = self.index_of(n);
        if self.orders[i].finished {
            return ;
        }
        let tif = self.orders[i].tif;
        let price = self.orders[i].price;
        let side = self.orders[i].side;
        if tif == Tif::Ioc {
            self.sweep_fill(n, book, price, now, now_ms, out);
        } else if let Some(p) = price {
            if self.meets(side, p) {
                if tif == Tif::Poc {
                    proof {
                        lemma_closed(self@, n, "poc"@);
                        let e = PaperEventView::Order(self@.at(n).closed_as("poc"@).info(now_ms));
                        assert(event_views(out@).push(e) =~= event_views(out@) + seq![e]);
                    }
                    self.close(n, "poc", now_ms, out);
                } else {
                    self.sweep_fill(n, book, Some(p), now, now_ms, out);
                }
            }
        }
    }
}

/// What dropping the finished orders keeps.
proof fn lemma_without_finished(orders: Seq<PaperOrderView>, m: Map<Seq<char>, u64>)
    requires
        ascending(orders),
    ensures
        ({
            let (h, r) = without_finished(orders, m);
            &&& ascending(h)
            &&& h.len() <= orders.len()
            &&& forall|i: int|
                0 <= i < h.len() ==> exists|j: int|
                    0 <= j < orders.len() && #[trigger] orders[j] == #[trigger] h[i]
            &&& forall|j: int|
                0 <= j < orders.len() && !(#[trigger] orders[j]).finished ==> listed(
                    h,
                    orders[j].n,
                ) && h[place_of(h, orders[j].n)] == orders[j]
            &&& forall|k: Seq<char>| #[trigger]
                r.contains_key(k) ==> m.contains_key(k) && r[k] == m[k]
            &&& forall|k: Seq<char>, j: int|
                #[trigger] r.contains_key(k) && 0 <= j < orders.len() && (
                #[trigger] orders[j]).finished ==> orders[j].client_id != k
            &&& forall|side: Side| #[trigger] pending_adds(h, side) == pending_adds(orders, side)
        }),
    decreases orders.len(),
{
    if orders.len() > 0 {
        let init = orders.drop_last();
        let last = orders.last();
        assert forall|i: int, j: int| 0 <= i < j < init.len() implies (#[trigger] init[i]).n < (
        #[trigger] init[j]).n by {
            assert(orders[i].n < orders[j].n);
        }
        lemma_without_finished(init, m);
        let (g, q) = without_finished(init, m);
        let (h, r) = without_finished(orders, m);
        assert forall|i: int| 0 <= i < h.len() implies exists|j: int|
            0 <= j < orders.len() && #[trigger] orders[j] == #[trigger] h[i] by {
            if i < g.len() {
                assert(h[i] == g[i]);
                let j = choose|j: int| 0 <= j < init.len() && #[trigger] init[j] == g[i];
                assert(orders[j] == h[i]);
            } else {
                assert(orders[orders.len() - 1] == h[i]);
            }
        }
        assert forall|i: int, j: int| 0 <= i < j < h.len() implies (#[trigger] h[i]).n < (
        #[trigger] h[j]).n by {
            assert(h[i] == g[i]);
            if j < g.len() {
                assert(h[j] == g[j]);
            } else {
                let k = choose|k: int| 0 <= k < init.len() && #[trigger] init[k] == g[i];
                assert(orders[k].n < orders[orders.len() - 1].n);
            }
        }
        assert forall|j: int| 0 <= j < orders.len() && !(
        #[trigger] orders[j]).finished implies listed(h, orders[j].n) && h[place_of(
            h,
            orders[j].n,
        )] == orders[j] by {
            if j < init.len() {
                assert(init[j] == orders[j]);
                let p = place_of(g, init[j].n);
                assert(listed(g, init[j].n));
                assert(g[p].n == init[j].n);
                assert(h[p] == g[p]);
                lemma_place(h, p);
            } else {
                lemma_place(h, h.len() - 1);
            }
        }
        assert forall|k: Seq<char>, j: int|
            #[trigger] r.contains_key(k) && 0 <= j < orders.len() && (
            #[trigger] orders[j]).finished implies orders[j].client_id != k by {
            if j < init.len() {
                assert(init[j] == orders[j]);
                assert(q.contains_key(k));
            }
        }
        assert forall|side: Side| #[trigger]
            pending_adds(h, side) == pending_adds(orders, side) by {
            assert(pending_adds(g, side) == pending_adds(init, side));
            if !last.finished {
                assert(h.drop_last() =~= g);
            }
        }
    }
}

proof fn lemma_collected(v: PaperView)
    requires
        v.wf(),
    ensures
        v.collected().wf(),
{
    if v.orders.len() > MAX_ORDERS {
        lemma_without_finished(v.orders, v.by_client);
        let w = v.collected();
        let (h, r) = without_finished(v.orders, v.by_client);
        assert forall|i: int| 0 <= i < w.orders.len() implies (#[trigger] w.orders[i]).n
            < w.next_id && w.orders[i].valid() by {
            let j = choose|j: int| 0 <= j < v.orders.len() && #[trigger] v.orders[j] == h[i];
            assert(v.orders[j].valid());
        }
        assert forall|k: Seq<char>| #[trigger] w.by_client.contains_key(k) implies listed(
            w.orders,
            w.by_client[k],
        ) && w.at(w.by_client[k]).client_id == k by {
            assert(v.by_client.contains_key(k));
            let n = v.by_client[k];
            let p = place_of(v.orders, n);
            assert(v.orders[p].n == n);
            assert(!v.orders[p].finished);
        }
        assert(pending_adds(h, Side::Buy) == pending_adds(v.orders, Side::Buy));
        assert(pending_adds(h, Side::Sell) == pending_adds(v.orders, Side::Sell));
    }
}

impl PaperExchange {
    fn gc(&mut self)
        requires
            old(self)@.wf(),
        ensures
            final(self)@ == old(self)@.collected(),
            final(self)@.wf(),
    {
        let ghost v = self@;
        proof {
            lemma_collected(v);
        }
        if self.orders.len() > MAX_ORDERS {
            let total: usize = self.orders.len();
            let mut seen: usize = 0;
            let mut i: usize = 0;
            proof {
                assert(v.orders.take(0) =~= seq![]);
                assert(self@.orders =~= without_finished(v.orders.take(0), v.by_client).0
                    + v.orders.skip(0));
            }
            while seen < total
                invariant
                    i <= seen <= total,
                    total == v.orders.len(),
                    i == without_finished(v.orders.take(seen as int), v.by_client).0.len(),
                    self@.orders == without_finished(v.orders.take(seen as int), v.by_client).0
                        + v.orders.skip(seen as int),
                    self@.by_client == without_finished(
                        v.orders.take(seen as int),
                        v.by_client,
                    ).1,
                    self@.next_id == v.next_id,
                    self@.next_trade == v.next_trade,
                    self@.pos == v.pos,
                    self@.ext_bid == v.ext_bid,
                    self@.ext_ask == v.ext_ask,
                decreases total - seen,
            {
                let ghost head = without_finished(v.orders.take(seen as int), v.by_client);
                let ghost before = self@.orders;
                proof {
                    assert(v.orders.take(seen + 1).drop_last() =~= v.orders.take(seen as int));
                    assert(v.orders.take(seen + 1).last() == v.orders[seen as int]);
                    assert(before[i as int] == v.orders[seen as int]);
                    assert(self.orders@.len() == before.len());
                    assert(before[i as int] == self.orders@[i as int].of());
                }
                if self.orders[i].finished {
                    let dead = self.orders.remove(i);
                    self.by_client.remove(dead.client_id.as_str());
                    proof {
                        assert(self@.orders =~= before.remove(i as int));
                        assert(self@.orders =~= head.0 + v.orders.skip(seen + 1));
                    }
                } else {
                    i = i + 1;
                    proof {
                        assert(before =~= head.0.push(v.orders[seen as int]) + v.orders.skip(
                            seen + 1,
                        ));
                    }
                }
                seen = seen + 1;
            }
            proof {
                assert(v.orders.take(seen as int) =~= v.orders);
                assert(self@.orders =~= v.collected().orders);
            }
        }
    }
}

/// An open order has this number.
pub open spec fn is_open(orders: Seq<PaperOrderView>, n: u64) -> bool {
    exists|k: int| 0 <= k < orders.len() && (#[trigger] orders[k]).n == n && !orders[k].finished
}

/// Open orders, each listed once.
pub open spec fn are_targets(ts: Seq<Target>, orders: Seq<PaperOrderView>) -> bool {
    &&& forall|i: int|
        0 <= i < ts.len() ==> is_open(orders, (#[trigger] ts[i]).n) && ts[i].left >= 0
    &&& forall|i: int, j: int|
        0 <= i < j < ts.len() ==> (#[trigger] ts[i]).n != (#[trigger] ts[j]).n
}

proof fn lemma_open_grows(orders: Seq<PaperOrderView>, n: u64)
    requires
        orders.len() > 0,
        is_open(orders.drop_last(), n),
    ensures
        is_open(orders, n),
        ascending(orders) ==> n < orders.last().n,
{
    let k = choose|k: int|
        0 <= k < orders.drop_last().len() && (#[trigger] orders.drop_last()[k]).n == n
            && !orders.drop_last()[k].finished;
    assert(orders[k].n == n);
    if ascending(orders) {
        assert(orders[k].n < orders[orders.len() - 1].n);
    }
}

proof fn lemma_through(orders: Seq<PaperOrderView>, bid: Ticks, ask: Ticks)
    requires
        ascending(orders),
        forall|i: int| 0 <= i < orders.len() ==> (#[trigger] orders[i]).valid(),
    ensures
        are_targets(through(orders, bid, ask), orders),
        through(orders, bid, ask).len() <= orders.len(),
    decreases orders.len(),
{
    if orders.len() > 0 {
        let init = orders.drop_last();
        assert(ascending(init)) by {
            assert forall|i: int, j: int| 0 <= i < j < init.len() implies (
            #[trigger] init[i]).n < (#[trigger] init[j]).n by {
                assert(orders[i].n < orders[j].n);
            }
        }
        assert forall|i: int| 0 <= i < init.len() implies (#[trigger] init[i]).valid() by {
            assert(orders[i].valid());
        }
        assert(orders[orders.len() - 1].valid());
        lemma_through(init, bid, ask);
        let head = through(init, bid, ask);
        let ts = through(orders, bid, ask);
        assert forall|i: int| 0 <= i < ts.len() implies is_open(
            orders,
            (#[trigger] ts[i]).n,
        ) && ts[i].left >= 0 by {
            if i < head.len() {
                assert(ts[i] == head[i]);
                lemma_open_grows(orders, head[i].n);
            } else {
                assert(orders[orders.len() - 1].n == ts[i].n);
            }
        }
        assert forall|i: int, j: int| 0 <= i < j < ts.len() implies (#[trigger] ts[i]).n != (
        #[trigger] ts[j]).n by {
            assert(ts[i] == head[i]);
            lemma_open_grows(orders, head[i].n);
            if j < head.len() {
                assert(ts[j] == head[j]);
            }
        }
    }
}

/// Where a target is put into the list.
proof fn lemma_ranked(list: Seq<Target>, t: Target, hit: Side, at: int)
    requires
        0 <= at <= list.len(),
        forall|k: int| at <= k < list.len() ==> better(hit, t.price, (#[trigger] list[k]).price),
        at == 0 || !better(hit, t.price, list[at - 1].price),
    ensures
        ranked(list, t, hit) == list.insert(at, t),
    decreases list.len(),
{
    if at == list.len() {
        assert(list.push(t) =~= list.insert(at, t));
    } else {
        assert(better(hit, t.price, list[list.len() - 1].price));
        let init = list.drop_last();
        assert forall|k: int| at <= k < init.len() implies better(
            hit,
            t.price,
            (#[trigger] init[k]).price,
        ) by {
            assert(init[k] == list[k]);
        }
        lemma_ranked(init, t, hit, at);
        assert(init.insert(at, t).push(list.last()) =~= list.insert(at, t));
    }
}

/// Ranking keeps the members of the list.
proof fn lemma_ranked_members(list: Seq<Target>, t: Target, hit: Side)
    ensures
        ranked(list, t, hit).len() == list.len() + 1,
        exists|p: int|
            0 <= p <= list.len() && ranked(list, t, hit) == #[trigger] list.insert(p, t),
    decreases list.len(),
{
    if list.len() == 0 || !better(hit, t.price, list.last().price) {
        assert(list.push(t) =~= list.insert(list.len() as int, t));
    } else {
        let init = list.drop_last();
        lemma_ranked_members(init, t, hit);
        let p = choose|p: int|
            0 <= p <= init.len() && ranked(init, t, hit) == #[trigger] init.insert(p, t);
        assert(init.insert(p, t).push(list.last()) =~= list.insert(p, t));
    }
}

proof fn lemma_hit_by(orders: Seq<PaperOrderView>, hit: Side, price: Ticks)
    requires
        ascending(orders),
        forall|i: int| 0 <= i < orders.len() ==> (#[trigger] orders[i]).valid(),
    ensures
        are_targets(hit_by(orders, hit, price), orders),
        hit_by(orders, hit, price).len() <= orders.len(),
    decreases orders.len(),
{
    if orders.len() > 0 {
        let init = orders.drop_last();
        assert(ascending(init)) by {
            assert forall|i: int, j: int| 0 <= i < j < init.len() implies (
            #[trigger] init[i]).n < (#[trigger] init[j]).n by {
                assert(orders[i].n < orders[j].n);
            }
        }
        assert forall|i: int| 0 <= i < init.len() implies (#[trigger] init[i]).valid() by {
            assert(orders[i].valid());
        }
        assert(orders[orders.len() - 1].valid());
        lemma_hit_by(init, hit, price);
        let head = hit_by(init, hit, price);
        let ts = hit_by(orders, hit, price);
        assert forall|i: int| 0 <= i < head.len() implies is_open(orders, (#[trigger] head[i]).n)
            && head[i].n < orders.last().n by {
            lemma_open_grows(orders, head[i].n);
        }
        if ts != head {
            let o = orders.last();
            let t = Target { n: o.n, price: o.price->0, left: o.left };
            lemma_ranked_members(head, t, hit);
            let p = choose|p: int|
                0 <= p <= head.len() && ranked(head, t, hit) == #[trigger] head.insert(p, t);
            assert(ts == head.insert(p, t));
            assert(is_open(orders, t.n)) by {
                assert(orders[orders.len() - 1].n == t.n);
            }
            assert forall|i: int| 0 <= i < ts.len() implies is_open(
                orders,
                (#[trigger] ts[i]).n,
            ) && ts[i].left >= 0 by {
                if i < p {
                    assert(ts[i] == head[i]);
                } else if i > p {
                    assert(ts[i] == head[i - 1]);
                }
            }
            assert forall|i: int, j: int| 0 <= i < j < ts.len() implies (#[trigger] ts[i]).n != (
            #[trigger] ts[j]).n by {
                let a = if i < p {
                    head[i].n
                } else if i > p {
                    head[i - 1].n
                } else {
                    t.n
                };
                let b = if j < p {
                    head[j].n
                } else if j > p {
                    head[j - 1].n
                } else {
                    t.n
                };
                assert(ts[i].n == a);
                assert(ts[j].n == b);
            }
        }
    }
}

/// The order with an open number.
proof fn lemma_open_at(v: PaperView, n: u64)
    requires
        v.wf(),
        is_open(v.orders, n),
    ensures
        listed(v.orders, n),
        !v.at(n).finished,
{
    let k = choose|k: int|
        0 <= k < v.orders.len() && (#[trigger] v.orders[k]).n == n && !v.orders[k].finished;
    lemma_place(v.orders, k);
}

impl PaperExchange {
    fn fill_targets(
        &mut self,
        ts: &Vec<Target>,
        now: Instant,
        now_ms: i64,
        out: &mut Vec<PaperEvent>,
    )
        requires
            old(self)@.wf(),
            are_targets(ts@, old(self)@.orders),
            old(self)@.next_trade + ts.len() <= u64::MAX,
        ensures
            final(self)@ == old(self)@.filled_all(ts@, now, now_ms).0,
            event_views(final(out)@) == event_views(old(out)@) + old(self)@.filled_all(
                ts@,
                now,
                now_ms,
            ).1,
            final(self)@.wf(),
    {
        let ghost v = self@;
        let ghost base = event_views(out@);
        let mut i: usize = 0;
        proof {
            assert(ts@.take(0) =~= seq![]);
            assert(base + Seq::<PaperEventView>::empty() =~= base);
            assert forall|k: int| 0 <= k < ts.len() implies listed(
                self@.orders,
                (#[trigger] ts@[k]).n,
            ) && !self@.at(ts@[k].n).finished by {
                lemma_open_at(v, ts@[k].n);
            }
        }
        while i < ts.len()
            invariant
                i <= ts.len(),
                self@.wf(),
                are_targets(ts@, v.orders),
                self@.next_trade + (ts.len() - i) <= u64::MAX,
                forall|k: int|
                    i <= k < ts.len() ==> listed(self@.orders, (#[trigger] ts@[k]).n) && !self@.at(
                        ts@[k].n,
                    ).finished,
                self@ == v.filled_all(ts@.take(i as int), now, now_ms).0,
                event_views(out@) == base + v.filled_all(ts@.take(i as int), now, now_ms).1,
            decreases ts.len() - i,
        {
            let ghost s = self@;
            let ghost evs = event_views(out@);
            let t = ts[i];
            proof {
                assert(ts@.take(i + 1).drop_last() =~= ts@.take(i as int));
                assert(ts@.take(i + 1).last() == ts@[i as int]);
                assert(listed(self@.orders, ts@[i as int].n));
                lemma_filled(s, t.n, t.left as int, t.price, true, now, now_ms);
            }
            self.fill(t.n, t.left, t.price, true, now, now_ms, out);
            proof {
                let head = v.filled_all(ts@.take(i as int), now, now_ms).1;
                let more = s.filled(t.n, t.left as int, t.price, true, now, now_ms).1;
                assert((base + head) + more =~= base + (head + more));
                assert forall|k: int| i + 1 <= k < ts.len() implies listed(
                    self@.orders,
                    (#[trigger] ts@[k]).n,
                ) && !self@.at(ts@[k].n).finished by {
                    assert(ts@[i as int].n != ts@[k].n);
                    assert(listed(s.orders, ts@[k].n));
                    assert(self@.at(ts@[k].n) == s.at(ts@[k].n));
                }
            }
            i = i + 1;
        }
        assert(ts@.take(i as int) =~= ts@);
    }

    fn fill_out_of(
        &mut self,
        ts: &Vec<Target>,
        budget: i128,
        now: Instant,
        now_ms: i64,
        out: &mut Vec<PaperEvent>,
    )
        requires
            old(self)@.wf(),
            are_targets(ts@, old(self)@.orders),
            old(self)@.next_trade + ts.len() <= u64::MAX,
            0 <= budget <= i64::MAX + 1,
        ensures
            final(self)@ == old(self)@.filled_by(ts@, budget as int, now, now_ms).0,
            event_views(final(out)@) == event_views(old(out)@) + old(self)@.filled_by(
                ts@,
                budget as int,
                now,
                now_ms,
            ).1,
            final(self)@.wf(),
    {
        let ghost v = self@;
        let ghost base = event_views(out@);
        let mut i: usize = 0;
        let mut left: i128 = budget;
        proof {
            assert(ts@.take(0) =~= seq![]);
            assert(base + Seq::<PaperEventView>::empty() =~= base);
            assert forall|k: int| 0 <= k < ts.len() implies listed(
                self@.orders,
                (#[trigger] ts@[k]).n,
            ) && !self@.at(ts@[k].n).finished by {
                lemma_open_at(v, ts@[k].n);
            }
        }
        while i < ts.len()
            invariant
                i <= ts.len(),
                self@.wf(),
                are_targets(ts@, v.orders),
                self@.next_trade + (ts.len() - i) <= u64::MAX,
                left <= i64::MAX + 1,
                forall|k: int|
                    i <= k < ts.len() ==> listed(self@.orders, (#[trigger] ts@[k]).n) && !self@.at(
                        ts@[k].n,
                    ).finished,
                self@ == v.filled_by(ts@.take(i as int), budget as int, now, now_ms).0,
                event_views(out@) == base + v.filled_by(
                    ts@.take(i as int),
                    budget as int,
                    now,
                    now_ms,
                ).1,
                left == v.filled_by(ts@.take(i as int), budget as int, now, now_ms).2,
            decreases ts.len() - i,
        {
            let ghost s = self@;
            let t = ts[i];
            proof {
                assert(ts@.take(i + 1).drop_last() =~= ts@.take(i as int));
                assert(ts@.take(i + 1).last() == ts@[i as int]);
                assert(listed(self@.orders, ts@[i as int].n));
            }
            if left > 0 {
                let q: i64 = if (t.left as i128) < left {
                    t.left
                } else {
                    left as i64
                };
                proof {
                    lemma_filled(s, t.n, q as int, t.price, true, now, now_ms);
                }
                self.fill(t.n, q, t.price, true, now, now_ms, out);
                proof {
                    let head = v.filled_by(ts@.take(i as int), budget as int, now, now_ms).1;
                    let more = s.filled(t.n, q as int, t.price, true, now, now_ms).1;
                    assert((base + head) + more =~= base + (head + more));
                    assert forall|k: int| i + 1 <= k < ts.len() implies listed(
                        self@.orders,
                        (#[trigger] ts@[k]).n,
                    ) && !self@.at(ts@[k].n).finished by {
                        assert(ts@[i as int].n != ts@[k].n);
                        assert(listed(s.orders, ts@[k].n));
                        assert(self@.at(ts@[k].n) == s.at(ts@[k].n));
                    }
                }
                left = left - q as i128;
            }
            i = i + 1;
        }
        assert(ts@.take(i as int) =~= ts@);
    }
}

/// Cancelling every order keeps the books in order.
proof fn lemma_all_cancelled(v: PaperView)
    requires
        v.wf(),
    ensures
        (PaperView { orders: all_cancelled(v.orders), ..v }).wf(),
{
    let w = PaperView { orders: all_cancelled(v.orders), ..v };
    assert forall|i: int| 0 <= i < w.orders.len() implies (#[trigger] w.orders[i]).n
        == v.orders[i].n && w.orders[i].client_id == v.orders[i].client_id && w.orders[i].n
        < w.next_id && w.orders[i].valid() by {
        assert(v.orders[i].valid());
    }
    assert(ascending(w.orders)) by {
        assert forall|i: int, j: int| 0 <= i < j < w.orders.len() implies (
        #[trigger] w.orders[i]).n < (#[trigger] w.orders[j]).n by {
            assert(v.orders[i].n < v.orders[j].n);
        }
    }
    assert forall|k: Seq<char>| #[trigger] w.by_client.contains_key(k) implies listed(
        w.orders,
        w.by_client[k],
    ) && w.at(w.by_client[k]).client_id == k by {
        assert(v.by_client.contains_key(k));
        let p = place_of(v.orders, v.by_client[k]);
        assert(v.orders[p].n == v.by_client[k]);
        assert(w.orders[p].n == v.by_client[k]);
        lemma_place(w.orders, p);
    }
    lemma_none_pending(v.orders, Side::Buy);
    lemma_none_pending(v.orders, Side::Sell);
    lemma_adds_nonneg(v.orders, Side::Buy);
    lemma_adds_nonneg(v.orders, Side::Sell);
}

proof fn lemma_none_pending(orders: Seq<PaperOrderView>, side: Side)
    ensures
        pending_adds(all_cancelled(orders), side) == 0,
    decreases orders.len(),
{
    if orders.len() > 0 {
        lemma_none_pending(orders.drop_last(), side);
        assert(all_cancelled(orders).drop_last() =~= all_cancelled(orders.drop_last()));
    }
}

/// An amendment keeps the books in order where there is room for its size.
proof fn lemma_amended(v: PaperView, n: u64, price: Option<Ticks>, size: Option<i64>)
    requires
        v.wf(),
        listed(v.orders, n),
        !v.at(n).finished,
        size matches Some(s) ==> s <= MAX_CONTRACTS && (s > 0 ==> v.room(s as int, 0)),
    ensures
        v.put(amended(v.at(n), price, size)).wf(),
        v.put(amended(v.at(n), price, size)).at(n) == amended(v.at(n), price, size),
        listed(v.put(amended(v.at(n), price, size)).orders, n),
        v.at(n).n == n,
{
    let p = place_of(v.orders, n);
    assert(0 <= p < v.orders.len() && v.orders[p].n == n);
    assert(v.orders[p].valid());
    let a = amended(v.at(n), price, size);
    assert forall|side: Side| #[trigger]
        v.load(side) - v.at(a.n).adds_to(side) + a.adds_to(side) <= MAX_CONTRACTS by {
        lemma_adds_cover(v.orders, p, side);
        assert(v.load(Side::Buy) <= MAX_CONTRACTS && v.load(Side::Sell) <= MAX_CONTRACTS);
        if let Some(s) = size {
            if s > 0 {
                assert(v.room(s as int, 0));
            }
        }
    }
    lemma_paper_put(v, a);
    assert(listed(v.put(a).orders, n) == listed(v.orders, n));
}

impl PaperExchange {
    /// The external quote moved: orders that the market traded through fill.
    pub fn on_bbo(&mut self, bid: Ticks, ask: Ticks, now: Instant, now_ms: i64) -> (out: Vec<
        PaperEvent,
    >)
        requires
            old(self)@.wf(),
            old(self)@.next_trade + old(self)@.orders.len() <= u64::MAX,
        ensures
            (final(self)@, event_views(out@)) == old(self)@.quoted(bid, ask, now, now_ms),
            final(self)@.wf(),
    {
        self.ext_bid = Some(bid);
        self.ext_ask = Some(ask);
        let ghost s = self@;
        proof {
            assert(s.orders =~= old(self)@.orders);
            assert(s == PaperView { ext_bid: Some(bid), ext_ask: Some(ask), ..old(self)@ });
            assert forall|k: Seq<char>| #[trigger] s.by_client.contains_key(k) implies listed(
                s.orders,
                s.by_client[k],
            ) && s.at(s.by_client[k]).client_id == k by {
                assert(old(self)@.by_client.contains_key(k));
            }
            lemma_through(s.orders, bid, ask);
            assert(s.orders.take(0) =~= seq![]);
        }
        let mut ts: Vec<Target> = Vec::new();
        let mut i: usize = 0;
        while i < self.orders.len()
            invariant
                i <= self.orders.len(),
                self@ == s,
                ts@ == through(s.orders.take(i as int), bid, ask),
            decreases self.orders.len() - i,
        {
            proof {
                assert(s.orders.take(i + 1).drop_last() =~= s.orders.take(i as int));
                assert(s.orders.take(i + 1).last() == s.orders[i as int]);
                assert(s.orders[i as int] == self.orders@[i as int].of());
            }
            let o = &self.orders[i];
            if let Some(p) = o.price {
                let passed = match o.side {
                    Side::Buy => ask <= p,
                    Side::Sell => bid >= p,
                };
                if !o.finished && passed {
                    ts.push(Target { n: o.n, price: p, left: o.left });
                }
            }
            i = i + 1;
        }
        let mut out: Vec<PaperEvent> = Vec::new();
        proof {
            assert(s.orders.take(i as int) =~= s.orders);
            assert(event_views(out@) =~= seq![]);
        }
        self.fill_targets(&ts, now, now_ms, &mut out);
        assert(event_views(out@) =~= s.filled_all(ts@, now, now_ms).1);
        self.gc();
        out
    }

    /// A public trade printed at `price` (a positive size is a taker buy):
    /// resting orders at or beyond it fill, best-priced first.
    pub fn on_trade(&mut self, price: Ticks, signed_size: i64, now: Instant, now_ms: i64) -> (out:
        Vec<PaperEvent>)
        requires
            old(self)@.wf(),
            old(self)@.next_trade + old(self)@.orders.len() <= u64::MAX,
        ensures
            (final(self)@, event_views(out@)) == old(self)@.printed(
                price,
                signed_size,
                now,
                now_ms,
            ),
            final(self)@.wf(),
    {
        let hit = if signed_size < 0 {
            Side::Buy
        } else {
            Side::Sell
        };
        let budget: i128 = if signed_size < 0 {
            -(signed_size as i128)
        } else {
            signed_size as i128
        };
        let ghost s = self@;
        proof {
            lemma_hit_by(s.orders, hit, price);
            assert(s.orders.take(0) =~= seq![]);
        }
        let mut ts: Vec<Target> = Vec::new();
        let mut i: usize = 0;
        while i < self.orders.len()
            invariant
                i <= self.orders.len(),
                self@ == s,
                ts@ == hit_by(s.orders.take(i as int), hit, price),
            decreases self.orders.len() - i,
        {
            proof {
                assert(s.orders.take(i + 1).drop_last() =~= s.orders.take(i as int));
                assert(s.orders.take(i + 1).last() == s.orders[i as int]);
                assert(s.orders[i as int] == self.orders@[i as int].of());
            }
            let o = &self.orders[i];
            if let Some(p) = o.price {
                let reached = match hit {
                    Side::Buy => price <= p,
                    Side::Sell => price >= p,
                };
                if !o.finished && o.side == hit && reached {
                    rank(&mut ts, Target { n: o.n, price: p, left: o.left }, hit);
                }
            }
            i = i + 1;
        }
        let mut out: Vec<PaperEvent> = Vec::new();
        proof {
            assert(s.orders.take(i as int) =~= s.orders);
            assert(event_views(out@) =~= seq![]);
        }
        self.fill_out_of(&ts, budget, now, now_ms, &mut out);
        assert(event_views(out@) =~= s.filled_by(ts@, budget as int, now, now_ms).1);
        self.gc();
        out
    }

    fn do_place(
        &mut self,
        o: PaperOrder,
        book: &LocalBook,
        now: Instant,
        now_ms: i64,
        out: &mut Vec<PaperEvent>,
    ) -> (r: ExecResult)
        requires
            old(self)@.wf(),
            book.wf(),
            o.of().valid(),
            !o.finished,
            o.n == old(self)@.next_id,
            old(self)@.room(o.left as int, 1),
        ensures
            ({
                let (u, result, evs) = old(self)@.placed(o.of(), book@, now, now_ms);
                &&& final(self)@ == u
                &&& r@ == result
                &&& event_views(final(out)@) == event_views(old(out)@) + evs
            }),
            final(self)@.wf(),
    {
        let ghost v = self@;
        let ghost ov = o.of();
        proof {
            assert(event_views(out@) + Seq::<PaperEventView>::empty() =~= event_views(out@));
        }
        self.next_id = self.next_id + 1;
        let ghost s = self@;
        proof {
            assert(s.orders =~= v.orders);
            assert forall|k: Seq<char>| #[trigger] s.by_client.contains_key(k) implies listed(
                s.orders,
                s.by_client[k],
            ) && s.at(s.by_client[k]).client_id == k by {
                assert(v.by_client.contains_key(k));
            }
            assert forall|i: int| 0 <= i < s.orders.len() implies (#[trigger] s.orders[i]).n
                < s.next_id by {
                assert(v.orders[i].n < v.next_id);
            }
        }
        if o.reduce_only && self.closable(o.side) <= 0 {
            return ExecResult::Error {
                label: "REDUCE_ONLY_NO_POSITION".to_string(),
                message: "no position to reduce".to_string(),
            };
        }
        let crosses = match o.price {
            Some(p) => o.tif == Tif::Poc && self.meets(o.side, p),
            None => false,
        };
        if crosses {
            let mut o = o;
            o.finished = true;
            o.finish_as = "poc".to_string();
            return ExecResult::Placed(o.info(now_ms));
        }
        let n: u64 = o.n;
        proof {
            assert forall|i: int| 0 <= i < s.orders.len() implies (#[trigger] s.orders[i]).n
                < ov.n by {
                assert(v.orders[i].n < v.next_id);
            }
            lemma_entered(s, ov);
        }
        self.by_client.insert(o.client_id.clone(), n);
        self.orders.push(o);
        assert(self@.orders =~= s.entered(ov).orders);
        assert(self@ == s.entered(ov));
        self.after_place(n, book, now, now_ms, out);
        let i: usize = self.index_of(n);
        ExecResult::Placed(self.orders[i].info(now_ms))
    }

    /// Give an open order a new price and total size, and report it.
    fn rework(
        &mut self,
        n: u64,
        price: Option<Ticks>,
        size: Option<i64>,
        now_ms: i64,
        out: &mut Vec<PaperEvent>,
    )
        requires
            old(self)@.wf(),
            listed(old(self)@.orders, n),
            !old(self)@.at(n).finished,
        ensures
            final(self)@ == old(self)@.put(amended(old(self)@.at(n), price, size)),
            event_views(final(out)@) == event_views(old(out)@).push(
                PaperEventView::Order(amended(old(self)@.at(n), price, size).info(now_ms)),
            ),
    {
        let ghost v = self@;
        let i: usize = self.index_of(n);
        assert(v.orders[i as int].valid());
        if let Some(p) = price {
            self.orders[i].price = Some(p);
        }
        if let Some(s) = size {
            let filled: i64 = self.orders[i].size - self.orders[i].left;
            if s <= filled {
                self.orders[i].left = 0;
                self.orders[i].finished = true;
                self.orders[i].finish_as = "cancelled".to_string();
            } else {
                self.orders[i].size = s;
                self.orders[i].left = s - filled;
            }
        }
        let info = self.orders[i].info(now_ms);
        out.push(PaperEvent::Order(info));
        proof {
            lemma_events_push(old(out)@, PaperEvent::Order(info));
            assert(self@.orders =~= v.put(amended(v.at(n), price, size)).orders);
        }
    }

    fn do_amend(
        &mut self,
        key: &str,
        price: Option<Ticks>,
        size: Option<i64>,
        book: &LocalBook,
        now: Instant,
        now_ms: i64,
        out: &mut Vec<PaperEvent>,
    ) -> (r: ExecResult)
        requires
            old(self)@.wf(),
            book.wf(),
            old(self)@.next_trade < u64::MAX,
            size matches Some(s) ==> s <= MAX_CONTRACTS && (s > 0 ==> old(self)@.room(s as int, 0)),
        ensures
            ({
                let (u, result, evs) = old(self)@.reworked(key@, price, size, book@, now, now_ms);
                &&& final(self)@ == u
                &&& r@ == result
                &&& event_views(final(out)@) == event_views(old(out)@) + evs
            }),
            final(self)@.wf(),
    {
        let ghost v = self@;
        let ghost base = event_views(out@);
        proof {
            assert(base + Seq::<PaperEventView>::empty() =~= base);
        }
        if let Some(n) = self.resolve(key) {
            let i: usize = self.index_of(n);
            if !self.orders[i].finished {
                let ghost a = amended(v.at(n), price, size);
                proof {
                    lemma_amended(v, n, price, size);
                }
                self.rework(n, price, size, now_ms, out);
                self.after_place(n, book, now, now_ms, out);
                proof {
                    let evs = v.put(a).settled(n, book@, now, now_ms).1;
                    let e = PaperEventView::Order(a.info(now_ms));
                    assert(base.push(e) + evs =~= base + (seq![e] + evs));
                }
                let j: usize = self.index_of(n);
                return ExecResult::Amended(self.orders[j].info(now_ms));
            }
        }
        ExecResult::Error {
            label: "ORDER_NOT_FOUND".to_string(),
            message: "paper: not found or finished".to_string(),
        }
    }

    fn do_cancel(&mut self, key: &str, now_ms: i64, out: &mut Vec<PaperEvent>) -> (r: ExecResult)
        requires
            old(self)@.wf(),
        ensures
            ({
                let (u, result, evs) = old(self)@.withdrawn(key@, now_ms);
                &&& final(self)@ == u
                &&& r@ == result
                &&& event_views(final(out)@) == event_views(old(out)@) + evs
            }),
            final(self)@.wf(),
    {
        let ghost v = self@;
        let ghost base = event_views(out@);
        proof {
            assert(base + Seq::<PaperEventView>::empty() =~= base);
        }
        if let Some(n) = self.resolve(key) {
            let i: usize = self.index_of(n);
            if !self.orders[i].finished {
                proof {
                    lemma_closed(v, n, "cancelled"@);
                    let e = PaperEventView::Order(v.at(n).closed_as("cancelled"@).info(now_ms));
                    assert(base.push(e) =~= base + seq![e]);
                }
                self.close(n, "cancelled", now_ms, out);
                let j: usize = self.index_of(n);
                return ExecResult::Cancelled(self.orders[j].info(now_ms));
            }
        }
        ExecResult::Error {
            label: "ORDER_NOT_FOUND".to_string(),
            message: "paper: not found or finished".to_string(),
        }
    }

    fn do_query(&self, key: &str, now_ms: i64) -> (r: ExecResult)
        requires
            self@.wf(),
        ensures
            r@ == self@.looked_up(key@, now_ms),
    {
        match self.resolve(key) {
            Some(n) => {
                let i: usize = self.index_of(n);
                ExecResult::Queried(self.orders[i].info(now_ms))
            },
            None => ExecResult::Error {
                label: "ORDER_NOT_FOUND".to_string(),
                message: "paper: not found".to_string(),
            },
        }
    }

    fn do_cancel_all(&mut self, now_ms: i64, out: &mut Vec<PaperEvent>) -> (r: ExecResult)
        requires
            old(self)@.wf(),
        ensures
            final(self)@ == (PaperView {
                orders: all_cancelled(old(self)@.orders),
                ..old(self)@
            }),
            r@ == ResultView::CancelledAll(
                cancel_reports(old(self)@.orders, now_ms).len() as usize,
            ),
            event_views(final(out)@) == event_views(old(out)@) + cancel_reports(
                old(self)@.orders,
                now_ms,
            ),
            final(self)@.wf(),
    {
        let ghost v = self@;
        let ghost base = event_views(out@);
        let ghost done = all_cancelled(v.orders);
        let mut i: usize = 0;
        let mut count: usize = 0;
        proof {
            lemma_all_cancelled(v);
            assert(v.orders.take(0) =~= seq![]);
            assert(base + Seq::<PaperEventView>::empty() =~= base);
            assert(self@.orders =~= done.take(0) + v.orders.skip(0));
        }
        while i < self.orders.len()
            invariant
                i <= self.orders.len() == v.orders.len(),
                done == all_cancelled(v.orders),
                self@.orders == done.take(i as int) + v.orders.skip(i as int),
                self@.by_client == v.by_client,
                self@.next_id == v.next_id,
                self@.next_trade == v.next_trade,
                self@.pos == v.pos,
                self@.ext_bid == v.ext_bid,
                self@.ext_ask == v.ext_ask,
                count <= i,
                count == cancel_reports(v.orders.take(i as int), now_ms).len(),
                event_views(out@) == base + cancel_reports(v.orders.take(i as int), now_ms),
            decreases self.orders.len() - i,
        {
            let ghost head = cancel_reports(v.orders.take(i as int), now_ms);
            let ghost before = self@.orders;
            let ghost outs = out@;
            proof {
                assert(v.orders.take(i + 1).drop_last() =~= v.orders.take(i as int));
                assert(v.orders.take(i + 1).last() == v.orders[i as int]);
                assert(before[i as int] == v.orders[i as int]);
                assert(before[i as int] == self.orders@[i as int].of());
            }
            if !self.orders[i].finished {
                self.orders[i].finished = true;
                self.orders[i].finish_as = "cancelled".to_string();
                let info = self.orders[i].info(now_ms);
                out.push(PaperEvent::Order(info));
                count = count + 1;
                proof {
                    lemma_events_push(outs, PaperEvent::Order(info));
                    let e = PaperEventView::Order(
                        v.orders[i as int].closed_as("cancelled"@).info(now_ms),
                    );
                    assert((base + head).push(e) =~= base + head.push(e));
                    assert(self@.orders =~= before.update(
                        i as int,
                        v.orders[i as int].closed_as("cancelled"@),
                    ));
                }
            }
            i = i + 1;
            assert(self@.orders =~= done.take(i as int) + v.orders.skip(i as int));
        }
        proof {
            assert(v.orders.take(i as int) =~= v.orders);
            assert(self@.orders =~= done);
        }
        ExecResult::CancelledAll(count)
    }

    /// Execute a command; the answer comes first, then what it led to.
    pub fn execute(&mut self, cmd: &ExecCommand, book: &LocalBook, now: Instant, now_ms: i64) -> (out:
        Vec<PaperEvent>)
        requires
            old(self)@.wf(),
            book.wf(),
            admits_command(old(self)@, cmd@),
        ensures
            (final(self)@, event_views(out@)) == old(self)@.executed(cmd@, book@, now, now_ms),
            final(self)@.wf(),
    {
        let ghost v = self@;
        let mut out: Vec<PaperEvent> = Vec::new();
        assert(event_views(out@) =~= seq![]);
        let result = match cmd {
            ExecCommand::Place { req_id, client_id, side, size, price, tif, reduce_only } => {
                let o = PaperOrder {
                    n: self.next_id,
                    client_id: client_id.clone(),
                    side: *side,
                    price: *price,
                    size: *size,
                    left: *size,
                    tif: *tif,
                    reduce_only: *reduce_only,
                    finished: false,
                    finish_as: String::new(),
                };
                assert(o.of().finish_as =~= seq![]);
                self.do_place(o, book, now, now_ms, &mut out)
            },
            ExecCommand::Amend { req_id, exchange_id, client_id, price, size } => {
                self.do_amend(exchange_id.as_str(), *price, *size, book, now, now_ms, &mut out)
            },
            ExecCommand::Cancel { req_id, exchange_id, client_id } => match exchange_id {
                Some(id) => self.do_cancel(id.as_str(), now_ms, &mut out),
                None => self.do_cancel(client_id.as_str(), now_ms, &mut out),
            },
            ExecCommand::Query { req_id, exchange_id, client_id } => match exchange_id {
                Some(id) => self.do_query(id.as_str(), now_ms),
                None => self.do_query(client_id.as_str(), now_ms),
            },
            ExecCommand::CancelAll { req_id } => self.do_cancel_all(now_ms, &mut out),
        };
        let ghost (u, rv, evs) = v.carried_out(cmd@, book@, now, now_ms);
        proof {
            assert(self@ == u);
            assert(result@ == rv);
            assert(event_views(out@) =~= evs);
        }
        let first = PaperEvent::Exec(
            ExecResponse { req_id: cmd.req_id().to_string(), result, at: now },
        );
        let ghost tail = out@;
        out.insert(0, first);
        proof {
            assert(event_views(out@) =~= seq![first@] + event_views(tail));
        }
        self.gc();
        out
    }

    /// Whether the trades that a quote or a print may cause can be numbered.
    pub fn can_trade(&self) -> (r: bool)
        ensures
            r == (self@.next_trade + self@.orders.len() <= u64::MAX),
    {
        assert(self@.orders.len() == self.orders.len());
        self.next_trade as u128 + self.orders.len() as u128 <= u64::MAX as u128
    }

    /// Whether the command can be executed within the limits of the books.
    pub fn can_execute(&self, cmd: &ExecCommand) -> (r: bool)
        requires
            self@.wf(),
        ensures
            r == admits_command(self@, cmd@),
    {
        let (size, places): (i64, bool) = match cmd {
            ExecCommand::Place { req_id, client_id, side, size, price, tif, reduce_only } => (
                *size,
                true,
            ),
            ExecCommand::Amend { req_id, exchange_id, client_id, price, size } => match size {
                Some(s) => (*s, false),
                None => (0, false),
            },
            _ => (0, false),
        };
        let (buys, sells): (i64, i64) = self.loads();
        let extra: i64 = if size > 0 {
            size
        } else {
            0
        };
        size <= MAX_CONTRACTS && (!places || size >= 0) && buys + extra <= MAX_CONTRACTS && sells
            + extra <= MAX_CONTRACTS && self.next_id < u64::MAX && self.next_trade < u64::MAX
    }

    /// Contracts that may come to be held on each side.
    fn loads(&self) -> (r: (i64, i64))
        requires
            self@.wf(),
        ensures
            r.0 == self@.load(Side::Buy),
            r.1 == self@.load(Side::Sell),
    {
        let ghost views = self@.orders;
        let mut buys: i64 = 0;
        let mut sells: i64 = 0;
        let mut i: usize = 0;
        assert(views.take(0) =~= seq![]);
        while i < self.orders.len()
            invariant
                i <= self.orders.len(),
                self@.wf(),
                views == self@.orders,
                buys == pending_adds(views.take(i as int), Side::Buy),
                sells == pending_adds(views.take(i as int), Side::Sell),
            decreases self.orders.len() - i,
        {
            proof {
                assert(views.take(i + 1).drop_last() =~= views.take(i as int));
                assert(views.take(i + 1).last() == views[i as int]);
                assert(views[i as int] == self.orders@[i as int].of());
                assert(views[i as int].valid());
                lemma_adds_prefix(views, i + 1, Side::Buy);
                lemma_adds_prefix(views, i + 1, Side::Sell);
            }
            let o = &self.orders[i];
            if !o.finished && !o.reduce_only {
                match o.side {
                    Side::Buy => {
                        buys = buys + o.left;
                    },
                    Side::Sell => {
                        sells = sells + o.left;
                    },
                }
            }
            i = i + 1;
        }
        proof {
            assert(views.take(i as int) =~= views);
        }
        (self.pos.long + buys, self.pos.short + sells)
    }

    /// The simulated positions in the form of the private stream. The entry
    /// prices are the caller's.
    pub fn positions_event<R>(&self, long_entry: R, short_entry: R, now_ms: i64) -> (r: Event<R>)
        requires
            self@.wf(),
        ensures
            r matches Event::GatePositions(ps) && ps@.len() == 2 && ps@[0].mode@ == "dual_long"@
                && ps@[0].size == self@.pos.long && ps@[0].entry_price == long_entry
                && ps@[0].update_ms == now_ms && ps@[1].mode@ == "dual_short"@ && ps@[1].size
                == -self@.pos.short && ps@[1].entry_price == short_entry && ps@[1].update_ms
                == now_ms,
    {
        let mut ps: Vec<PositionInfo<R>> = Vec::new();
        ps.push(
            PositionInfo {
                mode: "dual_long".to_string(),
                size: self.pos.long,
                entry_price: long_entry,
                update_ms: now_ms,
            },
        );
        ps.push(
            PositionInfo {
                mode: "dual_short".to_string(),
                size: -self.pos.short,
                entry_price: short_entry,
                update_ms: now_ms,
            },
        );
        Event::GatePositions(ps)
    }
}

/// The pending contracts of a prefix are no more than those of the whole.
proof fn lemma_adds_prefix(orders: Seq<PaperOrderView>, i: int, side: Side)
    requires
        0 <= i <= orders.len(),
        forall|k: int| 0 <= k < orders.len() ==> (#[trigger] orders[k]).valid(),
    ensures
        0 <= pending_adds(orders.take(i), side) <= pending_adds(orders, side),
    decreases orders.len() - i,
{
    let head = orders.take(i);
    assert forall|k: int| 0 <= k < head.len() implies (#[trigger] head[k]).valid() by {
        assert(orders[k].valid());
    }
    lemma_adds_nonneg(head, side);
    if i == orders.len() {
        assert(head =~= orders);
    } else {
        lemma_adds_prefix(orders, i + 1, side);
        assert(orders.take(i + 1).drop_last() =~= head);
        assert(orders[i].valid());
    }
}

fn outranks(hit: Side, a: Ticks, b: Ticks) -> (r: bool)
    ensures
        r == better(hit, a, b),
{
    match hit {
        Side::Buy => a > b,
        Side::Sell => a < b,
    }
}

/// Put a target into the list behind all that are at least as well priced.
fn rank(ts: &mut Vec<Target>, t: Target, hit: Side)
    ensures
        final(ts)@ == ranked(old(ts)@, t, hit),
{
    let mut at: usize = ts.len();
    while at > 0 && outranks(hit, t.price, ts[at - 1].price)
        invariant
            at <= ts.len(),
            ts@ == old(ts)@,
            forall|k: int| at <= k < ts.len() ==> better(hit, t.price, (#[trigger] ts@[k]).price),
        decreases at,
    {
        at = at - 1;
    }
    proof {
        lemma_ranked(ts@, t, hit, at as int);
    }
    ts.insert(at, t);
}

/// Price and remaining contracts of the open orders.
pub open spec fn open_parts(orders: Seq<PaperOrderView>) -> Seq<(Option<Ticks>, i64)>
    decreases orders.len(),
{
    if orders.len() == 0 {
        seq![]
    } else {
        let head = open_parts(orders.drop_last());
        if orders.last().finished {
            head
        } else {
            head.push((orders.last().price, orders.last().left))
        }
    }
}

/// Every command is answered at once and under its own name, before anything
/// else is reported.
pub proof fn every_command_is_answered_first(
    v: PaperView,
    c: CommandView,
    b: BookView,
    now: Instant,
    now_ms: i64,
)
    ensures
        v.executed(c, b, now, now_ms).1.len() > 0,
        v.executed(c, b, now, now_ms).1[0] matches PaperEventView::Exec(r) && r.req_id == c.req(),
{
}

/// A post-only order that would cross the quotes of the market comes back
/// unfilled, whether it opens or reduces: no position moves and nothing is left in
/// the book.
pub proof fn crossing_post_only_orders_never_trade(
    v: PaperView,
    c: CommandView,
    b: BookView,
    now: Instant,
    now_ms: i64,
)
    requires
        c matches CommandView::Place { side, price, tif, .. } && tif == Tif::Poc && (price
            matches Some(p) && v.meets(side, p)),
    ensures
        v.executed(c, b, now, now_ms).0.pos == v.pos,
        v.executed(c, b, now, now_ms).1.len() == 1,
        v.orders.len() <= MAX_ORDERS ==> v.executed(c, b, now, now_ms).0.orders == v.orders,
{
}

/// A post-only order that an amend makes cross finishes as `poc` without a trade.
pub proof fn amends_across_the_quotes_never_trade(
    v: PaperView,
    c: CommandView,
    n: u64,
    b: BookView,
    now: Instant,
    now_ms: i64,
)
    requires
        v.wf(),
        c matches CommandView::Amend { exchange_id, price, size, .. } && ({
            let a = amended(v.at(n), price, size);
            v.resolve(exchange_id) == Some(n) && listed(v.orders, n) && !a.finished && a.tif
                == Tif::Poc && (a.price matches Some(p) && v.meets(a.side, p))
        }),
        !v.at(n).finished,
    ensures
        v.executed(c, b, now, now_ms).0.pos == v.pos,
        v.executed(c, b, now, now_ms).1[0] matches PaperEventView::Exec(r) && r.result
            matches ResultView::Amended(i) && i.status == ExchangeStatus::Finished && i.finish_as
            == "poc"@,
{
    let k = place_of(v.orders, n);
    assert(v.orders[k].n == n);
    if let CommandView::Amend { exchange_id, price, size, .. } = c {
        let a = amended(v.at(n), price, size);
        let w = v.put(a);
        assert(w.orders[k] == a);
        assert forall|i: int, j: int| 0 <= i < j < w.orders.len() implies (#[trigger] w.orders[i]).n
            < (#[trigger] w.orders[j]).n by {
            assert(v.orders[i].n < v.orders[j].n);
        }
        lemma_place(w.orders, k);
        let u = w.put(a.closed_as("poc"@));
        assert(u.orders[k] == a.closed_as("poc"@));
        assert forall|i: int, j: int| 0 <= i < j < u.orders.len() implies (#[trigger] u.orders[i]).n
            < (#[trigger] u.orders[j]).n by {
            assert(w.orders[i].n < w.orders[j].n);
        }
        lemma_place(u.orders, k);
    }
}

/// A reduce-only order without a position to reduce is refused.
pub proof fn reduce_only_needs_a_position(
    v: PaperView,
    c: CommandView,
    b: BookView,
    now: Instant,
    now_ms: i64,
)
    requires
        c matches CommandView::Place { side, reduce_only, .. } && reduce_only && v.closable(side)
            <= 0,
    ensures
        v.executed(c, b, now, now_ms).0.pos == v.pos,
        v.executed(c, b, now, now_ms).1.len() == 1,
        v.executed(c, b, now, now_ms).1[0] matches PaperEventView::Exec(r) && r.result
            matches ResultView::Error { label, .. } && label == "REDUCE_ONLY_NO_POSITION"@,
{
}

/// Cancelling and asking move no position.
pub proof fn cancels_and_queries_move_no_position(
    v: PaperView,
    c: CommandView,
    b: BookView,
    now: Instant,
    now_ms: i64,
)
    requires
        c is Cancel || c is Query || c is CancelAll,
    ensures
        v.executed(c, b, now, now_ms).0.pos == v.pos,
{
}

} // verus!
