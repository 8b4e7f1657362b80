//! The life of our orders as a state machine on plain values: what every
//! request, answer, stream update, trade and timeout makes of the book.

use vstd::prelude::*;

use crate::order::model;
use crate::order::model::{
    CommandView, DoneReason, ExchangeStatus, Fill, InfoView, Intent, LocalOrder, OrderState,
    OrderView, ResponseView, ResultView, Tif, UserTrade, MAX_CONTRACTS,
};
use crate::strategy::inventory::PendingExposure;
use crate::text;
use crate::time;
use crate::time::{Duration, Instant};
use crate::types::{Purpose, Side, Ticks};

verus! {

/// Trade ids kept for de-duplication.
pub const SEEN_TRADES: usize = 50_000;

/// Seconds after which a finished order is dropped.
pub const RETENTION_SECS: u64 = 120;

/// The commands of at most one, as a list.
pub open spec fn listed(c: Option<CommandView>) -> Seq<CommandView> {
    match c {
        Some(x) => seq![x],
        None => seq![],
    }
}

/// Truncated remainder of a millisecond time by 10^9, as it enters client ids.
pub open spec fn client_stamp(now_ms: i64) -> int {
    if now_ms >= 0 {
        now_ms as int % 1_000_000_000
    } else {
        -((-(now_ms as int)) % 1_000_000_000)
    }
}

/// Identifier of the `n`-th request of a kind.
pub open spec fn request_id(kind: Seq<char>, n: u64) -> Seq<char> {
    kind + seq!['-'] + text::decimal(n as nat)
}

/// Some order of the list has this local id.
pub open spec fn known(orders: Seq<OrderView>, id: u64) -> bool {
    exists|i: int| 0 <= i < orders.len() && #[trigger] orders[i].id == id
}

/// Position of the order with this local id.
pub open spec fn pos(orders: Seq<OrderView>, id: u64) -> int {
    choose|i: int| 0 <= i < orders.len() && #[trigger] orders[i].id == id
}

/// Local ids ascend, so each occurs once.
pub open spec fn ascending(orders: Seq<OrderView>) -> bool {
    forall|i: int, j: int|
        0 <= i < j < orders.len() ==> (#[trigger] orders[i]).id < (#[trigger] orders[j]).id
}

/// Local ids of the orders that satisfy `p`, in ascending order.
pub open spec fn select(orders: Seq<OrderView>, p: spec_fn(OrderView) -> bool) -> Seq<u64>
    decreases orders.len(),
{
    if orders.len() == 0 {
        seq![]
    } else {
        let head = select(orders.drop_last(), p);
        if p(orders.last()) {
            head.push(orders.last().id)
        } else {
            head
        }
    }
}

/// The orders that satisfy `p`, by ascending local id.
pub open spec fn chosen(orders: Seq<OrderView>, p: spec_fn(OrderView) -> bool) -> Seq<OrderView>
    decreases orders.len(),
{
    if orders.len() == 0 {
        seq![]
    } else {
        let head = chosen(orders.drop_last(), p);
        if p(orders.last()) {
            head.push(orders.last())
        } else {
            head
        }
    }
}

/// Orders that are not finished.
pub open spec fn active_orders(orders: Seq<OrderView>) -> Seq<OrderView> {
    chosen(orders, |o: OrderView| o.active())
}

/// Orders that are not finished and stand in a quote slot.
pub open spec fn slot_orders(orders: Seq<OrderView>) -> Seq<OrderView> {
    chosen(orders, |o: OrderView| o.active() && o.layer != u8::MAX)
}

/// `f` decides the predicate `p` on the plain values of an order.
pub open spec fn decides<F: Fn(&LocalOrder) -> bool>(
    f: F,
    p: spec_fn(OrderView) -> bool,
) -> bool {
    forall|o: &LocalOrder, b: bool| #[trigger] call_ensures(f, (o,), b) ==> b == p(o@)
}

/// `f` can be called on every order.
pub open spec fn total<F: Fn(&LocalOrder) -> bool>(f: F) -> bool {
    forall|o: &LocalOrder| #[trigger] call_requires(f, (o,))
}

/// Why an order that the exchange reports as finished is done.
pub open spec fn finish_reason(info: InfoView) -> DoneReason {
    let f = info.finish_as;
    if f == "filled"@ {
        DoneReason::Filled
    } else if f == "cancelled"@ || f == "auto_deleveraged"@ || f == "liquidated"@ || f
        == "reduce_out"@ || f == "position_closed"@ || f == "stp"@ || f == "reduce_only"@ {
        DoneReason::Cancelled
    } else if f == "poc"@ {
        DoneReason::PostOnlyReject
    } else if f == "ioc"@ {
        DoneReason::IocDone
    } else if info.left == 0 {
        DoneReason::Filled
    } else {
        DoneReason::Cancelled
    }
}

/// An order after an exchange record about it has been taken in. While a request
/// is out the record may lag behind it, so what an amend asked for is kept.
pub open spec fn absorbed(o: OrderView, info: InfoView, now: Instant) -> OrderView {
    let base = OrderView {
        exchange_id: Some(
            match o.exchange_id {
                Some(e) => e,
                None => info.exchange_id,
            },
        ),
        price: Some(info.price),
        size: info.size,
        filled: if info.filled() > o.filled {
            info.filled() as i64
        } else {
            o.filled
        },
        last_update: now,
        ..o
    };
    match info.status {
        ExchangeStatus::Open => OrderView {
            state: if o.state.terminal() {
                o.state
            } else {
                OrderState::Live
            },
            amend_target: if o.req_id is Some {
                o.amend_target
            } else {
                None
            },
            ..base
        },
        ExchangeStatus::Finished => OrderView {
            state: OrderState::Done(finish_reason(info)),
            done_at: Some(now),
            intent: None,
            amend_target: None,
            ..base
        },
    }
}

/// Whether an error label leaves the fate of a request unknown.
pub open spec fn is_unknown(label: Seq<char>) -> bool {
    label == "TIMEOUT"@ || label == "UNKNOWN"@
}

/// Whether an error label says that the order is not open any more.
pub open spec fn is_gone(label: Seq<char>) -> bool {
    label == "ORDER_NOT_FOUND"@ || label == "ORDER_FINISHED"@ || label == "ORDER_CLOSED"@
}

/// Why a refused placement is done.
pub open spec fn reject_reason(label: Seq<char>) -> DoneReason {
    if text::has_part(label, "POC"@) || text::has_part(label, "POST_ONLY"@) {
        DoneReason::PostOnlyReject
    } else {
        DoneReason::Rejected
    }
}

/// The quantity that an in-flight order may still trade: while an amend is
/// pending, the larger of the old and the new size counts.
pub open spec fn inflight_quantity(o: OrderView) -> int {
    match o.amend_target {
        Some(t) => if t.1 - o.filled > o.remaining() {
            t.1 - o.filled
        } else {
            o.remaining()
        },
        None => o.remaining(),
    }
}

/// The quantity of an order is out of our hands: its request is in flight, or an
/// amend failed and the query about it has not been answered.
pub open spec fn uncontrolled(o: OrderView) -> bool {
    o.state.inflight() || (o.active() && o.req_id is Some && o.amend_target is Some)
}

/// The part of an order's in-flight quantity that belongs to one side and kind.
pub open spec fn exposure_part(
    o: OrderView,
    p: spec_fn(OrderView) -> bool,
    side: Side,
    reduce: bool,
) -> int {
    if uncontrolled(o) && p(o) && o.side == side && o.reduce_only == reduce {
        inflight_quantity(o)
    } else {
        0
    }
}

/// In-flight quantity of one side and kind over the orders that satisfy `p`.
pub open spec fn exposure_sum(
    orders: Seq<OrderView>,
    p: spec_fn(OrderView) -> bool,
    side: Side,
    reduce: bool,
) -> int
    decreases orders.len(),
{
    if orders.len() == 0 {
        0
    } else {
        exposure_sum(orders.drop_last(), p, side, reduce) + exposure_part(
            orders.last(),
            p,
            side,
            reduce,
        )
    }
}

/// Resting quantities (side, price, remaining) of the active orders.
pub open spec fn resting(orders: Seq<OrderView>) -> Seq<(Side, Ticks, i64)>
    decreases orders.len(),
{
    if orders.len() == 0 {
        seq![]
    } else {
        let head = resting(orders.drop_last());
        let o = orders.last();
        match o.price {
            Some(p) if o.active() && o.remaining() > 0 => head.push(
                (o.side, p, o.remaining() as i64),
            ),
            _ => head,
        }
    }
}

/// The book of our orders as plain values.
pub ghost struct ManagerView {
    pub next_id: u64,
    pub next_req: u64,
    pub prefix: Seq<char>,
    pub inflight_timeout: Duration,
    pub orders: Seq<OrderView>,
    pub by_client: Map<Seq<char>, u64>,
    pub by_exchange: Map<Seq<char>, u64>,
    pub by_req: Map<Seq<char>, u64>,
    pub seen: Set<Seq<char>>,
    pub seen_order: Seq<Seq<char>>,
    pub foreign: Seq<InfoView>,
}

impl ManagerView {
    pub open spec fn empty(prefix: Seq<char>, inflight_timeout: Duration) -> ManagerView {
        ManagerView {
            next_id: 1,
            next_req: 1,
            prefix,
            inflight_timeout,
            orders: seq![],
            by_client: Map::empty(),
            by_exchange: Map::empty(),
            by_req: Map::empty(),
            seen: Set::empty(),
            seen_order: seq![],
            foreign: seq![],
        }
    }

    /// Ids ascend below the next one, counts are counts, and the indices by
    /// client id and by exchange id name orders that carry that id.
    pub open spec fn wf(self) -> bool {
        &&& 0 < self.next_id
        &&& ascending(self.orders)
        &&& forall|i: int|
            0 <= i < self.orders.len() ==> 0 < (#[trigger] self.orders[i]).id < self.next_id
        &&& forall|i: int| 0 <= i < self.orders.len() ==> (#[trigger] self.orders[i]).valid()
        &&& forall|k: Seq<char>| #[trigger]
            self.by_client.contains_key(k) ==> known(self.orders, self.by_client[k]) && self.at(
                self.by_client[k],
            ).client_id == k
        &&& forall|k: Seq<char>| #[trigger]
            self.by_exchange.contains_key(k) ==> known(self.orders, self.by_exchange[k]) && self.at(
                self.by_exchange[k],
            ).exchange_id == Some(k)
        &&& self.seen_order.no_duplicates()
        &&& self.seen_order.len() <= SEEN_TRADES
        &&& forall|k: Seq<char>| #[trigger]
            self.seen.contains(k) <==> self.seen_order.contains(k)
    }

    /// The order with this local id.
    pub open spec fn at(self, id: u64) -> OrderView {
        self.orders[pos(self.orders, id)]
    }

    pub open spec fn get(self, id: u64) -> Option<OrderView> {
        if known(self.orders, id) {
            Some(self.at(id))
        } else {
            None
        }
    }

    /// The book with the order of `o`'s id replaced by `o`.
    pub open spec fn put(self, o: OrderView) -> ManagerView {
        ManagerView { orders: self.orders.update(pos(self.orders, o.id), o), ..self }
    }

    /// The order that an exchange id or a client id names, the first one first.
    pub open spec fn lookup(self, exchange_id: Seq<char>, client_id: Seq<char>) -> Option<u64> {
        if self.by_exchange.contains_key(exchange_id) {
            Some(self.by_exchange[exchange_id])
        } else if self.by_client.contains_key(client_id) {
            Some(self.by_client[client_id])
        } else {
            None
        }
    }

    /// Client id that the next placed order gets.
    pub open spec fn next_client_id(self, now_ms: i64) -> Seq<char> {
        self.prefix + text::signed_decimal(client_stamp(now_ms)) + text::decimal(
            (self.next_id + 1) as nat,
        )
    }

    pub open spec fn place(
        self,
        side: Side,
        purpose: Purpose,
        layer: u8,
        price: Option<Ticks>,
        size: i64,
        tif: Tif,
        now: Instant,
        now_ms: i64,
    ) -> (ManagerView, CommandView) {
        let client_id = self.next_client_id(now_ms);
        let req_id = request_id("p"@, self.next_req);
        let reduce_only = purpose == Purpose::Reduce;
        let o = OrderView {
            id: self.next_id,
            client_id,
            exchange_id: None,
            side,
            purpose,
            layer,
            tif,
            reduce_only,
            price,
            size,
            filled: 0,
            trade_filled: 0,
            state: OrderState::PendingNew,
            intent: None,
            amend_target: None,
            inflight_since: Some(now),
            req_id: Some(req_id),
            last_update: now,
            done_at: None,
        };
        (
            ManagerView {
                next_id: (self.next_id + 1) as u64,
                next_req: (self.next_req + 1) as u64,
                by_client: self.by_client.insert(client_id, self.next_id),
                by_req: self.by_req.insert(req_id, self.next_id),
                orders: self.orders.push(o),
                ..self
            },
            CommandView::Place { req_id, client_id, side, size, price, tif, reduce_only },
        )
    }

    /// One request number used up.
    pub open spec fn numbered(self) -> ManagerView {
        ManagerView { next_req: (self.next_req + 1) as u64, ..self }
    }

    /// A request sent for the order `o`, under the next request number.
    pub open spec fn sent(self, o: OrderView, kind: Seq<char>, now: Instant) -> ManagerView {
        let req = request_id(kind, self.next_req);
        let s = self.numbered().put(
            OrderView { req_id: Some(req), inflight_since: Some(now), ..o },
        );
        ManagerView { by_req: s.by_req.insert(req, o.id), ..s }
    }

    /// A cancel requested: sent where no request is out for the order, stored as
    /// its intent otherwise.
    pub open spec fn cancel(self, id: u64, now: Instant) -> (ManagerView, Option<CommandView>) {
        if !known(self.orders, id) {
            (self.numbered(), None)
        } else {
            let o = self.at(id);
            match o.state {
                OrderState::Live if o.req_id is None => (
                    self.sent(
                        OrderView { state: OrderState::PendingCancel, intent: None, ..o },
                        "c"@,
                        now,
                    ),
                    Some(
                        CommandView::Cancel {
                            req_id: request_id("c"@, self.next_req),
                            exchange_id: o.exchange_id,
                            client_id: o.client_id,
                        },
                    ),
                ),
                OrderState::PendingCancel | OrderState::Done(_) => (self.numbered(), None),
                _ => (self.numbered().put(OrderView { intent: Some(Intent::Cancel), ..o }), None),
            }
        }
    }

    /// A new price and remaining size requested: sent where no request is out for
    /// the order, stored as its intent otherwise.
    pub open spec fn amend(self, id: u64, price: Ticks, remaining: i64, now: Instant) -> (
        ManagerView,
        Option<CommandView>,
    ) {
        if !known(self.orders, id) || self.at(id).state.terminal() {
            (self, None)
        } else if remaining <= 0 {
            self.cancel(id, now)
        } else {
            let o = self.at(id);
            match o.exchange_id {
                Some(exchange_id) if o.state == OrderState::Live && o.req_id is None => {
                    let total = (o.filled + remaining) as i64;
                    (
                        self.sent(
                            OrderView {
                                state: OrderState::PendingAmend,
                                amend_target: Some((price, total)),
                                intent: None,
                                ..o
                            },
                            "a"@,
                            now,
                        ),
                        Some(
                            CommandView::Amend {
                                req_id: request_id("a"@, self.next_req),
                                exchange_id,
                                client_id: o.client_id,
                                price: Some(price),
                                size: Some(total),
                            },
                        ),
                    )
                },
                _ => (
                    self.numbered().put(
                        OrderView { intent: Some(Intent::Amend { price, size: remaining }), ..o },
                    ),
                    None,
                ),
            }
        }
    }

    /// Cancels requested one after the other.
    pub open spec fn cancel_all(self, ids: Seq<u64>, now: Instant) -> (
        ManagerView,
        Seq<CommandView>,
    )
        decreases ids.len(),
    {
        if ids.len() == 0 {
            (self, seq![])
        } else {
            let (s, head) = self.cancel_all(ids.drop_last(), now);
            let (t, c) = s.cancel(ids.last(), now);
            (t, head + listed(c))
        }
    }

    /// A status query for the order `o`.
    pub open spec fn query(self, o: OrderView, now: Instant) -> (ManagerView, CommandView) {
        (
            self.sent(o, "q"@, now),
            CommandView::Query {
                req_id: request_id("q"@, self.next_req),
                exchange_id: o.exchange_id,
                client_id: o.client_id,
            },
        )
    }

    /// The stored intent of a live order carried out.
    pub open spec fn apply_intent(self, id: u64, now: Instant) -> (
        ManagerView,
        Seq<CommandView>,
    ) {
        let o = self.at(id);
        if o.state != OrderState::Live {
            (self, seq![])
        } else {
            match o.intent {
                Some(Intent::Cancel) => {
                    let (s, c) = self.cancel(id, now);
                    (s, listed(c))
                },
                Some(Intent::Amend { price, size }) => {
                    if o.price != Some(price) || o.remaining() != size {
                        let (s, c) = self.amend(id, price, size, now);
                        (s, listed(c))
                    } else {
                        (self.put(OrderView { intent: None, ..o }), seq![])
                    }
                },
                None => (self, seq![]),
            }
        }
    }

    /// The exchange id of an order recorded, unless it is known already.
    pub open spec fn indexed(self, o: OrderView, exchange_id: Seq<char>) -> ManagerView {
        if o.exchange_id is None {
            ManagerView { by_exchange: self.by_exchange.insert(exchange_id, o.id), ..self }
        } else {
            self
        }
    }

    /// The exchange refused the request of order `o`, which is answered now.
    pub open spec fn refused(self, o: OrderView, label: Seq<char>, now: Instant) -> (
        ManagerView,
        Seq<CommandView>,
    ) {
        match o.state {
            OrderState::PendingNew => {
                if is_unknown(label) {
                    let (s, c) = self.query(o, now);
                    (s, seq![c])
                } else {
                    (
                        self.put(
                            OrderView {
                                state: OrderState::Done(reject_reason(label)),
                                done_at: Some(now),
                                ..o
                            },
                        ),
                        seq![],
                    )
                }
            },
            OrderState::PendingAmend | OrderState::PendingCancel => {
                if is_gone(label) {
                    (
                        self.put(
                            OrderView {
                                state: OrderState::Done(DoneReason::Lost),
                                done_at: Some(now),
                                amend_target: None,
                                ..o
                            },
                        ),
                        seq![],
                    )
                } else {
                    let (s, c) = self.query(
                        OrderView { state: OrderState::Live, ..o },
                        now,
                    );
                    (s, seq![c])
                }
            },
            _ => self.put(o).apply_intent(o.id, now),
        }
    }

    /// An answer to a request of ours.
    pub open spec fn respond(self, resp: ResponseView) -> (ManagerView, Seq<CommandView>) {
        if !self.by_req.contains_key(resp.req_id) {
            (self, seq![])
        } else {
            let id = self.by_req[resp.req_id];
            let s = ManagerView { by_req: self.by_req.remove(resp.req_id), ..self };
            if !known(self.orders, id) {
                (s, seq![])
            } else if self.at(id).req_id != Some(resp.req_id) {
                (s.late_answer(self.at(id), resp.result), seq![])
            } else {
                let o = OrderView {
                    req_id: None,
                    inflight_since: None,
                    last_update: resp.at,
                    ..self.at(id)
                };
                match resp.result {
                    ResultView::Placed(info) | ResultView::Amended(info) | ResultView::Queried(
                        info,
                    ) => s.indexed(o, info.exchange_id).put(
                        absorbed(o, info, resp.at),
                    ).apply_intent(id, resp.at),
                    ResultView::Cancelled(info) => s.indexed(o, info.exchange_id).put(
                        closed_by_cancel(absorbed(o, info, resp.at), resp.at),
                    ).apply_intent(id, resp.at),
                    ResultView::CancelledAll(_) => s.put(o).apply_intent(id, resp.at),
                    ResultView::Error { label, message } => s.refused(o, label, resp.at),
                }
            }
        }
    }

    /// The answer to a superseded request: it may still tell the exchange id.
    pub open spec fn late_answer(self, o: OrderView, result: ResultView) -> ManagerView {
        match result {
            ResultView::Placed(info) | ResultView::Amended(info) | ResultView::Queried(info) => {
                if o.exchange_id is None {
                    self.indexed(o, info.exchange_id).put(
                        OrderView { exchange_id: Some(info.exchange_id), ..o },
                    )
                } else {
                    self
                }
            },
            _ => self,
        }
    }

    /// A private order-stream update.
    pub open spec fn order_update(self, info: InfoView, now: Instant) -> (
        ManagerView,
        Seq<CommandView>,
    ) {
        match self.lookup(info.exchange_id, info.client_id) {
            None => {
                if text::begins_with(info.client_id, self.prefix) && info.status
                    == ExchangeStatus::Open {
                    (ManagerView { foreign: with_foreign(self.foreign, info), ..self }, seq![])
                } else {
                    (self, seq![])
                }
            },
            Some(id) => {
                let o = self.at(id);
                let n = streamed(o, info, now);
                let s = self.indexed(o, info.exchange_id).put(n);
                if n.state == OrderState::Live && n.req_id is None {
                    s.apply_intent(id, now)
                } else {
                    (s, seq![])
                }
            },
        }
    }

    /// A trade id remembered, the oldest one forgotten beyond the limit.
    pub open spec fn remember(self, trade_id: Seq<char>) -> ManagerView {
        let order = self.seen_order.push(trade_id);
        if order.len() > SEEN_TRADES {
            ManagerView {
                seen: self.seen.insert(trade_id).remove(order[0]),
                seen_order: order.subrange(1, order.len() as int),
                ..self
            }
        } else {
            ManagerView { seen: self.seen.insert(trade_id), seen_order: order, ..self }
        }
    }

    /// A trade of `size` contracts booked on the order it names.
    pub open spec fn traded(
        self,
        exchange_id: Seq<char>,
        client_id: Seq<char>,
        size: int,
        at: Instant,
    ) -> ManagerView {
        match self.lookup(exchange_id, client_id) {
            None => self,
            Some(id) => self.put(with_trade(self.at(id), size, at)),
        }
    }

    /// A trade delivered: booked if it is new, else nothing happens.
    pub open spec fn delivered<R>(self, t: UserTrade<R>) -> ManagerView {
        if self.seen.contains(t.trade_id@) {
            self
        } else {
            self.remember(t.trade_id@).traded(
                t.exchange_order_id@,
                t.client_id@,
                magnitude(t.signed_size as int),
                t.at,
            )
        }
    }

    /// The request of order `o` ran into the timeout: it is replaced by a query.
    pub open spec fn expire(self, id: u64, now: Instant) -> (ManagerView, CommandView) {
        let o = self.at(id);
        let s = match o.req_id {
            Some(r) => ManagerView { by_req: self.by_req.remove(r), ..self },
            None => self,
        };
        s.query(o, now)
    }

    pub open spec fn expire_all(self, ids: Seq<u64>, now: Instant) -> (
        ManagerView,
        Seq<CommandView>,
    )
        decreases ids.len(),
    {
        if ids.len() == 0 {
            (self, seq![])
        } else {
            let (s, head) = self.expire_all(ids.drop_last(), now);
            let (t, c) = s.expire(ids.last(), now);
            (t, head.push(c))
        }
    }

    /// The order with this local id forgotten, with its index entries.
    pub open spec fn forget(self, id: u64) -> ManagerView {
        let o = self.at(id);
        ManagerView {
            orders: self.orders.remove(pos(self.orders, id)),
            by_client: self.by_client.remove(o.client_id),
            by_exchange: match o.exchange_id {
                Some(e) => self.by_exchange.remove(e),
                None => self.by_exchange,
            },
            by_req: match o.req_id {
                Some(r) => self.by_req.remove(r),
                None => self.by_req,
            },
            ..self
        }
    }

    pub open spec fn forget_all(self, ids: Seq<u64>) -> ManagerView
        decreases ids.len(),
    {
        if ids.len() == 0 {
            self
        } else {
            self.forget_all(ids.drop_last()).forget(ids.last())
        }
    }

    /// Records of open orders taken in; those of unknown orders are handed back.
    pub open spec fn adopt(self, infos: Seq<InfoView>, now: Instant) -> (
        ManagerView,
        Seq<InfoView>,
    )
        decreases infos.len(),
    {
        if infos.len() == 0 {
            (self, seq![])
        } else {
            let (s, unknown) = self.adopt(infos.drop_last(), now);
            let info = infos.last();
            match s.lookup(info.exchange_id, info.client_id) {
                Some(id) => (s.put(absorbed(s.at(id), info, now)), unknown),
                None => (s, unknown.push(info)),
            }
        }
    }

    /// Quantities in flight over the orders that satisfy `p`.
    pub open spec fn exposure(self, p: spec_fn(OrderView) -> bool) -> PendingExposure {
        PendingExposure {
            open_buy: exposure_sum(self.orders, p, Side::Buy, false) as i128,
            open_sell: exposure_sum(self.orders, p, Side::Sell, false) as i128,
            reduce_buy: exposure_sum(self.orders, p, Side::Buy, true) as i128,
            reduce_sell: exposure_sum(self.orders, p, Side::Sell, true) as i128,
        }
    }

    /// Room in the two counters for `n` more numbers.
    pub open spec fn room(self, n: int) -> bool {
        self.next_req + n <= u64::MAX && self.next_id + n <= u64::MAX
    }
}

/// A cancel confirmation closes an order that its record left open.
pub open spec fn closed_by_cancel(o: OrderView, now: Instant) -> OrderView {
    if o.state.terminal() {
        o
    } else {
        OrderView {
            state: OrderState::Done(DoneReason::Cancelled),
            done_at: Some(now),
            ..o
        }
    }
}

/// An order after a stream update: a pending amend stays pending, and what it
/// asked for is kept.
pub open spec fn streamed(o: OrderView, info: InfoView, now: Instant) -> OrderView {
    let n = absorbed(o, info, now);
    if o.state == OrderState::PendingAmend && info.status == ExchangeStatus::Open {
        OrderView {
            state: OrderState::PendingAmend,
            amend_target: o.amend_target,
            size: if info.update_ms > 0 && o.size > info.size {
                o.size
            } else {
                info.size
            },
            ..n
        }
    } else if o.state == OrderState::PendingNew && n.state == OrderState::Live && n.req_id is Some {
        OrderView { inflight_since: None, ..n }
    } else {
        n
    }
}

/// Unknown orders keyed by exchange id, with `info` put in.
pub open spec fn with_foreign(list: Seq<InfoView>, info: InfoView) -> Seq<InfoView>
    decreases list.len(),
{
    if list.len() == 0 {
        seq![info]
    } else if list.last().exchange_id == info.exchange_id {
        list.drop_last().push(info)
    } else {
        with_foreign(list.drop_last(), info).push(list.last())
    }
}

/// Absolute value.
pub open spec fn magnitude(n: int) -> int {
    if n < 0 {
        -n
    } else {
        n
    }
}

/// The fill that a new trade gives rise to: the order it names decides what it
/// was for, and a trade of an unknown order counts as opening.
pub open spec fn is_fill_of<R>(v: ManagerView, t: UserTrade<R>, f: Fill<R>) -> bool {
    &&& f.size == magnitude(t.signed_size as int)
    &&& f.price == t.price
    &&& f.price_f64 == t.price_f64
    &&& f.fee == t.fee
    &&& f.is_maker == t.is_maker
    &&& f.at == t.at
    &&& f.local_id == v.lookup(t.exchange_order_id@, t.client_id@)
    &&& match f.local_id {
        Some(id) => {
            let o = v.at(id);
            &&& f.client_id@ == o.client_id
            &&& f.side == o.side
            &&& f.purpose == o.purpose
            &&& f.layer == o.layer
            &&& f.reduce_only == o.reduce_only
            &&& f.tif == o.tif
        },
        None => {
            &&& f.client_id@ == t.client_id@
            &&& f.side == (if t.signed_size >= 0 {
                Side::Buy
            } else {
                Side::Sell
            })
            &&& f.purpose == Purpose::Open
            &&& f.layer == u8::MAX
            &&& !f.reduce_only
            &&& f.tif == Tif::Gtc
        },
    }
}

/// A new trade is a count, and so stays the sum on the order that it names. One
/// that was seen before can be anything.
pub open spec fn admits_trade<R>(v: ManagerView, t: UserTrade<R>) -> bool {
    v.seen.contains(t.trade_id@) || {
        &&& model::is_count(magnitude(t.signed_size as int))
        &&& v.lookup(t.exchange_order_id@, t.client_id@) matches Some(id) ==> model::is_count(
            v.at(id).trade_filled + magnitude(t.signed_size as int),
        )
    }
}

/// An order with `size` more contracts traded.
pub open spec fn with_trade(o: OrderView, size: int, at: Instant) -> OrderView {
    let sum = o.trade_filled + size;
    let filled = if sum > o.filled {
        sum
    } else {
        o.filled as int
    };
    let n = OrderView {
        trade_filled: sum as i64,
        filled: filled as i64,
        last_update: at,
        ..o
    };
    if filled >= o.size && o.size > 0 && o.active() {
        OrderView { state: OrderState::Done(DoneReason::Filled), done_at: Some(at), ..n }
    } else {
        n
    }
}

/// The request of an order has been in flight for the timeout or longer.
pub open spec fn timed_out(o: OrderView, timeout: Duration, now: Instant) -> bool {
    o.state.inflight() && (o.inflight_since matches Some(t) && time::elapsed(t, now).nanos
        >= timeout.nanos)
}

/// A finished order has been kept for longer than the retention period.
pub open spec fn expired(o: OrderView, now: Instant) -> bool {
    o.state.terminal() && (o.done_at matches Some(t) && time::elapsed(t, now).nanos
        > time::spec_from_secs(RETENTION_SECS).nanos)
}

/// The one order with an id stands at the position that holds it.
pub(crate) proof fn lemma_pos(orders: Seq<OrderView>, i: int)
    requires
        ascending(orders),
        0 <= i < orders.len(),
    ensures
        known(orders, orders[i].id),
        pos(orders, orders[i].id) == i,
{
    let p = pos(orders, orders[i].id);
    assert(orders[i].id == orders[i].id);
    if p < i {
        assert(orders[p].id < orders[i].id);
    } else if i < p {
        assert(orders[i].id < orders[p].id);
    }
}

/// Replacing an order by one with the same ids keeps the book well formed and
/// leaves every other order as it is.
pub(crate) proof fn lemma_put(v: ManagerView, o: OrderView)
    requires
        v.wf(),
        known(v.orders, o.id),
        o.valid(),
        o.client_id == v.at(o.id).client_id,
        v.at(o.id).exchange_id is Some ==> o.exchange_id == v.at(o.id).exchange_id,
    ensures
        v.put(o).wf(),
        v.put(o).at(o.id) == o,
        forall|k: u64| #[trigger] known(v.put(o).orders, k) == known(v.orders, k),
        forall|k: u64| k != o.id && known(v.orders, k) ==> #[trigger] v.put(o).at(k) == v.at(k),
{
    let w = v.put(o);
    let p = pos(v.orders, o.id);
    assert(0 <= p < v.orders.len() && v.orders[p].id == o.id);
    assert(w.orders.len() == v.orders.len());
    assert forall|i: int| 0 <= i < w.orders.len() implies (#[trigger] w.orders[i]).id
        == v.orders[i].id by {}
    assert(ascending(w.orders)) by {
        assert forall|i: int, j: int| 0 <= i < j < w.orders.len() implies (
        #[trigger] w.orders[i]).id < (#[trigger] w.orders[j]).id by {
            assert(v.orders[i].id < v.orders[j].id);
        }
    }
    assert forall|k: u64| #[trigger] known(w.orders, k) == known(v.orders, k) by {
        if known(v.orders, k) {
            let i = pos(v.orders, k);
            assert(w.orders[i].id == k);
        }
        if known(w.orders, k) {
            let i = pos(w.orders, k);
            assert(v.orders[i].id == k);
        }
    }
    lemma_pos(w.orders, p);
    assert(w.orders[p] == o);
    assert forall|k: u64| k != o.id && known(v.orders, k) implies #[trigger] w.at(k) == v.at(k) by {
        let i = pos(v.orders, k);
        assert(v.orders[i].id == k);
        assert(w.orders[i] == v.orders[i]);
        lemma_pos(w.orders, i);
    }
    assert forall|i: int| 0 <= i < w.orders.len() implies 0 < (#[trigger] w.orders[i]).id
        < w.next_id by {
        assert(v.orders[i].id < v.next_id);
    }
    assert forall|i: int| 0 <= i < w.orders.len() implies (#[trigger] w.orders[i]).valid() by {
        assert(v.orders[i].valid());
    }
    assert forall|k: Seq<char>| #[trigger] w.by_client.contains_key(k) implies known(
        w.orders,
        w.by_client[k],
    ) && w.at(w.by_client[k]).client_id == k by {
        assert(v.by_client.contains_key(k));
        assert(known(w.orders, w.by_client[k]) == known(v.orders, v.by_client[k]));
        if v.by_client[k] != o.id {
            assert(w.at(v.by_client[k]) == v.at(v.by_client[k]));
        }
    }
    assert forall|k: Seq<char>| #[trigger] w.by_exchange.contains_key(k) implies known(
        w.orders,
        w.by_exchange[k],
    ) && w.at(w.by_exchange[k]).exchange_id == Some(k) by {
        assert(v.by_exchange.contains_key(k));
        assert(known(w.orders, w.by_exchange[k]) == known(v.orders, v.by_exchange[k]));
        if v.by_exchange[k] != o.id {
            assert(w.at(v.by_exchange[k]) == v.at(v.by_exchange[k]));
        }
    }
}

/// The same with the exchange id of the order recorded.
pub(crate) proof fn lemma_indexed_put(v: ManagerView, exchange_id: Seq<char>, o: OrderView)
    requires
        v.wf(),
        known(v.orders, o.id),
        o.valid(),
        o.client_id == v.at(o.id).client_id,
        o.exchange_id == Some(
            match v.at(o.id).exchange_id {
                Some(e) => e,
                None => exchange_id,
            },
        ),
    ensures
        v.indexed(v.at(o.id), exchange_id).put(o).wf(),
        v.indexed(v.at(o.id), exchange_id).put(o).at(o.id) == o,
        known(v.indexed(v.at(o.id), exchange_id).put(o).orders, o.id),
{
    lemma_put(v, o);
    let w = v.put(o);
    let x = v.indexed(v.at(o.id), exchange_id).put(o);
    assert(x.orders == w.orders);
    assert(known(w.orders, o.id) == known(v.orders, o.id));
    let p = pos(v.orders, o.id);
    assert(v.orders[p].id == o.id);
    assert(v.at(o.id).id == o.id);
    assert forall|k: Seq<char>| #[trigger] x.by_exchange.contains_key(k) implies known(
        x.orders,
        x.by_exchange[k],
    ) && x.at(x.by_exchange[k]).exchange_id == Some(k) by {
        if v.at(o.id).exchange_id is None && k == exchange_id {
            assert(x.by_exchange[k] == o.id);
        } else {
            assert(w.by_exchange.contains_key(k));
        }
    }
    assert forall|k: Seq<char>| #[trigger] x.by_client.contains_key(k) implies known(
        x.orders,
        x.by_client[k],
    ) && x.at(x.by_client[k]).client_id == k by {
        assert(w.by_client.contains_key(k));
    }
}

/// What an exchange record leaves of an order is again a valid order.
pub(crate) proof fn lemma_absorbed(o: OrderView, info: InfoView, now: Instant)
    requires
        o.valid(),
        info.valid(),
    ensures
        absorbed(o, info, now).valid(),
        absorbed(o, info, now).id == o.id,
        absorbed(o, info, now).client_id == o.client_id,
        streamed(o, info, now).valid(),
        streamed(o, info, now).id == o.id,
        streamed(o, info, now).client_id == o.client_id,
        streamed(o, info, now).exchange_id == absorbed(o, info, now).exchange_id,
{
}

/// Cancelling a list of orders uses one request number each.
pub(crate) proof fn lemma_cancel_all(v: ManagerView, ids: Seq<u64>, now: Instant)
    requires
        v.wf(),
        v.next_req + ids.len() <= u64::MAX,
    ensures
        v.cancel_all(ids, now).0.wf(),
        v.cancel_all(ids, now).0.next_req == v.next_req + ids.len(),
        v.cancel_all(ids, now).0.next_id == v.next_id,
        v.cancel_all(ids, now).0.orders.len() == v.orders.len(),
        v.cancel_all(ids, now).1.len() <= ids.len(),
    decreases ids.len(),
{
    if ids.len() > 0 {
        lemma_cancel_all(v, ids.drop_last(), now);
        let s = v.cancel_all(ids.drop_last(), now).0;
        lemma_cancel(s, ids.last(), now);
    }
}

/// One cancel keeps the book well formed.
pub(crate) proof fn lemma_cancel(v: ManagerView, id: u64, now: Instant)
    requires
        v.wf(),
        v.next_req < u64::MAX,
    ensures
        v.cancel(id, now).0.wf(),
        v.cancel(id, now).0.next_req == v.next_req + 1,
        v.cancel(id, now).0.next_id == v.next_id,
        v.cancel(id, now).0.orders.len() == v.orders.len(),
{
    if known(v.orders, id) {
        let o = v.at(id);
        let n = v.numbered();
        assert(v.orders[pos(v.orders, id)].id == id);
        assert(n.wf()) by {
            lemma_wf_next_req(v, n.next_req);
        }
        let c = OrderView {
            state: OrderState::PendingCancel,
            intent: None,
            req_id: Some(request_id("c"@, v.next_req)),
            inflight_since: Some(now),
            ..o
        };
        lemma_put(n, c);
        lemma_wf_by_req(n.put(c), n.by_req.insert(request_id("c"@, v.next_req), id));
        lemma_put(n, OrderView { intent: Some(Intent::Cancel), ..o });
    } else {
        lemma_wf_next_req(v, v.numbered().next_req);
    }
}

/// One amend keeps the book well formed.
pub(crate) proof fn lemma_amend(v: ManagerView, id: u64, price: Ticks, remaining: i64, now: Instant)
    requires
        v.wf(),
        v.next_req < u64::MAX,
        remaining <= MAX_CONTRACTS,
    ensures
        v.amend(id, price, remaining, now).0.wf(),
        v.next_req <= v.amend(id, price, remaining, now).0.next_req <= v.next_req + 1,
        v.amend(id, price, remaining, now).0.next_id == v.next_id,
        v.amend(id, price, remaining, now).0.orders.len() == v.orders.len(),
{
    lemma_cancel(v, id, now);
    if known(v.orders, id) && !v.at(id).state.terminal() && remaining > 0 {
        let o = v.at(id);
        let n = v.numbered();
        assert(v.orders[pos(v.orders, id)].id == id);
        assert(o.valid());
        lemma_wf_next_req(v, n.next_req);
        let c = OrderView {
            state: OrderState::PendingAmend,
            amend_target: Some((price, (o.filled + remaining) as i64)),
            intent: None,
            req_id: Some(request_id("a"@, v.next_req)),
            inflight_since: Some(now),
            ..o
        };
        lemma_put(n, c);
        lemma_wf_by_req(n.put(c), n.by_req.insert(request_id("a"@, v.next_req), id));
        lemma_put(n, OrderView { intent: Some(Intent::Amend { price, size: remaining }), ..o });
    }
}

/// The request counter takes no part in well-formedness.
pub(crate) proof fn lemma_wf_next_req(v: ManagerView, next_req: u64)
    requires
        v.wf(),
    ensures
        (ManagerView { next_req, ..v }).wf(),
{
    let w = ManagerView { next_req, ..v };
    assert forall|k: Seq<char>| #[trigger] w.by_client.contains_key(k) implies known(
        w.orders,
        w.by_client[k],
    ) && w.at(w.by_client[k]).client_id == k by {
        assert(v.by_client.contains_key(k));
    }
    assert forall|k: Seq<char>| #[trigger] w.by_exchange.contains_key(k) implies known(
        w.orders,
        w.by_exchange[k],
    ) && w.at(w.by_exchange[k]).exchange_id == Some(k) by {
        assert(v.by_exchange.contains_key(k));
    }
}

/// A selection is no longer than the list.
pub(crate) proof fn lemma_select_len(orders: Seq<OrderView>, p: spec_fn(OrderView) -> bool)
    ensures
        select(orders, p).len() <= orders.len(),
    decreases orders.len(),
{
    if orders.len() > 0 {
        lemma_select_len(orders.drop_last(), p);
    }
}

/// A selection by two predicates that agree on every order of the list.
pub(crate) proof fn lemma_select_same(
    orders: Seq<OrderView>,
    p: spec_fn(OrderView) -> bool,
    q: spec_fn(OrderView) -> bool,
)
    requires
        forall|i: int| 0 <= i < orders.len() ==> p(#[trigger] orders[i]) == q(orders[i]),
    ensures
        select(orders, p) == select(orders, q),
    decreases orders.len(),
{
    if orders.len() > 0 {
        assert forall|i: int| 0 <= i < orders.drop_last().len() implies p(
            #[trigger] orders.drop_last()[i],
        ) == q(orders.drop_last()[i]) by {
            assert(orders.drop_last()[i] == orders[i]);
        }
        lemma_select_same(orders.drop_last(), p, q);
        assert(orders.last() == orders[orders.len() - 1]);
    }
}

/// Remembering a new trade id keeps the book well formed.
pub(crate) proof fn lemma_remember(v: ManagerView, trade_id: Seq<char>)
    requires
        v.wf(),
        !v.seen.contains(trade_id),
    ensures
        v.remember(trade_id).wf(),
{
    let w = v.remember(trade_id);
    let order = v.seen_order.push(trade_id);
    assert(!v.seen_order.contains(trade_id));
    assert(order.no_duplicates()) by {
        assert forall|i: int, j: int|
            0 <= i < order.len() && 0 <= j < order.len() && i != j implies order[i]
            != order[j] by {
            if i == v.seen_order.len() {
                assert(v.seen_order.contains(order[j]));
            } else if j == v.seen_order.len() {
                assert(v.seen_order.contains(order[i]));
            }
        }
    }
    let all = v.seen.insert(trade_id);
    assert forall|k: Seq<char>| #[trigger] all.contains(k) <==> order.contains(k) by {
        if order.contains(k) {
            let i = order.index_of(k);
            assert(order[i] == k);
            if i < v.seen_order.len() {
                assert(v.seen_order[i] == k);
                assert(v.seen_order.contains(k));
            }
        }
        if v.seen.contains(k) {
            assert(v.seen_order.contains(k));
            let i = v.seen_order.index_of(k);
            assert(order[i] == k);
        }
        if k == trade_id {
            assert(order[v.seen_order.len() as int] == k);
        }
    }
    if order.len() > SEEN_TRADES {
        let rest = order.subrange(1, order.len() as int);
        assert forall|i: int, j: int|
            0 <= i < rest.len() && 0 <= j < rest.len() && i != j implies rest[i] != rest[j] by {
            assert(order[i + 1] != order[j + 1]);
        }
        assert forall|k: Seq<char>| #[trigger] w.seen.contains(k) <==> w.seen_order.contains(k) by {
            if w.seen_order.contains(k) {
                let i = rest.index_of(k);
                assert(rest[i] == k);
                assert(order[i + 1] == k);
                assert(order.contains(k));
                assert(order[0] != order[i + 1]);
            }
            if w.seen.contains(k) {
                assert(all.contains(k));
                let i = order.index_of(k);
                assert(order[i] == k);
                assert(rest[i - 1] == k);
            }
        }
    }
    assert forall|k: Seq<char>| #[trigger] w.by_client.contains_key(k) implies known(
        w.orders,
        w.by_client[k],
    ) && w.at(w.by_client[k]).client_id == k by {
        assert(v.by_client.contains_key(k));
    }
    assert forall|k: Seq<char>| #[trigger] w.by_exchange.contains_key(k) implies known(
        w.orders,
        w.by_exchange[k],
    ) && w.at(w.by_exchange[k]).exchange_id == Some(k) by {
        assert(v.by_exchange.contains_key(k));
    }
}

/// The list of unknown orders takes no part in well-formedness.
pub(crate) proof fn lemma_wf_foreign(v: ManagerView, foreign: Seq<InfoView>)
    requires
        v.wf(),
    ensures
        (ManagerView { foreign, ..v }).wf(),
{
    let w = ManagerView { foreign, ..v };
    assert forall|k: Seq<char>| #[trigger] w.by_client.contains_key(k) implies known(
        w.orders,
        w.by_client[k],
    ) && w.at(w.by_client[k]).client_id == k by {
        assert(v.by_client.contains_key(k));
    }
    assert forall|k: Seq<char>| #[trigger] w.by_exchange.contains_key(k) implies known(
        w.orders,
        w.by_exchange[k],
    ) && w.at(w.by_exchange[k]).exchange_id == Some(k) by {
        assert(v.by_exchange.contains_key(k));
    }
}

/// A selection names known orders, by strictly ascending id.
pub(crate) proof fn lemma_select(orders: Seq<OrderView>, p: spec_fn(OrderView) -> bool)
    requires
        ascending(orders),
    ensures
        forall|j: int|
            0 <= j < select(orders, p).len() ==> known(orders, #[trigger] select(orders, p)[j])
                && p(orders[pos(orders, select(orders, p)[j])]),
        forall|j: int, k: int|
            0 <= j < k < select(orders, p).len() ==> #[trigger] select(orders, p)[j]
                < #[trigger] select(orders, p)[k],
        orders.len() > 0 ==> forall|j: int|
            0 <= j < select(orders, p).len() ==> #[trigger] select(orders, p)[j]
                <= orders.last().id,
    decreases orders.len(),
{
    if orders.len() > 0 {
        let init = orders.drop_last();
        let head = select(init, p);
        assert(ascending(init)) by {
            assert forall|a: int, b: int| 0 <= a < b < init.len() implies (#[trigger] init[a]).id
                < (#[trigger] init[b]).id by {
                assert(orders[a].id < orders[b].id);
            }
        }
        lemma_select(init, p);
        assert forall|j: int| 0 <= j < head.len() implies known(orders, #[trigger] head[j]) && p(
            orders[pos(orders, head[j])],
        ) && head[j] < orders.last().id by {
            let q = pos(init, head[j]);
            assert(init[q].id == head[j]);
            assert(orders[q] == init[q]);
            lemma_pos(orders, q);
            assert(orders[q].id < orders[orders.len() - 1].id);
        }
        lemma_pos(orders, orders.len() - 1);
    }
}

/// Replacing one request by a query keeps the book well formed.
pub(crate) proof fn lemma_expire(v: ManagerView, id: u64, now: Instant)
    requires
        v.wf(),
        known(v.orders, id),
        v.next_req < u64::MAX,
    ensures
        v.expire(id, now).0.wf(),
        v.expire(id, now).0.next_req == v.next_req + 1,
        v.expire(id, now).0.next_id == v.next_id,
        v.expire(id, now).0.orders.len() == v.orders.len(),
        forall|k: u64| #[trigger] known(v.expire(id, now).0.orders, k) == known(v.orders, k),
{
    let o = v.at(id);
    assert(v.orders[pos(v.orders, id)].id == id);
    let n = OrderView {
        req_id: Some(request_id("q"@, v.next_req)),
        inflight_since: Some(now),
        ..o
    };
    lemma_put(v, n);
    let w = v.expire(id, now).0;
    lemma_wf_next_req(v.put(n), w.next_req);
    lemma_wf_by_req(ManagerView { next_req: w.next_req, ..v.put(n) }, w.by_req);
    assert(w.orders == v.put(n).orders);
}

/// Replacing requests by queries uses one request number each.
pub(crate) proof fn lemma_expire_all(v: ManagerView, ids: Seq<u64>, now: Instant)
    requires
        v.wf(),
        v.next_req + ids.len() <= u64::MAX,
        forall|j: int| 0 <= j < ids.len() ==> known(v.orders, #[trigger] ids[j]),
    ensures
        v.expire_all(ids, now).0.wf(),
        v.expire_all(ids, now).0.next_req == v.next_req + ids.len(),
        v.expire_all(ids, now).0.next_id == v.next_id,
        v.expire_all(ids, now).0.orders.len() == v.orders.len(),
        v.expire_all(ids, now).1.len() == ids.len(),
        forall|k: u64| #[trigger]
            known(v.expire_all(ids, now).0.orders, k) == known(v.orders, k),
    decreases ids.len(),
{
    if ids.len() > 0 {
        assert forall|j: int| 0 <= j < ids.drop_last().len() implies known(
            v.orders,
            #[trigger] ids.drop_last()[j],
        ) by {
            assert(known(v.orders, ids[j]));
        }
        lemma_expire_all(v, ids.drop_last(), now);
        let s = v.expire_all(ids.drop_last(), now).0;
        assert(known(v.orders, ids[ids.len() - 1]));
        assert(known(s.orders, ids.last()) == known(v.orders, ids.last()));
        lemma_expire(s, ids.last(), now);
        assert forall|k: u64| #[trigger]
            known(v.expire_all(ids, now).0.orders, k) == known(v.orders, k) by {
            assert(known(s.orders, k) == known(v.orders, k));
        }
    }
}

/// Forgetting an order keeps the book well formed and every other order known.
pub(crate) proof fn lemma_forget(v: ManagerView, id: u64)
    requires
        v.wf(),
        known(v.orders, id),
    ensures
        v.forget(id).wf(),
        forall|k: u64| k != id ==> #[trigger] v.forget(id).get(k) == v.get(k),
        !known(v.forget(id).orders, id),
        v.forget(id).orders.len() == v.orders.len() - 1,
{
    let w = v.forget(id);
    let p = pos(v.orders, id);
    assert(v.orders[p].id == id);
    assert forall|i: int| 0 <= i < w.orders.len() implies #[trigger] w.orders[i] == v.orders[if i
        < p {
        i
    } else {
        i + 1
    }] by {}
    assert(ascending(w.orders)) by {
        assert forall|i: int, j: int| 0 <= i < j < w.orders.len() implies (
        #[trigger] w.orders[i]).id < (#[trigger] w.orders[j]).id by {
            let a = if i < p {
                i
            } else {
                i + 1
            };
            let b = if j < p {
                j
            } else {
                j + 1
            };
            assert(v.orders[a].id < v.orders[b].id);
        }
    }
    assert forall|k: u64| k != id implies #[trigger] w.get(k) == v.get(k) by {
        if known(v.orders, k) {
            let q = pos(v.orders, k);
            assert(v.orders[q].id == k);
            let r = if q < p {
                q
            } else {
                q - 1
            };
            assert(w.orders[r] == v.orders[q]);
            lemma_pos(w.orders, r);
        } else if known(w.orders, k) {
            let q = pos(w.orders, k);
            assert(w.orders[q].id == k);
            let r = if q < p {
                q
            } else {
                q + 1
            };
            assert(v.orders[r].id == k);
        }
    }
    if known(w.orders, id) {
        let q = pos(w.orders, id);
        assert(w.orders[q].id == id);
        let r = if q < p {
            q
        } else {
            q + 1
        };
        assert(v.orders[r].id == id);
        lemma_pos(v.orders, r);
    }
    assert forall|i: int| 0 <= i < w.orders.len() implies 0 < (#[trigger] w.orders[i]).id
        < w.next_id && w.orders[i].valid() by {
        let a = if i < p {
            i
        } else {
            i + 1
        };
        assert(v.orders[a].id < v.next_id);
        assert(v.orders[a].valid());
    }
    assert forall|k: Seq<char>| #[trigger] w.by_client.contains_key(k) implies known(
        w.orders,
        w.by_client[k],
    ) && w.at(w.by_client[k]).client_id == k by {
        assert(v.by_client.contains_key(k));
        assert(v.by_client[k] != id);
        assert(w.get(v.by_client[k]) == v.get(v.by_client[k]));
    }
    assert forall|k: Seq<char>| #[trigger] w.by_exchange.contains_key(k) implies known(
        w.orders,
        w.by_exchange[k],
    ) && w.at(w.by_exchange[k]).exchange_id == Some(k) by {
        assert(v.by_exchange.contains_key(k));
        assert(v.by_exchange[k] != id);
        assert(w.get(v.by_exchange[k]) == v.get(v.by_exchange[k]));
    }
}

/// A refusal is handled the same whether or not the answered order has been put
/// into the book already.
pub(crate) proof fn lemma_refused_base(v: ManagerView, o: OrderView, label: Seq<char>, now: Instant)
    requires
        v.wf(),
        known(v.orders, o.id),
        ascending(v.put(o).orders),
    ensures
        v.put(o).refused(o, label, now) == v.refused(o, label, now),
{
    let p = pos(v.orders, o.id);
    assert(v.orders[p].id == o.id);
    let w = v.put(o);
    assert(w.orders[p] == o);
    lemma_pos(w.orders, p);
    assert forall|n: OrderView| n.id == o.id implies #[trigger] w.put(n) == v.put(n) by {
        assert(w.put(n).orders =~= v.put(n).orders);
    }
    assert forall|n: OrderView, kind: Seq<char>| n.id == o.id implies #[trigger] w.sent(
        n,
        kind,
        now,
    ) == v.sent(n, kind, now) by {
        let m = OrderView {
            req_id: Some(request_id(kind, v.next_req)),
            inflight_since: Some(now),
            ..n
        };
        assert(w.numbered().put(m).orders =~= v.numbered().put(m).orders);
    }
    assert(w.put(o) == w);
}

/// The request index takes no part in well-formedness.
pub(crate) proof fn lemma_wf_by_req(v: ManagerView, by_req: Map<Seq<char>, u64>)
    requires
        v.wf(),
    ensures
        (ManagerView { by_req, ..v }).wf(),
{
    let w = ManagerView { by_req, ..v };
    assert forall|k: Seq<char>| #[trigger] w.by_client.contains_key(k) implies known(
        w.orders,
        w.by_client[k],
    ) && w.at(w.by_client[k]).client_id == k by {
        assert(v.by_client.contains_key(k));
    }
    assert forall|k: Seq<char>| #[trigger] w.by_exchange.contains_key(k) implies known(
        w.orders,
        w.by_exchange[k],
    ) && w.at(w.by_exchange[k]).exchange_id == Some(k) by {
        assert(v.by_exchange.contains_key(k));
    }
}

/// Taking one element more from the front adds the next one at the end.
pub(crate) proof fn lemma_take(orders: Seq<OrderView>, i: int)
    requires
        0 < i <= orders.len(),
    ensures
        orders.take(i).drop_last() == orders.take(i - 1),
        orders.take(i).last() == orders[i - 1],
{
    assert(orders.take(i).drop_last() =~= orders.take(i - 1));
}

/// A freshly placed order keeps the book well formed.
pub(crate) proof fn lemma_placed(v: ManagerView, o: OrderView, w: ManagerView)
    requires
        v.wf(),
        o.valid(),
        o.id == v.next_id,
        v.next_id < u64::MAX,
        w.next_id == v.next_id + 1,
        w.orders == v.orders.push(o),
        w.by_client == v.by_client.insert(o.client_id, o.id),
        w.by_exchange == v.by_exchange,
        w.seen == v.seen,
        w.seen_order == v.seen_order,
    ensures
        w.wf(),
        w.get(o.id) == Some(o),
        forall|k: u64| k != o.id ==> #[trigger] w.get(k) == v.get(k),
{
    assert(ascending(w.orders)) by {
        assert forall|i: int, j: int| 0 <= i < j < w.orders.len() implies (
        #[trigger] w.orders[i]).id < (#[trigger] w.orders[j]).id by {
            if j < v.orders.len() {
                assert(v.orders[i].id < v.orders[j].id);
            } else {
                assert(v.orders[i].id < v.next_id);
            }
        }
    }
    lemma_pos(w.orders, v.orders.len() as int);
    assert forall|k: u64| k != o.id implies #[trigger] w.get(k) == v.get(k) by {
        if known(v.orders, k) {
            let p = pos(v.orders, k);
            assert(v.orders[p].id == k);
            assert(w.orders[p] == v.orders[p]);
            lemma_pos(w.orders, p);
        } else if known(w.orders, k) {
            let p = pos(w.orders, k);
            assert(w.orders[p].id == k);
            assert(v.orders[p].id == k);
        }
    }
    assert forall|i: int| 0 <= i < w.orders.len() implies 0 < (#[trigger] w.orders[i]).id
        < w.next_id by {
        if i < v.orders.len() {
            assert(v.orders[i].id < v.next_id);
        }
    }
    assert forall|k: Seq<char>| #[trigger] w.by_client.contains_key(k) implies known(
        w.orders,
        w.by_client[k],
    ) && w.at(w.by_client[k]).client_id == k by {
        if k != o.client_id {
            assert(v.by_client.contains_key(k));
            assert(w.get(w.by_client[k]) == v.get(v.by_client[k]));
        }
    }
    assert forall|k: Seq<char>| #[trigger] w.by_exchange.contains_key(k) implies known(
        w.orders,
        w.by_exchange[k],
    ) && w.at(w.by_exchange[k]).exchange_id == Some(k) by {
        assert(v.by_exchange.contains_key(k));
        assert(v.by_exchange[k] != o.id) by {
            let p = pos(v.orders, v.by_exchange[k]);
            assert(v.orders[p].id < v.next_id);
        }
        assert(w.get(w.by_exchange[k]) == v.get(v.by_exchange[k]));
    }
}

/// Chosen orders are orders of the list.
pub(crate) proof fn lemma_chosen_valid(orders: Seq<OrderView>, p: spec_fn(OrderView) -> bool)
    ensures
        chosen(orders, p).len() <= orders.len(),
        forall|k: int|
            0 <= k < chosen(orders, p).len() ==> p(#[trigger] chosen(orders, p)[k])
                && orders.contains(chosen(orders, p)[k]),
        (forall|i: int| 0 <= i < orders.len() ==> (#[trigger] orders[i]).valid()) ==> forall|k: int|
            0 <= k < chosen(orders, p).len() ==> (#[trigger] chosen(orders, p)[k]).valid(),
    decreases orders.len(),
{
    if orders.len() > 0 {
        let init = orders.drop_last();
        lemma_chosen_valid(init, p);
        let head = chosen(init, p);
        assert(orders.last() == orders[orders.len() - 1]);
        assert forall|k: int| 0 <= k < chosen(orders, p).len() implies p(
            #[trigger] chosen(orders, p)[k],
        ) && orders.contains(chosen(orders, p)[k]) by {
            if k < head.len() {
                assert(init.contains(head[k]));
                let i = init.index_of(head[k]);
                assert(orders[i] == head[k]);
            }
        }
        if forall|i: int| 0 <= i < orders.len() ==> (#[trigger] orders[i]).valid() {
            assert forall|k: int| 0 <= k < chosen(orders, p).len() implies (#[trigger] chosen(
                orders,
                p,
            )[k]).valid() by {
                let i = orders.index_of(chosen(orders, p)[k]);
                assert(orders[i].valid());
            }
        }
    }
}

} // verus!
