//! Local book of *our* orders with a strict state machine.
//!
//! - one in-flight request per order; a newer intent overwrites the older one
//!   and is sent only after the in-flight request resolves;
//! - a failed or timed-out amend or cancel never assumes that the order is
//!   gone: a status query is issued instead;
//! - a timed-out new order is never sent again;
//! - amend sizes are **total** sizes (filled plus what shall remain);
//! - fills are applied once per trade id, and a cancel confirmation never
//!   erases a fill that arrives later.

use std::collections::VecDeque;

use vstd::hash_map::StringHashMap;
use vstd::prelude::*;

use crate::order::lifecycle;
use crate::order::lifecycle::{ManagerView, RETENTION_SECS, SEEN_TRADES};
use crate::order::model;
use crate::order::model::{
    CommandView, DoneReason, ExchangeStatus, ExecCommand, ExecResponse, ExecResult, Fill, Intent,
    LocalOrder, OrderInfo, OrderState, OrderView, Tif, UserTrade, MAX_CONTRACTS,
};
use crate::strategy::inventory::PendingExposure;
use crate::text;
use crate::time::{Duration, Instant};
use crate::types::{Purpose, Side, Ticks};

verus! {

/// Commands that the manager wants sent after an event.
pub struct Followups {
    pub commands: Vec<ExecCommand>,
}

pub struct OrderManager {
    next_id: u64,
    next_req: u64,
    prefix: String,
    inflight_timeout: Duration,
    orders: Vec<LocalOrder>,
    by_client: StringHashMap<u64>,
    by_exchange: StringHashMap<u64>,
    by_req: StringHashMap<u64>,
    seen_trades: StringHashMap<()>,
    seen_order: VecDeque<String>,
    /// Open orders with our prefix that we never created, by exchange id.
    foreign: Vec<OrderInfo>,
}

/// The orders of a list, as plain values.
pub open spec fn order_views(orders: Seq<LocalOrder>) -> Seq<OrderView> {
    orders.map_values(|o: LocalOrder| o@)
}

pub open spec fn opt_command(c: Option<ExecCommand>) -> Option<CommandView> {
    match c {
        Some(x) => Some(x@),
        None => None,
    }
}

impl View for OrderManager {
    type V = ManagerView;

    closed spec fn view(&self) -> ManagerView {
        ManagerView {
            next_id: self.next_id,
            next_req: self.next_req,
            prefix: self.prefix@,
            inflight_timeout: self.inflight_timeout,
            orders: order_views(self.orders@),
            by_client: self.by_client@,
            by_exchange: self.by_exchange@,
            by_req: self.by_req@,
            seen: self.seen_trades@.dom(),
            seen_order: self.seen_order@.map_values(|s: String| s@),
            foreign: model::info_views(self.foreign@),
        }
    }
}

impl OrderManager {
    pub fn new(prefix: &str, inflight_timeout: Duration) -> (m: OrderManager)
        ensures
            m@ == ManagerView::empty(prefix@, inflight_timeout),
            m@.wf(),
    {
        let m = OrderManager {
            next_id: 1,
            next_req: 1,
            prefix: prefix.to_string(),
            inflight_timeout,
            orders: Vec::new(),
            by_client: StringHashMap::new(),
            by_exchange: StringHashMap::new(),
            by_req: StringHashMap::new(),
            seen_trades: StringHashMap::new(),
            seen_order: VecDeque::new(),
            foreign: Vec::new(),
        };
        assert(m@.orders =~= seq![]);
        assert(m@.seen =~= Set::empty());
        assert(m@.seen_order =~= seq![]);
        assert(m@.foreign =~= seq![]);
        m
    }

    /// Whether a client id was made by this manager's prefix.
    pub fn is_ours(&self, client_id: &str) -> (r: bool)
        ensures
            r == text::begins_with(client_id@, self@.prefix),
    {
        text::starts_with(client_id, self.prefix.as_str())
    }

    fn index_of(&self, id: u64) -> (r: Option<usize>)
        ensures
            match r {
                Some(i) => i < self.orders.len() && self.orders@[i as int].id == id,
                None => !lifecycle::known(self@.orders, id),
            },
    {
        let mut i: usize = 0;
        while i < self.orders.len()
            invariant
                i <= self.orders.len(),
                forall|j: int| 0 <= j < i ==> (#[trigger] self.orders@[j]).id != id,
            decreases self.orders.len() - i,
        {
            if self.orders[i].id == id {
                return Some(i);
            }
            i = i + 1;
        }
        proof {
            if lifecycle::known(self@.orders, id) {
                let p = lifecycle::pos(self@.orders, id);
                assert(self@.orders[p] == self.orders@[p]@);
            }
        }
        None
    }

    fn new_req_id(&mut self, kind: &str) -> (r: String)
        requires
            old(self)@.next_req < u64::MAX,
        ensures
            r@ == lifecycle::request_id(kind@, old(self)@.next_req),
            final(self)@ == old(self)@.numbered(),
            final(self).orders == old(self).orders,
    {
        let mut r = kind.to_string();
        r.push('-');
        text::push_decimal(&mut r, self.next_req);
        self.next_req = self.next_req + 1;
        assert(r@ =~= lifecycle::request_id(kind@, old(self)@.next_req));
        r
    }

    pub fn get(&self, id: u64) -> (r: Option<&LocalOrder>)
        requires
            self@.wf(),
        ensures
            match r {
                Some(o) => self@.get(id) == Some(o@),
                None => self@.get(id) is None,
            },
    {
        match self.index_of(id) {
            Some(i) => {
                proof {
                    assert(self@.orders[i as int] == self.orders@[i as int]@);
                    lifecycle::lemma_pos(self@.orders, i as int);
                }
                Some(&self.orders[i])
            },
            None => None,
        }
    }

    /// All orders that are still kept, finished ones included, by ascending id.
    pub fn all(&self) -> (r: &Vec<LocalOrder>)
        ensures
            order_views(r@) == self@.orders,
    {
        &self.orders
    }

    /// Create a new order and return its id and the command to send.
    pub fn place(
        &mut self,
        side: Side,
        purpose: Purpose,
        layer: u8,
        price: Option<Ticks>,
        size: i64,
        tif: Tif,
        now: Instant,
        now_ms: i64,
    ) -> (r: (u64, ExecCommand))
        requires
            old(self)@.wf(),
            old(self)@.room(1),
            model::is_count(size as int),
        ensures
            (final(self)@, r.1@) == old(self)@.place(
                side,
                purpose,
                layer,
                price,
                size,
                tif,
                now,
                now_ms,
            ),
            r.0 == old(self)@.next_id,
            final(self)@.wf(),
    {
        let id: u64 = self.next_id;
        self.next_id = self.next_id + 1;
        let client_id = self.new_client_id(now_ms);
        let req_id = self.new_req_id("p");
        let reduce_only = purpose == Purpose::Reduce;
        let o = LocalOrder {
            id,
            client_id: client_id.clone(),
            exchange_id: None,
            side,
            purpose,
            layer,
            tif,
            reduce_only,
            price,
            size,
            filled: 0,
            trade_filled: 0,
            state: OrderState::PendingNew,
            intent: None,
            amend_target: None,
            inflight_since: Some(now),
            req_id: Some(req_id.clone()),
            last_update: now,
            done_at: None,
        };
        self.by_client.insert(client_id.clone(), id);
        self.by_req.insert(req_id.clone(), id);
        let ghost ov = o@;
        self.orders.push(o);
        proof {
            let v = old(self)@;
            let w = v.place(side, purpose, layer, price, size, tif, now, now_ms).0;
            assert(self@.orders =~= v.orders.push(ov));
            assert(self@ == w);
            lifecycle::lemma_placed(v, ov, w);
        }
        (id, ExecCommand::Place { req_id, client_id, side, size, price, tif, reduce_only })
    }

    fn new_client_id(&self, now_ms: i64) -> (r: String)
        requires
            self.next_id > 0,
        ensures
            r@ == self@.prefix + text::signed_decimal(lifecycle::client_stamp(now_ms)) + text::decimal(
                self@.next_id as nat,
            ),
    {
        let mut r = self.prefix.clone();
        if now_ms >= 0 {
            text::push_decimal(&mut r, (now_ms % 1_000_000_000) as u64);
        } else {
            let m: i64 = ((-(now_ms as i128)) % 1_000_000_000i128) as i64;
            text::push_signed(&mut r, -m);
        }
        text::push_decimal(&mut r, self.next_id);
        r
    }
}

impl OrderManager {
    /// Orders that are not finished, by ascending id.
    pub fn active(&self) -> (r: Vec<&LocalOrder>)
        ensures
            r@.map_values(|o: &LocalOrder| o@) == lifecycle::active_orders(self@.orders),
    {
        let mut r: Vec<&LocalOrder> = Vec::new();
        let mut i: usize = 0;
        while i < self.orders.len()
            invariant
                i <= self.orders.len(),
                r@.map_values(|o: &LocalOrder| o@) == lifecycle::active_orders(self@.orders.take(i as int)),
            decreases self.orders.len() - i,
        {
            let ghost prev = r@;
            if !self.orders[i].state.is_terminal() {
                r.push(&self.orders[i]);
            }
            i = i + 1;
            proof {
                lifecycle::lemma_take(self@.orders, i as int);
                assert(self@.orders[i - 1] == self.orders@[i - 1]@);
                assert(prev.push(&self.orders@[i - 1]).map_values(|o: &LocalOrder| o@)
                    =~= prev.map_values(|o: &LocalOrder| o@).push(self.orders@[i - 1]@));
            }
        }
        assert(self@.orders.take(i as int) =~= self@.orders);
        r
    }

    pub fn active_count(&self) -> (r: usize)
        ensures
            r == lifecycle::active_orders(self@.orders).len(),
    {
        let a = self.active();
        assert(a@.len() == a@.map_values(|o: &LocalOrder| o@).len());
        a.len()
    }

    /// Active orders that stand in a quote slot (side, layer), exits left out.
    pub fn slots(&self) -> (r: Vec<&LocalOrder>)
        ensures
            r@.map_values(|o: &LocalOrder| o@) == lifecycle::slot_orders(self@.orders),
    {
        let mut r: Vec<&LocalOrder> = Vec::new();
        let mut i: usize = 0;
        while i < self.orders.len()
            invariant
                i <= self.orders.len(),
                r@.map_values(|o: &LocalOrder| o@) == lifecycle::slot_orders(self@.orders.take(i as int)),
            decreases self.orders.len() - i,
        {
            let ghost prev = r@;
            if !self.orders[i].state.is_terminal() && self.orders[i].layer != u8::MAX {
                r.push(&self.orders[i]);
            }
            i = i + 1;
            proof {
                lifecycle::lemma_take(self@.orders, i as int);
                assert(self@.orders[i - 1] == self.orders@[i - 1]@);
                assert(prev.push(&self.orders@[i - 1]).map_values(|o: &LocalOrder| o@)
                    =~= prev.map_values(|o: &LocalOrder| o@).push(self.orders@[i - 1]@));
            }
        }
        assert(self@.orders.take(i as int) =~= self@.orders);
        r
    }

    /// Quantities (side, price, remaining) that might still trade, used to strip
    /// our own orders from Gate's book.
    pub fn own_resting(&self) -> (r: Vec<(Side, Ticks, i64)>)
        requires
            self@.wf(),
        ensures
            r@ == lifecycle::resting(self@.orders),
    {
        let mut r: Vec<(Side, Ticks, i64)> = Vec::new();
        let mut i: usize = 0;
        while i < self.orders.len()
            invariant
                self@.wf(),
                i <= self.orders.len(),
                r@ == lifecycle::resting(self@.orders.take(i as int)),
            decreases self.orders.len() - i,
        {
            let o = &self.orders[i];
            assert(self@.orders[i as int] == o@);
            if let Some(p) = o.price {
                let q: i64 = o.remaining();
                if !o.state.is_terminal() && q > 0 {
                    r.push((o.side, p, q));
                }
            }
            i = i + 1;
            proof {
                lifecycle::lemma_take(self@.orders, i as int);
            }
        }
        assert(self@.orders.take(i as int) =~= self@.orders);
        r
    }

    /// Exposure of the orders whose quantity is not under our control right now.
    pub fn uncontrolled_exposure(&self) -> (e: PendingExposure)
        requires
            self@.wf(),
        ensures
            e == self@.exposure(|o: OrderView| true),
            e.wf(),
    {
        let every = |o: &LocalOrder| -> (b: bool)
            ensures
                b,
            { true };
        assert(lifecycle::decides(every, |o: OrderView| true));
        self.uncontrolled_exposure_where(every)
    }

    /// In-flight exposure restricted to the orders that match `pred`.
    pub fn uncontrolled_exposure_where<F: Fn(&LocalOrder) -> bool>(
        &self,
        pred: F,
    ) -> (e: PendingExposure)
        requires
            self@.wf(),
            lifecycle::total(pred),
        ensures
            e.wf(),
            forall|p: spec_fn(OrderView) -> bool| #[trigger]
                lifecycle::decides(pred, p) ==> e == self@.exposure(p),
    {
        let mut e = PendingExposure { open_buy: 0, open_sell: 0, reduce_buy: 0, reduce_sell: 0 };
        let mut i: usize = 0;
        while i < self.orders.len()
            invariant
                self@.wf(),
                lifecycle::total(pred),
                i <= self.orders.len(),
                0 <= e.open_buy,
                0 <= e.open_sell,
                0 <= e.reduce_buy,
                0 <= e.reduce_sell,
                e.open_buy + e.open_sell + e.reduce_buy + e.reduce_sell <= i * i64::MAX,
                forall|p: spec_fn(OrderView) -> bool| #[trigger]
                    lifecycle::decides(pred, p) ==> {
                        let part = self@.orders.take(i as int);
                        &&& e.open_buy == lifecycle::exposure_sum(part, p, Side::Buy, false)
                        &&& e.open_sell == lifecycle::exposure_sum(part, p, Side::Sell, false)
                        &&& e.reduce_buy == lifecycle::exposure_sum(part, p, Side::Buy, true)
                        &&& e.reduce_sell == lifecycle::exposure_sum(part, p, Side::Sell, true)
                    },
            decreases self.orders.len() - i,
        {
            let o = &self.orders[i];
            assert(self@.orders[i as int] == o@);
            assert((i + 1) * i64::MAX == i * i64::MAX + i64::MAX) by (nonlinear_arith);
            assert((i + 1) * i64::MAX <= u64::MAX * i64::MAX) by (nonlinear_arith)
                requires
                    i + 1 <= u64::MAX,
            ;
            let uncontrolled = o.state.is_inflight() || (!o.state.is_terminal() && o.req_id.is_some()
                && o.amend_target.is_some());
            if uncontrolled && pred(o) {
                let mut q: i64 = o.remaining();
                if let Some(t) = o.amend_target {
                    if t.1 >= o.filled && t.1 - o.filled > q {
                        q = t.1 - o.filled;
                    }
                }
                assert(q == lifecycle::inflight_quantity(o@));
                if o.side == Side::Buy {
                    if o.reduce_only {
                        e.reduce_buy = e.reduce_buy + q as i128;
                    } else {
                        e.open_buy = e.open_buy + q as i128;
                    }
                } else {
                    if o.reduce_only {
                        e.reduce_sell = e.reduce_sell + q as i128;
                    } else {
                        e.open_sell = e.open_sell + q as i128;
                    }
                }
            }
            i = i + 1;
            proof {
                lifecycle::lemma_take(self@.orders, i as int);
            }
        }
        assert(self@.orders.take(i as int) =~= self@.orders);
        assert(i * i64::MAX <= u64::MAX * i64::MAX) by (nonlinear_arith)
            requires
                i <= u64::MAX,
        ;
        e
    }

    /// Sends a request for the order at `i`: marks it and files the request.
    fn mark_sent(&mut self, i: usize, req: String, now: Instant)
        requires
            i < old(self).orders.len(),
            old(self)@.wf(),
        ensures
            ({
                let o = old(self).orders@[i as int]@;
                let s = old(self)@.put(
                    OrderView { req_id: Some(req@), inflight_since: Some(now), ..o },
                );
                final(self)@ == ManagerView { by_req: s.by_req.insert(req@, o.id), ..s }
            }),
            final(self)@.wf(),
    {
        let id: u64 = self.orders[i].id;
        self.orders[i].req_id = Some(req.clone());
        self.orders[i].inflight_since = Some(now);
        self.by_req.insert(req, id);
        proof {
            let v = old(self)@;
            let n = self.orders@[i as int]@;
            assert(v.orders[i as int] == old(self).orders@[i as int]@);
            lifecycle::lemma_pos(v.orders, i as int);
            lifecycle::lemma_put(v, n);
            assert(self@.orders =~= v.put(n).orders);
            assert(self@ == ManagerView { by_req: v.by_req.insert(req@, id), ..v.put(n) });
            lifecycle::lemma_wf_by_req(v.put(n), v.by_req.insert(req@, id));
        }
    }

    /// Request a new price and **remaining** size. Returns a command if it can be
    /// sent now; otherwise the intent is stored.
    pub fn amend(&mut self, id: u64, price: Ticks, remaining: i64, now: Instant) -> (r: Option<
        ExecCommand,
    >)
        requires
            old(self)@.wf(),
            old(self)@.next_req < u64::MAX,
            remaining <= MAX_CONTRACTS,
        ensures
            (final(self)@, opt_command(r)) == old(self)@.amend(id, price, remaining, now),
            final(self)@.wf(),
    {
        let i: usize = match self.index_of(id) {
            Some(i) => i,
            None => return None,
        };
        proof {
            assert(self@.orders[i as int] == self.orders@[i as int]@);
            lifecycle::lemma_pos(self@.orders, i as int);
        }
        if self.orders[i].state.is_terminal() {
            return None;
        }
        if remaining <= 0 {
            return self.cancel(id, now);
        }
        let total: i64 = self.orders[i].filled + remaining;
        let req = self.new_req_id("a");
        let exchange_id = self.orders[i].exchange_id.clone();
        let free = self.orders[i].req_id.is_none();
        match (exchange_id, self.orders[i].state) {
            (Some(exchange_id), OrderState::Live) if free => {
                self.orders[i].state = OrderState::PendingAmend;
                self.orders[i].amend_target = Some((price, total));
                self.orders[i].intent = None;
                let client_id = self.orders[i].client_id.clone();
                proof {
                    let v = old(self)@.numbered();
                    let n = self.orders@[i as int]@;
                    lifecycle::lemma_put(v, n);
                    assert(self@.orders =~= v.put(n).orders);
                    assert(self@ == v.put(n));
                }
                let ghost mid = self@;
                self.mark_sent(i, req.clone(), now);
                proof {
                    lifecycle::lemma_pos(mid.orders, i as int);
                    assert(self@.orders =~= old(self)@.amend(id, price, remaining, now).0.orders);
                }
                Some(
                    ExecCommand::Amend {
                        req_id: req,
                        exchange_id,
                        client_id,
                        price: Some(price),
                        size: Some(total),
                    },
                )
            },
            _ => {
                self.orders[i].intent = Some(Intent::Amend { price, size: remaining });
                proof {
                    let v = old(self)@.numbered();
                    let n = self.orders@[i as int]@;
                    lifecycle::lemma_put(v, n);
                    assert(self@.orders =~= v.put(n).orders);
                }
                None
            },
        }
    }

    /// Request a cancel. Returns a command if it can be sent now; otherwise the
    /// intent is stored.
    pub fn cancel(&mut self, id: u64, now: Instant) -> (r: Option<ExecCommand>)
        requires
            old(self)@.wf(),
            old(self)@.next_req < u64::MAX,
        ensures
            (final(self)@, opt_command(r)) == old(self)@.cancel(id, now),
            final(self)@.wf(),
    {
        let req = self.new_req_id("c");
        let i: usize = match self.index_of(id) {
            Some(i) => i,
            None => return None,
        };
        proof {
            assert(self@.orders[i as int] == self.orders@[i as int]@);
            lifecycle::lemma_pos(self@.orders, i as int);
        }
        let free = self.orders[i].req_id.is_none();
        match self.orders[i].state {
            OrderState::PendingCancel | OrderState::Done(_) => None,
            OrderState::Live if free => {
                self.orders[i].state = OrderState::PendingCancel;
                self.orders[i].intent = None;
                let client_id = self.orders[i].client_id.clone();
                let exchange_id = self.orders[i].exchange_id.clone();
                proof {
                    let v = old(self)@.numbered();
                    let n = self.orders@[i as int]@;
                    lifecycle::lemma_put(v, n);
                    assert(self@.orders =~= v.put(n).orders);
                    assert(self@ == v.put(n));
                }
                let ghost mid = self@;
                self.mark_sent(i, req.clone(), now);
                proof {
                    lifecycle::lemma_pos(mid.orders, i as int);
                    assert(self@.orders =~= old(self)@.cancel(id, now).0.orders);
                }
                Some(ExecCommand::Cancel { req_id: req, exchange_id, client_id })
            },
            _ => {
                self.orders[i].intent = Some(Intent::Cancel);
                proof {
                    let v = old(self)@.numbered();
                    let n = self.orders@[i as int]@;
                    lifecycle::lemma_put(v, n);
                    assert(self@.orders =~= v.put(n).orders);
                }
                None
            },
        }
    }
}

/// The plain values of a command list grown by one.
proof fn lemma_commands_push(cmds: Seq<ExecCommand>, c: ExecCommand)
    ensures
        model::command_views(cmds.push(c)) == model::command_views(cmds).push(c@),
{
    assert(model::command_views(cmds.push(c)) =~= model::command_views(cmds).push(c@));
}

impl OrderManager {
    /// Local ids of the active orders that match `pred`.
    fn active_ids<F: Fn(&LocalOrder) -> bool>(&self, pred: F) -> (ids: Vec<u64>)
        requires
            lifecycle::total(pred),
        ensures
            ids.len() <= self@.orders.len(),
            forall|p: spec_fn(OrderView) -> bool| #[trigger]
                lifecycle::decides(pred, p) ==> ids@ == lifecycle::select(
                    self@.orders,
                    |o: OrderView| o.active() && p(o),
                ),
    {
        let mut ids: Vec<u64> = Vec::new();
        let mut i: usize = 0;
        while i < self.orders.len()
            invariant
                lifecycle::total(pred),
                i <= self.orders.len(),
                ids.len() <= i,
                forall|p: spec_fn(OrderView) -> bool| #[trigger]
                    lifecycle::decides(pred, p) ==> ids@ == lifecycle::select(
                        self@.orders.take(i as int),
                        |o: OrderView| o.active() && p(o),
                    ),
            decreases self.orders.len() - i,
        {
            let o = &self.orders[i];
            assert(self@.orders[i as int] == o@);
            if !o.state.is_terminal() && pred(o) {
                ids.push(o.id);
            }
            i = i + 1;
            proof {
                lifecycle::lemma_take(self@.orders, i as int);
            }
        }
        assert(self@.orders.take(i as int) =~= self@.orders);
        ids
    }

    fn cancel_ids(&mut self, ids: &Vec<u64>, now: Instant) -> (cmds: Vec<ExecCommand>)
        requires
            old(self)@.wf(),
            old(self)@.next_req + ids.len() <= u64::MAX,
        ensures
            (final(self)@, model::command_views(cmds@)) == old(self)@.cancel_all(ids@, now),
            final(self)@.wf(),
    {
        let mut cmds: Vec<ExecCommand> = Vec::new();
        let mut i: usize = 0;
        assert(ids@.take(0) =~= seq![]);
        assert(model::command_views(cmds@) =~= seq![]);
        while i < ids.len()
            invariant
                i <= ids.len(),
                old(self)@.wf(),
                old(self)@.next_req + ids.len() <= u64::MAX,
                self@.wf(),
                self@.next_req == old(self)@.next_req + i,
                (self@, model::command_views(cmds@)) == old(self)@.cancel_all(
                    ids@.take(i as int),
                    now,
                ),
            decreases ids.len() - i,
        {
            let ghost before = cmds@;
            proof {
                lifecycle::lemma_cancel(self@, ids@[i as int], now);
            }
            let c = self.cancel(ids[i], now);
            i = i + 1;
            proof {
                assert(ids@.take(i as int).drop_last() =~= ids@.take(i - 1));
                assert(ids@.take(i as int).last() == ids@[i - 1]);
            }
            if let Some(c) = c {
                cmds.push(c);
                proof {
                    lemma_commands_push(before, c);
                    assert(model::command_views(before).push(c@) =~= model::command_views(before)
                        + seq![c@]);
                }
            } else {
                assert(model::command_views(before) + Seq::<CommandView>::empty()
                    =~= model::command_views(before));
            }
        }
        assert(ids@.take(i as int) =~= ids@);
        cmds
    }

    /// Cancel the active orders that match a predicate.
    pub fn cancel_where<F: Fn(&LocalOrder) -> bool>(&mut self, pred: F, now: Instant) -> (cmds:
        Vec<ExecCommand>)
        requires
            old(self)@.wf(),
            old(self)@.next_req + old(self)@.orders.len() <= u64::MAX,
            lifecycle::total(pred),
        ensures
            forall|p: spec_fn(OrderView) -> bool| #[trigger]
                lifecycle::decides(pred, p) ==> (final(self)@, model::command_views(cmds@))
                    == old(self)@.cancel_all(
                    lifecycle::select(old(self)@.orders, |o: OrderView| o.active() && p(o)),
                    now,
                ),
            final(self)@.wf(),
            final(self)@.next_req <= old(self)@.next_req + old(self)@.orders.len(),
            final(self)@.next_id == old(self)@.next_id,
            final(self)@.orders.len() == old(self)@.orders.len(),
    {
        let ids = self.active_ids(pred);
        let cmds = self.cancel_ids(&ids, now);
        proof {
            lifecycle::lemma_cancel_all(old(self)@, ids@, now);
        }
        cmds
    }

    fn finish_reason(info: &OrderInfo) -> (r: DoneReason)
        ensures
            r == lifecycle::finish_reason(info@),
    {
        let f = info.finish_as.as_str();
        if text::same(f, "filled") {
            DoneReason::Filled
        } else if text::same(f, "cancelled") || text::same(f, "auto_deleveraged") || text::same(
            f,
            "liquidated",
        ) || text::same(f, "reduce_out") || text::same(f, "position_closed") || text::same(f, "stp")
            || text::same(f, "reduce_only") {
            DoneReason::Cancelled
        } else if text::same(f, "poc") {
            DoneReason::PostOnlyReject
        } else if text::same(f, "ioc") {
            DoneReason::IocDone
        } else if info.left == 0 {
            DoneReason::Filled
        } else {
            DoneReason::Cancelled
        }
    }

    fn absorb_info(o: &mut LocalOrder, info: &OrderInfo, now: Instant)
        requires
            info@.valid(),
        ensures
            final(o)@ == lifecycle::absorbed(old(o)@, info@, now),
    {
        if o.exchange_id.is_none() {
            o.exchange_id = Some(info.exchange_id.clone());
        }
        o.price = Some(info.price);
        o.size = info.size;
        let filled: i64 = info.filled();
        if filled > o.filled {
            o.filled = filled;
        }
        o.last_update = now;
        match info.status {
            ExchangeStatus::Open => {
                if o.req_id.is_none() {
                    o.amend_target = None;
                }
                if !o.state.is_terminal() {
                    o.state = OrderState::Live;
                }
            },
            ExchangeStatus::Finished => {
                o.state = OrderState::Done(Self::finish_reason(info));
                o.done_at = Some(now);
                o.intent = None;
                o.amend_target = None;
            },
        }
    }

    fn apply_intent(&mut self, id: u64, now: Instant, cmds: &mut Vec<ExecCommand>)
        requires
            old(self)@.wf(),
            lifecycle::known(old(self)@.orders, id),
            old(self)@.next_req < u64::MAX,
        ensures
            ({
                let (s, out) = old(self)@.apply_intent(id, now);
                &&& final(self)@ == s
                &&& model::command_views(final(cmds)@) == model::command_views(old(cmds)@) + out
            }),
            final(self)@.wf(),
    {
        assert(model::command_views(old(cmds)@) + Seq::<CommandView>::empty()
            =~= model::command_views(old(cmds)@));
        let i: usize = match self.index_of(id) {
            Some(i) => i,
            None => return ,
        };
        proof {
            assert(self@.orders[i as int] == self.orders@[i as int]@);
            lifecycle::lemma_pos(self@.orders, i as int);
        }
        if self.orders[i].state != OrderState::Live {
            return ;
        }
        let c = match self.orders[i].intent {
            Some(Intent::Cancel) => self.cancel(id, now),
            Some(Intent::Amend { price, size }) => {
                if self.orders[i].price != Some(price) || self.orders[i].remaining() != size {
                    self.amend(id, price, size, now)
                } else {
                    self.orders[i].intent = None;
                    proof {
                        let v = old(self)@;
                        let n = self.orders@[i as int]@;
                        lifecycle::lemma_put(v, n);
                        assert(self@.orders =~= v.put(n).orders);
                    }
                    None
                }
            },
            None => None,
        };
        if let Some(c) = c {
            cmds.push(c);
            proof {
                lemma_commands_push(old(cmds)@, c);
                assert(model::command_views(old(cmds)@).push(c@) =~= model::command_views(
                    old(cmds)@,
                ) + seq![c@]);
            }
        }
    }
}

impl OrderManager {
    /// Puts an exchange record into the order at `i` and files its exchange id.
    fn take_info(&mut self, i: usize, info: &OrderInfo, now: Instant)
        requires
            i < old(self).orders.len(),
            old(self)@.wf(),
            info@.valid(),
        ensures
            final(self)@ == old(self)@.indexed(
                old(self).orders@[i as int]@,
                info@.exchange_id,
            ).put(lifecycle::absorbed(old(self).orders@[i as int]@, info@, now)),
            final(self)@.wf(),
            final(self).orders.len() == old(self).orders.len(),
            final(self).orders@[i as int]@ == lifecycle::absorbed(
                old(self).orders@[i as int]@,
                info@,
                now,
            ),
    {
        let id: u64 = self.orders[i].id;
        if self.orders[i].exchange_id.is_none() {
            self.by_exchange.insert(info.exchange_id.clone(), id);
        }
        Self::absorb_info(&mut self.orders[i], info, now);
        proof {
            let v = old(self)@;
            let o = old(self).orders@[i as int]@;
            let n = self.orders@[i as int]@;
            assert(v.orders[i as int] == o);
            lifecycle::lemma_pos(v.orders, i as int);
            lifecycle::lemma_absorbed(o, info@, now);
            lifecycle::lemma_indexed_put(v, info@.exchange_id, n);
            assert(self@.orders =~= v.indexed(o, info@.exchange_id).put(n).orders);
        }
    }

    /// Changes the order at `i` into a value with the same ids.
    fn replace_state(&mut self, i: usize, state: OrderState, done_at: Option<Instant>)
        requires
            i < old(self).orders.len(),
            old(self)@.wf(),
            state != OrderState::PendingAmend,
        ensures
            final(self)@ == old(self)@.put(
                OrderView { state, done_at, ..old(self).orders@[i as int]@ },
            ),
            final(self)@.wf(),
            final(self).orders.len() == old(self).orders.len(),
            final(self).orders@[i as int]@ == (OrderView {
                state,
                done_at,
                ..old(self).orders@[i as int]@
            }),
    {
        self.orders[i].state = state;
        self.orders[i].done_at = done_at;
        proof {
            let v = old(self)@;
            let n = self.orders@[i as int]@;
            assert(v.orders[i as int] == old(self).orders@[i as int]@);
            lifecycle::lemma_pos(v.orders, i as int);
            lifecycle::lemma_put(v, n);
            assert(self@.orders =~= v.put(n).orders);
        }
    }

    /// Sends a status query for the order at `i`.
    fn send_query(&mut self, i: usize, now: Instant) -> (c: ExecCommand)
        requires
            i < old(self).orders.len(),
            old(self)@.wf(),
            old(self)@.next_req < u64::MAX,
        ensures
            (final(self)@, c@) == old(self)@.query(old(self).orders@[i as int]@, now),
            final(self)@.wf(),
    {
        let req = self.new_req_id("q");
        proof {
            lifecycle::lemma_wf_next_req(old(self)@, self@.next_req);
            assert(self@.orders[i as int] == self.orders@[i as int]@);
            lifecycle::lemma_pos(self@.orders, i as int);
        }
        let exchange_id = self.orders[i].exchange_id.clone();
        let client_id = self.orders[i].client_id.clone();
        self.mark_sent(i, req.clone(), now);
        ExecCommand::Query { req_id: req, exchange_id, client_id }
    }

    /// The exchange refused the request of the order at `i`.
    fn on_refusal(&mut self, i: usize, label: &str, now: Instant, cmds: &mut Vec<ExecCommand>)
        requires
            i < old(self).orders.len(),
            old(self)@.wf(),
            old(self)@.next_req < u64::MAX,
            old(cmds)@.len() == 0,
        ensures
            (final(self)@, model::command_views(final(cmds)@)) == old(self)@.refused(
                old(self).orders@[i as int]@,
                label@,
                now,
            ),
            final(self)@.wf(),
    {
        let id: u64 = self.orders[i].id;
        proof {
            assert(self@.orders[i as int] == self.orders@[i as int]@);
            lifecycle::lemma_pos(self@.orders, i as int);
            assert(model::command_views(cmds@) =~= seq![]);
            assert(self@.put(self.orders@[i as int]@).orders =~= self@.orders);
            assert(self@.put(self.orders@[i as int]@) == self@);
        }
        match self.orders[i].state {
            OrderState::PendingNew => {
                if text::same(label, "TIMEOUT") || text::same(label, "UNKNOWN") {
                    let c = self.send_query(i, now);
                    cmds.push(c);
                    assert(model::command_views(cmds@) =~= seq![c@]);
                } else {
                    let reason = if text::contains(label, "POC") || text::contains(
                        label,
                        "POST_ONLY",
                    ) {
                        DoneReason::PostOnlyReject
                    } else {
                        DoneReason::Rejected
                    };
                    self.replace_state(i, OrderState::Done(reason), Some(now));
                }
            },
            OrderState::PendingAmend | OrderState::PendingCancel => {
                if text::same(label, "ORDER_NOT_FOUND") || text::same(label, "ORDER_FINISHED")
                    || text::same(label, "ORDER_CLOSED") {
                    self.replace_state(i, OrderState::Done(DoneReason::Lost), Some(now));
                    let ghost mid = self@;
                    self.orders[i].amend_target = None;
                    proof {
                        let n = self.orders@[i as int]@;
                        lifecycle::lemma_pos(mid.orders, i as int);
                        lifecycle::lemma_put(mid, n);
                        assert(self@.orders =~= mid.put(n).orders);
                    }
                    assert(self@.orders =~= old(self)@.refused(
                        old(self).orders@[i as int]@,
                        label@,
                        now,
                    ).0.orders);
                } else {
                    let done_at = self.orders[i].done_at;
                    self.replace_state(i, OrderState::Live, done_at);
                    let ghost mid2 = self@;
                    proof {
                        lifecycle::lemma_pos(mid2.orders, i as int);
                    }
                    let c = self.send_query(i, now);
                    cmds.push(c);
                    assert(model::command_views(cmds@) =~= seq![c@]);
                    assert(self@.orders =~= old(self)@.refused(
                        old(self).orders@[i as int]@,
                        label@,
                        now,
                    ).0.orders);
                }
            },
            _ => {
                self.apply_intent(id, now, cmds);
                assert(seq![] + old(self)@.apply_intent(id, now).1 =~= old(self)@.apply_intent(
                    id,
                    now,
                ).1);
            },
        }
    }

    /// An answer to one of our requests. Returns the follow-up commands.
    pub fn on_exec_response(&mut self, resp: ExecResponse) -> (f: Followups)
        requires
            old(self)@.wf(),
            old(self)@.next_req < u64::MAX,
            resp@.result.valid(),
        ensures
            (final(self)@, model::command_views(f.commands@)) == old(self)@.respond(resp@),
            final(self)@.wf(),
    {
        let mut cmds: Vec<ExecCommand> = Vec::new();
        assert(model::command_views(cmds@) =~= seq![]);
        let id: u64 = match self.by_req.get(resp.req_id.as_str()) {
            Some(id) => *id,
            None => return Followups { commands: cmds },
        };
        self.by_req.remove(resp.req_id.as_str());
        proof {
            lifecycle::lemma_wf_by_req(old(self)@, self@.by_req);
        }
        let i: usize = match self.index_of(id) {
            Some(i) => i,
            None => return Followups { commands: cmds },
        };
        let ghost v = self@;
        let ghost o = self.orders@[i as int]@;
        proof {
            assert(v.orders[i as int] == o);
            lifecycle::lemma_pos(v.orders, i as int);
        }
        let current = match &self.orders[i].req_id {
            Some(r) => text::same(r.as_str(), resp.req_id.as_str()),
            None => false,
        };
        if !current {
            match &resp.result {
                ExecResult::Placed(info) | ExecResult::Amended(info) | ExecResult::Queried(
                    info,
                ) => {
                    if self.orders[i].exchange_id.is_none() {
                        self.orders[i].exchange_id = Some(info.exchange_id.clone());
                        self.by_exchange.insert(info.exchange_id.clone(), id);
                        proof {
                            let n = self.orders@[i as int]@;
                            lifecycle::lemma_indexed_put(v, info@.exchange_id, n);
                            assert(self@.orders =~= v.put(n).orders);
                        }
                    }
                },
                _ => {},
            }
            return Followups { commands: cmds };
        }
        let now = resp.at;
        self.orders[i].req_id = None;
        self.orders[i].inflight_since = None;
        self.orders[i].last_update = now;
        let ghost o1 = self.orders@[i as int]@;
        proof {
            lifecycle::lemma_put(v, o1);
            assert(self@.orders =~= v.put(o1).orders);
            assert(self@ == v.put(o1));
            lifecycle::lemma_pos(self@.orders, i as int);
        }
        match &resp.result {
            ExecResult::Placed(info) | ExecResult::Amended(info) | ExecResult::Queried(info) => {
                self.take_info(i, info, now);
                proof {
                    lifecycle::lemma_pos(self@.orders, i as int);
                    assert(self@.orders[i as int] == self.orders@[i as int]@);
                    assert(self@.orders =~= v.indexed(o1, info@.exchange_id).put(
                        lifecycle::absorbed(o1, info@, now),
                    ).orders);
                }
                self.apply_intent(id, now, &mut cmds);
            },
            ExecResult::Cancelled(info) => {
                self.take_info(i, info, now);
                proof {
                    lifecycle::lemma_pos(self@.orders, i as int);
                    assert(self@.orders[i as int] == self.orders@[i as int]@);
                }
                if !self.orders[i].state.is_terminal() {
                    self.replace_state(i, OrderState::Done(DoneReason::Cancelled), Some(now));
                }
                proof {
                    lifecycle::lemma_pos(self@.orders, i as int);
                    assert(self@.orders[i as int] == self.orders@[i as int]@);
                    assert(self@.orders =~= v.indexed(o1, info@.exchange_id).put(
                        lifecycle::closed_by_cancel(lifecycle::absorbed(o1, info@, now), now),
                    ).orders);
                }
                self.apply_intent(id, now, &mut cmds);
            },
            ExecResult::CancelledAll(_) => {
                self.apply_intent(id, now, &mut cmds);
            },
            ExecResult::Error { label, message } => {
                self.on_refusal(i, label.as_str(), now, &mut cmds);
                proof {
                    lifecycle::lemma_refused_base(v, o1, label@, now);
                }
                return Followups { commands: cmds };
            },
        }
        proof {
            assert(Seq::<CommandView>::empty() + model::command_views(cmds@)
                =~= model::command_views(cmds@));
        }
        Followups { commands: cmds }
    }
}

impl OrderManager {
    pub(crate) fn lookup(&self, exchange_id: &str, client_id: &str) -> (r: Option<u64>)
        ensures
            r == self@.lookup(exchange_id@, client_id@),
            self@.wf() && r is Some ==> lifecycle::known(self@.orders, r->0),
    {
        proof {
            if self@.wf() {
                if self@.by_exchange.contains_key(exchange_id@) {
                    assert(lifecycle::known(self@.orders, self@.by_exchange[exchange_id@]));
                } else if self@.by_client.contains_key(client_id@) {
                    assert(lifecycle::known(self@.orders, self@.by_client[client_id@]));
                }
            }
        }
        match self.by_exchange.get(exchange_id) {
            Some(id) => Some(*id),
            None => match self.by_client.get(client_id) {
                Some(id) => Some(*id),
                None => None,
            },
        }
    }

    /// The position of an order that an index names.
    fn indexed_position(&self, id: u64) -> (i: usize)
        requires
            self@.wf(),
            lifecycle::known(self@.orders, id),
        ensures
            i < self.orders.len(),
            self.orders@[i as int].id == id,
            self@.at(id) == self.orders@[i as int]@,
            lifecycle::pos(self@.orders, id) == i,
    {
        let mut i: usize = 0;
        let ghost p = lifecycle::pos(self@.orders, id);
        assert(0 <= p < self@.orders.len() && self@.orders[p].id == id);
        while self.orders[i].id != id
            invariant
                i <= p < self.orders.len(),
                self@.orders[p].id == id,
            decreases self.orders.len() - i,
        {
            assert(self@.orders[i as int] == self.orders@[i as int]@);
            i = i + 1;
        }
        proof {
            assert(self@.orders[i as int] == self.orders@[i as int]@);
            lifecycle::lemma_pos(self@.orders, i as int);
        }
        i
    }

    fn add_foreign(&mut self, info: OrderInfo)
        ensures
            final(self)@ == (ManagerView {
                foreign: lifecycle::with_foreign(old(self)@.foreign, info@),
                ..old(self)@
            }),
    {
        let mut n: usize = self.foreign.len();
        let ghost list = self@.foreign;
        assert(list.take(n as int) =~= list);
        while n > 0
            invariant
                n <= self.foreign.len(),
                self == old(self),
                list == self@.foreign,
                lifecycle::with_foreign(list, info@) == lifecycle::with_foreign(list.take(n as int), info@)
                    + list.subrange(n as int, list.len() as int),
            decreases n,
        {
            proof {
                assert(list.take(n as int).last() == list[n - 1]);
                assert(list.take(n as int).drop_last() =~= list.take(n - 1));
                assert(list[n - 1] == self.foreign@[n - 1]@);
            }
            if text::same(
                self.foreign[n - 1].exchange_id.as_str(),
                info.exchange_id.as_str(),
            ) {
                self.foreign.set(n - 1, info);
                proof {
                    let m = n - 1;
                    assert(self@.foreign =~= list.update(m, info@));
                    assert(list.update(m, info@) =~= list.take(m).push(info@) + list.subrange(
                        n as int,
                        list.len() as int,
                    ));
                }
                return ;
            }
            n = n - 1;
            proof {
                assert(lifecycle::with_foreign(list.take(n as int), info@).push(list[n as int])
                    + list.subrange(n + 1, list.len() as int) =~= lifecycle::with_foreign(
                    list.take(n as int),
                    info@,
                ) + list.subrange(n as int, list.len() as int));
            }
        }
        let ghost iv = info@;
        // The record of an order seen for the first time goes to the front.
        self.foreign.insert(0, info);
        proof {
            assert(list.take(0) =~= seq![]);
            assert(self@.foreign =~= seq![iv] + list);
            assert(list.subrange(0, list.len() as int) =~= list);
        }
    }

    /// Private order-stream update. Returns the follow-up commands.
    pub fn on_order_update(&mut self, info: OrderInfo, now: Instant) -> (f: Followups)
        requires
            old(self)@.wf(),
            old(self)@.next_req < u64::MAX,
            info@.valid(),
        ensures
            (final(self)@, model::command_views(f.commands@)) == old(self)@.order_update(
                info@,
                now,
            ),
            final(self)@.wf(),
    {
        let mut cmds: Vec<ExecCommand> = Vec::new();
        assert(model::command_views(cmds@) =~= seq![]);
        let id: u64 = match self.lookup(info.exchange_id.as_str(), info.client_id.as_str()) {
            Some(id) => id,
            None => {
                if self.is_ours(info.client_id.as_str()) && info.status == ExchangeStatus::Open {
                    self.add_foreign(info);
                    proof {
                        lifecycle::lemma_wf_foreign(old(self)@, self@.foreign);
                    }
                }
                return Followups { commands: cmds };
            },
        };
        let ghost v = self@;
        assert(lifecycle::known(v.orders, id)) by {
            if v.by_exchange.contains_key(info@.exchange_id) {
            } else {
                assert(v.by_client.contains_key(info@.client_id));
            }
        }
        let i: usize = self.indexed_position(id);
        let ghost o = self.orders@[i as int]@;
        let was_state = self.orders[i].state;
        let prev_size: i64 = self.orders[i].size;
        let target = self.orders[i].amend_target;
        self.take_info(i, &info, now);
        let ghost mid = self@;
        proof {
            lifecycle::lemma_absorbed(o, info@, now);
            assert(mid.orders[i as int] == self.orders@[i as int]@);
            lifecycle::lemma_pos(mid.orders, i as int);
        }
        if was_state == OrderState::PendingAmend && info.status == ExchangeStatus::Open {
            self.orders[i].state = OrderState::PendingAmend;
            self.orders[i].amend_target = target;
            if info.update_ms > 0 && prev_size > info.size {
                self.orders[i].size = prev_size;
            }
        }
        if was_state == OrderState::PendingNew && self.orders[i].state == OrderState::Live
            && self.orders[i].req_id.is_some() {
            self.orders[i].inflight_since = None;
        }
        proof {
            let n = self.orders@[i as int]@;
            assert(n == lifecycle::streamed(o, info@, now));
            lifecycle::lemma_put(mid, n);
            assert(self@.orders =~= mid.put(n).orders);
            assert(self@.orders =~= v.indexed(o, info@.exchange_id).put(n).orders);
            assert(self@ == v.indexed(o, info@.exchange_id).put(n));
            assert(self@.orders[i as int] == n);
            lifecycle::lemma_pos(self@.orders, i as int);
        }
        if self.orders[i].state == OrderState::Live && self.orders[i].req_id.is_none() {
            self.apply_intent(id, now, &mut cmds);
            proof {
                assert(Seq::<CommandView>::empty() + model::command_views(cmds@)
                    =~= model::command_views(cmds@));
            }
        }
        Followups { commands: cmds }
    }

    /// Whether another request can be numbered.
    pub fn has_request_room(&self) -> (r: bool)
        ensures
            r == (self@.next_req < u64::MAX),
    {
        self.next_req < u64::MAX
    }

    /// Whether `n` more orders and requests can be numbered.
    pub fn has_room(&self, n: u64) -> (r: bool)
        ensures
            r == self@.room(n as int),
    {
        n <= u64::MAX - self.next_req && n <= u64::MAX - self.next_id
    }

    /// Whether a trade was seen before.
    pub fn has_seen(&self, trade_id: &str) -> (r: bool)
        ensures
            r == self@.seen.contains(trade_id@),
    {
        self.seen_trades.contains_key(trade_id)
    }

    /// Whether a trade was seen before or can be booked within the admitted
    /// counts.
    pub fn can_book<R>(&self, t: &UserTrade<R>) -> (r: bool)
        requires
            self@.wf(),
        ensures
            r == lifecycle::admits_trade(self@, *t),
    {
        if self.has_seen(t.trade_id.as_str()) {
            return true;
        }
        if t.signed_size < -MAX_CONTRACTS || t.signed_size > MAX_CONTRACTS {
            return false;
        }
        let size: i64 = if t.signed_size < 0 {
            -t.signed_size
        } else {
            t.signed_size
        };
        match self.lookup(t.exchange_order_id.as_str(), t.client_id.as_str()) {
            None => true,
            Some(id) => {
                let i: usize = self.indexed_position(id);
                assert(self@.orders[i as int].valid());
                self.orders[i].trade_filled + size <= MAX_CONTRACTS
            },
        }
    }

    fn remember_trade(&mut self, trade_id: String)
        requires
            old(self)@.wf(),
            !old(self)@.seen.contains(trade_id@),
        ensures
            final(self)@ == old(self)@.remember(trade_id@),
            final(self)@.wf(),
    {
        self.seen_trades.insert(trade_id.clone(), ());
        self.seen_order.push_back(trade_id.clone());
        if self.seen_order.len() > SEEN_TRADES {
            if let Some(oldest) = self.seen_order.pop_front() {
                self.seen_trades.remove(oldest.as_str());
            }
        }
        proof {
            let w = old(self)@.remember(trade_id@);
            lifecycle::lemma_remember(old(self)@, trade_id@);
            assert(self@.seen_order =~= w.seen_order);
            assert(self@.seen =~= w.seen);
        }
    }

    /// Books `size` traded contracts on the order at `i`.
    fn book_trade(&mut self, i: usize, size: i64, at: Instant)
        requires
            old(self)@.wf(),
            i < old(self).orders.len(),
            size >= 0,
            model::is_count(old(self).orders@[i as int].trade_filled + size),
        ensures
            final(self)@ == old(self)@.put(
                lifecycle::with_trade(old(self).orders@[i as int]@, size as int, at),
            ),
            final(self)@.wf(),
            final(self).orders.len() == old(self).orders.len(),
            final(self).orders@[i as int]@ == lifecycle::with_trade(
                old(self).orders@[i as int]@,
                size as int,
                at,
            ),
    {
        let sum: i64 = self.orders[i].trade_filled + size;
        self.orders[i].trade_filled = sum;
        if sum > self.orders[i].filled {
            self.orders[i].filled = sum;
        }
        self.orders[i].last_update = at;
        if self.orders[i].filled >= self.orders[i].size && self.orders[i].size > 0
            && !self.orders[i].state.is_terminal() {
            self.orders[i].state = OrderState::Done(DoneReason::Filled);
            self.orders[i].done_at = Some(at);
        }
        proof {
            let v = old(self)@;
            let n = self.orders@[i as int]@;
            assert(v.orders[i as int] == old(self).orders@[i as int]@);
            lifecycle::lemma_pos(v.orders, i as int);
            lifecycle::lemma_put(v, n);
            assert(self@.orders =~= v.put(n).orders);
        }
    }

    /// Private user trade. Returns the fill if the trade is new.
    pub fn on_user_trade<R>(&mut self, t: UserTrade<R>) -> (r: Option<Fill<R>>)
        requires
            old(self)@.wf(),
            lifecycle::admits_trade(old(self)@, t),
        ensures
            match r {
                None => old(self)@.seen.contains(t.trade_id@),
                Some(f) => !old(self)@.seen.contains(t.trade_id@) && lifecycle::is_fill_of(
                    old(self)@,
                    t,
                    f,
                ),
            },
            final(self)@ == old(self)@.delivered(t),
            final(self)@.wf(),
    {
        if self.has_seen(t.trade_id.as_str()) {
            return None;
        }
        let ghost v = self@;
        self.remember_trade(t.trade_id.clone());
        let ghost w = self@;
        let size: i64 = if t.signed_size < 0 {
            -t.signed_size
        } else {
            t.signed_size
        };
        match self.lookup(t.exchange_order_id.as_str(), t.client_id.as_str()) {
            Some(id) => {
                assert(lifecycle::known(w.orders, id)) by {
                    if w.by_exchange.contains_key(t.exchange_order_id@) {
                    } else {
                        assert(w.by_client.contains_key(t.client_id@));
                    }
                }
                let i: usize = self.indexed_position(id);
                assert(v.at(id) == w.at(id));
                self.book_trade(i, size, t.at);
                let o = &self.orders[i];
                Some(
                    Fill {
                        local_id: Some(id),
                        client_id: o.client_id.clone(),
                        side: o.side,
                        purpose: o.purpose,
                        layer: o.layer,
                        reduce_only: o.reduce_only,
                        size,
                        price: t.price,
                        price_f64: t.price_f64,
                        fee: t.fee,
                        is_maker: t.is_maker,
                        tif: o.tif,
                        at: t.at,
                    },
                )
            },
            None => Some(
                Fill {
                    local_id: None,
                    client_id: t.client_id,
                    side: if t.signed_size >= 0 {
                        Side::Buy
                    } else {
                        Side::Sell
                    },
                    purpose: Purpose::Open,
                    layer: u8::MAX,
                    reduce_only: false,
                    size,
                    price: t.price,
                    price_f64: t.price_f64,
                    fee: t.fee,
                    is_maker: t.is_maker,
                    tif: Tif::Gtc,
                    at: t.at,
                },
            ),
        }
    }
}

impl OrderManager {
    fn expire_request(&mut self, id: u64, now: Instant) -> (c: ExecCommand)
        requires
            old(self)@.wf(),
            lifecycle::known(old(self)@.orders, id),
            old(self)@.next_req < u64::MAX,
        ensures
            (final(self)@, c@) == old(self)@.expire(id, now),
            final(self)@.wf(),
    {
        let i: usize = self.indexed_position(id);
        let ghost v = self@;
        let ghost o = self.orders@[i as int]@;
        if let Some(r) = &self.orders[i].req_id {
            self.by_req.remove(r.as_str());
        }
        let ghost mid = self@;
        proof {
            let n = self.orders@[i as int]@;
            lifecycle::lemma_put(v, n);
            assert(mid.orders =~= v.put(n).orders);
            lifecycle::lemma_wf_by_req(v.put(n), mid.by_req);
            assert(mid.orders[i as int] == n);
            lifecycle::lemma_pos(mid.orders, i as int);
        }
        let c = self.send_query(i, now);
        proof {
            assert(self@.orders =~= v.expire(id, now).0.orders);
        }
        c
    }

    /// In-flight requests older than the timeout become status queries. Nothing
    /// is sent again.
    pub fn check_timeouts(&mut self, now: Instant) -> (cmds: Vec<ExecCommand>)
        requires
            old(self)@.wf(),
            old(self)@.next_req + old(self)@.orders.len() <= u64::MAX,
        ensures
            (final(self)@, model::command_views(cmds@)) == old(self)@.expire_all(
                lifecycle::select(
                    old(self)@.orders,
                    |o: OrderView| lifecycle::timed_out(o, old(self)@.inflight_timeout, now),
                ),
                now,
            ),
            final(self)@.wf(),
            final(self)@.next_req <= old(self)@.next_req + old(self)@.orders.len(),
            final(self)@.next_id == old(self)@.next_id,
            final(self)@.orders.len() == old(self)@.orders.len(),
    {
        let timeout = self.inflight_timeout;
        let late = |o: &LocalOrder| -> (b: bool)
            ensures
                b == lifecycle::timed_out(o@, timeout, now),
            {
                o.state.is_inflight() && match o.inflight_since {
                    Some(t) => now.saturating_duration_since(t).nanos >= timeout.nanos,
                    None => false,
                }
            };
        let ghost p = |o: OrderView| lifecycle::timed_out(o, timeout, now);
        assert(lifecycle::decides(late, p));
        let ids = self.active_ids(late);
        let ghost v = self@;
        proof {
            lifecycle::lemma_select_same(v.orders, |o: OrderView| o.active() && p(o), p);
            lifecycle::lemma_select(v.orders, p);
            lifecycle::lemma_expire_all(v, ids@, now);
        }
        let mut cmds: Vec<ExecCommand> = Vec::new();
        let mut i: usize = 0;
        assert(ids@.take(0) =~= seq![]);
        assert(model::command_views(cmds@) =~= seq![]);
        while i < ids.len()
            invariant
                i <= ids.len(),
                v.wf(),
                v.next_req + ids.len() <= u64::MAX,
                forall|j: int| 0 <= j < ids.len() ==> lifecycle::known(v.orders, #[trigger] ids@[j]),
                self@.wf(),
                (self@, model::command_views(cmds@)) == v.expire_all(ids@.take(i as int), now),
            decreases ids.len() - i,
        {
            proof {
                let part = ids@.take(i as int);
                assert forall|j: int| 0 <= j < part.len() implies lifecycle::known(
                    v.orders,
                    #[trigger] part[j],
                ) by {
                    assert(lifecycle::known(v.orders, ids@[j]));
                }
                lifecycle::lemma_expire_all(v, part, now);
                assert(lifecycle::known(self@.orders, ids@[i as int]) == lifecycle::known(v.orders, ids@[i as int]));
            }
            let c = self.expire_request(ids[i], now);
            let ghost before = cmds@;
            cmds.push(c);
            i = i + 1;
            proof {
                lemma_commands_push(before, c);
                assert(ids@.take(i as int).drop_last() =~= ids@.take(i - 1));
                assert(ids@.take(i as int).last() == ids@[i - 1]);
            }
        }
        assert(ids@.take(i as int) =~= ids@);
        cmds
    }

    fn forget(&mut self, id: u64)
        requires
            old(self)@.wf(),
            lifecycle::known(old(self)@.orders, id),
        ensures
            final(self)@ == old(self)@.forget(id),
            final(self)@.wf(),
    {
        let i: usize = self.indexed_position(id);
        let o = self.orders.remove(i);
        self.by_client.remove(o.client_id.as_str());
        if let Some(ex) = &o.exchange_id {
            self.by_exchange.remove(ex.as_str());
        }
        if let Some(r) = &o.req_id {
            self.by_req.remove(r.as_str());
        }
        proof {
            lifecycle::lemma_forget(old(self)@, id);
            assert(self@.orders =~= old(self)@.forget(id).orders);
        }
    }

    /// Drop finished orders after the retention period.
    pub fn gc(&mut self, now: Instant)
        requires
            old(self)@.wf(),
        ensures
            final(self)@ == old(self)@.forget_all(
                lifecycle::select(old(self)@.orders, |o: OrderView| lifecycle::expired(o, now)),
            ),
            final(self)@.wf(),
            final(self)@.next_req == old(self)@.next_req,
            final(self)@.next_id == old(self)@.next_id,
            final(self)@.orders.len() <= old(self)@.orders.len(),
    {
        let ghost v = self@;
        let ghost p = |o: OrderView| lifecycle::expired(o, now);
        let mut ids: Vec<u64> = Vec::new();
        let mut n: usize = 0;
        while n < self.orders.len()
            invariant
                self@ == v,
                n <= self.orders.len(),
                p == (|o: OrderView| lifecycle::expired(o, now)),
                ids@ == lifecycle::select(v.orders.take(n as int), p),
            decreases self.orders.len() - n,
        {
            let o = &self.orders[n];
            assert(v.orders[n as int] == o@);
            let old_enough = match o.done_at {
                Some(t) => now.saturating_duration_since(t).nanos > Duration::from_secs(
                    RETENTION_SECS,
                ).nanos,
                None => false,
            };
            if o.state.is_terminal() && old_enough {
                ids.push(o.id);
            }
            n = n + 1;
            proof {
                lifecycle::lemma_take(v.orders, n as int);
            }
        }
        proof {
            assert(v.orders.take(n as int) =~= v.orders);
            lifecycle::lemma_select(v.orders, p);
        }
        let mut i: usize = 0;
        assert(ids@.take(0) =~= seq![]);
        while i < ids.len()
            invariant
                i <= ids.len(),
                self@.wf(),
                self@ == v.forget_all(ids@.take(i as int)),
                self@.next_req == v.next_req,
                self@.next_id == v.next_id,
                self@.orders.len() <= v.orders.len(),
                forall|j: int| i <= j < ids.len() ==> lifecycle::known(self@.orders, #[trigger] ids@[j]),
                forall|j: int, k: int|
                    0 <= j < k < ids.len() ==> #[trigger] ids@[j] < #[trigger] ids@[k],
            decreases ids.len() - i,
        {
            let ghost w = self@;
            self.forget(ids[i]);
            proof {
                lifecycle::lemma_forget(w, ids@[i as int]);
                assert forall|j: int| i + 1 <= j < ids.len() implies lifecycle::known(
                    self@.orders,
                    #[trigger] ids@[j],
                ) by {
                    assert(ids@[i as int] < ids@[j]);
                    assert(self@.get(ids@[j]) == w.get(ids@[j]));
                }
            }
            i = i + 1;
            proof {
                assert(ids@.take(i as int).drop_last() =~= ids@.take(i - 1));
                assert(ids@.take(i as int).last() == ids@[i - 1]);
            }
        }
        assert(ids@.take(i as int) =~= ids@);
    }

    /// Adopt a snapshot of open orders from the exchange. Returns the records of
    /// orders that we do not know.
    pub fn adopt_open_orders(&mut self, infos: Vec<OrderInfo>, now: Instant) -> (unknown: Vec<
        OrderInfo,
    >)
        requires
            old(self)@.wf(),
            forall|j: int| 0 <= j < infos.len() ==> (#[trigger] infos@[j])@.valid(),
        ensures
            (final(self)@, model::info_views(unknown@)) == old(self)@.adopt(
                model::info_views(infos@),
                now,
            ),
            final(self)@.wf(),
    {
        let ghost v = self@;
        let ghost list = model::info_views(infos@);
        let mut unknown: Vec<OrderInfo> = Vec::new();
        assert(model::info_views(unknown@) =~= seq![]);
        assert(list.take(0) =~= seq![]);
        let mut i: usize = 0;
        while i < infos.len()
            invariant
                i <= infos.len(),
                list == model::info_views(infos@),
                forall|j: int| 0 <= j < infos.len() ==> (#[trigger] infos@[j])@.valid(),
                self@.wf(),
                (self@, model::info_views(unknown@)) == v.adopt(list.take(i as int), now),
            decreases infos.len() - i,
        {
            let info = &infos[i];
            let ghost s = self@;
            assert(list[i as int] == info@);
            match self.lookup(info.exchange_id.as_str(), info.client_id.as_str()) {
                Some(id) => {
                    assert(lifecycle::known(s.orders, id)) by {
                        if s.by_exchange.contains_key(info@.exchange_id) {
                        } else {
                            assert(s.by_client.contains_key(info@.client_id));
                        }
                    }
                    let k: usize = self.indexed_position(id);
                    Self::absorb_info(&mut self.orders[k], info, now);
                    proof {
                        let n = self.orders@[k as int]@;
                        assert(s.orders[k as int].valid());
                        lifecycle::lemma_absorbed(s.orders[k as int], info@, now);
                        lifecycle::lemma_put(s, n);
                        assert(self@.orders =~= s.put(n).orders);
                    }
                },
                None => {
                    let ghost before = unknown@;
                    let c = info.copy();
                    unknown.push(c);
                    assert(model::info_views(unknown@) =~= model::info_views(before).push(info@));
                },
            }
            i = i + 1;
            proof {
                assert(list.take(i as int).drop_last() =~= list.take(i - 1));
                assert(list.take(i as int).last() == list[i - 1]);
            }
        }
        assert(list.take(i as int) =~= list);
        unknown
    }

    /// Takes the unknown open orders with our prefix that the stream reported.
    pub fn take_foreign(&mut self) -> (r: Vec<OrderInfo>)
        requires
            old(self)@.wf(),
        ensures
            model::info_views(r@) == old(self)@.foreign,
            final(self)@ == (ManagerView { foreign: seq![], ..old(self)@ }),
            final(self)@.wf(),
    {
        let mut r: Vec<OrderInfo> = Vec::new();
        std::mem::swap(&mut r, &mut self.foreign);
        proof {
            assert(self@.foreign =~= seq![]);
            lifecycle::lemma_wf_foreign(old(self)@, seq![]);
        }
        r
    }
}

} // verus!
