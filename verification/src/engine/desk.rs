//! The state of the engine, and what every event makes of it (step 1 of the
//! cycle). The engine never sends anything itself: it hands out the commands,
//! each with the side of its order.

use vstd::prelude::*;

use crate::config;
use crate::engine::events::{Event, Feed, PositionInfo};
use crate::exchange::gate_trade;
use crate::exchange::gate_trade::{TradeCommand, TradeView};
use crate::market::book;
use crate::market::book::{BookStatus, BookView, LocalBook};
use crate::order::lifecycle;
use crate::order::lifecycle::ManagerView;
use crate::order::manager;
use crate::order::manager::OrderManager;
use crate::order::model;
use crate::order::model::{
    CommandView, ExecCommand, Fill, InfoView, LocalOrder, OrderInfo, OrderView, UserTrade,
    MAX_CONTRACTS,
};
use crate::strategy::inventory::{FillEffect, InventoryState, Positions};
use crate::strategy::protection::{Protection, SideProtection};
use crate::strategy::reduce::{ActiveReduce, Phase, ReduceReason};
use crate::strategy::risk::PositionReconciler;
use crate::text;
use crate::time;
use crate::time::{Duration, Instant};
use crate::types::{Purpose, Side, Ticks};

verus! {

/// Interval between open-order resyncs (ms).
pub const ORDERS_SYNC_MS: u64 = 30_000;

/// Least interval between requests for a new book snapshot (ms).
pub const RESNAPSHOT_MS: u64 = 2_000;

/// Time after which a shutdown ends with whatever is left (seconds).
pub const SHUTDOWN_SECS: u64 = 15;

/// Latest Gate best quote.
#[derive(Debug, Clone, Copy, PartialEq, Eq, Structural)]
pub struct GateQuote {
    pub bid: Ticks,
    pub ask: Ticks,
    pub at: Instant,
}

#[derive(Debug, Clone, Copy, PartialEq, Eq, Structural)]
pub struct FeedState {
    pub connected: bool,
    pub at: Instant,
}

/// Last known state of every feed.
#[derive(Debug, Clone, Copy, PartialEq, Eq, Structural)]
pub struct Feeds {
    pub binance: Option<FeedState>,
    pub gate_public: Option<FeedState>,
    pub gate_private: Option<FeedState>,
    pub gate_trade: Option<FeedState>,
}

impl Feeds {
    pub open spec fn unknown() -> Feeds {
        Feeds { binance: None, gate_public: None, gate_private: None, gate_trade: None }
    }

    pub open spec fn of(self, f: Feed) -> Option<FeedState> {
        match f {
            Feed::Binance => self.binance,
            Feed::GatePublic => self.gate_public,
            Feed::GatePrivate => self.gate_private,
            Feed::GateTrade => self.gate_trade,
        }
    }

    pub open spec fn with(self, f: Feed, s: FeedState) -> Feeds {
        match f {
            Feed::Binance => Feeds { binance: Some(s), ..self },
            Feed::GatePublic => Feeds { gate_public: Some(s), ..self },
            Feed::GatePrivate => Feeds { gate_private: Some(s), ..self },
            Feed::GateTrade => Feeds { gate_trade: Some(s), ..self },
        }
    }

    /// A feed that was never heard of counts as not connected.
    pub open spec fn connected(self, f: Feed) -> bool {
        self.of(f) matches Some(s) && s.connected
    }
}

/// When periodic work was last done.
#[derive(Debug, Clone, Copy, PartialEq, Eq, Structural)]
pub struct Timers {
    pub account_poll: Option<Instant>,
    pub orders_sync: Option<Instant>,
    pub resnapshot: Option<Instant>,
}

#[derive(Debug, Clone, Copy, PartialEq, Eq, Structural)]
pub struct Flags {
    pub halted: bool,
    pub shutting_down: bool,
    pub shutdown_since: Option<Instant>,
    pub finished: bool,
    pub dual_mode: bool,
    /// Whether the current inventory episode needed active reduction.
    pub used_reduce: bool,
    pub cycles: u64,
}

/// What does not change while the engine runs.
#[derive(Debug, Clone, Copy, PartialEq, Eq, Structural)]
pub struct Rules {
    pub risk: config::Risk,
    pub quoting: config::Quoting,
    pub use_amend: bool,
    /// Orders go to the simulated exchange.
    pub paper: bool,
    pub order_size_min: i64,
    pub order_size_max: i64,
    pub orders_limit: i64,
}

impl Rules {
    pub open spec fn wf(self) -> bool {
        0 <= self.order_size_min && model::is_count(self.order_size_max as int)
    }
}

/// An exit order: IOC, or market in an emergency.
#[derive(Debug, Clone, Copy, PartialEq, Eq, Structural)]
pub struct ExitOrder {
    pub id: u64,
    pub market: bool,
}

pub struct Engine {
    pub book: LocalBook,
    pub gate: Option<GateQuote>,
    pub inventory: InventoryState,
    pub protection: Protection,
    pub reduce: ActiveReduce,
    pub reconciler: PositionReconciler,
    pub orders: OrderManager,
    pub feeds: Feeds,
    pub private_hb: Option<Instant>,
    /// Time of the last account snapshot.
    pub account_at: Option<Instant>,
    pub exits: Vec<ExitOrder>,
    pub timers: Timers,
    pub flags: Flags,
    pub rules: Rules,
}

/// The engine as plain values.
pub ghost struct EngineView {
    pub book: BookView,
    pub gate: Option<GateQuote>,
    pub inventory: InventoryState,
    pub protection: Protection,
    pub reduce: ActiveReduce,
    pub reconciler: PositionReconciler,
    pub orders: ManagerView,
    pub feeds: Feeds,
    pub private_hb: Option<Instant>,
    pub account_at: Option<Instant>,
    pub exits: Seq<ExitOrder>,
    pub timers: Timers,
    pub flags: Flags,
    pub rules: Rules,
}

impl View for Engine {
    type V = EngineView;

    open spec fn view(&self) -> EngineView {
        EngineView {
            book: self.book@,
            gate: self.gate,
            inventory: self.inventory,
            protection: self.protection,
            reduce: self.reduce,
            reconciler: self.reconciler,
            orders: self.orders@,
            feeds: self.feeds,
            private_hb: self.private_hb,
            account_at: self.account_at,
            exits: self.exits@,
            timers: self.timers,
            flags: self.flags,
            rules: self.rules,
        }
    }
}

/// Side of the first active order with this client id.
pub open spec fn side_named(orders: Seq<OrderView>, client_id: Seq<char>) -> Option<Side>
    decreases orders.len(),
{
    if orders.len() == 0 {
        None
    } else {
        match side_named(orders.drop_last(), client_id) {
            Some(s) => Some(s),
            None => if orders.last().active() && orders.last().client_id == client_id {
                Some(orders.last().side)
            } else {
                None
            },
        }
    }
}

/// Side of the order that a command is about.
pub open spec fn side_for(orders: Seq<OrderView>, c: CommandView) -> Side {
    let named = match c {
        CommandView::Place { side, .. } => Some(side),
        CommandView::Amend { client_id, .. } => side_named(orders, client_id),
        CommandView::Cancel { client_id, .. } => side_named(orders, client_id),
        CommandView::Query { client_id, .. } => side_named(orders, client_id),
        CommandView::CancelAll { .. } => None,
    };
    match named {
        Some(s) => s,
        None => Side::Buy,
    }
}

/// Commands on their way, each with the side of its order.
pub open spec fn routed(orders: Seq<OrderView>, cmds: Seq<CommandView>) -> Seq<TradeView> {
    cmds.map_values(|c: CommandView| TradeView { cmd: c, side: side_for(orders, c) })
}

/// The order is an exit order.
pub open spec fn is_exit(exits: Seq<ExitOrder>, id: u64) -> bool {
    exists|i: int| 0 <= i < exits.len() && (#[trigger] exits[i]).id == id
}

/// Whether an exit order is a market order; none for other orders.
pub open spec fn exit_kind(exits: Seq<ExitOrder>, id: u64) -> Option<bool>
    decreases exits.len(),
{
    if exits.len() == 0 {
        None
    } else if exits.last().id == id {
        Some(exits.last().market)
    } else {
        exit_kind(exits.drop_last(), id)
    }
}

/// Exit orders that the order book still knows.
pub open spec fn still_known(exits: Seq<ExitOrder>, orders: Seq<OrderView>) -> Seq<ExitOrder>
    decreases exits.len(),
{
    if exits.len() == 0 {
        seq![]
    } else {
        let head = still_known(exits.drop_last(), orders);
        if lifecycle::known(orders, exits.last().id) {
            head.push(exits.last())
        } else {
            head
        }
    }
}

/// Some exit order is not finished.
pub open spec fn exit_pending(exits: Seq<ExitOrder>, orders: Seq<OrderView>) -> bool {
    exists|i: int|
        0 <= i < orders.len() && (#[trigger] orders[i]).active() && is_exit(exits, orders[i].id)
}

/// Some order that is not an exit is not finished.
pub open spec fn conflict_pending(exits: Seq<ExitOrder>, orders: Seq<OrderView>) -> bool {
    exists|i: int|
        0 <= i < orders.len() && (#[trigger] orders[i]).active() && !is_exit(exits, orders[i].id)
}

/// No request is in flight.
pub open spec fn quiet(orders: Seq<OrderView>) -> bool {
    forall|i: int|
        0 <= i < orders.len() && (#[trigger] orders[i]).active() ==> !orders[i].state.inflight()
}

/// Some resting order of ours stands at this price.
pub open spec fn own_at(own: Seq<(Side, Ticks, i64)>, side: Side, p: Ticks) -> bool {
    exists|i: int| 0 <= i < own.len() && (#[trigger] own[i]).0 == side && own[i].1 == p
}

/// What the cancel of a leaked order is called.
pub open spec fn stray_id(now_ms: i64) -> Seq<char> {
    seq!['x', '-'] + text::signed_decimal(now_ms as int)
}

/// What the cancel of one order of an open-order list is called.
pub open spec fn leak_id(now_ms: i64, exchange_id: Seq<char>) -> Seq<char> {
    stray_id(now_ms) + seq!['-'] + exchange_id
}

/// Cancels of the listed orders that carry our prefix; others are left alone.
pub open spec fn leak_cancels(unknown: Seq<InfoView>, prefix: Seq<char>, now_ms: i64) -> Seq<
    TradeView,
>
    decreases unknown.len(),
{
    if unknown.len() == 0 {
        seq![]
    } else {
        let head = leak_cancels(unknown.drop_last(), prefix, now_ms);
        let o = unknown.last();
        if text::begins_with(o.client_id, prefix) {
            head.push(
                TradeView {
                    cmd: CommandView::Cancel {
                        req_id: leak_id(now_ms, o.exchange_id),
                        exchange_id: Some(o.exchange_id),
                        client_id: o.client_id,
                    },
                    side: o.side,
                },
            )
        } else {
            head
        }
    }
}

/// Cancels of the orders that streamed in under our prefix without being ours.
pub open spec fn stray_cancels(foreign: Seq<InfoView>, now_ms: i64) -> Seq<TradeView> {
    foreign.map_values(
        |o: InfoView|
            TradeView {
                cmd: CommandView::Cancel {
                    req_id: stray_id(now_ms),
                    exchange_id: Some(o.exchange_id),
                    client_id: o.client_id,
                },
                side: o.side,
            },
    )
}

/// What the exchange reports as held; an entry price where a record gave one.
pub struct ExchangePositions<R> {
    pub pos: Positions,
    pub long_entry: Option<R>,
    pub short_entry: Option<R>,
}

impl<R> ExchangePositions<R> {
    pub open spec fn none() -> ExchangePositions<R> {
        ExchangePositions { pos: Positions::flat(), long_entry: None, short_entry: None }
    }

    /// One position record taken in. A `dual_long` record with a negative size
    /// counts as no position; a record of another mode goes by its sign.
    pub open spec fn taking(self, i: PositionInfo<R>) -> ExchangePositions<R> {
        if i.mode@ == "dual_long"@ {
            ExchangePositions {
                pos: Positions {
                    long: if i.size > 0 {
                        i.size
                    } else {
                        0
                    },
                    ..self.pos
                },
                long_entry: Some(i.entry_price),
                ..self
            }
        } else if i.mode@ == "dual_short"@ {
            ExchangePositions {
                pos: Positions {
                    short: (if i.size >= 0 {
                        i.size as int
                    } else {
                        -i.size
                    }) as i64,
                    ..self.pos
                },
                short_entry: Some(i.entry_price),
                ..self
            }
        } else if i.size > 0 {
            ExchangePositions {
                pos: Positions { long: i.size, ..self.pos },
                long_entry: Some(i.entry_price),
                ..self
            }
        } else if i.size < 0 {
            ExchangePositions {
                pos: Positions { short: (-i.size) as i64, ..self.pos },
                short_entry: Some(i.entry_price),
                ..self
            }
        } else {
            self
        }
    }
}

/// Position records in the dual-mode form.
pub open spec fn reported<R>(list: Seq<PositionInfo<R>>) -> ExchangePositions<R>
    decreases list.len(),
{
    if list.len() == 0 {
        ExchangePositions::none()
    } else {
        reported(list.drop_last()).taking(list.last())
    }
}

/// Sizes that can be counted.
pub open spec fn countable<R>(list: Seq<PositionInfo<R>>) -> bool {
    forall|i: int|
        0 <= i < list.len() ==> -MAX_CONTRACTS <= (#[trigger] list[i]).size <= MAX_CONTRACTS
}

/// Convert Gate position records to the dual-mode view. The records say by
/// themselves in which mode they are, so `dual` changes nothing.
pub fn positions_from_exchange<R: Copy>(list: &Vec<PositionInfo<R>>, dual: bool) -> (r:
    ExchangePositions<R>)
    requires
        countable(list@),
    ensures
        r == reported(list@),
        r.pos.wf(),
{
    let mut r = ExchangePositions::<R> {
        pos: Positions { long: 0, short: 0 },
        long_entry: None,
        short_entry: None,
    };
    let mut i: usize = 0;
    assert(list@.take(0) =~= seq![]);
    while i < list.len()
        invariant
            i <= list.len(),
            countable(list@),
            r == reported(list@.take(i as int)),
            r.pos.wf(),
        decreases list.len() - i,
    {
        proof {
            assert(list@.take(i + 1).drop_last() =~= list@.take(i as int));
            assert(list@.take(i + 1).last() == list@[i as int]);
            assert(-MAX_CONTRACTS <= list@[i as int].size <= MAX_CONTRACTS);
        }
        let size: i64 = list[i].size;
        let entry = list[i].entry_price;
        let mode = list[i].mode.as_str();
        if text::same(mode, "dual_long") {
            r.pos.long = if size > 0 {
                size
            } else {
                0
            };
            r.long_entry = Some(entry);
        } else if text::same(mode, "dual_short") {
            r.pos.short = if size >= 0 {
                size
            } else {
                -size
            };
            r.short_entry = Some(entry);
        } else if size > 0 {
            r.pos.long = size;
            r.long_entry = Some(entry);
        } else if size < 0 {
            r.pos.short = -size;
            r.short_entry = Some(entry);
        }
        i = i + 1;
    }
    assert(list@.take(i as int) =~= list@);
    r
}

/// Name of a trading mode.
pub fn mode_label(m: config::Mode) -> (r: &'static str)
    ensures
        r@ == (match m {
            config::Mode::Paper => "paper"@,
            config::Mode::Live => "live"@,
        }),
{
    match m {
        config::Mode::Paper => "paper",
        config::Mode::Live => "live",
    }
}

impl EngineView {
    /// Stops whatever rests and is not an exit.
    pub open spec fn without_resting(self, now: Instant) -> (EngineView, Seq<TradeView>) {
        let exits = self.exits;
        let p = |o: OrderView| !is_exit(exits, o.id);
        let (m, cmds) = self.orders.cancel_all(
            lifecycle::select(self.orders.orders, |o: OrderView| o.active() && p(o)),
            now,
        );
        (EngineView { orders: m, ..self }, routed(m.orders, cmds))
    }

    /// Stops whatever adds risk.
    pub open spec fn without_adds(self, now: Instant) -> (EngineView, Seq<TradeView>) {
        let p = |o: OrderView| o.purpose == Purpose::Open;
        let (m, cmds) = self.orders.cancel_all(
            lifecycle::select(self.orders.orders, |o: OrderView| o.active() && p(o)),
            now,
        );
        (EngineView { orders: m, ..self }, routed(m.orders, cmds))
    }

    /// The private stream is up; the simulated exchange always is.
    pub open spec fn private_up(self) -> bool {
        self.rules.paper || self.feeds.connected(Feed::GatePrivate)
    }
}

impl Engine {
    pub open spec fn wf(self) -> bool {
        &&& self.book.wf()
        &&& self.orders@.wf()
        &&& self.inventory.pos.wf()
        &&& self.reconciler.wf()
        &&& self.rules.wf()
    }

    /// Whether a feed is connected.
    pub fn feed_connected(&self, f: Feed) -> (r: bool)
        ensures
            r == self@.feeds.connected(f),
    {
        let s = match f {
            Feed::Binance => self.feeds.binance,
            Feed::GatePublic => self.feeds.gate_public,
            Feed::GatePrivate => self.feeds.gate_private,
            Feed::GateTrade => self.feeds.gate_trade,
        };
        match s {
            Some(x) => x.connected,
            None => false,
        }
    }

    pub fn is_finished(&self) -> (r: bool)
        ensures
            r == self@.flags.finished,
    {
        self.flags.finished
    }

    /// Whether an exit order is still working.
    pub fn exit_inflight(&self) -> (r: bool)
        ensures
            r == exit_pending(self@.exits, self@.orders.orders),
    {
        let all = self.orders.all();
        let ghost views = self@.orders.orders;
        let mut i: usize = 0;
        while i < all.len()
            invariant
                i <= all.len(),
                views == manager::order_views(all@),
                views == self@.orders.orders,
                forall|k: int|
                    0 <= k < i ==> !((#[trigger] views[k]).active() && is_exit(
                        self.exits@,
                        views[k].id,
                    )),
            decreases all.len() - i,
        {
            assert(views[i as int] == all@[i as int]@);
            if !all[i].state.is_terminal() && has_exit(&self.exits, all[i].id) {
                return true;
            }
            i = i + 1;
        }
        false
    }

    /// Whether an order that is not an exit is still working.
    pub(crate) fn has_conflicts(&self) -> (r: bool)
        ensures
            r == conflict_pending(self@.exits, self@.orders.orders),
    {
        let all = self.orders.all();
        let ghost views = self@.orders.orders;
        let mut i: usize = 0;
        while i < all.len()
            invariant
                i <= all.len(),
                views == manager::order_views(all@),
                views == self@.orders.orders,
                forall|k: int|
                    0 <= k < i ==> !((#[trigger] views[k]).active() && !is_exit(
                        self.exits@,
                        views[k].id,
                    )),
            decreases all.len() - i,
        {
            assert(views[i as int] == all@[i as int]@);
            if !all[i].state.is_terminal() && !has_exit(&self.exits, all[i].id) {
                return true;
            }
            i = i + 1;
        }
        false
    }

    fn is_quiet(&self) -> (r: bool)
        ensures
            r == quiet(self@.orders.orders),
    {
        let all = self.orders.all();
        let ghost views = self@.orders.orders;
        let mut i: usize = 0;
        while i < all.len()
            invariant
                i <= all.len(),
                views == manager::order_views(all@),
                views == self@.orders.orders,
                forall|k: int|
                    0 <= k < i && (#[trigger] views[k]).active() ==> !views[k].state.inflight(),
            decreases all.len() - i,
        {
            assert(views[i as int] == all@[i as int]@);
            if !all[i].state.is_terminal() && all[i].state.is_inflight() {
                return false;
            }
            i = i + 1;
        }
        true
    }

    fn side_by_client(&self, client_id: &str) -> (r: Option<Side>)
        ensures
            r == side_named(self@.orders.orders, client_id@),
    {
        let all = self.orders.all();
        let ghost views = self@.orders.orders;
        let mut found: Option<Side> = None;
        let mut i: usize = 0;
        assert(views.take(0) =~= seq![]);
        while i < all.len()
            invariant
                i <= all.len(),
                views == manager::order_views(all@),
                found == side_named(views.take(i as int), client_id@),
            decreases all.len() - i,
        {
            proof {
                assert(views.take(i + 1).drop_last() =~= views.take(i as int));
                assert(views.take(i + 1).last() == views[i as int]);
                assert(views[i as int] == all@[i as int]@);
            }
            if found.is_none() && !all[i].state.is_terminal() && text::same(
                all[i].client_id.as_str(),
                client_id,
            ) {
                found = Some(all[i].side);
            }
            i = i + 1;
        }
        assert(views.take(i as int) =~= views);
        found
    }

    fn side_for(&self, cmd: &ExecCommand) -> (r: Side)
        ensures
            r == side_for(self@.orders.orders, cmd@),
    {
        let named = match cmd {
            ExecCommand::Place { side, .. } => Some(*side),
            ExecCommand::Amend { client_id, .. } => self.side_by_client(client_id.as_str()),
            ExecCommand::Cancel { client_id, .. } => self.side_by_client(client_id.as_str()),
            ExecCommand::Query { client_id, .. } => self.side_by_client(client_id.as_str()),
            ExecCommand::CancelAll { .. } => None,
        };
        match named {
            Some(s) => s,
            None => Side::Buy,
        }
    }

    /// Commands on their way, each with the side of its order.
    pub(crate) fn dispatch(&self, cmds: Vec<ExecCommand>) -> (r: Vec<TradeCommand>)
        ensures
            gate_trade::trade_views(r@) == routed(
                self@.orders.orders,
                model::command_views(cmds@),
            ),
    {
        let ghost all = cmds@;
        let ghost orders = self@.orders.orders;
        let mut cmds = cmds;
        let mut r: Vec<TradeCommand> = Vec::new();
        let n: usize = cmds.len();
        let mut i: usize = 0;
        assert(all.skip(0) =~= all);
        while i < n
            invariant
                i <= n == all.len(),
                cmds@ == all.skip(i as int),
                orders == self@.orders.orders,
                r@.len() == i,
                forall|k: int|
                    0 <= k < i ==> (#[trigger] r@[k])@ == (TradeView {
                        cmd: all[k]@,
                        side: side_for(orders, all[k]@),
                    }),
            decreases n - i,
        {
            let cmd = cmds.remove(0);
            assert(cmds@ =~= all.skip(i + 1));
            let side = self.side_for(&cmd);
            r.push(TradeCommand { cmd, side });
            i = i + 1;
        }
        proof {
            assert(gate_trade::trade_views(r@) =~= routed(orders, model::command_views(all)));
        }
        r
    }

    /// Cancels the resting orders that are not exits.
    pub(crate) fn cancel_non_exit(&mut self, now: Instant) -> (r: Vec<TradeCommand>)
        requires
            old(self).wf(),
            old(self)@.orders.next_req + old(self)@.orders.orders.len() <= u64::MAX,
        ensures
            (final(self)@, gate_trade::trade_views(r@)) == old(self)@.without_resting(now),
            final(self).wf(),
            final(self)@.orders.next_req <= old(self)@.orders.next_req
                + old(self)@.orders.orders.len(),
            final(self)@.orders.next_id == old(self)@.orders.next_id,
            final(self)@.orders.orders.len() == old(self)@.orders.orders.len(),
    {
        let ghost ex = self.exits@;
        let exits = &self.exits;
        let pred = |o: &LocalOrder| -> (b: bool)
            ensures
                b == !is_exit(exits@, o@.id),
            { !has_exit(exits, o.id) };
        let ghost p = |o: OrderView| !is_exit(ex, o.id);
        assert(lifecycle::decides(pred, p));
        let cmds = self.orders.cancel_where(pred, now);
        self.dispatch(cmds)
    }

    /// Cancels the orders that add risk.
    pub(crate) fn cancel_open_purpose(&mut self, now: Instant) -> (r: Vec<TradeCommand>)
        requires
            old(self).wf(),
            old(self)@.orders.next_req + old(self)@.orders.orders.len() <= u64::MAX,
        ensures
            (final(self)@, gate_trade::trade_views(r@)) == old(self)@.without_adds(now),
            final(self).wf(),
            final(self)@.orders.next_req <= old(self)@.orders.next_req
                + old(self)@.orders.orders.len(),
            final(self)@.orders.next_id == old(self)@.orders.next_id,
            final(self)@.orders.orders.len() == old(self)@.orders.orders.len(),
    {
        let pred = |o: &LocalOrder| -> (b: bool)
            ensures
                b == (o@.purpose == Purpose::Open),
            { o.purpose == Purpose::Open };
        let ghost p = |o: OrderView| o.purpose == Purpose::Open;
        assert(lifecycle::decides(pred, p));
        let cmds = self.orders.cancel_where(pred, now);
        self.dispatch(cmds)
    }
}

fn has_exit(exits: &Vec<ExitOrder>, id: u64) -> (r: bool)
    ensures
        r == is_exit(exits@, id),
{
    let mut i: usize = 0;
    while i < exits.len()
        invariant
            i <= exits.len(),
            forall|k: int| 0 <= k < i ==> (#[trigger] exits@[k]).id != id,
        decreases exits.len() - i,
    {
        if exits[i].id == id {
            return true;
        }
        i = i + 1;
    }
    false
}


/// The price of a book level.
pub open spec fn level_price(l: Option<(Ticks, i64)>) -> Option<Ticks> {
    match l {
        Some((p, _)) => Some(p),
        None => None,
    }
}

/// The external bid: that of the book, unless the ticker is higher and not one
/// of our own levels.
pub open spec fn joined_bid(
    level: Option<Ticks>,
    gate: Option<GateQuote>,
    own: Seq<(Side, Ticks, i64)>,
) -> Option<Ticks> {
    match gate {
        Some(t) if !own_at(own, Side::Buy, t.bid) && (level matches Some(b) ==> t.bid > b) => Some(
            t.bid,
        ),
        _ => level,
    }
}

/// The external ask: that of the book, unless the ticker is lower and not one
/// of our own levels.
pub open spec fn joined_ask(
    level: Option<Ticks>,
    gate: Option<GateQuote>,
    own: Seq<(Side, Ticks, i64)>,
) -> Option<Ticks> {
    match gate {
        Some(t) if !own_at(own, Side::Sell, t.ask) && (level matches Some(a) ==> t.ask < a) => Some(
            t.ask,
        ),
        _ => level,
    }
}

/// `r` is the best bid and ask of Gate's market without our own orders: by the
/// book where it is synced, else by the ticker.
pub open spec fn is_external_quote(v: EngineView, r: (Option<Ticks>, Option<Ticks>)) -> bool {
    let own = lifecycle::resting(v.orders.orders);
    if v.book.status == BookStatus::Synced {
        &&& exists|b: Option<(Ticks, i64)>| #[trigger]
            book::is_external_bid(v.book.bids, own, b) && r.0 == joined_bid(
                level_price(b),
                v.gate,
                own,
            )
        &&& exists|a: Option<(Ticks, i64)>| #[trigger]
            book::is_external_ask(v.book.asks, own, a) && r.1 == joined_ask(
                level_price(a),
                v.gate,
                own,
            )
    } else {
        match v.gate {
            Some(t) => r == (Some(t.bid), Some(t.ask)),
            None => r == (None::<Ticks>, None::<Ticks>),
        }
    }
}

fn stands_at(own: &Vec<(Side, Ticks, i64)>, side: Side, p: Ticks) -> (r: bool)
    ensures
        r == own_at(own@, side, p),
{
    let mut i: usize = 0;
    while i < own.len()
        invariant
            i <= own.len(),
            forall|k: int|
                0 <= k < i ==> !((#[trigger] own@[k]).0 == side && own@[k].1 == p),
        decreases own.len() - i,
    {
        if own[i].0 == side && own[i].1 == p {
            return true;
        }
        i = i + 1;
    }
    false
}

/// Resting quantities are not negative.
proof fn lemma_resting(orders: Seq<OrderView>)
    requires
        forall|i: int| 0 <= i < orders.len() ==> (#[trigger] orders[i]).valid(),
    ensures
        forall|i: int|
            0 <= i < lifecycle::resting(orders).len() ==> (#[trigger] lifecycle::resting(
                orders,
            )[i]).2 >= 0,
    decreases orders.len(),
{
    if orders.len() > 0 {
        let init = orders.drop_last();
        assert forall|i: int| 0 <= i < init.len() implies (#[trigger] init[i]).valid() by {
            assert(orders[i].valid());
        }
        assert(orders[orders.len() - 1].valid());
        lemma_resting(init);
        let head = lifecycle::resting(init);
        let all = lifecycle::resting(orders);
        assert forall|i: int| 0 <= i < all.len() implies (#[trigger] all[i]).2 >= 0 by {
            if i < head.len() {
                assert(all[i] == head[i]);
            }
        }
    }
}

/// Periodic work is due.
pub open spec fn due(last: Option<Instant>, now: Instant, interval_ms: u64) -> bool {
    last matches Some(t) ==> time::reached(t, now, interval_ms)
}

fn is_due(last: Option<Instant>, now: Instant, interval_ms: u64) -> (r: bool)
    ensures
        r == due(last, now, interval_ms),
{
    match last {
        Some(t) => now.reached_since(t, interval_ms),
        None => true,
    }
}

/// A fill of ours that was booked.
pub struct Booked<R> {
    pub fill: Fill<R>,
    /// What it did to the position.
    pub effect: FillEffect,
    /// For a fill of an exit order: whether that was a market order.
    pub exit: Option<bool>,
}

/// Side and kind of the order that a trade belongs to.
pub open spec fn trade_terms<R>(m: ManagerView, t: UserTrade<R>) -> (Side, bool) {
    match m.lookup(t.exchange_order_id@, t.client_id@) {
        Some(id) => (m.at(id).side, m.at(id).reduce_only),
        None => (
            if t.signed_size >= 0 {
                Side::Buy
            } else {
                Side::Sell
            },
            false,
        ),
    }
}

/// Contracts of a trade, signed by the side of its order.
pub open spec fn trade_size<R>(m: ManagerView, t: UserTrade<R>) -> int {
    match trade_terms(m, t).0 {
        Side::Buy => lifecycle::magnitude(t.signed_size as int),
        Side::Sell => -lifecycle::magnitude(t.signed_size as int),
    }
}

/// What an event led to.
pub struct Outcome<R> {
    /// A strategy cycle should follow.
    pub run_cycle: bool,
    pub sends: Vec<TradeCommand>,
    pub fill: Option<Booked<R>>,
    /// The book is broken: a new snapshot is wanted.
    pub resnapshot: bool,
    /// The position of the exchange was taken over.
    pub adopted: bool,
    /// An active reduction was started.
    pub reduce_started: bool,
}

/// What an event led to, as plain values.
pub ghost struct OutcomeView {
    pub run_cycle: bool,
    pub sends: Seq<TradeView>,
    pub resnapshot: bool,
    pub adopted: bool,
    pub reduce_started: bool,
}

impl OutcomeView {
    pub open spec fn plain(run_cycle: bool) -> OutcomeView {
        OutcomeView {
            run_cycle,
            sends: seq![],
            resnapshot: false,
            adopted: false,
            reduce_started: false,
        }
    }

    pub open spec fn sending(sends: Seq<TradeView>) -> OutcomeView {
        OutcomeView { sends, ..OutcomeView::plain(true) }
    }
}

impl<R> View for Outcome<R> {
    type V = OutcomeView;

    open spec fn view(&self) -> OutcomeView {
        OutcomeView {
            run_cycle: self.run_cycle,
            sends: gate_trade::trade_views(self.sends@),
            resnapshot: self.resnapshot,
            adopted: self.adopted,
            reduce_started: self.reduce_started,
        }
    }
}

impl<R> Outcome<R> {
    fn plain(run_cycle: bool) -> (r: Outcome<R>)
        ensures
            r@ == OutcomeView::plain(run_cycle),
            r.fill is None,
    {
        let r = Outcome::<R> {
            run_cycle,
            sends: Vec::new(),
            fill: None,
            resnapshot: false,
            adopted: false,
            reduce_started: false,
        };
        assert(r@.sends =~= seq![]);
        r
    }

    fn sending(sends: Vec<TradeCommand>) -> (r: Outcome<R>)
        ensures
            r@ == OutcomeView::sending(gate_trade::trade_views(sends@)),
            r.fill is None,
    {
        Outcome {
            run_cycle: true,
            sends,
            fill: None,
            resnapshot: false,
            adopted: false,
            reduce_started: false,
        }
    }
}

impl EngineView {
    /// A delta of the book; a broken book is cleared, and a snapshot requested,
    /// at most once per interval.
    pub open spec fn book_delta(self, d: book::DeltaView, now: Instant) -> (EngineView, bool) {
        let b = self.book.delta(d, now);
        if b.status == BookStatus::Broken && due(self.timers.resnapshot, now, RESNAPSHOT_MS) {
            (
                EngineView {
                    book: b.cleared(),
                    timers: Timers { resnapshot: Some(now), ..self.timers },
                    ..self
                },
                true,
            )
        } else {
            (EngineView { book: b, ..self }, false)
        }
    }

    /// A trade of ours: it counts once, and moves the position.
    pub open spec fn user_trade<R>(self, t: UserTrade<R>) -> EngineView {
        if self.orders.seen.contains(t.trade_id@) {
            self
        } else {
            let (pos, effect) = self.inventory.pos.filled(
                trade_size(self.orders, t),
                trade_terms(self.orders, t).1,
            );
            EngineView {
                orders: self.orders.remember(t.trade_id@).traded(
                    t.exchange_order_id@,
                    t.client_id@,
                    lifecycle::magnitude(t.signed_size as int),
                    t.at,
                ),
                inventory: InventoryState { pos, ..self.inventory },
                ..self
            }
        }
    }

    /// What is booked of a trade: nothing of one that was seen before.
    pub open spec fn books<R>(self, t: UserTrade<R>, b: Option<Booked<R>>) -> bool {
        match b {
            None => self.orders.seen.contains(t.trade_id@),
            Some(b) => {
                &&& !self.orders.seen.contains(t.trade_id@)
                &&& lifecycle::is_fill_of(self.orders, t, b.fill)
                &&& b.effect == self.inventory.pos.filled(
                    trade_size(self.orders, t),
                    trade_terms(self.orders, t).1,
                ).1
                &&& b.exit == (match self.orders.lookup(t.exchange_order_id@, t.client_id@) {
                    Some(id) => exit_kind(self.exits, id),
                    None => None,
                })
            },
        }
    }

    /// Positions of the exchange. They replace ours after a mismatch that
    /// outlasted the grace period, while nothing of ours is in flight.
    pub open spec fn exchange_positions(self, p: Positions, now: Instant) -> (EngineView, bool) {
        let seen = PositionReconciler {
            exchange: Some(p),
            exchange_at: Some(now),
            ..self.reconciler
        };
        let s = EngineView { reconciler: seen, ..self };
        if self.inventory.pos == p || !quiet(self.orders.orders) {
            (s, false)
        } else {
            let (checked, ok) = seen.checked(self.inventory.pos, self.rules.risk, now);
            if ok {
                (EngineView { reconciler: checked, ..self }, false)
            } else {
                (
                    EngineView {
                        reconciler: checked,
                        inventory: InventoryState { pos: p, ..self.inventory },
                        ..self
                    },
                    true,
                )
            }
        }
    }

    pub open spec fn feed_status(self, feed: Feed, connected: bool, at: Instant) -> EngineView {
        EngineView {
            feeds: self.feeds.with(feed, FeedState { connected, at }),
            book: if feed == Feed::GatePublic && connected {
                self.book.cleared()
            } else {
                self.book
            },
            private_hb: if feed == Feed::GatePrivate && connected {
                Some(at)
            } else {
                self.private_hb
            },
            ..self
        }
    }

    /// The first request to shut down; where wanted, it starts flattening.
    pub open spec fn shutdown(self, now: Instant) -> (EngineView, bool) {
        if self.flags.shutting_down {
            (self, false)
        } else {
            let s = EngineView {
                flags: Flags { shutting_down: true, shutdown_since: Some(now), ..self.flags },
                ..self
            };
            if self.reduce.cfg.liquidate_on_shutdown && !(self.inventory.pos == Positions::flat()) {
                let (reduce, started) = self.reduce.triggered(ReduceReason::Shutdown, 0, now);
                (EngineView { reduce, ..s }, started)
            } else {
                (s, false)
            }
        }
    }

    /// An event, and what it led to.
    pub open spec fn applied<R>(self, ev: Event<R>, now: Instant, now_ms: i64) -> (
        EngineView,
        OutcomeView,
    ) {
        match ev {
            Event::BinanceBbo(_) => (self, OutcomeView::plain(true)),
            Event::BinanceTrade { .. } => (self, OutcomeView::plain(false)),
            Event::GateBbo { bid, ask, at, .. } => (
                EngineView { gate: Some(GateQuote { bid, ask, at }), ..self },
                OutcomeView::plain(true),
            ),
            Event::GateBookSnapshot(s) => (
                EngineView { book: self.book.snapshot(s.id, s.bids@, s.asks@, now), ..self },
                OutcomeView::plain(false),
            ),
            Event::GateBookDelta(d) => {
                let (v, resnapshot) = self.book_delta(d@, now);
                (v, OutcomeView { resnapshot, ..OutcomeView::plain(false) })
            },
            Event::GateTrade { .. } => (self, OutcomeView::plain(true)),
            Event::GateTicker { .. } => (self, OutcomeView::plain(false)),
            Event::GateOrder(info) => {
                let (m, cmds) = self.orders.order_update(info@, now);
                (
                    EngineView { orders: m, ..self },
                    OutcomeView::sending(routed(m.orders, cmds)),
                )
            },
            Event::GateUserTrade(t) => (self.user_trade(t), OutcomeView::plain(true)),
            Event::GatePositions(list) => {
                let (v, adopted) = self.exchange_positions(reported(list@).pos, now);
                (v, OutcomeView { adopted, ..OutcomeView::plain(true) })
            },
            Event::GateBalanceChange { .. } => (self, OutcomeView::plain(false)),
            Event::GateAccount(a) => (
                EngineView {
                    account_at: Some(a.at),
                    flags: Flags { dual_mode: a.in_dual_mode, ..self.flags },
                    ..self
                },
                OutcomeView::plain(true),
            ),
            Event::GateOpenOrders(list) => {
                let (m, unknown) = self.orders.adopt(model::info_views(list@), now);
                (
                    EngineView { orders: m, ..self },
                    OutcomeView::sending(leak_cancels(unknown, m.prefix, now_ms)),
                )
            },
            Event::Exec(resp) => {
                let (m, cmds) = self.orders.respond(resp@);
                (
                    EngineView { orders: m, ..self },
                    OutcomeView::sending(routed(m.orders, cmds)),
                )
            },
            Event::FeedStatus { feed, connected, at } => (
                self.feed_status(feed, connected, at),
                OutcomeView::plain(true),
            ),
            Event::PrivateHeartbeat(at) => (
                EngineView { private_hb: Some(at), ..self },
                OutcomeView::plain(false),
            ),
            Event::Timer(_) => (self, OutcomeView::plain(true)),
            Event::Shutdown => {
                let (v, reduce_started) = self.shutdown(now);
                (v, OutcomeView { reduce_started, ..OutcomeView::plain(true) })
            },
        }
    }

    /// Quantities of the event are counts, and the request numbers have room.
    pub open spec fn admits<R>(self, ev: Event<R>) -> bool {
        match ev {
            Event::GateOrder(info) => info@.valid() && self.orders.next_req < u64::MAX,
            Event::GateUserTrade(t) => lifecycle::admits_trade(self.orders, t) && (
            self.orders.seen.contains(t.trade_id@) || self.inventory.pos.admits_fill(
                trade_size(self.orders, t),
                trade_terms(self.orders, t).1,
            )),
            Event::GatePositions(list) => countable(list@),
            Event::GateOpenOrders(list) => forall|i: int|
                0 <= i < list.len() ==> (#[trigger] list@[i])@.valid(),
            Event::Exec(resp) => resp@.result.valid() && self.orders.next_req < u64::MAX,
            _ => true,
        }
    }
}

impl Engine {
    /// A flat engine that knows nothing yet, or one that starts from the
    /// positions of the exchange.
    pub fn new(
        cfg: &config::Config,
        paper: bool,
        order_size_min: i64,
        order_size_max: i64,
        orders_limit: i64,
        dual_mode: bool,
        initial_positions: Positions,
    ) -> (r: Engine)
        requires
            initial_positions.wf(),
            0 <= order_size_min,
            model::is_count(order_size_max as int),
        ensures
            r.wf(),
            r@ == (EngineView {
                book: BookView::empty(),
                gate: None,
                inventory: InventoryState {
                    pos: initial_positions,
                    cfg: cfg.inventory,
                    band_since: None,
                    episode_start: None,
                },
                protection: Protection {
                    cfg: cfg.protection,
                    buy: SideProtection::calm(),
                    sell: SideProtection::calm(),
                },
                reduce: ActiveReduce::idle(cfg.exit),
                reconciler: PositionReconciler::unseen(),
                orders: ManagerView::empty(
                    cfg.orders.client_id_prefix@,
                    time::spec_from_millis(cfg.orders.inflight_timeout_ms),
                ),
                feeds: Feeds::unknown(),
                private_hb: None,
                account_at: None,
                exits: seq![],
                timers: Timers { account_poll: None, orders_sync: None, resnapshot: None },
                flags: Flags {
                    halted: false,
                    shutting_down: false,
                    shutdown_since: None,
                    finished: false,
                    dual_mode,
                    used_reduce: false,
                    cycles: 0,
                },
                rules: Rules {
                    risk: cfg.risk,
                    quoting: cfg.quoting,
                    use_amend: cfg.orders.use_amend,
                    paper,
                    order_size_min,
                    order_size_max,
                    orders_limit,
                },
            }),
    {
        let mut inventory = InventoryState::new(cfg.inventory);
        inventory.pos = initial_positions;
        let r = Engine {
            book: LocalBook::new(),
            gate: None,
            inventory,
            protection: Protection::new(cfg.protection),
            reduce: ActiveReduce::new(cfg.exit),
            reconciler: PositionReconciler {
                exchange: None,
                exchange_at: None,
                mismatch_since: None,
            },
            orders: OrderManager::new(
                cfg.orders.client_id_prefix.as_str(),
                Duration::from_millis(cfg.orders.inflight_timeout_ms),
            ),
            feeds: Feeds { binance: None, gate_public: None, gate_private: None, gate_trade: None },
            private_hb: None,
            account_at: None,
            exits: Vec::new(),
            timers: Timers { account_poll: None, orders_sync: None, resnapshot: None },
            flags: Flags {
                halted: false,
                shutting_down: false,
                shutdown_since: None,
                finished: false,
                dual_mode,
                used_reduce: false,
                cycles: 0,
            },
            rules: Rules {
                risk: cfg.risk,
                quoting: cfg.quoting,
                use_amend: cfg.orders.use_amend,
                paper,
                order_size_min,
                order_size_max,
                orders_limit,
            },
        };
        assert(r@.exits =~= seq![]);
        r
    }

    /// Best bid and ask of Gate's market without our own orders: the book is
    /// preferred, the ticker is the fallback.
    pub fn external_bbo(&self) -> (r: (Option<Ticks>, Option<Ticks>))
        requires
            self.wf(),
        ensures
            is_external_quote(self@, r),
    {
        if self.book.is_synced() {
            let own = self.orders.own_resting();
            proof {
                lemma_resting(self@.orders.orders);
                book::lemma_fits(self@.book.bids, own@, Side::Buy);
                book::lemma_fits(self@.book.asks, own@, Side::Sell);
            }
            let (b, a) = self.book.external_bbo(own.as_slice());
            let mut bid: Option<Ticks> = match b {
                Some((p, _)) => Some(p),
                None => None,
            };
            let mut ask: Option<Ticks> = match a {
                Some((p, _)) => Some(p),
                None => None,
            };
            if let Some(t) = self.gate {
                let higher = match bid {
                    Some(p) => t.bid > p,
                    None => true,
                };
                if !stands_at(&own, Side::Buy, t.bid) && higher {
                    bid = Some(t.bid);
                }
                let lower = match ask {
                    Some(p) => t.ask < p,
                    None => true,
                };
                if !stands_at(&own, Side::Sell, t.ask) && lower {
                    ask = Some(t.ask);
                }
            }
            assert(book::is_external_bid(self@.book.bids, own@, b));
            assert(book::is_external_ask(self@.book.asks, own@, a));
            (bid, ask)
        } else {
            match self.gate {
                Some(t) => (Some(t.bid), Some(t.ask)),
                None => (None, None),
            }
        }
    }

    fn on_book_delta(&mut self, d: book::BookDelta, now: Instant) -> (r: bool)
        requires
            old(self).wf(),
        ensures
            (final(self)@, r) == old(self)@.book_delta(d@, now),
            final(self).wf(),
    {
        self.book.apply_delta(d, now);
        if self.book.status() == BookStatus::Broken && is_due(
            self.timers.resnapshot,
            now,
            RESNAPSHOT_MS,
        ) {
            self.timers.resnapshot = Some(now);
            self.book.reset();
            true
        } else {
            false
        }
    }

    /// A trade of ours from the private stream.
    fn on_user_trade<R>(&mut self, t: UserTrade<R>) -> (r: Option<Booked<R>>)
        requires
            old(self).wf(),
            old(self)@.admits(Event::GateUserTrade(t)),
        ensures
            final(self)@ == old(self)@.user_trade(t),
            old(self)@.books(t, r),
            final(self).wf(),
    {
        let ghost v = self@;
        let ghost (side, reduce) = trade_terms(v.orders, t);
        match self.orders.on_user_trade(t) {
            None => None,
            Some(fill) => {
                let signed: i64 = match fill.side {
                    Side::Buy => fill.size,
                    Side::Sell => -fill.size,
                };
                assert(signed == trade_size(v.orders, t));
                let effect = self.inventory.pos.apply_fill(signed, fill.reduce_only);
                let exit = match fill.local_id {
                    Some(id) => kind_of(&self.exits, id),
                    None => None,
                };
                Some(Booked { fill, effect, exit })
            },
        }
    }

    fn on_positions(&mut self, p: Positions, now: Instant) -> (adopted: bool)
        requires
            old(self).wf(),
            p.wf(),
        ensures
            (final(self)@, adopted) == old(self)@.exchange_positions(p, now),
            final(self).wf(),
    {
        self.reconciler.on_exchange(p, now);
        let local = self.inventory.pos;
        if local.long == p.long && local.short == p.short {
            return false;
        }
        if self.is_quiet() && !self.reconciler.check(local, &self.rules.risk, now) {
            self.inventory.pos = p;
            true
        } else {
            false
        }
    }

    fn on_open_orders(&mut self, list: Vec<OrderInfo>, now: Instant, now_ms: i64) -> (sends: Vec<
        TradeCommand,
    >)
        requires
            old(self).wf(),
            forall|i: int| 0 <= i < list.len() ==> (#[trigger] list@[i])@.valid(),
        ensures
            ({
                let (m, unknown) = old(self)@.orders.adopt(model::info_views(list@), now);
                &&& final(self)@ == (EngineView { orders: m, ..old(self)@ })
                &&& gate_trade::trade_views(sends@) == leak_cancels(unknown, m.prefix, now_ms)
            }),
            final(self).wf(),
    {
        let unknown = self.orders.adopt_open_orders(list, now);
        let ghost infos = model::info_views(unknown@);
        let ghost prefix = self@.orders.prefix;
        let mut sends: Vec<TradeCommand> = Vec::new();
        let mut i: usize = 0;
        proof {
            assert(infos.take(0) =~= seq![]);
            assert(gate_trade::trade_views(sends@) =~= seq![]);
        }
        while i < unknown.len()
            invariant
                i <= unknown.len(),
                infos == model::info_views(unknown@),
                prefix == self@.orders.prefix,
                gate_trade::trade_views(sends@) == leak_cancels(
                    infos.take(i as int),
                    prefix,
                    now_ms,
                ),
            decreases unknown.len() - i,
        {
            let o = &unknown[i];
            let ghost before = sends@;
            proof {
                assert(infos.take(i + 1).drop_last() =~= infos.take(i as int));
                assert(infos.take(i + 1).last() == infos[i as int]);
                assert(infos[i as int] == o@);
            }
            if self.orders.is_ours(o.client_id.as_str()) {
                let mut req_id = stray_text(now_ms);
                req_id.push('-');
                req_id.append(o.exchange_id.as_str());
                assert(req_id@ =~= leak_id(now_ms, o.exchange_id@));
                let c = TradeCommand {
                    cmd: ExecCommand::Cancel {
                        req_id,
                        exchange_id: Some(o.exchange_id.clone()),
                        client_id: o.client_id.clone(),
                    },
                    side: o.side,
                };
                sends.push(c);
                assert(gate_trade::trade_views(sends@) =~= gate_trade::trade_views(before).push(
                    c@,
                ));
            }
            i = i + 1;
        }
        assert(infos.take(i as int) =~= infos);
        sends
    }

    fn on_feed(&mut self, feed: Feed, connected: bool, at: Instant)
        requires
            old(self).wf(),
        ensures
            final(self)@ == old(self)@.feed_status(feed, connected, at),
            final(self).wf(),
    {
        let s = FeedState { connected, at };
        match feed {
            Feed::Binance => {
                self.feeds.binance = Some(s);
            },
            Feed::GatePublic => {
                self.feeds.gate_public = Some(s);
            },
            Feed::GatePrivate => {
                self.feeds.gate_private = Some(s);
            },
            Feed::GateTrade => {
                self.feeds.gate_trade = Some(s);
            },
        }
        if feed == Feed::GatePublic && connected {
            self.book.reset();
        }
        if feed == Feed::GatePrivate && connected {
            self.private_hb = Some(at);
        }
    }

    fn on_shutdown(&mut self, now: Instant) -> (started: bool)
        requires
            old(self).wf(),
        ensures
            (final(self)@, started) == old(self)@.shutdown(now),
            final(self).wf(),
    {
        if self.flags.shutting_down {
            return false;
        }
        self.flags.shutting_down = true;
        self.flags.shutdown_since = Some(now);
        if self.reduce.cfg.liquidate_on_shutdown && !self.inventory.pos.is_flat() {
            self.reduce.trigger(ReduceReason::Shutdown, 0, now)
        } else {
            false
        }
    }

    /// Takes an event in, and says what is to be sent and whether a strategy
    /// cycle should follow. Timer events also need `on_timer`.
    pub fn apply_event<R: Copy>(&mut self, ev: Event<R>, now: Instant, now_ms: i64) -> (out: Outcome<
        R,
    >)
        requires
            old(self).wf(),
            old(self)@.admits(ev),
        ensures
            (final(self)@, out@) == old(self)@.applied(ev, now, now_ms),
            match ev {
                Event::GateUserTrade(t) => old(self)@.books(t, out.fill),
                _ => out.fill is None,
            },
            final(self).wf(),
    {
        match ev {
            Event::BinanceBbo(_) => Outcome::plain(true),
            Event::BinanceTrade { .. } => Outcome::plain(false),
            Event::GateBbo { bid, ask, at, .. } => {
                self.gate = Some(GateQuote { bid, ask, at });
                Outcome::plain(true)
            },
            Event::GateBookSnapshot(s) => {
                self.book.apply_snapshot(s, now);
                Outcome::plain(false)
            },
            Event::GateBookDelta(d) => {
                let resnapshot = self.on_book_delta(d, now);
                let mut out = Outcome::plain(false);
                out.resnapshot = resnapshot;
                out
            },
            Event::GateTrade { .. } => Outcome::plain(true),
            Event::GateTicker { .. } => Outcome::plain(false),
            Event::GateOrder(info) => {
                let f = self.orders.on_order_update(info, now);
                Outcome::sending(self.dispatch(f.commands))
            },
            Event::GateUserTrade(t) => {
                let fill = self.on_user_trade(t);
                let mut out = Outcome::plain(true);
                out.fill = fill;
                out
            },
            Event::GatePositions(list) => {
                let p = positions_from_exchange(&list, self.flags.dual_mode);
                let adopted = self.on_positions(p.pos, now);
                let mut out = Outcome::plain(true);
                out.adopted = adopted;
                out
            },
            Event::GateBalanceChange { .. } => Outcome::plain(false),
            Event::GateAccount(a) => {
                self.account_at = Some(a.at);
                self.flags.dual_mode = a.in_dual_mode;
                Outcome::plain(true)
            },
            Event::GateOpenOrders(list) => Outcome::sending(
                self.on_open_orders(list, now, now_ms),
            ),
            Event::Exec(resp) => {
                let f = self.orders.on_exec_response(resp);
                Outcome::sending(self.dispatch(f.commands))
            },
            Event::FeedStatus { feed, connected, at } => {
                self.on_feed(feed, connected, at);
                Outcome::plain(true)
            },
            Event::PrivateHeartbeat(at) => {
                self.private_hb = Some(at);
                Outcome::plain(false)
            },
            Event::Timer(_) => Outcome::plain(true),
            Event::Shutdown => {
                let started = self.on_shutdown(now);
                let mut out = Outcome::plain(true);
                out.reduce_started = started;
                out
            },
        }
    }
}

fn can_count<R>(list: &Vec<PositionInfo<R>>) -> (r: bool)
    ensures
        r == countable(list@),
{
    let mut i: usize = 0;
    while i < list.len()
        invariant
            i <= list.len(),
            forall|k: int|
                0 <= k < i ==> -MAX_CONTRACTS <= (#[trigger] list@[k]).size <= MAX_CONTRACTS,
        decreases list.len() - i,
    {
        if list[i].size < -MAX_CONTRACTS || list[i].size > MAX_CONTRACTS {
            return false;
        }
        i = i + 1;
    }
    true
}

fn all_valid(list: &Vec<OrderInfo>) -> (r: bool)
    ensures
        r == (forall|k: int| 0 <= k < list.len() ==> (#[trigger] list@[k])@.valid()),
{
    let mut i: usize = 0;
    while i < list.len()
        invariant
            i <= list.len(),
            forall|k: int| 0 <= k < i ==> (#[trigger] list@[k])@.valid(),
        decreases list.len() - i,
    {
        if !list[i].is_valid() {
            return false;
        }
        i = i + 1;
    }
    true
}

fn kind_of(exits: &Vec<ExitOrder>, id: u64) -> (r: Option<bool>)
    ensures
        r == exit_kind(exits@, id),
{
    let mut k: usize = exits.len();
    assert(exits@.take(k as int) =~= exits@);
    while k > 0
        invariant
            k <= exits.len(),
            exit_kind(exits@, id) == exit_kind(exits@.take(k as int), id),
        decreases k,
    {
        proof {
            assert(exits@.take(k as int).drop_last() =~= exits@.take(k - 1));
            assert(exits@.take(k as int).last() == exits@[k - 1]);
        }
        if exits[k - 1].id == id {
            return Some(exits[k - 1].market);
        }
        k = k - 1;
    }
    None
}

fn stray_text(now_ms: i64) -> (r: String)
    ensures
        r@ == stray_id(now_ms),
{
    let mut r = String::new();
    r.push('x');
    r.push('-');
    text::push_signed(&mut r, now_ms);
    assert(r@ =~= stray_id(now_ms));
    r
}

/// What a timer tick asks for.
pub struct TimerPlan {
    /// Account and positions are to be polled.
    pub poll_account: bool,
    /// The open orders are to be fetched.
    pub sync_orders: bool,
    pub sends: Vec<TradeCommand>,
    /// The run has ended; a last snapshot is to be written.
    pub ended: bool,
}

/// What a timer tick asks for, as plain values.
pub ghost struct TimerView {
    pub poll_account: bool,
    pub sync_orders: bool,
    pub sends: Seq<TradeView>,
    pub ended: bool,
}

impl View for TimerPlan {
    type V = TimerView;

    open spec fn view(&self) -> TimerView {
        TimerView {
            poll_account: self.poll_account,
            sync_orders: self.sync_orders,
            sends: gate_trade::trade_views(self.sends@),
            ended: self.ended,
        }
    }
}

impl EngineView {
    /// A shutdown is complete: nothing is working, no reduction is under way, and
    /// the position is flat where that was asked for. A reduction that halted is
    /// over, flat or not. A shutdown also ends when it takes too long.
    pub open spec fn shutdown_complete(self, now: Instant) -> bool {
        let halted = self.reduce.phase == Phase::Halted;
        let idle = lifecycle::active_orders(self.orders.orders).len() == 0 && (
        !self.reduce.cfg.liquidate_on_shutdown || self.inventory.pos == Positions::flat() || halted)
            && (!self.reduce.active() || halted);
        let late = self.flags.shutdown_since matches Some(t) && time::elapsed(t, now).nanos
            > time::spec_from_secs(SHUTDOWN_SECS).nanos;
        self.flags.shutting_down && (idle || late)
    }

    /// A timer tick: polls that are due, queries for requests that timed out,
    /// finished orders dropped, stray orders cancelled, shutdown completed.
    pub open spec fn timed(self, now: Instant, now_ms: i64) -> (EngineView, TimerView) {
        let poll_account = due(self.timers.account_poll, now, self.rules.risk.account_poll_ms);
        let sync_orders = !self.rules.paper && due(self.timers.orders_sync, now, ORDERS_SYNC_MS);
        let limit = self.orders.inflight_timeout;
        let (m1, cmds) = self.orders.expire_all(
            lifecycle::select(
                self.orders.orders,
                |o: OrderView| lifecycle::timed_out(o, limit, now),
            ),
            now,
        );
        let m2 = m1.forget_all(
            lifecycle::select(m1.orders, |o: OrderView| lifecycle::expired(o, now)),
        );
        let s = EngineView {
            orders: ManagerView { foreign: seq![], ..m2 },
            exits: still_known(self.exits, m2.orders),
            timers: Timers {
                account_poll: if poll_account {
                    Some(now)
                } else {
                    self.timers.account_poll
                },
                orders_sync: if sync_orders {
                    Some(now)
                } else {
                    self.timers.orders_sync
                },
                ..self.timers
            },
            ..self
        };
        let ended = s.shutdown_complete(now);
        (
            EngineView {
                flags: Flags { finished: self.flags.finished || ended, ..self.flags },
                ..s
            },
            TimerView {
                poll_account,
                sync_orders,
                sends: routed(m1.orders, cmds) + stray_cancels(m2.foreign, now_ms),
                ended,
            },
        )
    }
}

impl Engine {
    /// Whether the quantities of an event can be booked.
    pub fn can_apply<R>(&self, ev: &Event<R>) -> (r: bool)
        requires
            self.wf(),
        ensures
            r == self@.admits(*ev),
    {
        match ev {
            Event::GateOrder(info) => info.is_valid() && self.orders.has_request_room(),
            Event::GateUserTrade(t) => self.can_book(t),
            Event::GatePositions(list) => can_count(list),
            Event::GateOpenOrders(list) => all_valid(list),
            Event::Exec(resp) => resp.result.is_valid() && self.orders.has_request_room(),
            _ => true,
        }
    }

    fn can_book<R>(&self, t: &UserTrade<R>) -> (r: bool)
        requires
            self.wf(),
        ensures
            r == self@.admits(Event::GateUserTrade(*t)),
    {
        if self.orders.has_seen(t.trade_id.as_str()) {
            return true;
        }
        if !self.orders.can_book(t) {
            return false;
        }
        let size: i64 = if t.signed_size < 0 {
            -t.signed_size
        } else {
            t.signed_size
        };
        let (side, reduce): (Side, bool) = match self.orders.lookup(
            t.exchange_order_id.as_str(),
            t.client_id.as_str(),
        ) {
            Some(id) => match self.orders.get(id) {
                Some(o) => (o.side, o.reduce_only),
                None => (Side::Buy, false),
            },
            None => (
                if t.signed_size >= 0 {
                    Side::Buy
                } else {
                    Side::Sell
                },
                false,
            ),
        };
        let signed: i64 = match side {
            Side::Buy => size,
            Side::Sell => -size,
        };
        self.inventory.pos.can_fill(signed, reduce)
    }

    /// A timer tick.
    pub fn on_timer(&mut self, now: Instant, now_ms: i64) -> (plan: TimerPlan)
        requires
            old(self).wf(),
            old(self)@.orders.next_req + old(self)@.orders.orders.len() <= u64::MAX,
        ensures
            (final(self)@, plan@) == old(self)@.timed(now, now_ms),
            final(self).wf(),
    {
        let poll_account = is_due(self.timers.account_poll, now, self.rules.risk.account_poll_ms);
        if poll_account {
            self.timers.account_poll = Some(now);
        }
        let sync_orders = !self.rules.paper && is_due(self.timers.orders_sync, now, ORDERS_SYNC_MS);
        if sync_orders {
            self.timers.orders_sync = Some(now);
        }
        let cmds = self.orders.check_timeouts(now);
        let mut sends = self.dispatch(cmds);
        self.orders.gc(now);
        self.forget_exits();
        let foreign = self.orders.take_foreign();
        let mut strays = stray_commands(&foreign, now_ms);
        let ghost first = sends@;
        let ghost second = strays@;
        sends.append(&mut strays);
        assert(gate_trade::trade_views(sends@) =~= gate_trade::trade_views(first)
            + gate_trade::trade_views(second));
        let ended = self.shutdown_done(now);
        if ended {
            self.flags.finished = true;
        }
        TimerPlan { poll_account, sync_orders, sends, ended }
    }

    fn shutdown_done(&self, now: Instant) -> (r: bool)
        ensures
            r == self@.shutdown_complete(now),
    {
        let late = match self.flags.shutdown_since {
            Some(t) => now.saturating_duration_since(t).nanos > Duration::from_secs(
                SHUTDOWN_SECS,
            ).nanos,
            None => false,
        };
        let idle = self.orders.active_count() == 0 && (!self.reduce.cfg.liquidate_on_shutdown
            || self.inventory.pos.is_flat() || self.reduce.is_halted()) && (
        !self.reduce.is_active() || self.reduce.is_halted());
        self.flags.shutting_down && (idle || late)
    }

    fn forget_exits(&mut self)
        requires
            old(self).wf(),
        ensures
            final(self)@ == (EngineView {
                exits: still_known(old(self)@.exits, old(self)@.orders.orders),
                ..old(self)@
            }),
            final(self).wf(),
    {
        let ghost orders = self@.orders.orders;
        let mut kept: Vec<ExitOrder> = Vec::new();
        let mut i: usize = 0;
        assert(self.exits@.take(0) =~= seq![]);
        while i < self.exits.len()
            invariant
                i <= self.exits.len(),
                self.orders@.wf(),
                orders == self@.orders.orders,
                kept@ == still_known(self.exits@.take(i as int), orders),
            decreases self.exits.len() - i,
        {
            proof {
                assert(self.exits@.take(i + 1).drop_last() =~= self.exits@.take(i as int));
                assert(self.exits@.take(i + 1).last() == self.exits@[i as int]);
            }
            if self.orders.get(self.exits[i].id).is_some() {
                kept.push(self.exits[i]);
            }
            i = i + 1;
        }
        assert(self.exits@.take(i as int) =~= self.exits@);
        self.exits = kept;
    }
}

fn stray_commands(foreign: &Vec<OrderInfo>, now_ms: i64) -> (r: Vec<TradeCommand>)
    ensures
        gate_trade::trade_views(r@) == stray_cancels(model::info_views(foreign@), now_ms),
{
    let mut r: Vec<TradeCommand> = Vec::new();
    let mut i: usize = 0;
    while i < foreign.len()
        invariant
            i <= foreign.len(),
            r@.len() == i,
            forall|k: int|
                0 <= k < i ==> (#[trigger] r@[k])@ == (TradeView {
                    cmd: CommandView::Cancel {
                        req_id: stray_id(now_ms),
                        exchange_id: Some(foreign@[k].exchange_id@),
                        client_id: foreign@[k].client_id@,
                    },
                    side: foreign@[k].side,
                }),
        decreases foreign.len() - i,
    {
        r.push(
            TradeCommand {
                cmd: ExecCommand::Cancel {
                    req_id: stray_text(now_ms),
                    exchange_id: Some(foreign[i].exchange_id.clone()),
                    client_id: foreign[i].client_id.clone(),
                },
                side: foreign[i].side,
            },
        );
        i = i + 1;
    }
    assert(gate_trade::trade_views(r@) =~= stray_cancels(model::info_views(foreign@), now_ms));
    r
}

} // verus!
