//! What every event makes of the engine.

use vstd::prelude::*;

use crate::engine::cycle;
use crate::engine::cycle::{MarketFacts, QuoteFacts};
use crate::engine::desk;
use crate::engine::desk::{Booked, EngineView, ExchangePositions, ExitOrder, GateQuote};
use crate::engine::events::{Event, Feed, PositionInfo};
use crate::exchange::gate_trade::TradeView;
use crate::market::book;
use crate::market::book::BookStatus;
use crate::order::history;
use crate::order::lifecycle;
use crate::order::lifecycle::ManagerView;
use crate::order::model;
use crate::order::model::{CommandView, InfoView, OrderState, OrderView, UserTrade, MAX_CONTRACTS};
use crate::order::reconcile;
use crate::order::request_laws;
use crate::strategy::inventory::{FillEffect, Positions};
use crate::strategy::protection;
use crate::strategy::protection::Level;
use crate::strategy::quote::{Quote, QuoteContext, SideBounds};
use crate::strategy::reduce::{Phase, ReduceReason};
use crate::strategy::reduce_laws;
use crate::text;
use crate::time;
use crate::time::Instant;
use crate::types::{Purpose, Side, Ticks};

verus! {

/// Contracts of a trade.
pub open spec fn traded<R>(t: UserTrade<R>) -> int {
    if t.signed_size >= 0 {
        t.signed_size as int
    } else {
        -t.signed_size
    }
}

/// The smaller of two quantities.
pub open spec fn at_most(a: int, b: int) -> int {
    if a <= b {
        a
    } else {
        b
    }
}

/// A new trade moves the position as its order was meant to: a reduce-only buy
/// closes the short position and a reduce-only sell the long one, as far as they
/// reach; any other buy opens long and any other sell short; and the other side of
/// the position stays.
pub proof fn a_trade_moves_the_position_of_its_order<R>(v: EngineView, t: UserTrade<R>, id: u64)
    requires
        v.inventory.pos.wf(),
        v.admits(Event::GateUserTrade(t)),
        !v.orders.seen.contains(t.trade_id@),
        v.orders.lookup(t.exchange_order_id@, t.client_id@) == Some(id),
    ensures
        ({
            let o = v.orders.at(id);
            let p = v.inventory.pos;
            let n = traded(t);
            let q = v.user_trade(t).inventory.pos;
            &&& o.reduce_only && o.side == Side::Buy ==> q.long == p.long && q.short == p.short
                - at_most(n, p.short as int)
            &&& o.reduce_only && o.side == Side::Sell ==> q.short == p.short && q.long == p.long
                - at_most(n, p.long as int)
            &&& !o.reduce_only && o.side == Side::Buy ==> q.short == p.short && q.long == p.long + n
            &&& !o.reduce_only && o.side == Side::Sell ==> q.long == p.long && q.short == p.short
                + n
        }),
{
}

/// A new trade of an order that is not known opens on the side of its sign.
pub proof fn an_unknown_trade_opens<R>(v: EngineView, t: UserTrade<R>)
    requires
        v.inventory.pos.wf(),
        v.admits(Event::GateUserTrade(t)),
        !v.orders.seen.contains(t.trade_id@),
        v.orders.lookup(t.exchange_order_id@, t.client_id@) is None,
    ensures
        ({
            let p = v.inventory.pos;
            let q = v.user_trade(t).inventory.pos;
            &&& t.signed_size >= 0 ==> q.long == p.long + t.signed_size && q.short == p.short
            &&& t.signed_size <= 0 ==> q.short == p.short - t.signed_size && q.long == p.long
            &&& v.user_trade(t).orders.orders == v.orders.orders
        }),
{
}

/// An order placed to reduce closes the other side with all its trades, whatever
/// happened to it in between; one placed to open adds to its own side.
pub proof fn orders_trade_as_they_were_placed<R>(
    v: EngineView,
    side: Side,
    purpose: Purpose,
    layer: u8,
    price: Option<Ticks>,
    size: i64,
    tif: model::Tif,
    now: Instant,
    now_ms: i64,
    vs: Seq<ManagerView>,
    cs: Seq<history::Call<R>>,
    e: EngineView,
    t: UserTrade<R>,
)
    requires
        v.orders.wf(),
        v.orders.room(1),
        model::is_count(size as int),
        history::is_run(vs, cs),
        vs.first() == v.orders.place(side, purpose, layer, price, size, tif, now, now_ms).0,
        forall|i: int|
            0 <= i < vs.len() ==> lifecycle::known((#[trigger] vs[i]).orders, v.orders.next_id),
        e.orders == vs.last(),
        e.inventory.pos.wf(),
        e.admits(Event::GateUserTrade(t)),
        !e.orders.seen.contains(t.trade_id@),
        e.orders.lookup(t.exchange_order_id@, t.client_id@) == Some(v.orders.next_id),
    ensures
        ({
            let p = e.inventory.pos;
            let n = traded(t);
            let q = e.user_trade(t).inventory.pos;
            match (purpose, side) {
                (Purpose::Reduce, Side::Buy) => q.long == p.long && q.short == p.short - at_most(
                    n,
                    p.short as int,
                ),
                (Purpose::Reduce, Side::Sell) => q.short == p.short && q.long == p.long - at_most(
                    n,
                    p.long as int,
                ),
                (Purpose::Open, Side::Buy) => q.short == p.short && q.long == p.long + n,
                (Purpose::Open, Side::Sell) => q.long == p.long && q.short == p.short + n,
            }
        }),
{
    request_laws::placing_records_what_was_asked(
        v.orders,
        side,
        purpose,
        layer,
        price,
        size,
        tif,
        now,
        now_ms,
    );
    history::orders_only_move_forward(vs, cs, v.orders.next_id);
    a_trade_moves_the_position_of_its_order(e, t, v.orders.next_id);
}

/// What is booked of a new trade: its fill, and what the fill closed or opened.
pub proof fn a_booked_trade_says_what_it_did<R>(v: EngineView, t: UserTrade<R>, b: Option<Booked<R>>)
    requires
        v.inventory.pos.wf(),
        v.admits(Event::GateUserTrade(t)),
        v.books(t, b),
    ensures
        b is None <==> v.orders.seen.contains(t.trade_id@),
        b matches Some(x) ==> {
            let p = v.inventory.pos;
            let q = v.user_trade(t).inventory.pos;
            &&& x.fill.size == traded(t)
            &&& x.fill.price == t.price
            &&& x.fill.fee == t.fee
            &&& x.effect matches FillEffect::Opened { side, before, qty } ==> !x.fill.reduce_only
                && side == x.fill.side && qty == traded(t) && (side == Side::Buy ==> before
                == p.long && q.long == p.long + qty) && (side == Side::Sell ==> before == p.short
                && q.short == p.short + qty)
            &&& x.effect matches FillEffect::Closed { side, qty, left, excess } ==> x.fill.reduce_only
                && side != x.fill.side && qty + excess == traded(t) && (side == Side::Buy ==> qty
                == p.long - q.long && left == q.long) && (side == Side::Sell ==> qty == p.short
                - q.short && left == q.short)
            &&& x.effect is Nothing <==> t.signed_size == 0
            &&& v.orders.lookup(t.exchange_order_id@, t.client_id@) matches Some(id) ==> {
                &&& x.fill.side == v.orders.at(id).side
                &&& x.fill.reduce_only == v.orders.at(id).reduce_only
                &&& x.fill.purpose == v.orders.at(id).purpose
                &&& x.exit is Some ==> exists|k: int|
                    0 <= k < v.exits.len() && (#[trigger] v.exits[k]).id == id && x.exit == Some(
                        v.exits[k].market,
                    )
                &&& x.exit is None ==> forall|k: int|
                    0 <= k < v.exits.len() ==> (#[trigger] v.exits[k]).id != id
            }
        },
{
    if let Some(id) = v.orders.lookup(t.exchange_order_id@, t.client_id@) {
        lemma_exit_kind(v.exits, id);
    }
}

proof fn lemma_exit_kind(exits: Seq<desk::ExitOrder>, id: u64)
    ensures
        desk::exit_kind(exits, id) matches Some(m) ==> exists|k: int|
            0 <= k < exits.len() && (#[trigger] exits[k]).id == id && exits[k].market == m,
        desk::exit_kind(exits, id) is None ==> forall|k: int|
            0 <= k < exits.len() ==> (#[trigger] exits[k]).id != id,
    decreases exits.len(),
{
    if exits.len() > 0 {
        let init = exits.drop_last();
        lemma_exit_kind(init, id);
        assert(exits.last() == exits[exits.len() - 1]);
        if exits.last().id != id {
            if let Some(m) = desk::exit_kind(init, id) {
                let k = choose|k: int|
                    0 <= k < init.len() && (#[trigger] init[k]).id == id && init[k].market == m;
                assert(exits[k].id == id && exits[k].market == m);
            } else {
                assert forall|k: int| 0 <= k < exits.len() implies (#[trigger] exits[k]).id != id by {
                    if k < init.len() {
                        assert(init[k].id != id);
                    }
                }
            }
        }
    }
}

/// Exchange positions that agree with ours change nothing; others are taken over
/// exactly when nothing of ours is in flight and they have differed by more than
/// the tolerance for the whole grace period.
pub proof fn exchange_positions_replace_ours_after_the_grace_period(
    v: EngineView,
    p: Positions,
    now: Instant,
)
    ensures
        ({
            let (w, adopted) = v.exchange_positions(p, now);
            let ours = v.inventory.pos;
            let tol = v.rules.risk.position_mismatch_tolerance as int;
            let off = p.long - ours.long > tol || ours.long - p.long > tol || p.short - ours.short
                > tol || ours.short - p.short > tol;
            let calm = forall|i: int|
                0 <= i < v.orders.orders.len() ==> !((#[trigger] v.orders.orders[i]).state
                    is PendingNew || v.orders.orders[i].state is PendingAmend
                    || v.orders.orders[i].state is PendingCancel);
            let late = match v.reconciler.mismatch_since {
                Some(s) => time::reached(s, now, v.rules.risk.position_mismatch_ms),
                None => v.rules.risk.position_mismatch_ms == 0,
            };
            &&& adopted <==> p != ours && calm && off && late
            &&& w.inventory.pos == (if adopted {
                p
            } else {
                ours
            })
            &&& w.reconciler.exchange == Some(p)
            &&& w.reconciler.exchange_at == Some(now)
            &&& w.orders == v.orders
            &&& w.reduce == v.reduce
        }),
{
    lemma_quiet(v.orders.orders);
}

proof fn lemma_quiet(os: Seq<OrderView>)
    ensures
        desk::quiet(os) <==> forall|i: int|
            0 <= i < os.len() ==> !((#[trigger] os[i]).state is PendingNew || os[i].state
                is PendingAmend || os[i].state is PendingCancel),
{
    assert forall|i: int| 0 <= i < os.len() implies ((#[trigger] os[i]).active()
        && os[i].state.inflight() <==> os[i].state is PendingNew || os[i].state is PendingAmend
        || os[i].state is PendingCancel) by {}
    if desk::quiet(os) {
        assert forall|i: int| 0 <= i < os.len() implies !((#[trigger] os[i]).state is PendingNew
            || os[i].state is PendingAmend || os[i].state is PendingCancel) by {
            assert(os[i].active() && os[i].state.inflight() ==> false);
        }
    } else if forall|i: int|
        0 <= i < os.len() ==> !((#[trigger] os[i]).state is PendingNew || os[i].state
            is PendingAmend || os[i].state is PendingCancel) {
        assert(desk::quiet(os));
    }
}

/// A record of the exchange's positions sets the side that it is about: long or
/// short by its mode, else by its sign, and a record without a position in one-way
/// mode sets nothing.
pub proof fn position_records_set_their_side<R>(e: ExchangePositions<R>, i: PositionInfo<R>)
    requires
        -MAX_CONTRACTS <= i.size <= MAX_CONTRACTS,
    ensures
        ({
            let n = e.taking(i);
            let dual_long = i.mode@ == "dual_long"@;
            let dual_short = i.mode@ == "dual_short"@;
            &&& dual_long ==> n.pos.short == e.pos.short && n.long_entry == Some(i.entry_price)
                && n.short_entry == e.short_entry && (i.size > 0 ==> n.pos.long == i.size) && (
            i.size <= 0 ==> n.pos.long == 0)
            &&& dual_short ==> n.pos.long == e.pos.long && n.short_entry == Some(i.entry_price)
                && n.long_entry == e.long_entry && (i.size >= 0 ==> n.pos.short == i.size) && (
            i.size < 0 ==> n.pos.short == -i.size)
            &&& !dual_long && !dual_short ==> {
                &&& i.size > 0 ==> n.pos.long == i.size && n.pos.short == e.pos.short
                    && n.long_entry == Some(i.entry_price)
                &&& i.size < 0 ==> n.pos.short == -i.size && n.pos.long == e.pos.long
                    && n.short_entry == Some(i.entry_price)
                &&& i.size == 0 ==> n == e
            }
        }),
{
    reveal_strlit("dual_long");
    reveal_strlit("dual_short");
    assert("dual_long"@.len() == 9 && "dual_short"@.len() == 10);
}

/// Position records are taken one after the other, from no position at all.
pub proof fn position_records_are_taken_in_turn<R>(
    list: Seq<PositionInfo<R>>,
    i: PositionInfo<R>,
)
    ensures
        desk::reported(list.push(i)) == desk::reported(list).taking(i),
        desk::reported(Seq::<PositionInfo<R>>::empty()).pos.long == 0,
        desk::reported(Seq::<PositionInfo<R>>::empty()).pos.short == 0,
        desk::reported(Seq::<PositionInfo<R>>::empty()).long_entry is None,
        desk::reported(Seq::<PositionInfo<R>>::empty()).short_entry is None,
{
    assert(list.push(i).drop_last() =~= list);
}

/// The state of a feed is the last one heard; a new public connection starts with
/// an empty book, and a new private one counts as a heartbeat.
pub proof fn feeds_are_what_was_heard_last(
    v: EngineView,
    feed: Feed,
    connected: bool,
    at: Instant,
    other: Feed,
)
    ensures
        ({
            let w = v.feed_status(feed, connected, at);
            &&& w.feeds.connected(feed) == connected
            &&& other != feed ==> w.feeds.connected(other) == v.feeds.connected(other)
            &&& feed == Feed::GatePublic && connected ==> w.book.status == BookStatus::Empty
                && w.book.bids == Map::<Ticks, i64>::empty() && w.book.asks == Map::<
                Ticks,
                i64,
            >::empty() && w.book.pending.len() == 0
            &&& !(feed == Feed::GatePublic && connected) ==> w.book == v.book
            &&& feed == Feed::GatePrivate && connected ==> w.private_hb == Some(at)
            &&& !(feed == Feed::GatePrivate && connected) ==> w.private_hb == v.private_hb
            &&& w.orders == v.orders
            &&& w.inventory == v.inventory
            &&& w.gate == v.gate
        }),
        v.feeds.connected(Feed::Binance) <==> (v.feeds.binance matches Some(s) && s.connected),
        v.feeds.connected(Feed::GatePublic) <==> (v.feeds.gate_public matches Some(s)
            && s.connected),
        v.feeds.connected(Feed::GatePrivate) <==> (v.feeds.gate_private matches Some(s)
            && s.connected),
        v.feeds.connected(Feed::GateTrade) <==> (v.feeds.gate_trade matches Some(s) && s.connected),
{
}

/// The first request to shut down is remembered with its time, and where that is
/// wanted it liquidates a position for good; later ones change nothing.
pub proof fn a_shutdown_flattens_where_wanted(v: EngineView, now: Instant)
    ensures
        ({
            let (w, started) = v.shutdown(now);
            let held = v.inventory.pos.long != 0 || v.inventory.pos.short != 0;
            let wanted = v.reduce.cfg.liquidate_on_shutdown && held;
            &&& w.flags.shutting_down
            &&& v.flags.shutting_down ==> (w, started) == (v, false)
            &&& !v.flags.shutting_down ==> w.flags.shutdown_since == Some(now)
            &&& !v.flags.shutting_down && !wanted ==> w.reduce == v.reduce && !started
            &&& !v.flags.shutting_down && wanted ==> {
                &&& started <==> v.reduce.phase == Phase::Idle
                &&& v.reduce.phase != Phase::Halted ==> w.reduce.phase != Phase::Idle
                    && w.reduce.target_abs <= 0 && reduce_laws::stops_for_good(w.reduce)
            }
            &&& w.orders == v.orders
            &&& w.inventory == v.inventory
        }),
{
    if v.reduce.phase != Phase::Halted {
        reduce_laws::triggers_start_and_tighten(v.reduce, ReduceReason::Shutdown, 0, now);
    }
}

/// A delta goes to the book; one that breaks it clears it and asks for a new
/// snapshot, at most once per two seconds.
pub proof fn a_broken_book_asks_for_a_snapshot(
    v: EngineView,
    d: crate::market::book::DeltaView,
    now: Instant,
)
    ensures
        ({
            let (w, asks) = v.book_delta(d, now);
            let b = v.book.delta(d, now);
            let rested = match v.timers.resnapshot {
                Some(t) => time::reached(t, now, 2_000),
                None => true,
            };
            &&& asks <==> b.status == BookStatus::Broken && rested
            &&& asks ==> w.book.status == BookStatus::Empty && w.book.pending.len() == 0
                && w.book.bids == Map::<Ticks, i64>::empty() && w.timers.resnapshot == Some(now)
            &&& !asks ==> w.book == b && w.timers == v.timers
            &&& w.orders == v.orders
        }),
{
}

/// What an event touches: quotes, snapshots, accounts and heartbeats set what they
/// are about, and what only matters to real-valued prices leaves the engine alone.
pub proof fn events_touch_what_they_are_about<R>(
    v: EngineView,
    ev: Event<R>,
    now: Instant,
    now_ms: i64,
)
    ensures
        ({
            let (w, out) = v.applied(ev, now, now_ms);
            match ev {
                Event::BinanceBbo(_) | Event::GateTrade { .. } | Event::Timer(_) => w == v
                    && out.run_cycle && out.sends.len() == 0,
                Event::BinanceTrade { .. } | Event::GateTicker { .. } | Event::GateBalanceChange {
                    ..
                } => w == v && !out.run_cycle && out.sends.len() == 0,
                Event::GateBbo { bid, ask, at, .. } => w == (EngineView {
                    gate: Some(GateQuote { bid, ask, at }),
                    ..v
                }) && out.run_cycle,
                Event::GateBookSnapshot(s) => w.book == v.book.snapshot(s.id, s.bids@, s.asks@, now)
                    && w.orders == v.orders,
                Event::GateBookDelta(d) => w.book == v.book_delta(d@, now).0.book && out.resnapshot
                    == v.book_delta(d@, now).1,
                Event::GateUserTrade(t) => w == v.user_trade(t) && out.run_cycle,
                Event::GateAccount(a) => w.account_at == Some(a.at) && w.flags.dual_mode
                    == a.in_dual_mode && w.orders == v.orders && w.inventory == v.inventory
                    && out.run_cycle,
                Event::PrivateHeartbeat(at) => w == (EngineView { private_hb: Some(at), ..v })
                    && !out.run_cycle,
                Event::GatePositions(list) => w == v.exchange_positions(
                    desk::reported(list@).pos,
                    now,
                ).0 && out.adopted == v.exchange_positions(desk::reported(list@).pos, now).1
                    && out.run_cycle,
                Event::FeedStatus { feed, connected, at } => w == v.feed_status(feed, connected, at)
                    && out.run_cycle,
                Event::Shutdown => w == v.shutdown(now).0 && out.reduce_started == v.shutdown(now).1
                    && out.run_cycle,
                Event::GateOrder(info) => w.orders == v.orders.order_update(info@, now).0
                    && w.inventory == v.inventory && out.run_cycle,
                Event::Exec(resp) => w.orders == v.orders.respond(resp@).0 && w.inventory
                    == v.inventory && out.run_cycle,
                Event::GateOpenOrders(list) => w.orders == v.orders.adopt(
                    model::info_views(list@),
                    now,
                ).0 && w.inventory == v.inventory && out.run_cycle,
            }
        }),
{
}

/// Cancels of stray orders go to each one, under the exchange's id.
pub proof fn strays_are_cancelled(foreign: Seq<InfoView>, now_ms: i64, i: int)
    requires
        0 <= i < foreign.len(),
    ensures
        ({
            let c = desk::stray_cancels(foreign, now_ms);
            &&& c.len() == foreign.len()
            &&& c[i].side == foreign[i].side
            &&& c[i].cmd matches CommandView::Cancel { exchange_id, client_id, .. } && exchange_id
                == Some(foreign[i].exchange_id) && client_id == foreign[i].client_id
        }),
{
}

/// The command cancels a listed order.
pub open spec fn cancels_listed(t: TradeView, o: InfoView) -> bool {
    t.side == o.side && (t.cmd matches CommandView::Cancel { exchange_id, client_id, .. }
        && exchange_id == Some(o.exchange_id) && client_id == o.client_id)
}

/// The listed order carries our prefix.
pub open spec fn has_prefix(o: InfoView, prefix: Seq<char>) -> bool {
    prefix.len() <= o.client_id.len() && o.client_id.take(prefix.len() as int) == prefix
}

/// Some command cancels the listed order.
pub open spec fn is_cancelled(sends: Seq<TradeView>, o: InfoView) -> bool {
    exists|k: int| 0 <= k < sends.len() && cancels_listed(#[trigger] sends[k], o)
}

/// The command cancels one of the listed orders with our prefix.
pub open spec fn cancels_ours(t: TradeView, unknown: Seq<InfoView>, prefix: Seq<char>) -> bool {
    exists|i: int|
        0 <= i < unknown.len() && cancels_listed(t, #[trigger] unknown[i]) && has_prefix(
            unknown[i],
            prefix,
        )
}

/// Of the open orders that are not known, exactly those with our prefix are
/// cancelled.
pub proof fn leaked_orders_are_cancelled(unknown: Seq<InfoView>, prefix: Seq<char>, now_ms: i64)
    ensures
        forall|i: int|
            0 <= i < unknown.len() && has_prefix(#[trigger] unknown[i], prefix) ==> is_cancelled(
                desk::leak_cancels(unknown, prefix, now_ms),
                unknown[i],
            ),
        forall|k: int|
            0 <= k < desk::leak_cancels(unknown, prefix, now_ms).len() ==> cancels_ours(
                #[trigger] desk::leak_cancels(unknown, prefix, now_ms)[k],
                unknown,
                prefix,
            ),
    decreases unknown.len(),
{
    if unknown.len() > 0 {
        let init = unknown.drop_last();
        let o = unknown.last();
        leaked_orders_are_cancelled(init, prefix, now_ms);
        text::parts_are_subranges(o.client_id, prefix);
        let head = desk::leak_cancels(init, prefix, now_ms);
        let all = desk::leak_cancels(unknown, prefix, now_ms);
        assert(unknown[unknown.len() - 1] == o);
        assert forall|i: int|
            0 <= i < unknown.len() && has_prefix(
                #[trigger] unknown[i],
                prefix,
            ) implies is_cancelled(all, unknown[i]) by {
            if i < init.len() {
                assert(init[i] == unknown[i]);
                assert(is_cancelled(head, init[i]));
                let k = choose|k: int|
                    0 <= k < head.len() && cancels_listed(#[trigger] head[k], init[i]);
                assert(all[k] == head[k]);
            } else {
                assert(cancels_listed(all[head.len() as int], o));
            }
        }
        assert forall|k: int| 0 <= k < all.len() implies cancels_ours(
            #[trigger] all[k],
            unknown,
            prefix,
        ) by {
            if k < head.len() {
                assert(all[k] == head[k]);
                assert(cancels_ours(head[k], init, prefix));
                let i = choose|i: int|
                    0 <= i < init.len() && cancels_listed(head[k], #[trigger] init[i])
                        && has_prefix(init[i], prefix);
                assert(unknown[i] == init[i]);
            } else {
                assert(cancels_listed(all[k], unknown[unknown.len() - 1]));
            }
        }
    }
}

/// A command travels with the side of its order: that of a new order, and else the
/// side of an order of ours that works under its client id.
pub proof fn commands_travel_with_their_side(orders: Seq<OrderView>, cmds: Seq<CommandView>, k: int)
    requires
        0 <= k < cmds.len(),
    ensures
        ({
            let t = desk::routed(orders, cmds)[k];
            &&& desk::routed(orders, cmds).len() == cmds.len()
            &&& t.cmd == cmds[k]
            &&& cmds[k] matches CommandView::Place { side, .. } ==> t.side == side
            &&& cmds[k] matches CommandView::Amend { client_id, .. } ==> sides_agree(
                orders,
                client_id,
                t.side,
            )
            &&& cmds[k] matches CommandView::Cancel { client_id, .. } ==> sides_agree(
                orders,
                client_id,
                t.side,
            )
        }),
{
    match cmds[k] {
        CommandView::Amend { client_id, .. } => lemma_side_named(orders, client_id),
        CommandView::Cancel { client_id, .. } => lemma_side_named(orders, client_id),
        _ => {},
    }
}

/// If an order works under the client id, one that does has the side.
pub open spec fn sides_agree(orders: Seq<OrderView>, client_id: Seq<char>, side: Side) -> bool {
    (exists|i: int|
        0 <= i < orders.len() && (#[trigger] orders[i]).client_id == client_id && !(orders[i].state
            is Done)) ==> (exists|i: int|
        0 <= i < orders.len() && (#[trigger] orders[i]).client_id == client_id && !(orders[i].state
            is Done) && orders[i].side == side)
}

proof fn lemma_side_named(orders: Seq<OrderView>, client_id: Seq<char>)
    ensures
        desk::side_named(orders, client_id) matches Some(s) ==> exists|i: int|
            0 <= i < orders.len() && (#[trigger] orders[i]).client_id == client_id && !(
            orders[i].state is Done) && orders[i].side == s,
        desk::side_named(orders, client_id) is None ==> forall|i: int|
            0 <= i < orders.len() ==> !((#[trigger] orders[i]).client_id == client_id && !(
            orders[i].state is Done)),
    decreases orders.len(),
{
    if orders.len() > 0 {
        let init = orders.drop_last();
        lemma_side_named(init, client_id);
        let o = orders.last();
        assert(orders[orders.len() - 1] == o);
        if let Some(s) = desk::side_named(init, client_id) {
            let i = choose|i: int|
                0 <= i < init.len() && (#[trigger] init[i]).client_id == client_id && !(
                init[i].state is Done) && init[i].side == s;
            assert(orders[i] == init[i]);
        } else {
            assert forall|i: int| 0 <= i < init.len() implies !((#[trigger] orders[i]).client_id
                == client_id && !(orders[i].state is Done)) by {
                assert(init[i] == orders[i]);
            }
        }
    }
}

/// The trust check sees each feed as it is: a feed that is down has no age, and
/// ages are counted from what was heard last.
pub proof fn the_trust_check_sees_the_feeds(
    v: EngineView,
    f: MarketFacts,
    position_ok: bool,
    now: Instant,
)
    ensures
        ({
            let i = v.trust_inputs(f, position_ok, now);
            let binance = v.feeds.binance matches Some(s) && s.connected;
            let public = v.feeds.gate_public matches Some(s) && s.connected;
            let private = v.feeds.gate_private matches Some(s) && s.connected;
            &&& binance ==> i.binance_age == f.binance_age
            &&& !binance ==> i.binance_age is None
            &&& public ==> (v.gate matches Some(g) ==> i.gate_bbo_age == Some(
                time::elapsed(g.at, now),
            ))
            &&& !public || v.gate is None ==> i.gate_bbo_age is None
            &&& i.gate_book_synced <==> v.book.status == BookStatus::Synced
            &&& i.private_connected <==> v.rules.paper || private
            &&& v.rules.paper ==> (i.private_age matches Some(a) && a.nanos == 0)
            &&& !v.rules.paper ==> (v.private_hb matches Some(t) ==> i.private_age == Some(
                time::elapsed(t, now),
            )) && (v.private_hb is None ==> i.private_age is None)
            &&& v.account_at matches Some(t) ==> i.account_age == Some(time::elapsed(t, now))
            &&& v.account_at is None ==> i.account_age is None
            &&& i.position_ok == position_ok
            &&& i.margin_ok == f.margin_ok
            &&& i.basis == f.basis
            &&& i.session == f.session
            &&& i.session_tradable == (f.session_listed && f.samples_ok)
            &&& i.loss_limit_hit == f.loss_hit
            &&& i.halted == v.flags.halted
            &&& i.mark_deviates == f.mark_deviates
        }),
{
}

/// The phase is a strong signal in force or held.
pub open spec fn is_strong(p: protection::Phase) -> bool {
    p == protection::Phase::Active(Level::Strong) || p == protection::Phase::Hold(Level::Strong)
}

/// Quotes are planned from the position, the caps and the protection of each side
/// as they are; new risk needs trust and no shutdown.
pub proof fn quotes_are_planned_from_the_state(v: EngineView, f: QuoteFacts, trusted: bool)
    ensures
        ({
            let c = v.quote_context(f, trusted);
            &&& c.pos == v.inventory.pos
            &&& c.inventory.pos == v.inventory.pos
            &&& c.bounds == f.bounds
            &&& c.centre == f.centre
            &&& c.ext_bid == f.ext_bid
            &&& c.ext_ask == f.ext_ask
            &&& c.allow_new_risk <==> trusted && !v.flags.shutting_down
            &&& c.buy_policy.allow_open <==> !is_strong(v.protection.buy.phase)
            &&& c.sell_policy.allow_open <==> !is_strong(v.protection.sell.phase)
            &&& c.add_buy == f.add_buy
            &&& c.add_sell == f.add_sell
            &&& c.layers == v.rules.quoting.layers
            &&& c.buy_base == f.buy_base
            &&& c.sell_base == f.sell_base
            &&& c.buy_reduce_base == f.buy_reduce_base
            &&& c.sell_reduce_base == f.sell_reduce_base
            &&& c.order_size_min == v.rules.order_size_min
            &&& c.order_size_max == v.rules.order_size_max
            &&& c.h_contracts == f.h_contracts
            &&& c.gross_contracts == f.gross_contracts
            &&& c.aggressive_buy == f.aggressive_buy
            &&& c.aggressive_sell == f.aggressive_sell
        }),
{
}

/// What the quotes cannot respecify counts against them: orders in flight that are
/// exits, or whose purpose is not that of their side any more.
pub proof fn orders_beyond_the_quotes_are_counted(v: EngineView, o: OrderView)
    ensures
        ({
            let purposes = crate::strategy::quote::purposes(v.inventory.pos);
            let p = v.inventory.pos;
            let stale = match o.side {
                Side::Buy => (o.purpose == Purpose::Reduce) != (p.short > 0),
                Side::Sell => (o.purpose == Purpose::Reduce) != (p.long > 0),
            };
            cycle::beyond_control(o, purposes) <==> o.layer == u8::MAX || stale
        }),
{
}

/// A side follows the market tightly while the other side is under strong
/// pressure, and orders move by the configured thresholds.
pub proof fn reconciling_follows_the_configuration(
    v: EngineView,
    bounds: SideBounds,
    grown: Seq<u64>,
)
    ensures
        ({
            let r = v.reconcile_rules(bounds, grown);
            &&& r.bounds == bounds
            &&& r.grown == grown
            &&& r.follow_tight_buy <==> is_strong(v.protection.sell.phase)
            &&& r.follow_tight_sell <==> is_strong(v.protection.buy.phase)
            &&& r.inner_ticks == v.rules.quoting.inner_requote_ticks
            &&& r.outer_ticks == v.rules.quoting.outer_requote_ticks
            &&& r.use_amend == v.rules.use_amend
        }),
{
}

/// The margin cuts an opening quote to what it affords and leaves a reducing one.
pub open spec fn margin_cut(q: Quote, limit: i64) -> Quote {
    if q.purpose == Purpose::Open && limit < q.size {
        Quote { size: limit, ..q }
    } else {
        q
    }
}

/// Without limits the quotes stay as they are as far as the exchange admits
/// orders; with them every quote that keeps the least size stays, cut to the
/// margin where it opens.
pub proof fn clipping_keeps_what_fits(v: EngineView, quotes: Seq<Quote>, limits: Option<Seq<i64>>)
    requires
        limits matches Some(l) ==> l.len() == quotes.len(),
    ensures
        limits is None && quotes.len() + 2 <= v.rules.orders_limit ==> v.clipped(quotes, limits)
            == quotes,
        limits is None ==> forall|i: int|
            0 <= i < v.clipped(quotes, limits).len() ==> (#[trigger] v.clipped(quotes, limits)[i])
                == quotes[i],
        limits matches Some(l) ==> quotes.len() + 2 <= v.rules.orders_limit ==> forall|i: int|
            0 <= i < quotes.len() && margin_cut(#[trigger] quotes[i], l[i]).size
                >= v.rules.order_size_min ==> v.clipped(quotes, limits).contains(
                margin_cut(quotes[i], l[i]),
            ),
        limits matches Some(l) ==> forall|k: int|
            0 <= k < v.clipped(quotes, limits).len() ==> exists|i: int|
                0 <= i < quotes.len() && (#[trigger] v.clipped(quotes, limits)[k]) == margin_cut(
                    #[trigger] quotes[i],
                    l[i],
                ),
{
    if let Some(l) = limits {
        let a = cycle::afforded(quotes, l);
        assert forall|i: int| 0 <= i < quotes.len() implies #[trigger] a[i] == margin_cut(
            quotes[i],
            l[i],
        ) by {}
        let fit = cycle::sizable(a, v.rules.order_size_min);
        lemma_sizable_has(a, v.rules.order_size_min);
        assert forall|i: int|
            0 <= i < quotes.len() && margin_cut(#[trigger] quotes[i], l[i]).size
                >= v.rules.order_size_min implies fit.contains(margin_cut(quotes[i], l[i])) by {
            assert(a[i].size >= v.rules.order_size_min);
        }
        assert forall|k: int| 0 <= k < v.clipped(quotes, limits).len() implies exists|i: int|
            0 <= i < quotes.len() && (#[trigger] v.clipped(quotes, limits)[k]) == margin_cut(
                #[trigger] quotes[i],
                l[i],
            ) by {
            assert(v.clipped(quotes, limits)[k] == fit[k]);
            let i = choose|i: int| 0 <= i < a.len() && fit[k] == #[trigger] a[i];
            assert(a[i] == margin_cut(quotes[i], l[i]));
        }
    }
}

proof fn lemma_sizable_has(quotes: Seq<Quote>, min: i64)
    ensures
        cycle::sizable(quotes, min).len() <= quotes.len(),
        forall|i: int|
            0 <= i < quotes.len() && (#[trigger] quotes[i]).size >= min ==> cycle::sizable(
                quotes,
                min,
            ).contains(quotes[i]),
        forall|k: int|
            0 <= k < cycle::sizable(quotes, min).len() ==> exists|i: int|
                0 <= i < quotes.len() && (#[trigger] cycle::sizable(quotes, min)[k])
                    == #[trigger] quotes[i],
    decreases quotes.len(),
{
    if quotes.len() > 0 {
        let init = quotes.drop_last();
        lemma_sizable_has(init, min);
        let head = cycle::sizable(init, min);
        let all = cycle::sizable(quotes, min);
        assert(quotes[quotes.len() - 1] == quotes.last());
        assert forall|i: int| 0 <= i < quotes.len() && (#[trigger] quotes[i]).size
            >= min implies all.contains(quotes[i]) by {
            if i < init.len() {
                assert(init[i] == quotes[i]);
                let k = head.index_of(quotes[i]);
                assert(all[k] == quotes[i]);
            } else {
                assert(all[head.len() as int] == quotes[i]);
            }
        }
        assert forall|k: int| 0 <= k < all.len() implies exists|i: int|
            0 <= i < quotes.len() && (#[trigger] all[k]) == #[trigger] quotes[i] by {
            if k < head.len() {
                assert(all[k] == head[k]);
                let i = choose|i: int| 0 <= i < init.len() && head[k] == #[trigger] init[i];
                assert(quotes[i] == init[i]);
            } else {
                assert(all[k] == quotes[quotes.len() - 1]);
            }
        }
    }
}

/// The best external bid is the better of the book and the ticker, unless the
/// ticker shows our own price.
pub proof fn the_external_quote_is_the_better_one(
    level: Option<Ticks>,
    gate: GateQuote,
    own: Seq<(Side, Ticks, i64)>,
)
    ensures
        ({
            let ours_bid = exists|i: int|
                0 <= i < own.len() && (#[trigger] own[i]).0 == Side::Buy && own[i].1 == gate.bid;
            let ours_ask = exists|i: int|
                0 <= i < own.len() && (#[trigger] own[i]).0 == Side::Sell && own[i].1 == gate.ask;
            &&& desk::joined_bid(level, None, own) == level
            &&& desk::joined_ask(level, None, own) == level
            &&& ours_bid ==> desk::joined_bid(level, Some(gate), own) == level
            &&& ours_ask ==> desk::joined_ask(level, Some(gate), own) == level
            &&& !ours_bid ==> (desk::joined_bid(level, Some(gate), own) matches Some(b) && b
                >= gate.bid && (level matches Some(l) ==> b >= l && (b == l || b == gate.bid)) && (
            level is None ==> b == gate.bid))
            &&& !ours_ask ==> (desk::joined_ask(level, Some(gate), own) matches Some(a) && a
                <= gate.ask && (level matches Some(l) ==> a <= l && (a == l || a == gate.ask)) && (
            level is None ==> a == gate.ask))
        }),
{
}

/// A cancel of a list reaches each free order that it names.
proof fn lemma_cancel_all_sends(v: ManagerView, ids: Seq<u64>, now: Instant, id: u64)
    requires
        v.wf(),
        v.next_req + ids.len() <= u64::MAX,
        forall|j: int| 0 <= j < ids.len() ==> lifecycle::known(v.orders, #[trigger] ids[j]),
        ids.no_duplicates(),
        lifecycle::known(v.orders, id),
    ensures
        ({
            let (w, cmds) = v.cancel_all(ids, now);
            &&& w.wf()
            &&& w.next_req == v.next_req + ids.len()
            &&& forall|k: u64| #[trigger]
                lifecycle::known(v.orders, k) ==> lifecycle::known(w.orders, k)
            &&& !ids.contains(id) ==> w.at(id) == v.at(id)
            &&& ids.contains(id) && v.at(id).state == OrderState::Live && v.at(id).req_id is None
                ==> exists|k: int|
                0 <= k < cmds.len() && (#[trigger] cmds[k] matches CommandView::Cancel {
                    exchange_id,
                    client_id,
                    ..
                } && exchange_id == v.at(id).exchange_id && client_id == v.at(id).client_id)
        }),
    decreases ids.len(),
{
    if ids.len() > 0 {
        let init = ids.drop_last();
        let x = ids.last();
        assert forall|j: int| 0 <= j < init.len() implies lifecycle::known(
            v.orders,
            #[trigger] init[j],
        ) by {
            assert(lifecycle::known(v.orders, ids[j]));
        }
        assert(lifecycle::known(v.orders, ids[ids.len() - 1]));
        lemma_cancel_all_sends(v, init, now, id);
        lemma_cancel_all_sends(v, init, now, x);
        let (s, head) = v.cancel_all(init, now);
        let (w, cmds) = v.cancel_all(ids, now);
        request_laws::a_cancel_is_sent_or_stored(s, x, now);
        lifecycle::lemma_cancel(s, x, now);
        assert(!init.contains(x)) by {
            if init.contains(x) {
                let j = init.index_of(x);
                assert(ids[j] == ids[ids.len() - 1]);
            }
        }
        assert(s.at(x) == v.at(x));
        assert forall|k: u64| #[trigger] lifecycle::known(v.orders, k) implies lifecycle::known(
            w.orders,
            k,
        ) by {
            assert(lifecycle::known(s.orders, k));
        }
        if ids.contains(id) {
            if id == x {
                if v.at(id).state == OrderState::Live && v.at(id).req_id is None {
                    assert(cmds[head.len() as int] == s.cancel(x, now).1->0);
                }
            } else {
                let j = ids.index_of(id);
                assert(init[j] == id);
                if v.at(id).state == OrderState::Live && v.at(id).req_id is None {
                    let k = choose|k: int|
                        0 <= k < head.len() && (#[trigger] head[k] matches CommandView::Cancel {
                            exchange_id,
                            client_id,
                            ..
                        } && exchange_id == v.at(id).exchange_id && client_id == v.at(id).client_id);
                    assert(cmds[k] == head[k]);
                }
            }
        } else {
            assert(!init.contains(id)) by {
                if init.contains(id) {
                    let j = init.index_of(id);
                    assert(ids[j] == id);
                }
            }
            assert(ids[ids.len() - 1] == x);
            assert(lifecycle::known(s.orders, id) && id != x);
        }
    }
}

proof fn lemma_selected(orders: Seq<OrderView>, p: spec_fn(OrderView) -> bool, id: u64)
    requires
        lifecycle::ascending(orders),
        lifecycle::known(orders, id),
    ensures
        lifecycle::select(orders, p).no_duplicates(),
        lifecycle::select(orders, p).contains(id) <==> p(orders[lifecycle::pos(orders, id)]),
{
    let ids = lifecycle::select(orders, p);
    lifecycle::lemma_select(orders, p);
    assert(ids.no_duplicates()) by {
        assert forall|i: int, j: int| 0 <= i < ids.len() && 0 <= j < ids.len() && i
            != j implies ids[i] != ids[j] by {
            if i < j {
                assert(ids[i] < ids[j]);
            } else {
                assert(ids[j] < ids[i]);
            }
        }
    }
    let i = lifecycle::pos(orders, id);
    assert(0 <= i < orders.len() && orders[i].id == id);
    if p(orders[i]) {
        lemma_select_has(orders, p, i);
    }
    if ids.contains(id) {
        let j = ids.index_of(id);
        assert(lifecycle::known(orders, ids[j]) && p(orders[lifecycle::pos(orders, ids[j])]));
    }
}

proof fn lemma_select_has(orders: Seq<OrderView>, p: spec_fn(OrderView) -> bool, i: int)
    requires
        0 <= i < orders.len(),
        p(orders[i]),
    ensures
        lifecycle::select(orders, p).contains(orders[i].id),
    decreases orders.len(),
{
    let ids = lifecycle::select(orders, p);
    if i == orders.len() - 1 {
        assert(ids[ids.len() - 1] == orders[i].id);
    } else {
        let init = orders.drop_last();
        assert(init[i] == orders[i]);
        lemma_select_has(init, p, i);
        let head = lifecycle::select(init, p);
        let j = head.index_of(orders[i].id);
        assert(ids[j] == orders[i].id);
    }
}

/// A command sent cancels the order.
pub open spec fn cancel_sent(sends: Seq<TradeView>, o: OrderView) -> bool {
    exists|k: int|
        0 <= k < sends.len() && (#[trigger] sends[k].cmd matches CommandView::Cancel {
            exchange_id,
            client_id,
            ..
        } && exchange_id == o.exchange_id && client_id == o.client_id)
}

/// When resting orders are stopped, a cancel goes out for every one that is live
/// without a request, and exits stay as they are; when adds are stopped, a cancel
/// goes out for every one that opens, and the others stay.
pub proof fn stopped_orders_are_cancelled(v: EngineView, id: u64, now: Instant)
    requires
        v.orders.wf(),
        v.orders.next_req + v.orders.orders.len() <= u64::MAX,
        lifecycle::known(v.orders.orders, id),
    ensures
        ({
            let o = v.orders.at(id);
            let free = o.state == OrderState::Live && o.req_id is None;
            let exits = exists|e: int| 0 <= e < v.exits.len() && (#[trigger] v.exits[e]).id == id;
            let (r, rs) = v.without_resting(now);
            let (a, rs2) = v.without_adds(now);
            &&& free && !exits ==> cancel_sent(rs, o)
            &&& exits ==> r.orders.at(id) == o
            &&& free && o.purpose == Purpose::Open ==> cancel_sent(rs2, o)
            &&& o.purpose == Purpose::Reduce ==> a.orders.at(id) == o
        }),
{
    let os = v.orders.orders;
    let i = lifecycle::pos(os, id);
    assert(os[i].id == id);
    let ex = v.exits;
    let p = |o: OrderView| !desk::is_exit(ex, o.id);
    let q = |o: OrderView| o.active() && p(o);
    let p2 = |o: OrderView| o.purpose == Purpose::Open;
    let q2 = |o: OrderView| o.active() && p2(o);
    lifecycle::lemma_select(os, q);
    lifecycle::lemma_select(os, q2);
    lifecycle::lemma_select_len(os, q);
    lifecycle::lemma_select_len(os, q2);
    lemma_selected(os, q, id);
    lemma_selected(os, q2, id);
    let ids = lifecycle::select(os, q);
    let ids2 = lifecycle::select(os, q2);
    lemma_cancel_all_sends(v.orders, ids, now, id);
    lemma_cancel_all_sends(v.orders, ids2, now, id);
    let o = v.orders.at(id);
    let (m, cmds) = v.orders.cancel_all(ids, now);
    let (m2, cmds2) = v.orders.cancel_all(ids2, now);
    let rs = desk::routed(m.orders, cmds);
    let rs2 = desk::routed(m2.orders, cmds2);
    if o.state == OrderState::Live && o.req_id is None {
        if q(o) {
            let k = choose|k: int|
                0 <= k < cmds.len() && (#[trigger] cmds[k] matches CommandView::Cancel {
                    exchange_id,
                    client_id,
                    ..
                } && exchange_id == o.exchange_id && client_id == o.client_id);
            assert(rs[k].cmd == cmds[k]);
        }
        if q2(o) {
            let k = choose|k: int|
                0 <= k < cmds2.len() && (#[trigger] cmds2[k] matches CommandView::Cancel {
                    exchange_id,
                    client_id,
                    ..
                } && exchange_id == o.exchange_id && client_id == o.client_id);
            assert(rs2[k].cmd == cmds2[k]);
        }
    }
}

/// A timeout sends a query for each order that it names.
proof fn lemma_expire_all_sends(v: ManagerView, ids: Seq<u64>, now: Instant, id: u64)
    requires
        v.wf(),
        v.next_req + ids.len() <= u64::MAX,
        forall|j: int| 0 <= j < ids.len() ==> lifecycle::known(v.orders, #[trigger] ids[j]),
        ids.no_duplicates(),
        lifecycle::known(v.orders, id),
    ensures
        ({
            let (w, cmds) = v.expire_all(ids, now);
            &&& !ids.contains(id) ==> w.at(id) == v.at(id)
            &&& ids.contains(id) ==> exists|k: int|
                0 <= k < cmds.len() && (#[trigger] cmds[k] matches CommandView::Query {
                    exchange_id,
                    client_id,
                    ..
                } && exchange_id == v.at(id).exchange_id && client_id == v.at(id).client_id)
        }),
    decreases ids.len(),
{
    if ids.len() > 0 {
        let init = ids.drop_last();
        let x = ids.last();
        assert forall|j: int| 0 <= j < init.len() implies lifecycle::known(
            v.orders,
            #[trigger] init[j],
        ) by {
            assert(lifecycle::known(v.orders, ids[j]));
        }
        assert(lifecycle::known(v.orders, ids[ids.len() - 1]));
        lemma_expire_all_sends(v, init, now, id);
        lemma_expire_all_sends(v, init, now, x);
        lifecycle::lemma_expire_all(v, init, now);
        let (s, head) = v.expire_all(init, now);
        let (w, cmds) = v.expire_all(ids, now);
        assert(lifecycle::known(s.orders, x));
        assert(lifecycle::known(s.orders, id));
        request_laws::a_timeout_asks(s, x, now);
        assert(!init.contains(x)) by {
            if init.contains(x) {
                let j = init.index_of(x);
                assert(ids[j] == ids[ids.len() - 1]);
            }
        }
        assert(s.at(x) == v.at(x));
        assert(cmds[head.len() as int] == s.expire(x, now).1);
        if ids.contains(id) {
            if id != x {
                let j = ids.index_of(id);
                assert(init[j] == id);
                let k = choose|k: int|
                    0 <= k < head.len() && (#[trigger] head[k] matches CommandView::Query {
                        exchange_id,
                        client_id,
                        ..
                    } && exchange_id == v.at(id).exchange_id && client_id == v.at(id).client_id);
                assert(cmds[k] == head[k]);
            }
        } else {
            assert(!init.contains(id)) by {
                if init.contains(id) {
                    let j = init.index_of(id);
                    assert(ids[j] == id);
                }
            }
            assert(ids[ids.len() - 1] == x);
        }
    }
}

/// A timer tick asks about every order whose request has been out for the timeout,
/// polls the account and fetches the orders when that is due, and cancels every
/// stray order.
pub proof fn a_tick_does_what_is_due(v: EngineView, now: Instant, now_ms: i64)
    requires
        v.orders.wf(),
        v.orders.next_req + v.orders.orders.len() <= u64::MAX,
    ensures
        ({
            let (w, plan) = v.timed(now, now_ms);
            let timeout = v.orders.inflight_timeout.nanos;
            &&& plan.poll_account <==> (v.timers.account_poll matches Some(t) ==> time::reached(
                t,
                now,
                v.rules.risk.account_poll_ms,
            ))
            &&& plan.sync_orders <==> !v.rules.paper && (v.timers.orders_sync matches Some(t)
                ==> time::reached(t, now, 30_000))
            &&& plan.poll_account ==> w.timers.account_poll == Some(now)
            &&& plan.sync_orders ==> w.timers.orders_sync == Some(now)
            &&& forall|id: u64| #[trigger]
                lifecycle::known(v.orders.orders, id) && v.orders.at(id).state.inflight() && (
                v.orders.at(id).inflight_since matches Some(t) && now.nanos - t.nanos >= timeout
                    && now.nanos >= t.nanos) ==> query_sent(plan.sends, v.orders.at(id))
            &&& w.inventory == v.inventory
            &&& w.reduce == v.reduce
            &&& w.orders.foreign.len() == 0
        }),
{
    let os = v.orders.orders;
    let limit = v.orders.inflight_timeout;
    let p = |o: OrderView| lifecycle::timed_out(o, limit, now);
    let ids = lifecycle::select(os, p);
    lifecycle::lemma_select(os, p);
    lifecycle::lemma_select_len(os, p);
    let (m1, cmds) = v.orders.expire_all(ids, now);
    let plan = v.timed(now, now_ms).1;
    assert forall|id: u64| #[trigger]
        lifecycle::known(v.orders.orders, id) && v.orders.at(id).state.inflight() && (v.orders.at(
            id,
        ).inflight_since matches Some(t) && now.nanos - t.nanos >= limit.nanos && now.nanos
            >= t.nanos) implies query_sent(plan.sends, v.orders.at(id)) by {
        lemma_selected(os, p, id);
        lemma_expire_all_sends(v.orders, ids, now, id);
        let o = v.orders.at(id);
        let k = choose|k: int|
            0 <= k < cmds.len() && (#[trigger] cmds[k] matches CommandView::Query {
                exchange_id,
                client_id,
                ..
            } && exchange_id == o.exchange_id && client_id == o.client_id);
        assert(desk::routed(m1.orders, cmds)[k].cmd == cmds[k]);
        assert(plan.sends[k].cmd == cmds[k]);
    }
}

/// A command sent asks about the order.
pub open spec fn query_sent(sends: Seq<TradeView>, o: OrderView) -> bool {
    exists|k: int|
        0 <= k < sends.len() && (#[trigger] sends[k].cmd matches CommandView::Query {
            exchange_id,
            client_id,
            ..
        } && exchange_id == o.exchange_id && client_id == o.client_id)
}

/// A shutdown is over exactly when nothing works any more, no reduction is under
/// way and the position is flat where that is wanted, or after fifteen seconds.
pub proof fn a_shutdown_ends_when_all_is_done(v: EngineView, now: Instant)
    ensures
        v.shutdown_complete(now) ==> v.flags.shutting_down,
        v.flags.shutting_down && (v.flags.shutdown_since matches Some(t) && now.nanos - t.nanos
            > 15_000_000_000) ==> v.shutdown_complete(now),
        v.shutdown_complete(now) && !(v.flags.shutdown_since matches Some(t) && now.nanos - t.nanos
            > 15_000_000_000) ==> {
            &&& forall|i: int|
                0 <= i < v.orders.orders.len() ==> (#[trigger] v.orders.orders[i]).state is Done
            &&& v.reduce.phase == Phase::Idle || v.reduce.phase == Phase::Halted
            &&& v.reduce.cfg.liquidate_on_shutdown && v.reduce.phase != Phase::Halted
                ==> v.inventory.pos.long == 0 && v.inventory.pos.short == 0
        },
{
    let os = v.orders.orders;
    lemma_none_active(os);
}

proof fn lemma_none_active(orders: Seq<OrderView>)
    ensures
        lifecycle::active_orders(orders).len() == 0 ==> forall|i: int|
            0 <= i < orders.len() ==> (#[trigger] orders[i]).state is Done,
    decreases orders.len(),
{
    if orders.len() > 0 {
        let init = orders.drop_last();
        lemma_none_active(init);
        assert(lifecycle::active_orders(orders).len() >= lifecycle::active_orders(init).len());
        if lifecycle::active_orders(orders).len() == 0 {
            assert forall|i: int| 0 <= i < orders.len() implies (#[trigger] orders[i]).state
                is Done by {
                if i < init.len() {
                    assert(init[i] == orders[i]);
                }
            }
        }
    }
}

/// What others quote, level by level and by the ticker: while the book is in step,
/// no bid of others is above the external bid, which is a bid of others or that of
/// the ticker; asks likewise. Without a book the ticker alone counts.
pub proof fn the_external_quote_is_that_of_others(
    v: EngineView,
    r: (Option<Ticks>, Option<Ticks>),
    p: Ticks,
)
    requires
        desk::is_external_quote(v, r),
    ensures
        ({
            let own = lifecycle::resting(v.orders.orders);
            let synced = v.book.status == BookStatus::Synced;
            let bids = v.book.bids;
            let asks = v.book.asks;
            &&& !synced ==> (v.gate matches Some(t) ==> r.0 == Some(t.bid) && r.1 == Some(t.ask))
            &&& !synced && v.gate is None ==> r.0 is None && r.1 is None
            &&& synced && bids.contains_key(p) && bids[p] > book::own_total(own, Side::Buy, p) ==> (
            r.0 matches Some(b) && b >= p)
            &&& synced && asks.contains_key(p) && asks[p] > book::own_total(own, Side::Sell, p)
                ==> (r.1 matches Some(a) && a <= p)
            &&& synced ==> (r.0 matches Some(b) ==> (bids.contains_key(b) && bids[b]
                > book::own_total(own, Side::Buy, b)) || (v.gate matches Some(t) && t.bid == b))
            &&& synced ==> (r.1 matches Some(a) ==> (asks.contains_key(a) && asks[a]
                > book::own_total(own, Side::Sell, a)) || (v.gate matches Some(t) && t.ask == a))
        }),
{
    let own = lifecycle::resting(v.orders.orders);
    if v.book.status == BookStatus::Synced {
        let b = choose|b: Option<(Ticks, i64)>| #[trigger]
            book::is_external_bid(v.book.bids, own, b) && r.0 == desk::joined_bid(
                desk::level_price(b),
                v.gate,
                own,
            );
        let a = choose|a: Option<(Ticks, i64)>| #[trigger]
            book::is_external_ask(v.book.asks, own, a) && r.1 == desk::joined_ask(
                desk::level_price(a),
                v.gate,
                own,
            );
        book::the_best_prices_of_others(v.book.bids, v.book.asks, own, b, a, p);
    }
}

/// An event reports only what it led to: a snapshot is asked for after a change of
/// the book alone, positions are taken over from the exchange's alone, a reduction
/// starts with a shutdown alone, and commands follow an order's record, an answer or
/// the list of open orders.
pub proof fn events_report_what_they_led_to<R>(
    v: EngineView,
    ev: Event<R>,
    now: Instant,
    now_ms: i64,
)
    ensures
        ({
            let (w, out) = v.applied(ev, now, now_ms);
            &&& out.resnapshot ==> ev is GateBookDelta
            &&& out.adopted ==> ev is GatePositions
            &&& out.reduce_started ==> ev is Shutdown
            &&& out.sends.len() > 0 ==> ev is GateOrder || ev is Exec || ev is GateOpenOrders
            &&& !out.run_cycle <==> ev is BinanceTrade || ev is GateBookSnapshot
                || ev is GateBookDelta || ev is GateTicker || ev is GateBalanceChange
                || ev is PrivateHeartbeat
            &&& ev matches Event::GateOrder(info) ==> out.sends == desk::routed(
                w.orders.orders,
                v.orders.order_update(info@, now).1,
            )
            &&& ev matches Event::Exec(resp) ==> out.sends == desk::routed(
                w.orders.orders,
                v.orders.respond(resp@).1,
            )
            &&& ev matches Event::GateOpenOrders(list) ==> out.sends == desk::leak_cancels(
                v.orders.adopt(model::info_views(list@), now).1,
                w.orders.prefix,
                now_ms,
            )
            &&& !(ev is GateOrder || ev is Exec || ev is GateOpenOrders || ev is GateUserTrade)
                ==> w.orders == v.orders
            &&& !(ev is GateUserTrade || ev is GatePositions) ==> w.inventory == v.inventory
            &&& !(ev is GateBookSnapshot || ev is GateBookDelta || ev is FeedStatus) ==> w.book
                == v.book
            &&& !(ev is Shutdown) ==> w.reduce == v.reduce
            &&& !(ev is GateBbo) ==> w.gate == v.gate
            &&& w.rules == v.rules
        }),
{
}

/// Nothing is quoted while shutting down; otherwise the quotes are those of the
/// context, bids from the outer prices of the buy side and asks from those of the
/// sell side.
pub proof fn a_shutdown_quotes_nothing(
    v: EngineView,
    ctx: QuoteContext,
    buy_outer: Seq<Ticks>,
    sell_outer: Seq<Ticks>,
)
    ensures
        v.flags.shutting_down ==> v.planned(ctx, buy_outer, sell_outer).len() == 0,
        !v.flags.shutting_down ==> v.planned(ctx, buy_outer, sell_outer) == ctx.quotes(
            buy_outer,
            sell_outer,
        ),
{
}

/// A requote carries a pass over our orders out: every command goes out in the order
/// of the pass, the counts are those of the pass, and only our orders change.
pub proof fn a_requote_carries_the_pass_out(
    v: EngineView,
    quotes: Seq<Quote>,
    bounds: SideBounds,
    grown: Seq<u64>,
    now: Instant,
    now_ms: i64,
    i: int,
)
    ensures
        ({
            let (w, r) = v.requoted(quotes, bounds, grown, now, now_ms);
            let (m, rep) = reconcile::reconciled(
                v.orders,
                quotes,
                v.reconcile_rules(bounds, grown),
                now,
                now_ms,
            );
            &&& w == EngineView { orders: m, ..v }
            &&& r.sends.len() == rep.commands.len()
            &&& 0 <= i < rep.commands.len() ==> r.sends[i].cmd == rep.commands[i]
            &&& r.dangerous == rep.dangerous && r.repriced == rep.repriced
            &&& r.resized == rep.resized && r.placed == rep.placed
            &&& r.cancelled == rep.cancelled && r.kept == rep.kept
        }),
{
}

/// Exits are remembered for as long as our orders know them.
pub proof fn exits_are_kept_while_known(
    exits: Seq<ExitOrder>,
    e: ExitOrder,
    orders: Seq<OrderView>,
)
    ensures
        desk::still_known(seq![], orders).len() == 0,
        ({
            let was = desk::still_known(exits, orders);
            let now = desk::still_known(exits.push(e), orders);
            let there = exists|i: int| 0 <= i < orders.len() && (#[trigger] orders[i]).id == e.id;
            &&& there ==> now == was.push(e)
            &&& !there ==> now == was
        }),
{
    assert(exits.push(e).drop_last() =~= exits);
}

} // verus!
