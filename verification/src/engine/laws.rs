//! What holds of the engine in every state and over every cycle.

use vstd::prelude::*;

use crate::engine::cycle;
use crate::engine::cycle::{CycleFacts, MarketFacts, QuoteFacts, Step};
use crate::engine::desk;
use crate::engine::desk::EngineView;
use crate::engine::events::{Event, Feed};
use crate::exchange::gate_trade::TradeView;
use crate::market::book::BookStatus;
use crate::order::laws;
use crate::order::lifecycle;
use crate::order::model::{CommandView, OrderView, UserTrade};
use crate::strategy::inventory::Positions;
use crate::strategy::quote::Quote;
use crate::strategy::reduce::{Phase, ReduceAction};
use crate::strategy::risk;
use crate::strategy::risk::TrustView;
use crate::time;
use crate::time::Instant;
use crate::types::{Purpose, Side, Ticks};

verus! {

/// What the limits and the signals leave as it is.
proof fn lemma_stages(s: Step, f: CycleFacts, adds: int, now: Instant)
    ensures
        same_ground(s, s.limits(f, adds, now)),
        same_ground(s, s.signals(f, now)),
{
    reveal(Step::limits);
    reveal(Step::signals);
}

/// Orders, market and position are the same, nothing more was sent, and the
/// counters of the reduction did not grow.
spec fn same_ground(s: Step, t: Step) -> bool {
    &&& t.v.orders == s.v.orders
    &&& t.v.exits == s.v.exits
    &&& t.v.rules == s.v.rules
    &&& t.v.inventory.pos == s.v.inventory.pos
    &&& t.v.flags.halted == s.v.flags.halted
    &&& t.d.quote == s.d.quote
    &&& t.d.sends == s.d.sends
    &&& s.v.reduce.attempts < u32::MAX ==> t.v.reduce.attempts < u32::MAX
}

/// A step of the active reduction asks for no quotes and undoes no halt.
proof fn lemma_reduce_step(s: Step, f: CycleFacts, now: Instant, now_ms: i64)
    ensures
        s.reduce_step(f, now, now_ms).d.quote == s.d.quote,
        s.v.flags.halted ==> s.reduce_step(f, now, now_ms).v.flags.halted,
{
    reveal(Step::reduce_step);
}

/// Quotes follow a cycle only with a fair price from a fresh reference, with a
/// market that can be trusted, while the strategy has not halted, and with no
/// active reduction under way.
pub proof fn quoting_needs_a_trusted_market(
    v: EngineView,
    trust: TrustView,
    f: CycleFacts,
    now: Instant,
    now_ms: i64,
)
    requires
        Step::decided(v, trust, f, now, now_ms).d.quote,
    ensures
        f.priced,
        trust.reference_ok,
        trust.resting(),
        !v.flags.halted,
        !Step::decided(v, trust, f, now, now_ms).v.reduce.active(),
{
    lemma_decided_quote(v, trust, f, now, now_ms);
}

/// The one way that leads to quotes.
proof fn lemma_decided_quote(
    v: EngineView,
    trust: TrustView,
    f: CycleFacts,
    now: Instant,
    now_ms: i64,
)
    ensures
        v.flags.halted ==> Step::decided(v, trust, f, now, now_ms).v.flags.halted,
        Step::decided(v, trust, f, now, now_ms).d.quote ==> {
            let u = Step::start(v).ticked(f, now).limits(
                f,
                cycle::pending_adds(v.orders),
                now,
            ).signals(f, now);
            &&& f.priced
            &&& trust.reference_ok
            &&& !v.flags.halted
            &&& trust.resting()
            &&& !u.v.reduce.active()
            &&& u.v.orders == v.orders
            &&& Step::decided(v, trust, f, now, now_ms) == u.concluded(trust, f, now, now_ms)
        },
{
    let s = Step::start(v);
    let t = s.ticked(f, now);
    let l = t.limits(f, cycle::pending_adds(v.orders), now);
    let u = l.signals(f, now);
    lemma_stages(t, f, cycle::pending_adds(v.orders), now);
    lemma_stages(l, f, cycle::pending_adds(v.orders), now);
    let c = u.stop_resting(now);
    let w = c.trigger_if(
        true,
        crate::strategy::reduce::ReduceReason::Untrusted,
        f.band_contracts,
        false,
        now,
    );
    lemma_reduce_step(t.stop_resting(now), f, now, now_ms);
    lemma_reduce_step(u, f, now, now_ms);
    lemma_reduce_step(w, f, now, now_ms);
    lemma_reduce_step(s.stop_resting(now).ticked(f, now), f, now, now_ms);
}

/// A command that cannot add risk: a cancel, or a reduce-only exit.
pub open spec fn sheds_risk(c: CommandView) -> bool {
    match c {
        CommandView::Cancel { .. } => true,
        CommandView::CancelAll { .. } => true,
        CommandView::Place { reduce_only, .. } => reduce_only,
        _ => false,
    }
}

/// All commands shed risk.
pub open spec fn all_shed(sends: Seq<TradeView>) -> bool {
    forall|i: int| 0 <= i < sends.len() ==> sheds_risk((#[trigger] sends[i]).cmd)
}

proof fn lemma_shed_resting(s: Step, now: Instant)
    requires
        all_shed(s.d.sends),
    ensures
        all_shed(s.stop_resting(now).d.sends),
        all_shed(s.stop_adds(now).d.sends),
{
    let exits = s.v.exits;
    let p = |o: OrderView| !desk::is_exit(exits, o.id);
    laws::cancels_are_cancels(
        s.v.orders,
        lifecycle::select(s.v.orders.orders, |o: OrderView| o.active() && p(o)),
        now,
    );
    let q = |o: OrderView| o.purpose == Purpose::Open;
    laws::cancels_are_cancels(
        s.v.orders,
        lifecycle::select(s.v.orders.orders, |o: OrderView| o.active() && q(o)),
        now,
    );
}

proof fn lemma_shed_reduce(s: Step, f: CycleFacts, now: Instant, now_ms: i64)
    requires
        all_shed(s.d.sends),
    ensures
        all_shed(s.reduce_step(f, now, now_ms).d.sends),
{
    reveal(Step::reduce_step);
    let (reduce, action) = s.v.reduce.stepped(s.v.reduce_inputs(f, now));
    let t = Step { v: EngineView { reduce, ..s.v }, ..s };
    lemma_shed_resting(t, now);
    let h = Step {
        v: EngineView { flags: desk::Flags { halted: true, ..t.v.flags }, ..t.v },
        ..t
    };
    lemma_shed_resting(h, now);
}

/// Before the quotes, a cycle sends nothing that adds risk: only cancels, and
/// exits that can only reduce the position.
pub proof fn decisions_never_add_risk(
    v: EngineView,
    trust: TrustView,
    f: CycleFacts,
    now: Instant,
    now_ms: i64,
)
    ensures
        all_shed(Step::decided(v, trust, f, now, now_ms).d.sends),
{
    let s = Step::start(v);
    if f.priced && trust.reference_ok {
        let t = s.ticked(f, now);
        if t.v.flags.halted {
            lemma_shed_resting(t, now);
            lemma_shed_reduce(t.stop_resting(now), f, now, now_ms);
        } else {
            let l = t.limits(f, cycle::pending_adds(v.orders), now);
            let u = l.signals(f, now);
            lemma_stages(t, f, cycle::pending_adds(v.orders), now);
            lemma_stages(l, f, cycle::pending_adds(v.orders), now);
            lemma_shed_resting(u, now);
            lemma_shed_reduce(u, f, now, now_ms);
            let c = u.stop_resting(now).trigger_if(
                true,
                crate::strategy::reduce::ReduceReason::Untrusted,
                f.band_contracts,
                false,
                now,
            );
            lemma_shed_resting(c, now);
            lemma_shed_reduce(c, f, now, now_ms);
        }
    } else {
        lemma_shed_resting(s, now);
        let t = s.stop_resting(now).ticked(f, now);
        lemma_shed_reduce(t, f, now, now_ms);
    }
}

/// A halt is final: no event, timer tick, cycle or requote undoes it.
pub proof fn halts_are_final<R>(
    v: EngineView,
    ev: Event<R>,
    trust: TrustView,
    f: CycleFacts,
    now: Instant,
    now_ms: i64,
)
    requires
        v.flags.halted,
    ensures
        v.applied(ev, now, now_ms).0.flags.halted,
        v.timed(now, now_ms).0.flags.halted,
        Step::decided(v, trust, f, now, now_ms).v.flags.halted,
        !Step::decided(v, trust, f, now, now_ms).d.quote,
{
    lemma_decided_quote(v, trust, f, now, now_ms);
}

/// Every order is an exit or on its way out.
pub open spec fn only_exits_stay(v: EngineView) -> bool {
    forall|k: u64| #[trigger]
        lifecycle::known(v.orders.orders, k) ==> laws::leaving(v.orders.at(k)) || desk::is_exit(
            v.exits,
            k,
        )
}

/// A selection names every order that satisfies the predicate.
proof fn lemma_select_complete(orders: Seq<OrderView>, p: spec_fn(OrderView) -> bool, i: int)
    requires
        0 <= i < orders.len(),
        p(orders[i]),
    ensures
        lifecycle::select(orders, p).contains(orders[i].id),
    decreases orders.len(),
{
    let ids = lifecycle::select(orders, p);
    if i == orders.len() - 1 {
        assert(ids.last() == orders[i].id);
        assert(ids[ids.len() - 1] == orders[i].id);
    } else {
        let init = orders.drop_last();
        assert(init[i] == orders[i]);
        lemma_select_complete(init, p, i);
        let head = lifecycle::select(init, p);
        let j = head.index_of(orders[i].id);
        assert(head[j] == orders[i].id);
        assert(ids[j] == orders[i].id);
    }
}

proof fn lemma_cancelled_leave(v: EngineView, p: spec_fn(OrderView) -> bool, now: Instant)
    requires
        v.orders.wf(),
        v.orders.next_req + v.orders.orders.len() <= u64::MAX,
    ensures
        ({
            let q = |o: OrderView| o.active() && p(o);
            let m = v.orders.cancel_all(lifecycle::select(v.orders.orders, q), now).0;
            &&& m.wf()
            &&& laws::evolves(v.orders, m)
            &&& forall|k: u64| #[trigger]
                lifecycle::known(m.orders, k) ==> lifecycle::known(v.orders.orders, k)
            &&& forall|k: u64| #[trigger]
                lifecycle::known(v.orders.orders, k) && p(v.orders.at(k)) ==> laws::leaving(
                    m.at(k),
                )
            &&& m.next_req <= v.orders.next_req + v.orders.orders.len()
            &&& m.next_id == v.orders.next_id
            &&& m.orders.len() == v.orders.orders.len()
        }),
{
    let q = |o: OrderView| o.active() && p(o);
    let ids = lifecycle::select(v.orders.orders, q);
    lifecycle::lemma_select_len(v.orders.orders, q);
    lifecycle::lemma_select(v.orders.orders, q);
    lifecycle::lemma_cancel_all(v.orders, ids, now);
    laws::cancelled_orders_leave(v.orders, ids, now);
    let m = v.orders.cancel_all(ids, now).0;
    lemma_cancel_all_known(v.orders, ids, now);
    assert forall|k: u64| #[trigger]
        lifecycle::known(v.orders.orders, k) && p(v.orders.at(k)) implies laws::leaving(m.at(k)) by {
        let i = lifecycle::pos(v.orders.orders, k);
        assert(v.orders.orders[i].id == k);
        if q(v.orders.orders[i]) {
            lemma_select_complete(v.orders.orders, q, i);
            let j = ids.index_of(k);
            assert(ids[j] == k);
        } else {
            assert(v.orders.at(k).state.terminal());
            assert(laws::succeeds(v.orders.at(k), m.at(k)));
        }
    }
}

/// Cancels add no orders.
proof fn lemma_cancel_all_known(v: lifecycle::ManagerView, ids: Seq<u64>, now: Instant)
    requires
        v.wf(),
        v.next_req + ids.len() <= u64::MAX,
        forall|j: int| 0 <= j < ids.len() ==> lifecycle::known(v.orders, #[trigger] ids[j]),
    ensures
        forall|k: u64| #[trigger]
            lifecycle::known(v.cancel_all(ids, now).0.orders, k) ==> lifecycle::known(v.orders, k),
    decreases ids.len(),
{
    if ids.len() > 0 {
        let init = ids.drop_last();
        assert forall|j: int| 0 <= j < init.len() implies lifecycle::known(
            v.orders,
            #[trigger] init[j],
        ) by {
            assert(lifecycle::known(v.orders, ids[j]));
        }
        lemma_cancel_all_known(v, init, now);
        lifecycle::lemma_cancel_all(v, init, now);
        let s = v.cancel_all(init, now).0;
        let t = v.cancel_all(ids, now).0;
        let id = ids.last();
        assert forall|k: u64| #[trigger] lifecycle::known(t.orders, k) implies lifecycle::known(
            v.orders,
            k,
        ) by {
            let i = lifecycle::pos(t.orders, k);
            assert(t.orders[i].id == k);
            if lifecycle::known(s.orders, id) {
                let p = lifecycle::pos(s.orders, id);
                assert(s.orders[p].id == id);
                assert(t.orders[i].id == s.orders[i].id);
            }
            assert(s.orders[i].id == k);
            assert(lifecycle::known(s.orders, k));
        }
    }
}

proof fn lemma_resting_leave(s: Step, now: Instant)
    requires
        s.v.orders.wf(),
        s.v.orders.next_req + s.v.orders.orders.len() <= u64::MAX,
    ensures
        ({
            let t = s.stop_resting(now);
            &&& only_exits_stay(t.v)
            &&& t.v.orders.wf()
            &&& t.v.orders.next_req <= s.v.orders.next_req + s.v.orders.orders.len()
            &&& t.v.orders.next_id == s.v.orders.next_id
            &&& t.v.orders.orders.len() == s.v.orders.orders.len()
        }),
{
    let exits = s.v.exits;
    let p = |o: OrderView| !desk::is_exit(exits, o.id);
    lemma_cancelled_leave(s.v, p, now);
    let t = s.stop_resting(now);
    assert forall|k: u64| #[trigger] lifecycle::known(t.v.orders.orders, k) implies laws::leaving(
        t.v.orders.at(k),
    ) || desk::is_exit(t.v.exits, k) by {
        assert(lifecycle::known(s.v.orders.orders, k));
        let i = lifecycle::pos(s.v.orders.orders, k);
        assert(s.v.orders.orders[i].id == k);
        assert(s.v.orders.at(k).id == k);
    }
}

proof fn lemma_reduce_keeps_exits_only(s: Step, f: CycleFacts, now: Instant, now_ms: i64)
    requires
        only_exits_stay(s.v),
        s.v.orders.wf(),
        s.v.inventory.pos.wf(),
        s.v.rules.wf(),
        s.v.reduce.attempts < u32::MAX,
        s.v.orders.room((s.v.orders.orders.len() + 1) as int),
    ensures
        only_exits_stay(s.reduce_step(f, now, now_ms).v),
{
    reveal(Step::reduce_step);
    let (reduce, action) = s.v.reduce.stepped(s.v.reduce_inputs(f, now));
    let t = Step { v: EngineView { reduce, ..s.v }, ..s };
    match action {
        ReduceAction::CancelConflicts => {
            lemma_resting_leave(t, now);
        },
        ReduceAction::Halt => {
            let h = Step {
                v: EngineView { flags: desk::Flags { halted: true, ..t.v.flags }, ..t.v },
                ..t
            };
            lemma_resting_leave(h, now);
        },
        ReduceAction::SendIoc { side, size, price } => {
            lemma_exit_only_adds(t.v, side, size, Some(price), now, now_ms);
        },
        ReduceAction::SendMarket { side, size } => {
            lemma_exit_only_adds(t.v, side, size, None, now, now_ms);
        },
        _ => {},
    }
}

proof fn lemma_exit_only_adds(
    v: EngineView,
    side: Side,
    size: i64,
    price: Option<Ticks>,
    now: Instant,
    now_ms: i64,
)
    requires
        only_exits_stay(v),
        v.orders.wf(),
        v.orders.room(1),
    ensures
        only_exits_stay(v.exit_sent(side, size, price, now, now_ms).0),
{
    let w = v.exit_sent(side, size, price, now, now_ms).0;
    let id = v.orders.next_id;
    let n = v.exits.len();
    assert(w.exits[n as int].id == id);
    assert(lifecycle::ascending(w.orders.orders)) by {
        assert forall|i: int, j: int| 0 <= i < j < w.orders.orders.len() implies (
        #[trigger] w.orders.orders[i]).id < (#[trigger] w.orders.orders[j]).id by {
            if j < v.orders.orders.len() {
                assert(v.orders.orders[i].id < v.orders.orders[j].id);
            } else {
                assert(v.orders.orders[i].id < v.orders.next_id);
            }
        }
    }
    assert forall|k: u64| #[trigger] lifecycle::known(w.orders.orders, k) implies laws::leaving(
        w.orders.at(k),
    ) || desk::is_exit(w.exits, k) by {
        let i = lifecycle::pos(w.orders.orders, k);
        assert(w.orders.orders[i].id == k);
        if i < v.orders.orders.len() {
            assert(v.orders.orders[i] == w.orders.orders[i]);
            lifecycle::lemma_pos(v.orders.orders, i);
            lifecycle::lemma_pos(w.orders.orders, i);
            assert(lifecycle::known(v.orders.orders, k));
            if desk::is_exit(v.exits, k) {
                let e = choose|e: int| 0 <= e < v.exits.len() && (#[trigger] v.exits[e]).id == k;
                assert(w.exits[e].id == k);
            }
        }
    }
}

/// Nothing rests without trust: in a cycle without a fair price, after a halt,
/// or with an untrusted market, every order that is not an exit is on its way
/// out.
pub proof fn nothing_rests_without_trust(
    v: EngineView,
    trust: TrustView,
    f: CycleFacts,
    now: Instant,
    now_ms: i64,
)
    requires
        v.orders.wf(),
        v.inventory.pos.wf(),
        v.rules.wf(),
        v.orders.room((2 * v.orders.orders.len() + 1) as int),
        v.reduce.attempts < u32::MAX,
        !f.priced || !trust.reference_ok || v.flags.halted || !trust.resting(),
    ensures
        only_exits_stay(Step::decided(v, trust, f, now, now_ms).v),
{
    let s = Step::start(v);
    if f.priced && trust.reference_ok {
        let t = s.ticked(f, now);
        if t.v.flags.halted {
            lemma_resting_leave(t, now);
            lemma_reduce_keeps_exits_only(t.stop_resting(now), f, now, now_ms);
        } else {
            let l = t.limits(f, cycle::pending_adds(v.orders), now);
            let u = l.signals(f, now);
            lemma_stages(t, f, cycle::pending_adds(v.orders), now);
            lemma_stages(l, f, cycle::pending_adds(v.orders), now);
            lemma_resting_leave(u, now);
            let c = u.stop_resting(now).trigger_if(
                true,
                crate::strategy::reduce::ReduceReason::Untrusted,
                f.band_contracts,
                false,
                now,
            );
            assert(only_exits_stay(c.v)) by {
                assert(c.v.orders == u.stop_resting(now).v.orders);
                assert forall|k: u64| #[trigger]
                    lifecycle::known(c.v.orders.orders, k) implies laws::leaving(
                    c.v.orders.at(k),
                ) || desk::is_exit(c.v.exits, k) by {
                    assert(lifecycle::known(u.stop_resting(now).v.orders.orders, k));
                }
            }
            lemma_reduce_keeps_exits_only(c, f, now, now_ms);
        }
    } else {
        lemma_resting_leave(s, now);
        let c = s.stop_resting(now);
        let t = c.ticked(f, now);
        assert(only_exits_stay(t.v)) by {
            assert forall|k: u64| #[trigger]
                lifecycle::known(t.v.orders.orders, k) implies laws::leaving(t.v.orders.at(k))
                || desk::is_exit(t.v.exits, k) by {
                assert(lifecycle::known(c.v.orders.orders, k));
            }
        }
        lemma_reduce_keeps_exits_only(t, f, now, now_ms);
    }
}

/// While the reference is out, whatever price its last quote would still give, a
/// reduction starts only once the position has been outside the band for too
/// long, and only with a book that can be swept and a private stream.
pub proof fn an_outage_waits_for_the_band_timer(
    v: EngineView,
    trust: TrustView,
    f: CycleFacts,
    now: Instant,
    now_ms: i64,
)
    requires
        !trust.reference_ok,
        !v.reduce.active(),
    ensures
        ({
            let s = Step::decided(v, trust, f, now, now_ms);
            s.d.started || s.v.reduce.active() ==> {
                &&& !f.in_band
                &&& s.v.inventory.timed_out(now)
                &&& v.book.status == BookStatus::Synced
                &&& v.private_up()
                &&& v.gate is Some
            }
        }),
{
}

/// A feed that is down and a quote that is too old both put the reference out.
pub proof fn a_silent_reference_is_out(v: EngineView, m: MarketFacts, now: Instant)
    ensures
        !v.feeds.connected(Feed::Binance) || risk::stale(
            m.binance_age,
            v.rules.risk.binance_stale_ms as int,
        ) ==> !v.assessed(m, now).1.reference_ok,
{
}

/// Once nothing is working and the flattening that a shutdown asked for is over,
/// done or halted, the next timer tick finishes.
pub proof fn a_finished_flattening_ends_the_shutdown(v: EngineView, now: Instant, now_ms: i64)
    requires
        v.flags.shutting_down,
        lifecycle::active_orders(v.timed(now, now_ms).0.orders.orders).len() == 0,
        v.reduce.phase == Phase::Halted || (!v.reduce.active() && (v.inventory.pos
            == Positions::flat() || !v.reduce.cfg.liquidate_on_shutdown)),
    ensures
        v.timed(now, now_ms).0.flags.finished,
        v.timed(now, now_ms).1.ended,
{
}

/// Where new risk is not allowed, quotes are computed only after every order
/// that adds risk is on its way out.
pub proof fn denied_risk_withdraws_the_adds(
    v: EngineView,
    trust: TrustView,
    f: CycleFacts,
    now: Instant,
    now_ms: i64,
)
    requires
        v.orders.wf(),
        v.orders.next_req + v.orders.orders.len() <= u64::MAX,
        Step::decided(v, trust, f, now, now_ms).d.quote,
        !trust.new_risk(),
    ensures
        forall|k: u64| #[trigger]
            lifecycle::known(v.orders.orders, k) && v.orders.at(k).purpose == Purpose::Open
                ==> laws::leaving(Step::decided(v, trust, f, now, now_ms).v.orders.at(k)),
{
    lemma_decided_quote(v, trust, f, now, now_ms);
    let u = Step::start(v).ticked(f, now).limits(f, cycle::pending_adds(v.orders), now).signals(
        f,
        now,
    );
    let p = |o: OrderView| o.purpose == Purpose::Open;
    lemma_cancelled_leave(u.v, p, now);
}

/// While shutting down nothing new is quoted, and no new risk is allowed.
pub proof fn a_shutdown_quotes_nothing(
    v: EngineView,
    f: QuoteFacts,
    trusted: bool,
    buy_outer: Seq<Ticks>,
    sell_outer: Seq<Ticks>,
)
    requires
        v.flags.shutting_down,
    ensures
        !v.quote_context(f, trusted).allow_new_risk,
        v.planned(v.quote_context(f, trusted), buy_outer, sell_outer).len() == 0,
{
}

/// A trade that comes in twice moves the position once.
pub proof fn a_trade_moves_the_position_once<R>(v: EngineView, t: UserTrade<R>)
    requires
        v.orders.wf(),
    ensures
        v.user_trade(t).user_trade(t) == v.user_trade(t),
{
    if !v.orders.seen.contains(t.trade_id@) {
        laws::a_trade_counts_once(v.orders, t.trade_id@, t.trade_id@);
        assert(v.user_trade(t).orders.seen.contains(t.trade_id@));
    }
}

/// The position of the exchange is taken over only while nothing of ours is in
/// flight, and only after the mismatch outlasted the grace period.
pub proof fn positions_are_adopted_late(v: EngineView, p: Positions, now: Instant)
    requires
        v.exchange_positions(p, now).1,
    ensures
        desk::quiet(v.orders.orders),
        v.reconciler.mismatch_since is Some || v.rules.risk.position_mismatch_ms == 0,
        v.reconciler.mismatch_since matches Some(since) ==> time::reached(
            since,
            now,
            v.rules.risk.position_mismatch_ms,
        ),
        v.exchange_positions(p, now).0.inventory.pos == p,
{
}

/// Clipping only ever shrinks: no quote is added, and where the margin is known
/// no risk-adding quote exceeds what it affords and none is below the least
/// order size.
pub proof fn clipping_only_shrinks(v: EngineView, quotes: Seq<Quote>, limits: Option<Seq<i64>>)
    requires
        limits matches Some(l) ==> l.len() == quotes.len(),
    ensures
        v.clipped(quotes, limits).len() <= quotes.len(),
        v.clipped(quotes, limits).len() <= cycle::order_allowance(v.rules.orders_limit),
        limits is Some ==> forall|i: int|
            0 <= i < v.clipped(quotes, limits).len() ==> (#[trigger] v.clipped(
                quotes,
                limits,
            )[i]).size >= v.rules.order_size_min,
{
    if let Some(l) = limits {
        lemma_sizable(cycle::afforded(quotes, l), v.rules.order_size_min);
    }
}

proof fn lemma_sizable(quotes: Seq<Quote>, min: i64)
    ensures
        cycle::sizable(quotes, min).len() <= quotes.len(),
        forall|i: int|
            0 <= i < cycle::sizable(quotes, min).len() ==> (#[trigger] cycle::sizable(
                quotes,
                min,
            )[i]).size >= min,
    decreases quotes.len(),
{
    if quotes.len() > 0 {
        lemma_sizable(quotes.drop_last(), min);
    }
}

} // verus!
