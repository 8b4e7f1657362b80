//! What a cycle comes to, by the limits, the signals and the state it meets.

use vstd::prelude::*;

use crate::engine::cycle;
use crate::engine::cycle::{CycleFacts, DecisionView, Digestion, Step};
use crate::engine::desk;
use crate::engine::desk::{EngineView, ExitOrder, Flags};
use crate::exchange::gate_trade::TradeView;
use crate::market::basis::BasisStatus;
use crate::market::book::BookStatus;
use crate::order::lifecycle;
use crate::order::lifecycle::ManagerView;
use crate::order::model::{CommandView, OrderView, Tif};
use crate::strategy::inventory;
use crate::strategy::inventory::Positions;
use crate::strategy::protection;
use crate::strategy::protection::Level;
use crate::strategy::reduce::{ActiveReduce, Phase, ReduceAction, ReduceReason};
use crate::strategy::reduce_laws;
use crate::strategy::risk::TrustView;
use crate::time;
use crate::time::Instant;
use crate::types::{Side, Ticks};

verus! {

/// The reduction has halted, or liquidates everything for a fatal reason.
pub open spec fn liquidating(m: ActiveReduce) -> bool {
    m.phase == Phase::Halted || (m.phase != Phase::Idle && (m.reason == Some(ReduceReason::HardCap)
        || m.reason == Some(ReduceReason::LossLimit) || m.reason == Some(ReduceReason::Shutdown))
        && m.target_abs <= 0)
}

/// Gate's private stream is up, or the exchange is simulated.
pub open spec fn hears_fills(v: EngineView) -> bool {
    v.rules.paper || (v.feeds.gate_private matches Some(s) && s.connected)
}

/// A strong move runs into the asks, or into the bids.
pub open spec fn strong_up(v: EngineView, f: CycleFacts) -> bool {
    (f.rising && f.velocity == Level::Strong) || (f.impact == Some(Side::Sell)
        && v.protection.cfg.impact_is_strong)
}

pub open spec fn strong_down(v: EngineView, f: CycleFacts) -> bool {
    (!f.rising && f.velocity == Level::Strong) || (f.impact == Some(Side::Buy)
        && v.protection.cfg.impact_is_strong)
}

/// The market moves strongly against the net position.
pub open spec fn runs_against(v: EngineView, f: CycleFacts) -> bool {
    let p = v.inventory.pos;
    (strong_up(v, f) && p.short > p.long) || (strong_down(v, f) && !strong_up(v, f) && p.long
        > p.short)
}

/// The inventory has been outside the band for the timeout.
pub open spec fn band_is_over(v: EngineView, f: CycleFacts, now: Instant) -> bool {
    !f.in_band && (match v.inventory.band_since {
        Some(t) => time::reached(t, now, v.inventory.cfg.band_timeout_ms),
        None => v.inventory.cfg.band_timeout_ms == 0,
    })
}

/// Outside the band, something asks to reduce back to it.
pub open spec fn asks_to_reduce(v: EngineView, f: CycleFacts, now: Instant) -> bool {
    let p = v.inventory.pos;
    band_is_over(v, f, now) || (!f.in_band && runs_against(v, f)) || (!f.in_band && f.basis
        == BasisStatus::Abnormal && (p.long != 0 || p.short != 0))
}

/// An active reduction has taken the cycle over: no quotes, and the net position
/// goes to `band` contracts or is there already.
pub open spec fn taken_over(v: EngineView, s: Step, band: i64) -> bool {
    let edge = if band >= 0 {
        band as int
    } else {
        0
    };
    let p = v.inventory.pos;
    &&& !s.d.quote
    &&& v.reduce.phase == Phase::Idle ==> s.d.started
    &&& v.reduce.phase != Phase::Halted ==> (s.v.reduce.phase != Phase::Idle
        ==> s.v.reduce.target_abs <= edge) && (s.v.reduce.phase == Phase::Idle ==> p.long - p.short
        <= edge && p.short - p.long <= edge)
}

/// A step of the reduction, by what the machine says.
proof fn lemma_step(s: Step, f: CycleFacts, now: Instant, now_ms: i64)
    requires
        0 <= s.v.inventory.pos.long,
        0 <= s.v.inventory.pos.short,
    ensures
        ({
            let t = s.reduce_step(f, now, now_ms);
            let m = s.v.reduce;
            &&& t.d.quote == s.d.quote
            &&& t.d.started == s.d.started
            &&& t.d.digestion == s.d.digestion
            &&& t.v.inventory == s.v.inventory
            &&& m.phase == Phase::Halted ==> t.v.reduce.phase == Phase::Halted
            &&& m.phase != Phase::Idle ==> (t.v.reduce.phase == Phase::Idle
                ==> !reduce_laws::stops_for_good(m) && !reduce_laws::over_target(
                m,
                s.v.inventory.pos,
            ))
            &&& t.v.reduce.phase != Phase::Idle ==> t.v.reduce.reason == m.reason
                && t.v.reduce.target_abs == m.target_abs
        }),
{
    reveal(Step::reduce_step);
    let inp = s.v.reduce_inputs(f, now);
    if s.v.reduce.phase != Phase::Idle && s.v.reduce.phase != Phase::Halted {
        reduce_laws::an_episode_ends_at_its_target(s.v.reduce, inp);
    }
}

/// A cycle whose reduction is active before its last stage ends taken over.
proof fn lemma_concluded(s: Step, trust: TrustView, f: CycleFacts, now: Instant, now_ms: i64)
    requires
        0 <= s.v.inventory.pos.long,
        0 <= s.v.inventory.pos.short,
        s.v.reduce.phase != Phase::Idle,
        !s.d.quote,
    ensures
        ({
            let t = s.concluded(trust, f, now, now_ms);
            &&& !t.d.quote
            &&& t.d.started == s.d.started
            &&& t.d.digestion == s.d.digestion
            &&& t.v.inventory == s.v.inventory
            &&& liquidating(s.v.reduce) ==> liquidating(t.v.reduce)
            &&& t.v.reduce.phase != Phase::Idle ==> t.v.reduce.target_abs == s.v.reduce.target_abs
            &&& t.v.reduce.phase == Phase::Idle ==> !reduce_laws::over_target(
                s.v.reduce,
                s.v.inventory.pos,
            )
        }),
{
    lemma_step(s, f, now, now_ms);
}

/// The state of a priced cycle after the limits and the signals.
spec fn judged(v: EngineView, f: CycleFacts, now: Instant) -> Step {
    Step::start(v).ticked(f, now).limits(f, cycle::pending_adds(v.orders), now).signals(f, now)
}

/// What the triggers of a stage never touch.
spec fn keeps_ground(s: Step, t: Step) -> bool {
    &&& t.v.inventory.pos == s.v.inventory.pos
    &&& t.v.book == s.v.book
    &&& t.v.gate == s.v.gate
    &&& t.v.rules == s.v.rules
    &&& t.v.feeds == s.v.feeds
    &&& t.v.orders == s.v.orders
    &&& t.v.exits == s.v.exits
    &&& t.v.flags.halted == s.v.flags.halted
    &&& t.d.quote == s.d.quote
    &&& t.d.sends == s.d.sends
    &&& t.d.snapshot == s.d.snapshot
}

/// What a stage makes of the reduction: `hit` asks for a liquidation, `asked` for
/// a reduction to `edge`.
spec fn presses(s: Step, t: Step, hit: bool, asked: bool, edge: int) -> bool {
    let m = s.v.reduce;
    let n = t.v.reduce;
    &&& m.phase == Phase::Halted ==> n == m
    &&& m.phase != Phase::Idle ==> n.phase == m.phase && t.d.started == s.d.started && (n.target_abs
        <= m.target_abs || n.target_abs <= 0)
    &&& liquidating(m) || hit ==> liquidating(n)
    &&& asked && m.phase != Phase::Halted ==> n.phase != Phase::Idle && n.target_abs <= edge
    &&& (hit || asked) && m.phase == Phase::Idle ==> t.d.started && n.phase == Phase::Cancelling
    &&& !hit && !asked ==> n == m && t.d.started == s.d.started
    &&& !hit && asked && m.phase == Phase::Idle ==> t.v.flags.used_reduce
    &&& m.phase != Phase::Idle || (!hit && !asked) ==> t.v.flags.used_reduce
        == s.v.flags.used_reduce || t.d.digestion is Some
    &&& s.d.started ==> t.d.started
}

spec fn edge_of(f: CycleFacts) -> int {
    if f.band_contracts >= 0 {
        f.band_contracts as int
    } else {
        0
    }
}

proof fn lemma_trigger(
    s: Step,
    cond: bool,
    reason: ReduceReason,
    target: i64,
    marks: bool,
    now: Instant,
)
    ensures
        ({
            let t = s.trigger_if(cond, reason, target, marks, now);
            let fatal = reason == ReduceReason::HardCap || reason == ReduceReason::LossLimit
                || reason == ReduceReason::Shutdown;
            let edge = if target >= 0 {
                target as int
            } else {
                0
            };
            &&& keeps_ground(s, t)
            &&& t.d.digestion == s.d.digestion
            &&& t.v.inventory == s.v.inventory
            &&& t.v.protection == s.v.protection
            &&& !cond ==> t == s
            &&& s.v.reduce.phase == Phase::Halted ==> t.v.reduce == s.v.reduce
            &&& s.v.reduce.phase != Phase::Idle ==> t.v.reduce.phase == s.v.reduce.phase
                && t.d.started == s.d.started && (t.v.reduce.target_abs <= s.v.reduce.target_abs
                || t.v.reduce.target_abs <= 0)
            &&& liquidating(s.v.reduce) ==> liquidating(t.v.reduce)
            &&& cond && fatal && target <= 0 ==> liquidating(t.v.reduce)
            &&& cond && s.v.reduce.phase != Phase::Halted ==> t.v.reduce.phase != Phase::Idle
                && t.v.reduce.target_abs <= edge
            &&& cond && s.v.reduce.phase == Phase::Idle ==> t.d.started && t.v.reduce.phase
                == Phase::Cancelling && t.v.flags.used_reduce == (s.v.flags.used_reduce || marks)
            &&& s.v.reduce.phase != Phase::Idle ==> t.v.flags.used_reduce == s.v.flags.used_reduce
            &&& s.d.started ==> t.d.started
        }),
{
    if s.v.reduce.phase != Phase::Halted {
        reduce_laws::triggers_start_and_tighten(s.v.reduce, reason, target, now);
    }
}

proof fn lemma_limits(s: Step, f: CycleFacts, adds: int, now: Instant)
    requires
        s.d.digestion is None,
    ensures
        ({
            let t = s.limits(f, adds, now);
            let over = !f.in_band && s.v.inventory.timed_out(now);
            let hit = f.cap_hit || f.loss_hit;
            let done = f.in_band && s.v.reduce.phase == Phase::Idle && adds == 0 && !hit;
            &&& keeps_ground(s, t)
            &&& presses(s, t, hit, over, edge_of(f))
            &&& t.v.protection == s.v.protection
            &&& done ==> (s.v.inventory.episode_start matches Some(start) ==> t.d.digestion == Some(
                Digestion { span: time::elapsed(start, now), used_reduce: s.v.flags.used_reduce },
            ) && t.v.inventory.episode_start is None)
            &&& !done || s.v.inventory.episode_start is None ==> t.d.digestion is None
                && t.v.inventory == s.v.inventory
        }),
{
    reveal(Step::limits);
    lemma_trigger(s, f.loss_hit, ReduceReason::LossLimit, 0, false, now);
    let a = s.trigger_if(f.loss_hit, ReduceReason::LossLimit, 0, false, now);
    lemma_trigger(a, f.cap_hit, ReduceReason::HardCap, 0, false, now);
    let b = a.trigger_if(f.cap_hit, ReduceReason::HardCap, 0, false, now);
    lemma_trigger(b, true, ReduceReason::BandTimeout, f.band_contracts, true, now);
}

proof fn lemma_signals(s: Step, f: CycleFacts, now: Instant)
    requires
        0 <= s.v.inventory.pos.long,
        0 <= s.v.inventory.pos.short,
    ensures
        ({
            let t = s.signals(f, now);
            let p = s.v.inventory.pos;
            let asked = !f.in_band && (runs_against(s.v, f) || (f.basis == BasisStatus::Abnormal && (
            p.long != 0 || p.short != 0)));
            &&& keeps_ground(s, t)
            &&& presses(s, t, false, asked, edge_of(f))
            &&& t.d.digestion == s.d.digestion
            &&& t.v.inventory == s.v.inventory
        }),
{
    reveal(Step::signals);
    protection::every_signal_takes_effect_on_its_side(
        s.v.protection,
        f.velocity,
        f.rising,
        f.impact,
        now,
    );
    protection::signals_endanger_the_side_they_run_into(
        s.v.protection,
        f.velocity,
        f.rising,
        f.impact,
    );
    let p = s.v.protection.updated(f.velocity, f.rising, f.impact, now);
    let pos = s.v.inventory.pos;
    let a = Step { v: EngineView { protection: p, ..s.v }, ..s };
    let against = !f.in_band && cycle::moves_against(pos, p.strong());
    assert(against == (!f.in_band && runs_against(s.v, f)));
    let abnormal = !f.in_band && f.basis == BasisStatus::Abnormal && !(pos == Positions::flat());
    let r1 = ReduceReason::StrongAgainstInventory;
    lemma_trigger(a, against, r1, f.band_contracts, true, now);
    let b = a.trigger_if(against, r1, f.band_contracts, true, now);
    lemma_trigger(b, abnormal, ReduceReason::BasisAbnormal, f.band_contracts, true, now);
}

/// What the limits and the signals make of the reduction.
proof fn lemma_judged(v: EngineView, f: CycleFacts, now: Instant)
    requires
        0 <= v.inventory.pos.long,
        0 <= v.inventory.pos.short,
    ensures
        ({
            let s = judged(v, f, now);
            let m = s.v.reduce;
            let hit = f.cap_hit || f.loss_hit;
            let asked = asks_to_reduce(v, f, now);
            let done = f.in_band && v.reduce.phase == Phase::Idle && cycle::pending_adds(v.orders)
                == 0 && !hit;
            &&& keeps_ground(Step::start(v), s)
            &&& v.reduce.phase == Phase::Halted ==> m == v.reduce
            &&& v.reduce.phase != Phase::Idle ==> m.phase == v.reduce.phase && !s.d.started
            &&& hit ==> liquidating(m)
            &&& asked && v.reduce.phase != Phase::Halted ==> m.phase != Phase::Idle && m.target_abs
                <= edge_of(f)
            &&& (hit || asked) && v.reduce.phase == Phase::Idle ==> s.d.started && m.phase
                == Phase::Cancelling
            &&& !hit && !asked ==> m == v.reduce && !s.d.started
            &&& !hit && asked && v.reduce.phase == Phase::Idle ==> s.v.flags.used_reduce
            &&& done ==> (v.inventory.episode_start matches Some(start) ==> s.d.digestion == Some(
                Digestion { span: time::elapsed(start, now), used_reduce: v.flags.used_reduce },
            ) && s.v.inventory.episode_start is None)
            &&& !done || v.inventory.episode_start is None ==> s.d.digestion is None
        }),
{
    let t = Step::start(v).ticked(f, now);
    let adds = cycle::pending_adds(v.orders);
    let l = t.limits(f, adds, now);
    lemma_limits(t, f, adds, now);
    lemma_signals(l, f, now);
    inventory::the_band_timer_starts_outside_and_runs_out(v.inventory, f.in_band, adds, now, now);
    inventory::band_timer_ends_only_inside_without_pending_adds(v.inventory, f.in_band, adds, now);
}

/// At the hard inventory cap and at the loss limit everything is liquidated and
/// the strategy stops: after the cycle the reduction is halted or works on a full
/// liquidation for a fatal reason, and nothing is quoted.
pub proof fn the_hard_limits_liquidate_and_stop(
    v: EngineView,
    trust: TrustView,
    f: CycleFacts,
    now: Instant,
    now_ms: i64,
)
    requires
        0 <= v.inventory.pos.long,
        0 <= v.inventory.pos.short,
        f.priced,
        trust.reference_ok,
        !v.flags.halted,
        f.cap_hit || f.loss_hit,
    ensures
        liquidating(Step::decided(v, trust, f, now, now_ms).v.reduce),
        !Step::decided(v, trust, f, now, now_ms).d.quote,
        v.reduce.phase == Phase::Idle ==> Step::decided(v, trust, f, now, now_ms).d.started,
{
    lemma_judged(v, f, now);
    let s = judged(v, f, now);
    lemma_concluded(s, trust, f, now, now_ms);
    let c = s.stop_resting(now);
    let w = c.trigger_if(true, ReduceReason::Untrusted, f.band_contracts, false, now);
    lemma_concluded(w, trust, f, now, now_ms);
}

/// Outside the band, the position is reduced back to it once the timer has run
/// out, and without waiting for it when the market moves strongly against the
/// net position or the basis is abnormal.
pub proof fn outside_the_band_positions_are_reduced(
    v: EngineView,
    trust: TrustView,
    f: CycleFacts,
    now: Instant,
    now_ms: i64,
)
    requires
        0 <= v.inventory.pos.long,
        0 <= v.inventory.pos.short,
        f.priced,
        trust.reference_ok,
        !v.flags.halted,
        asks_to_reduce(v, f, now),
    ensures
        taken_over(v, Step::decided(v, trust, f, now, now_ms), f.band_contracts),
{
    lemma_judged(v, f, now);
    let s = judged(v, f, now);
    lemma_concluded(s, trust, f, now, now_ms);
    let c = s.stop_resting(now);
    let w = c.trigger_if(true, ReduceReason::Untrusted, f.band_contracts, false, now);
    lemma_concluded(w, trust, f, now, now_ms);
}

/// A position that is held while the market cannot be trusted is reduced to the
/// band, as long as the book can be swept and fills are heard of.
pub proof fn untrusted_positions_are_reduced(
    v: EngineView,
    trust: TrustView,
    f: CycleFacts,
    now: Instant,
    now_ms: i64,
)
    requires
        0 <= v.inventory.pos.long,
        0 <= v.inventory.pos.short,
        f.priced,
        trust.reference_ok,
        !v.flags.halted,
        !(trust.market_ok && trust.private_ok),
        v.inventory.pos.long != 0 || v.inventory.pos.short != 0,
        v.book.status == BookStatus::Synced,
        v.gate is Some,
        hears_fills(v),
    ensures
        taken_over(v, Step::decided(v, trust, f, now, now_ms), f.band_contracts),
{
    lemma_judged(v, f, now);
    let s = judged(v, f, now);
    let c = s.stop_resting(now);
    let w = c.trigger_if(true, ReduceReason::Untrusted, f.band_contracts, false, now);
    assert(w.v.reduce.phase != Phase::Idle);
    lemma_concluded(w, trust, f, now, now_ms);
}

/// A quiet cycle quotes: with a fair price, a market that can be trusted, no limit
/// hit, no reduction under way and none asked for, quotes follow, nothing is
/// started and nothing of the reduction changes; and where new risk is allowed
/// nothing is sent before the quotes.
pub proof fn a_quiet_cycle_quotes(
    v: EngineView,
    trust: TrustView,
    f: CycleFacts,
    now: Instant,
    now_ms: i64,
)
    requires
        0 <= v.inventory.pos.long,
        0 <= v.inventory.pos.short,
        f.priced,
        trust.reference_ok,
        trust.market_ok,
        trust.private_ok,
        !v.flags.halted,
        v.reduce.phase == Phase::Idle,
        !f.cap_hit,
        !f.loss_hit,
        !asks_to_reduce(v, f, now),
    ensures
        ({
            let s = Step::decided(v, trust, f, now, now_ms);
            &&& s.d.quote
            &&& !s.d.started
            &&& !s.d.snapshot
            &&& s.v.reduce == v.reduce
            &&& s.v.inventory.pos == v.inventory.pos
            &&& !s.v.flags.halted
            &&& trust.position_ok && trust.margin_ok && trust.basis_ok && trust.session_ok
                ==> s.d.sends.len() == 0 && s.v.orders == v.orders
        }),
{
    lemma_judged(v, f, now);
}

/// Nothing is quoted while a reduction is under way.
pub proof fn a_reduction_suspends_the_quotes(
    v: EngineView,
    trust: TrustView,
    f: CycleFacts,
    now: Instant,
    now_ms: i64,
)
    requires
        0 <= v.inventory.pos.long,
        0 <= v.inventory.pos.short,
        v.reduce.phase != Phase::Idle,
    ensures
        !Step::decided(v, trust, f, now, now_ms).d.quote,
        !Step::decided(v, trust, f, now, now_ms).d.started,
{
    lemma_judged(v, f, now);
    let s = judged(v, f, now);
    lemma_concluded(s, trust, f, now, now_ms);
    let c = s.stop_resting(now);
    let w = c.trigger_if(true, ReduceReason::Untrusted, f.band_contracts, false, now);
    lemma_concluded(w, trust, f, now, now_ms);
    let t = Step::start(v).ticked(f, now);
    lemma_step(t.stop_resting(now), f, now, now_ms);
    let u = Step::start(v).stop_resting(now).ticked(f, now);
    lemma_step(u, f, now, now_ms);
}

/// Without a fair price the position is still managed: outside the band for too
/// long, with a book that can be swept and fills that are heard of, it is reduced
/// to the band.
pub proof fn an_outage_still_reduces(
    v: EngineView,
    trust: TrustView,
    f: CycleFacts,
    now: Instant,
    now_ms: i64,
)
    requires
        !f.priced || !trust.reference_ok,
        v.gate is Some,
        v.reduce.phase == Phase::Idle,
    ensures
        ({
            let s = Step::decided(v, trust, f, now, now_ms);
            let due = band_is_over(v, f, now) && v.book.status == BookStatus::Synced && hears_fills(
                v,
            );
            &&& s.d.started <==> due
            &&& due ==> s.v.reduce.phase == Phase::Cancelling && s.v.reduce.reason == Some(
                ReduceReason::Untrusted,
            ) && s.v.reduce.target_abs == (if f.band_contracts >= 0 {
                f.band_contracts
            } else {
                0
            })
            &&& !due ==> s.v.reduce == v.reduce
            &&& !s.d.quote
        }),
{
}

/// The order of an exit on its way: reduce-only, immediate or cancelled.
pub open spec fn is_exit_of(t: TradeView, side: Side, size: i64, price: Option<Ticks>) -> bool {
    t.side == side && (t.cmd matches CommandView::Place {
        side: s,
        size: n,
        price: p,
        tif,
        reduce_only,
        ..
    } && s == side && n == size && p == price && tif == Tif::Ioc && reduce_only)
}

/// What the machine asks for is done: an exit goes out as one more reduce-only
/// order that is remembered as an exit, a completed episode leaves an idle
/// machine, and a halt stops the strategy with everything cancelled.
pub proof fn the_reduction_is_carried_out(s: Step, f: CycleFacts, now: Instant, now_ms: i64)
    ensures
        ({
            let (m, action) = s.v.reduce.stepped(s.v.reduce_inputs(f, now));
            let t = s.reduce_step(f, now, now_ms);
            let n = s.d.sends.len() as int;
            match action {
                ReduceAction::Wait => t.v.reduce == m && t.d.sends == s.d.sends && t.v.orders
                    == s.v.orders,
                ReduceAction::CancelConflicts => t.v.reduce == m && t.v.exits == s.v.exits,
                ReduceAction::SendIoc { side, size, price } => {
                    &&& t.v.reduce == m
                    &&& t.d.sends.len() == n + 1
                    &&& t.d.sends.take(n) == s.d.sends
                    &&& is_exit_of(t.d.sends[n], side, size, Some(price))
                    &&& t.v.exits == s.v.exits.push(
                        ExitOrder { id: s.v.orders.next_id, market: false },
                    )
                    &&& t.v.orders.orders.len() == s.v.orders.orders.len() + 1
                    &&& t.v.orders.orders.last().id == s.v.orders.next_id
                },
                ReduceAction::SendMarket { side, size } => {
                    &&& t.v.reduce == m
                    &&& t.d.sends.len() == n + 1
                    &&& t.d.sends.take(n) == s.d.sends
                    &&& is_exit_of(t.d.sends[n], side, size, None)
                    &&& t.v.exits == s.v.exits.push(
                        ExitOrder { id: s.v.orders.next_id, market: true },
                    )
                    &&& t.v.orders.orders.len() == s.v.orders.orders.len() + 1
                    &&& t.v.orders.orders.last().id == s.v.orders.next_id
                },
                ReduceAction::Completed => t.v.reduce == m.resumed() && t.d.sends == s.d.sends,
                ReduceAction::Halt => {
                    &&& t.v.reduce == m
                    &&& t.v.flags.halted
                    &&& !s.v.flags.halted ==> t.d.snapshot && t.d.sends.len() > n
                        && t.d.sends.last().cmd is CancelAll
                    &&& s.v.flags.halted ==> t.d == s.d
                },
            }
        }),
{
    reveal(Step::reduce_step);
    let t = s.reduce_step(f, now, now_ms);
    assert(t.d.sends.len() >= s.d.sends.len() ==> t.d.sends.take(s.d.sends.len() as int)
        =~= s.d.sends);
}

/// The machine looks at the position, the book and our resting orders as they
/// are; orders that are not exits are conflicts, and exits are waited for.
pub proof fn the_reduction_looks_at_the_state(v: EngineView, f: CycleFacts, now: Instant)
    ensures
        ({
            let i = v.reduce_inputs(f, now);
            &&& i.now == now
            &&& i.pos == v.inventory.pos
            &&& i.book == v.book
            &&& i.sell_cap == f.sell_cap
            &&& i.buy_cap == f.buy_cap
            &&& i.order_size_min == v.rules.order_size_min
            &&& i.order_size_max == v.rules.order_size_max
            &&& i.conflicts_pending <==> exists|k: int|
                #![trigger v.orders.orders[k]]
                0 <= k < v.orders.orders.len() && !v.orders.orders[k].state.terminal() && (forall|
                    e: int,
                |
                    0 <= e < v.exits.len() ==> (#[trigger] v.exits[e]).id != v.orders.orders[k].id)
            &&& i.exit_inflight <==> exists|k: int, e: int|
                #![trigger v.orders.orders[k], v.exits[e]]
                0 <= k < v.orders.orders.len() && 0 <= e < v.exits.len()
                    && !v.orders.orders[k].state.terminal() && v.exits[e].id
                    == v.orders.orders[k].id
        }),
{
    let i = v.reduce_inputs(f, now);
    let os = v.orders.orders;
    if i.conflicts_pending {
        let k = choose|k: int|
            0 <= k < os.len() && (#[trigger] os[k]).active() && !desk::is_exit(v.exits, os[k].id);
        assert(!os[k].state.terminal());
    }
    if i.exit_inflight {
        let k = choose|k: int|
            0 <= k < os.len() && (#[trigger] os[k]).active() && desk::is_exit(v.exits, os[k].id);
        let e = choose|e: int| 0 <= e < v.exits.len() && (#[trigger] v.exits[e]).id == os[k].id;
        assert(!os[k].state.terminal() && v.exits[e].id == os[k].id);
    }
    if exists|k: int|
        #![trigger os[k]]
        0 <= k < os.len() && !os[k].state.terminal() && (forall|e: int|
            0 <= e < v.exits.len() ==> (#[trigger] v.exits[e]).id != os[k].id) {
        let k = choose|k: int|
            #![trigger os[k]]
            0 <= k < os.len() && !os[k].state.terminal() && (forall|e: int|
                0 <= e < v.exits.len() ==> (#[trigger] v.exits[e]).id != os[k].id);
        assert(os[k].active() && !desk::is_exit(v.exits, os[k].id));
    }
    if exists|k: int, e: int|
        #![trigger os[k], v.exits[e]]
        0 <= k < os.len() && 0 <= e < v.exits.len() && !os[k].state.terminal() && v.exits[e].id
            == os[k].id {
        let (k, e) = choose|k: int, e: int|
            #![trigger os[k], v.exits[e]]
            0 <= k < os.len() && 0 <= e < v.exits.len() && !os[k].state.terminal() && v.exits[e].id
                == os[k].id;
        assert(v.exits[e].id == os[k].id);
        assert(os[k].active() && desk::is_exit(v.exits, os[k].id));
    }
}

/// In a cycle without new triggers a reduction that is under way takes its next
/// step on the state as it is, in a priced cycle that is trusted.
pub proof fn a_reduction_takes_its_step(
    v: EngineView,
    trust: TrustView,
    f: CycleFacts,
    now: Instant,
    now_ms: i64,
)
    requires
        0 <= v.inventory.pos.long,
        0 <= v.inventory.pos.short,
        v.reduce.phase != Phase::Idle,
        f.priced,
        trust.reference_ok,
        trust.market_ok,
        trust.private_ok,
        !v.flags.halted,
        !f.cap_hit,
        !f.loss_hit,
        !asks_to_reduce(v, f, now),
    ensures
        ({
            let s = Step::decided(v, trust, f, now, now_ms);
            let (m, action) = v.reduce.stepped(v.reduce_inputs(f, now));
            &&& action is SendIoc || action is SendMarket || action is Wait || action is Halt
                ==> s.v.reduce == m
            &&& action matches ReduceAction::SendIoc { side, size, price } ==> s.d.sends.len() == 1
                && is_exit_of(s.d.sends[0], side, size, Some(price))
            &&& action matches ReduceAction::SendMarket { side, size } ==> s.d.sends.len() == 1
                && is_exit_of(s.d.sends[0], side, size, None)
            &&& action is Wait ==> s.d.sends.len() == 0
            &&& action is Completed ==> s.v.reduce.phase == Phase::Idle || v.reduce.phase
                == Phase::Halted
            &&& action is Halt ==> s.v.flags.halted && s.d.snapshot && s.d.sends.last().cmd
                is CancelAll
        }),
{
    lemma_judged(v, f, now);
    let s = judged(v, f, now);
    the_reduction_is_carried_out(s, f, now, now_ms);
    assert(s.v.reduce_inputs(f, now) == v.reduce_inputs(f, now));
}

/// A halted strategy, and one without a fair price, still finish a reduction that
/// is under way: after everything else is cancelled it takes its next step.
pub proof fn a_reduction_goes_on_after_a_halt_and_in_an_outage(
    v: EngineView,
    trust: TrustView,
    f: CycleFacts,
    now: Instant,
    now_ms: i64,
)
    requires
        v.reduce.phase != Phase::Idle,
        v.flags.halted || !f.priced || !trust.reference_ok,
        v.gate is Some,
    ensures
        ({
            let s = Step::decided(v, trust, f, now, now_ms);
            let rested = EngineView { orders: v.without_resting(now).0.orders, ..v };
            let (m, action) = v.reduce.stepped(rested.reduce_inputs(f, now));
            let n = s.d.sends.len() as int;
            &&& action is SendIoc || action is SendMarket || action is Wait || action is Halt
                ==> s.v.reduce == m
            &&& action matches ReduceAction::SendIoc { side, size, price } ==> n > 0 && is_exit_of(
                s.d.sends[n - 1],
                side,
                size,
                Some(price),
            )
            &&& action matches ReduceAction::SendMarket { side, size } ==> n > 0 && is_exit_of(
                s.d.sends[n - 1],
                side,
                size,
                None,
            )
            &&& action is Halt ==> s.v.flags.halted
        }),
{
    let a = Step::start(v).ticked(f, now).stop_resting(now);
    let b = Step::start(v).stop_resting(now).ticked(f, now);
    let rested = EngineView { orders: v.without_resting(now).0.orders, ..v };
    the_reduction_is_carried_out(a, f, now, now_ms);
    the_reduction_is_carried_out(b, f, now, now_ms);
    assert(a.v.reduce_inputs(f, now) == rested.reduce_inputs(f, now));
    assert(b.v.reduce_inputs(f, now) == rested.reduce_inputs(f, now));
}

/// An inventory episode ends, and is reported with its length and whether it
/// needed active reduction, exactly when the inventory is back in the band with
/// no unresolved adds and no reduction under way.
pub proof fn an_episode_is_reported_when_it_is_digested(
    v: EngineView,
    trust: TrustView,
    f: CycleFacts,
    now: Instant,
    now_ms: i64,
)
    requires
        0 <= v.inventory.pos.long,
        0 <= v.inventory.pos.short,
        f.priced,
        trust.reference_ok,
        !v.flags.halted,
    ensures
        ({
            let s = Step::decided(v, trust, f, now, now_ms);
            let over = f.in_band && cycle::pending_adds(v.orders) == 0 && v.reduce.phase
                == Phase::Idle && !f.cap_hit && !f.loss_hit;
            &&& over ==> (v.inventory.episode_start matches Some(start) ==> s.d.digestion == Some(
                Digestion { span: time::elapsed(start, now), used_reduce: v.flags.used_reduce },
            ) && s.v.inventory.episode_start is None)
            &&& !over || v.inventory.episode_start is None ==> s.d.digestion is None
        }),
{
    lemma_judged(v, f, now);
    let s = judged(v, f, now);
    if s.v.reduce.phase != Phase::Idle {
        lemma_concluded(s, trust, f, now, now_ms);
    }
    let c = s.stop_resting(now);
    let w = c.trigger_if(true, ReduceReason::Untrusted, f.band_contracts, false, now);
    lemma_trigger(c, true, ReduceReason::Untrusted, f.band_contracts, false, now);
    lemma_concluded(w, trust, f, now, now_ms);
}

/// A halt is for good: it is remembered, asks for a snapshot, stops what rests and
/// cancels everything on the exchange, once.
pub proof fn a_halt_cancels_everything(s: Step, now: Instant, now_ms: i64)
    ensures
        s.v.flags.halted ==> s.halt(now, now_ms) == s,
        !s.v.flags.halted ==> {
            let h = s.halt(now, now_ms);
            let flagged = Step {
                v: EngineView { flags: Flags { halted: true, ..s.v.flags }, ..s.v },
                ..s
            };
            let stopped = flagged.stop_resting(now);
            &&& h.v == stopped.v
            &&& h.v.flags.halted
            &&& h.d.snapshot
            &&& h.d.sends.len() == stopped.d.sends.len() + 1
            &&& h.d.sends.drop_last() == stopped.d.sends
            &&& h.d.sends.last().cmd is CancelAll
            &&& h.d == (DecisionView { sends: h.d.sends, snapshot: true, ..stopped.d })
        },
{
    if !s.v.flags.halted {
        let flagged = Step {
            v: EngineView { flags: Flags { halted: true, ..s.v.flags }, ..s.v },
            ..s
        };
        let stopped = flagged.stop_resting(now);
        assert(s.halt(now, now_ms).d.sends.drop_last() =~= stopped.d.sends);
    }
}

/// A market that cannot be trusted is not quoted, and starts no reduction by itself
/// where nothing is held or the book, the quotes or the fills are missing.
pub proof fn an_untrusted_market_starts_nothing_without_need(
    v: EngineView,
    trust: TrustView,
    f: CycleFacts,
    now: Instant,
    now_ms: i64,
)
    requires
        0 <= v.inventory.pos.long,
        0 <= v.inventory.pos.short,
        f.priced,
        trust.reference_ok,
        !(trust.market_ok && trust.private_ok),
        !v.flags.halted,
        v.reduce.phase == Phase::Idle,
        !f.cap_hit,
        !f.loss_hit,
        !asks_to_reduce(v, f, now),
        (v.inventory.pos.long == 0 && v.inventory.pos.short == 0) || v.book.status
            != BookStatus::Synced || v.gate is None || !hears_fills(v),
    ensures
        ({
            let s = Step::decided(v, trust, f, now, now_ms);
            &&& !s.d.quote
            &&& !s.d.started
            &&& s.v.reduce == v.reduce
            &&& s.v.inventory.pos == v.inventory.pos
        }),
{
    lemma_judged(v, f, now);
}

/// What may still add to a position is what is in doubt of the orders that open, on
/// either side.
pub proof fn opening_orders_in_doubt_may_add(
    m: ManagerView,
    all: spec_fn(OrderView) -> bool,
)
    requires
        forall|o: OrderView| #[trigger] all(o),
    ensures
        cycle::pending_adds(m) == (lifecycle::exposure_sum(m.orders, all, Side::Buy, false) as i128)
            + (lifecycle::exposure_sum(m.orders, all, Side::Sell, false) as i128),
{
    let every = |o: OrderView| true;
    assert(all =~= every);
}

} // verus!
