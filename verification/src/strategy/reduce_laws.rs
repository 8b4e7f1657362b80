//! What an episode of active reduction does, by the position it meets.

use vstd::prelude::*;

use crate::config::Emergency;
use crate::market::book;
use crate::strategy::inventory::Positions;
use crate::strategy::reduce::{ActiveReduce, InputsView, Phase, ReduceAction, ReduceReason};
use crate::time;
use crate::time::Instant;
use crate::types::Side;

verus! {

/// Long minus short is more than the target, either way.
pub open spec fn over_target(m: ActiveReduce, pos: Positions) -> bool {
    pos.long - pos.short > m.target_abs || pos.short - pos.long > m.target_abs
}

/// The reason stops the strategy.
pub open spec fn stops_for_good(m: ActiveReduce) -> bool {
    m.reason == Some(ReduceReason::HardCap) || m.reason == Some(ReduceReason::LossLimit)
        || m.reason == Some(ReduceReason::Shutdown)
}

/// The time for IOCs is over.
pub open spec fn out_of_time(m: ActiveReduce, now: Instant) -> bool {
    match m.started {
        Some(s) => time::reached(s, now, m.cfg.ioc_timeout_ms),
        None => m.cfg.ioc_timeout_ms == 0,
    }
}

/// The last exit was sent too short a time ago for another one.
pub open spec fn must_pause(m: ActiveReduce, now: Instant) -> bool {
    m.last_sent matches Some(t) && !time::reached(t, now, m.cfg.ioc_retry_interval_ms)
}

/// Nothing more is tried in an emergency.
pub open spec fn exhausted(m: ActiveReduce) -> bool {
    m.cfg.emergency == Emergency::HaltOnly || m.emergency_attempts >= m.cfg.emergency_max_attempts
}

/// The conflicting orders have been waited for, so that exits may go out.
pub open spec fn may_execute(m: ActiveReduce, inp: InputsView) -> bool {
    m.phase == Phase::Executing || (m.phase == Phase::Cancelling && (!inp.conflicts_pending || (
    match m.phase_since {
        Some(t) => time::reached(t, inp.now, m.cfg.cancel_wait_ms),
        None => m.cfg.cancel_wait_ms == 0,
    })))
}

/// What is left to reduce is the distance of the net position from the target:
/// to sell of a net long position, to buy back of a net short one, and never more
/// than the position itself.
pub proof fn what_is_left_is_the_distance_to_the_target(m: ActiveReduce, pos: Positions)
    requires
        0 <= pos.long,
        0 <= pos.short,
    ensures
        m.excess(pos) is None <==> !over_target(m, pos),
        pos.long > pos.short && over_target(m, pos) && m.target_abs >= 0 ==> m.excess(pos) == Some(
            (Side::Sell, pos.long - pos.short - m.target_abs),
        ),
        pos.long < pos.short && over_target(m, pos) && m.target_abs >= 0 ==> m.excess(pos) == Some(
            (Side::Buy, pos.short - pos.long - m.target_abs),
        ),
        m.excess(pos) matches Some((side, qty)) ==> {
            &&& pos.long > pos.short <==> side == Side::Sell
            &&& qty <= pos.long - pos.short - m.target_abs || qty <= pos.short - pos.long
                - m.target_abs
            &&& side == Side::Sell ==> qty == pos.long || qty == pos.long - pos.short - m.target_abs
            &&& side == Side::Buy ==> qty == pos.short || qty == pos.short - pos.long - m.target_abs
            &&& side == Side::Sell ==> qty <= pos.long
            &&& side == Side::Buy ==> qty <= pos.short
        },
{
}

/// The exit that is due brings a net position beyond a target exactly to it.
pub proof fn an_exit_in_full_reaches_the_target(m: ActiveReduce, pos: Positions)
    requires
        pos.wf(),
        0 <= m.target_abs,
        over_target(m, pos),
    ensures
        m.excess(pos) matches Some((side, qty)) && {
            let signed = if side == Side::Buy {
                qty
            } else {
                -qty
            };
            let after = pos.filled(signed, true).0;
            &&& after.long - after.short == m.target_abs || after.short - after.long == m.target_abs
            &&& !over_target(m, after)
            &&& after.long + after.short == pos.long + pos.short - qty
        },
{
}

/// An episode ends only with the net position inside the target, or in a halt
/// after the escalation is exhausted; and a fatal reason always ends in a halt.
pub proof fn an_episode_ends_at_its_target(m: ActiveReduce, inp: InputsView)
    requires
        0 <= inp.pos.long,
        0 <= inp.pos.short,
        m.phase != Phase::Idle,
        m.phase != Phase::Halted,
    ensures
        m.stepped(inp).1 == ReduceAction::Completed ==> !over_target(m, inp.pos)
            && !stops_for_good(m) && m.stepped(inp).0.phase == Phase::Idle,
        m.stepped(inp).1 == ReduceAction::Halt ==> m.stepped(inp).0.phase == Phase::Halted && (
        !over_target(m, inp.pos) || (exhausted(m) && (m.phase == Phase::Emergency || out_of_time(
            m,
            inp.now,
        )))),
        m.stepped(inp).0.phase == Phase::Idle ==> m.stepped(inp).1 == ReduceAction::Completed,
        m.stepped(inp).0.phase == Phase::Halted ==> m.stepped(inp).1 == ReduceAction::Halt,
        m.stepped(inp).0.reason == m.reason,
        m.stepped(inp).0.target_abs == m.target_abs,
        m.stepped(inp).0.started == m.started,
        m.stepped(inp).0.cfg == m.cfg,
{
}

/// Once the net position is inside the target the episode is over at once: normal
/// operation is resumed, but a fatal reason halts, and so does an emergency
/// unless it may be resumed from.
pub proof fn a_reached_target_ends_the_episode(m: ActiveReduce, inp: InputsView)
    requires
        0 <= inp.pos.long,
        0 <= inp.pos.short,
        !over_target(m, inp.pos),
        may_execute(m, inp) || m.phase == Phase::Emergency,
    ensures
        m.stepped(inp).1 == (if stops_for_good(m) || (m.phase == Phase::Emergency
            && !m.cfg.resume_after_escalation) {
            ReduceAction::Halt
        } else {
            ReduceAction::Completed
        }),
{
}

/// While orders that could trade with the exit are working, they are cancelled
/// and nothing is sent, until the wait is over.
pub proof fn conflicts_are_cancelled_first(m: ActiveReduce, inp: InputsView)
    requires
        m.phase == Phase::Cancelling,
        !may_execute(m, inp),
    ensures
        m.stepped(inp) == (m, ReduceAction::CancelConflicts),
{
}

/// Every IOC that is due goes out: against the net position, for what the book
/// offers inside the cap of the quantity still to be reduced.
pub proof fn due_exits_are_sent(m: ActiveReduce, inp: InputsView)
    requires
        inp.pos.wf(),
        inp.order_size_max >= 0,
        m.attempts < u32::MAX,
        may_execute(m, inp),
        over_target(m, inp.pos),
        m.target_abs >= 0,
        !inp.exit_inflight,
        !out_of_time(m, inp.now),
        !must_pause(m, inp.now),
    ensures
        ({
            let (side, over, cap) = if inp.pos.long > inp.pos.short {
                (Side::Sell, inp.pos.long - inp.pos.short - m.target_abs, inp.sell_cap)
            } else {
                (Side::Buy, inp.pos.short - inp.pos.long - m.target_abs, inp.buy_cap)
            };
            let want = if over <= inp.order_size_max {
                over
            } else {
                inp.order_size_max as int
            };
            let levels = book::against(inp.book, side);
            let filled = book::swept(levels, side, want, inp.own, Some(cap));
            let worst = book::sweep_worst(levels, side, want, inp.own, Some(cap));
            &&& m.stepped(inp).0.phase == Phase::Executing
            &&& m.stepped(inp).0.last_sent == Some(inp.now)
            &&& m.stepped(inp).0.attempts == m.attempts + 1
            &&& filled < inp.order_size_min ==> m.stepped(inp).1 == ReduceAction::Wait
            &&& filled >= inp.order_size_min ==> (m.stepped(inp).1 matches ReduceAction::SendIoc {
                side: s,
                size,
                price,
            } && s == side && size == filled && (worst matches Some(w) ==> price == w) && (
            worst is None ==> price == cap))
        }),
{
    let over = if inp.pos.long > inp.pos.short {
        inp.pos.long - inp.pos.short - m.target_abs
    } else {
        inp.pos.short - inp.pos.long - m.target_abs
    };
    let want = if over <= inp.order_size_max {
        over
    } else {
        inp.order_size_max as int
    };
    book::a_sweep_stays_within_quantity_and_limit(
        book::against(inp.book, Side::Sell),
        Side::Sell,
        want,
        inp.own,
        Some(inp.sell_cap),
    );
    book::a_sweep_stays_within_quantity_and_limit(
        book::against(inp.book, Side::Buy),
        Side::Buy,
        want,
        inp.own,
        Some(inp.buy_cap),
    );
}

/// When the time for IOCs is over with inventory left, the episode escalates: a
/// market order for all that is left, as often as allowed, and then a halt.
pub proof fn an_overdue_episode_escalates(m: ActiveReduce, inp: InputsView)
    requires
        inp.pos.wf(),
        m.target_abs >= 0,
        over_target(m, inp.pos),
        m.phase == Phase::Emergency || (may_execute(m, inp) && out_of_time(m, inp.now)),
        !inp.exit_inflight,
    ensures
        exhausted(m) ==> m.stepped(inp).1 == ReduceAction::Halt && m.stepped(inp).0.phase
            == Phase::Halted,
        !exhausted(m) && must_pause(m, inp.now) ==> m.stepped(inp).1 == ReduceAction::Wait
            && m.stepped(inp).0.phase == Phase::Emergency,
        !exhausted(m) && !must_pause(m, inp.now) ==> {
            let (side, over) = if inp.pos.long > inp.pos.short {
                (Side::Sell, inp.pos.long - inp.pos.short - m.target_abs)
            } else {
                (Side::Buy, inp.pos.short - inp.pos.long - m.target_abs)
            };
            &&& m.stepped(inp).0.phase == Phase::Emergency
            &&& m.stepped(inp).0.emergency_attempts == m.emergency_attempts + 1
            &&& m.stepped(inp).0.last_sent == Some(inp.now)
            &&& m.stepped(inp).1 matches ReduceAction::SendMarket { side: s, size } && s == side
                && size == (if over <= inp.order_size_max {
                over
            } else {
                inp.order_size_max as int
            })
        },
{
}

/// With inventory left, a step waits only for an exit in flight or for the pause
/// between two exits.
pub proof fn waits_are_short(m: ActiveReduce, inp: InputsView)
    requires
        inp.pos.wf(),
        over_target(m, inp.pos),
        may_execute(m, inp) || m.phase == Phase::Emergency,
        inp.exit_inflight || (must_pause(m, inp.now) && m.phase != Phase::Emergency && !out_of_time(
            m,
            inp.now,
        )),
    ensures
        m.stepped(inp).1 == ReduceAction::Wait,
        m.stepped(inp).0.attempts == m.attempts,
        m.stepped(inp).0.last_sent == m.last_sent,
        m.stepped(inp).0.phase == (if m.phase == Phase::Emergency {
            Phase::Emergency
        } else {
            Phase::Executing
        }),
{
}

/// A trigger starts an episode on an idle machine and tightens one that is under
/// way: the target never grows, and a fatal reason takes over and forces a full
/// liquidation.
pub proof fn triggers_start_and_tighten(
    m: ActiveReduce,
    reason: ReduceReason,
    target_abs: i64,
    now: Instant,
)
    requires
        m.phase != Phase::Halted,
    ensures
        ({
            let (n, started) = m.triggered(reason, target_abs, now);
            let fatal = reason == ReduceReason::HardCap || reason == ReduceReason::LossLimit
                || reason == ReduceReason::Shutdown;
            &&& n.cfg == m.cfg
            &&& started <==> m.phase == Phase::Idle
            &&& m.phase == Phase::Idle ==> {
                &&& n.phase == Phase::Cancelling
                &&& n.reason == Some(reason)
                &&& n.started == Some(now)
                &&& n.phase_since == Some(now)
                &&& n.last_sent is None
                &&& n.attempts == 0
                &&& n.emergency_attempts == 0
                &&& n.target_abs >= 0
                &&& fatal ==> n.target_abs == 0
                &&& !fatal && target_abs >= 0 ==> n.target_abs == target_abs
                &&& target_abs < 0 ==> n.target_abs == 0
            }
            &&& m.phase != Phase::Idle ==> {
                &&& n.phase == m.phase
                &&& n.started == m.started
                &&& n.phase_since == m.phase_since
                &&& n.last_sent == m.last_sent
                &&& n.attempts == m.attempts
                &&& n.emergency_attempts == m.emergency_attempts
                &&& stops_for_good(m) || !fatal ==> n.reason == m.reason && n.target_abs
                    <= m.target_abs && n.target_abs <= target_abs && (n.target_abs == m.target_abs
                    || n.target_abs == target_abs)
                &&& fatal && !stops_for_good(m) ==> n.reason == Some(reason) && n.target_abs == 0
            }
        }),
{
}

/// A completed episode leaves nothing behind; an idle machine waits.
pub proof fn an_idle_machine_waits(m: ActiveReduce, inp: InputsView)
    ensures
        m.phase == Phase::Idle ==> m.stepped(inp) == (m, ReduceAction::Wait),
        m.phase != Phase::Halted ==> {
            let r = m.resumed();
            &&& r.phase == Phase::Idle
            &&& r.reason is None
            &&& r.started is None
            &&& r.last_sent is None
            &&& r.attempts == 0
            &&& r.emergency_attempts == 0
            &&& r.cfg == m.cfg
        },
{
}

} // verus!
