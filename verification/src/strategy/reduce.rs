//! Active inventory reduction with price-protected reduce-only IOCs and a
//! predefined emergency escalation.
//!
//! An episode goes `Idle → Cancelling → Executing → Idle | Emergency → Halted`:
//! conflicting orders are cancelled first; each IOC is sized from Gate's depth
//! within the slippage cap and priced at the worst level that it needs; when the
//! budget expires with inventory left, the episode escalates and the strategy
//! does not silently return to normal quoting.

use vstd::prelude::*;

use crate::config;
use crate::config::Emergency;
use crate::market::book;
use crate::market::book::{BookView, LocalBook};
use crate::strategy::inventory::Positions;
use crate::time;
use crate::time::{Duration, Instant};
use crate::types::{Side, Ticks};

verus! {

#[derive(Debug, Clone, Copy, PartialEq, Eq, Structural)]
pub enum ReduceReason {
    BandTimeout,
    StrongAgainstInventory,
    BasisAbnormal,
    HardCap,
    LossLimit,
    Untrusted,
    Shutdown,
}

impl ReduceReason {
    pub open spec fn fatal(self) -> bool {
        self == ReduceReason::HardCap || self == ReduceReason::LossLimit || self
            == ReduceReason::Shutdown
    }

    /// Reasons that stop the strategy after the position is flat.
    pub fn is_fatal(self) -> (r: bool)
        ensures
            r == self.fatal(),
    {
        matches!(self, ReduceReason::HardCap | ReduceReason::LossLimit | ReduceReason::Shutdown)
    }
}

#[derive(Debug, Clone, Copy, PartialEq, Eq, Structural)]
pub enum Phase {
    Idle,
    Cancelling,
    Executing,
    Emergency,
    Halted,
}

#[derive(Debug, Clone, Copy, PartialEq, Eq, Structural)]
pub enum ReduceAction {
    Wait,
    /// Cancel every order that adds risk or could trade with the exit.
    CancelConflicts,
    SendIoc { side: Side, size: i64, price: Ticks },
    SendMarket { side: Side, size: i64 },
    /// Target reached; resume normal operation.
    Completed,
    /// Escalation exhausted or fatal reason: the strategy must stop.
    Halt,
}

pub struct ReduceInputs<'a> {
    pub now: Instant,
    pub pos: Positions,
    /// Lowest price at which an exit may sell, highest at which it may buy.
    pub sell_cap: Ticks,
    pub buy_cap: Ticks,
    pub book: &'a LocalBook,
    pub own: &'a [(Side, Ticks, i64)],
    pub order_size_min: i64,
    pub order_size_max: i64,
    /// True while any non-exit order is still not terminal.
    pub conflicts_pending: bool,
    /// True while an exit order that we sent is still not terminal.
    pub exit_inflight: bool,
}

/// The inputs of a step as plain values.
pub ghost struct InputsView {
    pub now: Instant,
    pub pos: Positions,
    pub sell_cap: Ticks,
    pub buy_cap: Ticks,
    pub book: BookView,
    pub own: Seq<(Side, Ticks, i64)>,
    pub order_size_min: i64,
    pub order_size_max: i64,
    pub conflicts_pending: bool,
    pub exit_inflight: bool,
}

impl<'a> View for ReduceInputs<'a> {
    type V = InputsView;

    open spec fn view(&self) -> InputsView {
        InputsView {
            now: self.now,
            pos: self.pos,
            sell_cap: self.sell_cap,
            buy_cap: self.buy_cap,
            book: self.book@,
            own: self.own@,
            order_size_min: self.order_size_min,
            order_size_max: self.order_size_max,
            conflicts_pending: self.conflicts_pending,
            exit_inflight: self.exit_inflight,
        }
    }
}

#[derive(Debug, Clone, Copy)]
pub struct ActiveReduce {
    pub cfg: config::Exit,
    pub phase: Phase,
    pub reason: Option<ReduceReason>,
    /// Reduce until |net| is at most this many contracts.
    pub target_abs: i64,
    pub started: Option<Instant>,
    pub phase_since: Option<Instant>,
    pub last_sent: Option<Instant>,
    pub attempts: u32,
    pub emergency_attempts: u32,
}

/// `a` or `b`, whichever is smaller.
pub open spec fn smaller(a: int, b: int) -> int {
    if a <= b {
        a
    } else {
        b
    }
}

fn lesser(a: i64, b: i64) -> (r: i64)
    ensures
        r == smaller(a as int, b as int),
{
    if a <= b {
        a
    } else {
        b
    }
}

impl ActiveReduce {
    pub open spec fn idle(cfg: config::Exit) -> ActiveReduce {
        ActiveReduce {
            cfg,
            phase: Phase::Idle,
            reason: None,
            target_abs: 0,
            started: None,
            phase_since: None,
            last_sent: None,
            attempts: 0,
            emergency_attempts: 0,
        }
    }

    pub fn new(cfg: config::Exit) -> (r: ActiveReduce)
        ensures
            r == ActiveReduce::idle(cfg),
    {
        ActiveReduce {
            cfg,
            phase: Phase::Idle,
            reason: None,
            target_abs: 0,
            started: None,
            phase_since: None,
            last_sent: None,
            attempts: 0,
            emergency_attempts: 0,
        }
    }

    pub open spec fn active(self) -> bool {
        self.phase != Phase::Idle
    }

    pub fn is_active(&self) -> (r: bool)
        ensures
            r == self.active(),
    {
        self.phase != Phase::Idle
    }

    pub fn is_halted(&self) -> (r: bool)
        ensures
            r == (self.phase == Phase::Halted),
    {
        self.phase == Phase::Halted
    }

    /// The episode's reason stops the strategy.
    pub open spec fn is_fatal(self) -> bool {
        self.reason matches Some(r) && r.fatal()
    }

    fn fatal_reason(&self) -> (r: bool)
        ensures
            r == self.is_fatal(),
    {
        match self.reason {
            Some(r) => r.is_fatal(),
            None => false,
        }
    }

    /// The machine after a trigger, and whether the trigger started an episode.
    pub open spec fn triggered(self, reason: ReduceReason, target_abs: i64, now: Instant) -> (
        ActiveReduce,
        bool,
    ) {
        if self.phase == Phase::Halted {
            (self, false)
        } else if self.active() {
            if reason.fatal() && !self.is_fatal() {
                (ActiveReduce { reason: Some(reason), target_abs: 0, ..self }, false)
            } else {
                (
                    ActiveReduce {
                        target_abs: smaller(self.target_abs as int, target_abs as int) as i64,
                        ..self
                    },
                    false,
                )
            }
        } else {
            (
                ActiveReduce {
                    phase: Phase::Cancelling,
                    reason: Some(reason),
                    target_abs: if reason.fatal() || target_abs < 0 {
                        0
                    } else {
                        target_abs
                    },
                    started: Some(now),
                    phase_since: Some(now),
                    last_sent: None,
                    attempts: 0,
                    emergency_attempts: 0,
                    ..self
                },
                true,
            )
        }
    }

    /// Start or upgrade an episode. A fatal reason overrides a non-fatal one and
    /// forces a full liquidation target.
    pub fn trigger(&mut self, reason: ReduceReason, target_abs: i64, now: Instant) -> (r: bool)
        ensures
            (*final(self), r) == old(self).triggered(reason, target_abs, now),
    {
        if self.phase == Phase::Halted {
            return false;
        }
        if self.is_active() {
            if reason.is_fatal() && !self.fatal_reason() {
                self.reason = Some(reason);
                self.target_abs = 0;
            } else {
                self.target_abs = lesser(self.target_abs, target_abs);
            }
            return false;
        }
        self.phase = Phase::Cancelling;
        self.reason = Some(reason);
        self.target_abs = if reason.is_fatal() || target_abs < 0 {
            0
        } else {
            target_abs
        };
        self.started = Some(now);
        self.phase_since = Some(now);
        self.last_sent = None;
        self.attempts = 0;
        self.emergency_attempts = 0;
        true
    }

    pub open spec fn resumed(self) -> ActiveReduce {
        if self.phase == Phase::Halted {
            self
        } else {
            ActiveReduce::idle(self.cfg)
        }
    }

    /// Reset after a completed episode; a halted machine stays halted.
    pub fn reset(&mut self)
        ensures
            *final(self) == old(self).resumed(),
    {
        if self.phase != Phase::Halted {
            *self = Self::new(self.cfg);
        }
    }

    pub open spec fn spec_elapsed(self, now: Instant) -> Duration {
        match self.started {
            Some(s) => time::elapsed(s, now),
            None => Duration { nanos: 0 },
        }
    }

    /// Time since the episode started.
    pub fn elapsed(&self, now: Instant) -> (r: Duration)
        ensures
            r == self.spec_elapsed(now),
    {
        match self.started {
            Some(s) => now.saturating_duration_since(s),
            None => Duration::from_nanos(0),
        }
    }

    /// Contracts still to reduce on the dominant side.
    pub open spec fn excess(self, pos: Positions) -> Option<(Side, int)> {
        let net = pos.spec_net();
        let abs = if net < 0 {
            -net
        } else {
            net
        };
        let over = abs - self.target_abs;
        if over <= 0 {
            None
        } else if net > 0 {
            Some((Side::Sell, smaller(over, pos.long as int)))
        } else {
            Some((Side::Buy, smaller(over, pos.short as int)))
        }
    }

    /// Remaining contracts to reduce on the dominant side.
    pub fn remaining(&self, pos: Positions) -> (r: Option<(Side, i64)>)
        requires
            pos.wf(),
        ensures
            match r {
                Some((side, qty)) => self.excess(pos) == Some((side, qty as int)) && 0 <= qty,
                None => self.excess(pos) is None,
            },
    {
        let net: i64 = pos.net();
        let abs: i128 = if net < 0 {
            -(net as i128)
        } else {
            net as i128
        };
        let over: i128 = abs - self.target_abs as i128;
        if over <= 0 {
            return None;
        }
        let side = if net > 0 {
            Side::Sell
        } else {
            Side::Buy
        };
        let held: i64 = if net > 0 {
            pos.long
        } else {
            pos.short
        };
        let qty: i64 = if over <= held as i128 {
            over as i64
        } else {
            held
        };
        Some((side, qty))
    }

    /// The next attempt would come too early.
    pub open spec fn too_early(self, now: Instant) -> bool {
        self.last_sent matches Some(t) && !time::reached(t, now, self.cfg.ioc_retry_interval_ms)
    }

    fn is_too_early(&self, now: Instant) -> (r: bool)
        ensures
            r == self.too_early(now),
    {
        match self.last_sent {
            Some(t) => !now.reached_since(t, self.cfg.ioc_retry_interval_ms),
            None => false,
        }
    }

    pub open spec fn finished(self) -> (ActiveReduce, ReduceAction) {
        if self.is_fatal() {
            (ActiveReduce { phase: Phase::Halted, ..self }, ReduceAction::Halt)
        } else {
            (ActiveReduce { phase: Phase::Idle, ..self }, ReduceAction::Completed)
        }
    }

    pub open spec fn finished_late(self) -> (ActiveReduce, ReduceAction) {
        if self.cfg.resume_after_escalation && !self.is_fatal() {
            (ActiveReduce { phase: Phase::Idle, ..self }, ReduceAction::Completed)
        } else {
            (ActiveReduce { phase: Phase::Halted, ..self }, ReduceAction::Halt)
        }
    }

    /// One step of the IOC phase.
    pub open spec fn executing(self, inp: InputsView) -> (ActiveReduce, ReduceAction) {
        match self.excess(inp.pos) {
            None => self.finished(),
            Some((side, qty)) => {
                if inp.exit_inflight {
                    (self, ReduceAction::Wait)
                } else if self.spec_elapsed(inp.now).nanos >= time::spec_from_millis(
                    self.cfg.ioc_timeout_ms,
                ).nanos {
                    ActiveReduce {
                        phase: Phase::Emergency,
                        phase_since: Some(inp.now),
                        ..self
                    }.escalated(inp)
                } else if self.too_early(inp.now) {
                    (self, ReduceAction::Wait)
                } else {
                    let cap = match side {
                        Side::Sell => inp.sell_cap,
                        Side::Buy => inp.buy_cap,
                    };
                    let want = smaller(qty, inp.order_size_max as int);
                    let levels = book::against(inp.book, side);
                    let filled = book::swept(levels, side, want, inp.own, Some(cap));
                    let tried = ActiveReduce {
                        last_sent: Some(inp.now),
                        attempts: (self.attempts + 1) as u32,
                        ..self
                    };
                    if filled < inp.order_size_min {
                        (tried, ReduceAction::Wait)
                    } else {
                        (
                            tried,
                            ReduceAction::SendIoc {
                                side,
                                size: filled as i64,
                                price: match book::sweep_worst(
                                    levels,
                                    side,
                                    want,
                                    inp.own,
                                    Some(cap),
                                ) {
                                    Some(p) => p,
                                    None => cap,
                                },
                            },
                        )
                    }
                }
            },
        }
    }

    /// One step of the emergency phase.
    pub open spec fn escalated(self, inp: InputsView) -> (ActiveReduce, ReduceAction) {
        match self.excess(inp.pos) {
            None => self.finished_late(),
            Some((side, qty)) => {
                if inp.exit_inflight {
                    (self, ReduceAction::Wait)
                } else if self.cfg.emergency == Emergency::HaltOnly || self.emergency_attempts
                    >= self.cfg.emergency_max_attempts {
                    (ActiveReduce { phase: Phase::Halted, ..self }, ReduceAction::Halt)
                } else if self.too_early(inp.now) {
                    (self, ReduceAction::Wait)
                } else {
                    (
                        ActiveReduce {
                            emergency_attempts: (self.emergency_attempts + 1) as u32,
                            last_sent: Some(inp.now),
                            ..self
                        },
                        ReduceAction::SendMarket {
                            side,
                            size: smaller(qty, inp.order_size_max as int) as i64,
                        },
                    )
                }
            },
        }
    }

    /// One step of the machine.
    pub open spec fn stepped(self, inp: InputsView) -> (ActiveReduce, ReduceAction) {
        match self.phase {
            Phase::Idle => (self, ReduceAction::Wait),
            Phase::Halted => (self, ReduceAction::Halt),
            Phase::Cancelling => {
                let since = match self.phase_since {
                    Some(t) => t,
                    None => inp.now,
                };
                if !inp.conflicts_pending || time::reached(
                    since,
                    inp.now,
                    self.cfg.cancel_wait_ms,
                ) {
                    ActiveReduce {
                        phase: Phase::Executing,
                        phase_since: Some(inp.now),
                        ..self
                    }.executing(inp)
                } else {
                    (self, ReduceAction::CancelConflicts)
                }
            },
            Phase::Executing => self.executing(inp),
            Phase::Emergency => self.escalated(inp),
        }
    }

    /// Advances the episode by one step and says what to do.
    pub fn step(&mut self, inp: ReduceInputs<'_>) -> (r: ReduceAction)
        requires
            inp.pos.wf(),
            inp.book.wf(),
            old(self).attempts < u32::MAX,
        ensures
            (*final(self), r) == old(self).stepped(inp@),
    {
        match self.phase {
            Phase::Idle => ReduceAction::Wait,
            Phase::Halted => ReduceAction::Halt,
            Phase::Cancelling => {
                let since = match self.phase_since {
                    Some(t) => t,
                    None => inp.now,
                };
                if !inp.conflicts_pending || inp.now.reached_since(
                    since,
                    self.cfg.cancel_wait_ms,
                ) {
                    self.phase = Phase::Executing;
                    self.phase_since = Some(inp.now);
                    self.step_executing(&inp)
                } else {
                    ReduceAction::CancelConflicts
                }
            },
            Phase::Executing => self.step_executing(&inp),
            Phase::Emergency => self.step_emergency(&inp),
        }
    }

    fn finish_or_halt(&mut self) -> (r: ReduceAction)
        ensures
            (*final(self), r) == old(self).finished(),
    {
        if self.fatal_reason() {
            self.phase = Phase::Halted;
            ReduceAction::Halt
        } else {
            self.phase = Phase::Idle;
            ReduceAction::Completed
        }
    }

    fn step_executing(&mut self, inp: &ReduceInputs<'_>) -> (r: ReduceAction)
        requires
            inp.pos.wf(),
            inp.book.wf(),
            old(self).attempts < u32::MAX,
        ensures
            (*final(self), r) == old(self).executing(inp@),
    {
        let now = inp.now;
        let (side, qty) = match self.remaining(inp.pos) {
            Some(x) => x,
            None => return self.finish_or_halt(),
        };
        if inp.exit_inflight {
            return ReduceAction::Wait;
        }
        if self.elapsed(now).nanos >= Duration::from_millis(self.cfg.ioc_timeout_ms).nanos {
            self.phase = Phase::Emergency;
            self.phase_since = Some(now);
            return self.step_emergency(inp);
        }
        if self.is_too_early(now) {
            return ReduceAction::Wait;
        }
        let cap: i64 = match side {
            Side::Sell => inp.sell_cap,
            Side::Buy => inp.buy_cap,
        };
        let want: i64 = lesser(qty, inp.order_size_max);
        let sweep = inp.book.sweep(side, want, inp.own, Some(cap));
        self.last_sent = Some(now);
        self.attempts = self.attempts + 1;
        if sweep.filled < inp.order_size_min {
            return ReduceAction::Wait;
        }
        let price: i64 = match sweep.worst_price {
            Some(p) => p,
            None => cap,
        };
        ReduceAction::SendIoc { side, size: sweep.filled, price }
    }

    fn step_emergency(&mut self, inp: &ReduceInputs<'_>) -> (r: ReduceAction)
        requires
            inp.pos.wf(),
        ensures
            (*final(self), r) == old(self).escalated(inp@),
    {
        let (side, qty) = match self.remaining(inp.pos) {
            Some(x) => x,
            None => return self.finish_after_escalation(),
        };
        if inp.exit_inflight {
            return ReduceAction::Wait;
        }
        if self.cfg.emergency == Emergency::HaltOnly || self.emergency_attempts
            >= self.cfg.emergency_max_attempts {
            self.phase = Phase::Halted;
            return ReduceAction::Halt;
        }
        if self.is_too_early(inp.now) {
            return ReduceAction::Wait;
        }
        self.emergency_attempts = self.emergency_attempts + 1;
        self.last_sent = Some(inp.now);
        ReduceAction::SendMarket { side, size: lesser(qty, inp.order_size_max) }
    }

    fn finish_after_escalation(&mut self) -> (r: ReduceAction)
        ensures
            (*final(self), r) == old(self).finished_late(),
    {
        if self.cfg.resume_after_escalation && !self.fatal_reason() {
            self.phase = Phase::Idle;
            ReduceAction::Completed
        } else {
            self.phase = Phase::Halted;
            ReduceAction::Halt
        }
    }
}

/// A halted machine refuses every trigger, stays halted in every step and
/// cannot be reset.
pub proof fn halt_is_final(
    m: ActiveReduce,
    reason: ReduceReason,
    target_abs: i64,
    inp: InputsView,
)
    requires
        m.phase == Phase::Halted,
    ensures
        m.triggered(reason, target_abs, inp.now) == (m, false),
        m.stepped(inp) == (m, ReduceAction::Halt),
        m.resumed() == m,
{
}

/// Once a fatal reason has been given, the target is zero and the episode can
/// only end in a halt.
pub proof fn fatal_reasons_liquidate_and_halt(
    m: ActiveReduce,
    reason: ReduceReason,
    target_abs: i64,
    now: Instant,
    inp: InputsView,
)
    requires
        reason.fatal(),
        m.phase != Phase::Halted,
        m.is_fatal() ==> m.target_abs <= 0,
    ensures
        m.triggered(reason, target_abs, now).0.is_fatal(),
        m.triggered(reason, target_abs, now).0.target_abs <= 0,
        m.triggered(reason, target_abs, now).0.active() || m.is_fatal(),
        m.is_fatal() ==> m.stepped(inp).1 != ReduceAction::Completed,
        m.is_fatal() && m.active() ==> m.stepped(inp).0.active(),
{
}

/// Exits only ever reduce: an exit order sells no more than the long position
/// and buys no more than the short one, and an IOC never leaves its price cap.
pub proof fn exits_only_reduce(m: ActiveReduce, inp: InputsView)
    requires
        inp.pos.wf(),
        inp.order_size_max >= 0,
        m.attempts < u32::MAX,
    ensures
        m.stepped(inp).1 matches ReduceAction::SendIoc { side, size, price } ==> {
            &&& size <= (match side {
                Side::Sell => inp.pos.long,
                Side::Buy => inp.pos.short,
            })
            &&& size <= inp.order_size_max
            &&& side == Side::Sell ==> price >= inp.sell_cap
            &&& side == Side::Buy ==> price <= inp.buy_cap
        },
        m.stepped(inp).1 matches ReduceAction::SendMarket { side, size } ==> {
            &&& size <= (match side {
                Side::Sell => inp.pos.long,
                Side::Buy => inp.pos.short,
            })
            &&& size <= inp.order_size_max
        },
{
    if let Some((side, qty)) = m.excess(inp.pos) {
        let cap = match side {
            Side::Sell => inp.sell_cap,
            Side::Buy => inp.buy_cap,
        };
        book::a_sweep_stays_within_quantity_and_limit(
            book::against(inp.book, side),
            side,
            smaller(qty, inp.order_size_max as int),
            inp.own,
            Some(cap),
        );
    }
}

/// No second exit is sent while one is in flight.
pub proof fn one_exit_at_a_time(m: ActiveReduce, inp: InputsView)
    requires
        inp.exit_inflight,
    ensures
        !(m.stepped(inp).1 is SendIoc),
        !(m.stepped(inp).1 is SendMarket),
{
}

} // verus!
