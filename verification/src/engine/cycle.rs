//! The strategy cycle: trust, limits, protection, active reduction, quotes.
//! What rests on real-valued prices comes in as facts, and everything that is
//! decided from them is decided here.

use vstd::prelude::*;

use crate::engine::desk;
use crate::engine::desk::{Engine, EngineView, ExitOrder, Flags};
use crate::engine::events::Feed;
use crate::exchange::gate_trade;
use crate::exchange::gate_trade::{TradeCommand, TradeView};
use crate::market::basis::BasisStatus;
use crate::market::book::BookStatus;
use crate::market::session::SessionKind;
use crate::order::lifecycle;
use crate::order::lifecycle::ManagerView;
use crate::order::model;
use crate::order::model::{CommandView, ExecCommand, LocalOrder, OrderView, Tif, MAX_CONTRACTS};
use crate::order::reconcile;
use crate::order::reconcile::ReconcileParams;
use crate::strategy::inventory::Positions;
use crate::strategy::protection;
use crate::strategy::protection::Level;
use crate::strategy::quote;
use crate::strategy::quote::{Quote, QuoteContext, QuoteSet, SideBounds};
use crate::strategy::reduce;
use crate::strategy::reduce::{ActiveReduce, InputsView, ReduceAction, ReduceInputs, ReduceReason};
use crate::strategy::risk;
use crate::strategy::risk::{TrustInputs, TrustReport, TrustView};
use crate::text;
use crate::time;
use crate::time::{Duration, Instant};
use crate::types::{Purpose, Side, Ticks};

verus! {

/// What the trust check needs beyond the state of the engine.
#[derive(Debug, Clone, Copy, PartialEq, Eq, Structural)]
pub struct MarketFacts {
    pub binance_age: Option<Duration>,
    /// The free margin covers the buffer.
    pub margin_ok: bool,
    pub basis: BasisStatus,
    /// The basis has enough samples in this session.
    pub samples_ok: bool,
    pub session: SessionKind,
    /// New risk may be added in this session.
    pub session_listed: bool,
    pub loss_hit: bool,
    /// The fair price is too far from the mark price.
    pub mark_deviates: bool,
}

/// What the decisions of a cycle need beyond the state of the engine.
#[derive(Debug, Clone, Copy, PartialEq, Eq, Structural)]
pub struct CycleFacts {
    /// A fair price is known. Without one, or while Binance is not fresh, the
    /// other facts go by Gate's mid.
    pub priced: bool,
    /// The net position is inside the target band.
    pub in_band: bool,
    /// Contracts at the edge of the band.
    pub band_contracts: i64,
    /// The net position reached the hard cap.
    pub cap_hit: bool,
    pub loss_hit: bool,
    pub velocity: Level,
    pub rising: bool,
    /// Side that one-sided flow endangers.
    pub impact: Option<Side>,
    pub basis: BasisStatus,
    /// Worst price at which an exit may sell.
    pub sell_cap: Ticks,
    /// Worst price at which an exit may buy.
    pub buy_cap: Ticks,
}

/// The end of an inventory episode.
#[derive(Debug, Clone, Copy, PartialEq, Eq, Structural)]
pub struct Digestion {
    pub span: Duration,
    pub used_reduce: bool,
}

/// What a cycle decided.
pub struct Decision {
    /// Quotes are to be computed and reconciled.
    pub quote: bool,
    pub sends: Vec<TradeCommand>,
    /// An active reduction was started.
    pub started: bool,
    /// The strategy halted; a snapshot is to be written.
    pub snapshot: bool,
    pub digestion: Option<Digestion>,
}

/// What a cycle decided, as plain values.
pub ghost struct DecisionView {
    pub quote: bool,
    pub sends: Seq<TradeView>,
    pub started: bool,
    pub snapshot: bool,
    pub digestion: Option<Digestion>,
}

impl View for Decision {
    type V = DecisionView;

    open spec fn view(&self) -> DecisionView {
        DecisionView {
            quote: self.quote,
            sends: gate_trade::trade_views(self.sends@),
            started: self.started,
            snapshot: self.snapshot,
            digestion: self.digestion,
        }
    }
}

/// The engine in the middle of a cycle, and what the cycle decided so far.
pub ghost struct Step {
    pub v: EngineView,
    pub d: DecisionView,
}

/// Contracts whose outcome is not known yet and that would add risk.
pub open spec fn pending_adds(m: ManagerView) -> int {
    let e = m.exposure(|o: OrderView| true);
    e.open_buy + e.open_sell
}

/// A strong move is against the net position: up while short, down while long.
pub open spec fn moves_against(pos: Positions, strong: Option<Side>) -> bool {
    match strong {
        Some(Side::Sell) => pos.short > 0 && pos.spec_net() < 0,
        Some(Side::Buy) => pos.long > 0 && pos.spec_net() > 0,
        None => false,
    }
}

/// What the exchange-side cancel of everything is called.
pub open spec fn cancel_all_id(now_ms: i64) -> Seq<char> {
    seq!['c', 'a', '-'] + text::signed_decimal(now_ms as int)
}

impl EngineView {
    /// What the trust check looks at. A feed that is not connected has no age.
    pub open spec fn trust_inputs(self, f: MarketFacts, position_ok: bool, now: Instant) -> TrustInputs {
        TrustInputs {
            binance_age: if self.feeds.connected(Feed::Binance) {
                f.binance_age
            } else {
                None
            },
            gate_bbo_age: if self.feeds.connected(Feed::GatePublic) {
                match self.gate {
                    Some(g) => Some(time::elapsed(g.at, now)),
                    None => None,
                }
            } else {
                None
            },
            gate_book_synced: self.book.status == BookStatus::Synced,
            private_connected: self.private_up(),
            private_age: if self.rules.paper {
                Some(Duration { nanos: 0 })
            } else {
                match self.private_hb {
                    Some(t) => Some(time::elapsed(t, now)),
                    None => None,
                }
            },
            account_age: match self.account_at {
                Some(t) => Some(time::elapsed(t, now)),
                None => None,
            },
            position_ok,
            margin_ok: f.margin_ok,
            basis: f.basis,
            session: f.session,
            session_tradable: f.session_listed && f.samples_ok,
            loss_limit_hit: f.loss_hit,
            halted: self.flags.halted,
            mark_deviates: f.mark_deviates,
        }
    }

    pub open spec fn assessed(self, f: MarketFacts, now: Instant) -> (EngineView, TrustView) {
        let (reconciler, ok) = self.reconciler.checked(self.inventory.pos, self.rules.risk, now);
        (
            EngineView { reconciler, ..self },
            risk::trust(self.rules.risk, self.trust_inputs(f, ok, now)),
        )
    }

    /// What the active reduction looks at.
    pub open spec fn reduce_inputs(self, f: CycleFacts, now: Instant) -> InputsView {
        InputsView {
            now,
            pos: self.inventory.pos,
            sell_cap: f.sell_cap,
            buy_cap: f.buy_cap,
            book: self.book,
            own: lifecycle::resting(self.orders.orders),
            order_size_min: self.rules.order_size_min,
            order_size_max: self.rules.order_size_max,
            conflicts_pending: desk::conflict_pending(self.exits, self.orders.orders),
            exit_inflight: desk::exit_pending(self.exits, self.orders.orders),
        }
    }

    /// An exit order placed.
    pub open spec fn exit_sent(
        self,
        side: Side,
        size: i64,
        price: Option<Ticks>,
        now: Instant,
        now_ms: i64,
    ) -> (EngineView, TradeView) {
        let (m, cmd) = self.orders.place(
            side,
            Purpose::Reduce,
            u8::MAX,
            price,
            size,
            Tif::Ioc,
            now,
            now_ms,
        );
        (
            EngineView {
                orders: m,
                exits: self.exits.push(
                    ExitOrder { id: self.orders.next_id, market: price is None },
                ),
                ..self
            },
            TradeView { cmd, side },
        )
    }
}

impl Step {
    pub open spec fn start(v: EngineView) -> Step {
        Step {
            v,
            d: DecisionView {
                quote: false,
                sends: seq![],
                started: false,
                snapshot: false,
                digestion: None,
            },
        }
    }

    pub open spec fn sending(self, v: EngineView, sends: Seq<TradeView>) -> Step {
        Step { v, d: DecisionView { sends: self.d.sends + sends, ..self.d } }
    }

    /// An active reduction asked for; `marks` records it in the current episode.
    pub open spec fn trigger_if(
        self,
        cond: bool,
        reason: ReduceReason,
        target: i64,
        marks: bool,
        now: Instant,
    ) -> Step {
        if cond {
            let (reduce, started) = self.v.reduce.triggered(reason, target, now);
            Step {
                v: EngineView {
                    reduce,
                    flags: Flags {
                        used_reduce: self.v.flags.used_reduce || (started && marks),
                        ..self.v.flags
                    },
                    ..self.v
                },
                d: DecisionView { started: self.d.started || started, ..self.d },
            }
        } else {
            self
        }
    }

    pub open spec fn stop_resting(self, now: Instant) -> Step {
        let (v, sends) = self.v.without_resting(now);
        self.sending(v, sends)
    }

    pub open spec fn stop_adds(self, now: Instant) -> Step {
        let (v, sends) = self.v.without_adds(now);
        self.sending(v, sends)
    }

    /// The band timer.
    pub open spec fn ticked(self, f: CycleFacts, now: Instant) -> Step {
        Step {
            v: EngineView {
                inventory: self.v.inventory.ticked(f.in_band, pending_adds(self.v.orders), now),
                ..self.v
            },
            ..self
        }
    }

    /// The strategy stops for good: everything is cancelled, on the exchange too.
    pub open spec fn halt(self, now: Instant, now_ms: i64) -> Step {
        if self.v.flags.halted {
            self
        } else {
            let h = Step {
                v: EngineView { flags: Flags { halted: true, ..self.v.flags }, ..self.v },
                ..self
            }.stop_resting(now);
            Step {
                d: DecisionView {
                    sends: h.d.sends.push(
                        TradeView {
                            cmd: CommandView::CancelAll { req_id: cancel_all_id(now_ms) },
                            side: Side::Buy,
                        },
                    ),
                    snapshot: true,
                    ..h.d
                },
                ..h
            }
        }
    }

    /// One step of the active reduction, carried out.
    #[verifier::opaque]
    pub open spec fn reduce_step(self, f: CycleFacts, now: Instant, now_ms: i64) -> Step {
        let (reduce, action) = self.v.reduce.stepped(self.v.reduce_inputs(f, now));
        let s = Step { v: EngineView { reduce, ..self.v }, ..self };
        match action {
            ReduceAction::Wait => s,
            ReduceAction::CancelConflicts => s.stop_resting(now),
            ReduceAction::SendIoc { side, size, price } => {
                let (v, send) = s.v.exit_sent(side, size, Some(price), now, now_ms);
                s.sending(v, seq![send])
            },
            ReduceAction::SendMarket { side, size } => {
                let (v, send) = s.v.exit_sent(side, size, None, now, now_ms);
                s.sending(v, seq![send])
            },
            ReduceAction::Completed => Step {
                v: EngineView { reduce: reduce.resumed(), ..s.v },
                ..s
            },
            ReduceAction::Halt => s.halt(now, now_ms),
        }
    }

    /// Loss limit, hard cap, band timeout; or the end of the episode, back in the
    /// band with no unresolved adds.
    #[verifier::opaque]
    pub open spec fn limits(self, f: CycleFacts, adds: int, now: Instant) -> Step {
        let s = self.trigger_if(f.loss_hit, ReduceReason::LossLimit, 0, false, now).trigger_if(
            f.cap_hit,
            ReduceReason::HardCap,
            0,
            false,
            now,
        );
        if !f.in_band && s.v.inventory.timed_out(now) {
            s.trigger_if(true, ReduceReason::BandTimeout, f.band_contracts, true, now)
        } else {
            match s.v.inventory.episode_start {
                Some(start) if f.in_band && !s.v.reduce.active() && adds == 0 => Step {
                    v: EngineView {
                        inventory: s.v.inventory.cleared(),
                        flags: Flags { used_reduce: false, ..s.v.flags },
                        ..s.v
                    },
                    d: DecisionView {
                        digestion: Some(
                            Digestion {
                                span: time::elapsed(start, now),
                                used_reduce: s.v.flags.used_reduce,
                            },
                        ),
                        ..s.d
                    },
                },
                _ => s,
            }
        }
    }

    /// Directional protection. With the position outside the band, a strong move
    /// against it or an abnormal basis reduces it back to the band.
    #[verifier::opaque]
    pub open spec fn signals(self, f: CycleFacts, now: Instant) -> Step {
        let p = self.v.protection.updated(f.velocity, f.rising, f.impact, now);
        let pos = self.v.inventory.pos;
        Step { v: EngineView { protection: p, ..self.v }, ..self }.trigger_if(
            !f.in_band && moves_against(pos, p.strong()),
            ReduceReason::StrongAgainstInventory,
            f.band_contracts,
            true,
            now,
        ).trigger_if(
            !f.in_band && f.basis == BasisStatus::Abnormal && !(pos == Positions::flat()),
            ReduceReason::BasisAbnormal,
            f.band_contracts,
            true,
            now,
        )
    }

    /// Without a fair price nothing may rest; the position is still managed, and
    /// reduced once it has been outside the band for too long.
    pub open spec fn unpriced(self, f: CycleFacts, now: Instant, now_ms: i64) -> Step {
        let s = self.stop_resting(now);
        if s.v.gate is None {
            s
        } else {
            let t = s.ticked(f, now);
            if t.v.reduce.active() {
                t.reduce_step(f, now, now_ms)
            } else {
                t.trigger_if(
                    !f.in_band && t.v.inventory.timed_out(now) && t.v.book.status
                        == BookStatus::Synced && t.v.private_up(),
                    ReduceReason::Untrusted,
                    f.band_contracts,
                    false,
                    now,
                )
            }
        }
    }

    /// An active reduction takes over the cycle; else risk-adding orders go
    /// where new risk is not allowed, and quotes follow.
    pub open spec fn concluded(self, trust: TrustView, f: CycleFacts, now: Instant, now_ms: i64) -> Step {
        if self.v.reduce.active() {
            self.reduce_step(f, now, now_ms)
        } else {
            let s = if trust.new_risk() {
                self
            } else {
                self.stop_adds(now)
            };
            Step { d: DecisionView { quote: true, ..s.d }, ..s }
        }
    }

    pub open spec fn priced(self, trust: TrustView, f: CycleFacts, now: Instant, now_ms: i64) -> Step {
        let t = self.ticked(f, now);
        if t.v.flags.halted {
            let h = t.stop_resting(now);
            if h.v.reduce.active() {
                h.reduce_step(f, now, now_ms)
            } else {
                h
            }
        } else {
            let s = t.limits(f, pending_adds(self.v.orders), now).signals(f, now);
            if trust.resting() {
                s.concluded(trust, f, now, now_ms)
            } else {
                let c = s.stop_resting(now);
                if !(c.v.inventory.pos == Positions::flat()) && c.v.book.status
                    == BookStatus::Synced && c.v.gate is Some && c.v.private_up() {
                    c.trigger_if(
                        true,
                        ReduceReason::Untrusted,
                        f.band_contracts,
                        false,
                        now,
                    ).concluded(trust, f, now, now_ms)
                } else {
                    c
                }
            }
        }
    }

    /// A whole cycle up to the quotes. A price made from a reference that is not
    /// fresh is no fair price.
    pub open spec fn decided(
        v: EngineView,
        trust: TrustView,
        f: CycleFacts,
        now: Instant,
        now_ms: i64,
    ) -> Step {
        if f.priced && trust.reference_ok {
            Step::start(v).priced(trust, f, now, now_ms)
        } else {
            Step::start(v).unpriced(f, now, now_ms)
        }
    }
}

/// The size of an exit is a count.
proof fn lemma_exit_size(m: ActiveReduce, inp: InputsView)
    requires
        inp.pos.wf(),
        0 <= inp.order_size_min,
        model::is_count(inp.order_size_max as int),
        m.attempts < u32::MAX,
    ensures
        m.stepped(inp).1 matches ReduceAction::SendIoc { side, size, price } ==> model::is_count(
            size as int,
        ),
        m.stepped(inp).1 matches ReduceAction::SendMarket { side, size } ==> model::is_count(
            size as int,
        ),
{
    reduce::exits_only_reduce(m, inp);
}

impl Decision {
    /// What the decision and the engine make up together.
    pub open spec fn with(self, e: Engine) -> Step {
        Step { v: e@, d: self@ }
    }

    fn send_all(&mut self, sends: Vec<TradeCommand>)
        ensures
            final(self)@ == (DecisionView {
                sends: old(self)@.sends + gate_trade::trade_views(sends@),
                ..old(self)@
            }),
    {
        let ghost before = self.sends@;
        let ghost more = sends@;
        let mut sends = sends;
        self.sends.append(&mut sends);
        assert(gate_trade::trade_views(self.sends@) =~= gate_trade::trade_views(before)
            + gate_trade::trade_views(more));
    }
}

impl Engine {
    /// The order books have room for what one cycle may do.
    pub open spec fn has_room(self) -> bool {
        &&& self@.orders.room((2 * self@.orders.orders.len() + 1) as int)
        &&& self@.reduce.attempts < u32::MAX
    }

    /// Whether a cycle can run within the limits of the counters.
    pub fn can_cycle(&self) -> (r: bool)
        ensures
            r == (self.has_room() && self@.flags.cycles < u64::MAX),
    {
        let n: u128 = 2 * (self.orders.all().len() as u128) + 1;
        n <= u64::MAX as u128 && self.orders.has_room(n as u64)
            && self.reduce.attempts < u32::MAX && self.flags.cycles < u64::MAX
    }

    /// Counts a cycle; none runs once the engine has finished.
    pub fn begin_cycle(&mut self) -> (r: bool)
        requires
            old(self)@.flags.cycles < u64::MAX,
        ensures
            r == !old(self)@.flags.finished,
            final(self)@ == (EngineView {
                flags: Flags {
                    cycles: (old(self)@.flags.cycles + 1) as u64,
                    ..old(self)@.flags
                },
                ..old(self)@
            }),
            old(self).wf() ==> final(self).wf(),
            old(self).has_room() ==> final(self).has_room(),
    {
        self.flags.cycles = self.flags.cycles + 1;
        !self.flags.finished
    }

    pub(crate) fn private_up(&self) -> (r: bool)
        ensures
            r == self@.private_up(),
    {
        self.rules.paper || self.feed_connected(Feed::GatePrivate)
    }

    /// Step 2: how far the market, the account and the position can be trusted.
    pub fn assess(&mut self, f: MarketFacts, now: Instant) -> (r: TrustReport)
        requires
            old(self).wf(),
        ensures
            (final(self)@, r@) == old(self)@.assessed(f, now),
            final(self).wf(),
            old(self).has_room() ==> final(self).has_room(),
    {
        let position_ok = self.reconciler.check(self.inventory.pos, &self.rules.risk, now);
        let binance_age = if self.feed_connected(Feed::Binance) {
            f.binance_age
        } else {
            None
        };
        let gate_bbo_age = if self.feed_connected(Feed::GatePublic) {
            match self.gate {
                Some(g) => Some(now.saturating_duration_since(g.at)),
                None => None,
            }
        } else {
            None
        };
        let private_age = if self.rules.paper {
            Some(Duration::from_nanos(0))
        } else {
            match self.private_hb {
                Some(t) => Some(now.saturating_duration_since(t)),
                None => None,
            }
        };
        let account_age = match self.account_at {
            Some(t) => Some(now.saturating_duration_since(t)),
            None => None,
        };
        risk::evaluate(
            &self.rules.risk,
            TrustInputs {
                binance_age,
                gate_bbo_age,
                gate_book_synced: self.book.is_synced(),
                private_connected: self.private_up(),
                private_age,
                account_age,
                position_ok,
                margin_ok: f.margin_ok,
                basis: f.basis,
                session: f.session,
                session_tradable: f.session_listed && f.samples_ok,
                loss_limit_hit: f.loss_hit,
                halted: self.flags.halted,
                mark_deviates: f.mark_deviates,
            },
        )
    }
}


/// Room for one round of cancels and an exit.
spec fn room_for_round(v: EngineView) -> bool {
    v.orders.room((v.orders.orders.len() + 1) as int) && v.reduce.attempts < u32::MAX
}

impl Engine {
    fn trigger_if(
        &mut self,
        d: &mut Decision,
        cond: bool,
        reason: ReduceReason,
        target: i64,
        marks: bool,
        now: Instant,
    )
        requires
            old(self).wf(),
        ensures
            final(d).with(*final(self)) == old(d).with(*old(self)).trigger_if(
                cond,
                reason,
                target,
                marks,
                now,
            ),
            final(self).wf(),
            final(self)@.orders == old(self)@.orders,
            old(self)@.reduce.attempts < u32::MAX ==> final(self)@.reduce.attempts < u32::MAX,
    {
        if cond {
            let started = self.reduce.trigger(reason, target, now);
            if started && marks {
                self.flags.used_reduce = true;
            }
            if started {
                d.started = true;
            }
        }
    }

    fn stop_resting(&mut self, d: &mut Decision, now: Instant)
        requires
            old(self).wf(),
            old(self)@.orders.next_req + old(self)@.orders.orders.len() <= u64::MAX,
        ensures
            final(d).with(*final(self)) == old(d).with(*old(self)).stop_resting(now),
            final(self).wf(),
            final(self)@.reduce == old(self)@.reduce,
            final(self)@.orders.next_req <= old(self)@.orders.next_req
                + old(self)@.orders.orders.len(),
            final(self)@.orders.next_id == old(self)@.orders.next_id,
            final(self)@.orders.orders.len() == old(self)@.orders.orders.len(),
    {
        let sends = self.cancel_non_exit(now);
        d.send_all(sends);
    }

    fn stop_adds(&mut self, d: &mut Decision, now: Instant)
        requires
            old(self).wf(),
            old(self)@.orders.next_req + old(self)@.orders.orders.len() <= u64::MAX,
        ensures
            final(d).with(*final(self)) == old(d).with(*old(self)).stop_adds(now),
            final(self).wf(),
    {
        let sends = self.cancel_open_purpose(now);
        d.send_all(sends);
    }

    fn tick_band(&mut self, f: CycleFacts, now: Instant) -> (adds: i128)
        requires
            old(self).wf(),
        ensures
            final(self)@ == (EngineView {
                inventory: old(self)@.inventory.ticked(
                    f.in_band,
                    pending_adds(old(self)@.orders),
                    now,
                ),
                ..old(self)@
            }),
            adds == pending_adds(old(self)@.orders),
            final(self).wf(),
    {
        let e = self.orders.uncontrolled_exposure();
        let adds: i128 = e.open_buy + e.open_sell;
        self.inventory.tick(f.in_band, adds, now);
        adds
    }

    fn send_exit(
        &mut self,
        d: &mut Decision,
        side: Side,
        size: i64,
        price: Option<Ticks>,
        now: Instant,
        now_ms: i64,
    )
        requires
            old(self).wf(),
            old(self)@.orders.room(1),
            model::is_count(size as int),
        ensures
            ({
                let s = old(d).with(*old(self));
                let (v, send) = s.v.exit_sent(side, size, price, now, now_ms);
                final(d).with(*final(self)) == s.sending(v, seq![send])
            }),
            final(self).wf(),
    {
        let ghost v = self@;
        let (id, cmd) = self.orders.place(
            side,
            Purpose::Reduce,
            u8::MAX,
            price,
            size,
            Tif::Ioc,
            now,
            now_ms,
        );
        self.exits.push(ExitOrder { id, market: price.is_none() });
        let ghost before = d.sends@;
        let c = TradeCommand { cmd, side };
        d.sends.push(c);
        proof {
            assert(gate_trade::trade_views(d.sends@) =~= gate_trade::trade_views(before)
                + seq![c@]);
            assert(self@.exits =~= v.exit_sent(side, size, price, now, now_ms).0.exits);
        }
    }

    fn halt(&mut self, d: &mut Decision, now: Instant, now_ms: i64)
        requires
            old(self).wf(),
            old(self)@.orders.next_req + old(self)@.orders.orders.len() <= u64::MAX,
        ensures
            final(d).with(*final(self)) == old(d).with(*old(self)).halt(now, now_ms),
            final(self).wf(),
    {
        if !self.flags.halted {
            self.flags.halted = true;
            self.stop_resting(d, now);
            let mut req_id = String::new();
            req_id.push('c');
            req_id.push('a');
            req_id.push('-');
            text::push_signed(&mut req_id, now_ms);
            assert(req_id@ =~= cancel_all_id(now_ms));
            let ghost before = d.sends@;
            let c = TradeCommand { cmd: ExecCommand::CancelAll { req_id }, side: Side::Buy };
            d.sends.push(c);
            d.snapshot = true;
            assert(gate_trade::trade_views(d.sends@) =~= gate_trade::trade_views(before).push(c@));
        }
    }

    fn run_reduce(&mut self, d: &mut Decision, f: CycleFacts, now: Instant, now_ms: i64)
        requires
            old(self).wf(),
            room_for_round(old(self)@),
        ensures
            final(d).with(*final(self)) == old(d).with(*old(self)).reduce_step(f, now, now_ms),
            final(self).wf(),
    {
        reveal(Step::reduce_step);
        let ghost v = self@;
        let own = self.orders.own_resting();
        let conflicts_pending = self.has_conflicts();
        let exit_inflight = self.exit_inflight();
        proof {
            lemma_exit_size(v.reduce, v.reduce_inputs(f, now));
        }
        let action = self.reduce.step(
            ReduceInputs {
                now,
                pos: self.inventory.pos,
                sell_cap: f.sell_cap,
                buy_cap: f.buy_cap,
                book: &self.book,
                own: own.as_slice(),
                order_size_min: self.rules.order_size_min,
                order_size_max: self.rules.order_size_max,
                conflicts_pending,
                exit_inflight,
            },
        );
        match action {
            ReduceAction::Wait => {},
            ReduceAction::CancelConflicts => {
                self.stop_resting(d, now);
            },
            ReduceAction::SendIoc { side, size, price } => {
                self.send_exit(d, side, size, Some(price), now, now_ms);
            },
            ReduceAction::SendMarket { side, size } => {
                self.send_exit(d, side, size, None, now, now_ms);
            },
            ReduceAction::Completed => {
                self.reduce.reset();
            },
            ReduceAction::Halt => {
                self.halt(d, now, now_ms);
            },
        }
    }

    fn check_limits(&mut self, d: &mut Decision, f: CycleFacts, adds: i128, now: Instant)
        requires
            old(self).wf(),
        ensures
            final(d).with(*final(self)) == old(d).with(*old(self)).limits(f, adds as int, now),
            final(self).wf(),
            final(self)@.orders == old(self)@.orders,
            old(self)@.reduce.attempts < u32::MAX ==> final(self)@.reduce.attempts < u32::MAX,
    {
        reveal(Step::limits);
        self.trigger_if(d, f.loss_hit, ReduceReason::LossLimit, 0, false, now);
        self.trigger_if(d, f.cap_hit, ReduceReason::HardCap, 0, false, now);
        if !f.in_band && self.inventory.band_timed_out(now) {
            self.trigger_if(d, true, ReduceReason::BandTimeout, f.band_contracts, true, now);
        } else if let Some(start) = self.inventory.episode_start {
            if f.in_band && !self.reduce.is_active() && adds == 0 {
                d.digestion = Some(
                    Digestion {
                        span: now.saturating_duration_since(start),
                        used_reduce: self.flags.used_reduce,
                    },
                );
                self.inventory.clear_episode();
                self.flags.used_reduce = false;
            }
        }
    }

    fn check_signals(&mut self, d: &mut Decision, f: CycleFacts, now: Instant)
        requires
            old(self).wf(),
        ensures
            final(d).with(*final(self)) == old(d).with(*old(self)).signals(f, now),
            final(self).wf(),
            final(self)@.orders == old(self)@.orders,
            old(self)@.reduce.attempts < u32::MAX ==> final(self)@.reduce.attempts < u32::MAX,
    {
        reveal(Step::signals);
        self.protection.update(f.velocity, f.rising, f.impact, now);
        let pos = self.inventory.pos;
        let against = match self.protection.strong_side() {
            Some(Side::Sell) => pos.short > 0 && pos.net() < 0,
            Some(Side::Buy) => pos.long > 0 && pos.net() > 0,
            None => false,
        };
        self.trigger_if(
            d,
            !f.in_band && against,
            ReduceReason::StrongAgainstInventory,
            f.band_contracts,
            true,
            now,
        );
        self.trigger_if(
            d,
            !f.in_band && f.basis == BasisStatus::Abnormal && !pos.is_flat(),
            ReduceReason::BasisAbnormal,
            f.band_contracts,
            true,
            now,
        );
    }

    fn decide_unpriced(&mut self, d: &mut Decision, f: CycleFacts, now: Instant, now_ms: i64)
        requires
            old(self).wf(),
            old(self).has_room(),
        ensures
            final(d).with(*final(self)) == old(d).with(*old(self)).unpriced(f, now, now_ms),
            final(self).wf(),
    {
        self.stop_resting(d, now);
        if self.gate.is_none() {
            return ;
        }
        self.tick_band(f, now);
        if self.reduce.is_active() {
            self.run_reduce(d, f, now, now_ms);
        } else {
            let cond = !f.in_band && self.inventory.band_timed_out(now) && self.book.is_synced()
                && self.private_up();
            self.trigger_if(d, cond, ReduceReason::Untrusted, f.band_contracts, false, now);
        }
    }

    fn conclude(
        &mut self,
        d: &mut Decision,
        trust: &TrustReport,
        f: CycleFacts,
        now: Instant,
        now_ms: i64,
    )
        requires
            old(self).wf(),
            room_for_round(old(self)@),
        ensures
            final(d).with(*final(self)) == old(d).with(*old(self)).concluded(
                trust@,
                f,
                now,
                now_ms,
            ),
            final(self).wf(),
    {
        if self.reduce.is_active() {
            self.run_reduce(d, f, now, now_ms);
        } else {
            if !trust.allow_new_risk() {
                self.stop_adds(d, now);
            }
            d.quote = true;
        }
    }

    fn decide_priced(
        &mut self,
        d: &mut Decision,
        trust: &TrustReport,
        f: CycleFacts,
        now: Instant,
        now_ms: i64,
    )
        requires
            old(self).wf(),
            old(self).has_room(),
        ensures
            final(d).with(*final(self)) == old(d).with(*old(self)).priced(trust@, f, now, now_ms),
            final(self).wf(),
    {
        let adds: i128 = self.tick_band(f, now);
        if self.flags.halted {
            self.stop_resting(d, now);
            if self.reduce.is_active() {
                self.run_reduce(d, f, now, now_ms);
            }
            return ;
        }
        self.check_limits(d, f, adds, now);
        self.check_signals(d, f, now);
        if trust.allow_resting() {
            self.conclude(d, trust, f, now, now_ms);
        } else {
            self.stop_resting(d, now);
            if !self.inventory.pos.is_flat() && self.book.is_synced() && self.gate.is_some()
                && self.private_up() {
                self.trigger_if(d, true, ReduceReason::Untrusted, f.band_contracts, false, now);
                self.conclude(d, trust, f, now, now_ms);
            }
        }
    }

    /// Steps 3 and 6: limits, timers, protection and active reduction. Quotes
    /// follow where the decision says so.
    pub fn decide(&mut self, trust: &TrustReport, f: CycleFacts, now: Instant, now_ms: i64) -> (d:
        Decision)
        requires
            old(self).wf(),
            old(self).has_room(),
        ensures
            d.with(*final(self)) == Step::decided(old(self)@, trust@, f, now, now_ms),
            final(self).wf(),
    {
        let mut d = Decision {
            quote: false,
            sends: Vec::new(),
            started: false,
            snapshot: false,
            digestion: None,
        };
        assert(d@.sends =~= seq![]);
        if f.priced && trust.reference_ok {
            self.decide_priced(&mut d, trust, f, now, now_ms);
        } else {
            self.decide_unpriced(&mut d, f, now, now_ms);
        }
        d
    }
}


/// What the quotes need beyond the state of the engine.
#[derive(Debug, Clone, Copy, PartialEq, Eq, Structural)]
pub struct QuoteFacts {
    pub bounds: SideBounds,
    pub centre: Ticks,
    pub aggressive_buy: bool,
    pub aggressive_sell: bool,
    pub ext_bid: Option<Ticks>,
    pub ext_ask: Option<Ticks>,
    pub add_buy: bool,
    pub add_sell: bool,
    pub buy_base: i64,
    pub sell_base: i64,
    pub buy_reduce_base: i64,
    pub sell_reduce_base: i64,
    pub h_contracts: i64,
    pub gross_contracts: i64,
}

/// Orders in flight that the quotes cannot respecify: exits, and orders whose
/// purpose is not that of their side any more.
pub open spec fn beyond_control(o: OrderView, purposes: (Purpose, Purpose)) -> bool {
    let slot = match o.side {
        Side::Buy => purposes.0,
        Side::Sell => purposes.1,
    };
    o.layer == u8::MAX || o.purpose != slot
}

/// Risk-adding quotes reduced to what the margin affords.
pub open spec fn afforded(quotes: Seq<Quote>, limits: Seq<i64>) -> Seq<Quote> {
    Seq::new(
        quotes.len(),
        |i: int|
            if quotes[i].purpose == Purpose::Open && limits[i] < quotes[i].size {
                Quote { size: limits[i], ..quotes[i] }
            } else {
                quotes[i]
            },
    )
}

/// Quotes of at least the least order size.
pub open spec fn sizable(quotes: Seq<Quote>, min: i64) -> Seq<Quote>
    decreases quotes.len(),
{
    if quotes.len() == 0 {
        seq![]
    } else {
        let head = sizable(quotes.drop_last(), min);
        if quotes.last().size >= min {
            head.push(quotes.last())
        } else {
            head
        }
    }
}

/// Open orders that the strategy leaves itself under the exchange's limit.
pub open spec fn order_allowance(limit: i64) -> int {
    if limit > 2 {
        limit - 2
    } else {
        0
    }
}

impl EngineView {
    pub open spec fn quote_context(self, f: QuoteFacts, trusted: bool) -> QuoteContext {
        let pos = self.inventory.pos;
        let purposes = quote::purposes(pos);
        let p = |o: OrderView| beyond_control(o, purposes);
        let buy = self.protection.phase_of(Side::Buy);
        let sell = self.protection.phase_of(Side::Sell);
        QuoteContext {
            bounds: f.bounds,
            centre: f.centre,
            aggressive_buy: f.aggressive_buy,
            aggressive_sell: f.aggressive_sell,
            ext_bid: f.ext_bid,
            ext_ask: f.ext_ask,
            pos,
            inventory: self.inventory,
            uncontrolled: self.orders.exposure(p),
            buy_policy: protection::policy_of(buy, sell),
            sell_policy: protection::policy_of(sell, buy),
            allow_new_risk: trusted && !self.flags.shutting_down,
            add_buy: f.add_buy,
            add_sell: f.add_sell,
            layers: self.rules.quoting.layers,
            buy_base: f.buy_base,
            sell_base: f.sell_base,
            buy_reduce_base: f.buy_reduce_base,
            sell_reduce_base: f.sell_reduce_base,
            order_size_min: self.rules.order_size_min,
            order_size_max: self.rules.order_size_max,
            h_contracts: f.h_contracts,
            gross_contracts: f.gross_contracts,
        }
    }

    /// The quotes; nothing may rest while shutting down.
    pub open spec fn planned(self, ctx: QuoteContext, buy_outer: Seq<Ticks>, sell_outer: Seq<Ticks>) -> Seq<
        Quote,
    > {
        if self.flags.shutting_down {
            seq![]
        } else {
            ctx.quotes(buy_outer, sell_outer)
        }
    }

    /// The quotes within the margin, where the account is known, and within the
    /// exchange's limit on open orders.
    pub open spec fn clipped(self, quotes: Seq<Quote>, limits: Option<Seq<i64>>) -> Seq<Quote> {
        let fit = match limits {
            Some(l) => sizable(afforded(quotes, l), self.rules.order_size_min),
            None => quotes,
        };
        if fit.len() > order_allowance(self.rules.orders_limit) {
            fit.take(order_allowance(self.rules.orders_limit))
        } else {
            fit
        }
    }

    pub open spec fn reconcile_rules(self, bounds: SideBounds, grown: Seq<u64>) -> reconcile::Rules {
        let buy = self.protection.phase_of(Side::Buy);
        let sell = self.protection.phase_of(Side::Sell);
        reconcile::Rules {
            bounds,
            follow_tight_buy: protection::policy_of(buy, sell).follow_tight,
            follow_tight_sell: protection::policy_of(sell, buy).follow_tight,
            inner_ticks: self.rules.quoting.inner_requote_ticks,
            outer_ticks: self.rules.quoting.outer_requote_ticks,
            use_amend: self.rules.use_amend,
            grown,
        }
    }

    /// Our live orders brought in line with the quotes.
    pub open spec fn requoted(
        self,
        quotes: Seq<Quote>,
        bounds: SideBounds,
        grown: Seq<u64>,
        now: Instant,
        now_ms: i64,
    ) -> (EngineView, RequoteView) {
        let (m, rep) = reconcile::reconciled(
            self.orders,
            quotes,
            self.reconcile_rules(bounds, grown),
            now,
            now_ms,
        );
        (
            EngineView { orders: m, ..self },
            RequoteView {
                sends: desk::routed(m.orders, rep.commands),
                dangerous: rep.dangerous,
                repriced: rep.repriced,
                resized: rep.resized,
                placed: rep.placed,
                cancelled: rep.cancelled,
                kept: rep.kept,
            },
        )
    }
}

/// The commands of a requote, and what they were for.
pub struct Requote {
    pub sends: Vec<TradeCommand>,
    pub dangerous: usize,
    pub repriced: usize,
    pub resized: usize,
    pub placed: usize,
    pub cancelled: usize,
    pub kept: usize,
}

/// A requote as plain values.
pub ghost struct RequoteView {
    pub sends: Seq<TradeView>,
    pub dangerous: nat,
    pub repriced: nat,
    pub resized: nat,
    pub placed: nat,
    pub cancelled: nat,
    pub kept: nat,
}

impl View for Requote {
    type V = RequoteView;

    open spec fn view(&self) -> RequoteView {
        RequoteView {
            sends: gate_trade::trade_views(self.sends@),
            dangerous: self.dangerous as nat,
            repriced: self.repriced as nat,
            resized: self.resized as nat,
            placed: self.placed as nat,
            cancelled: self.cancelled as nat,
            kept: self.kept as nat,
        }
    }
}

impl Engine {
    /// What the quotes are computed from; `trusted` says that new risk is
    /// allowed.
    pub fn quote_context(&self, f: QuoteFacts, trusted: bool) -> (r: QuoteContext)
        requires
            self.wf(),
        ensures
            r == self@.quote_context(f, trusted),
            r.uncontrolled.wf(),
    {
        let pos = self.inventory.pos;
        let purposes = quote::side_purposes(pos);
        let pred = |o: &LocalOrder| -> (b: bool)
            ensures
                b == beyond_control(o@, purposes),
            {
                let slot = match o.side {
                    Side::Buy => purposes.0,
                    Side::Sell => purposes.1,
                };
                o.layer == u8::MAX || o.purpose != slot
            };
        let ghost p = |o: OrderView| beyond_control(o, purposes);
        assert(lifecycle::decides(pred, p));
        let uncontrolled = self.orders.uncontrolled_exposure_where(pred);
        QuoteContext {
            bounds: f.bounds,
            centre: f.centre,
            aggressive_buy: f.aggressive_buy,
            aggressive_sell: f.aggressive_sell,
            ext_bid: f.ext_bid,
            ext_ask: f.ext_ask,
            pos,
            inventory: self.inventory,
            uncontrolled,
            buy_policy: self.protection.policy(Side::Buy),
            sell_policy: self.protection.policy(Side::Sell),
            allow_new_risk: trusted && !self.flags.shutting_down,
            add_buy: f.add_buy,
            add_sell: f.add_sell,
            layers: self.rules.quoting.layers,
            buy_base: f.buy_base,
            sell_base: f.sell_base,
            buy_reduce_base: f.buy_reduce_base,
            sell_reduce_base: f.sell_reduce_base,
            order_size_min: self.rules.order_size_min,
            order_size_max: self.rules.order_size_max,
            h_contracts: f.h_contracts,
            gross_contracts: f.gross_contracts,
        }
    }

    /// The quotes, before margin and order limits.
    pub fn plan_quotes(&self, ctx: &QuoteContext, buy_outer: &Vec<Ticks>, sell_outer: &Vec<Ticks>) -> (r:
        (Vec<Quote>, QuoteSet))
        requires
            ctx.wf(),
        ensures
            r.0@ == self@.planned(*ctx, buy_outer@, sell_outer@),
            r.1.bounds == ctx.bounds,
            r.1.inner_bid == Some(ctx.prices(buy_outer@, sell_outer@).0[0]),
            r.1.inner_ask == Some(ctx.prices(buy_outer@, sell_outer@).1[0]),
    {
        let (quotes, set) = quote::build_quotes(ctx, buy_outer, sell_outer);
        if self.flags.shutting_down {
            (Vec::new(), set)
        } else {
            (quotes, set)
        }
    }

    /// The quotes that fit. `limits` holds the size that the margin affords for
    /// each quote, where the account is known.
    pub fn clip_quotes(&self, quotes: Vec<Quote>, limits: Option<&Vec<i64>>) -> (r: Vec<Quote>)
        requires
            limits matches Some(l) ==> l.len() == quotes.len(),
        ensures
            r@ == self@.clipped(
                quotes@,
                match limits {
                    Some(l) => Some(l@),
                    None => None,
                },
            ),
    {
        let mut fit: Vec<Quote> = match limits {
            Some(l) => self.affordable(&quotes, l),
            None => quotes,
        };
        let allowance: usize = if self.rules.orders_limit > 2 {
            if (self.rules.orders_limit - 2) as u64 > usize::MAX as u64 {
                usize::MAX
            } else {
                (self.rules.orders_limit - 2) as usize
            }
        } else {
            0
        };
        let ghost before = fit@;
        if fit.len() > allowance {
            fit.truncate(allowance);
            assert(fit@ =~= before.take(allowance as int));
        }
        fit
    }

    fn affordable(&self, quotes: &Vec<Quote>, limits: &Vec<i64>) -> (r: Vec<Quote>)
        requires
            limits.len() == quotes.len(),
        ensures
            r@ == sizable(afforded(quotes@, limits@), self@.rules.order_size_min),
    {
        let ghost all = afforded(quotes@, limits@);
        let mut r: Vec<Quote> = Vec::new();
        let mut i: usize = 0;
        assert(all.take(0) =~= seq![]);
        while i < quotes.len()
            invariant
                i <= quotes.len(),
                limits.len() == quotes.len(),
                all == afforded(quotes@, limits@),
                r@ == sizable(all.take(i as int), self@.rules.order_size_min),
            decreases quotes.len() - i,
        {
            let mut q = quotes[i];
            if q.purpose == Purpose::Open && limits[i] < q.size {
                q.size = limits[i];
            }
            proof {
                assert(all.take(i + 1).drop_last() =~= all.take(i as int));
                assert(all.take(i + 1).last() == all[i as int]);
                assert(all[i as int] == q);
            }
            if q.size >= self.rules.order_size_min {
                r.push(q);
            }
            i = i + 1;
        }
        assert(all.take(i as int) =~= all);
        r
    }

    /// Step 9: bring our live orders in line with the quotes. `grown` names the
    /// orders whose wanted size outgrew the tolerance.
    pub fn requote(
        &mut self,
        quotes: &Vec<Quote>,
        bounds: SideBounds,
        grown: &Vec<u64>,
        now: Instant,
        now_ms: i64,
    ) -> (r: Requote)
        requires
            old(self).wf(),
            old(self)@.orders.room((old(self)@.orders.orders.len() + quotes.len()) as int),
            forall|i: int| 0 <= i < quotes.len() ==> (#[trigger] quotes@[i]).size
                <= MAX_CONTRACTS,
        ensures
            (final(self)@, r@) == old(self)@.requoted(quotes@, bounds, grown@, now, now_ms),
            final(self).wf(),
    {
        let buy = self.protection.policy(Side::Buy);
        let sell = self.protection.policy(Side::Sell);
        let cfg = self.rules.quoting;
        let params = ReconcileParams {
            bounds,
            follow_tight_buy: buy.follow_tight,
            follow_tight_sell: sell.follow_tight,
            cfg: &cfg,
            use_amend: self.rules.use_amend,
            grown,
        };
        let rep = reconcile::reconcile(&mut self.orders, quotes, params, now, now_ms);
        let sends = self.dispatch(rep.commands);
        Requote {
            sends,
            dangerous: rep.dangerous,
            repriced: rep.repriced,
            resized: rep.resized,
            placed: rep.placed,
            cancelled: rep.cancelled,
            kept: rep.kept,
        }
    }

    /// Whether a requote can be numbered and its sizes booked.
    pub fn can_requote(&self, quotes: &Vec<Quote>) -> (r: bool)
        ensures
            r == (self@.orders.room((self@.orders.orders.len() + quotes.len()) as int) && (
            forall|i: int| 0 <= i < quotes.len() ==> (#[trigger] quotes@[i]).size
                <= MAX_CONTRACTS)),
    {
        let n: u128 = self.orders.all().len() as u128 + quotes.len() as u128;
        if n > u64::MAX as u128 || !self.orders.has_room(n as u64) {
            return false;
        }
        let mut i: usize = 0;
        while i < quotes.len()
            invariant
                i <= quotes.len(),
                forall|k: int| 0 <= k < i ==> (#[trigger] quotes@[k]).size <= MAX_CONTRACTS,
            decreases quotes.len() - i,
        {
            if quotes[i].size > MAX_CONTRACTS {
                return false;
            }
            i = i + 1;
        }
        true
    }
}

} // verus!
