//! The engine from event to order, with the simulated exchange behind it. The
//! desk below computes in real numbers what the engine takes as facts.

use std::collections::VecDeque;

use stock_mm::config::Config;
use stock_mm::engine::cycle::{CycleFacts, MarketFacts, QuoteFacts};
use stock_mm::engine::desk::{mode_label, positions_from_exchange, Engine};
use stock_mm::engine::events::{AccountInfo, Event, Feed, PositionInfo};
use stock_mm::engine::paper::{PaperEvent, PaperExchange};
use stock_mm::exchange::gate_trade::TradeCommand;
use stock_mm::market::basis::{BasisEstimator, BasisInput, BasisStatus, Deviation};
use stock_mm::market::book::{BookDelta, BookSnapshot, DepthLevel};
use stock_mm::market::reference::{Bbo, ReferencePrice};
use stock_mm::market::session::SessionKind;
use stock_mm::metrics::Metrics;
use stock_mm::order::model::{ExecCommand, LocalOrder, OrderState, UserTrade};
use stock_mm::order::reconcile::size_growths;
use stock_mm::strategy::inventory::Positions;
use stock_mm::strategy::protection::{DistanceScale, Level, SidePolicy, SizeScale};
use stock_mm::strategy::quote::SideBounds;
use stock_mm::strategy::risk::TrustReport;
use stock_mm::time::{Duration, Instant};
use stock_mm::types::{Purpose, Side, Ticks};

const TICK: f64 = 0.01;
const MULTIPLIER: f64 = 0.01;
const H: f64 = 5000.0;
const NOW_MS: i64 = 1_789_000_000_000;

fn at(ms: u64) -> Instant {
    Instant::from_nanos(1_000_000_000_000 + ms * 1_000_000)
}

fn floor(px: f64) -> Ticks {
    (px / TICK + 1e-7).floor() as Ticks
}

fn ceil(px: f64) -> Ticks {
    (px / TICK - 1e-7).ceil() as Ticks
}

fn contracts(usdt: f64, fair: f64) -> i64 {
    (usdt / (MULTIPLIER * fair) + 1e-9).floor().max(0.0) as i64
}

fn quantile(values: &[f64], q: f64) -> Option<f64> {
    let mut v = values.to_vec();
    if v.is_empty() {
        return None;
    }
    v.sort_by(|a, b| a.partial_cmp(b).unwrap());
    let pos = q * (v.len() - 1) as f64;
    let (lo, hi) = (pos.floor() as usize, pos.ceil() as usize);
    let w = pos - lo as f64;
    Some(v[lo] * (1.0 - w) + v[hi] * w)
}

fn size_mult(p: &SidePolicy) -> f64 {
    let own: f64 = match p.size {
        SizeScale::Full => 1.0,
        SizeScale::Light | SizeScale::Half => 0.5,
        SizeScale::Zero => 0.0,
    };
    if p.size_capped {
        own.min(0.5)
    } else {
        own
    }
}

fn distance_mult(p: &SidePolicy) -> f64 {
    match p.distance {
        DistanceScale::Normal => 1.0,
        DistanceScale::Light => 1.5,
    }
}

struct Desk {
    eng: Engine,
    paper: PaperExchange,
    reference: ReferencePrice<f64>,
    basis: BasisEstimator<f64>,
    metrics: Metrics<f64>,
    queue: VecDeque<Event<f64>>,
    available: Option<f64>,
    delta: f64,
    fair: Option<f64>,
    reasons: Vec<String>,
    clock: Instant,
}

impl Desk {
    fn new() -> Self {
        Self::with(Config::default())
    }

    fn with(mut cfg: Config) -> Self {
        cfg.pricing.basis_min_samples = 5;
        cfg.pricing.basis_sample_interval_ms = 0;
        let flat = Positions { long: 0, short: 0 };
        Self {
            eng: Engine::new(&cfg, true, 1, 1_000_000, 100, true, flat),
            paper: PaperExchange::new(),
            reference: ReferencePrice::new(
                Duration::from_secs(300),
                Duration::from_millis(200),
                Duration::from_millis(100),
            ),
            basis: BasisEstimator::new(cfg.pricing),
            metrics: Metrics::new(Duration::from_secs(10), at(0)),
            queue: VecDeque::new(),
            available: None,
            delta: 2.0,
            fair: None,
            reasons: vec![],
            clock: at(0),
        }
    }

    fn push_paper(&mut self, list: Vec<PaperEvent>) {
        for e in list {
            self.queue.push_back(match e {
                PaperEvent::Exec(r) => Event::Exec(r),
                PaperEvent::Order(i) => Event::GateOrder(i),
                PaperEvent::Trade(t, _) => Event::GateUserTrade(UserTrade {
                    trade_id: t.trade_id,
                    exchange_order_id: t.exchange_order_id,
                    client_id: t.client_id,
                    signed_size: t.signed_size,
                    price: t.price,
                    price_f64: t.price as f64 * TICK,
                    fee: 0.0,
                    is_maker: t.is_maker,
                    exch_ms: t.exch_ms,
                    at: t.at,
                }),
            });
        }
    }

    fn send(&mut self, sends: Vec<TradeCommand>) {
        for tc in sends {
            assert!(self.paper.can_execute(&tc.cmd));
            let list = self.paper.execute(&tc.cmd, &self.eng.book, self.clock, NOW_MS);
            self.push_paper(list);
        }
    }

    fn handle(&mut self, ev: Event<f64>) {
        self.queue.push_back(ev);
        let mut budget = 10_000;
        while let Some(ev) = self.queue.pop_front() {
            if self.apply(ev) {
                self.cycle();
            }
            budget -= 1;
            assert!(budget > 0, "feedback loop");
        }
    }

    fn apply(&mut self, ev: Event<f64>) -> bool {
        let now = self.clock;
        match &ev {
            Event::BinanceBbo(b) => {
                let mid = (b.bid + b.ask) / 2.0;
                if let Some(m) = self.reference.update(*b, mid) {
                    self.reference.push_move(b.recv, 10_000.0 * (mid / m).ln().abs());
                }
            }
            Event::GateBbo { bid, ask, at, .. } => {
                let list = self.paper.on_bbo(*bid, *ask, *at, NOW_MS);
                self.push_paper(list);
            }
            Event::GateTrade { price, signed_size, at, .. } => {
                let list = self.paper.on_trade(*price, *signed_size, *at, NOW_MS);
                self.push_paper(list);
            }
            Event::GateAccount(a) => self.available = Some(a.available),
            _ => {}
        }
        let timer = match &ev {
            Event::Timer(t) => Some(*t),
            _ => None,
        };
        assert!(self.eng.can_apply(&ev));
        let out = self.eng.apply_event(ev, now, NOW_MS);
        if let Some(b) = out.fill {
            self.metrics.on_fill(b.fill.side, b.fill.price_f64, b.fill.size, b.fill.is_maker, b.fill.at);
            if let Some(market) = b.exit {
                self.metrics.on_exit_fill(b.fill.size, market);
            }
        }
        self.send(out.sends);
        if let Some(t) = timer {
            let plan = self.eng.on_timer(t, NOW_MS);
            if plan.poll_account {
                let mark = self.fair.unwrap_or(1000.0);
                let pos = self.paper.positions();
                let used = (pos.long + pos.short) as f64 * MULTIPLIER * mark / 5.0;
                self.queue.push_back(Event::GateAccount(AccountInfo {
                    user_id: 0,
                    total: 10_000.0,
                    available: 10_000.0 - used,
                    unrealised_pnl: 0.0,
                    order_margin: 0.0,
                    position_margin: used,
                    in_dual_mode: true,
                    at: t,
                }));
                self.queue.push_back(self.paper.positions_event(0.0, 0.0, NOW_MS));
            }
            self.send(plan.sends);
        }
        out.run_cycle
    }

    fn observe_basis(&mut self, now: Instant) {
        let (eb, ea) = self.eng.external_bbo();
        if let (Some(b), Some(eb), Some(ea), Some(g)) = (self.reference.last(), eb, ea, self.eng.gate) {
            let bm = (b.bid + b.ask) / 2.0;
            let gm = (eb as f64 + ea as f64) / 2.0 * TICK;
            let beta_t = 10_000.0 * (gm / bm - 1.0);
            let stop = self.basis.dstop_cache().map_or(5.0 * self.delta, |q| q.max(5.0 * self.delta));
            let deviation = self.basis.beta0().map(|b0| {
                let d = (beta_t - b0).abs();
                Deviation { d, beyond_stop: d > stop, recovered: d <= stop * 0.5 }
            });
            let informative = 10_000.0 * (ea - eb) as f64 * TICK / gm <= 15.0;
            let inp = BasisInput { beta_t, binance_recv: b.recv, gate_recv: g.at, informative, deviation };
            self.basis.observe(inp, now);
            if let Some(plan) = self.basis.begin_recompute(now) {
                let m = if plan.median { quantile(&self.basis.beta_values(), 0.5) } else { None };
                let q = if plan.quantile { quantile(&self.basis.d_values(), 0.99) } else { None };
                self.basis.finish_recompute(plan, m, q);
            }
        }
    }

    fn cycle(&mut self) {
        let now = self.clock;
        assert!(self.eng.can_cycle());
        if !self.eng.begin_cycle() {
            return;
        }
        self.basis.set_session(SessionKind::Regular);
        self.observe_basis(now);
        let mid = self.reference.last().map(|b| (b.bid + b.ask) / 2.0);
        self.fair = match (mid, self.basis.beta0()) {
            (Some(m), Some(b)) => Some(m * (1.0 + b / 10_000.0)),
            _ => None,
        };
        if let Some(f) = self.fair {
            let tick_bps = 10_000.0 * TICK / f;
            self.delta = 2.0f64.max(tick_bps).max(quantile(&self.reference.moves(), 0.9).unwrap_or(0.0));
        }
        let market = MarketFacts {
            binance_age: self.reference.age(now),
            margin_ok: self.available.is_some_and(|a| a > 50.0),
            basis: self.basis.status(),
            samples_ok: self.basis.samples() >= 5,
            session: SessionKind::Regular,
            session_listed: true,
            loss_hit: false,
            mark_deviates: false,
        };
        let trust = self.eng.assess(market, now);
        self.reasons = trust.reasons.clone();
        let fair = self.fair.filter(|_| trust.reference_ok);
        let gate_mid = self.eng.gate.map(|g| (g.bid + g.ask) as f64 / 2.0 * TICK);
        let price = fair.or(gate_mid).unwrap_or(1000.0);
        let q = (self.eng.inventory.pos.net() as f64 * MULTIPLIER * price).abs();
        let facts = CycleFacts {
            priced: self.fair.is_some(),
            in_band: q <= 0.1 * H,
            band_contracts: contracts(0.1 * H, price),
            cap_hit: q >= H,
            loss_hit: false,
            velocity: Level::Off,
            rising: false,
            impact: None,
            basis: self.basis.status(),
            sell_cap: ceil(price * (1.0 - 0.0015)),
            buy_cap: floor(price * (1.0 + 0.0015)),
        };
        let d = self.eng.decide(&trust, facts, now, NOW_MS);
        if let Some(x) = d.digestion {
            self.metrics.on_digestion_episode(x.span, x.used_reduce);
        }
        self.send(d.sends);
        if let (true, Some(f)) = (d.quote, self.fair) {
            self.quote(f, &trust, now);
        }
    }

    fn quote(&mut self, f: f64, trust: &TrustReport, now: Instant) {
        let u = (self.eng.inventory.pos.net() as f64 * MULTIPLIER * f / H).clamp(-1.0, 1.0);
        let (buy, sell) = (self.eng.protection.policy(Side::Buy), self.eng.protection.policy(Side::Sell));
        let r = f * (1.0 - self.delta * u / 10_000.0);
        let dist = |mult: f64| f * self.delta * mult / 10_000.0;
        let v = 0.05 * H;
        let (ext_bid, ext_ask) = self.eng.external_bbo();
        let facts = QuoteFacts {
            bounds: SideBounds {
                buy_open_max: floor(r - dist(distance_mult(&buy))),
                buy_reduce_max: floor(r - dist(1.0)),
                sell_open_min: ceil(r + dist(distance_mult(&sell))),
                sell_reduce_min: ceil(r + dist(1.0)),
            },
            centre: (r / TICK).round() as Ticks,
            aggressive_buy: u <= -0.5,
            aggressive_sell: u >= 0.5,
            ext_bid,
            ext_ask,
            add_buy: u < 0.5,
            add_sell: -u < 0.5,
            buy_base: contracts(v * (1.0 - u).max(0.0) * size_mult(&buy), f),
            sell_base: contracts(v * (1.0 + u).max(0.0) * size_mult(&sell), f),
            buy_reduce_base: contracts(v * (1.0 - u).max(0.0), f),
            sell_reduce_base: contracts(v * (1.0 + u).max(0.0), f),
            h_contracts: contracts(H, f),
            gross_contracts: contracts(H, f),
        };
        let ctx = self.eng.quote_context(facts, trust.allow_new_risk());
        assert!(ctx.is_valid());
        let outer = |side: Side, inner: Ticks| -> Vec<Ticks> {
            [0.5, 1.25]
                .iter()
                .map(|off| match side {
                    Side::Buy => floor(inner as f64 * TICK - dist(*off)),
                    Side::Sell => ceil(inner as f64 * TICK + dist(*off)),
                })
                .collect()
        };
        let (buy_outer, sell_outer) = (outer(Side::Buy, ctx.inner_buy()), outer(Side::Sell, ctx.inner_sell()));
        let (planned, set) = self.eng.plan_quotes(&ctx, &buy_outer, &sell_outer);
        let limits = self.available.map(|a| {
            let mut free = a - 50.0;
            let mut out = vec![];
            for q in &planned {
                let mut size = q.size;
                if q.purpose == Purpose::Open {
                    if size as f64 * MULTIPLIER * f / 5.0 > free {
                        size = size.min(contracts(free.max(0.0) * 5.0, f));
                    }
                    free -= size as f64 * MULTIPLIER * f / 5.0;
                }
                out.push(size);
            }
            out
        });
        let quotes = self.eng.clip_quotes(planned, limits.as_ref());
        assert!(self.eng.can_requote(&quotes));
        let grown: Vec<u64> = size_growths(&self.eng.orders, &quotes)
            .iter()
            .filter(|g| (g.wanted - g.remaining) as f64 > 0.3 * g.remaining.max(1) as f64)
            .map(|g| g.id)
            .collect();
        let rep = self.eng.requote(&quotes, set.bounds, &grown, now, NOW_MS);
        self.send(rep.sends);
    }

    fn active(&self, side: Side) -> Vec<&LocalOrder> {
        self.eng.orders.active().into_iter().filter(|o| o.side == side).collect()
    }

    fn step(&mut self, t: Instant) {
        self.clock = t;
        self.handle(Event::Timer(t));
        self.handle(gate_bbo(99980, 100020, t));
        self.handle(bbo(999.9, 1000.1, t));
    }

    fn connect(&mut self) {
        self.handle(Event::FeedStatus { feed: Feed::Binance, connected: true, at: at(0) });
        self.handle(Event::FeedStatus { feed: Feed::GatePublic, connected: true, at: at(0) });
    }

    fn seed(&mut self, bids: Vec<DepthLevel>, asks: Vec<DepthLevel>) {
        self.handle(Event::GateBookSnapshot(BookSnapshot { id: 1, bids, asks }));
        self.handle(Event::GateBookDelta(BookDelta { first_id: 2, last_id: 2, bids: vec![], asks: vec![], full: false }));
    }
}

fn bbo(bid: f64, ask: f64, t: Instant) -> Event<f64> {
    Event::BinanceBbo(Bbo { bid, ask, bid_qty: 1.0, ask_qty: 1.0, exch_ts_ms: 0, recv: t })
}

fn gate_bbo(bid: Ticks, ask: Ticks, t: Instant) -> Event<f64> {
    Event::GateBbo { bid, bid_size: 10, ask, ask_size: 10, exch_ms: 0, at: t }
}

fn lvl(price: Ticks, size: i64) -> DepthLevel {
    DepthLevel { price, size }
}

fn print(price: Ticks, signed_size: i64, trade_id: u64, t: Instant) -> Event<f64> {
    Event::GateTrade { price, price_f64: price as f64 * TICK, signed_size, trade_id, at: t }
}

#[test]
fn end_to_end_quote_fill_reduce_and_band_timeout() {
    let mut eng = Desk::new();
    eng.connect();
    eng.seed(vec![lvl(99980, 50), lvl(99970, 200)], vec![lvl(100020, 50), lvl(100030, 200)]);
    assert!(eng.eng.book.is_synced());

    for i in 0..8 {
        eng.step(at(200 * i));
    }
    assert_eq!(eng.basis.status(), BasisStatus::Normal, "trust={:?}", eng.reasons);
    assert!(eng.reasons.is_empty(), "trust={:?}", eng.reasons);
    assert_eq!(eng.eng.orders.active_count(), 6);
    let buys = eng.active(Side::Buy);
    let inner_bid = buys.iter().find(|o| o.layer == 0).unwrap();
    assert_eq!(inner_bid.price, Some(99980));
    assert_eq!(inner_bid.purpose, Purpose::Open);
    assert_eq!(inner_bid.size, 25);
    assert!(eng.eng.orders.active().iter().all(|o| o.state == OrderState::Live));

    let t1 = 1700;
    eng.clock = at(t1);
    eng.handle(print(99980, -25, 1, at(t1)));
    assert_eq!(eng.eng.inventory.pos.long, 25);
    eng.step(at(t1 + 50));
    eng.step(at(t1 + 100));
    let sells = eng.active(Side::Sell);
    assert!(!sells.is_empty());
    assert!(sells.iter().all(|o| o.purpose == Purpose::Reduce && o.reduce_only), "{sells:?}");
    assert!(sells.iter().map(|o| o.remaining()).sum::<i64>() <= 25);
    assert!(eng.active(Side::Buy).iter().all(|o| o.purpose == Purpose::Open));

    let t2 = t1 + 300;
    eng.clock = at(t2);
    eng.handle(print(99950, -200, 2, at(t2)));
    assert!(eng.eng.inventory.pos.long > 50, "long={}", eng.eng.inventory.pos.long);
    let long_before = eng.eng.inventory.pos.long;
    eng.step(at(t2 + 50));
    assert!(!eng.eng.reduce.is_active());
    for i in 1..=8 {
        eng.step(at(t2 + 50 + 450 * i));
    }
    assert!(eng.eng.inventory.pos.long < long_before, "long={}", eng.eng.inventory.pos.long);
    assert!(eng.eng.inventory.pos.long <= 50, "long={}", eng.eng.inventory.pos.long);
    assert!(eng.metrics.exit.ioc_orders >= 1);
    assert!(eng.metrics.fills.taker_contracts > 0);
    assert!(!eng.eng.reduce.is_halted());
    for i in 1..=3 {
        eng.step(at(t2 + 5000 + 200 * i));
    }
    assert!(!eng.eng.reduce.is_active());
    assert!(eng.eng.orders.active_count() > 0);
}

#[test]
fn stale_binance_cancels_everything_and_shutdown_finishes() {
    let mut eng = Desk::new();
    eng.connect();
    eng.seed(vec![lvl(99980, 50)], vec![lvl(100020, 50)]);
    for i in 0..8 {
        eng.step(at(200 * i));
    }
    assert_eq!(eng.eng.orders.active_count(), 6);
    let t1 = 1400 + 6000;
    eng.clock = at(t1);
    eng.handle(Event::Timer(at(t1)));
    eng.handle(gate_bbo(99980, 100020, at(t1)));
    assert!(eng.reasons.iter().any(|r| r == "binance_stale"));
    assert_eq!(eng.eng.orders.active_count(), 0);
    eng.handle(Event::Shutdown);
    eng.handle(Event::Timer(at(t1 + 100)));
    assert!(eng.eng.is_finished());
}

/// A desk that quotes, then buys 25 contracts.
fn desk_with_a_position(cfg: Config) -> Desk {
    let mut eng = Desk::with(cfg);
    eng.connect();
    eng.seed(vec![lvl(99980, 50), lvl(99970, 200)], vec![lvl(100020, 50), lvl(100030, 200)]);
    for i in 0..8 {
        eng.step(at(200 * i));
    }
    eng.clock = at(1700);
    eng.handle(print(99980, -25, 1, at(1700)));
    assert_eq!(eng.eng.inventory.pos.long, 25);
    eng
}

#[test]
fn a_shutdown_that_flattened_finishes_before_its_limit() {
    let mut cfg = Config::default();
    cfg.exit.liquidate_on_shutdown = true;
    let mut eng = desk_with_a_position(cfg);
    eng.handle(Event::Shutdown);
    let mut finished = false;
    for i in 1..=40 {
        eng.step(at(1700 + 200 * i));
        if eng.eng.is_finished() {
            finished = true;
            break;
        }
    }
    assert!(finished);
    assert!(eng.eng.inventory.pos.is_flat());
    assert!(eng.eng.reduce.is_halted());
    assert_eq!(eng.eng.orders.active_count(), 0);
}

#[test]
fn while_binance_is_out_only_the_band_timer_reduces() {
    let mut eng = desk_with_a_position(Config::default());
    let t = 2000;
    eng.clock = at(t);
    eng.handle(print(99950, -200, 2, at(t)));
    let long = eng.eng.inventory.pos.long;
    assert!(long > 50);
    eng.handle(Event::FeedStatus { feed: Feed::Binance, connected: false, at: at(t) });
    for ms in [100, 1000, 2800] {
        eng.clock = at(t + ms);
        eng.handle(Event::Timer(at(t + ms)));
        eng.handle(gate_bbo(99980, 100020, at(t + ms)));
        assert!(eng.fair.is_some());
        assert!(!eng.eng.reduce.is_active());
        assert_eq!(eng.eng.orders.active_count(), 0);
        assert_eq!(eng.eng.inventory.pos.long, long);
    }
    for i in 0..8 {
        let ms = t + 3100 + 300 * i;
        eng.clock = at(ms);
        eng.handle(Event::Timer(at(ms)));
        eng.handle(gate_bbo(99980, 100020, at(ms)));
    }
    assert!(eng.eng.inventory.pos.long <= 50, "long={}", eng.eng.inventory.pos.long);
    assert!(eng.metrics.exit.ioc_orders >= 1);
}

#[test]
fn positions_from_dual_and_single() {
    let dual = vec![
        PositionInfo { mode: "dual_long".into(), size: 12, entry_price: 1500.0, update_ms: 0 },
        PositionInfo { mode: "dual_short".into(), size: -3, entry_price: 1502.0, update_ms: 0 },
    ];
    let p = positions_from_exchange(&dual, true);
    assert_eq!((p.pos.long, p.pos.short), (12, 3));
    assert_eq!((p.long_entry, p.short_entry), (Some(1500.0), Some(1502.0)));
    let single = vec![PositionInfo { mode: "single".into(), size: -7, entry_price: 1500.0, update_ms: 0 }];
    let p = positions_from_exchange(&single, false);
    assert_eq!((p.pos.long, p.pos.short), (0, 7));
}

#[test]
fn a_broken_book_asks_for_a_snapshot_every_two_seconds() {
    let mut eng = Desk::new();
    eng.connect();
    eng.seed(vec![lvl(99980, 50)], vec![lvl(100020, 50)]);
    let gap = || Event::<f64>::GateBookDelta(BookDelta { first_id: 9, last_id: 9, bids: vec![], asks: vec![], full: false });
    let out = eng.eng.apply_event(gap(), at(10), NOW_MS);
    assert!(out.resnapshot && !out.run_cycle);
    assert!(!eng.eng.book.is_synced());
}

#[test]
fn leaked_orders_are_cancelled_and_foreign_ones_left_alone() {
    let mut eng = Desk::new();
    let order = |id: &str, client: &str| stock_mm::order::model::OrderInfo {
        exchange_id: id.into(),
        client_id: client.into(),
        side: Side::Sell,
        price: 100,
        size: 1,
        left: 1,
        status: stock_mm::order::model::ExchangeStatus::Open,
        finish_as: String::new(),
        reduce_only: false,
        tif: None,
        update_ms: 0,
    };
    let ev: Event<f64> = Event::GateOpenOrders(vec![order("E1", "t-mm99"), order("E2", "web")]);
    assert!(eng.eng.can_apply(&ev));
    let out = eng.eng.apply_event(ev, at(1), 5);
    assert_eq!(out.sends.len(), 1);
    assert_eq!(out.sends[0].side, Side::Sell);
    match &out.sends[0].cmd {
        ExecCommand::Cancel { req_id, exchange_id, .. } => {
            assert_eq!(req_id, "x-5-E1");
            assert_eq!(exchange_id.as_deref(), Some("E1"));
        }
        other => panic!("{other:?}"),
    }
}

#[test]
fn exchange_positions_are_adopted_after_the_grace_period() {
    let mut eng = Desk::new();
    let list = || -> Event<f64> {
        Event::GatePositions(vec![PositionInfo { mode: "dual_long".into(), size: 4, entry_price: 1.0, update_ms: 0 }])
    };
    let out = eng.eng.apply_event(list(), at(0), 1);
    assert!(!out.adopted);
    let out = eng.eng.apply_event(list(), at(2000), 1);
    assert!(out.adopted);
    assert_eq!(eng.eng.inventory.pos.long, 4);
}

#[test]
fn labels_of_modes_and_feeds() {
    assert_eq!(mode_label(stock_mm::config::Mode::Paper), "paper");
    assert_eq!(mode_label(stock_mm::config::Mode::Live), "live");
    assert_eq!(Feed::Binance.label(), "binance");
}
