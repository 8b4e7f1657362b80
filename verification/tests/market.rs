//! The book, the basis, the flow, the reference price and the calendar.

use stock_mm::config;
use stock_mm::market::basis::{BasisEstimator, BasisInput, BasisStatus, Deviation};
use stock_mm::market::book::{BookDelta, BookSnapshot, BookStatus, DepthLevel, LocalBook};
use stock_mm::market::impact::{endangered, FlowFacts, ImpactDetector, Trade};
use stock_mm::market::reference::{Bbo, ReferencePrice};
use stock_mm::market::session::{parse_kind, SessionCalendar, SessionError, SessionKind, UtcTime};
use stock_mm::time::{Duration, Instant};
use stock_mm::types::{Side, Ticks};

fn at(ms: u64) -> Instant {
    Instant::from_nanos(1_000_000_000_000 + ms * 1_000_000)
}

fn quantile(values: &[f64], q: f64) -> Option<f64> {
    let mut v = values.to_vec();
    if v.is_empty() {
        return None;
    }
    v.sort_by(|a, b| a.partial_cmp(b).unwrap());
    let pos = q * (v.len() - 1) as f64;
    let (lo, hi) = (pos.floor() as usize, pos.ceil() as usize);
    let w = pos - lo as f64;
    Some(v[lo] * (1.0 - w) + v[hi] * w)
}

// ---------------------------------------------------------------- book

fn lvl(p: Ticks, s: i64) -> DepthLevel {
    DepthLevel { price: p, size: s }
}

fn delta(first_id: u64, last_id: u64, bids: Vec<DepthLevel>) -> BookDelta {
    BookDelta { first_id, last_id, bids, asks: vec![], full: false }
}

fn synced_book() -> LocalBook {
    let mut b = LocalBook::new();
    b.apply_snapshot(
        BookSnapshot {
            id: 100,
            bids: vec![lvl(99970, 10), lvl(99960, 20)],
            asks: vec![lvl(100030, 5), lvl(100040, 50)],
        },
        at(0),
    );
    b.apply_delta(delta(99, 101, vec![lvl(99950, 7)]), at(0));
    assert!(b.is_synced());
    b
}

#[test]
fn sequencing_rules() {
    let mut b = LocalBook::new();
    b.apply_delta(delta(101, 101, vec![lvl(99980, 3)]), at(0));
    b.apply_snapshot(BookSnapshot { id: 100, bids: vec![lvl(99970, 10)], asks: vec![lvl(100030, 5)] }, at(0));
    assert!(b.is_synced());
    assert_eq!(b.best_bid(), Some((99980, 3)));
    b.apply_delta(delta(105, 106, vec![]), at(0));
    assert_eq!(b.status(), BookStatus::Broken);
}

#[test]
fn full_push_replaces_book_and_reanchors() {
    let mut b = synced_book();
    b.apply_delta(
        BookDelta { first_id: 500, last_id: 520, bids: vec![lvl(99900, 1)], asks: vec![lvl(100100, 2)], full: true },
        at(0),
    );
    assert!(b.is_synced());
    assert_eq!(b.best_bid(), Some((99900, 1)));
    assert_eq!(b.best_ask(), Some((100100, 2)));
    b.apply_delta(delta(521, 521, vec![lvl(99910, 3)]), at(0));
    assert!(b.is_synced());
    assert_eq!(b.best_bid(), Some((99910, 3)));
}

#[test]
fn stale_first_delta_dropped_then_synced() {
    let mut b = LocalBook::new();
    b.apply_snapshot(BookSnapshot { id: 100, bids: vec![], asks: vec![] }, at(0));
    b.apply_delta(delta(90, 95, vec![lvl(1, 1)]), at(0));
    assert_eq!(b.status(), BookStatus::AwaitingDelta);
    assert!(b.best_bid().is_none());
    b.apply_delta(delta(96, 101, vec![lvl(2, 1)]), at(0));
    assert!(b.is_synced());
}

#[test]
fn external_bbo_excludes_own() {
    let b = synced_book();
    let own = vec![(Side::Buy, 99970, 10), (Side::Sell, 100030, 2)];
    let (bid, ask) = b.external_bbo(&own);
    assert_eq!(bid, Some((99960, 20)));
    assert_eq!(ask, Some((100030, 3)));
}

#[test]
fn own_quantities_of_any_sign_are_taken_off() {
    let b = synced_book();
    let own = vec![(Side::Buy, 99970, -3), (Side::Sell, 100030, 7), (Side::Sell, 100030, -5)];
    let (bid, ask) = b.external_bbo(&own);
    assert_eq!(bid, Some((99970, 13)));
    assert_eq!(ask, Some((100030, 3)));
}

#[test]
fn sweep_respects_limit_and_own() {
    let b = synced_book();
    let own = vec![(Side::Buy, 99970, 4)];
    let s = b.sweep(Side::Sell, 20, &own, None);
    assert_eq!(s.filled, 20);
    assert_eq!(s.worst_price, Some(99960));
    let vwap = s.cost as f64 / s.filled as f64;
    assert!((vwap - (6.0 * 99970.0 + 14.0 * 99960.0) / 20.0).abs() < 1e-9);
    assert_eq!(s.average_price(), 99963);
    let s = b.sweep(Side::Sell, 20, &own, Some(99970));
    assert_eq!(s.filled, 6);
    let s = b.sweep(Side::Buy, 7, &[], None);
    assert_eq!(s.filled, 7);
    assert_eq!(s.worst_price, Some(100040));
}

#[test]
fn a_broken_book_waits_for_a_snapshot() {
    let mut b = synced_book();
    b.apply_delta(delta(200, 201, vec![]), at(1));
    assert_eq!(b.status(), BookStatus::Broken);
    b.apply_delta(delta(202, 202, vec![lvl(99990, 9)]), at(2));
    assert_eq!(b.status(), BookStatus::Broken);
    let bids = vec![lvl(99900, 3), lvl(99890, 0), lvl(99880, 4)];
    b.apply_snapshot(BookSnapshot { id: 150, bids, asks: vec![lvl(100100, -1), lvl(100200, 6)] }, at(3));
    assert_eq!(b.status(), BookStatus::AwaitingDelta);
    assert_eq!(b.best_bid(), Some((99900, 3)));
    assert_eq!(b.best_ask(), Some((100200, 6)));
    b.apply_delta(delta(151, 151, vec![lvl(99900, 0)]), at(4));
    assert!(b.is_synced());
    assert_eq!(b.best_bid(), Some((99880, 4)));
    b.reset();
    assert_eq!(b.status(), BookStatus::Empty);
}

#[test]
fn a_level_of_size_zero_is_removed() {
    let mut b = synced_book();
    b.apply_delta(delta(102, 102, vec![lvl(99970, 0)]), at(1));
    assert_eq!(b.best_bid(), Some((99960, 20)));
}

// --------------------------------------------------------------- basis

/// Basis in real numbers: limit 5 half-spreads or the 99% quantile, recovered at
/// half of it.
struct Basis {
    inner: BasisEstimator<f64>,
}

impl Basis {
    fn new() -> Self {
        let cfg = config::Pricing {
            basis_min_samples: 5,
            basis_sample_interval_ms: 0,
            basis_recover_ms: 1000,
            ..Default::default()
        };
        let mut inner = BasisEstimator::new(cfg);
        inner.set_session(SessionKind::Regular);
        Self { inner }
    }

    fn observe(&mut self, bm: f64, gm: f64, spread: f64, binance: Instant, gate: Instant, now: Instant) {
        let beta_t = 10_000.0 * (gm / bm - 1.0);
        let stop = self.inner.dstop_cache().map_or(10.0, |q| q.max(10.0));
        let deviation = self.inner.beta0().map(|b0| {
            let d = (beta_t - b0).abs();
            Deviation { d, beyond_stop: d > stop, recovered: d <= stop * 0.5 }
        });
        let informative = spread <= 15.0;
        let inp = BasisInput { beta_t, binance_recv: binance, gate_recv: gate, informative, deviation };
        self.inner.observe(inp, now);
        if let Some(plan) = self.inner.begin_recompute(now) {
            let m = if plan.median { quantile(&self.inner.beta_values(), 0.5) } else { None };
            let q = if plan.quantile { quantile(&self.inner.d_values(), 0.99) } else { None };
            self.inner.finish_recompute(plan, m, q);
        }
    }

    fn feed(&mut self, bm: f64, gm: f64, t: Instant) {
        self.observe(bm, gm, 5.0, t, t, t);
    }
}

#[test]
fn beta0_is_median_and_fair_applies_it() {
    let mut b = Basis::new();
    for i in 0..6 {
        b.feed(1000.0, 1001.0, at(i * 10));
    }
    b.feed(1000.0, 1001.0, at(1100));
    assert_eq!(b.inner.status(), BasisStatus::Normal);
    let b0 = b.inner.beta0().unwrap();
    assert!((b0 - 10.0).abs() < 1e-6, "b0={b0}");
    assert!((1000.0 * (1.0 + b0 / 10_000.0) - 1001.0).abs() < 1e-9);
}

#[test]
fn abnormal_freezes_and_recovers_after_stability() {
    let mut b = Basis::new();
    let mut t = 0;
    for _ in 0..10 {
        b.feed(1000.0, 1001.0, at(t));
        t += 150;
    }
    assert_eq!(b.inner.status(), BasisStatus::Normal);
    b.feed(1000.0, 1004.0, at(t));
    assert_eq!(b.inner.status(), BasisStatus::Abnormal);
    let frozen_b0 = b.inner.beta0().unwrap();
    for _ in 0..15 {
        t += 150;
        b.feed(1000.0, 1004.0, at(t));
    }
    assert_eq!(b.inner.beta0().unwrap(), frozen_b0);
    assert_eq!(b.inner.status(), BasisStatus::Abnormal);
    t += 150;
    b.feed(1000.0, 1001.0, at(t));
    assert_eq!(b.inner.status(), BasisStatus::Recovering);
    t += 500;
    b.feed(1000.0, 1001.0, at(t));
    assert_eq!(b.inner.status(), BasisStatus::Recovering);
    t += 600;
    b.feed(1000.0, 1001.0, at(t));
    assert_eq!(b.inner.status(), BasisStatus::Normal);
}

#[test]
fn a_relapse_starts_the_stability_period_again() {
    let mut b = Basis::new();
    for k in 0..10 {
        b.feed(1000.0, 1001.0, at(k * 150));
    }
    b.feed(1000.0, 1004.0, at(2_000));
    b.feed(1000.0, 1001.0, at(2_100));
    assert_eq!(b.inner.status(), BasisStatus::Recovering);
    b.feed(1000.0, 1001.8, at(2_600));
    assert_eq!(b.inner.status(), BasisStatus::Abnormal);
    b.feed(1000.0, 1001.0, at(2_700));
    b.feed(1000.0, 1001.0, at(3_600));
    assert_eq!(b.inner.status(), BasisStatus::Recovering);
    b.feed(1000.0, 1001.0, at(3_700));
    assert_eq!(b.inner.status(), BasisStatus::Normal);
}

#[test]
fn unsynced_or_wide_samples_are_ignored() {
    let mut b = Basis::new();
    for _ in 0..10 {
        b.observe(1000.0, 1001.0, 5.0, at(0), at(2000), at(2000));
    }
    assert_eq!(b.inner.samples(), 0);
    for _ in 0..10 {
        b.observe(1000.0, 1001.0, 100.0, at(0), at(0), at(0));
    }
    assert_eq!(b.inner.samples(), 0);
}

#[test]
fn sessions_are_independent() {
    let mut b = Basis::new();
    for k in 0..10 {
        b.feed(1000.0, 1001.0, at(k * 200));
    }
    assert!(b.inner.beta0().is_some());
    b.inner.set_session(SessionKind::Post);
    assert_eq!(b.inner.status(), BasisStatus::WarmingUp);
    assert!(b.inner.beta0().is_none());
    b.inner.set_session(SessionKind::Regular);
    assert_eq!(b.inner.status(), BasisStatus::Normal);
}

// -------------------------------------------------------------- impact

/// Flow in real numbers: share above 80%, notional above the 95% quantile.
struct Flow {
    inner: ImpactDetector<f64>,
}

impl Flow {
    fn new() -> Self {
        Self { inner: ImpactDetector::new(config::Protection::default()) }
    }

    fn sums(&self) -> (f64, f64) {
        let trades = self.inner.trades();
        let of = |side: Side| trades.iter().filter(|t| t.side == side).map(|t| t.notional).sum::<f64>();
        (of(Side::Buy), of(Side::Sell))
    }

    fn on_trade(&mut self, t: Trade<f64>) {
        let due = self.inner.on_trade(t);
        let (buy, sell) = self.sums();
        if due && buy + sell > 0.0 {
            self.inner.record(t.at, buy + sell);
        }
    }

    fn evaluate(&mut self, now: Instant) -> Option<Side> {
        if !self.inner.ready(now) {
            return None;
        }
        let (buy, sell) = self.sums();
        let total = buy + sell;
        let threshold = quantile(&self.inner.notionals(), 0.95).unwrap();
        endangered(FlowFacts {
            large: total > 0.0 && total > threshold,
            buy_dominates: buy / total > 0.8,
            sell_dominates: sell / total > 0.8,
        })
    }
}

#[test]
fn small_prints_do_not_trigger_but_bursts_do() {
    let mut d = Flow::new();
    for i in 0..40u64 {
        let side = if i % 2 == 0 { Side::Buy } else { Side::Sell };
        d.on_trade(Trade { at: at(i * 150), side, notional: 100.0 });
    }
    let quiet = 40 * 150;
    assert!(d.evaluate(at(quiet)).is_none());
    let burst = quiet + 1000;
    for k in 0..5u64 {
        d.on_trade(Trade { at: at(burst + k * 10), side: Side::Buy, notional: 1000.0 });
    }
    assert_eq!(d.evaluate(at(burst + 50)), Some(Side::Sell));
    let (buy, sell) = d.sums();
    assert!(buy / (buy + sell) >= 0.8);
    assert!(d.evaluate(at(burst + 400)).is_none());
}

#[test]
fn mixed_flow_does_not_trigger() {
    let mut d = Flow::new();
    for i in 0..40u64 {
        d.on_trade(Trade { at: at(i * 150), side: Side::Buy, notional: 100.0 });
    }
    let burst = 10_000;
    d.on_trade(Trade { at: at(burst), side: Side::Buy, notional: 3000.0 });
    d.on_trade(Trade { at: at(burst + 5), side: Side::Sell, notional: 2500.0 });
    assert!(d.evaluate(at(burst + 10)).is_none());
}

#[test]
fn flow_endangers_the_side_it_takes_from() {
    let f = |large: bool, buy: bool, sell: bool| endangered(FlowFacts { large, buy_dominates: buy, sell_dominates: sell });
    assert_eq!(f(true, true, false), Some(Side::Sell));
    assert_eq!(f(true, false, true), Some(Side::Buy));
    assert_eq!(f(true, false, false), None);
    assert_eq!(f(false, true, false), None);
}

// ----------------------------------------------------------- reference

fn reference() -> ReferencePrice<f64> {
    ReferencePrice::new(Duration::from_secs(300), Duration::from_millis(200), Duration::from_millis(100))
}

fn quote(r: &mut ReferencePrice<f64>, bid: f64, ask: f64, t: Instant) {
    let mid = (bid + ask) / 2.0;
    let bbo = Bbo { bid, ask, bid_qty: 1.0, ask_qty: 1.0, exch_ts_ms: 0, recv: t };
    if let Some(m) = r.update(bbo, mid) {
        r.push_move(t, 10_000.0 * (mid / m).ln().abs());
    }
}

fn velocity(r: &ReferencePrice<f64>, now: Instant) -> f64 {
    let last = r.last().unwrap();
    match r.velocity_base(now) {
        Some(past) => 10_000.0 * ((last.bid + last.ask) / 2.0 / past).ln(),
        None => 0.0,
    }
}

#[test]
fn velocity_uses_sample_100ms_back() {
    let mut r = reference();
    quote(&mut r, 999.9, 1000.1, at(0));
    quote(&mut r, 1000.9, 1001.1, at(120));
    let v = velocity(&r, at(120));
    assert!((v - 9.995).abs() < 0.01, "v={v}");
    assert_eq!(velocity(&r, at(50)), 0.0);
}

#[test]
fn realised_moves_sampled_every_step() {
    let mut r = reference();
    let mut px = 1000.0;
    for i in 0..10u64 {
        px += if i % 2 == 0 { 0.5 } else { -0.2 };
        quote(&mut r, px - 0.1, px + 0.1, at(200 * i));
    }
    assert_eq!(r.vol_samples(), 9);
    let v90 = quantile(&r.moves(), 0.9).unwrap();
    assert!(v90 > 3.0 && v90 < 6.0, "v90={v90}");
}

#[test]
fn the_age_of_the_reference_is_that_of_its_last_quote() {
    let mut r = reference();
    assert_eq!(r.age(at(0)), None);
    quote(&mut r, 1.0, 2.0, at(0));
    assert_eq!(r.age(at(70)), Some(Duration::from_millis(70)));
}

// ------------------------------------------------------------- session

fn cal() -> SessionCalendar {
    SessionCalendar::from_config(&config::Session::default()).unwrap()
}

fn utc(s: &str) -> UtcTime {
    let t = chrono::DateTime::parse_from_rfc3339(s).unwrap().with_timezone(&chrono::Utc);
    UtcTime { secs: t.timestamp(), nanos: t.timestamp_subsec_nanos() }
}

#[test]
fn classifies_us_sessions() {
    let c = cal();
    assert_eq!(c.classify(utc("2026-09-16T14:00:00Z")), SessionKind::Regular);
    assert_eq!(c.classify(utc("2026-09-16T12:00:00Z")), SessionKind::Pre);
    assert_eq!(c.classify(utc("2026-09-16T21:00:00Z")), SessionKind::Post);
    assert_eq!(c.classify(utc("2026-09-17T06:00:00Z")), SessionKind::Overnight);
    assert_eq!(c.classify(utc("2026-09-19T15:00:00Z")), SessionKind::Weekend);
    assert_eq!(c.classify(utc("2026-09-19T01:00:00Z")), SessionKind::Weekend);
    assert!(!c.is_tradable(SessionKind::Weekend));
    assert!(c.is_tradable(SessionKind::Regular));
}

#[test]
fn holidays_and_events_blackout() {
    let mut cfg = config::Session::default();
    cfg.holidays = vec!["2026-09-16".into()];
    cfg.event_windows = vec![["2026-09-17T10:00:00Z".into(), "2026-09-17T11:00:00Z".into()]];
    let c = SessionCalendar::from_config(&cfg).unwrap();
    assert_eq!(c.classify(utc("2026-09-16T14:00:00Z")), SessionKind::Blackout);
    assert_eq!(c.classify(utc("2026-09-17T10:30:00Z")), SessionKind::Blackout);
    assert_eq!(c.classify(utc("2026-09-17T11:30:00Z")), SessionKind::Pre);
}

#[test]
fn session_names_read_back() {
    let kinds = [
        SessionKind::Regular,
        SessionKind::Pre,
        SessionKind::Post,
        SessionKind::Overnight,
        SessionKind::Weekend,
        SessionKind::Blackout,
    ];
    for k in kinds {
        assert_eq!(parse_kind(k.label()), Some(k));
    }
    assert_eq!(parse_kind("lunch"), None);
}

#[test]
fn a_bad_calendar_says_what_is_wrong() {
    let base = config::Session::default();
    let error = |c: config::Session| match SessionCalendar::from_config(&c) {
        Err(e) => e,
        Ok(_) => panic!("accepted"),
    };
    let mut c = base.clone();
    c.timezone = "Mars/Olympus".into();
    assert!(matches!(error(c), SessionError::BadTimezone(s) if s == "Mars/Olympus"));
    let mut c = base.clone();
    c.tradable = vec!["lunch".into()];
    assert!(matches!(error(c), SessionError::UnknownSession(s) if s == "lunch"));
    let mut c = base.clone();
    c.holidays = vec!["2026-13-01".into()];
    assert!(matches!(error(c), SessionError::BadHoliday(s) if s == "2026-13-01"));
    let mut c = base.clone();
    c.event_windows = vec![["x".into(), "2026-09-17T11:00:00Z".into()]];
    assert!(matches!(error(c), SessionError::BadEventStart(s) if s == "x"));
    let mut c = base.clone();
    c.event_windows = vec![["2026-09-17T11:00:00Z".into(), "y".into()]];
    assert!(matches!(error(c), SessionError::BadEventEnd(s) if s == "y"));
}

#[test]
fn a_forced_session_ignores_the_clock() {
    let mut cfg = config::Session::default();
    cfg.force_session = "post".into();
    let c = SessionCalendar::from_config(&cfg).unwrap();
    assert_eq!(c.classify(utc("2026-09-19T15:00:00Z")), SessionKind::Post);
}
