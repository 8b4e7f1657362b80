//! Trust and the comparison of positions.

use stock_mm::config;
use stock_mm::market::basis::BasisStatus;
use stock_mm::market::session::SessionKind;
use stock_mm::strategy::inventory::Positions;
use stock_mm::strategy::risk::{evaluate, PositionReconciler, TrustInputs};
use stock_mm::time::{Duration, Instant};

fn at(ms: u64) -> Instant {
    Instant::from_nanos(1_000_000_000_000 + ms * 1_000_000)
}

fn base() -> TrustInputs {
    TrustInputs {
        binance_age: Some(Duration::from_millis(50)),
        gate_bbo_age: Some(Duration::from_millis(50)),
        gate_book_synced: true,
        private_connected: true,
        private_age: Some(Duration::from_millis(100)),
        account_age: Some(Duration::from_millis(500)),
        position_ok: true,
        margin_ok: true,
        basis: BasisStatus::Normal,
        session: SessionKind::Regular,
        session_tradable: true,
        loss_limit_hit: false,
        halted: false,
        mark_deviates: false,
    }
}

#[test]
fn mark_deviation_blocks_new_risk_only() {
    let mut i = base();
    i.mark_deviates = true;
    let r = evaluate(&config::Risk::default(), i);
    assert!(r.allow_resting());
    assert!(!r.allow_new_risk());
    assert!(r.reasons.iter().any(|x| x == "mark_deviation"));
}

#[test]
fn all_good_allows_everything() {
    let r = evaluate(&config::Risk::default(), base());
    assert!(r.allow_new_risk());
    assert!(r.allow_resting());
    assert!(r.reasons.is_empty());
}

#[test]
fn stale_binance_blocks_resting_and_new_risk() {
    let mut i = base();
    i.binance_age = Some(Duration::from_secs(10));
    let r = evaluate(&config::Risk::default(), i);
    assert!(!r.allow_resting());
    assert!(!r.allow_new_risk());
}

#[test]
fn basis_or_session_only_blocks_new_risk() {
    let mut i = base();
    i.basis = BasisStatus::Abnormal;
    let r = evaluate(&config::Risk::default(), i);
    assert!(r.allow_resting());
    assert!(!r.allow_new_risk());
    let mut i = base();
    i.session = SessionKind::Weekend;
    i.session_tradable = false;
    let r = evaluate(&config::Risk::default(), i);
    assert!(r.allow_resting());
    assert!(!r.allow_new_risk());
}

#[test]
fn reconciler_grace_period() {
    let cfg = config::Risk::default();
    let mut rc = PositionReconciler { exchange: None, exchange_at: None, mismatch_since: None };
    let local = Positions { long: 10, short: 0 };
    assert!(rc.check(local, &cfg, at(0)));
    rc.on_exchange(Positions { long: 12, short: 0 }, at(0));
    assert!(rc.check(local, &cfg, at(500)));
    assert!(!rc.check(local, &cfg, at(2500)));
    rc.on_exchange(local, at(3000));
    assert!(rc.check(local, &cfg, at(3000)));
}

#[test]
fn each_reason_has_its_name() {
    let cfg = config::Risk::default();
    let mut i = base();
    i.binance_age = None;
    i.gate_bbo_age = None;
    i.gate_book_synced = false;
    i.private_connected = false;
    i.account_age = None;
    i.position_ok = false;
    i.margin_ok = false;
    i.basis = BasisStatus::WarmingUp;
    i.mark_deviates = true;
    i.session = SessionKind::Blackout;
    i.loss_limit_hit = true;
    i.halted = true;
    let r = evaluate(&cfg, i);
    let expected = vec![
        "binance_stale",
        "gate_stale",
        "gate_book_unsynced",
        "private_feed",
        "account_stale",
        "position_mismatch",
        "margin",
        "basis_warmingup",
        "mark_deviation",
        "session_blackout",
        "loss_limit",
        "halted",
    ];
    assert_eq!(r.reasons, expected);
}
