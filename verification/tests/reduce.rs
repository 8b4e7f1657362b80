//! Active reduction.

use stock_mm::config;
use stock_mm::market::book::{BookDelta, BookSnapshot, DepthLevel, LocalBook};
use stock_mm::strategy::inventory::Positions;
use stock_mm::strategy::reduce::{ActiveReduce, Phase, ReduceAction, ReduceInputs, ReduceReason};
use stock_mm::time::Instant;
use stock_mm::types::Side;

fn at(ms: u64) -> Instant {
    Instant::from_nanos(1_000_000_000_000 + ms * 1_000_000)
}

fn synced(bids: Vec<DepthLevel>, asks: Vec<DepthLevel>) -> LocalBook {
    let mut b = LocalBook::new();
    b.apply_snapshot(BookSnapshot { id: 1, bids, asks }, at(0));
    b.apply_delta(BookDelta { first_id: 2, last_id: 2, bids: vec![], asks: vec![], full: false }, at(0));
    b
}

fn book() -> LocalBook {
    synced(
        vec![
            DepthLevel { price: 99990, size: 30 },
            DepthLevel { price: 99970, size: 40 },
            DepthLevel { price: 99500, size: 500 },
        ],
        vec![DepthLevel { price: 100010, size: 30 }],
    )
}

/// Caps 15 bps away from a fair price of 1000.
fn inputs(ms: u64, pos: Positions, book: &LocalBook, conflicts: bool, inflight: bool) -> ReduceInputs<'_> {
    ReduceInputs {
        now: at(ms),
        pos,
        sell_cap: 99850,
        buy_cap: 100150,
        book,
        own: &[],
        order_size_min: 1,
        order_size_max: 1_000_000,
        conflicts_pending: conflicts,
        exit_inflight: inflight,
    }
}

fn long(n: i64) -> Positions {
    Positions { long: n, short: 0 }
}

#[test]
fn episode_cancels_then_sends_protected_ioc_sized_by_depth() {
    let b = book();
    let mut ar = ActiveReduce::new(config::Exit::default());
    let mut pos = long(100);
    assert!(ar.trigger(ReduceReason::BandTimeout, 50, at(0)));
    assert_eq!(ar.step(inputs(0, pos, &b, true, false)), ReduceAction::CancelConflicts);
    let a = ar.step(inputs(100, pos, &b, false, false));
    assert_eq!(a, ReduceAction::SendIoc { side: Side::Sell, size: 50, price: 99970 });
    assert_eq!(ar.step(inputs(150, pos, &b, false, true)), ReduceAction::Wait);
    pos.apply_fill(-30, true);
    assert_eq!(ar.step(inputs(200, pos, &b, false, false)), ReduceAction::Wait);
    let a = ar.step(inputs(400, pos, &b, false, false));
    assert_eq!(a, ReduceAction::SendIoc { side: Side::Sell, size: 20, price: 99990 });
    pos.apply_fill(-20, true);
    assert_eq!(ar.step(inputs(700, pos, &b, false, false)), ReduceAction::Completed);
    assert!(!ar.is_active());
}

#[test]
fn timeout_escalates_to_market_then_halts() {
    let b = synced(vec![DepthLevel { price: 90000, size: 1000 }], vec![]);
    let cfg = config::Exit { ioc_timeout_ms: 1000, emergency_max_attempts: 2, ..Default::default() };
    let mut ar = ActiveReduce::new(cfg);
    let pos = long(100);
    ar.trigger(ReduceReason::BandTimeout, 0, at(0));
    assert_eq!(ar.step(inputs(0, pos, &b, false, false)), ReduceAction::Wait);
    let a = ar.step(inputs(1100, pos, &b, false, false));
    assert_eq!(a, ReduceAction::SendMarket { side: Side::Sell, size: 100 });
    assert_eq!(ar.phase, Phase::Emergency);
    let a = ar.step(inputs(1400, pos, &b, false, false));
    assert_eq!(a, ReduceAction::SendMarket { side: Side::Sell, size: 100 });
    let a = ar.step(inputs(1700, pos, &b, false, false));
    assert_eq!(a, ReduceAction::Halt);
    assert!(ar.is_halted());
    assert!(!ar.trigger(ReduceReason::BandTimeout, 0, at(0)));
}

#[test]
fn fatal_reason_upgrades_episode_and_halts_when_flat() {
    let b = book();
    let mut ar = ActiveReduce::new(config::Exit::default());
    let mut pos = long(10);
    ar.trigger(ReduceReason::BandTimeout, 5, at(0));
    ar.trigger(ReduceReason::LossLimit, 5, at(0));
    assert_eq!(ar.target_abs, 0);
    pos.apply_fill(-10, true);
    assert_eq!(ar.step(inputs(1000, pos, &b, false, false)), ReduceAction::Halt);
}

#[test]
fn halt_only_leaves_the_position_alone() {
    let b = synced(vec![], vec![]);
    let cfg = config::Exit { ioc_timeout_ms: 1000, emergency: config::Emergency::HaltOnly, ..Default::default() };
    let mut ar = ActiveReduce::new(cfg);
    ar.trigger(ReduceReason::BandTimeout, 0, at(0));
    assert_eq!(ar.step(inputs(0, long(5), &b, false, false)), ReduceAction::Wait);
    assert_eq!(ar.step(inputs(1100, long(5), &b, false, false)), ReduceAction::Halt);
}

#[test]
fn fatal_reasons_are_the_limits_and_the_shutdown() {
    assert!(ReduceReason::HardCap.is_fatal());
    assert!(ReduceReason::LossLimit.is_fatal());
    assert!(ReduceReason::Shutdown.is_fatal());
    assert!(!ReduceReason::BandTimeout.is_fatal());
    assert!(!ReduceReason::StrongAgainstInventory.is_fatal());
}
