//! Positions, the band timer and the capacity for new risk.

use stock_mm::config::Inventory;
use stock_mm::strategy::inventory::{FillEffect, InventoryState, PendingExposure, Positions};
use stock_mm::time::Instant;
use stock_mm::types::Side;

const MULTIPLIER: f64 = 0.01;

fn at(ms: u64) -> Instant {
    Instant::from_nanos(1_000_000_000_000 + ms * 1_000_000)
}

/// Profit of a fill, from the entry prices of the two sides.
struct Entries {
    long: f64,
    short: f64,
}

impl Entries {
    fn follow(&mut self, effect: FillEffect, price: f64) -> f64 {
        match effect {
            FillEffect::Nothing => 0.0,
            FillEffect::Opened { side, before, qty } => {
                let entry = match side {
                    Side::Buy => &mut self.long,
                    Side::Sell => &mut self.short,
                };
                *entry = (*entry * before as f64 + price * qty as f64) / (before + qty) as f64;
                0.0
            }
            FillEffect::Closed { side, qty, .. } => match side {
                Side::Buy => (price - self.long) * qty as f64 * MULTIPLIER,
                Side::Sell => (self.short - price) * qty as f64 * MULTIPLIER,
            },
        }
    }
}

fn flat() -> Positions {
    Positions { long: 0, short: 0 }
}

fn state() -> InventoryState {
    InventoryState::new(Inventory { band_timeout_ms: 3000 })
}

/// Notional of the net position at `fair`.
fn q_usdt(inv: &InventoryState, fair: f64) -> f64 {
    inv.pos.net() as f64 * MULTIPLIER * fair
}

#[test]
fn dual_mode_fill_mapping() {
    let mut p = flat();
    let mut e = Entries { long: 0.0, short: 0.0 };
    e.follow(p.apply_fill(10, false), 1000.0);
    assert_eq!((p.long, p.short), (10, 0));
    let pnl = e.follow(p.apply_fill(-4, true), 1002.0);
    assert_eq!((p.long, p.short), (6, 0));
    assert!((pnl - 4.0 * 0.01 * 2.0).abs() < 1e-9);
    e.follow(p.apply_fill(-3, false), 999.0);
    assert_eq!((p.long, p.short), (6, 3));
    assert_eq!(p.net(), 3);
    assert_eq!(p.gross(), 9);
    let pnl = e.follow(p.apply_fill(5, true), 998.0);
    assert_eq!((p.long, p.short), (6, 0));
    assert!((pnl - 3.0 * 0.01 * 1.0).abs() < 1e-9);
}

#[test]
fn u_and_band_timer() {
    let mut inv = state();
    let fair = 1000.0;
    let (h, band) = (5000.0, 500.0);
    inv.pos.apply_fill(250, false);
    let q = q_usdt(&inv, fair);
    let in_band = q.abs() <= band;
    inv.tick(in_band, 0, at(0));
    assert!((q / h - 0.5).abs() < 1e-9);
    assert!(!in_band);
    assert!(!inv.band_timed_out(at(2999)));
    assert!(inv.band_timed_out(at(3000)));
    inv.pos.apply_fill(-210, true);
    let in_band = q_usdt(&inv, fair).abs() <= band;
    inv.tick(in_band, 5, at(3100));
    assert!(in_band);
    assert!(inv.band_timed_out(at(3100)));
    inv.tick(true, 0, at(3200));
    assert!(!inv.band_timed_out(at(9000)));
}

#[test]
fn capacity_uses_worst_case_per_side() {
    let mut inv = state();
    inv.pos.apply_fill(100, false);
    let pend = PendingExposure { open_buy: 50, open_sell: 30, reduce_buy: 0, reduce_sell: 60 };
    let (wl, ws) = inv.worst_case(pend);
    assert_eq!(wl, 150);
    assert_eq!(ws, 40 - 30);
    assert_eq!(inv.open_buy_capacity(pend, 500, 500), 320);
    assert_eq!(inv.open_sell_capacity(pend, 500, 500), 320);
}

#[test]
fn reduce_only_fills_never_open() {
    let mut p = flat();
    let e = p.apply_fill(7, true);
    assert_eq!(e, FillEffect::Closed { side: Side::Sell, qty: 0, left: 0, excess: 7 });
    assert!(p.is_flat());
}

#[test]
fn capacity_is_never_negative() {
    let mut inv = state();
    inv.pos.apply_fill(600, false);
    let none = PendingExposure { open_buy: 0, open_sell: 0, reduce_buy: 0, reduce_sell: 0 };
    assert_eq!(inv.open_buy_capacity(none, 500, 500), 0);
}

#[test]
fn a_cleared_episode_forgets_its_start() {
    let mut inv = state();
    inv.tick(false, 0, at(0));
    assert_eq!(inv.episode_start, Some(at(0)));
    inv.clear_episode();
    assert_eq!((inv.episode_start, inv.band_since), (None, None));
}
