//! Markouts, exits and digestion.

use stock_mm::metrics::Metrics;
use stock_mm::time::{Duration, Instant};
use stock_mm::types::Side;

fn at(ms: u64) -> Instant {
    Instant::from_nanos(1_000_000_000_000 + ms * 1_000_000)
}

/// Size-weighted mean markouts in bps, by side and horizon.
struct Means {
    sum: [[f64; 3]; 2],
    weight: [[f64; 3]; 2],
}

impl Means {
    fn take(&mut self, m: &mut Metrics<f64>, mid: f64, now: Instant) {
        for d in m.due_markouts(now) {
            let (k, bps) = match d.side {
                Side::Buy => (0, 10_000.0 * (mid - d.price) / d.price),
                Side::Sell => (1, 10_000.0 * (d.price - mid) / d.price),
            };
            self.sum[k][d.horizon] += bps * d.size as f64;
            self.weight[k][d.horizon] += d.size as f64;
        }
    }

    fn mean(&self, side: usize, h: usize) -> f64 {
        if self.weight[side][h] > 0.0 {
            self.sum[side][h] / self.weight[side][h]
        } else {
            0.0
        }
    }
}

#[test]
fn markouts_by_side_and_horizon() {
    let mut m = Metrics::new(Duration::from_secs(10), at(0));
    let mut s = Means { sum: [[0.0; 3]; 2], weight: [[0.0; 3]; 2] };
    m.on_fill(Side::Buy, 1000.0, 10, true, at(0));
    m.on_fill(Side::Sell, 1000.0, 10, true, at(0));
    s.take(&mut m, 1000.5, at(60));
    assert!((s.mean(0, 0) - 5.0).abs() < 1e-9);
    assert!((s.mean(1, 0) + 5.0).abs() < 1e-9);
    assert_eq!(s.mean(0, 1), 0.0);
    s.take(&mut m, 999.0, at(1100));
    assert!((s.mean(0, 1) + 10.0).abs() < 1e-9);
    assert!((s.mean(0, 2) + 10.0).abs() < 1e-9);
    assert!(m.pending.is_empty());
    assert_eq!(m.buy_count, 1);
}

#[test]
fn exit_cost_sign() {
    let mut m: Metrics<f64> = Metrics::new(Duration::from_secs(10), at(0));
    let cost = |side: Side, fair: f64, price: f64, size: i64| {
        let sign = match side {
            Side::Sell => 1.0,
            Side::Buy => -1.0,
        };
        (fair - price) * sign * size as f64 * 0.01
    };
    m.on_exit_fill(10, false);
    let first = cost(Side::Sell, 1000.0, 999.5, 10);
    assert!((first - 0.05).abs() < 1e-9);
    m.on_exit_fill(10, false);
    assert!((first + cost(Side::Buy, 1000.0, 1000.5, 10) - 0.10).abs() < 1e-9);
    assert_eq!((m.exit.ioc_contracts, m.exit.ioc_orders, m.exit.market_orders), (20, 2, 0));
}

#[test]
fn episodes_and_snapshots_are_counted() {
    let mut m: Metrics<f64> = Metrics::new(Duration::from_secs(10), at(0));
    m.on_digestion_episode(Duration::from_millis(1200), true);
    m.on_digestion_episode(Duration::from_millis(800), false);
    assert_eq!((m.digestion.episodes, m.digestion.total_ms, m.digestion.max_ms), (2, 2000, 1200));
    assert_eq!(m.digestion.active_reduce_episodes, 1);
    assert!(m.snapshot_due(at(0)));
    m.snapshot_taken(at(0));
    assert!(!m.snapshot_due(at(9_999)));
    assert!(m.snapshot_due(at(10_000)));
    assert_eq!(m.uptime(at(1500)), Duration::from_millis(1500));
}

#[test]
fn fills_are_counted_by_role() {
    let mut m = Metrics::new(Duration::from_secs(10), at(0));
    m.on_fill(Side::Buy, 1.0, 3, true, at(0));
    m.on_fill(Side::Buy, 1.0, 4, false, at(0));
    assert_eq!((m.fills.maker_fills, m.fills.maker_contracts), (1, 3));
    assert_eq!((m.fills.taker_fills, m.fills.taker_contracts), (1, 4));
}
