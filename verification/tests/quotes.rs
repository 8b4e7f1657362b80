//! Quotes, their bounds and their sizes.

use stock_mm::config;
use stock_mm::strategy::inventory::{InventoryState, PendingExposure};
use stock_mm::strategy::protection::{DistanceScale, Level, SidePolicy, SizeScale};
use stock_mm::strategy::quote::{build_quotes, Quote, QuoteContext, QuoteSet, SideBounds};
use stock_mm::types::{Purpose, Side, Ticks};

const TICK: f64 = 0.01;
const MULTIPLIER: f64 = 0.01;
const H: f64 = 5000.0;
const DELTA_BPS: f64 = 2.0;

fn floor(px: f64) -> Ticks {
    (px / TICK + 1e-7).floor() as Ticks
}

fn ceil(px: f64) -> Ticks {
    (px / TICK - 1e-7).ceil() as Ticks
}

fn contracts(usdt: f64, fair: f64) -> i64 {
    (usdt / (MULTIPLIER * fair) + 1e-9).floor().max(0.0) as i64
}

/// Inputs of a quote in real numbers.
struct Fix {
    inv: InventoryState,
    buy: SidePolicy,
    sell: SidePolicy,
    uncontrolled: PendingExposure,
}

fn size_mult(p: &SidePolicy) -> f64 {
    match p.size {
        SizeScale::Full => 1.0,
        SizeScale::Light | SizeScale::Half => 0.5,
        SizeScale::Zero => 0.0,
    }
}

fn distance_mult(p: &SidePolicy) -> f64 {
    match p.distance {
        DistanceScale::Normal => 1.0,
        DistanceScale::Light => 1.5,
    }
}

impl Fix {
    fn new() -> Self {
        Self {
            inv: InventoryState::new(config::Inventory { band_timeout_ms: 3000 }),
            buy: SidePolicy::normal(),
            sell: SidePolicy::normal(),
            uncontrolled: PendingExposure { open_buy: 0, open_sell: 0, reduce_buy: 0, reduce_sell: 0 },
        }
    }

    fn u(&self, fair: f64) -> f64 {
        (self.inv.pos.net() as f64 * MULTIPLIER * fair / H).clamp(-1.0, 1.0)
    }

    fn quotes(&self, fair: f64, u: f64, bid: Option<Ticks>, ask: Option<Ticks>) -> (Vec<Quote>, QuoteSet) {
        let r = fair * (1.0 - DELTA_BPS * u / 10_000.0);
        let dist = |mult: f64| fair * DELTA_BPS * mult / 10_000.0;
        let v = 0.05 * H;
        let ctx = QuoteContext {
            bounds: SideBounds {
                buy_open_max: floor(r - dist(distance_mult(&self.buy))),
                buy_reduce_max: floor(r - dist(1.0)),
                sell_open_min: ceil(r + dist(distance_mult(&self.sell))),
                sell_reduce_min: ceil(r + dist(1.0)),
            },
            centre: (r / TICK).round() as Ticks,
            aggressive_buy: u <= -0.5,
            aggressive_sell: u >= 0.5,
            ext_bid: bid,
            ext_ask: ask,
            pos: self.inv.pos,
            inventory: self.inv,
            uncontrolled: self.uncontrolled,
            buy_policy: self.buy,
            sell_policy: self.sell,
            allow_new_risk: true,
            add_buy: u < 0.5,
            add_sell: -u < 0.5,
            layers: 3,
            buy_base: contracts(v * (1.0 - u).max(0.0) * size_mult(&self.buy), fair),
            sell_base: contracts(v * (1.0 + u).max(0.0) * size_mult(&self.sell), fair),
            buy_reduce_base: contracts(v * (1.0 - u).max(0.0), fair),
            sell_reduce_base: contracts(v * (1.0 + u).max(0.0), fair),
            order_size_min: 1,
            order_size_max: 1_000_000,
            h_contracts: contracts(H, fair),
            gross_contracts: contracts(H, fair),
        };
        assert!(ctx.is_valid());
        let outer = |side: Side, inner: Ticks| -> Vec<Ticks> {
            [0.5, 1.25]
                .iter()
                .map(|off| match side {
                    Side::Buy => floor(inner as f64 * TICK - dist(*off)),
                    Side::Sell => ceil(inner as f64 * TICK + dist(*off)),
                })
                .collect()
        };
        build_quotes(&ctx, &outer(Side::Buy, ctx.inner_buy()), &outer(Side::Sell, ctx.inner_sell()))
    }
}

fn of(quotes: &[Quote], side: Side) -> Vec<Quote> {
    quotes.iter().copied().filter(|q| q.side == side).collect()
}

#[test]
fn inner_quotes_improve_gate_by_one_tick_within_limits() {
    let fx = Fix::new();
    let (quotes, set) = fx.quotes(1000.0, 0.0, Some(99970), Some(100030));
    assert_eq!(set.inner_bid, Some(99971));
    assert_eq!(set.inner_ask, Some(100029));
    assert_eq!(set.bounds.buy_open_max, 99980);
    assert_eq!(set.bounds.sell_open_min, 100020);
    let buys = of(&quotes, Side::Buy);
    let sells = of(&quotes, Side::Sell);
    assert_eq!(buys.len(), 3);
    assert_eq!(sells.len(), 3);
    assert_eq!(buys[1].price, 99961);
    assert_eq!(buys[2].price, 99946);
    assert_eq!(sells[1].price, 100039);
    assert_eq!(sells[2].price, 100054);
    assert!(buys.iter().all(|q| q.size == 25 && q.purpose == Purpose::Open));
    assert!(sells.iter().all(|q| q.size == 25 && q.purpose == Purpose::Open));
}

#[test]
fn does_not_chase_gate_beyond_limit() {
    let fx = Fix::new();
    let (_, set) = fx.quotes(1000.0, 0.0, Some(100010), Some(100030));
    assert_eq!(set.inner_bid, Some(99980));
    let (_, set) = fx.quotes(1000.0, 0.0, Some(99970), Some(99990));
    assert_eq!(set.inner_bid, Some(99971));
    assert_eq!(set.inner_ask, Some(100020));
    let (_, set) = fx.quotes(1000.0, 0.0, Some(99973), Some(99974));
    assert_eq!(set.inner_bid, Some(99973));
    let (_, set) = fx.quotes(1000.0, 0.0, Some(99985), Some(99986));
    assert_eq!(set.inner_bid, Some(99980));
}

#[test]
fn long_inventory_maps_sells_to_reduce_and_shrinks_buys() {
    let mut fx = Fix::new();
    fx.inv.pos.apply_fill(250, false);
    let u = fx.u(1000.0);
    assert!((u - 0.5).abs() < 1e-9);
    let (quotes, set) = fx.quotes(1000.0, u, Some(99970), Some(100030));
    assert_eq!(set.inner_ask, Some(100010));
    let sells = of(&quotes, Side::Sell);
    assert!(sells.iter().all(|q| q.purpose == Purpose::Reduce));
    assert_eq!(sells[0].size, 37);
    assert_eq!(sells.iter().map(|q| q.size).sum::<i64>(), 111);
    assert!(quotes.iter().all(|q| q.side == Side::Sell));
}

#[test]
fn moderate_long_keeps_reduced_buys() {
    let mut fx = Fix::new();
    fx.inv.pos.apply_fill(100, false);
    let u = fx.u(1000.0);
    let (quotes, _) = fx.quotes(1000.0, u, Some(99970), Some(100030));
    let buys = of(&quotes, Side::Buy);
    assert!(!buys.is_empty());
    assert!(buys.iter().all(|q| q.purpose == Purpose::Open && q.size == 20));
    let sells = of(&quotes, Side::Sell);
    assert!(sells.iter().all(|q| q.purpose == Purpose::Reduce && q.size == 30));
    assert!(sells.iter().map(|q| q.size).sum::<i64>() <= 100);
}

#[test]
fn open_orders_respect_capacity_and_min_size() {
    let mut fx = Fix::new();
    fx.inv.pos.apply_fill(470, false);
    let u = fx.u(1000.0);
    let (quotes, _) = fx.quotes(1000.0, u, Some(99970), Some(100030));
    assert!(quotes.iter().all(|q| q.side == Side::Sell));

    let mut fx = Fix::new();
    fx.uncontrolled.open_buy = 490;
    let (quotes, _) = fx.quotes(1000.0, 0.0, Some(99970), Some(100030));
    let buys = of(&quotes, Side::Buy);
    assert_eq!(buys.len(), 1);
    assert_eq!(buys[0].size, 10);
}

#[test]
fn protection_policies_apply_to_open_side_only() {
    let mut fx = Fix::new();
    fx.inv.pos.apply_fill(100, false);
    let u = fx.u(1000.0);
    fx.sell = SidePolicy {
        allow_open: false,
        size: SizeScale::Zero,
        size_capped: false,
        distance: DistanceScale::Normal,
        follow_tight: false,
        level: Level::Strong,
    };
    fx.buy = SidePolicy {
        allow_open: true,
        size: SizeScale::Half,
        size_capped: false,
        distance: DistanceScale::Normal,
        follow_tight: true,
        level: Level::Off,
    };
    let (quotes, _) = fx.quotes(1000.0, u, Some(99970), Some(100030));
    assert!(quotes.iter().any(|q| q.side == Side::Sell && q.purpose == Purpose::Reduce));
    let buys = of(&quotes, Side::Buy);
    assert!(buys.iter().all(|q| q.size == 10));
    let mut fx = Fix::new();
    fx.inv.pos.apply_fill(100, false);
    fx.buy = SidePolicy {
        allow_open: true,
        size: SizeScale::Light,
        size_capped: false,
        distance: DistanceScale::Light,
        follow_tight: false,
        level: Level::Light,
    };
    let (_, set) = fx.quotes(1000.0, 0.0, Some(99900), Some(100100));
    assert_eq!(set.bounds.buy_open_max, 99970);
    assert_eq!(set.bounds.buy_reduce_max, 99980);
}

#[test]
fn danger_check_semantics() {
    let b = SideBounds { buy_open_max: 99980, buy_reduce_max: 99980, sell_open_min: 100020, sell_reduce_min: 100020 };
    assert!(b.is_dangerous(Side::Buy, Purpose::Open, 99981));
    assert!(!b.is_dangerous(Side::Buy, Purpose::Open, 99980));
    assert!(b.is_dangerous(Side::Sell, Purpose::Open, 100019));
    assert!(!b.is_dangerous(Side::Sell, Purpose::Reduce, 100020));
}

#[test]
fn our_bids_stay_below_our_asks() {
    let mut fx = Fix::new();
    fx.inv.pos.apply_fill(10, false);
    fx.inv.pos.apply_fill(-10, false);
    let (quotes, set) = fx.quotes(1000.0, 0.0, Some(100500), Some(99500));
    assert!(set.inner_bid.unwrap() < set.inner_ask.unwrap());
    let best_bid = of(&quotes, Side::Buy).iter().map(|q| q.price).max().unwrap();
    let best_ask = of(&quotes, Side::Sell).iter().map(|q| q.price).min().unwrap();
    assert!(best_bid < best_ask);
}

#[test]
fn both_sides_reduce_while_both_positions_exist() {
    let mut fx = Fix::new();
    fx.inv.pos.apply_fill(40, false);
    fx.inv.pos.apply_fill(-30, false);
    let (quotes, _) = fx.quotes(1000.0, fx.u(1000.0), Some(99970), Some(100030));
    assert!(quotes.iter().all(|q| q.purpose == Purpose::Reduce));
    assert!(of(&quotes, Side::Buy).iter().map(|q| q.size).sum::<i64>() <= 30);
    assert!(of(&quotes, Side::Sell).iter().map(|q| q.size).sum::<i64>() <= 40);
}
