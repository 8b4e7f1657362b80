//! Bringing live orders in line with the wanted quotes.

use stock_mm::config::Quoting;
use stock_mm::order::manager::OrderManager;
use stock_mm::order::model::{ExchangeStatus, ExecCommand, ExecResponse, ExecResult, OrderInfo, Tif};
use stock_mm::order::reconcile::{reconcile, size_growths, ReconcileParams, ReconcileReport};
use stock_mm::strategy::quote::{Quote, SideBounds};
use stock_mm::time::{Duration, Instant};
use stock_mm::types::{Purpose, Side, Ticks};

fn t0() -> Instant {
    Instant::from_nanos(1_000_000_000_000)
}

fn bounds() -> SideBounds {
    SideBounds { buy_open_max: 99980, buy_reduce_max: 99980, sell_open_min: 100020, sell_reduce_min: 100020 }
}

fn q(side: Side, layer: u8, purpose: Purpose, price: Ticks, size: i64) -> Quote {
    Quote { side, layer, purpose, price, size }
}

/// Sizes may grow by 30% before an order is changed for it.
fn run(m: &mut OrderManager, desired: &Vec<Quote>, b: SideBounds, use_amend: bool, now_ms: i64) -> ReconcileReport {
    let cfg = Quoting::default();
    let grown: Vec<u64> = size_growths(m, desired)
        .iter()
        .filter(|g| (g.wanted - g.remaining) as f64 > 0.3 * g.remaining.max(1) as f64)
        .map(|g| g.id)
        .collect();
    let p = ReconcileParams {
        bounds: b,
        follow_tight_buy: false,
        follow_tight_sell: false,
        cfg: &cfg,
        use_amend,
        grown: &grown,
    };
    reconcile(m, desired, p, t0(), now_ms)
}

fn make_live(m: &mut OrderManager, cmds: &[ExecCommand]) {
    for c in cmds {
        if let ExecCommand::Place { req_id, client_id, side, size, price, .. } = c {
            let info = OrderInfo {
                exchange_id: format!("E{}", req_id),
                client_id: client_id.clone(),
                side: *side,
                price: price.unwrap(),
                size: *size,
                left: *size,
                status: ExchangeStatus::Open,
                finish_as: String::new(),
                reduce_only: false,
                tif: Some(Tif::Poc),
                update_ms: 1,
            };
            m.on_exec_response(ExecResponse { req_id: req_id.clone(), result: ExecResult::Placed(info), at: t0() });
        }
    }
}

fn manager() -> OrderManager {
    OrderManager::new("t-mm", Duration::from_secs(3))
}

#[test]
fn places_missing_then_keeps_within_threshold() {
    let mut m = manager();
    let desired = vec![q(Side::Buy, 0, Purpose::Open, 99971, 25), q(Side::Sell, 0, Purpose::Open, 100029, 25)];
    let r = run(&mut m, &desired, bounds(), true, 1);
    assert_eq!(r.placed, 2);
    make_live(&mut m, &r.commands);
    let desired = vec![q(Side::Buy, 0, Purpose::Open, 99970, 25), q(Side::Sell, 0, Purpose::Open, 100030, 25)];
    let r = run(&mut m, &desired, bounds(), true, 2);
    assert_eq!(r.kept, 2);
    assert!(r.commands.is_empty());
    let desired = vec![q(Side::Buy, 0, Purpose::Open, 99969, 25), q(Side::Sell, 0, Purpose::Open, 100031, 25)];
    let r = run(&mut m, &desired, bounds(), true, 3);
    assert_eq!(r.repriced, 2);
    assert_eq!(r.commands.len(), 2);
}

#[test]
fn dangerous_order_repriced_even_one_tick_and_first() {
    let mut m = manager();
    let desired = vec![q(Side::Buy, 0, Purpose::Open, 99980, 25), q(Side::Buy, 2, Purpose::Open, 99955, 25)];
    let r = run(&mut m, &desired, bounds(), true, 1);
    make_live(&mut m, &r.commands);
    let mut b = bounds();
    b.buy_open_max = 99979;
    let desired = vec![q(Side::Buy, 0, Purpose::Open, 99979, 25), q(Side::Buy, 2, Purpose::Open, 99954, 25)];
    let r = run(&mut m, &desired, b, true, 2);
    assert_eq!(r.dangerous, 1);
    assert_eq!(r.kept, 1);
    assert_eq!(r.commands.len(), 1);
    assert!(matches!(r.commands[0], ExecCommand::Amend { price: Some(99979), .. }));
}

#[test]
fn purpose_change_cancels_and_defers_replacement() {
    let mut m = manager();
    let desired = vec![q(Side::Sell, 0, Purpose::Open, 100029, 25)];
    let r = run(&mut m, &desired, bounds(), true, 1);
    make_live(&mut m, &r.commands);
    let desired = vec![q(Side::Sell, 0, Purpose::Reduce, 100029, 30)];
    let r = run(&mut m, &desired, bounds(), true, 2);
    assert_eq!(r.cancelled, 1);
    assert_eq!(r.placed, 0);
    assert!(matches!(r.commands.as_slice(), [ExecCommand::Cancel { .. }]));
}

#[test]
fn without_native_amend_reprice_is_cancel_then_fresh_place() {
    let mut m = manager();
    let desired = vec![q(Side::Buy, 0, Purpose::Open, 99971, 25)];
    let r = run(&mut m, &desired, bounds(), false, 1);
    make_live(&mut m, &r.commands);
    let desired = vec![q(Side::Buy, 0, Purpose::Open, 99968, 25)];
    let r = run(&mut m, &desired, bounds(), false, 2);
    assert_eq!(r.repriced, 1);
    assert_eq!(r.placed, 0);
    assert!(matches!(r.commands.as_slice(), [ExecCommand::Cancel { .. }]));
    let ExecCommand::Cancel { req_id, client_id, .. } = &r.commands[0] else { panic!() };
    let info = OrderInfo {
        exchange_id: "E1".into(),
        client_id: client_id.clone(),
        side: Side::Buy,
        price: 99971,
        size: 25,
        left: 25,
        status: ExchangeStatus::Finished,
        finish_as: "cancelled".into(),
        reduce_only: false,
        tif: Some(Tif::Poc),
        update_ms: 1,
    };
    m.on_exec_response(ExecResponse { req_id: req_id.clone(), result: ExecResult::Cancelled(info), at: t0() });
    let desired = vec![q(Side::Buy, 0, Purpose::Open, 99966, 25)];
    let r = run(&mut m, &desired, bounds(), false, 3);
    assert_eq!(r.placed, 1);
    assert!(matches!(r.commands.as_slice(), [ExecCommand::Place { price: Some(99966), .. }]));
}

#[test]
fn size_shrink_keeps_price_and_unwanted_slots_cancel() {
    let mut m = manager();
    let desired = vec![q(Side::Buy, 0, Purpose::Open, 99971, 25), q(Side::Buy, 1, Purpose::Open, 99961, 25)];
    let r = run(&mut m, &desired, bounds(), true, 1);
    make_live(&mut m, &r.commands);
    let desired = vec![q(Side::Buy, 0, Purpose::Open, 99971, 12)];
    let r = run(&mut m, &desired, bounds(), true, 2);
    assert_eq!(r.resized, 1);
    assert_eq!(r.cancelled, 1);
    let amend = r.commands.iter().find(|c| matches!(c, ExecCommand::Amend { .. })).unwrap();
    assert!(matches!(amend, ExecCommand::Amend { price: Some(99971), size: Some(12), .. }));
    make_live(&mut m, &[]);
}

#[test]
fn small_growth_is_ignored_and_large_growth_amends() {
    let mut m = manager();
    let desired = vec![q(Side::Buy, 0, Purpose::Open, 99971, 20)];
    let r = run(&mut m, &desired, bounds(), true, 1);
    make_live(&mut m, &r.commands);
    let r = run(&mut m, &vec![q(Side::Buy, 0, Purpose::Open, 99971, 26)], bounds(), true, 2);
    assert_eq!((r.kept, r.resized), (1, 0));
    let r = run(&mut m, &vec![q(Side::Buy, 0, Purpose::Open, 99971, 27)], bounds(), true, 3);
    assert_eq!((r.kept, r.resized), (0, 1));
    assert!(matches!(r.commands[0], ExecCommand::Amend { size: Some(27), .. }));
}

#[test]
fn dangerous_commands_stand_before_the_others() {
    let mut m = manager();
    let desired = vec![q(Side::Sell, 1, Purpose::Open, 100050, 25), q(Side::Buy, 0, Purpose::Open, 99980, 25)];
    let r = run(&mut m, &desired, bounds(), true, 1);
    make_live(&mut m, &r.commands);
    let mut b = bounds();
    b.buy_open_max = 99970;
    let desired = vec![q(Side::Buy, 0, Purpose::Open, 99970, 25), q(Side::Sell, 1, Purpose::Open, 100060, 25)];
    let r = run(&mut m, &desired, b, true, 2);
    assert_eq!((r.dangerous, r.repriced), (1, 2));
    assert!(matches!(r.commands[0], ExecCommand::Amend { price: Some(99970), .. }));
    assert!(matches!(r.commands[1], ExecCommand::Amend { price: Some(100060), .. }));
}

#[test]
fn a_dangerous_extra_order_goes_first_too() {
    let mut m = manager();
    let mut cmds = Vec::new();
    for (side, layer, price) in [(Side::Sell, 1, 100050), (Side::Buy, 0, 99970), (Side::Buy, 0, 99981)] {
        cmds.push(m.place(side, Purpose::Open, layer, Some(price), 25, Tif::Poc, t0(), 1).1);
    }
    make_live(&mut m, &cmds);
    let ExecCommand::Place { client_id: extra, .. } = &cmds[2] else { panic!() };
    let desired = vec![q(Side::Buy, 0, Purpose::Open, 99970, 25), q(Side::Sell, 1, Purpose::Open, 100060, 25)];
    let r = run(&mut m, &desired, bounds(), true, 2);
    assert_eq!((r.dangerous, r.cancelled, r.repriced, r.kept), (1, 1, 1, 1));
    assert!(matches!(&r.commands[0], ExecCommand::Cancel { client_id, .. } if client_id == extra));
    assert!(matches!(r.commands[1], ExecCommand::Amend { price: Some(100060), .. }));
}

#[test]
fn a_second_pass_over_the_same_quotes_sends_nothing() {
    let mut m = manager();
    let desired = vec![
        q(Side::Buy, 0, Purpose::Open, 99971, 25),
        q(Side::Buy, 1, Purpose::Open, 99961, 20),
        q(Side::Sell, 0, Purpose::Open, 100029, 25),
    ];
    let r = run(&mut m, &desired, bounds(), true, 1);
    assert_eq!((r.placed, r.commands.len()), (3, 3));
    make_live(&mut m, &r.commands);
    let r = run(&mut m, &desired, bounds(), true, 2);
    assert!(r.commands.is_empty());
    assert_eq!((r.kept, r.placed, r.repriced, r.resized, r.cancelled, r.dangerous), (3, 0, 0, 0, 0, 0));
}
