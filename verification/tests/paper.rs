//! The simulated exchange.

use stock_mm::engine::events::Event;
use stock_mm::engine::paper::{PaperEvent, PaperExchange};
use stock_mm::market::book::{BookDelta, BookSnapshot, DepthLevel, LocalBook};
use stock_mm::order::model::{ExchangeStatus, ExecCommand, ExecResponse, ExecResult, Tif};
use stock_mm::time::Instant;
use stock_mm::types::{Side, Ticks};

fn now() -> Instant {
    Instant::from_nanos(1_000_000_000_000)
}

fn book() -> LocalBook {
    let mut b = LocalBook::new();
    b.apply_snapshot(
        BookSnapshot {
            id: 1,
            bids: vec![DepthLevel { price: 99990, size: 30 }],
            asks: vec![DepthLevel { price: 100010, size: 30 }],
        },
        now(),
    );
    b.apply_delta(BookDelta { first_id: 2, last_id: 2, bids: vec![], asks: vec![], full: false }, now());
    b
}

fn place(n: u32, side: Side, size: i64, price: Option<Ticks>, tif: Tif, reduce_only: bool) -> ExecCommand {
    ExecCommand::Place { req_id: format!("p-{n}"), client_id: format!("t-mm{n}"), side, size, price, tif, reduce_only }
}

fn run(px: &mut PaperExchange, cmd: &ExecCommand) -> Vec<PaperEvent> {
    assert!(px.can_execute(cmd));
    px.execute(cmd, &book(), now(), 7)
}

fn result(evs: &[PaperEvent]) -> &ExecResult {
    match &evs[0] {
        PaperEvent::Exec(ExecResponse { result, .. }) => result,
        _ => panic!("no answer"),
    }
}

#[test]
fn resting_order_fills_on_trade_and_updates_position() {
    let mut px = PaperExchange::new();
    px.on_bbo(99990, 100010, now(), 7);
    let ev = run(&mut px, &place(1, Side::Buy, 10, Some(99995), Tif::Poc, false));
    assert!(matches!(result(&ev), ExecResult::Placed(_)));
    let ev = px.on_trade(99990, -4, now(), 7);
    assert!(ev.iter().any(|e| matches!(e, PaperEvent::Trade(t, _) if t.signed_size == 4)));
    assert_eq!(px.positions().long, 4);
    let ev = run(&mut px, &place(2, Side::Buy, 1, Some(100010), Tif::Poc, false));
    match result(&ev) {
        ExecResult::Placed(i) => {
            assert_eq!(i.status, ExchangeStatus::Finished);
            assert_eq!(i.finish_as, "poc");
        }
        other => panic!("{other:?}"),
    }
    let ev = run(&mut px, &place(3, Side::Sell, 4, Some(99990), Tif::Ioc, true));
    assert!(ev.iter().any(|e| matches!(e, PaperEvent::Trade(t, _) if t.signed_size == -4 && !t.is_maker)));
    assert_eq!(px.positions().long, 0);
}

#[test]
fn quotes_through_our_price_fill_it() {
    let mut px = PaperExchange::new();
    px.on_bbo(99990, 100010, now(), 7);
    run(&mut px, &place(1, Side::Buy, 10, Some(99985), Tif::Poc, false));
    assert!(px.can_trade());
    let ev = px.on_bbo(99970, 99980, now(), 7);
    assert!(ev.iter().any(|e| matches!(e, PaperEvent::Trade(t, _) if t.signed_size == 10 && t.is_maker)));
    assert!(px.open_quantities().is_empty());
}

#[test]
fn orders_are_amended_cancelled_and_asked_about() {
    let mut px = PaperExchange::new();
    px.on_bbo(99990, 100010, now(), 7);
    run(&mut px, &place(1, Side::Buy, 10, Some(99985), Tif::Poc, false));
    let amend = ExecCommand::Amend {
        req_id: "a-1".into(),
        exchange_id: "P1".into(),
        client_id: "t-mm1".into(),
        price: Some(99980),
        size: Some(6),
    };
    let ev = run(&mut px, &amend);
    assert!(matches!(result(&ev), ExecResult::Amended(i) if i.price == 99980 && i.size == 6));
    assert_eq!(px.open_quantities(), vec![(Some(99980), 6)]);
    let query = ExecCommand::Query { req_id: "q".into(), exchange_id: None, client_id: "t-mm1".into() };
    assert!(matches!(result(&run(&mut px, &query)), ExecResult::Queried(i) if i.exchange_id == "P1"));
    let cancel = ExecCommand::Cancel { req_id: "c".into(), exchange_id: None, client_id: "t-mm1".into() };
    assert!(matches!(result(&run(&mut px, &cancel)), ExecResult::Cancelled(i) if i.finish_as == "cancelled"));
    assert!(matches!(result(&run(&mut px, &cancel)), ExecResult::Error { label, .. } if label == "ORDER_NOT_FOUND"));
    run(&mut px, &place(2, Side::Buy, 1, Some(99900), Tif::Poc, false));
    assert!(matches!(result(&run(&mut px, &ExecCommand::CancelAll { req_id: "x".into() })), ExecResult::CancelledAll(1)));
}

#[test]
fn reduce_only_orders_need_a_position() {
    let mut px = PaperExchange::new();
    let ev = run(&mut px, &place(1, Side::Sell, 4, None, Tif::Ioc, true));
    assert!(matches!(result(&ev), ExecResult::Error { label, .. } if label == "REDUCE_ONLY_NO_POSITION"));
    assert_eq!(ev.len(), 1);
}

#[test]
fn the_simulated_position_has_two_sides() {
    let mut px = PaperExchange::new();
    px.on_bbo(99990, 100010, now(), 7);
    run(&mut px, &place(1, Side::Buy, 5, Some(100010), Tif::Ioc, false));
    match px.positions_event(1000.1, 0.0, 9) {
        Event::GatePositions(list) => {
            assert_eq!((list[0].mode.as_str(), list[0].size), ("dual_long", 5));
            assert_eq!((list[1].mode.as_str(), list[1].size), ("dual_short", 0));
        }
        other => panic!("{other:?}"),
    }
}

#[test]
fn reduce_only_post_only_orders_never_cross() {
    let mut px = PaperExchange::new();
    px.on_bbo(99990, 100010, now(), 7);
    run(&mut px, &place(1, Side::Buy, 4, Some(100010), Tif::Ioc, false));
    assert_eq!(px.positions().long, 4);
    let ev = run(&mut px, &place(2, Side::Sell, 4, Some(99990), Tif::Poc, true));
    assert!(matches!(result(&ev), ExecResult::Placed(i) if i.status == ExchangeStatus::Finished && i.finish_as == "poc"));
    assert_eq!(px.positions().long, 4);
    assert!(px.open_quantities().is_empty());
}

#[test]
fn post_only_orders_amended_across_the_quotes_finish_as_poc() {
    let mut px = PaperExchange::new();
    px.on_bbo(99990, 100010, now(), 7);
    run(&mut px, &place(1, Side::Buy, 10, Some(99985), Tif::Poc, false));
    let amend = ExecCommand::Amend {
        req_id: "a-1".into(),
        exchange_id: "P1".into(),
        client_id: "t-mm1".into(),
        price: Some(100010),
        size: None,
    };
    let ev = run(&mut px, &amend);
    assert!(matches!(result(&ev), ExecResult::Amended(i) if i.status == ExchangeStatus::Finished && i.finish_as == "poc"));
    assert!(matches!(ev.last(), Some(PaperEvent::Order(i)) if i.finish_as == "poc" && i.left == 10));
    assert_eq!(px.positions().long, 0);
    assert!(px.open_quantities().is_empty());
}
