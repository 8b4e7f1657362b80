//! The life of orders.

use stock_mm::order::manager::OrderManager;
use stock_mm::order::model::{
    DoneReason, ExchangeStatus, ExecCommand, ExecResponse, ExecResult, OrderInfo, OrderState, Tif, UserTrade,
};
use stock_mm::time::{Duration, Instant};
use stock_mm::types::{Purpose, Side, Ticks};

fn at(ms: u64) -> Instant {
    Instant::from_nanos(1_000_000_000_000 + ms * 1_000_000)
}

#[allow(clippy::too_many_arguments)]
fn info(ex: &str, cid: &str, side: Side, price: Ticks, size: i64, left: i64, status: ExchangeStatus, finish_as: &str) -> OrderInfo {
    OrderInfo {
        exchange_id: ex.into(),
        client_id: cid.into(),
        side,
        price,
        size,
        left,
        status,
        finish_as: finish_as.into(),
        reduce_only: false,
        tif: Some(Tif::Poc),
        update_ms: 1,
    }
}

fn trade(id: &str, ex: &str, client: &str, signed: i64, price: Ticks, px: f64, fee: f64) -> UserTrade<f64> {
    UserTrade {
        trade_id: id.into(),
        exchange_order_id: ex.into(),
        client_id: client.into(),
        signed_size: signed,
        price,
        price_f64: px,
        fee,
        is_maker: true,
        exch_ms: 0,
        at: at(0),
    }
}

fn mgr() -> OrderManager {
    OrderManager::new("t-mm", Duration::from_secs(3))
}

fn answer(m: &mut OrderManager, req_id: &str, result: ExecResult) -> Vec<ExecCommand> {
    m.on_exec_response(ExecResponse { req_id: req_id.to_string(), result, at: at(0) }).commands
}

fn placed(cmd: &ExecCommand) -> (String, String) {
    match cmd {
        ExecCommand::Place { req_id, client_id, .. } => (req_id.clone(), client_id.clone()),
        other => panic!("{other:?}"),
    }
}

#[test]
fn place_ack_amend_flow_with_latest_intent() {
    let mut m = mgr();
    let t0 = at(0);
    let (id, cmd) = m.place(Side::Buy, Purpose::Open, 0, Some(99971), 25, Tif::Poc, t0, 1);
    let (req_id, client_id) = placed(&cmd);
    assert!(m.amend(id, 99969, 25, t0).is_none());
    assert!(m.amend(id, 99968, 20, t0).is_none());
    let f = answer(
        &mut m,
        &req_id,
        ExecResult::Placed(info("E1", &client_id, Side::Buy, 99971, 25, 25, ExchangeStatus::Open, "")),
    );
    assert_eq!(f.len(), 1);
    match &f[0] {
        ExecCommand::Amend { price, size, exchange_id, .. } => {
            assert_eq!(*price, Some(99968));
            assert_eq!(*size, Some(20));
            assert_eq!(exchange_id, "E1");
        }
        other => panic!("unexpected {other:?}"),
    }
    assert_eq!(m.get(id).unwrap().state, OrderState::PendingAmend);
}

#[test]
fn amend_total_includes_filled() {
    let mut m = mgr();
    let t0 = at(0);
    let (id, cmd) = m.place(Side::Sell, Purpose::Open, 0, Some(100029), 8, Tif::Poc, t0, 1);
    let (req_id, client_id) = placed(&cmd);
    answer(
        &mut m,
        &req_id,
        ExecResult::Placed(info("E2", &client_id, Side::Sell, 100029, 8, 8, ExchangeStatus::Open, "")),
    );
    let fill = m.on_user_trade(trade("T1", "E2", &client_id, -3, 100029, 1000.29, -0.01)).unwrap();
    assert_eq!(fill.size, 3);
    assert!(m.on_user_trade(trade("T1", "E2", &client_id, -3, 100029, 1000.29, 0.0)).is_none());
    let cmd = m.amend(id, 100030, 5, t0).unwrap();
    match cmd {
        ExecCommand::Amend { size, .. } => assert_eq!(size, Some(8)),
        _ => panic!(),
    }
}

#[test]
fn cancel_failure_queries_instead_of_assuming() {
    let mut m = mgr();
    let t0 = at(0);
    let (id, cmd) = m.place(Side::Buy, Purpose::Open, 1, Some(99961), 25, Tif::Poc, t0, 1);
    let (req_id, client_id) = placed(&cmd);
    answer(
        &mut m,
        &req_id,
        ExecResult::Placed(info("E3", &client_id, Side::Buy, 99961, 25, 25, ExchangeStatus::Open, "")),
    );
    let c = m.cancel(id, t0).unwrap();
    let ExecCommand::Cancel { req_id, .. } = c else { panic!() };
    let f = answer(&mut m, &req_id, ExecResult::Error { label: "SERVER_ERROR".into(), message: "x".into() });
    assert!(matches!(f.as_slice(), [ExecCommand::Query { .. }]));
    assert!(!m.get(id).unwrap().state.is_terminal());
    let ExecCommand::Query { req_id, .. } = &f[0] else { panic!() };
    answer(
        &mut m,
        req_id,
        ExecResult::Queried(info("E3", &client_id, Side::Buy, 99961, 25, 25, ExchangeStatus::Finished, "cancelled")),
    );
    assert_eq!(m.get(id).unwrap().state, OrderState::Done(DoneReason::Cancelled));
}

#[test]
fn late_fill_after_cancel_is_still_counted() {
    let mut m = mgr();
    let t0 = at(0);
    let (id, cmd) = m.place(Side::Buy, Purpose::Open, 0, Some(99971), 25, Tif::Poc, t0, 1);
    let (req_id, client_id) = placed(&cmd);
    answer(
        &mut m,
        &req_id,
        ExecResult::Placed(info("E4", &client_id, Side::Buy, 99971, 25, 25, ExchangeStatus::Open, "")),
    );
    let ExecCommand::Cancel { req_id, .. } = m.cancel(id, t0).unwrap() else { panic!() };
    answer(
        &mut m,
        &req_id,
        ExecResult::Cancelled(info("E4", &client_id, Side::Buy, 99971, 25, 20, ExchangeStatus::Finished, "cancelled")),
    );
    assert!(m.get(id).unwrap().state.is_terminal());
    let f = m.on_user_trade(trade("T9", "E4", &client_id, 5, 99971, 999.71, 0.0));
    assert_eq!(f.unwrap().size, 5);
    assert_eq!(m.get(id).unwrap().filled, 5);
}

#[test]
fn timeout_issues_query_not_resend() {
    let mut m = mgr();
    let (id, _) = m.place(Side::Buy, Purpose::Open, 0, Some(99971), 25, Tif::Poc, at(0), 1);
    assert!(m.check_timeouts(at(1_000)).is_empty());
    let cmds = m.check_timeouts(at(4_000));
    assert!(matches!(cmds.as_slice(), [ExecCommand::Query { .. }]));
    assert_eq!(m.get(id).unwrap().state, OrderState::PendingNew);
    assert_eq!(m.uncontrolled_exposure().open_buy, 25);
}

#[test]
fn stream_update_drives_terminal_and_pending_new_to_live() {
    let mut m = mgr();
    let t0 = at(0);
    let (id, cmd) = m.place(Side::Sell, Purpose::Reduce, 0, Some(100010), 37, Tif::Poc, t0, 1);
    let (_, client_id) = placed(&cmd);
    m.on_order_update(info("E5", &client_id, Side::Sell, 100010, 37, 37, ExchangeStatus::Open, ""), t0);
    assert_eq!(m.get(id).unwrap().state, OrderState::Live);
    m.on_order_update(info("E5", &client_id, Side::Sell, 100010, 37, 0, ExchangeStatus::Finished, "filled"), t0);
    assert_eq!(m.get(id).unwrap().state, OrderState::Done(DoneReason::Filled));
    assert_eq!(m.get(id).unwrap().filled, 37);
    assert!(m.own_resting().is_empty());
}

fn live_order(m: &mut OrderManager, ex: &str) -> (u64, String) {
    let (id, cmd) = m.place(Side::Buy, Purpose::Open, 0, Some(99971), 25, Tif::Poc, at(0), 1);
    let (req_id, client_id) = placed(&cmd);
    answer(m, &req_id, ExecResult::Placed(info(ex, &client_id, Side::Buy, 99971, 25, 25, ExchangeStatus::Open, "")));
    (id, client_id)
}

#[test]
fn one_request_is_in_flight_per_order() {
    let mut m = mgr();
    let (id, _) = live_order(&mut m, "E1");
    assert!(m.cancel(id, at(1)).is_some());
    assert!(m.cancel(id, at(2)).is_none());
    assert!(m.amend(id, 99960, 25, at(3)).is_none());
}

#[test]
fn cancel_where_selects_by_predicate() {
    let mut m = mgr();
    let (a, _) = live_order(&mut m, "E1");
    let (b, _) = live_order(&mut m, "E2");
    let cmds = m.cancel_where(|o| o.id == b, at(1));
    assert_eq!(cmds.len(), 1);
    assert_eq!(m.get(a).unwrap().state, OrderState::Live);
    assert_eq!(m.get(b).unwrap().state, OrderState::PendingCancel);
}

#[test]
fn finished_orders_are_forgotten_after_a_while() {
    let mut m = mgr();
    let (id, client_id) = live_order(&mut m, "E1");
    m.on_order_update(info("E1", &client_id, Side::Buy, 99971, 25, 0, ExchangeStatus::Finished, "filled"), at(10));
    m.gc(at(119_000));
    assert!(m.get(id).is_some());
    m.gc(at(10 + 120_001));
    assert!(m.get(id).is_none());
}

#[test]
fn orders_missing_from_the_exchange_are_asked_about_and_strangers_reported() {
    let mut m = mgr();
    let (id, client_id) = live_order(&mut m, "E1");
    let ours = info("E1", &client_id, Side::Buy, 99971, 25, 10, ExchangeStatus::Open, "");
    let stranger = info("E9", "t-other", Side::Sell, 100050, 3, 3, ExchangeStatus::Open, "");
    let unknown = m.adopt_open_orders(vec![ours, stranger], at(5));
    assert_eq!(unknown.len(), 1);
    assert_eq!(unknown[0].exchange_id, "E9");
    assert_eq!(m.get(id).unwrap().filled, 15);
    assert!(m.is_ours(&client_id));
    assert!(!m.is_ours("t-other"));
}

#[test]
fn client_ids_carry_prefix_time_and_number() {
    let mut m = mgr();
    let (_, cmd) = m.place(Side::Buy, Purpose::Open, 0, Some(1), 1, Tif::Poc, at(0), 7);
    let (_, a) = placed(&cmd);
    let (_, cmd) = m.place(Side::Buy, Purpose::Open, 1, Some(1), 1, Tif::Poc, at(0), 7);
    let (_, b) = placed(&cmd);
    assert!(a.starts_with("t-mm") && b.starts_with("t-mm"));
    assert_ne!(a, b);
}

#[test]
fn post_only_rejects_and_iocs_end_orders() {
    let mut m = mgr();
    let (id, cmd) = m.place(Side::Buy, Purpose::Open, 0, Some(99971), 25, Tif::Poc, at(0), 1);
    let (req_id, _) = placed(&cmd);
    let f = answer(&mut m, &req_id, ExecResult::Error { label: "ORDER_POC_IMMEDIATE".into(), message: String::new() });
    assert!(f.is_empty());
    assert_eq!(m.get(id).unwrap().state, OrderState::Done(DoneReason::PostOnlyReject));
}

#[test]
fn a_cancel_waits_for_the_query_in_flight() {
    let mut m = mgr();
    let t0 = at(0);
    let (id, cmd) = m.place(Side::Buy, Purpose::Open, 1, Some(99961), 25, Tif::Poc, t0, 1);
    let (req_id, client_id) = placed(&cmd);
    let open = || info("E3", &client_id, Side::Buy, 99961, 25, 25, ExchangeStatus::Open, "");
    answer(&mut m, &req_id, ExecResult::Placed(open()));
    let Some(ExecCommand::Cancel { req_id: c, .. }) = m.cancel(id, t0) else { panic!() };
    let f = answer(&mut m, &c, ExecResult::Error { label: "SERVER_ERROR".into(), message: "x".into() });
    let [ExecCommand::Query { req_id: q, .. }] = f.as_slice() else { panic!("{f:?}") };
    let q = q.clone();
    assert_eq!(m.get(id).unwrap().state, OrderState::Live);
    assert!(m.amend(id, 99960, 25, t0).is_none());
    assert!(m.cancel(id, t0).is_none());
    let f = answer(&mut m, &q, ExecResult::Queried(open()));
    assert!(matches!(f.as_slice(), [ExecCommand::Cancel { .. }]));
    assert_eq!(m.get(id).unwrap().state, OrderState::PendingCancel);
}

#[test]
fn an_amend_in_flight_counts_the_larger_size() {
    let mut m = mgr();
    let t0 = at(0);
    let (id, cmd) = m.place(Side::Buy, Purpose::Open, 0, Some(99971), 25, Tif::Poc, t0, 1);
    let (req_id, client_id) = placed(&cmd);
    let open = || info("E1", &client_id, Side::Buy, 99971, 25, 25, ExchangeStatus::Open, "");
    answer(&mut m, &req_id, ExecResult::Placed(open()));
    assert_eq!(m.uncontrolled_exposure().open_buy, 0);
    let Some(ExecCommand::Amend { req_id: a, .. }) = m.amend(id, 99971, 40, t0) else { panic!() };
    assert_eq!(m.uncontrolled_exposure().open_buy, 40);
    m.on_order_update(open(), t0);
    assert_eq!(m.get(id).unwrap().state, OrderState::PendingAmend);
    assert_eq!(m.uncontrolled_exposure().open_buy, 40);
    let f = answer(&mut m, &a, ExecResult::Error { label: "SERVER_ERROR".into(), message: "x".into() });
    let [ExecCommand::Query { req_id: q, .. }] = f.as_slice() else { panic!("{f:?}") };
    let q = q.clone();
    assert_eq!(m.uncontrolled_exposure().open_buy, 40);
    answer(&mut m, &q, ExecResult::Queried(open()));
    assert_eq!(m.uncontrolled_exposure().open_buy, 0);
}

#[test]
fn a_trade_delivered_again_is_not_counted() {
    let mut m = mgr();
    let (id, client_id) = live_order(&mut m, "E1");
    assert_eq!(m.on_user_trade(trade("T1", "E1", &client_id, 4, 99971, 999.71, 0.0)).unwrap().size, 4);
    for k in 0..20 {
        m.on_user_trade(trade(&format!("U{k}"), "E7", "t-other", 1, 99971, 999.71, 0.0));
    }
    let again = trade("T1", "E1", &client_id, i64::MAX, 99971, 999.71, 0.0);
    assert!(m.can_book(&again));
    assert!(m.on_user_trade(again).is_none());
    assert_eq!(m.get(id).unwrap().filled, 4);
    assert!(!m.can_book(&trade("T2", "E1", &client_id, i64::MAX, 99971, 999.71, 0.0)));
}

#[test]
fn an_order_confirmed_by_the_stream_is_cancelled_once_its_placement_is_resolved() {
    let mut m = mgr();
    let t0 = at(0);
    let (id, cmd) = m.place(Side::Buy, Purpose::Open, 0, Some(99971), 25, Tif::Poc, t0, 1);
    let (req_id, client_id) = placed(&cmd);
    let open = || info("E1", &client_id, Side::Buy, 99971, 25, 25, ExchangeStatus::Open, "");
    m.on_order_update(open(), t0);
    assert_eq!(m.get(id).unwrap().state, OrderState::Live);
    assert!(m.cancel(id, t0).is_none());
    let f = answer(&mut m, &req_id, ExecResult::Error { label: "UNKNOWN".into(), message: "out of range".into() });
    assert!(matches!(f.as_slice(), [ExecCommand::Cancel { .. }]));
    assert_eq!(m.get(id).unwrap().state, OrderState::PendingCancel);
}

#[test]
fn a_finished_order_stays_finished_whatever_comes() {
    let mut m = mgr();
    let (id, client_id) = live_order(&mut m, "E1");
    let open = || info("E1", &client_id, Side::Buy, 99971, 25, 25, ExchangeStatus::Open, "");
    let Some(ExecCommand::Cancel { req_id: c, .. }) = m.cancel(id, at(1)) else { panic!() };
    m.on_order_update(info("E1", &client_id, Side::Buy, 99971, 25, 5, ExchangeStatus::Finished, "cancelled"), at(2));
    assert!(m.get(id).unwrap().state.is_terminal());
    m.on_order_update(open(), at(3));
    answer(&mut m, &c, ExecResult::Queried(open()));
    assert!(m.adopt_open_orders(vec![open()], at(4)).is_empty());
    assert!(m.check_timeouts(at(60_000)).is_empty());
    assert!(m.cancel(id, at(60_001)).is_none());
    assert!(m.amend(id, 99960, 25, at(60_002)).is_none());
    m.gc(at(60_003));
    let o = m.get(id).unwrap();
    assert!(o.state.is_terminal());
    assert_eq!((o.filled, o.client_id.as_str()), (20, client_id.as_str()));
}

#[test]
fn a_timed_out_amend_counts_until_the_query_is_answered() {
    let mut m = mgr();
    let t0 = at(0);
    let (id, cmd) = m.place(Side::Sell, Purpose::Open, 0, Some(100029), 25, Tif::Poc, t0, 1);
    let (req_id, client_id) = placed(&cmd);
    let open = || info("E1", &client_id, Side::Sell, 100029, 25, 25, ExchangeStatus::Open, "");
    answer(&mut m, &req_id, ExecResult::Placed(open()));
    m.amend(id, 100029, 40, t0).unwrap();
    let f = m.check_timeouts(at(3_000));
    let [ExecCommand::Query { req_id: q, .. }] = f.as_slice() else { panic!("{f:?}") };
    let q = q.clone();
    assert_eq!(m.uncontrolled_exposure().open_sell, 40);
    answer(&mut m, &q, ExecResult::Queried(open()));
    assert_eq!(m.uncontrolled_exposure().open_sell, 0);
    assert_eq!(m.get(id).unwrap().remaining(), 25);
}
