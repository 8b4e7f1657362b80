//! Trading sessions: the pool, the waiting requests and the wire.

use stock_mm::decimal::Dec;
use stock_mm::exchange::gate_trade::{
    api_request, login_request, next_live_slot, parse_api_response, ApiReply, Pending, Pool, TradeCommand,
};
use stock_mm::exchange::gate_types::{GateOrder, IntField};
use stock_mm::exchange::json::{read_json, write_json, Json};
use stock_mm::exchange::trade_session::{Incoming, Phase, Route, TradeSession};
use stock_mm::order::model::{ExchangeStatus, ExecCommand, ExecResponse, ExecResult, OrderInfo, Tif};
use stock_mm::time::{Duration, Instant};
use stock_mm::types::{Side, TickGrid, Ticks};

fn at(ms: u64) -> Instant {
    Instant::from_nanos(1_000_000_000_000 + ms * 1_000_000)
}

fn grid() -> TickGrid {
    TickGrid::new(Dec::parse("0.01").unwrap())
}

fn json(s: &str) -> Json {
    read_json(s).unwrap()
}

fn round(s: &str) -> Ticks {
    (s.parse::<f64>().unwrap() / 0.01).round() as Ticks
}

fn whole(i: &IntField) -> i64 {
    match i {
        IntField::Known(n) => *n,
        IntField::Decimal(s) => s.parse::<f64>().map(|f| f as i64).unwrap_or(0),
    }
}

fn normal(o: &GateOrder<IntField, String>) -> OrderInfo {
    let n = GateOrder {
        id: o.id.clone(),
        text: o.text.clone(),
        contract: o.contract.clone(),
        size: whole(&o.size),
        left: whole(&o.left),
        price: 0.0,
        fill_price: 0.0,
        status: o.status.clone(),
        finish_as: o.finish_as.clone(),
        is_reduce_only: o.is_reduce_only,
        tif: o.tif.clone(),
        update_time: whole(&o.update_time),
        update_time_ms: whole(&o.update_time_ms),
        create_time_ms: whole(&o.create_time_ms),
    };
    assert!(n.is_convertible());
    n.to_info(round(&o.price))
}

#[test]
fn round_robin_skips_dead_slots() {
    assert_eq!(next_live_slot(&[true, true, true], 0), Some(0));
    assert_eq!(next_live_slot(&[false, true, false], 0), Some(1));
    assert_eq!(next_live_slot(&[false, false, true], 0), Some(2));
    assert_eq!(next_live_slot(&[true, false, true], 1), Some(2));
    assert_eq!(next_live_slot(&[true, false, false], 1), Some(0));
    assert_eq!(next_live_slot(&[false, false, false], 0), None);
    assert_eq!(next_live_slot(&[], 0), None);
}

#[test]
fn ack_is_not_final_and_errors_are_labelled() {
    let ack = json(r#"{"request_id":"p-1","ack":true,"header":{"status":"200","channel":"futures.order_place","event":"api"}}"#);
    assert!(parse_api_response(&ack).is_none());
    let err = json(r#"{"request_id":"p-1","header":{"status":"400","channel":"futures.order_place","event":"api"},"data":{"errs":{"label":"POC_FILL_IMMEDIATELY","message":"..."}}}"#);
    match parse_api_response(&err) {
        Some((id, ApiReply::Refused { label, .. })) => {
            assert_eq!(id, "p-1");
            assert_eq!(label, "POC_FILL_IMMEDIATELY");
        }
        other => panic!("{other:?}"),
    }
    let ok = json(r#"{"request_id":"p-2","header":{"status":"200","channel":"futures.order_place","event":"api"},"data":{"result":{"id":123,"text":"t-mm1","size":5,"left":5,"price":"1500.10","status":"open","tif":"poc"}}}"#);
    match parse_api_response(&ok) {
        Some((_, ApiReply::Order(o))) => {
            let i = normal(&o);
            assert_eq!(i.exchange_id, "123");
            assert_eq!(i.price, 150010);
        }
        other => panic!("{other:?}"),
    }
}

#[test]
fn a_bad_status_labels_the_result() {
    let v = json(r#"{"request_id":"p-1","header":{"status":429},"data":{"result":{"label":"TOO_MANY","message":"slow down"}}}"#);
    assert!(matches!(parse_api_response(&v), Some((_, ApiReply::Refused { label, message })) if label == "TOO_MANY" && message == "slow down"));
    let v = json(r#"{"request_id":"p-1","header":{"status":"500"},"data":{"result":{}}}"#);
    assert!(matches!(parse_api_response(&v), Some((_, ApiReply::Refused { label, message })) if label == "ERROR" && message.is_empty()));
    assert!(parse_api_response(&json(r#"{"data":{}}"#)).is_none());
}

#[test]
fn the_pool_goes_round_and_reports_changes() {
    let mut p = Pool::new(3);
    assert_eq!(p.candidates(), Vec::<usize>::new());
    assert_eq!(p.set_status(1, true), Some(true));
    assert_eq!(p.set_status(1, true), None);
    assert_eq!(p.set_status(2, true), None);
    assert_eq!(p.set_status(9, true), None);
    assert_eq!(p.candidates(), vec![1, 2]);
    p.sent(1);
    assert_eq!(p.candidates(), vec![2, 1]);
    p.missed();
    assert_eq!(p.candidates(), vec![1, 2]);
    assert_eq!(p.set_status(1, false), None);
    assert_eq!(p.set_status(2, false), Some(false));
    let mut none = Pool::new(0);
    none.missed();
    assert!(none.candidates().is_empty());
}

fn cancel(req: &str) -> TradeCommand {
    let cmd = ExecCommand::Cancel { req_id: req.into(), exchange_id: Some("E1".into()), client_id: "t-mm1".into() };
    TradeCommand { cmd, side: Side::Sell }
}

fn is_unknown(r: &ExecResponse, id: &str, text: &str) -> bool {
    r.req_id == id && matches!(&r.result, ExecResult::Error { label, message } if label == "UNKNOWN" && message == text)
}

#[test]
fn waiting_requests_expire_after_five_seconds() {
    let mut p = Pending::new();
    p.insert("c-1", cancel("c-1"), at(0));
    p.insert("c-2", cancel("c-2"), at(1_000));
    assert!(p.expire(at(5_000)).is_empty());
    let out = p.expire(at(5_001));
    assert_eq!(out.len(), 1);
    assert!(is_unknown(&out[0], "c-1", "ws response timeout"));
    let out = p.drain(at(6_000));
    assert_eq!(out.len(), 1);
    assert!(is_unknown(&out[0], "c-2", "ws disconnected"));
    assert!(p.drain(at(6_000)).is_empty());
}

fn open_info() -> OrderInfo {
    OrderInfo {
        exchange_id: "E1".into(),
        client_id: "t-mm1".into(),
        side: Side::Sell,
        price: 1,
        size: 1,
        left: 1,
        status: ExchangeStatus::Open,
        finish_as: String::new(),
        reduce_only: false,
        tif: None,
        update_ms: 0,
    }
}

#[test]
fn answers_take_the_name_of_their_command_and_come_once() {
    let mut p = Pending::new();
    p.insert("c-1", cancel("c-1"), at(0));
    assert!(p.answer("c-9", ExecResult::CancelledAll(0), at(1)).is_none());
    let r = p.answer("c-1", ExecResult::Placed(open_info()), at(1)).unwrap();
    assert!(matches!(r.result, ExecResult::Cancelled(_)));
    assert!(p.answer("c-1", ExecResult::Placed(open_info()), at(2)).is_none());
}

#[test]
fn logins_are_signed() {
    let j = login_request("key", "secret", 1700000000);
    let text = write_json(&j);
    let back = json(&text);
    assert_eq!(back.text_at("channel"), Some("futures.login"));
    let payload = back.get("payload").unwrap();
    assert_eq!(payload.text_at("api_key"), Some("key"));
    assert_eq!(payload.text_at("timestamp"), Some("1700000000"));
    let sign = stock_mm::util::hmac_sha512_hex("secret", "api\nfutures.login\n\n1700000000");
    assert_eq!(payload.text_at("signature"), Some(sign.as_str()));
}

#[test]
fn commands_are_written_with_signed_sizes() {
    let g = grid();
    let place = ExecCommand::Place {
        req_id: "p-1".into(),
        client_id: "t-mm1".into(),
        side: Side::Sell,
        size: 5,
        price: Some(150010),
        tif: Tif::Poc,
        reduce_only: true,
    };
    let j = api_request("SNDK_USDT", &g, &place, Side::Sell, 7).unwrap();
    let param = j.get("payload").unwrap().get("req_param").unwrap();
    assert_eq!(param.text_at("contract"), Some("SNDK_USDT"));
    assert_eq!(param.get("size").unwrap().as_i64(), Some(-5));
    assert_eq!(param.text_at("price"), Some("1500.10"));
    assert_eq!(param.text_at("tif"), Some("poc"));
    assert!(param.flag("reduce_only"));
    let amend = ExecCommand::Amend {
        req_id: "a-1".into(),
        exchange_id: "E1".into(),
        client_id: "t-mm1".into(),
        price: None,
        size: Some(8),
    };
    let j = api_request("SNDK_USDT", &g, &amend, Side::Buy, 7).unwrap();
    let param = j.get("payload").unwrap().get("req_param").unwrap();
    assert_eq!(param.text_at("order_id"), Some("E1"));
    assert_eq!(param.get("size").unwrap().as_i64(), Some(8));
    assert!(param.get("price").is_none());
    assert!(api_request("SNDK_USDT", &g, &ExecCommand::CancelAll { req_id: "x".into() }, Side::Buy, 7).is_none());
}

#[test]
fn a_session_serves_over_rest_until_it_is_live() {
    let g = grid();
    let mut s = TradeSession::new();
    assert!(matches!(s.route("C", &g, &cancel("c-1"), 1), Route::Rest));
    s.connected();
    assert!(matches!(s.route("C", &g, &cancel("c-1"), 1), Route::Rest));
    assert!(matches!(s.receive(&json(r#"{"request_id":"login-1","header":{"status":"401"}}"#)), Incoming::Rejected));
    assert!(matches!(s.receive(&json(r#"{"request_id":"login-1","header":{"status":"200"}}"#)), Incoming::LoggedIn));
    assert_eq!(s.phase, Phase::Live);
    assert!(matches!(s.route("C", &g, &cancel("c-1"), 1), Route::Socket(_)));
    s.sent(cancel("c-1"), at(0));
    assert!(s.sweep(at(5_000)).is_empty());
    let (unknown, delay, was_live) = s.lost(at(10));
    assert!(was_live && is_unknown(&unknown[0], "c-1", "ws disconnected"));
    assert_eq!(delay, Duration::from_millis(500));
    let (unknown, delay, was_live) = s.lost(at(10));
    assert!(!was_live && unknown.is_empty());
    assert_eq!(delay, Duration::from_secs(1));
}

#[test]
fn a_live_session_resolves_replies() {
    let mut s = TradeSession::new();
    s.connected();
    s.receive(&json(r#"{"request_id":"login-1","header":{"status":"200"}}"#));
    s.sent(cancel("c-1"), at(0));
    let v = json(r#"{"request_id":"c-1","header":{"status":"200"},"data":{"result":{"id":"E1","size":-1,"left":0,"status":"finished"}}}"#);
    match s.receive(&v) {
        Incoming::Reply(id, ApiReply::Order(o)) => {
            let r = s.resolve(&id, ExecResult::Placed(normal(&GateOrder { price: "1".into(), ..o })), at(5)).unwrap();
            assert!(matches!(r.result, ExecResult::Cancelled(i) if i.exchange_id == "E1"));
        }
        other => panic!("{other:?}"),
    }
}
