//! What the exchanges say and what is asked of them.

use stock_mm::decimal::Dec;
use stock_mm::exchange::binance::{parse_message, pick, stream_url, symbol_info_url, BinanceMessage, PickError};
use stock_mm::exchange::gate_private::{parse_private, subscribe_private, PrivateMessage};
use stock_mm::exchange::gate_public::{parse_public, ping_request, subscribe_public, PublicMessage};
use stock_mm::exchange::gate_rest::{
    cancelled_count, failed, read_orders, read_positions, snapshot, succeeded, GateError, GateRest, Method, Reply,
    RestFailure,
};
use stock_mm::exchange::gate_trade::{can_write, give_up};
use stock_mm::exchange::gate_types::{
    read_account, read_book, read_contract, read_fee, read_levels, read_order, read_position, read_user_trade,
    GateContract, GateOrder, GateUserTrade, IntField, MetaError,
};
use stock_mm::exchange::json::{read_json, write_json, Json};
use stock_mm::order::model::{ExecCommand, ExecResult, OrderInfo, Tif, UserTrade};
use stock_mm::time::Instant;
use stock_mm::types::{Side, TickGrid, Ticks};
use stock_mm::util::{hmac_sha512_hex, sha512_hex};

fn grid() -> TickGrid {
    TickGrid::new(Dec::parse("0.01").unwrap())
}

fn json(s: &str) -> Json {
    read_json(s).unwrap()
}

fn float(s: &str) -> f64 {
    s.parse().unwrap_or(0.0)
}

fn round(px: f64) -> Ticks {
    (px / 0.01).round() as Ticks
}

fn whole(i: &IntField) -> i64 {
    match i {
        IntField::Known(n) => *n,
        IntField::Decimal(s) => s.parse::<f64>().map(|f| f as i64).unwrap_or(0),
    }
}

fn order_info(o: &GateOrder<IntField, String>) -> OrderInfo {
    let n = GateOrder {
        id: o.id.clone(),
        text: o.text.clone(),
        contract: o.contract.clone(),
        size: whole(&o.size),
        left: whole(&o.left),
        price: float(&o.price),
        fill_price: float(&o.fill_price),
        status: o.status.clone(),
        finish_as: o.finish_as.clone(),
        is_reduce_only: o.is_reduce_only,
        tif: o.tif.clone(),
        update_time: whole(&o.update_time),
        update_time_ms: whole(&o.update_time_ms),
        create_time_ms: whole(&o.create_time_ms),
    };
    assert!(n.is_convertible());
    n.to_info(round(n.price))
}

fn user_trade(t: &GateUserTrade<IntField, String>) -> UserTrade<f64> {
    let n = GateUserTrade {
        id: t.id.clone(),
        order_id: t.order_id.clone(),
        text: t.text.clone(),
        contract: t.contract.clone(),
        size: whole(&t.size),
        price: float(&t.price),
        role: t.role.clone(),
        fee: float(&t.fee),
        create_time_ms: whole(&t.create_time_ms),
    };
    n.to_user_trade(round(n.price), Instant::from_nanos(0))
}

#[test]
fn parses_usertrade_and_position() {
    let v = json(r#"{"channel":"futures.usertrades","event":"update","result":[{"id":"3335259","create_time":1,"create_time_ms":1000,"contract":"SNDK_USDT","order_id":"15724","size":-10,"price":"1500.5","role":"maker","text":"t-mm1","fee":"-0.001","point_fee":"0"}]}"#);
    match parse_private(&v) {
        PrivateMessage::Trades(list) => {
            let t = user_trade(list.last().unwrap());
            assert_eq!(t.trade_id, "3335259");
            assert_eq!(t.signed_size, -10);
            assert!(t.is_maker);
            assert_eq!(t.price, 150050);
        }
        other => panic!("{other:?}"),
    }
    let v = json(r#"{"channel":"futures.positions","event":"update","result":[{"contract":"SNDK_USDT","mode":"dual_long","size":12,"entry_price":"1500.1","time_ms":1000},{"contract":"SNDK_USDT","mode":"dual_short","size":-3,"entry_price":"1502","time_ms":1000}]}"#);
    match parse_private(&v) {
        PrivateMessage::Positions(p) => {
            assert_eq!(p.len(), 2);
            assert_eq!(p[0].mode, "dual_long");
            assert_eq!(whole(&p[1].size), -3);
        }
        other => panic!("{other:?}"),
    }
}

#[test]
fn parses_book_ticker() {
    let v = json(r#"{"time":1,"channel":"futures.book_ticker","event":"update","result":{"t":1000,"u":5,"s":"SNDK_USDT","b":"1545.1","B":12,"a":"1545.3","A":5}}"#);
    let m = parse_public(&v, &grid());
    assert!(matches!(m, PublicMessage::Bbo { bid: 154510, ask: 154530, bid_size: 12, ask_size: 5, .. }));
}

#[test]
fn parses_trades_and_deltas() {
    let v = json(r#"{"channel":"futures.trades","event":"update","result":[{"size":-108,"id":27753479,"create_time":1,"create_time_ms":1000,"price":"1545.2","contract":"SNDK_USDT"}]}"#);
    match parse_public(&v, &grid()) {
        PublicMessage::Trades(list) => {
            assert_eq!(list.len(), 1);
            assert_eq!(round(float(&list[0].price)), 154520);
            assert_eq!((list[0].signed_size, list[0].trade_id), (-108, 27753479));
        }
        other => panic!("{other:?}"),
    }
    let v = json(r#"{"channel":"futures.order_book_update","event":"update","result":{"t":1,"s":"SNDK_USDT","U":10,"u":12,"b":[{"p":"1545.1","s":3}],"a":[{"p":"1545.3","s":0}]}}"#);
    match parse_public(&v, &grid()) {
        PublicMessage::Delta { first_id, last_id, bids, asks, full } => {
            assert_eq!((first_id, last_id, full), (10, 12, false));
            assert_eq!(round(float(&bids[0].p)), 154510);
            assert_eq!(whole(&asks[0].s), 0);
        }
        other => panic!("{other:?}"),
    }
}

#[test]
fn other_public_frames_say_nothing() {
    let nothing = |s: &str| matches!(parse_public(&json(s), &grid()), PublicMessage::Nothing);
    assert!(nothing(r#"{"channel":"futures.trades","event":"subscribe","result":{"status":"success"}}"#));
    assert!(nothing(r#"{"channel":"futures.book_ticker","event":"update","result":{"b":"","a":"1.0"}}"#));
    assert!(nothing(r#"{"channel":"futures.pong","event":"update","result":{}}"#));
    let v = json(r#"{"channel":"futures.tickers","event":"update","result":[{"mark_price":"1545.2"},{"index_price":"1"}]}"#);
    match parse_public(&v, &grid()) {
        PublicMessage::Tickers(list) => {
            assert_eq!(list.len(), 1);
            assert_eq!(list[0].mark, "1545.2");
            assert!(list[0].index.is_none());
        }
        other => panic!("{other:?}"),
    }
}

#[test]
fn parses_order_with_mixed_number_types() {
    let j = r#"{"id":15724,"text":"t-mm1","contract":"SNDK_USDT","size":-10,"left":-4,"price":"1500.25","fill_price":"1500.25","status":"open","finish_as":"","is_reduce_only":true,"tif":"poc","update_time":1,"update_time_ms":1000}"#;
    let i = order_info(&read_order(&json(j)).unwrap());
    assert_eq!(i.exchange_id, "15724");
    assert_eq!(i.side, Side::Sell);
    assert_eq!(i.size, 10);
    assert_eq!(i.left, 4);
    assert_eq!(i.filled(), 6);
    assert_eq!(i.price, 150025);
    assert!(i.reduce_only);
    assert_eq!(i.tif, Some(Tif::Poc));
}

fn contract(c: GateContract<IntField, String>) -> GateContract<i64, f64> {
    GateContract {
        name: c.name,
        order_price_round: c.order_price_round,
        quanto_multiplier: c.quanto_multiplier,
        order_size_min: whole(&c.order_size_min),
        order_size_max: whole(&c.order_size_max),
        orders_limit: whole(&c.orders_limit),
        order_price_deviate: float(&c.order_price_deviate),
        funding_interval: whole(&c.funding_interval),
        funding_next_apply: whole(&c.funding_next_apply),
        maker_fee_rate: float(&c.maker_fee_rate),
        taker_fee_rate: float(&c.taker_fee_rate),
        in_delisting: c.in_delisting,
        status: c.status,
        contract_type: c.contract_type,
    }
}

const CONTRACT: &str = r#"{"name":"SNDK_USDT","order_price_round":"0.01","quanto_multiplier":"0.01","order_size_min":1,"order_size_max":1000000,"orders_limit":100,"order_price_deviate":"0.05","funding_interval":28800,"funding_next_apply":1789660800,"maker_fee_rate":"-0.0001","taker_fee_rate":"0.00075","in_delisting":false,"status":"trading","contract_type":"stocks"}"#;

#[test]
fn parses_contract() {
    let c = contract(read_contract(&json(CONTRACT)).unwrap());
    assert_eq!(c.maker_fee_rate, -0.0001);
    assert_eq!(c.order_size_min, 1);
}

#[test]
fn contract_metadata_is_checked() {
    let base = contract(read_contract(&json(CONTRACT)).unwrap());
    let m = base.to_meta().unwrap();
    assert_eq!((m.tick, m.order_size_max, m.in_delisting), (Dec { mantissa: 1, scale: 2 }, 1_000_000, false));
    let mut c = base.clone();
    c.order_price_round = "x".into();
    assert_eq!(c.to_meta().err(), Some(MetaError::PriceRound));
    let mut c = base.clone();
    c.quanto_multiplier = "".into();
    assert_eq!(c.to_meta().err(), Some(MetaError::Multiplier));
    let mut c = base.clone();
    c.quanto_multiplier = "0".into();
    assert_eq!(c.to_meta().err(), Some(MetaError::NotPositive));
    let mut c = base.clone();
    c.order_size_min = 0;
    c.order_size_max = 0;
    c.status = "delisting".into();
    let m = c.to_meta().unwrap();
    assert_eq!((m.order_size_min, m.order_size_max, m.in_delisting), (1, i64::MAX / 4, true));
}

#[test]
fn parses_book_ticker_and_agg_trade() {
    let t = r#"{"stream":"sndkusdt@bookTicker","data":{"e":"bookTicker","u":1,"s":"SNDKUSDT","b":"1545.10","B":"3.2","a":"1545.30","A":"1.1","T":1,"E":2}}"#;
    match parse_message(t) {
        Some(BinanceMessage::Quote { bid, ask, exch_ms, .. }) => {
            assert_eq!(float(&bid), 1545.10);
            assert_eq!(float(&ask), 1545.30);
            assert_eq!(exch_ms, Some(2));
        }
        other => panic!("{other:?}"),
    }
    let t = r#"{"stream":"sndkusdt@aggTrade","data":{"e":"aggTrade","a":5,"s":"SNDKUSDT","p":"1545.2","q":"0.5","m":true,"T":3}}"#;
    assert!(matches!(parse_message(t), Some(BinanceMessage::Trade { buyer_is_maker: true, .. })));
}

#[test]
fn other_binance_frames_say_nothing() {
    assert!(parse_message("not json").is_none());
    assert!(parse_message(r#"{"stream":"x@depth","data":{}}"#).is_none());
    assert!(parse_message(r#"{"stream":"x@aggTrade","data":{"p":"1"}}"#).is_none());
    assert!(parse_message(r#"{"stream":"x@bookTicker"}"#).is_none());
}

#[test]
fn binance_symbols_are_picked_by_name() {
    let info = json(r#"{"symbols":[{"symbol":"AAAUSDT"},{"symbol":"SNDKUSDT","contractType":"PERPETUAL","status":"TRADING","filters":[{"filterType":"PRICE_FILTER","tickSize":"0.01"},{"filterType":"LOT_SIZE","stepSize":"0.1","minQty":"0.2"},{"filterType":"MIN_NOTIONAL","notional":"5"},{"filterType":"OTHER"}]}]}"#);
    let m = pick(&info, "sndkusdt").unwrap();
    assert_eq!((m.symbol.as_str(), m.status.as_str(), m.contract_type.as_str()), ("SNDKUSDT", "TRADING", "PERPETUAL"));
    assert_eq!((m.tick_size.as_str(), m.step_size.as_str()), ("0.01", "0.1"));
    assert_eq!((m.min_qty.as_str(), m.min_notional.as_str()), ("0.2", "5"));
    assert_eq!(pick(&info, "BBB").err(), Some(PickError::NotFound));
    assert_eq!(pick(&json("[]"), "BBB").err(), Some(PickError::Malformed));
    assert_eq!(pick(&json(r#"{"symbols":[{"status":"x"}]}"#), "BBB").err(), Some(PickError::Malformed));
}

#[test]
fn binance_addresses() {
    assert_eq!(stream_url("wss://s", "SNDKUSDT"), "wss://s?streams=sndkusdt@bookTicker/sndkusdt@aggTrade");
    assert_eq!(symbol_info_url("https://b", "X"), "https://b/fapi/v1/exchangeInfo?symbol=X");
}

#[test]
fn subscriptions_name_channel_and_contract() {
    let subs = subscribe_public("SNDK_USDT", 7);
    let channels: Vec<&str> = subs.iter().map(|s| s.text_at("channel").unwrap()).collect();
    assert_eq!(channels, vec!["futures.book_ticker", "futures.trades", "futures.order_book_update", "futures.tickers"]);
    let payload = subs[2].get("payload").unwrap().as_list().unwrap();
    let parts: Vec<&str> = payload.iter().map(|p| p.as_str().unwrap()).collect();
    assert_eq!(parts, vec!["SNDK_USDT", "100ms", "20"]);
    assert_eq!(write_json(&ping_request(7)), r#"{"channel":"futures.ping","time":7}"#);
}

#[test]
fn private_subscriptions_are_signed() {
    let subs = subscribe_private("key", "secret", 42, "SNDK_USDT", 7);
    let channels: Vec<&str> = subs.iter().map(|s| s.text_at("channel").unwrap()).collect();
    assert_eq!(channels, vec!["futures.orders", "futures.usertrades", "futures.positions", "futures.balances"]);
    let auth = subs[0].get("auth").unwrap();
    let sign = hmac_sha512_hex("secret", "channel=futures.orders&event=subscribe&time=7");
    assert_eq!((auth.text_at("KEY"), auth.text_at("SIGN")), (Some("key"), Some(sign.as_str())));
    assert_eq!(subs[3].get("payload").unwrap().as_list().unwrap().len(), 1);
}

#[test]
fn private_orders_and_balances_are_read() {
    let v = json(r#"{"channel":"futures.orders","event":"update","result":[{"id":1,"size":3,"left":3,"price":1.5,"status":"open"},{"text":"no id"}]}"#);
    match parse_private(&v) {
        PrivateMessage::Orders(list) => {
            assert_eq!(list.len(), 1);
            assert_eq!(order_info(&list[0]).price, 150);
        }
        other => panic!("{other:?}"),
    }
    let v = json(r#"{"channel":"futures.balances","event":"update","result":[{"change":-0.5,"type":"fund"},{"change":"x","type":"fee"}]}"#);
    match parse_private(&v) {
        PrivateMessage::Balances(list) => {
            assert_eq!((list[0].change.as_str(), list[0].kind.as_str()), ("-0.5", "fund"));
            assert!(list.len() == 1 || list[1].change.parse::<f64>().is_err());
        }
        other => panic!("{other:?}"),
    }
}

// ----------------------------------------------------------------- REST

fn rest() -> GateRest {
    GateRest::new("https://api.gateio.ws//", "usdt", "key", "secret")
}

#[test]
fn rest_requests_are_signed() {
    let r = rest();
    assert!(r.has_credentials());
    let w = r.request(&r.open_orders("SNDK_USDT"), 1700000000).unwrap();
    assert_eq!(w.method, Method::Get);
    assert_eq!(w.url, "https://api.gateio.ws/api/v4/futures/usdt/orders?contract=SNDK_USDT&status=open&limit=100");
    assert!(w.body.is_none());
    let auth = w.auth.unwrap();
    let digest = sha512_hex("");
    let payload = format!("GET\n/api/v4/futures/usdt/orders\ncontract=SNDK_USDT&status=open&limit=100\n{digest}\n1700000000");
    assert_eq!(auth.sign, hmac_sha512_hex("secret", &payload));
    assert_eq!((auth.key.as_str(), auth.timestamp.as_str()), ("key", "1700000000"));
}

#[test]
fn rest_addresses() {
    let r = rest();
    let url = |c: &stock_mm::exchange::gate_rest::RestCall| r.request(c, 1).unwrap().url;
    let base = "https://api.gateio.ws/api/v4/futures/usdt";
    assert_eq!(url(&r.contract("C")), format!("{base}/contracts/C"));
    assert_eq!(url(&r.fee("C")), format!("{base}/fee?contract=C"));
    assert_eq!(url(&r.account()), format!("{base}/accounts"));
    assert_eq!(url(&r.positions("C", true)), format!("{base}/dual_comp/positions/C"));
    assert_eq!(url(&r.positions("C", false)), format!("{base}/positions/C"));
    assert_eq!(url(&r.order_book("C", 20)), format!("{base}/order_book?contract=C&limit=20&with_id=true"));
    assert_eq!(url(&r.get_order("t-1")), format!("{base}/orders/t-1"));
    assert_eq!(url(&r.cancel_all("C")), format!("{base}/orders?contract=C"));
    assert!(r.request(&r.contract("C"), 1).unwrap().auth.is_none());
}

#[test]
fn rest_without_credentials_is_refused() {
    let r = GateRest::new("b", "usdt", "", "secret");
    assert!(!r.has_credentials());
    assert!(r.request(&r.account(), 1).is_err());
    assert!(r.request(&r.contract("C"), 1).is_ok());
}

#[test]
fn rest_bodies_describe_orders() {
    let r = rest();
    let call = r.place("C", Side::Sell, 5, None, Tif::Ioc, true, "t-1");
    let w = r.request(&call, 1).unwrap();
    let body = json(w.body.as_ref().unwrap());
    assert_eq!(w.method, Method::Post);
    assert_eq!((body.text_at("price"), body.text_at("tif")), (Some("0"), Some("ioc")));
    assert_eq!(body.get("size").unwrap().as_i64(), Some(-5));
    assert!(body.flag("reduce_only"));
    let w = r.request(&r.amend("9", Some("1.5"), None), 1).unwrap();
    assert_eq!((w.method, w.body.as_deref()), (Method::Put, Some(r#"{"price":"1.5"}"#)));
}

#[test]
fn commands_become_rest_calls() {
    let (r, g) = (rest(), grid());
    let amend = ExecCommand::Amend {
        req_id: "a".into(),
        exchange_id: "E1".into(),
        client_id: "t".into(),
        price: Some(150),
        size: Some(4),
    };
    assert!(can_write(&amend, &g));
    let w = r.request(&r.execute("C", &amend, Some(Side::Sell), &g), 1).unwrap();
    assert!(w.url.ends_with("/orders/E1"));
    assert_eq!(w.body.as_deref(), Some(r#"{"price":"1.50","size":-4}"#));
    let query = ExecCommand::Query { req_id: "q".into(), exchange_id: None, client_id: "t-7".into() };
    let w = r.request(&r.execute("C", &query, None, &g), 1).unwrap();
    assert!(w.method == Method::Get && w.url.ends_with("/orders/t-7"));
    let all = ExecCommand::CancelAll { req_id: "x".into() };
    let w = r.request(&r.execute("C", &all, None, &g), 1).unwrap();
    assert!(w.method == Method::Delete && w.url.ends_with("/orders?contract=C"));
}

#[test]
fn rest_errors_keep_their_label() {
    let e = GateError::read(400, r#"{"label":"ORDER_NOT_FOUND","message":"gone"}"#);
    assert_eq!(e.to_string(), "gate 400: ORDER_NOT_FOUND: gone");
    let e = GateError::read(502, "bad gateway");
    assert_eq!((e.label.as_str(), e.message.as_str()), ("HTTP_ERROR", "bad gateway"));
    assert!(matches!(failed(RestFailure::Gate(e)), ExecResult::Error { label, .. } if label == "HTTP_ERROR"));
    let other = |m: &str| match failed(RestFailure::Other(m.into())) {
        ExecResult::Error { label, .. } => label,
        other => panic!("{other:?}"),
    };
    assert_eq!(other("operation timed out"), "TIMEOUT");
    assert_eq!(other("read timeout"), "TIMEOUT");
    assert_eq!(other("refused"), "UNKNOWN");
}

#[test]
fn replies_take_the_name_of_their_command() {
    let o = order_info(&read_order(&json(r#"{"id":"1","size":1,"left":1,"status":"open"}"#)).unwrap());
    let query = ExecCommand::Query { req_id: "q".into(), exchange_id: None, client_id: "t".into() };
    assert!(matches!(succeeded(&query, Reply::Order(o)), Some(ExecResult::Queried(_))));
    assert!(succeeded(&query, Reply::Count(3)).is_none());
    let all = ExecCommand::CancelAll { req_id: "x".into() };
    assert!(matches!(succeeded(&all, Reply::Count(3)), Some(ExecResult::CancelledAll(3))));
}

#[test]
fn rest_answers_are_read() {
    assert_eq!(cancelled_count(&json("[1,2]")), 2);
    assert_eq!(cancelled_count(&json("{}")), 0);
    assert_eq!(read_orders(&json(r#"[{"id":1},{"id":"2"}]"#)).unwrap().len(), 2);
    assert!(read_orders(&json(r#"[{"id":1},{"text":"x"}]"#)).is_none());
    assert!(read_orders(&json("{}")).is_none());
    assert_eq!(read_positions(&json(r#"{"mode":"single","size":3}"#)).unwrap().len(), 1);
    assert_eq!(read_positions(&json("[]")).unwrap().len(), 0);
    assert!(read_positions(&json(r#"[{"mode":1}]"#)).is_none());
    assert_eq!(snapshot(-5, vec![], vec![]).id, 0);
    let a = read_account(&json(r#"{"user":7,"total":"1.5","available":2,"in_dual_mode":true}"#)).unwrap();
    assert_eq!((whole(&a.user), float(&a.total), float(&a.available), a.in_dual_mode), (7, 1.5, 2.0, true));
    let f = read_fee(&json(r#"{"C":{"maker_fee":"-0.0001","taker_fee":"0.0007"}}"#), "C").unwrap();
    assert_eq!((float(&f.maker_fee), float(&f.taker_fee)), (-0.0001, 0.0007));
}

#[test]
fn gate_records_may_list_their_fields_in_order() {
    let levels = read_levels(&json(r#"[["100.1", 5], {"p":"100.2","s":"6"}]"#)).unwrap();
    assert_eq!((float(&levels[0].p), whole(&levels[0].s)), (100.1, 5));
    assert_eq!((float(&levels[1].p), whole(&levels[1].s)), (100.2, 6));
    let o = read_order(&json(r#"[15724,"t-mm1","SNDK_USDT",-10,-4,"1500.25",0,"open","",true,"poc"]"#)).unwrap();
    let i = order_info(&o);
    assert_eq!((i.exchange_id.as_str(), i.client_id.as_str()), ("15724", "t-mm1"));
    assert_eq!((i.side, i.size, i.left, i.price), (Side::Sell, 10, 4, 150025));
    assert!(i.reduce_only && i.tif == Some(Tif::Poc));
    let t = read_user_trade(&json(r#"["9","15724","t-mm1","SNDK_USDT",-3,"1500.5","maker","-0.001",1000]"#)).unwrap();
    let t = user_trade(&t);
    assert_eq!((t.trade_id.as_str(), t.exchange_order_id.as_str(), t.signed_size), ("9", "15724", -3));
    assert!(t.is_maker && t.price == 150050);
    let p = read_position(&json(r#"["SNDK_USDT","dual_short",-3,"1502"]"#)).unwrap();
    assert_eq!((p.mode.as_str(), whole(&p.size), float(&p.entry_price), whole(&p.time_ms)), ("dual_short", -3, 1502.0, 0));
    let a = read_account(&json(r#"[7,"1.5",2,0,0,0,true]"#)).unwrap();
    assert_eq!((whole(&a.user), float(&a.total), float(&a.available), a.in_dual_mode), (7, 1.5, 2.0, true));
    let c = read_contract(&json(r#"["SNDK_USDT","0.01","0.001",1,1000]"#)).unwrap();
    assert_eq!((c.name.as_str(), c.order_price_round.as_str(), whole(&c.order_size_max)), ("SNDK_USDT", "0.01", 1000));
    assert!(!c.in_delisting && c.status.is_empty());
    let f = read_fee(&json(r#"{"C":["0.0007","-0.0001"]}"#), "C").unwrap();
    assert_eq!((float(&f.taker_fee), float(&f.maker_fee)), (0.0007, -0.0001));
    let b = read_book(&json(r#"[12,[["100.2",1]],[["100.1",2]]]"#)).unwrap();
    assert_eq!((whole(&b.id), whole(&b.asks[0].s), whole(&b.bids[0].s)), (12, 1, 2));
}

#[test]
fn gate_lists_of_fields_are_neither_too_long_nor_without_what_is_required() {
    assert!(read_levels(&json(r#"[["100.1", 5, 6]]"#)).is_none());
    assert!(read_levels(&json(r#"[["100.1"]]"#)).is_none());
    assert!(read_order(&json("[]")).is_none());
    assert!(read_order(&json(r#"["1","",7]"#)).is_none());
    assert!(read_contract(&json("[]")).is_none());
    assert!(read_position(&json("[]")).is_some());
    assert!(read_position(&json(r#"["C","single",1,"2",0,0,0]"#)).is_none());
    assert!(read_fee(&json("[1,2,3]"), "C").is_none());
    assert!(read_book(&json("[1,[],[],0]")).is_none());
    assert!(read_order(&json("3")).is_none());
}

#[test]
fn binance_records_may_list_their_fields_in_order() {
    let info = json(r#"[[["SNDKUSDT","PERPETUAL","TRADING",[{"filterType":"PRICE_FILTER","tickSize":"0.01"}]]]]"#);
    let m = pick(&info, "SNDKUSDT").unwrap();
    assert_eq!((m.status.as_str(), m.contract_type.as_str(), m.tick_size.as_str()), ("TRADING", "PERPETUAL", "0.01"));
    assert_eq!(pick(&json(r#"[[["A","","",[],1]]]"#), "A").err(), Some(PickError::Malformed));
    assert_eq!(pick(&json(r#"[[],[]]"#), "A").err(), Some(PickError::Malformed));
    let t = r#"["sndkusdt@aggTrade",{"p":"1545.2","q":"0.5","m":true,"T":3}]"#;
    assert!(matches!(parse_message(t), Some(BinanceMessage::Trade { buyer_is_maker: true, .. })));
    assert!(parse_message(r#"["sndkusdt@aggTrade"]"#).is_none());
    assert!(parse_message(r#"["sndkusdt@aggTrade",{"p":"1","q":"1","m":true,"T":3},0]"#).is_none());
}

#[test]
fn a_request_of_unknown_fate_is_resolved_as_such() {
    let r = give_up("r-1", "out of range", Instant::from_nanos(5));
    assert_eq!((r.req_id.as_str(), r.at), ("r-1", Instant::from_nanos(5)));
    assert!(matches!(r.result, ExecResult::Error { label, message } if label == "UNKNOWN" && message == "out of range"));
}

#[test]
fn json_reads_back() {
    let text = r#"{"a":[1,-2,"x\n\"y\""],"b":{"c":null,"d":true},"e":9007199254740993}"#;
    let j = json(text);
    assert_eq!(write_json(&j), text);
    assert_eq!(j.get("e").unwrap().as_i64(), Some(9007199254740993));
    assert!(read_json("{").is_none());
}
