//! What holds of the trading interfaces: what a command says on the wire, what an
//! answer means, and where commands wait.

use vstd::prelude::*;

use crate::exchange::gate_rest;
use crate::exchange::gate_rest::{AccessView, Method, Reply, RestFailure};
use crate::exchange::gate_trade;
use crate::exchange::gate_trade::{OutstandingView, PoolView, ReplyView};
use crate::exchange::gate_types;
use crate::exchange::gate_types::GateOrder;
use crate::exchange::json;
use crate::exchange::json::JsonView;
use crate::exchange::trade_session::{IncomingView, Phase, SessionView};
use crate::order::model::{CommandView, ExchangeStatus, ResultView, Tif};
use crate::text;
use crate::time::Instant;
use crate::types::{Side, TickGrid, Ticks};

verus! {

/// The size that an order has on the wire, with its sign.
pub open spec fn on_the_wire(side: Side, size: i64) -> int {
    if side == Side::Buy {
        size as int
    } else {
        0 - size
    }
}

proof fn lemma_order_keys()
    ensures
        "contract"@ != "size"@ && "contract"@ != "price"@ && "contract"@ != "tif"@,
        "contract"@ != "text"@ && "contract"@ != "reduce_only"@,
        "size"@ != "price"@ && "size"@ != "tif"@ && "size"@ != "text"@,
        "size"@ != "reduce_only"@ && "price"@ != "tif"@ && "price"@ != "text"@,
        "price"@ != "reduce_only"@ && "tif"@ != "text"@ && "tif"@ != "reduce_only"@,
        "text"@ != "reduce_only"@,
        "order_id"@ != "price"@ && "order_id"@ != "size"@,
{
    reveal_strlit("contract");
    reveal_strlit("size");
    reveal_strlit("price");
    reveal_strlit("tif");
    reveal_strlit("text");
    reveal_strlit("reduce_only");
    reveal_strlit("order_id");
    assert("contract"@.len() == 8 && "size"@.len() == 4 && "price"@.len() == 5);
    assert("tif"@.len() == 3 && "text"@.len() == 4 && "reduce_only"@.len() == 11);
    assert("order_id"@.len() == 8);
    assert("size"@[0] != "text"@[0]);
}

/// A new order on the wire names its contract and itself, has the sign of its side
/// before its size, its price (zero for a market order) and its time in force, and
/// says that it only reduces exactly where it does.
pub proof fn orders_say_what_they_are(
    contract: Seq<char>,
    client_id: Seq<char>,
    side: Side,
    size: i64,
    price: Option<Ticks>,
    tif: Tif,
    reduce_only: bool,
    grid: TickGrid,
)
    requires
        size > i64::MIN,
    ensures
        ({
            let p = gate_trade::order_param(
                contract,
                client_id,
                side,
                size,
                gate_trade::wire_price(price, grid),
                tif,
                reduce_only,
            );
            &&& p.contains_key("contract"@) && p["contract"@] == JsonView::Text(contract)
            &&& p.contains_key("text"@) && p["text"@] == JsonView::Text(client_id)
            &&& p.contains_key("size"@) && p["size"@].integer() == Some(
                on_the_wire(side, size) as i64,
            )
            &&& p.contains_key("price"@) && (price is None ==> p["price"@] == JsonView::Text("0"@))
                && (price matches Some(t) ==> p["price"@] == JsonView::Text(grid.wire(t)))
            &&& p.contains_key("tif"@) && p["tif"@] == JsonView::Text(
                if tif == Tif::Poc {
                    "poc"@
                } else if tif == Tif::Ioc {
                    "ioc"@
                } else {
                    "gtc"@
                },
            )
            &&& p.contains_key("reduce_only"@) <==> reduce_only
            &&& reduce_only ==> p["reduce_only"@] == JsonView::Bool(true)
        }),
{
    lemma_order_keys();
}

/// An amend names the price where it changes and the size, with the sign of the
/// order's side, where that changes; both ways of sending it agree.
pub proof fn amends_say_what_changes(
    base: Map<Seq<char>, JsonView>,
    price: Option<Ticks>,
    size: Option<i64>,
    side: Side,
    grid: TickGrid,
    k: Seq<char>,
)
    requires
        size matches Some(s) ==> s > i64::MIN,
    ensures
        ({
            let p = gate_trade::changes(base, price, size, side, grid);
            &&& price matches Some(t) ==> p.contains_key("price"@) && p["price"@] == JsonView::Text(
                grid.wire(t),
            )
            &&& size matches Some(s) ==> p.contains_key("size"@) && p["size"@].integer() == Some(
                on_the_wire(side, s) as i64,
            )
            &&& (price is None || k != "price"@) && (size is None || k != "size"@)
                ==> p.contains_key(k) == base.contains_key(k) && (base.contains_key(k) ==> p[k]
                == base[k])
        }),
        ({
            let wire = match price {
                Some(t) => Some(grid.wire(t)),
                None => None,
            };
            let signed = match size {
                Some(s) => Some(on_the_wire(side, s) as i64),
                None => None,
            };
            let m = gate_rest::amendment(wire, signed);
            &&& m.contains_key("price"@) <==> price is Some
            &&& m.contains_key("size"@) <==> size is Some
            &&& m == gate_trade::changes(Map::empty(), price, size, side, grid)
        }),
{
    lemma_order_keys();
    let wire = match price {
        Some(t) => Some(grid.wire(t)),
        None => None,
    };
    let signed = match size {
        Some(s) => Some(on_the_wire(side, s) as i64),
        None => None,
    };
    assert(gate_rest::amendment(wire, signed) =~= gate_trade::changes(
        Map::empty(),
        price,
        size,
        side,
        grid,
    ));
}

/// The side and the size that an order was written with are read back from its
/// record, whatever else the record says.
pub proof fn sizes_read_back_with_their_side<R>(
    o: GateOrder<i64, R>,
    side: Side,
    size: i64,
    left: i64,
    price: Ticks,
)
    requires
        0 < size,
        0 <= left,
        o.size == on_the_wire(side, size),
        o.left == on_the_wire(side, left),
    ensures
        ({
            let i = o.info(price);
            &&& i.side == side
            &&& i.size == size
            &&& i.left == left
            &&& i.price == price
            &&& i.exchange_id == o.id@
            &&& i.client_id == o.text@
            &&& i.reduce_only == o.is_reduce_only
            &&& i.finish_as == o.finish_as@
            &&& i.status == ExchangeStatus::Finished <==> o.status@ == "finished"@
            &&& o.status@ != "finished"@ ==> i.status == ExchangeStatus::Open
            &&& o.update_time_ms > 0 ==> i.update_ms == o.update_time_ms
            &&& o.update_time_ms <= 0 && o.convertible() ==> i.update_ms == o.update_time * 1000
        }),
        gate_types::tif_of(gate_trade::tif_name(Tif::Poc)) == Some(Tif::Poc),
        gate_types::tif_of(gate_trade::tif_name(Tif::Ioc)) == Some(Tif::Ioc),
        gate_types::tif_of(gate_trade::tif_name(Tif::Gtc)) == Some(Tif::Gtc),
        o.info(price).tif == gate_types::tif_of(o.tif@),
{
    reveal_strlit("poc");
    reveal_strlit("ioc");
    reveal_strlit("gtc");
    assert("poc"@[0] != "ioc"@[0] && "poc"@[0] != "gtc"@[0] && "ioc"@[0] != "gtc"@[0]);
}

/// Placing, amending and cancelling go over the socket, each on its channel; an
/// amend names the order by its exchange id, a cancel by that where it is known and
/// by the client id otherwise. Queries and cancel-alls do not go over it.
pub proof fn commands_go_to_their_channel(
    contract: Seq<char>,
    grid: TickGrid,
    c: CommandView,
    side: Side,
)
    ensures
        ({
            let p = gate_trade::api_param(contract, grid, c, side);
            &&& c matches CommandView::Place {
                client_id,
                side: s,
                size,
                price,
                tif,
                reduce_only,
                ..
            } ==> p == Some(
                (
                    "futures.order_place"@,
                    JsonView::Object(
                        gate_trade::order_param(
                            contract,
                            client_id,
                            s,
                            size,
                            gate_trade::wire_price(price, grid),
                            tif,
                            reduce_only,
                        ),
                    ),
                ),
            )
            &&& c matches CommandView::Amend { exchange_id, price, size, .. } ==> {
                let base = Map::<Seq<char>, JsonView>::empty().insert(
                    "order_id"@,
                    JsonView::Text(exchange_id),
                );
                p == Some(
                    (
                        "futures.order_amend"@,
                        JsonView::Object(gate_trade::changes(base, price, size, side, grid)),
                    ),
                )
            }
            &&& c matches CommandView::Cancel { exchange_id, client_id, .. } ==> (p matches Some(
                (channel, JsonView::Object(m)),
            ) && channel == "futures.order_cancel"@ && m.contains_key("order_id"@) && m.dom().len()
                == 1 && (exchange_id matches Some(e) ==> m["order_id"@] == JsonView::Text(e)) && (
            exchange_id is None ==> m["order_id"@] == JsonView::Text(client_id)))
            &&& c is Query || c is CancelAll ==> p is None
        }),
{
    if let CommandView::Cancel { exchange_id, client_id, .. } = c {
        let m = (gate_trade::api_param(contract, grid, c, side)->0).1->Object_0;
        assert(m.dom() =~= Set::<Seq<char>>::empty().insert("order_id"@));
    }
}

proof fn lemma_frame_keys()
    ensures
        "time"@ != "channel"@ && "time"@ != "event"@ && "time"@ != "payload"@,
        "channel"@ != "event"@ && "channel"@ != "payload"@ && "event"@ != "payload"@,
        "req_id"@ != "req_param"@,
        "api_key"@ != "headers"@ && "api_key"@ != "signature"@ && "api_key"@ != "timestamp"@,
        "api_key"@ != "req_id"@ && "headers"@ != "signature"@ && "headers"@ != "timestamp"@,
        "headers"@ != "req_id"@ && "signature"@ != "timestamp"@ && "signature"@ != "req_id"@,
        "timestamp"@ != "req_id"@,
{
    reveal_strlit("time");
    reveal_strlit("channel");
    reveal_strlit("event");
    reveal_strlit("payload");
    reveal_strlit("req_id");
    reveal_strlit("req_param");
    reveal_strlit("api_key");
    reveal_strlit("headers");
    reveal_strlit("signature");
    reveal_strlit("timestamp");
    assert("time"@.len() == 4 && "channel"@.len() == 7 && "event"@.len() == 5);
    assert("payload"@.len() == 7 && "req_id"@.len() == 6 && "req_param"@.len() == 9);
    assert("api_key"@.len() == 7 && "headers"@.len() == 7);
    assert("signature"@.len() == 9 && "timestamp"@.len() == 9);
    assert("channel"@[0] != "payload"@[0]);
    assert("api_key"@[0] != "headers"@[0]);
    assert("signature"@[0] != "timestamp"@[0]);
}

/// A request carries its time, its channel, its id and its parameters; a login its
/// key, its signature and the time that was signed.
pub proof fn frames_carry_their_request(
    time: i64,
    channel: Seq<char>,
    req_id: Seq<char>,
    param: JsonView,
    key: Seq<char>,
    sign: Seq<char>,
)
    ensures
        ({
            let f = gate_trade::api_frame(time, channel, req_id, param);
            &&& f.int_or("time"@, 0) == time
            &&& f.text_at("channel"@) == Some(channel)
            &&& f.text_at("event"@) == Some("api"@)
            &&& f.get("payload"@) matches Some(p) && p.text_at("req_id"@) == Some(req_id) && p.get(
                "req_param"@,
            ) == Some(param)
        }),
        ({
            let f = gate_trade::login(key, sign, time);
            &&& f.int_or("time"@, 0) == time
            &&& f.text_at("channel"@) == Some("futures.login"@)
            &&& f.text_at("event"@) == Some("api"@)
            &&& f.get("payload"@) matches Some(p) && p.text_at("api_key"@) == Some(key)
                && p.text_at("signature"@) == Some(sign) && p.text_at("timestamp"@) == Some(
                text::signed_decimal(time as int),
            ) && p.text_at("req_id"@) == Some("login-1"@)
        }),
        gate_trade::login_part(time) == "api\nfutures.login\n\n"@ + text::signed_decimal(
            time as int,
        ),
{
    lemma_frame_keys();
}

/// The status of a frame stands in its header, in digits or as a number, and is zero
/// where it is missing.
pub proof fn the_status_stands_in_the_header(v: JsonView, h: JsonView, s: JsonView)
    ensures
        v.get("header"@) is None ==> gate_trade::status_of(v) == 0,
        v.get("header"@) == Some(h) && h.get("status"@) is None ==> gate_trade::status_of(v) == 0,
        v.get("header"@) == Some(h) && h.get("status"@) == Some(s) ==> {
            &&& s matches JsonView::Text(t) ==> (text::u16_of(t) matches Some(n)
                ==> gate_trade::status_of(v) == n) && (text::u16_of(t) is None
                ==> gate_trade::status_of(v) == 0)
            &&& s.natural() matches Some(n) ==> n <= u16::MAX ==> gate_trade::status_of(v) == n
            &&& s is Null || s is Bool || s is List || s is Object ==> gate_trade::status_of(v) == 0
        },
{
}

/// What refuses a request: its label and message, with defaults where they are
/// missing.
pub proof fn refusals_keep_their_label(j: JsonView)
    ensures
        gate_trade::refusal(j) matches ReplyView::Refused { label, message } && (j.text_at(
            "label"@,
        ) matches Some(s) ==> label == s) && (j.text_at("label"@) is None ==> label == "ERROR"@)
            && (j.text_at("message"@) matches Some(s) ==> message == s) && (j.text_at(
            "message"@,
        ) is None ==> message.len() == 0),
{
}

/// A frame answers the request it names once it is no ack and has data. Errors that
/// are not null refuse it; so does a result under a status other than zero and two
/// hundred; any other result is the order, if it reads as one.
pub proof fn frames_answer_their_request(v: JsonView, id: Seq<char>, data: JsonView)
    requires
        v.text_at("request_id"@) == Some(id),
        v.get("data"@) == Some(data),
    ensures
        ({
            let r = gate_trade::api_reply(v);
            let ack = v.get("ack"@) == Some(JsonView::Bool(true));
            let errs = data.get("errs"@);
            let failing = errs is Some && errs != Some(JsonView::Null);
            let status = gate_trade::status_of(v);
            &&& ack ==> r is None
            &&& !ack && failing ==> r == Some((id, gate_trade::refusal(errs->0)))
            &&& !ack && !failing ==> (data.get("result"@) matches Some(x) ==> {
                &&& status != 0 && status != 200 ==> r == Some((id, gate_trade::refusal(x)))
                &&& status == 0 || status == 200 ==> (gate_types::order_fields(x) matches Some(o)
                    ==> r == Some((id, ReplyView::Order(o)))) && (gate_types::order_fields(x) is None
                    ==> r is None)
            })
            &&& !ack && !failing && data.get("result"@) is None ==> r is None
        }),
{
}

/// A frame without a request or without data answers nothing.
pub proof fn other_frames_answer_nothing(v: JsonView)
    ensures
        v.text_at("request_id"@) is None || v.get("data"@) is None ==> gate_trade::api_reply(
            v,
        ) is None,
        v.text_at("request_id"@) == Some("login-1"@) ==> gate_trade::login_verdict(v) == Some(
            gate_trade::status_of(v) == 200,
        ),
        v.text_at("request_id"@) != Some("login-1"@) ==> gate_trade::login_verdict(v) is None,
{
}

/// An order that comes back is named after its command: placed, amended or
/// cancelled. Everything else stays as it came.
pub proof fn answers_are_named_after_their_command(r: ResultView, c: CommandView)
    ensures
        ({
            let x = gate_trade::relabelled(r, c);
            &&& r matches ResultView::Placed(i) ==> {
                &&& c is Amend ==> x == ResultView::Amended(i)
                &&& c is Cancel ==> x == ResultView::Cancelled(i)
                &&& c is Place || c is Query || c is CancelAll ==> x == r
            }
            &&& !(r is Placed) ==> x == r
        }),
{
}

/// Over REST an order comes back under the name of its command, a cancel-all with a
/// count; another answer is no success.
pub proof fn rest_answers_fit_their_command(c: CommandView, reply: Reply)
    ensures
        ({
            let r = gate_rest::success(c, reply);
            &&& reply matches Reply::Order(i) ==> {
                &&& c is Place ==> r == Some(ResultView::Placed(i@))
                &&& c is Amend ==> r == Some(ResultView::Amended(i@))
                &&& c is Cancel ==> r == Some(ResultView::Cancelled(i@))
                &&& c is Query ==> r == Some(ResultView::Queried(i@))
                &&& c is CancelAll ==> r is None
            }
            &&& reply matches Reply::Count(n) ==> {
                &&& c is CancelAll ==> r == Some(ResultView::CancelledAll(n))
                &&& !(c is CancelAll) ==> r is None
            }
        }),
{
}

/// A labelled refusal keeps its label. Of other failures those that speak of a
/// timeout are timeouts, and all others unknown; the message stays.
pub proof fn failures_tell_timeouts_apart(f: RestFailure)
    ensures
        f matches RestFailure::Gate(g) ==> gate_rest::failure(f) == (ResultView::Error {
            label: g.label@,
            message: g.message@,
        }),
        f matches RestFailure::Other(m) ==> {
            let late = (exists|i: int|
                0 <= i <= m@.len() - 9 && #[trigger] m@.subrange(i, i + 9) == "timed out"@) || (
            exists|i: int|
                0 <= i <= m@.len() - 7 && #[trigger] m@.subrange(i, i + 7) == "timeout"@);
            &&& late ==> gate_rest::failure(f) == (ResultView::Error {
                label: "TIMEOUT"@,
                message: m@,
            })
            &&& !late ==> gate_rest::failure(f) == (ResultView::Error {
                label: "UNKNOWN"@,
                message: m@,
            })
        },
{
    reveal_strlit("timed out");
    reveal_strlit("timeout");
    assert("timed out"@.len() == 9 && "timeout"@.len() == 7);
    if let RestFailure::Other(m) = f {
        text::parts_are_subranges(m@, "timed out"@);
        text::parts_are_subranges(m@, "timeout"@);
    }
}

/// Over REST a new order is posted, an amend put to its order, a cancel deletes it,
/// a query gets it, and a cancel-all deletes all of the contract. All are signed.
pub proof fn rest_calls_carry_commands_out(
    access: AccessView,
    contract: Seq<char>,
    c: CommandView,
    side: Option<Side>,
    grid: TickGrid,
)
    ensures
        ({
            let r = gate_rest::execution(access, contract, c, side, grid);
            let orders = "/api/v4/futures/"@ + access.settle + "/orders"@;
            let one = "/api/v4/futures/"@ + access.settle;
            &&& r.signed
            &&& c matches CommandView::Place {
                client_id,
                side: s,
                size,
                price,
                tif,
                reduce_only,
                ..
            } ==> {
                &&& r.method == Method::Post
                &&& r.path == orders
                &&& r.query.len() == 0
                &&& r.body == Some(
                    JsonView::Object(
                        gate_trade::order_param(
                            contract,
                            client_id,
                            s,
                            size,
                            gate_trade::wire_price(price, grid),
                            tif,
                            reduce_only,
                        ),
                    ),
                )
            }
            &&& c matches CommandView::Amend { exchange_id, price, size, .. } ==> {
                let s = match side {
                    Some(s) => s,
                    None => Side::Buy,
                };
                &&& r.method == Method::Put
                &&& r.path == one + ("/orders/"@ + exchange_id)
                &&& r.query.len() == 0
                &&& (size matches Some(x) ==> x > i64::MIN) ==> r.body == Some(
                    JsonView::Object(gate_trade::changes(Map::empty(), price, size, s, grid)),
                )
            }
            &&& c matches CommandView::Cancel { exchange_id, client_id, .. } ==> {
                &&& r.method == Method::Delete
                &&& exchange_id matches Some(e) ==> r.path == one + ("/orders/"@ + e)
                &&& exchange_id is None ==> r.path == one + ("/orders/"@ + client_id)
                &&& r.query.len() == 0
                &&& r.body is None
            }
            &&& c matches CommandView::Query { exchange_id, client_id, .. } ==> {
                &&& r.method == Method::Get
                &&& exchange_id matches Some(e) ==> r.path == one + ("/orders/"@ + e)
                &&& exchange_id is None ==> r.path == one + ("/orders/"@ + client_id)
                &&& r.query.len() == 0
                &&& r.body is None
            }
            &&& c is CancelAll ==> {
                &&& r.method == Method::Delete
                &&& r.path == orders
                &&& r.query == "contract="@ + contract
                &&& r.body is None
            }
        }),
{
    if let CommandView::Amend { exchange_id, price, size, .. } = c {
        let s = match side {
            Some(s) => s,
            None => Side::Buy,
        };
        if size matches Some(x) ==> x > i64::MIN {
            amends_say_what_changes(Map::empty(), price, size, s, grid, "price"@);
        }
    }
}

/// A query string follows a question mark and is left out where it is empty; what is
/// signed is the method, the path, the query, the digest of the body and the time,
/// line by line.
pub proof fn requests_are_addressed_and_signed(
    access: AccessView,
    c: gate_rest::CallView,
    body: Seq<char>,
    time: i64,
)
    ensures
        c.query.len() == 0 ==> access.url_of(c.path, c.query) == access.base + c.path,
        c.query.len() > 0 ==> access.url_of(c.path, c.query) == access.base + c.path + "?"@
            + c.query,
        access.complete() <==> access.key.len() > 0 && access.secret.len() > 0,
        ({
            let name = match c.method {
                Method::Get => "GET"@,
                Method::Post => "POST"@,
                Method::Put => "PUT"@,
                Method::Delete => "DELETE"@,
            };
            let digest = crate::util::hex_text(
                crate::util::sha512_of(vstd::utf8::encode_utf8(body)),
            );
            gate_rest::signed_text(c, body, time) == name + "\n"@ + c.path + "\n"@ + c.query
                + "\n"@ + digest + "\n"@ + text::signed_decimal(time as int)
        }),
        c.body is None ==> gate_rest::body_text(c.body).len() == 0,
        c.body matches Some(b) ==> gate_rest::body_text(c.body) == json::json_text(b),
{
}

/// An answer without success keeps its status; label and message come from its JSON,
/// or else are the general label and the text itself.
pub proof fn complaints_keep_what_was_said(status: u16, tree: Option<JsonView>, t: Seq<char>)
    ensures
        ({
            let e = gate_rest::complaint(status, tree, t);
            &&& e.status == status
            &&& tree matches Some(j) ==> {
                &&& j.text_at("label"@) matches Some(s) ==> e.label == s
                &&& j.text_at("label"@) is None ==> e.label == "HTTP_ERROR"@
                &&& j.text_at("message"@) matches Some(s) ==> e.message == s
                &&& j.text_at("message"@) is None ==> e.message == t
            }
            &&& tree is None ==> e.label == "HTTP_ERROR"@ && e.message == t
        }),
{
}

/// A list of orders is read item by item and is nothing where one item is no order;
/// positions come as such a list or as a single record.
pub proof fn lists_are_read_whole(s: Seq<JsonView>, j: JsonView)
    ensures
        gate_rest::all_orders(seq![]) == Some(Seq::<gate_types::OrderFields>::empty()),
        gate_rest::all_positions(seq![]) == Some(Seq::<gate_types::PositionFields>::empty()),
        ({
            let was = gate_rest::all_orders(s);
            let now = gate_rest::all_orders(s.push(j));
            &&& now is Some <==> was is Some && gate_types::order_fields(j) is Some
            &&& now is Some ==> now->0 == (was->0).push(gate_types::order_fields(j)->0)
        }),
        ({
            let was = gate_rest::all_positions(s);
            let now = gate_rest::all_positions(s.push(j));
            &&& now is Some <==> was is Some && gate_types::position_fields(j) is Some
            &&& now is Some ==> now->0 == (was->0).push(gate_types::position_fields(j)->0)
        }),
        gate_rest::positions_in(JsonView::List(s)) == gate_rest::all_positions(s),
        !(j is List) ==> {
            &&& gate_types::position_fields(j) matches Some(p) ==> gate_rest::positions_in(j)
                == Some(seq![p])
            &&& gate_types::position_fields(j) is None ==> gate_rest::positions_in(j) is None
        },
{
    assert(s.push(j).drop_last() =~= s);
}

proof fn lemma_live(live: Seq<bool>)
    ensures
        gate_trade::live_count(live) > 0 <==> exists|i: int|
            0 <= i < live.len() && #[trigger] live[i],
    decreases live.len(),
{
    if live.len() > 0 {
        let init = live.drop_last();
        lemma_live(init);
        if gate_trade::live_count(init) > 0 {
            let i = choose|i: int| 0 <= i < init.len() && #[trigger] init[i];
            assert(live[i]);
        }
        if exists|i: int| 0 <= i < live.len() && #[trigger] live[i] {
            let i = choose|i: int| 0 <= i < live.len() && #[trigger] live[i];
            if i < init.len() {
                assert(init[i]);
            }
        }
        if live.last() {
            assert(live[live.len() - 1]);
        }
    }
}

/// A pool is connected while any slot is live. A slot that comes or goes changes
/// nothing but itself, and the pool's state is told exactly when it changes.
pub proof fn a_pool_is_as_live_as_its_slots(p: PoolView, slot: usize, connected: bool)
    ensures
        p.connected() <==> exists|i: int| 0 <= i < p.live.len() && #[trigger] p.live[i],
        ({
            let (w, told) = p.with_status(slot, connected);
            &&& w.next == p.next
            &&& w.live.len() == p.live.len()
            &&& slot < p.live.len() ==> w.live[slot as int] == connected
            &&& forall|i: int|
                0 <= i < p.live.len() && i != slot ==> #[trigger] w.live[i] == p.live[i]
            &&& w.connected() == p.connected() ==> told is None
            &&& w.connected() != p.connected() ==> told == Some(w.connected())
        }),
{
    lemma_live(p.live);
}

/// Commands go round: after one was sent the slot behind it is next, and the first
/// slot behind the last.
pub proof fn commands_go_round(p: PoolView, slot: int)
    requires
        0 <= slot < p.live.len(),
    ensures
        p.past(slot).live == p.live,
        slot + 1 < p.live.len() ==> p.past(slot).next == slot + 1,
        slot + 1 == p.live.len() ==> p.past(slot).next == 0,
{
    let n = p.live.len() as int;
    if slot + 1 < n {
        assert((slot + 1) % n == slot + 1) by (nonlinear_arith)
            requires
                0 <= slot,
                slot + 1 < n,
        ;
    } else {
        assert((slot + 1) % n == 0) by (nonlinear_arith)
            requires
                slot + 1 == n,
                n > 0,
        ;
    }
}

/// A request that waits is found under its name, and only that one leaves.
pub proof fn requests_wait_under_their_name(s: Seq<OutstandingView>, id: Seq<char>, k: int)
    ensures
        0 <= k < s.len() && s[k].req_id == id && (forall|j: int|
            0 <= j < k ==> (#[trigger] s[j]).req_id != id) ==> gate_trade::place_of(s, id) == Some(
            k,
        ) && gate_trade::without(s, id) == s.remove(k),
        (forall|j: int| 0 <= j < s.len() ==> (#[trigger] s[j]).req_id != id)
            ==> gate_trade::place_of(s, id) is None && gate_trade::without(s, id) == s,
    decreases s.len(),
{
    if s.len() > 0 && s[0].req_id != id {
        let rest = s.skip(1);
        requests_wait_under_their_name(rest, id, k - 1);
        if 0 <= k < s.len() && s[k].req_id == id && (forall|j: int|
            0 <= j < k ==> (#[trigger] s[j]).req_id != id) {
            assert(rest[k - 1] == s[k]);
            assert forall|j: int| 0 <= j < k - 1 implies (#[trigger] rest[j]).req_id != id by {
                assert(s[j + 1].req_id != id);
            }
        }
        if forall|j: int| 0 <= j < s.len() ==> (#[trigger] s[j]).req_id != id {
            assert forall|j: int| 0 <= j < rest.len() implies (#[trigger] rest[j]).req_id != id by {
                assert(s[j + 1].req_id != id);
            }
        }
    } else if s.len() > 0 && k > 0 {
        assert(s[0].req_id == id);
    }
}

/// A request is given up once it has waited for more than five seconds, and not
/// before; it is answered as unknown, in its turn.
pub proof fn requests_are_given_up_after_five_seconds(
    s: Seq<OutstandingView>,
    o: OutstandingView,
    now: Instant,
)
    ensures
        gate_trade::swept(seq![], now).0.len() == 0,
        gate_trade::swept(seq![], now).1.len() == 0,
        ({
            let (kept, given) = gate_trade::swept(s, now);
            let (k, g) = gate_trade::swept(s.push(o), now);
            &&& now.nanos - o.since.nanos > 5_000_000_000 ==> k == kept && g.len() == given.len()
                + 1 && g.drop_last() == given && g.last().req_id == o.cmd.cmd.req() && g.last().at
                == now && (g.last().result matches ResultView::Error { label, .. } && label
                == "UNKNOWN"@)
            &&& now.nanos - o.since.nanos <= 5_000_000_000 ==> k == kept.push(o) && g == given
        }),
{
    assert(s.push(o).drop_last() =~= s);
    let (kept, given) = gate_trade::swept(s, now);
    if now.nanos - o.since.nanos > 5_000_000_000 {
        assert(gate_trade::swept(s.push(o), now).1.drop_last() =~= given);
    }
}

/// A session goes live with an accepted login and starts over with short delays;
/// a rejected one does not. Replies count only while it is live.
pub proof fn sessions_go_live_with_their_login(s: SessionView, v: JsonView)
    ensures
        ({
            let (w, i) = s.received(v);
            let login = v.text_at("request_id"@) == Some("login-1"@);
            let accepted = gate_trade::status_of(v) == 200;
            &&& w.pending == s.pending
            &&& w.backoff.max == s.backoff.max
            &&& s.phase == Phase::Down ==> w == s && i == IncomingView::Ignored
            &&& s.phase == Phase::LoggingIn && login && accepted ==> w.phase == Phase::Live && i
                == IncomingView::LoggedIn && w.backoff.cur.nanos == 500_000_000
            &&& s.phase == Phase::LoggingIn && login && !accepted ==> w == s && i
                == IncomingView::Rejected
            &&& s.phase == Phase::LoggingIn && !login ==> w == s && i == IncomingView::Ignored
            &&& s.phase == Phase::Live ==> w == s && (gate_trade::api_reply(v) matches Some(r)
                ==> i == IncomingView::Reply(r.0, r.1)) && (gate_trade::api_reply(v) is None ==> i
                == IncomingView::Ignored)
        }),
        ({
            let d = s.down();
            &&& d.phase == Phase::Down
            &&& d.pending.len() == 0
            &&& d.backoff.max == s.backoff.max
            &&& 2 * s.backoff.cur.nanos <= s.backoff.max.nanos ==> d.backoff.cur.nanos == 2
                * s.backoff.cur.nanos
            &&& 2 * s.backoff.cur.nanos > s.backoff.max.nanos ==> d.backoff.cur.nanos
                == s.backoff.max.nanos
        }),
{
}

/// A command can be written where its size can change its sign and its price is one
/// that the grid shows.
pub proof fn writable_commands(c: CommandView, grid: TickGrid)
    ensures
        c matches CommandView::Place { size, price, .. } ==> (gate_trade::writable(c, grid) <==> size
            != i64::MIN && (price matches Some(p) ==> grid.shows(p))),
        c matches CommandView::Amend { size, price, .. } ==> (gate_trade::writable(c, grid) <==> size
            != Some(i64::MIN) && (price matches Some(p) ==> grid.shows(p))),
        c is Cancel || c is Query || c is CancelAll ==> gate_trade::writable(c, grid),
{
}

} // verus!
