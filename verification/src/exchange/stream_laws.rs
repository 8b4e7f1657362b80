//! What holds of the records and streams of the exchanges: which field of a record
//! becomes what, and which frames say something.

use vstd::prelude::*;

use crate::exchange::binance;
use crate::exchange::binance::{MessageView, SymbolView};
use crate::exchange::gate_private;
use crate::exchange::gate_private::{PrivateView, RawBalanceView};
use crate::exchange::gate_public;
use crate::exchange::gate_public::{PublicView, RawTickerView, RawTradeView};
use crate::exchange::gate_types;
use crate::exchange::gate_types::{GateContract, IntView, MetaError};
use crate::exchange::json::JsonView;
use crate::text;
use crate::types::{ContractMeta, TickGrid, Ticks};

verus! {

/// What a record says under a name: the member of an object, or the item of a list
/// that stands in the field's place.
pub open spec fn said(j: JsonView, key: Seq<char>, at: int) -> Option<JsonView> {
    match j {
        JsonView::Object(m) => if m.contains_key(key) {
            Some(m[key])
        } else {
            None
        },
        JsonView::List(s) => if at < s.len() {
            Some(s[at])
        } else {
            None
        },
        _ => None,
    }
}

/// An integer field: a whole number, what is written where it is none, and zero
/// where neither is there.
pub open spec fn as_count(x: Option<JsonView>) -> IntView {
    match x {
        Some(JsonView::Number(_, Some(n), _)) => IntView::Known(n),
        Some(JsonView::Number(t, None, _)) => IntView::Decimal(t),
        Some(JsonView::Text(t)) => IntView::Decimal(t),
        _ => IntView::Known(0),
    }
}

/// A number or a text as it is written.
pub open spec fn as_written(x: Option<JsonView>) -> Seq<char> {
    match x {
        Some(JsonView::Number(t, _, _)) => t,
        Some(JsonView::Text(t)) => t,
        _ => seq![],
    }
}

/// A text, or nothing at all.
pub open spec fn text_or_missing(x: Option<JsonView>) -> bool {
    x is None || x->0 is Text
}

/// A truth value, or nothing at all.
pub open spec fn truth_or_missing(x: Option<JsonView>) -> bool {
    x is None || x->0 is Bool
}

/// A record of at most `n` fields.
pub open spec fn is_record_of(j: JsonView, n: int) -> bool {
    j is Object || (j matches JsonView::List(s) && s.len() <= n)
}

/// An order record is read where its id is there and its texts and its flag are
/// nothing else; each field comes from its own name.
pub proof fn orders_are_read_field_by_field(j: JsonView)
    ensures
        gate_types::order_fields(j) is Some <==> is_record_of(j, 14) && said(j, "id"@, 0) is Some
            && text_or_missing(said(j, "text"@, 1)) && text_or_missing(said(j, "contract"@, 2))
            && text_or_missing(said(j, "status"@, 7)) && text_or_missing(said(j, "finish_as"@, 8))
            && truth_or_missing(said(j, "is_reduce_only"@, 9)) && text_or_missing(
            said(j, "tif"@, 10),
        ),
        gate_types::order_fields(j) matches Some(o) ==> {
            &&& o.id == as_written(said(j, "id"@, 0))
            &&& o.text == as_written(said(j, "text"@, 1))
            &&& o.contract == as_written(said(j, "contract"@, 2))
            &&& o.size == as_count(said(j, "size"@, 3))
            &&& o.left == as_count(said(j, "left"@, 4))
            &&& o.price == as_written(said(j, "price"@, 5))
            &&& o.fill_price == as_written(said(j, "fill_price"@, 6))
            &&& o.status == as_written(said(j, "status"@, 7))
            &&& o.finish_as == as_written(said(j, "finish_as"@, 8))
            &&& o.is_reduce_only == (said(j, "is_reduce_only"@, 9) == Some(JsonView::Bool(true)))
            &&& o.tif == as_written(said(j, "tif"@, 10))
            &&& o.update_time == as_count(said(j, "update_time"@, 11))
            &&& o.update_time_ms == as_count(said(j, "update_time_ms"@, 12))
            &&& o.create_time_ms == as_count(said(j, "create_time_ms"@, 13))
        },
{
}

/// A trade of ours is read field by field.
pub proof fn trades_are_read_field_by_field(j: JsonView)
    ensures
        gate_types::user_trade_fields(j) is Some <==> is_record_of(j, 9) && said(
            j,
            "id"@,
            0,
        ) is Some && text_or_missing(said(j, "text"@, 2)) && text_or_missing(
            said(j, "contract"@, 3),
        ) && text_or_missing(said(j, "role"@, 6)),
        gate_types::user_trade_fields(j) matches Some(t) ==> {
            &&& t.id == as_written(said(j, "id"@, 0))
            &&& t.order_id == as_written(said(j, "order_id"@, 1))
            &&& t.text == as_written(said(j, "text"@, 2))
            &&& t.contract == as_written(said(j, "contract"@, 3))
            &&& t.size == as_count(said(j, "size"@, 4))
            &&& t.price == as_written(said(j, "price"@, 5))
            &&& t.role == as_written(said(j, "role"@, 6))
            &&& t.fee == as_written(said(j, "fee"@, 7))
            &&& t.create_time_ms == as_count(said(j, "create_time_ms"@, 8))
        },
{
}

/// A position and an account are read field by field.
pub proof fn positions_and_accounts_are_read_field_by_field(j: JsonView)
    ensures
        gate_types::position_fields(j) is Some <==> is_record_of(j, 6) && text_or_missing(
            said(j, "contract"@, 0),
        ) && text_or_missing(said(j, "mode"@, 1)),
        gate_types::position_fields(j) matches Some(p) ==> {
            &&& p.contract == as_written(said(j, "contract"@, 0))
            &&& p.mode == as_written(said(j, "mode"@, 1))
            &&& p.size == as_count(said(j, "size"@, 2))
            &&& p.entry_price == as_written(said(j, "entry_price"@, 3))
            &&& p.update_time == as_count(said(j, "update_time"@, 4))
            &&& p.time_ms == as_count(said(j, "time_ms"@, 5))
        },
        gate_types::account_fields(j) is Some <==> is_record_of(j, 7) && truth_or_missing(
            said(j, "in_dual_mode"@, 6),
        ),
        gate_types::account_fields(j) matches Some(a) ==> {
            &&& a.user == as_count(said(j, "user"@, 0))
            &&& a.total == as_written(said(j, "total"@, 1))
            &&& a.available == as_written(said(j, "available"@, 2))
            &&& a.unrealised_pnl == as_written(said(j, "unrealised_pnl"@, 3))
            &&& a.order_margin == as_written(said(j, "order_margin"@, 4))
            &&& a.position_margin == as_written(said(j, "position_margin"@, 5))
            &&& a.in_dual_mode == (said(j, "in_dual_mode"@, 6) == Some(JsonView::Bool(true)))
        },
{
}

/// A contract is read field by field; its name must be there.
pub proof fn contracts_are_read_field_by_field(j: JsonView)
    ensures
        gate_types::contract_fields(j) is Some <==> is_record_of(j, 14) && said(
            j,
            "name"@,
            0,
        ) is Some && text_or_missing(said(j, "name"@, 0)) && text_or_missing(
            said(j, "order_price_round"@, 1),
        ) && text_or_missing(said(j, "quanto_multiplier"@, 2)) && truth_or_missing(
            said(j, "in_delisting"@, 11),
        ) && text_or_missing(said(j, "status"@, 12)) && text_or_missing(
            said(j, "contract_type"@, 13),
        ),
        gate_types::contract_fields(j) matches Some(c) ==> {
            &&& c.name == as_written(said(j, "name"@, 0))
            &&& c.order_price_round == as_written(said(j, "order_price_round"@, 1))
            &&& c.quanto_multiplier == as_written(said(j, "quanto_multiplier"@, 2))
            &&& c.order_size_min == as_count(said(j, "order_size_min"@, 3))
            &&& c.order_size_max == as_count(said(j, "order_size_max"@, 4))
            &&& c.orders_limit == as_count(said(j, "orders_limit"@, 5))
            &&& c.order_price_deviate == as_written(said(j, "order_price_deviate"@, 6))
            &&& c.funding_interval == as_count(said(j, "funding_interval"@, 7))
            &&& c.funding_next_apply == as_count(said(j, "funding_next_apply"@, 8))
            &&& c.maker_fee_rate == as_written(said(j, "maker_fee_rate"@, 9))
            &&& c.taker_fee_rate == as_written(said(j, "taker_fee_rate"@, 10))
            &&& c.in_delisting == (said(j, "in_delisting"@, 11) == Some(JsonView::Bool(true)))
            &&& c.status == as_written(said(j, "status"@, 12))
            &&& c.contract_type == as_written(said(j, "contract_type"@, 13))
        },
{
}

/// Metadata has a smallest size of at least one and no largest size where none is
/// named; a contract that is not trading counts as being delisted. A tick size or a
/// multiplier that cannot be read or is not positive is an error, the tick size
/// first.
pub proof fn metadata_describes_the_contract<R: Copy>(
    c: GateContract<i64, R>,
    m: ContractMeta<R>,
    tick: Option<(int, nat)>,
    multiplier: Option<(int, nat)>,
)
    ensures
        c.describes(m) ==> {
            &&& m.name@ == c.name@
            &&& c.order_size_min >= 1 ==> m.order_size_min == c.order_size_min
            &&& c.order_size_min < 1 ==> m.order_size_min == 1
            &&& c.order_size_max > 0 ==> m.order_size_max == c.order_size_max
            &&& c.order_size_max <= 0 ==> m.order_size_max == i64::MAX / 4
            &&& m.orders_limit == c.orders_limit
            &&& m.price_deviate == c.order_price_deviate
            &&& m.funding_interval_secs == c.funding_interval
            &&& m.funding_next_apply == c.funding_next_apply
            &&& m.maker_fee == c.maker_fee_rate
            &&& m.taker_fee == c.taker_fee_rate
            &&& c.in_delisting ==> m.in_delisting
            &&& !c.in_delisting ==> (m.in_delisting <==> c.status@ != "trading"@)
        },
        gate_types::meta_check(tick, multiplier) == Some(MetaError::PriceRound) <==> tick is None,
        gate_types::meta_check(tick, multiplier) == Some(MetaError::Multiplier) <==> tick is Some
            && multiplier is None,
        gate_types::meta_check(tick, multiplier) is None <==> (tick matches Some(t) && t.0 > 0) && (
        multiplier matches Some(x) && x.0 > 0),
{
}

/// Levels are read where every item has a price and a size; each keeps its place.
pub proof fn levels_are_read_item_by_item(s: Seq<JsonView>, i: int)
    ensures
        ({
            let r = gate_types::level_fields(JsonView::List(s));
            &&& r is Some <==> forall|k: int|
                0 <= k < s.len() ==> is_record_of(#[trigger] s[k], 2) && said(s[k], "p"@, 0) is Some
                    && said(s[k], "s"@, 1) is Some
            &&& r matches Some(ls) ==> ls.len() == s.len() && (0 <= i < s.len() ==> ls[i].p
                == as_written(said(s[i], "p"@, 0)) && ls[i].s == as_count(said(s[i], "s"@, 1)))
        }),
{
    let r = gate_types::level_fields(JsonView::List(s));
    if r is Some {
        assert forall|k: int| 0 <= k < s.len() implies is_record_of(#[trigger] s[k], 2) && said(
            s[k],
            "p"@,
            0,
        ) is Some && said(s[k], "s"@, 1) is Some by {
            assert(gate_types::is_level(s[k]));
        }
        if 0 <= i < s.len() {
            assert(gate_types::is_level(s[i]));
        }
    }
    if forall|k: int|
        0 <= k < s.len() ==> is_record_of(#[trigger] s[k], 2) && said(s[k], "p"@, 0) is Some && said(
            s[k],
            "s"@,
            1,
        ) is Some {
        assert forall|k: int| 0 <= k < s.len() implies gate_types::is_level(#[trigger] s[k]) by {}
    }
}

/// The text under a name, empty where there is none.
pub open spec fn name_in(j: JsonView, key: Seq<char>) -> Seq<char> {
    match j {
        JsonView::Object(m) => if m.contains_key(key) && m[key] is Text {
            m[key]->Text_0
        } else {
            seq![]
        },
        _ => seq![],
    }
}

/// A public frame says something only as an update or a whole, with a result, on a
/// channel of its own: quotes, trades, book changes, tickers.
pub proof fn public_frames_speak_by_channel(v: JsonView, result: JsonView, grid: TickGrid)
    requires
        v.get("result"@) == Some(result),
    ensures
        ({
            let r = gate_public::public_of(v, grid);
            let fresh = name_in(v, "event"@) == "update"@ || name_in(v, "event"@) == "all"@;
            let on = name_in(v, "channel"@);
            &&& !fresh ==> r == PublicView::Nothing
            &&& fresh && on == "futures.book_ticker"@ ==> r == gate_public::quoted(
                result,
                gate_public::price_at(result, "b"@, grid),
                gate_public::price_at(result, "a"@, grid),
            )
            &&& fresh && on == "futures.trades"@ ==> {
                &&& result matches JsonView::List(s) ==> r == PublicView::Trades(
                    gate_public::trades_of(s),
                )
                &&& !(result is List) ==> r == PublicView::Nothing
            }
            &&& fresh && on == "futures.order_book_update"@ ==> r == (PublicView::Delta {
                first_id: result.uint_or("U"@, 0),
                last_id: result.uint_or("u"@, 0),
                bids: gate_public::levels_at(result, "b"@),
                asks: gate_public::levels_at(result, "a"@),
                full: result.get("full"@) == Some(JsonView::Bool(true)),
            })
            &&& fresh && on == "futures.tickers"@ ==> {
                &&& result matches JsonView::List(s) ==> r == PublicView::Tickers(
                    gate_public::tickers_of(s),
                )
                &&& !(result is List) ==> r == PublicView::Tickers(
                    gate_public::tickers_of(seq![result]),
                )
            }
            &&& on != "futures.book_ticker"@ && on != "futures.trades"@ && on
                != "futures.order_book_update"@ && on != "futures.tickers"@ ==> r
                == PublicView::Nothing
        }),
{
    lemma_public_channels();
}

proof fn lemma_public_channels()
    ensures
        "futures.book_ticker"@ != "futures.trades"@,
        "futures.book_ticker"@ != "futures.order_book_update"@,
        "futures.book_ticker"@ != "futures.tickers"@,
        "futures.trades"@ != "futures.order_book_update"@,
        "futures.trades"@ != "futures.tickers"@,
        "futures.order_book_update"@ != "futures.tickers"@,
        "futures.orders"@ != "futures.usertrades"@ && "futures.orders"@ != "futures.positions"@,
        "futures.orders"@ != "futures.balances"@ && "futures.usertrades"@ != "futures.positions"@,
        "futures.usertrades"@ != "futures.balances"@ && "futures.positions"@ != "futures.balances"@,
{
    reveal_strlit("futures.book_ticker");
    reveal_strlit("futures.trades");
    reveal_strlit("futures.order_book_update");
    reveal_strlit("futures.tickers");
    reveal_strlit("futures.orders");
    reveal_strlit("futures.usertrades");
    reveal_strlit("futures.positions");
    reveal_strlit("futures.balances");
    assert("futures.book_ticker"@[8] == 'b' && "futures.trades"@[8] == 't');
    assert("futures.order_book_update"@[8] == 'o' && "futures.tickers"@[8] == 't');
    assert("futures.trades"@[9] == 'r' && "futures.tickers"@[9] == 'i');
    assert("futures.orders"@[8] == 'o' && "futures.usertrades"@[8] == 'u');
    assert("futures.positions"@[8] == 'p' && "futures.balances"@[8] == 'b');
}

/// A quote needs two prices above zero, and carries the sizes and the time that are
/// given with it.
pub proof fn quotes_need_both_prices(
    result: JsonView,
    bid: Option<Ticks>,
    ask: Option<Ticks>,
    v: JsonView,
    grid: TickGrid,
)
    ensures
        ({
            let good = (bid matches Some(b) && b > 0) && (ask matches Some(a) && a > 0);
            let r = gate_public::quoted(result, bid, ask);
            &&& !good ==> r == PublicView::Nothing
            &&& good ==> r == (PublicView::Bbo {
                bid: bid->0,
                bid_size: result.int_or("B"@, 0),
                ask: ask->0,
                ask_size: result.int_or("A"@, 0),
                exch_ms: result.int_or("t"@, 0),
            })
        }),
        v.get("result"@) is None ==> gate_public::public_of(v, grid) == PublicView::Nothing,
{
}

/// Of a list of trades those count that have a price in writing and a whole size; of
/// a list of tickers those with a mark price.
pub proof fn items_that_cannot_be_used_are_left_out(s: Seq<JsonView>, t: JsonView)
    ensures
        gate_public::trades_of(seq![]).len() == 0,
        gate_public::tickers_of(seq![]).len() == 0,
        ({
            let was = gate_public::trades_of(s);
            let now = gate_public::trades_of(s.push(t));
            let size = t.get("size"@);
            let good = t.text_at("price"@) is Some && (size matches Some(x) && x.integer() is Some);
            &&& !good ==> now == was
            &&& good ==> now == was.push(
                RawTradeView {
                    price: t.text_at("price"@)->0,
                    signed_size: size->0.integer()->0,
                    trade_id: t.uint_or("id"@, 0),
                },
            )
        }),
        ({
            let was = gate_public::tickers_of(s);
            let now = gate_public::tickers_of(s.push(t));
            let good = t.text_at("mark_price"@) is Some;
            &&& !good ==> now == was
            &&& good ==> now == was.push(
                RawTickerView {
                    mark: t.text_at("mark_price"@)->0,
                    index: t.text_at("index_price"@),
                    funding_rate: t.text_at("funding_rate"@),
                },
            )
        }),
{
    assert(s.push(t).drop_last() =~= s);
}

/// A member that is no list of levels stands for no levels.
pub proof fn broken_levels_count_as_none(j: JsonView, key: Seq<char>)
    ensures
        j.get(key) is None ==> gate_public::levels_at(j, key).len() == 0,
        j.get(key) matches Some(x) ==> {
            &&& gate_types::level_fields(x) matches Some(l) ==> gate_public::levels_at(j, key) == l
            &&& gate_types::level_fields(x) is None ==> gate_public::levels_at(j, key).len() == 0
        },
{
}

/// A private frame says something only as an update with a result, on a channel of
/// its own; a single record counts as a list of one. A list without a position says
/// nothing.
pub proof fn private_frames_speak_by_channel(v: JsonView, result: JsonView)
    requires
        v.get("result"@) == Some(result),
    ensures
        ({
            let r = gate_private::private_of(v);
            let fresh = name_in(v, "event"@) == "update"@;
            let on = name_in(v, "channel"@);
            let s = match result {
                JsonView::List(s) => s,
                _ => seq![result],
            };
            &&& !fresh ==> r == PrivateView::Nothing
            &&& fresh && on == "futures.orders"@ ==> r == PrivateView::Orders(
                gate_private::orders_of(s),
            )
            &&& fresh && on == "futures.usertrades"@ ==> r == PrivateView::Trades(
                gate_private::trades_of(s),
            )
            &&& fresh && on == "futures.positions"@ ==> {
                &&& gate_private::positions_of(s).len() > 0 ==> r == PrivateView::Positions(
                    gate_private::positions_of(s),
                )
                &&& gate_private::positions_of(s).len() == 0 ==> r == PrivateView::Nothing
            }
            &&& fresh && on == "futures.balances"@ ==> r == PrivateView::Balances(
                gate_private::balances_of(s),
            )
            &&& on != "futures.orders"@ && on != "futures.usertrades"@ && on
                != "futures.positions"@ && on != "futures.balances"@ ==> r == PrivateView::Nothing
        }),
{
    lemma_public_channels();
}

/// Of the records of a private frame those count that can be read, in their order.
pub proof fn records_that_cannot_be_read_are_left_out(s: Seq<JsonView>, j: JsonView)
    ensures
        gate_private::orders_of(seq![]).len() == 0,
        gate_private::trades_of(seq![]).len() == 0,
        gate_private::positions_of(seq![]).len() == 0,
        gate_private::balances_of(seq![]).len() == 0,
        gate_types::order_fields(j) matches Some(x) ==> gate_private::orders_of(s.push(j))
            == gate_private::orders_of(s).push(x),
        gate_types::order_fields(j) is None ==> gate_private::orders_of(s.push(j))
            == gate_private::orders_of(s),
        gate_types::user_trade_fields(j) matches Some(x) ==> gate_private::trades_of(s.push(j))
            == gate_private::trades_of(s).push(x),
        gate_types::user_trade_fields(j) is None ==> gate_private::trades_of(s.push(j))
            == gate_private::trades_of(s),
        gate_types::position_fields(j) matches Some(x) ==> gate_private::positions_of(s.push(j))
            == gate_private::positions_of(s).push(x),
        gate_types::position_fields(j) is None ==> gate_private::positions_of(s.push(j))
            == gate_private::positions_of(s),
        ({
            let was = gate_private::balances_of(s);
            let now = gate_private::balances_of(s.push(j));
            let change = j.get("change"@);
            let good = change matches Some(x) && (x is Number || x is Text);
            &&& !good ==> now == was
            &&& good ==> now == was.push(
                RawBalanceView { change: as_written(change), kind: name_in(j, "type"@) },
            )
        }),
{
    assert(s.push(j).drop_last() =~= s);
}

proof fn lemma_auth_keys()
    ensures
        "time"@ != "channel"@ && "time"@ != "event"@ && "time"@ != "payload"@,
        "time"@ != "auth"@ && "channel"@ != "event"@ && "channel"@ != "payload"@,
        "channel"@ != "auth"@ && "event"@ != "payload"@ && "event"@ != "auth"@,
        "payload"@ != "auth"@,
        "method"@ != "KEY"@ && "method"@ != "SIGN"@ && "KEY"@ != "SIGN"@,
{
    reveal_strlit("time");
    reveal_strlit("channel");
    reveal_strlit("event");
    reveal_strlit("payload");
    reveal_strlit("auth");
    reveal_strlit("method");
    reveal_strlit("KEY");
    reveal_strlit("SIGN");
    assert("time"@.len() == 4 && "channel"@.len() == 7 && "event"@.len() == 5);
    assert("payload"@.len() == 7 && "auth"@.len() == 4 && "method"@.len() == 6);
    assert("KEY"@.len() == 3 && "SIGN"@.len() == 4);
    assert("channel"@[0] != "payload"@[0]);
    assert("time"@[0] != "auth"@[0]);
}

/// A subscription names its channel, its payload and its time; a signed one also
/// carries the key and the signature of its channel and time.
pub proof fn subscriptions_say_what_they_want(
    key: Seq<char>,
    sign: Seq<char>,
    channel: Seq<char>,
    payload: JsonView,
    time: i64,
)
    ensures
        ({
            let f = gate_public::subscription(time, channel, payload);
            &&& f.int_or("time"@, 0) == time
            &&& f.text_at("channel"@) == Some(channel)
            &&& f.text_at("event"@) == Some("subscribe"@)
            &&& f.get("payload"@) == Some(payload)
        }),
        ({
            let f = gate_private::signed_subscription(key, sign, channel, payload, time);
            &&& f.int_or("time"@, 0) == time
            &&& f.text_at("channel"@) == Some(channel)
            &&& f.text_at("event"@) == Some("subscribe"@)
            &&& f.get("payload"@) == Some(payload)
            &&& f.get("auth"@) matches Some(a) && a.text_at("method"@) == Some("api_key"@)
                && a.text_at("KEY"@) == Some(key) && a.text_at("SIGN"@) == Some(sign)
        }),
        gate_private::signed_part(channel, time) == "channel="@ + channel
            + "&event=subscribe&time="@ + text::signed_decimal(time as int),
{
    lemma_auth_keys();
}

/// The four private channels are subscribed to, each with a signature of its own;
/// balances ask for the account as a whole, the others for the contract.
pub proof fn private_channels_are_subscribed(
    key: Seq<char>,
    secret: Seq<char>,
    user_id: i64,
    contract: Seq<char>,
    time: i64,
)
    ensures
        ({
            let r = gate_private::private_subscriptions(key, secret, user_id, contract, time);
            let uid = text::signed_decimal(user_id as int);
            let both = gate_public::text_list(seq![uid, contract]);
            let alone = gate_public::text_list(seq![uid]);
            &&& r.len() == 4
            &&& r[0] == signed_for(key, secret, "futures.orders"@, both, time)
            &&& r[1] == signed_for(key, secret, "futures.usertrades"@, both, time)
            &&& r[2] == signed_for(key, secret, "futures.positions"@, both, time)
            &&& r[3] == signed_for(key, secret, "futures.balances"@, alone, time)
        }),
        ({
            let r = gate_public::public_subscriptions(contract, time);
            let only = gate_public::text_list(seq![contract]);
            &&& r.len() == 4
            &&& r[0] == gate_public::subscription(time, "futures.book_ticker"@, only)
            &&& r[1] == gate_public::subscription(time, "futures.trades"@, only)
            &&& r[2] == gate_public::subscription(
                time,
                "futures.order_book_update"@,
                gate_public::text_list(seq![contract, "100ms"@, "20"@]),
            )
            &&& r[3] == gate_public::subscription(time, "futures.tickers"@, only)
        }),
{
    lemma_public_channels();
}

/// A subscription signed over its channel and time.
pub open spec fn signed_for(
    key: Seq<char>,
    secret: Seq<char>,
    channel: Seq<char>,
    payload: JsonView,
    time: i64,
) -> JsonView {
    gate_private::signed_subscription(
        key,
        gate_private::signature(
            secret,
            "channel="@ + channel + "&event=subscribe&time="@ + text::signed_decimal(time as int),
        ),
        channel,
        payload,
        time,
    )
}

/// A quote of the reference market needs both prices and prefers the event time to
/// the transaction time; a trade needs its price and its quantity. Other streams say
/// nothing.
pub proof fn reference_messages_speak_by_stream(v: JsonView, stream: Seq<char>, d: JsonView)
    requires
        is_record_of(v, 2),
        said(v, "stream"@, 0) == Some(JsonView::Text(stream)),
        said(v, "data"@, 1) == Some(d),
    ensures
        ({
            let r = binance::message_in(v);
            let quote = stream.len() >= 11 && stream.skip(stream.len() - 11) == "@bookTicker"@;
            let trade = stream.len() >= 9 && stream.skip(stream.len() - 9) == "@aggTrade"@;
            &&& quote && d.text_at("b"@) is Some && d.text_at("a"@) is Some ==> (r matches Some(
                MessageView::Quote { bid, ask, bid_qty, ask_qty, exch_ms },
            ) && Some(bid) == d.text_at("b"@) && Some(ask) == d.text_at("a"@) && bid_qty
                == d.text_at("B"@) && ask_qty == d.text_at("A"@) && (binance::number_at(
                d,
                "E"@,
            ) is Some ==> exch_ms == binance::number_at(d, "E"@)) && (binance::number_at(
                d,
                "E"@,
            ) is None ==> exch_ms == binance::number_at(d, "T"@)))
            &&& quote && (d.text_at("b"@) is None || d.text_at("a"@) is None) ==> r is None
            &&& !quote && trade && d.text_at("p"@) is Some && d.text_at("q"@) is Some ==> (r
                matches Some(MessageView::Trade { price, qty, buyer_is_maker }) && Some(price)
                == d.text_at("p"@) && Some(qty) == d.text_at("q"@) && buyer_is_maker == (d.get(
                "m"@,
            ) == Some(JsonView::Bool(true))))
            &&& !quote && trade && (d.text_at("p"@) is None || d.text_at("q"@) is None) ==> r is None
            &&& !quote && !trade ==> r is None
        }),
{
    reveal_strlit("@bookTicker");
    reveal_strlit("@aggTrade");
    assert("@bookTicker"@.len() == 11 && "@aggTrade"@.len() == 9);
    lemma_closes(stream, "@bookTicker"@);
    lemma_closes(stream, "@aggTrade"@);
}

proof fn lemma_closes(s: Seq<char>, p: Seq<char>)
    ensures
        text::closes_with(s, p) <==> s.len() >= p.len() && s.skip(s.len() - p.len()) == p,
{
    if s.len() >= p.len() {
        if text::closes_with(s, p) {
            assert(s.skip(s.len() - p.len()) =~= p);
        }
        if s.skip(s.len() - p.len()) == p {
            assert forall|i: int| 0 <= i < p.len() implies s[s.len() - p.len() + i] == p[i] by {
                assert(s.skip(s.len() - p.len())[i] == p[i]);
            }
            assert(text::closes_with(s, p));
        }
    }
}

/// A filter sets what it is about: the price filter the tick size, the lot filter
/// step and smallest quantity, the notional filter the smallest notional. The last
/// filter of a kind counts.
pub proof fn filters_set_what_they_are_about(m: SymbolView, fs: Seq<JsonView>, f: JsonView)
    ensures
        binance::all_filtered(m, seq![]) == m,
        ({
            let was = binance::all_filtered(m, fs);
            let now = binance::all_filtered(m, fs.push(f));
            let kind = f.text_at("filterType"@);
            &&& now.symbol == was.symbol
            &&& now.contract_type == was.contract_type
            &&& now.status == was.status
            &&& now.tick_size == (if kind == Some("PRICE_FILTER"@) {
                name_in(f, "tickSize"@)
            } else {
                was.tick_size
            })
            &&& now.step_size == (if kind == Some("LOT_SIZE"@) {
                name_in(f, "stepSize"@)
            } else {
                was.step_size
            })
            &&& now.min_qty == (if kind == Some("LOT_SIZE"@) {
                name_in(f, "minQty"@)
            } else {
                was.min_qty
            })
            &&& now.min_notional == (if kind == Some("MIN_NOTIONAL"@) {
                name_in(f, "notional"@)
            } else {
                was.min_notional
            })
        }),
{
    assert(fs.push(f).drop_last() =~= fs);
    reveal_strlit("PRICE_FILTER");
    reveal_strlit("LOT_SIZE");
    reveal_strlit("MIN_NOTIONAL");
    assert("PRICE_FILTER"@.len() == 12 && "LOT_SIZE"@.len() == 8);
    assert("PRICE_FILTER"@[0] != "MIN_NOTIONAL"@[0]);
    assert("MIN_NOTIONAL"@.len() == 12);
}

/// A symbol is described by its entry: its name, its kind and its status, and
/// without filters nothing else.
pub proof fn symbols_are_described_by_their_entry(j: JsonView, symbol: Seq<char>)
    ensures
        binance::is_symbol(j) <==> is_record_of(j, 4) && said(j, "symbol"@, 0) is Some
            && text_or_missing(said(j, "symbol"@, 0)) && text_or_missing(
            said(j, "contractType"@, 1),
        ) && text_or_missing(said(j, "status"@, 2)) && (said(j, "filters"@, 3) matches Some(x)
            ==> x is List),
        binance::is_symbol(j) && said(j, "filters"@, 3) is None ==> {
            let d = binance::description(j);
            &&& d.symbol == as_written(said(j, "symbol"@, 0))
            &&& d.contract_type == as_written(said(j, "contractType"@, 1))
            &&& d.status == as_written(said(j, "status"@, 2))
            &&& d.tick_size.len() == 0 && d.step_size.len() == 0
            &&& d.min_qty.len() == 0 && d.min_notional.len() == 0
        },
        binance::is_symbol(j) ==> (binance::is_named(j, symbol) <==> text::ascii_lower(
            as_written(said(j, "symbol"@, 0)),
        ) == text::ascii_lower(symbol)),
{
}

/// Both streams of a symbol are asked for in one address.
pub proof fn both_streams_are_asked_for(ws_url: Seq<char>, lower: Seq<char>)
    ensures
        binance::streams(ws_url, lower) == ws_url + "?streams="@ + lower + "@bookTicker/"@ + lower
            + "@aggTrade"@,
{
}

/// Fee rates stand under the name of the contract, or at the top where there is no
/// such name; a side of a snapshot that is missing has no levels.
pub proof fn fees_and_sides_are_found(j: JsonView, contract: Seq<char>, key: Seq<char>, at: int)
    ensures
        j.get(contract) matches Some(x) ==> gate_types::fee_of(j, contract) == x,
        j.get(contract) is None ==> gate_types::fee_of(j, contract) == j,
        0 <= at ==> {
            &&& said(j, key, at) is None ==> (gate_types::side_fields(j, key, at) matches Some(l)
                && l.len() == 0)
            &&& said(j, key, at) matches Some(x) ==> gate_types::side_fields(j, key, at)
                == gate_types::level_fields(x)
        },
{
}

} // verus!
