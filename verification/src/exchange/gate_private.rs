//! Gate futures private streams: orders, user trades, positions and balance
//! changes. Each subscription carries its own signature.

use vstd::prelude::*;

use crate::exchange::gate_public;
use crate::exchange::gate_types;
use crate::exchange::gate_types::{
    GateOrder, GatePosition, GateUserTrade, IntField, OrderFields, PositionFields, TradeFields,
};
use crate::exchange::json;
use crate::exchange::json::{Json, JsonView, Members};
use crate::text;
use crate::util;

verus! {

/// A balance change, the amount in writing.
#[derive(Debug, Clone)]
pub struct RawBalance {
    pub change: String,
    pub kind: String,
}

/// A balance change as plain values.
pub ghost struct RawBalanceView {
    pub change: Seq<char>,
    pub kind: Seq<char>,
}

impl View for RawBalance {
    type V = RawBalanceView;

    open spec fn view(&self) -> RawBalanceView {
        RawBalanceView { change: self.change@, kind: self.kind@ }
    }
}

/// What a private frame says.
#[derive(Debug)]
pub enum PrivateMessage {
    Nothing,
    Orders(Vec<GateOrder<IntField, String>>),
    Trades(Vec<GateUserTrade<IntField, String>>),
    Positions(Vec<GatePosition<IntField, String>>),
    Balances(Vec<RawBalance>),
}

/// What a private frame says, as plain values.
pub ghost enum PrivateView {
    Nothing,
    Orders(Seq<OrderFields>),
    Trades(Seq<TradeFields>),
    Positions(Seq<PositionFields>),
    Balances(Seq<RawBalanceView>),
}

impl View for PrivateMessage {
    type V = PrivateView;

    open spec fn view(&self) -> PrivateView {
        match *self {
            PrivateMessage::Nothing => PrivateView::Nothing,
            PrivateMessage::Orders(v) => PrivateView::Orders(
                v@.map_values(|o: GateOrder<IntField, String>| o@),
            ),
            PrivateMessage::Trades(v) => PrivateView::Trades(
                v@.map_values(|o: GateUserTrade<IntField, String>| o@),
            ),
            PrivateMessage::Positions(v) => PrivateView::Positions(
                v@.map_values(|o: GatePosition<IntField, String>| o@),
            ),
            PrivateMessage::Balances(v) => PrivateView::Balances(
                v@.map_values(|o: RawBalance| o@),
            ),
        }
    }
}

/// A balance change: a number or a text, with its kind.
pub open spec fn balance_fields(j: JsonView) -> Option<RawBalanceView> {
    match j.get("change"@) {
        Some(JsonView::Number(t, _, _)) => Some(
            RawBalanceView { change: t, kind: gate_public::name_at(j, "type"@) },
        ),
        Some(JsonView::Text(t)) => Some(
            RawBalanceView { change: t, kind: gate_public::name_at(j, "type"@) },
        ),
        _ => None,
    }
}

fn read_balance(j: &Json) -> (r: Option<RawBalance>)
    ensures
        match r {
            Some(b) => balance_fields(j@) == Some(b@),
            None => balance_fields(j@) is None,
        },
{
    match j.get("change") {
        Some(Json::Number(n)) => Some(
            RawBalance { change: n.text.clone(), kind: gate_public::read_name(j, "type") },
        ),
        Some(Json::Text(s)) => Some(
            RawBalance { change: s.clone(), kind: gate_public::read_name(j, "type") },
        ),
        _ => None,
    }
}

/// Orders of a result; items that are none are left out.
pub open spec fn orders_of(s: Seq<JsonView>) -> Seq<OrderFields>
    decreases s.len(),
{
    if s.len() == 0 {
        seq![]
    } else {
        let head = orders_of(s.drop_last());
        match gate_types::order_fields(s.last()) {
            Some(x) => head.push(x),
            None => head,
        }
    }
}

fn push_orders(r: &mut Vec<GateOrder<IntField, String>>, j: &Json, Ghost(done): Ghost<Seq<JsonView>>)
    requires
        old(r)@.map_values(|o: GateOrder<IntField, String>| o@) == orders_of(done),
    ensures
        final(r)@.map_values(|o: GateOrder<IntField, String>| o@) == orders_of(done.push(j@)),
{
    let ghost before = r@;
    proof {
        assert(done.push(j@).drop_last() =~= done);
    }
    if let Some(x) = gate_types::read_order(j) {
        r.push(x);
        assert(r@.map_values(|o: GateOrder<IntField, String>| o@) =~= before.map_values(|o: GateOrder<IntField, String>| o@).push(x@));
    }
}

fn read_orders(j: &Json) -> (r: Vec<GateOrder<IntField, String>>)
    ensures
        r@.map_values(|o: GateOrder<IntField, String>| o@) == orders_of(gate_public::items_of(j@)),
{
    let mut r: Vec<GateOrder<IntField, String>> = Vec::new();
    assert(r@.map_values(|o: GateOrder<IntField, String>| o@) =~= seq![]);
    match j.as_list() {
        Some(list) => {
            let ghost all = json::items(list@);
            let mut i: usize = 0;
            assert(all.take(0) =~= seq![]);
            while i < list.len()
                invariant
                    i <= list.len(),
                    all.len() == list.len(),
                    forall|k: int| 0 <= k < list.len() ==> #[trigger] all[k] == list@[k]@,
                    r@.map_values(|o: GateOrder<IntField, String>| o@) == orders_of(all.take(i as int)),
                decreases list.len() - i,
            {
                push_orders(&mut r, &list[i], Ghost(all.take(i as int)));
                proof {
                    assert(all[i as int] == list@[i as int]@);
                    assert(all.take(i as int).push(all[i as int]) =~= all.take(i + 1));
                }
                i = i + 1;
            }
            assert(all.take(i as int) =~= all);
        },
        None => {
            push_orders(&mut r, j, Ghost(Seq::<JsonView>::empty()));
            assert(Seq::<JsonView>::empty().push(j@) =~= seq![j@]);
        },
    }
    r
}

/// Trades of a result; items that are none are left out.
pub open spec fn trades_of(s: Seq<JsonView>) -> Seq<TradeFields>
    decreases s.len(),
{
    if s.len() == 0 {
        seq![]
    } else {
        let head = trades_of(s.drop_last());
        match gate_types::user_trade_fields(s.last()) {
            Some(x) => head.push(x),
            None => head,
        }
    }
}

fn push_trades(r: &mut Vec<GateUserTrade<IntField, String>>, j: &Json, Ghost(done): Ghost<Seq<JsonView>>)
    requires
        old(r)@.map_values(|o: GateUserTrade<IntField, String>| o@) == trades_of(done),
    ensures
        final(r)@.map_values(|o: GateUserTrade<IntField, String>| o@) == trades_of(done.push(j@)),
{
    let ghost before = r@;
    proof {
        assert(done.push(j@).drop_last() =~= done);
    }
    if let Some(x) = gate_types::read_user_trade(j) {
        r.push(x);
        assert(r@.map_values(|o: GateUserTrade<IntField, String>| o@) =~= before.map_values(|o: GateUserTrade<IntField, String>| o@).push(x@));
    }
}

fn read_trades(j: &Json) -> (r: Vec<GateUserTrade<IntField, String>>)
    ensures
        r@.map_values(|o: GateUserTrade<IntField, String>| o@) == trades_of(gate_public::items_of(j@)),
{
    let mut r: Vec<GateUserTrade<IntField, String>> = Vec::new();
    assert(r@.map_values(|o: GateUserTrade<IntField, String>| o@) =~= seq![]);
    match j.as_list() {
        Some(list) => {
            let ghost all = json::items(list@);
            let mut i: usize = 0;
            assert(all.take(0) =~= seq![]);
            while i < list.len()
                invariant
                    i <= list.len(),
                    all.len() == list.len(),
                    forall|k: int| 0 <= k < list.len() ==> #[trigger] all[k] == list@[k]@,
                    r@.map_values(|o: GateUserTrade<IntField, String>| o@) == trades_of(all.take(i as int)),
                decreases list.len() - i,
            {
                push_trades(&mut r, &list[i], Ghost(all.take(i as int)));
                proof {
                    assert(all[i as int] == list@[i as int]@);
                    assert(all.take(i as int).push(all[i as int]) =~= all.take(i + 1));
                }
                i = i + 1;
            }
            assert(all.take(i as int) =~= all);
        },
        None => {
            push_trades(&mut r, j, Ghost(Seq::<JsonView>::empty()));
            assert(Seq::<JsonView>::empty().push(j@) =~= seq![j@]);
        },
    }
    r
}

/// Positions of a result; items that are none are left out.
pub open spec fn positions_of(s: Seq<JsonView>) -> Seq<PositionFields>
    decreases s.len(),
{
    if s.len() == 0 {
        seq![]
    } else {
        let head = positions_of(s.drop_last());
        match gate_types::position_fields(s.last()) {
            Some(x) => head.push(x),
            None => head,
        }
    }
}

fn push_positions(r: &mut Vec<GatePosition<IntField, String>>, j: &Json, Ghost(done): Ghost<Seq<JsonView>>)
    requires
        old(r)@.map_values(|o: GatePosition<IntField, String>| o@) == positions_of(done),
    ensures
        final(r)@.map_values(|o: GatePosition<IntField, String>| o@) == positions_of(done.push(j@)),
{
    let ghost before = r@;
    proof {
        assert(done.push(j@).drop_last() =~= done);
    }
    if let Some(x) = gate_types::read_position(j) {
        r.push(x);
        assert(r@.map_values(|o: GatePosition<IntField, String>| o@) =~= before.map_values(|o: GatePosition<IntField, String>| o@).push(x@));
    }
}

fn read_positions(j: &Json) -> (r: Vec<GatePosition<IntField, String>>)
    ensures
        r@.map_values(|o: GatePosition<IntField, String>| o@) == positions_of(gate_public::items_of(j@)),
{
    let mut r: Vec<GatePosition<IntField, String>> = Vec::new();
    assert(r@.map_values(|o: GatePosition<IntField, String>| o@) =~= seq![]);
    match j.as_list() {
        Some(list) => {
            let ghost all = json::items(list@);
            let mut i: usize = 0;
            assert(all.take(0) =~= seq![]);
            while i < list.len()
                invariant
                    i <= list.len(),
                    all.len() == list.len(),
                    forall|k: int| 0 <= k < list.len() ==> #[trigger] all[k] == list@[k]@,
                    r@.map_values(|o: GatePosition<IntField, String>| o@) == positions_of(all.take(i as int)),
                decreases list.len() - i,
            {
                push_positions(&mut r, &list[i], Ghost(all.take(i as int)));
                proof {
                    assert(all[i as int] == list@[i as int]@);
                    assert(all.take(i as int).push(all[i as int]) =~= all.take(i + 1));
                }
                i = i + 1;
            }
            assert(all.take(i as int) =~= all);
        },
        None => {
            push_positions(&mut r, j, Ghost(Seq::<JsonView>::empty()));
            assert(Seq::<JsonView>::empty().push(j@) =~= seq![j@]);
        },
    }
    r
}

/// Balance changes of a result; items that are none are left out.
pub open spec fn balances_of(s: Seq<JsonView>) -> Seq<RawBalanceView>
    decreases s.len(),
{
    if s.len() == 0 {
        seq![]
    } else {
        let head = balances_of(s.drop_last());
        match balance_fields(s.last()) {
            Some(x) => head.push(x),
            None => head,
        }
    }
}

fn push_balances(r: &mut Vec<RawBalance>, j: &Json, Ghost(done): Ghost<Seq<JsonView>>)
    requires
        old(r)@.map_values(|o: RawBalance| o@) == balances_of(done),
    ensures
        final(r)@.map_values(|o: RawBalance| o@) == balances_of(done.push(j@)),
{
    let ghost before = r@;
    proof {
        assert(done.push(j@).drop_last() =~= done);
    }
    if let Some(x) = read_balance(j) {
        r.push(x);
        assert(r@.map_values(|o: RawBalance| o@) =~= before.map_values(|o: RawBalance| o@).push(x@));
    }
}

fn read_balances(j: &Json) -> (r: Vec<RawBalance>)
    ensures
        r@.map_values(|o: RawBalance| o@) == balances_of(gate_public::items_of(j@)),
{
    let mut r: Vec<RawBalance> = Vec::new();
    assert(r@.map_values(|o: RawBalance| o@) =~= seq![]);
    match j.as_list() {
        Some(list) => {
            let ghost all = json::items(list@);
            let mut i: usize = 0;
            assert(all.take(0) =~= seq![]);
            while i < list.len()
                invariant
                    i <= list.len(),
                    all.len() == list.len(),
                    forall|k: int| 0 <= k < list.len() ==> #[trigger] all[k] == list@[k]@,
                    r@.map_values(|o: RawBalance| o@) == balances_of(all.take(i as int)),
                decreases list.len() - i,
            {
                push_balances(&mut r, &list[i], Ghost(all.take(i as int)));
                proof {
                    assert(all[i as int] == list@[i as int]@);
                    assert(all.take(i as int).push(all[i as int]) =~= all.take(i + 1));
                }
                i = i + 1;
            }
            assert(all.take(i as int) =~= all);
        },
        None => {
            push_balances(&mut r, j, Ghost(Seq::<JsonView>::empty()));
            assert(Seq::<JsonView>::empty().push(j@) =~= seq![j@]);
        },
    }
    r
}

/// What a frame of the private streams says. A position list without positions
/// says nothing.
pub open spec fn private_of(v: JsonView) -> PrivateView {
    let channel = gate_public::name_at(v, "channel"@);
    match v.get("result"@) {
        Some(result) => {
            let s = gate_public::items_of(result);
            if gate_public::name_at(v, "event"@) != "update"@ {
                PrivateView::Nothing
            } else if channel == "futures.orders"@ {
                PrivateView::Orders(orders_of(s))
            } else if channel == "futures.usertrades"@ {
                PrivateView::Trades(trades_of(s))
            } else if channel == "futures.positions"@ {
                if positions_of(s).len() == 0 {
                    PrivateView::Nothing
                } else {
                    PrivateView::Positions(positions_of(s))
                }
            } else if channel == "futures.balances"@ {
                PrivateView::Balances(balances_of(s))
            } else {
                PrivateView::Nothing
            }
        },
        None => PrivateView::Nothing,
    }
}

/// Reads a frame of the private streams.
pub fn parse_private(v: &Json) -> (r: PrivateMessage)
    ensures
        r@ == private_of(v@),
{
    let channel = gate_public::read_name(v, "channel");
    let event = gate_public::read_name(v, "event");
    let result = match v.get("result") {
        Some(x) => x,
        None => return PrivateMessage::Nothing,
    };
    if !text::same(event.as_str(), "update") {
        return PrivateMessage::Nothing;
    }
    if text::same(channel.as_str(), "futures.orders") {
        PrivateMessage::Orders(read_orders(result))
    } else if text::same(channel.as_str(), "futures.usertrades") {
        PrivateMessage::Trades(read_trades(result))
    } else if text::same(channel.as_str(), "futures.positions") {
        let list = read_positions(result);
        let ghost views = list@.map_values(|o: GatePosition<IntField, String>| o@);
        if list.len() == 0 {
            assert(views.len() == 0);
            PrivateMessage::Nothing
        } else {
            assert(views.len() == list.len());
            PrivateMessage::Positions(list)
        }
    } else if text::same(channel.as_str(), "futures.balances") {
        PrivateMessage::Balances(read_balances(result))
    } else {
        PrivateMessage::Nothing
    }
}

/// What the signature of a subscription covers.
pub open spec fn signed_part(channel: Seq<char>, time: i64) -> Seq<char> {
    "channel="@ + channel + "&event=subscribe&time="@ + text::signed_decimal(time as int)
}

/// A signature in writing.
pub open spec fn signature(secret: Seq<char>, message: Seq<char>) -> Seq<char> {
    util::hex_text(
        util::hmac_sha512_of(
            vstd::utf8::encode_utf8(secret),
            vstd::utf8::encode_utf8(message),
        ),
    )
}

/// A signed subscription.
pub open spec fn signed_subscription(
    key: Seq<char>,
    sign: Seq<char>,
    channel: Seq<char>,
    payload: JsonView,
    time: i64,
) -> JsonView {
    JsonView::Object(
        map![
            "time"@ => json::int_tree(time),
            "channel"@ => JsonView::Text(channel),
            "event"@ => JsonView::Text("subscribe"@),
            "payload"@ => payload,
            "auth"@ => JsonView::Object(
                map![
                    "method"@ => JsonView::Text("api_key"@),
                    "KEY"@ => JsonView::Text(key),
                    "SIGN"@ => JsonView::Text(sign),
                ],
            ),
        ],
    )
}

/// A subscription with a given signature.
pub fn authorised(key: &str, sign: &str, channel: &str, payload: Json, time: i64) -> (r: Json)
    requires
        json::within(payload@, (json::MAX_DEPTH - 1) as nat),
    ensures
        r@ == signed_subscription(key@, sign@, channel@, payload@, time),
        json::whole(r@),
{
    let auth = Members::new().with("method", Json::text("api_key")).with("KEY", Json::text(key)).with(
        "SIGN",
        Json::text(sign),
    ).object();
    Members::new().with("time", Json::integer(time)).with("channel", Json::text(channel)).with(
        "event",
        Json::text("subscribe"),
    ).with("payload", payload).with("auth", auth).object()
}

/// A subscription signed with the secret of the account.
pub fn sub_request(key: &str, secret: &str, channel: &str, payload: Json, time: i64) -> (r: Json)
    requires
        json::within(payload@, (json::MAX_DEPTH - 1) as nat),
    ensures
        r@ == signed_subscription(
            key@,
            signature(secret@, signed_part(channel@, time)),
            channel@,
            payload@,
            time,
        ),
        json::whole(r@),
{
    let mut msg = "channel=".to_string();
    msg.append(channel);
    msg.append("&event=subscribe&time=");
    text::push_signed(&mut msg, time);
    assert(msg@ =~= signed_part(channel@, time));
    let sign = util::hmac_sha512_hex(secret, msg.as_str());
    authorised(key, sign.as_str(), channel, payload, time)
}

/// The subscriptions of the private streams; balances are those of the account
/// as a whole, the others those of the contract.
pub open spec fn private_subscriptions(
    key: Seq<char>,
    secret: Seq<char>,
    user_id: i64,
    contract: Seq<char>,
    time: i64,
) -> Seq<JsonView> {
    let uid = text::signed_decimal(user_id as int);
    seq!["futures.orders"@, "futures.usertrades"@, "futures.positions"@, "futures.balances"@].map_values(
        |ch: Seq<char>|
            signed_subscription(
                key,
                signature(secret, signed_part(ch, time)),
                ch,
                gate_public::text_list(
                    if ch == "futures.balances"@ {
                        seq![uid]
                    } else {
                        seq![uid, contract]
                    },
                ),
                time,
            ),
    )
}

fn user_payload(user_id: i64, contract: Option<&str>) -> (r: Json)
    ensures
        r@ == gate_public::text_list(
            match contract {
                Some(c) => seq![text::signed_decimal(user_id as int), c@],
                None => seq![text::signed_decimal(user_id as int)],
            },
        ),
        forall|d: nat| d >= 1 ==> #[trigger] json::within(r@, d),
{
    let mut uid = String::new();
    text::push_signed(&mut uid, user_id);
    assert(uid@ =~= text::signed_decimal(user_id as int));
    let ghost id = uid@;
    let mut v: Vec<String> = Vec::new();
    v.push(uid);
    match contract {
        Some(c) => {
            v.push(c.to_string());
            let r = Json::texts(v);
            assert(v@.map_values(|s: String| JsonView::Text(s@)) =~= seq![id, c@].map_values(
                |t: Seq<char>| JsonView::Text(t),
            ));
            r
        },
        None => {
            let r = Json::texts(v);
            assert(v@.map_values(|s: String| JsonView::Text(s@)) =~= seq![id].map_values(
                |t: Seq<char>| JsonView::Text(t),
            ));
            r
        },
    }
}

/// The subscriptions of the private streams.
pub fn subscribe_private(key: &str, secret: &str, user_id: i64, contract: &str, time: i64) -> (r:
    Vec<Json>)
    ensures
        r@.map_values(|j: Json| j@) == private_subscriptions(
            key@,
            secret@,
            user_id,
            contract@,
            time,
        ),
        forall|i: int| 0 <= i < r.len() ==> json::whole((#[trigger] r@[i])@),
{
    proof {
        reveal_strlit("futures.orders");
        reveal_strlit("futures.usertrades");
        reveal_strlit("futures.positions");
        reveal_strlit("futures.balances");
        assert("futures.orders"@[8] == 'o');
        assert("futures.usertrades"@[8] == 'u');
        assert("futures.positions"@[8] == 'p');
        assert("futures.balances"@[8] == 'b');
    }
    let mut r: Vec<Json> = Vec::new();
    r.push(sub_request(key, secret, "futures.orders", user_payload(user_id, Some(contract)), time));
    r.push(
        sub_request(key, secret, "futures.usertrades", user_payload(user_id, Some(contract)), time),
    );
    r.push(
        sub_request(key, secret, "futures.positions", user_payload(user_id, Some(contract)), time),
    );
    r.push(sub_request(key, secret, "futures.balances", user_payload(user_id, None), time));
    assert(r@.map_values(|j: Json| j@) =~= private_subscriptions(
        key@,
        secret@,
        user_id,
        contract@,
        time,
    ));
    r
}

} // verus!
