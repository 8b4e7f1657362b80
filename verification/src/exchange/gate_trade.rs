//! Gate futures trading over the websocket API.
//!
//! - `ack` frames are not final results; only the frame that carries the result
//!   or the errors resolves a request.
//! - When the socket drops with requests outstanding, every one of them is
//!   resolved as `UNKNOWN`, so the order manager asks instead of assuming.
//! - Queries and cancel-all always go over REST.
//! - Placing, amending and cancelling are spread over several sessions.

use vstd::prelude::*;

use crate::exchange::gate_private;
use crate::exchange::gate_types;
use crate::exchange::gate_types::{GateOrder, IntField, OrderFields};
use crate::exchange::json;
use crate::exchange::json::{Json, JsonView, Members};
use crate::order::model::{
    CommandView, ExecCommand, ExecResponse, ExecResult, ResponseView, ResultView, Tif,
};
use crate::text;
use crate::time;
use crate::time::{Duration, Instant};
use crate::types::{Side, TickGrid, Ticks};
use crate::util;

verus! {

/// A command on its way to an executor, with the side of the order it is about.
#[derive(Debug, Clone, PartialEq)]
pub struct TradeCommand {
    pub cmd: ExecCommand,
    pub side: Side,
}

/// A command on its way, as plain values.
pub ghost struct TradeView {
    pub cmd: CommandView,
    pub side: Side,
}

impl View for TradeCommand {
    type V = TradeView;

    open spec fn view(&self) -> TradeView {
        TradeView { cmd: self.cmd@, side: self.side }
    }
}

/// The commands of a list, as plain values.
pub open spec fn trade_views(cmds: Seq<TradeCommand>) -> Seq<TradeView> {
    cmds.map_values(|c: TradeCommand| c@)
}


/// Time after which a request without a final answer is given up (seconds).
pub const RESPONSE_TIMEOUT_SECS: u64 = 5;

/// What the signature of a login covers.
pub open spec fn login_part(time: i64) -> Seq<char> {
    "api\nfutures.login\n\n"@ + text::signed_decimal(time as int)
}

/// A login with a given signature.
pub open spec fn login(key: Seq<char>, sign: Seq<char>, time: i64) -> JsonView {
    JsonView::Object(
        map![
            "time"@ => json::int_tree(time),
            "channel"@ => JsonView::Text("futures.login"@),
            "event"@ => JsonView::Text("api"@),
            "payload"@ => JsonView::Object(
                map![
                    "api_key"@ => JsonView::Text(key),
                    "headers"@ => JsonView::Object(
                        map!["X-Gate-Channel-Id"@ => JsonView::Text("stock_mm"@)],
                    ),
                    "signature"@ => JsonView::Text(sign),
                    "timestamp"@ => JsonView::Text(text::signed_decimal(time as int)),
                    "req_id"@ => JsonView::Text("login-1"@),
                ],
            ),
        ],
    )
}

/// A login with a given signature.
pub fn login_with(key: &str, sign: &str, time: i64) -> (r: Json)
    ensures
        r@ == login(key@, sign@, time),
        json::whole(r@),
{
    let mut stamp = String::new();
    text::push_signed(&mut stamp, time);
    assert(stamp@ =~= text::signed_decimal(time as int));
    let headers = Members::new().with("X-Gate-Channel-Id", Json::text("stock_mm")).object();
    let payload = Members::new().with("api_key", Json::text(key)).with("headers", headers).with(
        "signature",
        Json::text(sign),
    ).with("timestamp", Json::text(stamp.as_str())).with("req_id", Json::text("login-1")).object();
    Members::new().with("time", Json::integer(time)).with(
        "channel",
        Json::text("futures.login"),
    ).with("event", Json::text("api")).with("payload", payload).object()
}

/// The login of a session, signed with the secret of the account.
pub fn login_request(key: &str, secret: &str, time: i64) -> (r: Json)
    ensures
        r@ == login(key@, gate_private::signature(secret@, login_part(time)), time),
        json::whole(r@),
{
    let mut msg = "api\nfutures.login\n\n".to_string();
    text::push_signed(&mut msg, time);
    assert(msg@ =~= login_part(time));
    let sign = util::hmac_sha512_hex(secret, msg.as_str());
    login_with(key, sign.as_str(), time)
}

/// Contracts with the sign of the side.
pub open spec fn signed_size(size: i64, side: Side) -> int {
    match side {
        Side::Buy => size as int,
        Side::Sell => -size,
    }
}

pub(crate) fn with_sign(size: i64, side: Side) -> (r: i64)
    requires
        size > i64::MIN,
    ensures
        r == signed_size(size, side),
{
    match side {
        Side::Buy => size,
        Side::Sell => -size,
    }
}

/// The sizes of a command can be signed and its price can be written.
pub open spec fn writable(c: CommandView, grid: TickGrid) -> bool {
    match c {
        CommandView::Place { size, price, .. } => size > i64::MIN && (price matches Some(p)
            ==> grid.shows(p)),
        CommandView::Amend { size, price, .. } => (size matches Some(s) ==> s > i64::MIN) && (
        price matches Some(p) ==> grid.shows(p)),
        _ => true,
    }
}

/// Whether the sizes of a command can be signed and its price can be written.
pub fn can_write(cmd: &ExecCommand, grid: &TickGrid) -> (r: bool)
    requires
        grid.wf(),
    ensures
        r == writable(cmd@, *grid),
{
    match cmd {
        ExecCommand::Place { size, price, .. } => *size > i64::MIN && (match price {
            Some(p) => grid.can_show(*p),
            None => true,
        }),
        ExecCommand::Amend { size, price, .. } => (match size {
            Some(s) => *s > i64::MIN,
            None => true,
        }) && (match price {
            Some(p) => grid.can_show(*p),
            None => true,
        }),
        _ => true,
    }
}

/// The wire name of a time in force.
pub open spec fn tif_name(tif: Tif) -> Seq<char> {
    match tif {
        Tif::Poc => "poc"@,
        Tif::Ioc => "ioc"@,
        Tif::Gtc => "gtc"@,
    }
}

/// The price of an order on the wire; a market order has price zero.
pub open spec fn wire_price(price: Option<Ticks>, grid: TickGrid) -> Seq<char> {
    match price {
        Some(p) => grid.wire(p),
        None => "0"@,
    }
}

/// The description of a new order.
pub open spec fn order_param(
    contract: Seq<char>,
    client_id: Seq<char>,
    side: Side,
    size: i64,
    price: Seq<char>,
    tif: Tif,
    reduce_only: bool,
) -> Map<Seq<char>, JsonView> {
    let p = map![
        "contract"@ => JsonView::Text(contract),
        "size"@ => json::int_tree(signed_size(size, side) as i64),
        "price"@ => JsonView::Text(price),
        "tif"@ => JsonView::Text(tif_name(tif)),
        "text"@ => JsonView::Text(client_id),
    ];
    if reduce_only {
        p.insert("reduce_only"@, JsonView::Bool(true))
    } else {
        p
    }
}

/// The description of a new order.
pub(crate) fn describe_order(
    contract: &str,
    client_id: &str,
    side: Side,
    size: i64,
    price: &str,
    tif: Tif,
    reduce_only: bool,
) -> (r: Json)
    requires
        size > i64::MIN,
    ensures
        r@ == JsonView::Object(
            order_param(contract@, client_id@, side, size, price@, tif, reduce_only),
        ),
        forall|d: nat| d >= 1 ==> #[trigger] json::within(r@, d),
{
    let p = Members::new().with("contract", Json::text(contract)).with(
        "size",
        Json::integer(with_sign(size, side)),
    ).with("price", Json::text(price)).with("tif", Json::text(tif.as_gate())).with(
        "text",
        Json::text(client_id),
    );
    if reduce_only {
        let yes = Json::Bool(true);
        p.with("reduce_only", yes).object()
    } else {
        p.object()
    }
}

/// What changes with an amend: the price, the signed total size, or both.
pub open spec fn changes(
    base: Map<Seq<char>, JsonView>,
    price: Option<Ticks>,
    size: Option<i64>,
    side: Side,
    grid: TickGrid,
) -> Map<Seq<char>, JsonView> {
    let p = match price {
        Some(t) => base.insert("price"@, JsonView::Text(grid.wire(t))),
        None => base,
    };
    match size {
        Some(s) => p.insert("size"@, json::int_tree(signed_size(s, side) as i64)),
        None => p,
    }
}

pub(crate) fn with_changes(
    base: Members,
    price: Option<Ticks>,
    size: Option<i64>,
    side: Side,
    grid: &TickGrid,
) -> (r: Json)
    requires
        grid.wf(),
        price matches Some(p) ==> grid.shows(p),
        size matches Some(s) ==> s > i64::MIN,
    ensures
        r@ == JsonView::Object(changes(base@, price, size, side, *grid)),
        forall|d: nat|
            d >= 1 && json::within(JsonView::Object(base@), d) ==> #[trigger] json::within(r@, d),
{
    let p = match price {
        Some(t) => base.with("price", Json::text(grid.to_string(t).as_str())),
        None => base,
    };
    let q = match size {
        Some(s) => p.with("size", Json::integer(with_sign(s, side))),
        None => p,
    };
    q.object()
}

/// Channel and parameters of a command; none for those that go over REST.
pub open spec fn api_param(contract: Seq<char>, grid: TickGrid, c: CommandView, side: Side) -> Option<
    (Seq<char>, JsonView),
> {
    match c {
        CommandView::Place { req_id, client_id, side, size, price, tif, reduce_only } => Some(
            (
                "futures.order_place"@,
                JsonView::Object(
                    order_param(
                        contract,
                        client_id,
                        side,
                        size,
                        wire_price(price, grid),
                        tif,
                        reduce_only,
                    ),
                ),
            ),
        ),
        CommandView::Amend { req_id, exchange_id, client_id, price, size } => Some(
            (
                "futures.order_amend"@,
                JsonView::Object(
                    changes(
                        map!["order_id"@ => JsonView::Text(exchange_id)],
                        price,
                        size,
                        side,
                        grid,
                    ),
                ),
            ),
        ),
        CommandView::Cancel { req_id, exchange_id, client_id } => Some(
            (
                "futures.order_cancel"@,
                JsonView::Object(
                    map!["order_id"@ => JsonView::Text(
                        match exchange_id {
                            Some(e) => e,
                            None => client_id,
                        },
                    )],
                ),
            ),
        ),
        CommandView::Query { .. } => None,
        CommandView::CancelAll { .. } => None,
    }
}

/// A request to the trading API.
pub open spec fn api_frame(time: i64, channel: Seq<char>, req_id: Seq<char>, param: JsonView) -> JsonView {
    JsonView::Object(
        map![
            "time"@ => json::int_tree(time),
            "channel"@ => JsonView::Text(channel),
            "event"@ => JsonView::Text("api"@),
            "payload"@ => JsonView::Object(
                map!["req_id"@ => JsonView::Text(req_id), "req_param"@ => param],
            ),
        ],
    )
}

fn frame(time: i64, channel: &str, req_id: &str, param: Json) -> (r: Json)
    requires
        json::within(param@, (json::MAX_DEPTH - 2) as nat),
    ensures
        r@ == api_frame(time, channel@, req_id@, param@),
        json::whole(r@),
{
    let payload = Members::new().with("req_id", Json::text(req_id)).with(
        "req_param",
        param,
    ).object();
    Members::new().with("time", Json::integer(time)).with("channel", Json::text(channel)).with(
        "event",
        Json::text("api"),
    ).with("payload", payload).object()
}

/// The request that carries a command over the websocket API; none for those
/// that go over REST. `side` signs the size of an amend.
pub fn api_request(contract: &str, grid: &TickGrid, cmd: &ExecCommand, side: Side, time: i64) -> (r:
    Option<Json>)
    requires
        grid.wf(),
        writable(cmd@, *grid),
    ensures
        match r {
            Some(j) => {
                &&& json::whole(j@)
                &&& api_param(contract@, *grid, cmd@, side) matches Some((channel, param)) && j@
                    == api_frame(time, channel, cmd@.req(), param)
            },
            None => api_param(contract@, *grid, cmd@, side) is None,
        },
{
    match cmd {
        ExecCommand::Place { req_id, client_id, side, size, price, tif, reduce_only } => {
            let wire = match price {
                Some(p) => grid.to_string(*p),
                None => "0".to_string(),
            };
            let param = describe_order(
                contract,
                client_id.as_str(),
                *side,
                *size,
                wire.as_str(),
                *tif,
                *reduce_only,
            );
            Some(frame(time, "futures.order_place", req_id.as_str(), param))
        },
        ExecCommand::Amend { req_id, exchange_id, client_id, price, size } => {
            let base = Members::new().with("order_id", Json::text(exchange_id.as_str()));
            let param = with_changes(base, *price, *size, side, grid);
            Some(frame(time, "futures.order_amend", req_id.as_str(), param))
        },
        ExecCommand::Cancel { req_id, exchange_id, client_id } => {
            let id = match exchange_id {
                Some(e) => e.as_str(),
                None => client_id.as_str(),
            };
            let param = Members::new().with("order_id", Json::text(id)).object();
            Some(frame(time, "futures.order_cancel", req_id.as_str(), param))
        },
        _ => None,
    }
}

/// Status in the header of a frame; zero where there is none.
pub open spec fn status_of(v: JsonView) -> u16 {
    match v.get("header"@) {
        Some(h) => match h.get("status"@) {
            Some(JsonView::Text(s)) => match text::u16_of(s) {
                Some(n) => n,
                None => 0,
            },
            Some(JsonView::Number(_, _, u)) => match u {
                Some(x) => x as u16,
                None => 0,
            },
            _ => 0,
        },
        None => 0,
    }
}

/// Status in the header of a frame; zero where there is none.
pub fn header_status(v: &Json) -> (r: u16)
    ensures
        r == status_of(v@),
{
    match v.get("header") {
        Some(h) => match h.get("status") {
            Some(Json::Text(s)) => match text::read_u16(s.as_str()) {
                Some(n) => n,
                None => 0,
            },
            Some(Json::Number(n)) => match n.unsigned {
                Some(x) => x as u16,
                None => 0,
            },
            _ => 0,
        },
        None => 0,
    }
}

/// The final answer to a request.
#[derive(Debug)]
pub enum ApiReply {
    Refused { label: String, message: String },
    Order(GateOrder<IntField, String>),
}

/// The final answer to a request, as plain values.
pub ghost enum ReplyView {
    Refused { label: Seq<char>, message: Seq<char> },
    Order(OrderFields),
}

impl View for ApiReply {
    type V = ReplyView;

    open spec fn view(&self) -> ReplyView {
        match *self {
            ApiReply::Refused { label, message } => ReplyView::Refused {
                label: label@,
                message: message@,
            },
            ApiReply::Order(o) => ReplyView::Order(o@),
        }
    }
}

/// A refusal, described by `j`.
pub open spec fn refusal(j: JsonView) -> ReplyView {
    ReplyView::Refused {
        label: match j.text_at("label"@) {
            Some(s) => s,
            None => "ERROR"@,
        },
        message: match j.text_at("message"@) {
            Some(s) => s,
            None => seq![],
        },
    }
}

fn read_refusal(j: &Json) -> (r: ApiReply)
    ensures
        r@ == refusal(j@),
{
    let label = match j.text_at("label") {
        Some(s) => s.to_string(),
        None => "ERROR".to_string(),
    };
    let message = match j.text_at("message") {
        Some(s) => s.to_string(),
        None => {
            let r = String::new();
            assert(r@ =~= seq![]);
            r
        },
    };
    ApiReply::Refused { label, message }
}

/// What a frame of the trading API answers: the request and the final reply.
/// Acks and unrelated frames answer nothing.
pub open spec fn api_reply(v: JsonView) -> Option<(Seq<char>, ReplyView)> {
    match (v.text_at("request_id"@), v.get("data"@)) {
        (Some(id), Some(data)) => if v.flag("ack"@) {
            None
        } else if data.get("errs"@) matches Some(e) && e != JsonView::Null {
            Some((id, refusal(data.get("errs"@)->0)))
        } else {
            match data.get("result"@) {
                Some(result) => if status_of(v) != 200 && status_of(v) != 0 {
                    Some((id, refusal(result)))
                } else {
                    match gate_types::order_fields(result) {
                        Some(o) => Some((id, ReplyView::Order(o))),
                        None => None,
                    }
                },
                None => None,
            }
        },
        _ => None,
    }
}

/// Reads a frame of the trading API.
pub fn parse_api_response(v: &Json) -> (r: Option<(String, ApiReply)>)
    ensures
        match r {
            Some((id, reply)) => api_reply(v@) == Some((id@, reply@)),
            None => api_reply(v@) is None,
        },
{
    let id = match v.text_at("request_id") {
        Some(s) => s.to_string(),
        None => return None,
    };
    if v.flag("ack") {
        return None;
    }
    let data = match v.get("data") {
        Some(d) => d,
        None => return None,
    };
    if let Some(errs) = data.get("errs") {
        if !errs.is_null() {
            return Some((id, read_refusal(errs)));
        }
    }
    let status: u16 = header_status(v);
    let result = match data.get("result") {
        Some(x) => x,
        None => return None,
    };
    if status != 200 && status != 0 {
        return Some((id, read_refusal(result)));
    }
    match gate_types::read_order(result) {
        Some(o) => Some((id, ApiReply::Order(o))),
        None => None,
    }
}

/// A successful answer under the name of its command.
pub open spec fn relabelled(r: ResultView, c: CommandView) -> ResultView {
    match (r, c) {
        (ResultView::Placed(i), CommandView::Amend { .. }) => ResultView::Amended(i),
        (ResultView::Placed(i), CommandView::Cancel { .. }) => ResultView::Cancelled(i),
        _ => r,
    }
}

/// Gives a successful answer the name of its command.
pub fn relabel(result: ExecResult, cmd: &ExecCommand) -> (r: ExecResult)
    ensures
        r@ == relabelled(result@, cmd@),
{
    match (result, cmd) {
        (ExecResult::Placed(i), ExecCommand::Amend { .. }) => ExecResult::Amended(i),
        (ExecResult::Placed(i), ExecCommand::Cancel { .. }) => ExecResult::Cancelled(i),
        (r, _) => r,
    }
}

/// What a frame says of the login: accepted, rejected, or nothing.
pub open spec fn login_verdict(v: JsonView) -> Option<bool> {
    if v.text_at("request_id"@) == Some("login-1"@) {
        Some(status_of(v) == 200)
    } else {
        None
    }
}

/// Whether a frame accepts or rejects the login; none where it is about
/// something else.
pub fn login_outcome(v: &Json) -> (r: Option<bool>)
    ensures
        r == login_verdict(v@),
{
    match v.text_at("request_id") {
        Some(id) => if text::same(id, "login-1") {
            Some(header_status(v) == 200)
        } else {
            None
        },
        None => None,
    }
}

/// Slot `k` places after `start`, going round.
pub open spec fn slot_after(n: nat, start: int, k: int) -> int {
    (start + k) % (n as int)
}

proof fn lemma_every_slot(n: nat, start: int, i: int)
    requires
        0 <= i < n,
    ensures
        0 <= (i - start) % (n as int) < n,
        slot_after(n, start, (i - start) % (n as int)) == i,
{
    vstd::arithmetic::div_mod::lemma_mod_bound(i - start, n as int);
    vstd::arithmetic::div_mod::lemma_add_mod_noop_right(start, i - start, n as int);
    vstd::arithmetic::div_mod::lemma_small_mod(i as nat, n);
}

/// First live slot at or after `start`, wrapping around; none if every slot is
/// down.
pub fn next_live_slot(live: &[bool], start: usize) -> (r: Option<usize>)
    requires
        start + live@.len() <= usize::MAX,
    ensures
        match r {
            Some(i) => exists|k: int|
                {
                    &&& 0 <= k < live@.len()
                    &&& i == #[trigger] slot_after(live@.len(), start as int, k)
                    &&& live@[i as int]
                    &&& forall|j: int|
                        0 <= j < k ==> !live@[#[trigger] slot_after(
                            live@.len(),
                            start as int,
                            j,
                        )]
                },
            None => forall|i: int| 0 <= i < live@.len() ==> !#[trigger] live@[i],
        },
{
    let n: usize = live.len();
    let mut k: usize = 0;
    while k < n
        invariant
            n == live@.len(),
            start + n <= usize::MAX,
            k <= n,
            forall|j: int|
                0 <= j < k ==> !live@[#[trigger] slot_after(live@.len(), start as int, j)],
        decreases n - k,
    {
        let i: usize = (start + k) % n;
        assert(i == slot_after(live@.len(), start as int, k as int));
        if live[i] {
            return Some(i);
        }
        k = k + 1;
    }
    proof {
        assert forall|i: int| 0 <= i < live@.len() implies !#[trigger] live@[i] by {
            lemma_every_slot(live@.len(), start as int, i);
        }
    }
    None
}

/// Number of live slots.
pub open spec fn live_count(live: Seq<bool>) -> nat
    decreases live.len(),
{
    if live.len() == 0 {
        0
    } else {
        live_count(live.drop_last()) + (if live.last() {
            1nat
        } else {
            0nat
        })
    }
}

proof fn lemma_live_update(live: Seq<bool>, i: int, v: bool)
    requires
        0 <= i < live.len(),
    ensures
        live_count(live.update(i, v)) == live_count(live) + (if v {
            1int
        } else {
            0
        }) - (if live[i] {
            1int
        } else {
            0
        }),
    decreases live.len(),
{
    if i == live.len() - 1 {
        assert(live.update(i, v).drop_last() =~= live.drop_last());
    } else {
        assert(live.update(i, v).drop_last() =~= live.drop_last().update(i, v));
        lemma_live_update(live.drop_last(), i, v);
    }
}

proof fn lemma_live_bounds(live: Seq<bool>)
    ensures
        live_count(live) <= live.len(),
        (forall|i: int| 0 <= i < live.len() ==> !#[trigger] live[i]) ==> live_count(live) == 0,
    decreases live.len(),
{
    if live.len() > 0 {
        lemma_live_bounds(live.drop_last());
        if forall|i: int| 0 <= i < live.len() ==> !#[trigger] live[i] {
            assert forall|i: int| 0 <= i < live.drop_last().len() implies !#[trigger] live.drop_last()[i] by {
                assert(!live[i]);
            }
            assert(!live[live.len() - 1]);
        }
    }
}

/// Which slots of a pool of sessions are live, and where the next command goes.
#[derive(Debug, Clone)]
pub struct Pool {
    live: Vec<bool>,
    live_n: usize,
    next: usize,
}

/// A pool as plain values.
pub ghost struct PoolView {
    pub live: Seq<bool>,
    pub next: int,
}

impl View for Pool {
    type V = PoolView;

    closed spec fn view(&self) -> PoolView {
        PoolView { live: self.live@, next: self.next as int }
    }
}

impl PoolView {
    /// Some slot is live.
    pub open spec fn connected(self) -> bool {
        live_count(self.live) > 0
    }

    /// A slot comes or goes. A change of the pool as a whole is to be published.
    pub open spec fn with_status(self, slot: usize, connected: bool) -> (PoolView, Option<bool>) {
        if slot >= self.live.len() || self.live[slot as int] == connected {
            (self, None)
        } else {
            let p = PoolView { live: self.live.update(slot as int, connected), ..self };
            (
                p,
                if p.connected() != self.connected() {
                    Some(p.connected())
                } else {
                    None
                },
            )
        }
    }

    /// The live slots among the first `k`, from the next one round.
    pub open spec fn candidates_to(self, k: nat) -> Seq<usize>
        decreases k,
    {
        if k == 0 {
            seq![]
        } else {
            let i = slot_after(self.live.len(), self.next, k - 1);
            if self.live[i] {
                self.candidates_to((k - 1) as nat).push(i as usize)
            } else {
                self.candidates_to((k - 1) as nat)
            }
        }
    }

    /// The live slots in the order in which they are tried.
    pub open spec fn candidates(self) -> Seq<usize> {
        self.candidates_to(self.live.len())
    }

    /// The slot after `slot` is next.
    pub open spec fn past(self, slot: int) -> PoolView {
        PoolView {
            next: if self.live.len() == 0 {
                self.next
            } else {
                slot_after(self.live.len(), slot, 1)
            },
            ..self
        }
    }
}

impl Pool {
    pub closed spec fn wf(self) -> bool {
        &&& self.live_n == live_count(self.live@)
        &&& self.next <= self.live@.len()
        &&& 2 * self.live@.len() <= usize::MAX
    }

    /// A pool of `n` slots, all down.
    pub fn new(n: usize) -> (r: Pool)
        requires
            2 * n <= usize::MAX,
        ensures
            r.wf(),
            r@ == (PoolView { live: Seq::new(n as nat, |i: int| false), next: 0 }),
    {
        let mut live: Vec<bool> = Vec::new();
        let mut i: usize = 0;
        while i < n
            invariant
                i <= n,
                live@ =~= Seq::new(i as nat, |j: int| false),
            decreases n - i,
        {
            live.push(false);
            i = i + 1;
        }
        proof {
            lemma_live_bounds(live@);
        }
        Pool { live, live_n: 0, next: 0 }
    }

    /// Takes note of a slot that comes or goes. Some slot being live is the
    /// state of the trading feed: where it changes, the new state is returned.
    pub fn set_status(&mut self, slot: usize, connected: bool) -> (r: Option<bool>)
        requires
            old(self).wf(),
        ensures
            final(self).wf(),
            (final(self)@, r) == old(self)@.with_status(slot, connected),
    {
        if slot >= self.live.len() || self.live[slot] == connected {
            return None;
        }
        let before = self.live_n > 0;
        proof {
            lemma_live_update(self.live@, slot as int, connected);
            lemma_live_bounds(self.live@);
            lemma_live_bounds(self.live@.update(slot as int, connected));
        }
        self.live.set(slot, connected);
        if connected {
            self.live_n = self.live_n + 1;
        } else {
            self.live_n = self.live_n - 1;
        }
        let after = self.live_n > 0;
        if after != before {
            Some(after)
        } else {
            None
        }
    }

    /// The live slots in the order in which a command is offered to them.
    pub fn candidates(&self) -> (r: Vec<usize>)
        requires
            self.wf(),
        ensures
            r@ == self@.candidates(),
    {
        let n: usize = self.live.len();
        let mut out: Vec<usize> = Vec::new();
        let mut k: usize = 0;
        while k < n
            invariant
                self.wf(),
                n == self.live@.len(),
                k <= n,
                out@ == self@.candidates_to(k as nat),
            decreases n - k,
        {
            let i: usize = (self.next + k) % n;
            assert(i == slot_after(self@.live.len(), self@.next, k as int));
            if self.live[i] {
                out.push(i);
            }
            k = k + 1;
        }
        out
    }

    /// The command went to `slot`.
    pub fn sent(&mut self, slot: usize)
        requires
            old(self).wf(),
            slot < old(self)@.live.len(),
        ensures
            final(self).wf(),
            final(self)@ == old(self)@.past(slot as int),
    {
        let n: usize = self.live.len();
        self.next = (slot + 1) % n;
    }

    /// No slot took the command: it goes over REST.
    pub fn missed(&mut self)
        requires
            old(self).wf(),
        ensures
            final(self).wf(),
            final(self)@ == old(self)@.past(old(self)@.next),
    {
        let n: usize = self.live.len();
        if n > 0 {
            self.next = (self.next + 1) % n;
        }
    }
}

/// A command is offered to live slots only, to each of them, and to none twice.
pub proof fn every_live_slot_is_tried_once(p: PoolView, slot: usize)
    requires
        slot < p.live.len(),
        p.live.len() <= usize::MAX,
    ensures
        p.candidates().contains(slot) <==> p.live[slot as int],
        p.candidates().no_duplicates(),
{
    let n = p.live.len();
    lemma_candidates(p, n);
    if p.live[slot as int] {
        lemma_every_slot(n, p.next, slot as int);
        let k = (slot - p.next) % (n as int);
        assert(slot_after(n, p.next, k) == slot);
        let j = choose|j: int|
            0 <= j < p.candidates().len() && #[trigger] p.candidates()[j] == slot_after(
                n,
                p.next,
                k,
            );
        assert(p.candidates()[j] == slot);
    } else if p.candidates().contains(slot) {
        let j = choose|j: int| 0 <= j < p.candidates().len() && p.candidates()[j] == slot;
        assert(p.live[p.candidates()[j] as int]);
    }
}

proof fn lemma_candidates(p: PoolView, k: nat)
    requires
        k <= p.live.len() <= usize::MAX,
    ensures
        forall|j: int|
            0 <= j < p.candidates_to(k).len() ==> {
                &&& (#[trigger] p.candidates_to(k)[j]) < p.live.len()
                &&& p.live[p.candidates_to(k)[j] as int]
                &&& 0 <= (p.candidates_to(k)[j] - p.next) % (p.live.len() as int) < k
            },
        forall|m: int|
            #![trigger slot_after(p.live.len(), p.next, m)]
            0 <= m < k && p.live[slot_after(p.live.len(), p.next, m)] ==> exists|j: int|
                0 <= j < p.candidates_to(k).len() && #[trigger] p.candidates_to(k)[j] == slot_after(
                    p.live.len(),
                    p.next,
                    m,
                ),
        p.candidates_to(k).no_duplicates(),
    decreases k,
{
    if k > 0 {
        let n = p.live.len();
        let prev = p.candidates_to((k - 1) as nat);
        lemma_candidates(p, (k - 1) as nat);
        let i = slot_after(n, p.next, k - 1);
        vstd::arithmetic::div_mod::lemma_mod_bound(p.next + k - 1, n as int);
        assert((i - p.next) % (n as int) == k - 1) by {
            vstd::arithmetic::div_mod::lemma_sub_mod_noop(
                p.next + k - 1,
                p.next,
                n as int,
            );
            vstd::arithmetic::div_mod::lemma_sub_mod_noop(i, p.next, n as int);
            vstd::arithmetic::div_mod::lemma_small_mod((k - 1) as nat, n);
            vstd::arithmetic::div_mod::lemma_small_mod(i as nat, n);
        }
        let cur = p.candidates_to(k);
        if p.live[i] {
            assert(cur[prev.len() as int] == i);
            assert forall|m: int|
                #![trigger slot_after(n, p.next, m)]
                0 <= m < k && p.live[slot_after(n, p.next, m)] implies exists|j: int|
                0 <= j < cur.len() && #[trigger] cur[j] == slot_after(n, p.next, m) by {
                if m < k - 1 {
                    let j = choose|j: int|
                        0 <= j < prev.len() && #[trigger] prev[j] == slot_after(n, p.next, m);
                    assert(cur[j] == slot_after(n, p.next, m));
                }
            }
        }
    }
}

/// A request that waits for its final answer.
#[derive(Debug, Clone)]
pub struct Outstanding {
    pub req_id: String,
    pub cmd: TradeCommand,
    pub since: Instant,
}

/// A request that waits, as plain values.
pub ghost struct OutstandingView {
    pub req_id: Seq<char>,
    pub cmd: TradeView,
    pub since: Instant,
}

impl View for Outstanding {
    type V = OutstandingView;

    open spec fn view(&self) -> OutstandingView {
        OutstandingView { req_id: self.req_id@, cmd: self.cmd@, since: self.since }
    }
}

/// The waiting requests, as plain values.
pub open spec fn waiting(s: Seq<Outstanding>) -> Seq<OutstandingView> {
    s.map_values(|o: Outstanding| o@)
}

/// The answers of a list, as plain values.
pub open spec fn response_views(s: Seq<ExecResponse>) -> Seq<ResponseView> {
    s.map_values(|r: ExecResponse| r@)
}

/// Place of a request among those that wait.
pub open spec fn place_of(s: Seq<OutstandingView>, id: Seq<char>) -> Option<int>
    decreases s.len(),
{
    if s.len() == 0 {
        None
    } else if s[0].req_id == id {
        Some(0)
    } else {
        match place_of(s.skip(1), id) {
            Some(i) => Some(i + 1),
            None => None,
        }
    }
}

/// The waiting requests without one of them.
pub open spec fn without(s: Seq<OutstandingView>, id: Seq<char>) -> Seq<OutstandingView> {
    match place_of(s, id) {
        Some(i) => s.remove(i),
        None => s,
    }
}

/// A request has waited for too long.
pub open spec fn overdue(o: OutstandingView, now: Instant) -> bool {
    time::elapsed(o.since, now).nanos > time::spec_from_secs(RESPONSE_TIMEOUT_SECS).nanos
}

/// The answer that nobody knows what became of a request.
pub open spec fn unknown(id: Seq<char>, message: Seq<char>, at: Instant) -> ResponseView {
    ResponseView { req_id: id, result: ResultView::Error { label: "UNKNOWN"@, message }, at }
}

/// Requests that go on waiting, and the answers to those that do not.
pub open spec fn swept(s: Seq<OutstandingView>, now: Instant) -> (
    Seq<OutstandingView>,
    Seq<ResponseView>,
)
    decreases s.len(),
{
    if s.len() == 0 {
        (seq![], seq![])
    } else {
        let (kept, given) = swept(s.drop_last(), now);
        let o = s.last();
        if overdue(o, now) {
            (kept, given.push(unknown(o.cmd.cmd.req(), "ws response timeout"@, now)))
        } else {
            (kept.push(o), given)
        }
    }
}

/// The requests of a session that wait for their final answers.
#[derive(Debug, Clone)]
pub struct Pending {
    entries: Vec<Outstanding>,
}

impl View for Pending {
    type V = Seq<OutstandingView>;

    closed spec fn view(&self) -> Seq<OutstandingView> {
        waiting(self.entries@)
    }
}

proof fn lemma_place(s: Seq<OutstandingView>, id: Seq<char>, i: int)
    requires
        0 <= i <= s.len(),
        forall|j: int| 0 <= j < i ==> (#[trigger] s[j]).req_id != id,
        i < s.len() ==> s[i].req_id == id,
    ensures
        place_of(s, id) == (if i < s.len() {
            Some(i)
        } else {
            None
        }),
    decreases s.len(),
{
    if s.len() > 0 && i > 0 {
        assert(s[0].req_id != id);
        assert forall|j: int| 0 <= j < i - 1 implies (#[trigger] s.skip(1)[j]).req_id != id by {
            assert(s[j + 1].req_id != id);
        }
        lemma_place(s.skip(1), id, i - 1);
    }
}

/// Resolves a request whose fate is not known, so that the order manager asks.
pub fn give_up(req_id: &str, message: &str, at: Instant) -> (r: ExecResponse)
    ensures
        r@ == unknown(req_id@, message@, at),
{
    ExecResponse {
        req_id: req_id.to_string(),
        result: ExecResult::Error { label: "UNKNOWN".to_string(), message: message.to_string() },
        at,
    }
}

impl Pending {
    /// Nothing waits.
    pub fn new() -> (r: Pending)
        ensures
            r@ == Seq::<OutstandingView>::empty(),
    {
        let r = Pending { entries: Vec::new() };
        assert(r@ =~= Seq::<OutstandingView>::empty());
        r
    }

    fn take(&mut self, req_id: &str) -> (r: Option<Outstanding>)
        ensures
            final(self)@ == without(old(self)@, req_id@),
            match r {
                Some(o) => place_of(old(self)@, req_id@) matches Some(i) && 0 <= i < old(
                    self,
                )@.len() && o@ == old(self)@[i] && o.req_id@ == req_id@,
                None => place_of(old(self)@, req_id@) is None,
            },
    {
        let mut i: usize = 0;
        while i < self.entries.len()
            invariant
                *self == *old(self),
                i <= self.entries@.len(),
                forall|j: int| 0 <= j < i ==> (#[trigger] self@[j]).req_id != req_id@,
            decreases self.entries@.len() - i,
        {
            assert(self@[i as int] == self.entries@[i as int]@);
            if text::same(self.entries[i].req_id.as_str(), req_id) {
                proof {
                    lemma_place(self@, req_id@, i as int);
                }
                let o = self.entries.remove(i);
                assert(self@ =~= old(self)@.remove(i as int));
                return Some(o);
            }
            i = i + 1;
        }
        proof {
            lemma_place(self@, req_id@, i as int);
        }
        None
    }

    /// A request was sent; it replaces one of the same name.
    pub fn insert(&mut self, req_id: &str, cmd: TradeCommand, now: Instant)
        ensures
            final(self)@ == without(old(self)@, req_id@).push(
                OutstandingView { req_id: req_id@, cmd: cmd@, since: now },
            ),
    {
        let _ = self.take(req_id);
        let ghost mid = self@;
        let o = Outstanding { req_id: req_id.to_string(), cmd, since: now };
        self.entries.push(o);
        assert(self@ =~= mid.push(o@));
    }

    /// A final answer came in: under the name of the command if the request
    /// waits, nothing if it does not.
    pub fn answer(&mut self, req_id: &str, result: ExecResult, at: Instant) -> (r: Option<
        ExecResponse,
    >)
        ensures
            final(self)@ == without(old(self)@, req_id@),
            match r {
                Some(x) => place_of(old(self)@, req_id@) matches Some(i) && x@ == (ResponseView {
                    req_id: req_id@,
                    result: relabelled(result@, old(self)@[i].cmd.cmd),
                    at,
                }),
                None => place_of(old(self)@, req_id@) is None,
            },
    {
        match self.take(req_id) {
            Some(o) => {
                let result = relabel(result, &o.cmd.cmd);
                Some(ExecResponse { req_id: req_id.to_string(), result, at })
            },
            None => None,
        }
    }

    /// Gives up on the requests that have waited for too long.
    pub fn expire(&mut self, now: Instant) -> (r: Vec<ExecResponse>)
        ensures
            (final(self)@, response_views(r@)) == swept(old(self)@, now),
    {
        let mut all: Vec<Outstanding> = Vec::new();
        all.append(&mut self.entries);
        let ghost start = all@;
        assert(waiting(start) =~= old(self)@);
        assert(self@ =~= seq![]);
        let mut out: Vec<ExecResponse> = Vec::new();
        assert(response_views(out@) =~= seq![]);
        let ghost mut n: int = 0;
        assert(waiting(start).take(0) =~= seq![]);
        while all.len() > 0
            invariant
                0 <= n <= start.len(),
                all@ == start.skip(n),
                (self@, response_views(out@)) == swept(waiting(start).take(n), now),
            decreases all@.len(),
        {
            let o = all.remove(0);
            let ghost t = waiting(start).take(n + 1);
            proof {
                assert(o == start[n]);
                assert(t.drop_last() =~= waiting(start).take(n));
                assert(t.last() == o@);
                assert(all@ =~= start.skip(n + 1));
                n = n + 1;
            }
            let limit = Duration::from_secs(RESPONSE_TIMEOUT_SECS);
            if now.saturating_duration_since(o.since).nanos > limit.nanos {
                let ghost before = out@;
                out.push(give_up(o.cmd.cmd.req_id(), "ws response timeout", now));
                assert(response_views(out@) =~= response_views(before).push(out@.last()@));
            } else {
                let ghost before = self@;
                self.entries.push(o);
                assert(self@ =~= before.push(o@));
            }
        }
        assert(waiting(start).take(n) =~= waiting(start));
        out
    }

    /// The session is gone: what became of the waiting requests is unknown.
    pub fn drain(&mut self, at: Instant) -> (r: Vec<ExecResponse>)
        ensures
            final(self)@ == Seq::<OutstandingView>::empty(),
            response_views(r@) == old(self)@.map_values(
                |o: OutstandingView| unknown(o.req_id, "ws disconnected"@, at),
            ),
    {
        let mut out: Vec<ExecResponse> = Vec::new();
        let mut i: usize = 0;
        while i < self.entries.len()
            invariant
                *self == *old(self),
                i <= self.entries@.len(),
                response_views(out@) == self@.take(i as int).map_values(
                    |o: OutstandingView| unknown(o.req_id, "ws disconnected"@, at),
                ),
            decreases self.entries@.len() - i,
        {
            let ghost before = out@;
            let x = give_up(self.entries[i].req_id.as_str(), "ws disconnected", at);
            out.push(x);
            assert(response_views(out@) =~= response_views(before).push(x@));
            assert(self@.take(i + 1) =~= self@.take(i as int).push(self@[i as int]));
            assert(self@[i as int].req_id == self.entries@[i as int].req_id@);
            assert(response_views(out@) =~= self@.take(i + 1).map_values(
                |o: OutstandingView| unknown(o.req_id, "ws disconnected"@, at),
            ));
            i = i + 1;
        }
        assert(self@.take(i as int) =~= self@);
        self.entries.clear();
        assert(self@ =~= Seq::<OutstandingView>::empty());
        out
    }
}

/// No request is forgotten by a sweep: it goes on waiting, or it is answered as
/// unknown.
pub proof fn no_request_is_forgotten(s: Seq<OutstandingView>, now: Instant, i: int)
    requires
        0 <= i < s.len(),
    ensures
        swept(s, now).0.contains(s[i]) || swept(s, now).1.contains(
            unknown(s[i].cmd.cmd.req(), "ws response timeout"@, now),
        ),
        swept(s, now).0.len() + swept(s, now).1.len() == s.len(),
    decreases s.len(),
{
    let (kept, given) = swept(s.drop_last(), now);
    let (a, b) = swept(s, now);
    if s.len() > 1 {
        no_request_is_forgotten(s.drop_last(), now, 0);
    } else {
        assert(s.drop_last() =~= seq![]);
    }
    if i < s.len() - 1 {
        no_request_is_forgotten(s.drop_last(), now, i);
        let u = unknown(s[i].cmd.cmd.req(), "ws response timeout"@, now);
        if kept.contains(s[i]) {
            let j = choose|j: int| 0 <= j < kept.len() && kept[j] == s[i];
            assert(a[j] == s[i]);
        } else {
            let j = choose|j: int| 0 <= j < given.len() && given[j] == u;
            assert(b[j] == u);
        }
    } else if overdue(s.last(), now) {
        assert(b[given.len() as int] == unknown(s[i].cmd.cmd.req(), "ws response timeout"@, now));
    } else {
        assert(a[kept.len() as int] == s[i]);
    }
}

/// No two waiting requests have the same name.
pub open spec fn distinct(s: Seq<OutstandingView>) -> bool {
    forall|i: int, j: int|
        0 <= i < j < s.len() ==> (#[trigger] s[i]).req_id != (#[trigger] s[j]).req_id
}

/// The names of the waiting requests stay distinct: when a request is sent, when
/// it is answered, and when those that waited for too long are given up.
pub proof fn names_stay_distinct(s: Seq<OutstandingView>, o: OutstandingView, now: Instant)
    requires
        distinct(s),
    ensures
        distinct(without(s, o.req_id)),
        distinct(without(s, o.req_id).push(o)),
        distinct(swept(s, now).0),
{
    lemma_found(s, o.req_id);
    an_answer_ends_the_wait(s, o.req_id);
    let t = without(s, o.req_id);
    lemma_found(t, o.req_id);
    if let Some(p) = place_of(s, o.req_id) {
        assert forall|i: int, j: int| 0 <= i < j < t.len() implies (#[trigger] t[i]).req_id != (
        #[trigger] t[j]).req_id by {
            let a = if i < p {
                i
            } else {
                i + 1
            };
            let b = if j < p {
                j
            } else {
                j + 1
            };
            assert(t[i] == s[a] && t[j] == s[b]);
        }
    }
    lemma_swept_distinct(s, now);
}

proof fn lemma_swept_distinct(s: Seq<OutstandingView>, now: Instant)
    requires
        distinct(s),
    ensures
        distinct(swept(s, now).0),
        forall|i: int|
            0 <= i < swept(s, now).0.len() ==> s.contains(#[trigger] swept(s, now).0[i]),
    decreases s.len(),
{
    if s.len() > 0 {
        let d = s.drop_last();
        assert forall|i: int, j: int| 0 <= i < j < d.len() implies (#[trigger] d[i]).req_id != (
        #[trigger] d[j]).req_id by {
            assert(d[i] == s[i] && d[j] == s[j]);
        }
        lemma_swept_distinct(d, now);
        let kept = swept(d, now).0;
        let a = swept(s, now).0;
        assert forall|i: int| 0 <= i < a.len() implies s.contains(#[trigger] a[i]) by {
            if i < kept.len() {
                assert(d.contains(kept[i]));
                let j = choose|j: int| 0 <= j < d.len() && d[j] == kept[i];
                assert(s[j] == a[i]);
            } else {
                assert(s[s.len() - 1] == a[i]);
            }
        }
        assert forall|i: int, j: int| 0 <= i < j < a.len() implies (#[trigger] a[i]).req_id != (
        #[trigger] a[j]).req_id by {
            assert(a[i] == kept[i]);
            if j == kept.len() {
                assert(d.contains(kept[i]));
                let k = choose|k: int| 0 <= k < d.len() && d[k] == kept[i];
                assert(s[k].req_id != s[s.len() - 1].req_id);
            } else {
                assert(a[j] == kept[j]);
            }
        }
    }
}

/// A request is answered at most once: after its answer it does not wait any
/// more, unless it was sent again.
pub proof fn an_answer_ends_the_wait(s: Seq<OutstandingView>, id: Seq<char>)
    requires
        distinct(s),
    ensures
        place_of(without(s, id), id) is None,
{
    lemma_found(s, id);
    let t = without(s, id);
    assert forall|j: int| 0 <= j < t.len() implies (#[trigger] t[j]).req_id != id by {
        if let Some(i) = place_of(s, id) {
            if j < i {
                assert(t[j] == s[j]);
            } else {
                assert(t[j] == s[j + 1]);
            }
        }
    }
    lemma_place(t, id, t.len() as int);
}

proof fn lemma_found(s: Seq<OutstandingView>, id: Seq<char>)
    ensures
        match place_of(s, id) {
            Some(i) => 0 <= i < s.len() && s[i].req_id == id,
            None => forall|j: int| 0 <= j < s.len() ==> (#[trigger] s[j]).req_id != id,
        },
    decreases s.len(),
{
    if s.len() > 0 && s[0].req_id != id {
        lemma_found(s.skip(1), id);
        if place_of(s.skip(1), id) is None {
            assert forall|j: int| 0 <= j < s.len() implies (#[trigger] s[j]).req_id != id by {
                if j > 0 {
                    assert(s.skip(1)[j - 1].req_id != id);
                }
            }
        }
    }
}

} // verus!
