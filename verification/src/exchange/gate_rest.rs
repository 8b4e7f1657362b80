//! Gate futures REST v4: the signed requests for metadata, account and position
//! snapshots, the order book, order queries and order actions, and what their
//! answers say.

use vstd::prelude::*;

use crate::exchange::gate_private;
use crate::exchange::gate_trade;
use crate::exchange::gate_types;
use crate::exchange::gate_types::{
    GateOrder, GatePosition, IntField, OrderFields, PositionFields,
};
use crate::exchange::json;
use crate::exchange::json::{Json, JsonView, Members};
use crate::market::book::{BookSnapshot, DepthLevel};
use crate::order::model::{CommandView, ExecCommand, ExecResult, OrderInfo, ResultView, Tif};
use crate::text;
use crate::types::{Side, TickGrid};
use crate::util;

verus! {

/// What is done to a resource.
#[derive(Debug, Clone, Copy, PartialEq, Eq, Structural)]
pub enum Method {
    Get,
    Post,
    Put,
    Delete,
}

/// The name of a method on the wire.
pub open spec fn method_name(m: Method) -> Seq<char> {
    match m {
        Method::Get => "GET"@,
        Method::Post => "POST"@,
        Method::Put => "PUT"@,
        Method::Delete => "DELETE"@,
    }
}

impl Method {
    pub fn as_str(self) -> (r: &'static str)
        ensures
            r@ == method_name(self),
    {
        match self {
            Method::Get => "GET",
            Method::Post => "POST",
            Method::Put => "PUT",
            Method::Delete => "DELETE",
        }
    }
}

/// One call of the REST interface.
#[derive(Debug)]
pub struct RestCall {
    pub method: Method,
    pub path: String,
    pub query: String,
    pub body: Option<Json>,
    pub signed: bool,
}

/// A call as plain values.
pub ghost struct CallView {
    pub method: Method,
    pub path: Seq<char>,
    pub query: Seq<char>,
    pub body: Option<JsonView>,
    pub signed: bool,
}

impl View for RestCall {
    type V = CallView;

    open spec fn view(&self) -> CallView {
        CallView {
            method: self.method,
            path: self.path@,
            query: self.query@,
            body: match self.body {
                Some(b) => Some(b@),
                None => None,
            },
            signed: self.signed,
        }
    }
}

impl CallView {
    /// The body can be written and read back.
    pub open spec fn sound(self) -> bool {
        self.body matches Some(b) ==> json::whole(b)
    }
}

/// What goes with a signed request.
#[derive(Debug, Clone)]
pub struct Authorisation {
    pub key: String,
    pub timestamp: String,
    pub sign: String,
}

/// A request as it goes out.
#[derive(Debug, Clone)]
pub struct WireRequest {
    pub method: Method,
    pub url: String,
    pub body: Option<String>,
    pub auth: Option<Authorisation>,
}

/// The key or the secret of the account is missing.
#[derive(Debug, Clone, Copy, PartialEq, Eq, Structural)]
pub struct MissingCredentials;

/// Where the REST interface is found and who asks.
#[derive(Debug, Clone)]
pub struct GateRest {
    base: String,
    settle: String,
    key: String,
    secret: String,
}

/// An access to the REST interface, as plain values.
pub ghost struct AccessView {
    pub base: Seq<char>,
    pub settle: Seq<char>,
    pub key: Seq<char>,
    pub secret: Seq<char>,
}

impl View for GateRest {
    type V = AccessView;

    closed spec fn view(&self) -> AccessView {
        AccessView {
            base: self.base@,
            settle: self.settle@,
            key: self.key@,
            secret: self.secret@,
        }
    }
}

/// The text of a body; no body is the empty text.
pub open spec fn body_text(body: Option<JsonView>) -> Seq<char> {
    match body {
        Some(b) => json::json_text(b),
        None => seq![],
    }
}

/// What the signature of a request covers.
pub open spec fn signed_text(c: CallView, body: Seq<char>, time: i64) -> Seq<char> {
    method_name(c.method) + "\n"@ + c.path + "\n"@ + c.query + "\n"@ + util::hex_text(
        util::sha512_of(vstd::utf8::encode_utf8(body)),
    ) + "\n"@ + text::signed_decimal(time as int)
}

impl AccessView {
    pub open spec fn complete(self) -> bool {
        self.key.len() > 0 && self.secret.len() > 0
    }

    pub open spec fn path_of(self, suffix: Seq<char>) -> Seq<char> {
        "/api/v4/futures/"@ + self.settle + suffix
    }

    pub open spec fn url_of(self, path: Seq<char>, query: Seq<char>) -> Seq<char> {
        if query.len() == 0 {
            self.base + path
        } else {
            self.base + path + "?"@ + query
        }
    }

    /// A call without a body.
    pub open spec fn plain(
        self,
        method: Method,
        suffix: Seq<char>,
        query: Seq<char>,
        signed: bool,
    ) -> CallView {
        CallView { method, path: self.path_of(suffix), query, body: None, signed }
    }

    /// A signed call with a body.
    pub open spec fn with_body(self, method: Method, suffix: Seq<char>, body: JsonView) -> CallView {
        CallView {
            method,
            path: self.path_of(suffix),
            query: seq![],
            body: Some(body),
            signed: true,
        }
    }
}

fn joined(a: &str, b: &str) -> (r: String)
    ensures
        r@ == a@ + b@,
{
    let mut s = a.to_string();
    s.append(b);
    s
}

impl GateRest {
    pub fn new(base: &str, settle: &str, key: &str, secret: &str) -> (r: GateRest)
        ensures
            r@ == (AccessView {
                base: text::trimmed_end(base@, '/'),
                settle: settle@,
                key: key@,
                secret: secret@,
            }),
    {
        GateRest {
            base: text::trim_end(base, '/'),
            settle: settle.to_string(),
            key: key.to_string(),
            secret: secret.to_string(),
        }
    }

    pub fn has_credentials(&self) -> (r: bool)
        ensures
            r == self@.complete(),
    {
        !self.key.as_str().is_empty() && !self.secret.as_str().is_empty()
    }

    fn path(&self, suffix: &str) -> (r: String)
        ensures
            r@ == self@.path_of(suffix@),
    {
        let mut s = "/api/v4/futures/".to_string();
        s.append(self.settle.as_str());
        s.append(suffix);
        s
    }

    fn url(&self, path: &str, query: &str) -> (r: String)
        ensures
            r@ == self@.url_of(path@, query@),
    {
        let mut s = joined(self.base.as_str(), path);
        if !query.is_empty() {
            s.append("?");
            s.append(query);
        }
        s
    }

    fn plain(&self, method: Method, suffix: &str, query: &str, signed: bool) -> (r: RestCall)
        ensures
            r@ == self@.plain(method, suffix@, query@, signed),
            r@.sound(),
    {
        RestCall { method, path: self.path(suffix), query: query.to_string(), body: None, signed }
    }

    fn with_body(&self, method: Method, suffix: &str, body: Json) -> (r: RestCall)
        requires
            json::whole(body@),
        ensures
            r@ == self@.with_body(method, suffix@, body@),
            r@.sound(),
    {
        let query = String::new();
        assert(query@ =~= seq![]);
        RestCall { method, path: self.path(suffix), query, body: Some(body), signed: true }
    }

    fn authorise(&self, call: &RestCall, body: &str, time: i64) -> (r: Authorisation)
        ensures
            r.key@ == self@.key,
            r.timestamp@ == text::signed_decimal(time as int),
            r.sign@ == gate_private::signature(self@.secret, signed_text(call@, body@, time)),
    {
        let mut timestamp = String::new();
        text::push_signed(&mut timestamp, time);
        assert(timestamp@ =~= text::signed_decimal(time as int));
        let digest = util::sha512_hex(body);
        let mut payload = joined(call.method.as_str(), "\n");
        payload.append(call.path.as_str());
        payload.append("\n");
        payload.append(call.query.as_str());
        payload.append("\n");
        payload.append(digest.as_str());
        payload.append("\n");
        payload.append(timestamp.as_str());
        assert(payload@ =~= signed_text(call@, body@, time));
        let sign = util::hmac_sha512_hex(self.secret.as_str(), payload.as_str());
        Authorisation { key: self.key.clone(), timestamp, sign }
    }

    /// A call as a request of the time `time`. A signed call without credentials
    /// is refused.
    pub fn request(&self, call: &RestCall, time: i64) -> (r: Result<WireRequest, MissingCredentials>)
        requires
            call@.sound(),
        ensures
            match r {
                Ok(w) => {
                    let body = body_text(call@.body);
                    &&& !call@.signed || self@.complete()
                    &&& w.method == call@.method
                    &&& w.url@ == self@.url_of(call@.path, call@.query)
                    &&& match w.body {
                        Some(t) => call@.body is Some && t@ == body && json::json_of(t@)
                            == call@.body,
                        None => call@.body is None,
                    }
                    &&& match w.auth {
                        Some(a) => {
                            &&& call@.signed
                            &&& a.key@ == self@.key
                            &&& a.timestamp@ == text::signed_decimal(time as int)
                            &&& a.sign@ == gate_private::signature(
                                self@.secret,
                                signed_text(call@, body, time),
                            )
                        },
                        None => !call@.signed,
                    }
                },
                Err(_) => call@.signed && !self@.complete(),
            },
    {
        if call.signed && !self.has_credentials() {
            return Err(MissingCredentials);
        }
        let body = match &call.body {
            Some(b) => Some(json::write_json(b)),
            None => None,
        };
        let auth = if call.signed {
            let empty = "";
            proof {
                reveal_strlit("");
                assert(empty@ =~= seq![]);
            }
            let covered = match &body {
                Some(t) => t.as_str(),
                None => empty,
            };
            Some(self.authorise(call, covered, time))
        } else {
            None
        };
        let url = self.url(call.path.as_str(), call.query.as_str());
        Ok(WireRequest { method: call.method, url, body, auth })
    }

    /// The description of a contract.
    pub fn contract(&self, contract: &str) -> (r: RestCall)
        ensures
            r@ == self@.plain(Method::Get, "/contracts/"@ + contract@, seq![], false),
            r@.sound(),
    {
        proof {
            reveal_strlit("");
            assert(""@ =~= seq![]);
        }
        self.plain(Method::Get, joined("/contracts/", contract).as_str(), "", false)
    }

    /// The fee rates of the account for a contract.
    pub fn fee(&self, contract: &str) -> (r: RestCall)
        ensures
            r@ == self@.plain(Method::Get, "/fee"@, "contract="@ + contract@, true),
            r@.sound(),
    {
        self.plain(Method::Get, "/fee", joined("contract=", contract).as_str(), true)
    }

    /// The account.
    pub fn account(&self) -> (r: RestCall)
        ensures
            r@ == self@.plain(Method::Get, "/accounts"@, seq![], true),
            r@.sound(),
    {
        proof {
            reveal_strlit("");
            assert(""@ =~= seq![]);
        }
        self.plain(Method::Get, "/accounts", "", true)
    }

    /// The positions in a contract: one, or one for each side in dual mode.
    pub fn positions(&self, contract: &str, dual: bool) -> (r: RestCall)
        ensures
            r@ == self@.plain(
                Method::Get,
                (if dual {
                    "/dual_comp/positions/"@
                } else {
                    "/positions/"@
                }) + contract@,
                seq![],
                true,
            ),
            r@.sound(),
    {
        proof {
            reveal_strlit("");
            assert(""@ =~= seq![]);
        }
        let suffix = if dual {
            joined("/dual_comp/positions/", contract)
        } else {
            joined("/positions/", contract)
        };
        self.plain(Method::Get, suffix.as_str(), "", true)
    }

    /// The order book to a depth of `limit` levels.
    pub fn order_book(&self, contract: &str, limit: u32) -> (r: RestCall)
        ensures
            r@ == self@.plain(
                Method::Get,
                "/order_book"@,
                "contract="@ + contract@ + "&limit="@ + text::decimal(limit as nat)
                    + "&with_id=true"@,
                false,
            ),
            r@.sound(),
    {
        let mut q = joined("contract=", contract);
        q.append("&limit=");
        text::push_decimal(&mut q, limit as u64);
        q.append("&with_id=true");
        self.plain(Method::Get, "/order_book", q.as_str(), false)
    }

    /// The open orders in a contract.
    pub fn open_orders(&self, contract: &str) -> (r: RestCall)
        ensures
            r@ == self@.plain(
                Method::Get,
                "/orders"@,
                "contract="@ + contract@ + "&status=open&limit=100"@,
                true,
            ),
            r@.sound(),
    {
        let mut q = joined("contract=", contract);
        q.append("&status=open&limit=100");
        self.plain(Method::Get, "/orders", q.as_str(), true)
    }

    /// One order, by its number or by its text.
    pub fn get_order(&self, id_or_text: &str) -> (r: RestCall)
        ensures
            r@ == self@.plain(Method::Get, "/orders/"@ + id_or_text@, seq![], true),
            r@.sound(),
    {
        proof {
            reveal_strlit("");
            assert(""@ =~= seq![]);
        }
        self.plain(Method::Get, joined("/orders/", id_or_text).as_str(), "", true)
    }

    /// Cancels all orders in a contract.
    pub fn cancel_all(&self, contract: &str) -> (r: RestCall)
        ensures
            r@ == self@.plain(Method::Delete, "/orders"@, "contract="@ + contract@, true),
            r@.sound(),
    {
        self.plain(Method::Delete, "/orders", joined("contract=", contract).as_str(), true)
    }

    /// Places an order.
    pub fn place(
        &self,
        contract: &str,
        side: Side,
        size: i64,
        price: Option<&str>,
        tif: Tif,
        reduce_only: bool,
        text: &str,
    ) -> (r: RestCall)
        requires
            size > i64::MIN,
        ensures
            r@ == self@.with_body(
                Method::Post,
                "/orders"@,
                JsonView::Object(
                    gate_trade::order_param(
                        contract@,
                        text@,
                        side,
                        size,
                        match price {
                            Some(p) => p@,
                            None => "0"@,
                        },
                        tif,
                        reduce_only,
                    ),
                ),
            ),
            r@.sound(),
    {
        let p = match price {
            Some(p) => p,
            None => "0",
        };
        let body = gate_trade::describe_order(contract, text, side, size, p, tif, reduce_only);
        self.with_body(Method::Post, "/orders", body)
    }

    /// Amends an order: its price, its signed total size, or both.
    pub fn amend(&self, order_id: &str, price: Option<&str>, size_signed: Option<i64>) -> (r:
        RestCall)
        ensures
            r@ == self@.with_body(
                Method::Put,
                "/orders/"@ + order_id@,
                JsonView::Object(
                    amendment(
                        match price {
                            Some(p) => Some(p@),
                            None => None,
                        },
                        size_signed,
                    ),
                ),
            ),
            r@.sound(),
    {
        let m = Members::new();
        let m = match price {
            Some(p) => m.with("price", Json::text(p)),
            None => m,
        };
        let m = match size_signed {
            Some(s) => m.with("size", Json::integer(s)),
            None => m,
        };
        let body = m.object();
        self.with_body(Method::Put, joined("/orders/", order_id).as_str(), body)
    }

    /// Cancels an order, by its number or by its text.
    pub fn cancel(&self, id_or_text: &str) -> (r: RestCall)
        ensures
            r@ == self@.plain(Method::Delete, "/orders/"@ + id_or_text@, seq![], true),
            r@.sound(),
    {
        proof {
            reveal_strlit("");
            assert(""@ =~= seq![]);
        }
        self.plain(Method::Delete, joined("/orders/", id_or_text).as_str(), "", true)
    }

    /// The call that carries out a command. The size of an amend has the sign of
    /// the side of its order, and none where the side is not known.
    pub fn execute(
        &self,
        contract: &str,
        cmd: &ExecCommand,
        side_for_amend: Option<Side>,
        grid: &TickGrid,
    ) -> (r: RestCall)
        requires
            grid.wf(),
            gate_trade::writable(cmd@, *grid),
        ensures
            r@ == execution(self@, contract@, cmd@, side_for_amend, *grid),
            r@.sound(),
    {
        match cmd {
            ExecCommand::Place { req_id, client_id, side, size, price, tif, reduce_only } => {
                let wire = match price {
                    Some(p) => grid.to_string(*p),
                    None => "0".to_string(),
                };
                self.place(
                    contract,
                    *side,
                    *size,
                    Some(wire.as_str()),
                    *tif,
                    *reduce_only,
                    client_id.as_str(),
                )
            },
            ExecCommand::Amend { req_id, exchange_id, client_id, price, size } => {
                let side = match side_for_amend {
                    Some(s) => s,
                    None => Side::Buy,
                };
                let signed = match size {
                    Some(s) => Some(gate_trade::with_sign(*s, side)),
                    None => None,
                };
                match price {
                    Some(p) => {
                        let wire = grid.to_string(*p);
                        self.amend(exchange_id.as_str(), Some(wire.as_str()), signed)
                    },
                    None => self.amend(exchange_id.as_str(), None, signed),
                }
            },
            ExecCommand::Cancel { req_id, exchange_id, client_id } => self.cancel(
                known_name(exchange_id, client_id),
            ),
            ExecCommand::Query { req_id, exchange_id, client_id } => self.get_order(
                known_name(exchange_id, client_id),
            ),
            ExecCommand::CancelAll { req_id } => self.cancel_all(contract),
        }
    }
}

/// What an amend changes.
pub open spec fn amendment(price: Option<Seq<char>>, size_signed: Option<i64>) -> Map<
    Seq<char>,
    JsonView,
> {
    let m = Map::<Seq<char>, JsonView>::empty();
    let m = match price {
        Some(p) => m.insert("price"@, JsonView::Text(p)),
        None => m,
    };
    match size_signed {
        Some(s) => m.insert("size"@, json::int_tree(s)),
        None => m,
    }
}

/// The number of an order where it is known, its text where it is not.
pub open spec fn name_of(exchange_id: Option<Seq<char>>, client_id: Seq<char>) -> Seq<char> {
    match exchange_id {
        Some(e) => e,
        None => client_id,
    }
}

fn known_name<'a>(exchange_id: &'a Option<String>, client_id: &'a String) -> (r: &'a str)
    ensures
        r@ == name_of(
            match *exchange_id {
                Some(e) => Some(e@),
                None => None,
            },
            client_id@,
        ),
{
    match exchange_id {
        Some(e) => e.as_str(),
        None => client_id.as_str(),
    }
}

/// The call that carries out a command.
pub open spec fn execution(
    access: AccessView,
    contract: Seq<char>,
    c: CommandView,
    side_for_amend: Option<Side>,
    grid: TickGrid,
) -> CallView {
    match c {
        CommandView::Place { req_id, client_id, side, size, price, tif, reduce_only } =>
            access.with_body(
                Method::Post,
                "/orders"@,
                JsonView::Object(
                    gate_trade::order_param(
                        contract,
                        client_id,
                        side,
                        size,
                        gate_trade::wire_price(price, grid),
                        tif,
                        reduce_only,
                    ),
                ),
            ),
        CommandView::Amend { req_id, exchange_id, client_id, price, size } => access.with_body(
            Method::Put,
            "/orders/"@ + exchange_id,
            JsonView::Object(
                amendment(
                    match price {
                        Some(p) => Some(grid.wire(p)),
                        None => None,
                    },
                    match size {
                        Some(s) => Some(
                            gate_trade::signed_size(
                                s,
                                match side_for_amend {
                                    Some(side) => side,
                                    None => Side::Buy,
                                },
                            ) as i64,
                        ),
                        None => None,
                    },
                ),
            ),
        ),
        CommandView::Cancel { req_id, exchange_id, client_id } => access.plain(
            Method::Delete,
            "/orders/"@ + name_of(exchange_id, client_id),
            seq![],
            true,
        ),
        CommandView::Query { req_id, exchange_id, client_id } => access.plain(
            Method::Get,
            "/orders/"@ + name_of(exchange_id, client_id),
            seq![],
            true,
        ),
        CommandView::CancelAll { req_id } => access.plain(
            Method::Delete,
            "/orders"@,
            "contract="@ + contract,
            true,
        ),
    }
}

/// An answer that carries Gate's label.
#[derive(Debug, Clone)]
pub struct GateError {
    pub status: u16,
    pub label: String,
    pub message: String,
}

/// An answer with a label, as plain values.
pub ghost struct ErrorView {
    pub status: u16,
    pub label: Seq<char>,
    pub message: Seq<char>,
}

impl View for GateError {
    type V = ErrorView;

    open spec fn view(&self) -> ErrorView {
        ErrorView { status: self.status, label: self.label@, message: self.message@ }
    }
}

/// What an answer without success says; `tree` is what its text reads as.
pub open spec fn complaint(status: u16, tree: Option<JsonView>, text: Seq<char>) -> ErrorView {
    let label = match tree {
        Some(t) => t.text_at("label"@),
        None => None,
    };
    let message = match tree {
        Some(t) => t.text_at("message"@),
        None => None,
    };
    ErrorView {
        status,
        label: match label {
            Some(s) => s,
            None => "HTTP_ERROR"@,
        },
        message: match message {
            Some(s) => s,
            None => text,
        },
    }
}

impl GateError {
    /// What an answer without success says; `tree` is what its text reads as.
    pub fn of(status: u16, tree: Option<&Json>, text: &str) -> (r: GateError)
        ensures
            r@ == complaint(
                status,
                match tree {
                    Some(t) => Some(t@),
                    None => None,
                },
                text@,
            ),
    {
        let (label, message) = match tree {
            Some(t) => (t.text_at("label"), t.text_at("message")),
            None => (None, None),
        };
        GateError {
            status,
            label: match label {
                Some(s) => s.to_string(),
                None => "HTTP_ERROR".to_string(),
            },
            message: match message {
                Some(s) => s.to_string(),
                None => text.to_string(),
            },
        }
    }

    /// What an answer without success says.
    pub fn read(status: u16, text: &str) -> (r: GateError)
        ensures
            r@ == complaint(status, json::json_of(text@), text@),
    {
        let tree = json::read_json(text);
        match &tree {
            Some(t) => GateError::of(status, Some(t), text),
            None => GateError::of(status, None, text),
        }
    }

    pub fn to_string(&self) -> (r: String)
        ensures
            r@ == "gate "@ + text::decimal(self.status as nat) + ": "@ + self.label@ + ": "@
                + self.message@,
    {
        let mut s = "gate ".to_string();
        text::push_decimal(&mut s, self.status as u64);
        s.append(": ");
        s.append(self.label.as_str());
        s.append(": ");
        s.append(self.message.as_str());
        s
    }
}

/// The records of a list of orders; none where one cannot be read.
pub open spec fn all_orders(s: Seq<JsonView>) -> Option<Seq<OrderFields>>
    decreases s.len(),
{
    if s.len() == 0 {
        Some(seq![])
    } else {
        match (all_orders(s.drop_last()), gate_types::order_fields(s.last())) {
            (Some(v), Some(o)) => Some(v.push(o)),
            _ => None,
        }
    }
}

proof fn lemma_all_orders(s: Seq<JsonView>, n: int)
    requires
        0 <= n <= s.len(),
        all_orders(s) is Some,
    ensures
        all_orders(s.take(n)) is Some,
    decreases s.len() - n,
{
    if n < s.len() {
        lemma_all_orders(s, n + 1);
        assert(s.take(n + 1).drop_last() =~= s.take(n));
    } else {
        assert(s.take(n) =~= s);
    }
}

/// Reads the answer to a query for open orders: a list of orders, each of which
/// can be read.
pub fn read_orders(j: &Json) -> (r: Option<Vec<GateOrder<IntField, String>>>)
    ensures
        match (r, j@) {
            (Some(v), JsonView::List(s)) => all_orders(s) == Some(
                v@.map_values(|o: GateOrder<IntField, String>| o@),
            ),
            (None, JsonView::List(s)) => all_orders(s) is None,
            (x, _) => x is None,
        },
{
    let list = match j.as_list() {
        Some(l) => l,
        None => return None,
    };
    let ghost all = json::items(list@);
    let mut v: Vec<GateOrder<IntField, String>> = Vec::new();
    assert(all.take(0) =~= seq![]);
    assert(v@.map_values(|o: GateOrder<IntField, String>| o@) =~= seq![]);
    let mut i: usize = 0;
    while i < list.len()
        invariant
            i <= list.len(),
            all.len() == list.len(),
            j@ == JsonView::List(all),
            forall|k: int| 0 <= k < list.len() ==> #[trigger] all[k] == list@[k]@,
            all_orders(all.take(i as int)) == Some(
                v@.map_values(|o: GateOrder<IntField, String>| o@),
            ),
        decreases list.len() - i,
    {
        let x = gate_types::read_order(&list[i]);
        assert(all.take(i + 1).drop_last() =~= all.take(i as int));
        assert(all.take(i + 1).last() == list@[i as int]@);
        match x {
            Some(o) => {
                let ghost before = v@;
                v.push(o);
                assert(v@.map_values(|o: GateOrder<IntField, String>| o@) =~= before.map_values(
                    |o: GateOrder<IntField, String>| o@,
                ).push(o@));
            },
            None => {
                proof {
                    if all_orders(all) is Some {
                        lemma_all_orders(all, i + 1);
                    }
                }
                return None;
            },
        }
        i = i + 1;
    }
    assert(all.take(i as int) =~= all);
    Some(v)
}

/// The records of a list of positions; none where one cannot be read.
pub open spec fn all_positions(s: Seq<JsonView>) -> Option<Seq<PositionFields>>
    decreases s.len(),
{
    if s.len() == 0 {
        Some(seq![])
    } else {
        match (all_positions(s.drop_last()), gate_types::position_fields(s.last())) {
            (Some(v), Some(o)) => Some(v.push(o)),
            _ => None,
        }
    }
}

proof fn lemma_all_positions(s: Seq<JsonView>, n: int)
    requires
        0 <= n <= s.len(),
        all_positions(s) is Some,
    ensures
        all_positions(s.take(n)) is Some,
    decreases s.len() - n,
{
    if n < s.len() {
        lemma_all_positions(s, n + 1);
        assert(s.take(n + 1).drop_last() =~= s.take(n));
    } else {
        assert(s.take(n) =~= s);
    }
}

/// The positions of an answer: a list, or a single one.
pub open spec fn positions_in(j: JsonView) -> Option<Seq<PositionFields>> {
    match j {
        JsonView::List(s) => all_positions(s),
        _ => match gate_types::position_fields(j) {
            Some(p) => Some(seq![p]),
            None => None,
        },
    }
}

/// Reads the answer to a query for positions: a list, or a single one.
pub fn read_positions(j: &Json) -> (r: Option<Vec<GatePosition<IntField, String>>>)
    ensures
        match r {
            Some(v) => positions_in(j@) == Some(
                v@.map_values(|p: GatePosition<IntField, String>| p@),
            ),
            None => positions_in(j@) is None,
        },
{
    let list = match j.as_list() {
        Some(l) => l,
        None => {
            return match gate_types::read_position(j) {
                Some(p) => {
                    let mut v: Vec<GatePosition<IntField, String>> = Vec::new();
                    v.push(p);
                    assert(v@.map_values(|p: GatePosition<IntField, String>| p@) =~= seq![p@]);
                    Some(v)
                },
                None => None,
            };
        },
    };
    let ghost all = json::items(list@);
    let mut v: Vec<GatePosition<IntField, String>> = Vec::new();
    assert(all.take(0) =~= seq![]);
    assert(v@.map_values(|p: GatePosition<IntField, String>| p@) =~= seq![]);
    let mut i: usize = 0;
    while i < list.len()
        invariant
            i <= list.len(),
            all.len() == list.len(),
            j@ == JsonView::List(all),
            forall|k: int| 0 <= k < list.len() ==> #[trigger] all[k] == list@[k]@,
            all_positions(all.take(i as int)) == Some(
                v@.map_values(|p: GatePosition<IntField, String>| p@),
            ),
        decreases list.len() - i,
    {
        let x = gate_types::read_position(&list[i]);
        assert(all.take(i + 1).drop_last() =~= all.take(i as int));
        assert(all.take(i + 1).last() == list@[i as int]@);
        match x {
            Some(p) => {
                let ghost before = v@;
                v.push(p);
                assert(v@.map_values(|p: GatePosition<IntField, String>| p@) =~= before.map_values(
                    |p: GatePosition<IntField, String>| p@,
                ).push(p@));
            },
            None => {
                proof {
                    if all_positions(all) is Some {
                        lemma_all_positions(all, i + 1);
                    }
                }
                return None;
            },
        }
        i = i + 1;
    }
    assert(all.take(i as int) =~= all);
    Some(v)
}

/// Number of orders that a cancel-all reports.
pub fn cancelled_count(j: &Json) -> (r: usize)
    ensures
        r == (match j@ {
            JsonView::List(s) => s.len(),
            _ => 0,
        }),
{
    match j.as_list() {
        Some(l) => l.len(),
        None => 0,
    }
}

/// A book snapshot; an update number below zero counts as zero.
pub fn snapshot(id: i64, bids: Vec<DepthLevel>, asks: Vec<DepthLevel>) -> (r: BookSnapshot)
    ensures
        r.id == (if id > 0 {
            id as int
        } else {
            0
        }),
        r.bids == bids,
        r.asks == asks,
{
    let id: u64 = if id > 0 {
        id as u64
    } else {
        0
    };
    BookSnapshot { id, bids, asks }
}

/// What the answer to a command carries: the order it is about, or the number of
/// cancelled orders.
#[derive(Debug, Clone)]
pub enum Reply {
    Order(OrderInfo),
    Count(usize),
}

/// The result of a command that went well; none where the answer is not that of
/// the command.
pub open spec fn success(c: CommandView, reply: Reply) -> Option<ResultView> {
    match (c, reply) {
        (CommandView::Place { .. }, Reply::Order(i)) => Some(ResultView::Placed(i@)),
        (CommandView::Amend { .. }, Reply::Order(i)) => Some(ResultView::Amended(i@)),
        (CommandView::Cancel { .. }, Reply::Order(i)) => Some(ResultView::Cancelled(i@)),
        (CommandView::Query { .. }, Reply::Order(i)) => Some(ResultView::Queried(i@)),
        (CommandView::CancelAll { .. }, Reply::Count(n)) => Some(ResultView::CancelledAll(n)),
        _ => None,
    }
}

/// The result of a command that went well; none where the answer is not that of
/// the command.
pub fn succeeded(cmd: &ExecCommand, reply: Reply) -> (r: Option<ExecResult>)
    ensures
        match r {
            Some(x) => success(cmd@, reply) == Some(x@),
            None => success(cmd@, reply) is None,
        },
{
    match (cmd, reply) {
        (ExecCommand::Place { .. }, Reply::Order(i)) => Some(ExecResult::Placed(i)),
        (ExecCommand::Amend { .. }, Reply::Order(i)) => Some(ExecResult::Amended(i)),
        (ExecCommand::Cancel { .. }, Reply::Order(i)) => Some(ExecResult::Cancelled(i)),
        (ExecCommand::Query { .. }, Reply::Order(i)) => Some(ExecResult::Queried(i)),
        (ExecCommand::CancelAll { .. }, Reply::Count(n)) => Some(ExecResult::CancelledAll(n)),
        _ => None,
    }
}

/// Why a command did not go through.
#[derive(Debug, Clone)]
pub enum RestFailure {
    Gate(GateError),
    /// No answer that Gate labelled; the text says what happened.
    Other(String),
}

/// The result of a command that did not go through. Gate's own label is kept;
/// without one, a timeout is told from what is not known.
pub open spec fn failure(f: RestFailure) -> ResultView {
    match f {
        RestFailure::Gate(g) => ResultView::Error { label: g.label@, message: g.message@ },
        RestFailure::Other(m) => ResultView::Error {
            label: if text::has_part(m@, "timed out"@) || text::has_part(m@, "timeout"@) {
                "TIMEOUT"@
            } else {
                "UNKNOWN"@
            },
            message: m@,
        },
    }
}

/// The result of a command that did not go through.
pub fn failed(f: RestFailure) -> (r: ExecResult)
    ensures
        r@ == failure(f),
{
    match f {
        RestFailure::Gate(g) => ExecResult::Error { label: g.label, message: g.message },
        RestFailure::Other(m) => {
            let late = text::contains(m.as_str(), "timed out") || text::contains(
                m.as_str(),
                "timeout",
            );
            let label = if late {
                "TIMEOUT".to_string()
            } else {
                "UNKNOWN".to_string()
            };
            ExecResult::Error { label, message: m }
        },
    }
}

/// A command over REST describes a new order as the websocket API does, and
/// changes an order in the same way.
pub proof fn both_ways_say_the_same(
    access: AccessView,
    contract: Seq<char>,
    c: CommandView,
    side: Side,
    grid: TickGrid,
)
    requires
        c is Place || c is Amend,
    ensures
        gate_trade::api_param(contract, grid, c, side) is Some,
        execution(access, contract, c, Some(side), grid).body matches Some(JsonView::Object(body))
            && (gate_trade::api_param(contract, grid, c, side)->0).1 == JsonView::Object(
            if c is Amend {
                body.insert("order_id"@, JsonView::Text(c->Amend_exchange_id))
            } else {
                body
            },
        ),
{
    if c is Amend {
        let b = execution(access, contract, c, Some(side), grid).body->0->Object_0;
        let p = (gate_trade::api_param(contract, grid, c, side)->0).1->Object_0;
        lemma_keys();
        assert(b.insert("order_id"@, JsonView::Text(c->Amend_exchange_id)) =~= p);
    }
}

proof fn lemma_keys()
    ensures
        "order_id"@ != "price"@,
        "order_id"@ != "size"@,
        "price"@ != "size"@,
{
    reveal_strlit("order_id");
    reveal_strlit("price");
    reveal_strlit("size");
    assert("order_id"@.len() == 8 && "price"@.len() == 5 && "size"@.len() == 4);
}

} // verus!
