//! Gate futures public streams: best quote, depth updates, trades and tickers.

use vstd::prelude::*;

use crate::decimal;
use crate::exchange::gate_types;
use crate::exchange::gate_types::{GateDepthLevel, IntField, LevelFields};
use crate::exchange::json;
use crate::exchange::json::{Json, JsonView, Members};
use crate::text;
use crate::types;
use crate::types::{TickGrid, Ticks};

verus! {

/// Depth of the local book.
pub const BOOK_LEVELS: u32 = 20;

/// A public trade, its price in writing.
#[derive(Debug, Clone)]
pub struct RawTrade {
    pub price: String,
    pub signed_size: i64,
    pub trade_id: u64,
}

/// A public trade as plain values.
pub ghost struct RawTradeView {
    pub price: Seq<char>,
    pub signed_size: i64,
    pub trade_id: u64,
}

impl View for RawTrade {
    type V = RawTradeView;

    open spec fn view(&self) -> RawTradeView {
        RawTradeView {
            price: self.price@,
            signed_size: self.signed_size,
            trade_id: self.trade_id,
        }
    }
}

/// A ticker, its prices in writing.
#[derive(Debug, Clone)]
pub struct RawTicker {
    pub mark: String,
    pub index: Option<String>,
    pub funding_rate: Option<String>,
}

/// A ticker as plain values.
pub ghost struct RawTickerView {
    pub mark: Seq<char>,
    pub index: Option<Seq<char>>,
    pub funding_rate: Option<Seq<char>>,
}

impl View for RawTicker {
    type V = RawTickerView;

    open spec fn view(&self) -> RawTickerView {
        RawTickerView {
            mark: self.mark@,
            index: gate_types::opt_view(self.index),
            funding_rate: gate_types::opt_view(self.funding_rate),
        }
    }
}

/// What a public frame says.
#[derive(Debug)]
pub enum PublicMessage {
    Nothing,
    Bbo { bid: Ticks, bid_size: i64, ask: Ticks, ask_size: i64, exch_ms: i64 },
    Trades(Vec<RawTrade>),
    Delta {
        first_id: u64,
        last_id: u64,
        bids: Vec<GateDepthLevel<IntField, String>>,
        asks: Vec<GateDepthLevel<IntField, String>>,
        full: bool,
    },
    Tickers(Vec<RawTicker>),
}

/// What a public frame says, as plain values.
pub ghost enum PublicView {
    Nothing,
    Bbo { bid: Ticks, bid_size: i64, ask: Ticks, ask_size: i64, exch_ms: i64 },
    Trades(Seq<RawTradeView>),
    Delta {
        first_id: u64,
        last_id: u64,
        bids: Seq<LevelFields>,
        asks: Seq<LevelFields>,
        full: bool,
    },
    Tickers(Seq<RawTickerView>),
}

impl View for PublicMessage {
    type V = PublicView;

    open spec fn view(&self) -> PublicView {
        match *self {
            PublicMessage::Nothing => PublicView::Nothing,
            PublicMessage::Bbo { bid, bid_size, ask, ask_size, exch_ms } => PublicView::Bbo {
                bid,
                bid_size,
                ask,
                ask_size,
                exch_ms,
            },
            PublicMessage::Trades(v) => PublicView::Trades(v@.map_values(|t: RawTrade| t@)),
            PublicMessage::Delta { first_id, last_id, bids, asks, full } => PublicView::Delta {
                first_id,
                last_id,
                bids: gate_types::level_views(bids@),
                asks: gate_types::level_views(asks@),
                full,
            },
            PublicMessage::Tickers(v) => PublicView::Tickers(v@.map_values(|t: RawTicker| t@)),
        }
    }
}

/// A text member, or the empty text.
pub open spec fn name_at(j: JsonView, key: Seq<char>) -> Seq<char> {
    match j.text_at(key) {
        Some(s) => s,
        None => seq![],
    }
}

/// A text member, or the empty text.
pub fn read_name(j: &Json, key: &str) -> (r: String)
    ensures
        r@ == name_at(j@, key@),
{
    match j.text_at(key) {
        Some(s) => s.to_string(),
        None => {
            let r = String::new();
            assert(r@ =~= seq![]);
            r
        },
    }
}

/// A best quote, given its prices in ticks; both must be positive.
pub open spec fn quoted(result: JsonView, bid: Option<Ticks>, ask: Option<Ticks>) -> PublicView {
    match (bid, ask) {
        (Some(b), Some(a)) => if b > 0 && a > 0 {
            PublicView::Bbo {
                bid: b,
                bid_size: result.int_or("B"@, 0),
                ask: a,
                ask_size: result.int_or("A"@, 0),
                exch_ms: result.int_or("t"@, 0),
            }
        } else {
            PublicView::Nothing
        },
        _ => PublicView::Nothing,
    }
}

/// The best quote of a `book_ticker` result whose prices read as `bid` and
/// `ask`.
pub fn quote_of(result: &Json, bid: Option<Ticks>, ask: Option<Ticks>) -> (r: PublicMessage)
    ensures
        r@ == quoted(result@, bid, ask),
{
    match (bid, ask) {
        (Some(b), Some(a)) => if b > 0 && a > 0 {
            PublicMessage::Bbo {
                bid: b,
                bid_size: result.int_or("B", 0),
                ask: a,
                ask_size: result.int_or("A", 0),
                exch_ms: result.int_or("t", 0),
            }
        } else {
            PublicMessage::Nothing
        },
        _ => PublicMessage::Nothing,
    }
}

/// A price member in ticks.
pub open spec fn price_at(j: JsonView, key: Seq<char>, grid: TickGrid) -> Option<Ticks> {
    match j.text_at(key) {
        Some(s) => match decimal::decimal_of(s) {
            Some((m, k)) => types::nearest_tick(
                decimal::quotient_of(
                    m,
                    k,
                    grid.step().mantissa as int,
                    grid.step().scale as nat,
                ),
            ),
            None => None,
        },
        None => None,
    }
}

fn read_price(j: &Json, key: &str, grid: &TickGrid) -> (r: Option<Ticks>)
    requires
        grid.wf(),
    ensures
        r == price_at(j@, key@, *grid),
{
    match j.text_at(key) {
        Some(s) => grid.parse(s),
        None => None,
    }
}

/// The trades of a list; items without a price text or a whole size are left
/// out.
pub open spec fn trades_of(s: Seq<JsonView>) -> Seq<RawTradeView>
    decreases s.len(),
{
    if s.len() == 0 {
        seq![]
    } else {
        let head = trades_of(s.drop_last());
        let t = s.last();
        match (t.text_at("price"@), t.get("size"@)) {
            (Some(price), Some(size)) => match size.integer() {
                Some(signed_size) => head.push(
                    RawTradeView { price, signed_size, trade_id: t.uint_or("id"@, 0) },
                ),
                None => head,
            },
            _ => head,
        }
    }
}

/// The tickers of a list; items without a mark price are left out.
pub open spec fn tickers_of(s: Seq<JsonView>) -> Seq<RawTickerView>
    decreases s.len(),
{
    if s.len() == 0 {
        seq![]
    } else {
        let head = tickers_of(s.drop_last());
        let t = s.last();
        match t.text_at("mark_price"@) {
            Some(mark) => head.push(
                RawTickerView {
                    mark,
                    index: t.text_at("index_price"@),
                    funding_rate: t.text_at("funding_rate"@),
                },
            ),
            None => head,
        }
    }
}

/// The levels of a member; none where they are not all levels.
pub open spec fn levels_at(j: JsonView, key: Seq<char>) -> Seq<LevelFields> {
    match j.get(key) {
        Some(x) => match gate_types::level_fields(x) {
            Some(l) => l,
            None => seq![],
        },
        None => seq![],
    }
}

fn read_levels_at(j: &Json, key: &str) -> (r: Vec<GateDepthLevel<IntField, String>>)
    ensures
        gate_types::level_views(r@) == levels_at(j@, key@),
{
    let none: Vec<GateDepthLevel<IntField, String>> = Vec::new();
    assert(gate_types::level_views(none@) =~= seq![]);
    match j.get(key) {
        Some(x) => match gate_types::read_levels(x) {
            Some(l) => l,
            None => none,
        },
        None => none,
    }
}

fn read_trades(list: &Vec<Json>) -> (r: Vec<RawTrade>)
    ensures
        r@.map_values(|t: RawTrade| t@) == trades_of(json::items(list@)),
{
    let ghost all = json::items(list@);
    let mut r: Vec<RawTrade> = Vec::new();
    let mut i: usize = 0;
    proof {
        json::lemma_items(list@);
        assert(all.take(0) =~= seq![]);
        assert(r@.map_values(|t: RawTrade| t@) =~= seq![]);
    }
    while i < list.len()
        invariant
            i <= list.len(),
            all.len() == list.len(),
            forall|k: int| 0 <= k < list.len() ==> #[trigger] all[k] == list@[k]@,
            r@.map_values(|t: RawTrade| t@) == trades_of(all.take(i as int)),
        decreases list.len() - i,
    {
        let x = &list[i];
        let ghost before = r@;
        proof {
            assert(all.take(i + 1).drop_last() =~= all.take(i as int));
            assert(all.take(i + 1).last() == all[i as int]);
            assert(all[i as int] == x@);
        }
        if let Some(price) = x.text_at("price") {
            if let Some(size) = x.get("size") {
                if let Some(signed_size) = size.as_i64() {
                    let t = RawTrade {
                        price: price.to_string(),
                        signed_size,
                        trade_id: x.uint_or("id", 0),
                    };
                    r.push(t);
                    assert(r@.map_values(|t: RawTrade| t@) =~= before.map_values(
                        |t: RawTrade| t@,
                    ).push(t@));
                }
            }
        }
        i = i + 1;
    }
    assert(all.take(i as int) =~= all);
    r
}

fn opt_string(s: Option<&str>) -> (r: Option<String>)
    ensures
        gate_types::opt_view(r) == (match s {
            Some(t) => Some(t@),
            None => None,
        }),
{
    match s {
        Some(t) => Some(t.to_string()),
        None => None,
    }
}

fn push_ticker(r: &mut Vec<RawTicker>, x: &Json, Ghost(done): Ghost<Seq<JsonView>>)
    requires
        old(r)@.map_values(|t: RawTicker| t@) == tickers_of(done),
    ensures
        final(r)@.map_values(|t: RawTicker| t@) == tickers_of(done.push(x@)),
{
    let ghost before = r@;
    proof {
        assert(done.push(x@).drop_last() =~= done);
    }
    if let Some(mark) = x.text_at("mark_price") {
        let t = RawTicker {
            mark: mark.to_string(),
            index: opt_string(x.text_at("index_price")),
            funding_rate: opt_string(x.text_at("funding_rate")),
        };
        r.push(t);
        assert(r@.map_values(|t: RawTicker| t@) =~= before.map_values(|t: RawTicker| t@).push(
            t@,
        ));
    }
}

/// The items of a result: those of a list, or the result itself.
pub open spec fn items_of(j: JsonView) -> Seq<JsonView> {
    match j {
        JsonView::List(s) => s,
        _ => seq![j],
    }
}

fn read_tickers(j: &Json) -> (r: Vec<RawTicker>)
    ensures
        r@.map_values(|t: RawTicker| t@) == tickers_of(items_of(j@)),
{
    let mut r: Vec<RawTicker> = Vec::new();
    assert(r@.map_values(|t: RawTicker| t@) =~= seq![]);
    match j.as_list() {
        Some(list) => {
            let ghost all = json::items(list@);
            let mut i: usize = 0;
            assert(all.take(0) =~= seq![]);
            while i < list.len()
                invariant
                    i <= list.len(),
                    all.len() == list.len(),
                    forall|k: int| 0 <= k < list.len() ==> #[trigger] all[k] == list@[k]@,
                    r@.map_values(|t: RawTicker| t@) == tickers_of(all.take(i as int)),
                decreases list.len() - i,
            {
                push_ticker(&mut r, &list[i], Ghost(all.take(i as int)));
                proof {
                    assert(all[i as int] == list@[i as int]@);
                    assert(all.take(i as int).push(all[i as int]) =~= all.take(i + 1));
                }
                i = i + 1;
            }
            assert(all.take(i as int) =~= all);
        },
        None => {
            push_ticker(&mut r, j, Ghost(Seq::<JsonView>::empty()));
            assert(Seq::<JsonView>::empty().push(j@) =~= seq![j@]);
        },
    }
    r
}

/// What a frame of the public streams says.
pub open spec fn public_of(v: JsonView, grid: TickGrid) -> PublicView {
    let channel = name_at(v, "channel"@);
    let event = name_at(v, "event"@);
    match v.get("result"@) {
        Some(result) => if event != "update"@ && event != "all"@ {
            PublicView::Nothing
        } else if channel == "futures.book_ticker"@ {
            quoted(result, price_at(result, "b"@, grid), price_at(result, "a"@, grid))
        } else if channel == "futures.trades"@ {
            match result {
                JsonView::List(s) => PublicView::Trades(trades_of(s)),
                _ => PublicView::Nothing,
            }
        } else if channel == "futures.order_book_update"@ {
            PublicView::Delta {
                first_id: result.uint_or("U"@, 0),
                last_id: result.uint_or("u"@, 0),
                bids: levels_at(result, "b"@),
                asks: levels_at(result, "a"@),
                full: result.flag("full"@),
            }
        } else if channel == "futures.tickers"@ {
            PublicView::Tickers(tickers_of(items_of(result)))
        } else {
            PublicView::Nothing
        },
        None => PublicView::Nothing,
    }
}

/// Reads a frame of the public streams.
pub fn parse_public(v: &Json, grid: &TickGrid) -> (r: PublicMessage)
    requires
        grid.wf(),
    ensures
        r@ == public_of(v@, *grid),
{
    let channel = read_name(v, "channel");
    let event = read_name(v, "event");
    let result = match v.get("result") {
        Some(x) => x,
        None => return PublicMessage::Nothing,
    };
    if !text::same(event.as_str(), "update") && !text::same(event.as_str(), "all") {
        return PublicMessage::Nothing;
    }
    if text::same(channel.as_str(), "futures.book_ticker") {
        quote_of(result, read_price(result, "b", grid), read_price(result, "a", grid))
    } else if text::same(channel.as_str(), "futures.trades") {
        match result.as_list() {
            Some(list) => PublicMessage::Trades(read_trades(list)),
            None => PublicMessage::Nothing,
        }
    } else if text::same(channel.as_str(), "futures.order_book_update") {
        PublicMessage::Delta {
            first_id: result.uint_or("U", 0),
            last_id: result.uint_or("u", 0),
            bids: read_levels_at(result, "b"),
            asks: read_levels_at(result, "a"),
            full: result.flag("full"),
        }
    } else if text::same(channel.as_str(), "futures.tickers") {
        PublicMessage::Tickers(read_tickers(result))
    } else {
        PublicMessage::Nothing
    }
}

/// A subscription.
pub open spec fn subscription(time: i64, channel: Seq<char>, payload: JsonView) -> JsonView {
    JsonView::Object(
        map![
            "time"@ => json::int_tree(time),
            "channel"@ => JsonView::Text(channel),
            "event"@ => JsonView::Text("subscribe"@),
            "payload"@ => payload,
        ],
    )
}

/// A list of texts.
pub open spec fn text_list(s: Seq<Seq<char>>) -> JsonView {
    JsonView::List(s.map_values(|t: Seq<char>| JsonView::Text(t)))
}

fn subscribe(time: i64, channel: &str, payload: Json) -> (r: Json)
    requires
        json::within(payload@, (json::MAX_DEPTH - 1) as nat),
    ensures
        r@ == subscription(time, channel@, payload@),
        json::whole(r@),
{
    Members::new().with("time", Json::integer(time)).with("channel", Json::text(channel)).with(
        "event",
        Json::text("subscribe"),
    ).with("payload", payload).object()
}

fn contract_only(contract: &str) -> (r: Json)
    ensures
        r@ == text_list(seq![contract@]),
        forall|d: nat| d >= 1 ==> #[trigger] json::within(r@, d),
{
    let mut v: Vec<String> = Vec::new();
    v.push(contract.to_string());
    let r = Json::texts(v);
    assert(v@.map_values(|s: String| JsonView::Text(s@)) =~= seq![contract@].map_values(
        |t: Seq<char>| JsonView::Text(t),
    ));
    r
}

fn depth_payload(contract: &str) -> (r: Json)
    ensures
        r@ == text_list(seq![contract@, "100ms"@, "20"@]),
        forall|d: nat| d >= 1 ==> #[trigger] json::within(r@, d),
{
    let mut v: Vec<String> = Vec::new();
    v.push(contract.to_string());
    v.push("100ms".to_string());
    v.push("20".to_string());
    let r = Json::texts(v);
    assert(v@.map_values(|s: String| JsonView::Text(s@)) =~= seq![contract@, "100ms"@, "20"@].map_values(
        |t: Seq<char>| JsonView::Text(t),
    ));
    r
}

/// The subscriptions of the public streams for a contract.
pub open spec fn public_subscriptions(contract: Seq<char>, time: i64) -> Seq<JsonView> {
    seq![
        subscription(time, "futures.book_ticker"@, text_list(seq![contract])),
        subscription(time, "futures.trades"@, text_list(seq![contract])),
        subscription(
            time,
            "futures.order_book_update"@,
            text_list(seq![contract, "100ms"@, "20"@]),
        ),
        subscription(time, "futures.tickers"@, text_list(seq![contract])),
    ]
}

/// The subscriptions of the public streams for a contract.
pub fn subscribe_public(contract: &str, time: i64) -> (r: Vec<Json>)
    ensures
        r@.map_values(|j: Json| j@) == public_subscriptions(contract@, time),
        forall|i: int| 0 <= i < r.len() ==> json::whole((#[trigger] r@[i])@),
{
    let mut r: Vec<Json> = Vec::new();
    r.push(subscribe(time, "futures.book_ticker", contract_only(contract)));
    r.push(subscribe(time, "futures.trades", contract_only(contract)));
    r.push(subscribe(time, "futures.order_book_update", depth_payload(contract)));
    r.push(subscribe(time, "futures.tickers", contract_only(contract)));
    assert(r@.map_values(|j: Json| j@) =~= public_subscriptions(contract@, time));
    r
}

/// A ping of the futures streams.
pub fn ping_request(time: i64) -> (r: Json)
    ensures
        r@ == JsonView::Object(
            map![
                "time"@ => json::int_tree(time),
                "channel"@ => JsonView::Text("futures.ping"@),
            ],
        ),
        json::whole(r@),
{
    Members::new().with("time", Json::integer(time)).with(
        "channel",
        Json::text("futures.ping"),
    ).object()
}

} // verus!
