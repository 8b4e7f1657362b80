//! Binance futures: symbol metadata and the public `bookTicker` and `aggTrade`
//! streams. Reference only, no trading.

use vstd::prelude::*;

use crate::exchange::gate_types;
use crate::exchange::json;
use crate::exchange::json::{Json, JsonView};
use crate::text;

verus! {

#[derive(Debug, Clone)]
pub struct BinanceSymbolMeta {
    pub symbol: String,
    pub contract_type: String,
    pub status: String,
    pub tick_size: String,
    pub step_size: String,
    pub min_qty: String,
    pub min_notional: String,
}

/// The description of a symbol, as plain values.
pub ghost struct SymbolView {
    pub symbol: Seq<char>,
    pub contract_type: Seq<char>,
    pub status: Seq<char>,
    pub tick_size: Seq<char>,
    pub step_size: Seq<char>,
    pub min_qty: Seq<char>,
    pub min_notional: Seq<char>,
}

impl View for BinanceSymbolMeta {
    type V = SymbolView;

    open spec fn view(&self) -> SymbolView {
        SymbolView {
            symbol: self.symbol@,
            contract_type: self.contract_type@,
            status: self.status@,
            tick_size: self.tick_size@,
            step_size: self.step_size@,
            min_qty: self.min_qty@,
            min_notional: self.min_notional@,
        }
    }
}

/// A text member of an object, empty where there is none.
pub open spec fn part(j: JsonView, key: Seq<char>) -> Seq<char> {
    match j.text_at(key) {
        Some(s) => s,
        None => seq![],
    }
}

fn read_part(j: &Json, key: &str) -> (r: String)
    ensures
        r@ == part(j@, key@),
{
    match j.text_at(key) {
        Some(s) => s.to_string(),
        None => {
            let r = String::new();
            assert(r@ =~= seq![]);
            r
        },
    }
}

/// A text field of a record, empty where there is none.
pub open spec fn text_part(j: JsonView, key: Seq<char>, at: int) -> Seq<char> {
    match gate_types::required_text(j, key, at) {
        Some(s) => s,
        None => seq![],
    }
}

fn read_text_part(j: &Json, key: &str, at: usize) -> (r: String)
    ensures
        r@ == text_part(j@, key@, at as int),
{
    let found = match j.field(key, at) {
        Some(x) => x.as_str(),
        None => None,
    };
    match found {
        Some(s) => s.to_string(),
        None => {
            let r = String::new();
            assert(r@ =~= seq![]);
            r
        },
    }
}

/// The filters of a symbol, none of them where they are not given.
pub open spec fn filters_of(j: JsonView) -> Option<Seq<JsonView>> {
    match j.field("filters"@, 3) {
        Some(JsonView::List(s)) => Some(s),
        Some(_) => None,
        None => Some(seq![]),
    }
}

/// An entry of the list of symbols: it has a name, and its other parts are of
/// the right kind.
pub open spec fn is_symbol(j: JsonView) -> bool {
    &&& j.is_record(4)
    &&& gate_types::required_text(j, "symbol"@, 0) is Some
    &&& gate_types::text_field(j, "contractType"@, 1) is Some
    &&& gate_types::text_field(j, "status"@, 2) is Some
    &&& filters_of(j) is Some
}

/// What a filter adds to the description.
pub open spec fn filtered(m: SymbolView, f: JsonView) -> SymbolView {
    match f.text_at("filterType"@) {
        Some(t) => if t == "PRICE_FILTER"@ {
            SymbolView { tick_size: part(f, "tickSize"@), ..m }
        } else if t == "LOT_SIZE"@ {
            SymbolView { step_size: part(f, "stepSize"@), min_qty: part(f, "minQty"@), ..m }
        } else if t == "MIN_NOTIONAL"@ {
            SymbolView { min_notional: part(f, "notional"@), ..m }
        } else {
            m
        },
        None => m,
    }
}

/// What the filters add to the description, one after the other.
pub open spec fn all_filtered(m: SymbolView, fs: Seq<JsonView>) -> SymbolView
    decreases fs.len(),
{
    if fs.len() == 0 {
        m
    } else {
        filtered(all_filtered(m, fs.drop_last()), fs.last())
    }
}

/// The description of a symbol by an entry of the list.
pub open spec fn description(j: JsonView) -> SymbolView {
    all_filtered(
        SymbolView {
            symbol: text_part(j, "symbol"@, 0),
            contract_type: text_part(j, "contractType"@, 1),
            status: text_part(j, "status"@, 2),
            tick_size: seq![],
            step_size: seq![],
            min_qty: seq![],
            min_notional: seq![],
        },
        filters_of(j)->0,
    )
}

/// The entry has the name, whatever the case of its letters.
pub open spec fn is_named(j: JsonView, symbol: Seq<char>) -> bool {
    text::ascii_lower(text_part(j, "symbol"@, 0)) == text::ascii_lower(symbol)
}

/// Entry `i` is the first with the name.
pub open spec fn first_named(s: Seq<JsonView>, symbol: Seq<char>, i: int) -> bool {
    &&& 0 <= i < s.len()
    &&& is_named(s[i], symbol)
    &&& forall|k: int| 0 <= k < i ==> !is_named(#[trigger] s[k], symbol)
}

/// Why there is no description.
#[derive(Debug, Clone, Copy, PartialEq, Eq, Structural)]
pub enum PickError {
    /// The answer is not a list of symbols.
    Malformed,
    /// The symbol is not in the list.
    NotFound,
}

/// The symbols of an answer; none where it is not a list of symbols.
pub open spec fn symbols_of(j: JsonView) -> Option<Seq<JsonView>> {
    match j.field("symbols"@, 0) {
        Some(JsonView::List(s)) => if j.is_record(1) && forall|i: int| 0 <= i < s.len() ==> is_symbol(#[trigger] s[i]) {
            Some(s)
        } else {
            None
        },
        _ => None,
    }
}

fn read_filter(m: BinanceSymbolMeta, f: &Json) -> (r: BinanceSymbolMeta)
    ensures
        r@ == filtered(m@, f@),
{
    let mut m = m;
    if let Some(t) = f.text_at("filterType") {
        if text::same(t, "PRICE_FILTER") {
            m.tick_size = read_part(f, "tickSize");
        } else if text::same(t, "LOT_SIZE") {
            m.step_size = read_part(f, "stepSize");
            m.min_qty = read_part(f, "minQty");
        } else if text::same(t, "MIN_NOTIONAL") {
            m.min_notional = read_part(f, "notional");
        }
    }
    m
}

fn read_filters(m: BinanceSymbolMeta, fs: &Vec<Json>) -> (r: BinanceSymbolMeta)
    requires
        json::items(fs@).len() == fs.len(),
        forall|i: int| 0 <= i < fs.len() ==> #[trigger] json::items(fs@)[i] == fs@[i]@,
    ensures
        r@ == all_filtered(m@, json::items(fs@)),
{
    let ghost start = m@;
    let ghost all = json::items(fs@);
    let mut m = m;
    let mut i: usize = 0;
    assert(all.take(0) =~= seq![]);
    while i < fs.len()
        invariant
            i <= fs.len(),
            all == json::items(fs@),
            all.len() == fs.len(),
            forall|k: int| 0 <= k < fs.len() ==> #[trigger] all[k] == fs@[k]@,
            m@ == all_filtered(start, all.take(i as int)),
        decreases fs.len() - i,
    {
        assert(all.take(i + 1).drop_last() =~= all.take(i as int));
        assert(all.take(i + 1).last() == fs@[i as int]@);
        m = read_filter(m, &fs[i]);
        i = i + 1;
    }
    assert(all.take(i as int) =~= all);
    m
}

fn describe(j: &Json) -> (r: BinanceSymbolMeta)
    requires
        is_symbol(j@),
    ensures
        r@ == description(j@),
{
    let m = BinanceSymbolMeta {
        symbol: read_text_part(j, "symbol", 0),
        contract_type: read_text_part(j, "contractType", 1),
        status: read_text_part(j, "status", 2),
        tick_size: String::new(),
        step_size: String::new(),
        min_qty: String::new(),
        min_notional: String::new(),
    };
    let ghost base = SymbolView {
        symbol: text_part(j@, "symbol"@, 0),
        contract_type: text_part(j@, "contractType"@, 1),
        status: text_part(j@, "status"@, 2),
        tick_size: seq![],
        step_size: seq![],
        min_qty: seq![],
        min_notional: seq![],
    };
    assert(m@.tick_size =~= base.tick_size);
    assert(m@.step_size =~= base.step_size);
    assert(m@.min_qty =~= base.min_qty);
    assert(m@.min_notional =~= base.min_notional);
    match j.field("filters", 3) {
        Some(f) => match f.as_list() {
            Some(fs) => read_filters(m, fs),
            None => m,
        },
        None => m,
    }
}

fn has_text_kind(j: &Json, key: &str, at: usize) -> (r: bool)
    ensures
        r == (gate_types::text_field(j@, key@, at as int) is Some),
{
    match j.field(key, at) {
        Some(x) => x.as_str().is_some(),
        None => true,
    }
}

fn is_entry(j: &Json) -> (r: bool)
    ensures
        r == is_symbol(j@),
{
    let filters = match j.field("filters", 3) {
        Some(f) => f.as_list().is_some(),
        None => true,
    };
    let named = match j.field("symbol", 0) {
        Some(x) => x.as_str().is_some(),
        None => false,
    };
    j.is_record(4) && named && has_text_kind(j, "contractType", 1) && has_text_kind(j, "status", 2)
        && filters
}

fn well_formed(list: &Vec<Json>) -> (r: bool)
    requires
        json::items(list@).len() == list.len(),
        forall|i: int| 0 <= i < list.len() ==> #[trigger] json::items(list@)[i] == list@[i]@,
    ensures
        r == (forall|i: int|
            0 <= i < list.len() ==> is_symbol(#[trigger] json::items(list@)[i])),
{
    let mut i: usize = 0;
    while i < list.len()
        invariant
            i <= list.len(),
            json::items(list@).len() == list.len(),
            forall|k: int| 0 <= k < list.len() ==> #[trigger] json::items(list@)[k] == list@[k]@,
            forall|k: int| 0 <= k < i ==> is_symbol(#[trigger] json::items(list@)[k]),
        decreases list.len() - i,
    {
        if !is_entry(&list[i]) {
            assert(!is_symbol(json::items(list@)[i as int]));
            return false;
        }
        i = i + 1;
    }
    true
}

/// The description of a symbol in an answer: that of the first entry with its
/// name, whatever the case of the letters.
pub fn pick(info: &Json, symbol: &str) -> (r: Result<BinanceSymbolMeta, PickError>)
    ensures
        match r {
            Ok(m) => symbols_of(info@) is Some && exists|i: int| #[trigger]
                first_named(symbols_of(info@)->0, symbol@, i) && m@ == description(
                    symbols_of(info@)->0[i],
                ),
            Err(PickError::NotFound) => symbols_of(info@) matches Some(s) && forall|i: int|
                0 <= i < s.len() ==> !is_named(#[trigger] s[i], symbol@),
            Err(PickError::Malformed) => symbols_of(info@) is None,
        },
{
    if !info.is_record(1) {
        return Err(PickError::Malformed);
    }
    let list = match info.field("symbols", 0) {
        Some(x) => match x.as_list() {
            Some(l) => l,
            None => return Err(PickError::Malformed),
        },
        None => return Err(PickError::Malformed),
    };
    if !well_formed(list) {
        return Err(PickError::Malformed);
    }
    let ghost s = json::items(list@);
    let wanted = text::to_ascii_lower(symbol);
    let mut i: usize = 0;
    while i < list.len()
        invariant
            i <= list.len(),
            s == json::items(list@),
            s.len() == list.len(),
            symbols_of(info@) == Some(s),
            wanted@ == text::ascii_lower(symbol@),
            forall|k: int| 0 <= k < list.len() ==> #[trigger] s[k] == list@[k]@,
            forall|k: int| 0 <= k < list.len() ==> is_symbol(#[trigger] s[k]),
            forall|k: int| 0 <= k < i ==> !is_named(#[trigger] s[k], symbol@),
        decreases list.len() - i,
    {
        let name = text::to_ascii_lower(read_text_part(&list[i], "symbol", 0).as_str());
        assert(s[i as int] == list@[i as int]@);
        if text::same(name.as_str(), wanted.as_str()) {
            let m = describe(&list[i]);
            assert(first_named(symbols_of(info@)->0, symbol@, i as int));
            return Ok(m);
        }
        i = i + 1;
    }
    Err(PickError::NotFound)
}

/// The address of the description of one symbol.
pub fn symbol_info_url(rest: &str, symbol: &str) -> (r: String)
    ensures
        r@ == rest@ + "/fapi/v1/exchangeInfo?symbol="@ + symbol@,
{
    let mut s = rest.to_string();
    s.append("/fapi/v1/exchangeInfo?symbol=");
    s.append(symbol);
    s
}

/// The address of the descriptions of all symbols.
pub fn full_info_url(rest: &str) -> (r: String)
    ensures
        r@ == rest@ + "/fapi/v1/exchangeInfo"@,
{
    let mut s = rest.to_string();
    s.append("/fapi/v1/exchangeInfo");
    s
}

/// A text in lower case.
pub uninterp spec fn lower_case_of(s: Seq<char>) -> Seq<char>;

/// `str::to_lowercase`: a function of the text, which is given a name. Of a
/// text in ASCII it lowers the letters `A` to `Z` and leaves the rest.
#[verifier::external_body]
fn to_lower_case(s: &str) -> (r: String)
    ensures
        r@ == lower_case_of(s@),
        (forall|i: int| 0 <= i < s@.len() ==> (#[trigger] s@[i]) as int <= 127) ==> r@
            == text::ascii_lower(s@),
{
    s.to_lowercase()
}

/// The address of the two streams of a symbol, whose name is in lower case.
pub open spec fn streams(ws_url: Seq<char>, lower: Seq<char>) -> Seq<char> {
    ws_url + "?streams="@ + lower + "@bookTicker/"@ + lower + "@aggTrade"@
}

/// The address of the two streams of a symbol, whose name is in lower case.
pub fn stream_url_of(ws_url: &str, lower: &str) -> (r: String)
    ensures
        r@ == streams(ws_url@, lower@),
{
    let mut s = ws_url.to_string();
    s.append("?streams=");
    s.append(lower);
    s.append("@bookTicker/");
    s.append(lower);
    s.append("@aggTrade");
    s
}

/// The address of the two streams of a symbol.
pub fn stream_url(ws_url: &str, symbol: &str) -> (r: String)
    ensures
        r@ == streams(ws_url@, lower_case_of(symbol@)),
{
    let lower = to_lower_case(symbol);
    stream_url_of(ws_url, lower.as_str())
}

/// A message of the streams. Prices and quantities are texts as they came.
#[derive(Debug, Clone)]
pub enum BinanceMessage {
    Quote {
        bid: String,
        ask: String,
        bid_qty: Option<String>,
        ask_qty: Option<String>,
        /// Time on the exchange, where it is given (milliseconds).
        exch_ms: Option<i64>,
    },
    Trade { price: String, qty: String, buyer_is_maker: bool },
}

/// A message as plain values.
pub ghost enum MessageView {
    Quote {
        bid: Seq<char>,
        ask: Seq<char>,
        bid_qty: Option<Seq<char>>,
        ask_qty: Option<Seq<char>>,
        exch_ms: Option<i64>,
    },
    Trade { price: Seq<char>, qty: Seq<char>, buyer_is_maker: bool },
}

impl View for BinanceMessage {
    type V = MessageView;

    open spec fn view(&self) -> MessageView {
        match *self {
            BinanceMessage::Quote { bid, ask, bid_qty, ask_qty, exch_ms } => MessageView::Quote {
                bid: bid@,
                ask: ask@,
                bid_qty: gate_types::opt_view(bid_qty),
                ask_qty: gate_types::opt_view(ask_qty),
                exch_ms,
            },
            BinanceMessage::Trade { price, qty, buyer_is_maker } => MessageView::Trade {
                price: price@,
                qty: qty@,
                buyer_is_maker,
            },
        }
    }
}

/// An integer member of an object.
pub open spec fn number_at(j: JsonView, key: Seq<char>) -> Option<i64> {
    match j.get(key) {
        Some(x) => x.integer(),
        None => None,
    }
}

/// What a message says; nothing where it is not one of the two streams or lacks
/// a price or a quantity of a trade.
pub open spec fn message_in(v: JsonView) -> Option<MessageView> {
    match (gate_types::required_text(v, "stream"@, 0), v.field("data"@, 1)) {
        (Some(stream), Some(d)) => if !v.is_record(2) {
            None
        } else if text::closes_with(stream, "@bookTicker"@) {
            match (d.text_at("b"@), d.text_at("a"@)) {
                (Some(bid), Some(ask)) => Some(
                    MessageView::Quote {
                        bid,
                        ask,
                        bid_qty: d.text_at("B"@),
                        ask_qty: d.text_at("A"@),
                        exch_ms: match number_at(d, "E"@) {
                            Some(t) => Some(t),
                            None => number_at(d, "T"@),
                        },
                    },
                ),
                _ => None,
            }
        } else if text::closes_with(stream, "@aggTrade"@) {
            match (d.text_at("p"@), d.text_at("q"@)) {
                (Some(price), Some(qty)) => Some(
                    MessageView::Trade { price, qty, buyer_is_maker: d.flag("m"@) },
                ),
                _ => None,
            }
        } else {
            None
        },
        _ => None,
    }
}

fn optional_text(j: &Json, key: &str) -> (r: Option<String>)
    ensures
        gate_types::opt_view(r) == j@.text_at(key@),
{
    match j.text_at(key) {
        Some(s) => Some(s.to_string()),
        None => None,
    }
}

fn optional_number(j: &Json, key: &str) -> (r: Option<i64>)
    ensures
        r == number_at(j@, key@),
{
    match j.get(key) {
        Some(x) => x.as_i64(),
        None => None,
    }
}

/// What a message says.
pub fn message_of(v: &Json) -> (r: Option<BinanceMessage>)
    ensures
        match r {
            Some(m) => message_in(v@) == Some(m@),
            None => message_in(v@) is None,
        },
{
    if !v.is_record(2) {
        return None;
    }
    let stream = match v.field("stream", 0) {
        Some(x) => match x.as_str() {
            Some(s) => s,
            None => return None,
        },
        None => return None,
    };
    let d = match v.field("data", 1) {
        Some(d) => d,
        None => return None,
    };
    if text::ends_with(stream, "@bookTicker") {
        match (optional_text(d, "b"), optional_text(d, "a")) {
            (Some(bid), Some(ask)) => {
                let exch_ms = match optional_number(d, "E") {
                    Some(t) => Some(t),
                    None => optional_number(d, "T"),
                };
                Some(
                    BinanceMessage::Quote {
                        bid,
                        ask,
                        bid_qty: optional_text(d, "B"),
                        ask_qty: optional_text(d, "A"),
                        exch_ms,
                    },
                )
            },
            _ => None,
        }
    } else if text::ends_with(stream, "@aggTrade") {
        match (optional_text(d, "p"), optional_text(d, "q")) {
            (Some(price), Some(qty)) => Some(
                BinanceMessage::Trade { price, qty, buyer_is_maker: d.flag("m") },
            ),
            _ => None,
        }
    } else {
        None
    }
}

/// Reads a message of the streams.
pub fn parse_message(text: &str) -> (r: Option<BinanceMessage>)
    ensures
        match json::json_of(text@) {
            Some(v) => match r {
                Some(m) => message_in(v) == Some(m@),
                None => message_in(v) is None,
            },
            None => r is None,
        },
{
    match json::read_json(text) {
        Some(v) => message_of(&v),
        None => None,
    }
}

} // verus!
