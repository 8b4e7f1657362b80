//! Gate futures JSON shapes shared by REST, private streams and the WS API.
//!
//! Gate sends numbers as JSON numbers or as texts. A record is an object or a list
//! of its fields in order. It is read in two steps: first with its number fields
//! as they came (`IntField` and the texts of real numbers), then with `I` and `R`
//! as the numbers themselves.

use vstd::prelude::*;

use crate::decimal;
use crate::decimal::Dec;
use crate::engine::events::{AccountInfo, PositionInfo};
use crate::exchange::json;
use crate::exchange::json::{Json, JsonView};
use crate::order::model::{ExchangeStatus, InfoView, OrderInfo, Tif, UserTrade};
use crate::text;
use crate::time::Instant;
use crate::types::{ContractMeta, Side, Ticks};

verus! {

/// An integer field as it came.
#[derive(Debug, Clone)]
pub enum IntField {
    Known(i64),
    /// A number in writing, of which the whole part is meant.
    Decimal(String),
}

/// An integer field as plain values.
pub ghost enum IntView {
    Known(i64),
    Decimal(Seq<char>),
}

impl View for IntField {
    type V = IntView;

    open spec fn view(&self) -> IntView {
        match *self {
            IntField::Known(n) => IntView::Known(n),
            IntField::Decimal(s) => IntView::Decimal(s@),
        }
    }
}

/// Any value as an integer field; what is no number counts as zero.
pub open spec fn lossy_int(j: JsonView) -> IntView {
    match j {
        JsonView::Number(t, i, _) => match i {
            Some(n) => IntView::Known(n),
            None => IntView::Decimal(t),
        },
        JsonView::Text(s) => IntView::Decimal(s),
        _ => IntView::Known(0),
    }
}

/// Any value as a text; empty for what is neither a number nor a text.
pub open spec fn lossy_text(j: JsonView) -> Seq<char> {
    match j {
        JsonView::Number(t, _, _) => t,
        JsonView::Text(s) => s,
        _ => seq![],
    }
}

/// An integer field, zero where it is missing.
pub open spec fn int_field(j: JsonView, key: Seq<char>, at: int) -> IntView {
    match j.field(key, at) {
        Some(x) => lossy_int(x),
        None => IntView::Known(0),
    }
}

/// A number or text field in writing, empty where it is missing.
pub open spec fn real_field(j: JsonView, key: Seq<char>, at: int) -> Seq<char> {
    match j.field(key, at) {
        Some(x) => lossy_text(x),
        None => seq![],
    }
}

/// A text field, empty where it is missing; it must not be anything else.
pub open spec fn text_field(j: JsonView, key: Seq<char>, at: int) -> Option<Seq<char>> {
    match j.field(key, at) {
        Some(x) => x.text(),
        None => Some(seq![]),
    }
}

/// A text field that must be there.
pub open spec fn required_text(j: JsonView, key: Seq<char>, at: int) -> Option<Seq<char>> {
    match j.field(key, at) {
        Some(x) => x.text(),
        None => None,
    }
}

/// A flag, false where it is missing; it must not be anything else.
pub open spec fn bool_field(j: JsonView, key: Seq<char>, at: int) -> Option<bool> {
    match j.field(key, at) {
        Some(x) => x.truth(),
        None => Some(false),
    }
}

fn read_lossy_int(j: &Json) -> (r: IntField)
    ensures
        r@ == lossy_int(j@),
{
    match j {
        Json::Number(n) => match n.signed {
            Some(i) => IntField::Known(i),
            None => IntField::Decimal(n.text.clone()),
        },
        Json::Text(s) => IntField::Decimal(s.clone()),
        _ => IntField::Known(0),
    }
}

fn read_lossy_text(j: &Json) -> (r: String)
    ensures
        r@ == lossy_text(j@),
{
    match j {
        Json::Number(n) => n.text.clone(),
        Json::Text(s) => s.clone(),
        _ => {
            let r = String::new();
            assert(r@ =~= seq![]);
            r
        },
    }
}

fn read_int(j: &Json, key: &str, at: usize) -> (r: IntField)
    ensures
        r@ == int_field(j@, key@, at as int),
{
    match j.field(key, at) {
        Some(x) => read_lossy_int(x),
        None => IntField::Known(0),
    }
}

fn read_real(j: &Json, key: &str, at: usize) -> (r: String)
    ensures
        r@ == real_field(j@, key@, at as int),
{
    match j.field(key, at) {
        Some(x) => read_lossy_text(x),
        None => {
            let r = String::new();
            assert(r@ =~= seq![]);
            r
        },
    }
}

/// The characters of an optional text.
pub open spec fn opt_view(s: Option<String>) -> Option<Seq<char>> {
    match s {
        Some(t) => Some(t@),
        None => None,
    }
}

fn read_text(j: &Json, key: &str, at: usize) -> (r: Option<String>)
    ensures
        opt_view(r) == text_field(j@, key@, at as int),
{
    match j.field(key, at) {
        Some(x) => match x.as_str() {
            Some(s) => Some(s.to_string()),
            None => None,
        },
        None => {
            let r = String::new();
            assert(r@ =~= seq![]);
            Some(r)
        },
    }
}

fn read_bool(j: &Json, key: &str, at: usize) -> (r: Option<bool>)
    ensures
        r == bool_field(j@, key@, at as int),
{
    match j.field(key, at) {
        Some(x) => x.as_bool(),
        None => Some(false),
    }
}

/// Raw Gate futures order (REST and WS share the shape).
#[derive(Debug, Clone)]
pub struct GateOrder<I, R> {
    pub id: String,
    pub text: String,
    pub contract: String,
    pub size: I,
    pub left: I,
    pub price: R,
    pub fill_price: R,
    pub status: String,
    pub finish_as: String,
    pub is_reduce_only: bool,
    pub tif: String,
    pub update_time: I,
    pub update_time_ms: I,
    pub create_time_ms: I,
}

/// The fields of the record as plain values.
pub ghost struct OrderFields {
    pub id: Seq<char>,
    pub text: Seq<char>,
    pub contract: Seq<char>,
    pub size: IntView,
    pub left: IntView,
    pub price: Seq<char>,
    pub fill_price: Seq<char>,
    pub status: Seq<char>,
    pub finish_as: Seq<char>,
    pub is_reduce_only: bool,
    pub tif: Seq<char>,
    pub update_time: IntView,
    pub update_time_ms: IntView,
    pub create_time_ms: IntView,
}

impl View for GateOrder<IntField, String> {
    type V = OrderFields;

    open spec fn view(&self) -> OrderFields {
        OrderFields {
            id: self.id@,
            text: self.text@,
            contract: self.contract@,
            size: self.size@,
            left: self.left@,
            price: self.price@,
            fill_price: self.fill_price@,
            status: self.status@,
            finish_as: self.finish_as@,
            is_reduce_only: self.is_reduce_only,
            tif: self.tif@,
            update_time: self.update_time@,
            update_time_ms: self.update_time_ms@,
            create_time_ms: self.create_time_ms@,
        }
    }
}

/// What a value says of the record; none where a field is of the wrong kind or
/// the required one is missing.
pub open spec fn order_fields(j: JsonView) -> Option<OrderFields> {
    if j.is_record(14)
        && j.field("id"@, 0) is Some
        && text_field(j, "text"@, 1) is Some
        && text_field(j, "contract"@, 2) is Some
        && text_field(j, "status"@, 7) is Some
        && text_field(j, "finish_as"@, 8) is Some
        && bool_field(j, "is_reduce_only"@, 9) is Some
        && text_field(j, "tif"@, 10) is Some {
        Some(
            OrderFields {
                id: lossy_text(j.field("id"@, 0)->0),
                text: text_field(j, "text"@, 1)->0,
                contract: text_field(j, "contract"@, 2)->0,
                size: int_field(j, "size"@, 3),
                left: int_field(j, "left"@, 4),
                price: real_field(j, "price"@, 5),
                fill_price: real_field(j, "fill_price"@, 6),
                status: text_field(j, "status"@, 7)->0,
                finish_as: text_field(j, "finish_as"@, 8)->0,
                is_reduce_only: bool_field(j, "is_reduce_only"@, 9)->0,
                tif: text_field(j, "tif"@, 10)->0,
                update_time: int_field(j, "update_time"@, 11),
                update_time_ms: int_field(j, "update_time_ms"@, 12),
                create_time_ms: int_field(j, "create_time_ms"@, 13),
            },
        )
    } else {
        None
    }
}

pub fn read_order(j: &Json) -> (r: Option<GateOrder<IntField, String>>)
    ensures
        match r {
            Some(o) => order_fields(j@) == Some(o@),
            None => order_fields(j@) is None,
        },
{
    if !j.is_record(14) {
        return None;
    }
    let id = match j.field("id", 0) {
        Some(x) => read_lossy_text(x),
        None => return None,
    };
    let text = match read_text(j, "text", 1) {
        Some(s) => s,
        None => return None,
    };
    let contract = match read_text(j, "contract", 2) {
        Some(s) => s,
        None => return None,
    };
    let status = match read_text(j, "status", 7) {
        Some(s) => s,
        None => return None,
    };
    let finish_as = match read_text(j, "finish_as", 8) {
        Some(s) => s,
        None => return None,
    };
    let is_reduce_only = match read_bool(j, "is_reduce_only", 9) {
        Some(b) => b,
        None => return None,
    };
    let tif = match read_text(j, "tif", 10) {
        Some(s) => s,
        None => return None,
    };
    Some(
        GateOrder {
            id,
            text,
            contract,
            size: read_int(j, "size", 3),
            left: read_int(j, "left", 4),
            price: read_real(j, "price", 5),
            fill_price: read_real(j, "fill_price", 6),
            status,
            finish_as,
            is_reduce_only,
            tif,
            update_time: read_int(j, "update_time", 11),
            update_time_ms: read_int(j, "update_time_ms", 12),
            create_time_ms: read_int(j, "create_time_ms", 13),
        },
    )
}

/// Raw trade of ours.
#[derive(Debug, Clone)]
pub struct GateUserTrade<I, R> {
    pub id: String,
    pub order_id: String,
    pub text: String,
    pub contract: String,
    pub size: I,
    pub price: R,
    pub role: String,
    pub fee: R,
    pub create_time_ms: I,
}

/// The fields of the record as plain values.
pub ghost struct TradeFields {
    pub id: Seq<char>,
    pub order_id: Seq<char>,
    pub text: Seq<char>,
    pub contract: Seq<char>,
    pub size: IntView,
    pub price: Seq<char>,
    pub role: Seq<char>,
    pub fee: Seq<char>,
    pub create_time_ms: IntView,
}

impl View for GateUserTrade<IntField, String> {
    type V = TradeFields;

    open spec fn view(&self) -> TradeFields {
        TradeFields {
            id: self.id@,
            order_id: self.order_id@,
            text: self.text@,
            contract: self.contract@,
            size: self.size@,
            price: self.price@,
            role: self.role@,
            fee: self.fee@,
            create_time_ms: self.create_time_ms@,
        }
    }
}

/// What a value says of the record; none where a field is of the wrong kind or
/// the required one is missing.
pub open spec fn user_trade_fields(j: JsonView) -> Option<TradeFields> {
    if j.is_record(9)
        && j.field("id"@, 0) is Some
        && text_field(j, "text"@, 2) is Some
        && text_field(j, "contract"@, 3) is Some
        && text_field(j, "role"@, 6) is Some {
        Some(
            TradeFields {
                id: lossy_text(j.field("id"@, 0)->0),
                order_id: real_field(j, "order_id"@, 1),
                text: text_field(j, "text"@, 2)->0,
                contract: text_field(j, "contract"@, 3)->0,
                size: int_field(j, "size"@, 4),
                price: real_field(j, "price"@, 5),
                role: text_field(j, "role"@, 6)->0,
                fee: real_field(j, "fee"@, 7),
                create_time_ms: int_field(j, "create_time_ms"@, 8),
            },
        )
    } else {
        None
    }
}

pub fn read_user_trade(j: &Json) -> (r: Option<GateUserTrade<IntField, String>>)
    ensures
        match r {
            Some(o) => user_trade_fields(j@) == Some(o@),
            None => user_trade_fields(j@) is None,
        },
{
    if !j.is_record(9) {
        return None;
    }
    let id = match j.field("id", 0) {
        Some(x) => read_lossy_text(x),
        None => return None,
    };
    let text = match read_text(j, "text", 2) {
        Some(s) => s,
        None => return None,
    };
    let contract = match read_text(j, "contract", 3) {
        Some(s) => s,
        None => return None,
    };
    let role = match read_text(j, "role", 6) {
        Some(s) => s,
        None => return None,
    };
    Some(
        GateUserTrade {
            id,
            order_id: read_real(j, "order_id", 1),
            text,
            contract,
            size: read_int(j, "size", 4),
            price: read_real(j, "price", 5),
            role,
            fee: read_real(j, "fee", 7),
            create_time_ms: read_int(j, "create_time_ms", 8),
        },
    )
}

/// Raw position record.
#[derive(Debug, Clone)]
pub struct GatePosition<I, R> {
    pub contract: String,
    pub mode: String,
    pub size: I,
    pub entry_price: R,
    pub update_time: I,
    pub time_ms: I,
}

/// The fields of the record as plain values.
pub ghost struct PositionFields {
    pub contract: Seq<char>,
    pub mode: Seq<char>,
    pub size: IntView,
    pub entry_price: Seq<char>,
    pub update_time: IntView,
    pub time_ms: IntView,
}

impl View for GatePosition<IntField, String> {
    type V = PositionFields;

    open spec fn view(&self) -> PositionFields {
        PositionFields {
            contract: self.contract@,
            mode: self.mode@,
            size: self.size@,
            entry_price: self.entry_price@,
            update_time: self.update_time@,
            time_ms: self.time_ms@,
        }
    }
}

/// What a value says of the record; none where a field is of the wrong kind.
pub open spec fn position_fields(j: JsonView) -> Option<PositionFields> {
    if j.is_record(6)
        && text_field(j, "contract"@, 0) is Some
        && text_field(j, "mode"@, 1) is Some {
        Some(
            PositionFields {
                contract: text_field(j, "contract"@, 0)->0,
                mode: text_field(j, "mode"@, 1)->0,
                size: int_field(j, "size"@, 2),
                entry_price: real_field(j, "entry_price"@, 3),
                update_time: int_field(j, "update_time"@, 4),
                time_ms: int_field(j, "time_ms"@, 5),
            },
        )
    } else {
        None
    }
}

pub fn read_position(j: &Json) -> (r: Option<GatePosition<IntField, String>>)
    ensures
        match r {
            Some(o) => position_fields(j@) == Some(o@),
            None => position_fields(j@) is None,
        },
{
    if !j.is_record(6) {
        return None;
    }
    let contract = match read_text(j, "contract", 0) {
        Some(s) => s,
        None => return None,
    };
    let mode = match read_text(j, "mode", 1) {
        Some(s) => s,
        None => return None,
    };
    Some(
        GatePosition {
            contract,
            mode,
            size: read_int(j, "size", 2),
            entry_price: read_real(j, "entry_price", 3),
            update_time: read_int(j, "update_time", 4),
            time_ms: read_int(j, "time_ms", 5),
        },
    )
}

/// Raw account record.
#[derive(Debug, Clone)]
pub struct GateAccount<I, R> {
    pub user: I,
    pub total: R,
    pub available: R,
    pub unrealised_pnl: R,
    pub order_margin: R,
    pub position_margin: R,
    pub in_dual_mode: bool,
}

/// The fields of the record as plain values.
pub ghost struct AccountFields {
    pub user: IntView,
    pub total: Seq<char>,
    pub available: Seq<char>,
    pub unrealised_pnl: Seq<char>,
    pub order_margin: Seq<char>,
    pub position_margin: Seq<char>,
    pub in_dual_mode: bool,
}

impl View for GateAccount<IntField, String> {
    type V = AccountFields;

    open spec fn view(&self) -> AccountFields {
        AccountFields {
            user: self.user@,
            total: self.total@,
            available: self.available@,
            unrealised_pnl: self.unrealised_pnl@,
            order_margin: self.order_margin@,
            position_margin: self.position_margin@,
            in_dual_mode: self.in_dual_mode,
        }
    }
}

/// What a value says of the record; none where a field is of the wrong kind.
pub open spec fn account_fields(j: JsonView) -> Option<AccountFields> {
    if j.is_record(7)
        && bool_field(j, "in_dual_mode"@, 6) is Some {
        Some(
            AccountFields {
                user: int_field(j, "user"@, 0),
                total: real_field(j, "total"@, 1),
                available: real_field(j, "available"@, 2),
                unrealised_pnl: real_field(j, "unrealised_pnl"@, 3),
                order_margin: real_field(j, "order_margin"@, 4),
                position_margin: real_field(j, "position_margin"@, 5),
                in_dual_mode: bool_field(j, "in_dual_mode"@, 6)->0,
            },
        )
    } else {
        None
    }
}

pub fn read_account(j: &Json) -> (r: Option<GateAccount<IntField, String>>)
    ensures
        match r {
            Some(o) => account_fields(j@) == Some(o@),
            None => account_fields(j@) is None,
        },
{
    if !j.is_record(7) {
        return None;
    }
    let in_dual_mode = match read_bool(j, "in_dual_mode", 6) {
        Some(b) => b,
        None => return None,
    };
    Some(
        GateAccount {
            user: read_int(j, "user", 0),
            total: read_real(j, "total", 1),
            available: read_real(j, "available", 2),
            unrealised_pnl: read_real(j, "unrealised_pnl", 3),
            order_margin: read_real(j, "order_margin", 4),
            position_margin: read_real(j, "position_margin", 5),
            in_dual_mode,
        },
    )
}

/// Raw contract description.
#[derive(Debug, Clone)]
pub struct GateContract<I, R> {
    pub name: String,
    pub order_price_round: String,
    pub quanto_multiplier: String,
    pub order_size_min: I,
    pub order_size_max: I,
    pub orders_limit: I,
    pub order_price_deviate: R,
    pub funding_interval: I,
    pub funding_next_apply: I,
    pub maker_fee_rate: R,
    pub taker_fee_rate: R,
    pub in_delisting: bool,
    pub status: String,
    pub contract_type: String,
}

/// The fields of the record as plain values.
pub ghost struct ContractFields {
    pub name: Seq<char>,
    pub order_price_round: Seq<char>,
    pub quanto_multiplier: Seq<char>,
    pub order_size_min: IntView,
    pub order_size_max: IntView,
    pub orders_limit: IntView,
    pub order_price_deviate: Seq<char>,
    pub funding_interval: IntView,
    pub funding_next_apply: IntView,
    pub maker_fee_rate: Seq<char>,
    pub taker_fee_rate: Seq<char>,
    pub in_delisting: bool,
    pub status: Seq<char>,
    pub contract_type: Seq<char>,
}

impl View for GateContract<IntField, String> {
    type V = ContractFields;

    open spec fn view(&self) -> ContractFields {
        ContractFields {
            name: self.name@,
            order_price_round: self.order_price_round@,
            quanto_multiplier: self.quanto_multiplier@,
            order_size_min: self.order_size_min@,
            order_size_max: self.order_size_max@,
            orders_limit: self.orders_limit@,
            order_price_deviate: self.order_price_deviate@,
            funding_interval: self.funding_interval@,
            funding_next_apply: self.funding_next_apply@,
            maker_fee_rate: self.maker_fee_rate@,
            taker_fee_rate: self.taker_fee_rate@,
            in_delisting: self.in_delisting,
            status: self.status@,
            contract_type: self.contract_type@,
        }
    }
}

/// What a value says of the record; none where a field is of the wrong kind or
/// the required one is missing.
pub open spec fn contract_fields(j: JsonView) -> Option<ContractFields> {
    if j.is_record(14)
        && required_text(j, "name"@, 0) is Some
        && text_field(j, "order_price_round"@, 1) is Some
        && text_field(j, "quanto_multiplier"@, 2) is Some
        && bool_field(j, "in_delisting"@, 11) is Some
        && text_field(j, "status"@, 12) is Some
        && text_field(j, "contract_type"@, 13) is Some {
        Some(
            ContractFields {
                name: required_text(j, "name"@, 0)->0,
                order_price_round: text_field(j, "order_price_round"@, 1)->0,
                quanto_multiplier: text_field(j, "quanto_multiplier"@, 2)->0,
                order_size_min: int_field(j, "order_size_min"@, 3),
                order_size_max: int_field(j, "order_size_max"@, 4),
                orders_limit: int_field(j, "orders_limit"@, 5),
                order_price_deviate: real_field(j, "order_price_deviate"@, 6),
                funding_interval: int_field(j, "funding_interval"@, 7),
                funding_next_apply: int_field(j, "funding_next_apply"@, 8),
                maker_fee_rate: real_field(j, "maker_fee_rate"@, 9),
                taker_fee_rate: real_field(j, "taker_fee_rate"@, 10),
                in_delisting: bool_field(j, "in_delisting"@, 11)->0,
                status: text_field(j, "status"@, 12)->0,
                contract_type: text_field(j, "contract_type"@, 13)->0,
            },
        )
    } else {
        None
    }
}

pub fn read_contract(j: &Json) -> (r: Option<GateContract<IntField, String>>)
    ensures
        match r {
            Some(o) => contract_fields(j@) == Some(o@),
            None => contract_fields(j@) is None,
        },
{
    if !j.is_record(14) {
        return None;
    }
    let name = match j.field("name", 0) {
        Some(x) => match x.as_str() {
            Some(s) => s.to_string(),
            None => return None,
        },
        None => return None,
    };
    let order_price_round = match read_text(j, "order_price_round", 1) {
        Some(s) => s,
        None => return None,
    };
    let quanto_multiplier = match read_text(j, "quanto_multiplier", 2) {
        Some(s) => s,
        None => return None,
    };
    let in_delisting = match read_bool(j, "in_delisting", 11) {
        Some(b) => b,
        None => return None,
    };
    let status = match read_text(j, "status", 12) {
        Some(s) => s,
        None => return None,
    };
    let contract_type = match read_text(j, "contract_type", 13) {
        Some(s) => s,
        None => return None,
    };
    Some(
        GateContract {
            name,
            order_price_round,
            quanto_multiplier,
            order_size_min: read_int(j, "order_size_min", 3),
            order_size_max: read_int(j, "order_size_max", 4),
            orders_limit: read_int(j, "orders_limit", 5),
            order_price_deviate: read_real(j, "order_price_deviate", 6),
            funding_interval: read_int(j, "funding_interval", 7),
            funding_next_apply: read_int(j, "funding_next_apply", 8),
            maker_fee_rate: read_real(j, "maker_fee_rate", 9),
            taker_fee_rate: read_real(j, "taker_fee_rate", 10),
            in_delisting,
            status,
            contract_type,
        },
    )
}


/// Milliseconds of a record: the millisecond field where it is set, else the
/// seconds field.
pub open spec fn millis(ms: i64, secs: i64) -> int {
    if ms > 0 {
        ms as int
    } else {
        secs * 1000
    }
}

/// Size without its sign.
pub open spec fn unsigned(n: i64) -> int {
    if n >= 0 {
        n as int
    } else {
        -n
    }
}

fn magnitude(n: i64) -> (r: i64)
    requires
        n > i64::MIN,
    ensures
        r == unsigned(n),
{
    if n >= 0 {
        n
    } else {
        -n
    }
}

fn record_ms(ms: i64, secs: i64) -> (r: i64)
    requires
        i64::MIN <= millis(ms, secs) <= i64::MAX,
    ensures
        r == millis(ms, secs),
{
    if ms > 0 {
        ms
    } else {
        secs * 1000
    }
}

fn fits_ms(ms: i64, secs: i64) -> (r: bool)
    ensures
        r == (i64::MIN <= millis(ms, secs) <= i64::MAX),
{
    ms > 0 || (i64::MIN as i128 <= secs as i128 * 1000 && secs as i128 * 1000 <= i64::MAX as i128)
}

/// The time in force that a wire name stands for.
pub open spec fn tif_of(name: Seq<char>) -> Option<Tif> {
    if name == "poc"@ {
        Some(Tif::Poc)
    } else if name == "ioc"@ {
        Some(Tif::Ioc)
    } else if name == "gtc"@ {
        Some(Tif::Gtc)
    } else {
        None
    }
}

impl<R> GateOrder<i64, R> {
    /// The sizes have a magnitude and the time fits.
    pub open spec fn convertible(self) -> bool {
        &&& self.size > i64::MIN
        &&& self.left > i64::MIN
        &&& i64::MIN <= millis(self.update_time_ms, self.update_time) <= i64::MAX
    }

    pub open spec fn info(self, price: Ticks) -> InfoView {
        InfoView {
            exchange_id: self.id@,
            client_id: self.text@,
            side: if self.size >= 0 {
                Side::Buy
            } else {
                Side::Sell
            },
            price,
            size: unsigned(self.size) as i64,
            left: unsigned(self.left) as i64,
            status: if self.status@ == "finished"@ {
                ExchangeStatus::Finished
            } else {
                ExchangeStatus::Open
            },
            finish_as: self.finish_as@,
            reduce_only: self.is_reduce_only,
            tif: tif_of(self.tif@),
            update_ms: millis(self.update_time_ms, self.update_time) as i64,
        }
    }

    pub fn is_convertible(&self) -> (r: bool)
        ensures
            r == self.convertible(),
    {
        self.size > i64::MIN && self.left > i64::MIN && fits_ms(
            self.update_time_ms,
            self.update_time,
        )
    }

    /// The record in normal form; `price` is its price in ticks.
    pub fn to_info(&self, price: Ticks) -> (r: OrderInfo)
        requires
            self.convertible(),
        ensures
            r@ == self.info(price),
    {
        let tif = if text::same(self.tif.as_str(), "poc") {
            Some(Tif::Poc)
        } else if text::same(self.tif.as_str(), "ioc") {
            Some(Tif::Ioc)
        } else if text::same(self.tif.as_str(), "gtc") {
            Some(Tif::Gtc)
        } else {
            None
        };
        OrderInfo {
            exchange_id: self.id.clone(),
            client_id: self.text.clone(),
            side: if self.size >= 0 {
                Side::Buy
            } else {
                Side::Sell
            },
            price,
            size: magnitude(self.size),
            left: magnitude(self.left),
            status: if text::same(self.status.as_str(), "finished") {
                ExchangeStatus::Finished
            } else {
                ExchangeStatus::Open
            },
            finish_as: self.finish_as.clone(),
            reduce_only: self.is_reduce_only,
            tif,
            update_ms: record_ms(self.update_time_ms, self.update_time),
        }
    }
}

impl<R: Copy> GateUserTrade<i64, R> {
    /// The trade in normal form; `price` is its price in ticks.
    pub fn to_user_trade(&self, price: Ticks, at: Instant) -> (r: UserTrade<R>)
        ensures
            r.trade_id@ == self.id@,
            r.exchange_order_id@ == self.order_id@,
            r.client_id@ == self.text@,
            r.signed_size == self.size,
            r.price == price,
            r.price_f64 == self.price,
            r.fee == self.fee,
            r.is_maker == (self.role@ == "maker"@),
            r.exch_ms == self.create_time_ms,
            r.at == at,
    {
        UserTrade {
            trade_id: self.id.clone(),
            exchange_order_id: self.order_id.clone(),
            client_id: self.text.clone(),
            signed_size: self.size,
            price,
            price_f64: self.price,
            fee: self.fee,
            is_maker: text::same(self.role.as_str(), "maker"),
            exch_ms: self.create_time_ms,
            at,
        }
    }
}

impl<R: Copy> GatePosition<i64, R> {
    pub open spec fn convertible(self) -> bool {
        i64::MIN <= millis(self.time_ms, self.update_time) <= i64::MAX
    }

    pub fn is_convertible(&self) -> (r: bool)
        ensures
            r == self.convertible(),
    {
        fits_ms(self.time_ms, self.update_time)
    }

    /// The record in normal form; without a mode it is a single position.
    pub fn to_info(&self) -> (r: PositionInfo<R>)
        requires
            self.convertible(),
        ensures
            r.mode@ == (if self.mode@.len() == 0 {
                "single"@
            } else {
                self.mode@
            }),
            r.size == self.size,
            r.entry_price == self.entry_price,
            r.update_ms == millis(self.time_ms, self.update_time),
    {
        PositionInfo {
            mode: if self.mode.as_str().is_empty() {
                "single".to_string()
            } else {
                self.mode.clone()
            },
            size: self.size,
            entry_price: self.entry_price,
            update_ms: record_ms(self.time_ms, self.update_time),
        }
    }
}

impl<R: Copy> GateAccount<i64, R> {
    pub fn to_info(&self, at: Instant) -> (r: AccountInfo<R>)
        ensures
            r == (AccountInfo {
                user_id: self.user,
                total: self.total,
                available: self.available,
                unrealised_pnl: self.unrealised_pnl,
                order_margin: self.order_margin,
                position_margin: self.position_margin,
                in_dual_mode: self.in_dual_mode,
                at,
            }),
    {
        AccountInfo {
            user_id: self.user,
            total: self.total,
            available: self.available,
            unrealised_pnl: self.unrealised_pnl,
            order_margin: self.order_margin,
            position_margin: self.position_margin,
            in_dual_mode: self.in_dual_mode,
            at,
        }
    }
}

/// Why a contract description cannot be used.
#[derive(Debug, Clone, Copy, PartialEq, Eq, Structural)]
pub enum MetaError {
    /// `order_price_round` is no decimal.
    PriceRound,
    /// `quanto_multiplier` is no decimal.
    Multiplier,
    /// The tick size or the multiplier is not positive.
    NotPositive,
}

/// Size limit where the exchange names none.
pub const UNLIMITED_SIZE: i64 = 2_305_843_009_213_693_951;

/// Tick size and multiplier as they read, or what is wrong with them.
pub open spec fn meta_check(tick: Option<(int, nat)>, multiplier: Option<(int, nat)>) -> Option<
    MetaError,
> {
    match (tick, multiplier) {
        (None, _) => Some(MetaError::PriceRound),
        (Some(_), None) => Some(MetaError::Multiplier),
        (Some(t), Some(m)) => if t.0 <= 0 || m.0 <= 0 {
            Some(MetaError::NotPositive)
        } else {
            None
        },
    }
}

impl<R: Copy> GateContract<i64, R> {
    /// The metadata is that of the contract, tick size and multiplier aside.
    pub open spec fn describes(self, m: ContractMeta<R>) -> bool {
        &&& m.name@ == self.name@
        &&& m.order_size_min == (if self.order_size_min > 1 {
            self.order_size_min
        } else {
            1
        })
        &&& m.order_size_max == (if self.order_size_max > 0 {
            self.order_size_max
        } else {
            UNLIMITED_SIZE
        })
        &&& m.orders_limit == self.orders_limit
        &&& m.price_deviate == self.order_price_deviate
        &&& m.funding_interval_secs == self.funding_interval
        &&& m.funding_next_apply == self.funding_next_apply
        &&& m.maker_fee == self.maker_fee_rate
        &&& m.taker_fee == self.taker_fee_rate
        &&& m.in_delisting == (self.in_delisting || self.status@ != "trading"@)
    }

    /// The metadata, given the tick size and the multiplier as they read.
    pub fn meta_of(&self, tick: Option<Dec>, multiplier: Option<Dec>) -> (r: Result<
        ContractMeta<R>,
        MetaError,
    >)
        ensures
            match r {
                Err(e) => meta_check(decimal::parts(tick), decimal::parts(multiplier)) == Some(e),
                Ok(m) => {
                    &&& meta_check(decimal::parts(tick), decimal::parts(multiplier)) is None
                    &&& tick == Some(m.tick)
                    &&& multiplier == Some(m.multiplier)
                    &&& self.describes(m)
                },
            },
    {
        let tick = match tick {
            Some(d) => d,
            None => return Err(MetaError::PriceRound),
        };
        let multiplier = match multiplier {
            Some(d) => d,
            None => return Err(MetaError::Multiplier),
        };
        if tick.mantissa <= 0 || multiplier.mantissa <= 0 {
            return Err(MetaError::NotPositive);
        }
        Ok(
            ContractMeta {
                name: self.name.clone(),
                tick,
                multiplier,
                order_size_min: if self.order_size_min > 1 {
                    self.order_size_min
                } else {
                    1
                },
                order_size_max: if self.order_size_max > 0 {
                    self.order_size_max
                } else {
                    UNLIMITED_SIZE
                },
                orders_limit: self.orders_limit,
                price_deviate: self.order_price_deviate,
                funding_interval_secs: self.funding_interval,
                funding_next_apply: self.funding_next_apply,
                maker_fee: self.maker_fee_rate,
                taker_fee: self.taker_fee_rate,
                in_delisting: self.in_delisting || !text::same(self.status.as_str(), "trading"),
            },
        )
    }

    /// The metadata that the engine needs.
    pub fn to_meta(&self) -> (r: Result<ContractMeta<R>, MetaError>)
        ensures
            match r {
                Err(e) => meta_check(
                    decimal::decimal_of(self.order_price_round@),
                    decimal::decimal_of(self.quanto_multiplier@),
                ) == Some(e),
                Ok(m) => {
                    &&& decimal::parts(Some(m.tick)) == decimal::decimal_of(
                        self.order_price_round@,
                    )
                    &&& decimal::parts(Some(m.multiplier)) == decimal::decimal_of(
                        self.quanto_multiplier@,
                    )
                    &&& m.tick.wf() && m.tick.mantissa > 0
                    &&& m.multiplier.wf() && m.multiplier.mantissa > 0
                    &&& self.describes(m)
                },
            },
    {
        let tick = Dec::parse(self.order_price_round.as_str());
        let multiplier = Dec::parse(self.quanto_multiplier.as_str());
        self.meta_of(tick, multiplier)
    }
}

/// A price level as it came.
#[derive(Debug, Clone)]
pub struct GateDepthLevel<I, R> {
    pub p: R,
    pub s: I,
}

/// A price level as plain values.
pub ghost struct LevelFields {
    pub p: Seq<char>,
    pub s: IntView,
}

impl View for GateDepthLevel<IntField, String> {
    type V = LevelFields;

    open spec fn view(&self) -> LevelFields {
        LevelFields { p: self.p@, s: self.s@ }
    }
}

/// A record of both price and size.
pub open spec fn is_level(j: JsonView) -> bool {
    j.is_record(2) && j.field("p"@, 0) is Some && j.field("s"@, 1) is Some
}

/// Price levels; none unless every item is one.
pub open spec fn level_fields(j: JsonView) -> Option<Seq<LevelFields>> {
    match j {
        JsonView::List(s) => if forall|i: int| 0 <= i < s.len() ==> is_level(#[trigger] s[i]) {
            Some(
                s.map_values(
                    |x: JsonView|
                        LevelFields {
                            p: lossy_text(x.field("p"@, 0)->0),
                            s: lossy_int(x.field("s"@, 1)->0),
                        },
                ),
            )
        } else {
            None
        },
        _ => None,
    }
}

/// The levels of a list, as plain values.
pub open spec fn level_views(ls: Seq<GateDepthLevel<IntField, String>>) -> Seq<LevelFields> {
    ls.map_values(|l: GateDepthLevel<IntField, String>| l@)
}

pub fn read_levels(j: &Json) -> (r: Option<Vec<GateDepthLevel<IntField, String>>>)
    ensures
        match r {
            Some(v) => level_fields(j@) == Some(level_views(v@)),
            None => level_fields(j@) is None,
        },
{
    let list = match j.as_list() {
        Some(l) => l,
        None => return None,
    };
    let ghost all = json::items(list@);
    let mut v: Vec<GateDepthLevel<IntField, String>> = Vec::new();
    let mut i: usize = 0;
    while i < list.len()
        invariant
            i <= list.len(),
            all.len() == list.len(),
            j@ == JsonView::List(all),
            forall|k: int| 0 <= k < list.len() ==> #[trigger] all[k] == list@[k]@,
            v@.len() == i,
            forall|k: int|
                0 <= k < i ==> is_level(#[trigger] all[k]) && v@[k]@ == (LevelFields {
                    p: lossy_text(all[k].field("p"@, 0)->0),
                    s: lossy_int(all[k].field("s"@, 1)->0),
                }),
        decreases list.len() - i,
    {
        let x = &list[i];
        assert(all[i as int] == x@);
        if !x.is_record(2) {
            assert(!is_level(all[i as int]));
            return None;
        }
        let p = match x.field("p", 0) {
            Some(p) => read_lossy_text(p),
            None => {
                assert(!is_level(all[i as int]));
                return None;
            },
        };
        let s = match x.field("s", 1) {
            Some(s) => read_lossy_int(s),
            None => {
                assert(!is_level(all[i as int]));
                return None;
            },
        };
        v.push(GateDepthLevel { p, s });
        i = i + 1;
    }
    assert(level_views(v@) =~= level_fields(j@)->0);
    Some(v)
}

/// Raw depth snapshot.
#[derive(Debug, Clone)]
pub struct GateBookRest<I, R> {
    pub id: I,
    pub asks: Vec<GateDepthLevel<I, R>>,
    pub bids: Vec<GateDepthLevel<I, R>>,
}

/// The levels of one side of a snapshot; no levels where the side is missing.
pub open spec fn side_fields(j: JsonView, key: Seq<char>, at: int) -> Option<Seq<LevelFields>> {
    match j.field(key, at) {
        Some(x) => level_fields(x),
        None => Some(seq![]),
    }
}

fn read_side(j: &Json, key: &str, at: usize) -> (r: Option<Vec<GateDepthLevel<IntField, String>>>)
    ensures
        match r {
            Some(v) => side_fields(j@, key@, at as int) == Some(level_views(v@)),
            None => side_fields(j@, key@, at as int) is None,
        },
{
    match j.field(key, at) {
        Some(x) => read_levels(x),
        None => {
            let v: Vec<GateDepthLevel<IntField, String>> = Vec::new();
            assert(level_views(v@) =~= seq![]);
            Some(v)
        },
    }
}

pub fn read_book(j: &Json) -> (r: Option<GateBookRest<IntField, String>>)
    ensures
        match r {
            Some(b) => {
                &&& j@.is_record(3)
                &&& b.id@ == int_field(j@, "id"@, 0)
                &&& side_fields(j@, "asks"@, 1) == Some(level_views(b.asks@))
                &&& side_fields(j@, "bids"@, 2) == Some(level_views(b.bids@))
            },
            None => !j@.is_record(3) || side_fields(j@, "asks"@, 1) is None || side_fields(
                j@,
                "bids"@,
                2,
            ) is None,
        },
{
    if !j.is_record(3) {
        return None;
    }
    let asks = match read_side(j, "asks", 1) {
        Some(v) => v,
        None => return None,
    };
    let bids = match read_side(j, "bids", 2) {
        Some(v) => v,
        None => return None,
    };
    Some(GateBookRest { id: read_int(j, "id", 0), asks, bids })
}

/// Raw fee rates.
#[derive(Debug, Clone)]
pub struct GateFee<R> {
    pub taker_fee: R,
    pub maker_fee: R,
}

/// Where the fee rates of a contract stand: under its name, or at the top.
pub open spec fn fee_of(j: JsonView, contract: Seq<char>) -> JsonView {
    match j.get(contract) {
        Some(x) => x,
        None => j,
    }
}

/// The fee rates of a contract.
pub fn read_fee(j: &Json, contract: &str) -> (r: Option<GateFee<String>>)
    ensures
        match r {
            Some(f) => {
                &&& fee_of(j@, contract@).is_record(2)
                &&& f.taker_fee@ == real_field(fee_of(j@, contract@), "taker_fee"@, 0)
                &&& f.maker_fee@ == real_field(fee_of(j@, contract@), "maker_fee"@, 1)
            },
            None => !fee_of(j@, contract@).is_record(2),
        },
{
    let f = match j.get(contract) {
        Some(x) => x,
        None => j,
    };
    if f.is_record(2) {
        Some(
            GateFee {
                taker_fee: read_real(f, "taker_fee", 0),
                maker_fee: read_real(f, "maker_fee", 1),
            },
        )
    } else {
        None
    }
}

} // verus!
