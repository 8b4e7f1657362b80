//! What requests, answers, updates, trades and timeouts make of an order.

use vstd::prelude::*;

use crate::order::lifecycle;
use crate::order::lifecycle::ManagerView;
use crate::order::model;
use crate::order::model::{
    CommandView, DoneReason, ExchangeStatus, Fill, InfoView, Intent, OrderState, OrderView,
    ResponseView, ResultView, Tif, UserTrade, MAX_CONTRACTS,
};
use crate::text;
use crate::time::{Duration, Instant};
use crate::types::{Purpose, Side, Ticks};

verus! {

/// The order is finished.
pub open spec fn is_done(o: OrderView) -> bool {
    o.state is Done
}

/// All orders but one are as they were.
pub open spec fn others_stay(v: ManagerView, w: ManagerView, id: u64) -> bool {
    forall|k: u64| #[trigger]
        lifecycle::known(v.orders, k) && k != id ==> lifecycle::known(w.orders, k) && w.at(k)
            == v.at(k)
}

proof fn lemma_found(v: ManagerView, id: u64)
    requires
        v.wf(),
        lifecycle::known(v.orders, id),
    ensures
        v.at(id).id == id,
        v.at(id).valid(),
{
    let p = lifecycle::pos(v.orders, id);
    assert(0 <= p < v.orders.len() && v.orders[p].id == id);
}

/// An order put back in leaves all others alone.
proof fn lemma_put_only(v: ManagerView, w: ManagerView, o: OrderView)
    requires
        v.wf(),
        lifecycle::known(v.orders, o.id),
        o.valid(),
        o.client_id == v.at(o.id).client_id,
        v.at(o.id).exchange_id is Some ==> o.exchange_id == v.at(o.id).exchange_id,
        w.orders == v.put(o).orders,
    ensures
        lifecycle::known(w.orders, o.id),
        w.at(o.id) == o,
        others_stay(v, w, o.id),
{
    lifecycle::lemma_put(v, o);
    assert forall|k: u64| #[trigger] lifecycle::known(v.orders, k) && k != o.id implies
        lifecycle::known(w.orders, k) && w.at(k) == v.at(k) by {
        assert(lifecycle::known(v.put(o).orders, k));
        assert(v.put(o).at(k) == v.at(k));
    }
    assert(lifecycle::known(v.put(o).orders, o.id));
}

/// Placing an order sends what was asked for and keeps it: an order of the wanted
/// side, price and size, reduce-only exactly when it is to reduce, waiting for its
/// answer and found by its request and by its client id.
pub proof fn placing_records_what_was_asked(
    v: ManagerView,
    side: Side,
    purpose: Purpose,
    layer: u8,
    price: Option<Ticks>,
    size: i64,
    tif: Tif,
    now: Instant,
    now_ms: i64,
)
    requires
        v.wf(),
        v.room(1),
        model::is_count(size as int),
    ensures
        ({
            let (w, c) = v.place(side, purpose, layer, price, size, tif, now, now_ms);
            let o = w.at(v.next_id);
            &&& w.wf()
            &&& lifecycle::known(w.orders, v.next_id)
            &&& !lifecycle::known(v.orders, v.next_id)
            &&& others_stay(v, w, v.next_id)
            &&& w.orders.len() == v.orders.len() + 1
            &&& w.next_id == v.next_id + 1
            &&& w.next_req == v.next_req + 1
            &&& o.id == v.next_id
            &&& o.side == side
            &&& o.purpose == purpose
            &&& o.layer == layer
            &&& o.tif == tif
            &&& o.price == price
            &&& o.size == size
            &&& purpose == Purpose::Reduce ==> o.reduce_only
            &&& purpose == Purpose::Open ==> !o.reduce_only
            &&& o.filled == 0
            &&& o.trade_filled == 0
            &&& o.exchange_id is None
            &&& o.intent is None
            &&& o.amend_target is None
            &&& o.done_at is None
            &&& o.state == OrderState::PendingNew
            &&& o.inflight_since == Some(now)
            &&& c matches CommandView::Place {
                req_id,
                client_id,
                side: s,
                size: n,
                price: p,
                tif: t,
                reduce_only,
            } && s == side && n == size && p == price && t == tif && reduce_only == o.reduce_only
                && client_id == o.client_id && o.req_id == Some(req_id) && w.by_req.contains_key(
                req_id,
            ) && w.by_req[req_id] == v.next_id && w.by_client.contains_key(client_id)
                && w.by_client[client_id] == v.next_id && client_id.len() > v.prefix.len()
                && client_id.take(v.prefix.len() as int) == v.prefix
        }),
{
    let (w, c) = v.place(side, purpose, layer, price, size, tif, now, now_ms);
    let o = w.orders.last();
    lifecycle::lemma_placed(v, o, w);
    assert(w.get(v.next_id) == Some(o));
    assert(!lifecycle::known(v.orders, v.next_id)) by {
        if lifecycle::known(v.orders, v.next_id) {
            let p = lifecycle::pos(v.orders, v.next_id);
            assert(v.orders[p].id == v.next_id);
        }
    }
    assert forall|k: u64| #[trigger] lifecycle::known(v.orders, k) && k != v.next_id implies
        lifecycle::known(w.orders, k) && w.at(k) == v.at(k) by {
        assert(w.get(k) == v.get(k));
    }
    text::a_decimal_reads_back((v.next_id + 1) as nat);
    let id = v.next_client_id(now_ms);
    assert(id.take(v.prefix.len() as int) =~= v.prefix);
}

/// A cancel of a live order with no request out is sent; while a request is out it
/// is stored and replaces what was wanted before; and an order that is finished or
/// being cancelled stays as it is.
pub proof fn a_cancel_is_sent_or_stored(v: ManagerView, id: u64, now: Instant)
    requires
        v.wf(),
        lifecycle::known(v.orders, id),
        v.next_req < u64::MAX,
    ensures
        ({
            let (w, c) = v.cancel(id, now);
            let o = v.at(id);
            let n = w.at(id);
            let free = o.state == OrderState::Live && o.req_id is None;
            let over = o.state == OrderState::PendingCancel || is_done(o);
            &&& lifecycle::known(w.orders, id)
            &&& others_stay(v, w, id)
            &&& free ==> (c matches Some(CommandView::Cancel { req_id, exchange_id, client_id })
                && exchange_id == o.exchange_id && client_id == o.client_id && n == (OrderView {
                state: OrderState::PendingCancel,
                intent: None,
                req_id: Some(req_id),
                inflight_since: Some(now),
                ..o
            }) && w.by_req.contains_key(req_id) && w.by_req[req_id] == id)
            &&& over ==> c is None && n == o
            &&& !free && !over ==> c is None && n == (OrderView {
                intent: Some(Intent::Cancel),
                ..o
            })
        }),
{
    lemma_found(v, id);
    let o = v.at(id);
    let w = v.cancel(id, now).0;
    let m = v.numbered();
    lifecycle::lemma_wf_next_req(v, m.next_req);
    if o.state == OrderState::Live && o.req_id is None {
        let n = OrderView {
            state: OrderState::PendingCancel,
            intent: None,
            req_id: Some(lifecycle::request_id("c"@, v.next_req)),
            inflight_since: Some(now),
            ..o
        };
        lemma_put_only(m, w, n);
    } else if o.state == OrderState::PendingCancel || is_done(o) {
    } else {
        lemma_put_only(m, w, OrderView { intent: Some(Intent::Cancel), ..o });
    }
    assert(others_stay(v, w, id)) by {
        assert forall|k: u64| #[trigger] lifecycle::known(v.orders, k) && k != id implies
            lifecycle::known(w.orders, k) && w.at(k) == v.at(k) by {
            assert(lifecycle::known(m.orders, k));
        }
    }
}

/// An amend of a live order with no request out is sent, with the new price and
/// the total of what is filled and what is to remain; while a request is out it is
/// stored; an amend to nothing is a cancel; and a finished order stays as it is.
pub proof fn an_amend_is_sent_or_stored(
    v: ManagerView,
    id: u64,
    price: Ticks,
    remaining: i64,
    now: Instant,
)
    requires
        v.wf(),
        lifecycle::known(v.orders, id),
        v.next_req < u64::MAX,
        remaining <= MAX_CONTRACTS,
    ensures
        ({
            let (w, c) = v.amend(id, price, remaining, now);
            let o = v.at(id);
            let n = w.at(id);
            let free = o.state == OrderState::Live && o.req_id is None && o.exchange_id is Some;
            &&& lifecycle::known(w.orders, id)
            &&& others_stay(v, w, id)
            &&& is_done(o) ==> c is None && n == o
            &&& !is_done(o) && remaining <= 0 ==> (w, c) == v.cancel(id, now)
            &&& !is_done(o) && remaining > 0 && free ==> (c matches Some(
                CommandView::Amend { req_id, exchange_id, client_id, price: p, size },
            ) && Some(exchange_id) == o.exchange_id && client_id == o.client_id && p == Some(price)
                && (size matches Some(total) && total == o.filled + remaining && n == (OrderView {
                state: OrderState::PendingAmend,
                amend_target: Some((price, total)),
                intent: None,
                req_id: Some(req_id),
                inflight_since: Some(now),
                ..o
            })) && w.by_req.contains_key(req_id) && w.by_req[req_id] == id)
            &&& !is_done(o) && remaining > 0 && !free ==> c is None && n == (OrderView {
                intent: Some(Intent::Amend { price, size: remaining }),
                ..o
            })
        }),
{
    lemma_found(v, id);
    let o = v.at(id);
    let w = v.amend(id, price, remaining, now).0;
    let m = v.numbered();
    lifecycle::lemma_wf_next_req(v, m.next_req);
    a_cancel_is_sent_or_stored(v, id, now);
    if is_done(o) || remaining <= 0 {
    } else if o.state == OrderState::Live && o.req_id is None && o.exchange_id is Some {
        let n = OrderView {
            state: OrderState::PendingAmend,
            amend_target: Some((price, (o.filled + remaining) as i64)),
            intent: None,
            req_id: Some(lifecycle::request_id("a"@, v.next_req)),
            inflight_since: Some(now),
            ..o
        };
        lemma_put_only(m, w, n);
    } else {
        lemma_put_only(
            m,
            w,
            OrderView { intent: Some(Intent::Amend { price, size: remaining }), ..o },
        );
    }
    if !is_done(o) && remaining > 0 {
        assert forall|k: u64| #[trigger] lifecycle::known(v.orders, k) && k != id implies
            lifecycle::known(w.orders, k) && w.at(k) == v.at(k) by {
            assert(lifecycle::known(m.orders, k));
        }
    }
}

/// A record of the exchange is taken as it is: price and size from it, fills only
/// upwards, live while it is open, finished with its reason once it says so.
pub proof fn records_are_taken_in(o: OrderView, info: InfoView, now: Instant)
    requires
        0 <= o.filled,
        info.valid(),
    ensures
        ({
            let n = lifecycle::absorbed(o, info, now);
            &&& n.price == Some(info.price)
            &&& n.size == info.size
            &&& n.filled >= o.filled
            &&& n.filled >= info.size - info.left
            &&& n.filled == o.filled || (n.filled == info.size - info.left && n.filled > o.filled)
            &&& n.trade_filled == o.trade_filled
            &&& o.exchange_id is Some ==> n.exchange_id == o.exchange_id
            &&& o.exchange_id is None ==> n.exchange_id == Some(info.exchange_id)
            &&& n.req_id == o.req_id
            &&& n.id == o.id
            &&& n.client_id == o.client_id
            &&& n.side == o.side
            &&& n.purpose == o.purpose
            &&& n.reduce_only == o.reduce_only
            &&& n.layer == o.layer
            &&& n.tif == o.tif
            &&& n.last_update == now
            &&& info.status == ExchangeStatus::Open ==> {
                &&& !is_done(o) ==> n.state == OrderState::Live
                &&& is_done(o) ==> n.state == o.state
                &&& n.intent == o.intent
                &&& n.done_at == o.done_at
                &&& o.req_id is None ==> n.amend_target is None
            }
            &&& info.status == ExchangeStatus::Finished ==> is_done(n) && n.done_at == Some(now)
                && n.intent is None && n.amend_target is None
        }),
{
}

/// Why an order that is reported as finished is done: as the record says, and by
/// what is left of it where it says nothing that is known.
pub proof fn finished_orders_say_why(o: OrderView, info: InfoView, now: Instant)
    requires
        info.status == ExchangeStatus::Finished,
    ensures
        ({
            let s = lifecycle::absorbed(o, info, now).state;
            let f = info.finish_as;
            let named = f == "filled"@ || f == "cancelled"@ || f == "auto_deleveraged"@ || f
                == "liquidated"@ || f == "reduce_out"@ || f == "position_closed"@ || f == "stp"@
                || f == "reduce_only"@ || f == "poc"@ || f == "ioc"@;
            &&& f == "filled"@ ==> s == OrderState::Done(DoneReason::Filled)
            &&& f == "poc"@ ==> s == OrderState::Done(DoneReason::PostOnlyReject)
            &&& f == "ioc"@ ==> s == OrderState::Done(DoneReason::IocDone)
            &&& f == "cancelled"@ || f == "auto_deleveraged"@ || f == "liquidated"@ || f
                == "reduce_out"@ || f == "position_closed"@ || f == "stp"@ || f == "reduce_only"@
                ==> s == OrderState::Done(DoneReason::Cancelled)
            &&& !named && info.left == 0 ==> s == OrderState::Done(DoneReason::Filled)
            &&& !named && info.left != 0 ==> s == OrderState::Done(DoneReason::Cancelled)
        }),
{
    reveal_strlit("filled");
    reveal_strlit("cancelled");
    reveal_strlit("auto_deleveraged");
    reveal_strlit("liquidated");
    reveal_strlit("reduce_out");
    reveal_strlit("position_closed");
    reveal_strlit("stp");
    reveal_strlit("reduce_only");
    reveal_strlit("poc");
    reveal_strlit("ioc");
    assert("filled"@.len() == 6);
    assert("cancelled"@.len() == 9);
    assert("auto_deleveraged"@.len() == 16);
    assert("liquidated"@.len() == 10);
    assert("reduce_out"@.len() == 10);
    assert("position_closed"@.len() == 15);
    assert("reduce_only"@.len() == 11);
    assert("stp"@.len() == 3);
    assert("poc"@.len() == 3);
    assert("ioc"@.len() == 3);
    assert("poc"@ != "ioc"@ && "poc"@ != "stp"@ && "ioc"@ != "stp"@) by {
        assert("poc"@[0] != "ioc"@[0]);
        assert("poc"@[0] != "stp"@[0]);
        assert("ioc"@[0] != "stp"@[0]);
    }
}

/// An update from the order stream is taken like any record, but a pending amend
/// stays pending with what it asked for, and the size that still counts is never
/// lowered by a record that is older than it.
pub proof fn stream_updates_keep_what_is_asked(o: OrderView, info: InfoView, now: Instant)
    requires
        info.valid(),
    ensures
        ({
            let n = lifecycle::streamed(o, info, now);
            let a = lifecycle::absorbed(o, info, now);
            &&& n.price == a.price
            &&& n.filled == a.filled
            &&& n.exchange_id == a.exchange_id
            &&& n.req_id == o.req_id
            &&& n.trade_filled == o.trade_filled
            &&& n.intent == a.intent
            &&& o.state == OrderState::PendingAmend && info.status == ExchangeStatus::Open ==> {
                &&& n.state == OrderState::PendingAmend
                &&& n.amend_target == o.amend_target
                &&& n.size >= info.size
                &&& n.inflight_since == o.inflight_since
            }
            &&& !(o.state == OrderState::PendingAmend && info.status == ExchangeStatus::Open) ==> {
                &&& n.state == a.state
                &&& n.size == info.size
            }
            &&& o.state == OrderState::PendingNew && info.status == ExchangeStatus::Open
                && o.req_id is Some ==> n.inflight_since is None
        }),
{
}

/// A trade counts in full: what was traded grows by it, what is filled is never
/// less, and an order that is filled by it is finished.
pub proof fn a_trade_fills_its_order(o: OrderView, size: int, at: Instant)
    requires
        o.valid(),
        0 <= size,
        model::is_count(o.trade_filled + size),
    ensures
        ({
            let n = lifecycle::with_trade(o, size, at);
            &&& n.trade_filled == o.trade_filled + size
            &&& n.filled >= o.filled
            &&& n.filled >= n.trade_filled
            &&& n.filled == o.filled || n.filled == n.trade_filled
            &&& n.size == o.size
            &&& n.price == o.price
            &&& n.req_id == o.req_id
            &&& n.exchange_id == o.exchange_id
            &&& n.last_update == at
            &&& !is_done(o) && o.size > 0 && n.filled >= o.size ==> n.state == OrderState::Done(
                DoneReason::Filled,
            ) && n.done_at == Some(at)
            &&& is_done(o) || o.size <= 0 || n.filled < o.size ==> n.state == o.state && n.done_at
                == o.done_at
        }),
{
}

/// The fill of a trade says what its order was for; a trade of an order that is
/// not known opens on the side of its sign.
pub proof fn a_fill_is_what_its_order_was_for<R>(v: ManagerView, t: UserTrade<R>, f: Fill<R>)
    requires
        lifecycle::is_fill_of(v, t, f),
        i64::MIN < t.signed_size,
    ensures
        t.signed_size >= 0 ==> f.size == t.signed_size,
        t.signed_size < 0 ==> f.size == -t.signed_size,
        f.price == t.price,
        f.fee == t.fee,
        f.price_f64 == t.price_f64,
        f.is_maker == t.is_maker,
        f.at == t.at,
        v.lookup(t.exchange_order_id@, t.client_id@) matches Some(id) ==> {
            let o = v.at(id);
            &&& f.local_id == Some(id)
            &&& f.side == o.side
            &&& f.purpose == o.purpose
            &&& f.reduce_only == o.reduce_only
            &&& f.layer == o.layer
            &&& f.tif == o.tif
            &&& f.client_id@ == o.client_id
        },
        v.lookup(t.exchange_order_id@, t.client_id@) is None ==> {
            &&& f.local_id is None
            &&& !f.reduce_only
            &&& f.purpose == Purpose::Open
            &&& t.signed_size > 0 ==> f.side == Side::Buy
            &&& t.signed_size < 0 ==> f.side == Side::Sell
            &&& f.client_id@ == t.client_id@
        },
{
}

/// The order that a record or a trade names: by the exchange's id where that is
/// known, else by our own id.
pub proof fn orders_are_found_by_either_id(
    v: ManagerView,
    exchange_id: Seq<char>,
    client_id: Seq<char>,
)
    requires
        v.wf(),
    ensures
        v.lookup(exchange_id, client_id) matches Some(id) ==> lifecycle::known(v.orders, id) && (
        v.at(id).exchange_id == Some(exchange_id) || v.at(id).client_id == client_id),
        v.by_exchange.contains_key(exchange_id) ==> v.lookup(exchange_id, client_id) == Some(
            v.by_exchange[exchange_id],
        ),
        !v.by_exchange.contains_key(exchange_id) && v.by_client.contains_key(client_id) ==> v.lookup(
            exchange_id,
            client_id,
        ) == Some(v.by_client[client_id]),
        v.lookup(exchange_id, client_id) is None ==> !v.by_exchange.contains_key(exchange_id)
            && !v.by_client.contains_key(client_id),
{
    if v.by_exchange.contains_key(exchange_id) {
        assert(lifecycle::known(v.orders, v.by_exchange[exchange_id]));
    } else if v.by_client.contains_key(client_id) {
        assert(lifecycle::known(v.orders, v.by_client[client_id]));
    }
}

/// A request has timed out exactly when it is in flight and its time is up.
pub proof fn timeouts_are_by_the_clock(o: OrderView, timeout: Duration, now: Instant)
    ensures
        lifecycle::timed_out(o, timeout, now) <==> (o.state == OrderState::PendingNew || o.state
            == OrderState::PendingAmend || o.state == OrderState::PendingCancel) && (
        o.inflight_since matches Some(t) && (timeout.nanos == 0 || now.nanos - t.nanos
            >= timeout.nanos)),
{
}

/// A finished order is dropped exactly when it has been finished for more than
/// two minutes.
pub proof fn finished_orders_are_kept_for_two_minutes(o: OrderView, now: Instant)
    ensures
        lifecycle::expired(o, now) <==> is_done(o) && (o.done_at matches Some(t) && now.nanos
            - t.nanos > 120_000_000_000),
{
}

/// A request that timed out is replaced by a query about its order, which then
/// waits for the answer to the query.
pub proof fn a_timeout_asks(v: ManagerView, id: u64, now: Instant)
    requires
        v.wf(),
        lifecycle::known(v.orders, id),
        v.next_req < u64::MAX,
    ensures
        ({
            let (w, c) = v.expire(id, now);
            let o = v.at(id);
            &&& others_stay(v, w, id)
            &&& c matches CommandView::Query { req_id, exchange_id, client_id } && exchange_id
                == o.exchange_id && client_id == o.client_id && w.at(id) == (OrderView {
                req_id: Some(req_id),
                inflight_since: Some(now),
                ..o
            }) && w.by_req.contains_key(req_id) && w.by_req[req_id] == id
        }),
{
    lemma_found(v, id);
    let o = v.at(id);
    let s = match o.req_id {
        Some(r) => ManagerView { by_req: v.by_req.remove(r), ..v },
        None => v,
    };
    lifecycle::lemma_wf_by_req(v, s.by_req);
    let m = s.numbered();
    lifecycle::lemma_wf_next_req(s, m.next_req);
    let w = v.expire(id, now).0;
    let n = OrderView {
        req_id: Some(lifecycle::request_id("q"@, v.next_req)),
        inflight_since: Some(now),
        ..o
    };
    lemma_put_only(m, w, n);
    assert forall|k: u64| #[trigger] lifecycle::known(v.orders, k) && k != id implies
        lifecycle::known(w.orders, k) && w.at(k) == v.at(k) by {
        assert(lifecycle::known(m.orders, k));
    }
}

/// The answer to the request that an order waits for.
pub open spec fn answers(v: ManagerView, resp: ResponseView, id: u64) -> bool {
    &&& v.by_req.contains_key(resp.req_id)
    &&& v.by_req[resp.req_id] == id
    &&& lifecycle::known(v.orders, id)
    &&& v.at(id).req_id == Some(resp.req_id)
}

/// An order whose request is answered with a record, and which wants nothing else,
/// is what the record says, has no request out, and nothing is sent; a confirmed
/// cancel finishes it in any case.
pub proof fn an_answered_request_is_over(v: ManagerView, resp: ResponseView, id: u64)
    requires
        v.wf(),
        answers(v, resp, id),
        v.at(id).intent is None,
        resp.result.info() matches Some(i) && i.valid(),
    ensures
        ({
            let (w, cmds) = v.respond(resp);
            let o = OrderView {
                req_id: None,
                inflight_since: None,
                last_update: resp.at,
                ..v.at(id)
            };
            let a = lifecycle::absorbed(o, resp.result.info()->0, resp.at);
            &&& cmds.len() == 0
            &&& lifecycle::known(w.orders, id)
            &&& others_stay(v, w, id)
            &&& w.at(id).req_id is None
            &&& w.at(id).inflight_since is None
            &&& w.at(id).filled == a.filled
            &&& w.at(id).price == a.price
            &&& w.at(id).size == a.size
            &&& w.at(id).exchange_id == a.exchange_id
            &&& !(resp.result is Cancelled) ==> w.at(id) == a
            &&& resp.result is Cancelled ==> is_done(w.at(id)) && (is_done(a) ==> w.at(id) == a) && (
            !is_done(a) ==> w.at(id).state == OrderState::Done(DoneReason::Cancelled) && w.at(
                id,
            ).done_at == Some(resp.at))
            &&& w.by_exchange.contains_key(a.exchange_id->0) || v.at(id).exchange_id is Some
        }),
{
    lemma_found(v, id);
    let s = ManagerView { by_req: v.by_req.remove(resp.req_id), ..v };
    lifecycle::lemma_wf_by_req(v, s.by_req);
    let o = OrderView { req_id: None, inflight_since: None, last_update: resp.at, ..v.at(id) };
    let info = resp.result.info()->0;
    let a = lifecycle::absorbed(o, info, resp.at);
    lifecycle::lemma_absorbed(o, info, resp.at);
    let n = if resp.result is Cancelled {
        lifecycle::closed_by_cancel(a, resp.at)
    } else {
        a
    };
    let i = s.indexed(o, info.exchange_id);
    let x = i.put(n);
    assert(x.orders == s.put(n).orders);
    lemma_put_only(s, x, n);
    assert(x.at(id) == n);
    assert forall|k: u64| #[trigger] lifecycle::known(v.orders, k) && k != id implies
        lifecycle::known(x.orders, k) && x.at(k) == v.at(k) by {
        assert(lifecycle::known(s.orders, k));
    }
    assert(v.respond(resp) == (x, Seq::<CommandView>::empty()));
}

/// A refused placement is finished, as a post-only rejection where its label says
/// so; a refused amend or cancel of an order that is gone finishes it as lost; and
/// nothing is sent.
pub proof fn a_refusal_finishes_what_cannot_be_open(
    v: ManagerView,
    resp: ResponseView,
    id: u64,
    label: Seq<char>,
    message: Seq<char>,
)
    requires
        v.wf(),
        answers(v, resp, id),
        resp.result == (ResultView::Error { label, message }),
    ensures
        ({
            let (w, cmds) = v.respond(resp);
            let unknown = label == "TIMEOUT"@ || label == "UNKNOWN"@;
            let gone = label == "ORDER_NOT_FOUND"@ || label == "ORDER_FINISHED"@ || label
                == "ORDER_CLOSED"@;
            let s = v.at(id).state;
            &&& s == OrderState::PendingNew && !unknown ==> cmds.len() == 0 && is_done(w.at(id))
                && w.at(id).done_at == Some(resp.at) && (w.at(id).state == OrderState::Done(
                DoneReason::PostOnlyReject,
            ) <==> has_word(label, "POC"@) || has_word(label, "POST_ONLY"@)) && (w.at(id).state
                == OrderState::Done(DoneReason::Rejected) || w.at(id).state == OrderState::Done(
                DoneReason::PostOnlyReject,
            ))
            &&& (s == OrderState::PendingAmend || s == OrderState::PendingCancel) && gone
                ==> cmds.len() == 0 && w.at(id).state == OrderState::Done(DoneReason::Lost) && w.at(
                id,
            ).done_at == Some(resp.at)
            &&& (s == OrderState::PendingNew && unknown) || ((s == OrderState::PendingAmend || s
                == OrderState::PendingCancel) && !gone) ==> cmds.len() == 1 && (
            cmds[0] matches CommandView::Query { req_id, exchange_id, client_id } && client_id
                == v.at(id).client_id && exchange_id == v.at(id).exchange_id && w.at(id).req_id
                == Some(req_id)) && w.at(id).state == (if s == OrderState::PendingNew {
                OrderState::PendingNew
            } else {
                OrderState::Live
            })
            &&& s.inflight() ==> w.at(id).filled == v.at(id).filled
        }),
{
    lemma_found(v, id);
    text::parts_are_subranges(label, "POC"@);
    text::parts_are_subranges(label, "POST_ONLY"@);
    let s = ManagerView { by_req: v.by_req.remove(resp.req_id), ..v };
    lifecycle::lemma_wf_by_req(v, s.by_req);
    let o = OrderView { req_id: None, inflight_since: None, last_update: resp.at, ..v.at(id) };
    let w = v.respond(resp).0;
    if o.state == OrderState::PendingNew && !lifecycle::is_unknown(label) {
        let n = OrderView {
            state: OrderState::Done(lifecycle::reject_reason(label)),
            done_at: Some(resp.at),
            ..o
        };
        lemma_put_only(s, w, n);
    } else if (o.state == OrderState::PendingAmend || o.state == OrderState::PendingCancel)
        && lifecycle::is_gone(label) {
        let n = OrderView {
            state: OrderState::Done(DoneReason::Lost),
            done_at: Some(resp.at),
            amend_target: None,
            ..o
        };
        lemma_put_only(s, w, n);
    } else if o.state == OrderState::PendingNew || o.state == OrderState::PendingAmend || o.state
        == OrderState::PendingCancel {
        let n = OrderView {
            state: if o.state == OrderState::PendingNew {
                OrderState::PendingNew
            } else {
                OrderState::Live
            },
            req_id: Some(lifecycle::request_id("q"@, v.next_req)),
            inflight_since: Some(resp.at),
            ..o
        };
        assert(w.orders == s.put(n).orders);
        lemma_put_only(s, w, n);
    }
}

/// A word occurs somewhere in a text.
pub open spec fn has_word(text: Seq<char>, word: Seq<char>) -> bool {
    exists|i: int|
        0 <= i && i + word.len() <= text.len() && #[trigger] text.subrange(i, i + word.len())
            == word
}

/// A client id is the prefix, the time within a billion milliseconds and the number
/// of the order.
pub proof fn client_ids_carry_prefix_time_and_number(v: ManagerView, now_ms: i64)
    ensures
        v.next_client_id(now_ms) == v.prefix + text::signed_decimal(
            lifecycle::client_stamp(now_ms),
        ) + text::decimal((v.next_id + 1) as nat),
        (now_ms - lifecycle::client_stamp(now_ms)) % 1_000_000_000 == 0,
        now_ms >= 0 ==> 0 <= lifecycle::client_stamp(now_ms) < 1_000_000_000,
        now_ms < 0 ==> -1_000_000_000 < lifecycle::client_stamp(now_ms) <= 0,
{
}

} // verus!
