//! What holds of our orders across all requests, answers, updates, trades and
//! timeouts.

use vstd::prelude::*;

use crate::order::lifecycle;
use crate::order::lifecycle::ManagerView;
use crate::order::model;
use crate::order::model::{
    CommandView, InfoView, Intent, OrderState, OrderView, ResponseView, ResultView, Tif, UserTrade,
    MAX_CONTRACTS,
};
use crate::order::reconcile;
use crate::order::reconcile::{Move, Pass, Rules};
use crate::strategy::quote::Quote;
use crate::time::Instant;
use crate::types::{Purpose, Side, Ticks};

verus! {

/// `n` is a later state of the order `o`: what identifies the order stays, fills
/// only grow, and a finished order stays finished.
pub open spec fn succeeds(o: OrderView, n: OrderView) -> bool {
    &&& n.id == o.id
    &&& n.client_id == o.client_id
    &&& n.side == o.side
    &&& n.purpose == o.purpose
    &&& n.layer == o.layer
    &&& n.tif == o.tif
    &&& n.reduce_only == o.reduce_only
    &&& o.exchange_id is Some ==> n.exchange_id == o.exchange_id
    &&& n.filled >= o.filled
    &&& n.trade_filled >= o.trade_filled
    &&& o.state.terminal() ==> n.state.terminal()
}

/// Every order of `v` is still known in `w`, in a later state.
pub open spec fn evolves(v: ManagerView, w: ManagerView) -> bool {
    forall|k: u64| #[trigger]
        lifecycle::known(v.orders, k) ==> lifecycle::known(w.orders, k) && succeeds(
            v.at(k),
            w.at(k),
        )
}

proof fn lemma_at(v: ManagerView, k: u64)
    requires
        lifecycle::known(v.orders, k),
        v.wf(),
    ensures
        v.at(k).id == k,
        v.at(k).valid(),
{
    let p = lifecycle::pos(v.orders, k);
    assert(0 <= p < v.orders.len() && v.orders[p].id == k);
}

pub(crate) proof fn lemma_evolves_trans(u: ManagerView, v: ManagerView, w: ManagerView)
    requires
        evolves(u, v),
        evolves(v, w),
    ensures
        evolves(u, w),
{
    assert forall|k: u64| #[trigger] lifecycle::known(u.orders, k) implies lifecycle::known(
        w.orders,
        k,
    ) && succeeds(u.at(k), w.at(k)) by {
        assert(lifecycle::known(v.orders, k));
    }
}

/// The same orders under other counters and indices.
pub(crate) proof fn lemma_same_orders(v: ManagerView, w: ManagerView)
    requires
        v.wf(),
        w.orders == v.orders,
    ensures
        evolves(v, w),
{
}

proof fn lemma_put_evolves(v: ManagerView, o: OrderView)
    requires
        v.wf(),
        lifecycle::known(v.orders, o.id),
        o.valid(),
        succeeds(v.at(o.id), o),
    ensures
        evolves(v, v.put(o)),
        v.put(o).wf(),
{
    lifecycle::lemma_put(v, o);
    assert forall|k: u64| #[trigger] lifecycle::known(v.orders, k) implies lifecycle::known(
        v.put(o).orders,
        k,
    ) && succeeds(v.at(k), v.put(o).at(k)) by {
        assert(lifecycle::known(v.put(o).orders, k) == lifecycle::known(v.orders, k));
        if k != o.id {
            assert(v.put(o).at(k) == v.at(k));
        }
    }
}

/// A request for an order, which goes out under a new state of it.
proof fn lemma_sent_evolves(v: ManagerView, o: OrderView, kind: Seq<char>, now: Instant)
    requires
        v.wf(),
        lifecycle::known(v.orders, o.id),
        o.valid(),
        succeeds(v.at(o.id), o),
    ensures
        evolves(v, v.sent(o, kind, now)),
{
    let n = OrderView {
        req_id: Some(lifecycle::request_id(kind, v.next_req)),
        inflight_since: Some(now),
        ..o
    };
    lemma_put_evolves(v, n);
    assert(v.sent(o, kind, now).orders == v.put(n).orders);
    lemma_same_orders(v.put(n), v.sent(o, kind, now));
    lemma_evolves_trans(v, v.put(n), v.sent(o, kind, now));
}

/// Placing an order leaves the others as they are.
pub proof fn placing_keeps_orders(
    v: ManagerView,
    side: Side,
    purpose: Purpose,
    layer: u8,
    price: Option<Ticks>,
    size: i64,
    tif: Tif,
    now: Instant,
    now_ms: i64,
)
    requires
        v.wf(),
        v.room(1),
        model::is_count(size as int),
    ensures
        evolves(v, v.place(side, purpose, layer, price, size, tif, now, now_ms).0),
{
    let w = v.place(side, purpose, layer, price, size, tif, now, now_ms).0;
    assert(lifecycle::ascending(w.orders)) by {
        assert forall|i: int, j: int| 0 <= i < j < w.orders.len() implies (
        #[trigger] w.orders[i]).id < (#[trigger] w.orders[j]).id by {
            if j < v.orders.len() {
                assert(v.orders[i].id < v.orders[j].id);
            } else {
                assert(v.orders[i].id < v.next_id);
            }
        }
    }
    assert forall|k: u64| #[trigger] lifecycle::known(v.orders, k) implies lifecycle::known(
        w.orders,
        k,
    ) && succeeds(v.at(k), w.at(k)) by {
        let p = lifecycle::pos(v.orders, k);
        assert(v.orders[p].id == k);
        assert(w.orders[p] == v.orders[p]);
        lifecycle::lemma_pos(w.orders, p);
    }
}

/// Asking for a cancel or an amend moves orders forward only.
pub proof fn requests_keep_orders(
    v: ManagerView,
    id: u64,
    price: Ticks,
    remaining: i64,
    now: Instant,
)
    requires
        v.wf(),
        v.next_req < u64::MAX,
        remaining <= MAX_CONTRACTS,
    ensures
        evolves(v, v.cancel(id, now).0),
        evolves(v, v.amend(id, price, remaining, now).0),
{
    if lifecycle::known(v.orders, id) {
        lemma_at(v, id);
        let o = v.at(id);
        let n = v.numbered();
        lifecycle::lemma_wf_next_req(v, n.next_req);
        lemma_same_orders(v, n);
        lemma_put_evolves(n, OrderView { intent: Some(Intent::Cancel), ..o });
        lemma_evolves_trans(v, n, n.put(OrderView { intent: Some(Intent::Cancel), ..o }));
        if o.state == OrderState::Live && o.req_id is None {
            lemma_sent_evolves(
                v,
                OrderView { state: OrderState::PendingCancel, intent: None, ..o },
                "c"@,
                now,
            );
        }
        if remaining > 0 {
            if o.state == OrderState::Live {
                lemma_sent_evolves(
                    v,
                    OrderView {
                        state: OrderState::PendingAmend,
                        amend_target: Some((price, (o.filled + remaining) as i64)),
                        intent: None,
                        ..o
                    },
                    "a"@,
                    now,
                );
            }
            let a = OrderView { intent: Some(Intent::Amend { price, size: remaining }), ..o };
            lemma_put_evolves(n, a);
            lemma_evolves_trans(v, n, n.put(a));
        }
    } else {
        lemma_same_orders(v, v.numbered());
    }
}


proof fn lemma_intent_evolves(v: ManagerView, id: u64, now: Instant)
    requires
        v.wf(),
        lifecycle::known(v.orders, id),
        v.next_req < u64::MAX,
    ensures
        evolves(v, v.apply_intent(id, now).0),
{
    lemma_at(v, id);
    let o = v.at(id);
    lemma_same_orders(v, v);
    match o.intent {
        Some(Intent::Cancel) => {
            requests_keep_orders(v, id, 0, 0, now);
        },
        Some(Intent::Amend { price, size }) => {
            requests_keep_orders(v, id, price, size, now);
            lemma_put_evolves(v, OrderView { intent: None, ..o });
        },
        None => {},
    }
}

/// An exchange record put in, with the exchange id recorded.
proof fn lemma_record_evolves(v: ManagerView, exchange_id: Seq<char>, n: OrderView)
    requires
        v.wf(),
        lifecycle::known(v.orders, n.id),
        n.valid(),
        succeeds(v.at(n.id), n),
        n.exchange_id == Some(
            match v.at(n.id).exchange_id {
                Some(e) => e,
                None => exchange_id,
            },
        ),
    ensures
        evolves(v, v.indexed(v.at(n.id), exchange_id).put(n)),
        v.indexed(v.at(n.id), exchange_id).put(n).wf(),
        lifecycle::known(v.indexed(v.at(n.id), exchange_id).put(n).orders, n.id),
{
    lifecycle::lemma_indexed_put(v, exchange_id, n);
    lemma_put_evolves(v, n);
    let w = v.indexed(v.at(n.id), exchange_id).put(n);
    assert(w.orders == v.put(n).orders);
    lemma_same_orders(v.put(n), w);
    lemma_evolves_trans(v, v.put(n), w);
}

/// A refusal of the request of `o`, which stands in the book without it.
proof fn lemma_refused_evolves(v: ManagerView, o: OrderView, label: Seq<char>, now: Instant)
    requires
        v.wf(),
        lifecycle::known(v.orders, o.id),
        o.valid(),
        succeeds(v.at(o.id), o),
        v.next_req < u64::MAX,
    ensures
        evolves(v, v.refused(o, label, now).0),
{
    match o.state {
        OrderState::PendingNew => {
            lemma_sent_evolves(v, o, "q"@, now);
            lemma_put_evolves(
                v,
                OrderView {
                    state: OrderState::Done(lifecycle::reject_reason(label)),
                    done_at: Some(now),
                    ..o
                },
            );
        },
        OrderState::PendingAmend | OrderState::PendingCancel => {
            lemma_put_evolves(
                v,
                OrderView {
                    state: OrderState::Done(model::DoneReason::Lost),
                    done_at: Some(now),
                    amend_target: None,
                    ..o
                },
            );
            lemma_sent_evolves(
                v,
                OrderView { state: OrderState::Live, ..o },
                "q"@,
                now,
            );
        },
        _ => {
            lemma_put_evolves(v, o);
            assert(lifecycle::known(v.put(o).orders, o.id));
            lemma_intent_evolves(v.put(o), o.id, now);
            lemma_evolves_trans(v, v.put(o), v.refused(o, label, now).0);
        },
    }
}

/// An answer moves orders forward only: no answer takes back a fill, revives a
/// finished order or gives an order another identity.
pub proof fn answers_keep_orders(v: ManagerView, resp: ResponseView)
    requires
        v.wf(),
        v.next_req < u64::MAX,
        resp.result.valid(),
    ensures
        evolves(v, v.respond(resp).0),
{
    lemma_same_orders(v, v);
    if v.by_req.contains_key(resp.req_id) {
        let id = v.by_req[resp.req_id];
        let s = ManagerView { by_req: v.by_req.remove(resp.req_id), ..v };
        lifecycle::lemma_wf_by_req(v, s.by_req);
        lemma_same_orders(v, s);
        if lifecycle::known(v.orders, id) {
            lemma_at(v, id);
            assert(s.at(id) == v.at(id));
            if v.at(id).req_id != Some(resp.req_id) {
                let o = v.at(id);
                if let Some(info) = resp.result.info() {
                    if o.exchange_id is None {
                        let n = OrderView { exchange_id: Some(info.exchange_id), ..o };
                        lemma_record_evolves(s, info.exchange_id, n);
                        lemma_evolves_trans(v, s, s.indexed(o, info.exchange_id).put(n));
                    }
                }
            } else {
                let o = OrderView {
                    req_id: None,
                    inflight_since: None,
                    last_update: resp.at,
                    ..v.at(id)
                };
                assert(succeeds(s.at(o.id), o));
                match resp.result {
                    ResultView::Placed(info) | ResultView::Amended(info) | ResultView::Queried(
                        info,
                    ) => {
                        let n = lifecycle::absorbed(o, info, resp.at);
                        lifecycle::lemma_absorbed(o, info, resp.at);
                        assert(s.indexed(o, info.exchange_id) == s.indexed(
                            s.at(id),
                            info.exchange_id,
                        ));
                        lemma_record_evolves(s, info.exchange_id, n);
                        let w = s.indexed(o, info.exchange_id).put(n);
                        lemma_intent_evolves(w, id, resp.at);
                        lemma_evolves_trans(v, s, w);
                        lemma_evolves_trans(v, w, v.respond(resp).0);
                    },
                    ResultView::Cancelled(info) => {
                        let a = lifecycle::absorbed(o, info, resp.at);
                        lifecycle::lemma_absorbed(o, info, resp.at);
                        let n = lifecycle::closed_by_cancel(a, resp.at);
                        assert(s.indexed(o, info.exchange_id) == s.indexed(
                            s.at(id),
                            info.exchange_id,
                        ));
                        lemma_record_evolves(s, info.exchange_id, n);
                        let w = s.indexed(o, info.exchange_id).put(n);
                        lemma_intent_evolves(w, id, resp.at);
                        lemma_evolves_trans(v, s, w);
                        lemma_evolves_trans(v, w, v.respond(resp).0);
                    },
                    ResultView::CancelledAll(_) => {
                        lemma_put_evolves(s, o);
                        assert(lifecycle::known(s.put(o).orders, id));
                        lemma_intent_evolves(s.put(o), id, resp.at);
                        lemma_evolves_trans(v, s, s.put(o));
                        lemma_evolves_trans(v, s.put(o), v.respond(resp).0);
                    },
                    ResultView::Error { label, message } => {
                        lemma_refused_evolves(s, o, label, resp.at);
                        lemma_evolves_trans(v, s, v.respond(resp).0);
                    },
                }
            }
        }
    }
}

/// A stream update moves orders forward only.
pub proof fn updates_keep_orders(v: ManagerView, info: InfoView, now: Instant)
    requires
        v.wf(),
        v.next_req < u64::MAX,
        info.valid(),
    ensures
        evolves(v, v.order_update(info, now).0),
{
    lemma_same_orders(v, v);
    match v.lookup(info.exchange_id, info.client_id) {
        None => {
            lemma_same_orders(v, v.order_update(info, now).0);
        },
        Some(id) => {
            lemma_lookup(v, info.exchange_id, info.client_id);
            lemma_at(v, id);
            let o = v.at(id);
            let n = lifecycle::streamed(o, info, now);
            lifecycle::lemma_absorbed(o, info, now);
            lemma_record_evolves(v, info.exchange_id, n);
            let w = v.indexed(o, info.exchange_id).put(n);
            if n.state == OrderState::Live && n.req_id is None {
                lemma_intent_evolves(w, id, now);
                lemma_evolves_trans(v, w, v.order_update(info, now).0);
            }
        },
    }
}

/// Indices name known orders.
proof fn lemma_lookup(v: ManagerView, exchange_id: Seq<char>, client_id: Seq<char>)
    requires
        v.wf(),
    ensures
        v.lookup(exchange_id, client_id) matches Some(id) ==> lifecycle::known(v.orders, id),
{
    if v.by_exchange.contains_key(exchange_id) {
        assert(lifecycle::known(v.orders, v.by_exchange[exchange_id]));
    } else if v.by_client.contains_key(client_id) {
        assert(lifecycle::known(v.orders, v.by_client[client_id]));
    }
}

/// A trade moves orders forward only, and counts in full even on an order that
/// is finished already: a cancel never wipes out a late fill.
pub proof fn trades_always_count(
    v: ManagerView,
    exchange_id: Seq<char>,
    client_id: Seq<char>,
    size: int,
    at: Instant,
)
    requires
        v.wf(),
        size >= 0,
        v.lookup(exchange_id, client_id) matches Some(id) ==> model::is_count(
            v.at(id).trade_filled + size,
        ),
    ensures
        evolves(v, v.traded(exchange_id, client_id, size, at)),
        v.lookup(exchange_id, client_id) matches Some(id) ==> {
            let n = v.traded(exchange_id, client_id, size, at).at(id);
            n.trade_filled == v.at(id).trade_filled + size && n.filled >= n.trade_filled
        },
{
    lemma_same_orders(v, v);
    if let Some(id) = v.lookup(exchange_id, client_id) {
        lemma_lookup(v, exchange_id, client_id);
        lemma_at(v, id);
        let n = lifecycle::with_trade(v.at(id), size, at);
        lemma_put_evolves(v, n);
        lifecycle::lemma_put(v, n);
    }
}

/// What is kept of the trades that were seen.
spec fn keeps_trades(v: ManagerView) -> bool {
    &&& v.seen_order.no_duplicates()
    &&& v.seen_order.len() <= lifecycle::SEEN_TRADES
    &&& forall|k: Seq<char>| #[trigger] v.seen.contains(k) <==> v.seen_order.contains(k)
}

/// One more trade remembered: the one at place `p` moves by one towards the front
/// where the oldest is forgotten.
proof fn lemma_remembers(v: ManagerView, id: Seq<char>, p: int)
    requires
        keeps_trades(v),
        !v.seen.contains(id),
        0 <= p < v.seen_order.len(),
        v.seen_order.len() < lifecycle::SEEN_TRADES || p > 0,
    ensures
        keeps_trades(v.remember(id)),
        ({
            let w = v.remember(id);
            let q = if v.seen_order.len() < lifecycle::SEEN_TRADES {
                p
            } else {
                p - 1
            };
            0 <= q < w.seen_order.len() && w.seen_order[q] == v.seen_order[p]
                && w.seen_order.len() - 1 - q == v.seen_order.len() - p
        }),
{
    let bare = ManagerView {
        next_id: 1,
        orders: seq![],
        by_client: Map::empty(),
        by_exchange: Map::empty(),
        ..v
    };
    lifecycle::lemma_remember(bare, id);
    assert(bare.remember(id).seen_order == v.remember(id).seen_order);
    assert(bare.remember(id).seen == v.remember(id).seen);
}

/// Trades delivered one after the other.
pub open spec fn all_delivered<R>(v: ManagerView, ts: Seq<UserTrade<R>>) -> ManagerView
    decreases ts.len(),
{
    if ts.len() == 0 {
        v
    } else {
        all_delivered(v, ts.drop_last()).delivered(ts.last())
    }
}

/// The place of a trade among the remembered ones: at most `k` came after it.
spec fn stands_within(v: ManagerView, id: Seq<char>, k: int) -> bool {
    keeps_trades(v) && exists|p: int|
        0 <= p < v.seen_order.len() && #[trigger] v.seen_order[p] == id && v.seen_order.len() - 1
            - p <= k
}

proof fn lemma_all_delivered<R>(v: ManagerView, id: Seq<char>, ts: Seq<UserTrade<R>>)
    requires
        stands_within(v, id, 0),
        ts.len() < lifecycle::SEEN_TRADES,
    ensures
        stands_within(all_delivered(v, ts), id, ts.len() as int),
    decreases ts.len(),
{
    if ts.len() > 0 {
        let init = ts.drop_last();
        lemma_all_delivered(v, id, init);
        let w = all_delivered(v, init);
        let t = ts.last();
        let p = choose|p: int|
            0 <= p < w.seen_order.len() && #[trigger] w.seen_order[p] == id && w.seen_order.len()
                - 1 - p <= init.len();
        if !w.seen.contains(t.trade_id@) {
            lemma_remembers(w, t.trade_id@, p);
            let x = w.remember(t.trade_id@);
            let d = w.delivered(t);
            assert(d.seen == x.seen && d.seen_order == x.seen_order);
            let q = if w.seen_order.len() < lifecycle::SEEN_TRADES {
                p
            } else {
                p - 1
            };
            assert(d.seen_order[q] == id);
        } else {
            assert(w.seen_order[p] == id);
        }
    }
}

/// A trade delivered again changes nothing, however many others were delivered in
/// between, as long as they are fewer than the trades that are remembered.
pub proof fn a_trade_delivered_again_changes_nothing<R>(
    v: ManagerView,
    t: UserTrade<R>,
    others: Seq<UserTrade<R>>,
)
    requires
        v.wf(),
        !v.seen.contains(t.trade_id@),
        others.len() < lifecycle::SEEN_TRADES,
    ensures
        all_delivered(v.delivered(t), others).seen.contains(t.trade_id@),
        all_delivered(v.delivered(t), others).delivered(t) == all_delivered(v.delivered(t), others),
{
    let w = v.remember(t.trade_id@);
    lifecycle::lemma_remember(v, t.trade_id@);
    let d = v.delivered(t);
    assert(d.seen == w.seen && d.seen_order == w.seen_order);
    assert(d.seen_order[d.seen_order.len() - 1] == t.trade_id@);
    lemma_all_delivered(d, t.trade_id@, others);
    let x = all_delivered(d, others);
    let p = choose|p: int|
        0 <= p < x.seen_order.len() && #[trigger] x.seen_order[p] == t.trade_id@;
    assert(x.seen_order.contains(t.trade_id@));
}

/// A trade id counts once: after it has been booked it is seen, and it stays so
/// until the whole window of remembered trades has gone by.
pub proof fn a_trade_counts_once(v: ManagerView, trade_id: Seq<char>, other: Seq<char>)
    requires
        v.wf(),
        !v.seen.contains(trade_id),
    ensures
        v.remember(trade_id).seen.contains(trade_id),
        v.seen.contains(other) && (v.seen_order.len() < lifecycle::SEEN_TRADES || v.seen_order[0]
            != other) ==> v.remember(trade_id).seen.contains(other),
{
    let order = v.seen_order.push(trade_id);
    if order.len() > lifecycle::SEEN_TRADES {
        assert(v.seen_order.contains(order[0]));
        assert(v.seen.contains(order[0]));
    }
}

/// Requests go out one at a time: a cancel or an amend is sent only for an order
/// that is live and has no request out, and leaves it waiting for the answer. An
/// amend states the total size: what is filled and what is to remain.
pub proof fn one_request_at_a_time(
    v: ManagerView,
    id: u64,
    price: Ticks,
    remaining: i64,
    now: Instant,
)
    requires
        v.wf(),
        lifecycle::known(v.orders, id),
        v.next_req < u64::MAX,
        remaining <= MAX_CONTRACTS,
    ensures
        v.cancel(id, now).1 is Some <==> v.at(id).state == OrderState::Live && v.at(id).req_id is None,
        v.cancel(id, now).1 is Some ==> {
            &&& v.cancel(id, now).0.at(id).state.inflight()
            &&& v.cancel(id, now).0.at(id).req_id is Some
        },
        v.amend(id, price, remaining, now).1 is Some ==> {
            &&& v.at(id).state == OrderState::Live
            &&& v.at(id).req_id is None
            &&& v.amend(id, price, remaining, now).0.at(id).state.inflight()
            &&& v.amend(id, price, remaining, now).0.at(id).req_id is Some
        },
        v.amend(id, price, remaining, now).1 matches Some(CommandView::Amend { size, .. }) ==> size
            == Some((v.at(id).filled + remaining) as i64),
{
    lemma_at(v, id);
    let o = v.at(id);
    let n = v.numbered();
    lifecycle::lemma_wf_next_req(v, n.next_req);
    if o.state == OrderState::Live {
        lifecycle::lemma_put(
            n,
            OrderView {
                state: OrderState::PendingCancel,
                intent: None,
                req_id: Some(lifecycle::request_id("c"@, v.next_req)),
                inflight_since: Some(now),
                ..o
            },
        );
        if remaining > 0 {
            lifecycle::lemma_put(
                n,
                OrderView {
                    state: OrderState::PendingAmend,
                    amend_target: Some((price, (o.filled + remaining) as i64)),
                    intent: None,
                    req_id: Some(lifecycle::request_id("a"@, v.next_req)),
                    inflight_since: Some(now),
                    ..o
                },
            );
        }
    }
}

/// While a request is in flight, be it a query, the latest intent wins: it
/// replaces whatever was wanted before and nothing is sent.
pub proof fn the_latest_intent_wins(
    v: ManagerView,
    id: u64,
    price: Ticks,
    remaining: i64,
    now: Instant,
)
    requires
        v.wf(),
        lifecycle::known(v.orders, id),
        v.next_req < u64::MAX,
        0 < remaining <= MAX_CONTRACTS,
        v.at(id).state == OrderState::PendingNew || v.at(id).state == OrderState::PendingAmend || (
        v.at(id).state == OrderState::Live && v.at(id).req_id is Some),
    ensures
        v.cancel(id, now).1 is None,
        v.cancel(id, now).0.at(id).intent == Some(Intent::Cancel),
        v.amend(id, price, remaining, now).1 is None,
        v.amend(id, price, remaining, now).0.at(id).intent == Some(
            Intent::Amend { price, size: remaining },
        ),
{
    lemma_at(v, id);
    let o = v.at(id);
    let n = v.numbered();
    lifecycle::lemma_wf_next_req(v, n.next_req);
    lifecycle::lemma_put(n, OrderView { intent: Some(Intent::Cancel), ..o });
    lifecycle::lemma_put(n, OrderView { intent: Some(Intent::Amend { price, size: remaining }), ..o });
}

/// A cancel that had to wait for an answer is sent as soon as the answer shows
/// the order open.
pub proof fn a_waiting_cancel_follows_the_answer(v: ManagerView, resp: ResponseView)
    requires
        v.wf(),
        v.next_req < u64::MAX,
        v.by_req.contains_key(resp.req_id),
        lifecycle::known(v.orders, v.by_req[resp.req_id]),
        v.at(v.by_req[resp.req_id]).req_id == Some(resp.req_id),
        v.at(v.by_req[resp.req_id]).active(),
        v.at(v.by_req[resp.req_id]).intent == Some(Intent::Cancel),
        !(resp.result is Cancelled),
        resp.result.info() matches Some(info) && info.valid() && info.status
            == model::ExchangeStatus::Open,
    ensures
        v.respond(resp).1 =~= seq![
            CommandView::Cancel {
                req_id: lifecycle::request_id("c"@, v.next_req),
                exchange_id: v.respond(resp).0.at(v.by_req[resp.req_id]).exchange_id,
                client_id: v.at(v.by_req[resp.req_id]).client_id,
            },
        ],
{
    let id = v.by_req[resp.req_id];
    lemma_at(v, id);
    let s = ManagerView { by_req: v.by_req.remove(resp.req_id), ..v };
    lifecycle::lemma_wf_by_req(v, s.by_req);
    let o = OrderView { req_id: None, inflight_since: None, last_update: resp.at, ..v.at(id) };
    let info = resp.result.info()->0;
    let n = lifecycle::absorbed(o, info, resp.at);
    lifecycle::lemma_absorbed(o, info, resp.at);
    lifecycle::lemma_indexed_put(s, info.exchange_id, n);
    let w = s.indexed(o, info.exchange_id).put(n);
    assert(w.orders[lifecycle::pos(v.orders, id)] == n);
    lifecycle::lemma_pos(w.orders, lifecycle::pos(v.orders, id));
    assert(w.at(id) == n);
    let m = w.numbered();
    lifecycle::lemma_wf_next_req(w, m.next_req);
    let c = OrderView {
        state: OrderState::PendingCancel,
        intent: None,
        req_id: Some(lifecycle::request_id("c"@, w.next_req)),
        inflight_since: Some(resp.at),
        ..n
    };
    lifecycle::lemma_put(m, c);
    assert(w.cancel(id, resp.at).0.orders == m.put(c).orders);
}

/// A sum of in-flight quantities covers each order it is made of.
proof fn lemma_covers(
    orders: Seq<OrderView>,
    p: spec_fn(OrderView) -> bool,
    side: Side,
    reduce: bool,
    i: int,
)
    requires
        0 <= i < orders.len(),
        forall|j: int| 0 <= j < orders.len() ==> (#[trigger] orders[j]).valid(),
    ensures
        lifecycle::exposure_sum(orders, p, side, reduce) >= lifecycle::exposure_part(
            orders[i],
            p,
            side,
            reduce,
        ) >= 0,
        lifecycle::exposure_sum(orders, p, side, reduce) >= 0,
    decreases orders.len(),
{
    reveal_with_fuel(lifecycle::exposure_sum, 2);
    let init = orders.drop_last();
    assert(orders.last() == orders[orders.len() - 1]);
    assert(orders[i].valid() && orders[orders.len() - 1].valid());
    assert forall|j: int| 0 <= j < init.len() implies (#[trigger] init[j]).valid() by {
        assert(orders[j].valid());
    }
    if init.len() > 0 {
        lemma_covers(
            init,
            p,
            side,
            reduce,
            if i < init.len() {
                i
            } else {
                0
            },
        );
        if i < init.len() {
            assert(init[i] == orders[i]);
        }
    }
}

/// While an amend is in flight the larger of the old and the requested remainder
/// counts as exposure.
pub proof fn amends_in_flight_count_in_full(v: ManagerView, id: u64, p: spec_fn(OrderView) -> bool)
    requires
        v.wf(),
        lifecycle::known(v.orders, id),
        v.at(id).state == OrderState::PendingAmend,
        p(v.at(id)),
    ensures
        v.at(id).amend_target matches Some(t) && ({
            let sum = lifecycle::exposure_sum(v.orders, p, v.at(id).side, v.at(id).reduce_only);
            sum >= t.1 - v.at(id).filled && sum >= v.at(id).remaining()
        }),
{
    lemma_at(v, id);
    lemma_covers(
        v.orders,
        p,
        v.at(id).side,
        v.at(id).reduce_only,
        lifecycle::pos(v.orders, id),
    );
}

/// What an amend asked for is kept until it is answered: neither a lagging stream
/// update nor a listing of open orders nor a timeout forgets it, nor does a
/// refusal that leaves the order open.
pub proof fn amends_are_remembered(
    v: ManagerView,
    o: OrderView,
    info: InfoView,
    label: Seq<char>,
    now: Instant,
)
    requires
        v.wf(),
        lifecycle::known(v.orders, o.id),
        v.at(o.id) == o,
        o.state == OrderState::PendingAmend,
        v.next_req < u64::MAX,
        info.valid(),
        info.status == model::ExchangeStatus::Open,
        !lifecycle::is_gone(label),
    ensures
        lifecycle::streamed(o, info, now).state == OrderState::PendingAmend,
        lifecycle::streamed(o, info, now).amend_target == o.amend_target,
        o.req_id is Some ==> lifecycle::absorbed(o, info, now).amend_target == o.amend_target,
        v.expire(o.id, now).0.at(o.id).state == OrderState::PendingAmend,
        v.expire(o.id, now).0.at(o.id).amend_target == o.amend_target,
        ({
            let n = v.refused(o, label, now).0.at(o.id);
            n.amend_target == o.amend_target && lifecycle::uncontrolled(n)
        }),
{
    lemma_at(v, o.id);
    let q = OrderView {
        req_id: Some(lifecycle::request_id("q"@, v.next_req)),
        inflight_since: Some(now),
        ..o
    };
    lifecycle::lemma_put(v, q);
    assert(v.expire(o.id, now).0.orders == v.put(q).orders);
    let r = OrderView { state: OrderState::Live, ..q };
    lifecycle::lemma_put(v, r);
    assert(v.refused(o, label, now).0.orders == v.put(r).orders);
}

/// One timeout sends one query and leaves every order in its state.
proof fn lemma_one_query(s: ManagerView, id: u64, now: Instant)
    requires
        s.wf(),
        s.next_req < u64::MAX,
        lifecycle::known(s.orders, id),
    ensures
        s.expire(id, now).1 is Query,
        evolves(s, s.expire(id, now).0),
        forall|k: u64| #[trigger]
            lifecycle::known(s.orders, k) ==> s.expire(id, now).0.at(k).state == s.at(k).state,
{
    lemma_at(s, id);
    let o = s.at(id);
    let r = match o.req_id {
        Some(q) => ManagerView { by_req: s.by_req.remove(q), ..s },
        None => s,
    };
    lifecycle::lemma_wf_by_req(s, r.by_req);
    lemma_same_orders(s, r);
    lemma_sent_evolves(r, o, "q"@, now);
    let t = s.expire(id, now).0;
    lemma_evolves_trans(s, r, t);
    let m = OrderView {
        req_id: Some(lifecycle::request_id("q"@, r.next_req)),
        inflight_since: Some(now),
        ..o
    };
    lifecycle::lemma_put(r, m);
    assert(t.orders == r.put(m).orders);
    assert forall|k: u64| #[trigger] lifecycle::known(s.orders, k) implies t.at(k).state == s.at(
        k,
    ).state by {
        if k != id {
            assert(r.put(m).at(k) == r.at(k));
        }
    }
}

/// A request that timed out is asked about, never repeated and never taken as
/// failed: timeouts send queries only and leave every order in its state.
pub proof fn timeouts_only_query(v: ManagerView, ids: Seq<u64>, now: Instant)
    requires
        v.wf(),
        v.next_req + ids.len() <= u64::MAX,
        forall|j: int| 0 <= j < ids.len() ==> lifecycle::known(v.orders, #[trigger] ids[j]),
    ensures
        forall|j: int|
            0 <= j < v.expire_all(ids, now).1.len() ==> (#[trigger] v.expire_all(
                ids,
                now,
            ).1[j]) is Query,
        forall|k: u64| #[trigger]
            lifecycle::known(v.orders, k) ==> v.expire_all(ids, now).0.at(k).state == v.at(k).state,
        evolves(v, v.expire_all(ids, now).0),
    decreases ids.len(),
{
    lemma_same_orders(v, v);
    if ids.len() > 0 {
        assert forall|j: int| 0 <= j < ids.drop_last().len() implies lifecycle::known(
            v.orders,
            #[trigger] ids.drop_last()[j],
        ) by {
            assert(lifecycle::known(v.orders, ids[j]));
        }
        let init = ids.drop_last();
        timeouts_only_query(v, init, now);
        lifecycle::lemma_expire_all(v, init, now);
        let s = v.expire_all(init, now).0;
        let id = ids.last();
        assert(lifecycle::known(v.orders, ids[ids.len() - 1]));
        assert(lifecycle::known(s.orders, id));
        lemma_one_query(s, id, now);
        let t = s.expire(id, now).0;
        lemma_evolves_trans(v, s, t);
        assert forall|k: u64| #[trigger] lifecycle::known(v.orders, k) implies t.at(k).state
            == v.at(k).state by {
            assert(lifecycle::known(s.orders, k));
        }
    }
}

/// An amend or a cancel that fails is asked about and never taken as done,
/// unless the exchange says that the order is gone. A placement of unknown fate
/// is asked about and stays pending.
pub proof fn failures_are_asked_about(v: ManagerView, o: OrderView, label: Seq<char>, now: Instant)
    requires
        v.wf(),
        lifecycle::known(v.orders, o.id),
        o.valid(),
        succeeds(v.at(o.id), o),
        (o.state == OrderState::PendingNew && lifecycle::is_unknown(label)) || ((o.state
            == OrderState::PendingAmend || o.state == OrderState::PendingCancel)
            && !lifecycle::is_gone(label)),
        v.next_req < u64::MAX,
    ensures
        v.refused(o, label, now).1.len() == 1,
        v.refused(o, label, now).1[0] is Query,
        !v.refused(o, label, now).0.at(o.id).state.terminal(),
{
    let base = if o.state == OrderState::PendingNew {
        o
    } else {
        OrderView { state: OrderState::Live, ..o }
    };
    let n = OrderView {
        req_id: Some(lifecycle::request_id("q"@, v.next_req)),
        inflight_since: Some(now),
        ..base
    };
    lifecycle::lemma_put(v, n);
    assert(v.sent(base, "q"@, now).orders == v.put(n).orders);
}

/// Open-order records move orders forward only.
pub proof fn adoption_keeps_orders(v: ManagerView, infos: Seq<InfoView>, now: Instant)
    requires
        v.wf(),
        forall|j: int| 0 <= j < infos.len() ==> (#[trigger] infos[j]).valid(),
    ensures
        evolves(v, v.adopt(infos, now).0),
        v.adopt(infos, now).0.wf(),
    decreases infos.len(),
{
    lemma_same_orders(v, v);
    if infos.len() > 0 {
        let init = infos.drop_last();
        assert forall|j: int| 0 <= j < init.len() implies (#[trigger] init[j]).valid() by {
            assert(infos[j].valid());
        }
        adoption_keeps_orders(v, init, now);
        let s = v.adopt(init, now).0;
        let info = infos.last();
        assert(infos[infos.len() - 1].valid());
        if let Some(id) = s.lookup(info.exchange_id, info.client_id) {
            lemma_lookup(s, info.exchange_id, info.client_id);
            lemma_at(s, id);
            lifecycle::lemma_absorbed(s.at(id), info, now);
            let n = lifecycle::absorbed(s.at(id), info, now);
            lemma_put_evolves(s, n);
            lemma_evolves_trans(v, s, s.put(n));
        }
    }
}

/// A dangerous order is never kept: it is repriced to what its slot wants, or
/// cancelled, however small the move.
pub proof fn danger_is_never_kept(rules: Rules, o: OrderView, want: Option<Quote>, taken: bool)
    requires
        rules.in_danger(o),
    ensures
        rules.decide(o, want, taken) is Cancel || (want matches Some(q) && rules.decide(
            o,
            want,
            taken,
        ) == Move::Reprice(q.price, q.size)),
{
}

/// An order that is safe, near enough to its slot's price and of the right size
/// keeps its place in the queue; a mere size decrease keeps its price.
pub proof fn small_moves_keep_the_queue(rules: Rules, o: OrderView, q: Quote)
    requires
        o.price is Some,
        !rules.in_danger(o),
        q.purpose == o.purpose,
        reconcile::distance(q.price, o.price->0) < rules.threshold(o.layer),
        !rules.follows(o.side),
    ensures
        q.size == o.remaining() ==> rules.decide(o, Some(q), false) == Move::Keep,
        q.size < o.remaining() ==> rules.decide(o, Some(q), false) == Move::Resize(
            o.price->0,
            q.size,
        ),
        q.size > o.remaining() && !rules.grown.contains(o.id) ==> rules.decide(o, Some(q), false)
            == Move::Keep,
{
}

/// Where amends are not used, live orders are only ever cancelled.
pub proof fn without_amends_only_cancels(
    p: Pass,
    rules: Rules,
    live: Seq<OrderView>,
    desired: Seq<Quote>,
    now: Instant,
)
    requires
        !rules.use_amend,
        forall|i: int| 0 <= i < p.danger.len() ==> (#[trigger] p.danger[i]) is Cancel,
        forall|i: int| 0 <= i < p.other.len() ==> (#[trigger] p.other[i]) is Cancel,
    ensures
        forall|i: int|
            0 <= i < p.steps(rules, live, desired, now).danger.len() ==> (#[trigger] p.steps(
                rules,
                live,
                desired,
                now,
            ).danger[i]) is Cancel,
        forall|i: int|
            0 <= i < p.steps(rules, live, desired, now).other.len() ==> (#[trigger] p.steps(
                rules,
                live,
                desired,
                now,
            ).other[i]) is Cancel,
    decreases live.len(),
{
    if live.len() > 0 {
        without_amends_only_cancels(p, rules, live.drop_last(), desired, now);
    }
}

/// A cancelled list of orders gives cancel commands and nothing else.
pub proof fn cancels_are_cancels(v: ManagerView, ids: Seq<u64>, now: Instant)
    ensures
        forall|i: int|
            0 <= i < v.cancel_all(ids, now).1.len() ==> (#[trigger] v.cancel_all(
                ids,
                now,
            ).1[i]) is Cancel,
    decreases ids.len(),
{
    if ids.len() > 0 {
        cancels_are_cancels(v, ids.drop_last(), now);
    }
}

/// An order that is on its way out, or finished.
pub open spec fn leaving(o: OrderView) -> bool {
    o.state.terminal() || o.state == OrderState::PendingCancel || o.intent == Some(Intent::Cancel)
}

/// Cancelling a list of orders leaves each of them on its way out: the cancel is
/// sent, or it is the intent that follows the answer that is awaited.
pub proof fn cancelled_orders_leave(v: ManagerView, ids: Seq<u64>, now: Instant)
    requires
        v.wf(),
        v.next_req + ids.len() <= u64::MAX,
        forall|j: int| 0 <= j < ids.len() ==> lifecycle::known(v.orders, #[trigger] ids[j]),
    ensures
        evolves(v, v.cancel_all(ids, now).0),
        forall|k: u64| #[trigger]
            lifecycle::known(v.orders, k) && leaving(v.at(k)) ==> leaving(
                v.cancel_all(ids, now).0.at(k),
            ),
        forall|j: int|
            0 <= j < ids.len() ==> leaving(v.cancel_all(ids, now).0.at(#[trigger] ids[j])),
    decreases ids.len(),
{
    lemma_same_orders(v, v);
    if ids.len() > 0 {
        let init = ids.drop_last();
        assert forall|j: int| 0 <= j < init.len() implies lifecycle::known(
            v.orders,
            #[trigger] init[j],
        ) by {
            assert(lifecycle::known(v.orders, ids[j]));
        }
        cancelled_orders_leave(v, init, now);
        lifecycle::lemma_cancel_all(v, init, now);
        let s = v.cancel_all(init, now).0;
        let id = ids.last();
        assert(lifecycle::known(v.orders, ids[ids.len() - 1]));
        assert(lifecycle::known(s.orders, id));
        requests_keep_orders(s, id, 0, 0, now);
        let t = s.cancel(id, now).0;
        lemma_evolves_trans(v, s, t);
        lemma_cancel_leaves(s, id, now);
        assert forall|k: u64| #[trigger]
            lifecycle::known(v.orders, k) && leaving(v.at(k)) implies leaving(t.at(k)) by {
            assert(lifecycle::known(s.orders, k));
            assert(leaving(s.at(k)));
        }
        assert forall|j: int| 0 <= j < ids.len() implies leaving(t.at(#[trigger] ids[j])) by {
            if j < init.len() {
                assert(init[j] == ids[j]);
                assert(lifecycle::known(s.orders, ids[j]));
            }
        }
    }
}

proof fn lemma_cancel_leaves(v: ManagerView, id: u64, now: Instant)
    requires
        v.wf(),
        v.next_req < u64::MAX,
        lifecycle::known(v.orders, id),
    ensures
        leaving(v.cancel(id, now).0.at(id)),
        forall|k: u64| #[trigger]
            lifecycle::known(v.orders, k) && leaving(v.at(k)) ==> leaving(
                v.cancel(id, now).0.at(k),
            ),
{
    lemma_at(v, id);
    let o = v.at(id);
    let n = v.numbered();
    lifecycle::lemma_wf_next_req(v, n.next_req);
    let c = OrderView {
        state: OrderState::PendingCancel,
        intent: None,
        req_id: Some(lifecycle::request_id("c"@, v.next_req)),
        inflight_since: Some(now),
        ..o
    };
    let i = OrderView { intent: Some(Intent::Cancel), ..o };
    lifecycle::lemma_put(n, c);
    lifecycle::lemma_put(n, i);
    let t = v.cancel(id, now).0;
    assert forall|k: u64| #[trigger]
        lifecycle::known(v.orders, k) && leaving(v.at(k)) implies leaving(t.at(k)) by {
        if k != id {
            assert(n.put(c).at(k) == v.at(k));
            assert(n.put(i).at(k) == v.at(k));
        }
    }
}

} // verus!
