//! How stored intents, stream updates, open-order lists and the clean-up act, and
//! what counts as out of our hands.

use vstd::prelude::*;

use crate::order::history;
use crate::order::lifecycle;
use crate::order::lifecycle::ManagerView;
use crate::order::model::{
    CommandView, ExchangeStatus, InfoView, Intent, OrderState, OrderView, ResponseView, ResultView,
};
use crate::order::request_laws;
use crate::text;
use crate::time::Instant;
use crate::types::{Side, Ticks};

verus! {

proof fn lemma_found(v: ManagerView, id: u64)
    requires
        v.wf(),
        lifecycle::known(v.orders, id),
    ensures
        v.at(id).id == id,
        v.at(id).valid(),
{
    let p = lifecycle::pos(v.orders, id);
    assert(0 <= p < v.orders.len() && v.orders[p].id == id);
}

/// A stored amend of an order that turns out to be open is sent, unless the order
/// stands at that price with that size already; then it is forgotten.
pub proof fn a_stored_amend_follows_the_answer(
    v: ManagerView,
    resp: ResponseView,
    id: u64,
    price: Ticks,
    size: i64,
)
    requires
        v.wf(),
        v.next_req < u64::MAX,
        request_laws::answers(v, resp, id),
        !(v.at(id).state is Done),
        v.at(id).intent == Some(Intent::Amend { price, size }),
        !(resp.result is Cancelled),
        resp.result.info() matches Some(i) && i.valid() && i.status == ExchangeStatus::Open,
    ensures
        ({
            let (w, cmds) = v.respond(resp);
            let info = resp.result.info()->0;
            let filled = if info.size - info.left > v.at(id).filled {
                info.size - info.left
            } else {
                v.at(id).filled as int
            };
            let left = if info.size >= filled {
                info.size - filled
            } else {
                0
            };
            let there = info.price == price && left == size;
            &&& there ==> cmds.len() == 0 && w.at(id).intent is None && w.at(id).state
                == OrderState::Live
            &&& !there ==> cmds.len() == 1 && (cmds[0] matches CommandView::Amend {
                client_id,
                price: p,
                size: s,
                ..
            } && client_id == v.at(id).client_id && p == Some(price) && (s matches Some(total)
                && total == filled + size)) && w.at(id).state == OrderState::PendingAmend
        }),
{
    lemma_found(v, id);
    let s = ManagerView { by_req: v.by_req.remove(resp.req_id), ..v };
    lifecycle::lemma_wf_by_req(v, s.by_req);
    let o = OrderView { req_id: None, inflight_since: None, last_update: resp.at, ..v.at(id) };
    let info = resp.result.info()->0;
    let a = lifecycle::absorbed(o, info, resp.at);
    lifecycle::lemma_absorbed(o, info, resp.at);
    request_laws::records_are_taken_in(o, info, resp.at);
    lifecycle::lemma_indexed_put(s, info.exchange_id, a);
    let x = s.indexed(o, info.exchange_id).put(a);
    assert(s.indexed(s.at(id), info.exchange_id) == s.indexed(o, info.exchange_id));
    assert(x.at(id) == a);
    request_laws::an_amend_is_sent_or_stored(x, id, price, size, resp.at);
    lifecycle::lemma_put(x, OrderView { intent: None, ..a });
    assert(v.respond(resp) == x.apply_intent(id, resp.at));
}

/// An update about an order of ours that has nothing stored is taken in and sends
/// nothing; one about an order that is not known is remembered if it is open and
/// carries our prefix, and else ignored.
pub proof fn updates_go_to_their_order(v: ManagerView, info: InfoView, now: Instant)
    requires
        v.wf(),
        info.valid(),
    ensures
        ({
            let (w, cmds) = v.order_update(info, now);
            let ours = v.prefix.len() <= info.client_id.len() && info.client_id.take(
                v.prefix.len() as int,
            ) == v.prefix;
            &&& v.lookup(info.exchange_id, info.client_id) is None ==> cmds.len() == 0 && w.orders
                == v.orders
            &&& v.lookup(info.exchange_id, info.client_id) is None && ours && info.status
                == ExchangeStatus::Open ==> w.foreign.contains(info)
            &&& v.lookup(info.exchange_id, info.client_id) is None && !(ours && info.status
                == ExchangeStatus::Open) ==> w.foreign == v.foreign
            &&& v.lookup(info.exchange_id, info.client_id) matches Some(id) ==> v.at(id).intent
                is None ==> cmds.len() == 0 && w.at(id) == lifecycle::streamed(v.at(id), info, now)
                && request_laws::others_stay(v, w, id) && w.foreign == v.foreign
        }),
{
    text::parts_are_subranges(info.client_id, v.prefix);
    request_laws::orders_are_found_by_either_id(v, info.exchange_id, info.client_id);
    match v.lookup(info.exchange_id, info.client_id) {
        None => {
            lemma_with_foreign(v.foreign, info);
        },
        Some(id) => {
            lemma_found(v, id);
            let o = v.at(id);
            let n = lifecycle::streamed(o, info, now);
            lifecycle::lemma_absorbed(o, info, now);
            lifecycle::lemma_put(v, n);
            let s = v.indexed(o, info.exchange_id).put(n);
            assert(s.orders == v.put(n).orders);
            if o.intent is None {
                assert(n.intent is None);
                assert forall|k: u64| #[trigger]
                    lifecycle::known(v.orders, k) && k != id implies lifecycle::known(
                    s.orders,
                    k,
                ) && s.at(k) == v.at(k) by {
                    assert(lifecycle::known(v.put(n).orders, k));
                    assert(v.put(n).at(k) == v.at(k));
                }
                assert(s.at(id) == n);
            }
        },
    }
}

proof fn lemma_with_foreign(list: Seq<InfoView>, info: InfoView)
    ensures
        lifecycle::with_foreign(list, info).contains(info),
        forall|i: InfoView| #[trigger]
            list.contains(i) && i.exchange_id != info.exchange_id ==> lifecycle::with_foreign(
                list,
                info,
            ).contains(i),
    decreases list.len(),
{
    let all = lifecycle::with_foreign(list, info);
    if list.len() == 0 {
        assert(all[0] == info);
    } else {
        let init = list.drop_last();
        lemma_with_foreign(init, info);
        let n = list.len() - 1;
        if list.last().exchange_id == info.exchange_id {
            assert(all[n] == info);
            assert forall|i: InfoView| #[trigger]
                list.contains(i) && i.exchange_id != info.exchange_id implies all.contains(i) by {
                let k = list.index_of(i);
                assert(all[k] == i);
            }
        } else {
            let head = lifecycle::with_foreign(init, info);
            let k = head.index_of(info);
            assert(all[k] == info);
            assert(all[head.len() as int] == list.last());
            assert forall|i: InfoView| #[trigger]
                list.contains(i) && i.exchange_id != info.exchange_id implies all.contains(i) by {
                let j = list.index_of(i);
                if j < n {
                    assert(init[j] == i);
                    assert(init.contains(i));
                    let m = head.index_of(i);
                    assert(all[m] == i);
                }
            }
        }
    }
}

/// An answer to a request that nobody waits for changes no order; an answer to one
/// that was superseded only tells the exchange's id where it was not known.
pub proof fn stray_answers_change_little(v: ManagerView, resp: ResponseView)
    requires
        v.wf(),
    ensures
        !v.by_req.contains_key(resp.req_id) ==> v.respond(resp).0 == v && v.respond(resp).1.len()
            == 0,
        v.by_req.contains_key(resp.req_id) && lifecycle::known(v.orders, v.by_req[resp.req_id])
            && v.at(v.by_req[resp.req_id]).req_id != Some(resp.req_id) ==> {
            let (w, cmds) = v.respond(resp);
            let id = v.by_req[resp.req_id];
            let o = v.at(id);
            &&& cmds.len() == 0
            &&& w.at(id) == (OrderView { exchange_id: w.at(id).exchange_id, ..o })
            &&& o.exchange_id is Some ==> w.at(id) == o
        },
{
    if v.by_req.contains_key(resp.req_id) && lifecycle::known(v.orders, v.by_req[resp.req_id]) {
        let id = v.by_req[resp.req_id];
        lemma_found(v, id);
        let s = ManagerView { by_req: v.by_req.remove(resp.req_id), ..v };
        lifecycle::lemma_wf_by_req(v, s.by_req);
        let o = v.at(id);
        if let Some(info) = resp.result.info() {
            let n = OrderView { exchange_id: Some(info.exchange_id), ..o };
            if o.exchange_id is None {
                lifecycle::lemma_put(s, n);
                let w = s.indexed(o, info.exchange_id).put(n);
                assert(w.orders == s.put(n).orders);
                assert(w.at(id) == n);
            }
        }
    }
}

/// The quantity of an order that may still trade beyond our control.
pub open spec fn in_doubt(o: OrderView) -> int {
    let open = !(o.state is Done);
    let pending = o.state is PendingNew || o.state is PendingAmend || o.state is PendingCancel;
    let left = if o.size >= o.filled {
        o.size - o.filled
    } else {
        0
    };
    if pending || (open && o.req_id is Some && o.amend_target is Some) {
        match o.amend_target {
            Some(t) => if t.1 - o.filled >= left {
                t.1 - o.filled
            } else {
                left
            },
            None => left,
        }
    } else {
        0
    }
}

/// Exposure is counted order by order, on the side and in the kind of each: what
/// is pending, or in doubt after a failed amend, counts with all that it may still
/// trade, and nothing else counts.
pub proof fn exposure_adds_up_order_by_order(
    orders: Seq<OrderView>,
    o: OrderView,
    p: spec_fn(OrderView) -> bool,
    side: Side,
    reduce: bool,
)
    ensures
        lifecycle::exposure_sum(orders.push(o), p, side, reduce) == lifecycle::exposure_sum(
            orders,
            p,
            side,
            reduce,
        ) + (if p(o) && o.side == side && o.reduce_only == reduce {
            in_doubt(o)
        } else {
            0
        }),
        lifecycle::exposure_sum(Seq::<OrderView>::empty(), p, side, reduce) == 0,
{
    assert(orders.push(o).drop_last() =~= orders);
}

/// Each kind of exposure is the sum over its side and kind.
pub proof fn exposure_is_kept_by_side_and_kind(v: ManagerView, p: spec_fn(OrderView) -> bool)
    requires
        v.wf(),
    ensures
        ({
            let e = v.exposure(p);
            &&& e.open_buy == lifecycle::exposure_sum(v.orders, p, Side::Buy, false) as i128
            &&& e.open_sell == lifecycle::exposure_sum(v.orders, p, Side::Sell, false) as i128
            &&& e.reduce_buy == lifecycle::exposure_sum(v.orders, p, Side::Buy, true) as i128
            &&& e.reduce_sell == lifecycle::exposure_sum(v.orders, p, Side::Sell, true) as i128
        }),
{
}

/// What rests of ours in the market: every order that is not finished and has a
/// price and something left, with that price and all that is left.
pub proof fn resting_orders_are_listed(orders: Seq<OrderView>, o: OrderView)
    ensures
        ({
            let left = if o.size >= o.filled {
                o.size - o.filled
            } else {
                0
            };
            let list = lifecycle::resting(orders);
            let more = lifecycle::resting(orders.push(o));
            &&& o.price matches Some(p) ==> !(o.state is Done) && left > 0 ==> more == list.push(
                (o.side, p, left as i64),
            )
            &&& o.price is None || o.state is Done || left == 0 ==> more == list
        }),
        lifecycle::resting(Seq::<OrderView>::empty()).len() == 0,
{
    assert(orders.push(o).drop_last() =~= orders);
}

/// The clean-up drops exactly the orders that have been finished for more than two
/// minutes and keeps all others as they are.
pub proof fn the_clean_up_drops_old_finished_orders(v: ManagerView, now: Instant, id: u64)
    requires
        v.wf(),
        lifecycle::known(v.orders, id),
    ensures
        ({
            let w = v.forget_all(
                lifecycle::select(v.orders, |o: OrderView| lifecycle::expired(o, now)),
            );
            let o = v.at(id);
            let old = o.state is Done && (o.done_at matches Some(t) && now.nanos - t.nanos
                > 120_000_000_000);
            &&& old ==> !lifecycle::known(w.orders, id)
            &&& !old ==> lifecycle::known(w.orders, id) && w.at(id) == o
        }),
{
    let q = |o: OrderView| lifecycle::expired(o, now);
    let ids = lifecycle::select(v.orders, q);
    lifecycle::lemma_select(v.orders, q);
    history::lemma_forget_all(v, ids);
    let w = v.forget_all(ids);
    let i = lifecycle::pos(v.orders, id);
    assert(v.orders[i].id == id);
    if q(v.at(id)) {
        lemma_select_has(v.orders, q, i);
        assert(w.get(id) is None);
    } else {
        if ids.contains(id) {
            let j = ids.index_of(id);
            assert(q(v.orders[lifecycle::pos(v.orders, ids[j])]));
        }
        assert(w.get(id) == v.get(id));
    }
}

proof fn lemma_select_has(orders: Seq<OrderView>, p: spec_fn(OrderView) -> bool, i: int)
    requires
        0 <= i < orders.len(),
        p(orders[i]),
    ensures
        lifecycle::select(orders, p).contains(orders[i].id),
    decreases orders.len(),
{
    let ids = lifecycle::select(orders, p);
    if i == orders.len() - 1 {
        assert(ids[ids.len() - 1] == orders[i].id);
    } else {
        let init = orders.drop_last();
        assert(init[i] == orders[i]);
        lemma_select_has(init, p, i);
        let head = lifecycle::select(init, p);
        let j = head.index_of(orders[i].id);
        assert(ids[j] == orders[i].id);
    }
}

/// A list of open orders is taken in record by record: what names an order of ours
/// is absorbed by it, and everything else is handed back.
pub proof fn open_orders_are_taken_in_turn(
    v: ManagerView,
    infos: Seq<InfoView>,
    info: InfoView,
    now: Instant,
)
    requires
        v.wf(),
        info.valid(),
        forall|j: int| 0 <= j < infos.len() ==> (#[trigger] infos[j]).valid(),
    ensures
        ({
            let (s, unknown) = v.adopt(infos, now);
            let (w, all) = v.adopt(infos.push(info), now);
            &&& s.lookup(info.exchange_id, info.client_id) is None ==> w == s && all
                == unknown.push(info)
            &&& s.lookup(info.exchange_id, info.client_id) matches Some(id) ==> all == unknown
                && w.at(id) == lifecycle::absorbed(s.at(id), info, now)
                && request_laws::others_stay(s, w, id)
        }),
        v.adopt(Seq::<InfoView>::empty(), now) == (v, Seq::<InfoView>::empty()),
{
    crate::order::laws::adoption_keeps_orders(v, infos, now);
    assert(infos.push(info).drop_last() =~= infos);
    let s = v.adopt(infos, now).0;
    request_laws::orders_are_found_by_either_id(s, info.exchange_id, info.client_id);
    if let Some(id) = s.lookup(info.exchange_id, info.client_id) {
        lemma_found(s, id);
        let n = lifecycle::absorbed(s.at(id), info, now);
        lifecycle::lemma_absorbed(s.at(id), info, now);
        lifecycle::lemma_put(s, n);
        let w = s.put(n);
        assert forall|k: u64| #[trigger] lifecycle::known(s.orders, k) && k != id implies
            lifecycle::known(w.orders, k) && w.at(k) == s.at(k) by {
            assert(lifecycle::known(w.orders, k));
        }
    }
}

/// A late answer with a record tells the exchange id where it was not known yet, and
/// nothing else.
pub proof fn late_answers_tell_the_exchange_id(v: ManagerView, o: OrderView, result: ResultView)
    ensures
        ({
            let w = v.late_answer(o, result);
            let told = match result {
                ResultView::Placed(i) => Some(i.exchange_id),
                ResultView::Amended(i) => Some(i.exchange_id),
                ResultView::Queried(i) => Some(i.exchange_id),
                _ => None,
            };
            &&& told is None || o.exchange_id is Some ==> w == v
            &&& told matches Some(e) ==> o.exchange_id is None ==> w.orders == v.orders.update(
                lifecycle::pos(v.orders, o.id),
                OrderView { exchange_id: Some(e), ..o },
            ) && w.by_exchange.contains_key(e) && w.by_exchange[e] == o.id && w.by_client
                == v.by_client && w.next_req == v.next_req
        }),
{
}

} // verus!
