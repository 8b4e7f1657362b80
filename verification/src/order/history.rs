//! What holds of an order over any run of calls, for as long as it is kept.

use vstd::prelude::*;

use crate::order::laws;
use crate::order::lifecycle;
use crate::order::lifecycle::ManagerView;
use crate::order::model;
use crate::order::model::{InfoView, OrderView, ResponseView, Tif, UserTrade, MAX_CONTRACTS};
use crate::order::reconcile;
use crate::order::reconcile::Rules;
use crate::order::reconcile_laws;
use crate::strategy::quote::Quote;
use crate::time::Instant;
use crate::types::{Purpose, Side, Ticks};

verus! {

/// A call that changes the orders.
pub ghost enum Call<R> {
    Place {
        side: Side,
        purpose: Purpose,
        layer: u8,
        price: Option<Ticks>,
        size: i64,
        tif: Tif,
        now: Instant,
        now_ms: i64,
    },
    Amend { id: u64, price: Ticks, remaining: i64, now: Instant },
    Cancel { id: u64, now: Instant },
    CancelWhere { p: spec_fn(OrderView) -> bool, now: Instant },
    Reconcile { desired: Seq<Quote>, rules: Rules, now: Instant, now_ms: i64 },
    Answer(ResponseView),
    Update { info: InfoView, now: Instant },
    Trade(UserTrade<R>),
    Timeouts(Instant),
    Adopt { infos: Seq<InfoView>, now: Instant },
    Forget(Instant),
}

impl ManagerView {
    /// The quantities of a call can be booked and the counters have room for it.
    pub open spec fn takes<R>(self, c: Call<R>) -> bool {
        match c {
            Call::Place { size, .. } => self.room(1) && model::is_count(size as int),
            Call::Amend { remaining, .. } => self.next_req < u64::MAX && remaining <= MAX_CONTRACTS,
            Call::Cancel { .. } => self.next_req < u64::MAX,
            Call::CancelWhere { .. } | Call::Timeouts(_) => self.next_req + self.orders.len()
                <= u64::MAX,
            Call::Reconcile { desired, .. } => self.room(
                (self.orders.len() + desired.len()) as int,
            ) && forall|i: int|
                0 <= i < desired.len() ==> (#[trigger] desired[i]).size <= MAX_CONTRACTS,
            Call::Answer(resp) => self.next_req < u64::MAX && resp.result.valid(),
            Call::Update { info, .. } => self.next_req < u64::MAX && info.valid(),
            Call::Trade(t) => lifecycle::admits_trade(self, t),
            Call::Adopt { infos, .. } => forall|j: int|
                0 <= j < infos.len() ==> (#[trigger] infos[j]).valid(),
            Call::Forget(_) => true,
        }
    }

    /// The orders after a call.
    pub open spec fn called<R>(self, c: Call<R>) -> ManagerView {
        match c {
            Call::Place { side, purpose, layer, price, size, tif, now, now_ms } => self.place(
                side,
                purpose,
                layer,
                price,
                size,
                tif,
                now,
                now_ms,
            ).0,
            Call::Amend { id, price, remaining, now } => self.amend(id, price, remaining, now).0,
            Call::Cancel { id, now } => self.cancel(id, now).0,
            Call::CancelWhere { p, now } => self.cancel_all(
                lifecycle::select(self.orders, |o: OrderView| o.active() && p(o)),
                now,
            ).0,
            Call::Reconcile { desired, rules, now, now_ms } => reconcile::reconciled(
                self,
                desired,
                rules,
                now,
                now_ms,
            ).0,
            Call::Answer(resp) => self.respond(resp).0,
            Call::Update { info, now } => self.order_update(info, now).0,
            Call::Trade(t) => self.delivered(t),
            Call::Timeouts(now) => self.expire_all(
                lifecycle::select(
                    self.orders,
                    |o: OrderView| lifecycle::timed_out(o, self.inflight_timeout, now),
                ),
                now,
            ).0,
            Call::Adopt { infos, now } => self.adopt(infos, now).0,
            Call::Forget(now) => self.forget_all(
                lifecycle::select(self.orders, |o: OrderView| lifecycle::expired(o, now)),
            ),
        }
    }
}

/// States of the orders one after the other, each from the one before by a call.
pub open spec fn is_run<R>(vs: Seq<ManagerView>, cs: Seq<Call<R>>) -> bool {
    &&& vs.len() == cs.len() + 1
    &&& forall|i: int| 0 <= i < vs.len() ==> (#[trigger] vs[i]).wf()
    &&& forall|i: int|
        0 <= i < cs.len() ==> vs[i].takes(#[trigger] cs[i]) && vs[i + 1] == vs[i].called(cs[i])
}

proof fn lemma_cancel_all_evolves(v: ManagerView, ids: Seq<u64>, now: Instant)
    requires
        v.wf(),
        v.next_req + ids.len() <= u64::MAX,
    ensures
        laws::evolves(v, v.cancel_all(ids, now).0),
    decreases ids.len(),
{
    if ids.len() == 0 {
        laws::lemma_same_orders(v, v);
    } else {
        let init = ids.drop_last();
        lemma_cancel_all_evolves(v, init, now);
        lifecycle::lemma_cancel_all(v, init, now);
        let s = v.cancel_all(init, now).0;
        laws::requests_keep_orders(s, ids.last(), 0, 0, now);
        laws::lemma_evolves_trans(v, s, s.cancel(ids.last(), now).0);
    }
}

/// Forgetting some orders leaves the others as they are.
pub(crate) proof fn lemma_forget_all(v: ManagerView, ids: Seq<u64>)
    requires
        v.wf(),
        forall|j: int| 0 <= j < ids.len() ==> lifecycle::known(v.orders, #[trigger] ids[j]),
        forall|j: int, k: int| 0 <= j < k < ids.len() ==> #[trigger] ids[j] < #[trigger] ids[k],
    ensures
        v.forget_all(ids).wf(),
        forall|k: u64| !ids.contains(k) ==> #[trigger] v.forget_all(ids).get(k) == v.get(k),
        forall|k: u64| ids.contains(k) ==> #[trigger] v.forget_all(ids).get(k) is None,
    decreases ids.len(),
{
    if ids.len() > 0 {
        let init = ids.drop_last();
        let id = ids.last();
        assert forall|j: int| 0 <= j < init.len() implies lifecycle::known(
            v.orders,
            #[trigger] init[j],
        ) by {
            assert(lifecycle::known(v.orders, ids[j]));
        }
        assert forall|j: int, k: int| 0 <= j < k < init.len() implies #[trigger] init[j]
            < #[trigger] init[k] by {
            assert(ids[j] < ids[k]);
        }
        lemma_forget_all(v, init);
        let s = v.forget_all(init);
        assert(lifecycle::known(v.orders, ids[ids.len() - 1]));
        assert(!init.contains(id)) by {
            assert forall|j: int| 0 <= j < init.len() implies init[j] != id by {
                assert(ids[j] < ids[ids.len() - 1]);
            }
        }
        assert(s.get(id) == v.get(id));
        lifecycle::lemma_forget(s, id);
        let w = v.forget_all(ids);
        assert forall|k: u64| !ids.contains(k) implies #[trigger] w.get(k) == v.get(k) by {
            assert(ids[ids.len() - 1] == id);
            assert(!init.contains(k)) by {
                assert forall|j: int| 0 <= j < init.len() implies init[j] != k by {
                    assert(ids[j] != k);
                }
            }
            assert(s.forget(id).get(k) == s.get(k));
            assert(s.get(k) == v.get(k));
        }
        assert forall|k: u64| ids.contains(k) implies #[trigger] w.get(k) is None by {
            if k != id {
                let j = choose|j: int| 0 <= j < ids.len() && ids[j] == k;
                assert(init[j] == k);
                assert(s.forget(id).get(k) == s.get(k));
                assert(s.get(k) is None);
            }
        }
    }
}

/// An order that a call keeps is in a later state after it.
pub proof fn calls_move_orders_forward<R>(v: ManagerView, c: Call<R>, k: u64)
    requires
        v.wf(),
        v.takes(c),
        lifecycle::known(v.orders, k),
        lifecycle::known(v.called(c).orders, k),
    ensures
        laws::succeeds(v.at(k), v.called(c).at(k)),
{
    match c {
        Call::Place { side, purpose, layer, price, size, tif, now, now_ms } => {
            laws::placing_keeps_orders(v, side, purpose, layer, price, size, tif, now, now_ms);
        },
        Call::Amend { id, price, remaining, now } => {
            laws::requests_keep_orders(v, id, price, remaining, now);
        },
        Call::Cancel { id, now } => {
            laws::requests_keep_orders(v, id, 0, 0, now);
        },
        Call::CancelWhere { p, now } => {
            let q = |o: OrderView| o.active() && p(o);
            lifecycle::lemma_select_len(v.orders, q);
            lemma_cancel_all_evolves(v, lifecycle::select(v.orders, q), now);
        },
        Call::Reconcile { desired, rules, now, now_ms } => {
            reconcile_laws::reconciling_keeps_orders(v, desired, rules, now, now_ms);
        },
        Call::Answer(resp) => {
            laws::answers_keep_orders(v, resp);
        },
        Call::Update { info, now } => {
            laws::updates_keep_orders(v, info, now);
        },
        Call::Trade(t) => {
            if v.seen.contains(t.trade_id@) {
                laws::lemma_same_orders(v, v);
            } else {
                let s = v.remember(t.trade_id@);
                lifecycle::lemma_remember(v, t.trade_id@);
                laws::lemma_same_orders(v, s);
                laws::trades_always_count(
                    s,
                    t.exchange_order_id@,
                    t.client_id@,
                    lifecycle::magnitude(t.signed_size as int),
                    t.at,
                );
                laws::lemma_evolves_trans(v, s, v.delivered(t));
            }
        },
        Call::Timeouts(now) => {
            let q = |o: OrderView| lifecycle::timed_out(o, v.inflight_timeout, now);
            lifecycle::lemma_select_len(v.orders, q);
            lifecycle::lemma_select(v.orders, q);
            laws::timeouts_only_query(v, lifecycle::select(v.orders, q), now);
        },
        Call::Adopt { infos, now } => {
            laws::adoption_keeps_orders(v, infos, now);
        },
        Call::Forget(now) => {
            let q = |o: OrderView| lifecycle::expired(o, now);
            let ids = lifecycle::select(v.orders, q);
            lifecycle::lemma_select(v.orders, q);
            lemma_forget_all(v, ids);
            laws::lemma_same_orders(v, v);
            assert(v.forget_all(ids).get(k) is Some);
            assert(v.forget_all(ids).get(k) == v.get(k));
        },
    }
}

/// Whatever is called, an order that is kept only moves forward: what identifies
/// it stays, its fills only grow, and once finished it stays finished.
pub proof fn orders_only_move_forward<R>(vs: Seq<ManagerView>, cs: Seq<Call<R>>, k: u64)
    requires
        is_run(vs, cs),
        forall|i: int| 0 <= i < vs.len() ==> lifecycle::known((#[trigger] vs[i]).orders, k),
    ensures
        laws::succeeds(vs.first().at(k), vs.last().at(k)),
    decreases cs.len(),
{
    if cs.len() > 0 {
        let n = cs.len() - 1;
        let init = vs.drop_last();
        let before = cs.drop_last();
        assert forall|i: int| 0 <= i < init.len() implies (#[trigger] init[i]).wf()
            && lifecycle::known(init[i].orders, k) by {
            assert(vs[i].wf() && lifecycle::known(vs[i].orders, k));
        }
        assert forall|i: int| 0 <= i < before.len() implies init[i].takes(#[trigger] before[i])
            && init[i + 1] == init[i].called(before[i]) by {
            assert(vs[i].takes(cs[i]) && vs[i + 1] == vs[i].called(cs[i]));
        }
        orders_only_move_forward(init, before, k);
        assert(vs[n].takes(cs[n]) && vs[n + 1] == vs[n].called(cs[n]));
        assert(lifecycle::known(vs[n + 1].orders, k));
        calls_move_orders_forward(vs[n], cs[n], k);
    }
}

} // verus!
