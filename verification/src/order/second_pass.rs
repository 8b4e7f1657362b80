//! A reconcile pass over quotes that already stand sends nothing.

use vstd::prelude::*;

use crate::order::lifecycle;
use crate::order::lifecycle::ManagerView;
use crate::order::model::{
    CommandView, ExchangeStatus, OrderState, OrderView, ResponseView, ResultView, Tif, MAX_CONTRACTS,
};
use crate::order::reconcile;
use crate::order::reconcile::{Pass, ReportView, Rules};
use crate::strategy::quote::Quote;
use crate::text;
use crate::time::Instant;
use crate::types::Side;

verus! {

/// Quotes that can all stand: one for each slot, none of them empty or dangerous,
/// and moves are measured in ticks.
pub open spec fn orderly(rules: Rules, desired: Seq<Quote>) -> bool {
    &&& rules.inner_ticks > 0
    &&& rules.outer_ticks > 0
    &&& forall|i: int|
        0 <= i < desired.len() ==> 0 < (#[trigger] desired[i]).size <= MAX_CONTRACTS
            && desired[i].layer != u8::MAX && !rules.bounds.dangerous(
            desired[i].side,
            desired[i].purpose,
            desired[i].price,
        )
    &&& forall|i: int, j: int|
        0 <= i < j < desired.len() ==> (#[trigger] desired[i]).side != (#[trigger] desired[j]).side
            || desired[i].layer != desired[j].layer
}

/// The answer says that the order of the command rests as it was placed.
pub open spec fn accepts(r: ResponseView, c: CommandView) -> bool {
    c matches CommandView::Place { req_id, size, price, .. } && r.req_id == req_id && (r.result
        matches ResultView::Placed(i) && i.valid() && i.status == ExchangeStatus::Open && price
        == Some(i.price) && i.size == size && i.left == size)
}

/// Answers taken in, one after the other.
pub open spec fn answered(v: ManagerView, rs: Seq<ResponseView>) -> ManagerView
    decreases rs.len(),
{
    if rs.len() == 0 {
        v
    } else {
        answered(v, rs.drop_last()).respond(rs.last()).0
    }
}

/// The order of a quote, placed and not yet answered.
spec fn is_fresh(o: OrderView, q: Quote, id: int, req: Seq<char>) -> bool {
    &&& o.id == id
    &&& o.side == q.side
    &&& o.purpose == q.purpose
    &&& o.layer == q.layer
    &&& o.price == Some(q.price)
    &&& o.size == q.size
    &&& o.filled == 0
    &&& o.trade_filled == 0
    &&& o.state == OrderState::PendingNew
    &&& o.intent is None
    &&& o.amend_target is None
    &&& o.exchange_id is None
    &&& o.req_id == Some(req)
}

/// The order of a quote, resting as it was placed.
spec fn is_quiet(o: OrderView, q: Quote) -> bool {
    &&& o.side == q.side
    &&& o.purpose == q.purpose
    &&& o.layer == q.layer
    &&& o.price == Some(q.price)
    &&& o.size == q.size
    &&& o.filled == 0
    &&& o.state == OrderState::Live
}

/// Different numbers are written differently.
proof fn lemma_decimal(a: nat, b: nat)
    requires
        text::decimal(a) == text::decimal(b),
    ensures
        a == b,
    decreases a,
{
    let s = text::decimal(a);
    assert(s.last() == text::digit(a % 10));
    assert(s.last() == text::digit(b % 10));
    if a < 10 || b < 10 {
        if a >= 10 {
            assert(text::decimal(a / 10).len() >= 1);
            assert(s.len() == text::decimal(a / 10).len() + 1);
        }
        if b >= 10 {
            assert(text::decimal(b / 10).len() >= 1);
            assert(s.len() == text::decimal(b / 10).len() + 1);
        }
    } else {
        assert(text::decimal(a / 10) =~= s.drop_last());
        assert(text::decimal(b / 10) =~= s.drop_last());
        lemma_decimal(a / 10, b / 10);
    }
}

proof fn lemma_request_ids(a: u64, b: u64)
    requires
        a != b,
    ensures
        lifecycle::request_id("p"@, a) != lifecycle::request_id("p"@, b),
{
    let head = "p"@ + seq!['-'];
    let n = head.len() as int;
    let x = lifecycle::request_id("p"@, a);
    let y = lifecycle::request_id("p"@, b);
    if x == y {
        assert(text::decimal(a as nat) =~= x.skip(n));
        assert(text::decimal(b as nat) =~= y.skip(n));
        lemma_decimal(a as nat, b as nat);
    }
}

/// What placing the first `n` quotes into empty slots leaves.
spec fn all_placed(
    book: ManagerView,
    desired: Seq<Quote>,
    n: int,
    b: ManagerView,
    cmds: Seq<CommandView>,
) -> bool {
    let m = book.orders.len() as int;
    &&& b.wf()
    &&& b.next_id == book.next_id + n
    &&& b.next_req == book.next_req + n
    &&& b.orders.len() == m + n
    &&& cmds.len() == n
    &&& forall|j: int| 0 <= j < m ==> #[trigger] b.orders[j] == book.orders[j]
    &&& forall|i: int|
        0 <= i < n ==> {
            let req = lifecycle::request_id("p"@, (book.next_req + i) as u64);
            &&& is_fresh(#[trigger] b.orders[m + i], desired[i], book.next_id + i, req)
            &&& b.by_req.contains_key(req)
            &&& b.by_req[req] == book.next_id + i
        }
    &&& forall|i: int|
        0 <= i < n ==> ((#[trigger] cmds[i]) matches CommandView::Place { req_id, size, price, .. }
            && req_id == lifecycle::request_id("p"@, (book.next_req + i) as u64) && size
            == desired[i].size && price == Some(desired[i].price))
}

proof fn lemma_all_placed(
    book: ManagerView,
    rules: Rules,
    desired: Seq<Quote>,
    n: int,
    now: Instant,
    now_ms: i64,
)
    requires
        book.wf(),
        book.room(desired.len() as int),
        orderly(rules, desired),
        0 <= n <= desired.len(),
    ensures
        ({
            let (b, cmds) = reconcile::placements(book, desired, Set::empty(), n, now, now_ms);
            all_placed(book, desired, n, b, cmds)
        }),
    decreases n,
{
    if n > 0 {
        let m = book.orders.len() as int;
        lemma_all_placed(book, rules, desired, n - 1, now, now_ms);
        let (b, cmds) = reconcile::placements(book, desired, Set::empty(), n - 1, now, now_ms);
        let q = desired[n - 1];
        assert(reconcile::is_missing(desired, Set::empty(), n - 1));
        let (c, cmd) = b.place(
            q.side,
            q.purpose,
            q.layer,
            Some(q.price),
            q.size,
            Tif::Poc,
            now,
            now_ms,
        );
        lifecycle::lemma_placed(b, c.orders.last(), c);
        assert forall|i: int| 0 <= i < n implies {
            let req = lifecycle::request_id("p"@, (book.next_req + i) as u64);
            &&& is_fresh(#[trigger] c.orders[m + i], desired[i], book.next_id + i, req)
            &&& c.by_req.contains_key(req)
            &&& c.by_req[req] == book.next_id + i
        } by {
            if i < n - 1 {
                assert(c.orders[m + i] == b.orders[m + i]);
                lemma_request_ids((book.next_req + i) as u64, (book.next_req + n - 1) as u64);
            }
        }
        assert forall|j: int| 0 <= j < m implies #[trigger] c.orders[j] == book.orders[j] by {
            assert(b.orders[j] == book.orders[j]);
        }
        let all = cmds.push(cmd);
        assert forall|i: int| 0 <= i < n implies ((#[trigger] all[i]) matches CommandView::Place {
            req_id,
            size,
            price,
            ..
        } && req_id == lifecycle::request_id("p"@, (book.next_req + i) as u64) && size
            == desired[i].size && price == Some(desired[i].price)) by {
            if i < n - 1 {
                assert(all[i] == cmds[i]);
            }
        }
    }
}

/// What the first `k` answers leave of the orders of the quotes.
spec fn some_answered(
    book: ManagerView,
    desired: Seq<Quote>,
    k: int,
    v: ManagerView,
) -> bool {
    let m = book.orders.len() as int;
    &&& v.wf()
    &&& v.orders.len() == m + desired.len()
    &&& forall|j: int| 0 <= j < m ==> #[trigger] v.orders[j] == book.orders[j]
    &&& forall|i: int|
        0 <= i < desired.len() ==> {
            let req = lifecycle::request_id("p"@, (book.next_req + i) as u64);
            if i < k {
                is_quiet(#[trigger] v.orders[m + i], desired[i])
            } else {
                &&& is_fresh(v.orders[m + i], desired[i], book.next_id + i, req)
                &&& v.by_req.contains_key(req)
                &&& v.by_req[req] == book.next_id + i
            }
        }
}

proof fn lemma_answer(
    book: ManagerView,
    rules: Rules,
    desired: Seq<Quote>,
    k: int,
    v: ManagerView,
    r: ResponseView,
    c: CommandView,
)
    requires
        orderly(rules, desired),
        0 <= k < desired.len(),
        book.next_req + desired.len() <= u64::MAX,
        book.next_id + desired.len() <= u64::MAX,
        some_answered(book, desired, k, v),
        c matches CommandView::Place { req_id, size, price, .. } && req_id
            == lifecycle::request_id("p"@, (book.next_req + k) as u64) && size == desired[k].size
            && price == Some(desired[k].price),
        accepts(r, c),
    ensures
        some_answered(book, desired, k + 1, v.respond(r).0),
{
    let m = book.orders.len() as int;
    let id = (book.next_id + k) as u64;
    let x = v.orders[m + k];
    assert(is_fresh(x, desired[k], book.next_id + k, r.req_id));
    lifecycle::lemma_pos(v.orders, m + k);
    assert(v.at(id) == x);
    let s = ManagerView { by_req: v.by_req.remove(r.req_id), ..v };
    lifecycle::lemma_wf_by_req(v, s.by_req);
    let o = OrderView { req_id: None, inflight_since: None, last_update: r.at, ..x };
    let info = r.result->Placed_0;
    let n = lifecycle::absorbed(o, info, r.at);
    assert(x.valid());
    lifecycle::lemma_absorbed(o, info, r.at);
    assert(s.at(id) == x);
    lifecycle::lemma_indexed_put(s, info.exchange_id, n);
    let w = s.indexed(o, info.exchange_id).put(n);
    assert(s.indexed(x, info.exchange_id) == s.indexed(o, info.exchange_id));
    assert(w.orders == v.orders.update(m + k, n));
    assert(w.at(id) == n);
    assert(v.respond(r).0 == w);
    assert forall|i: int| 0 <= i < desired.len() implies {
        let req = lifecycle::request_id("p"@, (book.next_req + i) as u64);
        if i < k + 1 {
            is_quiet(#[trigger] w.orders[m + i], desired[i])
        } else {
            &&& is_fresh(w.orders[m + i], desired[i], book.next_id + i, req)
            &&& w.by_req.contains_key(req)
            &&& w.by_req[req] == book.next_id + i
        }
    } by {
        if i != k {
            assert(w.orders[m + i] == v.orders[m + i]);
            lemma_request_ids((book.next_req + i) as u64, (book.next_req + k) as u64);
        }
    }
    assert forall|j: int| 0 <= j < m implies #[trigger] w.orders[j] == book.orders[j] by {
        assert(v.orders[j] == book.orders[j]);
    }
    assert(w.wf());
    assert(w.orders.len() == m + desired.len());
    assert(some_answered(book, desired, k + 1, w));
}

proof fn lemma_answers(
    book: ManagerView,
    rules: Rules,
    desired: Seq<Quote>,
    b: ManagerView,
    cmds: Seq<CommandView>,
    rs: Seq<ResponseView>,
)
    requires
        orderly(rules, desired),
        book.next_req + desired.len() <= u64::MAX,
        book.next_id + desired.len() <= u64::MAX,
        all_placed(book, desired, desired.len() as int, b, cmds),
        rs.len() <= cmds.len(),
        forall|k: int| 0 <= k < rs.len() ==> accepts(#[trigger] rs[k], cmds[k]),
    ensures
        some_answered(book, desired, rs.len() as int, answered(b, rs)),
    decreases rs.len(),
{
    let m = book.orders.len() as int;
    if rs.len() == 0 {
        assert forall|i: int| 0 <= i < desired.len() implies {
            let req = lifecycle::request_id("p"@, (book.next_req + i) as u64);
            &&& is_fresh(#[trigger] b.orders[m + i], desired[i], book.next_id + i, req)
            &&& b.by_req.contains_key(req)
            &&& b.by_req[req] == book.next_id + i
        } by {}
    } else {
        let init = rs.drop_last();
        let k = init.len() as int;
        assert forall|j: int| 0 <= j < init.len() implies accepts(#[trigger] init[j], cmds[j]) by {
            assert(rs[j] == init[j]);
        }
        lemma_answers(book, rules, desired, b, cmds, init);
        assert(rs.last() == rs[k]);
        assert(cmds[k] is Place);
        lemma_answer(book, rules, desired, k, answered(b, init), rs[k], cmds[k]);
    }
}

/// Where only the last orders stand in slots, they are the chosen ones.
proof fn lemma_chosen_tail(
    orders: Seq<OrderView>,
    p: spec_fn(OrderView) -> bool,
    m: int,
    n: int,
)
    requires
        0 <= m <= n <= orders.len(),
        lifecycle::chosen(orders.take(m), p).len() == 0,
        forall|i: int| m <= i < orders.len() ==> p(#[trigger] orders[i]),
    ensures
        lifecycle::chosen(orders.take(n), p) == orders.subrange(m, n),
    decreases n - m,
{
    if n == m {
        assert(orders.subrange(m, n) =~= seq![]);
        assert(lifecycle::chosen(orders.take(m), p) =~= seq![]);
    } else {
        lemma_chosen_tail(orders, p, m, n - 1);
        assert(orders.take(n).drop_last() =~= orders.take(n - 1));
        assert(orders.take(n).last() == orders[n - 1]);
        assert(orders.subrange(m, n) =~= orders.subrange(m, n - 1).push(orders[n - 1]));
    }
}

/// The quote wanted for a slot is the only one that names it.
proof fn lemma_only_one(rules: Rules, desired: Seq<Quote>, i: int, n: int)
    requires
        orderly(rules, desired),
        0 <= i < n <= desired.len(),
    ensures
        reconcile::wanted(desired.take(n), desired[i].side, desired[i].layer) == Some(desired[i]),
    decreases n,
{
    assert(desired.take(n).last() == desired[n - 1]);
    if i < n - 1 {
        assert(desired.take(n).drop_last() =~= desired.take(n - 1));
        lemma_only_one(rules, desired, i, n - 1);
    }
}

/// A pass over orders that all stand as wanted.
spec fn all_kept(v: ManagerView, desired: Seq<Quote>, k: int, p: Pass) -> bool {
    &&& p.book == v
    &&& p.danger == Seq::<CommandView>::empty()
    &&& p.other == Seq::<CommandView>::empty()
    &&& p.dangerous == 0
    &&& p.repriced == 0
    &&& p.resized == 0
    &&& p.cancelled == 0
    &&& p.kept == k
    &&& forall|key: (Side, u8)| #[trigger]
        p.taken.contains(key) ==> exists|i: int|
            0 <= i < k && (#[trigger] desired[i]).side == key.0 && desired[i].layer == key.1
    &&& forall|i: int|
        0 <= i < k ==> p.taken.contains(((#[trigger] desired[i]).side, desired[i].layer))
}

proof fn lemma_all_kept(
    v: ManagerView,
    rules: Rules,
    desired: Seq<Quote>,
    live: Seq<OrderView>,
    now: Instant,
)
    requires
        orderly(rules, desired),
        live.len() <= desired.len(),
        forall|i: int| 0 <= i < live.len() ==> is_quiet(#[trigger] live[i], desired[i]),
    ensures
        all_kept(
            v,
            desired,
            live.len() as int,
            Pass::start(v).steps(rules, live, desired, now),
        ),
    decreases live.len(),
{
    if live.len() > 0 {
        let init = live.drop_last();
        let k = init.len() as int;
        assert forall|i: int| 0 <= i < init.len() implies is_quiet(#[trigger] init[i], desired[i]) by {
            assert(live[i] == init[i]);
        }
        lemma_all_kept(v, rules, desired, init, now);
        let p = Pass::start(v).steps(rules, init, desired, now);
        let o = live.last();
        assert(o == live[k]);
        assert(desired.take(desired.len() as int) =~= desired);
        lemma_only_one(rules, desired, k, desired.len() as int);
        let key = (o.side, o.layer);
        assert(!p.taken.contains(key)) by {
            if p.taken.contains(key) {
                let i = choose|i: int|
                    0 <= i < k && (#[trigger] desired[i]).side == key.0 && desired[i].layer
                        == key.1;
                assert(desired[i].side != desired[k].side || desired[i].layer != desired[k].layer);
            }
        }
        let q = p.step(rules, o, desired, now);
        assert(q.kept == k + 1);
        assert forall|x: (Side, u8)| #[trigger] q.taken.contains(x) implies exists|i: int|
            0 <= i < k + 1 && (#[trigger] desired[i]).side == x.0 && desired[i].layer == x.1 by {
            if p.taken.contains(x) {
                let i = choose|i: int|
                    0 <= i < k && (#[trigger] desired[i]).side == x.0 && desired[i].layer == x.1;
                assert(desired[i].side == x.0);
            } else {
                assert(desired[k].side == x.0 && desired[k].layer == x.1);
            }
        }
    }
}

proof fn lemma_none_missing(
    v: ManagerView,
    desired: Seq<Quote>,
    taken: Set<(Side, u8)>,
    n: int,
    now: Instant,
    now_ms: i64,
)
    requires
        0 <= n <= desired.len(),
        forall|i: int|
            0 <= i < desired.len() ==> taken.contains(
                ((#[trigger] desired[i]).side, desired[i].layer),
            ),
    ensures
        reconcile::placements(v, desired, taken, n, now, now_ms) == (v, Seq::<CommandView>::empty()),
    decreases n,
{
    if n > 0 {
        lemma_none_missing(v, desired, taken, n - 1, now, now_ms);
        assert(taken.contains((desired[n - 1].side, desired[n - 1].layer)));
    }
}

/// A pass sends no more than is needed: once the orders that it placed into empty
/// slots rest as they were placed, a second pass over the same quotes keeps them
/// all, sends nothing and changes nothing.
pub proof fn a_second_pass_sends_nothing(
    book: ManagerView,
    desired: Seq<Quote>,
    rules: Rules,
    rs: Seq<ResponseView>,
    now: Instant,
    now_ms: i64,
    later: Instant,
    later_ms: i64,
)
    requires
        book.wf(),
        book.room(desired.len() as int),
        lifecycle::slot_orders(book.orders).len() == 0,
        orderly(rules, desired),
        ({
            let commands = reconcile::reconciled(book, desired, rules, now, now_ms).1.commands;
            &&& rs.len() == commands.len()
            &&& forall|k: int| 0 <= k < rs.len() ==> accepts(#[trigger] rs[k], commands[k])
        }),
    ensures
        ({
            let after = answered(reconcile::reconciled(book, desired, rules, now, now_ms).0, rs);
            reconcile::reconciled(after, desired, rules, later, later_ms) == (
                after,
                ReportView {
                    commands: seq![],
                    dangerous: 0,
                    repriced: 0,
                    resized: 0,
                    placed: 0,
                    cancelled: 0,
                    kept: desired.len(),
                },
            )
        }),
{
    let m = book.orders.len() as int;
    let n = desired.len() as int;
    let none = lifecycle::slot_orders(book.orders);
    assert(none =~= seq![]);
    let (b, cmds) = reconcile::placements(book, desired, Set::empty(), n, now, now_ms);
    lemma_all_placed(book, rules, desired, n, now, now_ms);
    assert(Pass::start(book).steps(rules, none, desired, now) == Pass::start(book));
    let first = reconcile::reconciled(book, desired, rules, now, now_ms);
    assert(first.0 == b);
    assert(first.1.commands =~= cmds);
    assert forall|k: int| 0 <= k < rs.len() implies accepts(#[trigger] rs[k], cmds[k]) by {
        assert(accepts(rs[k], first.1.commands[k]));
    }
    lemma_answers(book, rules, desired, b, cmds, rs);
    let v = answered(b, rs);
    let p = |o: OrderView| o.active() && o.layer != u8::MAX;
    assert(v.orders.take(m) =~= book.orders);
    assert forall|i: int| m <= i < v.orders.len() implies p(#[trigger] v.orders[i]) by {
        let k = i - m;
        assert(is_quiet(v.orders[m + k], desired[k]));
        assert(desired[k].layer != u8::MAX);
    }
    lemma_chosen_tail(v.orders, p, m, m + n);
    assert(v.orders.take(m + n) =~= v.orders);
    let live = lifecycle::slot_orders(v.orders);
    assert(live == v.orders.subrange(m, m + n));
    assert forall|i: int| 0 <= i < live.len() implies is_quiet(#[trigger] live[i], desired[i]) by {
        assert(is_quiet(v.orders[m + i], desired[i]));
    }
    lemma_all_kept(v, rules, desired, live, later);
    let pass = Pass::start(v).steps(rules, live, desired, later);
    lemma_none_missing(v, desired, pass.taken, n, later, later_ms);
    let second = reconcile::reconciled(v, desired, rules, later, later_ms);
    assert(second.1.commands =~= seq![]);
}

} // verus!
