//! What a reconcile pass does with every order and every quote.

use vstd::prelude::*;

use crate::order::lifecycle;
use crate::order::lifecycle::ManagerView;
use crate::order::model::{CommandView, OrderState, OrderView, Tif, MAX_CONTRACTS};
use crate::order::reconcile;
use crate::order::reconcile::{Move, Pass, Rules};
use crate::order::reconcile_laws;
use crate::order::request_laws;
use crate::strategy::quote::Quote;
use crate::time::Instant;
use crate::types::{Purpose, Side, Ticks};

verus! {

/// The order stands beyond the bound of its side and purpose.
pub open spec fn breaches(rules: Rules, o: OrderView, price: Ticks) -> bool {
    match (o.side, o.purpose) {
        (Side::Buy, Purpose::Open) => price > rules.bounds.buy_open_max,
        (Side::Buy, Purpose::Reduce) => price > rules.bounds.buy_reduce_max,
        (Side::Sell, Purpose::Open) => price < rules.bounds.sell_open_min,
        (Side::Sell, Purpose::Reduce) => price < rules.bounds.sell_reduce_min,
    }
}

/// The wanted price is far enough from the order's for it to move: the threshold
/// of its layer away, or any way off on a side that follows tightly.
pub open spec fn drifted(rules: Rules, o: OrderView, price: Ticks, target: Ticks) -> bool {
    let far = if o.layer == 0 {
        rules.inner_ticks
    } else {
        rules.outer_ticks
    };
    let tight = if o.side == Side::Buy {
        rules.follow_tight_buy
    } else {
        rules.follow_tight_sell
    };
    target - price >= far || price - target >= far || (tight && target != price)
}

/// Contracts of an order that may still trade.
pub open spec fn left_of(o: OrderView) -> int {
    if o.size >= o.filled {
        o.size - o.filled
    } else {
        0
    }
}

/// What is done with an order: it goes where its slot is not wanted, is wanted for
/// another purpose or holds another order; it moves to the wanted price and size
/// when it is dangerous or the target has drifted; it keeps its price and takes a
/// smaller size, or one that outgrew the tolerance; and else it is kept.
pub proof fn orders_move_with_their_targets(
    rules: Rules,
    o: OrderView,
    want: Option<Quote>,
    taken: bool,
)
    ensures
        o.price is None ==> rules.decide(o, want, taken) == Move::Skip,
        o.price matches Some(price) ==> {
            let m = rules.decide(o, want, taken);
            &&& want is None ==> m == Move::Cancel
            &&& want matches Some(q) ==> {
                let moves = breaches(rules, o, price) || drifted(rules, o, price, q.price);
                let resizes = q.size < left_of(o) || (q.size > left_of(o) && rules.grown.contains(
                    o.id,
                ));
                &&& q.purpose != o.purpose || taken ==> m == Move::Cancel
                &&& q.purpose == o.purpose && !taken && moves ==> m == Move::Reprice(
                    q.price,
                    q.size,
                )
                &&& q.purpose == o.purpose && !taken && !moves && resizes ==> m == Move::Resize(
                    price,
                    q.size,
                )
                &&& q.purpose == o.purpose && !taken && !moves && !resizes ==> m == Move::Keep
            }
        },
        rules.in_danger(o) <==> (o.price matches Some(price) && breaches(rules, o, price)),
{
}

/// The quote at `i` is the one that counts for its slot.
pub open spec fn rules_its_slot(desired: Seq<Quote>, i: int) -> bool {
    0 <= i < desired.len() && forall|j: int|
        i < j < desired.len() ==> !((#[trigger] desired[j]).side == desired[i].side
            && desired[j].layer == desired[i].layer)
}

/// The quote wanted for a slot is the last one that names it, and none where no
/// quote does.
pub proof fn the_last_quote_of_a_slot_counts(desired: Seq<Quote>, side: Side, layer: u8)
    ensures
        forall|i: int| #[trigger]
            rules_its_slot(desired, i) && desired[i].side == side && desired[i].layer == layer
                ==> reconcile::wanted(desired, side, layer) == Some(desired[i]),
        (forall|i: int|
            0 <= i < desired.len() ==> !((#[trigger] desired[i]).side == side && desired[i].layer
                == layer)) ==> reconcile::wanted(desired, side, layer) is None,
    decreases desired.len(),
{
    if desired.len() > 0 {
        let init = desired.drop_last();
        the_last_quote_of_a_slot_counts(init, side, layer);
        assert(desired.last() == desired[desired.len() - 1]);
        assert forall|i: int| #[trigger]
            rules_its_slot(desired, i) && desired[i].side == side && desired[i].layer
                == layer implies reconcile::wanted(desired, side, layer) == Some(desired[i]) by {
            if i < desired.len() - 1 {
                assert(rules_its_slot(init, i)) by {
                    assert forall|j: int| i < j < init.len() implies !((#[trigger] init[j]).side
                        == init[i].side && init[j].layer == init[i].layer) by {
                        assert(desired[j] == init[j]);
                    }
                }
            }
        }
        if forall|i: int|
            0 <= i < desired.len() ==> !((#[trigger] desired[i]).side == side && desired[i].layer
                == layer) {
            assert forall|i: int| 0 <= i < init.len() implies !((#[trigger] init[i]).side == side
                && init[i].layer == layer) by {
                assert(desired[i] == init[i]);
            }
        }
    }
}

/// An order comes before another one in the same slot.
pub open spec fn preceded(live: Seq<OrderView>, i: int) -> bool {
    exists|j: int|
        0 <= j < i && (#[trigger] live[j]).price is Some && live[j].side == live[i].side
            && live[j].layer == live[i].layer
}

/// A pass after the first orders: later orders are as they were, and the slots of
/// the first ones that are wanted are taken.
spec fn upto(
    book: ManagerView,
    live: Seq<OrderView>,
    desired: Seq<Quote>,
    p: Pass,
    n: int,
) -> bool {
    &&& p.book.wf()
    &&& p.book.next_req <= book.next_req + n
    &&& forall|k: u64| #[trigger]
        lifecycle::known(book.orders, k) ==> lifecycle::known(p.book.orders, k)
    &&& forall|k: u64| #[trigger]
        lifecycle::known(book.orders, k) && (forall|j: int|
            0 <= j < n ==> (#[trigger] live[j]).id != k) ==> p.book.at(k) == book.at(k)
    &&& forall|s: Side, l: u8| #[trigger]
        p.taken.contains((s, l)) <==> reconcile::wanted(desired, s, l) is Some && (exists|j: int|
            0 <= j < n && (#[trigger] live[j]).price is Some && live[j].side == s && live[j].layer
                == l)
}

/// The live orders of a book, each found under its own id.
spec fn are_live(book: ManagerView, live: Seq<OrderView>) -> bool {
    &&& forall|j: int|
        0 <= j < live.len() ==> lifecycle::known(book.orders, (#[trigger] live[j]).id) && book.at(
            live[j].id,
        ) == live[j]
    &&& forall|i: int, j: int|
        0 <= i < j < live.len() ==> (#[trigger] live[i]).id != (#[trigger] live[j]).id
}

proof fn lemma_request_other(v: ManagerView, id: u64, price: Ticks, size: i64, now: Instant)
    requires
        v.wf(),
        v.next_req < u64::MAX,
        lifecycle::known(v.orders, id),
        size <= MAX_CONTRACTS,
    ensures
        ({
            let c = v.cancel(id, now).0;
            let a = v.amend(id, price, size, now).0;
            &&& c.wf()
            &&& a.wf()
            &&& c.next_req <= v.next_req + 1
            &&& a.next_req <= v.next_req + 1
            &&& request_laws::others_stay(v, c, id)
            &&& request_laws::others_stay(v, a, id)
            &&& lifecycle::known(c.orders, id)
            &&& lifecycle::known(a.orders, id)
        }),
{
    lifecycle::lemma_cancel(v, id, now);
    lifecycle::lemma_amend(v, id, price, size, now);
    request_laws::a_cancel_is_sent_or_stored(v, id, now);
    request_laws::an_amend_is_sent_or_stored(v, id, price, size, now);
}

/// The size wanted for a slot can be booked.
proof fn lemma_wanted_size(desired: Seq<Quote>, side: Side, layer: u8)
    requires
        forall|i: int| 0 <= i < desired.len() ==> (#[trigger] desired[i]).size <= MAX_CONTRACTS,
    ensures
        reconcile::wanted(desired, side, layer) matches Some(q) ==> q.size <= MAX_CONTRACTS,
{
    reconcile::lemma_wanted(desired, side, layer);
    if let Some(q) = reconcile::wanted(desired, side, layer) {
        let i = desired.index_of(q);
        assert(desired[i] == q);
    }
}

/// The request that a step makes of an order, if any, and the book after it.
spec fn asked_of(p: Pass, rules: Rules, o: OrderView, m: Move, now: Instant) -> (
    ManagerView,
    Option<CommandView>,
) {
    match m {
        Move::Cancel => p.book.cancel(o.id, now),
        Move::Reprice(a, b) | Move::Resize(a, b) => if rules.use_amend {
            p.book.amend(o.id, a, b, now)
        } else {
            p.book.cancel(o.id, now)
        },
        _ => (p.book, None),
    }
}

/// A request leaves all other orders as they are.
proof fn lemma_asked_other(p: Pass, rules: Rules, o: OrderView, m: Move, now: Instant)
    requires
        p.book.wf(),
        p.book.next_req < u64::MAX,
        lifecycle::known(p.book.orders, o.id),
        m matches Move::Reprice(a, b) ==> b <= MAX_CONTRACTS,
        m matches Move::Resize(a, b) ==> b <= MAX_CONTRACTS,
    ensures
        ({
            let b = asked_of(p, rules, o, m, now).0;
            &&& b.wf()
            &&& b.next_req <= p.book.next_req + 1
            &&& request_laws::others_stay(p.book, b, o.id)
            &&& lifecycle::known(b.orders, o.id)
        }),
{
    let (price, size) = match m {
        Move::Reprice(a, b) => (a, b),
        Move::Resize(a, b) => (a, b),
        _ => (0i64, 0i64),
    };
    lemma_request_other(p.book, o.id, price, size, now);
}

/// What one step changes: the book by its request, the taken slots by its own, and
/// its command is filed.
proof fn lemma_step_effect(p: Pass, rules: Rules, o: OrderView, desired: Seq<Quote>, now: Instant)
    ensures
        ({
            let want = reconcile::wanted(desired, o.side, o.layer);
            let m = rules.decide(o, want, p.taken.contains((o.side, o.layer)));
            let t = p.step(rules, o, desired, now);
            &&& t.book == asked_of(p, rules, o, m, now).0
            &&& t.taken == (if want is Some && o.price is Some {
                p.taken.insert((o.side, o.layer))
            } else {
                p.taken
            })
            &&& asked_of(p, rules, o, m, now).1 matches Some(c) ==> filed_in(t, c)
        }),
{
    let want = reconcile::wanted(desired, o.side, o.layer);
    let m = rules.decide(o, want, p.taken.contains((o.side, o.layer)));
    let t = p.step(rules, o, desired, now);
    if let Some(c) = asked_of(p, rules, o, m, now).1 {
        if rules.in_danger(o) {
            assert(t.danger == p.danger + seq![c]);
            assert(t.danger[p.danger.len() as int] == c);
        } else {
            assert(t.other == p.other + seq![c]);
            assert(t.other[p.other.len() as int] == c);
        }
    }
}

proof fn lemma_step_upto(
    book: ManagerView,
    rules: Rules,
    live: Seq<OrderView>,
    desired: Seq<Quote>,
    p: Pass,
    n: int,
    now: Instant,
)
    requires
        0 <= n < live.len(),
        upto(book, live, desired, p, n),
        are_live(book, live),
        book.next_req + live.len() <= u64::MAX,
        forall|i: int| 0 <= i < desired.len() ==> (#[trigger] desired[i]).size <= MAX_CONTRACTS,
    ensures
        upto(book, live, desired, p.step(rules, live[n], desired, now), n + 1),
        p.book.at(live[n].id) == live[n],
        lifecycle::known(p.book.orders, live[n].id),
        p.taken.contains((live[n].side, live[n].layer)) <==> reconcile::wanted(
            desired,
            live[n].side,
            live[n].layer,
        ) is Some && preceded(live, n),
{
    let o = live[n];
    let q = p.step(rules, o, desired, now);
    assert(lifecycle::known(book.orders, o.id));
    assert(forall|j: int| 0 <= j < n ==> (#[trigger] live[j]).id != o.id);
    assert(p.book.at(o.id) == o);
    let want = reconcile::wanted(desired, o.side, o.layer);
    lemma_wanted_size(desired, o.side, o.layer);
    let m = rules.decide(o, want, p.taken.contains((o.side, o.layer)));
    lemma_step_effect(p, rules, o, desired, now);
    lemma_asked_other(p, rules, o, m, now);
    assert forall|k: u64| #[trigger] lifecycle::known(book.orders, k) implies lifecycle::known(
        q.book.orders,
        k,
    ) by {
        assert(lifecycle::known(p.book.orders, k));
        if k != o.id {
            assert(lifecycle::known(p.book.orders, k) && k != o.id);
        }
    }
    assert forall|k: u64| #[trigger]
        lifecycle::known(book.orders, k) && (forall|j: int|
            0 <= j < n + 1 ==> (#[trigger] live[j]).id != k) implies q.book.at(k) == book.at(
        k,
    ) by {
        assert(live[n].id != k);
        assert(lifecycle::known(p.book.orders, k) && k != o.id);
        assert(p.book.at(k) == book.at(k));
    }
    assert forall|s: Side, l: u8| #[trigger]
        q.taken.contains((s, l)) <==> reconcile::wanted(desired, s, l) is Some && (exists|j: int|
            0 <= j < n + 1 && (#[trigger] live[j]).price is Some && live[j].side == s
                && live[j].layer == l) by {
        let had = p.taken.contains((s, l));
        if had {
            let j = choose|j: int|
                0 <= j < n && (#[trigger] live[j]).price is Some && live[j].side == s
                    && live[j].layer == l;
            assert(live[j].side == s);
        }
        if exists|j: int|
            0 <= j < n + 1 && (#[trigger] live[j]).price is Some && live[j].side == s
                && live[j].layer == l {
            let j = choose|j: int|
                0 <= j < n + 1 && (#[trigger] live[j]).price is Some && live[j].side == s
                    && live[j].layer == l;
            if j < n {
                assert(live[j].side == s);
            }
        }
        if o.price is Some && o.side == s && o.layer == l {
            assert(live[n].side == s);
        }
    }
}

proof fn lemma_steps_upto(
    book: ManagerView,
    rules: Rules,
    live: Seq<OrderView>,
    desired: Seq<Quote>,
    n: int,
    now: Instant,
)
    requires
        book.wf(),
        0 <= n <= live.len(),
        are_live(book, live),
        book.next_req + live.len() <= u64::MAX,
        forall|i: int| 0 <= i < desired.len() ==> (#[trigger] desired[i]).size <= MAX_CONTRACTS,
    ensures
        upto(book, live, desired, Pass::start(book).steps(rules, live.take(n), desired, now), n),
    decreases n,
{
    if n == 0 {
        assert(live.take(0) =~= seq![]);
    } else {
        lemma_steps_upto(book, rules, live, desired, n - 1, now);
        assert(live.take(n).drop_last() =~= live.take(n - 1));
        assert(live.take(n).last() == live[n - 1]);
        lemma_step_upto(
            book,
            rules,
            live,
            desired,
            Pass::start(book).steps(rules, live.take(n - 1), desired, now),
            n - 1,
            now,
        );
    }
}

/// The commands filed so far stay filed.
spec fn filed_in(p: Pass, c: CommandView) -> bool {
    p.danger.contains(c) || p.other.contains(c)
}

proof fn lemma_step_files(
    p: Pass,
    rules: Rules,
    o: OrderView,
    desired: Seq<Quote>,
    now: Instant,
    c: CommandView,
)
    requires
        filed_in(p, c),
    ensures
        filed_in(p.step(rules, o, desired, now), c),
{
    let q = p.step(rules, o, desired, now);
    if p.danger.contains(c) {
        let i = p.danger.index_of(c);
        assert(q.danger[i] == c);
    } else {
        let i = p.other.index_of(c);
        assert(q.other[i] == c);
    }
}

proof fn lemma_stays_filed(
    book: ManagerView,
    rules: Rules,
    live: Seq<OrderView>,
    desired: Seq<Quote>,
    m: int,
    n: int,
    now: Instant,
    c: CommandView,
)
    requires
        0 <= m <= n <= live.len(),
        filed_in(Pass::start(book).steps(rules, live.take(m), desired, now), c),
    ensures
        filed_in(Pass::start(book).steps(rules, live.take(n), desired, now), c),
    decreases n - m,
{
    if m < n {
        lemma_stays_filed(book, rules, live, desired, m, n - 1, now, c);
        assert(live.take(n).drop_last() =~= live.take(n - 1));
        lemma_step_files(
            Pass::start(book).steps(rules, live.take(n - 1), desired, now),
            rules,
            live.take(n).last(),
            desired,
            now,
            c,
        );
    }
}

/// The live orders of a book have different ids.
proof fn lemma_slots(book: ManagerView)
    requires
        book.wf(),
    ensures
        are_live(book, lifecycle::slot_orders(book.orders)),
        lifecycle::slot_orders(book.orders).len() <= book.orders.len(),
{
    let p = |o: OrderView| o.active() && o.layer != u8::MAX;
    let live = lifecycle::slot_orders(book.orders);
    lifecycle::lemma_chosen_valid(book.orders, p);
    assert forall|j: int| 0 <= j < live.len() implies lifecycle::known(
        book.orders,
        (#[trigger] live[j]).id,
    ) && book.at(live[j].id) == live[j] by {
        assert(book.orders.contains(live[j]));
        let i = book.orders.index_of(live[j]);
        lifecycle::lemma_pos(book.orders, i);
    }
    lemma_chosen_ascends(book.orders, p);
}

proof fn lemma_chosen_ascends(orders: Seq<OrderView>, p: spec_fn(OrderView) -> bool)
    requires
        lifecycle::ascending(orders),
    ensures
        lifecycle::ascending(lifecycle::chosen(orders, p)),
        forall|i: int|
            0 <= i < lifecycle::chosen(orders, p).len() ==> orders.len() > 0 && (
            #[trigger] lifecycle::chosen(orders, p)[i]).id <= orders.last().id,
    decreases orders.len(),
{
    if orders.len() > 0 {
        let init = orders.drop_last();
        assert(lifecycle::ascending(init)) by {
            assert forall|i: int, j: int| 0 <= i < j < init.len() implies (#[trigger] init[i]).id
                < (#[trigger] init[j]).id by {
                assert(orders[i].id < orders[j].id);
            }
        }
        lemma_chosen_ascends(init, p);
        let head = lifecycle::chosen(init, p);
        let all = lifecycle::chosen(orders, p);
        assert forall|i: int| 0 <= i < head.len() implies (#[trigger] head[i]).id
            < orders.last().id by {
            assert(orders[init.len() - 1].id < orders[orders.len() - 1].id);
            assert(init.last() == orders[init.len() - 1]);
        }
        assert forall|i: int, j: int| 0 <= i < j < all.len() implies (#[trigger] all[i]).id < (
        #[trigger] all[j]).id by {
            assert(all[i] == head[i]);
            if j < head.len() {
                assert(all[j] == head[j]);
            }
        }
        assert forall|i: int| 0 <= i < all.len() implies (#[trigger] all[i]).id
            <= orders.last().id by {
            if i < head.len() {
                assert(all[i] == head[i]);
            }
        }
    }
}

/// Which orders a pass looks at: all that are not finished and stand in a slot, in
/// the order they were placed in.
pub proof fn a_pass_looks_at_every_slot_order(book: ManagerView, o: OrderView)
    requires
        book.wf(),
    ensures
        lifecycle::slot_orders(book.orders).contains(o) <==> book.orders.contains(o) && !(o.state
            is Done) && o.layer != u8::MAX,
        lifecycle::ascending(lifecycle::slot_orders(book.orders)),
{
    let p = |x: OrderView| x.active() && x.layer != u8::MAX;
    lemma_chosen_ascends(book.orders, p);
    lemma_chosen_has(book.orders, p, o);
}

proof fn lemma_chosen_has(orders: Seq<OrderView>, p: spec_fn(OrderView) -> bool, o: OrderView)
    ensures
        lifecycle::chosen(orders, p).contains(o) <==> orders.contains(o) && p(o),
    decreases orders.len(),
{
    if orders.len() > 0 {
        let init = orders.drop_last();
        lemma_chosen_has(init, p, o);
        let head = lifecycle::chosen(init, p);
        let all = lifecycle::chosen(orders, p);
        let last = orders.last();
        if init.contains(o) {
            let i = init.index_of(o);
            assert(orders[i] == o);
        }
        if orders.contains(o) {
            let i = orders.index_of(o);
            if i < init.len() {
                assert(init[i] == o);
            }
        }
        assert(orders[orders.len() - 1] == last);
        if p(last) {
            assert(all == head.push(last));
            assert(all[head.len() as int] == last);
        }
        if head.contains(o) {
            let i = head.index_of(o);
            assert(all[i] == o);
        }
        if all.contains(o) {
            let i = all.index_of(o);
            if i < head.len() {
                assert(head[i] == o);
            }
        }
    }
}

/// The commands of the pass over the live orders are among those of the report.
proof fn lemma_reported(
    book: ManagerView,
    desired: Seq<Quote>,
    rules: Rules,
    now: Instant,
    now_ms: i64,
    c: CommandView,
)
    requires
        filed_in(
            Pass::start(book).steps(rules, lifecycle::slot_orders(book.orders), desired, now),
            c,
        ),
    ensures
        reconcile::reconciled(book, desired, rules, now, now_ms).1.commands.contains(c),
{
    let p = Pass::start(book).steps(rules, lifecycle::slot_orders(book.orders), desired, now);
    let all = reconcile::reconciled(book, desired, rules, now, now_ms).1.commands;
    if p.danger.contains(c) {
        let i = p.danger.index_of(c);
        assert(all[i] == c);
    } else {
        let i = p.other.index_of(c);
        assert(all[p.danger.len() + i] == c);
    }
}

/// A command that moves an order to a price and a remaining size.
pub open spec fn moves_to(c: CommandView, o: OrderView, price: Ticks, remaining: i64) -> bool {
    c matches CommandView::Amend { exchange_id, client_id, price: p, size, .. } && Some(exchange_id)
        == o.exchange_id && client_id == o.client_id && p == Some(price) && (size matches Some(
        total,
    ) && total == o.filled + remaining)
}

/// A command that cancels an order.
pub open spec fn withdraws(c: CommandView, o: OrderView) -> bool {
    c matches CommandView::Cancel { exchange_id, client_id, .. } && exchange_id == o.exchange_id
        && client_id == o.client_id
}

/// The order can be sent a request right away.
pub open spec fn is_free(o: OrderView) -> bool {
    o.state == OrderState::Live && o.req_id is None && o.exchange_id is Some
}

/// The command of a request to a free order.
proof fn lemma_asked_command(p: Pass, rules: Rules, o: OrderView, m: Move, now: Instant)
    requires
        p.book.wf(),
        p.book.next_req < u64::MAX,
        lifecycle::known(p.book.orders, o.id),
        p.book.at(o.id) == o,
        is_free(o),
        m matches Move::Reprice(a, b) ==> 0 < b <= MAX_CONTRACTS,
        m matches Move::Resize(a, b) ==> 0 < b <= MAX_CONTRACTS,
    ensures
        ({
            let sent = asked_of(p, rules, o, m, now).1;
            &&& m == Move::Cancel ==> sent is Some && withdraws(sent->0, o)
            &&& m matches Move::Reprice(a, b) ==> sent is Some && (rules.use_amend ==> moves_to(
                sent->0,
                o,
                a,
                b,
            )) && (!rules.use_amend ==> withdraws(sent->0, o))
            &&& m matches Move::Resize(a, b) ==> sent is Some && (rules.use_amend ==> moves_to(
                sent->0,
                o,
                a,
                b,
            )) && (!rules.use_amend ==> withdraws(sent->0, o))
        }),
{
    let (price, size) = match m {
        Move::Reprice(a, b) => (a, b),
        Move::Resize(a, b) => (a, b),
        _ => (0i64, 0i64),
    };
    request_laws::a_cancel_is_sent_or_stored(p.book, o.id, now);
    request_laws::an_amend_is_sent_or_stored(p.book, o.id, price, size, now);
}

/// Orders follow their quotes: an order that is the first of its slot and has the
/// purpose that is wanted is amended to the wanted price and size when it is
/// dangerous or its target has drifted, on either side and in every layer; it is
/// amended in size alone when the size is smaller or outgrew the tolerance; and an
/// order that is not wanted is cancelled. Without amends the change is a cancel.
pub proof fn live_orders_follow_their_quotes(
    book: ManagerView,
    desired: Seq<Quote>,
    rules: Rules,
    now: Instant,
    now_ms: i64,
    i: int,
    j: int,
)
    requires
        book.wf(),
        book.room((book.orders.len() + desired.len()) as int),
        forall|k: int| 0 <= k < desired.len() ==> (#[trigger] desired[k]).size <= MAX_CONTRACTS,
        0 <= i < lifecycle::slot_orders(book.orders).len(),
        rules_its_slot(desired, j),
        desired[j].size > 0,
        desired[j].side == lifecycle::slot_orders(book.orders)[i].side,
        desired[j].layer == lifecycle::slot_orders(book.orders)[i].layer,
        is_free(lifecycle::slot_orders(book.orders)[i]),
    ensures
        ({
            let live = lifecycle::slot_orders(book.orders);
            let o = live[i];
            let q = desired[j];
            let commands = reconcile::reconciled(book, desired, rules, now, now_ms).1.commands;
            let first = q.purpose == o.purpose && !preceded(live, i);
            o.price matches Some(price) ==> {
                let moves = breaches(rules, o, price) || drifted(rules, o, price, q.price);
                let resizes = q.size < left_of(o) || (q.size > left_of(o) && rules.grown.contains(
                    o.id,
                ));
                &&& first && moves && rules.use_amend ==> exists|c: CommandView|
                    #![trigger commands.contains(c)]
                    commands.contains(c) && moves_to(c, o, q.price, q.size)
                &&& first && !moves && resizes && rules.use_amend ==> exists|c: CommandView|
                    #![trigger commands.contains(c)]
                    commands.contains(c) && moves_to(c, o, price, q.size)
                &&& !first || ((moves || resizes) && !rules.use_amend) ==> exists|c: CommandView|
                    #![trigger commands.contains(c)]
                    commands.contains(c) && withdraws(c, o)
            }
        }),
{
    let live = lifecycle::slot_orders(book.orders);
    let o = live[i];
    let q = desired[j];
    lemma_slots(book);
    lemma_steps_upto(book, rules, live, desired, i, now);
    let p = Pass::start(book).steps(rules, live.take(i), desired, now);
    lemma_step_upto(book, rules, live, desired, p, i, now);
    the_last_quote_of_a_slot_counts(desired, o.side, o.layer);
    assert(reconcile::wanted(desired, o.side, o.layer) == Some(q));
    let taken = p.taken.contains((o.side, o.layer));
    orders_move_with_their_targets(rules, o, Some(q), taken);
    if let Some(price) = o.price {
        let t = p.step(rules, o, desired, now);
        assert(live.take(i + 1).drop_last() =~= live.take(i));
        assert(live.take(i + 1).last() == o);
        assert(live.take(live.len() as int) =~= live);
        let m = rules.decide(o, Some(q), taken);
        lemma_step_effect(p, rules, o, desired, now);
        lemma_asked_command(p, rules, o, m, now);
        if let Some(c) = asked_of(p, rules, o, m, now).1 {
            lemma_stays_filed(book, rules, live, desired, i + 1, live.len() as int, now, c);
            lemma_reported(book, desired, rules, now, now_ms, c);
            let commands = reconcile::reconciled(book, desired, rules, now, now_ms).1.commands;
            assert(commands.contains(c));
        }
    }
}

/// An order in a slot that no quote names is cancelled.
pub proof fn unwanted_orders_are_cancelled(
    book: ManagerView,
    desired: Seq<Quote>,
    rules: Rules,
    now: Instant,
    now_ms: i64,
    i: int,
)
    requires
        book.wf(),
        book.room((book.orders.len() + desired.len()) as int),
        forall|k: int| 0 <= k < desired.len() ==> (#[trigger] desired[k]).size <= MAX_CONTRACTS,
        0 <= i < lifecycle::slot_orders(book.orders).len(),
        is_free(lifecycle::slot_orders(book.orders)[i]),
        lifecycle::slot_orders(book.orders)[i].price is Some,
        forall|k: int|
            0 <= k < desired.len() ==> !((#[trigger] desired[k]).side == lifecycle::slot_orders(
                book.orders,
            )[i].side && desired[k].layer == lifecycle::slot_orders(book.orders)[i].layer),
    ensures
        exists|c: CommandView|
            #![trigger reconcile::reconciled(book, desired, rules, now, now_ms).1.commands.contains(c)]
            reconcile::reconciled(book, desired, rules, now, now_ms).1.commands.contains(c)
                && withdraws(c, lifecycle::slot_orders(book.orders)[i]),
{
    let live = lifecycle::slot_orders(book.orders);
    let o = live[i];
    lemma_slots(book);
    lemma_steps_upto(book, rules, live, desired, i, now);
    let p = Pass::start(book).steps(rules, live.take(i), desired, now);
    lemma_step_upto(book, rules, live, desired, p, i, now);
    the_last_quote_of_a_slot_counts(desired, o.side, o.layer);
    let t = p.step(rules, o, desired, now);
    assert(live.take(i + 1).drop_last() =~= live.take(i));
    assert(live.take(i + 1).last() == o);
    assert(live.take(live.len() as int) =~= live);
    request_laws::a_cancel_is_sent_or_stored(p.book, o.id, now);
    let c = p.book.cancel(o.id, now).1->0;
    assert(filed_in(t, c)) by {
        if rules.in_danger(o) {
            assert(t.danger == p.danger + seq![c]);
            assert(t.danger[p.danger.len() as int] == c);
        } else {
            assert(t.other == p.other + seq![c]);
            assert(t.other[p.other.len() as int] == c);
        }
    }
    lemma_stays_filed(book, rules, live, desired, i + 1, live.len() as int, now, c);
    lemma_reported(book, desired, rules, now, now_ms, c);
    assert(withdraws(c, o));
}

proof fn lemma_placement_stays(
    book: ManagerView,
    desired: Seq<Quote>,
    taken: Set<(Side, u8)>,
    m: int,
    n: int,
    now: Instant,
    now_ms: i64,
    c: CommandView,
)
    requires
        0 <= m <= n,
        reconcile::placements(book, desired, taken, m, now, now_ms).1.contains(c),
    ensures
        reconcile::placements(book, desired, taken, n, now, now_ms).1.contains(c),
    decreases n - m,
{
    if m < n {
        lemma_placement_stays(book, desired, taken, m, n - 1, now, now_ms, c);
        let head = reconcile::placements(book, desired, taken, n - 1, now, now_ms).1;
        let all = reconcile::placements(book, desired, taken, n, now, now_ms).1;
        let i = head.index_of(c);
        assert(all[i] == c);
    }
}

/// Every wanted slot without an order is filled: a quote that counts for its slot
/// and has a size is placed post-only at its price, reduce-only where it reduces.
pub proof fn missing_quotes_are_placed(
    book: ManagerView,
    desired: Seq<Quote>,
    rules: Rules,
    now: Instant,
    now_ms: i64,
    j: int,
)
    requires
        book.wf(),
        book.room((book.orders.len() + desired.len()) as int),
        forall|k: int| 0 <= k < desired.len() ==> (#[trigger] desired[k]).size <= MAX_CONTRACTS,
        rules_its_slot(desired, j),
        desired[j].size > 0,
        reconcile_laws::slot_free(
            lifecycle::slot_orders(book.orders),
            desired[j].side,
            desired[j].layer,
        ),
    ensures
        exists|c: CommandView|
            #![trigger reconcile::reconciled(book, desired, rules, now, now_ms).1.commands.contains(c)]
            reconcile::reconciled(book, desired, rules, now, now_ms).1.commands.contains(c)
                && reconcile_laws::places(c, desired[j]),
{
    let live = lifecycle::slot_orders(book.orders);
    let q = desired[j];
    lemma_slots(book);
    let n = live.len() as int;
    lemma_steps_upto(book, rules, live, desired, n, now);
    assert(live.take(n) =~= live);
    let p = Pass::start(book).steps(rules, live, desired, now);
    assert(!p.taken.contains((q.side, q.layer)));
    assert(reconcile::is_missing(desired, p.taken, j)) by {
        assert forall|k: int| j < k < desired.len() implies (#[trigger] desired[k]).side != q.side
            || desired[k].layer != q.layer by {}
    }
    let (b, cmds) = reconcile::placements(p.book, desired, p.taken, j, now, now_ms);
    let c = b.place(
        q.side,
        q.purpose,
        q.layer,
        Some(q.price),
        q.size,
        Tif::Poc,
        now,
        now_ms,
    ).1;
    let more = reconcile::placements(p.book, desired, p.taken, j + 1, now, now_ms).1;
    assert(more == cmds.push(c));
    assert(more[cmds.len() as int] == c);
    let len = desired.len() as int;
    lemma_placement_stays(p.book, desired, p.taken, j + 1, len, now, now_ms, c);
    let placed = reconcile::placements(p.book, desired, p.taken, len, now, now_ms).1;
    let all = reconcile::reconciled(book, desired, rules, now, now_ms).1.commands;
    let i = placed.index_of(c);
    assert(all == p.danger + p.other + placed);
    assert(all[p.danger.len() + p.other.len() + i] == c);
    assert(all.contains(c));
    assert(reconcile_laws::places(c, q));
}

/// Each order with a price is counted once, under what is done with it, and as
/// dangerous where it stands beyond its bound. What it takes goes among the
/// commands of dangerous orders exactly where it is dangerous, and a kept order takes
/// nothing.
pub proof fn a_pass_counts_what_it_does(
    p: Pass,
    rules: Rules,
    o: OrderView,
    desired: Seq<Quote>,
    now: Instant,
)
    ensures
        o.price is None ==> p.step(rules, o, desired, now) == p,
        o.price matches Some(price) ==> {
            let q = p.step(rules, o, desired, now);
            let m = rules.decide(
                o,
                reconcile::wanted(desired, o.side, o.layer),
                p.taken.contains((o.side, o.layer)),
            );
            let danger = breaches(rules, o, price);
            &&& q.cancelled == p.cancelled + (if m == Move::Cancel {
                1int
            } else {
                0
            })
            &&& q.repriced == p.repriced + (if m is Reprice {
                1int
            } else {
                0
            })
            &&& q.resized == p.resized + (if m is Resize {
                1int
            } else {
                0
            })
            &&& q.kept == p.kept + (if m == Move::Keep {
                1int
            } else {
                0
            })
            &&& q.dangerous == p.dangerous + (if danger {
                1int
            } else {
                0
            })
            &&& danger ==> q.other == p.other && p.danger.len() <= q.danger.len() <= p.danger.len()
                + 1 && q.danger.take(p.danger.len() as int) == p.danger
            &&& !danger ==> q.danger == p.danger && p.other.len() <= q.other.len() <= p.other.len()
                + 1 && q.other.take(p.other.len() as int) == p.other
            &&& m == Move::Keep ==> q.book == p.book && q.danger == p.danger && q.other == p.other
            &&& q.taken.contains((o.side, o.layer)) <==> p.taken.contains((o.side, o.layer))
                || reconcile::wanted(desired, o.side, o.layer) is Some
        },
{
    orders_move_with_their_targets(
        rules,
        o,
        reconcile::wanted(desired, o.side, o.layer),
        p.taken.contains((o.side, o.layer)),
    );
    let q = p.step(rules, o, desired, now);
    if q.danger.len() >= p.danger.len() {
        assert(q.danger.take(p.danger.len() as int) =~= p.danger);
    }
    if q.other.len() >= p.other.len() {
        assert(q.other.take(p.other.len() as int) =~= p.other);
    }
}

/// A report counts from zero over all slot orders and lists the commands of dangerous
/// orders first, then those of the others, then the new orders, which it counts.
pub proof fn reports_put_danger_first(
    book: ManagerView,
    desired: Seq<Quote>,
    rules: Rules,
    now: Instant,
    now_ms: i64,
)
    ensures
        ({
            let (w, r) = reconcile::reconciled(book, desired, rules, now, now_ms);
            let s = Pass::start(book);
            let p = s.steps(rules, lifecycle::slot_orders(book.orders), desired, now);
            let made = reconcile::placements(
                p.book,
                desired,
                p.taken,
                desired.len() as int,
                now,
                now_ms,
            );
            &&& s.book == book && s.taken == Set::<(Side, u8)>::empty()
            &&& s.danger.len() == 0 && s.other.len() == 0
            &&& s.dangerous == 0 && s.repriced == 0 && s.resized == 0 && s.cancelled == 0 && s.kept
                == 0
            &&& w == made.0
            &&& r.placed == made.1.len()
            &&& r.commands.len() == p.danger.len() + p.other.len() + r.placed
            &&& r.commands.take(p.danger.len() as int) == p.danger
            &&& r.commands.subrange(
                p.danger.len() as int,
                (p.danger.len() + p.other.len()) as int,
            ) == p.other
            &&& r.commands.skip((p.danger.len() + p.other.len()) as int) == made.1
            &&& r.dangerous == p.dangerous && r.repriced == p.repriced && r.resized == p.resized
            &&& r.cancelled == p.cancelled && r.kept == p.kept
        }),
{
    let p = Pass::start(book).steps(rules, lifecycle::slot_orders(book.orders), desired, now);
    let made = reconcile::placements(p.book, desired, p.taken, desired.len() as int, now, now_ms);
    let all = p.danger + p.other + made.1;
    assert(all.take(p.danger.len() as int) =~= p.danger);
    assert(all.subrange(p.danger.len() as int, (p.danger.len() + p.other.len()) as int)
        =~= p.other);
    assert(all.skip((p.danger.len() + p.other.len()) as int) =~= made.1);
}

/// Orders whose slot wants more than remains of them are listed with both sizes.
pub proof fn growing_orders_are_listed(
    live: Seq<OrderView>,
    o: OrderView,
    desired: Seq<Quote>,
)
    ensures
        reconcile::growths(seq![], desired).len() == 0,
        ({
            let was = reconcile::growths(live, desired);
            let now = reconcile::growths(live.push(o), desired);
            let want = reconcile::wanted(desired, o.side, o.layer);
            &&& want is None ==> now == was
            &&& want matches Some(q) ==> {
                &&& q.size <= left_of(o) ==> now == was
                &&& q.size > left_of(o) ==> now.len() == was.len() + 1 && now.drop_last() == was
                    && now.last().id == o.id && now.last().remaining == left_of(o) as i64
                    && now.last().wanted == q.size
            }
        }),
{
    assert(live.push(o).drop_last() =~= live);
    let was = reconcile::growths(live, desired);
    let now = reconcile::growths(live.push(o), desired);
    if now.len() > was.len() {
        assert(now.drop_last() =~= was);
    }
}

} // verus!
