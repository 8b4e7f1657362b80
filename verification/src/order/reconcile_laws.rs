//! What holds of every reconcile pass.

use vstd::prelude::*;

use crate::order::laws;
use crate::order::lifecycle;
use crate::order::lifecycle::ManagerView;
use crate::order::model::{CommandView, OrderView, Tif, MAX_CONTRACTS};
use crate::order::reconcile;
use crate::order::reconcile::{Pass, Rules};
use crate::strategy::quote::Quote;
use crate::time::Instant;
use crate::types::{Purpose, Side};

verus! {

/// The command is an amend or a cancel of the order.
pub open spec fn concerns(c: CommandView, o: OrderView) -> bool {
    match c {
        CommandView::Amend { client_id, .. } => client_id == o.client_id,
        CommandView::Cancel { client_id, .. } => client_id == o.client_id,
        _ => false,
    }
}

/// The command concerns a dangerous order.
pub open spec fn is_urgent(rules: Rules, live: Seq<OrderView>, c: CommandView) -> bool {
    exists|i: int|
        0 <= i < live.len() && rules.in_danger(#[trigger] live[i]) && concerns(c, live[i])
}

/// The command concerns an order that is safe.
pub open spec fn is_ordinary(rules: Rules, live: Seq<OrderView>, c: CommandView) -> bool {
    exists|i: int|
        0 <= i < live.len() && !rules.in_danger(#[trigger] live[i]) && concerns(c, live[i])
}

/// Orders beyond their safety bounds.
pub open spec fn endangered(rules: Rules, live: Seq<OrderView>) -> nat
    decreases live.len(),
{
    if live.len() == 0 {
        0
    } else if rules.in_danger(live.last()) {
        endangered(rules, live.drop_last()) + 1
    } else {
        endangered(rules, live.drop_last())
    }
}

/// The first `n` commands concern dangerous orders, the others safe ones or new
/// orders.
pub open spec fn urgent_first(
    rules: Rules,
    live: Seq<OrderView>,
    commands: Seq<CommandView>,
    n: int,
) -> bool {
    &&& 0 <= n <= commands.len()
    &&& forall|k: int| 0 <= k < n ==> is_urgent(rules, live, #[trigger] commands[k])
    &&& forall|k: int|
        n <= k < commands.len() ==> (#[trigger] commands[k]) is Place || is_ordinary(
            rules,
            live,
            commands[k],
        )
}

/// The command places the quote: post-only, at its price, with its size, and
/// reduce-only where its purpose is.
pub open spec fn places(c: CommandView, q: Quote) -> bool {
    c matches CommandView::Place { side, size, price, tif, reduce_only, .. } && side == q.side
        && size == q.size && price == Some(q.price) && tif == Tif::Poc && reduce_only == (q.purpose
        == Purpose::Reduce)
}

/// No order with a price stands in the slot.
pub open spec fn slot_free(live: Seq<OrderView>, side: Side, layer: u8) -> bool {
    forall|j: int|
        0 <= j < live.len() && (#[trigger] live[j]).price is Some ==> live[j].side != side
            || live[j].layer != layer
}

/// The command places a quote of the list into a slot that is free.
pub open spec fn fills_free_slot(live: Seq<OrderView>, desired: Seq<Quote>, c: CommandView) -> bool {
    exists|i: int|
        0 <= i < desired.len() && places(c, #[trigger] desired[i]) && desired[i].size > 0
            && slot_free(live, desired[i].side, desired[i].layer)
}

/// What a pass has done after the orders of `live`.
spec fn underway(
    book: ManagerView,
    rules: Rules,
    live: Seq<OrderView>,
    desired: Seq<Quote>,
    p: Pass,
) -> bool {
    &&& p.book.wf()
    &&& p.book.next_req <= book.next_req + live.len()
    &&& p.book.next_id == book.next_id
    &&& laws::evolves(book, p.book)
    &&& forall|k: int| 0 <= k < p.danger.len() ==> is_urgent(rules, live, #[trigger] p.danger[k])
    &&& forall|k: int| 0 <= k < p.other.len() ==> is_ordinary(rules, live, #[trigger] p.other[k])
    &&& p.dangerous == endangered(rules, live)
    &&& forall|j: int|
        0 <= j < live.len() && (#[trigger] live[j]).price is Some && reconcile::wanted(
            desired,
            live[j].side,
            live[j].layer,
        ) is Some ==> p.taken.contains((live[j].side, live[j].layer))
}

/// A quote names its slot, so the slot is wanted.
proof fn lemma_named(desired: Seq<Quote>, i: int)
    requires
        0 <= i < desired.len(),
    ensures
        reconcile::wanted(desired, desired[i].side, desired[i].layer) is Some,
    decreases desired.len(),
{
    if i < desired.len() - 1 {
        lemma_named(desired.drop_last(), i);
    }
}

/// The commands of a request concern the order it was asked for.
proof fn lemma_request(v: ManagerView, o: OrderView, price: i64, size: i64, now: Instant)
    requires
        lifecycle::known(v.orders, o.id),
        v.at(o.id).client_id == o.client_id,
    ensures
        v.cancel(o.id, now).1 matches Some(c) ==> concerns(c, o),
        v.amend(o.id, price, size, now).1 matches Some(c) ==> concerns(c, o),
{
}

proof fn lemma_step(
    book: ManagerView,
    rules: Rules,
    live: Seq<OrderView>,
    desired: Seq<Quote>,
    p: Pass,
    now: Instant,
)
    requires
        live.len() > 0,
        underway(book, rules, live.drop_last(), desired, p),
        book.next_req + live.len() <= u64::MAX,
        lifecycle::known(book.orders, live.last().id),
        book.at(live.last().id) == live.last(),
        forall|i: int| 0 <= i < desired.len() ==> (#[trigger] desired[i]).size <= MAX_CONTRACTS,
    ensures
        underway(book, rules, live, desired, p.step(rules, live.last(), desired, now)),
{
    let init = live.drop_last();
    let o = live.last();
    let n = init.len() as int;
    let q = p.step(rules, o, desired, now);
    let key = (o.side, o.layer);
    let want = reconcile::wanted(desired, o.side, o.layer);
    assert(live[n] == o);
    assert(forall|j: int| 0 <= j < n ==> #[trigger] init[j] == live[j]);
    reconcile::lemma_wanted(desired, o.side, o.layer);
    let (price, size) = match rules.decide(o, want, p.taken.contains(key)) {
        reconcile::Move::Reprice(a, b) => (a, b),
        reconcile::Move::Resize(a, b) => (a, b),
        _ => (0i64, 0i64),
    };
    assert(size <= MAX_CONTRACTS) by {
        if let Some(x) = want {
            let i = desired.index_of(x);
            assert(desired[i] == x);
        }
    }
    lifecycle::lemma_cancel(p.book, o.id, now);
    lifecycle::lemma_amend(p.book, o.id, price, size, now);
    laws::requests_keep_orders(p.book, o.id, price, size, now);
    lemma_request(p.book, o, price, size, now);
    laws::lemma_evolves_trans(book, p.book, p.book.cancel(o.id, now).0);
    laws::lemma_evolves_trans(book, p.book, p.book.amend(o.id, price, size, now).0);
    assert forall|c: CommandView| #[trigger] is_urgent(rules, init, c) implies is_urgent(
        rules,
        live,
        c,
    ) by {
        let i = choose|i: int|
            0 <= i < init.len() && rules.in_danger(#[trigger] init[i]) && concerns(c, init[i]);
        assert(live[i] == init[i]);
    }
    assert forall|c: CommandView| #[trigger] is_ordinary(rules, init, c) implies is_ordinary(
        rules,
        live,
        c,
    ) by {
        let i = choose|i: int|
            0 <= i < init.len() && !rules.in_danger(#[trigger] init[i]) && concerns(c, init[i]);
        assert(live[i] == init[i]);
    }
    assert forall|k: int| 0 <= k < q.danger.len() implies is_urgent(
        rules,
        live,
        #[trigger] q.danger[k],
    ) by {
        if k < p.danger.len() {
            assert(is_urgent(rules, init, p.danger[k]));
            assert(q.danger[k] == p.danger[k]);
        } else {
            assert(concerns(q.danger[k], live[n]));
        }
    }
    assert forall|k: int| 0 <= k < q.other.len() implies is_ordinary(
        rules,
        live,
        #[trigger] q.other[k],
    ) by {
        if k < p.other.len() {
            assert(is_ordinary(rules, init, p.other[k]));
            assert(q.other[k] == p.other[k]);
        } else {
            assert(concerns(q.other[k], live[n]));
        }
    }
    assert forall|j: int|
        0 <= j < live.len() && (#[trigger] live[j]).price is Some && reconcile::wanted(
            desired,
            live[j].side,
            live[j].layer,
        ) is Some implies q.taken.contains((live[j].side, live[j].layer)) by {
        if j < n {
            assert(init[j] == live[j]);
            assert(p.taken.contains((live[j].side, live[j].layer)));
        }
    }
}

proof fn lemma_steps(
    book: ManagerView,
    rules: Rules,
    live: Seq<OrderView>,
    desired: Seq<Quote>,
    now: Instant,
)
    requires
        book.wf(),
        book.next_req + live.len() <= u64::MAX,
        forall|j: int|
            0 <= j < live.len() ==> lifecycle::known(book.orders, (#[trigger] live[j]).id)
                && book.at(live[j].id) == live[j],
        forall|i: int| 0 <= i < desired.len() ==> (#[trigger] desired[i]).size <= MAX_CONTRACTS,
    ensures
        underway(book, rules, live, desired, Pass::start(book).steps(rules, live, desired, now)),
    decreases live.len(),
{
    if live.len() == 0 {
        laws::lemma_same_orders(book, book);
    } else {
        let init = live.drop_last();
        assert forall|j: int| 0 <= j < init.len() implies lifecycle::known(
            book.orders,
            (#[trigger] init[j]).id,
        ) && book.at(init[j].id) == init[j] by {
            assert(live[j] == init[j]);
        }
        lemma_steps(book, rules, init, desired, now);
        assert(live.last() == live[live.len() - 1]);
        lemma_step(
            book,
            rules,
            live,
            desired,
            Pass::start(book).steps(rules, init, desired, now),
            now,
        );
    }
}

/// The live orders of a book are found under their ids.
proof fn lemma_live(book: ManagerView)
    requires
        book.wf(),
    ensures
        lifecycle::slot_orders(book.orders).len() <= book.orders.len(),
        forall|j: int|
            0 <= j < lifecycle::slot_orders(book.orders).len() ==> lifecycle::known(
                book.orders,
                (#[trigger] lifecycle::slot_orders(book.orders)[j]).id,
            ) && book.at(lifecycle::slot_orders(book.orders)[j].id) == lifecycle::slot_orders(
                book.orders,
            )[j],
{
    let live = lifecycle::slot_orders(book.orders);
    lifecycle::lemma_chosen_valid(
        book.orders,
        |o: OrderView| o.active() && o.layer != u8::MAX,
    );
    assert forall|j: int| 0 <= j < live.len() implies lifecycle::known(
        book.orders,
        (#[trigger] live[j]).id,
    ) && book.at(live[j].id) == live[j] by {
        assert(book.orders.contains(live[j]));
        let i = book.orders.index_of(live[j]);
        lifecycle::lemma_pos(book.orders, i);
    }
}

proof fn lemma_placements(
    book: ManagerView,
    live: Seq<OrderView>,
    desired: Seq<Quote>,
    taken: Set<(Side, u8)>,
    n: int,
    now: Instant,
    now_ms: i64,
)
    requires
        book.wf(),
        book.room(desired.len() as int),
        0 <= n <= desired.len(),
        forall|i: int| 0 <= i < desired.len() ==> (#[trigger] desired[i]).size <= MAX_CONTRACTS,
        forall|j: int|
            0 <= j < live.len() && (#[trigger] live[j]).price is Some && reconcile::wanted(
                desired,
                live[j].side,
                live[j].layer,
            ) is Some ==> taken.contains((live[j].side, live[j].layer)),
    ensures
        ({
            let (b, cmds) = reconcile::placements(book, desired, taken, n, now, now_ms);
            &&& b.wf()
            &&& b.next_req <= book.next_req + n
            &&& b.next_id <= book.next_id + n
            &&& laws::evolves(book, b)
            &&& forall|k: int|
                0 <= k < cmds.len() ==> (#[trigger] cmds[k]) is Place && fills_free_slot(
                    live,
                    desired,
                    cmds[k],
                )
        }),
    decreases n,
{
    if n == 0 {
        laws::lemma_same_orders(book, book);
    } else {
        lemma_placements(book, live, desired, taken, n - 1, now, now_ms);
        let (b, cmds) = reconcile::placements(book, desired, taken, n - 1, now, now_ms);
        let q = desired[n - 1];
        if reconcile::is_missing(desired, taken, n - 1) {
            let (c, cmd) = b.place(
                q.side,
                q.purpose,
                q.layer,
                Some(q.price),
                q.size,
                Tif::Poc,
                now,
                now_ms,
            );
            laws::placing_keeps_orders(
                b,
                q.side,
                q.purpose,
                q.layer,
                Some(q.price),
                q.size,
                Tif::Poc,
                now,
                now_ms,
            );
            laws::lemma_evolves_trans(book, b, c);
            lifecycle::lemma_placed(b, c.orders.last(), c);
            lemma_named(desired, n - 1);
            assert(slot_free(live, q.side, q.layer));
            assert(places(cmd, desired[n - 1]));
            assert(fills_free_slot(live, desired, cmd));
        }
    }
}

/// A pass moves orders forward only, and keeps the book well formed.
pub proof fn reconciling_keeps_orders(
    book: ManagerView,
    desired: Seq<Quote>,
    rules: Rules,
    now: Instant,
    now_ms: i64,
)
    requires
        book.wf(),
        book.room((book.orders.len() + desired.len()) as int),
        forall|i: int| 0 <= i < desired.len() ==> (#[trigger] desired[i]).size <= MAX_CONTRACTS,
    ensures
        laws::evolves(book, reconcile::reconciled(book, desired, rules, now, now_ms).0),
        reconcile::reconciled(book, desired, rules, now, now_ms).0.wf(),
{
    let live = lifecycle::slot_orders(book.orders);
    lemma_live(book);
    lemma_steps(book, rules, live, desired, now);
    let pass = Pass::start(book).steps(rules, live, desired, now);
    let n = desired.len() as int;
    lemma_placements(pass.book, live, desired, pass.taken, n, now, now_ms);
    let after = reconcile::placements(pass.book, desired, pass.taken, n, now, now_ms).0;
    laws::lemma_evolves_trans(book, pass.book, after);
}

/// The commands of dangerous orders come before all others, and every dangerous
/// order is counted.
pub proof fn danger_comes_first(
    book: ManagerView,
    desired: Seq<Quote>,
    rules: Rules,
    now: Instant,
    now_ms: i64,
)
    requires
        book.wf(),
        book.room((book.orders.len() + desired.len()) as int),
        forall|i: int| 0 <= i < desired.len() ==> (#[trigger] desired[i]).size <= MAX_CONTRACTS,
    ensures
        exists|n: int|
            urgent_first(
                rules,
                lifecycle::slot_orders(book.orders),
                reconcile::reconciled(book, desired, rules, now, now_ms).1.commands,
                n,
            ),
        reconcile::reconciled(book, desired, rules, now, now_ms).1.dangerous == endangered(
            rules,
            lifecycle::slot_orders(book.orders),
        ),
{
    let live = lifecycle::slot_orders(book.orders);
    lemma_live(book);
    lemma_steps(book, rules, live, desired, now);
    let pass = Pass::start(book).steps(rules, live, desired, now);
    let n = desired.len() as int;
    lemma_placements(pass.book, live, desired, pass.taken, n, now, now_ms);
    let placed = reconcile::placements(pass.book, desired, pass.taken, n, now, now_ms).1;
    let all = reconcile::reconciled(book, desired, rules, now, now_ms).1.commands;
    let d = pass.danger.len() as int;
    assert forall|k: int| 0 <= k < d implies is_urgent(rules, live, #[trigger] all[k]) by {
        assert(all[k] == pass.danger[k]);
    }
    assert forall|k: int| d <= k < all.len() implies (#[trigger] all[k]) is Place || is_ordinary(
        rules,
        live,
        all[k],
    ) by {
        if k < d + pass.other.len() {
            assert(all[k] == pass.other[k - d]);
        } else {
            assert(all[k] == placed[k - d - pass.other.len()]);
        }
    }
    assert(urgent_first(rules, live, all, d));
}

/// A new order stands for a wanted quote, is post-only, and goes into a slot in
/// which no other order stands: one is only placed once the one before it is
/// gone.
pub proof fn new_orders_fill_free_slots(
    book: ManagerView,
    desired: Seq<Quote>,
    rules: Rules,
    now: Instant,
    now_ms: i64,
)
    requires
        book.wf(),
        book.room((book.orders.len() + desired.len()) as int),
        forall|i: int| 0 <= i < desired.len() ==> (#[trigger] desired[i]).size <= MAX_CONTRACTS,
    ensures
        ({
            let commands = reconcile::reconciled(book, desired, rules, now, now_ms).1.commands;
            forall|k: int|
                0 <= k < commands.len() && (#[trigger] commands[k]) is Place ==> fills_free_slot(
                    lifecycle::slot_orders(book.orders),
                    desired,
                    commands[k],
                )
        }),
{
    let live = lifecycle::slot_orders(book.orders);
    lemma_live(book);
    lemma_steps(book, rules, live, desired, now);
    let pass = Pass::start(book).steps(rules, live, desired, now);
    let n = desired.len() as int;
    lemma_placements(pass.book, live, desired, pass.taken, n, now, now_ms);
    let placed = reconcile::placements(pass.book, desired, pass.taken, n, now, now_ms).1;
    let commands = reconcile::reconciled(book, desired, rules, now, now_ms).1.commands;
    let d = pass.danger.len() as int;
    assert forall|k: int|
        0 <= k < commands.len() && (#[trigger] commands[k]) is Place implies fills_free_slot(
        live,
        desired,
        commands[k],
    ) by {
        if k < d {
            assert(is_urgent(rules, live, pass.danger[k]));
        } else if k < d + pass.other.len() {
            assert(is_ordinary(rules, live, pass.other[k - d]));
        } else {
            assert(commands[k] == placed[k - d - pass.other.len()]);
        }
    }
}

} // verus!
