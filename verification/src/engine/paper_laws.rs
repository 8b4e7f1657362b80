//! What holds of the simulated exchange: which orders fill, at what price and out
//! of what size, and what is reported of them.

use vstd::prelude::*;

use crate::engine::paper;
use crate::engine::paper::{PaperEventView, PaperOrderView, PaperView, Target};
use crate::market::book;
use crate::market::book::BookView;
use crate::order::model::{CommandView, ExchangeStatus, ResultView, Tif};
use crate::strategy::inventory;
use crate::text;
use crate::time::Instant;
use crate::types::{Side, Ticks};

verus! {

/// The `k`-th order is found by its number, before and after it is replaced.
proof fn lemma_found(v: PaperView, k: int, o: PaperOrderView)
    requires
        paper::ascending(v.orders),
        0 <= k < v.orders.len(),
        o.n == v.orders[k].n,
    ensures
        v.at(o.n) == v.orders[k],
        v.put(o).orders == v.orders.update(k, o),
        v.put(o).at(o.n) == o,
        paper::ascending(v.put(o).orders),
{
    let p = paper::place_of(v.orders, o.n);
    assert(v.orders[k].n == o.n);
    assert(p == k) by {
        if p < k {
            assert(v.orders[p].n < v.orders[k].n);
        } else if k < p {
            assert(v.orders[k].n < v.orders[p].n);
        }
    }
    let us = v.orders.update(k, o);
    assert forall|i: int, j: int| 0 <= i < j < us.len() implies (#[trigger] us[i]).n < (
    #[trigger] us[j]).n by {
        assert(v.orders[i].n < v.orders[j].n);
    }
    let q = paper::place_of(us, o.n);
    assert(us[k].n == o.n);
    if q < k {
        assert(us[q].n < us[k].n);
    } else if k < q {
        assert(us[k].n < us[q].n);
    }
}

/// Nothing but the `k`-th order, the position and the trade counter differ.
pub open spec fn only_order(v: PaperView, w: PaperView, k: int) -> bool {
    &&& w.orders.len() == v.orders.len()
    &&& forall|i: int| 0 <= i < v.orders.len() && i != k ==> #[trigger] w.orders[i] == v.orders[i]
    &&& w.by_client == v.by_client
    &&& w.next_id == v.next_id
    &&& w.ext_bid == v.ext_bid
    &&& w.ext_ask == v.ext_ask
    &&& w.orders[k].n == v.orders[k].n
    &&& w.orders[k].client_id == v.orders[k].client_id
    &&& w.orders[k].side == v.orders[k].side
    &&& w.orders[k].price == v.orders[k].price
    &&& w.orders[k].size == v.orders[k].size
    &&& w.orders[k].tif == v.orders[k].tif
    &&& w.orders[k].reduce_only == v.orders[k].reduce_only
}

/// A report shows the order as it stands.
pub proof fn reports_show_the_order(o: PaperOrderView, now_ms: i64)
    ensures
        ({
            let i = o.info(now_ms);
            &&& i.exchange_id == seq!['P'] + text::decimal(o.n as nat)
            &&& i.client_id == o.client_id
            &&& i.side == o.side
            &&& o.price matches Some(p) ==> i.price == p
            &&& i.size == o.size
            &&& i.left == o.left
            &&& i.status == ExchangeStatus::Finished <==> o.finished
            &&& i.status == ExchangeStatus::Open <==> !o.finished
            &&& i.finish_as == o.finish_as
            &&& i.reduce_only == o.reduce_only
            &&& i.tif == Some(o.tif)
            &&& i.update_ms == now_ms
        }),
        o.price is None ==> o.info(now_ms).price == 0,
{
}

/// A fill takes no more than is left of the order, and of a reduce-only order no
/// more than the position it closes: a sell closes the long one, a buy the short
/// one. It moves the position by what it takes, and the order is finished when
/// nothing is left. A reduce-only order without a position left is finished
/// without a trade.
pub proof fn fills_move_order_and_position_alike(
    v: PaperView,
    k: int,
    qty: int,
    price: Ticks,
    maker: bool,
    now: Instant,
    now_ms: i64,
)
    requires
        v.wf(),
        0 <= k < v.orders.len(),
        !v.orders[k].finished,
        v.next_trade < u64::MAX,
    ensures
        ({
            let o = v.orders[k];
            let held = match o.side {
                Side::Buy => v.pos.short as int,
                Side::Sell => v.pos.long as int,
            };
            let want = if qty < o.left {
                qty
            } else {
                o.left as int
            };
            let q = if o.reduce_only && held < want {
                held
            } else {
                want
            };
            let (w, evs) = v.filled(o.n, qty, price, maker, now, now_ms);
            &&& want <= 0 ==> w == v && evs.len() == 0
            &&& want > 0 ==> only_order(v, w, k)
            &&& want > 0 && q == 0 ==> {
                &&& w.pos == v.pos
                &&& w.next_trade == v.next_trade
                &&& w.orders[k].finished
                &&& w.orders[k].left == 0
                &&& w.orders[k].finish_as == "reduce_only"@
                &&& evs == seq![PaperEventView::Order(w.orders[k].info(now_ms))]
            }
            &&& want > 0 && q > 0 ==> {
                &&& w.orders[k].left == o.left - q
                &&& w.orders[k].finished == (q == o.left)
                &&& w.orders[k].finish_as == (if q == o.left {
                    "filled"@
                } else {
                    o.finish_as
                })
                &&& w.next_trade == v.next_trade + 1
                &&& w.pos.long == v.pos.long + (match (o.side, o.reduce_only) {
                    (Side::Buy, false) => q,
                    (Side::Sell, true) => -q,
                    _ => 0,
                })
                &&& w.pos.short == v.pos.short + (match (o.side, o.reduce_only) {
                    (Side::Sell, false) => q,
                    (Side::Buy, true) => -q,
                    _ => 0,
                })
                &&& evs.len() == 2
                &&& evs[0] matches PaperEventView::Trade(t, _) && t.signed_size == (match o.side {
                    Side::Buy => q,
                    Side::Sell => -q,
                }) && t.price == price && t.is_maker == maker && t.exchange_order_id == seq!['P']
                    + text::decimal(o.n as nat) && t.client_id == o.client_id && t.trade_id == seq![
                    'p',
                    't',
                ] + text::decimal(v.next_trade as nat) && t.at == now && t.exch_ms == now_ms
                &&& evs[1] == PaperEventView::Order(w.orders[k].info(now_ms))
            }
        }),
{
    let o = v.orders[k];
    assert(o.valid());
    lemma_found(v, k, o);
    let want = if qty < o.left {
        qty
    } else {
        o.left as int
    };
    let held = match o.side {
        Side::Buy => v.pos.short as int,
        Side::Sell => v.pos.long as int,
    };
    let q = if o.reduce_only && held < want {
        held
    } else {
        want
    };
    if want > 0 {
        if q <= 0 {
            lemma_found(v, k, PaperOrderView { left: 0, ..o }.closed_as("reduce_only"@));
        } else {
            let left = (o.left - q) as i64;
            let f = PaperOrderView { left, ..o };
            lemma_found(v, k, f);
            lemma_found(v, k, f.closed_as("filled"@));
            paper::lemma_adds_cover(v.orders, k, o.side);
            inventory::fills_close_the_other_side_or_open_their_own(v.pos, q);
        }
    }
}

/// An order that takes is filled from the book as far as it goes, at the average
/// price to the nearest tick and as a taker; what is left of it is cancelled.
pub proof fn takers_fill_from_the_book_and_cancel_the_rest(
    v: PaperView,
    k: int,
    b: BookView,
    limit: Option<Ticks>,
    now: Instant,
    now_ms: i64,
)
    requires
        v.wf(),
        0 <= k < v.orders.len(),
        !v.orders[k].finished,
        v.next_trade < u64::MAX,
    ensures
        ({
            let o = v.orders[k];
            let levels = book::against(b, o.side);
            let qty = book::swept(levels, o.side, o.left as int, seq![], limit);
            let price = book::nearest(
                book::sweep_cost(levels, o.side, o.left as int, seq![], limit),
                qty,
            ) as i64;
            let (f, fills) = v.filled(o.n, qty, price, false, now, now_ms);
            let (w, evs) = v.swept(o.n, b, limit, now, now_ms);
            &&& w.orders.len() == v.orders.len()
            &&& w.orders[k].finished
            &&& qty <= 0 ==> {
                &&& w.pos == v.pos
                &&& w.next_trade == v.next_trade
                &&& w.orders[k].left == o.left
                &&& w.orders[k].finish_as == "ioc"@
                &&& evs == seq![PaperEventView::Order(w.orders[k].info(now_ms))]
            }
            &&& qty > 0 ==> {
                &&& w.pos == f.pos
                &&& w.next_trade == f.next_trade
                &&& w.orders[k].left == f.orders[k].left
                &&& f.orders[k].finished ==> w == f && evs == fills
                &&& !f.orders[k].finished ==> w.orders[k].finish_as == "ioc"@ && evs == fills
                    + seq![PaperEventView::Order(w.orders[k].info(now_ms))]
            }
            &&& forall|i: int|
                0 <= i < v.orders.len() && i != k ==> #[trigger] w.orders[i] == v.orders[i]
        }),
{
    let o = v.orders[k];
    lemma_found(v, k, o);
    let levels = book::against(b, o.side);
    let qty = book::swept(levels, o.side, o.left as int, seq![], limit);
    let price = book::nearest(
        book::sweep_cost(levels, o.side, o.left as int, seq![], limit),
        qty,
    ) as i64;
    if qty > 0 {
        fills_move_order_and_position_alike(v, k, qty, price, false, now, now_ms);
        let (f, fills) = v.filled(o.n, qty, price, false, now, now_ms);
        assert(f.orders.len() == v.orders.len());
        assert(paper::ascending(f.orders)) by {
            assert forall|i: int, j: int|
                0 <= i < j < f.orders.len() implies (#[trigger] f.orders[i]).n < (
            #[trigger] f.orders[j]).n by {
                assert(v.orders[i].n < v.orders[j].n);
            }
        }
        lemma_found(f, k, f.orders[k]);
        lemma_found(f, k, f.orders[k].closed_as("ioc"@));
    } else {
        lemma_found(v, k, o.closed_as("ioc"@));
    }
}

/// The quotes of the market that an order would cross.
pub open spec fn crosses(v: PaperView, side: Side, price: Option<Ticks>) -> bool {
    match (side, price) {
        (Side::Buy, Some(p)) => v.ext_ask matches Some(a) && a <= p,
        (Side::Sell, Some(p)) => v.ext_bid matches Some(b) && b >= p,
        _ => false,
    }
}

/// A fresh or changed order: an IOC takes from the book within its price. Any other
/// order rests while it does not cross; one that crosses takes, and a post-only one
/// is finished as `poc` without a trade.
pub proof fn crossing_orders_take_unless_post_only(
    v: PaperView,
    k: int,
    b: BookView,
    now: Instant,
    now_ms: i64,
)
    requires
        v.wf(),
        0 <= k < v.orders.len(),
    ensures
        ({
            let o = v.orders[k];
            let (w, evs) = v.settled(o.n, b, now, now_ms);
            let crossing = crosses(v, o.side, o.price);
            &&& o.finished ==> w == v && evs.len() == 0
            &&& !o.finished && o.tif == Tif::Ioc ==> (w, evs) == v.swept(
                o.n,
                b,
                o.price,
                now,
                now_ms,
            )
            &&& !o.finished && o.tif != Tif::Ioc && !crossing ==> w == v && evs.len() == 0
            &&& !o.finished && o.tif == Tif::Poc && crossing ==> {
                &&& w.pos == v.pos
                &&& w.next_trade == v.next_trade
                &&& only_order(v, w, k)
                &&& w.orders[k].finished
                &&& w.orders[k].left == o.left
                &&& w.orders[k].finish_as == "poc"@
                &&& evs == seq![PaperEventView::Order(w.orders[k].info(now_ms))]
            }
            &&& !o.finished && o.tif != Tif::Ioc && o.tif != Tif::Poc && crossing ==> (w, evs)
                == v.swept(o.n, b, o.price, now, now_ms)
        }),
{
    let o = v.orders[k];
    lemma_found(v, k, o);
    lemma_found(v, k, o.closed_as("poc"@));
}

/// A new order gets the next number. It is refused where it may only reduce and its
/// side has nothing to close; a post-only order that crosses is answered as finished
/// and never listed; every other one is listed with all of its size left and then
/// handled by its price. The answer shows what became of it.
pub proof fn new_orders_are_listed_and_handled(
    v: PaperView,
    c: CommandView,
    b: BookView,
    now: Instant,
    now_ms: i64,
)
    requires
        v.wf(),
        v.next_id < u64::MAX,
        c is Place,
    ensures
        c matches CommandView::Place { client_id, side, size, price, tif, reduce_only, .. } ==> {
            let (w, r, evs) = v.carried_out(c, b, now, now_ms);
            let held = match side {
                Side::Buy => v.pos.short,
                Side::Sell => v.pos.long,
            };
            let o = PaperOrderView {
                n: v.next_id,
                client_id,
                side,
                price,
                size,
                left: size,
                tif,
                reduce_only,
                finished: false,
                finish_as: seq![],
            };
            let refused = reduce_only && held == 0;
            let dropped = tif == Tif::Poc && crosses(v, side, price);
            &&& refused || dropped ==> {
                &&& w.orders == v.orders
                &&& w.pos == v.pos
                &&& w.by_client == v.by_client
                &&& w.next_id == v.next_id + 1
                &&& w.next_trade == v.next_trade
                &&& evs.len() == 0
            }
            &&& refused ==> (r matches ResultView::Error { label, .. } && label
                == "REDUCE_ONLY_NO_POSITION"@)
            &&& !refused && dropped ==> (r matches ResultView::Placed(i) && i.status
                == ExchangeStatus::Finished && i.finish_as == "poc"@ && i.left == size
                && i.client_id == client_id && i.exchange_id == seq!['P'] + text::decimal(
                v.next_id as nat,
            ))
            &&& !refused && !dropped ==> {
                let e = PaperView {
                    orders: v.orders.push(o),
                    by_client: v.by_client.insert(client_id, v.next_id),
                    next_id: (v.next_id + 1) as u64,
                    ..v
                };
                &&& (w, evs) == e.settled(v.next_id, b, now, now_ms)
                &&& w.orders.len() == v.orders.len() + 1 ==> (paper::ascending(w.orders) && w.orders[
                    v.orders.len() as int].n == v.next_id ==> r == ResultView::Placed(
                    w.orders[v.orders.len() as int].info(now_ms),
                ))
            }
        },
{
    if let CommandView::Place { client_id, side, size, price, tif, reduce_only, .. } = c {
        let o = PaperOrderView {
            n: v.next_id,
            client_id,
            side,
            price,
            size,
            left: size,
            tif,
            reduce_only,
            finished: false,
            finish_as: seq![],
        };
        let (w, r, evs) = v.carried_out(c, b, now, now_ms);
        if w.orders.len() == v.orders.len() + 1 && paper::ascending(w.orders) && w.orders[
            v.orders.len() as int].n == v.next_id {
            lemma_found(w, v.orders.len() as int, w.orders[v.orders.len() as int]);
        }
    }
}

/// An order is named by its exchange id, or else by the client id that was last
/// used for it.
pub proof fn orders_are_named_by_either_id(v: PaperView, key: Seq<char>, k: int)
    requires
        v.wf(),
    ensures
        0 <= k < v.orders.len() && key == seq!['P'] + text::decimal(v.orders[k].n as nat)
            ==> v.resolve(key) == Some(v.orders[k].n),
        (forall|i: int|
            0 <= i < v.orders.len() ==> key != seq!['P'] + text::decimal(
                (#[trigger] v.orders[i]).n as nat,
            )) ==> {
            &&& v.by_client.contains_key(key) ==> v.resolve(key) == Some(v.by_client[key])
            &&& !v.by_client.contains_key(key) ==> v.resolve(key) is None
        },
{
    lemma_named(v.orders, key, k);
}

proof fn lemma_named(orders: Seq<PaperOrderView>, key: Seq<char>, k: int)
    ensures
        0 <= k < orders.len() && key == seq!['P'] + text::decimal(orders[k].n as nat)
            ==> paper::named(orders, key) == Some(orders[k].n),
        (forall|i: int|
            0 <= i < orders.len() ==> key != seq!['P'] + text::decimal(
                (#[trigger] orders[i]).n as nat,
            )) ==> paper::named(orders, key) is None,
    decreases orders.len(),
{
    if orders.len() > 0 {
        let init = orders.drop_last();
        let last = orders[orders.len() - 1];
        lemma_named(init, key, k);
        if 0 <= k < orders.len() && key == seq!['P'] + text::decimal(orders[k].n as nat) {
            if paper::order_id(last.n) == key {
                let a = text::decimal(last.n as nat);
                let c = text::decimal(orders[k].n as nat);
                assert((seq!['P'] + a).skip(1) =~= a);
                assert((seq!['P'] + c).skip(1) =~= c);
                text::a_decimal_reads_back(last.n as nat);
                text::a_decimal_reads_back(orders[k].n as nat);
            } else {
                assert(k < init.len());
                assert(init[k] == orders[k]);
            }
        }
        if forall|i: int|
            0 <= i < orders.len() ==> key != seq!['P'] + text::decimal(
                (#[trigger] orders[i]).n as nat,
            ) {
            assert(orders[orders.len() - 1].n == last.n);
            assert forall|i: int| 0 <= i < init.len() implies key != seq!['P'] + text::decimal(
                (#[trigger] init[i]).n as nat,
            ) by {
                assert(orders[i] == init[i]);
            }
        }
    }
}

/// An amend sets the price and the total size. A total that is filled already
/// closes the order as cancelled; otherwise what is left is the new total without
/// what was filled. What is not amended stays.
pub proof fn amends_keep_what_was_filled(
    o: PaperOrderView,
    price: Option<Ticks>,
    size: Option<i64>,
)
    requires
        o.valid(),
        !o.finished,
    ensures
        ({
            let a = paper::amended(o, price, size);
            let done = o.size - o.left;
            &&& a.n == o.n
            &&& a.client_id == o.client_id
            &&& a.side == o.side
            &&& a.tif == o.tif
            &&& a.reduce_only == o.reduce_only
            &&& price is None ==> a.price == o.price
            &&& price matches Some(p) ==> a.price == Some(p)
            &&& size is None ==> a.size == o.size && a.left == o.left && !a.finished
            &&& size matches Some(s) ==> {
                &&& s <= done ==> a.finished && a.left == 0 && a.finish_as == "cancelled"@ && a.size
                    == o.size
                &&& s > done ==> !a.finished && a.size == s && a.size - a.left == done
            }
        }),
{
}

/// Amends and cancels reach the open order that they name, and a query any order;
/// there is an error where there is none. A cancel finishes its order and leaves
/// everything else; an amended order is handled anew by its price.
pub proof fn commands_reach_the_order_they_name(
    v: PaperView,
    k: int,
    key: Seq<char>,
    price: Option<Ticks>,
    size: Option<i64>,
    b: BookView,
    now: Instant,
    now_ms: i64,
)
    requires
        v.wf(),
        0 <= k < v.orders.len(),
    ensures
        v.resolve(key) == Some(v.orders[k].n) ==> {
            let o = v.orders[k];
            let a = paper::amended(o, price, size);
            let amend = v.reworked(key, price, size, b, now, now_ms);
            let cancel = v.withdrawn(key, now_ms);
            let w = cancel.0;
            &&& v.looked_up(key, now_ms) == ResultView::Queried(o.info(now_ms))
            &&& !o.finished ==> {
                &&& only_order(v, w, k)
                &&& w.pos == v.pos
                &&& w.next_trade == v.next_trade
                &&& w.orders[k].finished
                &&& w.orders[k].left == o.left
                &&& w.orders[k].finish_as == "cancelled"@
                &&& cancel.1 == ResultView::Cancelled(w.orders[k].info(now_ms))
                &&& cancel.2 == seq![PaperEventView::Order(w.orders[k].info(now_ms))]
                &&& ({
                    let e = PaperView { orders: v.orders.update(k, a), ..v };
                    let s = e.settled(o.n, b, now, now_ms);
                    &&& amend.0 == s.0
                    &&& amend.1 == ResultView::Amended(s.0.at(o.n).info(now_ms))
                    &&& amend.2 == seq![PaperEventView::Order(a.info(now_ms))] + s.1
                })
            }
            &&& o.finished ==> {
                &&& amend.0 == v && cancel.0 == v
                &&& amend.2.len() == 0 && cancel.2.len() == 0
                &&& amend.1 matches ResultView::Error { label, .. } && label == "ORDER_NOT_FOUND"@
                &&& cancel.1 matches ResultView::Error { label, .. } && label == "ORDER_NOT_FOUND"@
            }
        },
{
    let o = v.orders[k];
    lemma_found(v, k, o);
    lemma_found(v, k, o.closed_as("cancelled"@));
    lemma_found(v, k, paper::amended(o, price, size));
}

/// A command that names no order is answered with an error and changes nothing.
pub proof fn unknown_names_are_refused(
    v: PaperView,
    key: Seq<char>,
    price: Option<Ticks>,
    size: Option<i64>,
    b: BookView,
    now: Instant,
    now_ms: i64,
)
    requires
        v.resolve(key) is None,
    ensures
        v.reworked(key, price, size, b, now, now_ms).0 == v,
        v.withdrawn(key, now_ms).0 == v,
        v.reworked(key, price, size, b, now, now_ms).2.len() == 0,
        v.withdrawn(key, now_ms).2.len() == 0,
        v.reworked(key, price, size, b, now, now_ms).1 matches ResultView::Error { label, .. }
            && label == "ORDER_NOT_FOUND"@,
        v.withdrawn(key, now_ms).1 matches ResultView::Error { label, .. } && label
            == "ORDER_NOT_FOUND"@,
        v.looked_up(key, now_ms) matches ResultView::Error { label, .. } && label
            == "ORDER_NOT_FOUND"@,
{
}

/// A cancel and a query go by the exchange id where there is one and by the client
/// id otherwise, an amend by the exchange id. A query changes nothing.
pub proof fn commands_are_carried_out_by_name(
    v: PaperView,
    c: CommandView,
    b: BookView,
    now: Instant,
    now_ms: i64,
)
    ensures
        c matches CommandView::Amend { exchange_id, price, size, .. } ==> v.carried_out(
            c,
            b,
            now,
            now_ms,
        ) == v.reworked(exchange_id, price, size, b, now, now_ms),
        c matches CommandView::Cancel { exchange_id, client_id, .. } ==> {
            &&& exchange_id matches Some(e) ==> v.carried_out(c, b, now, now_ms) == v.withdrawn(
                e,
                now_ms,
            )
            &&& exchange_id is None ==> v.carried_out(c, b, now, now_ms) == v.withdrawn(
                client_id,
                now_ms,
            )
        },
        c matches CommandView::Query { exchange_id, client_id, .. } ==> {
            &&& v.carried_out(c, b, now, now_ms).0 == v
            &&& v.carried_out(c, b, now, now_ms).2.len() == 0
            &&& exchange_id matches Some(e) ==> v.carried_out(c, b, now, now_ms).1 == v.looked_up(
                e,
                now_ms,
            )
            &&& exchange_id is None ==> v.carried_out(c, b, now, now_ms).1 == v.looked_up(
                client_id,
                now_ms,
            )
        },
        ({
            let (w, r, evs) = v.carried_out(c, b, now, now_ms);
            let x = v.executed(c, b, now, now_ms);
            &&& x.0 == w.collected()
            &&& x.1.len() == evs.len() + 1
            &&& x.1.skip(1) == evs
            &&& x.1[0] matches PaperEventView::Exec(a) && a.result == r && a.at == now && a.req_id
                == c.req()
        }),
{
    let (w, r, evs) = v.carried_out(c, b, now, now_ms);
    assert(v.executed(c, b, now, now_ms).1.skip(1) =~= evs);
}

/// Cancelling everything finishes every open order as cancelled, with what is left
/// of it, and touches no finished one; each open order is reported once, in turn,
/// and the answer counts them.
pub proof fn cancel_all_finishes_the_open_orders(
    v: PaperView,
    c: CommandView,
    b: BookView,
    now: Instant,
    now_ms: i64,
    k: int,
)
    requires
        c is CancelAll,
        0 <= k < v.orders.len(),
    ensures
        ({
            let (w, r, evs) = v.carried_out(c, b, now, now_ms);
            let o = v.orders[k];
            &&& w == PaperView { orders: w.orders, ..v }
            &&& w.orders.len() == v.orders.len()
            &&& o.finished ==> w.orders[k] == o
            &&& !o.finished ==> w.orders[k].finished && w.orders[k].finish_as == "cancelled"@
                && w.orders[k].left == o.left && w.orders[k].n == o.n && w.orders[k].size == o.size
                && w.orders[k].client_id == o.client_id && w.orders[k].side == o.side
                && w.orders[k].price == o.price
            &&& r == ResultView::CancelledAll(evs.len() as usize)
            &&& evs == paper::cancel_reports(v.orders, now_ms)
        }),
{
}

/// The reports of cancelling everything grow by one for each open order.
pub proof fn cancelled_orders_are_reported_once(
    orders: Seq<PaperOrderView>,
    o: PaperOrderView,
    now_ms: i64,
)
    ensures
        paper::cancel_reports(seq![], now_ms).len() == 0,
        ({
            let was = paper::cancel_reports(orders, now_ms);
            let now = paper::cancel_reports(orders.push(o), now_ms);
            &&& o.finished ==> now == was
            &&& !o.finished ==> now.len() == was.len() + 1 && now.drop_last() == was && (now.last()
                matches PaperEventView::Order(i) && i.exchange_id == seq!['P'] + text::decimal(
                o.n as nat,
            ) && i.status == ExchangeStatus::Finished && i.finish_as == "cancelled"@ && i.left
                == o.left)
        }),
{
    assert(orders.push(o).drop_last() =~= orders);
    let was = paper::cancel_reports(orders, now_ms);
    if !o.finished {
        assert(paper::cancel_reports(orders.push(o), now_ms).drop_last() =~= was);
    }
}

/// The resting orders that a quote moved through: open buys at or above the ask and
/// open sells at or below the bid, in the order of their numbers, with all that is
/// left of them.
pub proof fn quotes_fill_what_they_move_through(
    orders: Seq<PaperOrderView>,
    o: PaperOrderView,
    bid: Ticks,
    ask: Ticks,
)
    ensures
        paper::through(seq![], bid, ask).len() == 0,
        ({
            let was = paper::through(orders, bid, ask);
            let now = paper::through(orders.push(o), bid, ask);
            let moved = match (o.side, o.price) {
                (_, None) => false,
                (Side::Buy, Some(p)) => p >= ask,
                (Side::Sell, Some(p)) => p <= bid,
            };
            &&& o.finished || !moved ==> now == was
            &&& !o.finished && moved ==> now.len() == was.len() + 1 && now.drop_last() == was
                && now.last().n == o.n && o.price == Some(now.last().price) && now.last().left
                == o.left
        }),
{
    assert(orders.push(o).drop_last() =~= orders);
    let was = paper::through(orders, bid, ask);
    assert(was.push(paper::through(orders.push(o), bid, ask).last()).drop_last() =~= was);
}

/// A quote is remembered and fills the orders it moved through one by one, each in
/// full and at its own price, as makers.
pub proof fn quotes_fill_one_by_one(
    v: PaperView,
    ts: Seq<Target>,
    t: Target,
    bid: Ticks,
    ask: Ticks,
    now: Instant,
    now_ms: i64,
)
    ensures
        v.filled_all(seq![], now, now_ms) == (v, Seq::<PaperEventView>::empty()),
        ({
            let (s, evs) = v.filled_all(ts, now, now_ms);
            let (u, more) = s.filled(t.n, t.left as int, t.price, true, now, now_ms);
            v.filled_all(ts.push(t), now, now_ms) == (u, evs + more)
        }),
        ({
            let e = PaperView { ext_bid: Some(bid), ext_ask: Some(ask), ..v };
            let (u, evs) = e.filled_all(paper::through(v.orders, bid, ask), now, now_ms);
            v.quoted(bid, ask, now, now_ms) == (u.collected(), evs)
        }),
{
    assert(ts.push(t).drop_last() =~= ts);
}

/// A trade fills its targets in turn until its size is used up: each takes no more
/// than is left of it, at its own price and as a maker.
pub proof fn trades_fill_out_of_their_size(
    v: PaperView,
    ts: Seq<Target>,
    t: Target,
    budget: int,
    now: Instant,
    now_ms: i64,
)
    requires
        t.left >= 0,
    ensures
        v.filled_by(seq![], budget, now, now_ms) == (v, Seq::<PaperEventView>::empty(), budget),
        ({
            let (s, evs, left) = v.filled_by(ts, budget, now, now_ms);
            let (u, all, rest) = v.filled_by(ts.push(t), budget, now, now_ms);
            &&& left <= 0 ==> u == s && all == evs && rest == left
            &&& left > 0 ==> {
                let q = left - rest;
                let (f, more) = s.filled(t.n, q, t.price, true, now, now_ms);
                &&& 0 <= rest
                &&& q <= t.left
                &&& rest == 0 || q == t.left
                &&& u == f
                &&& all == evs + more
            }
        }),
{
    assert(ts.push(t).drop_last() =~= ts);
}

/// A taker that sells hits the bids and one that buys the asks, with the size that
/// printed.
pub proof fn prints_hit_the_other_side(
    v: PaperView,
    price: Ticks,
    size: i64,
    now: Instant,
    now_ms: i64,
)
    requires
        size > i64::MIN,
    ensures
        size < 0 ==> {
            let x = v.filled_by(paper::hit_by(v.orders, Side::Buy, price), -size, now, now_ms);
            v.printed(price, size, now, now_ms) == (x.0.collected(), x.1)
        },
        size > 0 ==> {
            let x = v.filled_by(
                paper::hit_by(v.orders, Side::Sell, price),
                size as int,
                now,
                now_ms,
            );
            v.printed(price, size, now, now_ms) == (x.0.collected(), x.1)
        },
{
}

/// `a` stands before `b`: it is better priced, or older at the same price.
pub open spec fn goes_first(hit: Side, a: Target, b: Target) -> bool {
    match hit {
        Side::Buy => a.price > b.price || (a.price == b.price && a.n < b.n),
        Side::Sell => a.price < b.price || (a.price == b.price && a.n < b.n),
    }
}

/// An order that a trade at this price hits.
pub open spec fn is_hit(o: PaperOrderView, hit: Side, price: Ticks) -> bool {
    &&& !o.finished
    &&& o.side == hit
    &&& o.price matches Some(p) && (match hit {
        Side::Buy => p >= price,
        Side::Sell => p <= price,
    })
}

spec fn in_turn(ts: Seq<Target>, hit: Side) -> bool {
    forall|i: int, j: int|
        0 <= i < j < ts.len() ==> goes_first(hit, #[trigger] ts[i], #[trigger] ts[j])
}

proof fn lemma_ranked(list: Seq<Target>, t: Target, hit: Side) -> (p: int)
    requires
        in_turn(list, hit),
        forall|i: int| 0 <= i < list.len() ==> (#[trigger] list[i]).n < t.n,
    ensures
        0 <= p <= list.len(),
        paper::ranked(list, t, hit) == list.insert(p, t),
        in_turn(list.insert(p, t), hit),
    decreases list.len(),
{
    if list.len() == 0 || !paper::better(hit, t.price, list.last().price) {
        let p = list.len() as int;
        assert(list.insert(p, t) =~= list.push(t));
        assert forall|i: int, j: int| 0 <= i < j < list.insert(p, t).len() implies goes_first(
            hit,
            #[trigger] list.insert(p, t)[i],
            #[trigger] list.insert(p, t)[j],
        ) by {
            assert(list[i].n < t.n);
            assert(goes_first(hit, list[i], list.last()) || i == list.len() - 1);
        }
        p
    } else {
        let init = list.drop_last();
        assert forall|i: int| 0 <= i < init.len() implies (#[trigger] init[i]).n < t.n by {
            assert(list[i].n < t.n);
        }
        let p = lemma_ranked(init, t, hit);
        let r = list.insert(p, t);
        assert(init.insert(p, t).push(list.last()) =~= r);
        assert forall|i: int, j: int| 0 <= i < j < r.len() implies goes_first(
            hit,
            #[trigger] r[i],
            #[trigger] r[j],
        ) by {
            let head = init.insert(p, t);
            if j < r.len() - 1 {
                assert(head[i] == r[i] && head[j] == r[j]);
            } else {
                assert(r[j] == list.last());
                if i < p {
                    assert(r[i] == list[i]);
                } else if i == p {
                    assert(r[i] == t);
                } else {
                    assert(r[i] == list[i - 1]);
                }
            }
        }
        p
    }
}

/// The target stands for this order.
pub open spec fn stands_for(t: Target, o: PaperOrderView) -> bool {
    t.n == o.n && o.price == Some(t.price) && t.left == o.left
}

/// The target stands for one of the orders that the trade hits.
pub open spec fn is_target(
    t: Target,
    orders: Seq<PaperOrderView>,
    hit: Side,
    price: Ticks,
) -> bool {
    exists|k: int|
        0 <= k < orders.len() && is_hit(#[trigger] orders[k], hit, price) && stands_for(
            t,
            orders[k],
        )
}

/// Some target stands for the order.
pub open spec fn is_targeted(o: PaperOrderView, ts: Seq<Target>) -> bool {
    exists|i: int| 0 <= i < ts.len() && stands_for(#[trigger] ts[i], o)
}

proof fn lemma_target_grows(
    t: Target,
    orders: Seq<PaperOrderView>,
    o: PaperOrderView,
    hit: Side,
    price: Ticks,
)
    requires
        is_target(t, orders, hit, price),
        paper::ascending(orders.push(o)),
    ensures
        is_target(t, orders.push(o), hit, price),
        t.n < o.n,
{
    let k = choose|k: int|
        0 <= k < orders.len() && is_hit(#[trigger] orders[k], hit, price) && stands_for(
            t,
            orders[k],
        );
    let all = orders.push(o);
    assert(all[k] == orders[k]);
    assert(all[orders.len() as int] == o);
    assert(is_hit(all[k], hit, price));
    assert(all[k].n < all[orders.len() as int].n);
}

proof fn lemma_targeted_grows(o: PaperOrderView, ts: Seq<Target>, p: int, t: Target)
    requires
        is_targeted(o, ts),
        0 <= p <= ts.len(),
    ensures
        is_targeted(o, ts.insert(p, t)),
{
    let h = choose|h: int| 0 <= h < ts.len() && stands_for(#[trigger] ts[h], o);
    let i = if h < p {
        h
    } else {
        h + 1
    };
    assert(ts.insert(p, t)[i] == ts[h]);
}

proof fn lemma_hit(orders: Seq<PaperOrderView>, hit: Side, price: Ticks)
    requires
        paper::ascending(orders),
    ensures
        in_turn(paper::hit_by(orders, hit, price), hit),
        forall|i: int|
            0 <= i < paper::hit_by(orders, hit, price).len() ==> is_target(
                #[trigger] paper::hit_by(orders, hit, price)[i],
                orders,
                hit,
                price,
            ),
        forall|k: int|
            0 <= k < orders.len() && is_hit(#[trigger] orders[k], hit, price) ==> is_targeted(
                orders[k],
                paper::hit_by(orders, hit, price),
            ),
    decreases orders.len(),
{
    if orders.len() > 0 {
        let init = orders.drop_last();
        let o = orders[orders.len() - 1];
        assert(init.push(o) =~= orders);
        assert forall|i: int, j: int| 0 <= i < j < init.len() implies (#[trigger] init[i]).n < (
        #[trigger] init[j]).n by {
            assert(orders[i].n < orders[j].n);
        }
        lemma_hit(init, hit, price);
        let head = paper::hit_by(init, hit, price);
        let ts = paper::hit_by(orders, hit, price);
        assert forall|i: int| 0 <= i < head.len() implies is_target(
            #[trigger] head[i],
            orders,
            hit,
            price,
        ) && head[i].n < o.n by {
            lemma_target_grows(head[i], init, o, hit, price);
        }
        if is_hit(o, hit, price) {
            let t = Target { n: o.n, price: o.price->0, left: o.left };
            let p = lemma_ranked(head, t, hit);
            assert(ts == head.insert(p, t));
            assert(is_target(t, orders, hit, price)) by {
                assert(stands_for(t, orders[orders.len() - 1]));
            }
            assert forall|i: int| 0 <= i < ts.len() implies is_target(
                #[trigger] ts[i],
                orders,
                hit,
                price,
            ) by {
                if i < p {
                    assert(ts[i] == head[i]);
                } else if i > p {
                    assert(ts[i] == head[i - 1]);
                }
            }
            assert forall|k: int|
                0 <= k < orders.len() && is_hit(#[trigger] orders[k], hit, price) implies is_targeted(
            orders[k], ts) by {
                if k == orders.len() - 1 {
                    assert(stands_for(ts[p], orders[k]));
                } else {
                    assert(is_hit(init[k], hit, price));
                    lemma_targeted_grows(orders[k], head, p, t);
                }
            }
        } else {
            assert(ts == head);
            assert forall|k: int|
                0 <= k < orders.len() && is_hit(#[trigger] orders[k], hit, price) implies is_targeted(
            orders[k], ts) by {
                assert(is_hit(init[k], hit, price));
            }
        }
    }
}

/// A trade hits exactly the open orders of its side that are priced at or better
/// than it, best price first and older orders before newer ones.
pub proof fn trades_hit_the_best_price_first(v: PaperView, hit: Side, price: Ticks)
    requires
        v.wf(),
    ensures
        ({
            let ts = paper::hit_by(v.orders, hit, price);
            &&& forall|i: int, j: int|
                0 <= i < j < ts.len() ==> goes_first(hit, #[trigger] ts[i], #[trigger] ts[j])
            &&& forall|i: int|
                0 <= i < ts.len() ==> is_target(#[trigger] ts[i], v.orders, hit, price)
            &&& forall|k: int|
                0 <= k < v.orders.len() && is_hit(#[trigger] v.orders[k], hit, price)
                    ==> is_targeted(v.orders[k], ts)
        }),
{
    lemma_hit(v.orders, hit, price);
}

/// Beyond two thousand orders the finished ones go, and their client ids with them;
/// open orders stay in their order. Up to that nothing is dropped.
pub proof fn finished_orders_are_dropped_when_there_are_too_many(
    v: PaperView,
    orders: Seq<PaperOrderView>,
    o: PaperOrderView,
)
    ensures
        v.orders.len() <= 2_000 ==> v.collected() == v,
        v.orders.len() > 2_000 ==> {
            let (kept, names) = paper::without_finished(v.orders, v.by_client);
            v.collected() == PaperView { orders: kept, by_client: names, ..v }
        },
        paper::without_finished(seq![], v.by_client) == (
            Seq::<PaperOrderView>::empty(),
            v.by_client,
        ),
        ({
            let was = paper::without_finished(orders, v.by_client);
            let now = paper::without_finished(orders.push(o), v.by_client);
            &&& o.finished ==> now.0 == was.0 && now.1 == was.1.remove(o.client_id)
            &&& !o.finished ==> now.0 == was.0.push(o) && now.1 == was.1
        }),
{
    assert(orders.push(o).drop_last() =~= orders);
}

/// The open orders are listed with their price and what is left of them.
pub proof fn open_orders_are_listed(orders: Seq<PaperOrderView>, o: PaperOrderView)
    ensures
        paper::open_parts(seq![]).len() == 0,
        o.finished ==> paper::open_parts(orders.push(o)) == paper::open_parts(orders),
        !o.finished ==> paper::open_parts(orders.push(o)) == paper::open_parts(orders).push(
            (o.price, o.left),
        ),
{
    assert(orders.push(o).drop_last() =~= orders);
}

} // verus!
