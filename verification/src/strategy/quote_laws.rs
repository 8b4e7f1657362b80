//! What is quoted, by the position and the permissions.

use vstd::prelude::*;

use crate::strategy::quote;
use crate::strategy::quote::{Quote, QuoteContext, SideBounds};
use crate::types::{Purpose, Side, Ticks};

verus! {

/// The smaller of two numbers.
pub open spec fn least(a: int, b: int) -> int {
    if a <= b {
        a
    } else {
        b
    }
}

/// A number, or zero where it is negative.
pub open spec fn floored(a: int) -> int {
    if a >= 0 {
        a
    } else {
        0
    }
}

/// An order is dangerous exactly when it is priced beyond the bound of its side
/// and purpose: a buy above it, a sell below it, even by one tick.
pub proof fn danger_is_a_breach_of_the_own_bound(b: SideBounds, price: Ticks)
    ensures
        b.dangerous(Side::Buy, Purpose::Open, price) <==> price > b.buy_open_max,
        b.dangerous(Side::Buy, Purpose::Reduce, price) <==> price > b.buy_reduce_max,
        b.dangerous(Side::Sell, Purpose::Open, price) <==> price < b.sell_open_min,
        b.dangerous(Side::Sell, Purpose::Reduce, price) <==> price < b.sell_reduce_min,
{
}

/// The inner bid keeps its bound, stays a tick below the external ask and, unless
/// it reduces aggressively, at most a tick above the external bid; and it is the
/// highest price that does. Only a position on the other side makes it a
/// reducing one.
pub proof fn the_inner_bid_is_the_best_allowed(ctx: QuoteContext)
    ensures
        ({
            let limit = if ctx.pos.short > 0 {
                ctx.bounds.buy_reduce_max
            } else {
                ctx.bounds.buy_open_max
            };
            let joins = !(ctx.pos.short > 0 && ctx.aggressive_buy);
            &&& ctx.bid() <= limit
            &&& ctx.ext_ask matches Some(a) ==> ctx.bid() <= a - 1
            &&& joins ==> (ctx.ext_bid matches Some(b) ==> ctx.bid() <= b + 1)
            &&& ctx.bid() == limit || (ctx.ext_ask matches Some(a) && ctx.bid() == a - 1) || (joins
                && (ctx.ext_bid matches Some(b) && ctx.bid() == b + 1))
        }),
{
}

/// The inner ask, in mirror image: the lowest price that keeps its bound, stays
/// above the external bid and, unless it reduces aggressively, at least a tick
/// below the external ask at most.
pub proof fn the_inner_ask_is_the_best_allowed(ctx: QuoteContext)
    ensures
        ({
            let limit = if ctx.pos.long > 0 {
                ctx.bounds.sell_reduce_min
            } else {
                ctx.bounds.sell_open_min
            };
            let joins = !(ctx.pos.long > 0 && ctx.aggressive_sell);
            &&& ctx.ask() >= limit
            &&& ctx.ext_bid matches Some(b) ==> ctx.ask() >= b + 1
            &&& joins ==> (ctx.ext_ask matches Some(a) ==> ctx.ask() >= a - 1)
            &&& ctx.ask() == limit || (ctx.ext_bid matches Some(b) && ctx.ask() == b + 1) || (joins
                && (ctx.ext_ask matches Some(a) && ctx.ask() == a - 1))
        }),
{
}

proof fn lemma_merged_first(inner: Ticks, outer: Seq<Ticks>)
    ensures
        0 < quote::merged(inner, outer).len() <= outer.len() + 1,
        quote::merged(inner, outer)[0] == inner,
    decreases outer.len(),
{
    if outer.len() > 0 {
        lemma_merged_first(inner, outer.drop_last());
    }
}

/// The layers are the inner price and the outer ones, each price once.
pub proof fn layers_hold_every_price_once(inner: Ticks, outer: Seq<Ticks>)
    ensures
        quote::merged(inner, outer).no_duplicates(),
        quote::merged(inner, outer)[0] == inner,
        forall|p: Ticks| #[trigger]
            quote::merged(inner, outer).contains(p) <==> p == inner || outer.contains(p),
        outer.no_duplicates() && !outer.contains(inner) ==> quote::merged(inner, outer) == seq![
            inner,
        ] + outer,
    decreases outer.len(),
{
    lemma_merged_first(inner, outer);
    if outer.len() == 0 {
        assert(quote::merged(inner, outer)[0] == inner);
        assert(seq![inner] + outer =~= seq![inner]);
    } else {
        let init = outer.drop_last();
        let last = outer.last();
        layers_hold_every_price_once(inner, init);
        let head = quote::merged(inner, init);
        let all = quote::merged(inner, outer);
        assert(outer =~= init.push(last));
        assert forall|p: Ticks| #[trigger] all.contains(p) <==> p == inner || outer.contains(p) by {
            assert(outer.contains(p) <==> init.contains(p) || p == last) by {
                if init.contains(p) {
                    let i = init.index_of(p);
                    assert(outer[i] == p);
                }
                if p == last {
                    assert(outer[outer.len() - 1] == p);
                }
                if outer.contains(p) {
                    let i = outer.index_of(p);
                    if i < init.len() {
                        assert(init[i] == p);
                    }
                }
            }
            if !head.contains(last) {
                assert(all == head.push(last));
                if head.contains(p) {
                    let i = head.index_of(p);
                    assert(all[i] == p);
                }
                assert(all[head.len() as int] == last);
                if all.contains(p) {
                    let i = all.index_of(p);
                    if i < head.len() {
                        assert(head[i] == p);
                    }
                }
            }
        }
        if outer.no_duplicates() && !outer.contains(inner) {
            assert(init.no_duplicates());
            assert(!init.contains(inner)) by {
                if init.contains(inner) {
                    let i = init.index_of(inner);
                    assert(outer[i] == inner);
                }
            }
            assert(!init.contains(last)) by {
                if init.contains(last) {
                    let i = init.index_of(last);
                    assert(outer[i] == outer[outer.len() - 1]);
                }
            }
            assert(outer[outer.len() - 1] == last);
            assert(!head.contains(last));
            assert(head.push(last) =~= seq![inner] + outer);
        }
    }
}

/// There are at most as many layers as configured, the inner one always, and the
/// outer ones from the inside out.
pub proof fn layers_are_cut_from_the_outside(outer: Seq<Ticks>, layers: usize)
    ensures
        layers >= 1 ==> quote::outer_layers(outer, layers).len() == least(
            outer.len() as int,
            layers - 1,
        ),
        layers == 0 ==> quote::outer_layers(outer, layers).len() == 0,
        forall|i: int|
            0 <= i < quote::outer_layers(outer, layers).len() ==> (#[trigger] quote::outer_layers(
                outer,
                layers,
            )[i]) == outer[i],
{
}

/// Prices of the two sides, before they are pushed apart.
pub open spec fn joined(ctx: QuoteContext, buy_outer: Seq<Ticks>, sell_outer: Seq<Ticks>) -> (
    Seq<Ticks>,
    Seq<Ticks>,
) {
    (
        quote::merged(ctx.bid() as i64, quote::outer_layers(buy_outer, ctx.layers)),
        quote::merged(ctx.ask() as i64, quote::outer_layers(sell_outer, ctx.layers)),
    )
}

/// Prices stay as they are unless our own bid would meet our own ask; then no bid
/// is left above the tick below the centre and no ask below the tick above it,
/// and prices beyond stay where they are.
pub proof fn sides_are_pushed_apart_around_the_centre(
    ctx: QuoteContext,
    buy_outer: Seq<Ticks>,
    sell_outer: Seq<Ticks>,
)
    requires
        ctx.wf(),
    ensures
        ({
            let (b, a) = joined(ctx, buy_outer, sell_outer);
            let (bids, asks) = ctx.prices(buy_outer, sell_outer);
            &&& bids.len() == b.len()
            &&& asks.len() == a.len()
            &&& 0 < bids.len()
            &&& 0 < asks.len()
            &&& ctx.layers >= 1 ==> bids.len() <= ctx.layers && asks.len() <= ctx.layers
            &&& ctx.layers == 0 ==> bids.len() == 1 && asks.len() == 1
            &&& ctx.bid() < ctx.ask() ==> bids == b && asks == a
            &&& ctx.bid() >= ctx.ask() ==> {
                &&& forall|i: int|
                    0 <= i < bids.len() ==> (#[trigger] bids[i]) == least(
                        b[i] as int,
                        ctx.centre - 1,
                    )
                &&& forall|i: int|
                    0 <= i < asks.len() ==> -(#[trigger] asks[i]) == least(
                        -a[i],
                        -(ctx.centre + 1),
                    )
            }
        }),
{
    let bo = quote::outer_layers(buy_outer, ctx.layers);
    let so = quote::outer_layers(sell_outer, ctx.layers);
    lemma_merged_first(ctx.bid() as i64, bo);
    lemma_merged_first(ctx.ask() as i64, so);
}

/// The layers before `k` hold the full layer size each.
proof fn lemma_full_layers(
    side: Side,
    purpose: Purpose,
    prices: Seq<Ticks>,
    base: int,
    budget: int,
    min: int,
)
    requires
        0 <= base <= i64::MAX,
        min <= base,
        prices.len() * base <= budget,
    ensures
        quote::total_size(quote::laid(side, purpose, prices, base, budget, min)) == prices.len()
            * base,
        quote::laid(side, purpose, prices, base, budget, min).len() == prices.len(),
    decreases prices.len(),
{
    if prices.len() > 0 {
        let n = prices.len() as int;
        let init = prices.drop_last();
        assert((n - 1) * base + base == n * base) by (nonlinear_arith);
        assert((n - 1) * base <= n * base) by (nonlinear_arith)
            requires
                0 <= base,
        ;
        lemma_full_layers(side, purpose, init, base, budget, min);
        let head = quote::laid(side, purpose, init, base, budget, min);
        let all = quote::laid(side, purpose, prices, base, budget, min);
        assert(all.drop_last() =~= head);
    } else {
        assert(0 * base == 0) by (nonlinear_arith);
    }
}

/// Quotes of a list of prices start with the quotes of the first ones.
proof fn lemma_laid_prefix(
    side: Side,
    purpose: Purpose,
    prices: Seq<Ticks>,
    base: int,
    budget: int,
    min: int,
    k: int,
)
    requires
        0 <= k <= prices.len(),
    ensures
        ({
            let part = quote::laid(side, purpose, prices.take(k), base, budget, min);
            let all = quote::laid(side, purpose, prices, base, budget, min);
            part.len() <= all.len() && all.take(part.len() as int) == part
        }),
    decreases prices.len(),
{
    let part = quote::laid(side, purpose, prices.take(k), base, budget, min);
    let all = quote::laid(side, purpose, prices, base, budget, min);
    if k == prices.len() {
        assert(prices.take(k) =~= prices);
        assert(all.take(part.len() as int) =~= part);
    } else {
        let init = prices.drop_last();
        lemma_laid_prefix(side, purpose, init, base, budget, min, k);
        assert(init.take(k) =~= prices.take(k));
        let head = quote::laid(side, purpose, init, base, budget, min);
        assert(all.take(head.len() as int) =~= head);
        assert(all.take(part.len() as int) =~= head.take(part.len() as int));
    }
}

/// Layer `k` stands after the layers before it with the layer size, as far as the
/// budget reaches.
proof fn lemma_layer(
    side: Side,
    purpose: Purpose,
    prices: Seq<Ticks>,
    base: int,
    budget: int,
    min: int,
    k: int,
)
    requires
        0 <= base <= i64::MAX,
        0 <= k < prices.len() <= 255,
        k * base <= budget,
        min <= least(base, budget - k * base),
    ensures
        ({
            let all = quote::laid(side, purpose, prices, base, budget, min);
            k < all.len() && all[k] == (Quote {
                side,
                layer: k as u8,
                purpose,
                price: prices[k],
                size: least(base, budget - k * base) as i64,
            })
        }),
{
    let first = prices.take(k);
    lemma_full_layers(side, purpose, first, base, budget, min);
    let upto = prices.take(k + 1);
    assert(upto.drop_last() =~= first);
    lemma_laid_prefix(side, purpose, prices, base, budget, min, k + 1);
    let part = quote::laid(side, purpose, upto, base, budget, min);
    let all = quote::laid(side, purpose, prices, base, budget, min);
    assert(part.len() == k + 1);
    assert(all.take(part.len() as int)[k] == part[k]);
}

/// Contracts that a reducing bid may buy back in all, and a reducing ask may sell.
pub open spec fn closable(ctx: QuoteContext, side: Side) -> int {
    match side {
        Side::Buy => floored(ctx.pos.short - ctx.uncontrolled.reduce_buy),
        Side::Sell => floored(ctx.pos.long - ctx.uncontrolled.reduce_sell),
    }
}

/// Contracts that may be opened in all: what the net cap leaves if everything
/// fills that adds to the side and nothing that reduces the other one, and what
/// the gross cap leaves.
pub open spec fn openable(ctx: QuoteContext, side: Side) -> int {
    let p = ctx.inventory.pos;
    let e = ctx.uncontrolled;
    let gross = ctx.gross_contracts - p.long - p.short - e.open_buy - e.open_sell;
    let net = match side {
        Side::Buy => ctx.h_contracts - p.long - e.open_buy + floored(p.short - e.reduce_buy),
        Side::Sell => ctx.h_contracts - p.short - e.open_sell + floored(p.long - e.reduce_sell),
    };
    floored(least(net, gross))
}

/// The whole position on the other side is offered back: while short, every layer
/// bids to reduce, with the reducing size as far as the short position reaches,
/// whatever the long side and the permissions are.
pub proof fn a_short_position_is_offered_back(
    ctx: QuoteContext,
    buy_outer: Seq<Ticks>,
    sell_outer: Seq<Ticks>,
    k: int,
)
    requires
        ctx.wf(),
        ctx.pos.short > 0,
        0 <= k < ctx.prices(buy_outer, sell_outer).0.len(),
        ({
            let base = least(ctx.buy_reduce_base as int, ctx.order_size_max as int);
            k * base <= closable(ctx, Side::Buy) && ctx.order_size_min <= least(
                base,
                closable(ctx, Side::Buy) - k * base,
            )
        }),
    ensures
        ({
            let base = least(ctx.buy_reduce_base as int, ctx.order_size_max as int);
            ctx.quotes(buy_outer, sell_outer).contains(
                Quote {
                    side: Side::Buy,
                    layer: k as u8,
                    purpose: Purpose::Reduce,
                    price: ctx.prices(buy_outer, sell_outer).0[k],
                    size: least(base, closable(ctx, Side::Buy) - k * base) as i64,
                },
            )
        }),
{
    sides_are_pushed_apart_around_the_centre(ctx, buy_outer, sell_outer);
    let (bids, asks) = ctx.prices(buy_outer, sell_outer);
    let base = least(ctx.buy_reduce_base as int, ctx.order_size_max as int);
    let budget = closable(ctx, Side::Buy);
    lemma_layer(Side::Buy, Purpose::Reduce, bids, base, budget, ctx.order_size_min as int, k);
    assert(ctx.quotes(buy_outer, sell_outer)[k] == ctx.buy_quotes(bids)[k]);
}

/// In mirror image, while long every layer asks to reduce.
pub proof fn a_long_position_is_offered_for_sale(
    ctx: QuoteContext,
    buy_outer: Seq<Ticks>,
    sell_outer: Seq<Ticks>,
    k: int,
)
    requires
        ctx.wf(),
        ctx.pos.long > 0,
        0 <= k < ctx.prices(buy_outer, sell_outer).1.len(),
        ({
            let base = least(ctx.sell_reduce_base as int, ctx.order_size_max as int);
            k * base <= closable(ctx, Side::Sell) && ctx.order_size_min <= least(
                base,
                closable(ctx, Side::Sell) - k * base,
            )
        }),
    ensures
        ({
            let base = least(ctx.sell_reduce_base as int, ctx.order_size_max as int);
            ctx.quotes(buy_outer, sell_outer).contains(
                Quote {
                    side: Side::Sell,
                    layer: k as u8,
                    purpose: Purpose::Reduce,
                    price: ctx.prices(buy_outer, sell_outer).1[k],
                    size: least(base, closable(ctx, Side::Sell) - k * base) as i64,
                },
            )
        }),
{
    sides_are_pushed_apart_around_the_centre(ctx, buy_outer, sell_outer);
    let (bids, asks) = ctx.prices(buy_outer, sell_outer);
    let base = least(ctx.sell_reduce_base as int, ctx.order_size_max as int);
    let budget = closable(ctx, Side::Sell);
    lemma_layer(Side::Sell, Purpose::Reduce, asks, base, budget, ctx.order_size_min as int, k);
    let n = ctx.buy_quotes(bids).len();
    assert(ctx.quotes(buy_outer, sell_outer)[n + k] == ctx.sell_quotes(asks)[k]);
}

/// The inner reducing quotes stand whenever they reach the least size: at the
/// inner price, with the reducing layer size or what is left of the position.
pub proof fn positions_are_quoted_at_the_inner_price(
    ctx: QuoteContext,
    buy_outer: Seq<Ticks>,
    sell_outer: Seq<Ticks>,
)
    requires
        ctx.wf(),
        ctx.bid() < ctx.ask(),
    ensures
        ({
            let size = least(
                least(ctx.buy_reduce_base as int, ctx.order_size_max as int),
                ctx.pos.short - ctx.uncontrolled.reduce_buy,
            );
            ctx.pos.short > 0 && size >= ctx.order_size_min && size >= 0 ==> ctx.quotes(
                buy_outer,
                sell_outer,
            ).contains(
                Quote {
                    side: Side::Buy,
                    layer: 0,
                    purpose: Purpose::Reduce,
                    price: ctx.bid() as i64,
                    size: size as i64,
                },
            )
        }),
        ({
            let size = least(
                least(ctx.sell_reduce_base as int, ctx.order_size_max as int),
                ctx.pos.long - ctx.uncontrolled.reduce_sell,
            );
            ctx.pos.long > 0 && size >= ctx.order_size_min && size >= 0 ==> ctx.quotes(
                buy_outer,
                sell_outer,
            ).contains(
                Quote {
                    side: Side::Sell,
                    layer: 0,
                    purpose: Purpose::Reduce,
                    price: ctx.ask() as i64,
                    size: size as i64,
                },
            )
        }),
{
    sides_are_pushed_apart_around_the_centre(ctx, buy_outer, sell_outer);
    let (bids, asks) = ctx.prices(buy_outer, sell_outer);
    lemma_merged_first(ctx.bid() as i64, quote::outer_layers(buy_outer, ctx.layers));
    lemma_merged_first(ctx.ask() as i64, quote::outer_layers(sell_outer, ctx.layers));
    let b = least(ctx.buy_reduce_base as int, ctx.order_size_max as int);
    let s = least(ctx.sell_reduce_base as int, ctx.order_size_max as int);
    assert(0 * b == 0) by (nonlinear_arith);
    assert(0 * s == 0) by (nonlinear_arith);
    if ctx.pos.short > 0 && least(b, ctx.pos.short - ctx.uncontrolled.reduce_buy)
        >= ctx.order_size_min && least(b, ctx.pos.short - ctx.uncontrolled.reduce_buy) >= 0 {
        a_short_position_is_offered_back(ctx, buy_outer, sell_outer, 0);
    }
    if ctx.pos.long > 0 && least(s, ctx.pos.long - ctx.uncontrolled.reduce_sell)
        >= ctx.order_size_min && least(s, ctx.pos.long - ctx.uncontrolled.reduce_sell) >= 0 {
        a_long_position_is_offered_for_sale(ctx, buy_outer, sell_outer, 0);
    }
}

/// Without a position on the other side and with every permission, each layer of
/// a side opens, with the layer size as far as the inventory caps reach.
pub proof fn permitted_sides_open(
    ctx: QuoteContext,
    buy_outer: Seq<Ticks>,
    sell_outer: Seq<Ticks>,
    k: int,
)
    requires
        ctx.wf(),
        ctx.allow_new_risk,
        0 <= k,
    ensures
        ({
            let base = least(ctx.buy_base as int, ctx.order_size_max as int);
            let budget = openable(ctx, Side::Buy);
            let bids = ctx.prices(buy_outer, sell_outer).0;
            ctx.pos.short == 0 && ctx.buy_policy.allow_open && ctx.add_buy && k < bids.len() && k
                * base <= budget && ctx.order_size_min <= least(base, budget - k * base)
                ==> ctx.quotes(buy_outer, sell_outer).contains(
                Quote {
                    side: Side::Buy,
                    layer: k as u8,
                    purpose: Purpose::Open,
                    price: bids[k],
                    size: least(base, budget - k * base) as i64,
                },
            )
        }),
        ({
            let base = least(ctx.sell_base as int, ctx.order_size_max as int);
            let budget = openable(ctx, Side::Sell);
            let asks = ctx.prices(buy_outer, sell_outer).1;
            ctx.pos.long == 0 && ctx.sell_policy.allow_open && ctx.add_sell && k < asks.len() && k
                * base <= budget && ctx.order_size_min <= least(base, budget - k * base)
                ==> ctx.quotes(buy_outer, sell_outer).contains(
                Quote {
                    side: Side::Sell,
                    layer: k as u8,
                    purpose: Purpose::Open,
                    price: asks[k],
                    size: least(base, budget - k * base) as i64,
                },
            )
        }),
{
    sides_are_pushed_apart_around_the_centre(ctx, buy_outer, sell_outer);
    let (bids, asks) = ctx.prices(buy_outer, sell_outer);
    let min = ctx.order_size_min as int;
    let b = least(ctx.buy_base as int, ctx.order_size_max as int);
    let bb = openable(ctx, Side::Buy);
    if ctx.pos.short == 0 && ctx.buy_policy.allow_open && ctx.add_buy && k < bids.len() && k * b
        <= bb && min <= least(b, bb - k * b) {
        assert(ctx.buy_budget() == bb);
        lemma_layer(Side::Buy, Purpose::Open, bids, b, bb, min, k);
        assert(ctx.quotes(buy_outer, sell_outer)[k] == ctx.buy_quotes(bids)[k]);
    }
    let s = least(ctx.sell_base as int, ctx.order_size_max as int);
    let sb = openable(ctx, Side::Sell);
    if ctx.pos.long == 0 && ctx.sell_policy.allow_open && ctx.add_sell && k < asks.len() && k * s
        <= sb && min <= least(s, sb - k * s) {
        assert(ctx.sell_budget() == sb);
        lemma_layer(Side::Sell, Purpose::Open, asks, s, sb, min, k);
        let n = ctx.buy_quotes(bids).len();
        assert(ctx.quotes(buy_outer, sell_outer)[n + k] == ctx.sell_quotes(asks)[k]);
    }
}

/// Contracts of the quotes of one side.
pub open spec fn side_total(quotes: Seq<Quote>, side: Side) -> int
    decreases quotes.len(),
{
    if quotes.len() == 0 {
        0
    } else {
        side_total(quotes.drop_last(), side) + (if quotes.last().side == side {
            quotes.last().size as int
        } else {
            0
        })
    }
}

proof fn lemma_laid_all(
    side: Side,
    purpose: Purpose,
    prices: Seq<Ticks>,
    base: int,
    budget: int,
    min: int,
)
    requires
        0 <= base <= i64::MAX,
        0 <= budget,
        prices.len() <= 255,
    ensures
        ({
            let all = quote::laid(side, purpose, prices, base, budget, min);
            &&& 0 <= quote::total_size(all) <= budget
            &&& side_total(all, side) == quote::total_size(all)
            &&& forall|s: Side| s != side ==> #[trigger] side_total(all, s) == 0
            &&& forall|i: int|
                0 <= i < all.len() ==> {
                    let q = #[trigger] all[i];
                    &&& q.side == side
                    &&& q.purpose == purpose
                    &&& q.layer < prices.len()
                    &&& q.price == prices[q.layer as int]
                    &&& 0 <= q.size <= base
                    &&& min <= q.size
                }
            &&& forall|i: int, j: int|
                0 <= i < j < all.len() ==> (#[trigger] all[i]).layer < (#[trigger] all[j]).layer
        }),
    decreases prices.len(),
{
    if prices.len() > 0 {
        let init = prices.drop_last();
        lemma_laid_all(side, purpose, init, base, budget, min);
        let head = quote::laid(side, purpose, init, base, budget, min);
        let all = quote::laid(side, purpose, prices, base, budget, min);
        if all.len() > head.len() {
            assert(all.drop_last() =~= head);
        }
        assert forall|s: Side| s != side implies #[trigger] side_total(all, s) == 0 by {
            assert(side_total(head, s) == 0);
        }
        assert forall|i: int| 0 <= i < all.len() implies {
            let q = #[trigger] all[i];
            &&& q.side == side
            &&& q.purpose == purpose
            &&& q.layer < prices.len()
            &&& q.price == prices[q.layer as int]
            &&& 0 <= q.size <= base
            &&& min <= q.size
        } by {
            if i < head.len() {
                assert(all[i] == head[i]);
            }
        }
        assert forall|i: int, j: int| 0 <= i < j < all.len() implies (#[trigger] all[i]).layer < (
        #[trigger] all[j]).layer by {
            assert(all[i] == head[i]);
            if j < head.len() {
                assert(all[j] == head[j]);
            }
        }
    }
}

proof fn lemma_side_total_add(a: Seq<Quote>, b: Seq<Quote>, side: Side)
    ensures
        side_total(a + b, side) == side_total(a, side) + side_total(b, side),
    decreases b.len(),
{
    if b.len() == 0 {
        assert(a + b =~= a);
    } else {
        lemma_side_total_add(a, b.drop_last(), side);
        assert((a + b).drop_last() =~= a + b.drop_last());
        assert((a + b).last() == b.last());
    }
}

/// Every quote has a reason: a reducing one closes a position on the other side,
/// an opening one has none to close and every permission; it stands at the price
/// of its layer, has at least the least and at most the layer size, and no slot
/// is quoted twice.
pub proof fn every_quote_has_a_reason(
    ctx: QuoteContext,
    buy_outer: Seq<Ticks>,
    sell_outer: Seq<Ticks>,
)
    requires
        ctx.wf(),
    ensures
        forall|i: int|
            0 <= i < ctx.quotes(buy_outer, sell_outer).len() ==> {
                let q = #[trigger] ctx.quotes(buy_outer, sell_outer)[i];
                let (bids, asks) = ctx.prices(buy_outer, sell_outer);
                &&& 0 <= q.size <= ctx.order_size_max
                &&& ctx.order_size_min <= q.size
                &&& q.side == Side::Buy ==> {
                    &&& q.layer < bids.len()
                    &&& q.price == bids[q.layer as int]
                    &&& q.purpose == Purpose::Reduce <==> ctx.pos.short > 0
                    &&& q.purpose == Purpose::Reduce ==> q.size <= ctx.buy_reduce_base
                    &&& q.purpose == Purpose::Open ==> q.size <= ctx.buy_base && ctx.allow_new_risk
                        && ctx.buy_policy.allow_open && ctx.add_buy
                }
                &&& q.side == Side::Sell ==> {
                    &&& q.layer < asks.len()
                    &&& q.price == asks[q.layer as int]
                    &&& q.purpose == Purpose::Reduce <==> ctx.pos.long > 0
                    &&& q.purpose == Purpose::Reduce ==> q.size <= ctx.sell_reduce_base
                    &&& q.purpose == Purpose::Open ==> q.size <= ctx.sell_base
                        && ctx.allow_new_risk && ctx.sell_policy.allow_open && ctx.add_sell
                }
            },
        forall|i: int, j: int|
            0 <= i < j < ctx.quotes(buy_outer, sell_outer).len() ==> (#[trigger] ctx.quotes(
                buy_outer,
                sell_outer,
            )[i]).side != (#[trigger] ctx.quotes(buy_outer, sell_outer)[j]).side || ctx.quotes(
                buy_outer,
                sell_outer,
            )[i].layer < ctx.quotes(buy_outer, sell_outer)[j].layer,
{
    sides_are_pushed_apart_around_the_centre(ctx, buy_outer, sell_outer);
    let (bids, asks) = ctx.prices(buy_outer, sell_outer);
    let min = ctx.order_size_min as int;
    let (bp, sp) = quote::purposes(ctx.pos);
    lemma_laid_all(Side::Buy, bp, bids, ctx.buy_layer(), ctx.buy_budget(), min);
    lemma_laid_all(Side::Sell, sp, asks, ctx.sell_layer(), ctx.sell_budget(), min);
    let buys = ctx.buy_quotes(bids);
    let sells = ctx.sell_quotes(asks);
    let all = ctx.quotes(buy_outer, sell_outer);
    assert forall|i: int|
        #![trigger all[i]]
        0 <= i < all.len() implies all[i] == (if i < buys.len() {
        buys[i]
    } else {
        sells[i - buys.len()]
    }) by {}
    assert forall|i: int, j: int| 0 <= i < j < all.len() implies (#[trigger] all[i]).side != (
    #[trigger] all[j]).side || all[i].layer < all[j].layer by {
        if j < buys.len() {
            assert(buys[i].layer < buys[j].layer);
        } else if i >= buys.len() {
            assert(sells[i - buys.len()].layer < sells[j - buys.len()].layer);
        }
    }
}

/// All quotes of a side together close no more than the position and open no more
/// than both inventory caps leave.
pub proof fn quotes_add_up_within_the_caps(
    ctx: QuoteContext,
    buy_outer: Seq<Ticks>,
    sell_outer: Seq<Ticks>,
)
    requires
        ctx.wf(),
    ensures
        ({
            let bought = side_total(ctx.quotes(buy_outer, sell_outer), Side::Buy);
            let sold = side_total(ctx.quotes(buy_outer, sell_outer), Side::Sell);
            &&& 0 <= bought
            &&& 0 <= sold
            &&& ctx.pos.short > 0 ==> bought <= closable(ctx, Side::Buy)
            &&& ctx.pos.short == 0 ==> bought <= openable(ctx, Side::Buy)
            &&& ctx.pos.long > 0 ==> sold <= closable(ctx, Side::Sell)
            &&& ctx.pos.long == 0 ==> sold <= openable(ctx, Side::Sell)
        }),
{
    sides_are_pushed_apart_around_the_centre(ctx, buy_outer, sell_outer);
    let (bids, asks) = ctx.prices(buy_outer, sell_outer);
    let min = ctx.order_size_min as int;
    let (bp, sp) = quote::purposes(ctx.pos);
    lemma_laid_all(Side::Buy, bp, bids, ctx.buy_layer(), ctx.buy_budget(), min);
    lemma_laid_all(Side::Sell, sp, asks, ctx.sell_layer(), ctx.sell_budget(), min);
    let buys = ctx.buy_quotes(bids);
    let sells = ctx.sell_quotes(asks);
    lemma_side_total_add(buys, sells, Side::Buy);
    lemma_side_total_add(buys, sells, Side::Sell);
    assert(side_total(buys, Side::Sell) == 0);
    assert(side_total(sells, Side::Buy) == 0);
}

} // verus!
