//! Quote generation: safety bounds and the external Gate book give the inner
//! prices; layered post-only quotes follow with dual-mode open/reduce mapping
//! and clipping.
//!
//! All prices are Gate ticks; sizes are contracts.

use vstd::prelude::*;

use crate::order::model;
use crate::order::model::MAX_CONTRACTS;
use crate::strategy::inventory;
use crate::strategy::inventory::{InventoryState, PendingExposure, Positions};
use crate::strategy::protection::SidePolicy;
use crate::types::{Purpose, Side, Ticks};

verus! {

/// Layers that a quote slot can name.
pub const MAX_LAYERS: usize = 255;

#[derive(Debug, Clone, Copy, PartialEq, Eq, Structural)]
pub struct Quote {
    pub side: Side,
    pub layer: u8,
    pub purpose: Purpose,
    pub price: Ticks,
    pub size: i64,
}

/// Safety boundaries: an order is dangerous when it is priced *beyond* its
/// bound (a buy above it, a sell below it).
#[derive(Debug, Clone, Copy, PartialEq, Eq, Structural)]
pub struct SideBounds {
    pub buy_open_max: Ticks,
    pub buy_reduce_max: Ticks,
    pub sell_open_min: Ticks,
    pub sell_reduce_min: Ticks,
}

impl SideBounds {
    pub open spec fn bound(self, side: Side, purpose: Purpose) -> Ticks {
        match (side, purpose) {
            (Side::Buy, Purpose::Open) => self.buy_open_max,
            (Side::Buy, Purpose::Reduce) => self.buy_reduce_max,
            (Side::Sell, Purpose::Open) => self.sell_open_min,
            (Side::Sell, Purpose::Reduce) => self.sell_reduce_min,
        }
    }

    pub fn bound_for(&self, side: Side, purpose: Purpose) -> (r: Ticks)
        ensures
            r == self.bound(side, purpose),
    {
        match (side, purpose) {
            (Side::Buy, Purpose::Open) => self.buy_open_max,
            (Side::Buy, Purpose::Reduce) => self.buy_reduce_max,
            (Side::Sell, Purpose::Open) => self.sell_open_min,
            (Side::Sell, Purpose::Reduce) => self.sell_reduce_min,
        }
    }

    pub open spec fn dangerous(self, side: Side, purpose: Purpose, price: Ticks) -> bool {
        match side {
            Side::Buy => price > self.bound(side, purpose),
            Side::Sell => price < self.bound(side, purpose),
        }
    }

    /// True when an order at `price` has crossed its safety boundary.
    pub fn is_dangerous(&self, side: Side, purpose: Purpose, price: Ticks) -> (r: bool)
        ensures
            r == self.dangerous(side, purpose, price),
    {
        let b: i64 = self.bound_for(side, purpose);
        match side {
            Side::Buy => price > b,
            Side::Sell => price < b,
        }
    }
}

/// Bounds and inner prices that a quote set was built from.
#[derive(Debug, Clone, Copy, PartialEq, Eq, Structural)]
pub struct QuoteSet {
    pub bounds: SideBounds,
    pub inner_bid: Option<Ticks>,
    pub inner_ask: Option<Ticks>,
}

#[derive(Debug, Clone, Copy)]
pub struct QuoteContext {
    pub bounds: SideBounds,
    /// Quote centre, rounded to a tick.
    pub centre: Ticks,
    /// Inventory is short enough for a reducing bid to leave the best bid behind.
    pub aggressive_buy: bool,
    /// Inventory is long enough for a reducing ask to leave the best ask behind.
    pub aggressive_sell: bool,
    /// External (own orders excluded) Gate best bid and ask.
    pub ext_bid: Option<Ticks>,
    pub ext_ask: Option<Ticks>,
    pub pos: Positions,
    pub inventory: InventoryState,
    /// Exposure of orders whose final quantity is not under our control.
    pub uncontrolled: PendingExposure,
    pub buy_policy: SidePolicy,
    pub sell_policy: SidePolicy,
    /// Global permission to add risk.
    pub allow_new_risk: bool,
    /// Inventory leaves room for further buys, and for further sells.
    pub add_buy: bool,
    pub add_sell: bool,
    /// Layers per side.
    pub layers: usize,
    /// Contracts per layer for opening and for reducing orders.
    pub buy_base: i64,
    pub sell_base: i64,
    pub buy_reduce_base: i64,
    pub sell_reduce_base: i64,
    pub order_size_min: i64,
    pub order_size_max: i64,
    /// Net and gross inventory caps in contracts.
    pub h_contracts: i64,
    pub gross_contracts: i64,
}

/// A tick count with a neighbour on either side.
pub open spec fn is_price(t: Ticks) -> bool {
    i64::MIN < t < i64::MAX
}

pub open spec fn is_opt_price(t: Option<Ticks>) -> bool {
    t matches Some(p) ==> is_price(p)
}

/// Purposes of the two sides: while short, buys reduce the short; while long,
/// sells reduce the long; otherwise the side adds inventory.
pub open spec fn purposes(pos: Positions) -> (Purpose, Purpose) {
    (
        if pos.short > 0 {
            Purpose::Reduce
        } else {
            Purpose::Open
        },
        if pos.long > 0 {
            Purpose::Reduce
        } else {
            Purpose::Open
        },
    )
}

/// Dual-mode purpose of each quoting side (buy, sell).
pub fn side_purposes(pos: Positions) -> (r: (Purpose, Purpose))
    ensures
        r == purposes(pos),
{
    let buy = if pos.short > 0 {
        Purpose::Reduce
    } else {
        Purpose::Open
    };
    let sell = if pos.long > 0 {
        Purpose::Reduce
    } else {
        Purpose::Open
    };
    (buy, sell)
}

pub open spec fn lower(a: int, b: int) -> int {
    if a <= b {
        a
    } else {
        b
    }
}

pub open spec fn higher(a: int, b: int) -> int {
    if a >= b {
        a
    } else {
        b
    }
}

impl QuoteContext {
    pub open spec fn wf(self) -> bool {
        &&& is_price(self.centre)
        &&& is_opt_price(self.ext_bid)
        &&& is_opt_price(self.ext_ask)
        &&& self.pos.wf()
        &&& self.inventory.pos.wf()
        &&& self.uncontrolled.wf()
        &&& self.layers <= MAX_LAYERS
        &&& self.buy_base >= 0
        &&& self.sell_base >= 0
        &&& self.buy_reduce_base >= 0
        &&& self.sell_reduce_base >= 0
        &&& model::is_count(self.order_size_max as int)
    }

    /// Whether the values are within what the builder takes.
    pub fn is_valid(&self) -> (r: bool)
        requires
            self.uncontrolled.wf(),
        ensures
            r == self.wf(),
    {
        let bid = match self.ext_bid {
            Some(p) => i64::MIN < p && p < i64::MAX,
            None => true,
        };
        let ask = match self.ext_ask {
            Some(p) => i64::MIN < p && p < i64::MAX,
            None => true,
        };
        i64::MIN < self.centre && self.centre < i64::MAX && bid && ask && self.pos.is_valid()
            && self.inventory.pos.is_valid() && self.layers <= MAX_LAYERS && self.buy_base >= 0 && self.sell_base >= 0
            && self.buy_reduce_base >= 0 && self.sell_reduce_base >= 0 && 0 <= self.order_size_max
            && self.order_size_max <= MAX_CONTRACTS
    }

    /// The inner bid: the bound, but at most a tick above the external bid and at
    /// least a tick below the external ask. An aggressive reducing bid may stand
    /// anywhere below the ask.
    pub open spec fn bid(self) -> int {
        let purpose = purposes(self.pos).0;
        let limit = self.bounds.bound(Side::Buy, purpose) as int;
        let joined = match self.ext_bid {
            Some(b) if !(purpose == Purpose::Reduce && self.aggressive_buy) => lower(limit, b + 1),
            _ => limit,
        };
        match self.ext_ask {
            Some(a) => lower(joined, a - 1),
            None => joined,
        }
    }

    /// The inner ask, in mirror image.
    pub open spec fn ask(self) -> int {
        let purpose = purposes(self.pos).1;
        let limit = self.bounds.bound(Side::Sell, purpose) as int;
        let joined = match self.ext_ask {
            Some(a) if !(purpose == Purpose::Reduce && self.aggressive_sell) => higher(
                limit,
                a - 1,
            ),
            _ => limit,
        };
        match self.ext_bid {
            Some(b) => higher(joined, b + 1),
            None => joined,
        }
    }

    /// Inner bid price.
    pub fn inner_buy(&self) -> (r: Ticks)
        requires
            self.wf(),
        ensures
            r == self.bid(),
    {
        let (purpose, _) = side_purposes(self.pos);
        let mut p: i64 = self.bounds.bound_for(Side::Buy, purpose);
        if !(purpose == Purpose::Reduce && self.aggressive_buy) {
            if let Some(b) = self.ext_bid {
                if b + 1 < p {
                    p = b + 1;
                }
            }
        }
        if let Some(a) = self.ext_ask {
            if a - 1 < p {
                p = a - 1;
            }
        }
        p
    }

    /// Inner ask price.
    pub fn inner_sell(&self) -> (r: Ticks)
        requires
            self.wf(),
        ensures
            r == self.ask(),
    {
        let (_, purpose) = side_purposes(self.pos);
        let mut p: i64 = self.bounds.bound_for(Side::Sell, purpose);
        if !(purpose == Purpose::Reduce && self.aggressive_sell) {
            if let Some(a) = self.ext_ask {
                if a - 1 > p {
                    p = a - 1;
                }
            }
        }
        if let Some(b) = self.ext_bid {
            if b + 1 > p {
                p = b + 1;
            }
        }
        p
    }
}

/// The inner price followed by the outer ones, equal prices kept once.
pub open spec fn merged(inner: Ticks, outer: Seq<Ticks>) -> Seq<Ticks>
    decreases outer.len(),
{
    if outer.len() == 0 {
        seq![inner]
    } else {
        let head = merged(inner, outer.drop_last());
        if head.contains(outer.last()) {
            head
        } else {
            head.push(outer.last())
        }
    }
}

/// The outer prices that the configured number of layers has room for.
pub open spec fn outer_layers(outer: Seq<Ticks>, layers: usize) -> Seq<Ticks> {
    if layers == 0 {
        seq![]
    } else if outer.len() < layers - 1 {
        outer
    } else {
        outer.take(layers - 1)
    }
}

fn holds(v: &Vec<Ticks>, p: Ticks) -> (r: bool)
    ensures
        r == v@.contains(p),
{
    let mut i: usize = 0;
    while i < v.len()
        invariant
            i <= v.len(),
            forall|j: int| 0 <= j < i ==> v@[j] != p,
        decreases v.len() - i,
    {
        if v[i] == p {
            return true;
        }
        i = i + 1;
    }
    false
}

/// Inner price plus outer layers; levels that collapse onto the same tick are
/// kept once.
pub fn layer_prices(inner: Ticks, outer: &Vec<Ticks>, layers: usize) -> (v: Vec<Ticks>)
    ensures
        v@ == merged(inner, outer_layers(outer@, layers)),
        layers > 0 ==> v@.len() <= layers,
        layers == 0 ==> v@.len() == 1,
        v@.len() > 0,
        v@[0] == inner,
{
    let room: usize = if layers == 0 {
        0
    } else {
        layers - 1
    };
    let n: usize = if outer.len() < room {
        outer.len()
    } else {
        room
    };
    let ghost part = outer_layers(outer@, layers);
    let mut v: Vec<Ticks> = Vec::new();
    v.push(inner);
    let mut i: usize = 0;
    assert(part.take(0) =~= seq![]);
    assert(v@ =~= seq![inner]);
    while i < n
        invariant
            i <= n,
            n <= outer.len(),
            n == part.len(),
            forall|j: int| 0 <= j < n ==> part[j] == outer@[j],
            v@ == merged(inner, part.take(i as int)),
            0 < v@.len() <= i + 1,
            v@[0] == inner,
        decreases n - i,
    {
        if !holds(&v, outer[i]) {
            v.push(outer[i]);
        }
        i = i + 1;
        proof {
            assert(part.take(i as int).drop_last() =~= part.take(i - 1));
            assert(part.take(i as int).last() == part[i - 1]);
        }
    }
    assert(part.take(i as int) =~= part);
    v
}

/// Prices of both sides: where our own inner bid would meet our inner ask, the
/// sides are pushed apart around the centre.
pub open spec fn parted(bids: Seq<Ticks>, asks: Seq<Ticks>, centre: Ticks) -> (
    Seq<Ticks>,
    Seq<Ticks>,
) {
    if bids[0] >= asks[0] {
        (
            bids.map_values(|p: Ticks| lower(p as int, centre - 1) as i64),
            asks.map_values(|p: Ticks| higher(p as int, centre + 1) as i64),
        )
    } else {
        (bids, asks)
    }
}

fn part(bids: &mut Vec<Ticks>, asks: &mut Vec<Ticks>, centre: Ticks)
    requires
        old(bids)@.len() > 0,
        old(asks)@.len() > 0,
        is_price(centre),
    ensures
        (final(bids)@, final(asks)@) == parted(old(bids)@, old(asks)@, centre),
{
    if bids[0] < asks[0] {
        return ;
    }
    let mut i: usize = 0;
    while i < bids.len()
        invariant
            i <= bids.len(),
            is_price(centre),
            bids@.len() == old(bids)@.len(),
            forall|j: int|
                0 <= j < i ==> bids@[j] == lower(old(bids)@[j] as int, centre - 1) as i64,
            forall|j: int| i <= j < bids@.len() ==> bids@[j] == old(bids)@[j],
        decreases bids.len() - i,
    {
        if bids[i] > centre - 1 {
            bids.set(i, centre - 1);
        }
        i = i + 1;
    }
    let mut k: usize = 0;
    while k < asks.len()
        invariant
            k <= asks.len(),
            is_price(centre),
            asks@.len() == old(asks)@.len(),
            forall|j: int|
                0 <= j < k ==> asks@[j] == higher(old(asks)@[j] as int, centre + 1) as i64,
            forall|j: int| k <= j < asks@.len() ==> asks@[j] == old(asks)@[j],
        decreases asks.len() - k,
    {
        if asks[k] < centre + 1 {
            asks.set(k, centre + 1);
        }
        k = k + 1;
    }
    proof {
        assert(bids@ =~= old(bids)@.map_values(|p: Ticks| lower(p as int, centre - 1) as i64));
        assert(asks@ =~= old(asks)@.map_values(|p: Ticks| higher(p as int, centre + 1) as i64));
    }
}

/// Contracts of a list of quotes.
pub open spec fn total_size(quotes: Seq<Quote>) -> int
    decreases quotes.len(),
{
    if quotes.len() == 0 {
        0
    } else {
        total_size(quotes.drop_last()) + quotes.last().size
    }
}

/// What one layer gets: the base, as far as the budget reaches.
pub open spec fn share(base: int, budget: int) -> int {
    lower(base, budget)
}

/// Quotes of one side, inner layer first: each layer gets the base as far as
/// the budget reaches, and a layer below the minimum size is skipped.
pub open spec fn laid(
    side: Side,
    purpose: Purpose,
    prices: Seq<Ticks>,
    base: int,
    budget: int,
    min: int,
) -> Seq<Quote>
    decreases prices.len(),
{
    if prices.len() == 0 {
        seq![]
    } else {
        let head = laid(side, purpose, prices.drop_last(), base, budget, min);
        let s = share(base, budget - total_size(head));
        if s >= min {
            head.push(
                Quote {
                    side,
                    layer: (prices.len() - 1) as u8,
                    purpose,
                    price: prices.last(),
                    size: s as i64,
                },
            )
        } else {
            head
        }
    }
}

fn lay(
    side: Side,
    purpose: Purpose,
    prices: &Vec<Ticks>,
    base: i64,
    budget: i128,
    min: i64,
    out: &mut Vec<Quote>,
)
    requires
        prices.len() <= MAX_LAYERS,
        base >= 0,
        budget >= 0,
    ensures
        final(out)@ == old(out)@ + laid(
            side,
            purpose,
            prices@,
            base as int,
            budget as int,
            min as int,
        ),
{
    let ghost before = out@;
    let mut left: i128 = budget;
    let mut i: usize = 0;
    assert(prices@.take(0) =~= seq![]);
    assert(before + seq![] =~= before);
    while i < prices.len()
        invariant
            i <= prices.len() <= MAX_LAYERS,
            base >= 0,
            left >= 0,
            out@ == before + laid(
                side,
                purpose,
                prices@.take(i as int),
                base as int,
                budget as int,
                min as int,
            ),
            left == budget - total_size(
                laid(
                    side,
                    purpose,
                    prices@.take(i as int),
                    base as int,
                    budget as int,
                    min as int,
                ),
            ),
        decreases prices.len() - i,
    {
        let s: i64 = if (base as i128) <= left {
            base
        } else {
            left as i64
        };
        let ghost head = laid(
            side,
            purpose,
            prices@.take(i as int),
            base as int,
            budget as int,
            min as int,
        );
        if s >= min {
            let q = Quote { side, layer: i as u8, purpose, price: prices[i], size: s };
            out.push(q);
            left = left - s as i128;
            proof {
                assert(head.push(q).drop_last() =~= head);
                assert(before + head.push(q) =~= (before + head).push(q));
            }
        }
        i = i + 1;
        proof {
            assert(prices@.take(i as int).drop_last() =~= prices@.take(i - 1));
            assert(prices@.take(i as int).last() == prices@[i - 1]);
        }
    }
    assert(prices@.take(i as int) =~= prices@);
}

impl QuoteContext {
    /// Prices of the two sides, inner ones first.
    pub open spec fn prices(self, buy_outer: Seq<Ticks>, sell_outer: Seq<Ticks>) -> (
        Seq<Ticks>,
        Seq<Ticks>,
    ) {
        parted(
            merged(self.bid() as i64, outer_layers(buy_outer, self.layers)),
            merged(self.ask() as i64, outer_layers(sell_outer, self.layers)),
            self.centre,
        )
    }

    /// Contracts that the buy side may quote in all.
    pub open spec fn buy_budget(self) -> int {
        match purposes(self.pos).0 {
            Purpose::Reduce => inventory::less(
                self.pos.short as int,
                self.uncontrolled.reduce_buy as int,
            ),
            Purpose::Open => inventory::buy_capacity(
                self.inventory.pos,
                self.uncontrolled,
                self.h_contracts as int,
                self.gross_contracts as int,
            ),
        }
    }

    /// Contracts that the sell side may quote in all.
    pub open spec fn sell_budget(self) -> int {
        match purposes(self.pos).1 {
            Purpose::Reduce => inventory::less(
                self.pos.long as int,
                self.uncontrolled.reduce_sell as int,
            ),
            Purpose::Open => inventory::sell_capacity(
                self.inventory.pos,
                self.uncontrolled,
                self.h_contracts as int,
                self.gross_contracts as int,
            ),
        }
    }

    /// The buy side may quote: reducing always, opening only with every
    /// permission.
    pub open spec fn may_buy(self) -> bool {
        purposes(self.pos).0 == Purpose::Reduce || (self.allow_new_risk
            && self.buy_policy.allow_open && self.add_buy)
    }

    pub open spec fn may_sell(self) -> bool {
        purposes(self.pos).1 == Purpose::Reduce || (self.allow_new_risk
            && self.sell_policy.allow_open && self.add_sell)
    }

    /// Contracts per layer; protection multipliers do not shrink reducing orders.
    pub open spec fn buy_layer(self) -> int {
        lower(
            match purposes(self.pos).0 {
                Purpose::Reduce => self.buy_reduce_base as int,
                Purpose::Open => self.buy_base as int,
            },
            self.order_size_max as int,
        )
    }

    pub open spec fn sell_layer(self) -> int {
        lower(
            match purposes(self.pos).1 {
                Purpose::Reduce => self.sell_reduce_base as int,
                Purpose::Open => self.sell_base as int,
            },
            self.order_size_max as int,
        )
    }

    pub open spec fn buy_quotes(self, prices: Seq<Ticks>) -> Seq<Quote> {
        if self.may_buy() {
            laid(
                Side::Buy,
                purposes(self.pos).0,
                prices,
                self.buy_layer(),
                self.buy_budget(),
                self.order_size_min as int,
            )
        } else {
            seq![]
        }
    }

    pub open spec fn sell_quotes(self, prices: Seq<Ticks>) -> Seq<Quote> {
        if self.may_sell() {
            laid(
                Side::Sell,
                purposes(self.pos).1,
                prices,
                self.sell_layer(),
                self.sell_budget(),
                self.order_size_min as int,
            )
        } else {
            seq![]
        }
    }

    /// The wanted quotes: the buys, then the sells.
    pub open spec fn quotes(self, buy_outer: Seq<Ticks>, sell_outer: Seq<Ticks>) -> Seq<Quote> {
        let (bids, asks) = self.prices(buy_outer, sell_outer);
        self.buy_quotes(bids) + self.sell_quotes(asks)
    }
}

fn less_than_budget(position: i64, pending: i128) -> (r: i128)
    requires
        position >= 0,
        pending >= 0,
    ensures
        r == inventory::less(position as int, pending as int),
{
    if position as i128 >= pending {
        position as i128 - pending
    } else {
        0
    }
}

fn min_size(a: i64, b: i64) -> (r: i64)
    ensures
        r == lower(a as int, b as int),
{
    if a <= b {
        a
    } else {
        b
    }
}

/// Build the full desired quote set from the context and the outer layer
/// prices of each side. Returns the quotes and what they were built from.
pub fn build_quotes(ctx: &QuoteContext, buy_outer: &Vec<Ticks>, sell_outer: &Vec<Ticks>) -> (r: (
    Vec<Quote>,
    QuoteSet,
))
    requires
        ctx.wf(),
    ensures
        r.0@ == ctx.quotes(buy_outer@, sell_outer@),
        r.1.bounds == ctx.bounds,
        r.1.inner_bid == Some(ctx.prices(buy_outer@, sell_outer@).0[0]),
        r.1.inner_ask == Some(ctx.prices(buy_outer@, sell_outer@).1[0]),
{
    let (buy_purpose, sell_purpose) = side_purposes(ctx.pos);
    let mut bids = layer_prices(ctx.inner_buy(), buy_outer, ctx.layers);
    let mut asks = layer_prices(ctx.inner_sell(), sell_outer, ctx.layers);
    part(&mut bids, &mut asks, ctx.centre);
    let mut out: Vec<Quote> = Vec::new();
    match buy_purpose {
        Purpose::Reduce => {
            let budget: i128 = less_than_budget(ctx.pos.short, ctx.uncontrolled.reduce_buy);
            let base: i64 = min_size(ctx.buy_reduce_base, ctx.order_size_max);
            lay(Side::Buy, buy_purpose, &bids, base, budget, ctx.order_size_min, &mut out);
        },
        Purpose::Open => {
            if ctx.allow_new_risk && ctx.buy_policy.allow_open && ctx.add_buy {
                let budget: i128 = ctx.inventory.open_buy_capacity(
                    ctx.uncontrolled,
                    ctx.h_contracts,
                    ctx.gross_contracts,
                );
                let base: i64 = min_size(ctx.buy_base, ctx.order_size_max);
                lay(Side::Buy, buy_purpose, &bids, base, budget, ctx.order_size_min, &mut out);
            }
        },
    }
    let ghost buys = out@;
    assert(buys =~= ctx.buy_quotes(bids@));
    match sell_purpose {
        Purpose::Reduce => {
            let budget: i128 = less_than_budget(ctx.pos.long, ctx.uncontrolled.reduce_sell);
            let base: i64 = min_size(ctx.sell_reduce_base, ctx.order_size_max);
            lay(Side::Sell, sell_purpose, &asks, base, budget, ctx.order_size_min, &mut out);
        },
        Purpose::Open => {
            if ctx.allow_new_risk && ctx.sell_policy.allow_open && ctx.add_sell {
                let budget: i128 = ctx.inventory.open_sell_capacity(
                    ctx.uncontrolled,
                    ctx.h_contracts,
                    ctx.gross_contracts,
                );
                let base: i64 = min_size(ctx.sell_base, ctx.order_size_max);
                lay(Side::Sell, sell_purpose, &asks, base, budget, ctx.order_size_min, &mut out);
            }
        },
    }
    assert(out@ =~= buys + ctx.sell_quotes(asks@));
    let set = QuoteSet { bounds: ctx.bounds, inner_bid: Some(bids[0]), inner_ask: Some(asks[0]) };
    (out, set)
}

/// Outer layers lie on the far side of the inner price.
pub open spec fn outside(side: Side, inner: int, outer: Seq<Ticks>) -> bool {
    forall|i: int|
        0 <= i < outer.len() ==> match side {
            Side::Buy => (#[trigger] outer[i]) <= inner,
            Side::Sell => outer[i] >= inner,
        }
}

proof fn lemma_laid(
    side: Side,
    purpose: Purpose,
    prices: Seq<Ticks>,
    base: int,
    budget: int,
    min: int,
)
    requires
        0 <= base <= i64::MAX,
        0 <= budget,
    ensures
        0 <= total_size(laid(side, purpose, prices, base, budget, min)) <= budget,
        laid(side, purpose, prices, base, budget, min).len() <= prices.len(),
        forall|i: int|
            #![trigger laid(side, purpose, prices, base, budget, min)[i]]
            0 <= i < laid(side, purpose, prices, base, budget, min).len() ==> {
                let q = laid(side, purpose, prices, base, budget, min)[i];
                &&& q.side == side
                &&& q.purpose == purpose
                &&& min <= q.size <= base
                &&& 0 <= q.size
                &&& prices.contains(q.price)
            },
    decreases prices.len(),
{
    if prices.len() > 0 {
        let init = prices.drop_last();
        lemma_laid(side, purpose, init, base, budget, min);
        let head = laid(side, purpose, init, base, budget, min);
        let all = laid(side, purpose, prices, base, budget, min);
        if all.len() > head.len() {
            assert(all.drop_last() =~= head);
        }
        assert(prices.last() == prices[prices.len() - 1]);
        assert forall|i: int| 0 <= i < all.len() implies {
            let q = #[trigger] all[i];
            &&& q.side == side
            &&& q.purpose == purpose
            &&& min <= q.size <= base
            &&& 0 <= q.size
            &&& prices.contains(q.price)
        } by {
            if i < head.len() {
                assert(all[i] == head[i]);
                assert(init.contains(head[i].price));
                let k = init.index_of(head[i].price);
                assert(prices[k] == head[i].price);
            }
        }
    }
}

proof fn lemma_merged(inner: Ticks, outer: Seq<Ticks>, side: Side)
    requires
        outside(side, inner as int, outer),
    ensures
        merged(inner, outer).len() > 0,
        merged(inner, outer)[0] == inner,
        outside(side, inner as int, merged(inner, outer)),
    decreases outer.len(),
{
    if outer.len() > 0 {
        let init = outer.drop_last();
        assert(outside(side, inner as int, init)) by {
            assert forall|i: int| 0 <= i < init.len() implies match side {
                Side::Buy => (#[trigger] init[i]) <= inner,
                Side::Sell => init[i] >= inner,
            } by {
                assert(init[i] == outer[i]);
            }
        }
        lemma_merged(inner, init, side);
        assert(outer.last() == outer[outer.len() - 1]);
    }
}

/// Reducing quotes never add up to more than the position that they close, and
/// opening quotes never to more than the inventory caps leave.
pub proof fn quotes_stay_within_their_budget(
    ctx: QuoteContext,
    bids: Seq<Ticks>,
    asks: Seq<Ticks>,
)
    requires
        ctx.wf(),
    ensures
        0 <= total_size(ctx.buy_quotes(bids)) <= ctx.buy_budget(),
        0 <= total_size(ctx.sell_quotes(asks)) <= ctx.sell_budget(),
        purposes(ctx.pos).0 == Purpose::Reduce ==> ctx.buy_budget() <= ctx.pos.short,
        purposes(ctx.pos).1 == Purpose::Reduce ==> ctx.sell_budget() <= ctx.pos.long,
{
    if ctx.may_buy() {
        lemma_laid(
            Side::Buy,
            purposes(ctx.pos).0,
            bids,
            ctx.buy_layer(),
            ctx.buy_budget(),
            ctx.order_size_min as int,
        );
    }
    if ctx.may_sell() {
        lemma_laid(
            Side::Sell,
            purposes(ctx.pos).1,
            asks,
            ctx.sell_layer(),
            ctx.sell_budget(),
            ctx.order_size_min as int,
        );
    }
}

/// A long position is only ever quoted for sale as a reduction, a short one only
/// for buying back, and without permission nothing opens.
pub proof fn quotes_never_open_against_a_position(
    ctx: QuoteContext,
    buy_outer: Seq<Ticks>,
    sell_outer: Seq<Ticks>,
)
    requires
        ctx.wf(),
    ensures
        forall|i: int|
            #![trigger ctx.quotes(buy_outer, sell_outer)[i]]
            0 <= i < ctx.quotes(buy_outer, sell_outer).len() ==> {
                let q = ctx.quotes(buy_outer, sell_outer)[i];
                &&& q.side == Side::Sell && ctx.pos.long > 0 ==> q.purpose == Purpose::Reduce
                &&& q.side == Side::Buy && ctx.pos.short > 0 ==> q.purpose == Purpose::Reduce
                &&& !ctx.allow_new_risk ==> q.purpose == Purpose::Reduce
                &&& q.side == Side::Buy && !ctx.buy_policy.allow_open ==> q.purpose
                    == Purpose::Reduce
                &&& q.side == Side::Sell && !ctx.sell_policy.allow_open ==> q.purpose
                    == Purpose::Reduce
                &&& ctx.order_size_min <= q.size <= ctx.order_size_max
            },
{
    let (bids, asks) = ctx.prices(buy_outer, sell_outer);
    if ctx.may_buy() {
        lemma_laid(
            Side::Buy,
            purposes(ctx.pos).0,
            bids,
            ctx.buy_layer(),
            ctx.buy_budget(),
            ctx.order_size_min as int,
        );
    }
    if ctx.may_sell() {
        lemma_laid(
            Side::Sell,
            purposes(ctx.pos).1,
            asks,
            ctx.sell_layer(),
            ctx.sell_budget(),
            ctx.order_size_min as int,
        );
    }
    let buys = ctx.buy_quotes(bids);
    let sells = ctx.sell_quotes(asks);
    let all = ctx.quotes(buy_outer, sell_outer);
    assert forall|i: int|
        #![trigger all[i]]
        0 <= i < all.len() implies all[i] == (if i < buys.len() {
        buys[i]
    } else {
        sells[i - buys.len()]
    }) by {}
}

/// With outer layers outside the inner prices, no quote is beyond its bound and
/// every bid of ours stays below every ask of ours.
pub proof fn quotes_respect_bounds_and_each_other(
    ctx: QuoteContext,
    buy_outer: Seq<Ticks>,
    sell_outer: Seq<Ticks>,
)
    requires
        ctx.wf(),
        outside(Side::Buy, ctx.bid(), buy_outer),
        outside(Side::Sell, ctx.ask(), sell_outer),
    ensures
        forall|i: int|
            #![trigger ctx.quotes(buy_outer, sell_outer)[i]]
            0 <= i < ctx.quotes(buy_outer, sell_outer).len() ==> {
                let q = ctx.quotes(buy_outer, sell_outer)[i];
                !ctx.bounds.dangerous(q.side, q.purpose, q.price)
            },
        forall|i: int, j: int|
            #![trigger ctx.quotes(buy_outer, sell_outer)[i], ctx.quotes(buy_outer, sell_outer)[j]]
            0 <= i < ctx.quotes(buy_outer, sell_outer).len() && 0 <= j < ctx.quotes(
                buy_outer,
                sell_outer,
            ).len() && ctx.quotes(buy_outer, sell_outer)[i].side == Side::Buy && ctx.quotes(
                buy_outer,
                sell_outer,
            )[j].side == Side::Sell ==> ctx.quotes(buy_outer, sell_outer)[i].price < ctx.quotes(
                buy_outer,
                sell_outer,
            )[j].price,
{
    let bo = outer_layers(buy_outer, ctx.layers);
    let so = outer_layers(sell_outer, ctx.layers);
    assert(outside(Side::Buy, ctx.bid(), bo)) by {
        assert forall|i: int| 0 <= i < bo.len() implies (#[trigger] bo[i]) <= ctx.bid() by {
            assert(bo[i] == buy_outer[i]);
        }
    }
    assert(outside(Side::Sell, ctx.ask(), so)) by {
        assert forall|i: int| 0 <= i < so.len() implies (#[trigger] so[i]) >= ctx.ask() by {
            assert(so[i] == sell_outer[i]);
        }
    }
    let b = ctx.bid() as i64;
    let a = ctx.ask() as i64;
    lemma_merged(b, bo, Side::Buy);
    lemma_merged(a, so, Side::Sell);
    let (bids, asks) = ctx.prices(buy_outer, sell_outer);
    assert forall|i: int| 0 <= i < bids.len() implies (#[trigger] bids[i]) <= ctx.bid() by {
        assert(merged(b, bo)[i] <= ctx.bid());
    }
    assert forall|i: int| 0 <= i < asks.len() implies (#[trigger] asks[i]) >= ctx.ask() by {
        assert(merged(a, so)[i] >= ctx.ask());
    }
    assert forall|i: int, j: int| 0 <= i < bids.len() && 0 <= j < asks.len() implies (
    #[trigger] bids[i]) < (#[trigger] asks[j]) by {
        assert(merged(b, bo)[i] <= b);
        assert(merged(a, so)[j] >= a);
    }
    let bp = purposes(ctx.pos).0;
    let sp = purposes(ctx.pos).1;
    let min = ctx.order_size_min as int;
    lemma_laid(Side::Buy, bp, bids, ctx.buy_layer(), ctx.buy_budget(), min);
    lemma_laid(Side::Sell, sp, asks, ctx.sell_layer(), ctx.sell_budget(), min);
    let buys = ctx.buy_quotes(bids);
    let sells = ctx.sell_quotes(asks);
    let all = ctx.quotes(buy_outer, sell_outer);
    assert forall|i: int|
        #![trigger all[i]]
        0 <= i < all.len() implies all[i] == (if i < buys.len() {
        buys[i]
    } else {
        sells[i - buys.len()]
    }) by {}
    assert forall|i: int| 0 <= i < all.len() implies {
        let q = #[trigger] all[i];
        &&& q.side == Side::Buy ==> i < buys.len() && bids.contains(q.price) && q.purpose == bp
        &&& q.side == Side::Sell ==> i >= buys.len() && asks.contains(q.price) && q.purpose == sp
    } by {
        if i < buys.len() {
            assert(buys[i].side == Side::Buy);
        } else {
            assert(sells[i - buys.len()].side == Side::Sell);
        }
    }
    assert forall|i: int| 0 <= i < all.len() implies {
        let q = #[trigger] all[i];
        !ctx.bounds.dangerous(q.side, q.purpose, q.price)
    } by {
        let q = all[i];
        if q.side == Side::Buy {
            let k = bids.index_of(q.price);
            assert(bids[k] == q.price);
        } else {
            let k = asks.index_of(q.price);
            assert(asks[k] == q.price);
        }
    }
    assert forall|i: int, j: int|
        #![trigger all[i], all[j]]
        0 <= i < all.len() && 0 <= j < all.len() && all[i].side == Side::Buy && all[j].side
            == Side::Sell implies all[i].price < all[j].price by {
        let k = bids.index_of(all[i].price);
        let m = asks.index_of(all[j].price);
        assert(bids[k] < asks[m]);
    }
}

/// The inner prices improve the external book by at most one tick, never touch
/// its other side, and never leave their own bound; an aggressive reducing
/// price may stand further inside the spread.
pub proof fn inner_prices_improve_by_one_tick(ctx: QuoteContext)
    requires
        ctx.wf(),
    ensures
        !ctx.bounds.dangerous(Side::Buy, purposes(ctx.pos).0, ctx.bid() as i64),
        !ctx.bounds.dangerous(Side::Sell, purposes(ctx.pos).1, ctx.ask() as i64),
        ctx.ext_ask matches Some(a) ==> ctx.bid() < a,
        ctx.ext_bid matches Some(b) ==> ctx.ask() > b,
        ctx.ext_bid matches Some(b) ==> (purposes(ctx.pos).0 == Purpose::Reduce
            && ctx.aggressive_buy) || ctx.bid() <= b + 1,
        ctx.ext_ask matches Some(a) ==> (purposes(ctx.pos).1 == Purpose::Reduce
            && ctx.aggressive_sell) || ctx.ask() >= a - 1,
{
}

} // verus!
