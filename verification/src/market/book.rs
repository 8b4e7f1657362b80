//! Local Gate order book (L2) with own-order exclusion and sweep-cost
//! estimation.
//!
//! Prices are ticks, sizes are contracts. The book is kept from a snapshot
//! followed by sequenced deltas; a sequence gap marks it as unreliable until
//! the next snapshot.

use vstd::prelude::*;

use crate::time::Instant;
use crate::types::{Side, Ticks};

verus! {

/// Deltas buffered before the first snapshot.
pub const MAX_PENDING: usize = 2_000;

#[derive(Debug, Clone, Copy, PartialEq, Eq, Structural)]
pub struct DepthLevel {
    pub price: Ticks,
    pub size: i64,
}

#[derive(Debug, Clone)]
pub struct BookSnapshot {
    pub id: u64,
    pub bids: Vec<DepthLevel>,
    pub asks: Vec<DepthLevel>,
}

#[derive(Debug, Clone)]
pub struct BookDelta {
    pub first_id: u64,
    pub last_id: u64,
    pub bids: Vec<DepthLevel>,
    pub asks: Vec<DepthLevel>,
    /// The message is a complete snapshot and replaces the book.
    pub full: bool,
}

/// A delta as plain values.
pub ghost struct DeltaView {
    pub first_id: u64,
    pub last_id: u64,
    pub bids: Seq<DepthLevel>,
    pub asks: Seq<DepthLevel>,
    pub full: bool,
}

impl View for BookDelta {
    type V = DeltaView;

    open spec fn view(&self) -> DeltaView {
        DeltaView {
            first_id: self.first_id,
            last_id: self.last_id,
            bids: self.bids@,
            asks: self.asks@,
            full: self.full,
        }
    }
}

#[derive(Debug, Clone, Copy, PartialEq, Eq, Structural)]
pub enum BookStatus {
    /// No snapshot yet.
    Empty,
    /// Snapshot applied but the first matching delta has not arrived.
    AwaitingDelta,
    Synced,
    /// Sequence gap: a new snapshot is needed.
    Broken,
}

/// One side of the book: prices strictly ascend and sizes are positive.
struct Ladder {
    levels: Vec<DepthLevel>,
}

/// Prices strictly ascend and sizes are positive.
pub open spec fn is_ladder(levels: Seq<DepthLevel>) -> bool {
    &&& forall|i: int, j: int|
        0 <= i < j < levels.len() ==> (#[trigger] levels[i]).price < (#[trigger] levels[j]).price
    &&& forall|i: int| 0 <= i < levels.len() ==> (#[trigger] levels[i]).size > 0
}

/// Some level has this price.
pub open spec fn has_price(levels: Seq<DepthLevel>, price: Ticks) -> bool {
    exists|i: int| 0 <= i < levels.len() && #[trigger] levels[i].price == price
}

/// The level with this price.
pub open spec fn level_at(levels: Seq<DepthLevel>, price: Ticks) -> int {
    choose|i: int| 0 <= i < levels.len() && #[trigger] levels[i].price == price
}

/// The sizes of a ladder by price.
pub open spec fn depth(levels: Seq<DepthLevel>) -> Map<Ticks, i64> {
    Map::new(
        |p: Ticks| has_price(levels, p),
        |p: Ticks| levels[level_at(levels, p)].size,
    )
}

/// Sizes after one edit: a size that is not positive removes the level.
pub open spec fn edited(m: Map<Ticks, i64>, l: DepthLevel) -> Map<Ticks, i64> {
    if l.size <= 0 {
        m.remove(l.price)
    } else {
        m.insert(l.price, l.size)
    }
}

/// Sizes after a list of edits.
pub open spec fn edited_all(m: Map<Ticks, i64>, edits: Seq<DepthLevel>) -> Map<Ticks, i64>
    decreases edits.len(),
{
    if edits.len() == 0 {
        m
    } else {
        edited(edited_all(m, edits.drop_last()), edits.last())
    }
}

/// Sizes of a snapshot: levels without a positive size are left out.
pub open spec fn loaded(levels: Seq<DepthLevel>) -> Map<Ticks, i64>
    decreases levels.len(),
{
    if levels.len() == 0 {
        Map::empty()
    } else if levels.last().size > 0 {
        loaded(levels.drop_last()).insert(levels.last().price, levels.last().size)
    } else {
        loaded(levels.drop_last())
    }
}

/// The level of a price stands where it was found.
proof fn lemma_level(levels: Seq<DepthLevel>, i: int)
    requires
        is_ladder(levels),
        0 <= i < levels.len(),
    ensures
        has_price(levels, levels[i].price),
        level_at(levels, levels[i].price) == i,
        depth(levels).contains_key(levels[i].price),
        depth(levels)[levels[i].price] == levels[i].size,
{
    assert(levels[i].price == levels[i].price);
    let k = level_at(levels, levels[i].price);
    if k < i {
        assert(levels[k].price < levels[i].price);
    } else if i < k {
        assert(levels[i].price < levels[k].price);
    }
}

impl Ladder {
    spec fn wf(self) -> bool {
        is_ladder(self.levels@)
    }

    spec fn map(self) -> Map<Ticks, i64> {
        depth(self.levels@)
    }

    fn new() -> (r: Ladder)
        ensures
            r.wf(),
            r.map() == Map::<Ticks, i64>::empty(),
    {
        let r = Ladder { levels: Vec::new() };
        assert(r.map() =~= Map::<Ticks, i64>::empty());
        r
    }

    /// The first position whose price is not below `price`.
    fn lower_bound(&self, price: Ticks) -> (n: usize)
        requires
            self.wf(),
        ensures
            n <= self.levels.len(),
            forall|i: int| 0 <= i < n ==> (#[trigger] self.levels@[i]).price < price,
            forall|i: int|
                n <= i < self.levels.len() ==> (#[trigger] self.levels@[i]).price >= price,
    {
        let mut lo: usize = 0;
        let mut hi: usize = self.levels.len();
        while lo < hi
            invariant
                self.wf(),
                lo <= hi <= self.levels.len(),
                forall|i: int| 0 <= i < lo ==> (#[trigger] self.levels@[i]).price < price,
                forall|i: int|
                    hi <= i < self.levels.len() ==> (#[trigger] self.levels@[i]).price >= price,
            decreases hi - lo,
        {
            let mid: usize = lo + (hi - lo) / 2;
            if self.levels[mid].price < price {
                assert forall|i: int| 0 <= i < mid + 1 implies (#[trigger] self.levels@[i]).price
                    < price by {
                    if i < mid {
                        assert(self.levels@[i].price < self.levels@[mid as int].price);
                    }
                }
                lo = mid + 1;
            } else {
                assert forall|i: int| mid <= i < self.levels.len() implies (
                #[trigger] self.levels@[i]).price >= price by {
                    if i > mid {
                        assert(self.levels@[mid as int].price < self.levels@[i].price);
                    }
                }
                hi = mid;
            }
        }
        lo
    }

    /// Sets the size of a price, or removes the level.
    fn edit(&mut self, l: DepthLevel)
        requires
            old(self).wf(),
        ensures
            final(self).wf(),
            final(self).map() == edited(old(self).map(), l),
    {
        let n: usize = self.lower_bound(l.price);
        let ghost was = self.levels@;
        let found = n < self.levels.len() && self.levels[n].price == l.price;
        if l.size <= 0 {
            if found {
                self.levels.remove(n);
            }
        } else if found {
            self.levels.set(n, l);
        } else {
            self.levels.insert(n, l);
        }
        proof {
            let is = self.levels@;
            lemma_edit(was, is, n as int, l, found);
        }
    }

    fn edit_all(&mut self, edits: &Vec<DepthLevel>)
        requires
            old(self).wf(),
        ensures
            final(self).wf(),
            final(self).map() == edited_all(old(self).map(), edits@),
    {
        let mut i: usize = 0;
        assert(edits@.take(0) =~= seq![]);
        while i < edits.len()
            invariant
                i <= edits.len(),
                self.wf(),
                self.map() == edited_all(old(self).map(), edits@.take(i as int)),
            decreases edits.len() - i,
        {
            self.edit(edits[i]);
            i = i + 1;
            assert(edits@.take(i as int).drop_last() =~= edits@.take(i - 1));
        }
        assert(edits@.take(i as int) =~= edits@);
    }

    fn load(levels: &Vec<DepthLevel>) -> (r: Ladder)
        ensures
            r.wf(),
            r.map() == loaded(levels@),
    {
        let mut r = Ladder::new();
        let mut i: usize = 0;
        assert(levels@.take(0) =~= seq![]);
        while i < levels.len()
            invariant
                i <= levels.len(),
                r.wf(),
                r.map() == loaded(levels@.take(i as int)),
            decreases levels.len() - i,
        {
            if levels[i].size > 0 {
                r.edit(levels[i]);
            }
            i = i + 1;
            assert(levels@.take(i as int).drop_last() =~= levels@.take(i - 1));
        }
        assert(levels@.take(i as int) =~= levels@);
        r
    }
}

/// What one edit at the lower bound of its price does to a ladder.
proof fn lemma_edit(was: Seq<DepthLevel>, is: Seq<DepthLevel>, n: int, l: DepthLevel, found: bool)
    requires
        is_ladder(was),
        0 <= n <= was.len(),
        forall|i: int| 0 <= i < n ==> (#[trigger] was[i]).price < l.price,
        forall|i: int| n <= i < was.len() ==> (#[trigger] was[i]).price >= l.price,
        found == (n < was.len() && was[n].price == l.price),
        is == (if l.size <= 0 {
            if found {
                was.remove(n)
            } else {
                was
            }
        } else if found {
            was.update(n, l)
        } else {
            was.insert(n, l)
        }),
    ensures
        is_ladder(is),
        depth(is) == edited(depth(was), l),
{
    // Where each level of the new ladder comes from.
    assert forall|i: int| 0 <= i < is.len() implies (#[trigger] is[i]) == (if l.size <= 0 {
        if found && i >= n {
            was[i + 1]
        } else {
            was[i]
        }
    } else if found {
        if i == n {
            l
        } else {
            was[i]
        }
    } else if i < n {
        was[i]
    } else if i == n {
        l
    } else {
        was[i - 1]
    }) by {}
    assert(is_ladder(is));
    assert forall|p: Ticks| #[trigger] depth(is).contains_key(p) == edited(
        depth(was),
        l,
    ).contains_key(p) by {
        if has_price(was, p) && p != l.price {
            let i = level_at(was, p);
            assert(was[i].price == p);
            let j = if l.size <= 0 {
                if found && i > n {
                    i - 1
                } else {
                    i
                }
            } else if found || i < n {
                i
            } else {
                i + 1
            };
            assert(is[j] == was[i]);
            assert(is[j].price == p);
        }
        if has_price(is, p) && p != l.price {
            let j = level_at(is, p);
            assert(is[j].price == p);
            let i = if l.size <= 0 {
                if found && j >= n {
                    j + 1
                } else {
                    j
                }
            } else if found || j < n {
                j
            } else {
                j - 1
            };
            assert(was[i] == is[j]);
            assert(was[i].price == p);
        }
        if p == l.price {
            if l.size > 0 {
                assert(is[n].price == p);
            } else if has_price(is, p) {
                let j = level_at(is, p);
                assert(is[j].price == p);
                if found && j >= n {
                    assert(was[n].price < was[j + 1].price);
                } else if found {
                    assert(was[j].price < l.price);
                } else if j < n {
                    assert(was[j].price < l.price);
                } else {
                    assert(was[n].price != l.price);
                    if j > n {
                        assert(was[n].price < was[j].price);
                    }
                }
            }
        }
    }
    assert forall|p: Ticks| depth(is).contains_key(p) implies #[trigger] depth(is)[p] == edited(
        depth(was),
        l,
    )[p] by {
        let j = level_at(is, p);
        assert(is[j].price == p);
        lemma_level(is, j);
        if p != l.price {
            let i = if l.size <= 0 {
                if found && j >= n {
                    j + 1
                } else {
                    j
                }
            } else if found || j < n {
                j
            } else {
                j - 1
            };
            assert(was[i] == is[j]);
            lemma_level(was, i);
        } else {
            assert(l.size > 0);
            lemma_level(is, n);
        }
    }
    assert(depth(is) =~= edited(depth(was), l));
}

/// The book as plain values.
pub ghost struct BookView {
    pub bids: Map<Ticks, i64>,
    pub asks: Map<Ticks, i64>,
    pub last_id: u64,
    pub status: BookStatus,
    pub last_update: Option<Instant>,
    pub pending: Seq<DeltaView>,
}

impl BookView {
    pub open spec fn empty() -> BookView {
        BookView {
            bids: Map::empty(),
            asks: Map::empty(),
            last_id: 0,
            status: BookStatus::Empty,
            last_update: None,
            pending: seq![],
        }
    }

    /// The book without contents, as before the first snapshot.
    pub open spec fn cleared(self) -> BookView {
        BookView { last_update: self.last_update, ..BookView::empty() }
    }

    /// The contents of a snapshot, before any delta.
    pub open spec fn anchored(
        id: u64,
        bids: Seq<DepthLevel>,
        asks: Seq<DepthLevel>,
        now: Instant,
    ) -> BookView {
        BookView {
            bids: loaded(bids),
            asks: loaded(asks),
            last_id: id,
            status: BookStatus::AwaitingDelta,
            last_update: Some(now),
            pending: seq![],
        }
    }

    /// The edits of a delta taken in.
    pub open spec fn taking(self, d: DeltaView, now: Instant) -> BookView {
        BookView {
            bids: edited_all(self.bids, d.bids),
            asks: edited_all(self.asks, d.asks),
            last_id: d.last_id,
            status: BookStatus::Synced,
            last_update: Some(now),
            ..self
        }
    }

    /// One delta, by the sequencing rules: buffered before a snapshot; after one,
    /// stale deltas are dropped and the first one taken must cover the next id;
    /// from then on each must start at the next id.
    pub open spec fn delta(self, d: DeltaView, now: Instant) -> BookView {
        if d.full {
            BookView {
                status: BookStatus::Synced,
                ..BookView::anchored(d.last_id, d.bids, d.asks, now)
            }
        } else {
            match self.status {
                BookStatus::Empty => {
                    let all = self.pending.push(d);
                    BookView {
                        pending: if all.len() > MAX_PENDING {
                            all.remove(0)
                        } else {
                            all
                        },
                        ..self
                    }
                },
                BookStatus::Broken => self,
                BookStatus::AwaitingDelta => {
                    if d.last_id < self.last_id + 1 {
                        self
                    } else if d.first_id > self.last_id + 1 {
                        BookView { status: BookStatus::Broken, ..self }
                    } else {
                        self.taking(d, now)
                    }
                },
                BookStatus::Synced => {
                    if d.first_id == self.last_id + 1 {
                        self.taking(d, now)
                    } else if d.last_id <= self.last_id {
                        self
                    } else {
                        BookView { status: BookStatus::Broken, ..self }
                    }
                },
            }
        }
    }

    /// Deltas taken in one after the other.
    pub open spec fn deltas(self, ds: Seq<DeltaView>, now: Instant) -> BookView
        decreases ds.len(),
    {
        if ds.len() == 0 {
            self
        } else {
            self.deltas(ds.drop_last(), now).delta(ds.last(), now)
        }
    }

    /// A snapshot, followed by the deltas that were buffered for it.
    pub open spec fn snapshot(
        self,
        id: u64,
        bids: Seq<DepthLevel>,
        asks: Seq<DepthLevel>,
        now: Instant,
    ) -> BookView {
        BookView::anchored(id, bids, asks, now).deltas(self.pending, now)
    }

    /// Only incremental deltas are ever buffered, and only before a snapshot.
    pub open spec fn wf(self) -> bool {
        &&& forall|i: int| 0 <= i < self.pending.len() ==> !(#[trigger] self.pending[i]).full
        &&& self.status != BookStatus::Empty ==> self.pending.len() == 0
        &&& self.pending.len() <= MAX_PENDING
    }
}

/// Quantity of our own orders on a side at a price.
pub open spec fn own_total(own: Seq<(Side, Ticks, i64)>, side: Side, price: Ticks) -> int
    decreases own.len(),
{
    if own.len() == 0 {
        0
    } else {
        own_total(own.drop_last(), side, price) + (if own.last().0 == side && own.last().1
            == price {
            own.last().2 as int
        } else {
            0
        })
    }
}

/// Quantity of others at a price of the book.
pub open spec fn external(
    m: Map<Ticks, i64>,
    own: Seq<(Side, Ticks, i64)>,
    side: Side,
    price: Ticks,
) -> int {
    m[price] - own_total(own, side, price)
}

/// What is left of each level without our own orders is a number of the machine.
pub open spec fn fits(m: Map<Ticks, i64>, own: Seq<(Side, Ticks, i64)>, side: Side) -> bool {
    forall|p: Ticks| m.contains_key(p) ==> #[trigger] external(m, own, side, p) <= i64::MAX
}

/// Quantities that are counts always fit.
pub(crate) proof fn lemma_fits(m: Map<Ticks, i64>, own: Seq<(Side, Ticks, i64)>, side: Side)
    requires
        forall|i: int| 0 <= i < own.len() ==> (#[trigger] own[i]).2 >= 0,
    ensures
        fits(m, own, side),
{
    assert forall|p: Ticks| m.contains_key(p) implies #[trigger] external(m, own, side, p)
        <= i64::MAX by {
        lemma_own_total(own, side, p);
    }
}

proof fn lemma_own_total(own: Seq<(Side, Ticks, i64)>, side: Side, price: Ticks)
    requires
        forall|i: int| 0 <= i < own.len() ==> (#[trigger] own[i]).2 >= 0,
    ensures
        own_total(own, side, price) >= 0,
    decreases own.len(),
{
    if own.len() > 0 {
        let init = own.drop_last();
        assert(own.last() == own[own.len() - 1]);
        assert forall|i: int| 0 <= i < init.len() implies (#[trigger] init[i]).2 >= 0 by {
            assert(own[i].2 >= 0);
        }
        lemma_own_total(init, side, price);
    }
}

/// `r` is the highest price at which others bid, with their quantity.
pub open spec fn is_external_bid(
    m: Map<Ticks, i64>,
    own: Seq<(Side, Ticks, i64)>,
    r: Option<(Ticks, i64)>,
) -> bool {
    match r {
        Some((p, q)) => {
            &&& m.contains_key(p)
            &&& q == external(m, own, Side::Buy, p)
            &&& q > 0
            &&& forall|o: Ticks|
                m.contains_key(o) && o > p ==> #[trigger] external(m, own, Side::Buy, o) <= 0
        },
        None => forall|o: Ticks|
            m.contains_key(o) ==> #[trigger] external(m, own, Side::Buy, o) <= 0,
    }
}

/// `r` is the lowest price at which others offer, with their quantity.
pub open spec fn is_external_ask(
    m: Map<Ticks, i64>,
    own: Seq<(Side, Ticks, i64)>,
    r: Option<(Ticks, i64)>,
) -> bool {
    match r {
        Some((p, q)) => {
            &&& m.contains_key(p)
            &&& q == external(m, own, Side::Sell, p)
            &&& q > 0
            &&& forall|o: Ticks|
                m.contains_key(o) && o < p ==> #[trigger] external(m, own, Side::Sell, o) <= 0
        },
        None => forall|o: Ticks|
            m.contains_key(o) ==> #[trigger] external(m, own, Side::Sell, o) <= 0,
    }
}

/// The levels of a side, by ascending price.
pub open spec fn rungs(m: Map<Ticks, i64>) -> Seq<DepthLevel> {
    choose|s: Seq<DepthLevel>| is_ladder(s) && depth(s) == m
}

/// A price beyond the limit of an order.
pub open spec fn beyond(side: Side, price: Ticks, limit: Option<Ticks>) -> bool {
    match limit {
        None => false,
        Some(l) => match side {
            Side::Buy => price > l,
            Side::Sell => price < l,
        },
    }
}

/// What an order of `side` can take from a level.
pub open spec fn takeable(
    l: DepthLevel,
    side: Side,
    own: Seq<(Side, Ticks, i64)>,
    limit: Option<Ticks>,
) -> int {
    let q = l.size - own_total(own, side.spec_opposite(), l.price);
    if beyond(side, l.price, limit) || q <= 0 {
        0
    } else {
        q
    }
}

/// What an order of `side` can take from all levels.
pub open spec fn offered(
    ls: Seq<DepthLevel>,
    side: Side,
    own: Seq<(Side, Ticks, i64)>,
    limit: Option<Ticks>,
) -> int
    decreases ls.len(),
{
    if ls.len() == 0 {
        0
    } else {
        offered(ls.drop_last(), side, own, limit) + takeable(ls.last(), side, own, limit)
    }
}

/// Contracts that an order for `qty` fills against the levels, best one first.
pub open spec fn swept(
    ls: Seq<DepthLevel>,
    side: Side,
    qty: int,
    own: Seq<(Side, Ticks, i64)>,
    limit: Option<Ticks>,
) -> int {
    let want = if qty > 0 {
        qty
    } else {
        0
    };
    if offered(ls, side, own, limit) < want {
        offered(ls, side, own, limit)
    } else {
        want
    }
}

/// Sum of price times quantity over what is filled.
pub open spec fn sweep_cost(
    ls: Seq<DepthLevel>,
    side: Side,
    qty: int,
    own: Seq<(Side, Ticks, i64)>,
    limit: Option<Ticks>,
) -> int
    decreases ls.len(),
{
    if ls.len() == 0 {
        0
    } else {
        let init = ls.drop_last();
        sweep_cost(init, side, qty, own, limit) + (swept(ls, side, qty, own, limit) - swept(
            init,
            side,
            qty,
            own,
            limit,
        )) * ls.last().price
    }
}

/// The price of the last level that is filled from.
pub open spec fn sweep_worst(
    ls: Seq<DepthLevel>,
    side: Side,
    qty: int,
    own: Seq<(Side, Ticks, i64)>,
    limit: Option<Ticks>,
) -> Option<Ticks>
    decreases ls.len(),
{
    if ls.len() == 0 {
        None
    } else {
        let init = ls.drop_last();
        if swept(ls, side, qty, own, limit) > swept(init, side, qty, own, limit) {
            Some(ls.last().price)
        } else {
            sweep_worst(init, side, qty, own, limit)
        }
    }
}

/// The levels that an order of `side` meets, best one first.
pub open spec fn against(v: BookView, side: Side) -> Seq<DepthLevel> {
    match side {
        Side::Buy => rungs(v.asks),
        Side::Sell => rungs(v.bids).reverse(),
    }
}

/// Outcome of a sweep. The average price is `cost / filled` ticks.
#[derive(Debug, Clone, Copy, PartialEq, Eq, Structural)]
pub struct Sweep {
    pub filled: i64,
    /// Sum of price (ticks) times contracts.
    pub cost: i128,
    pub worst_price: Option<Ticks>,
}

/// The average price lies in the range of a price.
pub open spec fn cost_in_range(cost: int, filled: int) -> bool {
    i64::MIN * filled <= cost <= i64::MAX * filled
}

proof fn lemma_cost_step(cost: int, filled: int, take: int, price: int)
    requires
        cost_in_range(cost, filled),
        0 <= filled,
        0 <= take,
        filled + take <= i64::MAX,
        i64::MIN <= price <= i64::MAX,
    ensures
        cost_in_range(cost + take * price, filled + take),
        i128::MIN <= take * price <= i128::MAX,
        i128::MIN <= cost + take * price <= i128::MAX,
{
    assert(i64::MIN * take <= take * price <= i64::MAX * take) by (nonlinear_arith)
        requires
            0 <= take,
            i64::MIN <= price <= i64::MAX,
    ;
    assert(i64::MIN * (filled + take) == i64::MIN * filled + i64::MIN * take) by (nonlinear_arith);
    assert(i64::MAX * (filled + take) == i64::MAX * filled + i64::MAX * take) by (nonlinear_arith);
    assert(i64::MIN * i64::MAX <= i64::MIN * (filled + take)) by (nonlinear_arith)
        requires
            filled + take <= i64::MAX,
    ;
    assert(i64::MAX * (filled + take) <= i64::MAX * i64::MAX) by (nonlinear_arith)
        requires
            filled + take <= i64::MAX,
    ;
    assert(i64::MIN * i64::MAX <= i64::MIN * take) by (nonlinear_arith)
        requires
            take <= i64::MAX,
    ;
    assert(i64::MAX * take <= i64::MAX * i64::MAX) by (nonlinear_arith)
        requires
            take <= i64::MAX,
    ;
}

/// `cost / filled`, rounded to the nearest whole and halves away from zero.
pub open spec fn nearest(cost: int, filled: int) -> int {
    if cost >= 0 {
        (2 * cost + filled) / (2 * filled)
    } else {
        -((filled - 2 * cost) / (2 * filled))
    }
}

impl Sweep {
    /// What a sweep can come to.
    pub open spec fn wf(self) -> bool {
        0 <= self.filled && cost_in_range(self.cost as int, self.filled as int)
    }

    /// Average price rounded to a whole tick.
    pub fn average_price(&self) -> (r: Ticks)
        requires
            self.wf(),
            self.filled > 0,
        ensures
            r == nearest(self.cost as int, self.filled as int),
    {
        let ghost f = self.filled as int;
        let ghost c = self.cost as int;
        proof {
            assert(i64::MAX * f <= i64::MAX * i64::MAX) by (nonlinear_arith)
                requires
                    f <= i64::MAX,
            ;
            assert(i64::MIN * i64::MAX <= i64::MIN * f) by (nonlinear_arith)
                requires
                    f <= i64::MAX,
            ;
        }
        let d: u128 = 2 * (self.filled as u128);
        if self.cost >= 0 {
            let q: u128 = (2 * (self.cost as u128) + self.filled as u128) / d;
            assert(0 <= (2 * c + f) / (2 * f) <= i64::MAX) by (nonlinear_arith)
                requires
                    0 < f,
                    0 <= c <= i64::MAX * f,
            ;
            q as i64
        } else {
            let m: u128 = (-(self.cost + 1)) as u128 + 1;
            let q: u128 = (2 * m + self.filled as u128) / d;
            assert(0 <= (f - 2 * c) / (2 * f) <= i64::MAX + 1) by (nonlinear_arith)
                requires
                    0 < f,
                    i64::MIN * f <= c < 0,
            ;
            let s: i128 = -(q as i128);
            s as i64
        }
    }
}

/// Two ladders with the same sizes are the same.
proof fn lemma_ladder_unique(a: Seq<DepthLevel>, b: Seq<DepthLevel>)
    requires
        is_ladder(a),
        is_ladder(b),
        depth(a) == depth(b),
    ensures
        a == b,
    decreases a.len(),
{
    if a.len() == 0 {
        if b.len() > 0 {
            lemma_level(b, 0);
            assert(depth(a).contains_key(b[0].price));
            assert(has_price(a, b[0].price));
        }
        assert(a =~= b);
    } else if b.len() == 0 {
        lemma_level(a, 0);
        assert(depth(b).contains_key(a[0].price));
        assert(has_price(b, a[0].price));
    } else {
        let x = a.last();
        let y = b.last();
        lemma_level(a, a.len() - 1);
        lemma_level(b, b.len() - 1);
        assert(has_price(b, x.price)) by {
            assert(depth(b).contains_key(x.price));
        }
        assert(has_price(a, y.price)) by {
            assert(depth(a).contains_key(y.price));
        }
        let i = level_at(b, x.price);
        let j = level_at(a, y.price);
        assert(b[i].price == x.price);
        assert(a[j].price == y.price);
        if i < b.len() - 1 {
            assert(b[i].price < b[b.len() - 1].price);
        }
        if j < a.len() - 1 {
            assert(a[j].price < a[a.len() - 1].price);
        }
        assert(x.price == y.price);
        assert(x.size == y.size);
        assert(x == y);
        let c = a.drop_last();
        let d = b.drop_last();
        lemma_drop_last(a);
        lemma_drop_last(b);
        lemma_ladder_unique(c, d);
        assert(a =~= c.push(x));
        assert(b =~= d.push(y));
    }
}

/// Dropping the highest level removes its price.
proof fn lemma_drop_last(a: Seq<DepthLevel>)
    requires
        is_ladder(a),
        a.len() > 0,
    ensures
        is_ladder(a.drop_last()),
        depth(a.drop_last()) == depth(a).remove(a.last().price),
{
    let c = a.drop_last();
    assert forall|i: int, j: int| 0 <= i < j < c.len() implies (#[trigger] c[i]).price < (
    #[trigger] c[j]).price by {
        assert(a[i].price < a[j].price);
    }
    assert forall|i: int| 0 <= i < c.len() implies (#[trigger] c[i]).size > 0 by {
        assert(a[i].size > 0);
    }
    assert forall|p: Ticks| #[trigger] depth(c).contains_key(p) == depth(a).remove(
        a.last().price,
    ).contains_key(p) by {
        if has_price(c, p) {
            let i = level_at(c, p);
            assert(c[i].price == p);
            assert(a[i].price == p);
            assert(a[i].price < a[a.len() - 1].price);
        }
        if has_price(a, p) && p != a.last().price {
            let i = level_at(a, p);
            assert(a[i].price == p);
            assert(c[i].price == p);
        }
    }
    assert forall|p: Ticks| depth(c).contains_key(p) implies #[trigger] depth(c)[p] == depth(
        a,
    ).remove(a.last().price)[p] by {
        let i = level_at(c, p);
        assert(c[i].price == p);
        lemma_level(c, i);
        assert(a[i] == c[i]);
        lemma_level(a, i);
        assert(a[i].price < a[a.len() - 1].price);
    }
    assert(depth(c) =~= depth(a).remove(a.last().price));
}

pub struct LocalBook {
    bids: Ladder,
    asks: Ladder,
    last_id: u64,
    status: BookStatus,
    last_update: Option<Instant>,
    /// Deltas received before the snapshot.
    pending: Vec<BookDelta>,
}

/// The deltas of a list, as plain values.
pub open spec fn delta_views(ds: Seq<BookDelta>) -> Seq<DeltaView> {
    ds.map_values(|d: BookDelta| d@)
}

impl View for LocalBook {
    type V = BookView;

    closed spec fn view(&self) -> BookView {
        BookView {
            bids: self.bids.map(),
            asks: self.asks.map(),
            last_id: self.last_id,
            status: self.status,
            last_update: self.last_update,
            pending: delta_views(self.pending@),
        }
    }
}

impl LocalBook {
    /// Both sides are ladders, and the buffer is as it should be.
    pub closed spec fn wf(self) -> bool {
        self.bids.wf() && self.asks.wf() && self@.wf()
    }

    pub fn new() -> (r: LocalBook)
        ensures
            r.wf(),
            r@ == BookView::empty(),
    {
        let r = LocalBook {
            bids: Ladder::new(),
            asks: Ladder::new(),
            last_id: 0,
            status: BookStatus::Empty,
            last_update: None,
            pending: Vec::new(),
        };
        assert(r@.pending =~= seq![]);
        r
    }

    pub fn status(&self) -> (r: BookStatus)
        ensures
            r == self@.status,
    {
        self.status
    }

    pub fn is_synced(&self) -> (r: bool)
        ensures
            r == (self@.status == BookStatus::Synced),
    {
        self.status == BookStatus::Synced
    }

    /// When the book last changed.
    pub fn last_update(&self) -> (r: Option<Instant>)
        ensures
            r == self@.last_update,
    {
        self.last_update
    }

    pub fn reset(&mut self)
        requires
            old(self).wf(),
        ensures
            final(self).wf(),
            final(self)@ == old(self)@.cleared(),
    {
        self.bids = Ladder::new();
        self.asks = Ladder::new();
        self.last_id = 0;
        self.status = BookStatus::Empty;
        self.pending = Vec::new();
        assert(self@.pending =~= seq![]);
    }

    /// Loads both sides and anchors the sequence; the buffer is left empty.
    fn anchor(&mut self, id: u64, bids: &Vec<DepthLevel>, asks: &Vec<DepthLevel>, now: Instant)
        ensures
            final(self).wf(),
            final(self)@ == BookView::anchored(id, bids@, asks@, now),
    {
        self.bids = Ladder::load(bids);
        self.asks = Ladder::load(asks);
        self.last_id = id;
        self.status = BookStatus::AwaitingDelta;
        self.last_update = Some(now);
        self.pending = Vec::new();
        assert(self@.pending =~= seq![]);
    }

    /// Takes in an incremental delta after a snapshot.
    fn follow(&mut self, d: &BookDelta, now: Instant)
        requires
            old(self).wf(),
            old(self)@.status != BookStatus::Empty,
            !d@.full,
        ensures
            final(self).wf(),
            final(self)@ == old(self)@.delta(d@, now),
            final(self)@.status != BookStatus::Empty,
    {
        match self.status {
            BookStatus::Empty | BookStatus::Broken => {
                return ;
            },
            BookStatus::AwaitingDelta => {
                if d.last_id <= self.last_id {
                    return ;
                }
                if d.first_id > self.last_id && d.first_id - self.last_id > 1 {
                    self.status = BookStatus::Broken;
                    return ;
                }
            },
            BookStatus::Synced => {
                let next = d.first_id > self.last_id && d.first_id - self.last_id == 1;
                if !next {
                    if d.last_id > self.last_id {
                        self.status = BookStatus::Broken;
                    }
                    return ;
                }
            },
        }
        self.status = BookStatus::Synced;
        self.bids.edit_all(&d.bids);
        self.asks.edit_all(&d.asks);
        self.last_id = d.last_id;
        self.last_update = Some(now);
    }

    /// Replaces the book by a snapshot, then takes in the buffered deltas.
    pub fn apply_snapshot(&mut self, snap: BookSnapshot, now: Instant)
        requires
            old(self).wf(),
        ensures
            final(self).wf(),
            final(self)@ == old(self)@.snapshot(snap.id, snap.bids@, snap.asks@, now),
    {
        let mut pending: Vec<BookDelta> = Vec::new();
        std::mem::swap(&mut pending, &mut self.pending);
        let ghost ds = delta_views(pending@);
        self.anchor(snap.id, &snap.bids, &snap.asks, now);
        let ghost base = self@;
        let mut i: usize = 0;
        assert(ds.take(0) =~= seq![]);
        while i < pending.len()
            invariant
                i <= pending.len(),
                ds == delta_views(pending@),
                forall|j: int| 0 <= j < ds.len() ==> !(#[trigger] ds[j]).full,
                self.wf(),
                self@.status != BookStatus::Empty,
                self@ == base.deltas(ds.take(i as int), now),
            decreases pending.len() - i,
        {
            assert(ds[i as int] == pending@[i as int]@);
            self.follow(&pending[i], now);
            i = i + 1;
            assert(ds.take(i as int).drop_last() =~= ds.take(i - 1));
        }
        assert(ds.take(i as int) =~= ds);
    }

    /// Applies a delta by the sequencing rules.
    pub fn apply_delta(&mut self, d: BookDelta, now: Instant)
        requires
            old(self).wf(),
        ensures
            final(self).wf(),
            final(self)@ == old(self)@.delta(d@, now),
    {
        if d.full {
            self.anchor(d.last_id, &d.bids, &d.asks, now);
            self.status = BookStatus::Synced;
        } else if self.status == BookStatus::Empty {
            let ghost dv = d@;
            let ghost was = self@.pending;
            self.pending.push(d);
            assert(self@.pending =~= was.push(dv));
            if self.pending.len() > MAX_PENDING {
                self.pending.remove(0);
                assert(self@.pending =~= was.push(dv).remove(0));
            }
        } else {
            self.follow(&d, now);
        }
    }

    /// Highest bid with its size.
    pub fn best_bid(&self) -> (r: Option<(Ticks, i64)>)
        requires
            self.wf(),
        ensures
            is_external_bid(self@.bids, seq![], r),
    {
        let own: Vec<(Side, Ticks, i64)> = Vec::new();
        proof {
            assert(own@ =~= seq![]);
            lemma_fits(self@.bids, own@, Side::Buy);
        }
        self.external_bid(own.as_slice())
    }

    /// Lowest ask with its size.
    pub fn best_ask(&self) -> (r: Option<(Ticks, i64)>)
        requires
            self.wf(),
        ensures
            is_external_ask(self@.asks, seq![], r),
    {
        let own: Vec<(Side, Ticks, i64)> = Vec::new();
        proof {
            assert(own@ =~= seq![]);
            lemma_fits(self@.asks, own@, Side::Sell);
        }
        self.external_ask(own.as_slice())
    }

    fn own_at(own: &[(Side, Ticks, i64)], side: Side, price: Ticks) -> (r: i128)
        ensures
            r == own_total(own@, side, price),
            -(u64::MAX * (i64::MAX + 1)) <= r <= u64::MAX * i64::MAX,
    {
        let mut sum: i128 = 0;
        let mut i: usize = 0;
        assert(own@.take(0) =~= seq![]);
        while i < own.len()
            invariant
                i <= own@.len(),
                sum == own_total(own@.take(i as int), side, price),
                -(i * (i64::MAX + 1)) <= sum <= i * i64::MAX,
            decreases own.len() - i,
        {
            assert(i * i64::MAX + i64::MAX <= u64::MAX * i64::MAX) by (nonlinear_arith)
                requires
                    i + 1 <= u64::MAX,
            ;
            assert(i * (i64::MAX + 1) + (i64::MAX + 1) <= u64::MAX * (i64::MAX + 1))
                by (nonlinear_arith)
                requires
                    i + 1 <= u64::MAX,
            ;
            assert((i + 1) * i64::MAX == i * i64::MAX + i64::MAX) by (nonlinear_arith);
            assert((i + 1) * (i64::MAX + 1) == i * (i64::MAX + 1) + (i64::MAX + 1))
                by (nonlinear_arith);
            if own[i].0 == side && own[i].1 == price {
                sum = sum + own[i].2 as i128;
            }
            i = i + 1;
            assert(own@.take(i as int).drop_last() =~= own@.take(i - 1));
        }
        assert(own@.take(i as int) =~= own@);
        assert(i * i64::MAX <= u64::MAX * i64::MAX) by (nonlinear_arith)
            requires
                i <= u64::MAX,
        ;
        assert(i * (i64::MAX + 1) <= u64::MAX * (i64::MAX + 1)) by (nonlinear_arith)
            requires
                i <= u64::MAX,
        ;
        sum
    }

    fn external_bid(&self, own: &[(Side, Ticks, i64)]) -> (r: Option<(Ticks, i64)>)
        requires
            self.wf(),
            fits(self@.bids, own@, Side::Buy),
        ensures
            is_external_bid(self@.bids, own@, r),
    {
        let ghost m = self.bids.map();
        let ghost ls = self.bids.levels@;
        let mut n: usize = self.bids.levels.len();
        while n > 0
            invariant
                is_ladder(ls),
                ls == self.bids.levels@,
                m == depth(ls),
                n <= ls.len(),
                fits(m, own@, Side::Buy),
                forall|i: int|
                    n <= i < ls.len() ==> external(m, own@, Side::Buy, (#[trigger] ls[i]).price)
                        <= 0,
            decreases n,
        {
            let l = self.bids.levels[n - 1];
            let q: i128 = l.size as i128 - Self::own_at(own, Side::Buy, l.price);
            proof {
                lemma_level(ls, n - 1);
                assert(external(m, own@, Side::Buy, l.price) <= i64::MAX);
            }
            if q > 0 {
                proof {
                    assert forall|o: Ticks|
                        m.contains_key(o) && o > l.price implies #[trigger] external(
                        m,
                        own@,
                        Side::Buy,
                        o,
                    ) <= 0 by {
                        let i = level_at(ls, o);
                        assert(ls[i].price == o);
                        if i < n - 1 {
                            assert(ls[i].price < ls[n - 1].price);
                        }
                    }
                }
                return Some((l.price, q as i64));
            }
            n = n - 1;
        }
        proof {
            assert forall|o: Ticks| m.contains_key(o) implies #[trigger] external(
                m,
                own@,
                Side::Buy,
                o,
            ) <= 0 by {
                let i = level_at(ls, o);
                assert(ls[i].price == o);
            }
        }
        None
    }

    fn external_ask(&self, own: &[(Side, Ticks, i64)]) -> (r: Option<(Ticks, i64)>)
        requires
            self.wf(),
            fits(self@.asks, own@, Side::Sell),
        ensures
            is_external_ask(self@.asks, own@, r),
    {
        let ghost m = self.asks.map();
        let ghost ls = self.asks.levels@;
        let mut n: usize = 0;
        while n < self.asks.levels.len()
            invariant
                is_ladder(ls),
                ls == self.asks.levels@,
                m == depth(ls),
                n <= ls.len(),
                fits(m, own@, Side::Sell),
                forall|i: int|
                    0 <= i < n ==> external(m, own@, Side::Sell, (#[trigger] ls[i]).price) <= 0,
            decreases ls.len() - n,
        {
            let l = self.asks.levels[n];
            let q: i128 = l.size as i128 - Self::own_at(own, Side::Sell, l.price);
            proof {
                lemma_level(ls, n as int);
                assert(external(m, own@, Side::Sell, l.price) <= i64::MAX);
            }
            if q > 0 {
                proof {
                    assert forall|o: Ticks|
                        m.contains_key(o) && o < l.price implies #[trigger] external(
                        m,
                        own@,
                        Side::Sell,
                        o,
                    ) <= 0 by {
                        let i = level_at(ls, o);
                        assert(ls[i].price == o);
                        if i > n {
                            assert(ls[n as int].price < ls[i].price);
                        }
                    }
                }
                return Some((l.price, q as i64));
            }
            n = n + 1;
        }
        proof {
            assert forall|o: Ticks| m.contains_key(o) implies #[trigger] external(
                m,
                own@,
                Side::Sell,
                o,
            ) <= 0 by {
                let i = level_at(ls, o);
                assert(ls[i].price == o);
            }
        }
        None
    }

    /// Best bid and ask after removing our own resting orders (side, price,
    /// remaining).
    pub fn external_bbo(&self, own: &[(Side, Ticks, i64)]) -> (r: (
        Option<(Ticks, i64)>,
        Option<(Ticks, i64)>,
    ))
        requires
            self.wf(),
            fits(self@.bids, own@, Side::Buy),
            fits(self@.asks, own@, Side::Sell),
        ensures
            is_external_bid(self@.bids, own@, r.0),
            is_external_ask(self@.asks, own@, r.1),
    {
        (self.external_bid(own), self.external_ask(own))
    }

    /// Cost of sweeping `qty` contracts against the side of the book that an
    /// order of `side` would hit. Own orders are left out, and so is what lies
    /// beyond `limit`.
    pub fn sweep(&self, side: Side, qty: i64, own: &[(Side, Ticks, i64)], limit: Option<Ticks>) -> (r:
        Sweep)
        requires
            self.wf(),
        ensures
            r.filled == swept(against(self@, side), side, qty as int, own@, limit),
            r.cost == sweep_cost(against(self@, side), side, qty as int, own@, limit),
            r.worst_price == sweep_worst(against(self@, side), side, qty as int, own@, limit),
            r.wf(),
    {
        let levels = match side {
            Side::Buy => &self.asks.levels,
            Side::Sell => &self.bids.levels,
        };
        let ghost ls = against(self@, side);
        proof {
            let ladder = levels@;
            let m = depth(ladder);
            assert(is_ladder(ladder) && depth(ladder) == m);
            lemma_ladder_unique(rungs(m), ladder);
        }
        let want: i64 = if qty > 0 {
            qty
        } else {
            0
        };
        let mut filled: i64 = 0;
        let mut cost: i128 = 0;
        let mut worst: Option<Ticks> = None;
        let n: usize = levels.len();
        let mut i: usize = 0;
        assert(ls.take(0) =~= seq![]);
        while i < n
            invariant
                i <= n,
                n == levels.len(),
                ls.len() == n,
                match side {
                    Side::Buy => ls == levels@,
                    Side::Sell => ls == levels@.reverse(),
                },
                want == (if qty > 0 {
                    qty as int
                } else {
                    0
                }),
                0 <= filled <= want,
                filled == swept(ls.take(i as int), side, qty as int, own@, limit),
                cost == sweep_cost(ls.take(i as int), side, qty as int, own@, limit),
                worst == sweep_worst(ls.take(i as int), side, qty as int, own@, limit),
                cost_in_range(cost as int, filled as int),
                0 <= offered(ls.take(i as int), side, own@, limit),
            decreases n - i,
        {
            let l = match side {
                Side::Buy => levels[i],
                Side::Sell => levels[n - 1 - i],
            };
            assert(l == ls[i as int]);
            let own_here: i128 = Self::own_at(own, side.opposite(), l.price);
            let q: i128 = l.size as i128 - own_here;
            let out = match limit {
                None => false,
                Some(x) => match side {
                    Side::Buy => l.price > x,
                    Side::Sell => l.price < x,
                },
            };
            let left: i64 = want - filled;
            let take: i64 = if out || q <= 0 {
                0
            } else if q < left as i128 {
                q as i64
            } else {
                left
            };
            let ghost before = filled as int;
            proof {
                lemma_cost_step(cost as int, before, take as int, l.price as int);
            }
            filled = filled + take;
            cost = cost + take as i128 * l.price as i128;
            if take > 0 {
                worst = Some(l.price);
            }
            i = i + 1;
            proof {
                assert(ls.take(i as int).drop_last() =~= ls.take(i - 1));
                assert(ls.take(i as int).last() == l);
            }
        }
        assert(ls.take(i as int) =~= ls);
        Sweep { filled, cost, worst_price: worst }
    }
}

impl Default for LocalBook {
    fn default() -> (r: Self)
        ensures
            r.wf(),
            r@ == BookView::empty(),
    {
        LocalBook::new()
    }
}

/// A broken book stays as it is until a snapshot or a full push arrives.
pub proof fn broken_until_replaced(v: BookView, d: DeltaView, now: Instant)
    requires
        v.status == BookStatus::Broken,
    ensures
        !d.full ==> v.delta(d, now) == v,
        d.full ==> v.delta(d, now).status == BookStatus::Synced,
{
}

/// A valid book buffers only incremental deltas, and only before its first
/// snapshot.
pub proof fn books_are_sound(b: LocalBook)
    requires
        b.wf(),
    ensures
        b@.wf(),
{
}

/// Deltas taken in turn, each at its time.
pub open spec fn applied(v: BookView, ds: Seq<(DeltaView, Instant)>) -> BookView
    decreases ds.len(),
{
    if ds.len() == 0 {
        v
    } else {
        applied(v, ds.drop_last()).delta(ds.last().0, ds.last().1)
    }
}

/// A broken book is unreliable until the next snapshot: incremental deltas change
/// nothing of it and none is kept, so a snapshot leaves exactly its own levels.
pub proof fn a_broken_book_waits_for_a_snapshot(
    b: LocalBook,
    ds: Seq<(DeltaView, Instant)>,
    id: u64,
    bids: Seq<DepthLevel>,
    asks: Seq<DepthLevel>,
    now: Instant,
)
    requires
        b.wf(),
        b@.status == BookStatus::Broken,
        forall|i: int| 0 <= i < ds.len() ==> !(#[trigger] ds[i]).0.full,
    ensures
        applied(b@, ds) == b@,
        ({
            let s = applied(b@, ds).snapshot(id, bids, asks, now);
            &&& s.status == BookStatus::AwaitingDelta
            &&& s.bids == loaded(bids)
            &&& s.asks == loaded(asks)
            &&& s.last_id == id
            &&& s.pending.len() == 0
        }),
    decreases ds.len(),
{
    if ds.len() > 0 {
        let init = ds.drop_last();
        assert forall|i: int| 0 <= i < init.len() implies !(#[trigger] init[i]).0.full by {
            assert(!ds[i].0.full);
        }
        a_broken_book_waits_for_a_snapshot(b, init, id, bids, asks, now);
        assert(!ds[ds.len() - 1].0.full);
    }
    assert(b@.pending =~= seq![]);
}

/// After a snapshot, a delta that skips ids breaks the book and changes no level.
pub proof fn a_gap_breaks_the_book(v: BookView, d: DeltaView, now: Instant)
    requires
        v.status == BookStatus::Synced || v.status == BookStatus::AwaitingDelta,
        !d.full,
        d.first_id > v.last_id + 1,
        d.last_id >= d.first_id,
    ensures
        v.delta(d, now) == (BookView { status: BookStatus::Broken, ..v }),
{
}

/// Every level that a book holds has a positive size.
pub proof fn stored_sizes_are_positive(b: LocalBook, price: Ticks)
    requires
        b.wf(),
    ensures
        b@.bids.contains_key(price) ==> b@.bids[price] > 0,
        b@.asks.contains_key(price) ==> b@.asks[price] > 0,
{
    if b@.bids.contains_key(price) {
        let i = level_at(b.bids.levels@, price);
        assert(b.bids.levels@[i].price == price);
    }
    if b@.asks.contains_key(price) {
        let i = level_at(b.asks.levels@, price);
        assert(b.asks.levels@[i].price == price);
    }
}

/// A full push replaces the contents and anchors the sequence: the delta that
/// starts at the next id is taken, whatever the book was before.
pub proof fn a_full_push_anchors_the_sequence(
    v: BookView,
    full: DeltaView,
    next: DeltaView,
    now: Instant,
)
    requires
        full.full,
        !next.full,
        next.first_id == full.last_id + 1,
    ensures
        v.delta(full, now).bids == loaded(full.bids),
        v.delta(full, now).asks == loaded(full.asks),
        v.delta(full, now).delta(next, now).status == BookStatus::Synced,
        v.delta(full, now).delta(next, now).last_id == next.last_id,
        v.delta(full, now).delta(next, now).bids == edited_all(loaded(full.bids), next.bids),
        v.delta(full, now).delta(next, now).asks == edited_all(loaded(full.asks), next.asks),
{
}

/// A delta that ends at or before the book's id changes nothing.
pub proof fn stale_deltas_are_dropped(v: BookView, d: DeltaView, now: Instant)
    requires
        v.status == BookStatus::Synced || v.status == BookStatus::AwaitingDelta,
        !d.full,
        d.first_id <= d.last_id <= v.last_id,
    ensures
        v.delta(d, now) == v,
{
}

/// A sweep fills no more than was asked for, never beyond the limit, and names
/// a worst price exactly when it fills something.
pub proof fn a_sweep_stays_within_quantity_and_limit(
    ls: Seq<DepthLevel>,
    side: Side,
    qty: int,
    own: Seq<(Side, Ticks, i64)>,
    limit: Option<Ticks>,
)
    ensures
        0 <= swept(ls, side, qty, own, limit),
        qty >= 0 ==> swept(ls, side, qty, own, limit) <= qty,
        sweep_worst(ls, side, qty, own, limit) is Some <==> swept(ls, side, qty, own, limit) > 0,
        sweep_worst(ls, side, qty, own, limit) matches Some(p) ==> !beyond(side, p, limit),
    decreases ls.len(),
{
    lemma_offered(ls, side, own, limit);
    if ls.len() > 0 {
        a_sweep_stays_within_quantity_and_limit(ls.drop_last(), side, qty, own, limit);
        lemma_offered(ls.drop_last(), side, own, limit);
    }
}

proof fn lemma_offered(
    ls: Seq<DepthLevel>,
    side: Side,
    own: Seq<(Side, Ticks, i64)>,
    limit: Option<Ticks>,
)
    ensures
        0 <= offered(ls, side, own, limit),
    decreases ls.len(),
{
    if ls.len() > 0 {
        lemma_offered(ls.drop_last(), side, own, limit);
    }
}

/// The last edit of a price decides its level: a positive size stands there
/// afterwards, any other size leaves none, and a price without an edit keeps what
/// it had.
pub proof fn the_last_edit_of_a_price_counts(
    m: Map<Ticks, i64>,
    edits: Seq<DepthLevel>,
    price: Ticks,
)
    ensures
        forall|i: int|
            0 <= i < edits.len() && (#[trigger] edits[i]).price == price && (forall|j: int|
                i < j < edits.len() ==> (#[trigger] edits[j]).price != price) ==> {
                &&& edited_all(m, edits).contains_key(price) == (edits[i].size > 0)
                &&& edits[i].size > 0 ==> edited_all(m, edits)[price] == edits[i].size
            },
        (forall|j: int| 0 <= j < edits.len() ==> (#[trigger] edits[j]).price != price) ==> {
            &&& edited_all(m, edits).contains_key(price) == m.contains_key(price)
            &&& m.contains_key(price) ==> edited_all(m, edits)[price] == m[price]
        },
    decreases edits.len(),
{
    if edits.len() > 0 {
        let init = edits.drop_last();
        let n = edits.len() - 1;
        the_last_edit_of_a_price_counts(m, init, price);
        assert(edits.last() == edits[n]);
        if edits[n].price != price {
            assert forall|i: int|
                0 <= i < edits.len() && (#[trigger] edits[i]).price == price && (forall|j: int|
                    i < j < edits.len() ==> (#[trigger] edits[j]).price != price) implies {
                &&& edited_all(m, edits).contains_key(price) == (edits[i].size > 0)
                &&& edits[i].size > 0 ==> edited_all(m, edits)[price] == edits[i].size
            } by {
                assert(init[i] == edits[i]);
                assert forall|j: int| i < j < init.len() implies (#[trigger] init[j]).price
                    != price by {
                    assert(edits[j].price != price);
                }
            }
            if forall|j: int| 0 <= j < edits.len() ==> (#[trigger] edits[j]).price != price {
                assert forall|j: int| 0 <= j < init.len() implies (#[trigger] init[j]).price
                    != price by {
                    assert(edits[j].price != price);
                }
            }
        }
    }
}

/// A snapshot holds each price with the last positive size that is listed for it,
/// and no other price.
pub proof fn a_snapshot_holds_its_positive_levels(levels: Seq<DepthLevel>, price: Ticks)
    ensures
        forall|i: int|
            0 <= i < levels.len() && (#[trigger] levels[i]).price == price && levels[i].size > 0
                && (forall|j: int|
                i < j < levels.len() && (#[trigger] levels[j]).price == price ==> levels[j].size
                    <= 0) ==> {
                &&& loaded(levels).contains_key(price)
                &&& loaded(levels)[price] == levels[i].size
            },
        (forall|j: int|
            0 <= j < levels.len() && (#[trigger] levels[j]).price == price ==> levels[j].size <= 0)
            ==> !loaded(levels).contains_key(price),
    decreases levels.len(),
{
    if levels.len() > 0 {
        let init = levels.drop_last();
        let n = levels.len() - 1;
        a_snapshot_holds_its_positive_levels(init, price);
        assert(levels.last() == levels[n]);
        if levels[n].price != price || levels[n].size <= 0 {
            assert forall|i: int|
                0 <= i < levels.len() && (#[trigger] levels[i]).price == price && levels[i].size
                    > 0 && (forall|j: int|
                    i < j < levels.len() && (#[trigger] levels[j]).price == price ==> levels[j].size
                        <= 0) implies {
                &&& loaded(levels).contains_key(price)
                &&& loaded(levels)[price] == levels[i].size
            } by {
                assert(init[i] == levels[i]);
                assert forall|j: int|
                    i < j < init.len() && (#[trigger] init[j]).price == price implies init[j].size
                    <= 0 by {
                    assert(levels[j].price == price);
                }
            }
            if forall|j: int|
                0 <= j < levels.len() && (#[trigger] levels[j]).price == price ==> levels[j].size
                    <= 0 {
                assert forall|j: int|
                    0 <= j < init.len() && (#[trigger] init[j]).price == price implies init[j].size
                    <= 0 by {
                    assert(levels[j].price == price);
                }
            }
        }
    }
}

/// After a snapshot the first delta is taken that covers the next id; from then on
/// a delta is taken that starts at it. What is taken edits both sides and moves the
/// id to the delta's end. Deltas that do not reach the next id change nothing, and
/// all others leave a gap.
pub proof fn deltas_follow_without_a_gap(v: BookView, d: DeltaView, now: Instant)
    requires
        !d.full,
        v.status == BookStatus::Synced || v.status == BookStatus::AwaitingDelta,
    ensures
        ({
            let next = v.last_id + 1;
            let taken = if v.status == BookStatus::Synced {
                d.first_id == next
            } else {
                d.first_id <= next <= d.last_id
            };
            let w = v.delta(d, now);
            &&& taken ==> {
                &&& w.status == BookStatus::Synced
                &&& w.bids == edited_all(v.bids, d.bids)
                &&& w.asks == edited_all(v.asks, d.asks)
                &&& w.last_id == d.last_id
                &&& w.last_update == Some(now)
                &&& w.pending == v.pending
            }
            &&& !taken ==> {
                &&& w.bids == v.bids
                &&& w.asks == v.asks
                &&& w.last_id == v.last_id
                &&& w.last_update == v.last_update
                &&& w.pending == v.pending
                &&& w.status == (if d.last_id < next {
                    v.status
                } else {
                    BookStatus::Broken
                })
            }
        }),
{
}

/// Before a snapshot deltas are kept in order, and of too many the oldest one goes;
/// nothing else changes. A snapshot takes them in one by one.
pub proof fn deltas_wait_for_the_snapshot(
    v: BookView,
    d: DeltaView,
    id: u64,
    bids: Seq<DepthLevel>,
    asks: Seq<DepthLevel>,
    now: Instant,
)
    requires
        v.status == BookStatus::Empty,
        !d.full,
    ensures
        ({
            let w = v.delta(d, now);
            &&& w.pending.len() > 0 && w.pending.last() == d
            &&& v.pending.len() < 2000 ==> w.pending == v.pending.push(d)
            &&& v.pending.len() == 2000 ==> w.pending.len() == 2000 && forall|i: int|
                0 <= i < 1999 ==> #[trigger] w.pending[i] == v.pending[i + 1]
            &&& w == BookView { pending: w.pending, ..v }
            &&& v.pending.len() < 2000 ==> w.snapshot(id, bids, asks, now) == v.snapshot(
                id,
                bids,
                asks,
                now,
            ).delta(d, now)
        }),
        v.pending.len() == 0 ==> {
            let s = v.snapshot(id, bids, asks, now);
            &&& s.status == BookStatus::AwaitingDelta
            &&& s.bids == loaded(bids)
            &&& s.asks == loaded(asks)
            &&& s.last_id == id
            &&& s.last_update == Some(now)
            &&& s.pending.len() == 0
        },
        ({
            let c = v.cleared();
            &&& c.status == BookStatus::Empty
            &&& c.bids.dom() == Set::<Ticks>::empty()
            &&& c.asks.dom() == Set::<Ticks>::empty()
            &&& c.last_id == 0
            &&& c.last_update == v.last_update
            &&& c.pending.len() == 0
        }),
{
    let w = v.delta(d, now);
    if v.pending.len() < 2000 {
        assert(w.pending == v.pending.push(d));
        assert(w.pending.drop_last() =~= v.pending);
    }
    assert(v.cleared().bids.dom() =~= Set::<Ticks>::empty());
    assert(v.cleared().asks.dom() =~= Set::<Ticks>::empty());
}

/// A reset drops all levels and all buffered deltas, whatever the book was.
pub proof fn a_reset_starts_over(v: BookView)
    ensures
        v.cleared().status == BookStatus::Empty,
        forall|p: Ticks| !(#[trigger] v.cleared().bids.contains_key(p)),
        forall|p: Ticks| !(#[trigger] v.cleared().asks.contains_key(p)),
        v.cleared().pending.len() == 0,
        v.cleared().last_id == 0,
        v.cleared().last_update == v.last_update,
{
}

/// Our quantity at a price grows by each of our orders of that side and price, and
/// by no other.
pub proof fn own_orders_add_up(
    own: Seq<(Side, Ticks, i64)>,
    o: (Side, Ticks, i64),
    side: Side,
    price: Ticks,
    m: Map<Ticks, i64>,
)
    ensures
        own_total(seq![], side, price) == 0,
        o.0 == side && o.1 == price ==> own_total(own.push(o), side, price) == own_total(
            own,
            side,
            price,
        ) + o.2,
        o.0 != side || o.1 != price ==> own_total(own.push(o), side, price) == own_total(
            own,
            side,
            price,
        ),
        external(m, seq![], side, price) == m[price],
        o.0 == side && o.1 == price ==> external(m, own.push(o), side, price) == external(
            m,
            own,
            side,
            price,
        ) - o.2,
        o.0 != side || o.1 != price ==> external(m, own.push(o), side, price) == external(
            m,
            own,
            side,
            price,
        ),
{
    assert(own.push(o).drop_last() =~= own);
}

/// A buy meets the asks from the lowest up, a sell the bids from the highest down:
/// every level of that side once, and nothing else.
pub proof fn orders_meet_the_best_level_first(b: LocalBook)
    requires
        b.wf(),
    ensures
        ({
            let buys = against(b@, Side::Buy);
            let sells = against(b@, Side::Sell);
            &&& forall|i: int, j: int|
                0 <= i < j < buys.len() ==> (#[trigger] buys[i]).price < (#[trigger] buys[j]).price
            &&& forall|i: int, j: int|
                0 <= i < j < sells.len() ==> (#[trigger] sells[i]).price > (
                #[trigger] sells[j]).price
            &&& forall|i: int|
                0 <= i < buys.len() ==> b@.asks.contains_key((#[trigger] buys[i]).price)
                    && b@.asks[buys[i].price] == buys[i].size
            &&& forall|i: int|
                0 <= i < sells.len() ==> b@.bids.contains_key((#[trigger] sells[i]).price)
                    && b@.bids[sells[i].price] == sells[i].size
            &&& forall|p: Ticks|
                b@.asks.contains_key(p) ==> exists|i: int|
                    0 <= i < buys.len() && (#[trigger] buys[i]).price == p
            &&& forall|p: Ticks|
                b@.bids.contains_key(p) ==> exists|i: int|
                    0 <= i < sells.len() && (#[trigger] sells[i]).price == p
        }),
{
    let asks = b.asks.levels@;
    let bids = b.bids.levels@;
    assert(is_ladder(asks) && depth(asks) == b@.asks);
    assert(is_ladder(bids) && depth(bids) == b@.bids);
    lemma_ladder_unique(rungs(b@.asks), asks);
    lemma_ladder_unique(rungs(b@.bids), bids);
    let buys = against(b@, Side::Buy);
    let sells = against(b@, Side::Sell);
    assert(buys == asks);
    assert(sells == bids.reverse());
    assert forall|i: int| 0 <= i < buys.len() implies b@.asks.contains_key(
        (#[trigger] buys[i]).price,
    ) && b@.asks[buys[i].price] == buys[i].size by {
        lemma_level(asks, i);
    }
    assert forall|i: int| 0 <= i < sells.len() implies b@.bids.contains_key(
        (#[trigger] sells[i]).price,
    ) && b@.bids[sells[i].price] == sells[i].size by {
        lemma_level(bids, bids.len() - 1 - i);
    }
    assert forall|i: int, j: int| 0 <= i < j < sells.len() implies (#[trigger] sells[i]).price > (
    #[trigger] sells[j]).price by {
        assert(sells[i] == bids[bids.len() - 1 - i]);
        assert(sells[j] == bids[bids.len() - 1 - j]);
    }
    assert forall|p: Ticks| b@.bids.contains_key(p) implies exists|i: int|
        0 <= i < sells.len() && (#[trigger] sells[i]).price == p by {
        let k = level_at(bids, p);
        assert(bids[k].price == p);
        assert(sells[bids.len() - 1 - k] == bids[k]);
    }
}

/// What a level offers to an order: its size without our own orders on the other
/// side, unless its price is worse than the limit or nothing is left.
pub open spec fn at_level(
    l: DepthLevel,
    side: Side,
    own: Seq<(Side, Ticks, i64)>,
    limit: Option<Ticks>,
) -> int {
    let ours = match side {
        Side::Buy => own_total(own, Side::Sell, l.price),
        Side::Sell => own_total(own, Side::Buy, l.price),
    };
    let in_limit = match (side, limit) {
        (_, None) => true,
        (Side::Buy, Some(p)) => l.price <= p,
        (Side::Sell, Some(p)) => l.price >= p,
    };
    if in_limit && l.size > ours {
        l.size - ours
    } else {
        0
    }
}

/// A sweep goes from level to level: each gives what it offers until the order is
/// filled, at its own price, and the last one that gives something is the worst
/// price.
pub proof fn a_sweep_takes_level_by_level(
    ls: Seq<DepthLevel>,
    l: DepthLevel,
    side: Side,
    qty: int,
    own: Seq<(Side, Ticks, i64)>,
    limit: Option<Ticks>,
)
    requires
        qty >= 0,
    ensures
        swept(seq![], side, qty, own, limit) == 0,
        sweep_cost(seq![], side, qty, own, limit) == 0,
        sweep_worst(seq![], side, qty, own, limit) is None,
        ({
            let before = swept(ls, side, qty, own, limit);
            let left = qty - before;
            let here = at_level(l, side, own, limit);
            let taken = if here < left {
                here
            } else {
                left
            };
            &&& 0 <= taken <= here
            &&& swept(ls.push(l), side, qty, own, limit) == before + taken
            &&& sweep_cost(ls.push(l), side, qty, own, limit) == sweep_cost(
                ls,
                side,
                qty,
                own,
                limit,
            ) + taken * l.price
            &&& taken > 0 ==> sweep_worst(ls.push(l), side, qty, own, limit) == Some(l.price)
            &&& taken == 0 ==> sweep_worst(ls.push(l), side, qty, own, limit) == sweep_worst(
                ls,
                side,
                qty,
                own,
                limit,
            )
        }),
        forall|q: int| q < 0 ==> #[trigger] swept(ls, side, q, own, limit) == 0,
{
    lemma_offered(ls, side, own, limit);
    assert(ls.push(l).drop_last() =~= ls);
}

/// The average price is off by at most half a tick, and halves go away from zero.
pub proof fn averages_are_rounded_to_the_nearest_tick(cost: int, filled: int)
    requires
        filled > 0,
    ensures
        ({
            let off = 2 * (nearest(cost, filled) * filled - cost);
            &&& -filled <= off <= filled
            &&& off == filled ==> cost >= 0
            &&& off == -filled ==> cost < 0
        }),
{
    let d = 2 * filled;
    if cost >= 0 {
        let n = 2 * cost + filled;
        let q = n / d;
        assert(q * d <= n < q * d + d) by (nonlinear_arith)
            requires
                d > 0,
                q == n / d,
        ;
        assert(q * d == 2 * (q * filled)) by (nonlinear_arith)
            requires
                d == 2 * filled,
        ;
    } else {
        let n = filled - 2 * cost;
        let q = n / d;
        assert(q * d <= n < q * d + d) by (nonlinear_arith)
            requires
                d > 0,
                q == n / d,
        ;
        assert(q * d == 2 * (q * filled)) by (nonlinear_arith)
            requires
                d == 2 * filled,
        ;
        assert((-q) * filled == -(q * filled)) by (nonlinear_arith);
    }
}

/// Others' best bid is the highest price at which more is bid than we bid, and
/// their best ask the lowest at which more is offered than we offer; there is none
/// only where no such price is.
pub proof fn the_best_prices_of_others(
    bids: Map<Ticks, i64>,
    asks: Map<Ticks, i64>,
    own: Seq<(Side, Ticks, i64)>,
    bid: Option<(Ticks, i64)>,
    ask: Option<(Ticks, i64)>,
    p: Ticks,
)
    requires
        is_external_bid(bids, own, bid),
        is_external_ask(asks, own, ask),
    ensures
        bids.contains_key(p) && bids[p] > own_total(own, Side::Buy, p) ==> (bid matches Some(b) && b.0 >= p),
        bid matches Some(b) ==> bids.contains_key(b.0) && b.1 > 0 && b.1 + own_total(
            own,
            Side::Buy,
            b.0,
        ) == bids[b.0],
        asks.contains_key(p) && asks[p] > own_total(own, Side::Sell, p) ==> (ask matches Some(a) && a.0 <= p),
        ask matches Some(a) ==> asks.contains_key(a.0) && a.1 > 0 && a.1 + own_total(
            own,
            Side::Sell,
            a.0,
        ) == asks[a.0],
{
    assert(external(bids, own, Side::Buy, p) == bids[p] - own_total(own, Side::Buy, p));
    assert(external(asks, own, Side::Sell, p) == asks[p] - own_total(own, Side::Sell, p));
}

} // verus!
