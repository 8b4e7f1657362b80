//! Acceptance metrics: which fills are due for a markout at which horizon,
//! inventory digestion, active exits, fill counts and the snapshot clock. `R`
//! carries fill prices.

use vstd::prelude::*;

use crate::time;
use crate::time::{Duration, Instant};
use crate::types::Side;

verus! {

/// Markout horizons (ms).
pub open spec fn horizon_ms(h: int) -> u64 {
    if h == 0 {
        50
    } else if h == 1 {
        200
    } else {
        1000
    }
}

/// Number of markout horizons.
pub const HORIZONS: usize = 3;

/// Fills kept for markouts.
pub const MAX_PENDING: usize = 10_000;

/// The length of a markout horizon.
pub fn horizon(h: usize) -> (ms: u64)
    ensures
        ms == horizon_ms(h as int),
{
    if h == 0 {
        50
    } else if h == 1 {
        200
    } else {
        1000
    }
}

/// A fill waiting for its markouts. Horizons lengthen, so the first `done` of
/// them have been taken.
#[derive(Debug, Clone, Copy)]
pub struct PendingMarkout<R> {
    pub at: Instant,
    pub side: Side,
    pub price: R,
    pub size: i64,
    pub done: usize,
}

/// A markout to be taken now.
#[derive(Debug, Clone, Copy)]
pub struct DueMarkout<R> {
    pub side: Side,
    pub price: R,
    pub size: i64,
    pub horizon: usize,
}

#[derive(Debug, Clone, Copy, PartialEq, Eq, Structural)]
pub struct DigestionStats {
    pub episodes: u64,
    pub total_ms: u128,
    pub max_ms: u64,
    pub active_reduce_episodes: u64,
}

#[derive(Debug, Clone, Copy, PartialEq, Eq, Structural)]
pub struct ExitStats {
    pub ioc_orders: u64,
    pub ioc_contracts: i64,
    pub market_orders: u64,
}

#[derive(Debug, Clone, Copy, PartialEq, Eq, Structural)]
pub struct FillStats {
    pub maker_fills: u64,
    pub maker_contracts: i64,
    pub taker_fills: u64,
    pub taker_contracts: i64,
}

impl Default for DigestionStats {
    fn default() -> (r: Self)
        ensures
            r == (DigestionStats {
                episodes: 0,
                total_ms: 0,
                max_ms: 0,
                active_reduce_episodes: 0,
            }),
    {
        DigestionStats { episodes: 0, total_ms: 0, max_ms: 0, active_reduce_episodes: 0 }
    }
}

impl Default for ExitStats {
    fn default() -> (r: Self)
        ensures
            r == (ExitStats { ioc_orders: 0, ioc_contracts: 0, market_orders: 0 }),
    {
        ExitStats { ioc_orders: 0, ioc_contracts: 0, market_orders: 0 }
    }
}

impl Default for FillStats {
    fn default() -> (r: Self)
        ensures
            r == (FillStats {
                maker_fills: 0,
                maker_contracts: 0,
                taker_fills: 0,
                taker_contracts: 0,
            }),
    {
        FillStats { maker_fills: 0, maker_contracts: 0, taker_fills: 0, taker_contracts: 0 }
    }
}

pub struct Metrics<R> {
    pub pending: Vec<PendingMarkout<R>>,
    /// Buys and sells whose first markout has been taken.
    pub buy_count: u64,
    pub sell_count: u64,
    pub digestion: DigestionStats,
    pub exit: ExitStats,
    pub fills: FillStats,
    pub last_snapshot: Option<Instant>,
    pub interval: Duration,
    pub started: Instant,
}

/// Horizons reached by a fill of this age, none skipped.
pub open spec fn reached_horizons(at: Instant, now: Instant) -> int {
    if !time::reached(at, now, 50) {
        0
    } else if !time::reached(at, now, 200) {
        1
    } else if !time::reached(at, now, 1000) {
        2
    } else {
        3
    }
}

/// Markouts of one fill, from horizon `from` up to `to`.
pub open spec fn markouts_of<R>(p: PendingMarkout<R>, from: int, to: int) -> Seq<DueMarkout<R>>
    decreases to - from,
{
    if from >= to {
        seq![]
    } else {
        markouts_of(p, from, to - 1).push(
            DueMarkout { side: p.side, price: p.price, size: p.size, horizon: (to - 1) as usize },
        )
    }
}

/// A fill with every horizon reached by now taken.
pub open spec fn advanced<R>(p: PendingMarkout<R>, now: Instant) -> PendingMarkout<R> {
    let n = reached_horizons(p.at, now);
    PendingMarkout {
        done: if n > p.done {
            n as usize
        } else {
            p.done
        },
        ..p
    }
}

/// All markouts due now, oldest fill first.
pub open spec fn due_of<R>(ps: Seq<PendingMarkout<R>>, now: Instant) -> Seq<DueMarkout<R>>
    decreases ps.len(),
{
    if ps.len() == 0 {
        seq![]
    } else {
        due_of(ps.drop_last(), now) + markouts_of(
            ps.last(),
            ps.last().done as int,
            reached_horizons(ps.last().at, now),
        )
    }
}

/// Fills without the leading ones whose markouts have all been taken.
pub open spec fn unfinished<R>(ps: Seq<PendingMarkout<R>>) -> Seq<PendingMarkout<R>>
    decreases ps.len(),
{
    if ps.len() > 0 && ps[0].done >= HORIZONS {
        unfinished(ps.subrange(1, ps.len() as int))
    } else {
        ps
    }
}

/// First markouts of a side among those due now.
pub open spec fn first_markouts<R>(ps: Seq<PendingMarkout<R>>, side: Side, now: Instant) -> int
    decreases ps.len(),
{
    if ps.len() == 0 {
        0
    } else {
        first_markouts(ps.drop_last(), side, now) + (if ps.last().side == side && ps.last().done
            == 0 && reached_horizons(ps.last().at, now) > 0 {
            1int
        } else {
            0
        })
    }
}

impl<R: Copy> Metrics<R> {
    pub fn new(interval: Duration, started: Instant) -> (m: Metrics<R>)
        ensures
            m.pending@.len() == 0,
            m.buy_count == 0,
            m.sell_count == 0,
            call_ensures(DigestionStats::default, (), m.digestion),
            call_ensures(ExitStats::default, (), m.exit),
            call_ensures(FillStats::default, (), m.fills),
            m.last_snapshot is None,
            m.interval == interval,
            m.started == started,
    {
        Metrics {
            pending: Vec::new(),
            buy_count: 0,
            sell_count: 0,
            digestion: DigestionStats::default(),
            exit: ExitStats::default(),
            fills: FillStats::default(),
            last_snapshot: None,
            interval,
            started,
        }
    }

    /// Counts a fill and keeps it for its markouts; beyond the limit the oldest
    /// one is dropped.
    pub fn on_fill(&mut self, side: Side, price: R, size: i64, is_maker: bool, at: Instant)
        requires
            old(self).fills.maker_fills < u64::MAX,
            old(self).fills.taker_fills < u64::MAX,
            i64::MIN <= old(self).fills.maker_contracts + size <= i64::MAX,
            i64::MIN <= old(self).fills.taker_contracts + size <= i64::MAX,
            old(self).pending@.len() <= MAX_PENDING,
        ensures
            final(self).fills == (if is_maker {
                FillStats {
                    maker_fills: (old(self).fills.maker_fills + 1) as u64,
                    maker_contracts: (old(self).fills.maker_contracts + size) as i64,
                    ..old(self).fills
                }
            } else {
                FillStats {
                    taker_fills: (old(self).fills.taker_fills + 1) as u64,
                    taker_contracts: (old(self).fills.taker_contracts + size) as i64,
                    ..old(self).fills
                }
            }),
            ({
                let all = old(self).pending@.push(
                    PendingMarkout { at, side, price, size, done: 0 },
                );
                final(self).pending@ == (if all.len() > MAX_PENDING {
                    all.remove(0)
                } else {
                    all
                })
            }),
            final(self).pending@.len() <= MAX_PENDING,
            final(self).buy_count == old(self).buy_count,
            final(self).sell_count == old(self).sell_count,
            final(self).digestion == old(self).digestion,
            final(self).exit == old(self).exit,
            final(self).last_snapshot == old(self).last_snapshot,
            final(self).interval == old(self).interval,
            final(self).started == old(self).started,
    {
        if is_maker {
            self.fills.maker_fills = self.fills.maker_fills + 1;
            self.fills.maker_contracts = self.fills.maker_contracts + size;
        } else {
            self.fills.taker_fills = self.fills.taker_fills + 1;
            self.fills.taker_contracts = self.fills.taker_contracts + size;
        }
        self.pending.push(PendingMarkout { at, side, price, size, done: 0 });
        if self.pending.len() > MAX_PENDING {
            self.pending.remove(0);
        }
    }

    fn horizons_reached(at: Instant, now: Instant) -> (n: usize)
        ensures
            n == reached_horizons(at, now),
    {
        if !now.reached_since(at, 50) {
            0
        } else if !now.reached_since(at, 200) {
            1
        } else if !now.reached_since(at, 1000) {
            2
        } else {
            3
        }
    }

    /// Takes every markout that has become due, oldest fill first, and drops the
    /// leading fills that have none left.
    pub fn due_markouts(&mut self, now: Instant) -> (r: Vec<DueMarkout<R>>)
        requires
            old(self).buy_count + old(self).pending@.len() <= u64::MAX,
            old(self).sell_count + old(self).pending@.len() <= u64::MAX,
        ensures
            r@ == due_of(old(self).pending@, now),
            final(self).pending@ == unfinished(
                old(self).pending@.map_values(|p: PendingMarkout<R>| advanced(p, now)),
            ),
            final(self).buy_count == old(self).buy_count + first_markouts(
                old(self).pending@,
                Side::Buy,
                now,
            ),
            final(self).sell_count == old(self).sell_count + first_markouts(
                old(self).pending@,
                Side::Sell,
                now,
            ),
            final(self).fills == old(self).fills,
            final(self).digestion == old(self).digestion,
            final(self).exit == old(self).exit,
            final(self).last_snapshot == old(self).last_snapshot,
            final(self).interval == old(self).interval,
            final(self).started == old(self).started,
    {
        let ghost ps = self.pending@;
        let mut r: Vec<DueMarkout<R>> = Vec::new();
        let mut i: usize = 0;
        assert(ps.take(0) =~= seq![]);
        while i < self.pending.len()
            invariant
                i <= self.pending.len(),
                self.pending@.len() == ps.len(),
                forall|j: int| 0 <= j < i ==> self.pending@[j] == advanced(ps[j], now),
                forall|j: int| i <= j < ps.len() ==> self.pending@[j] == ps[j],
                r@ == due_of(ps.take(i as int), now),
                old(self).buy_count + ps.len() <= u64::MAX,
                old(self).sell_count + ps.len() <= u64::MAX,
                self.buy_count == old(self).buy_count + first_markouts(
                    ps.take(i as int),
                    Side::Buy,
                    now,
                ),
                self.sell_count == old(self).sell_count + first_markouts(
                    ps.take(i as int),
                    Side::Sell,
                    now,
                ),
                0 <= first_markouts(ps.take(i as int), Side::Buy, now) <= i,
                0 <= first_markouts(ps.take(i as int), Side::Sell, now) <= i,
                self.fills == old(self).fills,
                self.digestion == old(self).digestion,
                self.exit == old(self).exit,
                self.last_snapshot == old(self).last_snapshot,
                self.interval == old(self).interval,
                self.started == old(self).started,
            decreases self.pending.len() - i,
        {
            let p = self.pending[i];
            let n: usize = Self::horizons_reached(p.at, now);
            if p.done == 0 && n > 0 {
                match p.side {
                    Side::Buy => {
                        self.buy_count = self.buy_count + 1;
                    },
                    Side::Sell => {
                        self.sell_count = self.sell_count + 1;
                    },
                }
            }
            let ghost before = r@;
            let mut h: usize = p.done;
            assert(before + markouts_of(p, p.done as int, h as int) =~= before);
            while h < n
                invariant
                    p.done <= h,
                    h <= n || h == p.done,
                    r@ == before + markouts_of(p, p.done as int, h as int),
                decreases n - h,
            {
                r.push(DueMarkout { side: p.side, price: p.price, size: p.size, horizon: h });
                h = h + 1;
                assert(r@ =~= before + markouts_of(p, p.done as int, h as int));
            }
            if n > p.done {
                self.pending[i].done = n;
            } else {
                assert(markouts_of(p, p.done as int, n as int) =~= seq![]);
            }
            i = i + 1;
            proof {
                assert(ps.take(i as int).drop_last() =~= ps.take(i - 1));
                assert(ps.take(i as int).last() == ps[i - 1]);
            }
        }
        assert(ps.take(i as int) =~= ps);
        let ghost all = ps.map_values(|p: PendingMarkout<R>| advanced(p, now));
        assert(self.pending@ =~= all);
        loop
            invariant
                unfinished(self.pending@) == unfinished(all),
                self.buy_count == old(self).buy_count + first_markouts(ps, Side::Buy, now),
                self.sell_count == old(self).sell_count + first_markouts(ps, Side::Sell, now),
                self.fills == old(self).fills,
                self.digestion == old(self).digestion,
                self.exit == old(self).exit,
                self.last_snapshot == old(self).last_snapshot,
                self.interval == old(self).interval,
                self.started == old(self).started,
            ensures
                self.pending@ == unfinished(all),
                self.buy_count == old(self).buy_count + first_markouts(ps, Side::Buy, now),
                self.sell_count == old(self).sell_count + first_markouts(ps, Side::Sell, now),
                self.fills == old(self).fills,
                self.digestion == old(self).digestion,
                self.exit == old(self).exit,
                self.last_snapshot == old(self).last_snapshot,
                self.interval == old(self).interval,
                self.started == old(self).started,
            decreases self.pending@.len(),
        {
            if self.pending.len() == 0 || self.pending[0].done < HORIZONS {
                break;
            }
            let ghost was = self.pending@;
            self.pending.remove(0);
            assert(self.pending@ =~= was.subrange(1, was.len() as int));
        }
        r
    }

    /// An inventory episode outside the band ended after `dur`.
    pub fn on_digestion_episode(&mut self, dur: Duration, used_active_reduce: bool)
        requires
            old(self).digestion.episodes < u64::MAX,
            old(self).digestion.active_reduce_episodes < u64::MAX,
            dur.nanos / time::NANOS_PER_MILLI <= u64::MAX,
            old(self).digestion.total_ms + u64::MAX <= u128::MAX,
        ensures
            ({
                let ms = dur.nanos / time::NANOS_PER_MILLI;
                let was = old(self).digestion;
                final(self).digestion == DigestionStats {
                    episodes: (was.episodes + 1) as u64,
                    total_ms: (was.total_ms + ms) as u128,
                    max_ms: if ms > was.max_ms {
                        ms as u64
                    } else {
                        was.max_ms
                    },
                    active_reduce_episodes: if used_active_reduce {
                        (was.active_reduce_episodes + 1) as u64
                    } else {
                        was.active_reduce_episodes
                    },
                }
            }),
            final(self).pending == old(self).pending,
            final(self).exit == old(self).exit,
            final(self).fills == old(self).fills,
            final(self).buy_count == old(self).buy_count,
            final(self).sell_count == old(self).sell_count,
            final(self).last_snapshot == old(self).last_snapshot,
            final(self).interval == old(self).interval,
            final(self).started == old(self).started,
    {
        let ms: u128 = dur.as_millis();
        self.digestion.episodes = self.digestion.episodes + 1;
        self.digestion.total_ms = self.digestion.total_ms + ms;
        if ms > self.digestion.max_ms as u128 {
            self.digestion.max_ms = ms as u64;
        }
        if used_active_reduce {
            self.digestion.active_reduce_episodes = self.digestion.active_reduce_episodes + 1;
        }
    }

    /// Counts a fill of an exit order.
    pub fn on_exit_fill(&mut self, size: i64, was_market: bool)
        requires
            i64::MIN <= old(self).exit.ioc_contracts + size <= i64::MAX,
            old(self).exit.ioc_orders < u64::MAX,
            old(self).exit.market_orders < u64::MAX,
        ensures
            final(self).exit == (ExitStats {
                ioc_contracts: (old(self).exit.ioc_contracts + size) as i64,
                ioc_orders: if was_market {
                    old(self).exit.ioc_orders
                } else {
                    (old(self).exit.ioc_orders + 1) as u64
                },
                market_orders: if was_market {
                    (old(self).exit.market_orders + 1) as u64
                } else {
                    old(self).exit.market_orders
                },
            }),
            final(self).pending == old(self).pending,
            final(self).digestion == old(self).digestion,
            final(self).fills == old(self).fills,
            final(self).buy_count == old(self).buy_count,
            final(self).sell_count == old(self).sell_count,
            final(self).last_snapshot == old(self).last_snapshot,
            final(self).interval == old(self).interval,
            final(self).started == old(self).started,
    {
        self.exit.ioc_contracts = self.exit.ioc_contracts + size;
        if was_market {
            self.exit.market_orders = self.exit.market_orders + 1;
        } else {
            self.exit.ioc_orders = self.exit.ioc_orders + 1;
        }
    }

    pub open spec fn due(self, now: Instant) -> bool {
        match self.last_snapshot {
            Some(t) => time::elapsed(t, now).nanos >= self.interval.nanos,
            None => true,
        }
    }

    /// Whether the next snapshot is due.
    pub fn snapshot_due(&self, now: Instant) -> (r: bool)
        ensures
            r == self.due(now),
    {
        match self.last_snapshot {
            Some(t) => now.saturating_duration_since(t).nanos >= self.interval.nanos,
            None => true,
        }
    }

    /// A snapshot was written.
    pub fn snapshot_taken(&mut self, now: Instant)
        ensures
            final(self).last_snapshot == Some(now),
            final(self).interval == old(self).interval,
            final(self).pending == old(self).pending,
            final(self).digestion == old(self).digestion,
            final(self).exit == old(self).exit,
            final(self).fills == old(self).fills,
            final(self).buy_count == old(self).buy_count,
            final(self).sell_count == old(self).sell_count,
            final(self).started == old(self).started,
    {
        self.last_snapshot = Some(now);
    }

    /// Time since the start.
    pub fn uptime(&self, now: Instant) -> (r: Duration)
        ensures
            r == time::elapsed(self.started, now),
    {
        now.saturating_duration_since(self.started)
    }
}

/// No markout of a fill is taken twice: once its horizons are advanced, nothing
/// is due at the same time again.
pub proof fn markouts_are_taken_once<R>(p: PendingMarkout<R>, now: Instant)
    ensures
        due_of(seq![advanced(p, now)], now).len() == 0,
{
    let s = seq![advanced(p, now)];
    assert(s.drop_last() =~= seq![]);
    assert(s.last() == advanced(p, now));
    assert(due_of(s.drop_last(), now).len() == 0);
}

/// A fill has a markout after fifty and two hundred milliseconds and after a second;
/// a horizon is reached once its time has passed.
pub proof fn markouts_are_due_at_their_horizons(at: Instant, now: Instant, h: int)
    ensures
        horizon_ms(0) == 50 && horizon_ms(1) == 200 && horizon_ms(2) == 1000,
        0 <= h < 3 ==> (h < reached_horizons(at, now) <==> now.nanos - at.nanos >= horizon_ms(h)
            * 1_000_000),
        0 <= reached_horizons(at, now) <= 3,
{
}

/// Every horizon that a fill has newly reached is due once, in order, with the
/// fill's side, price and size; afterwards it counts as taken.
pub proof fn new_horizons_are_due_once<R>(
    ps: Seq<PendingMarkout<R>>,
    p: PendingMarkout<R>,
    now: Instant,
    h: int,
)
    requires
        p.done <= 3,
    ensures
        due_of(Seq::<PendingMarkout<R>>::empty(), now).len() == 0,
        ({
            let n = reached_horizons(p.at, now);
            let was = due_of(ps, now);
            let all = due_of(ps.push(p), now);
            let fresh = if n > p.done {
                n - p.done
            } else {
                0
            };
            &&& all.len() == was.len() + fresh
            &&& all.take(was.len() as int) == was
            &&& p.done <= h < n ==> {
                let d = all[was.len() + h - p.done];
                d.side == p.side && d.price == p.price && d.size == p.size && d.horizon == h
            }
        }),
        ({
            let a = advanced(p, now);
            &&& a.at == p.at && a.side == p.side && a.price == p.price && a.size == p.size
            &&& a.done >= p.done && a.done >= reached_horizons(p.at, now)
            &&& a.done == p.done || a.done == reached_horizons(p.at, now)
        }),
{
    let n = reached_horizons(p.at, now);
    assert(ps.push(p).drop_last() =~= ps);
    lemma_markouts(p, p.done as int, n, h);
    assert(due_of(ps.push(p), now).take(due_of(ps, now).len() as int) =~= due_of(ps, now));
}

proof fn lemma_markouts<R>(p: PendingMarkout<R>, from: int, to: int, h: int)
    requires
        0 <= from,
        to <= 3,
    ensures
        markouts_of(p, from, to).len() == (if to > from {
            to - from
        } else {
            0
        }),
        from <= h < to ==> {
            let d = markouts_of(p, from, to)[h - from];
            d.side == p.side && d.price == p.price && d.size == p.size && d.horizon == h
        },
    decreases to - from,
{
    if from < to {
        lemma_markouts(p, from, to - 1, h);
    }
}

/// Leading fills without a markout left are dropped; the first that has one, and
/// all behind it, stay.
pub proof fn finished_fills_are_dropped_from_the_front<R>(ps: Seq<PendingMarkout<R>>)
    ensures
        ({
            let rest = unfinished(ps);
            let gone = ps.len() - rest.len();
            &&& 0 <= gone
            &&& rest == ps.subrange(gone, ps.len() as int)
            &&& forall|i: int| 0 <= i < gone ==> (#[trigger] ps[i]).done >= 3
            &&& rest.len() > 0 ==> rest[0].done < 3
        }),
    decreases ps.len(),
{
    if ps.len() > 0 && ps[0].done >= 3 {
        let tail = ps.subrange(1, ps.len() as int);
        finished_fills_are_dropped_from_the_front(tail);
        let rest = unfinished(tail);
        let gone = ps.len() - rest.len();
        assert(unfinished(ps) == rest);
        assert(rest =~= ps.subrange(gone, ps.len() as int));
        assert forall|i: int| 0 <= i < gone implies (#[trigger] ps[i]).done >= 3 by {
            if i > 0 {
                assert(tail[i - 1] == ps[i]);
            }
        }
    } else {
        assert(unfinished(ps) == ps);
        assert(ps.subrange(0, ps.len() as int) =~= ps);
    }
}

/// A fill counts for its own side once, when its first markout is taken.
pub proof fn first_markouts_count_their_side<R>(
    ps: Seq<PendingMarkout<R>>,
    p: PendingMarkout<R>,
    side: Side,
    now: Instant,
)
    ensures
        first_markouts(Seq::<PendingMarkout<R>>::empty(), side, now) == 0,
        p.side == side && p.done == 0 && now.nanos - p.at.nanos >= 50_000_000 ==> first_markouts(
            ps.push(p),
            side,
            now,
        ) == first_markouts(ps, side, now) + 1,
        p.side != side || p.done != 0 || now.nanos - p.at.nanos < 50_000_000 ==> first_markouts(
            ps.push(p),
            side,
            now,
        ) == first_markouts(ps, side, now),
{
    assert(ps.push(p).drop_last() =~= ps);
}

/// A snapshot is due at first and then whenever the interval has passed.
pub proof fn snapshots_are_due_by_the_interval<R: Copy>(m: Metrics<R>, now: Instant)
    ensures
        m.due(now) <==> (m.last_snapshot matches Some(t) ==> m.interval.nanos == 0 || now.nanos
            - t.nanos >= m.interval.nanos),
{
}

} // verus!
