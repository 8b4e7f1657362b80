//! Inventory model for Gate dual-position mode.
//!
//! `long` and `short` are contract counts and net inventory is their
//! difference. The band timer starts when the inventory leaves the band and is
//! cleared only once it is back inside **and** no risk-adding order is pending.

use vstd::prelude::*;

use crate::config;
use crate::order::model;
use crate::order::model::MAX_CONTRACTS;
use crate::time;
use crate::time::{Duration, Instant};
use crate::types::Side;

verus! {

#[derive(Debug, Clone, Copy, PartialEq, Eq, Structural)]
pub struct Positions {
    pub long: i64,
    pub short: i64,
}

/// What a fill did to the positions. `side` names the position: a buy is the
/// long one, a sell the short one.
#[derive(Debug, Clone, Copy, PartialEq, Eq, Structural)]
pub enum FillEffect {
    Nothing,
    /// `qty` contracts were added to `before`.
    Opened { side: Side, before: i64, qty: i64 },
    /// `qty` contracts were closed and `left` remain; `excess` contracts of the
    /// fill had no position to close.
    Closed { side: Side, qty: i64, left: i64, excess: i64 },
}

impl Positions {
    pub open spec fn flat() -> Positions {
        Positions { long: 0, short: 0 }
    }

    /// Both positions are admitted counts.
    pub open spec fn wf(self) -> bool {
        model::is_count(self.long as int) && model::is_count(self.short as int)
    }

    pub open spec fn spec_net(self) -> int {
        self.long - self.short
    }

    pub open spec fn spec_gross(self) -> int {
        self.long + self.short
    }

    pub fn is_valid(&self) -> (r: bool)
        ensures
            r == self.wf(),
    {
        0 <= self.long && self.long <= MAX_CONTRACTS && 0 <= self.short && self.short
            <= MAX_CONTRACTS
    }

    /// Long minus short contracts.
    pub fn net(&self) -> (r: i64)
        requires
            self.wf(),
        ensures
            r == self.spec_net(),
    {
        self.long - self.short
    }

    /// Long plus short contracts.
    pub fn gross(&self) -> (r: i64)
        requires
            self.wf(),
        ensures
            r == self.spec_gross(),
    {
        self.long + self.short
    }

    pub fn is_flat(&self) -> (r: bool)
        ensures
            r == (self.long == 0 && self.short == 0),
    {
        self.long == 0 && self.short == 0
    }

    /// The positions after a fill, and what the fill did to them.
    pub open spec fn filled(self, signed_size: int, reduce: bool) -> (Positions, FillEffect) {
        if signed_size > 0 {
            if reduce {
                let q = if signed_size <= self.short {
                    signed_size
                } else {
                    self.short as int
                };
                let left = (self.short - q) as i64;
                (
                    Positions { short: left, ..self },
                    FillEffect::Closed {
                        side: Side::Sell,
                        qty: q as i64,
                        left,
                        excess: (signed_size - q) as i64,
                    },
                )
            } else {
                (
                    Positions { long: (self.long + signed_size) as i64, ..self },
                    FillEffect::Opened {
                        side: Side::Buy,
                        before: self.long,
                        qty: signed_size as i64,
                    },
                )
            }
        } else if signed_size < 0 {
            let size = -signed_size;
            if reduce {
                let q = if size <= self.long {
                    size
                } else {
                    self.long as int
                };
                let left = (self.long - q) as i64;
                (
                    Positions { long: left, ..self },
                    FillEffect::Closed {
                        side: Side::Buy,
                        qty: q as i64,
                        left,
                        excess: (size - q) as i64,
                    },
                )
            } else {
                (
                    Positions { short: (self.short + size) as i64, ..self },
                    FillEffect::Opened { side: Side::Sell, before: self.short, qty: size as i64 },
                )
            }
        } else {
            (self, FillEffect::Nothing)
        }
    }

    /// A fill that the positions can take within the admitted counts.
    pub open spec fn admits_fill(self, signed_size: int, reduce: bool) -> bool {
        &&& -MAX_CONTRACTS <= signed_size <= MAX_CONTRACTS
        &&& !reduce ==> {
            &&& signed_size > 0 ==> self.long + signed_size <= MAX_CONTRACTS
            &&& signed_size < 0 ==> self.short - signed_size <= MAX_CONTRACTS
        }
    }

    pub fn can_fill(&self, signed_size: i64, reduce: bool) -> (r: bool)
        requires
            self.wf(),
        ensures
            r == self.admits_fill(signed_size as int, reduce),
    {
        -MAX_CONTRACTS <= signed_size && signed_size <= MAX_CONTRACTS && (reduce || ((signed_size
            <= 0 || self.long + signed_size <= MAX_CONTRACTS) && (signed_size >= 0 || self.short
            - signed_size <= MAX_CONTRACTS)))
    }

    /// Apply a fill in dual mode. A reducing fill closes the opposite side and
    /// never opens a position: what exceeds the known position is dropped, and
    /// exchange position snapshots reconcile the rest. An opening fill adds to
    /// its own side.
    pub fn apply_fill(&mut self, signed_size: i64, reduce: bool) -> (r: FillEffect)
        requires
            old(self).wf(),
            old(self).admits_fill(signed_size as int, reduce),
        ensures
            (*final(self), r) == old(self).filled(signed_size as int, reduce),
            final(self).wf(),
    {
        if signed_size > 0 {
            if reduce {
                let q: i64 = if signed_size <= self.short {
                    signed_size
                } else {
                    self.short
                };
                self.short = self.short - q;
                FillEffect::Closed {
                    side: Side::Sell,
                    qty: q,
                    left: self.short,
                    excess: signed_size - q,
                }
            } else {
                let before: i64 = self.long;
                self.long = before + signed_size;
                FillEffect::Opened { side: Side::Buy, before, qty: signed_size }
            }
        } else if signed_size < 0 {
            let size: i64 = -signed_size;
            if reduce {
                let q: i64 = if size <= self.long {
                    size
                } else {
                    self.long
                };
                self.long = self.long - q;
                FillEffect::Closed { side: Side::Buy, qty: q, left: self.long, excess: size - q }
            } else {
                let before: i64 = self.short;
                self.short = before + size;
                FillEffect::Opened { side: Side::Sell, before, qty: size }
            }
        } else {
            FillEffect::Nothing
        }
    }
}

impl Default for Positions {
    fn default() -> (r: Self)
        ensures
            r == Positions::flat(),
    {
        Positions { long: 0, short: 0 }
    }
}

/// A reducing fill never opens or enlarges a position, and an opening fill
/// never closes one.
pub proof fn reduce_only_never_opens(p: Positions, signed_size: int)
    requires
        p.wf(),
        p.admits_fill(signed_size, false),
    ensures
        p.filled(signed_size, true).0.long <= p.long,
        p.filled(signed_size, true).0.short <= p.short,
        p.filled(signed_size, true).0.wf(),
        p.filled(signed_size, false).0.long >= p.long,
        p.filled(signed_size, false).0.short >= p.short,
        p.filled(signed_size, false).0.spec_net() == p.spec_net() + signed_size,
{
}

/// Pending (not yet final) order quantities that could still change inventory.
#[derive(Debug, Clone, Copy, PartialEq, Eq, Structural)]
pub struct PendingExposure {
    /// Contracts of risk-adding buy orders (open long).
    pub open_buy: i128,
    /// Contracts of risk-adding sell orders (open short).
    pub open_sell: i128,
    /// Contracts of reduce-only buys (closing short).
    pub reduce_buy: i128,
    /// Contracts of reduce-only sells (closing long).
    pub reduce_sell: i128,
}

impl PendingExposure {
    /// Counts, whose sum leaves room for positions to be added to it.
    pub open spec fn wf(self) -> bool {
        &&& 0 <= self.open_buy
        &&& 0 <= self.open_sell
        &&& 0 <= self.reduce_buy
        &&& 0 <= self.reduce_sell
        &&& self.open_buy + self.open_sell + self.reduce_buy + self.reduce_sell <= u64::MAX
            * i64::MAX
    }

    pub open spec fn none() -> PendingExposure {
        PendingExposure { open_buy: 0, open_sell: 0, reduce_buy: 0, reduce_sell: 0 }
    }
}

impl Default for PendingExposure {
    fn default() -> (r: Self)
        ensures
            r == PendingExposure::none(),
    {
        PendingExposure { open_buy: 0, open_sell: 0, reduce_buy: 0, reduce_sell: 0 }
    }
}

/// `a` less `b`, but not below zero.
pub open spec fn less(a: int, b: int) -> int {
    if a >= b {
        a - b
    } else {
        0
    }
}

/// Net inventory if every buy order filled and no sell did, and the other way
/// round. A reduce-only order closes at most the position.
pub open spec fn worst_net(p: Positions, e: PendingExposure) -> (int, int) {
    (
        p.long + e.open_buy - less(p.short as int, e.reduce_buy as int),
        less(p.long as int, e.reduce_sell as int) - (p.short + e.open_sell),
    )
}

/// Contracts that `room` leaves, none when it is negative.
pub open spec fn room_left(net_room: int, gross_room: int) -> int {
    let m = if net_room <= gross_room {
        net_room
    } else {
        gross_room
    };
    if m > 0 {
        m
    } else {
        0
    }
}

/// Further open-buy contracts within the net cap and the gross cap.
pub open spec fn buy_capacity(
    p: Positions,
    e: PendingExposure,
    h_contracts: int,
    gross_contracts: int,
) -> int {
    room_left(
        h_contracts - worst_net(p, e).0,
        gross_contracts - (p.spec_gross() + e.open_buy + e.open_sell),
    )
}

/// Further open-sell contracts within the net cap and the gross cap.
pub open spec fn sell_capacity(
    p: Positions,
    e: PendingExposure,
    h_contracts: int,
    gross_contracts: int,
) -> int {
    room_left(
        h_contracts + worst_net(p, e).1,
        gross_contracts - (p.spec_gross() + e.open_buy + e.open_sell),
    )
}

/// Whatever fills, orders within the capacity keep the worst case inside both
/// caps, as far as it was inside them before.
pub proof fn capacity_keeps_the_worst_case_inside(
    p: Positions,
    e: PendingExposure,
    h_contracts: int,
    gross_contracts: int,
    extra: i128,
)
    requires
        p.wf(),
        e.wf(),
        0 < extra,
        e.open_buy + extra <= i128::MAX,
        e.open_sell + extra <= i128::MAX,
    ensures
        extra <= buy_capacity(p, e, h_contracts, gross_contracts) ==> {
            let n = PendingExposure { open_buy: (e.open_buy + extra) as i128, ..e };
            &&& worst_net(p, n).0 <= h_contracts
            &&& p.spec_gross() + n.open_buy + n.open_sell <= gross_contracts
        },
        extra <= sell_capacity(p, e, h_contracts, gross_contracts) ==> {
            let n = PendingExposure { open_sell: (e.open_sell + extra) as i128, ..e };
            &&& -h_contracts <= worst_net(p, n).1
            &&& p.spec_gross() + n.open_buy + n.open_sell <= gross_contracts
        },
{
}

#[derive(Debug, Clone, Copy)]
pub struct InventoryState {
    pub pos: Positions,
    pub cfg: config::Inventory,
    pub band_since: Option<Instant>,
    /// When the inventory last left the band (for digestion-time metrics).
    pub episode_start: Option<Instant>,
}

impl InventoryState {
    pub fn new(cfg: config::Inventory) -> (r: InventoryState)
        ensures
            r == (InventoryState {
                pos: Positions::flat(),
                cfg,
                band_since: None,
                episode_start: None,
            }),
    {
        InventoryState { pos: Positions::default(), cfg, band_since: None, episode_start: None }
    }

    /// The state after the band timer has seen whether the inventory is inside
    /// the band and how much risk-adding quantity is still pending.
    pub open spec fn ticked(self, in_band: bool, pending_adds: int, now: Instant) -> InventoryState {
        if !in_band && self.band_since is None {
            InventoryState { band_since: Some(now), episode_start: Some(now), ..self }
        } else if in_band && pending_adds == 0 {
            InventoryState { band_since: None, ..self }
        } else {
            self
        }
    }

    /// Update the band timer. Returns the time spent outside the band so far.
    pub fn tick(&mut self, in_band: bool, pending_open_adds: i128, now: Instant) -> (r: Option<
        Duration,
    >)
        ensures
            *final(self) == old(self).ticked(in_band, pending_open_adds as int, now),
            r == (match final(self).band_since {
                Some(t) => Some(time::elapsed(t, now)),
                None => None,
            }),
    {
        if !in_band {
            if self.band_since.is_none() {
                self.band_since = Some(now);
                self.episode_start = Some(now);
            }
        } else if pending_open_adds == 0 {
            self.band_since = None;
        }
        match self.band_since {
            Some(t) => Some(now.saturating_duration_since(t)),
            None => None,
        }
    }

    pub open spec fn timed_out(self, now: Instant) -> bool {
        self.band_since matches Some(t) && time::reached(t, now, self.cfg.band_timeout_ms)
    }

    /// Whether the band timeout has elapsed.
    pub fn band_timed_out(&self, now: Instant) -> (r: bool)
        ensures
            r == self.timed_out(now),
    {
        match self.band_since {
            Some(t) => now.reached_since(t, self.cfg.band_timeout_ms),
            None => false,
        }
    }

    pub open spec fn cleared(self) -> InventoryState {
        InventoryState { band_since: None, episode_start: None, ..self }
    }

    pub fn clear_episode(&mut self)
        ensures
            *final(self) == old(self).cleared(),
    {
        self.band_since = None;
        self.episode_start = None;
    }

    /// Worst-case net inventory (contracts) if every buy order filled and no sell
    /// did, and the other way round. Reduce-only orders cannot flip a side.
    pub fn worst_case(&self, pend: PendingExposure) -> (r: (i128, i128))
        requires
            self.pos.wf(),
            pend.wf(),
        ensures
            (r.0 as int, r.1 as int) == worst_net(self.pos, pend),
    {
        let long: i128 = self.pos.long as i128;
        let short: i128 = self.pos.short as i128;
        let long_after: i128 = if long >= pend.reduce_sell {
            long - pend.reduce_sell
        } else {
            0
        };
        let short_after: i128 = if short >= pend.reduce_buy {
            short - pend.reduce_buy
        } else {
            0
        };
        (long + pend.open_buy - short_after, long_after - (short + pend.open_sell))
    }

    fn positive_min(a: i128, b: i128) -> (r: i128)
        ensures
            r == room_left(a as int, b as int),
    {
        let m: i128 = if a <= b {
            a
        } else {
            b
        };
        if m > 0 {
            m
        } else {
            0
        }
    }

    /// Further open-buy contracts allowed by the net cap and the gross cap, both
    /// given in contracts.
    pub fn open_buy_capacity(
        &self,
        pend: PendingExposure,
        h_contracts: i64,
        gross_contracts: i64,
    ) -> (r: i128)
        requires
            self.pos.wf(),
            pend.wf(),
        ensures
            r == buy_capacity(self.pos, pend, h_contracts as int, gross_contracts as int),
    {
        let (worst_long, _) = self.worst_case(pend);
        let net_room: i128 = h_contracts as i128 - worst_long;
        let gross_room: i128 = gross_contracts as i128 - (self.pos.gross() as i128 + pend.open_buy
            + pend.open_sell);
        Self::positive_min(net_room, gross_room)
    }

    /// Further open-sell contracts allowed by the net cap and the gross cap, both
    /// given in contracts.
    pub fn open_sell_capacity(
        &self,
        pend: PendingExposure,
        h_contracts: i64,
        gross_contracts: i64,
    ) -> (r: i128)
        requires
            self.pos.wf(),
            pend.wf(),
        ensures
            r == sell_capacity(self.pos, pend, h_contracts as int, gross_contracts as int),
    {
        let (_, worst_short) = self.worst_case(pend);
        let net_room: i128 = h_contracts as i128 + worst_short;
        let gross_room: i128 = gross_contracts as i128 - (self.pos.gross() as i128 + pend.open_buy
            + pend.open_sell);
        Self::positive_min(net_room, gross_room)
    }
}

/// Outside the band the timer keeps running until the inventory is back inside
/// with no risk-adding order pending.
pub proof fn band_timer_ends_only_inside_without_pending_adds(
    s: InventoryState,
    in_band: bool,
    pending_adds: int,
    now: Instant,
)
    ensures
        s.band_since is Some ==> (s.ticked(in_band, pending_adds, now).band_since is None
            <==> in_band && pending_adds == 0),
        s.band_since is Some && !(in_band && pending_adds == 0) ==> s.ticked(
            in_band,
            pending_adds,
            now,
        ).band_since == s.band_since,
        !in_band ==> s.ticked(in_band, pending_adds, now).band_since is Some,
{
}

/// A reducing buy closes the short position and a reducing sell the long one, as
/// far as it reaches; an opening buy adds to the long position and an opening
/// sell to the short one. The other position stays.
pub proof fn fills_close_the_other_side_or_open_their_own(p: Positions, n: int)
    requires
        p.wf(),
        0 < n,
        n <= MAX_CONTRACTS,
    ensures
        ({
            let (a, e) = p.filled(n, true);
            &&& a.long == p.long
            &&& n <= p.short ==> a.short == p.short - n
            &&& n > p.short ==> a.short == 0
            &&& e matches FillEffect::Closed { side, qty, left, excess } && side == Side::Sell && qty
                == p.short - a.short && left == a.short && qty + excess == n
        }),
        ({
            let (a, e) = p.filled(-n, true);
            &&& a.short == p.short
            &&& n <= p.long ==> a.long == p.long - n
            &&& n > p.long ==> a.long == 0
            &&& e matches FillEffect::Closed { side, qty, left, excess } && side == Side::Buy && qty
                == p.long - a.long && left == a.long && qty + excess == n
        }),
        p.long + n <= MAX_CONTRACTS ==> {
            let (a, e) = p.filled(n, false);
            &&& a.short == p.short
            &&& a.long == p.long + n
            &&& e matches FillEffect::Opened { side, before, qty } && side == Side::Buy && before
                == p.long && qty == n
        },
        p.short + n <= MAX_CONTRACTS ==> {
            let (a, e) = p.filled(-n, false);
            &&& a.long == p.long
            &&& a.short == p.short + n
            &&& e matches FillEffect::Opened { side, before, qty } && side == Side::Sell && before
                == p.short && qty == n
        },
        p.filled(0, true) == (p, FillEffect::Nothing),
        p.filled(0, false) == (p, FillEffect::Nothing),
{
}

/// In the worst case all that buys fills and nothing that sells, or the other way
/// round, and what only reduces takes a position to zero and no further.
pub proof fn the_worst_case_is_one_sided(p: Positions, e: PendingExposure)
    requires
        p.wf(),
        e.wf(),
    ensures
        e.reduce_buy <= p.short ==> worst_net(p, e).0 == p.long + e.open_buy - p.short
            + e.reduce_buy,
        e.reduce_buy >= p.short ==> worst_net(p, e).0 == p.long + e.open_buy,
        e.reduce_sell <= p.long ==> worst_net(p, e).1 == p.long - e.reduce_sell - p.short
            - e.open_sell,
        e.reduce_sell >= p.long ==> worst_net(p, e).1 == -p.short - e.open_sell,
{
}

/// The capacity is all that the caps leave: a quantity is within it exactly when
/// it keeps the worst case inside the net cap and everything together inside the
/// gross cap.
pub proof fn the_capacity_uses_both_caps_up(
    p: Positions,
    e: PendingExposure,
    h_contracts: int,
    gross_contracts: int,
    x: int,
)
    requires
        p.wf(),
        e.wf(),
        0 < x,
    ensures
        x <= buy_capacity(p, e, h_contracts, gross_contracts) <==> worst_net(p, e).0 + x
            <= h_contracts && p.long + p.short + e.open_buy + e.open_sell + x <= gross_contracts,
        x <= sell_capacity(p, e, h_contracts, gross_contracts) <==> worst_net(p, e).1 - x
            >= -h_contracts && p.long + p.short + e.open_buy + e.open_sell + x <= gross_contracts,
        0 <= buy_capacity(p, e, h_contracts, gross_contracts),
        0 <= sell_capacity(p, e, h_contracts, gross_contracts),
{
}

/// The timer starts when the inventory leaves the band and runs out after the
/// timeout; the position stays as it is.
pub proof fn the_band_timer_starts_outside_and_runs_out(
    s: InventoryState,
    in_band: bool,
    pending_adds: int,
    now: Instant,
    later: Instant,
)
    ensures
        ({
            let t = s.ticked(in_band, pending_adds, now);
            &&& t.pos == s.pos
            &&& t.cfg == s.cfg
            &&& !in_band && s.band_since is None ==> t.band_since == Some(now) && t.episode_start
                == Some(now)
            &&& in_band || s.band_since is Some ==> t.episode_start == s.episode_start
            &&& in_band && pending_adds == 0 ==> t.band_since is None
            &&& s.band_since is None && in_band ==> t.band_since is None
            &&& !in_band && s.band_since is None && now.nanos <= later.nanos ==> (t.timed_out(later)
                <==> later.nanos - now.nanos >= s.cfg.band_timeout_ms * 1_000_000)
            &&& t.band_since is None ==> !t.timed_out(later)
        }),
        s.cleared().pos == s.pos,
        s.cleared().band_since is None,
        s.cleared().episode_start is None,
{
}

} // verus!
