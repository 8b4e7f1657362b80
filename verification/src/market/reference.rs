//! Binance reference price: quote, mid history for the short-horizon velocity,
//! and the sampled absolute moves. `R` carries prices and moves.

use vstd::prelude::*;

use crate::time;
use crate::time::{Duration, Instant};
use crate::util;
use crate::util::TimeWindow;

verus! {

/// Seconds of mid history kept for the velocity.
pub const MID_HISTORY_SECS: u64 = 2;

#[derive(Debug, Clone, Copy)]
pub struct Bbo<R> {
    pub bid: R,
    pub ask: R,
    pub bid_qty: R,
    pub ask_qty: R,
    /// Exchange event time (ms) when available.
    pub exch_ts_ms: i64,
    pub recv: Instant,
}

pub struct ReferencePrice<R> {
    last: Option<Bbo<R>>,
    mids: TimeWindow<R>,
    moves: TimeWindow<R>,
    vol_step: Duration,
    last_vol_sample: Option<(Instant, R)>,
    velocity_window: Duration,
}

/// The reference as plain values.
pub ghost struct ReferenceView<R> {
    pub last: Option<Bbo<R>>,
    pub mids: Seq<(Instant, R)>,
    pub moves: Seq<(Instant, R)>,
    pub vol_window: Duration,
    pub vol_step: Duration,
    pub last_vol_sample: Option<(Instant, R)>,
    pub velocity_window: Duration,
}

impl<R> View for ReferencePrice<R> {
    type V = ReferenceView<R>;

    closed spec fn view(&self) -> ReferenceView<R> {
        ReferenceView {
            last: self.last,
            mids: self.mids@,
            moves: self.moves@,
            vol_window: self.moves.span,
            vol_step: self.vol_step,
            last_vol_sample: self.last_vol_sample,
            velocity_window: self.velocity_window,
        }
    }
}

impl<R> ReferenceView<R> {
    /// The sample that a new mid is compared with, when a step has passed.
    pub open spec fn base_for(self, now: Instant) -> Option<R> {
        match self.last_vol_sample {
            Some((t, m)) if time::elapsed(t, now).nanos >= self.vol_step.nanos => Some(m),
            _ => None,
        }
    }

    pub open spec fn with_quote(self, bbo: Bbo<R>, mid: R) -> ReferenceView<R> {
        ReferenceView {
            last: Some(bbo),
            mids: util::pruned(
                self.mids.push((bbo.recv, mid)),
                bbo.recv,
                time::spec_from_secs(MID_HISTORY_SECS),
            ),
            last_vol_sample: if self.last_vol_sample is None || self.base_for(bbo.recv) is Some {
                Some((bbo.recv, mid))
            } else {
                self.last_vol_sample
            },
            ..self
        }
    }

    pub open spec fn with_move(self, at: Instant, v: R) -> ReferenceView<R> {
        ReferenceView { moves: util::pruned(self.moves.push((at, v)), at, self.vol_window), ..self }
    }
}

impl<R: Copy> ReferencePrice<R> {
    /// The mid history has its span.
    pub closed spec fn wf(self) -> bool {
        self.mids.span == time::spec_from_secs(MID_HISTORY_SECS)
    }

    pub fn new(vol_window: Duration, vol_step: Duration, velocity_window: Duration) -> (r:
        ReferencePrice<R>)
        ensures
            r.wf(),
            r@ == (ReferenceView::<R> {
                last: None,
                mids: seq![],
                moves: seq![],
                vol_window,
                vol_step,
                last_vol_sample: None,
                velocity_window,
            }),
    {
        ReferencePrice {
            last: None,
            mids: TimeWindow::new(Duration::from_secs(MID_HISTORY_SECS)),
            moves: TimeWindow::new(vol_window),
            vol_step,
            last_vol_sample: None,
            velocity_window,
        }
    }

    /// Takes a valid quote with its mid. Where a step has passed since the last
    /// sampled mid, returns that mid for the move to be computed.
    pub fn update(&mut self, bbo: Bbo<R>, mid: R) -> (base: Option<R>)
        requires
            old(self).wf(),
        ensures
            final(self).wf(),
            final(self)@ == old(self)@.with_quote(bbo, mid),
            base == old(self)@.base_for(bbo.recv),
    {
        let now = bbo.recv;
        self.last = Some(bbo);
        self.mids.push(now, mid);
        match self.last_vol_sample {
            None => {
                self.last_vol_sample = Some((now, mid));
                None
            },
            Some((t, m)) => {
                if now.saturating_duration_since(t).nanos >= self.vol_step.nanos {
                    self.last_vol_sample = Some((now, mid));
                    Some(m)
                } else {
                    None
                }
            },
        }
    }

    /// Records an absolute move.
    pub fn push_move(&mut self, at: Instant, v: R)
        requires
            old(self).wf(),
        ensures
            final(self).wf(),
            final(self)@ == old(self)@.with_move(at, v),
    {
        self.moves.push(at, v);
    }

    /// Latest quote.
    pub fn last(&self) -> (r: Option<Bbo<R>>)
        ensures
            r == self@.last,
    {
        self.last
    }

    /// Time since the latest quote.
    pub fn age(&self, now: Instant) -> (r: Option<Duration>)
        ensures
            r == (match self@.last {
                Some(b) => Some(time::elapsed(b.recv, now)),
                None => None,
            }),
    {
        match self.last {
            Some(b) => Some(now.saturating_duration_since(b.recv)),
            None => None,
        }
    }

    /// The latest mid that is at least the velocity window old.
    pub fn velocity_base(&self, now: Instant) -> (r: Option<R>)
        requires
            self.wf(),
        ensures
            match r {
                Some(m) => self@.velocity_window.nanos <= now.nanos && exists|i: int|
                    0 <= i < self@.mids.len() && (#[trigger] self@.mids[i]).1 == m
                        && self@.mids[i].0.nanos <= now.nanos - self@.velocity_window.nanos
                        && forall|j: int|
                        i < j < self@.mids.len() ==> (#[trigger] self@.mids[j]).0.nanos > now.nanos
                            - self@.velocity_window.nanos,
                None => self@.velocity_window.nanos > now.nanos || forall|j: int|
                    0 <= j < self@.mids.len() ==> (#[trigger] self@.mids[j]).0.nanos > now.nanos
                        - self@.velocity_window.nanos,
            },
    {
        let t0 = match now.checked_sub(self.velocity_window) {
            Some(t) => t,
            None => return None,
        };
        match self.mids.at_or_before(t0) {
            Some(x) => {
                proof {
                    let i = choose|i: int|
                        0 <= i < self.mids@.len() && #[trigger] self.mids@[i] == *x && x.0.nanos
                            <= t0.nanos && forall|j: int|
                            i < j < self.mids@.len() ==> (#[trigger] self.mids@[j]).0.nanos
                                > t0.nanos;
                    assert(self@.mids[i].1 == x.1);
                }
                Some(x.1)
            },
            None => None,
        }
    }

    /// The recorded moves, oldest first.
    pub fn moves(&self) -> (r: Vec<R>)
        ensures
            r@ == self@.moves.map_values(|x: (Instant, R)| x.1),
    {
        self.moves.values()
    }

    /// Number of recorded moves.
    pub fn vol_samples(&self) -> (r: usize)
        ensures
            r == self@.moves.len(),
    {
        self.moves.len()
    }
}

} // verus!
