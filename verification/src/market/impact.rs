//! Gate aggressive-flow impact detector.
//!
//! Over a short window the taker trades are kept. If one side's share and the
//! window's notional are large enough, the *quoting side that would be hit next*
//! is flagged: heavy taker buying endangers our asks, heavy taker selling our
//! bids. `R` carries the notionals; their sums and comparisons reach this module
//! as results and facts.

use vstd::prelude::*;

use crate::config;
use crate::time;
use crate::time::{Duration, Instant};
use crate::types::Side;
use crate::util;
use crate::util::TimeWindow;

verus! {

/// History samples needed before a signal can be given.
pub const MIN_HISTORY: usize = 20;

#[derive(Debug, Clone, Copy)]
pub struct Trade<R> {
    pub at: Instant,
    /// Taker side.
    pub side: Side,
    pub notional: R,
}

/// What holds of the flow in the current window.
#[derive(Debug, Clone, Copy, PartialEq, Eq, Structural)]
pub struct FlowFacts {
    /// The notional is positive and exceeds the historical quantile.
    pub large: bool,
    /// The taker buys exceed the share threshold.
    pub buy_dominates: bool,
    /// The taker sells exceed the share threshold.
    pub sell_dominates: bool,
}

pub struct ImpactDetector<R> {
    cfg: config::Protection,
    recent: TimeWindow<Trade<R>>,
    /// Historical window notionals.
    history: TimeWindow<R>,
    last_history_sample: Option<Instant>,
}

/// The detector as plain values.
pub ghost struct ImpactView<R> {
    pub cfg: config::Protection,
    pub recent: Seq<(Instant, Trade<R>)>,
    pub history: Seq<(Instant, R)>,
    pub last_history_sample: Option<Instant>,
}

impl<R> View for ImpactDetector<R> {
    type V = ImpactView<R>;

    closed spec fn view(&self) -> ImpactView<R> {
        ImpactView {
            cfg: self.cfg,
            recent: self.recent@,
            history: self.history@,
            last_history_sample: self.last_history_sample,
        }
    }
}

impl<R> ImpactView<R> {
    pub open spec fn span(self) -> Duration {
        time::spec_from_millis(self.cfg.impact_window_ms)
    }

    pub open spec fn history_span(self) -> Duration {
        time::spec_from_secs(self.cfg.impact_history_secs)
    }

    pub open spec fn with_trade(self, t: Trade<R>) -> ImpactView<R> {
        ImpactView { recent: util::pruned(self.recent.push((t.at, t)), t.at, self.span()), ..self }
    }

    /// One history sample is recorded per window.
    pub open spec fn sample_due(self, at: Instant) -> bool {
        match self.last_history_sample {
            Some(s) => time::elapsed(s, at).nanos >= self.span().nanos,
            None => true,
        }
    }

    pub open spec fn with_sample(self, at: Instant, total: R) -> ImpactView<R> {
        ImpactView {
            history: util::pruned(self.history.push((at, total)), at, self.history_span()),
            last_history_sample: Some(at),
            ..self
        }
    }

    pub open spec fn at(self, now: Instant) -> ImpactView<R> {
        ImpactView { recent: util::pruned(self.recent, now, self.span()), ..self }
    }

    /// There is flow to judge and history to judge it by.
    pub open spec fn ready(self) -> bool {
        self.recent.len() > 0 && self.history.len() >= MIN_HISTORY
    }
}

impl<R: Copy> ImpactDetector<R> {
    /// The windows have the configured spans.
    pub closed spec fn wf(self) -> bool {
        self.recent.span == self@.span() && self.history.span == self@.history_span()
    }

    pub fn new(cfg: config::Protection) -> (d: ImpactDetector<R>)
        ensures
            d.wf(),
            d@ == (ImpactView::<R> {
                cfg,
                recent: seq![],
                history: seq![],
                last_history_sample: None,
            }),
    {
        ImpactDetector {
            cfg,
            recent: TimeWindow::new(Duration::from_millis(cfg.impact_window_ms)),
            history: TimeWindow::new(Duration::from_secs(cfg.impact_history_secs)),
            last_history_sample: None,
        }
    }

    pub fn window(&self) -> (r: Duration)
        ensures
            r == self@.span(),
    {
        Duration::from_millis(self.cfg.impact_window_ms)
    }

    /// Takes a trade in. Returns whether the notional of the window is due to be
    /// recorded.
    pub fn on_trade(&mut self, t: Trade<R>) -> (due: bool)
        requires
            old(self).wf(),
        ensures
            final(self).wf(),
            final(self)@ == old(self)@.with_trade(t),
            due == final(self)@.sample_due(t.at),
    {
        self.recent.push(t.at, t);
        match self.last_history_sample {
            Some(s) => t.at.saturating_duration_since(s).nanos >= self.window().nanos,
            None => true,
        }
    }

    /// Records the notional of the window, which is positive.
    pub fn record(&mut self, at: Instant, total: R)
        requires
            old(self).wf(),
        ensures
            final(self).wf(),
            final(self)@ == old(self)@.with_sample(at, total),
    {
        self.history.push(at, total);
        self.last_history_sample = Some(at);
    }

    /// Drops old trades. Returns whether there is flow to judge, and history
    /// enough that a single small print cannot trigger protection.
    pub fn ready(&mut self, now: Instant) -> (r: bool)
        requires
            old(self).wf(),
        ensures
            final(self).wf(),
            final(self)@ == old(self)@.at(now),
            r == final(self)@.ready(),
    {
        self.recent.evict(now);
        self.recent.len() > 0 && self.history.len() >= MIN_HISTORY
    }

    /// The trades of the window, oldest first.
    pub fn trades(&self) -> (r: Vec<Trade<R>>)
        ensures
            r@ == self@.recent.map_values(|x: (Instant, Trade<R>)| x.1),
    {
        self.recent.values()
    }

    /// The recorded window notionals, oldest first.
    pub fn notionals(&self) -> (r: Vec<R>)
        ensures
            r@ == self@.history.map_values(|x: (Instant, R)| x.1),
    {
        self.history.values()
    }
}

/// The side of our quotes that the flow endangers.
pub open spec fn endangered_by(f: FlowFacts) -> Option<Side> {
    if !f.large {
        None
    } else if f.buy_dominates {
        Some(Side::Sell)
    } else if f.sell_dominates {
        Some(Side::Buy)
    } else {
        None
    }
}

/// The side of our quotes that the flow endangers, if any.
pub fn endangered(f: FlowFacts) -> (r: Option<Side>)
    ensures
        r == endangered_by(f),
{
    if !f.large {
        None
    } else if f.buy_dominates {
        Some(Side::Sell)
    } else if f.sell_dominates {
        Some(Side::Buy)
    } else {
        None
    }
}

} // verus!
