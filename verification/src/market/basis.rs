//! Natural basis β₀ between Gate and Binance, per trading session, with the
//! abnormality guard and a drift monitor.
//!
//! β₀ is a statistic of *valid* basis samples over the main window of the
//! *current* session kind. A sample is valid only when both quotes are
//! synchronised and the external Gate quote is informative. `R` carries the
//! real-valued samples and statistics; what is compared and computed with them
//! reaches this module as facts and results.

use vstd::prelude::*;

use crate::config;
use crate::market::session::SessionKind;
use crate::time;
use crate::time::{Duration, Instant};
use crate::util;
use crate::util::TimeWindow;

verus! {

#[derive(Debug, Clone, Copy, PartialEq, Eq, Structural)]
pub enum BasisStatus {
    /// Not enough samples yet in this session.
    WarmingUp,
    Normal,
    /// The deviation exceeds its limit: β₀ is frozen, no new risk.
    Abnormal,
    /// The deviation is back under the recovery threshold; waiting for the
    /// stability period.
    Recovering,
}

impl BasisStatus {
    /// β₀ is frozen.
    pub open spec fn frozen(self) -> bool {
        self == BasisStatus::Abnormal || self == BasisStatus::Recovering
    }

    fn is_frozen(self) -> (r: bool)
        ensures
            r == self.frozen(),
    {
        self == BasisStatus::Abnormal || self == BasisStatus::Recovering
    }
}

/// Seconds between two computations of β₀.
pub const RECOMPUTE_SECS: u64 = 1;

impl SessionKind {
    /// Place of the kind's statistics.
    pub open spec fn slot(self) -> int {
        match self {
            SessionKind::Regular => 0,
            SessionKind::Pre => 1,
            SessionKind::Post => 2,
            SessionKind::Overnight => 3,
            SessionKind::Weekend => 4,
            SessionKind::Blackout => 5,
        }
    }

    fn position(self) -> (r: usize)
        ensures
            r == self.slot(),
    {
        match self {
            SessionKind::Regular => 0,
            SessionKind::Pre => 1,
            SessionKind::Post => 2,
            SessionKind::Overnight => 3,
            SessionKind::Weekend => 4,
            SessionKind::Blackout => 5,
        }
    }
}

struct SessionStats<R> {
    beta: TimeWindow<R>,
    /// Deviations observed while the status was normal.
    d_normal: TimeWindow<R>,
    beta0: Option<R>,
    last_sample: Option<Instant>,
}

/// The statistics of one session kind.
pub ghost struct StatsView<R> {
    pub beta: Seq<(Instant, R)>,
    pub d_normal: Seq<(Instant, R)>,
    pub beta0: Option<R>,
    pub last_sample: Option<Instant>,
}

impl<R> SessionStats<R> {
    spec fn of(self) -> StatsView<R> {
        StatsView {
            beta: self.beta@,
            d_normal: self.d_normal@,
            beta0: self.beta0,
            last_sample: self.last_sample,
        }
    }
}

impl<R> StatsView<R> {
    pub open spec fn empty() -> StatsView<R> {
        StatsView { beta: seq![], d_normal: seq![], beta0: None, last_sample: None }
    }
}

/// How far the current basis is from β₀.
#[derive(Debug, Clone, Copy)]
pub struct Deviation<R> {
    pub d: R,
    /// It exceeds the limit.
    pub beyond_stop: bool,
    /// It is within the recovery fraction of the limit.
    pub recovered: bool,
}

/// One synchronised observation.
#[derive(Debug, Clone, Copy)]
pub struct BasisInput<R> {
    /// Current basis.
    pub beta_t: R,
    pub binance_recv: Instant,
    pub gate_recv: Instant,
    /// The external Gate quote is narrow enough to tell something.
    pub informative: bool,
    /// Distance from β₀, where there is a β₀.
    pub deviation: Option<Deviation<R>>,
}

/// What has to be computed anew from the samples.
#[derive(Debug, Clone, Copy, PartialEq, Eq, Structural)]
pub struct Recompute {
    /// The median of the basis samples becomes β₀.
    pub median: bool,
    /// The stop quantile of the normal deviations is cached.
    pub quantile: bool,
}

pub struct BasisEstimator<R> {
    cfg: config::Pricing,
    stats: Vec<SessionStats<R>>,
    drift: TimeWindow<R>,
    current: SessionKind,
    status: BasisStatus,
    last_beta_t: Option<R>,
    last_d: Option<R>,
    recover_since: Option<Instant>,
    last_beta0_calc: Option<Instant>,
    dstop_cache: Option<R>,
}

/// The estimator as plain values.
pub ghost struct BasisView<R> {
    pub cfg: config::Pricing,
    /// Statistics by the place of the session kind.
    pub stats: Seq<StatsView<R>>,
    pub drift: Seq<(Instant, R)>,
    pub current: SessionKind,
    pub status: BasisStatus,
    pub last_beta_t: Option<R>,
    pub last_d: Option<R>,
    pub recover_since: Option<Instant>,
    pub last_beta0_calc: Option<Instant>,
    pub dstop_cache: Option<R>,
}

impl<R> View for BasisEstimator<R> {
    type V = BasisView<R>;

    closed spec fn view(&self) -> BasisView<R> {
        BasisView {
            cfg: self.cfg,
            stats: self.stats@.map_values(|s: SessionStats<R>| s.of()),
            drift: self.drift@,
            current: self.current,
            status: self.status,
            last_beta_t: self.last_beta_t,
            last_d: self.last_d,
            recover_since: self.recover_since,
            last_beta0_calc: self.last_beta0_calc,
            dstop_cache: self.dstop_cache,
        }
    }
}

impl<R> BasisView<R> {
    pub open spec fn initial(cfg: config::Pricing) -> BasisView<R> {
        BasisView {
            cfg,
            stats: seq![
                StatsView::empty(),
                StatsView::empty(),
                StatsView::empty(),
                StatsView::empty(),
                StatsView::empty(),
                StatsView::empty(),
            ],
            drift: seq![],
            current: SessionKind::Overnight,
            status: BasisStatus::WarmingUp,
            last_beta_t: None,
            last_d: None,
            recover_since: None,
            last_beta0_calc: None,
            dstop_cache: None,
        }
    }

    /// Span of the sample windows.
    pub open spec fn window(self) -> Duration {
        time::spec_from_secs(self.cfg.basis_window_secs)
    }

    pub open spec fn here(self) -> StatsView<R> {
        self.stats[self.current.slot()]
    }

    /// The statistics of the current session replaced.
    pub open spec fn with_here(self, s: StatsView<R>) -> BasisView<R> {
        BasisView { stats: self.stats.update(self.current.slot(), s), ..self }
    }

    pub open spec fn in_session(self, k: SessionKind) -> BasisView<R> {
        if k == self.current {
            self
        } else {
            let s = self.stats[k.slot()];
            BasisView {
                current: k,
                drift: seq![],
                recover_since: None,
                status: if s.beta0 is Some && s.beta.len() >= self.cfg.basis_min_samples {
                    BasisStatus::Normal
                } else {
                    BasisStatus::WarmingUp
                },
                ..self
            }
        }
    }

    /// Both quotes were received within the tolerance of each other.
    pub open spec fn synced(self, inp: BasisInput<R>) -> bool {
        let a = inp.binance_recv.nanos as int;
        let b = inp.gate_recv.nanos as int;
        let skew = if a > b {
            a - b
        } else {
            b - a
        };
        skew <= time::spec_from_millis(self.cfg.basis_sync_tolerance_ms).nanos
    }

    /// A sample is due: bursts of updates do not dominate the windows.
    pub open spec fn sample_due(self, now: Instant) -> bool {
        match self.here().last_sample {
            Some(t) => time::reached(t, now, self.cfg.basis_sample_interval_ms),
            None => true,
        }
    }

    /// The sample counts.
    pub open spec fn counts(self, inp: BasisInput<R>, now: Instant) -> bool {
        self.synced(inp) && inp.informative && self.sample_due(now)
    }

    /// The guard after a deviation from β₀ has been seen.
    pub open spec fn guarded(self, inp: BasisInput<R>, now: Instant) -> BasisView<R> {
        match (self.here().beta0, inp.deviation) {
            (Some(_), Some(dev)) => {
                let v = BasisView { last_d: Some(dev.d), ..self };
                match self.status {
                    BasisStatus::Normal => if dev.beyond_stop {
                        BasisView { status: BasisStatus::Abnormal, recover_since: None, ..v }
                    } else if self.counts(inp, now) {
                        v.with_here(
                            StatsView {
                                d_normal: util::pruned(
                                    self.here().d_normal.push((now, dev.d)),
                                    now,
                                    self.window(),
                                ),
                                ..self.here()
                            },
                        )
                    } else {
                        v
                    },
                    BasisStatus::Abnormal | BasisStatus::Recovering => if dev.recovered {
                        let since = match self.recover_since {
                            Some(t) => t,
                            None => now,
                        };
                        if time::reached(since, now, self.cfg.basis_recover_ms) {
                            BasisView { status: BasisStatus::Normal, recover_since: None, ..v }
                        } else {
                            BasisView {
                                status: BasisStatus::Recovering,
                                recover_since: Some(since),
                                ..v
                            }
                        }
                    } else {
                        BasisView { status: BasisStatus::Abnormal, recover_since: None, ..v }
                    },
                    BasisStatus::WarmingUp => v,
                }
            },
            _ => self,
        }
    }

    /// The sample taken into the drift monitor, and into the basis window unless
    /// β₀ is frozen.
    pub open spec fn sampled(self, beta_t: R, now: Instant) -> BasisView<R> {
        let s = self.here();
        BasisView {
            drift: util::pruned(
                self.drift.push((now, beta_t)),
                now,
                time::spec_from_secs(self.cfg.drift_window_secs),
            ),
            ..self
        }.with_here(
            StatsView {
                last_sample: Some(now),
                beta: if self.status.frozen() {
                    s.beta
                } else {
                    util::pruned(s.beta.push((now, beta_t)), now, self.window())
                },
                ..s
            },
        )
    }

    /// One observation.
    pub open spec fn observed(self, inp: BasisInput<R>, now: Instant) -> BasisView<R> {
        let g = BasisView { last_beta_t: Some(inp.beta_t), ..self }.guarded(inp, now);
        if self.counts(inp, now) {
            g.sampled(inp.beta_t, now)
        } else {
            g
        }
    }

    pub open spec fn recompute_due(self, now: Instant) -> bool {
        match self.last_beta0_calc {
            Some(t) => time::elapsed(t, now).nanos >= time::spec_from_secs(RECOMPUTE_SECS).nanos,
            None => true,
        }
    }

    /// Old samples dropped before statistics are computed.
    pub open spec fn refreshed(self, now: Instant) -> BasisView<R> {
        let s = self.here();
        BasisView { last_beta0_calc: Some(now), ..self }.with_here(
            StatsView {
                beta: util::pruned(s.beta, now, self.window()),
                d_normal: util::pruned(s.d_normal, now, self.window()),
                ..s
            },
        )
    }

    /// What has to be computed from the samples at hand.
    pub open spec fn plan(self) -> Recompute {
        let min = self.cfg.basis_min_samples;
        Recompute {
            median: !self.status.frozen() && self.here().beta.len() >= min,
            quantile: self.here().d_normal.len() >= (if min > 2 {
                min
            } else {
                2
            }),
        }
    }

    /// Computed statistics installed. Without enough samples β₀ stays, unless
    /// there is no sample left; while frozen it never changes.
    pub open spec fn installed(self, median: Option<R>, quantile: Option<R>) -> BasisView<R> {
        let p = self.plan();
        let s = self.here();
        let beta0 = if p.median {
            median
        } else if !self.status.frozen() && s.beta.len() == 0 {
            None
        } else {
            s.beta0
        };
        let v = self.with_here(StatsView { beta0, ..s });
        BasisView {
            dstop_cache: if p.quantile {
                quantile
            } else {
                None
            },
            status: if self.status == BasisStatus::WarmingUp && beta0 is Some && s.beta.len()
                >= self.cfg.basis_min_samples {
                BasisStatus::Normal
            } else {
                self.status
            },
            ..v
        }
    }
}

impl<R: Copy> SessionStats<R> {
    fn new(span: Duration) -> (s: SessionStats<R>)
        ensures
            s.of() == StatsView::<R>::empty(),
            s.beta.span == span,
            s.d_normal.span == span,
    {
        SessionStats {
            beta: TimeWindow::new(span),
            d_normal: TimeWindow::new(span),
            beta0: None,
            last_sample: None,
        }
    }
}

impl<R: Copy> BasisEstimator<R> {
    /// One set of statistics per session kind, with windows of the configured
    /// spans.
    pub closed spec fn wf(self) -> bool {
        &&& self.stats@.len() == 6
        &&& forall|i: int|
            0 <= i < 6 ==> (#[trigger] self.stats@[i]).beta.span == time::spec_from_secs(
                self.cfg.basis_window_secs,
            ) && self.stats@[i].d_normal.span == time::spec_from_secs(self.cfg.basis_window_secs)
        &&& self.drift.span == time::spec_from_secs(self.cfg.drift_window_secs)
    }

    pub fn new(cfg: config::Pricing) -> (b: BasisEstimator<R>)
        ensures
            b.wf(),
            b@ == BasisView::<R>::initial(cfg),
    {
        let span = Duration::from_secs(cfg.basis_window_secs);
        let mut stats: Vec<SessionStats<R>> = Vec::new();
        stats.push(SessionStats::new(span));
        stats.push(SessionStats::new(span));
        stats.push(SessionStats::new(span));
        stats.push(SessionStats::new(span));
        stats.push(SessionStats::new(span));
        stats.push(SessionStats::new(span));
        let b = BasisEstimator {
            cfg,
            stats,
            drift: TimeWindow::new(Duration::from_secs(cfg.drift_window_secs)),
            current: SessionKind::Overnight,
            status: BasisStatus::WarmingUp,
            last_beta_t: None,
            last_d: None,
            recover_since: None,
            last_beta0_calc: None,
            dstop_cache: None,
        };
        assert(b@.stats =~= BasisView::<R>::initial(cfg).stats);
        assert(b@.drift =~= seq![]);
        b
    }

    /// Switches to the statistics of another session kind.
    pub fn set_session(&mut self, k: SessionKind)
        requires
            old(self).wf(),
        ensures
            final(self).wf(),
            final(self)@ == old(self)@.in_session(k),
    {
        if k != self.current {
            self.current = k;
            self.drift.clear();
            self.recover_since = None;
            let i: usize = k.position();
            assert(self@.stats[i as int] == self.stats@[i as int].of());
            self.status = if self.stats[i].beta0.is_some() && self.stats[i].beta.len()
                >= self.cfg.basis_min_samples {
                BasisStatus::Normal
            } else {
                BasisStatus::WarmingUp
            };
        }
    }

    pub fn status(&self) -> (r: BasisStatus)
        ensures
            r == self@.status,
    {
        self.status
    }

    /// Natural basis of the current session.
    pub fn beta0(&self) -> (r: Option<R>)
        requires
            self.wf(),
        ensures
            r == self@.here().beta0,
    {
        let i: usize = self.current.position();
        assert(self@.stats[i as int] == self.stats@[i as int].of());
        self.stats[i].beta0
    }

    /// Basis samples of the current session.
    pub fn samples(&self) -> (r: usize)
        requires
            self.wf(),
        ensures
            r == self@.here().beta.len(),
    {
        let i: usize = self.current.position();
        assert(self@.stats[i as int] == self.stats@[i as int].of());
        self.stats[i].beta.len()
    }

    /// Latest basis, valid or not.
    pub fn last_beta_t(&self) -> (r: Option<R>)
        ensures
            r == self@.last_beta_t,
    {
        self.last_beta_t
    }

    /// Latest distance from β₀.
    pub fn last_d(&self) -> (r: Option<R>)
        ensures
            r == self@.last_d,
    {
        self.last_d
    }

    /// Cached stop quantile of the normal deviations.
    pub fn dstop_cache(&self) -> (r: Option<R>)
        ensures
            r == self@.dstop_cache,
    {
        self.dstop_cache
    }

    /// Samples of the drift monitor, oldest first.
    pub fn drift_values(&self) -> (r: Vec<R>)
        ensures
            r@ == self@.drift.map_values(|x: (Instant, R)| x.1),
    {
        self.drift.values()
    }

    /// Basis samples of the current session, oldest first.
    pub fn beta_values(&self) -> (r: Vec<R>)
        requires
            self.wf(),
        ensures
            r@ == self@.here().beta.map_values(|x: (Instant, R)| x.1),
    {
        let i: usize = self.current.position();
        assert(self@.stats[i as int] == self.stats@[i as int].of());
        self.stats[i].beta.values()
    }

    /// Normal deviations of the current session, oldest first.
    pub fn d_values(&self) -> (r: Vec<R>)
        requires
            self.wf(),
        ensures
            r@ == self@.here().d_normal.map_values(|x: (Instant, R)| x.1),
    {
        let i: usize = self.current.position();
        assert(self@.stats[i as int] == self.stats@[i as int].of());
        self.stats[i].d_normal.values()
    }

    fn is_synced(&self, inp: &BasisInput<R>) -> (r: bool)
        ensures
            r == self@.synced(*inp),
    {
        let a: u64 = inp.binance_recv.nanos;
        let b: u64 = inp.gate_recv.nanos;
        let skew: u64 = if a > b {
            a - b
        } else {
            b - a
        };
        skew as u128 <= Duration::from_millis(self.cfg.basis_sync_tolerance_ms).nanos
    }

    /// The guard's reaction to a deviation from β₀.
    fn guard(&mut self, dev: Deviation<R>, counts: bool, now: Instant)
        requires
            old(self).wf(),
            old(self)@.here().beta0 is Some,
        ensures
            final(self).wf(),
            forall|inp: BasisInput<R>|
                inp.deviation == Some(dev) && #[trigger] old(self)@.counts(inp, now) == counts
                    ==> final(self)@ == old(self)@.guarded(inp, now),
    {
        let i: usize = self.current.position();
        let ghost v = self@;
        assert(v.stats[i as int] == self.stats@[i as int].of());
        self.last_d = Some(dev.d);
        match self.status {
            BasisStatus::Normal => {
                if dev.beyond_stop {
                    self.status = BasisStatus::Abnormal;
                    self.recover_since = None;
                } else if counts {
                    self.stats[i].d_normal.push(now, dev.d);
                    assert(self@.stats =~= v.stats.update(
                        i as int,
                        StatsView {
                            d_normal: util::pruned(
                                v.here().d_normal.push((now, dev.d)),
                                now,
                                v.window(),
                            ),
                            ..v.here()
                        },
                    ));
                }
            },
            BasisStatus::Abnormal | BasisStatus::Recovering => {
                if dev.recovered {
                    let since = match self.recover_since {
                        Some(t) => t,
                        None => now,
                    };
                    if now.reached_since(since, self.cfg.basis_recover_ms) {
                        self.status = BasisStatus::Normal;
                        self.recover_since = None;
                    } else {
                        self.status = BasisStatus::Recovering;
                        self.recover_since = Some(since);
                    }
                } else {
                    self.status = BasisStatus::Abnormal;
                    self.recover_since = None;
                }
            },
            BasisStatus::WarmingUp => {},
        }
    }

    fn take_sample(&mut self, beta_t: R, now: Instant)
        requires
            old(self).wf(),
        ensures
            final(self).wf(),
            final(self)@ == old(self)@.sampled(beta_t, now),
    {
        let i: usize = self.current.position();
        let ghost v = self@;
        assert(v.stats[i as int] == self.stats@[i as int].of());
        self.drift.push(now, beta_t);
        self.stats[i].last_sample = Some(now);
        if !self.status.is_frozen() {
            self.stats[i].beta.push(now, beta_t);
        }
        assert(self@.stats =~= v.sampled(beta_t, now).stats);
    }

    /// Feed a synchronised observation. Returns the resulting status.
    pub fn observe(&mut self, inp: BasisInput<R>, now: Instant) -> (r: BasisStatus)
        requires
            old(self).wf(),
            old(self)@.here().beta0 is Some ==> inp.deviation is Some,
        ensures
            final(self).wf(),
            final(self)@ == old(self)@.observed(inp, now),
            r == final(self)@.status,
    {
        let ghost v = self@;
        let i: usize = self.current.position();
        assert(v.stats[i as int] == self.stats@[i as int].of());
        self.last_beta_t = Some(inp.beta_t);
        let due = match self.stats[i].last_sample {
            Some(t) => now.reached_since(t, self.cfg.basis_sample_interval_ms),
            None => true,
        };
        let counts = self.is_synced(&inp) && inp.informative && due;
        assert(self@.stats =~= v.stats);
        assert(self@ == (BasisView { last_beta_t: Some(inp.beta_t), ..v }));
        assert(self@.counts(inp, now) == counts);
        if let Some(dev) = inp.deviation {
            if self.stats[i].beta0.is_some() {
                self.guard(dev, counts, now);
            }
        }
        if counts {
            self.take_sample(inp.beta_t, now);
        }
        self.status
    }

    /// Starts a computation of β₀ when one is due: drops old samples and says
    /// what has to be computed from the rest.
    pub fn begin_recompute(&mut self, now: Instant) -> (r: Option<Recompute>)
        requires
            old(self).wf(),
        ensures
            final(self).wf(),
            match r {
                None => !old(self)@.recompute_due(now) && final(self)@ == old(self)@,
                Some(p) => old(self)@.recompute_due(now) && final(self)@ == old(self)@.refreshed(
                    now,
                ) && p == final(self)@.plan(),
            },
    {
        let due = match self.last_beta0_calc {
            Some(t) => now.saturating_duration_since(t).nanos >= Duration::from_secs(
                RECOMPUTE_SECS,
            ).nanos,
            None => true,
        };
        if !due {
            return None;
        }
        let ghost v = self@;
        let i: usize = self.current.position();
        assert(v.stats[i as int] == self.stats@[i as int].of());
        self.last_beta0_calc = Some(now);
        self.stats[i].beta.evict(now);
        self.stats[i].d_normal.evict(now);
        assert(self@.stats =~= v.refreshed(now).stats);
        assert(self@.stats[i as int] == self.stats@[i as int].of());
        let min: usize = self.cfg.basis_min_samples;
        let min_d: usize = if min > 2 {
            min
        } else {
            2
        };
        Some(
            Recompute {
                median: !self.status.is_frozen() && self.stats[i].beta.len() >= min,
                quantile: self.stats[i].d_normal.len() >= min_d,
            },
        )
    }

    /// Installs the statistics that were asked for.
    pub fn finish_recompute(&mut self, plan: Recompute, median: Option<R>, quantile: Option<R>)
        requires
            old(self).wf(),
            plan == old(self)@.plan(),
        ensures
            final(self).wf(),
            final(self)@ == old(self)@.installed(median, quantile),
    {
        let ghost v = self@;
        let i: usize = self.current.position();
        assert(v.stats[i as int] == self.stats@[i as int].of());
        if plan.median {
            self.stats[i].beta0 = median;
        } else if !self.status.is_frozen() && self.stats[i].beta.len() == 0 {
            self.stats[i].beta0 = None;
        }
        self.dstop_cache = if plan.quantile {
            quantile
        } else {
            None
        };
        if self.status == BasisStatus::WarmingUp && self.stats[i].beta0.is_some()
            && self.stats[i].beta.len() >= self.cfg.basis_min_samples {
            self.status = BasisStatus::Normal;
        }
        assert(self@.stats =~= v.installed(median, quantile).stats);
    }
}

/// A valid estimator has statistics for each of the six session kinds.
pub proof fn every_session_has_its_statistics<R: Copy>(b: BasisEstimator<R>)
    requires
        b.wf(),
    ensures
        b@.stats.len() == 6,
{
}

/// An observation, and what comes of the computation if one is due after it.
pub ghost struct Look<R> {
    pub inp: BasisInput<R>,
    pub now: Instant,
    pub median: Option<R>,
    pub quantile: Option<R>,
}

impl<R> BasisView<R> {
    /// An observation followed by the computation that is due.
    pub open spec fn looked(self, l: Look<R>) -> BasisView<R> {
        let o = self.observed(l.inp, l.now);
        if o.recompute_due(l.now) {
            o.refreshed(l.now).installed(l.median, l.quantile)
        } else {
            o
        }
    }

    /// Observations one after the other, in one session.
    pub open spec fn watched(self, ls: Seq<Look<R>>) -> BasisView<R>
        decreases ls.len(),
    {
        if ls.len() == 0 {
            self
        } else {
            self.watched(ls.drop_last()).looked(ls.last())
        }
    }

    /// The status has not been normal after any of the first `n` observations.
    pub open spec fn stays_frozen(self, ls: Seq<Look<R>>, n: int) -> bool {
        forall|i: int| 0 <= i <= n ==> (#[trigger] self.watched(ls.take(i))).status.frozen()
    }
}

/// Once the basis is abnormal, β₀ stays what it was for as long as the status is
/// not normal again, whatever is observed and computed.
pub proof fn an_abnormal_basis_keeps_beta0<R>(v: BasisView<R>, ls: Seq<Look<R>>, n: int)
    requires
        v.stats.len() == 6,
        0 <= n <= ls.len(),
        v.stays_frozen(ls, n),
    ensures
        v.watched(ls.take(n)).here().beta0 == v.here().beta0,
        v.watched(ls.take(n)).stats.len() == 6,
        v.watched(ls.take(n)).current == v.current,
        v.watched(ls.take(n)).cfg == v.cfg,
    decreases n,
{
    if n > 0 {
        assert(v.watched(ls.take(n)).status.frozen());
        an_abnormal_basis_keeps_beta0(v, ls, n - 1);
        assert(ls.take(n).drop_last() =~= ls.take(n - 1));
        assert(ls.take(n).last() == ls[n - 1]);
        let w = v.watched(ls.take(n - 1));
        let l = ls[n - 1];
        beta0_is_frozen_while_abnormal(w, l.inp, l.now, l.median, l.quantile);
    } else {
        assert(ls.take(0) =~= seq![]);
    }
}

/// Every observation from `k` to before `n` saw the basis recovered.
pub open spec fn recovered_since<R>(ls: Seq<Look<R>>, k: int, n: int) -> bool {
    forall|j: int|
        k <= j < n ==> ((#[trigger] ls[j]).inp.deviation matches Some(d) && d.recovered)
}

proof fn lemma_recovering<R>(v: BasisView<R>, ls: Seq<Look<R>>, n: int)
    requires
        v.stats.len() == 6,
        v.here().beta0 is Some,
        v.recover_since is None,
        0 <= n <= ls.len(),
        v.stays_frozen(ls, n),
        forall|j: int| 0 <= j < ls.len() ==> (#[trigger] ls[j]).inp.deviation is Some,
    ensures
        v.watched(ls.take(n)).recover_since matches Some(t) ==> exists|k: int|
            0 <= k < n && (#[trigger] ls[k]).now == t && recovered_since(ls, k, n),
    decreases n,
{
    if n > 0 {
        assert(v.watched(ls.take(n)).status.frozen());
        assert(v.watched(ls.take(n - 1)).status.frozen());
        lemma_recovering(v, ls, n - 1);
        an_abnormal_basis_keeps_beta0(v, ls, n - 1);
        assert(ls.take(n).drop_last() =~= ls.take(n - 1));
        assert(ls.take(n).last() == ls[n - 1]);
        let w = v.watched(ls.take(n - 1));
        assert(ls[n - 1].inp.deviation is Some);
        if let Some(t) = v.watched(ls.take(n)).recover_since {
            if w.recover_since is Some {
                let k = choose|k: int|
                    0 <= k < n - 1 && (#[trigger] ls[k]).now == w.recover_since->0
                        && recovered_since(ls, k, n - 1);
                assert(ls[k].now == t && recovered_since(ls, k, n));
            } else {
                assert(ls[n - 1].now == t && recovered_since(ls, n - 1, n));
            }
        }
    } else {
        assert(ls.take(0) =~= seq![]);
    }
}

/// An abnormal basis is normal again only after every observation over the whole
/// stability period saw it recovered.
pub proof fn the_basis_recovers_after_a_stable_period<R>(v: BasisView<R>, ls: Seq<Look<R>>)
    requires
        v.stats.len() == 6,
        v.here().beta0 is Some,
        v.recover_since is None,
        ls.len() > 0,
        v.stays_frozen(ls, ls.len() - 1),
        forall|j: int| 0 <= j < ls.len() ==> (#[trigger] ls[j]).inp.deviation is Some,
        v.watched(ls).status == BasisStatus::Normal,
    ensures
        exists|k: int|
            0 <= k < ls.len() && recovered_since(ls, k, ls.len() as int) && time::reached(
                (#[trigger] ls[k]).now,
                ls.last().now,
                v.cfg.basis_recover_ms,
            ),
{
    let n = ls.len() as int;
    lemma_recovering(v, ls, n - 1);
    an_abnormal_basis_keeps_beta0(v, ls, n - 1);
    assert(ls.drop_last() =~= ls.take(n - 1));
    assert(v.watched(ls.take(n - 1)).status.frozen());
    let w = v.watched(ls.take(n - 1));
    assert(ls[n - 1].inp.deviation is Some);
    if w.recover_since is Some {
        let k = choose|k: int|
            0 <= k < n - 1 && (#[trigger] ls[k]).now == w.recover_since->0 && recovered_since(
                ls,
                k,
                n - 1,
            );
        assert(recovered_since(ls, k, n));
        assert(time::reached(ls[k].now, ls.last().now, v.cfg.basis_recover_ms));
    } else {
        assert(recovered_since(ls, n - 1, n));
        assert(time::reached(ls[n - 1].now, ls.last().now, v.cfg.basis_recover_ms));
    }
}

/// While the basis is abnormal or recovering, β₀ and its samples do not change,
/// whatever is observed or computed, as long as the guard has not released it.
pub proof fn beta0_is_frozen_while_abnormal<R>(
    v: BasisView<R>,
    inp: BasisInput<R>,
    now: Instant,
    median: Option<R>,
    quantile: Option<R>,
)
    requires
        v.stats.len() == 6,
        v.observed(inp, now).status.frozen(),
    ensures
        v.observed(inp, now).here().beta0 == v.here().beta0,
        v.observed(inp, now).here().beta == v.here().beta,
        v.observed(inp, now).installed(median, quantile).here().beta0 == v.here().beta0,
{
}

/// The guard: a normal basis becomes abnormal exactly when the deviation is beyond
/// the limit, and then at once; it is normal again only after the deviation has
/// stayed recovered for the whole stability period.
pub proof fn the_guard_trips_at_once_and_releases_late<R>(
    v: BasisView<R>,
    inp: BasisInput<R>,
    dev: Deviation<R>,
    now: Instant,
)
    requires
        v.here().beta0 is Some,
        inp.deviation == Some(dev),
        v.stats.len() == 6,
    ensures
        v.status == BasisStatus::Normal ==> v.observed(inp, now).status == (if dev.beyond_stop {
            BasisStatus::Abnormal
        } else {
            BasisStatus::Normal
        }),
        v.status.frozen() && !dev.recovered ==> v.observed(inp, now).status
            == BasisStatus::Abnormal && v.observed(inp, now).recover_since is None,
        v.status.frozen() && v.observed(inp, now).status == BasisStatus::Normal ==> dev.recovered
            && time::reached(
            match v.recover_since {
                Some(t) => t,
                None => now,
            },
            now,
            v.cfg.basis_recover_ms,
        ),
{
}

/// Sessions are independent: observing and computing in one session leaves the
/// statistics of every other one alone, and switching keeps them all.
pub proof fn sessions_do_not_mix<R>(
    v: BasisView<R>,
    inp: BasisInput<R>,
    now: Instant,
    median: Option<R>,
    quantile: Option<R>,
    other: SessionKind,
)
    requires
        v.stats.len() == 6,
        other != v.current,
    ensures
        v.observed(inp, now).stats[other.slot()] == v.stats[other.slot()],
        v.refreshed(now).stats[other.slot()] == v.stats[other.slot()],
        v.installed(median, quantile).stats[other.slot()] == v.stats[other.slot()],
        v.in_session(other).stats == v.stats,
        v.in_session(other).in_session(v.current).here() == v.here(),
{
}

/// A sample that is out of step or uninformative enters no window.
pub proof fn invalid_samples_are_ignored<R>(v: BasisView<R>, inp: BasisInput<R>, now: Instant)
    requires
        v.stats.len() == 6,
        !v.synced(inp) || !inp.informative,
    ensures
        v.observed(inp, now).stats =~= v.stats,
        v.observed(inp, now).drift == v.drift,
{
}

} // verus!
