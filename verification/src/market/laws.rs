//! What holds of the market state as a whole: windows of samples, the reference
//! price, the flow detector, the basis and the session calendar.

use vstd::prelude::*;

use crate::config;
use crate::market::basis::{BasisInput, BasisStatus, BasisView};
use crate::market::impact;
use crate::market::impact::{FlowFacts, ImpactView, Trade};
use crate::market::reference::{Bbo, ReferenceView};
use crate::market::session;
use crate::market::session::{CalendarView, LocalTime, SessionErrorView, SessionKind, UtcTime};
use crate::time::Instant;
use crate::types::Side;
use crate::util;

verus! {

/// Heavy buying endangers our asks and heavy selling our bids; a small flow, or
/// one without a dominant side, endangers neither.
pub proof fn flow_endangers_the_side_it_hits(f: FlowFacts)
    ensures
        impact::endangered_by(f) == Some(Side::Sell) <==> f.large && f.buy_dominates,
        impact::endangered_by(f) == Some(Side::Buy) <==> f.large && f.sell_dominates
            && !f.buy_dominates,
        impact::endangered_by(f) is None <==> !f.large || (!f.buy_dominates && !f.sell_dominates),
{
}

/// The detector keeps the trades of its window and the notionals of its history,
/// records at most one notional per window, and judges only with a trade in the
/// window and twenty notionals at hand.
pub proof fn flow_is_judged_by_its_history<R>(
    v: ImpactView<R>,
    t: Trade<R>,
    at: Instant,
    total: R,
)
    ensures
        ({
            let w = v.with_trade(t);
            &&& util::fresh_tail(
                v.recent.push((t.at, t)),
                w.recent,
                t.at,
                v.cfg.impact_window_ms * 1_000_000,
            )
            &&& w.history == v.history
            &&& w.last_history_sample == v.last_history_sample
            &&& w.cfg == v.cfg
        }),
        ({
            let w = v.with_sample(at, total);
            &&& util::fresh_tail(
                v.history.push((at, total)),
                w.history,
                at,
                v.cfg.impact_history_secs * 1_000_000_000,
            )
            &&& w.recent == v.recent
            &&& w.last_history_sample == Some(at)
            &&& w.cfg == v.cfg
        }),
        ({
            let w = v.at(at);
            &&& util::fresh_tail(v.recent, w.recent, at, v.cfg.impact_window_ms * 1_000_000)
            &&& w.history == v.history
            &&& w.last_history_sample == v.last_history_sample
            &&& w.cfg == v.cfg
        }),
        v.sample_due(at) <==> (v.last_history_sample matches Some(s) ==> v.cfg.impact_window_ms == 0
            || at.nanos - s.nanos >= v.cfg.impact_window_ms * 1_000_000),
        v.ready() <==> v.recent.len() >= 1 && v.history.len() >= 20,
{
    util::evictions_drop_what_is_too_old(v.recent.push((t.at, t)), t.at, v.span());
    util::evictions_drop_what_is_too_old(v.history.push((at, total)), at, v.history_span());
    util::evictions_drop_what_is_too_old(v.recent, at, v.span());
}

/// A quote becomes the latest one and its mid joins two seconds of history. The
/// first mid is sampled at once; afterwards a mid is compared with the sampled one,
/// and takes its place, once a step has passed.
pub proof fn mids_are_sampled_step_by_step<R>(
    v: ReferenceView<R>,
    bbo: Bbo<R>,
    mid: R,
    moved: R,
)
    ensures
        ({
            let w = v.with_quote(bbo, mid);
            let now = bbo.recv;
            &&& w.last == Some(bbo)
            &&& util::fresh_tail(v.mids.push((now, mid)), w.mids, now, 2_000_000_000)
            &&& v.last_vol_sample is None ==> v.base_for(now) is None && w.last_vol_sample == Some(
                (now, mid),
            )
            &&& v.last_vol_sample matches Some(s) ==> {
                let due = v.vol_step.nanos == 0 || now.nanos - s.0.nanos >= v.vol_step.nanos;
                &&& due ==> v.base_for(now) == Some(s.1) && w.last_vol_sample == Some((now, mid))
                &&& !due ==> v.base_for(now) is None && w.last_vol_sample == Some(s)
            }
            &&& w.moves == v.moves
            &&& w.vol_window == v.vol_window
            &&& w.vol_step == v.vol_step
            &&& w.velocity_window == v.velocity_window
        }),
        ({
            let now = bbo.recv;
            let w = v.with_move(now, moved);
            &&& util::fresh_tail(
                v.moves.push((now, moved)),
                w.moves,
                now,
                v.vol_window.nanos as int,
            )
            &&& w.last == v.last
            &&& w.mids == v.mids
            &&& w.last_vol_sample == v.last_vol_sample
            &&& w.vol_window == v.vol_window
        }),
{
    let now = bbo.recv;
    util::evictions_drop_what_is_too_old(
        v.mids.push((now, mid)),
        now,
        crate::time::spec_from_secs(2),
    );
    util::evictions_drop_what_is_too_old(v.moves.push((now, moved)), now, v.vol_window);
}

/// Both quotes of an observation arrived within the tolerance.
pub open spec fn arrived_together<R>(cfg: config::Pricing, inp: BasisInput<R>) -> bool {
    let tolerance = cfg.basis_sync_tolerance_ms * 1_000_000;
    -tolerance <= inp.binance_recv.nanos - inp.gate_recv.nanos <= tolerance
}

/// The interval since the last sample of this session is over.
pub open spec fn interval_over<R>(v: BasisView<R>, k: int, now: Instant) -> bool {
    v.stats[k].last_sample matches Some(t) ==> v.cfg.basis_sample_interval_ms == 0 || now.nanos
        - t.nanos >= v.cfg.basis_sample_interval_ms * 1_000_000
}

/// Every session kind has a place of its own.
pub proof fn sessions_have_their_own_statistics(a: SessionKind, b: SessionKind)
    ensures
        0 <= a.slot() < 6,
        a != b ==> a.slot() != b.slot(),
{
}

/// A switch of the session drops the drift samples and any recovery under way, and
/// keeps all statistics; the status is normal where the session has a basis and
/// samples enough, and warming up otherwise. Staying in a session changes nothing.
pub proof fn sessions_resume_their_statistics<R>(v: BasisView<R>, k: SessionKind)
    requires
        v.stats.len() == 6,
    ensures
        ({
            let w = v.in_session(k);
            let s = v.stats[k.slot()];
            &&& w.current == k
            &&& w.stats == v.stats
            &&& w.cfg == v.cfg
            &&& k == v.current ==> w == v
            &&& k != v.current ==> {
                &&& w.drift.len() == 0
                &&& w.recover_since is None
                &&& w.status == BasisStatus::Normal <==> s.beta0 is Some && s.beta.len()
                    >= v.cfg.basis_min_samples
                &&& w.status == BasisStatus::Normal || w.status == BasisStatus::WarmingUp
                &&& w.last_beta_t == v.last_beta_t
                &&& w.last_d == v.last_d
                &&& w.last_beta0_calc == v.last_beta0_calc
                &&& w.dstop_cache == v.dstop_cache
            }
        }),
{
}

/// An observation counts when its quotes arrived together, the quote tells
/// something and the interval is over. One that counts joins the drift samples and,
/// unless the basis is frozen afterwards, the samples of its session; one that does
/// not count leaves both alone. Other sessions are never touched.
pub proof fn observations_that_count_are_sampled<R>(
    v: BasisView<R>,
    inp: BasisInput<R>,
    now: Instant,
)
    requires
        v.stats.len() == 6,
    ensures
        ({
            let k = v.current.slot();
            let w = v.observed(inp, now);
            let counts = arrived_together(v.cfg, inp) && inp.informative && interval_over(
                v,
                k,
                now,
            );
            let frozen = w.status == BasisStatus::Abnormal || w.status == BasisStatus::Recovering;
            &&& w.last_beta_t == Some(inp.beta_t)
            &&& w.current == v.current
            &&& w.cfg == v.cfg
            &&& w.stats.len() == 6
            &&& w.stats[k].beta0 == v.stats[k].beta0
            &&& forall|i: int| 0 <= i < 6 && i != k ==> #[trigger] w.stats[i] == v.stats[i]
            &&& counts ==> {
                &&& util::fresh_tail(
                    v.drift.push((now, inp.beta_t)),
                    w.drift,
                    now,
                    v.cfg.drift_window_secs * 1_000_000_000,
                )
                &&& w.stats[k].last_sample == Some(now)
                &&& frozen ==> w.stats[k].beta == v.stats[k].beta
                &&& !frozen ==> util::fresh_tail(
                    v.stats[k].beta.push((now, inp.beta_t)),
                    w.stats[k].beta,
                    now,
                    v.cfg.basis_window_secs * 1_000_000_000,
                )
            }
            &&& !counts ==> {
                &&& w.drift == v.drift
                &&& w.stats[k].last_sample == v.stats[k].last_sample
                &&& w.stats[k].beta == v.stats[k].beta
                &&& w.stats[k].d_normal == v.stats[k].d_normal
            }
            &&& counts && v.status == BasisStatus::Normal && v.stats[k].beta0 is Some ==> (
            inp.deviation matches Some(dev) ==> (if dev.beyond_stop {
                w.stats[k].d_normal == v.stats[k].d_normal
            } else {
                util::fresh_tail(
                    v.stats[k].d_normal.push((now, dev.d)),
                    w.stats[k].d_normal,
                    now,
                    v.cfg.basis_window_secs * 1_000_000_000,
                )
            }))
            &&& v.status != BasisStatus::Normal ==> w.stats[k].d_normal == v.stats[k].d_normal
        }),
{
    let k = v.current.slot();
    util::evictions_drop_what_is_too_old(
        v.drift.push((now, inp.beta_t)),
        now,
        crate::time::spec_from_secs(v.cfg.drift_window_secs),
    );
    util::evictions_drop_what_is_too_old(
        v.stats[k].beta.push((now, inp.beta_t)),
        now,
        v.window(),
    );
    if let Some(dev) = inp.deviation {
        util::evictions_drop_what_is_too_old(
            v.stats[k].d_normal.push((now, dev.d)),
            now,
            v.window(),
        );
    }
}

/// The guard: a normal basis turns abnormal where the deviation exceeds its limit.
/// A frozen one recovers while the deviation is small, is normal again once that
/// has lasted for the configured time, and starts over otherwise. Without a basis,
/// or while it warms up, the status stays.
pub proof fn the_guard_follows_the_deviation<R>(v: BasisView<R>, inp: BasisInput<R>, now: Instant)
    requires
        v.stats.len() == 6,
    ensures
        ({
            let w = v.observed(inp, now);
            let known = v.stats[v.current.slot()].beta0 is Some;
            &&& !known || inp.deviation is None || v.status == BasisStatus::WarmingUp ==> w.status
                == v.status && w.recover_since == v.recover_since
            &&& !known || inp.deviation is None ==> w.last_d == v.last_d
            &&& known ==> (inp.deviation matches Some(dev) ==> {
                &&& w.last_d == Some(dev.d)
                &&& v.status == BasisStatus::Normal ==> w.status == (if dev.beyond_stop {
                    BasisStatus::Abnormal
                } else {
                    BasisStatus::Normal
                })
                &&& v.status == BasisStatus::Normal && dev.beyond_stop ==> w.recover_since is None
                &&& v.status == BasisStatus::Abnormal || v.status == BasisStatus::Recovering ==> {
                    &&& !dev.recovered ==> w.status == BasisStatus::Abnormal
                        && w.recover_since is None
                    &&& dev.recovered ==> {
                        let since = match v.recover_since {
                            Some(t) => t,
                            None => now,
                        };
                        let over = v.cfg.basis_recover_ms == 0 || now.nanos - since.nanos
                            >= v.cfg.basis_recover_ms * 1_000_000;
                        &&& over ==> w.status == BasisStatus::Normal && w.recover_since is None
                        &&& !over ==> w.status == BasisStatus::Recovering && w.recover_since
                            == Some(since)
                    }
                }
            })
            &&& w.last_beta0_calc == v.last_beta0_calc
            &&& w.dstop_cache == v.dstop_cache
        }),
{
}

/// A computation is due once per second. It first drops old samples of its session.
/// The median becomes the basis where the basis is not frozen and there are samples
/// enough; the quantile is taken where there are enough deviations, two at least.
/// Without a median the basis stays, but for a session that is not frozen and has no
/// sample left. Warming up ends with the first basis that rests on enough samples.
pub proof fn computed_statistics_are_installed<R>(
    v: BasisView<R>,
    median: Option<R>,
    quantile: Option<R>,
    now: Instant,
)
    requires
        v.stats.len() == 6,
    ensures
        v.recompute_due(now) <==> (v.last_beta0_calc matches Some(t) ==> now.nanos - t.nanos
            >= 1_000_000_000),
        ({
            let k = v.current.slot();
            let w = v.refreshed(now);
            let nanos = v.cfg.basis_window_secs * 1_000_000_000;
            &&& w.last_beta0_calc == Some(now)
            &&& util::fresh_tail(v.stats[k].beta, w.stats[k].beta, now, nanos)
            &&& util::fresh_tail(v.stats[k].d_normal, w.stats[k].d_normal, now, nanos)
            &&& w.stats[k].beta0 == v.stats[k].beta0
            &&& w.stats[k].last_sample == v.stats[k].last_sample
            &&& forall|i: int| 0 <= i < 6 && i != k ==> #[trigger] w.stats[i] == v.stats[i]
            &&& w.status == v.status
            &&& w.current == v.current
            &&& w.cfg == v.cfg
        }),
        ({
            let k = v.current.slot();
            let s = v.stats[k];
            let w = v.installed(median, quantile);
            let min = v.cfg.basis_min_samples;
            let frozen = v.status == BasisStatus::Abnormal || v.status == BasisStatus::Recovering;
            &&& v.plan().median <==> !frozen && s.beta.len() >= min
            &&& v.plan().quantile <==> s.d_normal.len() >= min && s.d_normal.len() >= 2
            &&& !frozen && s.beta.len() >= min ==> w.stats[k].beta0 == median
            &&& !frozen && s.beta.len() < min ==> w.stats[k].beta0 == (if s.beta.len() == 0 {
                None
            } else {
                s.beta0
            })
            &&& frozen ==> w.stats[k].beta0 == s.beta0
            &&& s.d_normal.len() >= min && s.d_normal.len() >= 2 ==> w.dstop_cache == quantile
            &&& s.d_normal.len() < min || s.d_normal.len() < 2 ==> w.dstop_cache is None
            &&& v.status != BasisStatus::WarmingUp ==> w.status == v.status
            &&& v.status == BasisStatus::WarmingUp ==> w.status == (if s.beta.len() >= min
                && median is Some {
                BasisStatus::Normal
            } else {
                BasisStatus::WarmingUp
            })
            &&& w.stats[k].beta == s.beta
            &&& w.stats[k].d_normal == s.d_normal
            &&& forall|i: int| 0 <= i < 6 && i != k ==> #[trigger] w.stats[i] == v.stats[i]
            &&& w.drift == v.drift
            &&& w.current == v.current
            &&& w.recover_since == v.recover_since
        }),
{
    let k = v.current.slot();
    util::evictions_drop_what_is_too_old(v.stats[k].beta, now, v.window());
    util::evictions_drop_what_is_too_old(v.stats[k].d_normal, now, v.window());
}

/// An estimator starts in the overnight session without any statistics.
pub proof fn an_estimator_starts_from_nothing<R>(cfg: config::Pricing, k: SessionKind)
    ensures
        ({
            let v = BasisView::<R>::initial(cfg);
            &&& v.current == SessionKind::Overnight
            &&& v.status == BasisStatus::WarmingUp
            &&& v.stats[k.slot()].beta.len() == 0
            &&& v.stats[k.slot()].d_normal.len() == 0
            &&& v.stats[k.slot()].beta0 is None
            &&& v.stats[k.slot()].last_sample is None
            &&& v.drift.len() == 0
        }),
{
}

/// Seconds since Monday midnight.
pub open spec fn second_of_week(t: LocalTime) -> int {
    t.weekday * 86_400 + t.second
}

/// Weekends last from Friday eight in the evening to Monday four in the morning. On
/// the other days the regular session runs from half past nine to four in the
/// afternoon, the pre session from four in the morning up to it, the post session
/// from its end to eight in the evening, and the rest is overnight. A holiday is
/// blacked out whole.
pub proof fn sessions_follow_the_local_clock(c: CalendarView, t: LocalTime)
    requires
        t.weekday < 7,
        t.second < 86_400,
    ensures
        ({
            let s = t.second;
            let holiday = exists|i: int|
                0 <= i < c.holidays.len() && #[trigger] c.holidays[i] == t.date;
            let weekend = second_of_week(t) < 4 * 3600 || second_of_week(t) >= 4 * 86_400 + 20
                * 3600;
            let k = c.at_local(t);
            &&& k == SessionKind::Blackout <==> holiday
            &&& k == SessionKind::Weekend <==> !holiday && weekend
            &&& k == SessionKind::Pre <==> !holiday && !weekend && 14_400 <= s < 34_200
            &&& k == SessionKind::Regular <==> !holiday && !weekend && 34_200 <= s < 57_600
            &&& k == SessionKind::Post <==> !holiday && !weekend && 57_600 <= s < 72_000
            &&& k == SessionKind::Overnight <==> !holiday && !weekend && (s < 14_400 || s
                >= 72_000)
        }),
{
    if c.holidays.contains(t.date) {
        let i = choose|i: int| 0 <= i < c.holidays.len() && c.holidays[i] == t.date;
        assert(c.holidays[i] == t.date);
    }
}

/// A point in time as one number of nanoseconds.
pub open spec fn nanos_of(t: UtcTime) -> int {
    t.secs * 1_000_000_000 + t.nanos
}

/// A forced session wins over everything; then event windows, from their start up
/// to their end, black out; and only then does the local clock count.
pub proof fn force_and_events_come_first(c: CalendarView, at: UtcTime)
    requires
        at.nanos < 1_000_000_000,
        forall|i: int|
            0 <= i < c.event_windows.len() ==> (#[trigger] c.event_windows[i]).0.nanos
                < 1_000_000_000 && c.event_windows[i].1.nanos < 1_000_000_000,
    ensures
        ({
            let event = exists|i: int|
                0 <= i < c.event_windows.len() && nanos_of((#[trigger] c.event_windows[i]).0)
                    <= nanos_of(at) < nanos_of(c.event_windows[i].1);
            let local = session::local_time_in(c.zone, at.secs, at.nanos);
            &&& c.force matches Some(k) ==> c.session_at(at) == k
            &&& c.force is None && event ==> c.session_at(at) == SessionKind::Blackout
            &&& c.force is None && !event ==> c.session_at(at) == c.at_local(local)
        }),
{
    assert forall|i: int| 0 <= i < c.event_windows.len() implies (at.not_before(
        (#[trigger] c.event_windows[i]).0,
    ) && !at.not_before(c.event_windows[i].1) <==> nanos_of(c.event_windows[i].0) <= nanos_of(at)
        < nanos_of(c.event_windows[i].1)) by {}
}

proof fn lemma_kinds(labels: Seq<String>)
    ensures
        match session::kinds_of(labels) {
            Ok(ks) => ks.len() == labels.len() && forall|i: int|
                0 <= i < labels.len() ==> session::kind_of((#[trigger] labels[i])@) == Some(ks[i]),
            Err(e) => exists|i: int|
                0 <= i < labels.len() && (#[trigger] labels[i])@ == e && session::kind_of(
                    labels[i]@,
                ) is None && forall|j: int|
                    0 <= j < i ==> session::kind_of((#[trigger] labels[j])@) is Some,
        },
    decreases labels.len(),
{
    if labels.len() > 0 {
        let init = labels.drop_last();
        lemma_kinds(init);
        assert(forall|i: int| 0 <= i < init.len() ==> init[i] == labels[i]);
        match session::kinds_of(init) {
            Ok(head) => {
                assert(labels.last() == labels[labels.len() - 1]);
            },
            Err(e) => {
                let i = choose|i: int|
                    0 <= i < init.len() && (#[trigger] init[i])@ == e && session::kind_of(
                        init[i]@,
                    ) is None && forall|j: int|
                        0 <= j < i ==> session::kind_of((#[trigger] init[j])@) is Some;
                assert(labels[i]@ == e);
                assert forall|j: int| 0 <= j < i implies session::kind_of(
                    (#[trigger] labels[j])@,
                ) is Some by {
                    assert(init[j] == labels[j]);
                }
            },
        }
    }
}

proof fn lemma_dates(texts: Seq<String>)
    ensures
        match session::dates_of(texts) {
            Ok(ds) => ds.len() == texts.len() && forall|i: int|
                0 <= i < texts.len() ==> session::date_of((#[trigger] texts[i])@) == Some(ds[i]),
            Err(e) => exists|i: int|
                0 <= i < texts.len() && (#[trigger] texts[i])@ == e && session::date_of(
                    texts[i]@,
                ) is None && forall|j: int|
                    0 <= j < i ==> session::date_of((#[trigger] texts[j])@) is Some,
        },
    decreases texts.len(),
{
    if texts.len() > 0 {
        let init = texts.drop_last();
        lemma_dates(init);
        assert(forall|i: int| 0 <= i < init.len() ==> init[i] == texts[i]);
        match session::dates_of(init) {
            Ok(head) => {
                assert(texts.last() == texts[texts.len() - 1]);
            },
            Err(e) => {
                let i = choose|i: int|
                    0 <= i < init.len() && (#[trigger] init[i])@ == e && session::date_of(
                        init[i]@,
                    ) is None && forall|j: int|
                        0 <= j < i ==> session::date_of((#[trigger] init[j])@) is Some;
                assert(texts[i]@ == e);
                assert forall|j: int| 0 <= j < i implies session::date_of(
                    (#[trigger] texts[j])@,
                ) is Some by {
                    assert(init[j] == texts[j]);
                }
            },
        }
    }
}

/// A window whose two texts are points in time.
pub open spec fn is_window(pair: [String; 2]) -> bool {
    session::rfc3339_of(pair@[0]@) is Some && session::rfc3339_of(pair@[1]@) is Some
}

/// What is wrong with the texts of a window: the start is named before the end.
pub open spec fn window_error(pair: [String; 2]) -> SessionErrorView {
    if session::rfc3339_of(pair@[0]@) is None {
        SessionErrorView::BadEventStart(pair@[0]@)
    } else {
        SessionErrorView::BadEventEnd(pair@[1]@)
    }
}

proof fn lemma_windows(pairs: Seq<[String; 2]>)
    ensures
        match session::windows_of(pairs) {
            Ok(ws) => ws.len() == pairs.len() && forall|i: int|
                0 <= i < pairs.len() ==> session::rfc3339_of((#[trigger] pairs[i])@[0]@) == Some(
                    ws[i].0,
                ) && session::rfc3339_of(pairs[i]@[1]@) == Some(ws[i].1),
            Err(e) => exists|i: int|
                0 <= i < pairs.len() && !is_window(#[trigger] pairs[i]) && e == window_error(
                    pairs[i],
                ) && forall|j: int| 0 <= j < i ==> is_window(#[trigger] pairs[j]),
        },
    decreases pairs.len(),
{
    if pairs.len() > 0 {
        let init = pairs.drop_last();
        lemma_windows(init);
        assert(forall|i: int| 0 <= i < init.len() ==> init[i] == pairs[i]);
        match session::windows_of(init) {
            Ok(head) => {
                assert(pairs.last() == pairs[pairs.len() - 1]);
                assert forall|j: int| 0 <= j < init.len() implies is_window(#[trigger] pairs[j]) by {
                    assert(init[j] == pairs[j]);
                }
            },
            Err(e) => {
                let i = choose|i: int|
                    0 <= i < init.len() && !is_window(#[trigger] init[i]) && e == window_error(
                        init[i],
                    ) && forall|j: int| 0 <= j < i ==> is_window(#[trigger] init[j]);
                assert(!is_window(pairs[i]));
                assert forall|j: int| 0 <= j < i implies is_window(#[trigger] pairs[j]) by {
                    assert(init[j] == pairs[j]);
                }
            },
        }
    }
}

/// A calendar holds what its configuration says, entry by entry; it exists exactly
/// where the zone is known and every label, day and window can be read.
pub proof fn a_calendar_holds_its_configuration(cfg: config::Session)
    ensures
        ({
            let readable = {
                &&& session::zone_exists(cfg.timezone@)
                &&& forall|i: int|
                    0 <= i < cfg.tradable@.len() ==> session::kind_of(
                        (#[trigger] cfg.tradable@[i])@,
                    ) is Some
                &&& cfg.force_session@.len() > 0 ==> session::kind_of(cfg.force_session@) is Some
                &&& forall|i: int|
                    0 <= i < cfg.holidays@.len() ==> session::date_of(
                        (#[trigger] cfg.holidays@[i])@,
                    ) is Some
                &&& forall|i: int|
                    0 <= i < cfg.event_windows@.len() ==> is_window(
                        #[trigger] cfg.event_windows@[i],
                    )
            };
            &&& session::calendar_of(cfg) is Ok <==> readable
            &&& session::calendar_of(cfg) matches Ok(c) ==> {
                &&& c.zone == cfg.timezone@
                &&& c.tradable.len() == cfg.tradable@.len()
                &&& forall|i: int|
                    0 <= i < cfg.tradable@.len() ==> session::kind_of(
                        (#[trigger] cfg.tradable@[i])@,
                    ) == Some(c.tradable[i])
                &&& c.holidays.len() == cfg.holidays@.len()
                &&& forall|i: int|
                    0 <= i < cfg.holidays@.len() ==> session::date_of(
                        (#[trigger] cfg.holidays@[i])@,
                    ) == Some(c.holidays[i])
                &&& c.event_windows.len() == cfg.event_windows@.len()
                &&& forall|i: int|
                    0 <= i < cfg.event_windows@.len() ==> session::rfc3339_of(
                        (#[trigger] cfg.event_windows@[i])@[0]@,
                    ) == Some(c.event_windows[i].0) && session::rfc3339_of(
                        cfg.event_windows@[i]@[1]@,
                    ) == Some(c.event_windows[i].1)
                &&& cfg.force_session@.len() == 0 ==> c.force is None
                &&& cfg.force_session@.len() > 0 ==> c.force is Some && c.force
                    == session::kind_of(cfg.force_session@)
            }
        }),
{
    lemma_kinds(cfg.tradable@);
    lemma_dates(cfg.holidays@);
    lemma_windows(cfg.event_windows@);
    if let Ok(c) = session::calendar_of(cfg) {
        assert forall|i: int| 0 <= i < cfg.event_windows@.len() implies is_window(
            #[trigger] cfg.event_windows@[i],
        ) by {}
    }
}

/// The first thing that cannot be read is reported: the zone, a tradable label, the
/// forced label, a holiday, a window; and of a list its first bad entry.
pub proof fn the_first_calendar_error_is_reported(cfg: config::Session, i: int)
    ensures
        ({
            let r = session::calendar_of(cfg);
            let zone = session::zone_exists(cfg.timezone@);
            let labels = forall|j: int|
                0 <= j < cfg.tradable@.len() ==> session::kind_of(
                    (#[trigger] cfg.tradable@[j])@,
                ) is Some;
            let force = cfg.force_session@.len() > 0 ==> session::kind_of(
                cfg.force_session@,
            ) is Some;
            let days = forall|j: int|
                0 <= j < cfg.holidays@.len() ==> session::date_of(
                    (#[trigger] cfg.holidays@[j])@,
                ) is Some;
            &&& !zone ==> r == Err::<CalendarView, _>(
                SessionErrorView::BadTimezone(cfg.timezone@),
            )
            &&& zone && 0 <= i < cfg.tradable@.len() && session::kind_of(cfg.tradable@[i]@) is None
                && (forall|j: int|
                0 <= j < i ==> session::kind_of((#[trigger] cfg.tradable@[j])@) is Some) ==> r
                == Err::<CalendarView, _>(SessionErrorView::UnknownSession(cfg.tradable@[i]@))
            &&& zone && labels && !force ==> r == Err::<CalendarView, _>(
                SessionErrorView::UnknownSession(cfg.force_session@),
            )
            &&& zone && labels && force && 0 <= i < cfg.holidays@.len() && session::date_of(
                cfg.holidays@[i]@,
            ) is None && (forall|j: int|
                0 <= j < i ==> session::date_of((#[trigger] cfg.holidays@[j])@) is Some) ==> r
                == Err::<CalendarView, _>(SessionErrorView::BadHoliday(cfg.holidays@[i]@))
            &&& zone && labels && force && days && 0 <= i < cfg.event_windows@.len() && !is_window(
                cfg.event_windows@[i],
            ) && (forall|j: int|
                0 <= j < i ==> is_window(#[trigger] cfg.event_windows@[j])) ==> r == Err::<
                CalendarView,
                _,
            >(window_error(cfg.event_windows@[i]))
        }),
{
    lemma_kinds(cfg.tradable@);
    lemma_dates(cfg.holidays@);
    lemma_windows(cfg.event_windows@);
    if 0 <= i < cfg.event_windows@.len() {
        assert(is_window(cfg.event_windows@[i]) == is_window(cfg.event_windows@[i]));
    }
}

/// Only the six labels name a session, in whatever case their letters are.
pub proof fn labels_name_their_session(s: Seq<char>, k: SessionKind)
    ensures
        session::kind_of(s) == Some(k) ==> crate::text::ascii_lower(s) == k.spec_label(),
        crate::text::ascii_lower(s) == k.spec_label() ==> session::kind_of(s) == Some(k),
        SessionKind::Regular.spec_label() == "regular"@,
        SessionKind::Pre.spec_label() == "pre"@,
        SessionKind::Post.spec_label() == "post"@,
        SessionKind::Overnight.spec_label() == "overnight"@,
        SessionKind::Weekend.spec_label() == "weekend"@,
        SessionKind::Blackout.spec_label() == "blackout"@,
{
    reveal_strlit("regular");
    reveal_strlit("pre");
    reveal_strlit("post");
    reveal_strlit("overnight");
    reveal_strlit("weekend");
    reveal_strlit("blackout");
    assert("pre"@.len() == 3 && "post"@.len() == 4 && "regular"@.len() == 7);
    assert("overnight"@.len() == 9 && "weekend"@.len() == 7 && "blackout"@.len() == 8);
    assert("regular"@[0] != "weekend"@[0]);
}

} // verus!
