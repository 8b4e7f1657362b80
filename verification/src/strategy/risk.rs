//! Trust and risk gates evaluated every cycle.
//!
//! Anything that makes market data, private state, positions or margin
//! untrustworthy removes the permission to add risk and, when severe, the
//! permission to keep any resting order at all.

use vstd::prelude::*;

use crate::config;
use crate::market::basis::BasisStatus;
use crate::market::session::SessionKind;
use crate::strategy::inventory::Positions;
use crate::time;
use crate::time::{Duration, Instant, NANOS_PER_MILLI};

verus! {

#[derive(Debug, Clone, Copy)]
pub struct TrustInputs {
    pub binance_age: Option<Duration>,
    pub gate_bbo_age: Option<Duration>,
    pub gate_book_synced: bool,
    pub private_connected: bool,
    pub private_age: Option<Duration>,
    pub account_age: Option<Duration>,
    pub position_ok: bool,
    /// The exchange-reported available margin is known and exceeds the buffer.
    pub margin_ok: bool,
    pub basis: BasisStatus,
    pub session: SessionKind,
    pub session_tradable: bool,
    pub loss_limit_hit: bool,
    pub halted: bool,
    /// The fair price and the mark price are known and too far apart.
    pub mark_deviates: bool,
}

pub struct TrustReport {
    /// The reference price of Binance is fresh.
    pub reference_ok: bool,
    /// Market data on both venues is fresh and Gate's book is consistent.
    pub market_ok: bool,
    /// Private stream and account state are trustworthy.
    pub private_ok: bool,
    pub position_ok: bool,
    pub margin_ok: bool,
    pub basis_ok: bool,
    pub session_ok: bool,
    pub reasons: Vec<String>,
}

/// A trust report as plain values.
pub ghost struct TrustView {
    pub reference_ok: bool,
    pub market_ok: bool,
    pub private_ok: bool,
    pub position_ok: bool,
    pub margin_ok: bool,
    pub basis_ok: bool,
    pub session_ok: bool,
    pub reasons: Seq<Seq<char>>,
}

impl View for TrustReport {
    type V = TrustView;

    open spec fn view(&self) -> TrustView {
        TrustView {
            reference_ok: self.reference_ok,
            market_ok: self.market_ok,
            private_ok: self.private_ok,
            position_ok: self.position_ok,
            margin_ok: self.margin_ok,
            basis_ok: self.basis_ok,
            session_ok: self.session_ok,
            reasons: self.reasons@.map_values(|s: String| s@),
        }
    }
}

impl TrustView {
    pub open spec fn distrust() -> TrustView {
        TrustView {
            reference_ok: false,
            market_ok: false,
            private_ok: false,
            position_ok: false,
            margin_ok: false,
            basis_ok: false,
            session_ok: false,
            reasons: seq![],
        }
    }

    pub open spec fn resting(self) -> bool {
        self.market_ok && self.private_ok
    }

    pub open spec fn new_risk(self) -> bool {
        self.market_ok && self.private_ok && self.position_ok && self.margin_ok && self.basis_ok
            && self.session_ok
    }
}

impl TrustReport {
    /// Maker reduce orders may rest (the market and our fills can be seen).
    pub fn allow_resting(&self) -> (r: bool)
        ensures
            r == self@.resting(),
    {
        self.market_ok && self.private_ok
    }

    /// Risk-adding orders allowed.
    pub fn allow_new_risk(&self) -> (r: bool)
        ensures
            r == self@.new_risk(),
    {
        self.market_ok && self.private_ok && self.position_ok && self.margin_ok && self.basis_ok
            && self.session_ok
    }

    /// The report with the same contents.
    pub fn copy(&self) -> (r: TrustReport)
        ensures
            r@ == self@,
    {
        let mut reasons: Vec<String> = Vec::new();
        let mut i: usize = 0;
        while i < self.reasons.len()
            invariant
                i <= self.reasons.len(),
                reasons@ == self.reasons@.take(i as int),
            decreases self.reasons.len() - i,
        {
            reasons.push(self.reasons[i].clone());
            i = i + 1;
            assert(reasons@ =~= self.reasons@.take(i as int));
        }
        assert(self.reasons@.take(i as int) =~= self.reasons@);
        TrustReport {
            reference_ok: self.reference_ok,
            market_ok: self.market_ok,
            private_ok: self.private_ok,
            position_ok: self.position_ok,
            margin_ok: self.margin_ok,
            basis_ok: self.basis_ok,
            session_ok: self.session_ok,
            reasons,
        }
    }
}

impl Default for TrustReport {
    fn default() -> (r: Self)
        ensures
            r@ == TrustView::distrust(),
    {
        let r = TrustReport {
            reference_ok: false,
            market_ok: false,
            private_ok: false,
            position_ok: false,
            margin_ok: false,
            basis_ok: false,
            session_ok: false,
            reasons: Vec::new(),
        };
        assert(r@.reasons =~= seq![]);
        r
    }
}

/// Permission to add risk includes permission to rest.
pub proof fn new_risk_implies_resting(t: TrustView)
    ensures
        t.new_risk() ==> t.resting(),
{
}

/// An unknown age is stale; a known one is stale beyond the limit.
pub open spec fn stale(age: Option<Duration>, limit_ms: int) -> bool {
    match age {
        Some(a) => a.nanos > limit_ms * NANOS_PER_MILLI,
        None => true,
    }
}

fn is_stale(age: Option<Duration>, limit_ms: u128) -> (r: bool)
    requires
        limit_ms <= u64::MAX * 5,
    ensures
        r == stale(age, limit_ms as int),
{
    match age {
        Some(a) => a.nanos > limit_ms * NANOS_PER_MILLI,
        None => true,
    }
}

/// Label of an abnormal basis.
pub open spec fn basis_reason(s: BasisStatus) -> Seq<char> {
    match s {
        BasisStatus::WarmingUp => "basis_warmingup"@,
        BasisStatus::Normal => "basis_normal"@,
        BasisStatus::Abnormal => "basis_abnormal"@,
        BasisStatus::Recovering => "basis_recovering"@,
    }
}

/// A reason, if it applies.
pub open spec fn reason_if(applies: bool, reason: Seq<char>) -> Seq<Seq<char>> {
    if applies {
        seq![reason]
    } else {
        seq![]
    }
}

/// Weekends and blackouts never allow new risk.
pub open spec fn session_allows(inp: TrustInputs) -> bool {
    inp.session_tradable && inp.session != SessionKind::Weekend && inp.session
        != SessionKind::Blackout
}

/// The trust report for the inputs.
pub open spec fn trust(cfg: config::Risk, inp: TrustInputs) -> TrustView {
    let binance = stale(inp.binance_age, cfg.binance_stale_ms as int);
    let gate = stale(inp.gate_bbo_age, cfg.gate_stale_ms as int);
    let private = !inp.private_connected || stale(inp.private_age, cfg.private_stale_ms as int);
    let account = stale(inp.account_age, cfg.account_poll_ms * 5);
    TrustView {
        reference_ok: !binance,
        market_ok: !binance && !gate && inp.gate_book_synced,
        private_ok: !private && !account,
        position_ok: inp.position_ok,
        margin_ok: inp.margin_ok,
        basis_ok: inp.basis == BasisStatus::Normal && !inp.mark_deviates && !inp.loss_limit_hit
            && !inp.halted,
        session_ok: session_allows(inp) && !inp.halted,
        reasons: Seq::<Seq<char>>::empty() + reason_if(binance, "binance_stale"@) + reason_if(gate, "gate_stale"@)
            + reason_if(!inp.gate_book_synced, "gate_book_unsynced"@) + reason_if(
            private,
            "private_feed"@,
        ) + reason_if(account, "account_stale"@) + reason_if(
            !inp.position_ok,
            "position_mismatch"@,
        ) + reason_if(!inp.margin_ok, "margin"@) + reason_if(
            inp.basis != BasisStatus::Normal,
            basis_reason(inp.basis),
        ) + reason_if(inp.mark_deviates, "mark_deviation"@) + reason_if(
            !session_allows(inp),
            "session_"@ + inp.session.spec_label(),
        ) + reason_if(inp.loss_limit_hit, "loss_limit"@) + reason_if(inp.halted, "halted"@),
    }
}

/// Appends a reason, if it applies.
fn add_reason(reasons: &mut Vec<String>, applies: bool, reason: &str)
    ensures
        final(reasons)@.map_values(|s: String| s@) == old(reasons)@.map_values(|s: String| s@)
            + reason_if(applies, reason@),
{
    let ghost was = reasons@.map_values(|s: String| s@);
    if applies {
        reasons.push(reason.to_string());
        assert(reasons@.map_values(|s: String| s@) =~= was + seq![reason@]);
    } else {
        assert(was + seq![] =~= was);
    }
}

fn basis_label(s: BasisStatus) -> (r: &'static str)
    ensures
        r@ == basis_reason(s),
{
    match s {
        BasisStatus::WarmingUp => "basis_warmingup",
        BasisStatus::Normal => "basis_normal",
        BasisStatus::Abnormal => "basis_abnormal",
        BasisStatus::Recovering => "basis_recovering",
    }
}

/// Evaluates the gates; every gate that is closed gives a reason.
pub fn evaluate(cfg: &config::Risk, inp: TrustInputs) -> (r: TrustReport)
    ensures
        r@ == trust(*cfg, inp),
{
    let binance = is_stale(inp.binance_age, cfg.binance_stale_ms as u128);
    let gate = is_stale(inp.gate_bbo_age, cfg.gate_stale_ms as u128);
    let private = !inp.private_connected || is_stale(
        inp.private_age,
        cfg.private_stale_ms as u128,
    );
    let account = is_stale(inp.account_age, cfg.account_poll_ms as u128 * 5);
    let session = inp.session_tradable && inp.session != SessionKind::Weekend && inp.session
        != SessionKind::Blackout;
    let mut reasons: Vec<String> = Vec::new();
    assert(reasons@.map_values(|s: String| s@) =~= seq![]);
    add_reason(&mut reasons, binance, "binance_stale");
    add_reason(&mut reasons, gate, "gate_stale");
    add_reason(&mut reasons, !inp.gate_book_synced, "gate_book_unsynced");
    add_reason(&mut reasons, private, "private_feed");
    add_reason(&mut reasons, account, "account_stale");
    add_reason(&mut reasons, !inp.position_ok, "position_mismatch");
    add_reason(&mut reasons, !inp.margin_ok, "margin");
    add_reason(&mut reasons, inp.basis != BasisStatus::Normal, basis_label(inp.basis));
    add_reason(&mut reasons, inp.mark_deviates, "mark_deviation");
    let label = "session_".to_string().concat(inp.session.label());
    add_reason(&mut reasons, !session, label.as_str());
    add_reason(&mut reasons, inp.loss_limit_hit, "loss_limit");
    add_reason(&mut reasons, inp.halted, "halted");
    let r = TrustReport {
        reference_ok: !binance,
        market_ok: !binance && !gate && inp.gate_book_synced,
        private_ok: !private && !account,
        position_ok: inp.position_ok,
        margin_ok: inp.margin_ok,
        basis_ok: inp.basis == BasisStatus::Normal && !inp.mark_deviates && !inp.loss_limit_hit
            && !inp.halted,
        session_ok: session && !inp.halted,
        reasons,
    };
    r
}

/// Nothing is wrong exactly when every permission is given and no reason is
/// reported.
pub proof fn no_reason_means_full_permission(cfg: config::Risk, inp: TrustInputs)
    ensures
        trust(cfg, inp).new_risk() <==> trust(cfg, inp).reasons.len() == 0,
{
}

/// On a weekend, in a blackout, after a halt and at the loss limit no new risk
/// is ever allowed.
pub proof fn closed_sessions_and_halts_block_new_risk(cfg: config::Risk, inp: TrustInputs)
    ensures
        inp.session == SessionKind::Weekend || inp.session == SessionKind::Blackout || inp.halted
            || inp.loss_limit_hit || !inp.session_tradable ==> !trust(cfg, inp).new_risk(),
{
}

/// Whether orders may rest depends on the freshness of the feeds alone: basis,
/// session, margin, positions, losses and a halt leave it as it is.
pub proof fn resting_depends_on_freshness_alone(cfg: config::Risk, a: TrustInputs, b: TrustInputs)
    requires
        a.binance_age == b.binance_age,
        a.gate_bbo_age == b.gate_bbo_age,
        a.gate_book_synced == b.gate_book_synced,
        a.private_connected == b.private_connected,
        a.private_age == b.private_age,
        a.account_age == b.account_age,
    ensures
        trust(cfg, a).resting() == trust(cfg, b).resting(),
{
}

/// Compares locally kept positions with exchange-reported ones.
#[derive(Debug, Clone, Copy)]
pub struct PositionReconciler {
    pub exchange: Option<Positions>,
    pub exchange_at: Option<Instant>,
    pub mismatch_since: Option<Instant>,
}

impl PositionReconciler {
    pub open spec fn unseen() -> PositionReconciler {
        PositionReconciler { exchange: None, exchange_at: None, mismatch_since: None }
    }

    /// The exchange positions, if any, are admitted counts.
    pub open spec fn wf(self) -> bool {
        self.exchange matches Some(p) ==> p.wf()
    }

    pub fn on_exchange(&mut self, p: Positions, now: Instant)
        ensures
            *final(self) == (PositionReconciler {
                exchange: Some(p),
                exchange_at: Some(now),
                ..*old(self)
            }),
    {
        self.exchange = Some(p);
        self.exchange_at = Some(now);
    }

    /// Both positions differ by at most the tolerance.
    pub open spec fn agrees(a: Positions, b: Positions, tolerance: int) -> bool {
        -tolerance <= a.long - b.long <= tolerance && -tolerance <= a.short - b.short <= tolerance
    }

    /// The reconciler after a check, and whether the positions are trusted: they
    /// agree, or have disagreed for less than the grace period.
    pub open spec fn checked(self, local: Positions, cfg: config::Risk, now: Instant) -> (
        PositionReconciler,
        bool,
    ) {
        match self.exchange {
            None => (self, true),
            Some(ex) => if Self::agrees(ex, local, cfg.position_mismatch_tolerance as int) {
                (PositionReconciler { mismatch_since: None, ..self }, true)
            } else {
                let since = match self.mismatch_since {
                    Some(t) => t,
                    None => now,
                };
                (
                    PositionReconciler { mismatch_since: Some(since), ..self },
                    !time::reached(since, now, cfg.position_mismatch_ms),
                )
            },
        }
    }

    /// Whether positions agree within the tolerance or the grace period.
    pub fn check(&mut self, local: Positions, cfg: &config::Risk, now: Instant) -> (r: bool)
        requires
            old(self).wf(),
            local.wf(),
        ensures
            (*final(self), r) == old(self).checked(local, *cfg, now),
            final(self).wf(),
    {
        let ex = match self.exchange {
            Some(p) => p,
            None => return true,
        };
        let tol: i128 = cfg.position_mismatch_tolerance as i128;
        let dl: i128 = ex.long as i128 - local.long as i128;
        let ds: i128 = ex.short as i128 - local.short as i128;
        if -tol <= dl && dl <= tol && -tol <= ds && ds <= tol {
            self.mismatch_since = None;
            true
        } else {
            let since = match self.mismatch_since {
                Some(t) => t,
                None => now,
            };
            self.mismatch_since = Some(since);
            !now.reached_since(since, cfg.position_mismatch_ms)
        }
    }
}

impl Default for PositionReconciler {
    fn default() -> (r: Self)
        ensures
            r == PositionReconciler::unseen(),
    {
        PositionReconciler { exchange: None, exchange_at: None, mismatch_since: None }
    }
}

/// A mismatch is tolerated only during the grace period that starts when it is
/// first seen.
pub proof fn mismatches_have_a_grace_period(
    r: PositionReconciler,
    local: Positions,
    cfg: config::Risk,
    first: Instant,
    later: Instant,
)
    requires
        r.exchange matches Some(ex) && !PositionReconciler::agrees(
            ex,
            local,
            cfg.position_mismatch_tolerance as int,
        ),
        r.mismatch_since is None,
    ensures
        r.checked(local, cfg, first).0.checked(local, cfg, later).1 <==> !time::reached(
            first,
            later,
            cfg.position_mismatch_ms,
        ),
{
}

/// An age is known and not beyond its limit.
pub open spec fn is_fresh(age: Option<Duration>, limit_ms: int) -> bool {
    age matches Some(a) && a.nanos <= limit_ms * 1_000_000
}

/// Each permission is given exactly when what it rests on holds: fresh quotes and
/// a consistent book, a private stream that is heard, an account that was polled,
/// and a normal basis in a session that is open.
pub proof fn permissions_rest_on_what_they_need(cfg: config::Risk, inp: TrustInputs)
    ensures
        ({
            let t = trust(cfg, inp);
            let market = is_fresh(inp.binance_age, cfg.binance_stale_ms as int) && is_fresh(
                inp.gate_bbo_age,
                cfg.gate_stale_ms as int,
            ) && inp.gate_book_synced;
            let private = inp.private_connected && is_fresh(
                inp.private_age,
                cfg.private_stale_ms as int,
            ) && is_fresh(inp.account_age, cfg.account_poll_ms * 5);
            let open = inp.session_tradable && inp.session != SessionKind::Weekend && inp.session
                != SessionKind::Blackout;
            &&& t.reference_ok <==> is_fresh(inp.binance_age, cfg.binance_stale_ms as int)
            &&& t.market_ok <==> market
            &&& t.private_ok <==> private
            &&& t.resting() <==> market && private
            &&& t.new_risk() <==> market && private && inp.position_ok && inp.margin_ok
                && inp.basis == BasisStatus::Normal && !inp.mark_deviates && !inp.loss_limit_hit
                && !inp.halted && open
        }),
{
}

/// Orders rest on the market and the private stream; new risk needs every gate.
pub proof fn gates_are_taken_together(t: TrustView)
    ensures
        t.resting() <==> t.market_ok && t.private_ok,
        t.new_risk() <==> t.resting() && t.position_ok && t.margin_ok && t.basis_ok && t.session_ok,
{
}

/// Positions disagree once either differs by more than the tolerance, and a
/// mismatch that ends is forgotten: the next one has the whole grace period.
pub proof fn a_mismatch_is_counted_from_its_start(
    r: PositionReconciler,
    local: Positions,
    cfg: config::Risk,
    now: Instant,
)
    ensures
        r.exchange is None ==> r.checked(local, cfg, now) == (r, true),
        r.exchange matches Some(ex) ==> {
            let tol = cfg.position_mismatch_tolerance as int;
            let off = ex.long - local.long > tol || local.long - ex.long > tol || ex.short
                - local.short > tol || local.short - ex.short > tol;
            let (n, ok) = r.checked(local, cfg, now);
            &&& n.exchange == r.exchange
            &&& n.exchange_at == r.exchange_at
            &&& !off ==> ok && n.mismatch_since is None
            &&& off && r.mismatch_since is None ==> n.mismatch_since == Some(now) && (ok
                <==> cfg.position_mismatch_ms > 0)
            &&& off && r.mismatch_since is Some ==> n.mismatch_since == r.mismatch_since
            &&& r.mismatch_since matches Some(t) ==> off ==> (ok <==> !time::reached(
                t,
                now,
                cfg.position_mismatch_ms,
            ))
        },
{
}

/// Nothing is trusted before it was looked at: neither quotes nor new risk are
/// allowed.
pub proof fn nothing_is_trusted_at_first()
    ensures
        ({
            let t = TrustView::distrust();
            &&& !t.reference_ok && !t.market_ok && !t.private_ok && !t.position_ok
            &&& !t.margin_ok && !t.basis_ok && !t.session_ok
            &&& !t.resting()
            &&& t.reasons.len() == 0
        }),
{
}

} // verus!
