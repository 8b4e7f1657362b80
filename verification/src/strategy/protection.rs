//! Per-side protection state machine driven by the Binance velocity signal and
//! Gate's flow-impact signal.
//!
//! A signal gives a level per **endangered quoting side**: Binance rising fast
//! endangers our asks, falling fast our bids; Gate taker buying endangers our
//! asks, taker selling our bids. When the signal clears, the side recovers in
//! stages: the restriction is kept for `recover_half_ms`, then sizes are halved
//! until `recover_full_ms`, then they are full again.

use vstd::prelude::*;

use crate::config;
use crate::time;
use crate::time::Instant;
use crate::types::Side;

verus! {

#[derive(Debug, Clone, Copy, PartialEq, Eq, Structural)]
pub enum Level {
    Off,
    Light,
    Strong,
}

impl Level {
    pub open spec fn rank(self) -> int {
        match self {
            Level::Off => 0,
            Level::Light => 1,
            Level::Strong => 2,
        }
    }

    pub open spec fn spec_stronger(self, other: Level) -> Level {
        if self.rank() >= other.rank() {
            self
        } else {
            other
        }
    }

    /// The stronger of two levels.
    pub fn stronger(self, other: Level) -> (r: Level)
        ensures
            r == self.spec_stronger(other),
    {
        match (self, other) {
            (Level::Strong, _) => self,
            (_, Level::Strong) => other,
            (Level::Light, _) => self,
            (_, Level::Light) => other,
            _ => self,
        }
    }
}

#[derive(Debug, Clone, Copy, PartialEq, Eq, Structural)]
pub enum Phase {
    Normal,
    /// Signal active at this level.
    Active(Level),
    /// Signal cleared; the last level still applies.
    Hold(Level),
    /// Half size, normal distance.
    Half,
}

impl Phase {
    /// The level that restricts the side in this phase.
    pub open spec fn level(self) -> Level {
        match self {
            Phase::Active(l) | Phase::Hold(l) => l,
            _ => Level::Off,
        }
    }

    fn applied(self) -> (r: Level)
        ensures
            r == self.level(),
    {
        match self {
            Phase::Active(l) | Phase::Hold(l) => l,
            _ => Level::Off,
        }
    }
}

#[derive(Debug, Clone, Copy, PartialEq, Eq, Structural)]
pub struct SideProtection {
    pub phase: Phase,
    /// When the signal last cleared.
    pub cleared_at: Option<Instant>,
    pub last_level: Level,
}

impl SideProtection {
    pub open spec fn calm() -> SideProtection {
        SideProtection { phase: Phase::Normal, cleared_at: None, last_level: Level::Off }
    }

    /// The side after a signal level at `now`.
    pub open spec fn advanced(self, level: Level, cfg: config::Protection, now: Instant) -> Self {
        if level != Level::Off {
            SideProtection { phase: Phase::Active(level), last_level: level, cleared_at: None }
        } else {
            match self.phase {
                Phase::Normal => self,
                Phase::Active(l) => SideProtection {
                    phase: Phase::Hold(l),
                    cleared_at: Some(now),
                    ..self
                },
                Phase::Hold(_) | Phase::Half => {
                    let since = match self.cleared_at {
                        Some(t) => t,
                        None => now,
                    };
                    if time::reached(since, now, cfg.recover_full_ms) {
                        SideProtection { phase: Phase::Normal, cleared_at: None, ..self }
                    } else if time::reached(since, now, cfg.recover_half_ms) {
                        SideProtection { phase: Phase::Half, ..self }
                    } else {
                        self
                    }
                },
            }
        }
    }

    fn advance(&mut self, level: Level, cfg: config::Protection, now: Instant)
        ensures
            *final(self) == old(self).advanced(level, cfg, now),
    {
        if level != Level::Off {
            self.phase = Phase::Active(level);
            self.last_level = level;
            self.cleared_at = None;
            return ;
        }
        match self.phase {
            Phase::Normal => {},
            Phase::Active(l) => {
                self.cleared_at = Some(now);
                self.phase = Phase::Hold(l);
            },
            Phase::Hold(_) | Phase::Half => {
                let since = match self.cleared_at {
                    Some(t) => t,
                    None => now,
                };
                if now.reached_since(since, cfg.recover_full_ms) {
                    self.phase = Phase::Normal;
                    self.cleared_at = None;
                } else if now.reached_since(since, cfg.recover_half_ms) {
                    self.phase = Phase::Half;
                }
            },
        }
    }
}

impl Default for SideProtection {
    fn default() -> (r: Self)
        ensures
            r == SideProtection::calm(),
    {
        SideProtection { phase: Phase::Normal, cleared_at: None, last_level: Level::Off }
    }
}

/// Multiplier of open-order sizes, before a cap.
#[derive(Debug, Clone, Copy, PartialEq, Eq, Structural)]
pub enum SizeScale {
    /// 1.
    Full,
    /// The configured light multiplier.
    Light,
    /// 0.5.
    Half,
    /// 0.
    Zero,
}

/// Multiplier of the open-order distance from the quote centre.
#[derive(Debug, Clone, Copy, PartialEq, Eq, Structural)]
pub enum DistanceScale {
    /// 1.
    Normal,
    /// The configured light multiplier.
    Light,
}

/// How the quoting engine must treat a side right now.
#[derive(Debug, Clone, Copy, PartialEq, Eq, Structural)]
pub struct SidePolicy {
    /// Allow risk-adding orders on this side at all.
    pub allow_open: bool,
    pub size: SizeScale,
    /// The size multiplier is capped by the configured one for the side opposite
    /// to strong pressure.
    pub size_capped: bool,
    pub distance: DistanceScale,
    /// Follow the fair price on every update (ignore the re-quote threshold).
    pub follow_tight: bool,
    pub level: Level,
}

impl SidePolicy {
    pub open spec fn spec_normal() -> SidePolicy {
        SidePolicy {
            allow_open: true,
            size: SizeScale::Full,
            size_capped: false,
            distance: DistanceScale::Normal,
            follow_tight: false,
            level: Level::Off,
        }
    }

    /// No restriction.
    pub fn normal() -> (r: SidePolicy)
        ensures
            r == SidePolicy::spec_normal(),
    {
        SidePolicy {
            allow_open: true,
            size: SizeScale::Full,
            size_capped: false,
            distance: DistanceScale::Normal,
            follow_tight: false,
            level: Level::Off,
        }
    }
}

#[derive(Debug, Clone, Copy)]
pub struct Protection {
    pub cfg: config::Protection,
    pub buy: SideProtection,
    pub sell: SideProtection,
}

/// The policy of a side in phase `own` while the other side is in phase `other`.
pub open spec fn policy_of(own: Phase, other: Phase) -> SidePolicy {
    SidePolicy {
        allow_open: own.level() != Level::Strong,
        size: match own {
            Phase::Half => SizeScale::Half,
            _ => match own.level() {
                Level::Off => SizeScale::Full,
                Level::Light => SizeScale::Light,
                Level::Strong => SizeScale::Zero,
            },
        },
        size_capped: other.level() == Level::Strong,
        distance: if own.level() == Level::Light {
            DistanceScale::Light
        } else {
            DistanceScale::Normal
        },
        follow_tight: other.level() == Level::Strong,
        level: own.level(),
    }
}

impl Protection {
    pub fn new(cfg: config::Protection) -> (r: Protection)
        ensures
            r == (Protection {
                cfg,
                buy: SideProtection::calm(),
                sell: SideProtection::calm(),
            }),
    {
        Protection { cfg, buy: SideProtection::default(), sell: SideProtection::default() }
    }

    /// Level of Gate's impact signal.
    pub open spec fn impact_level(self) -> Level {
        if self.cfg.impact_is_strong {
            Level::Strong
        } else {
            Level::Light
        }
    }

    /// Signal level on a side: the velocity counts when it moves against the
    /// side, the impact when it endangers it.
    pub open spec fn signal(
        self,
        side: Side,
        velocity: Level,
        rising: bool,
        impact: Option<Side>,
    ) -> Level {
        let v = if (side == Side::Sell) == rising {
            velocity
        } else {
            Level::Off
        };
        if impact == Some(side) {
            v.spec_stronger(self.impact_level())
        } else {
            v
        }
    }

    pub open spec fn updated(
        self,
        velocity: Level,
        rising: bool,
        impact: Option<Side>,
        now: Instant,
    ) -> Protection {
        Protection {
            buy: self.buy.advanced(
                self.signal(Side::Buy, velocity, rising, impact),
                self.cfg,
                now,
            ),
            sell: self.sell.advanced(
                self.signal(Side::Sell, velocity, rising, impact),
                self.cfg,
                now,
            ),
            ..self
        }
    }

    /// Update from the latest signals: the level of the velocity, whether Binance
    /// is rising, and the side that Gate flow endangers.
    pub fn update(&mut self, velocity: Level, rising: bool, impact: Option<Side>, now: Instant)
        ensures
            *final(self) == old(self).updated(velocity, rising, impact, now),
    {
        let mut sell_level = Level::Off;
        let mut buy_level = Level::Off;
        if rising {
            sell_level = velocity;
        } else {
            buy_level = velocity;
        }
        if let Some(side) = impact {
            let lvl = if self.cfg.impact_is_strong {
                Level::Strong
            } else {
                Level::Light
            };
            match side {
                Side::Sell => {
                    sell_level = sell_level.stronger(lvl);
                },
                Side::Buy => {
                    buy_level = buy_level.stronger(lvl);
                },
            }
        }
        let cfg = self.cfg;
        self.sell.advance(sell_level, cfg, now);
        self.buy.advance(buy_level, cfg, now);
    }

    pub open spec fn phase_of(self, side: Side) -> Phase {
        match side {
            Side::Buy => self.buy.phase,
            Side::Sell => self.sell.phase,
        }
    }

    /// Policy for `side`; strong pressure on the other side caps and tightens it.
    pub fn policy(&self, side: Side) -> (p: SidePolicy)
        ensures
            p == policy_of(self.phase_of(side), self.phase_of(side.spec_opposite())),
    {
        let (own, other) = match side {
            Side::Buy => (self.buy.phase, self.sell.phase),
            Side::Sell => (self.sell.phase, self.buy.phase),
        };
        let level = own.applied();
        let strong_other = other.applied() == Level::Strong;
        let size = match own {
            Phase::Half => SizeScale::Half,
            _ => match level {
                Level::Off => SizeScale::Full,
                Level::Light => SizeScale::Light,
                Level::Strong => SizeScale::Zero,
            },
        };
        SidePolicy {
            allow_open: level != Level::Strong,
            size,
            size_capped: strong_other,
            distance: if level == Level::Light {
                DistanceScale::Light
            } else {
                DistanceScale::Normal
            },
            follow_tight: strong_other,
            level,
        }
    }

    pub open spec fn strong(self) -> Option<Side> {
        if self.sell.phase == Phase::Active(Level::Strong) {
            Some(Side::Sell)
        } else if self.buy.phase == Phase::Active(Level::Strong) {
            Some(Side::Buy)
        } else {
            None
        }
    }

    /// Strong pressure direction, if any: the sell side when Binance is rising
    /// hard, the buy side when it is falling hard.
    pub fn strong_side(&self) -> (r: Option<Side>)
        ensures
            r == self.strong(),
    {
        if self.sell.phase == Phase::Active(Level::Strong) {
            Some(Side::Sell)
        } else if self.buy.phase == Phase::Active(Level::Strong) {
            Some(Side::Buy)
        } else {
            None
        }
    }
}

/// Staged recovery: after a strong signal clears at `cleared`, a side opens
/// nothing before `recover_half_ms`, quotes half size until `recover_full_ms`,
/// and is normal from then on.
pub proof fn recovery_is_staged(
    p: SideProtection,
    cfg: config::Protection,
    cleared: Instant,
    later: Instant,
    other: Phase,
)
    requires
        p.phase == Phase::Active(Level::Strong),
        cfg.recover_half_ms <= cfg.recover_full_ms,
    ensures
        ({
            let held = p.advanced(Level::Off, cfg, cleared);
            let s = held.advanced(Level::Off, cfg, later);
            &&& held.phase == Phase::Hold(Level::Strong)
            &&& !policy_of(held.phase, other).allow_open
            &&& !time::reached(cleared, later, cfg.recover_half_ms) ==> !policy_of(
                s.phase,
                other,
            ).allow_open
            &&& time::reached(cleared, later, cfg.recover_half_ms) && !time::reached(
                cleared,
                later,
                cfg.recover_full_ms,
            ) ==> policy_of(s.phase, other).allow_open && policy_of(s.phase, other).size
                == SizeScale::Half
            &&& time::reached(cleared, later, cfg.recover_full_ms) ==> s.phase == Phase::Normal
        }),
{
}

/// A strong signal takes effect at once, whatever the side was doing.
pub proof fn a_strong_signal_stops_opening_at_once(
    p: SideProtection,
    cfg: config::Protection,
    now: Instant,
    other: Phase,
)
    ensures
        !policy_of(p.advanced(Level::Strong, cfg, now).phase, other).allow_open,
        policy_of(other, p.advanced(Level::Strong, cfg, now).phase).follow_tight,
        policy_of(other, p.advanced(Level::Strong, cfg, now).phase).size_capped,
{
}

/// The signal on the asks is the velocity of a rising market and the impact that
/// endangers them, whichever is stronger; on the bids it is that of a falling
/// market.
pub proof fn signals_endanger_the_side_they_run_into(
    p: Protection,
    velocity: Level,
    rising: bool,
    impact: Option<Side>,
)
    ensures
        ({
            let sell = p.signal(Side::Sell, velocity, rising, impact);
            let buy = p.signal(Side::Buy, velocity, rising, impact);
            let strong = p.cfg.impact_is_strong;
            &&& sell == Level::Strong <==> (rising && velocity == Level::Strong) || (impact == Some(
                Side::Sell,
            ) && strong)
            &&& sell == Level::Off <==> !(rising && velocity != Level::Off) && impact != Some(
                Side::Sell,
            )
            &&& buy == Level::Strong <==> (!rising && velocity == Level::Strong) || (impact == Some(
                Side::Buy,
            ) && strong)
            &&& buy == Level::Off <==> !(!rising && velocity != Level::Off) && impact != Some(
                Side::Buy,
            )
        }),
{
}

/// A signal puts its side into force at once, however it was, and leaves the other
/// side to its own signal.
pub proof fn every_signal_takes_effect_on_its_side(
    p: Protection,
    velocity: Level,
    rising: bool,
    impact: Option<Side>,
    now: Instant,
)
    ensures
        ({
            let u = p.updated(velocity, rising, impact, now);
            let sell = p.signal(Side::Sell, velocity, rising, impact);
            let buy = p.signal(Side::Buy, velocity, rising, impact);
            &&& u.cfg == p.cfg
            &&& sell != Level::Off ==> u.sell.phase == Phase::Active(sell) && u.sell.cleared_at
                is None
            &&& buy != Level::Off ==> u.buy.phase == Phase::Active(buy) && u.buy.cleared_at is None
            &&& sell == Level::Off && p.sell.phase == Phase::Normal ==> u.sell == p.sell
            &&& buy == Level::Off && p.buy.phase == Phase::Normal ==> u.buy == p.buy
            &&& sell == Level::Off ==> !(u.sell.phase is Active)
            &&& buy == Level::Off ==> !(u.buy.phase is Active)
            &&& u.strong() == Some(Side::Sell) <==> sell == Level::Strong
            &&& u.strong() == Some(Side::Buy) <==> buy == Level::Strong && sell != Level::Strong
        }),
{
}

/// A signal of any level that clears is held, then halved, then forgotten, by the
/// time since it cleared; a new signal starts over.
pub proof fn every_recovery_is_staged(
    p: SideProtection,
    level: Level,
    cfg: config::Protection,
    cleared: Instant,
    later: Instant,
)
    requires
        p.phase == Phase::Active(level),
        cfg.recover_half_ms <= cfg.recover_full_ms,
    ensures
        ({
            let held = p.advanced(Level::Off, cfg, cleared);
            let s = held.advanced(Level::Off, cfg, later);
            let half = time::reached(cleared, later, cfg.recover_half_ms);
            let full = time::reached(cleared, later, cfg.recover_full_ms);
            &&& held.phase == Phase::Hold(level)
            &&& held.cleared_at == Some(cleared)
            &&& s.phase == (if full {
                Phase::Normal
            } else if half {
                Phase::Half
            } else {
                Phase::Hold(level)
            })
            &&& !full ==> s.cleared_at == Some(cleared)
            &&& s.phase == Phase::Half ==> (forall|end: Instant| #[trigger]
                s.advanced(Level::Off, cfg, end).phase == (if time::reached(
                    cleared,
                    end,
                    cfg.recover_full_ms,
                ) {
                    Phase::Normal
                } else {
                    Phase::Half
                }))
        }),
{
}

/// What a side may do: a strong signal, in force or held, allows no opening; a
/// light one opens smaller and further away; a recovering side opens half; and
/// the side opposite to strong pressure follows tightly with a capped size.
pub proof fn policies_follow_the_phases(own: Phase, other: Phase)
    ensures
        ({
            let p = policy_of(own, other);
            let strong = own == Phase::Active(Level::Strong) || own == Phase::Hold(Level::Strong);
            let light = own == Phase::Active(Level::Light) || own == Phase::Hold(Level::Light);
            let against = other == Phase::Active(Level::Strong) || other == Phase::Hold(
                Level::Strong,
            );
            &&& p.allow_open <==> !strong
            &&& p.size == SizeScale::Zero <==> strong
            &&& p.size == SizeScale::Light <==> light
            &&& p.size == SizeScale::Half <==> own == Phase::Half
            &&& p.distance == DistanceScale::Light <==> light
            &&& p.follow_tight <==> against
            &&& p.size_capped <==> against
            &&& p.level == Level::Strong <==> strong
            &&& p.level == Level::Light <==> light
        }),
{
}

/// A quiet side is not restricted in any way, whatever the other side does short of
/// strong pressure.
pub proof fn quiet_sides_are_unrestricted(other: Phase)
    ensures
        ({
            let p = SidePolicy::spec_normal();
            &&& p.allow_open
            &&& p.size == SizeScale::Full
            &&& !p.size_capped
            &&& p.distance == DistanceScale::Normal
            &&& !p.follow_tight
            &&& p.level == Level::Off
            &&& other != Phase::Active(Level::Strong) && other != Phase::Hold(Level::Strong)
                ==> policy_of(Phase::Normal, other) == p
        }),
        policy_of(Phase::Normal, other).size == SizeScale::Full,
        policy_of(Phase::Normal, other).distance == DistanceScale::Normal,
        policy_of(Phase::Normal, other).level == Level::Off,
        policy_of(Phase::Half, other).distance == DistanceScale::Normal,
{
}

} // verus!
