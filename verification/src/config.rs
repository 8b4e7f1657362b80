//! Strategy and connectivity configuration: every parameter that is a count, a
//! time, a flag or a text, and the rules that a configuration must meet.

use vstd::prelude::*;

use crate::text;

verus! {

#[derive(Debug, Clone, Copy, PartialEq, Eq, Structural)]
pub enum Mode {
    /// Full market data and private feeds, but orders are simulated locally.
    Paper,
    /// Real orders on Gate.
    Live,
}

#[derive(Debug, Clone)]
pub struct Instruments {
    /// Binance USDⓈ-M symbol.
    pub binance_symbol: String,
    /// Gate USDT futures contract.
    pub gate_contract: String,
    /// Gate settle currency path segment.
    pub gate_settle: String,
}

impl Default for Instruments {
    fn default() -> (r: Self)
        ensures
            r.binance_symbol@ == "SNDKUSDT"@,
            r.gate_contract@ == "SNDK_USDT"@,
            r.gate_settle@ == "usdt"@,
    {
        Instruments {
            binance_symbol: "SNDKUSDT".to_string(),
            gate_contract: "SNDK_USDT".to_string(),
            gate_settle: "usdt".to_string(),
        }
    }
}

#[derive(Debug, Clone)]
pub struct Endpoints {
    pub binance_ws: String,
    pub binance_rest: String,
    pub gate_ws: String,
    pub gate_rest: String,
    /// Trading sessions at most, each with another server of `gate_ws`.
    pub gate_trade_ws_pool: usize,
}

impl Default for Endpoints {
    fn default() -> (r: Self)
        ensures
            r.binance_ws@ == "wss://fstream.binance.com/stream"@,
            r.binance_rest@ == "https://fapi.binance.com"@,
            r.gate_ws@ == "wss://fx-ws.gateio.ws/v4/ws/usdt"@,
            r.gate_rest@ == "https://api.gateio.ws"@,
            r.gate_trade_ws_pool == 6,
    {
        Endpoints {
            binance_ws: "wss://fstream.binance.com/stream".to_string(),
            binance_rest: "https://fapi.binance.com".to_string(),
            gate_ws: "wss://fx-ws.gateio.ws/v4/ws/usdt".to_string(),
            gate_rest: "https://api.gateio.ws".to_string(),
            gate_trade_ws_pool: 6,
        }
    }
}

/// Construction of the fair price: Binance mid and natural basis.
#[derive(Debug, Clone, Copy, PartialEq, Eq, Structural)]
pub struct Pricing {
    /// Main basis window (seconds).
    pub basis_window_secs: u64,
    /// Drift observation window (seconds).
    pub drift_window_secs: u64,
    /// Valid basis samples needed before quoting in a session.
    pub basis_min_samples: usize,
    /// Minimum spacing between basis samples (ms).
    pub basis_sample_interval_ms: u64,
    /// Largest age difference between the two quotes of a sample (ms).
    pub basis_sync_tolerance_ms: u64,
    /// How long the basis must stay recovered (ms).
    pub basis_recover_ms: u64,
}

impl Default for Pricing {
    fn default() -> (r: Self)
        ensures
            r == (Pricing {
                basis_window_secs: 3600,
                drift_window_secs: 300,
                basis_min_samples: 300,
                basis_sample_interval_ms: 200,
                basis_sync_tolerance_ms: 400,
                basis_recover_ms: 10_000,
            }),
    {
        Pricing {
            basis_window_secs: 3600,
            drift_window_secs: 300,
            basis_min_samples: 300,
            basis_sample_interval_ms: 200,
            basis_sync_tolerance_ms: 400,
            basis_recover_ms: 10_000,
        }
    }
}

#[derive(Debug, Clone, Copy, PartialEq, Eq, Structural)]
pub struct Quoting {
    /// Window of the realised-move quantile (seconds).
    pub vol_window_secs: u64,
    /// Sampling step of the realised moves (ms).
    pub vol_step_ms: u64,
    /// Layers per side.
    pub layers: usize,
    /// Inner-layer re-quote threshold (ticks).
    pub inner_requote_ticks: i64,
    /// Outer-layer re-quote threshold (ticks).
    pub outer_requote_ticks: i64,
}

impl Default for Quoting {
    fn default() -> (r: Self)
        ensures
            r == (Quoting {
                vol_window_secs: 300,
                vol_step_ms: 200,
                layers: 3,
                inner_requote_ticks: 2,
                outer_requote_ticks: 4,
            }),
    {
        Quoting {
            vol_window_secs: 300,
            vol_step_ms: 200,
            layers: 3,
            inner_requote_ticks: 2,
            outer_requote_ticks: 4,
        }
    }
}

#[derive(Debug, Clone, Copy, PartialEq, Eq, Structural)]
pub struct Inventory {
    /// Time allowed outside the band before active reduction (ms).
    pub band_timeout_ms: u64,
}

impl Default for Inventory {
    fn default() -> (r: Self)
        ensures
            r == (Inventory { band_timeout_ms: 3_000 }),
    {
        Inventory { band_timeout_ms: 3_000 }
    }
}

#[derive(Debug, Clone, Copy, PartialEq, Eq, Structural)]
pub struct Protection {
    /// Velocity lookback (ms).
    pub velocity_window_ms: u64,
    /// Gate impact window (ms).
    pub impact_window_ms: u64,
    /// History used for the impact notional quantile (seconds).
    pub impact_history_secs: u64,
    /// Whether a Gate impact signal is treated as strong (true) or light (false).
    pub impact_is_strong: bool,
    /// After the signal clears: wait this long before restoring half size (ms).
    pub recover_half_ms: u64,
    /// And this long before restoring full size (ms).
    pub recover_full_ms: u64,
}

impl Default for Protection {
    fn default() -> (r: Self)
        ensures
            r == (Protection {
                velocity_window_ms: 100,
                impact_window_ms: 100,
                impact_history_secs: 1800,
                impact_is_strong: false,
                recover_half_ms: 500,
                recover_full_ms: 2_000,
            }),
    {
        Protection {
            velocity_window_ms: 100,
            impact_window_ms: 100,
            impact_history_secs: 1800,
            impact_is_strong: false,
            recover_half_ms: 500,
            recover_full_ms: 2_000,
        }
    }
}

#[derive(Debug, Clone, Copy, PartialEq, Eq, Structural)]
pub enum Emergency {
    /// Send reduce-only market orders, then halt.
    MarketThenHalt,
    /// Cancel everything and halt, leaving the position for manual handling.
    HaltOnly,
}

/// Active (IOC) reduction and emergency exit.
#[derive(Debug, Clone, Copy, PartialEq, Eq, Structural)]
pub struct Exit {
    /// Minimum interval between successive IOC attempts (ms).
    pub ioc_retry_interval_ms: u64,
    /// Budget for the whole episode before escalation (ms).
    pub ioc_timeout_ms: u64,
    /// Time to wait for conflicting-order cancels before the first IOC (ms).
    pub cancel_wait_ms: u64,
    /// Policy after the budget is exhausted.
    pub emergency: Emergency,
    /// Market-order attempts in the emergency phase.
    pub emergency_max_attempts: u32,
    /// Whether normal quoting may resume after an escalation.
    pub resume_after_escalation: bool,
    /// On shutdown: flatten the position as well.
    pub liquidate_on_shutdown: bool,
}

impl Default for Exit {
    fn default() -> (r: Self)
        ensures
            r == (Exit {
                ioc_retry_interval_ms: 200,
                ioc_timeout_ms: 5_000,
                cancel_wait_ms: 800,
                emergency: Emergency::MarketThenHalt,
                emergency_max_attempts: 3,
                resume_after_escalation: false,
                liquidate_on_shutdown: false,
            }),
    {
        Exit {
            ioc_retry_interval_ms: 200,
            ioc_timeout_ms: 5_000,
            cancel_wait_ms: 800,
            emergency: Emergency::MarketThenHalt,
            emergency_max_attempts: 3,
            resume_after_escalation: false,
            liquidate_on_shutdown: false,
        }
    }
}

#[derive(Debug, Clone, Copy, PartialEq, Eq, Structural)]
pub struct Risk {
    /// Binance feed staleness before it is considered broken (ms).
    pub binance_stale_ms: u64,
    /// Gate public feed staleness (ms).
    pub gate_stale_ms: u64,
    /// Gate private feed staleness (ms).
    pub private_stale_ms: u64,
    /// Account snapshot poll interval (ms).
    pub account_poll_ms: u64,
    /// Position mismatch tolerance in contracts.
    pub position_mismatch_tolerance: i64,
    /// How long a mismatch must persist before distrust (ms).
    pub position_mismatch_ms: u64,
}

impl Default for Risk {
    fn default() -> (r: Self)
        ensures
            r == (Risk {
                binance_stale_ms: 5_000,
                gate_stale_ms: 5_000,
                private_stale_ms: 30_000,
                account_poll_ms: 2_000,
                position_mismatch_tolerance: 0,
                position_mismatch_ms: 2_000,
            }),
    {
        Risk {
            binance_stale_ms: 5_000,
            gate_stale_ms: 5_000,
            private_stale_ms: 30_000,
            account_poll_ms: 2_000,
            position_mismatch_tolerance: 0,
            position_mismatch_ms: 2_000,
        }
    }
}

#[derive(Debug, Clone)]
pub struct Orders {
    /// Client-order-id prefix (Gate requires `t-`).
    pub client_id_prefix: String,
    /// In-flight request timeout before a status query is issued (ms).
    pub inflight_timeout_ms: u64,
    /// Use native amend (true) or cancel and re-place (false).
    pub use_amend: bool,
    /// Periodic risk timer (ms).
    pub timer_ms: u64,
}

impl Default for Orders {
    fn default() -> (r: Self)
        ensures
            r.client_id_prefix@ == "t-mm"@,
            r.inflight_timeout_ms == 3_000,
            r.use_amend,
            r.timer_ms == 50,
    {
        Orders {
            client_id_prefix: "t-mm".to_string(),
            inflight_timeout_ms: 3_000,
            use_amend: true,
            timer_ms: 50,
        }
    }
}

#[derive(Debug, Clone)]
pub struct Session {
    /// IANA timezone of the underlying's primary market.
    pub timezone: String,
    /// Sessions in which new risk may be added.
    pub tradable: Vec<String>,
    /// Extra full-day blackout dates (YYYY-MM-DD, market timezone).
    pub holidays: Vec<String>,
    /// Event windows (`[start, end]` RFC 3339) without new risk.
    pub event_windows: Vec<[String; 2]>,
    /// Force a single session kind regardless of the clock; empty uses the
    /// calendar.
    pub force_session: String,
}

impl Default for Session {
    fn default() -> (r: Self)
        ensures
            r.timezone@ == "America/New_York"@,
            r.tradable@.len() == 4,
            r.tradable@[0]@ == "regular"@,
            r.tradable@[1]@ == "pre"@,
            r.tradable@[2]@ == "post"@,
            r.tradable@[3]@ == "overnight"@,
            r.holidays@.len() == 0,
            r.event_windows@.len() == 0,
            r.force_session@ == Seq::<char>::empty(),
    {
        let mut tradable: Vec<String> = Vec::new();
        tradable.push("regular".to_string());
        tradable.push("pre".to_string());
        tradable.push("post".to_string());
        tradable.push("overnight".to_string());
        Session {
            timezone: "America/New_York".to_string(),
            tradable,
            holidays: Vec::new(),
            event_windows: Vec::new(),
            force_session: String::new(),
        }
    }
}

#[derive(Debug, Clone)]
pub struct Metrics {
    /// Snapshot interval (ms).
    pub snapshot_ms: u64,
    /// JSONL output file (empty disables it).
    pub file: String,
}

impl Default for Metrics {
    fn default() -> (r: Self)
        ensures
            r.snapshot_ms == 10_000,
            r.file@ == "metrics.jsonl"@,
    {
        Metrics { snapshot_ms: 10_000, file: "metrics.jsonl".to_string() }
    }
}

/// API credentials.
#[derive(Debug, Clone)]
pub struct Credentials {
    pub gate_key: String,
    pub gate_secret: String,
}

impl Credentials {
    /// Both the key and the secret are there.
    pub fn is_complete(&self) -> (r: bool)
        ensures
            r == (self.gate_key@.len() > 0 && self.gate_secret@.len() > 0),
    {
        !self.gate_key.as_str().is_empty() && !self.gate_secret.as_str().is_empty()
    }
}

#[derive(Debug, Clone)]
pub struct Config {
    pub mode: Mode,
    pub instruments: Instruments,
    pub endpoints: Endpoints,
    pub pricing: Pricing,
    pub quoting: Quoting,
    pub inventory: Inventory,
    pub protection: Protection,
    pub exit: Exit,
    pub risk: Risk,
    pub orders: Orders,
    pub session: Session,
    pub metrics: Metrics,
}

/// What holds of the real-valued parameters, as far as a configuration must
/// meet it.
#[derive(Debug, Clone, Copy, PartialEq, Eq, Structural)]
pub struct RealChecks {
    /// The net inventory cap is positive.
    pub max_net_positive: bool,
    /// The gross inventory cap is positive.
    pub max_gross_positive: bool,
    /// The band ratio lies strictly between 0 and 1.
    pub band_ratio_inside: bool,
    /// Number of outer-layer offsets.
    pub layer_offsets: usize,
    /// The minimum half-spread is positive.
    pub min_half_spread_positive: bool,
    /// The strong velocity threshold is not below the light one.
    pub strong_not_below_light: bool,
    /// The stop quantile lies above 0 and not above 1.
    pub dstop_quantile_inside: bool,
}

/// The rule that a configuration breaks.
#[derive(Debug, Clone, Copy, PartialEq, Eq, Structural)]
pub enum ConfigError {
    MaxNet,
    MaxGross,
    BandRatio,
    Layers,
    LayerOffsets,
    MinHalfSpread,
    StrongVelocity,
    RecoverFull,
    ClientIdPrefix,
    DstopQuantile,
}

impl ConfigError {
    pub open spec fn spec_message(self) -> Seq<char> {
        match self {
            ConfigError::MaxNet => "inventory.max_net_usdt must be > 0"@,
            ConfigError::MaxGross => "inventory.max_gross_usdt must be > 0"@,
            ConfigError::BandRatio => "inventory.band_ratio must be in (0,1)"@,
            ConfigError::Layers => "quoting.layers must be >= 1"@,
            ConfigError::LayerOffsets => {
                "quoting.layer_offsets_delta must have at least layers-1 entries"@
            },
            ConfigError::MinHalfSpread => "quoting.min_half_spread_bps must be > 0"@,
            ConfigError::StrongVelocity => "protection.strong_velocity_delta must be >= light"@,
            ConfigError::RecoverFull => "protection.recover_full_ms must be >= recover_half_ms"@,
            ConfigError::ClientIdPrefix => "orders.client_id_prefix must start with 't-'"@,
            ConfigError::DstopQuantile => "pricing.dstop_quantile must be in (0,1]"@,
        }
    }

    pub fn message(self) -> (r: &'static str)
        ensures
            r@ == self.spec_message(),
    {
        match self {
            ConfigError::MaxNet => "inventory.max_net_usdt must be > 0",
            ConfigError::MaxGross => "inventory.max_gross_usdt must be > 0",
            ConfigError::BandRatio => "inventory.band_ratio must be in (0,1)",
            ConfigError::Layers => "quoting.layers must be >= 1",
            ConfigError::LayerOffsets => {
                "quoting.layer_offsets_delta must have at least layers-1 entries"
            },
            ConfigError::MinHalfSpread => "quoting.min_half_spread_bps must be > 0",
            ConfigError::StrongVelocity => "protection.strong_velocity_delta must be >= light",
            ConfigError::RecoverFull => "protection.recover_full_ms must be >= recover_half_ms",
            ConfigError::ClientIdPrefix => "orders.client_id_prefix must start with 't-'",
            ConfigError::DstopQuantile => "pricing.dstop_quantile must be in (0,1]",
        }
    }
}

impl Config {
    /// The rules in the order in which they are reported, each with whether the
    /// configuration meets it.
    pub open spec fn rules(self, reals: RealChecks) -> Seq<(ConfigError, bool)> {
        seq![
            (ConfigError::MaxNet, reals.max_net_positive),
            (ConfigError::MaxGross, reals.max_gross_positive),
            (ConfigError::BandRatio, reals.band_ratio_inside),
            (ConfigError::Layers, self.quoting.layers >= 1),
            (ConfigError::LayerOffsets, reals.layer_offsets + 1 >= self.quoting.layers),
            (ConfigError::MinHalfSpread, reals.min_half_spread_positive),
            (ConfigError::StrongVelocity, reals.strong_not_below_light),
            (
                ConfigError::RecoverFull,
                self.protection.recover_full_ms >= self.protection.recover_half_ms,
            ),
            (
                ConfigError::ClientIdPrefix,
                text::begins_with(self.orders.client_id_prefix@, "t-"@),
            ),
            (ConfigError::DstopQuantile, reals.dstop_quantile_inside),
        ]
    }

    /// Checks every rule; the error is the first rule that is broken.
    pub fn validate(&self, reals: RealChecks) -> (r: Result<(), ConfigError>)
        ensures
            match r {
                Ok(_) => forall|i: int|
                    0 <= i < self.rules(reals).len() ==> (#[trigger] self.rules(reals)[i]).1,
                Err(e) => exists|i: int|
                    0 <= i < self.rules(reals).len() && #[trigger] self.rules(reals)[i] == (
                        e,
                        false,
                    ) && forall|j: int| 0 <= j < i ==> (#[trigger] self.rules(reals)[j]).1,
            },
    {
        let ghost rules = self.rules(reals);
        if !reals.max_net_positive {
            assert(rules[0] == (ConfigError::MaxNet, false));
            return Err(ConfigError::MaxNet);
        }
        if !reals.max_gross_positive {
            assert(rules[1] == (ConfigError::MaxGross, false));
            return Err(ConfigError::MaxGross);
        }
        if !reals.band_ratio_inside {
            assert(rules[2] == (ConfigError::BandRatio, false));
            return Err(ConfigError::BandRatio);
        }
        if self.quoting.layers < 1 {
            assert(rules[3] == (ConfigError::Layers, false));
            return Err(ConfigError::Layers);
        }
        if reals.layer_offsets < self.quoting.layers - 1 {
            assert(rules[4] == (ConfigError::LayerOffsets, false));
            return Err(ConfigError::LayerOffsets);
        }
        if !reals.min_half_spread_positive {
            assert(rules[5] == (ConfigError::MinHalfSpread, false));
            return Err(ConfigError::MinHalfSpread);
        }
        if !reals.strong_not_below_light {
            assert(rules[6] == (ConfigError::StrongVelocity, false));
            return Err(ConfigError::StrongVelocity);
        }
        if self.protection.recover_full_ms < self.protection.recover_half_ms {
            assert(rules[7] == (ConfigError::RecoverFull, false));
            return Err(ConfigError::RecoverFull);
        }
        if !text::starts_with(self.orders.client_id_prefix.as_str(), "t-") {
            assert(rules[8] == (ConfigError::ClientIdPrefix, false));
            return Err(ConfigError::ClientIdPrefix);
        }
        if !reals.dstop_quantile_inside {
            assert(rules[9] == (ConfigError::DstopQuantile, false));
            return Err(ConfigError::DstopQuantile);
        }
        Ok(())
    }
}

impl Default for Config {
    fn default() -> (r: Self)
        ensures
            r.mode == Mode::Paper,
            call_ensures(Instruments::default, (), r.instruments),
            call_ensures(Endpoints::default, (), r.endpoints),
            call_ensures(Pricing::default, (), r.pricing),
            call_ensures(Quoting::default, (), r.quoting),
            call_ensures(Inventory::default, (), r.inventory),
            call_ensures(Protection::default, (), r.protection),
            call_ensures(Exit::default, (), r.exit),
            call_ensures(Risk::default, (), r.risk),
            call_ensures(Orders::default, (), r.orders),
            call_ensures(Session::default, (), r.session),
            call_ensures(Metrics::default, (), r.metrics),
    {
        Config {
            mode: Mode::Paper,
            instruments: Instruments::default(),
            endpoints: Endpoints::default(),
            pricing: Pricing::default(),
            quoting: Quoting::default(),
            inventory: Inventory::default(),
            protection: Protection::default(),
            exit: Exit::default(),
            risk: Risk::default(),
            orders: Orders::default(),
            session: Session::default(),
            metrics: Metrics::default(),
        }
    }
}

/// Ten rules are checked, in this order; a configuration passes where all of them
/// hold.
pub proof fn a_configuration_meets_every_rule(c: Config, reals: RealChecks)
    ensures
        ({
            let rules = c.rules(reals);
            let prefix = c.orders.client_id_prefix@;
            &&& rules.len() == 10
            &&& rules[0] == (ConfigError::MaxNet, reals.max_net_positive)
            &&& rules[1] == (ConfigError::MaxGross, reals.max_gross_positive)
            &&& rules[2] == (ConfigError::BandRatio, reals.band_ratio_inside)
            &&& rules[3] == (ConfigError::Layers, c.quoting.layers > 0)
            &&& rules[4] == (
                ConfigError::LayerOffsets,
                !(reals.layer_offsets < c.quoting.layers - 1),
            )
            &&& rules[5] == (ConfigError::MinHalfSpread, reals.min_half_spread_positive)
            &&& rules[6] == (ConfigError::StrongVelocity, reals.strong_not_below_light)
            &&& rules[7] == (
                ConfigError::RecoverFull,
                !(c.protection.recover_full_ms < c.protection.recover_half_ms),
            )
            &&& rules[8].0 == ConfigError::ClientIdPrefix
            &&& rules[8].1 <==> prefix.len() >= 2 && prefix[0] == 't' && prefix[1] == '-'
            &&& rules[9] == (ConfigError::DstopQuantile, reals.dstop_quantile_inside)
            &&& (forall|i: int| 0 <= i < 10 ==> (#[trigger] rules[i]).1)
                <==> reals.max_net_positive && reals.max_gross_positive && reals.band_ratio_inside
                && c.quoting.layers > 0 && reals.layer_offsets >= c.quoting.layers - 1
                && reals.min_half_spread_positive && reals.strong_not_below_light
                && c.protection.recover_full_ms >= c.protection.recover_half_ms && prefix.len() >= 2
                && prefix[0] == 't' && prefix[1] == '-' && reals.dstop_quantile_inside
        }),
{
    let rules = c.rules(reals);
    let prefix = c.orders.client_id_prefix@;
    reveal_strlit("t-");
    assert("t-"@.len() == 2 && "t-"@[0] == 't' && "t-"@[1] == '-');
    text::parts_are_subranges(prefix, "t-"@);
    if prefix.len() >= 2 {
        if prefix.take(2) == "t-"@ {
            assert(prefix.take(2)[0] == prefix[0] && prefix.take(2)[1] == prefix[1]);
        }
        if prefix[0] == 't' && prefix[1] == '-' {
            assert(prefix.take(2) =~= "t-"@);
        }
    }
    if forall|i: int| 0 <= i < 10 ==> (#[trigger] rules[i]).1 {
        assert(rules[0].1 && rules[1].1 && rules[2].1 && rules[3].1 && rules[4].1);
        assert(rules[5].1 && rules[6].1 && rules[7].1 && rules[8].1 && rules[9].1);
    }
}

} // verus!
