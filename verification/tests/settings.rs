//! The configuration and its rules.

use stock_mm::config::{Config, ConfigError, Credentials, Mode, RealChecks};

fn good() -> RealChecks {
    RealChecks {
        max_net_positive: true,
        max_gross_positive: true,
        band_ratio_inside: true,
        layer_offsets: 2,
        min_half_spread_positive: true,
        strong_not_below_light: true,
        dstop_quantile_inside: true,
    }
}

#[test]
fn the_default_configuration_is_valid() {
    let cfg = Config::default();
    assert_eq!(cfg.validate(good()), Ok(()));
    assert_eq!(cfg.mode, Mode::Paper);
    assert_eq!(cfg.quoting.layers, 3);
    assert_eq!(cfg.endpoints.gate_trade_ws_pool, 6);
}

#[test]
fn each_broken_rule_has_its_error() {
    let cfg = Config::default();
    let with = |f: fn(&mut RealChecks)| {
        let mut c = good();
        f(&mut c);
        cfg.validate(c)
    };
    assert_eq!(with(|c| c.max_net_positive = false), Err(ConfigError::MaxNet));
    assert_eq!(with(|c| c.max_gross_positive = false), Err(ConfigError::MaxGross));
    assert_eq!(with(|c| c.band_ratio_inside = false), Err(ConfigError::BandRatio));
    assert_eq!(with(|c| c.layer_offsets = 1), Err(ConfigError::LayerOffsets));
    assert_eq!(with(|c| c.min_half_spread_positive = false), Err(ConfigError::MinHalfSpread));
    assert_eq!(with(|c| c.strong_not_below_light = false), Err(ConfigError::StrongVelocity));
    assert_eq!(with(|c| c.dstop_quantile_inside = false), Err(ConfigError::DstopQuantile));
    let mut cfg = Config::default();
    cfg.quoting.layers = 0;
    assert_eq!(cfg.validate(good()), Err(ConfigError::Layers));
    let mut cfg = Config::default();
    cfg.protection.recover_full_ms = 1;
    assert_eq!(cfg.validate(good()), Err(ConfigError::RecoverFull));
    let mut cfg = Config::default();
    cfg.orders.client_id_prefix = "mm".into();
    assert_eq!(cfg.validate(good()), Err(ConfigError::ClientIdPrefix));
    assert_eq!(ConfigError::Layers.message(), "quoting.layers must be >= 1");
}

#[test]
fn the_first_broken_rule_is_reported() {
    let mut cfg = Config::default();
    cfg.quoting.layers = 0;
    let mut c = good();
    c.dstop_quantile_inside = false;
    assert_eq!(cfg.validate(c), Err(ConfigError::Layers));
}

#[test]
fn credentials_need_both_parts() {
    let of = |k: &str, s: &str| Credentials { gate_key: k.into(), gate_secret: s.into() }.is_complete();
    assert!(of("k", "s"));
    assert!(!of("k", "") && !of("", "s"));
}
