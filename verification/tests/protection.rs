//! Directional protection.

use stock_mm::config;
use stock_mm::strategy::protection::{DistanceScale, Level, Protection, SidePolicy, SizeScale};
use stock_mm::time::Instant;
use stock_mm::types::Side;

fn at(ms: u64) -> Instant {
    Instant::from_nanos(1_000_000_000_000 + ms * 1_000_000)
}

/// Level of a velocity in bps: light from 1 half-spread, strong from 2.
fn level(v: f64, delta: f64) -> Level {
    if v.abs() >= 2.0 * delta {
        Level::Strong
    } else if v.abs() >= delta {
        Level::Light
    } else {
        Level::Off
    }
}

fn update(p: &mut Protection, v: f64, now: Instant) {
    p.update(level(v, 2.0), v > 0.0, None, now);
}

fn size_mult(p: SidePolicy) -> f64 {
    let own: f64 = match p.size {
        SizeScale::Full => 1.0,
        SizeScale::Light => 0.5,
        SizeScale::Half => 0.5,
        SizeScale::Zero => 0.0,
    };
    if p.size_capped {
        own.min(0.5)
    } else {
        own
    }
}

fn distance_mult(p: SidePolicy) -> f64 {
    match p.distance {
        DistanceScale::Normal => 1.0,
        DistanceScale::Light => 1.5,
    }
}

#[test]
fn velocity_levels_and_staged_recovery() {
    let mut p = Protection::new(config::Protection::default());
    update(&mut p, 2.5, at(0));
    let s = p.policy(Side::Sell);
    assert_eq!(s.level, Level::Light);
    assert_eq!(size_mult(s), 0.5);
    assert_eq!(distance_mult(s), 1.5);
    assert!(p.policy(Side::Buy) == SidePolicy::normal());
    update(&mut p, 5.0, at(10));
    assert!(!p.policy(Side::Sell).allow_open);
    let b = p.policy(Side::Buy);
    assert_eq!(size_mult(b), 0.5);
    assert!(b.follow_tight);
    assert_eq!(p.strong_side(), Some(Side::Sell));
    update(&mut p, 0.0, at(20));
    assert!(!p.policy(Side::Sell).allow_open);
    update(&mut p, 0.0, at(20 + 499));
    assert!(!p.policy(Side::Sell).allow_open);
    update(&mut p, 0.0, at(20 + 500));
    let s = p.policy(Side::Sell);
    assert!(s.allow_open);
    assert_eq!(size_mult(s), 0.5);
    assert_eq!(distance_mult(s), 1.0);
    assert!(!p.policy(Side::Buy).follow_tight);
    update(&mut p, 0.0, at(20 + 2000));
    assert_eq!(p.policy(Side::Sell), SidePolicy::normal());
    assert_eq!(p.strong_side(), None);
}

#[test]
fn impact_marks_endangered_side() {
    let mut p = Protection::new(config::Protection::default());
    p.update(Level::Off, false, Some(Side::Buy), at(0));
    assert_eq!(p.policy(Side::Buy).level, Level::Light);
    assert_eq!(p.policy(Side::Sell).level, Level::Off);
}

#[test]
fn the_stronger_of_velocity_and_impact_counts() {
    let mut cfg = config::Protection::default();
    cfg.impact_is_strong = true;
    let mut p = Protection::new(cfg);
    p.update(Level::Light, true, Some(Side::Sell), at(0));
    assert_eq!(p.policy(Side::Sell).level, Level::Strong);
    assert_eq!(p.strong_side(), Some(Side::Sell));
}
