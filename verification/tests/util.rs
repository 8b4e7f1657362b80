//! Windows, signatures, delays, texts, decimals and ticks.

use stock_mm::decimal::Dec;
use stock_mm::text::{contains, ends_with, read_u16, starts_with, to_ascii_lower, trim_end};
use stock_mm::time::{Duration, Instant};
use stock_mm::types::{Side, TickGrid, Ticks};
use stock_mm::util::{hmac_sha512_hex, ms_of, secs_of, sha512_hex, unix_ms, unix_secs, Backoff, TimeWindow};

fn at(ms: u64) -> Instant {
    Instant::from_nanos(1_000_000_000_000 + ms * 1_000_000)
}

#[test]
fn window_evicts_and_lookup() {
    let mut w = TimeWindow::new(Duration::from_millis(1000));
    w.push(at(0), 1.0);
    w.push(at(500), 2.0);
    w.push(at(1400), 3.0);
    assert_eq!(w.len(), 2);
    assert_eq!(w.at_or_before(at(1300)).map(|x| x.1), Some(2.0));
    assert_eq!(w.at_or_before(at(1500)).map(|x| x.1), Some(3.0));
    assert_eq!(w.at_or_before(at(400)).map(|x| x.1), None);
}

#[test]
fn hmac_known_vector() {
    let s = hmac_sha512_hex("secret", "");
    assert_eq!(s.len(), 128);
    assert_eq!(sha512_hex("").len(), 128);
    assert!(sha512_hex("").starts_with("cf83e1357eefb8bd"));
    assert!(hmac_sha512_hex("key", "The quick brown fox jumps over the lazy dog").starts_with("b42af09057bac1e2d41708e48a902e09"));
}

#[test]
fn delays_double_up_to_the_longest() {
    let mut b = Backoff::new(Duration::from_millis(500), Duration::from_secs(1));
    assert_eq!(b.next(), Duration::from_millis(500));
    assert_eq!(b.next(), Duration::from_secs(1));
    assert_eq!(b.next(), Duration::from_secs(1));
    b.reset();
    assert_eq!(b.next(), Duration::from_millis(500));
}

#[test]
fn clock_readings_are_whole_units() {
    assert_eq!(ms_of(Some((2, 500_000_000))), 2500);
    assert_eq!(secs_of(Some((2, 500_000_000))), 2);
    assert_eq!(ms_of(None), 0);
    let (ms, secs) = (unix_ms(), unix_secs());
    assert!(ms / 1000 >= secs - 1 && secs > 1_600_000_000);
}

#[test]
fn texts_are_searched_and_trimmed() {
    assert!(starts_with("t-mm", "t-") && !starts_with("t", "t-"));
    assert!(ends_with("x@aggTrade", "@aggTrade") && !ends_with("de", "Trade"));
    assert!(contains("it timed out", "timed out") && !contains("", "x"));
    assert_eq!(to_ascii_lower("SNDKusdt-9"), "sndkusdt-9");
    assert_eq!(trim_end("https://a//", '/'), "https://a");
    assert_eq!(trim_end("///", '/'), "");
    assert_eq!((read_u16("200"), read_u16("+7"), read_u16("65536"), read_u16(""), read_u16("2x")), (Some(200), Some(7), None, None, None));
}

fn grid() -> TickGrid {
    TickGrid::new(Dec::parse("0.01").unwrap())
}

fn floor(px: f64) -> Ticks {
    (px / 0.01 + 1e-7).floor() as Ticks
}

fn ceil(px: f64) -> Ticks {
    (px / 0.01 - 1e-7).ceil() as Ticks
}

#[test]
fn tick_floor_ceil_exact_on_grid() {
    let g = grid();
    assert_eq!(floor(999.80), 99980);
    assert_eq!(ceil(999.80), 99980);
    assert_eq!(floor(999.801), 99980);
    assert_eq!(ceil(999.801), 99981);
    assert_eq!(floor(1000.0 - 1000.0 * 2.0 / 10_000.0), 99980);
    assert_eq!(g.to_string(99980), "999.80");
    assert_eq!(g.parse("999.80"), Some(99980));
    assert_eq!(g.to_decimal(100029), Dec { mantissa: 100029, scale: 2 });
}

#[test]
fn ticks_read_back_from_their_wire_form() {
    for (tick, t, wire) in [("0.05", 30013, "1500.65"), ("0.50", 3, "1.5"), ("5", -7, "-35"), ("0.001", 0, "0")] {
        let g = TickGrid::new(Dec::parse(tick).unwrap());
        assert!(g.can_show(t));
        assert_eq!(g.to_string(t), wire);
        assert_eq!(g.parse(wire), Some(t));
    }
}

#[test]
fn prices_off_the_grid_go_to_the_nearest_tick() {
    let g = grid();
    assert_eq!(g.parse("1.006"), Some(101));
    assert_eq!(g.parse("1.004"), Some(100));
    assert_eq!(g.parse("1.005"), Some(100));
    assert_eq!(g.parse("1.015"), Some(102));
    assert_eq!(g.parse("abc"), None);
    assert_eq!(TickGrid::new(Dec { mantissa: 0, scale: 0 }).parse("1"), None);
}

#[test]
fn decimals_keep_their_digits() {
    assert_eq!(Dec::parse("1500.10"), Some(Dec { mantissa: 150010, scale: 2 }));
    assert_eq!(Dec::parse("-0.0001"), Some(Dec { mantissa: -1, scale: 4 }));
    assert_eq!(Dec::parse(""), None);
}

#[test]
fn sides_have_signs_and_opposites() {
    assert_eq!((Side::Buy.sign(), Side::Sell.sign()), (1, -1));
    assert_eq!(Side::Buy.opposite(), Side::Sell);
    assert_eq!(Side::Sell.opposite().opposite(), Side::Sell);
    assert_eq!((Side::Buy.label(), Side::Sell.label()), ("buy", "sell"));
}
