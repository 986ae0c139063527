use finnhub_ws::types::{ticker_health, Price, Symbol, TickerHealth, TickerInfo, Volume};
use std::collections::VecDeque;

fn price(value: f32) -> Price {
    Price(value.to_bits())
}

fn run_of_prices(prices: &[f32]) -> VecDeque<TickerInfo> {
    prices
        .iter()
        .map(|p| TickerInfo {
            symbol: Symbol("AAPL".to_string()),
            price: price(*p),
            volume: Volume(1.0f32.to_bits()),
            time: 0,
        })
        .collect()
}

fn samples() -> Vec<f32> {
    vec![
        0.0,
        -0.0,
        1.0,
        -1.0,
        101.5,
        101.25,
        -101.5,
        0.000001,
        -0.000001,
        f32::MIN_POSITIVE,
        -f32::MIN_POSITIVE,
        f32::from_bits(1),
        f32::from_bits(0x8000_0001),
        f32::MAX,
        f32::MIN,
        f32::INFINITY,
        f32::NEG_INFINITY,
        f32::NAN,
        f32::from_bits(0xffc0_0000),
        f32::from_bits(0x7f80_0001),
        3.5,
        3.4999998,
    ]
}

#[test]
fn above_agrees_with_the_numbers() {
    for a in samples() {
        for b in samples() {
            assert_eq!(price(a).above(price(b)), a > b, "{} > {}", a, b);
        }
    }
}

#[test]
fn below_agrees_with_the_numbers() {
    for a in samples() {
        for b in samples() {
            assert_eq!(price(a).below(price(b)), a < b, "{} < {}", a, b);
        }
    }
}

#[test]
fn zeros_are_level() {
    assert!(!price(0.0).above(price(-0.0)));
    assert!(!price(-0.0).above(price(0.0)));
    assert!(!price(0.0).below(price(-0.0)));
}

#[test]
fn above_on_given_patterns() {
    assert!(Price(0x42cb_0000).above(Price(0x42ca_8000)));
    assert!(!Price(0x42ca_8000).above(Price(0x42cb_0000)));
    assert!(Price(0x0000_0001).above(Price(0x8000_0001)));
    assert!(Price(0x8000_0001).above(Price(0x8000_0002)));
    assert!(!Price(0x7fc0_0000).above(Price(0)));
    assert!(!Price(0).above(Price(0x7fc0_0000)));
}

#[test]
fn health_without_trades_is_normal() {
    assert_eq!(ticker_health(None), TickerHealth::Normal);
    assert_eq!(ticker_health(Some(&VecDeque::new())), TickerHealth::Normal);
}

#[test]
fn health_with_one_trade_is_normal() {
    assert_eq!(ticker_health(Some(&run_of_prices(&[5.0]))), TickerHealth::Normal);
}

#[test]
fn health_compares_the_two_newest() {
    assert_eq!(ticker_health(Some(&run_of_prices(&[5.0, 4.0]))), TickerHealth::Good);
    assert_eq!(ticker_health(Some(&run_of_prices(&[4.0, 5.0]))), TickerHealth::Bad);
    assert_eq!(ticker_health(Some(&run_of_prices(&[4.0, 4.0]))), TickerHealth::Normal);
    assert_eq!(ticker_health(Some(&run_of_prices(&[5.0, 4.0, 9.0]))), TickerHealth::Good);
    assert_eq!(ticker_health(Some(&run_of_prices(&[4.0, 5.0, 1.0]))), TickerHealth::Bad);
    assert_eq!(ticker_health(Some(&run_of_prices(&[-1.0, -2.0]))), TickerHealth::Good);
    assert_eq!(ticker_health(Some(&run_of_prices(&[f32::NAN, 1.0]))), TickerHealth::Normal);
}

#[test]
fn symbols_compare_by_text() {
    assert_eq!(Symbol("AAPL".to_string()), Symbol("AAPL".to_string()));
    assert_ne!(Symbol("AAPL".to_string()), Symbol("aapl".to_string()));
    assert_ne!(Symbol("AAPL".to_string()), Symbol("AAPL ".to_string()));
    assert_eq!(Symbol("AAPL".to_string()).clone(), Symbol("AAPL".to_string()));
    assert!(Symbol::empty().is_empty());
    assert!(Symbol(String::new()).is_empty());
    assert!(!Symbol("A".to_string()).is_empty());
}

#[test]
fn ticker_info_clone_keeps_every_field() {
    let tick = TickerInfo {
        symbol: Symbol("AAPL".to_string()),
        price: price(101.5),
        volume: Volume(10.0f32.to_bits()),
        time: 1690000000000,
    };
    let copy = tick.clone();
    assert_eq!(copy.symbol, tick.symbol);
    assert_eq!(copy.price.0, tick.price.0);
    assert_eq!(copy.volume.0, tick.volume.0);
    assert_eq!(copy.time, tick.time);
}
