use finnhub_ws::history::{TickerHistory, MAX_HISTORY};
use finnhub_ws::types::{Price, Symbol, TickerInfo, Volume};
use std::collections::{HashMap, VecDeque};

fn symbol(text: &str) -> Symbol {
    Symbol(text.to_string())
}

fn tick(name: &str, price: f32, volume: f32, time: i64) -> TickerInfo {
    TickerInfo {
        symbol: symbol(name),
        price: Price(price.to_bits()),
        volume: Volume(volume.to_bits()),
        time,
    }
}

fn times(history: &TickerHistory, name: &str) -> Vec<i64> {
    match history.get(&symbol(name)) {
        Some(run) => run.iter().map(|t| t.time).collect(),
        None => Vec::new(),
    }
}

#[test]
fn new_history_is_empty() {
    let history = TickerHistory::new();
    assert!(history.get(&symbol("AAPL")).is_none());
    assert!(history.symbols().is_empty());
}

#[test]
fn max_history_is_twenty_five() {
    assert_eq!(MAX_HISTORY, 25);
}

#[test]
fn insert_creates_the_run() {
    let mut history = TickerHistory::new();
    history.insert(tick("AAPL", 101.5, 10.0, 1690000000000));
    let run = history.get(&symbol("AAPL")).unwrap();
    assert_eq!(run.len(), 1);
    assert_eq!(run[0].symbol, symbol("AAPL"));
    assert_eq!(f32::from_bits(run[0].price.0), 101.5);
    assert_eq!(f32::from_bits(run[0].volume.0), 10.0);
    assert_eq!(run[0].time, 1690000000000);
}

#[test]
fn insertion_order_not_timestamp_order() {
    let mut history = TickerHistory::new();
    history.insert(tick("AAPL", 1.0, 1.0, 5));
    history.insert(tick("AAPL", 1.0, 1.0, 3));
    history.insert(tick("AAPL", 1.0, 1.0, 10));
    assert_eq!(times(&history, "AAPL"), vec![10, 3, 5]);
}

#[test]
fn length_is_min_of_cap_and_insert_count() {
    let mut history = TickerHistory::new();
    for n in 1..=60usize {
        history.insert(tick("AAPL", n as f32, 1.0, n as i64));
        let run = history.get(&symbol("AAPL")).unwrap();
        assert_eq!(run.len(), std::cmp::min(25, n));
        assert!(run.len() <= MAX_HISTORY);
        assert_eq!(run[0].time, n as i64);
    }
}

#[test]
fn full_run_evicts_the_oldest() {
    let mut history = TickerHistory::new();
    for n in 1..=25i64 {
        history.insert(tick("AAPL", 1.0, 1.0, n));
    }
    assert_eq!(times(&history, "AAPL"), (1..=25i64).rev().collect::<Vec<i64>>());
    history.insert(tick("AAPL", 1.0, 1.0, 26));
    assert_eq!(times(&history, "AAPL"), (2..=26i64).rev().collect::<Vec<i64>>());
    history.insert(tick("AAPL", 1.0, 1.0, 27));
    assert_eq!(times(&history, "AAPL"), (3..=27i64).rev().collect::<Vec<i64>>());
}

#[test]
fn reading_does_not_promote() {
    let mut history = TickerHistory::new();
    for n in 1..=25i64 {
        history.insert(tick("AAPL", 1.0, 1.0, n));
    }
    for _ in 0..3 {
        assert_eq!(history.get(&symbol("AAPL")).unwrap()[24].time, 1);
    }
    history.insert(tick("AAPL", 1.0, 1.0, 26));
    assert_eq!(history.get(&symbol("AAPL")).unwrap()[24].time, 2);
}

#[test]
fn symbols_are_kept_apart() {
    let mut history = TickerHistory::new();
    history.insert(tick("AAPL", 1.0, 1.0, 1));
    history.insert(tick("MSFT", 1.0, 1.0, 2));
    history.insert(tick("AAPL", 1.0, 1.0, 3));
    history.insert(tick("aapl", 1.0, 1.0, 4));
    assert_eq!(times(&history, "AAPL"), vec![3, 1]);
    assert_eq!(times(&history, "MSFT"), vec![2]);
    assert_eq!(times(&history, "aapl"), vec![4]);
    assert!(history.get(&symbol("GOOG")).is_none());
}

#[test]
fn remove_deletes_the_whole_run() {
    let mut history = TickerHistory::new();
    history.insert(tick("AAPL", 1.0, 1.0, 1));
    history.insert(tick("AAPL", 1.0, 1.0, 2));
    history.insert(tick("MSFT", 1.0, 1.0, 3));
    history.remove(&symbol("AAPL"));
    assert!(history.get(&symbol("AAPL")).is_none());
    assert_eq!(times(&history, "MSFT"), vec![3]);
    history.insert(tick("AAPL", 1.0, 1.0, 4));
    assert_eq!(times(&history, "AAPL"), vec![4]);
}

#[test]
fn remove_of_unknown_symbol_changes_nothing() {
    let mut history = TickerHistory::new();
    history.insert(tick("AAPL", 1.0, 1.0, 1));
    history.remove(&symbol("MSFT"));
    assert_eq!(times(&history, "AAPL"), vec![1]);
    assert_eq!(history.symbols(), vec![symbol("AAPL")]);
}

#[test]
fn symbols_lists_each_symbol_once() {
    let mut history = TickerHistory::new();
    history.insert(tick("AAPL", 1.0, 1.0, 1));
    history.insert(tick("MSFT", 1.0, 1.0, 2));
    history.insert(tick("AAPL", 1.0, 1.0, 3));
    let mut listed: Vec<String> = history.symbols().into_iter().map(|s| s.0).collect();
    listed.sort();
    assert_eq!(listed, vec!["AAPL".to_string(), "MSFT".to_string()]);
    history.remove(&symbol("AAPL"));
    assert_eq!(history.symbols(), vec![symbol("MSFT")]);
}

#[test]
fn restore_takes_a_well_formed_run() {
    let mut history = TickerHistory::new();
    let mut run = VecDeque::new();
    run.push_back(tick("AAPL", 1.0, 1.0, 9));
    run.push_back(tick("AAPL", 1.0, 1.0, 7));
    assert!(history.restore(symbol("AAPL"), run));
    assert_eq!(times(&history, "AAPL"), vec![9, 7]);
    history.insert(tick("AAPL", 1.0, 1.0, 11));
    assert_eq!(times(&history, "AAPL"), vec![11, 9, 7]);
}

#[test]
fn restore_takes_a_full_run() {
    let mut history = TickerHistory::new();
    let run: VecDeque<TickerInfo> = (0..25i64).map(|n| tick("AAPL", 1.0, 1.0, n)).collect();
    assert!(history.restore(symbol("AAPL"), run));
    assert_eq!(history.get(&symbol("AAPL")).unwrap().len(), 25);
}

#[test]
fn restore_refuses_an_empty_run() {
    let mut history = TickerHistory::new();
    assert!(!history.restore(symbol("AAPL"), VecDeque::new()));
    assert!(history.get(&symbol("AAPL")).is_none());
}

#[test]
fn restore_refuses_a_run_that_is_too_long() {
    let mut history = TickerHistory::new();
    let run: VecDeque<TickerInfo> = (0..26i64).map(|n| tick("AAPL", 1.0, 1.0, n)).collect();
    assert!(!history.restore(symbol("AAPL"), run));
    assert!(history.get(&symbol("AAPL")).is_none());
}

#[test]
fn restore_refuses_a_trade_of_another_symbol() {
    let mut history = TickerHistory::new();
    let mut run = VecDeque::new();
    run.push_back(tick("AAPL", 1.0, 1.0, 9));
    run.push_back(tick("MSFT", 1.0, 1.0, 7));
    assert!(!history.restore(symbol("AAPL"), run));
    assert!(history.symbols().is_empty());
}

#[test]
fn restore_refuses_a_symbol_that_has_trades() {
    let mut history = TickerHistory::new();
    history.insert(tick("AAPL", 1.0, 1.0, 1));
    let mut run = VecDeque::new();
    run.push_back(tick("AAPL", 1.0, 1.0, 9));
    assert!(!history.restore(symbol("AAPL"), run));
    assert_eq!(times(&history, "AAPL"), vec![1]);
}

#[test]
fn replaying_a_stored_history_reproduces_it() {
    let mut history = TickerHistory::new();
    for n in 0..40i64 {
        history.insert(tick("AAPL", n as f32, 2.0, n));
        if n % 3 == 0 {
            history.insert(tick("MSFT", n as f32, 3.0, -n));
        }
    }
    let mut copy = TickerHistory::new();
    for s in history.symbols() {
        let run: VecDeque<TickerInfo> = history.get(&s).unwrap().iter().cloned().collect();
        assert!(copy.restore(s, run));
    }
    for name in ["AAPL", "MSFT"] {
        assert_eq!(times(&copy, name), times(&history, name));
    }
    assert_eq!(copy.symbols(), history.symbols());
}

#[test]
fn removing_in_the_middle_keeps_the_others_in_reach() {
    let mut history = TickerHistory::new();
    let names: Vec<String> = (0..50).map(|n| format!("SYM{}", n)).collect();
    for (n, name) in names.iter().enumerate() {
        history.insert(tick(name, 1.0, 1.0, n as i64));
        history.insert(tick(name, 1.0, 1.0, 100 + n as i64));
    }
    for (n, name) in names.iter().enumerate() {
        if n % 3 == 0 {
            history.remove(&symbol(name));
        }
    }
    for (n, name) in names.iter().enumerate() {
        if n % 3 == 0 {
            assert!(history.get(&symbol(name)).is_none());
        } else {
            assert_eq!(times(&history, name), vec![100 + n as i64, n as i64]);
        }
    }
    let mut listed: Vec<String> = history.symbols().into_iter().map(|s| s.0).collect();
    listed.sort();
    let mut expected: Vec<String> =
        names.iter().enumerate().filter(|(n, _)| n % 3 != 0).map(|(_, s)| s.clone()).collect();
    expected.sort();
    assert_eq!(listed, expected);
    for name in names.iter() {
        history.insert(tick(name, 1.0, 1.0, 7));
        assert_eq!(history.get(&symbol(name)).unwrap()[0].time, 7);
    }
    assert_eq!(history.symbols().len(), 50);
}

#[test]
fn removing_the_only_and_the_last_shelf() {
    let mut history = TickerHistory::new();
    history.insert(tick("A", 1.0, 1.0, 1));
    history.remove(&symbol("A"));
    assert!(history.symbols().is_empty());
    history.insert(tick("A", 1.0, 1.0, 2));
    history.insert(tick("B", 1.0, 1.0, 3));
    history.remove(&symbol("B"));
    assert_eq!(history.symbols(), vec![symbol("A")]);
    assert_eq!(times(&history, "A"), vec![2]);
    history.remove(&symbol("B"));
    assert_eq!(times(&history, "A"), vec![2]);
}

#[test]
fn agrees_with_a_plain_map_of_queues() {
    let mut history = TickerHistory::new();
    let mut plain: HashMap<String, VecDeque<i64>> = HashMap::new();
    let mut seed: u64 = 0x2545_f491_4f6c_dd1d;
    for step in 0..5000i64 {
        seed = seed.wrapping_mul(6364136223846793005).wrapping_add(1442695040888963407);
        let name = format!("S{}", (seed >> 33) % 12);
        if (seed >> 20) % 10 == 0 {
            history.remove(&symbol(&name));
            plain.remove(&name);
        } else {
            history.insert(tick(&name, 1.0, 1.0, step));
            let queue = plain.entry(name.clone()).or_insert_with(VecDeque::new);
            queue.push_front(step);
            if queue.len() > 25 {
                queue.pop_back();
            }
        }
        if step % 97 == 0 {
            for n in 0..12 {
                let name = format!("S{}", n);
                let expected: Vec<i64> =
                    plain.get(&name).map(|q| q.iter().copied().collect()).unwrap_or_default();
                assert_eq!(times(&history, &name), expected);
                assert_eq!(history.get(&symbol(&name)).is_some(), plain.contains_key(&name));
            }
            assert_eq!(history.symbols().len(), plain.len());
        }
    }
}
