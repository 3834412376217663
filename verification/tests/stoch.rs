use candle_ta::indicators::stoch_rsi::StochRsi;
use candle_ta::indicators::{Indicator, Price, StochasticRsi, Value};

fn fx(v: f64) -> i64 {
    (v * 1_000_000.0).round() as i64
}

fn bar(c: f64) -> Price {
    Price { open: fx(c), high: fx(c), low: fx(c), close: fx(c), open_time: 0, close_time: 0, vlm: 0 }
}

#[test]
fn stoch_rising_values_drive_k_to_100_and_d_follows() {
    let mut s = StochRsi::new(5, 3, 3);
    assert_eq!(s.periods(), 5);
    let mut first_k = 0;
    let mut first_d = 0;
    for i in 1..=12 {
        s.update_after_close(fx(10.0 + i as f64));
        if first_k == 0 && s.get_k().is_some() {
            first_k = i;
        }
        if first_d == 0 && s.get_d().is_some() {
            first_d = i;
        }
        if let Some(k) = s.get_k() {
            assert_eq!(k, fx(100.0));
        }
        if let Some(d) = s.get_d() {
            assert_eq!(d, fx(100.0));
        }
        assert_eq!(s.is_ready(), s.get_k().is_some() && s.get_d().is_some());
    }
    // the window fills on value 5, %K has three raw values on value 7 and
    // %D three values of %K on value 9
    assert_eq!(first_k, 7);
    assert_eq!(first_d, 9);
    assert!(s.is_ready());
}

#[test]
fn stoch_k_approaches_100_and_d_lags_it() {
    let mut s = StochRsi::new(3, 2, 2);
    // a fall, then a steady rise
    let values = [50.0, 40.0, 30.0, 31.0, 36.0, 45.0, 60.0];
    let mut ks = Vec::new();
    let mut ds = Vec::new();
    for v in values {
        s.update_after_close(fx(v));
        ks.push(s.get_k());
        ds.push(s.get_d());
    }
    // raw %K: 0 on 50 40 30, 0.1 on 40 30 31, 1, 1, 1
    assert_eq!(ks, vec![None, None, None, Some(fx(5.0)), Some(fx(55.0)), Some(fx(100.0)), Some(fx(100.0))]);
    assert_eq!(ds, vec![None, None, None, None, Some(fx(30.0)), Some(fx(77.5)), Some(fx(100.0))]);
}

#[test]
fn stoch_exact_raw_values_and_recomputed_extremes() {
    let mut s = StochRsi::new(3, 1, 1);
    s.update_after_close(fx(10.0));
    s.update_after_close(fx(30.0));
    assert!(!s.is_ready());
    s.update_after_close(fx(20.0));
    assert_eq!(s.get_k(), Some(fx(50.0)));
    assert_eq!(s.get_d(), Some(fx(50.0)));
    // 10 leaves, and it was the least: the window 30 20 40 is scanned
    s.update_after_close(fx(40.0));
    assert_eq!(s.get_k(), Some(fx(100.0)));
    // 30 leaves, which was no extreme: 20 40 25
    s.update_after_close(fx(25.0));
    assert_eq!(s.get_k(), Some(fx(25.0)));
    // 20 leaves, the least: 40 25 30
    s.update_after_close(fx(30.0));
    assert_eq!(s.get_k(), Some(33_333_300));
    // 40 leaves, the greatest: 25 30 26
    s.update_after_close(fx(26.0));
    assert_eq!(s.get_k(), Some(fx(20.0)));
}

#[test]
fn stoch_without_a_range_reports_nothing() {
    let mut s = StochRsi::new(3, 1, 1);
    s.update_after_close(fx(5.0));
    s.update_after_close(fx(5.0));
    s.update_after_close(fx(5.0));
    assert!(!s.is_ready());
    assert_eq!(s.get_k(), None);
    assert_eq!(s.get_d(), None);
    s.update_after_close(fx(6.0));
    assert!(s.is_ready());
    assert_eq!(s.get_k(), Some(fx(100.0)));
    s.update_after_close(fx(6.0));
    assert_eq!(s.get_k(), Some(fx(100.0)));
    // 6 6 6 has no range again
    s.update_after_close(fx(6.0));
    assert!(!s.is_ready());
    assert_eq!(s.get_k(), None);
    s.update_before_close(fx(6.0));
    assert!(!s.is_ready());
    s.update_before_close(fx(9.0));
    assert!(s.is_ready());
    assert_eq!(s.get_k(), Some(fx(100.0)));
}

#[test]
fn stoch_provisional_leaves_the_committed_extremes_alone() {
    let mut s = StochRsi::new(3, 1, 1);
    s.update_after_close(fx(20.0));
    s.update_after_close(fx(40.0));
    s.update_after_close(fx(25.0));
    assert_eq!(s.get_k(), Some(fx(25.0)));
    // observed 20 40 10
    s.update_before_close(fx(10.0));
    assert_eq!(s.get_k(), Some(0));
    // observed 20 40 50: the 10 before has left no trace
    s.update_before_close(fx(50.0));
    assert_eq!(s.get_k(), Some(fx(100.0)));
    s.update_before_close(fx(50.0));
    assert_eq!(s.get_k(), Some(fx(100.0)));
    // committed 40 25 30
    s.update_after_close(fx(30.0));
    assert_eq!(s.get_k(), Some(33_333_300));
}

#[test]
fn stoch_provisional_over_an_extreme_rescans_the_rest() {
    let mut s = StochRsi::new(3, 1, 1);
    s.update_after_close(fx(30.0));
    s.update_after_close(fx(20.0));
    s.update_after_close(fx(40.0));
    // the newest committed value is the greatest: observed 30 20 35
    s.update_before_close(fx(35.0));
    assert_eq!(s.get_k(), Some(fx(100.0)));
    // observed 30 20 25
    s.update_before_close(fx(25.0));
    assert_eq!(s.get_k(), Some(fx(50.0)));
    // observed 30 20 20 has the least twice
    s.update_before_close(fx(20.0));
    assert_eq!(s.get_k(), Some(0));
    // the commit sees 20 40 22
    s.update_after_close(fx(22.0));
    assert_eq!(s.get_k(), Some(fx(10.0)));
}

#[test]
fn stoch_provisional_replaces_the_newest_slot_of_both_stages() {
    let mut s = StochRsi::new(2, 2, 2);
    // raw %K: 1 on 10 20, 0 on 20 10, 1 on 10 30, 0 on 30 15
    for v in [10.0, 20.0, 10.0, 30.0] {
        s.update_after_close(fx(v));
    }
    // %K: -, 0.5 (1, 0), 0.5 (0, 1); %D: 0.5
    assert_eq!(s.get_k(), Some(fx(50.0)));
    assert_eq!(s.get_d(), Some(fx(50.0)));
    // observed 10 5: raw 0 takes the place of the newest raw value: %K = (0 + 0) / 2,
    // and %K = 0 takes the place of the newest %K: %D = (0.5 + 0) / 2
    s.update_before_close(fx(5.0));
    assert_eq!(s.get_k(), Some(0));
    assert_eq!(s.get_d(), Some(fx(25.0)));
    s.update_before_close(fx(5.0));
    assert_eq!(s.get_k(), Some(0));
    assert_eq!(s.get_d(), Some(fx(25.0)));
    // committed 30 15: raw 0, %K = (1 + 0) / 2, %D = (0.5 + 0.5) / 2
    s.update_after_close(fx(15.0));
    assert_eq!(s.get_k(), Some(fx(50.0)));
    assert_eq!(s.get_d(), Some(fx(50.0)));
}

#[test]
fn stoch_provisional_is_ignored_until_the_window_fills() {
    let mut s = StochRsi::new(3, 1, 1);
    s.update_before_close(fx(10.0));
    s.update_after_close(fx(10.0));
    s.update_before_close(fx(90.0));
    s.update_after_close(fx(30.0));
    s.update_before_close(fx(90.0));
    assert!(!s.is_ready());
    s.update_after_close(fx(20.0));
    assert_eq!(s.get_k(), Some(fx(50.0)));
}

#[test]
fn stoch_reset_then_replay_matches_a_fresh_one() {
    let values = [30.0, 20.0, 40.0, 25.0, 60.0, 10.0];
    let mut used = StochRsi::new(3, 2, 2);
    for v in [5.0, 9.0, 7.0, 1.0, 8.0] {
        used.update_after_close(fx(v));
    }
    used.update_before_close(fx(3.0));
    used.reset();
    assert!(!used.is_ready());
    assert_eq!(used.get_k(), None);
    assert_eq!(used.get_d(), None);
    let mut fresh = StochRsi::new(3, 2, 2);
    for v in values {
        used.update_after_close(fx(v));
        fresh.update_after_close(fx(v));
        assert_eq!(used.get_k(), fresh.get_k());
        assert_eq!(used.get_d(), fresh.get_d());
    }
    assert!(fresh.is_ready());
}

#[test]
fn stochastic_rsi_reports_k_and_d_of_the_index() {
    let closes = [10.0, 11.0, 10.5, 12.0, 11.0, 11.5, 13.0, 12.0, 12.5];
    let mut s = StochasticRsi::new(3, 1, 1);
    assert_eq!(s.period(), 3);
    let mut seen = None;
    for (i, c) in closes.iter().enumerate() {
        s.update_after_close(bar(*c));
        assert_eq!(s.is_ready(), s.get_last().is_some());
        if seen.is_none() && s.is_ready() {
            seen = Some(i + 1);
        }
    }
    // the index starts on bar 3 and its window of three values fills on bar 5
    assert_eq!(seen, Some(5));
    match s.get_last() {
        Some(Value::StochRsiValue { k, d }) => {
            assert!(0 <= k && k <= fx(100.0));
            assert_eq!(k, d);
        }
        _ => panic!("no value"),
    }
}

#[test]
fn stochastic_rsi_is_not_ready_while_the_index_has_no_range() {
    // on rising closes the index is 100 throughout
    let mut s = StochasticRsi::new(3, 1, 1);
    for i in 0..10 {
        s.update_after_close(bar(10.0 + i as f64));
        assert!(!s.is_ready());
        assert_eq!(s.get_last(), None);
    }
    s.update_after_close(bar(5.0));
    assert!(s.is_ready());
    assert_eq!(s.get_last(), Some(Value::StochRsiValue { k: 0, d: 0 }));
}
