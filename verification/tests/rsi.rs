use candle_ta::indicators::rsi::RsiBuffer;
use candle_ta::indicators::{Indicator, Price, Rsi, SmaRsi, Value};

fn fx(v: f64) -> i64 {
    (v * 1_000_000.0).round() as i64
}

fn bar(c: f64) -> Price {
    Price { open: fx(c), high: fx(c), low: fx(c), close: fx(c), open_time: 0, close_time: 0, vlm: 0 }
}

fn value(rsi: &Rsi) -> Option<i64> {
    match rsi.get_last() {
        Some(Value::RsiValue(v)) => Some(v),
        Some(_) => panic!("wrong kind of value"),
        None => None,
    }
}

#[test]
fn push() {
    let mut rsi = Rsi::new(9, 14, None, None, None);

    rsi.update_after_close(bar(121.2));
    assert_eq!(rsi.get_last(), None);
    rsi.update_after_close(bar(121.2));
    assert_eq!(rsi.get_last(), None);

    rsi.update_after_close(bar(121.0));
    rsi.update_after_close(bar(121.2));
    rsi.update_after_close(bar(121.3));
    rsi.update_after_close(bar(120.9));
    rsi.update_after_close(bar(121.3));
    rsi.update_after_close(bar(121.7));

    rsi.update_after_close(bar(121.9));

    let val = rsi.get_last();
    assert_ne!(rsi.get_last(), None);
    // gains 0.2 + 0.1 + 0.4 + 0.4 + 0.2 = 1.3, losses 0.2 + 0.4 = 0.6, over 8 changes:
    // 100 - 100 * 0.075 / (0.1625 + 0.075)
    assert_eq!(val, Some(Value::RsiValue(68_421_053)));
}

#[test]
fn rsi_is_ready_exactly_on_the_bar_that_fills_the_window() {
    for periods in [2u32, 3, 5, 14] {
        let mut rsi = Rsi::new(periods, 4, None, None, None);
        assert_eq!(rsi.period(), periods);
        for i in 1..=(periods + 3) {
            rsi.update_before_close(bar(50.0 + i as f64));
            assert_eq!(rsi.is_ready(), i > periods);
            rsi.update_after_close(bar(100.0 + ((i * 7) % 5) as f64));
            assert_eq!(rsi.is_ready(), i >= periods);
            assert_eq!(rsi.get_last().is_some(), i >= periods);
        }
    }
}

#[test]
fn rsi_exact_values() {
    let mut rsi = Rsi::new(3, 4, None, None, None);
    rsi.update_after_close(bar(10.0));
    rsi.update_after_close(bar(11.0));
    assert_eq!(value(&rsi), None);
    // changes +1, -0.5: average gain 0.5, average loss 0.25
    rsi.update_after_close(bar(10.5));
    assert_eq!(value(&rsi), Some(66_666_667));
    // change +1.5: average gain (0.5 * 2 + 1.5) / 3, average loss (0.25 * 2) / 3
    rsi.update_after_close(bar(12.0));
    assert_eq!(value(&rsi), Some(83_333_384));
}

#[test]
fn rsi_rising_path_is_exactly_100() {
    let mut rsi = Rsi::new(5, 4, None, None, Some(3));
    for i in 0..20 {
        rsi.update_after_close(bar(100.0 + (i * i) as f64 * 0.01 + i as f64));
        if i >= 4 {
            assert_eq!(value(&rsi), Some(fx(100.0)));
        } else {
            assert_eq!(value(&rsi), None);
        }
    }
    assert_eq!(rsi.get_sma_rsi(), Some(fx(100.0)));
}

#[test]
fn rsi_falling_path_is_exactly_0() {
    let mut rsi = Rsi::new(4, 4, None, None, None);
    for i in 0..10 {
        rsi.update_after_close(bar(100.0 - i as f64));
    }
    assert_eq!(value(&rsi), Some(0));
}

#[test]
fn rsi_flat_path_is_100() {
    // no loss at all: the average loss is exactly zero
    let mut rsi = Rsi::new(3, 4, None, None, None);
    for _ in 0..5 {
        rsi.update_after_close(bar(42.0));
    }
    assert_eq!(value(&rsi), Some(fx(100.0)));
}

#[test]
fn rsi_provisional_is_computed_from_the_committed_averages() {
    let mut rsi = Rsi::new(3, 4, None, None, None);
    rsi.load(&[bar(10.0), bar(11.0), bar(10.5)]);
    // change -1.5 against the committed close 10.5
    rsi.update_before_close(bar(9.0));
    assert_eq!(value(&rsi), Some(33_333_334));
    rsi.update_before_close(bar(9.0));
    assert_eq!(value(&rsi), Some(33_333_334));
    // change +1.5 against the same close
    rsi.update_before_close(bar(12.0));
    assert_eq!(value(&rsi), Some(83_333_384));
    rsi.update_before_close(bar(9.0));
    rsi.update_after_close(bar(12.0));
    assert_eq!(value(&rsi), Some(83_333_384));
}

#[test]
fn rsi_provisional_is_ignored_before_any_history() {
    let mut rsi = Rsi::new(3, 4, None, None, None);
    rsi.update_before_close(bar(10.0));
    rsi.update_before_close(bar(50.0));
    assert_eq!(rsi.get_last(), None);
    rsi.load(&[bar(10.0), bar(11.0), bar(10.5)]);
    // had a provisional bar been taken for the first close, the first change would differ
    assert_eq!(value(&rsi), Some(66_666_667));
}

#[test]
fn rsi_provisional_does_not_change_the_next_commit() {
    let closes = [44.0, 44.3, 44.1, 43.6, 44.3, 44.8, 45.1, 45.4, 45.8, 46.1, 45.9, 46.3];
    let mut plain = Rsi::new(4, 3, Some(2), Some(2), Some(3));
    let mut teased = Rsi::new(4, 3, Some(2), Some(2), Some(3));
    for c in closes {
        teased.update_before_close(bar(c + 3.0));
        let once = (teased.get_last(), teased.get_sma_rsi(), teased.get_stoch_rsi(), teased.get_stoch_signal());
        teased.update_before_close(bar(c + 3.0));
        let twice = (teased.get_last(), teased.get_sma_rsi(), teased.get_stoch_rsi(), teased.get_stoch_signal());
        assert_eq!(once, twice);
        teased.update_before_close(bar(c - 2.0));

        plain.update_after_close(bar(c));
        teased.update_after_close(bar(c));
        assert_eq!(plain.get_last(), teased.get_last());
        assert_eq!(plain.get_sma_rsi(), teased.get_sma_rsi());
        assert_eq!(plain.get_stoch_rsi(), teased.get_stoch_rsi());
        assert_eq!(plain.get_stoch_signal(), teased.get_stoch_signal());
        assert_eq!(plain.is_ready(), teased.is_ready());
        assert_eq!(plain.sma_is_ready(), teased.sma_is_ready());
        assert_eq!(plain.stoch_is_ready(), teased.stoch_is_ready());
    }
    assert!(plain.is_ready() && plain.sma_is_ready() && plain.stoch_is_ready());
}

#[test]
fn rsi_reset_then_replay_matches_a_fresh_one() {
    let closes = [44.0, 44.3, 44.1, 43.6, 44.3, 44.8, 45.1, 45.4, 45.8, 46.1, 45.9, 46.3];
    let bars: Vec<Price> = closes.iter().map(|c| bar(*c)).collect();
    let mut used = Rsi::new(4, 3, Some(2), Some(2), Some(3));
    used.load(&[bar(1.0), bar(5.0), bar(2.0), bar(8.0), bar(3.0), bar(9.0), bar(4.0), bar(7.0)]);
    used.update_before_close(bar(6.0));
    used.reset();
    assert!(!used.is_ready());
    assert_eq!(used.get_last(), None);
    assert_eq!(used.get_sma_rsi(), None);
    assert_eq!(used.get_stoch_rsi(), None);
    assert_eq!(used.get_stoch_signal(), None);
    assert_eq!(used.period(), 4);
    let mut fresh = Rsi::new(4, 3, Some(2), Some(2), Some(3));
    used.load(&bars);
    fresh.load(&bars);
    assert!(fresh.is_ready());
    assert_eq!(used.get_last(), fresh.get_last());
    assert_eq!(used.get_sma_rsi(), fresh.get_sma_rsi());
    assert_eq!(used.get_stoch_rsi(), fresh.get_stoch_rsi());
    assert_eq!(used.get_stoch_signal(), fresh.get_stoch_signal());
}

#[test]
fn rsi_moving_average_over_the_index() {
    let mut rsi = Rsi::new(3, 4, None, None, Some(2));
    rsi.load(&[bar(10.0), bar(11.0), bar(10.5)]);
    assert!(!rsi.sma_is_ready());
    assert_eq!(rsi.get_sma_rsi(), None);
    rsi.update_after_close(bar(12.0));
    assert!(rsi.sma_is_ready());
    // (66.666667 + 83.333384) / 2
    assert_eq!(rsi.get_sma_rsi(), Some(75_000_025));
    // the provisional index 33.333334 takes the place of the newest one
    rsi.update_before_close(bar(10.5));
    assert_eq!(value(&rsi), Some(rsi_of(555_555, 611_110)));
    assert_eq!(rsi.get_sma_rsi(), Some((66_666_667 + rsi_of(555_555, 611_110)).div_euclid(2)));

    let without = Rsi::new(3, 4, None, None, None);
    assert!(!without.sma_is_ready());
    assert_eq!(without.get_sma_rsi(), None);
}

fn rsi_of(gain: i64, loss: i64) -> i64 {
    100_000_000 - (100_000_000 * loss).div_euclid(gain + loss)
}

#[test]
fn rsi_default_parameters() {
    let rsi = Rsi::default();
    assert_eq!(rsi.period(), 14);
    assert!(!rsi.is_ready());
    assert!(!rsi.sma_is_ready());
    assert!(!rsi.stoch_is_ready());
}

#[test]
fn rsi_buffer_seeds_with_simple_averages_and_then_smooths() {
    let mut buff = RsiBuffer::new(3);
    assert_eq!(buff.period(), 3);
    buff.push(fx(1.0));
    assert!(!buff.is_full());
    assert_eq!(buff.rsi(), None);
    buff.push_before_close(fx(-9.0));
    assert_eq!(buff.rsi(), None);
    buff.push(fx(-0.5));
    assert!(buff.is_full());
    assert_eq!(buff.rsi(), Some(66_666_667));
    buff.push_before_close(fx(-1.5));
    assert_eq!(buff.rsi(), Some(33_333_334));
    buff.push(fx(1.5));
    assert_eq!(buff.rsi(), Some(83_333_384));
}

#[test]
fn sma_rsi_reports_the_average_of_the_index() {
    let mut s = SmaRsi::new(3, 2);
    assert_eq!(s.period(), 3);
    s.load(&[bar(10.0), bar(11.0), bar(10.5)]);
    assert!(!s.is_ready());
    assert_eq!(s.get_last(), None);
    s.update_after_close(bar(12.0));
    assert!(s.is_ready());
    assert_eq!(s.get_last(), Some(Value::SmaRsiValue(75_000_025)));
    let committed = s.get_last();
    s.update_before_close(bar(10.5));
    assert_ne!(s.get_last(), committed);
    let once = s.get_last();
    s.update_before_close(bar(10.5));
    assert_eq!(s.get_last(), once);
    s.reset();
    assert!(!s.is_ready());
    assert_eq!(s.get_last(), None);
}
