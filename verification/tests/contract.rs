use candle_ta::indicators::{
    Adx, Atr, Ema, EmaCross, Indicator, Price, Rsi, Sma, SmaRsi, StochasticRsi, Value, VolumeMa,
};
use candle_ta::primitives::stddev::StdDev;
use candle_ta::scalar::PRICE_LIMIT;

fn fx(v: f64) -> i64 {
    (v * 1_000_000.0).round() as i64
}

fn bar(c: f64) -> Price {
    Price { open: fx(c), high: fx(c + 1.0), low: fx(c - 1.5), close: fx(c), open_time: 0, close_time: 0, vlm: fx(c * 10.0) }
}

fn series() -> Vec<Price> {
    let closes = [
        44.0, 44.3, 44.1, 43.6, 44.3, 44.8, 45.1, 45.4, 45.8, 46.1, 45.9, 46.3, 45.2, 44.9, 45.5,
        46.8, 47.2, 46.6, 46.0, 46.4,
    ];
    closes.iter().map(|c| bar(*c)).collect()
}

fn first_ready<I: Indicator>(ind: &mut I, bars: &[Price]) -> Option<usize> {
    let mut first = None;
    for (i, b) in bars.iter().enumerate() {
        ind.update_before_close(*b);
        let before = ind.is_ready();
        ind.update_after_close(*b);
        if first.is_none() {
            // a provisional update never makes an indicator ready
            assert!(!before);
            if ind.is_ready() {
                first = Some(i + 1);
            }
        }
        assert_eq!(ind.is_ready(), ind.get_last().is_some());
    }
    first
}

fn check_dual_update<I: Indicator>(mut plain: I, mut teased: I, bars: &[Price]) {
    for (i, b) in bars.iter().enumerate() {
        let other = bars[(i * 7 + 3) % bars.len()];
        teased.update_before_close(other);
        let once = teased.get_last();
        teased.update_before_close(other);
        assert_eq!(teased.get_last(), once);
        teased.update_before_close(*b);
        let same_bar = teased.get_last();
        teased.update_before_close(*b);
        assert_eq!(teased.get_last(), same_bar);

        plain.update_after_close(*b);
        teased.update_after_close(*b);
        assert_eq!(plain.get_last(), teased.get_last());
        assert_eq!(plain.is_ready(), teased.is_ready());
    }
    assert!(plain.is_ready());
}

fn check_reset_replay<I: Indicator>(mut used: I, mut fresh: I, bars: &[Price]) {
    let period = fresh.period();
    used.load(&bars[3..]);
    used.update_before_close(bars[0]);
    used.reset();
    assert!(!used.is_ready());
    assert_eq!(used.get_last(), None);
    assert_eq!(used.period(), period);
    for b in bars {
        used.update_after_close(*b);
        fresh.update_after_close(*b);
        assert_eq!(used.get_last(), fresh.get_last());
        assert_eq!(used.is_ready(), fresh.is_ready());
    }
    assert!(fresh.is_ready());
    let mut loaded = used;
    loaded.reset();
    loaded.load(bars);
    assert_eq!(loaded.get_last(), fresh.get_last());
}

#[test]
fn every_indicator_becomes_ready_on_the_bar_that_fills_its_window() {
    let bars = series();
    assert_eq!(first_ready(&mut Sma::new(5), &bars), Some(5));
    assert_eq!(first_ready(&mut Sma::new(2), &bars), Some(2));
    assert_eq!(first_ready(&mut Ema::new(4), &bars), Some(4));
    assert_eq!(first_ready(&mut EmaCross::new(6, 3), &bars), Some(6));
    assert_eq!(first_ready(&mut VolumeMa::new(7), &bars), Some(7));
    assert_eq!(first_ready(&mut StdDev::new(3), &bars), Some(3));
    assert_eq!(first_ready(&mut Atr::new(1), &bars), Some(1));
    assert_eq!(first_ready(&mut Atr::new(6), &bars), Some(6));
    assert_eq!(first_ready(&mut Rsi::new(6, 3, None, None, None), &bars), Some(6));
    // the index starts on bar 4; its average over 3 values fills on bar 6
    assert_eq!(first_ready(&mut SmaRsi::new(4, 3), &bars), Some(6));
    // the first index comes on bar 3, the fifth on bar 7
    assert_eq!(first_ready(&mut Adx::new(5, 2), &bars), Some(7));
    assert_eq!(first_ready(&mut Sma::new(21), &bars), None);
}

#[test]
fn provisional_updates_are_idempotent_and_leave_no_trace() {
    let bars = series();
    check_dual_update(Sma::new(4), Sma::new(4), &bars);
    check_dual_update(Ema::new(4), Ema::new(4), &bars);
    check_dual_update(EmaCross::new(3, 5), EmaCross::new(3, 5), &bars);
    check_dual_update(VolumeMa::new(4), VolumeMa::new(4), &bars);
    check_dual_update(StdDev::new(4), StdDev::new(4), &bars);
    check_dual_update(Atr::new(4), Atr::new(4), &bars);
    check_dual_update(Adx::new(4, 3), Adx::new(4, 3), &bars);
    check_dual_update(
        Rsi::new(4, 3, Some(2), Some(2), Some(3)),
        Rsi::new(4, 3, Some(2), Some(2), Some(3)),
        &bars,
    );
    check_dual_update(SmaRsi::new(4, 3), SmaRsi::new(4, 3), &bars);
    check_dual_update(StochasticRsi::new(4, 2, 2), StochasticRsi::new(4, 2, 2), &bars);
}

#[test]
fn reset_then_replay_matches_a_fresh_instance() {
    let bars = series();
    check_reset_replay(Sma::new(4), Sma::new(4), &bars);
    check_reset_replay(Ema::new(4), Ema::new(4), &bars);
    check_reset_replay(EmaCross::new(3, 5), EmaCross::new(3, 5), &bars);
    check_reset_replay(VolumeMa::new(4), VolumeMa::new(4), &bars);
    check_reset_replay(StdDev::new(4), StdDev::new(4), &bars);
    check_reset_replay(Atr::new(4), Atr::new(4), &bars);
    check_reset_replay(Adx::new(4, 3), Adx::new(4, 3), &bars);
    check_reset_replay(
        Rsi::new(4, 3, Some(2), Some(2), Some(3)),
        Rsi::new(4, 3, Some(2), Some(2), Some(3)),
        &bars,
    );
    check_reset_replay(SmaRsi::new(4, 3), SmaRsi::new(4, 3), &bars);
    check_reset_replay(StochasticRsi::new(4, 2, 2), StochasticRsi::new(4, 2, 2), &bars);
}

#[test]
fn sma_exact_values() {
    let mut sma = Sma::new(3);
    assert_eq!(sma.period(), 3);
    sma.load(&[bar(1.0), bar(2.0), bar(6.0)]);
    assert_eq!(sma.get_last(), Some(Value::SmaValue(fx(3.0))));
    sma.update_after_close(bar(2.0));
    assert_eq!(sma.get_last(), Some(Value::SmaValue(3_333_333)));
    // the provisional close stands in for the newest committed one: 2, 6, 10
    sma.update_before_close(bar(10.0));
    assert_eq!(sma.get_last(), Some(Value::SmaValue(fx(6.0))));
    sma.update_after_close(bar(10.0));
    assert_eq!(sma.get_last(), Some(Value::SmaValue(fx(6.0))));
    assert_eq!(Sma::default().period(), 9);
}

#[test]
fn volume_ma_reads_the_volume() {
    let mut v = VolumeMa::new(2);
    v.update_after_close(bar(1.0));
    v.update_after_close(bar(3.0));
    assert_eq!(v.get_last(), Some(Value::VolumeMaValue(fx(20.0))));
    v.update_before_close(bar(5.0));
    assert_eq!(v.get_last(), Some(Value::VolumeMaValue(fx(30.0))));
    assert_eq!(VolumeMa::default().period(), 14);
}

#[test]
fn ema_exact_values_and_slope() {
    let mut ema = Ema::new(3);
    ema.load(&[bar(1.0), bar(2.0), bar(3.0)]);
    assert_eq!(ema.get_last(), Some(Value::EmaValue(fx(2.0))));
    assert_eq!(ema.value(), Some(fx(2.0)));
    assert_eq!(ema.get_slope(), None);
    ema.update_after_close(bar(7.0));
    assert_eq!(ema.get_last(), Some(Value::EmaValue(fx(4.5))));
    // (4.5 - 2) / 4.5 * 100
    assert_eq!(ema.get_slope(), Some(55_555_555));
    // from the committed 4.5: 0.5 * 2.5 + 0.5 * 4.5 = 3.5, slope -1 / 3.5 * 100
    ema.update_before_close(bar(2.5));
    assert_eq!(ema.get_last(), Some(Value::EmaValue(fx(3.5))));
    assert_eq!(ema.get_slope(), Some(-28_571_429));
    // from the committed 4.5 again: 0.5 * -4.5 + 0.5 * 4.5 = 0, which has no slope
    ema.update_before_close(bar(-4.5));
    assert_eq!(ema.get_last(), Some(Value::EmaValue(0)));
    assert_eq!(ema.get_slope(), None);
    ema.update_after_close(bar(2.5));
    assert_eq!(ema.get_last(), Some(Value::EmaValue(fx(3.5))));
    assert_eq!(ema.get_slope(), Some(-28_571_429));
    ema.reset();
    assert_eq!(ema.get_slope(), None);
    assert_eq!(ema.get_last(), None);
    assert_eq!(Ema::default().period(), 9);
}

#[test]
fn ema_cross_orders_its_periods_and_reports_the_trend() {
    let mut cross = EmaCross::new(4, 2);
    assert_eq!(cross.short.period(), 2);
    assert_eq!(cross.long.period(), 4);
    assert_eq!(cross.period(), 4);
    assert_eq!(cross.get_trend(), None);
    for c in [10.0, 10.0, 10.0] {
        assert_eq!(cross.update_and_check_for_cross(bar(c), true), None);
    }
    assert!(!cross.is_ready());
    assert_eq!(cross.get_last(), None);
    // both averages at 10: the short one is at the long one
    assert_eq!(cross.update_and_check_for_cross(bar(10.0), true), None);
    assert!(cross.is_ready());
    assert_eq!(cross.get_trend(), Some(true));
    assert_eq!(
        cross.get_last(),
        Some(Value::EmaCrossValue { short: fx(10.0), long: fx(10.0), trend: true })
    );
    // a fall pulls the short average below the long one: a crossing downward
    assert_eq!(cross.update_and_check_for_cross(bar(4.0), true), Some(false));
    // short: 10 + (4 - 10) * 2 / 3 = 6, long: 10 + (4 - 10) * 2 / 5 = 7.6
    assert_eq!(
        cross.get_last(),
        Some(Value::EmaCrossValue { short: fx(6.0), long: fx(7.6), trend: false })
    );
    assert_eq!(cross.update_and_check_for_cross(bar(4.0), true), None);
    // a provisional rise crosses upward, and is remembered as the trend
    assert_eq!(cross.update_and_check_for_cross(bar(30.0), false), Some(true));
    assert_eq!(cross.check_for_cross(), None);
    cross.update(bar(4.0), false);
    assert_eq!(cross.get_trend(), Some(false));
    assert_eq!(cross.check_for_cross(), Some(false));
    cross.reset();
    assert_eq!(cross.get_trend(), None);
    assert_eq!(cross.check_for_cross(), None);
    assert_eq!(EmaCross::default().period(), 21);
}

#[test]
fn price_validity() {
    assert!(bar(1.0).is_valid());
    let mut big = bar(1.0);
    big.high = PRICE_LIMIT;
    big.low = -PRICE_LIMIT;
    assert!(big.is_valid());
    big.vlm = PRICE_LIMIT + 1;
    assert!(!big.is_valid());
    big.vlm = 0;
    big.close = -PRICE_LIMIT - 1;
    assert!(!big.is_valid());
}

#[test]
fn indicators_take_bars_at_the_limits() {
    let hi = Price { open: 0, high: PRICE_LIMIT, low: -PRICE_LIMIT, close: PRICE_LIMIT, open_time: 0, close_time: 0, vlm: PRICE_LIMIT };
    let lo = Price { open: 0, high: PRICE_LIMIT, low: -PRICE_LIMIT, close: -PRICE_LIMIT, open_time: 0, close_time: 0, vlm: -PRICE_LIMIT };
    let bars = [hi, lo, hi, lo, hi, hi, lo, lo, hi, lo, hi, lo];
    let mut atr = Atr::new(3);
    let mut adx = Adx::new(3, 2);
    let mut rsi = Rsi::new(3, 3, None, None, Some(2));
    let mut sd = StdDev::new(2);
    let mut ema = Ema::new(2);
    for b in bars {
        atr.update_after_close(b);
        adx.update_after_close(b);
        rsi.update_after_close(b);
        sd.update_after_close(b);
        ema.update_after_close(b);
        atr.update_before_close(lo);
        adx.update_before_close(lo);
        rsi.update_before_close(hi);
        sd.update_before_close(hi);
        ema.update_before_close(lo);
    }
    assert_eq!(atr.get_last(), Some(Value::AtrValue(2 * PRICE_LIMIT)));
    assert!(adx.is_ready() && rsi.is_ready() && sd.is_ready() && ema.is_ready());
}

fn check_preview<I: Indicator>(mut ind: I, bars: &[Price]) {
    let mut seen = 0;
    for b in bars {
        if ind.is_ready() {
            ind.update_before_close(*b);
            let shown = ind.get_last();
            ind.update_after_close(*b);
            assert_eq!(ind.get_last(), shown);
            seen += 1;
        } else {
            ind.update_after_close(*b);
        }
    }
    assert!(seen > 5);
}

#[test]
fn smoothers_preview_the_commit_in_a_provisional_update() {
    let bars = series();
    check_preview(Ema::new(4), &bars);
    check_preview(EmaCross::new(3, 5), &bars);
    check_preview(Atr::new(4), &bars);
    check_preview(Adx::new(4, 3), &bars);
    check_preview(Rsi::new(4, 3, None, None, None), &bars);
}
