use candle_ta::indicators::hist_vol::{HistVolatility, ANNUAL_FACTOR};
use candle_ta::indicators::{Price, Value};

fn fx(v: f64) -> i64 {
    (v * 1_000_000.0).round() as i64
}

fn p(c: f64) -> Price {
    Price {
        open: fx(c),
        high: fx(c),
        low: fx(c),
        close: fx(c),
        open_time: 0,
        close_time: 0,
        vlm: 0,
    }
}

fn log_return(hv: &HistVolatility, price: &Price) -> i64 {
    match hv.prev_close() {
        Some(prev) => fx((price.close as f64 / prev as f64).ln()),
        None => 0,
    }
}

fn close(hv: &mut HistVolatility, price: Price) {
    let r = log_return(hv, &price);
    hv.update_after_close(price, r);
}

fn provisional(hv: &mut HistVolatility, price: Price) {
    let r = log_return(hv, &price);
    hv.update_before_close(r);
}

#[test]
fn hv_not_ready_until_window_full() {
    let mut hv = HistVolatility::new(3);

    close(&mut hv, p(100.0));
    assert!(!hv.is_ready());

    close(&mut hv, p(101.0));
    assert!(!hv.is_ready());

    close(&mut hv, p(102.0));
    assert!(!hv.is_ready());

    close(&mut hv, p(103.0));
    assert!(hv.is_ready());
}

#[test]
fn hv_becomes_ready_when_window_full() {
    let mut hv = HistVolatility::new(3);

    close(&mut hv, p(100.0));
    close(&mut hv, p(101.0));
    close(&mut hv, p(102.0));
    close(&mut hv, p(103.0));

    assert!(hv.is_ready());

    match hv.get_last() {
        Some(Value::HistVolatilityValue(v)) => assert!(v > 0),
        _ => panic!("HV not computed"),
    }
}

#[test]
fn hv_updates_on_new_close() {
    let mut hv = HistVolatility::new(3);

    close(&mut hv, p(100.0));
    close(&mut hv, p(101.0));
    close(&mut hv, p(102.0));
    close(&mut hv, p(103.0));

    let first = match hv.get_last() {
        Some(Value::HistVolatilityValue(v)) => v,
        _ => panic!("missing hv"),
    };

    close(&mut hv, p(104.0));

    let second = match hv.get_last() {
        Some(Value::HistVolatilityValue(v)) => v,
        _ => panic!("missing hv"),
    };

    assert_ne!(first, second);
}

#[test]
fn hv_before_close_is_provisional() {
    let mut hv = HistVolatility::new(3);

    close(&mut hv, p(100.0));
    close(&mut hv, p(101.0));
    close(&mut hv, p(102.0));
    close(&mut hv, p(103.0));

    let after_close = match hv.get_last() {
        Some(Value::HistVolatilityValue(v)) => v,
        _ => panic!("missing hv"),
    };

    provisional(&mut hv, p(110.0));

    let provisional = match hv.get_last() {
        Some(Value::HistVolatilityValue(v)) => v,
        _ => panic!("missing provisional hv"),
    };

    assert_ne!(after_close, provisional);
}

#[test]
fn hv_reset_clears_state() {
    let mut hv = HistVolatility::new(3);

    close(&mut hv, p(100.0));
    close(&mut hv, p(101.0));
    close(&mut hv, p(102.0));
    close(&mut hv, p(103.0));

    assert!(hv.is_ready());

    hv.reset();

    assert!(!hv.is_ready());
    assert_eq!(hv.get_last(), None);
    assert_eq!(hv.prev_close(), None);
}

#[test]
fn hv_exact_value_from_given_returns() {
    let mut hv = HistVolatility::new(2);
    hv.update_after_close(p(100.0), 0);
    assert_eq!(hv.prev_close(), Some(fx(100.0)));
    hv.update_after_close(p(101.0), fx(0.01));
    assert!(!hv.is_ready());
    hv.update_after_close(p(104.0), fx(0.03));
    // sum = 0.04, sum of squares = 0.001: variance = 0.001 - 0.0008 = 0.0002
    // in squared raw units 200_000_000, whose root is 14142 raw
    let sd: i64 = 14_142;
    assert_eq!(ANNUAL_FACTOR, 1_910_497_300);
    assert_eq!(hv.get_last(), Some(Value::HistVolatilityValue((sd * ANNUAL_FACTOR).div_euclid(1_000_000))));
    assert_eq!(hv.get_last(), Some(Value::HistVolatilityValue(27_018_252)));
    assert_eq!(hv.period(), 2);
}

#[test]
fn hv_first_return_is_not_read() {
    let mut with_zero = HistVolatility::new(2);
    let mut with_junk = HistVolatility::new(2);
    with_zero.update_after_close(p(100.0), 0);
    with_junk.update_after_close(p(100.0), fx(7.0));
    for (price, r) in [(101.0, 0.01), (104.0, 0.03)] {
        with_zero.update_after_close(p(price), fx(r));
        with_junk.update_after_close(p(price), fx(r));
    }
    assert!(with_zero.is_ready());
    assert_eq!(with_zero.get_last(), with_junk.get_last());
}

#[test]
fn hv_provisional_does_not_change_the_next_commit() {
    let mut plain = HistVolatility::new(3);
    let mut teased = HistVolatility::new(3);
    for c in [100.0, 101.0, 102.0, 103.0] {
        close(&mut plain, p(c));
        close(&mut teased, p(c));
    }
    provisional(&mut teased, p(110.0));
    let once = teased.get_last();
    provisional(&mut teased, p(110.0));
    assert_eq!(teased.get_last(), once);
    provisional(&mut teased, p(90.0));

    close(&mut plain, p(104.0));
    close(&mut teased, p(104.0));
    assert_eq!(plain.get_last(), teased.get_last());
}

#[test]
fn hv_provisional_is_ignored_while_warming_up() {
    let mut hv = HistVolatility::new(3);
    provisional(&mut hv, p(100.0));
    assert_eq!(hv.prev_close(), None);
    close(&mut hv, p(100.0));
    close(&mut hv, p(101.0));
    provisional(&mut hv, p(150.0));
    assert_eq!(hv.get_last(), None);
    assert!(!hv.is_ready());
}

#[test]
fn hv_default_is_twenty_returns() {
    assert_eq!(HistVolatility::default().period(), 20);
}
