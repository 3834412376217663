use candle_ta::indicators::adx::{directional_index, Adx, AdxBuffer};
use candle_ta::indicators::{Indicator, Price, Value};

fn fx(v: f64) -> i64 {
    (v * 1_000_000.0).round() as i64
}

fn p(h: f64, l: f64, c: f64) -> Price {
    Price { high: fx(h), low: fx(l), close: fx(c), open: fx(l), open_time: 0, close_time: 0, vlm: 0 }
}

#[test]
fn test_adx_warmup_and_initial_value() {
    let mut adx = Adx::new(3, 3);

    adx.update_after_close(p(10.0, 5.0, 8.0));
    assert!(!adx.is_ready());

    adx.update_after_close(p(12.0, 7.0, 11.0));
    assert!(!adx.is_ready());

    adx.update_after_close(p(13.0, 8.0, 12.0));
    adx.update_after_close(p(15.0, 9.0, 13.0));
    adx.update_after_close(p(14.0, 10.0, 14.0));
    adx.update_after_close(p(17.0, 11.0, 16.0));
    adx.update_after_close(p(14.0, 10.0, 14.0));
    adx.update_after_close(p(17.0, 11.0, 16.0));
    adx.update_after_close(p(17.0, 11.0, 16.0));
    adx.update_after_close(p(19.0, 13.0, 18.0));
    assert!(adx.is_ready());
    assert!(matches!(adx.get_last(), Some(Value::AdxValue(_))));
}

#[test]
fn test_adx_progression_after_warmup() {
    let mut adx = Adx::new(3, 3);

    adx.update_after_close(p(10.0, 5.0, 8.0));
    adx.update_after_close(p(12.0, 7.0, 11.0));
    adx.update_after_close(p(13.0, 8.0, 12.0));
    adx.update_after_close(p(10.0, 5.0, 8.0));
    adx.update_after_close(p(12.0, 7.0, 11.0));
    adx.update_after_close(p(13.0, 8.0, 12.0));
    adx.update_after_close(p(13.0, 8.0, 12.0));
    adx.update_after_close(p(15.0, 11.0, 13.0));
    adx.update_after_close(p(13.0, 8.0, 12.0));
    adx.update_after_close(p(15.0, 11.0, 13.0));

    let first = match adx.get_last() {
        Some(Value::AdxValue(v)) => v,
        _ => panic!("missing adx"),
    };

    adx.update_after_close(p(14.0, 9.0, 13.0));

    let second = match adx.get_last() {
        Some(Value::AdxValue(v)) => v,
        _ => panic!("missing adx"),
    };

    assert_ne!(first, second);
}

#[test]
fn test_before_close_provisional_adx() {
    let mut adx = Adx::new(3, 3);

    adx.update_after_close(p(10.0, 5.0, 8.0));
    adx.update_after_close(p(12.0, 7.0, 11.0));
    adx.update_after_close(p(13.0, 8.0, 12.0));
    adx.update_after_close(p(10.0, 5.0, 8.0));
    adx.update_after_close(p(12.0, 7.0, 11.0));
    adx.update_after_close(p(13.0, 8.0, 12.0));
    adx.update_after_close(p(13.0, 8.0, 12.0));
    adx.update_after_close(p(15.0, 11.0, 13.0));
    adx.update_after_close(p(13.0, 8.0, 12.0));
    adx.update_after_close(p(15.0, 11.0, 13.0));

    let after_close_val = match adx.get_last() {
        Some(Value::AdxValue(v)) => v,
        _ => panic!("missing adx"),
    };

    adx.update_before_close(p(15.0, 10.0, 14.0));

    let provisional = match adx.get_last() {
        Some(Value::AdxValue(v)) => v,
        _ => panic!("missing provisional adx"),
    };

    assert_ne!(after_close_val, provisional);
}

#[test]
fn adx_test_reset() {
    let mut adx = Adx::new(3, 3);

    adx.update_after_close(p(10.0, 5.0, 8.0));
    adx.update_after_close(p(12.0, 7.0, 11.0));
    adx.update_after_close(p(13.0, 8.0, 12.0));
    adx.update_after_close(p(13.0, 8.0, 12.0));
    adx.update_after_close(p(15.0, 11.0, 13.0));
    adx.update_after_close(p(13.0, 8.0, 12.0));
    adx.update_after_close(p(15.0, 11.0, 13.0));

    assert!(adx.is_ready());

    adx.reset();

    assert!(!adx.is_ready());
    assert_eq!(adx.get_last(), None);
    assert_eq!(adx.prev_close(), None);
    assert_eq!(adx.prev_value(), None);
    assert_eq!(adx.warmup_len(), 0);
    assert_eq!(adx.get_dx(), None);
}

#[test]
fn adx_directional_index_exact_values() {
    // +DI = 100 * 3 / 4 = 75, -DI = 100 * 1 / 4 = 25, DX = 100 * 50 / 100
    assert_eq!(directional_index(fx(3.0), fx(1.0), fx(4.0)), fx(50.0));
    // only upward movement
    assert_eq!(directional_index(fx(2.0), 0, fx(5.0)), fx(100.0));
    // +DI = 100 / 3 = 33.333333, -DI = 200 / 3 = 66.666666,
    // DX = 100 * 33.333333 / 99.999999 = 33.333333
    assert_eq!(directional_index(fx(1.0), fx(2.0), fx(3.0)), 33_333_333);
}

#[test]
fn adx_directional_index_is_zero_without_range_or_movement() {
    assert_eq!(directional_index(fx(3.0), fx(1.0), 0), 0);
    assert_eq!(directional_index(fx(3.0), fx(1.0), 1), 0);
    assert_eq!(directional_index(fx(3.0), fx(1.0), -fx(2.0)), 0);
    assert_eq!(directional_index(0, 0, fx(4.0)), 0);
    assert_eq!(directional_index(fx(3.0), fx(3.0), fx(4.0)), 0);
}

#[test]
fn adx_flat_series_gives_zero_dx_at_every_step() {
    let mut adx = Adx::new(4, 3);
    for step in 0..12 {
        adx.update_after_close(p(50.0, 50.0, 50.0));
        match adx.get_dx() {
            Some(dx) => assert_eq!(dx, 0),
            None => assert!(step < 3),
        }
        adx.update_before_close(p(50.0, 50.0, 50.0));
        match adx.get_dx() {
            Some(dx) => assert_eq!(dx, 0),
            None => assert!(step < 3),
        }
        if let Some(v) = adx.get_last() {
            assert_eq!(v, Value::AdxValue(0));
        }
    }
    assert!(adx.is_ready());
    assert_eq!(adx.get_last(), Some(Value::AdxValue(0)));
}

#[test]
fn adx_becomes_ready_when_the_window_of_indices_fills() {
    let bars = [
        p(10.0, 5.0, 8.0),
        p(12.0, 7.0, 11.0),
        p(13.0, 8.0, 12.0),
        p(15.0, 9.0, 13.0),
        p(14.0, 10.0, 14.0),
        p(17.0, 11.0, 16.0),
        p(18.0, 12.0, 17.0),
    ];
    // smoothers of length 2 give the first index on bar 3; the window of 4
    // indices then fills on bar 6
    let mut adx = Adx::new(4, 2);
    let mut first_dx = 0;
    let mut first_ready = 0;
    for (i, bar) in bars.iter().enumerate() {
        adx.update_after_close(*bar);
        if first_dx == 0 && adx.get_dx().is_some() {
            first_dx = i + 1;
        }
        if first_ready == 0 && adx.is_ready() {
            first_ready = i + 1;
        }
        assert_eq!(adx.is_ready(), adx.get_last().is_some());
    }
    assert_eq!(first_dx, 3);
    assert_eq!(first_ready, 6);
    assert_eq!(adx.period(), 4);
}

#[test]
fn adx_exact_values_on_a_short_series() {
    let mut adx = Adx::new(2, 1);
    // smoothers of length 1 follow their sample
    adx.update_after_close(p(10.0, 8.0, 9.0));
    assert_eq!(adx.get_dx(), None);
    // TR = max(2, 3, 1) = 3, +DM = 2, -DM = 0: DX = 100
    adx.update_after_close(p(12.0, 10.0, 11.0));
    assert_eq!(adx.get_dx(), Some(fx(100.0)));
    assert_eq!(adx.get_last(), None);
    // TR = max(3, 2, 5) = 5, +DM = 0, -DM = 4: DX = 100
    adx.update_after_close(p(9.0, 6.0, 7.0));
    assert_eq!(adx.get_dx(), Some(fx(100.0)));
    assert_eq!(adx.get_last(), Some(Value::AdxValue(fx(100.0))));
    // an inside bar moves neither way: DX = 0, ADX = (100 * 1 + 0) / 2
    adx.update_after_close(p(8.0, 7.0, 7.5));
    assert_eq!(adx.get_dx(), Some(0));
    assert_eq!(adx.get_last(), Some(Value::AdxValue(fx(50.0))));
}

#[test]
fn adx_provisional_does_not_change_the_next_commit() {
    let bars = [
        p(10.0, 5.0, 8.0),
        p(12.0, 7.0, 11.0),
        p(13.0, 8.0, 12.0),
        p(15.0, 9.0, 13.0),
        p(14.0, 10.0, 14.0),
        p(17.0, 11.0, 16.0),
        p(14.0, 10.0, 14.0),
    ];
    let mut plain = Adx::new(3, 3);
    let mut teased = Adx::new(3, 3);
    plain.load(&bars);
    teased.load(&bars);
    let committed = teased.prev_value();

    teased.update_before_close(p(30.0, 2.0, 3.0));
    let once = (teased.get_last(), teased.get_dx());
    teased.update_before_close(p(30.0, 2.0, 3.0));
    assert_eq!((teased.get_last(), teased.get_dx()), once);
    assert_eq!(teased.prev_value(), committed);
    teased.update_before_close(p(16.0, 12.0, 13.0));

    plain.update_after_close(p(19.0, 13.0, 18.0));
    teased.update_after_close(p(19.0, 13.0, 18.0));
    assert_eq!(plain.get_last(), teased.get_last());
    assert_eq!(plain.get_dx(), teased.get_dx());
    assert_eq!(plain.prev_value(), teased.prev_value());
}

#[test]
fn adx_buffer_reports_no_index_until_every_smoother_is_seeded() {
    let mut buff = AdxBuffer::new(2);
    buff.update_after_close(fx(10.0), fx(8.0), fx(2.0));
    assert_eq!(buff.dx(), None);
    buff.update_after_close(fx(11.0), fx(9.0), fx(2.0));
    assert_eq!(buff.dx(), None);
    buff.update_after_close(fx(12.0), fx(10.0), fx(2.0));
    // smoothed TR = 2, +DM = 1, -DM = 0
    assert_eq!(buff.dx(), Some(fx(100.0)));
    buff.update_before_close(fx(12.0), fx(7.0), fx(5.0));
    // TR = (2 + 5) / 2 = 3.5, +DM = (1 + 0) / 2 = 0.5, -DM = (0 + 3) / 2 = 1.5:
    // +DI = 14.285714, -DI = 42.857142, DX = 100 * 28.571428 / 57.142856
    assert_eq!(buff.dx(), Some(50_000_000));
    buff.reset();
    assert_eq!(buff.dx(), None);
}
