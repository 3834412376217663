//! Historical volatility: the standard deviation of the logarithmic returns
//! of the close, annualized over 365 days and given in percent.
//!
//! The logarithm is not taken here. Each update comes with the logarithmic
//! return of its bar against the close before it, which the caller works out
//! from [`HistVolatility::prev_close`].
use vstd::prelude::*;
use crate::indicators::indicator::Value;
use crate::indicators::types::Price;
use crate::primitives::mean::MeanModel;
use crate::primitives::stddev::{std_dev_of, StdDev};
use crate::scalar::{
    div_floor, is_price, is_sample, lemma_sqrt_floor_unique, opt_int, sqrt_floor,
    SAMPLE_LIMIT, SCALE,
};

verus! {

/// The number of days a year is taken to have.
pub const ANNUALIZATION_DAYS: i64 = 365;

/// The square root of [`ANNUALIZATION_DAYS`] as a scalar, times one hundred.
pub const ANNUAL_FACTOR: i64 = 1_910_497_300;

/// [`ANNUAL_FACTOR`] is one hundred times the square root of 365 as a
/// scalar.
pub proof fn lemma_annual_factor()
    ensures
        ANNUAL_FACTOR == 100 * sqrt_floor(ANNUALIZATION_DAYS * SCALE * SCALE),
{
    lemma_sqrt_floor_unique(19_104_973, 365_000_000_000_000);
}

/// A standard deviation per bar as a yearly percentage.
pub open spec fn annualized(std_dev: int) -> int {
    (std_dev * ANNUAL_FACTOR) / (SCALE as int)
}

/// What a historical volatility holds, as mathematics.
pub struct HistVolModel {
    pub prev_close: Option<int>,
    pub returns: MeanModel,
}

impl HistVolModel {
    /// The state right after construction.
    pub open spec fn init(periods: nat) -> HistVolModel {
        HistVolModel { prev_close: None, returns: MeanModel::init(periods) }
    }

    /// The state is one that the operations lead to.
    pub open spec fn wf(self) -> bool {
        &&& self.returns.wf()
        &&& 1 < self.returns.capacity <= u32::MAX
        &&& self.prev_close matches Some(c) ==> is_price(c)
        &&& self.returns.samples.len() > 0 ==> self.prev_close.is_some()
    }

    /// How many finalized updates are still lacking: one for the first
    /// close, and one for each return that the window still lacks.
    pub open spec fn remaining(self) -> nat {
        self.returns.remaining() + if self.prev_close is None {
            1nat
        } else {
            0nat
        }
    }

    /// The volatility is ready exactly when nothing is lacking: on the
    /// finalized update that brings bar number `periods + 1`.
    pub proof fn lemma_ready_exactly_when_filled(self, close: int, log_return: int)
        requires
            self.wf(),
        ensures
            self.ready() <==> self.remaining() == 0,
            self.close(close, log_return).remaining() == if self.remaining() > 0 {
                self.remaining() - 1
            } else {
                0
            },
            self.provisional(log_return).remaining() == self.remaining(),
            HistVolModel::init(self.returns.capacity).remaining() == self.returns.capacity + 1,
    {
    }

    /// Commits a bar that closed at `close`, with logarithmic return
    /// `log_return` against the close before it. The first bar of a series
    /// has no return: it only gives the close that the next one is held
    /// against.
    pub open spec fn close(self, close: int, log_return: int) -> HistVolModel {
        HistVolModel {
            prev_close: Some(close),
            returns: match self.prev_close {
                Some(_) => self.returns.close(log_return),
                None => self.returns,
            },
        }
    }

    /// Takes the return of the forming bar. Ignored until the window of
    /// returns has filled.
    pub open spec fn provisional(self, log_return: int) -> HistVolModel {
        match self.prev_close {
            Some(_) => HistVolModel { returns: self.returns.provisional(log_return), ..self },
            None => self,
        }
    }

    /// A value is reported.
    pub open spec fn ready(self) -> bool {
        self.returns.ready()
    }

    /// The value reported.
    pub open spec fn last(self) -> Option<Value> {
        match std_dev_of(self.returns) {
            Some(sd) => Some(Value::HistVolatilityValue(annualized(sd) as i64)),
            None => None,
        }
    }

    /// A provisional return supersedes the one before it, and a commit
    /// forgets every provisional return.
    pub proof fn lemma_provisional_leaves_no_trace(self, a: int, close: int, b: int)
        ensures
            self.provisional(a).provisional(b) == self.provisional(b),
            self.provisional(a).close(close, b) == self.close(close, b),
    {
    }
}

/// Historical volatility over `periods` returns.
#[derive(Clone, Debug)]
pub struct HistVolatility {
    prev_close: Option<i64>,
    stddev: StdDev,
}

impl View for HistVolatility {
    type V = HistVolModel;

    /// The mathematical state.
    closed spec fn view(&self) -> HistVolModel {
        HistVolModel { prev_close: opt_int(self.prev_close), returns: self.stddev@ }
    }
}

impl HistVolatility {
    /// The representation is consistent and stands for a well-formed state.
    pub closed spec fn wf(&self) -> bool {
        &&& self.stddev.wf()
        &&& self@.wf()
    }

    /// Volatility over a window of `periods` returns.
    pub fn new(periods: u32) -> (h: HistVolatility)
        requires
            periods > 1,
        ensures
            h.wf(),
            h@ == HistVolModel::init(periods as nat),
    {
        let h = HistVolatility { prev_close: None, stddev: StdDev::new(periods) };
        proof {
            h.stddev.lemma_wf();
        }
        h
    }

    /// The close that the next bar's return is taken against.
    pub fn prev_close(&self) -> (c: Option<i64>)
        requires
            self.wf(),
        ensures
            opt_int(c) == self@.prev_close,
    {
        self.prev_close
    }

    /// Finalized update: commits `price`, whose logarithmic return against
    /// the close before it is `log_return`. The return of the first bar of a
    /// series is not read.
    pub fn update_after_close(&mut self, price: Price, log_return: i64)
        requires
            old(self).wf(),
            price.in_range(),
            is_sample(log_return as int),
        ensures
            final(self).wf(),
            final(self)@ == old(self)@.close(price.close as int, log_return as int),
    {
        proof {
            self.stddev.lemma_wf();
        }
        if self.prev_close.is_some() {
            self.stddev.update_after_close_value(log_return);
        }
        self.prev_close = Some(price.close);
        proof {
            self.stddev.lemma_wf();
        }
    }

    /// Provisional update: takes `log_return` as the return of the bar that
    /// is still forming.
    pub fn update_before_close(&mut self, log_return: i64)
        requires
            old(self).wf(),
            is_sample(log_return as int),
        ensures
            final(self).wf(),
            final(self)@ == old(self)@.provisional(log_return as int),
    {
        if self.prev_close.is_some() {
            self.stddev.update_before_close_value(log_return);
        }
        proof {
            self.stddev.lemma_wf();
        }
    }

    /// The volatility of the observed window of returns, once it has filled.
    pub fn get_last(&self) -> (v: Option<Value>)
        requires
            self.wf(),
        ensures
            v == self@.last(),
    {
        match self.stddev.get_last_value() {
            Some(sd) => {
                assert(0 <= sd * ANNUAL_FACTOR <= 2 * SAMPLE_LIMIT * ANNUAL_FACTOR)
                    by (nonlinear_arith)
                    requires
                        0 <= sd <= 2 * SAMPLE_LIMIT,
                ;
                let yearly: i128 = div_floor((sd as i128) * (ANNUAL_FACTOR as i128), SCALE as i128);
                Some(Value::HistVolatilityValue(yearly as i64))
            },
            None => None,
        }
    }

    /// The window of returns has filled.
    pub fn is_ready(&self) -> (b: bool)
        requires
            self.wf(),
        ensures
            b == self@.ready(),
            b == self@.last().is_some(),
    {
        self.stddev.is_ready_value()
    }

    /// Back to the state right after construction.
    pub fn reset(&mut self)
        requires
            old(self).wf(),
        ensures
            final(self).wf(),
            final(self)@ == HistVolModel::init(old(self)@.returns.capacity),
    {
        proof {
            self.stddev.lemma_wf();
        }
        self.prev_close = None;
        self.stddev.reset_value();
        proof {
            self.stddev.lemma_wf();
        }
    }

    /// The length of the window of returns.
    pub fn period(&self) -> (p: u32)
        requires
            self.wf(),
        ensures
            p == self@.returns.capacity,
    {
        proof {
            self.stddev.lemma_wf();
        }
        self.stddev.period_value()
    }
}

impl Default for HistVolatility {
    /// Twenty returns.
    fn default() -> (h: HistVolatility)
        ensures
            h.wf(),
            h@ == HistVolModel::init(20),
    {
        HistVolatility::new(20)
    }
}

} // verus!
