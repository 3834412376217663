//! Exponential moving average of the close, and the crossing of a short
//! average over a long one.
use vstd::prelude::*;
use crate::indicators::indicator::{Indicator, Value};
use crate::indicators::types::{all_in_range, Price};
use crate::primitives::exp_mean::{ExpMean, ExpMeanModel};
use crate::scalar::{is_sample, opt_int, percent, percent_of};

verus! {

/// What an exponential moving average holds, as mathematics.
///
/// `slope` is the change of the observable value against the value it was
/// stepped from, as a percentage of the observable value.
pub struct EmaModel {
    pub smooth: ExpMeanModel,
    pub slope: Option<int>,
}

impl EmaModel {
    /// The state right after construction.
    pub open spec fn init(periods: nat) -> EmaModel {
        EmaModel { smooth: ExpMeanModel::init(periods, 2, periods + 1), slope: None }
    }

    /// The number of bars the indicator is taken over.
    pub open spec fn periods(self) -> nat {
        self.smooth.window.capacity
    }

    /// The state is one that the operations lead to.
    pub open spec fn wf(self) -> bool {
        &&& self.smooth.wf()
        &&& self.smooth.weight == 2
        &&& 1 < self.periods() <= u32::MAX
        &&& self.smooth.denom == self.periods() + 1
        &&& self.slope matches Some(s) ==> is_sample(s)
    }

    /// The slope of a step from `prev` to `next`.
    pub open spec fn slope_of(prev: int, next: int) -> Option<int> {
        percent_of(next - prev, next)
    }

    /// Commits `x`. A step of the recurrence sets the slope; the update that
    /// seeds the average leaves it as it is.
    pub open spec fn close(self, x: int) -> EmaModel {
        match self.smooth.committed {
            Some(prev) => EmaModel {
                smooth: self.smooth.close(x),
                slope: Self::slope_of(prev, self.smooth.step(prev, x)),
            },
            None => EmaModel { smooth: self.smooth.close(x), ..self },
        }
    }

    /// Estimates value and slope for the forming bar from the committed
    /// value. Ignored while warming up.
    pub open spec fn provisional(self, x: int) -> EmaModel {
        match self.smooth.committed {
            Some(prev) => EmaModel {
                smooth: self.smooth.provisional(x),
                slope: Self::slope_of(prev, self.smooth.step(prev, x)),
            },
            None => self,
        }
    }

    /// A value is reported.
    pub open spec fn ready(self) -> bool {
        self.smooth.ready()
    }

    /// Once there is a value, a provisional update shows the value and the
    /// slope that a finalized update with the same close would commit.
    pub proof fn lemma_provisional_previews_the_commit(self, x: int)
        requires
            self.wf(),
            self.ready(),
        ensures
            self.provisional(x).last() == self.close(x).last(),
            self.provisional(x).slope == self.close(x).slope,
    {
    }

    /// How many finalized updates the warm-up window still lacks.
    pub open spec fn remaining(self) -> nat {
        self.smooth.remaining()
    }

    /// The average is ready exactly when its warm-up window lacks nothing:
    /// on the finalized update that brings the `periods`-th bar.
    pub proof fn lemma_ready_exactly_when_filled(self, x: int)
        requires
            self.wf(),
        ensures
            self.ready() <==> self.remaining() == 0,
            self.close(x).remaining() == if self.remaining() > 0 {
                self.remaining() - 1
            } else {
                0
            },
            self.provisional(x).remaining() == self.remaining(),
            EmaModel::init(self.periods()).remaining() == self.periods(),
    {
    }

    /// The value reported.
    pub open spec fn last(self) -> Option<Value> {
        match self.smooth.observable {
            Some(v) => Some(Value::EmaValue(v as i64)),
            None => None,
        }
    }

    /// Updates keep a state well formed.
    pub proof fn lemma_steps(self, x: int)
        requires
            self.wf(),
            is_sample(x),
        ensures
            self.close(x).wf(),
            self.provisional(x).wf(),
    {
        self.smooth.lemma_close_wf(x);
        self.smooth.lemma_provisional_wf(x);
    }
}

/// Exponential moving average of the close over `periods` bars.
#[derive(Clone, Debug)]
pub struct Ema {
    buff: ExpMean,
    slope: Option<i64>,
}

impl Ema {
    /// Smoothing factor `2 / (periods + 1)`, seeded by the mean of the first
    /// `periods` closes.
    pub fn new(periods: u32) -> (e: Ema)
        requires
            periods > 1,
        ensures
            e.wf(),
            e.model() == EmaModel::init(periods as nat),
    {
        Ema { buff: ExpMean::new(periods), slope: None }
    }

    /// The change of the value in its last step, as a percentage of the
    /// value: none before the first step, when the value is zero, and when
    /// the percentage is beyond the range of a sample.
    pub fn get_slope(&self) -> (s: Option<i64>)
        requires
            self.wf(),
        ensures
            opt_int(s) == self.model().slope,
    {
        self.slope
    }

    /// The observable value as a scalar.
    pub fn value(&self) -> (v: Option<i64>)
        requires
            self.wf(),
        ensures
            opt_int(v) == self.model().smooth.observable,
            v matches Some(x) ==> is_sample(x as int),
    {
        self.buff.get_last()
    }
}

impl Indicator for Ema {
    type Model = EmaModel;

    closed spec fn wf(&self) -> bool {
        &&& self.buff.wf()
        &&& self.model().wf()
    }

    closed spec fn model(&self) -> EmaModel {
        EmaModel { smooth: self.buff@, slope: opt_int(self.slope) }
    }

    open spec fn model_wf(m: EmaModel) -> bool {
        m.wf()
    }

    open spec fn model_reset(m: EmaModel) -> EmaModel {
        EmaModel::init(m.periods())
    }

    open spec fn model_close(m: EmaModel, bar: Price) -> EmaModel {
        m.close(bar.close as int)
    }

    open spec fn model_provisional(m: EmaModel, bar: Price) -> EmaModel {
        m.provisional(bar.close as int)
    }

    open spec fn model_ready(m: EmaModel) -> bool {
        m.ready()
    }

    open spec fn model_last(m: EmaModel) -> Option<Value> {
        m.last()
    }

    open spec fn model_period(m: EmaModel) -> u32 {
        m.periods() as u32
    }

    proof fn lemma_model_wf(&self) {
    }

    proof fn lemma_model_steps(m: EmaModel, bar: Price) {
        m.lemma_steps(bar.close as int);
    }

    proof fn lemma_provisional_leaves_no_trace(m: EmaModel, a: Price, b: Price) {
    }

    proof fn lemma_ready_iff_value(m: EmaModel) {
    }

    proof fn lemma_replay_unfold(m: EmaModel, bars: Seq<Price>) {
    }

    proof fn lemma_reset_forgets(m: EmaModel, bar: Price) {
    }

    fn update_after_close(&mut self, last_price: Price) {
        proof {
            self.model().lemma_steps(last_price.close as int);
        }
        let before: Option<i64> = self.buff.committed();
        self.buff.update_after_close(last_price.close);
        if let (Some(last_ema), Some(ema)) = (before, self.buff.get_last()) {
            self.slope = percent(ema - last_ema, ema);
        }
    }

    fn update_before_close(&mut self, last_price: Price) {
        proof {
            self.model().lemma_steps(last_price.close as int);
        }
        let before: Option<i64> = self.buff.committed();
        self.buff.update_before_close(last_price.close);
        if let (Some(last_ema), Some(ema)) = (before, self.buff.get_last()) {
            self.slope = percent(ema - last_ema, ema);
        }
    }

    fn load(&mut self, price_data: &[Price]) {
        let mut i: usize = 0;
        while i < price_data.len()
            invariant
                0 <= i <= price_data@.len(),
                self.wf(),
                all_in_range(price_data@),
                self.model() == Self::replay(old(self).model(), price_data@.take(i as int)),
            decreases price_data@.len() - i,
        {
            proof {
                assert(price_data@.take(i + 1).drop_last() =~= price_data@.take(i as int));
            }
            self.update_after_close(price_data[i]);
            i = i + 1;
        }
        proof {
            assert(price_data@.take(i as int) =~= price_data@);
        }
    }

    fn is_ready(&self) -> (b: bool) {
        self.buff.is_ready()
    }

    fn get_last(&self) -> (v: Option<Value>) {
        match self.buff.get_last() {
            Some(val) => Some(Value::EmaValue(val)),
            None => None,
        }
    }

    fn reset(&mut self) {
        self.buff.reset();
        self.slope = None;
    }

    fn period(&self) -> (p: u32) {
        self.buff.period()
    }
}

impl Default for Ema {
    /// Nine bars.
    fn default() -> (e: Ema)
        ensures
            e.wf(),
            e.model() == EmaModel::init(9),
    {
        Ema::new(9)
    }
}

/// What a pair of crossing averages holds, as mathematics.
pub struct EmaCrossModel {
    pub short: EmaModel,
    pub long: EmaModel,
    pub prev_uptrend: Option<bool>,
}

impl EmaCrossModel {
    /// The state right after construction: the shorter of the two periods
    /// goes to the short average.
    pub open spec fn init(period_short: nat, period_long: nat) -> EmaCrossModel {
        EmaCrossModel {
            short: EmaModel::init(
                if period_short <= period_long {
                    period_short
                } else {
                    period_long
                },
            ),
            long: EmaModel::init(
                if period_short <= period_long {
                    period_long
                } else {
                    period_short
                },
            ),
            prev_uptrend: None,
        }
    }

    /// The state is one that the operations lead to.
    pub open spec fn wf(self) -> bool {
        &&& self.short.wf()
        &&& self.long.wf()
        &&& self.short.periods() <= self.long.periods()
        &&& self.short.smooth.window.samples.len() == if self.long.smooth.window.samples.len()
            <= self.short.periods() {
            self.long.smooth.window.samples.len()
        } else {
            self.short.periods()
        }
    }

    /// How many finalized updates the longer warm-up window still lacks.
    pub open spec fn remaining(self) -> nat {
        self.long.remaining()
    }

    /// The pair is ready exactly when the longer warm-up window lacks
    /// nothing.
    pub proof fn lemma_ready_exactly_when_filled(self, x: int)
        requires
            self.wf(),
        ensures
            self.ready() <==> self.remaining() == 0,
            self.close(x).remaining() == if self.remaining() > 0 {
                self.remaining() - 1
            } else {
                0
            },
            self.provisional(x).remaining() == self.remaining(),
    {
    }

    /// A value is reported.
    pub open spec fn ready(self) -> bool {
        self.short.ready() && self.long.ready()
    }

    /// Whether the short average is at or above the long one, once both
    /// report a value.
    pub open spec fn trend(self) -> Option<bool> {
        match (self.short.smooth.observable, self.long.smooth.observable) {
            (Some(s), Some(l)) => Some(s >= l),
            _ => None,
        }
    }

    /// Commits `x` to both averages.
    pub open spec fn close(self, x: int) -> EmaCrossModel {
        EmaCrossModel { short: self.short.close(x), long: self.long.close(x), ..self }
    }

    /// Takes `x` provisionally in both averages.
    pub open spec fn provisional(self, x: int) -> EmaCrossModel {
        EmaCrossModel { short: self.short.provisional(x), long: self.long.provisional(x), ..self }
    }

    /// An update of either kind, after which the first trend there is
    /// becomes the trend that crossings are told against.
    pub open spec fn update(self, x: int, after_close: bool) -> EmaCrossModel {
        let s = if after_close {
            self.close(x)
        } else {
            self.provisional(x)
        };
        if s.prev_uptrend is None {
            EmaCrossModel { prev_uptrend: s.trend(), ..s }
        } else {
            s
        }
    }

    /// The trend, where it differs from the trend last remembered: that is
    /// a crossing.
    pub open spec fn cross(self) -> Option<bool> {
        match (self.trend(), self.prev_uptrend) {
            (Some(up), Some(prev)) => if up != prev {
                Some(up)
            } else {
                None
            },
            _ => None,
        }
    }

    /// The state after a look for a crossing: the trend, once there is one,
    /// is remembered.
    pub open spec fn checked(self) -> EmaCrossModel {
        match self.trend() {
            Some(up) => EmaCrossModel { prev_uptrend: Some(up), ..self },
            None => self,
        }
    }

    /// The value reported.
    pub open spec fn last(self) -> Option<Value> {
        match (self.short.smooth.observable, self.long.smooth.observable) {
            (Some(s), Some(l)) => Some(
                Value::EmaCrossValue { short: s as i64, long: l as i64, trend: s >= l },
            ),
            _ => None,
        }
    }
}

/// A short and a long exponential moving average of the close.
#[derive(Clone, Debug)]
pub struct EmaCross {
    pub short: Ema,
    pub long: Ema,
    prev_uptrend: Option<bool>,
}

impl EmaCross {
    /// Two averages over the given periods; the shorter period goes to the
    /// short average, whichever comes first.
    pub fn new(period_short: u32, period_long: u32) -> (c: EmaCross)
        requires
            period_short > 1,
            period_long > 1,
        ensures
            c.wf(),
            c.model() == EmaCrossModel::init(period_short as nat, period_long as nat),
    {
        let (lo, hi): (u32, u32) = if period_short <= period_long {
            (period_short, period_long)
        } else {
            (period_long, period_short)
        };
        EmaCross { short: Ema::new(lo), long: Ema::new(hi), prev_uptrend: None }
    }

    /// Reports a crossing: the trend, if it differs from the trend last
    /// remembered. The trend there is now is remembered.
    pub fn check_for_cross(&mut self) -> (crossed: Option<bool>)
        requires
            old(self).wf(),
        ensures
            final(self).wf(),
            crossed == old(self).model().cross(),
            final(self).model() == old(self).model().checked(),
    {
        match self.get_trend() {
            None => None,
            Some(uptrend) => {
                let crossed: Option<bool> = match self.prev_uptrend {
                    Some(prev_uptrend) => if uptrend != prev_uptrend {
                        Some(uptrend)
                    } else {
                        None
                    },
                    None => None,
                };
                self.prev_uptrend = Some(uptrend);
                crossed
            },
        }
    }

    /// A finalized update when `after_close`, else a provisional one.
    pub fn update(&mut self, price: Price, after_close: bool)
        requires
            old(self).wf(),
            price.in_range(),
        ensures
            final(self).wf(),
            final(self).model() == old(self).model().update(price.close as int, after_close),
    {
        if after_close {
            self.update_after_close(price);
        } else {
            self.update_before_close(price);
        }
        if self.prev_uptrend.is_none() {
            self.prev_uptrend = self.get_trend();
        }
    }

    /// An update, then a look for a crossing.
    pub fn update_and_check_for_cross(&mut self, price: Price, after_close: bool) -> (crossed:
        Option<bool>)
        requires
            old(self).wf(),
            price.in_range(),
        ensures
            final(self).wf(),
            crossed == old(self).model().update(price.close as int, after_close).cross(),
            final(self).model() == old(self).model().update(
                price.close as int,
                after_close,
            ).checked(),
    {
        self.update(price, after_close);
        self.check_for_cross()
    }

    /// Whether the short average is at or above the long one.
    pub fn get_trend(&self) -> (t: Option<bool>)
        requires
            self.wf(),
        ensures
            t == self.model().trend(),
    {
        match (self.short.value(), self.long.value()) {
            (Some(s), Some(l)) => Some(s >= l),
            _ => None,
        }
    }
}

impl Indicator for EmaCross {
    type Model = EmaCrossModel;

    closed spec fn wf(&self) -> bool {
        &&& self.short.wf()
        &&& self.long.wf()
        &&& self.model().wf()
    }

    closed spec fn model(&self) -> EmaCrossModel {
        EmaCrossModel {
            short: self.short.model(),
            long: self.long.model(),
            prev_uptrend: self.prev_uptrend,
        }
    }

    open spec fn model_wf(m: EmaCrossModel) -> bool {
        m.wf()
    }

    open spec fn model_reset(m: EmaCrossModel) -> EmaCrossModel {
        EmaCrossModel::init(m.short.periods(), m.long.periods())
    }

    open spec fn model_close(m: EmaCrossModel, bar: Price) -> EmaCrossModel {
        m.close(bar.close as int)
    }

    open spec fn model_provisional(m: EmaCrossModel, bar: Price) -> EmaCrossModel {
        m.provisional(bar.close as int)
    }

    open spec fn model_ready(m: EmaCrossModel) -> bool {
        m.ready()
    }

    open spec fn model_last(m: EmaCrossModel) -> Option<Value> {
        m.last()
    }

    /// The period of the long average.
    open spec fn model_period(m: EmaCrossModel) -> u32 {
        m.long.periods() as u32
    }

    proof fn lemma_model_wf(&self) {
    }

    proof fn lemma_model_steps(m: EmaCrossModel, bar: Price) {
        m.short.lemma_steps(bar.close as int);
        m.long.lemma_steps(bar.close as int);
    }

    proof fn lemma_provisional_leaves_no_trace(m: EmaCrossModel, a: Price, b: Price) {
    }

    proof fn lemma_ready_iff_value(m: EmaCrossModel) {
    }

    proof fn lemma_replay_unfold(m: EmaCrossModel, bars: Seq<Price>) {
    }

    proof fn lemma_reset_forgets(m: EmaCrossModel, bar: Price) {
    }

    fn update_after_close(&mut self, last_price: Price) {
        proof {
            Self::lemma_model_steps(self.model(), last_price);
        }
        self.short.update_after_close(last_price);
        self.long.update_after_close(last_price);
    }

    fn update_before_close(&mut self, last_price: Price) {
        proof {
            Self::lemma_model_steps(self.model(), last_price);
        }
        self.short.update_before_close(last_price);
        self.long.update_before_close(last_price);
    }

    fn load(&mut self, price_data: &[Price]) {
        let mut i: usize = 0;
        while i < price_data.len()
            invariant
                0 <= i <= price_data@.len(),
                self.wf(),
                all_in_range(price_data@),
                self.model() == Self::replay(old(self).model(), price_data@.take(i as int)),
            decreases price_data@.len() - i,
        {
            proof {
                assert(price_data@.take(i + 1).drop_last() =~= price_data@.take(i as int));
            }
            self.update_after_close(price_data[i]);
            i = i + 1;
        }
        proof {
            assert(price_data@.take(i as int) =~= price_data@);
        }
    }

    fn is_ready(&self) -> (b: bool) {
        self.short.is_ready() && self.long.is_ready()
    }

    fn get_last(&self) -> (v: Option<Value>) {
        match (self.short.value(), self.long.value()) {
            (Some(sh), Some(lg)) => Some(
                Value::EmaCrossValue { short: sh, long: lg, trend: sh >= lg },
            ),
            _ => None,
        }
    }

    fn reset(&mut self) {
        proof {
            self.short.lemma_model_wf();
            self.long.lemma_model_wf();
        }
        self.short.reset();
        self.long.reset();
        self.prev_uptrend = None;
    }

    fn period(&self) -> (p: u32) {
        self.long.period()
    }
}

impl Default for EmaCross {
    /// Nine bars against twenty-one.
    fn default() -> (c: EmaCross)
        ensures
            c.wf(),
            c.model() == EmaCrossModel::init(9, 21),
    {
        EmaCross::new(9, 21)
    }
}

} // verus!
