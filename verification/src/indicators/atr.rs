//! Average true range: Wilder's smoothing of the true range of each bar.
use vstd::prelude::*;
use crate::indicators::indicator::{Indicator, Value};
use crate::indicators::types::{all_in_range, Price};
use crate::primitives::exp_mean::{ExpMean, ExpMeanModel};
use crate::scalar::{abs, is_price, is_sample, max2, opt_int, percent, percent_of};

verus! {

/// True range of a bar against the close before it: the largest of
/// `high - low`, `|high - prev_close|` and `|low - prev_close|`.
pub open spec fn true_range(high: int, low: int, prev_close: int) -> int {
    max2(high - low, max2(abs(high - prev_close), abs(low - prev_close)))
}

/// True range of `bar`: against the close before it, or `high - low` for the
/// first bar of a series.
pub open spec fn bar_true_range(bar: Price, prev_close: Option<int>) -> int {
    match prev_close {
        Some(pc) => true_range(bar.high as int, bar.low as int, pc),
        None => bar.high - bar.low,
    }
}

/// True range of a bar against the close before it.
pub fn calc_tr(high: i64, low: i64, prev_close: i64) -> (tr: i64)
    requires
        is_price(high as int),
        is_price(low as int),
        is_price(prev_close as int),
    ensures
        tr == true_range(high as int, low as int, prev_close as int),
        is_sample(tr as int),
{
    let hl: i64 = high - low;
    let hc: i64 = if high >= prev_close {
        high - prev_close
    } else {
        prev_close - high
    };
    let lc: i64 = if low >= prev_close {
        low - prev_close
    } else {
        prev_close - low
    };
    let m: i64 = if hc >= lc {
        hc
    } else {
        lc
    };
    if hl >= m {
        hl
    } else {
        m
    }
}

/// What an average true range holds, as mathematics.
pub struct AtrModel {
    pub smooth: ExpMeanModel,
    pub prev_close: Option<int>,
}

impl AtrModel {
    /// The state right after construction.
    pub open spec fn init(periods: nat) -> AtrModel {
        AtrModel { smooth: ExpMeanModel::init(periods, 1, periods), prev_close: None }
    }

    /// The state is one that the operations lead to.
    pub open spec fn wf(self) -> bool {
        &&& self.smooth.wf()
        &&& self.smooth.weight == 1
        &&& self.smooth.denom == self.smooth.window.capacity
        &&& self.smooth.window.capacity <= u32::MAX
        &&& self.prev_close matches Some(pc) ==> is_price(pc)
        &&& self.smooth.ready() ==> self.prev_close.is_some()
    }

    /// Commits `bar`: its true range goes into the smoother, its close is
    /// remembered for the next bar.
    pub open spec fn close(self, bar: Price) -> AtrModel {
        AtrModel {
            smooth: self.smooth.close(bar_true_range(bar, self.prev_close)),
            prev_close: Some(bar.close as int),
        }
    }

    /// Estimates the value as if the forming bar closed as `bar`. Ignored
    /// before the first bar has closed.
    pub open spec fn provisional(self, bar: Price) -> AtrModel {
        match self.prev_close {
            Some(pc) => AtrModel {
                smooth: self.smooth.provisional(bar_true_range(bar, self.prev_close)),
                ..self
            },
            None => self,
        }
    }

    /// The value reported.
    pub open spec fn last(self) -> Option<Value> {
        match self.smooth.observable {
            Some(v) => Some(Value::AtrValue(v as i64)),
            None => None,
        }
    }

    /// Once there is a value, a provisional update shows the value that a
    /// finalized update with the same bar would commit.
    pub proof fn lemma_provisional_previews_the_commit(self, bar: Price)
        requires
            self.wf(),
            self.smooth.ready(),
        ensures
            self.provisional(bar).last() == self.close(bar).last(),
    {
    }

    /// How many finalized updates the warm-up window still lacks.
    pub open spec fn remaining(self) -> nat {
        self.smooth.remaining()
    }

    /// The range is ready exactly when its warm-up window lacks nothing: on
    /// the finalized update that brings the `periods`-th bar.
    pub proof fn lemma_ready_exactly_when_filled(self, bar: Price)
        requires
            self.wf(),
        ensures
            self.smooth.ready() <==> self.remaining() == 0,
            self.close(bar).remaining() == if self.remaining() > 0 {
                self.remaining() - 1
            } else {
                0
            },
            self.provisional(bar).remaining() == self.remaining(),
            AtrModel::init(self.smooth.window.capacity).remaining() == self.smooth.window.capacity,
    {
    }

    /// The value as a percentage of `price`: none while there is no value,
    /// when `price` is zero, and when the percentage is beyond the range of a
    /// sample.
    pub open spec fn normalized(self, price: int) -> Option<Value> {
        match self.smooth.observable {
            Some(v) => match percent_of(v, price) {
                Some(pct) => Some(Value::AtrValue(pct as i64)),
                None => None,
            },
            None => None,
        }
    }
}

/// Average true range over `periods` bars.
#[derive(Clone, Debug)]
pub struct Atr {
    smooth: ExpMean,
    prev_close: Option<i64>,
}

impl Atr {
    /// Wilder's smoothing of the true range over `periods` bars.
    pub fn new(periods: u32) -> (a: Atr)
        requires
            periods > 0,
        ensures
            a.wf(),
            a.model() == AtrModel::init(periods as nat),
    {
        Atr { smooth: ExpMean::wilder(periods), prev_close: None }
    }

    /// The value as a percentage of `price`.
    pub fn normalized(&self, price: i64) -> (v: Option<Value>)
        requires
            self.wf(),
        ensures
            v == self.model().normalized(price as int),
    {
        match self.smooth.get_last() {
            Some(value) => match percent(value, price) {
                Some(pct) => Some(Value::AtrValue(pct)),
                None => None,
            },
            None => None,
        }
    }

    /// The close of the last committed bar.
    pub fn prev_close(&self) -> (c: Option<i64>)
        requires
            self.wf(),
        ensures
            opt_int(c) == self.model().prev_close,
    {
        self.prev_close
    }

    /// The committed value: what the next finalized update starts from.
    pub fn prev_value(&self) -> (v: Option<i64>)
        requires
            self.wf(),
        ensures
            opt_int(v) == self.model().smooth.committed,
    {
        self.smooth.committed()
    }

    /// Number of true ranges gathered for the seed.
    pub fn warmup_len(&self) -> (n: usize)
        requires
            self.wf(),
        ensures
            n == self.model().smooth.window.samples.len(),
    {
        self.smooth.warmup_len()
    }

    /// True range of `bar` against the last committed close.
    fn bar_tr(&self, bar: &Price) -> (tr: i64)
        requires
            self.wf(),
            bar.in_range(),
        ensures
            tr == bar_true_range(*bar, self.model().prev_close),
            is_sample(tr as int),
    {
        match self.prev_close {
            Some(pc) => calc_tr(bar.high, bar.low, pc),
            None => bar.high - bar.low,
        }
    }
}

impl Indicator for Atr {
    type Model = AtrModel;

    closed spec fn wf(&self) -> bool {
        &&& self.smooth.wf()
        &&& self.model().wf()
    }

    closed spec fn model(&self) -> AtrModel {
        AtrModel { smooth: self.smooth@, prev_close: opt_int(self.prev_close) }
    }

    open spec fn model_wf(m: AtrModel) -> bool {
        m.wf()
    }

    open spec fn model_reset(m: AtrModel) -> AtrModel {
        AtrModel::init(m.smooth.window.capacity)
    }

    open spec fn model_close(m: AtrModel, bar: Price) -> AtrModel {
        m.close(bar)
    }

    open spec fn model_provisional(m: AtrModel, bar: Price) -> AtrModel {
        m.provisional(bar)
    }

    open spec fn model_ready(m: AtrModel) -> bool {
        m.smooth.ready()
    }

    open spec fn model_last(m: AtrModel) -> Option<Value> {
        m.last()
    }

    open spec fn model_period(m: AtrModel) -> u32 {
        m.smooth.window.capacity as u32
    }

    proof fn lemma_model_wf(&self) {
    }

    proof fn lemma_model_steps(m: AtrModel, bar: Price) {
        let tr = bar_true_range(bar, m.prev_close);
        m.smooth.lemma_close_wf(tr);
        m.smooth.lemma_provisional_wf(tr);
    }

    proof fn lemma_provisional_leaves_no_trace(m: AtrModel, a: Price, b: Price) {
    }

    proof fn lemma_ready_iff_value(m: AtrModel) {
    }

    proof fn lemma_replay_unfold(m: AtrModel, bars: Seq<Price>) {
    }

    proof fn lemma_reset_forgets(m: AtrModel, bar: Price) {
    }

    fn update_after_close(&mut self, last_price: Price) {
        proof {
            Self::lemma_model_steps(self.model(), last_price);
        }
        let tr: i64 = self.bar_tr(&last_price);
        self.smooth.update_after_close(tr);
        self.prev_close = Some(last_price.close);
    }

    fn update_before_close(&mut self, last_price: Price) {
        proof {
            Self::lemma_model_steps(self.model(), last_price);
        }
        if self.prev_close.is_some() {
            let tr: i64 = self.bar_tr(&last_price);
            self.smooth.update_before_close(tr);
        }
    }

    fn load(&mut self, price_data: &[Price]) {
        let mut i: usize = 0;
        while i < price_data.len()
            invariant
                0 <= i <= price_data@.len(),
                self.wf(),
                all_in_range(price_data@),
                self.model() == Self::replay(old(self).model(), price_data@.take(i as int)),
            decreases price_data@.len() - i,
        {
            proof {
                assert(price_data@.take(i + 1).drop_last() =~= price_data@.take(i as int));
            }
            self.update_after_close(price_data[i]);
            i = i + 1;
        }
        proof {
            assert(price_data@.take(i as int) =~= price_data@);
        }
    }

    fn is_ready(&self) -> (b: bool) {
        self.smooth.is_ready()
    }

    fn get_last(&self) -> (v: Option<Value>) {
        match self.smooth.get_last() {
            Some(val) => Some(Value::AtrValue(val)),
            None => None,
        }
    }

    fn reset(&mut self) {
        self.smooth.reset();
        self.prev_close = None;
    }

    fn period(&self) -> (p: u32) {
        self.smooth.period()
    }
}

impl Default for Atr {
    /// Fourteen bars.
    fn default() -> (a: Atr)
        ensures
            a.wf(),
            a.model() == AtrModel::init(14),
    {
        Atr::new(14)
    }
}

} // verus!
