//! Stochastic oscillator over a stream of RSI values: where the latest value
//! stands in the range of a window, smoothed twice.
use vstd::prelude::*;
use crate::indicators::indicator::{Indicator, Value};
use crate::indicators::rsi::{Rsi, RsiModel};
use crate::indicators::types::{all_in_range, Price};
use crate::primitives::mean::{Mean, MeanModel};
use crate::primitives::range::{RangeModel, RangeTracker};
use crate::scalar::{is_sample, opt_int};

verus! {

/// What a stochastic oscillator holds, as mathematics.
///
/// `range` tracks the window of values; the position of the newest value in
/// its range is raw %K. `k_stage` smooths raw %K into %K, `d_stage` smooths
/// %K into %D.
pub struct StochModel {
    pub range: RangeModel,
    pub k_stage: MeanModel,
    pub d_stage: MeanModel,
    pub k_value: Option<int>,
    pub d_value: Option<int>,
}

impl StochModel {
    /// The state right after construction.
    pub open spec fn init(length: nat, k_smoothing: nat, d_smoothing: nat) -> StochModel {
        StochModel {
            range: RangeModel::init(length),
            k_stage: MeanModel::init(k_smoothing),
            d_stage: MeanModel::init(d_smoothing),
            k_value: None,
            d_value: None,
        }
    }

    /// The state is one that the operations lead to.
    pub open spec fn wf(self) -> bool {
        &&& self.range.wf()
        &&& 1 < self.range.capacity
        &&& self.k_stage.wf()
        &&& self.k_stage.capacity <= u32::MAX
        &&& self.d_stage.wf()
        &&& self.d_stage.capacity <= u32::MAX
        &&& self.k_value matches Some(k) ==> is_sample(k)
        &&& self.d_value matches Some(d) ==> is_sample(d)
        &&& !self.range.full() ==> self.k_stage.samples.len() == 0
        &&& !self.k_stage.ready() ==> self.d_stage.samples.len() == 0
        &&& self.k_value.is_some() ==> self.range.full() && self.k_stage.ready()
        &&& self.d_value.is_some() ==> self.k_value.is_some() && self.d_stage.ready()
    }

    /// How many finalized updates are still lacking at the least: those
    /// that fill the window, whose last one gives the first raw %K, then
    /// those that fill the first stage, whose last one gives the first %K,
    /// then those that fill the second stage.
    pub open spec fn remaining(self) -> nat {
        if !self.range.full() {
            (self.range.remaining() + (self.k_stage.capacity - 1) + (self.d_stage.capacity
                - 1)) as nat
        } else if !self.k_stage.ready() {
            (self.k_stage.remaining() + (self.d_stage.capacity - 1)) as nat
        } else {
            self.d_stage.remaining()
        }
    }

    /// The oscillator is never ready before the window and both stages have
    /// filled, and a provisional value fills nothing. A committed value on
    /// which the window has a range supplies exactly one of the updates that
    /// are lacking, and the oscillator is ready after it exactly when none is
    /// lacking any more. A committed value on which the window has no range
    /// supplies at most one, and leaves the oscillator not ready.
    pub proof fn lemma_ready_exactly_when_filled(self, x: int)
        requires
            self.wf(),
            is_sample(x),
        ensures
            self.ready() ==> self.remaining() == 0,
            self.provisional(x).remaining() == self.remaining(),
            self.close(x).remaining() >= self.remaining() - 1,
            self.close(x).range.position().is_some() ==> {
                &&& self.close(x).remaining() == if self.remaining() > 0 {
                    self.remaining() - 1
                } else {
                    0
                }
                &&& self.close(x).ready() <==> self.close(x).remaining() == 0
            },
            self.close(x).range.position().is_none() ==> !self.close(x).ready(),
            self.reset().remaining() == self.range.capacity + self.k_stage.capacity
                + self.d_stage.capacity - 2,
    {
        self.lemma_close_wf(x);
        self.lemma_provisional_wf(x);
    }

    /// Feeds %K to the second stage, which gives %D.
    pub open spec fn with_d(self, k: int, after: bool) -> StochModel {
        let d_stage = if after {
            self.d_stage.close(k)
        } else {
            self.d_stage.provisional(k)
        };
        StochModel { d_stage, k_value: Some(k), d_value: d_stage.mean(), ..self }
    }

    /// Feeds raw %K to the first stage, and its mean, once there is one, to
    /// the second.
    pub open spec fn with_k(self, raw: int, after: bool) -> StochModel {
        let k_stage = if after {
            self.k_stage.close(raw)
        } else {
            self.k_stage.provisional(raw)
        };
        let s = StochModel { k_stage, ..self };
        match k_stage.mean() {
            Some(k) => s.with_d(k, after),
            None => StochModel {
                d_stage: self.d_stage.settle(),
                k_value: None,
                d_value: None,
                ..s
            },
        }
    }

    /// Runs the smoothing stages on raw %K: committing when `after`,
    /// provisionally otherwise. With no raw %K nothing is reported for this
    /// tick and no stage keeps a provisional sample.
    pub open spec fn smoothed(self, raw: Option<int>, after: bool) -> StochModel {
        match raw {
            Some(raw) => self.with_k(raw, after),
            None => StochModel {
                k_stage: self.k_stage.settle(),
                d_stage: self.d_stage.settle(),
                k_value: None,
                d_value: None,
                ..self
            },
        }
    }

    /// Commits `x`: the window takes it, and the stages commit the raw %K of
    /// the new window.
    pub open spec fn close(self, x: int) -> StochModel {
        let range = self.range.close(x);
        StochModel { range, ..self }.smoothed(range.position(), true)
    }

    /// Takes `x` as the value of the forming bar: it overlays the newest
    /// committed value, and the stages take the raw %K of that window
    /// provisionally. Ignored until the window has filled.
    pub open spec fn provisional(self, x: int) -> StochModel {
        if self.range.full() {
            let range = self.range.provisional(x);
            StochModel { range, ..self }.smoothed(range.position(), false)
        } else {
            self
        }
    }

    /// A value is reported.
    pub open spec fn ready(self) -> bool {
        self.k_value.is_some() && self.d_value.is_some()
    }

    /// Smoothed %K on the scale from 0 to 100.
    pub open spec fn k(self) -> Option<int> {
        match self.k_value {
            Some(k) => Some(100 * k),
            None => None,
        }
    }

    /// %D on the scale from 0 to 100.
    pub open spec fn d(self) -> Option<int> {
        match self.d_value {
            Some(d) => Some(100 * d),
            None => None,
        }
    }

    /// The state right after construction, with the same parameters.
    pub open spec fn reset(self) -> StochModel {
        StochModel::init(self.range.capacity, self.k_stage.capacity, self.d_stage.capacity)
    }

    /// Running the stages keeps a state well formed.
    pub proof fn lemma_smoothed_wf(self, raw: Option<int>, after: bool)
        requires
            self.range.wf(),
            1 < self.range.capacity,
            self.k_stage.wf(),
            self.k_stage.capacity <= u32::MAX,
            self.d_stage.wf(),
            self.d_stage.capacity <= u32::MAX,
            !self.range.full() ==> self.k_stage.samples.len() == 0,
            !self.k_stage.ready() ==> self.d_stage.samples.len() == 0,
            raw matches Some(r) ==> is_sample(r) && self.range.full(),
        ensures
            self.smoothed(raw, after).wf(),
    {
        match raw {
            Some(raw) => {
                let k_stage = if after {
                    self.k_stage.close(raw)
                } else {
                    self.k_stage.provisional(raw)
                };
                k_stage.lemma_observed();
                if let Some(k) = k_stage.mean() {
                    let d_stage = if after {
                        self.d_stage.close(k)
                    } else {
                        self.d_stage.provisional(k)
                    };
                    d_stage.lemma_observed();
                }
            },
            None => {},
        }
    }

    /// A commit keeps a state well formed.
    pub proof fn lemma_close_wf(self, x: int)
        requires
            self.wf(),
            is_sample(x),
        ensures
            self.close(x).wf(),
    {
        let range = self.range.close(x);
        range.lemma_observed();
        StochModel { range, ..self }.lemma_smoothed_wf(range.position(), true);
    }

    /// A provisional update keeps a state well formed.
    pub proof fn lemma_provisional_wf(self, x: int)
        requires
            self.wf(),
            is_sample(x),
        ensures
            self.provisional(x).wf(),
    {
        if self.range.full() {
            let range = self.range.provisional(x);
            range.lemma_observed();
            StochModel { range, ..self }.lemma_smoothed_wf(range.position(), false);
        }
    }

    /// A provisional value supersedes the one before it, and a commit
    /// forgets every provisional value.
    pub proof fn lemma_provisional_leaves_no_trace(self, a: int, b: int)
        requires
            self.wf(),
        ensures
            self.provisional(a).provisional(b) == self.provisional(b),
            self.provisional(a).close(b) == self.close(b),
    {
    }
}

/// Stochastic oscillator over the last `length` values of a stream.
#[derive(Clone, Debug)]
pub struct StochRsi {
    range: RangeTracker,
    k_smoothing_buffer: Mean,
    k_value: Option<i64>,
    d_buffer: Mean,
    d_value: Option<i64>,
}

impl View for StochRsi {
    type V = StochModel;

    /// The mathematical state.
    closed spec fn view(&self) -> StochModel {
        StochModel {
            range: self.range@,
            k_stage: self.k_smoothing_buffer@,
            d_stage: self.d_buffer@,
            k_value: opt_int(self.k_value),
            d_value: opt_int(self.d_value),
        }
    }
}

impl StochRsi {
    /// Every part is well formed.
    spec fn parts_wf(&self) -> bool {
        &&& self.range.wf()
        &&& self.k_smoothing_buffer.wf()
        &&& self.d_buffer.wf()
    }

    /// The representation is consistent and stands for a well-formed state.
    pub closed spec fn wf(&self) -> bool {
        &&& self.parts_wf()
        &&& self@.wf()
    }

    /// A well-formed value stands for a well-formed state.
    pub proof fn lemma_wf(&self)
        requires
            self.wf(),
        ensures
            self@.wf(),
    {
    }

    /// `length` values span the range; `k_smoothing` raw values are averaged
    /// into %K and `d_smoothing` values of %K into %D.
    pub fn new(length: u32, k_smoothing: u32, d_smoothing: u32) -> (s: StochRsi)
        requires
            length > 1,
            k_smoothing > 0,
            d_smoothing > 0,
        ensures
            s.wf(),
            s@ == StochModel::init(length as nat, k_smoothing as nat, d_smoothing as nat),
    {
        StochRsi {
            range: RangeTracker::new(length),
            k_smoothing_buffer: Mean::new(k_smoothing),
            k_value: None,
            d_buffer: Mean::new(d_smoothing),
            d_value: None,
        }
    }

    /// The length of the window of values.
    pub fn periods(&self) -> (n: u32)
        requires
            self.wf(),
        ensures
            n == self@.range.capacity,
    {
        self.range.capacity()
    }

    /// Commits `rsi` as the value of a bar that has closed.
    pub fn update_after_close(&mut self, rsi: i64)
        requires
            old(self).wf(),
            is_sample(rsi as int),
        ensures
            final(self).wf(),
            final(self)@ == old(self)@.close(rsi as int),
    {
        proof {
            self@.lemma_close_wf(rsi as int);
        }
        self.range.update_after_close(rsi);
        self.compute_stoch_rsi(true);
    }

    /// Takes `rsi` as the value of the bar that is still forming. Ignored
    /// until the window has filled.
    pub fn update_before_close(&mut self, rsi: i64)
        requires
            old(self).wf(),
            is_sample(rsi as int),
        ensures
            final(self).wf(),
            final(self)@ == old(self)@.provisional(rsi as int),
    {
        proof {
            self@.lemma_provisional_wf(rsi as int);
        }
        if self.range.is_full() {
            self.range.update_before_close(rsi);
            self.compute_stoch_rsi(false);
        }
    }

    /// Runs the smoothing stages on the raw %K of the observed window.
    fn compute_stoch_rsi(&mut self, after: bool)
        requires
            old(self).parts_wf(),
        ensures
            final(self).parts_wf(),
            final(self)@ == old(self)@.smoothed(old(self)@.range.position(), after),
    {
        match self.range.position() {
            Some(raw_k) => {
                self.push_k_smoothing(raw_k, after);
            },
            None => {
                self.k_smoothing_buffer.settle();
                self.d_buffer.settle();
                self.k_value = None;
                self.d_value = None;
            },
        }
    }

    /// Feeds raw %K to the first stage, and its mean, once there is one, to
    /// the second.
    fn push_k_smoothing(&mut self, raw_k: i64, after: bool)
        requires
            old(self).parts_wf(),
            is_sample(raw_k as int),
        ensures
            final(self).parts_wf(),
            final(self)@ == old(self)@.with_k(raw_k as int, after),
    {
        if after {
            self.k_smoothing_buffer.update_after_close(raw_k);
        } else {
            self.k_smoothing_buffer.update_before_close(raw_k);
        }
        match self.k_smoothing_buffer.get_last() {
            Some(smoothed_k) => {
                proof {
                    self.k_smoothing_buffer.lemma_wf();
                    self.k_smoothing_buffer@.lemma_observed();
                }
                self.push_d_smoothing(smoothed_k, after);
            },
            None => {
                self.d_buffer.settle();
                self.k_value = None;
                self.d_value = None;
            },
        }
    }

    /// Feeds %K to the second stage, which gives %D.
    fn push_d_smoothing(&mut self, k_val: i64, after: bool)
        requires
            old(self).parts_wf(),
            is_sample(k_val as int),
        ensures
            final(self).parts_wf(),
            final(self)@ == old(self)@.with_d(k_val as int, after),
    {
        if after {
            self.d_buffer.update_after_close(k_val);
        } else {
            self.d_buffer.update_before_close(k_val);
        }
        self.k_value = Some(k_val);
        self.d_value = self.d_buffer.get_last();
    }

    /// Smoothed %K on the scale from 0 to 100.
    pub fn get_k(&self) -> (k: Option<i64>)
        requires
            self.wf(),
        ensures
            opt_int(k) == self@.k(),
    {
        match self.k_value {
            Some(val) => Some(val * 100),
            None => None,
        }
    }

    /// %D on the scale from 0 to 100.
    pub fn get_d(&self) -> (d: Option<i64>)
        requires
            self.wf(),
        ensures
            opt_int(d) == self@.d(),
    {
        match self.d_value {
            Some(val) => Some(val * 100),
            None => None,
        }
    }

    /// Both %K and %D are reported.
    pub fn is_ready(&self) -> (b: bool)
        requires
            self.wf(),
        ensures
            b == self@.ready(),
    {
        self.k_value.is_some() && self.d_value.is_some()
    }

    /// Back to the state right after construction.
    pub fn reset(&mut self)
        requires
            old(self).wf(),
        ensures
            final(self).wf(),
            final(self)@ == old(self)@.reset(),
    {
        proof {
            self.k_smoothing_buffer.lemma_wf();
            self.d_buffer.lemma_wf();
        }
        self.range.reset();
        self.k_smoothing_buffer.reset();
        self.k_value = None;
        self.d_buffer.reset();
        self.d_value = None;
    }
}

/// Stochastic oscillator over the relative strength index of the close.
#[derive(Clone, Debug)]
pub struct StochasticRsi {
    rsi: Rsi,
}

impl StochasticRsi {
    /// An index over `periods` bars and an oscillator over `periods` of its
    /// values, smoothed over `k_smoothing` and `d_smoothing` values.
    pub fn new(periods: u32, k_smoothing: u32, d_smoothing: u32) -> (s: StochasticRsi)
        requires
            periods > 1,
            k_smoothing > 0,
            d_smoothing > 0,
        ensures
            s.wf(),
            s.model() == RsiModel::init(
                periods as nat,
                periods as nat,
                k_smoothing as nat,
                d_smoothing as nat,
                None,
            ),
    {
        StochasticRsi {
            rsi: Rsi::new(periods, periods, Some(k_smoothing), Some(d_smoothing), None),
        }
    }
}

impl Indicator for StochasticRsi {
    type Model = RsiModel;

    closed spec fn wf(&self) -> bool {
        self.rsi.wf()
    }

    closed spec fn model(&self) -> RsiModel {
        self.rsi.model()
    }

    open spec fn model_wf(m: RsiModel) -> bool {
        m.wf()
    }

    open spec fn model_reset(m: RsiModel) -> RsiModel {
        m.reset()
    }

    open spec fn model_close(m: RsiModel, bar: Price) -> RsiModel {
        m.close(bar)
    }

    open spec fn model_provisional(m: RsiModel, bar: Price) -> RsiModel {
        m.provisional(bar)
    }

    /// Both %K and %D are reported: the windows have filled and the index
    /// has a range over the oscillator's window.
    open spec fn model_ready(m: RsiModel) -> bool {
        m.stoch.ready()
    }

    open spec fn model_last(m: RsiModel) -> Option<Value> {
        match (m.stoch.k(), m.stoch.d()) {
            (Some(k), Some(d)) => Some(Value::StochRsiValue { k: k as i64, d: d as i64 }),
            _ => None,
        }
    }

    open spec fn model_period(m: RsiModel) -> u32 {
        m.periods() as u32
    }

    proof fn lemma_model_wf(&self) {
        self.rsi.lemma_model_wf();
    }

    proof fn lemma_model_steps(m: RsiModel, bar: Price) {
        m.lemma_steps(bar);
    }

    proof fn lemma_provisional_leaves_no_trace(m: RsiModel, a: Price, b: Price) {
        m.lemma_provisional_leaves_no_trace(a, b);
    }

    proof fn lemma_ready_iff_value(m: RsiModel) {
    }

    proof fn lemma_replay_unfold(m: RsiModel, bars: Seq<Price>) {
    }

    proof fn lemma_reset_forgets(m: RsiModel, bar: Price) {
    }

    fn update_after_close(&mut self, last_price: Price) {
        self.rsi.update_after_close(last_price);
    }

    fn update_before_close(&mut self, last_price: Price) {
        self.rsi.update_before_close(last_price);
    }

    fn load(&mut self, price_data: &[Price]) {
        let mut i: usize = 0;
        while i < price_data.len()
            invariant
                0 <= i <= price_data@.len(),
                self.wf(),
                all_in_range(price_data@),
                self.model() == Self::replay(old(self).model(), price_data@.take(i as int)),
            decreases price_data@.len() - i,
        {
            proof {
                assert(price_data@.take(i + 1).drop_last() =~= price_data@.take(i as int));
            }
            self.update_after_close(price_data[i]);
            i = i + 1;
        }
        proof {
            assert(price_data@.take(i as int) =~= price_data@);
        }
    }

    fn is_ready(&self) -> (b: bool) {
        self.rsi.stoch_is_ready()
    }

    fn get_last(&self) -> (v: Option<Value>) {
        match (self.rsi.get_stoch_rsi(), self.rsi.get_stoch_signal()) {
            (Some(k), Some(d)) => Some(Value::StochRsiValue { k, d }),
            _ => None,
        }
    }

    fn reset(&mut self) {
        self.rsi.reset();
    }

    fn period(&self) -> (p: u32) {
        self.rsi.period()
    }
}

} // verus!
