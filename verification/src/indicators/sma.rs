//! Simple moving average of the closing price.
use vstd::prelude::*;
use crate::indicators::indicator::{Indicator, Value};
use crate::indicators::types::{all_in_range, Price};
use crate::primitives::mean::{Mean, MeanModel};

verus! {

/// Simple moving average of the close over `periods` bars.
#[derive(Clone, Debug)]
pub struct Sma {
    mean: Mean,
}

impl Sma {
    /// A moving average over `periods` closes.
    pub fn new(periods: u32) -> (s: Sma)
        requires
            periods > 1,
        ensures
            s.wf(),
            s.model() == MeanModel::init(periods as nat),
    {
        Sma { mean: Mean::new(periods) }
    }
}

impl Indicator for Sma {
    type Model = MeanModel;

    closed spec fn wf(&self) -> bool {
        self.mean.wf()
    }

    closed spec fn model(&self) -> MeanModel {
        self.mean@
    }

    open spec fn model_wf(m: MeanModel) -> bool {
        m.wf() && m.capacity <= u32::MAX
    }

    open spec fn model_reset(m: MeanModel) -> MeanModel {
        MeanModel::init(m.capacity)
    }

    open spec fn model_close(m: MeanModel, bar: Price) -> MeanModel {
        m.close(bar.close as int)
    }

    open spec fn model_provisional(m: MeanModel, bar: Price) -> MeanModel {
        m.provisional(bar.close as int)
    }

    open spec fn model_ready(m: MeanModel) -> bool {
        m.ready()
    }

    open spec fn model_last(m: MeanModel) -> Option<Value> {
        match m.mean() {
            Some(v) => Some(Value::SmaValue(v as i64)),
            None => None,
        }
    }

    open spec fn model_period(m: MeanModel) -> u32 {
        m.capacity as u32
    }

    proof fn lemma_model_wf(&self) {
        self.mean.lemma_wf();
    }

    proof fn lemma_model_steps(m: MeanModel, bar: Price) {
    }

    proof fn lemma_provisional_leaves_no_trace(m: MeanModel, a: Price, b: Price) {
    }

    proof fn lemma_ready_iff_value(m: MeanModel) {
    }

    proof fn lemma_replay_unfold(m: MeanModel, bars: Seq<Price>) {
    }

    proof fn lemma_reset_forgets(m: MeanModel, bar: Price) {
    }

    fn update_after_close(&mut self, last_price: Price) {
        self.mean.update_after_close(last_price.close);
    }

    fn update_before_close(&mut self, last_price: Price) {
        self.mean.update_before_close(last_price.close);
    }

    fn load(&mut self, price_data: &[Price]) {
        let mut i: usize = 0;
        while i < price_data.len()
            invariant
                0 <= i <= price_data@.len(),
                self.wf(),
                all_in_range(price_data@),
                self.model() == Self::replay(old(self).model(), price_data@.take(i as int)),
            decreases price_data@.len() - i,
        {
            proof {
                assert(price_data@.take(i + 1).drop_last() =~= price_data@.take(i as int));
            }
            self.update_after_close(price_data[i]);
            i = i + 1;
        }
        proof {
            assert(price_data@.take(i as int) =~= price_data@);
        }
    }

    fn is_ready(&self) -> (b: bool) {
        self.mean.is_ready()
    }

    fn get_last(&self) -> (v: Option<Value>) {
        match self.mean.get_last() {
            Some(val) => Some(Value::SmaValue(val)),
            None => None,
        }
    }

    fn reset(&mut self) {
        self.mean.reset();
    }

    fn period(&self) -> (p: u32) {
        proof {
            self.mean.lemma_wf();
        }
        self.mean.period()
    }
}

impl Default for Sma {
    /// Nine bars.
    fn default() -> (s: Sma)
        ensures
            s.wf(),
            s.model() == MeanModel::init(9),
    {
        Sma::new(9)
    }
}

} // verus!
