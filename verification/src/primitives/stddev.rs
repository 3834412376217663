//! Sample standard deviation over a sliding window, from its running sum and
//! sum of squares.
use vstd::prelude::*;
use vstd::arithmetic::div_mod::{
    lemma_fundamental_div_mod, lemma_fundamental_div_mod_converse, lemma_mod_bound,
};
use crate::indicators::indicator::{Indicator, Value};
use crate::indicators::types::{all_in_range, Price};
use crate::primitives::mean::{Mean, MeanModel};
use crate::scalar::{
    div_floor, is_sample, isqrt, lemma_div_between, max2, opt_int, sqrt_floor, SAMPLE_LIMIT,
};

verus! {

/// Sample variance of `n` values from their sum and their sum of squares:
/// `(sum_sq - sum * sum / n) / (n - 1)`.
pub open spec fn variance(sum: int, sum_sq: int, n: int) -> int {
    (sum_sq - (sum * sum) / n) / (n - 1)
}

/// Sample standard deviation: the square root of the variance, which is
/// taken as zero where rounding has made it negative.
pub open spec fn std_dev(sum: int, sum_sq: int, n: int) -> int {
    sqrt_floor(max2(variance(sum, sum_sq, n), 0))
}

/// The standard deviation of the observed window of `m`, once it has filled.
pub open spec fn std_dev_of(m: MeanModel) -> Option<int> {
    if m.ready() {
        Some(std_dev(m.sum(), m.sum_sq(), m.capacity as int))
    } else {
        None
    }
}

/// `(a * n + b) / n` is `a + b / n`.
proof fn lemma_div_hoist(a: int, b: int, n: int)
    requires
        n > 0,
    ensures
        (a * n + b) / n == a + b / n,
{
    lemma_fundamental_div_mod(b, n);
    lemma_mod_bound(b, n);
    let qb = b / n;
    let rb = b % n;
    assert(a * n + b == (a + qb) * n + rb) by (nonlinear_arith)
        requires
            b == n * qb + rb,
    ;
    lemma_fundamental_div_mod_converse(a * n + b, n, a + qb, rb);
}

/// Sample standard deviation over a window of `periods` samples.
#[derive(Clone, Debug)]
pub struct StdDev {
    mean: Mean,
    value: Option<i64>,
}

impl View for StdDev {
    type V = MeanModel;

    /// The mathematical state.
    closed spec fn view(&self) -> MeanModel {
        self.mean@
    }
}

impl StdDev {
    /// A standard deviation over a window of `periods` samples.
    pub fn new(periods: u32) -> (s: StdDev)
        requires
            periods > 1,
        ensures
            s.wf(),
            s@ == MeanModel::init(periods as nat),
    {
        StdDev { mean: Mean::new(periods), value: None }
    }

    /// Works the value out again from the sums of the observed window.
    fn compute(&mut self)
        requires
            old(self).mean.wf(),
            old(self).mean@.capacity > 1,
        ensures
            final(self).mean == old(self).mean,
            opt_int(final(self).value) == std_dev_of(old(self).mean@),
            final(self).value matches Some(v) ==> 0 <= v <= 2 * SAMPLE_LIMIT,
    {
        if !self.mean.is_ready() {
            self.value = None;
            return ;
        }
        let n: i128 = self.mean.period() as i128;
        let sum: i128 = self.mean.sum();
        let sum_sq: i128 = self.mean.sum_sq();
        let ghost lim = SAMPLE_LIMIT as int;
        proof {
            self.mean.lemma_wf();
            self.mean@.lemma_observed();
            assert(-lim * n == -n * lim && lim * n == n * lim) by (nonlinear_arith);
            lemma_div_between(sum as int, n as int, -lim, lim);
        }
        let q: i128 = div_floor(sum, n);
        proof {
            lemma_fundamental_div_mod(sum as int, n as int);
            lemma_mod_bound(sum as int, n as int);
            assert(-0x1_0000_0000 * lim <= q * n <= 0x1_0000_0000 * lim) by (nonlinear_arith)
                requires
                    -lim <= q <= lim,
                    0 < n <= 0x1_0000_0000,
                    lim >= 0,
            ;
        }
        let r: i128 = sum - q * n;
        proof {
            assert(r == (sum as int) % (n as int)) by (nonlinear_arith)
                requires
                    sum == n * q + (sum as int) % (n as int),
                    r == sum - q * n,
            ;
            assert(-0x1_0000_0000 * (lim * lim) <= q * sum <= 0x1_0000_0000 * (lim * lim))
                by (nonlinear_arith)
                requires
                    -lim <= q <= lim,
                    -n * lim <= sum <= n * lim,
                    0 < n <= 0x1_0000_0000,
                    lim >= 0,
            ;
            let wide = 0x1_0000_0000 * (0x1_0000_0000 * lim);
            assert(-wide <= r * sum <= wide) by (nonlinear_arith)
                requires
                    0 <= r < n,
                    -n * lim <= sum <= n * lim,
                    0 < n <= 0x1_0000_0000,
                    lim >= 0,
                    wide == 0x1_0000_0000 * (0x1_0000_0000 * lim),
            ;
            assert(-wide * n <= r * sum <= wide * n) by (nonlinear_arith)
                requires
                    -wide <= r * sum <= wide,
                    n >= 1,
            ;
            lemma_div_between(r * sum, n as int, -wide, wide);
            assert(sum * sum == (q * sum) * n + r * sum) by (nonlinear_arith)
                requires
                    r == sum - q * n,
            ;
            lemma_div_hoist(q * sum, r * sum, n as int);
            assert(0 * n <= sum * sum <= (n * (lim * lim)) * n) by (nonlinear_arith)
                requires
                    -n * lim <= sum <= n * lim,
                    0 < n,
                    lim >= 0,
            ;
            lemma_div_between(sum * sum, n as int, 0, n * (lim * lim));
            assert(n * (lim * lim) <= 0x1_0000_0000 * (lim * lim)) by (nonlinear_arith)
                requires
                    0 < n <= 0x1_0000_0000,
            ;
        }
        let square_over_n: i128 = q * sum + div_floor(r * sum, n);
        let num: i128 = sum_sq - square_over_n;
        proof {
            let top = n * (lim * lim);
            assert(-top * (n - 1) <= num <= top * (n - 1)) by (nonlinear_arith)
                requires
                    -top <= num <= top,
                    n - 1 >= 1,
                    top >= 0,
            ;
            assert(num <= (2 * (lim * lim)) * (n - 1)) by (nonlinear_arith)
                requires
                    num <= n * (lim * lim),
                    n >= 2,
            ;
            lemma_div_between(num as int, n - 1, -top, 2 * (lim * lim));
        }
        let var: i128 = div_floor(num, n - 1);
        let clamped: u128 = if var > 0 {
            var as u128
        } else {
            0
        };
        let root: u128 = isqrt(clamped);
        proof {
            assert(root <= 2 * lim) by (nonlinear_arith)
                requires
                    root * root <= clamped,
                    clamped <= 2 * (lim * lim),
                    lim > 0,
                    root >= 0,
            ;
        }
        self.value = Some(root as i64);
    }

    /// The representation is consistent and stands for a well-formed state.
    pub closed spec fn wf(&self) -> bool {
        &&& self.mean.wf()
        &&& self.mean@.capacity > 1
        &&& opt_int(self.value) == std_dev_of(self.mean@)
        &&& self.value matches Some(v) ==> 0 <= v <= 2 * SAMPLE_LIMIT
    }

    /// A well-formed value stands for a well-formed state.
    pub proof fn lemma_wf(&self)
        requires
            self.wf(),
        ensures
            self@.wf(),
            1 < self@.capacity <= u32::MAX,
    {
        self.mean.lemma_wf();
    }

    /// Commits `x` as the sample of a bar that has closed.
    pub fn update_after_close_value(&mut self, x: i64)
        requires
            old(self).wf(),
            is_sample(x as int),
        ensures
            final(self).wf(),
            final(self)@ == old(self)@.close(x as int),
    {
        self.mean.update_after_close(x);
        self.compute();
    }

    /// Takes `x` as the sample of the bar that is still forming.
    pub fn update_before_close_value(&mut self, x: i64)
        requires
            old(self).wf(),
            is_sample(x as int),
        ensures
            final(self).wf(),
            final(self)@ == old(self)@.provisional(x as int),
    {
        self.mean.update_before_close(x);
        self.compute();
    }

    /// The standard deviation of the observed window, once it has filled.
    pub fn get_last_value(&self) -> (v: Option<i64>)
        requires
            self.wf(),
        ensures
            opt_int(v) == std_dev_of(self@),
            v matches Some(x) ==> 0 <= x <= 2 * SAMPLE_LIMIT,
    {
        self.value
    }

    /// Commits every sample of `data` in order.
    pub fn load_values(&mut self, data: &[i64])
        requires
            old(self).wf(),
            forall|i: int| 0 <= i < data@.len() ==> is_sample(#[trigger] data@[i] as int),
        ensures
            final(self).wf(),
            final(self)@ == old(self)@.close_all(data@.map_values(|v: i64| v as int)),
    {
        self.mean.load(data);
        self.compute();
    }

    /// The window has filled.
    pub fn is_ready_value(&self) -> (b: bool)
        requires
            self.wf(),
        ensures
            b == self@.ready(),
    {
        self.mean.is_ready()
    }

    /// The window length.
    pub fn period_value(&self) -> (p: u32)
        requires
            self.wf(),
        ensures
            p == self@.capacity,
    {
        self.mean.period()
    }

    /// Back to the state right after construction.
    pub fn reset_value(&mut self)
        requires
            old(self).wf(),
        ensures
            final(self).wf(),
            final(self)@ == MeanModel::init(old(self)@.capacity),
    {
        self.mean.reset();
        self.value = None;
    }
}

impl Indicator for StdDev {
    type Model = MeanModel;

    open spec fn wf(&self) -> bool {
        StdDev::wf(self)
    }

    open spec fn model(&self) -> MeanModel {
        self@
    }

    open spec fn model_wf(m: MeanModel) -> bool {
        m.wf() && 1 < m.capacity <= u32::MAX
    }

    open spec fn model_reset(m: MeanModel) -> MeanModel {
        MeanModel::init(m.capacity)
    }

    open spec fn model_close(m: MeanModel, bar: Price) -> MeanModel {
        m.close(bar.close as int)
    }

    open spec fn model_provisional(m: MeanModel, bar: Price) -> MeanModel {
        m.provisional(bar.close as int)
    }

    open spec fn model_ready(m: MeanModel) -> bool {
        m.ready()
    }

    open spec fn model_last(m: MeanModel) -> Option<Value> {
        match std_dev_of(m) {
            Some(v) => Some(Value::StdDevValue(v as i64)),
            None => None,
        }
    }

    open spec fn model_period(m: MeanModel) -> u32 {
        m.capacity as u32
    }

    proof fn lemma_model_wf(&self) {
        self.lemma_wf();
    }

    proof fn lemma_model_steps(m: MeanModel, bar: Price) {
    }

    proof fn lemma_provisional_leaves_no_trace(m: MeanModel, a: Price, b: Price) {
    }

    proof fn lemma_ready_iff_value(m: MeanModel) {
    }

    proof fn lemma_replay_unfold(m: MeanModel, bars: Seq<Price>) {
    }

    proof fn lemma_reset_forgets(m: MeanModel, bar: Price) {
    }

    fn update_after_close(&mut self, last_price: Price) {
        self.update_after_close_value(last_price.close);
    }

    fn update_before_close(&mut self, last_price: Price) {
        self.update_before_close_value(last_price.close);
    }

    fn load(&mut self, price_data: &[Price]) {
        let mut i: usize = 0;
        while i < price_data.len()
            invariant
                0 <= i <= price_data@.len(),
                self.mean.wf(),
                self.mean@.capacity > 1,
                all_in_range(price_data@),
                self@ == Self::replay(old(self)@, price_data@.take(i as int)),
            decreases price_data@.len() - i,
        {
            proof {
                assert(price_data@.take(i + 1).drop_last() =~= price_data@.take(i as int));
            }
            self.mean.update_after_close(price_data[i].close);
            i = i + 1;
        }
        proof {
            assert(price_data@.take(i as int) =~= price_data@);
        }
        self.compute();
    }

    fn is_ready(&self) -> (b: bool) {
        self.mean.is_ready()
    }

    fn get_last(&self) -> (v: Option<Value>) {
        match self.value {
            Some(val) => Some(Value::StdDevValue(val)),
            None => None,
        }
    }

    fn reset(&mut self) {
        self.mean.reset();
        self.value = None;
    }

    fn period(&self) -> (p: u32) {
        self.mean.period()
    }
}

} // verus!
