//! Recursive smoother: one persisted scalar, seeded by the mean of a window
//! when it first fills and from then on advanced by a weighted recurrence.
use vstd::prelude::*;
use crate::primitives::mean::{Mean, MeanModel};
use crate::scalar::{div_floor, is_sample, lemma_div_between, opt_int, SAMPLE_LIMIT};
use crate::series::all_between;

verus! {

/// One step of the recurrence: `(weight * x + (denom - weight) * prev) / denom`.
///
/// With weight 2 and denominator `n + 1` this is the exponential moving
/// average of factor `2 / (n + 1)`; with weight 1 and denominator `n` it is
/// Wilder's smoothing.
pub open spec fn smooth_step(weight: int, denom: int, prev: int, x: int) -> int {
    (weight * x + (denom - weight) * prev) / denom
}

/// A step between two accepted samples is an accepted sample.
pub proof fn lemma_smooth_step_bounds(weight: int, denom: int, prev: int, x: int)
    requires
        0 < weight <= denom,
        is_sample(prev),
        is_sample(x),
    ensures
        is_sample(smooth_step(weight, denom, prev, x)),
        -denom * SAMPLE_LIMIT <= weight * x + (denom - weight) * prev <= denom * SAMPLE_LIMIT,
{
    let num = weight * x + (denom - weight) * prev;
    let lim = SAMPLE_LIMIT as int;
    assert(-lim * denom <= num <= lim * denom && -denom * lim == -lim * denom && denom * lim == lim
        * denom) by (nonlinear_arith)
        requires
            0 < weight <= denom,
            -lim <= prev <= lim,
            -lim <= x <= lim,
            num == weight * x + (denom - weight) * prev,
    ;
    lemma_div_between(num, denom, -lim, lim);
}

/// A step between two values within bounds stays within them.
pub proof fn lemma_smooth_step_between(weight: int, denom: int, prev: int, x: int, lo: int, hi: int)
    requires
        0 < weight <= denom,
        lo <= prev <= hi,
        lo <= x <= hi,
    ensures
        lo <= smooth_step(weight, denom, prev, x) <= hi,
{
    let num = weight * x + (denom - weight) * prev;
    assert(lo * denom <= num <= hi * denom) by (nonlinear_arith)
        requires
            0 < weight <= denom,
            lo <= prev <= hi,
            lo <= x <= hi,
            num == weight * x + (denom - weight) * prev,
    ;
    lemma_div_between(num, denom, lo, hi);
}

/// What a recursive smoother holds, as mathematics.
///
/// `window` takes every sample; the smoother reads it once, when it first
/// fills. `committed` is the value the next finalized update starts from;
/// only a finalized update changes it. `observable` is the value reported:
/// the committed one after a finalized update, an estimate after a
/// provisional one.
pub struct ExpMeanModel {
    pub weight: nat,
    pub denom: nat,
    pub window: MeanModel,
    pub committed: Option<int>,
    pub observable: Option<int>,
}

impl ExpMeanModel {
    /// The state right after construction.
    pub open spec fn init(capacity: nat, weight: nat, denom: nat) -> ExpMeanModel {
        ExpMeanModel {
            weight,
            denom,
            window: MeanModel::init(capacity),
            committed: None,
            observable: None,
        }
    }

    /// The state is one that the operations lead to.
    pub open spec fn wf(self) -> bool {
        &&& 0 < self.weight <= self.denom
        &&& self.window.wf()
        &&& self.committed.is_some() == self.window.ready()
        &&& self.observable.is_some() == self.committed.is_some()
        &&& self.committed matches Some(c) ==> is_sample(c)
        &&& self.observable matches Some(o) ==> is_sample(o)
    }

    /// The recurrence applied to the committed value.
    pub open spec fn step(self, prev: int, x: int) -> int {
        smooth_step(self.weight as int, self.denom as int, prev, x)
    }

    /// Commits `x`. It goes into the window; the mean of the window seeds
    /// the smoother when it first fills, and afterwards the recurrence
    /// advances the committed value. The observable value follows the
    /// committed one.
    pub open spec fn close(self, x: int) -> ExpMeanModel {
        let window = self.window.close(x);
        let next = match self.committed {
            Some(prev) => Some(self.step(prev, x)),
            None => window.mean(),
        };
        ExpMeanModel { window, committed: next, observable: next, ..self }
    }

    /// Estimates the value for the forming bar from the committed value,
    /// which stays as it is; in the window `x` stands in for the newest
    /// sample. Ignored while warming up.
    pub open spec fn provisional(self, x: int) -> ExpMeanModel {
        match self.committed {
            Some(prev) => ExpMeanModel {
                window: self.window.provisional(x),
                observable: Some(self.step(prev, x)),
                ..self
            },
            None => self,
        }
    }

    /// Drops the estimate for the forming bar: the observable value is the
    /// committed one again.
    pub open spec fn settle(self) -> ExpMeanModel {
        ExpMeanModel { window: self.window.settle(), observable: self.committed, ..self }
    }

    /// A value is reported.
    pub open spec fn ready(self) -> bool {
        self.observable.is_some()
    }

    /// The state right after construction, with the same parameters.
    pub open spec fn reset(self) -> ExpMeanModel {
        ExpMeanModel::init(self.window.capacity, self.weight, self.denom)
    }

    /// Commits every sample of `xs` in order.
    pub open spec fn close_all(self, xs: Seq<int>) -> ExpMeanModel
        decreases xs.len(),
    {
        if xs.len() == 0 {
            self
        } else {
            self.close_all(xs.drop_last()).close(xs.last())
        }
    }

    /// How many finalized updates the window still lacks.
    pub open spec fn remaining(self) -> nat {
        self.window.remaining()
    }

    /// The smoother is ready exactly when its window lacks nothing,
    /// never earlier and never later: each finalized update supplies one
    /// sample until then, and a provisional update supplies none.
    pub proof fn lemma_ready_exactly_when_filled(self, x: int)
        requires
            self.wf(),
        ensures
            self.ready() <==> self.remaining() == 0,
            self.close(x).remaining() == if self.remaining() > 0 {
                self.remaining() - 1
            } else {
                0
            },
            self.provisional(x).remaining() == self.remaining(),
            self.reset().remaining() == self.window.capacity,
    {
    }

    /// Once the smoother is seeded, a provisional update shows the value
    /// that a finalized update with the same sample would commit.
    pub proof fn lemma_provisional_previews_the_commit(self, x: int)
        requires
            self.wf(),
            self.ready(),
        ensures
            self.provisional(x).observable == self.close(x).observable,
            self.provisional(x).observable == self.close(x).committed,
    {
    }

    /// A provisional update changes the observable value and nothing else;
    /// it supersedes the one before it, and a commit forgets it.
    pub proof fn lemma_provisional_leaves_no_trace(self, a: int, b: int)
        ensures
            self.provisional(a).provisional(b) == self.provisional(b),
            self.provisional(a).close(b) == self.close(b),
            self.provisional(a).committed == self.committed,
            self.provisional(a).window.samples == self.window.samples,
    {
    }

    /// Every sample taken so far, and so every value, lies between `lo`
    /// and `hi`.
    pub open spec fn between(self, lo: int, hi: int) -> bool {
        &&& all_between(self.window.samples, lo, hi)
        &&& self.committed matches Some(c) ==> lo <= c <= hi
        &&& self.observable matches Some(o) ==> lo <= o <= hi
    }

    /// Samples within bounds keep the smoother within them.
    pub proof fn lemma_between(self, x: int, lo: int, hi: int)
        requires
            self.wf(),
            self.between(lo, hi),
            lo <= x <= hi,
        ensures
            self.close(x).between(lo, hi),
            self.provisional(x).between(lo, hi),
    {
        match self.committed {
            Some(prev) => {
                lemma_smooth_step_between(self.weight as int, self.denom as int, prev, x, lo, hi);
            },
            None => {
                let window = self.window.close(x);
                if window.ready() {
                    window.lemma_mean_between(lo, hi);
                }
            },
        }
    }

    /// A commit keeps a state well formed.
    pub proof fn lemma_close_wf(self, x: int)
        requires
            self.wf(),
            is_sample(x),
        ensures
            self.close(x).wf(),
    {
        self.window.lemma_close_wf(x);
        match self.committed {
            Some(prev) => {
                lemma_smooth_step_bounds(self.weight as int, self.denom as int, prev, x);
            },
            None => {
                self.window.close(x).lemma_observed();
            },
        }
    }

    /// A provisional update keeps a state well formed.
    pub proof fn lemma_provisional_wf(self, x: int)
        requires
            self.wf(),
            is_sample(x),
        ensures
            self.provisional(x).wf(),
    {
        if let Some(prev) = self.committed {
            lemma_smooth_step_bounds(self.weight as int, self.denom as int, prev, x);
        }
    }
}

/// Recursive smoother over a stream of samples.
#[derive(Clone, Debug)]
pub struct ExpMean {
    periods: u32,
    weight: u64,
    denom: u64,
    buff: Mean,
    prev_value: Option<i64>,
    value: Option<i64>,
}

impl View for ExpMean {
    type V = ExpMeanModel;

    /// The mathematical state.
    closed spec fn view(&self) -> ExpMeanModel {
        ExpMeanModel {
            weight: self.weight as nat,
            denom: self.denom as nat,
            window: self.buff@,
            committed: opt_int(self.prev_value),
            observable: opt_int(self.value),
        }
    }
}

impl ExpMean {
    /// The representation is consistent and stands for a well-formed state.
    pub closed spec fn wf(&self) -> bool {
        &&& self.buff.wf()
        &&& self.buff@.capacity == self.periods
        &&& self.denom <= 0x1_0000_0000
        &&& self@.wf()
    }

    /// A well-formed value stands for a well-formed state.
    pub proof fn lemma_wf(&self)
        requires
            self.wf(),
        ensures
            self@.wf(),
            self@.window.capacity <= u32::MAX,
    {
        self.buff.lemma_wf();
    }

    /// Exponential moving average over `periods` samples: smoothing factor
    /// `2 / (periods + 1)`.
    pub fn new(periods: u32) -> (e: ExpMean)
        requires
            periods > 1,
        ensures
            e.wf(),
            e@ == ExpMeanModel::init(periods as nat, 2, (periods + 1) as nat),
    {
        ExpMean {
            periods,
            weight: 2,
            denom: periods as u64 + 1,
            buff: Mean::new(periods),
            prev_value: None,
            value: None,
        }
    }

    /// Wilder's smoothing over `periods` samples: `(prev * (periods - 1) + x) / periods`.
    pub fn wilder(periods: u32) -> (e: ExpMean)
        requires
            periods > 0,
        ensures
            e.wf(),
            e@ == ExpMeanModel::init(periods as nat, 1, periods as nat),
    {
        ExpMean {
            periods,
            weight: 1,
            denom: periods as u64,
            buff: Mean::new(periods),
            prev_value: None,
            value: None,
        }
    }

    /// Wilder's smoothing of divisor `divisor`, seeded by the mean of the
    /// first `warmup` samples.
    pub fn wilder_seeded(warmup: u32, divisor: u32) -> (e: ExpMean)
        requires
            warmup > 0,
            divisor > 0,
        ensures
            e.wf(),
            e@ == ExpMeanModel::init(warmup as nat, 1, divisor as nat),
    {
        ExpMean {
            periods: warmup,
            weight: 1,
            denom: divisor as u64,
            buff: Mean::new(warmup),
            prev_value: None,
            value: None,
        }
    }

    /// One step of the recurrence from `prev` with sample `x`.
    fn step(&self, prev: i64, x: i64) -> (next: i64)
        requires
            self.wf(),
            is_sample(prev as int),
            is_sample(x as int),
        ensures
            next == self@.step(prev as int, x as int),
            is_sample(next as int),
    {
        proof {
            lemma_smooth_step_bounds(self.weight as int, self.denom as int, prev as int, x as int);
            let w = self.weight as int;
            let d = self.denom as int;
            assert(-0x1_0000_0000 * SAMPLE_LIMIT <= w * x <= 0x1_0000_0000 * SAMPLE_LIMIT
                && -0x1_0000_0000 * SAMPLE_LIMIT <= (d - w) * prev <= 0x1_0000_0000 * SAMPLE_LIMIT
                && d * SAMPLE_LIMIT <= 0x1_0000_0000 * SAMPLE_LIMIT) by (nonlinear_arith)
                requires
                    0 < w <= d <= 0x1_0000_0000,
                    -SAMPLE_LIMIT <= x <= SAMPLE_LIMIT,
                    -SAMPLE_LIMIT <= prev <= SAMPLE_LIMIT,
            ;
        }
        let num: i128 = (self.weight as i128) * (x as i128) + ((self.denom - self.weight) as i128)
            * (prev as i128);
        div_floor(num, self.denom as i128) as i64
    }

    /// Commits `x` as the sample of a bar that has closed.
    pub fn update_after_close(&mut self, x: i64)
        requires
            old(self).wf(),
            is_sample(x as int),
        ensures
            final(self).wf(),
            final(self)@ == old(self)@.close(x as int),
    {
        proof {
            self@.lemma_close_wf(x as int);
        }
        match self.prev_value {
            Some(prev) => {
                let next: i64 = self.step(prev, x);
                self.buff.update_after_close(x);
                self.prev_value = Some(next);
                self.value = Some(next);
            },
            None => {
                self.buff.update_after_close(x);
                let seed: Option<i64> = self.buff.get_last();
                self.prev_value = seed;
                self.value = seed;
            },
        }
    }

    /// Takes `x` as the sample of the bar that is still forming: the
    /// observable value becomes the estimate from the committed value, which
    /// is not touched. Ignored while warming up.
    pub fn update_before_close(&mut self, x: i64)
        requires
            old(self).wf(),
            is_sample(x as int),
        ensures
            final(self).wf(),
            final(self)@ == old(self)@.provisional(x as int),
    {
        proof {
            self@.lemma_provisional_wf(x as int);
        }
        if let Some(prev) = self.prev_value {
            let next: i64 = self.step(prev, x);
            self.buff.update_before_close(x);
            self.value = Some(next);
        }
    }

    /// Drops the estimate for the forming bar.
    pub fn settle(&mut self)
        requires
            old(self).wf(),
        ensures
            final(self).wf(),
            final(self)@ == old(self)@.settle(),
    {
        self.buff.settle();
        self.value = self.prev_value;
    }

    /// Commits every sample of `data` in order.
    pub fn load(&mut self, data: &[i64])
        requires
            old(self).wf(),
            forall|i: int| 0 <= i < data@.len() ==> is_sample(#[trigger] data@[i] as int),
        ensures
            final(self).wf(),
            final(self)@ == old(self)@.close_all(data@.map_values(|v: i64| v as int)),
    {
        let ghost xs = data@.map_values(|v: i64| v as int);
        let mut i: usize = 0;
        while i < data.len()
            invariant
                0 <= i <= data@.len(),
                self.wf(),
                xs == data@.map_values(|v: i64| v as int),
                forall|j: int| 0 <= j < data@.len() ==> is_sample(#[trigger] data@[j] as int),
                self@ == old(self)@.close_all(xs.take(i as int)),
            decreases data@.len() - i,
        {
            proof {
                assert(xs.take(i + 1).drop_last() =~= xs.take(i as int));
                assert(xs.take(i + 1).last() == data@[i as int] as int);
            }
            self.update_after_close(data[i]);
            i = i + 1;
        }
        proof {
            assert(xs.take(i as int) =~= xs);
        }
    }

    /// The smoother has been seeded.
    pub fn is_ready(&self) -> (b: bool)
        requires
            self.wf(),
        ensures
            b == self@.ready(),
    {
        self.value.is_some()
    }

    /// The observable value.
    pub fn get_last(&self) -> (v: Option<i64>)
        requires
            self.wf(),
        ensures
            opt_int(v) == self@.observable,
            v matches Some(x) ==> is_sample(x as int),
    {
        self.value
    }

    /// The value the next finalized update starts from.
    pub fn committed(&self) -> (v: Option<i64>)
        requires
            self.wf(),
        ensures
            opt_int(v) == self@.committed,
            v matches Some(x) ==> is_sample(x as int),
    {
        self.prev_value
    }

    /// Back to the state right after construction.
    pub fn reset(&mut self)
        requires
            old(self).wf(),
        ensures
            final(self).wf(),
            final(self)@ == old(self)@.reset(),
    {
        self.buff.reset();
        self.prev_value = None;
        self.value = None;
    }

    /// Number of samples in the window.
    pub fn warmup_len(&self) -> (n: usize)
        requires
            self.wf(),
        ensures
            n == self@.window.samples.len(),
    {
        self.buff.len()
    }

    /// The denominator of the recurrence.
    pub fn divisor(&self) -> (d: u32)
        requires
            self.wf(),
            self@.denom <= u32::MAX,
        ensures
            d == self@.denom,
    {
        self.denom as u32
    }

    /// The length of the window.
    pub fn period(&self) -> (p: u32)
        requires
            self.wf(),
        ensures
            p == self@.window.capacity,
    {
        self.periods
    }
}

} // verus!
