//! Sliding-window aggregate: running sum and sum of squares over the last
//! `periods` samples, with a provisional sample that overlays the newest one.
use vstd::prelude::*;
use crate::scalar::{div_floor, is_sample, lemma_div_between, opt_int, SAMPLE_LIMIT};
use crate::series::{
    all_between, all_samples, lemma_sum_between, lemma_sum_bounds, lemma_sum_push,
    lemma_sum_skip_first, seq_sum, seq_sum_sq,
};
use crate::window::Window;

verus! {

/// What a sliding-window aggregate holds, as mathematics.
///
/// `samples` are the committed samples, oldest first. `open` is the sample of
/// the bar that is still forming, if one was given since the last commit: it
/// stands in for the newest committed sample in everything that is observed,
/// and is forgotten at the next commit.
pub struct MeanModel {
    pub capacity: nat,
    pub samples: Seq<int>,
    pub open: Option<int>,
}

impl MeanModel {
    /// The state right after construction.
    pub open spec fn init(capacity: nat) -> MeanModel {
        MeanModel { capacity, samples: Seq::empty(), open: None }
    }

    /// The state is one that the operations lead to.
    pub open spec fn wf(self) -> bool {
        &&& self.capacity > 0
        &&& self.samples.len() <= self.capacity
        &&& all_samples(self.samples)
        &&& self.open matches Some(x) ==> self.ready() && is_sample(x)
    }

    /// The window has filled.
    pub open spec fn ready(self) -> bool {
        self.samples.len() == self.capacity
    }

    /// Commits `x`: the oldest sample leaves a full window, `x` becomes the
    /// newest, and no sample is open any more.
    pub open spec fn close(self, x: int) -> MeanModel {
        MeanModel {
            capacity: self.capacity,
            samples: if self.ready() {
                self.samples.skip(1).push(x)
            } else {
                self.samples.push(x)
            },
            open: None,
        }
    }

    /// Takes `x` as the sample of the forming bar. Ignored until the window
    /// has filled.
    pub open spec fn provisional(self, x: int) -> MeanModel {
        if self.ready() {
            MeanModel { open: Some(x), ..self }
        } else {
            self
        }
    }

    /// Drops the sample of the forming bar.
    pub open spec fn settle(self) -> MeanModel {
        MeanModel { open: None, ..self }
    }

    /// The window as it is observed: the committed samples, the newest one
    /// replaced by the open sample if there is one.
    pub open spec fn observed(self) -> Seq<int> {
        match self.open {
            Some(x) => self.samples.drop_last().push(x),
            None => self.samples,
        }
    }

    /// Sum of the observed window.
    pub open spec fn sum(self) -> int {
        seq_sum(self.observed())
    }

    /// Sum of the squares of the observed window.
    pub open spec fn sum_sq(self) -> int {
        seq_sum_sq(self.observed())
    }

    /// The mean of the observed window, once it has filled.
    pub open spec fn mean(self) -> Option<int> {
        if self.ready() {
            Some(self.sum() / (self.capacity as int))
        } else {
            None
        }
    }

    /// Commits every sample of `xs` in order.
    pub open spec fn close_all(self, xs: Seq<int>) -> MeanModel
        decreases xs.len(),
    {
        if xs.len() == 0 {
            self
        } else {
            self.close_all(xs.drop_last()).close(xs.last())
        }
    }

    /// How many finalized updates the window still lacks.
    pub open spec fn remaining(self) -> nat {
        (self.capacity - self.samples.len()) as nat
    }

    /// The window is ready exactly when it lacks nothing, never earlier and
    /// never later: a fresh window lacks as many finalized updates as it
    /// holds samples, each finalized update supplies one, and a provisional
    /// update supplies none.
    pub proof fn lemma_ready_exactly_when_filled(self, x: int)
        requires
            self.wf(),
        ensures
            self.ready() <==> self.remaining() == 0,
            self.close(x).remaining() == if self.remaining() > 0 {
                self.remaining() - 1
            } else {
                0
            },
            self.provisional(x).remaining() == self.remaining(),
            MeanModel::init(self.capacity).remaining() == self.capacity,
    {
    }

    /// The latest `capacity` elements of `xs`, or all of them if there are
    /// fewer.
    pub open spec fn latest(capacity: nat, xs: Seq<int>) -> Seq<int> {
        if xs.len() <= capacity {
            xs
        } else {
            xs.skip(xs.len() - capacity)
        }
    }

    /// After any sequence of commits from the state right after
    /// construction, the window holds the latest `capacity` of the committed
    /// samples, in their order, and nothing else.
    pub proof fn lemma_window_is_the_latest_samples(capacity: nat, xs: Seq<int>)
        requires
            capacity > 0,
        ensures
            MeanModel::init(capacity).close_all(xs).capacity == capacity,
            MeanModel::init(capacity).close_all(xs).open is None,
            MeanModel::init(capacity).close_all(xs).samples == Self::latest(capacity, xs),
        decreases xs.len(),
    {
        if xs.len() > 0 {
            let before = xs.drop_last();
            Self::lemma_window_is_the_latest_samples(capacity, before);
            let m = MeanModel::init(capacity).close_all(before);
            assert(m.close(xs.last()).samples =~= Self::latest(capacity, xs));
        }
    }

    /// A provisional sample supersedes the one before it, and a commit
    /// forgets every provisional sample: neither the window nor anything
    /// observed after the commit depends on them.
    pub proof fn lemma_provisional_leaves_no_trace(self, a: int, b: int)
        ensures
            self.provisional(a).provisional(b) == self.provisional(b),
            self.provisional(a).close(b) == self.close(b),
            self.provisional(a).samples == self.samples,
    {
    }

    /// The running sums are those of a literal sum over the observed
    /// window, so the mean is the exact quotient rounded down.
    pub proof fn lemma_mean_is_exact(self)
        requires
            self.wf(),
            self.ready(),
        ensures
            self.mean() matches Some(m) && m * self.capacity <= seq_sum(self.observed()) < (m + 1)
                * self.capacity,
    {
        let n = self.capacity as int;
        let s = seq_sum(self.observed());
        vstd::arithmetic::div_mod::lemma_fundamental_div_mod(s, n);
        vstd::arithmetic::div_mod::lemma_mod_bound(s, n);
        let m = s / n;
        assert(m * n <= s < (m + 1) * n) by (nonlinear_arith)
            requires
                s == n * m + s % n,
                0 <= s % n < n,
        ;
    }

    /// The mean of a window lies between any two bounds of its samples.
    pub proof fn lemma_mean_between(self, lo: int, hi: int)
        requires
            self.capacity > 0,
            all_between(self.observed(), lo, hi),
            self.observed().len() == self.capacity,
        ensures
            self.mean() matches Some(m) ==> lo <= m <= hi,
    {
        lemma_sum_between(self.observed(), lo, hi);
        let n = self.capacity as int;
        assert(lo * n == n * lo && hi * n == n * hi) by (nonlinear_arith);
        lemma_div_between(self.sum(), n, lo, hi);
    }

    /// A commit keeps a state well formed.
    pub proof fn lemma_close_wf(self, x: int)
        requires
            self.wf(),
            is_sample(x),
        ensures
            self.close(x).wf(),
    {
    }

    /// The observed window of a well-formed state holds accepted samples
    /// only, as many as are committed; so its sums are bounded and the mean is
    /// an accepted sample.
    pub proof fn lemma_observed(self)
        requires
            self.wf(),
        ensures
            all_samples(self.observed()),
            self.observed().len() == self.samples.len(),
            -self.samples.len() * SAMPLE_LIMIT <= self.sum() <= self.samples.len() * SAMPLE_LIMIT,
            0 <= self.sum_sq() <= self.samples.len() * (SAMPLE_LIMIT * SAMPLE_LIMIT),
            self.mean() matches Some(m) ==> is_sample(m),
    {
        lemma_sum_bounds(self.observed());
        if self.ready() {
            let n = self.capacity as int;
            assert(-SAMPLE_LIMIT * n == -n * SAMPLE_LIMIT && SAMPLE_LIMIT * n == n * SAMPLE_LIMIT)
                by (nonlinear_arith);
            lemma_div_between(self.sum(), n, -SAMPLE_LIMIT as int, SAMPLE_LIMIT as int);
        }
    }
}

/// Running mean over a window of `periods` samples.
#[derive(Clone, Debug)]
pub struct Mean {
    periods: u32,
    buff: Window,
    sum: i128,
    sum_sq: i128,
    open: Option<i64>,
}

impl View for Mean {
    type V = MeanModel;

    /// The mathematical state.
    closed spec fn view(&self) -> MeanModel {
        MeanModel { capacity: self.periods as nat, samples: self.buff@, open: opt_int(self.open) }
    }
}

impl Mean {
    /// The running sums agree with the committed window, and the model is
    /// well formed.
    pub closed spec fn wf(&self) -> bool {
        &&& self.buff.wf()
        &&& self.buff.spec_capacity() == self.periods
        &&& self@.wf()
        &&& self.sum == seq_sum(self.buff@)
        &&& self.sum_sq == seq_sum_sq(self.buff@)
    }

    /// A well-formed value stands for a well-formed state.
    pub proof fn lemma_wf(&self)
        requires
            self.wf(),
        ensures
            self@.wf(),
            self@.capacity <= u32::MAX,
    {
    }

    /// An aggregate over a window of `periods` samples.
    pub fn new(periods: u32) -> (m: Mean)
        requires
            periods > 0,
        ensures
            m.wf(),
            m@ == MeanModel::init(periods as nat),
    {
        Mean { periods, buff: Window::new(periods as usize), sum: 0, sum_sq: 0, open: None }
    }

    /// The running sums fit in 128 bits.
    proof fn lemma_sum_fits(&self)
        requires
            self.wf(),
        ensures
            -0x1_0000_0000 * SAMPLE_LIMIT <= self.sum <= 0x1_0000_0000 * SAMPLE_LIMIT,
            0 <= self.sum_sq <= 0x1_0000_0000 * (SAMPLE_LIMIT * SAMPLE_LIMIT),
    {
        lemma_sum_bounds(self.buff@);
        let n = self.buff@.len() as int;
        assert(n * SAMPLE_LIMIT <= 0x1_0000_0000 * SAMPLE_LIMIT) by (nonlinear_arith)
            requires
                0 <= n <= 0x1_0000_0000,
        ;
        assert(n * (SAMPLE_LIMIT * SAMPLE_LIMIT) <= 0x1_0000_0000 * (SAMPLE_LIMIT * SAMPLE_LIMIT))
            by (nonlinear_arith)
            requires
                0 <= n <= 0x1_0000_0000,
        ;
    }

    /// Sum of the observed window.
    pub fn sum(&self) -> (s: i128)
        requires
            self.wf(),
        ensures
            s == self@.sum(),
    {
        proof {
            self.lemma_sum_fits();
        }
        match self.open {
            Some(x) => {
                let last: i64 = self.buff.back().unwrap();
                proof {
                    lemma_sum_push(self.buff@.drop_last(), x as int);
                }
                self.sum - (last as i128) + (x as i128)
            },
            None => self.sum,
        }
    }

    /// Sum of the squares of the observed window.
    pub fn sum_sq(&self) -> (s: i128)
        requires
            self.wf(),
        ensures
            s == self@.sum_sq(),
    {
        proof {
            self.lemma_sum_fits();
        }
        match self.open {
            Some(x) => {
                let last: i64 = self.buff.back().unwrap();
                proof {
                    lemma_sum_push(self.buff@.drop_last(), x as int);
                    lemma_square_fits(last as int);
                    lemma_square_fits(x as int);
                }
                self.sum_sq - (last as i128) * (last as i128) + (x as i128) * (x as i128)
            },
            None => self.sum_sq,
        }
    }

    /// Number of committed samples.
    pub fn len(&self) -> (n: usize)
        requires
            self.wf(),
        ensures
            n == self@.samples.len(),
    {
        self.buff.len()
    }

    /// Commits `x` as the sample of a bar that has closed.
    pub fn update_after_close(&mut self, x: i64)
        requires
            old(self).wf(),
            is_sample(x as int),
        ensures
            final(self).wf(),
            final(self)@ == old(self)@.close(x as int),
    {
        proof {
            self.lemma_sum_fits();
            lemma_square_fits(x as int);
        }
        if self.buff.is_full() {
            let expired: i64 = self.buff.pop_front().unwrap();
            proof {
                lemma_sum_skip_first(old(self).buff@);
                lemma_square_fits(expired as int);
            }
            self.sum = self.sum - (expired as i128);
            self.sum_sq = self.sum_sq - (expired as i128) * (expired as i128);
        }
        proof {
            lemma_sum_push(self.buff@, x as int);
            lemma_sum_bounds(self.buff@);
            let n = self.buff@.len() as int;
            assert(n * SAMPLE_LIMIT <= 0x1_0000_0000 * SAMPLE_LIMIT) by (nonlinear_arith)
                requires
                    0 <= n <= 0x1_0000_0000,
            ;
            assert(n * (SAMPLE_LIMIT * SAMPLE_LIMIT) <= 0x1_0000_0000 * (SAMPLE_LIMIT
                * SAMPLE_LIMIT)) by (nonlinear_arith)
                requires
                    0 <= n <= 0x1_0000_0000,
            ;
        }
        self.buff.push_back(x);
        self.sum = self.sum + (x as i128);
        self.sum_sq = self.sum_sq + (x as i128) * (x as i128);
        self.open = None;
    }

    /// Takes `x` as the sample of the bar that is still forming. It replaces
    /// an earlier provisional sample; the committed window is not touched.
    /// Ignored until the window has filled.
    pub fn update_before_close(&mut self, x: i64)
        requires
            old(self).wf(),
            is_sample(x as int),
        ensures
            final(self).wf(),
            final(self)@ == old(self)@.provisional(x as int),
    {
        if self.buff.is_full() {
            self.open = Some(x);
        }
    }

    /// Drops the provisional sample, if there is one.
    pub fn settle(&mut self)
        requires
            old(self).wf(),
        ensures
            final(self).wf(),
            final(self)@ == old(self)@.settle(),
    {
        self.open = None;
    }

    /// Commits every sample of `data` in order.
    pub fn load(&mut self, data: &[i64])
        requires
            old(self).wf(),
            forall|i: int| 0 <= i < data@.len() ==> is_sample(#[trigger] data@[i] as int),
        ensures
            final(self).wf(),
            final(self)@ == old(self)@.close_all(data@.map_values(|v: i64| v as int)),
            final(self)@.capacity == old(self)@.capacity,
    {
        let ghost xs = data@.map_values(|v: i64| v as int);
        let mut i: usize = 0;
        while i < data.len()
            invariant
                0 <= i <= data@.len(),
                self.wf(),
                self@.capacity == old(self)@.capacity,
                xs == data@.map_values(|v: i64| v as int),
                forall|j: int| 0 <= j < data@.len() ==> is_sample(#[trigger] data@[j] as int),
                self@ == old(self)@.close_all(xs.take(i as int)),
            decreases data@.len() - i,
        {
            proof {
                assert(xs.take(i + 1).drop_last() =~= xs.take(i as int));
                assert(xs.take(i + 1).last() == data@[i as int] as int);
            }
            self.update_after_close(data[i]);
            i = i + 1;
        }
        proof {
            assert(xs.take(i as int) =~= xs);
        }
    }

    /// The window has filled.
    pub fn is_ready(&self) -> (b: bool)
        requires
            self.wf(),
        ensures
            b == self@.ready(),
    {
        self.buff.is_full()
    }

    /// The mean of the observed window, once it has filled.
    pub fn get_last(&self) -> (v: Option<i64>)
        requires
            self.wf(),
        ensures
            opt_int(v) == self@.mean(),
    {
        if self.buff.is_full() {
            let s: i128 = self.sum();
            proof {
                self@.lemma_observed();
            }
            let m: i128 = div_floor(s, self.periods as i128);
            Some(m as i64)
        } else {
            None
        }
    }

    /// Back to the state right after construction.
    pub fn reset(&mut self)
        requires
            old(self).wf(),
        ensures
            final(self).wf(),
            final(self)@ == MeanModel::init(old(self)@.capacity),
    {
        self.buff.clear();
        self.sum = 0;
        self.sum_sq = 0;
        self.open = None;
    }

    /// The window length.
    pub fn period(&self) -> (p: u32)
        requires
            self.wf(),
        ensures
            p == self@.capacity,
    {
        self.periods
    }
}

/// The square of a sample is bounded by the square of the limit.
proof fn lemma_square_fits(x: int)
    requires
        is_sample(x),
    ensures
        0 <= x * x <= SAMPLE_LIMIT * SAMPLE_LIMIT,
{
    assert(0 <= x * x <= SAMPLE_LIMIT * SAMPLE_LIMIT) by (nonlinear_arith)
        requires
            -SAMPLE_LIMIT <= x <= SAMPLE_LIMIT,
    ;
}

} // verus!
