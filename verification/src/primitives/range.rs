//! Range tracker: the least and the greatest of the last `capacity` samples,
//! kept up on every push and found again by a scan only when an extreme
//! leaves the window.
use vstd::prelude::*;
use crate::scalar::{div_floor, is_sample, lemma_div_between, opt_int, SCALE};
use crate::series::{all_samples, lemma_min_max, lemma_min_max_skip_first, seq_max, seq_min};
use crate::window::Window;

verus! {

/// Where `latest` stands between `lo` and `hi`, from `0` at `lo` to `1.0` at
/// `hi`; undefined when the range is empty.
pub open spec fn position_in(latest: int, lo: int, hi: int) -> Option<int> {
    if hi != lo {
        Some((SCALE * (latest - lo)) / (hi - lo))
    } else {
        None
    }
}

/// A position lies between `0` and `1.0`.
pub proof fn lemma_position_bounds(latest: int, lo: int, hi: int)
    requires
        lo <= latest <= hi,
    ensures
        position_in(latest, lo, hi) matches Some(k) ==> 0 <= k <= SCALE,
{
    if hi != lo {
        let num = SCALE * (latest - lo);
        let den = hi - lo;
        assert(0 * den <= num <= SCALE * den) by (nonlinear_arith)
            requires
                0 <= latest - lo <= den,
                num == SCALE * (latest - lo),
        ;
        lemma_div_between(num, den, 0, SCALE as int);
    }
}

/// What a range tracker holds, as mathematics.
///
/// `samples` are the committed samples, oldest first, and `open` the sample
/// of the forming bar, which stands in for the newest committed one in what
/// is observed.
pub struct RangeModel {
    pub capacity: nat,
    pub samples: Seq<int>,
    pub open: Option<int>,
}

impl RangeModel {
    /// The state right after construction.
    pub open spec fn init(capacity: nat) -> RangeModel {
        RangeModel { capacity, samples: Seq::empty(), open: None }
    }

    /// The state is one that the operations lead to.
    pub open spec fn wf(self) -> bool {
        &&& 0 < self.capacity <= u32::MAX
        &&& self.samples.len() <= self.capacity
        &&& all_samples(self.samples)
        &&& self.open matches Some(x) ==> self.full() && is_sample(x)
    }

    /// The window has filled.
    pub open spec fn full(self) -> bool {
        self.samples.len() == self.capacity
    }

    /// How many finalized updates the window still lacks.
    pub open spec fn remaining(self) -> nat {
        (self.capacity - self.samples.len()) as nat
    }

    /// Commits `x`: the oldest sample leaves a full window, `x` becomes the
    /// newest, and no sample is open any more.
    pub open spec fn close(self, x: int) -> RangeModel {
        RangeModel {
            samples: if self.full() {
                self.samples.skip(1).push(x)
            } else {
                self.samples.push(x)
            },
            open: None,
            ..self
        }
    }

    /// Takes `x` as the sample of the forming bar. Ignored until the window
    /// has filled.
    pub open spec fn provisional(self, x: int) -> RangeModel {
        if self.full() {
            RangeModel { open: Some(x), ..self }
        } else {
            self
        }
    }

    /// The window as it is observed: the committed samples, the newest one
    /// replaced by the open sample if there is one.
    pub open spec fn observed(self) -> Seq<int> {
        match self.open {
            Some(x) => self.samples.drop_last().push(x),
            None => self.samples,
        }
    }

    /// The least sample of the observed window.
    pub open spec fn lo(self) -> int {
        seq_min(self.observed())
    }

    /// The greatest sample of the observed window.
    pub open spec fn hi(self) -> int {
        seq_max(self.observed())
    }

    /// The newest sample of the observed window.
    pub open spec fn latest(self) -> int {
        self.observed().last()
    }

    /// Where the newest sample stands in the range of the observed window:
    /// undefined until the window has filled and while it has no range.
    pub open spec fn position(self) -> Option<int> {
        if self.full() {
            position_in(self.latest(), self.lo(), self.hi())
        } else {
            None
        }
    }

    /// The observed window of a well-formed state holds accepted samples,
    /// as many as are committed; its extremes are among them and bound the
    /// newest, so the position lies between `0` and `1.0`.
    pub proof fn lemma_observed(self)
        requires
            self.wf(),
        ensures
            all_samples(self.observed()),
            self.observed().len() == self.samples.len(),
            self.samples.len() > 0 ==> is_sample(self.lo()) && is_sample(self.hi()) && self.lo()
                <= self.latest() <= self.hi(),
            self.position() matches Some(k) ==> 0 <= k <= SCALE,
    {
        let w = self.observed();
        if w.len() > 0 {
            lemma_min_max(w);
            assert(w[w.len() - 1] == w.last());
            lemma_position_bounds(self.latest(), self.lo(), self.hi());
        }
    }

    /// The newest sample stands at `1.0` when it is the greatest of a window
    /// with a range, and at `0` when it is the least.
    pub proof fn lemma_position_at_the_extremes(self)
        requires
            self.wf(),
            self.full(),
            self.lo() != self.hi(),
        ensures
            self.latest() == self.hi() ==> self.position() == Some(SCALE as int),
            self.latest() == self.lo() ==> self.position() == Some(0int),
    {
        let den = self.hi() - self.lo();
        if self.latest() == self.hi() {
            assert(SCALE * den == SCALE * den + 0) by (nonlinear_arith);
            vstd::arithmetic::div_mod::lemma_fundamental_div_mod_converse(
                SCALE * den,
                den,
                SCALE as int,
                0,
            );
        }
    }

    /// Updates keep a state well formed.
    pub proof fn lemma_steps(self, x: int)
        requires
            self.wf(),
            is_sample(x),
        ensures
            self.close(x).wf(),
            self.provisional(x).wf(),
    {
    }

    /// The window is full exactly when it lacks nothing: each finalized
    /// update supplies one sample until then, and a provisional update none.
    pub proof fn lemma_full_exactly_when_filled(self, x: int)
        requires
            self.wf(),
        ensures
            self.full() <==> self.remaining() == 0,
            self.close(x).remaining() == if self.remaining() > 0 {
                self.remaining() - 1
            } else {
                0
            },
            self.provisional(x).remaining() == self.remaining(),
            RangeModel::init(self.capacity).remaining() == self.capacity,
    {
    }

    /// A provisional sample supersedes the one before it, and a commit
    /// forgets every provisional sample.
    pub proof fn lemma_provisional_leaves_no_trace(self, a: int, b: int)
        ensures
            self.provisional(a).provisional(b) == self.provisional(b),
            self.provisional(a).close(b) == self.close(b),
            self.provisional(a).samples == self.samples,
    {
    }
}

/// Rolling least and greatest over a window of `capacity` samples.
#[derive(Clone, Debug)]
pub struct RangeTracker {
    buffer: Window,
    current_min: i64,
    current_max: i64,
    open: Option<i64>,
    observed_min: i64,
    observed_max: i64,
}

impl View for RangeTracker {
    type V = RangeModel;

    /// The mathematical state.
    closed spec fn view(&self) -> RangeModel {
        RangeModel {
            capacity: self.buffer.spec_capacity(),
            samples: self.buffer@,
            open: opt_int(self.open),
        }
    }
}

impl RangeTracker {
    /// The committed extremes are those of the committed window, and the
    /// observed ones those of the observed window.
    pub closed spec fn wf(&self) -> bool {
        &&& self.buffer.wf()
        &&& self@.wf()
        &&& self.buffer@.len() > 0 ==> self.current_min == seq_min(self.buffer@)
            && self.current_max == seq_max(self.buffer@)
        &&& self.open is Some ==> self.observed_min == self@.lo() && self.observed_max
            == self@.hi()
    }

    /// A well-formed value stands for a well-formed state.
    pub proof fn lemma_wf(&self)
        requires
            self.wf(),
        ensures
            self@.wf(),
    {
    }

    /// A tracker over a window of `capacity` samples.
    pub fn new(capacity: u32) -> (r: RangeTracker)
        requires
            capacity > 0,
        ensures
            r.wf(),
            r@ == RangeModel::init(capacity as nat),
    {
        RangeTracker {
            buffer: Window::new(capacity as usize),
            current_min: 0,
            current_max: 0,
            open: None,
            observed_min: 0,
            observed_max: 0,
        }
    }

    /// The window length.
    pub fn capacity(&self) -> (n: u32)
        requires
            self.wf(),
        ensures
            n == self@.capacity,
    {
        self.buffer.capacity() as u32
    }

    /// The window has filled.
    pub fn is_full(&self) -> (b: bool)
        requires
            self.wf(),
        ensures
            b == self@.full(),
    {
        self.buffer.is_full()
    }

    /// Commits `x` as the sample of a bar that has closed. The extremes are
    /// found again by a scan only if the sample that leaves was one of them.
    pub fn update_after_close(&mut self, x: i64)
        requires
            old(self).wf(),
            is_sample(x as int),
        ensures
            final(self).wf(),
            final(self)@ == old(self)@.close(x as int),
    {
        if self.buffer.is_full() {
            let expired: i64 = self.buffer.pop_front().unwrap();
            proof {
                if old(self).buffer@.len() >= 2 {
                    lemma_min_max_skip_first(old(self).buffer@);
                }
            }
            if !self.buffer.is_empty() && (expired == self.current_min || expired
                == self.current_max) {
                self.recompute_min_max();
            }
        }
        if self.buffer.is_empty() {
            self.current_min = x;
            self.current_max = x;
        } else {
            if x < self.current_min {
                self.current_min = x;
            }
            if x > self.current_max {
                self.current_max = x;
            }
        }
        proof {
            assert(self.buffer@.push(x as int).drop_last() =~= self.buffer@);
        }
        self.buffer.push_back(x);
        self.open = None;
    }

    /// Takes `x` as the sample of the bar that is still forming. The
    /// committed window and its extremes are not touched: the extremes of
    /// the observed window are kept beside them. Ignored until the window
    /// has filled.
    pub fn update_before_close(&mut self, x: i64)
        requires
            old(self).wf(),
            is_sample(x as int),
        ensures
            final(self).wf(),
            final(self)@ == old(self)@.provisional(x as int),
    {
        if !self.buffer.is_full() {
            return ;
        }
        let n: usize = self.buffer.len();
        if n == 1 {
            self.observed_min = x;
            self.observed_max = x;
        } else {
            let last: i64 = self.buffer.back().unwrap();
            let (lo, hi): (i64, i64) = if last == self.current_min || last == self.current_max {
                self.scan_min_max(n - 1)
            } else {
                (self.current_min, self.current_max)
            };
            proof {
                assert(self.buffer@.take(n - 1) =~= self.buffer@.drop_last());
                assert(self.buffer@.drop_last().push(x as int).drop_last()
                    =~= self.buffer@.drop_last());
            }
            self.observed_min = if x < lo {
                x
            } else {
                lo
            };
            self.observed_max = if x > hi {
                x
            } else {
                hi
            };
        }
        self.open = Some(x);
    }

    /// Drops the provisional sample, if there is one.
    pub fn settle(&mut self)
        requires
            old(self).wf(),
        ensures
            final(self).wf(),
            final(self)@ == (RangeModel { open: None, ..old(self)@ }),
    {
        self.open = None;
    }

    /// The least sample of the observed window.
    pub fn min(&self) -> (lo: Option<i64>)
        requires
            self.wf(),
        ensures
            opt_int(lo) == if self@.samples.len() > 0 {
                Some(self@.lo())
            } else {
                None
            },
    {
        if self.buffer.is_empty() {
            None
        } else if self.open.is_some() {
            Some(self.observed_min)
        } else {
            Some(self.current_min)
        }
    }

    /// The greatest sample of the observed window.
    pub fn max(&self) -> (hi: Option<i64>)
        requires
            self.wf(),
        ensures
            opt_int(hi) == if self@.samples.len() > 0 {
                Some(self@.hi())
            } else {
                None
            },
    {
        if self.buffer.is_empty() {
            None
        } else if self.open.is_some() {
            Some(self.observed_max)
        } else {
            Some(self.current_max)
        }
    }

    /// The newest sample of the observed window.
    pub fn latest(&self) -> (x: Option<i64>)
        requires
            self.wf(),
        ensures
            opt_int(x) == if self@.samples.len() > 0 {
                Some(self@.latest())
            } else {
                None
            },
    {
        match self.open {
            Some(x) => Some(x),
            None => self.buffer.back(),
        }
    }

    /// Where the newest sample stands in the range of the observed window.
    pub fn position(&self) -> (k: Option<i64>)
        requires
            self.wf(),
        ensures
            opt_int(k) == self@.position(),
            k matches Some(v) ==> 0 <= v <= SCALE,
    {
        if !self.buffer.is_full() {
            return None;
        }
        proof {
            self@.lemma_observed();
        }
        let (lo, hi): (i64, i64) = if self.open.is_some() {
            (self.observed_min, self.observed_max)
        } else {
            (self.current_min, self.current_max)
        };
        let latest: i64 = match self.open {
            Some(x) => x,
            None => self.buffer.back().unwrap(),
        };
        if hi != lo {
            let raw: i128 = div_floor(
                (SCALE as i128) * (latest as i128 - lo as i128),
                hi as i128 - lo as i128,
            );
            Some(raw as i64)
        } else {
            None
        }
    }

    /// Back to the state right after construction.
    pub fn reset(&mut self)
        requires
            old(self).wf(),
        ensures
            final(self).wf(),
            final(self)@ == RangeModel::init(old(self)@.capacity),
    {
        self.buffer.clear();
        self.current_min = 0;
        self.current_max = 0;
        self.open = None;
    }

    /// Least and greatest of the `n` oldest committed samples.
    fn scan_min_max(&self, n: usize) -> (r: (i64, i64))
        requires
            self.buffer.wf(),
            0 < n <= self.buffer@.len(),
        ensures
            r.0 == seq_min(self.buffer@.take(n as int)),
            r.1 == seq_max(self.buffer@.take(n as int)),
    {
        let first: i64 = self.buffer.get(0);
        let mut lo: i64 = first;
        let mut hi: i64 = first;
        let mut i: usize = 1;
        proof {
            assert(self.buffer@.take(1)[0] == self.buffer@[0]);
        }
        while i < n
            invariant
                self.buffer.wf(),
                1 <= i <= n <= self.buffer@.len(),
                lo == seq_min(self.buffer@.take(i as int)),
                hi == seq_max(self.buffer@.take(i as int)),
            decreases n - i,
        {
            let val: i64 = self.buffer.get(i);
            proof {
                assert(self.buffer@.take(i + 1).drop_last() =~= self.buffer@.take(i as int));
                assert(self.buffer@.take(i + 1).last() == self.buffer@[i as int]);
            }
            if val < lo {
                lo = val;
            }
            if val > hi {
                hi = val;
            }
            i = i + 1;
        }
        (lo, hi)
    }

    /// Sets the committed extremes to those of the committed window, by a
    /// scan.
    fn recompute_min_max(&mut self)
        requires
            old(self).buffer.wf(),
            old(self).buffer@.len() > 0,
        ensures
            final(self).current_min == seq_min(old(self).buffer@),
            final(self).current_max == seq_max(old(self).buffer@),
            final(self).buffer == old(self).buffer,
            final(self).open == old(self).open,
            final(self).observed_min == old(self).observed_min,
            final(self).observed_max == old(self).observed_max,
    {
        let n: usize = self.buffer.len();
        let (lo, hi): (i64, i64) = self.scan_min_max(n);
        proof {
            assert(self.buffer@.take(n as int) =~= self.buffer@);
        }
        self.current_min = lo;
        self.current_max = hi;
    }
}

} // verus!
