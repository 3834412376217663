//! Average directional index: Wilder-smoothed true range and directional
//! movement give the directional index of each bar, and Wilder's smoothing
//! of that gives the average.
use vstd::prelude::*;
use crate::indicators::atr::{bar_true_range, calc_tr};
use crate::indicators::indicator::{Indicator, Value};
use crate::indicators::types::{all_in_range, Price};
use crate::primitives::exp_mean::{ExpMean, ExpMeanModel};
use crate::scalar::{
    abs, div_floor, is_price, is_sample, lemma_div_between, opt_int, EPSILON, HUNDRED,
    SAMPLE_LIMIT,
};

verus! {

/// Upward directional movement: the rise of the high, if it is positive and
/// exceeds the fall of the low; else zero.
pub open spec fn plus_dm(up_move: int, down_move: int) -> int {
    if up_move > down_move && up_move > 0 {
        up_move
    } else {
        0
    }
}

/// Downward directional movement: the fall of the low, if it is positive and
/// exceeds the rise of the high; else zero.
pub open spec fn minus_dm(up_move: int, down_move: int) -> int {
    if down_move > up_move && down_move > 0 {
        down_move
    } else {
        0
    }
}

/// Directional indicator: `100 * dm / tr`.
pub open spec fn di_value(dm: int, tr: int) -> int {
    (HUNDRED * dm) / tr
}

/// Directional index from smoothed directional movement and true range:
/// `100 * |+DI - -DI| / (+DI + -DI)`; zero when the true range is at or below
/// the smallest positive scalar, and when the two indicators sum to zero.
pub open spec fn dx_value(dm_pos: int, dm_neg: int, tr: int) -> int {
    if tr <= EPSILON {
        0
    } else {
        let di_pos = di_value(dm_pos, tr);
        let di_neg = di_value(dm_neg, tr);
        let sum = di_pos + di_neg;
        if sum > 0 {
            (HUNDRED * abs(di_pos - di_neg)) / sum
        } else {
            0
        }
    }
}

/// A directional index lies between 0 and 100, and a directional indicator
/// between zero and a hundred times the movement.
pub proof fn lemma_dx_value_bounds(dm_pos: int, dm_neg: int, tr: int)
    requires
        0 <= dm_pos,
        0 <= dm_neg,
    ensures
        0 <= dx_value(dm_pos, dm_neg, tr) <= HUNDRED,
        tr > EPSILON ==> 0 <= di_value(dm_pos, tr) <= HUNDRED * dm_pos && 0 <= di_value(dm_neg, tr)
            <= HUNDRED * dm_neg,
{
    if tr > EPSILON {
        assert(0 * tr <= HUNDRED * dm_pos <= (HUNDRED * dm_pos) * tr && 0 * tr <= HUNDRED * dm_neg
            <= (HUNDRED * dm_neg) * tr) by (nonlinear_arith)
            requires
                tr >= 1,
                0 <= dm_pos,
                0 <= dm_neg,
        ;
        lemma_div_between(HUNDRED * dm_pos, tr, 0, HUNDRED * dm_pos);
        lemma_div_between(HUNDRED * dm_neg, tr, 0, HUNDRED * dm_neg);
        let di_pos = di_value(dm_pos, tr);
        let di_neg = di_value(dm_neg, tr);
        let sum = di_pos + di_neg;
        if sum > 0 {
            let diff = abs(di_pos - di_neg);
            assert(0 * sum <= HUNDRED * diff <= HUNDRED * sum) by (nonlinear_arith)
                requires
                    0 <= diff <= sum,
            ;
            lemma_div_between(HUNDRED * diff, sum, 0, HUNDRED as int);
        }
    }
}

/// Directional index from smoothed directional movement and true range.
pub fn directional_index(dm_pos: i64, dm_neg: i64, tr: i64) -> (dx: i64)
    requires
        0 <= dm_pos,
        0 <= dm_neg,
    ensures
        dx == dx_value(dm_pos as int, dm_neg as int, tr as int),
        0 <= dx <= HUNDRED,
{
    proof {
        lemma_dx_value_bounds(dm_pos as int, dm_neg as int, tr as int);
        assert(HUNDRED * dm_pos <= HUNDRED * i64::MAX && HUNDRED * dm_neg <= HUNDRED * i64::MAX)
            by (nonlinear_arith)
            requires
                dm_pos <= i64::MAX,
                dm_neg <= i64::MAX,
        ;
    }
    if tr <= EPSILON {
        return 0;
    }
    let di_pos: i128 = div_floor((HUNDRED as i128) * (dm_pos as i128), tr as i128);
    let di_neg: i128 = div_floor((HUNDRED as i128) * (dm_neg as i128), tr as i128);
    let diff: i128 = if di_pos >= di_neg {
        di_pos - di_neg
    } else {
        di_neg - di_pos
    };
    let sum: i128 = di_pos + di_neg;
    if sum > 0 {
        assert(HUNDRED * diff <= HUNDRED * (HUNDRED * i64::MAX)) by (nonlinear_arith)
            requires
                0 <= diff <= HUNDRED * i64::MAX,
        ;
        div_floor((HUNDRED as i128) * diff, sum) as i64
    } else {
        0
    }
}

/// The smoothers behind the directional index, as mathematics.
pub struct AdxBufferModel {
    pub tr: ExpMeanModel,
    pub dm_pos: ExpMeanModel,
    pub dm_neg: ExpMeanModel,
    pub prev_high: Option<int>,
    pub prev_low: Option<int>,
    pub dx: Option<int>,
}

impl AdxBufferModel {
    /// The state right after construction.
    pub open spec fn init(di_length: nat) -> AdxBufferModel {
        AdxBufferModel {
            tr: ExpMeanModel::init(di_length, 1, di_length),
            dm_pos: ExpMeanModel::init(di_length, 1, di_length),
            dm_neg: ExpMeanModel::init(di_length, 1, di_length),
            prev_high: None,
            prev_low: None,
            dx: None,
        }
    }

    /// The length of the smoothers of true range and directional movement.
    pub open spec fn di_length(self) -> nat {
        self.tr.denom
    }

    /// `s` is a well-formed Wilder smoother over `n` samples.
    pub open spec fn wilder(s: ExpMeanModel, n: nat) -> bool {
        s.wf() && s.weight == 1 && s.denom == n && s.window.capacity == n
    }

    /// The state is one that the operations lead to.
    pub open spec fn wf(self) -> bool {
        &&& 0 < self.di_length() <= u32::MAX
        &&& Self::wilder(self.tr, self.di_length())
        &&& Self::wilder(self.dm_pos, self.di_length())
        &&& Self::wilder(self.dm_neg, self.di_length())
        &&& self.dm_pos.between(0, SAMPLE_LIMIT as int)
        &&& self.dm_neg.between(0, SAMPLE_LIMIT as int)
        &&& self.prev_high matches Some(h) ==> is_price(h)
        &&& self.prev_low matches Some(l) ==> is_price(l)
        &&& self.prev_high.is_some() == self.prev_low.is_some()
        &&& self.dx matches Some(d) ==> 0 <= d <= HUNDRED
        &&& self.dm_pos.window.samples.len() == self.dm_neg.window.samples.len()
        &&& self.tr.window.samples.len() == if self.prev_high is None {
            0
        } else if self.dm_pos.window.samples.len() < self.di_length() {
            self.dm_pos.window.samples.len() + 1
        } else {
            self.di_length()
        }
        &&& self.prev_high is None ==> self.dm_pos.window.samples.len() == 0
    }

    /// How many finalized updates are still lacking before there is a
    /// directional index: one for the first bar, which has no bar before it
    /// to move against, and one for each sample that the smoothers of the
    /// directional movement still lack.
    pub open spec fn remaining(self) -> nat {
        self.dm_pos.remaining() + if self.prev_high is None {
            1nat
        } else {
            0nat
        }
    }

    /// After a finalized update there is a directional index exactly when
    /// nothing is lacking: from bar `di_length + 1` on.
    pub proof fn lemma_index_exactly_when_filled(self, high: int, low: int, tr: int)
        requires
            self.wf(),
            is_price(high),
            is_price(low),
            is_sample(tr),
        ensures
            self.update_after_close(high, low, tr).remaining() == if self.remaining() > 0 {
                self.remaining() - 1
            } else {
                0
            },
            self.update_after_close(high, low, tr).dx.is_some() <==> self.remaining() <= 1,
            self.update_before_close(high, low, tr).remaining() == self.remaining(),
            self.update_before_close(high, low, tr).dx.is_some() <==> self.remaining() == 0,
            AdxBufferModel::init(self.di_length()).remaining() == self.di_length() + 1,
    {
        self.lemma_steps(high, low, tr);
    }

    /// The directional index of the observable smoothed values, once all
    /// three smoothers are seeded.
    pub open spec fn observed_dx(self) -> Option<int> {
        match (self.dm_pos.observable, self.dm_neg.observable, self.tr.observable) {
            (Some(p), Some(n), Some(t)) => Some(dx_value(p, n, t)),
            _ => None,
        }
    }

    /// Commits a bar: its true range, and from the second bar on its
    /// directional movement against the bar before it.
    pub open spec fn update_after_close(self, high: int, low: int, tr: int) -> AdxBufferModel {
        let s = match (self.prev_high, self.prev_low) {
            (Some(ph), Some(pl)) => AdxBufferModel {
                tr: self.tr.close(tr),
                dm_pos: self.dm_pos.close(plus_dm(high - ph, pl - low)),
                dm_neg: self.dm_neg.close(minus_dm(high - ph, pl - low)),
                ..self
            },
            _ => AdxBufferModel { tr: self.tr.close(tr), ..self },
        };
        AdxBufferModel { prev_high: Some(high), prev_low: Some(low), dx: s.observed_dx(), ..s }
    }

    /// Takes the forming bar: every seeded smoother reports its estimate
    /// from its committed value, and the index is that of the estimates.
    pub open spec fn update_before_close(self, high: int, low: int, tr: int) -> AdxBufferModel {
        let s = match (self.prev_high, self.prev_low) {
            (Some(ph), Some(pl)) => AdxBufferModel {
                tr: self.tr.provisional(tr),
                dm_pos: self.dm_pos.provisional(plus_dm(high - ph, pl - low)),
                dm_neg: self.dm_neg.provisional(minus_dm(high - ph, pl - low)),
                ..self
            },
            _ => AdxBufferModel { tr: self.tr.provisional(tr), ..self },
        };
        AdxBufferModel { dx: s.observed_dx(), ..s }
    }

    /// Updates keep a state well formed.
    pub proof fn lemma_steps(self, high: int, low: int, tr: int)
        requires
            self.wf(),
            is_price(high),
            is_price(low),
            is_sample(tr),
        ensures
            self.update_after_close(high, low, tr).wf(),
            self.update_before_close(high, low, tr).wf(),
    {
        self.tr.lemma_close_wf(tr);
        self.tr.lemma_provisional_wf(tr);
        if let (Some(ph), Some(pl)) = (self.prev_high, self.prev_low) {
            let p = plus_dm(high - ph, pl - low);
            let n = minus_dm(high - ph, pl - low);
            self.dm_pos.lemma_close_wf(p);
            self.dm_pos.lemma_provisional_wf(p);
            self.dm_pos.lemma_between(p, 0, SAMPLE_LIMIT as int);
            self.dm_neg.lemma_close_wf(n);
            self.dm_neg.lemma_provisional_wf(n);
            self.dm_neg.lemma_between(n, 0, SAMPLE_LIMIT as int);
        }
        let a = self.update_after_close(high, low, tr);
        if let (Some(p), Some(n)) = (a.dm_pos.observable, a.dm_neg.observable) {
            if let Some(t) = a.tr.observable {
                lemma_dx_value_bounds(p, n, t);
            }
        }
        let b = self.update_before_close(high, low, tr);
        if let (Some(p), Some(n)) = (b.dm_pos.observable, b.dm_neg.observable) {
            if let Some(t) = b.tr.observable {
                lemma_dx_value_bounds(p, n, t);
            }
        }
    }
}

/// What an average directional index holds, as mathematics.
pub struct AdxModel {
    pub buff: AdxBufferModel,
    pub adx: ExpMeanModel,
    pub prev_close: Option<int>,
}

impl AdxModel {
    /// The state right after construction.
    pub open spec fn init(periods: nat, di_length: nat) -> AdxModel {
        AdxModel {
            buff: AdxBufferModel::init(di_length),
            adx: ExpMeanModel::init(periods, 1, periods),
            prev_close: None,
        }
    }

    /// The state is one that the operations lead to.
    pub open spec fn wf(self) -> bool {
        &&& self.buff.wf()
        &&& 0 < self.adx.denom <= u32::MAX
        &&& AdxBufferModel::wilder(self.adx, self.adx.denom)
        &&& self.prev_close matches Some(c) ==> is_price(c)
        &&& self.prev_close.is_some() == self.buff.prev_high.is_some()
        &&& self.buff.remaining() > 0 ==> self.adx.window.samples.len() == 0
    }

    /// Commits `bar`: the smoothers take its true range and directional
    /// movement, and the average takes the directional index once there is
    /// one.
    pub open spec fn close(self, bar: Price) -> AdxModel {
        let buff = self.buff.update_after_close(
            bar.high as int,
            bar.low as int,
            bar_true_range(bar, self.prev_close),
        );
        AdxModel {
            buff,
            adx: match buff.dx {
                Some(dx) => self.adx.close(dx),
                None => self.adx.settle(),
            },
            prev_close: Some(bar.close as int),
        }
    }

    /// Estimates the average as if the forming bar closed as `bar`, from the
    /// committed state, which stays as it is. Ignored before the first bar
    /// has closed.
    pub open spec fn provisional(self, bar: Price) -> AdxModel {
        match self.prev_close {
            Some(pc) => {
                let buff = self.buff.update_before_close(
                    bar.high as int,
                    bar.low as int,
                    bar_true_range(bar, self.prev_close),
                );
                AdxModel {
                    buff,
                    adx: match buff.dx {
                        Some(dx) => self.adx.provisional(dx),
                        None => self.adx.settle(),
                    },
                    ..self
                }
            },
            None => self,
        }
    }

    /// The value reported.
    pub open spec fn last(self) -> Option<Value> {
        match self.adx.observable {
            Some(v) => Some(Value::AdxValue(v as i64)),
            None => None,
        }
    }

    /// Once the average is ready, a provisional update shows the directional
    /// index and the average that a finalized update with the same bar would
    /// commit.
    pub proof fn lemma_provisional_previews_the_commit(self, bar: Price)
        requires
            self.wf(),
            bar.in_range(),
            self.adx.ready(),
        ensures
            self.provisional(bar).buff.dx == self.close(bar).buff.dx,
            self.provisional(bar).last() == self.close(bar).last(),
    {
        self.lemma_ready_exactly_when_filled(bar);
    }

    /// How many finalized updates are still lacking: those before the
    /// first directional index, which is itself the first value in the window
    /// of the average, and one for each further value that the window lacks.
    pub open spec fn remaining(self) -> nat {
        if self.buff.remaining() > 0 {
            (self.buff.remaining() + self.adx.remaining() - 1) as nat
        } else {
            self.adx.remaining()
        }
    }

    /// The average is ready exactly when nothing is lacking, never earlier
    /// and never later: on the finalized update that brings bar number
    /// `di_length + periods`, which fills its window of directional indices.
    /// A provisional update supplies nothing.
    pub proof fn lemma_ready_exactly_when_filled(self, bar: Price)
        requires
            self.wf(),
            bar.in_range(),
        ensures
            self.adx.ready() <==> self.remaining() == 0,
            self.close(bar).remaining() == if self.remaining() > 0 {
                self.remaining() - 1
            } else {
                0
            },
            self.provisional(bar).remaining() == self.remaining(),
            self.reset().remaining() == self.buff.di_length() + self.adx.denom,
    {
        let tr = bar_true_range(bar, self.prev_close);
        self.buff.lemma_index_exactly_when_filled(bar.high as int, bar.low as int, tr);
        self.lemma_steps(bar);
    }

    /// The state right after construction, with the same parameters.
    pub open spec fn reset(self) -> AdxModel {
        AdxModel::init(self.adx.denom, self.buff.di_length())
    }

    /// Updates keep a state well formed.
    pub proof fn lemma_steps(self, bar: Price)
        requires
            self.wf(),
            bar.in_range(),
        ensures
            self.close(bar).wf(),
            self.provisional(bar).wf(),
            self.reset().wf(),
    {
        let tr = bar_true_range(bar, self.prev_close);
        self.buff.lemma_steps(bar.high as int, bar.low as int, tr);
        let a = self.buff.update_after_close(bar.high as int, bar.low as int, tr);
        if let Some(dx) = a.dx {
            self.adx.lemma_close_wf(dx);
        }
        let b = self.buff.update_before_close(bar.high as int, bar.low as int, tr);
        if let Some(dx) = b.dx {
            self.adx.lemma_provisional_wf(dx);
        }
    }
}

/// The smoothers behind the directional index.
#[derive(Clone, Debug)]
pub struct AdxBuffer {
    tr: ExpMean,
    dm_pos: ExpMean,
    dm_neg: ExpMean,
    prev_high: Option<i64>,
    prev_low: Option<i64>,
    dx: Option<i64>,
}

impl View for AdxBuffer {
    type V = AdxBufferModel;

    /// The mathematical state.
    closed spec fn view(&self) -> AdxBufferModel {
        AdxBufferModel {
            tr: self.tr@,
            dm_pos: self.dm_pos@,
            dm_neg: self.dm_neg@,
            prev_high: opt_int(self.prev_high),
            prev_low: opt_int(self.prev_low),
            dx: opt_int(self.dx),
        }
    }
}

impl AdxBuffer {
    /// Every part is well formed.
    spec fn parts_wf(&self) -> bool {
        &&& self.tr.wf()
        &&& self.dm_pos.wf()
        &&& self.dm_neg.wf()
    }

    /// The representation is consistent and stands for a well-formed state.
    pub closed spec fn wf(&self) -> bool {
        &&& self.parts_wf()
        &&& self@.wf()
    }

    /// A well-formed value stands for a well-formed state.
    pub proof fn lemma_wf(&self)
        requires
            self.wf(),
        ensures
            self@.wf(),
    {
    }

    /// Smoothers over `di_length` bars.
    pub fn new(di_length: u32) -> (b: AdxBuffer)
        requires
            di_length > 0,
        ensures
            b.wf(),
            b@ == AdxBufferModel::init(di_length as nat),
    {
        AdxBuffer {
            tr: ExpMean::wilder(di_length),
            dm_pos: ExpMean::wilder(di_length),
            dm_neg: ExpMean::wilder(di_length),
            prev_high: None,
            prev_low: None,
            dx: None,
        }
    }

    /// Commits a bar with true range `tr`.
    pub fn update_after_close(&mut self, high: i64, low: i64, tr: i64)
        requires
            old(self).wf(),
            is_price(high as int),
            is_price(low as int),
            is_sample(tr as int),
        ensures
            final(self).wf(),
            final(self)@ == old(self)@.update_after_close(high as int, low as int, tr as int),
    {
        proof {
            self@.lemma_steps(high as int, low as int, tr as int);
        }
        self.tr.update_after_close(tr);
        if let (Some(prev_high), Some(prev_low)) = (self.prev_high, self.prev_low) {
            let up_move: i64 = high - prev_high;
            let down_move: i64 = prev_low - low;
            let dm_pos: i64 = if up_move > down_move && up_move > 0 {
                up_move
            } else {
                0
            };
            let dm_neg: i64 = if down_move > up_move && down_move > 0 {
                down_move
            } else {
                0
            };
            self.dm_pos.update_after_close(dm_pos);
            self.dm_neg.update_after_close(dm_neg);
        }
        self.calc_dx();
        self.prev_high = Some(high);
        self.prev_low = Some(low);
    }

    /// Takes the forming bar with true range `tr`.
    pub fn update_before_close(&mut self, high: i64, low: i64, tr: i64)
        requires
            old(self).wf(),
            is_price(high as int),
            is_price(low as int),
            is_sample(tr as int),
        ensures
            final(self).wf(),
            final(self)@ == old(self)@.update_before_close(high as int, low as int, tr as int),
    {
        proof {
            self@.lemma_steps(high as int, low as int, tr as int);
        }
        self.tr.update_before_close(tr);
        if let (Some(prev_high), Some(prev_low)) = (self.prev_high, self.prev_low) {
            let up_move: i64 = high - prev_high;
            let down_move: i64 = prev_low - low;
            let dm_pos: i64 = if up_move > down_move && up_move > 0 {
                up_move
            } else {
                0
            };
            let dm_neg: i64 = if down_move > up_move && down_move > 0 {
                down_move
            } else {
                0
            };
            self.dm_pos.update_before_close(dm_pos);
            self.dm_neg.update_before_close(dm_neg);
        }
        self.calc_dx();
    }

    /// Sets the directional index to that of the observable smoothed values.
    fn calc_dx(&mut self)
        requires
            old(self).parts_wf(),
            old(self)@.dm_pos.between(0, SAMPLE_LIMIT as int),
            old(self)@.dm_neg.between(0, SAMPLE_LIMIT as int),
        ensures
            final(self).parts_wf(),
            final(self)@ == (AdxBufferModel { dx: old(self)@.observed_dx(), ..old(self)@ }),
    {
        self.dx = match (self.dm_pos.get_last(), self.dm_neg.get_last(), self.tr.get_last()) {
            (Some(p), Some(n), Some(t)) => Some(directional_index(p, n, t)),
            _ => None,
        };
    }

    /// The directional index of the latest bar.
    pub fn dx(&self) -> (d: Option<i64>)
        requires
            self.wf(),
        ensures
            opt_int(d) == self@.dx,
            d matches Some(v) ==> 0 <= v <= HUNDRED,
    {
        self.dx
    }

    /// Back to the state right after construction.
    pub fn reset(&mut self)
        requires
            old(self).wf(),
        ensures
            final(self).wf(),
            final(self)@ == AdxBufferModel::init(old(self)@.di_length()),
    {
        self.prev_high = None;
        self.prev_low = None;
        self.tr.reset();
        self.dm_pos.reset();
        self.dm_neg.reset();
        self.dx = None;
    }
}

/// Average directional index: Wilder's average over `periods` values of the
/// directional index, which is taken from smoothers of length `di_length`.
#[derive(Clone, Debug)]
pub struct Adx {
    buff: AdxBuffer,
    adx: ExpMean,
    prev_close: Option<i64>,
}

impl Adx {
    /// Every part is well formed.
    spec fn parts_wf(&self) -> bool {
        &&& self.buff.wf()
        &&& self.adx.wf()
    }

    /// An average over `periods` directional indices, taken from smoothers over
    /// `di_length` bars.
    pub fn new(periods: u32, di_length: u32) -> (a: Adx)
        requires
            periods > 0,
            di_length > 0,
        ensures
            a.wf(),
            a.model() == AdxModel::init(periods as nat, di_length as nat),
    {
        Adx { buff: AdxBuffer::new(di_length), adx: ExpMean::wilder(periods), prev_close: None }
    }

    /// Feeds the directional index of the latest bar, if there is one, to
    /// the average.
    fn calc_adx(&mut self, after: bool)
        requires
            old(self).parts_wf(),
        ensures
            final(self).parts_wf(),
            final(self).buff == old(self).buff,
            final(self).prev_close == old(self).prev_close,
            final(self).adx@ == match old(self).buff@.dx {
                Some(dx) => if after {
                    old(self).adx@.close(dx)
                } else {
                    old(self).adx@.provisional(dx)
                },
                None => old(self).adx@.settle(),
            },
    {
        match self.buff.dx() {
            Some(dx) => {
                if after {
                    self.adx.update_after_close(dx);
                } else {
                    self.adx.update_before_close(dx);
                }
            },
            None => {
                self.adx.settle();
            },
        }
    }

    /// The directional index of the latest bar.
    pub fn get_dx(&self) -> (d: Option<i64>)
        requires
            self.wf(),
        ensures
            opt_int(d) == self.model().buff.dx,
    {
        self.buff.dx()
    }

    /// The close of the last committed bar.
    pub fn prev_close(&self) -> (c: Option<i64>)
        requires
            self.wf(),
        ensures
            opt_int(c) == self.model().prev_close,
    {
        self.prev_close
    }

    /// The committed average: what the next finalized update starts from.
    pub fn prev_value(&self) -> (v: Option<i64>)
        requires
            self.wf(),
        ensures
            opt_int(v) == self.model().adx.committed,
    {
        self.adx.committed()
    }

    /// Number of directional indices gathered for the seed of the average.
    pub fn warmup_len(&self) -> (n: usize)
        requires
            self.wf(),
        ensures
            n == self.model().adx.window.samples.len(),
    {
        self.adx.warmup_len()
    }

    /// True range of `bar` against the last committed close.
    fn bar_tr(&self, bar: &Price) -> (tr: i64)
        requires
            self.wf(),
            bar.in_range(),
        ensures
            tr == bar_true_range(*bar, self.model().prev_close),
            is_sample(tr as int),
    {
        match self.prev_close {
            Some(pc) => calc_tr(bar.high, bar.low, pc),
            None => bar.high - bar.low,
        }
    }
}

impl Indicator for Adx {
    type Model = AdxModel;

    closed spec fn wf(&self) -> bool {
        &&& self.parts_wf()
        &&& self.model().wf()
    }

    closed spec fn model(&self) -> AdxModel {
        AdxModel { buff: self.buff@, adx: self.adx@, prev_close: opt_int(self.prev_close) }
    }

    open spec fn model_wf(m: AdxModel) -> bool {
        m.wf()
    }

    open spec fn model_reset(m: AdxModel) -> AdxModel {
        m.reset()
    }

    open spec fn model_close(m: AdxModel, bar: Price) -> AdxModel {
        m.close(bar)
    }

    open spec fn model_provisional(m: AdxModel, bar: Price) -> AdxModel {
        m.provisional(bar)
    }

    open spec fn model_ready(m: AdxModel) -> bool {
        m.adx.ready()
    }

    open spec fn model_last(m: AdxModel) -> Option<Value> {
        m.last()
    }

    open spec fn model_period(m: AdxModel) -> u32 {
        m.adx.denom as u32
    }

    proof fn lemma_model_wf(&self) {
    }

    proof fn lemma_model_steps(m: AdxModel, bar: Price) {
        m.lemma_steps(bar);
    }

    proof fn lemma_provisional_leaves_no_trace(m: AdxModel, a: Price, b: Price) {
    }

    proof fn lemma_ready_iff_value(m: AdxModel) {
    }

    proof fn lemma_replay_unfold(m: AdxModel, bars: Seq<Price>) {
    }

    proof fn lemma_reset_forgets(m: AdxModel, bar: Price) {
    }

    fn update_after_close(&mut self, last_price: Price) {
        proof {
            self.model().lemma_steps(last_price);
        }
        let tr: i64 = self.bar_tr(&last_price);
        self.buff.update_after_close(last_price.high, last_price.low, tr);
        self.prev_close = Some(last_price.close);
        self.calc_adx(true);
    }

    fn update_before_close(&mut self, last_price: Price) {
        proof {
            self.model().lemma_steps(last_price);
        }
        if self.prev_close.is_some() {
            let tr: i64 = self.bar_tr(&last_price);
            self.buff.update_before_close(last_price.high, last_price.low, tr);
            self.calc_adx(false);
        }
    }

    fn load(&mut self, price_data: &[Price]) {
        let mut i: usize = 0;
        while i < price_data.len()
            invariant
                0 <= i <= price_data@.len(),
                self.wf(),
                all_in_range(price_data@),
                self.model() == Self::replay(old(self).model(), price_data@.take(i as int)),
            decreases price_data@.len() - i,
        {
            proof {
                assert(price_data@.take(i + 1).drop_last() =~= price_data@.take(i as int));
            }
            self.update_after_close(price_data[i]);
            i = i + 1;
        }
        proof {
            assert(price_data@.take(i as int) =~= price_data@);
        }
    }

    fn is_ready(&self) -> (b: bool) {
        self.adx.is_ready()
    }

    fn get_last(&self) -> (v: Option<Value>) {
        match self.adx.get_last() {
            Some(val) => Some(Value::AdxValue(val)),
            None => None,
        }
    }

    fn reset(&mut self) {
        proof {
            self.buff.lemma_wf();
        }
        self.prev_close = None;
        self.adx.reset();
        self.buff.reset();
    }

    fn period(&self) -> (p: u32) {
        self.adx.period()
    }
}

/// Every bar of `bars` has its high, its low and its close at `level`.
pub open spec fn flat_at(bars: Seq<Price>, level: int) -> bool {
    forall|i: int|
        0 <= i < bars.len() ==> (#[trigger] bars[i]).high == level && bars[i].low == level
            && bars[i].close == level
}

/// On a flat series, where no bar has a range and the price never moves,
/// the true range and the directional movement are zero throughout, so from
/// a fresh state the directional index is zero at every step where there is
/// one, and so is the average.
pub proof fn lemma_flat_series_has_zero_dx(fresh: AdxModel, bars: Seq<Price>, level: int)
    requires
        fresh.wf(),
        fresh.reset() == fresh,
        all_in_range(bars),
        flat_at(bars, level),
    ensures
        Adx::replay(fresh, bars).wf(),
        Adx::replay(fresh, bars).buff.tr.between(0, 0),
        Adx::replay(fresh, bars).buff.dm_pos.between(0, 0),
        Adx::replay(fresh, bars).buff.dm_neg.between(0, 0),
        Adx::replay(fresh, bars).adx.between(0, 0),
        Adx::replay(fresh, bars).prev_close matches Some(c) ==> c == level,
        Adx::replay(fresh, bars).buff.prev_high matches Some(h) ==> h == level,
        Adx::replay(fresh, bars).buff.prev_low matches Some(l) ==> l == level,
        Adx::replay(fresh, bars).buff.dx matches Some(dx) ==> dx == 0,
        Adx::replay(fresh, bars).adx.observable matches Some(adx) ==> adx == 0,
    decreases bars.len(),
{
    Adx::lemma_replay_unfold(fresh, bars);
    if bars.len() > 0 {
        let before = bars.drop_last();
        let bar = bars.last();
        assert(bars[bars.len() - 1].in_range());
        assert forall|i: int| 0 <= i < before.len() implies (#[trigger] before[i]).high == level
            && before[i].low == level && before[i].close == level by {
            assert(before[i] == bars[i]);
        }
        lemma_flat_series_has_zero_dx(fresh, before, level);
        let m = Adx::replay(fresh, before);
        m.lemma_steps(bar);
        let tr = bar_true_range(bar, m.prev_close);
        assert(tr == 0);
        m.buff.tr.lemma_between(0, 0, 0);
        m.buff.dm_pos.lemma_between(0, 0, 0);
        m.buff.dm_neg.lemma_between(0, 0, 0);
        let buff = m.buff.update_after_close(bar.high as int, bar.low as int, tr);
        if let Some(dx) = buff.dx {
            m.adx.lemma_between(dx, 0, 0);
        }
    }
}

} // verus!
