//! Relative strength index: Wilder-smoothed average gain against average
//! loss of the close, with a moving average and a stochastic oscillator fed
//! from it.
use vstd::prelude::*;
use crate::indicators::indicator::{Indicator, Value};
use crate::indicators::stoch_rsi::{StochModel, StochRsi};
use crate::indicators::types::{all_in_range, Price};
use crate::primitives::exp_mean::{ExpMean, ExpMeanModel};
use crate::primitives::mean::{Mean, MeanModel};
use crate::scalar::{
    div_floor, is_price, is_sample, lemma_div_between, max2, opt_int, HUNDRED, SAMPLE_LIMIT,
};

verus! {

/// The gain in a change of price: the change if it is a rise, else zero.
pub open spec fn gain_of(change: int) -> int {
    max2(change, 0)
}

/// The loss in a change of price: its size if it is a fall, else zero.
pub open spec fn loss_of(change: int) -> int {
    max2(-change, 0)
}

/// `100 - 100 / (1 + avg_gain / avg_loss)`, which is
/// `100 - 100 * avg_loss / (avg_gain + avg_loss)`, rounded once; and `100`
/// when the average loss is exactly zero.
pub open spec fn rsi_value(avg_gain: int, avg_loss: int) -> int {
    if avg_loss == 0 {
        HUNDRED as int
    } else {
        HUNDRED - (HUNDRED * avg_loss) / (avg_gain + avg_loss)
    }
}

/// An index from averages that are not negative lies between 0 and 100.
pub proof fn lemma_rsi_value_bounds(avg_gain: int, avg_loss: int)
    requires
        0 <= avg_gain,
        0 <= avg_loss,
    ensures
        0 <= rsi_value(avg_gain, avg_loss) <= HUNDRED,
{
    if avg_loss != 0 {
        let den = avg_gain + avg_loss;
        let num = HUNDRED * avg_loss;
        assert(0 * den <= num <= HUNDRED * den) by (nonlinear_arith)
            requires
                0 <= avg_gain,
                0 < avg_loss,
                den == avg_gain + avg_loss,
                num == HUNDRED * avg_loss,
        ;
        lemma_div_between(num, den, 0, HUNDRED as int);
    }
}

/// The changes of price behind the index, as mathematics: a smoother over
/// the gains and one over the losses, fed in step. Each keeps the window of
/// the latest `periods - 1` gains or losses with its running sum, and the
/// average that Wilder's recurrence carries on from the mean of the first
/// full window.
pub struct RsiBufferModel {
    pub gain: ExpMeanModel,
    pub loss: ExpMeanModel,
}

impl RsiBufferModel {
    /// The state right after construction: the averages are seeded by the
    /// means of the first `periods - 1` changes and then smoothed with
    /// divisor `periods`.
    pub open spec fn init(periods: nat) -> RsiBufferModel {
        RsiBufferModel {
            gain: ExpMeanModel::init((periods - 1) as nat, 1, periods),
            loss: ExpMeanModel::init((periods - 1) as nat, 1, periods),
        }
    }

    /// The state is one that the operations lead to.
    pub open spec fn wf(self) -> bool {
        &&& self.gain.wf()
        &&& self.loss.wf()
        &&& self.gain.weight == 1
        &&& self.loss.weight == 1
        &&& 1 < self.gain.denom <= u32::MAX
        &&& self.loss.denom == self.gain.denom
        &&& self.gain.window.capacity == self.gain.denom - 1
        &&& self.loss.window.capacity == self.gain.denom - 1
        &&& self.gain.window.samples.len() == self.loss.window.samples.len()
        &&& self.gain.between(0, SAMPLE_LIMIT as int)
        &&& self.loss.between(0, SAMPLE_LIMIT as int)
    }

    /// Commits a change of price.
    pub open spec fn push(self, change: int) -> RsiBufferModel {
        RsiBufferModel {
            gain: self.gain.close(gain_of(change)),
            loss: self.loss.close(loss_of(change)),
        }
    }

    /// Takes the change of the forming bar: the observable averages become
    /// the estimates from the committed ones.
    pub open spec fn push_before_close(self, change: int) -> RsiBufferModel {
        RsiBufferModel {
            gain: self.gain.provisional(gain_of(change)),
            loss: self.loss.provisional(loss_of(change)),
        }
    }

    /// The averages have been seeded.
    pub open spec fn full(self) -> bool {
        self.gain.ready()
    }

    /// The index from the observable averages.
    pub open spec fn rsi(self) -> Option<int> {
        match (self.gain.observable, self.loss.observable) {
            (Some(g), Some(l)) => Some(rsi_value(g, l)),
            _ => None,
        }
    }

    /// Updates keep a state well formed.
    pub proof fn lemma_steps(self, change: int)
        requires
            self.wf(),
            is_sample(change),
        ensures
            self.push(change).wf(),
            self.push_before_close(change).wf(),
            self.rsi() matches Some(r) ==> 0 <= r <= HUNDRED,
            self.rsi().is_some() == self.full(),
    {
        self.gain.lemma_close_wf(gain_of(change));
        self.loss.lemma_close_wf(loss_of(change));
        self.gain.lemma_provisional_wf(gain_of(change));
        self.loss.lemma_provisional_wf(loss_of(change));
        self.gain.lemma_between(gain_of(change), 0, SAMPLE_LIMIT as int);
        self.loss.lemma_between(loss_of(change), 0, SAMPLE_LIMIT as int);
        if let (Some(g), Some(l)) = (self.gain.observable, self.loss.observable) {
            lemma_rsi_value_bounds(g, l);
        }
    }
}

/// What a relative strength index holds, as mathematics.
pub struct RsiModel {
    pub buff: RsiBufferModel,
    pub last_price: Option<int>,
    pub value: Option<int>,
    pub sma: Option<MeanModel>,
    pub stoch: StochModel,
}

impl RsiModel {
    /// The state right after construction.
    pub open spec fn init(
        periods: nat,
        stoch_length: nat,
        k_smoothing: nat,
        d_smoothing: nat,
        smoothing_length: Option<nat>,
    ) -> RsiModel {
        RsiModel {
            buff: RsiBufferModel::init(periods),
            last_price: None,
            value: None,
            sma: match smoothing_length {
                Some(n) => Some(MeanModel::init(n)),
                None => None,
            },
            stoch: StochModel::init(stoch_length, k_smoothing, d_smoothing),
        }
    }

    /// The number of bars the indicator is taken over.
    pub open spec fn periods(self) -> nat {
        self.buff.gain.denom
    }

    /// The state is one that the operations lead to.
    pub open spec fn wf(self) -> bool {
        &&& self.buff.wf()
        &&& self.last_price matches Some(p) ==> is_price(p)
        &&& self.value matches Some(v) ==> 0 <= v <= HUNDRED
        &&& self.value.is_some() == self.buff.full()
        &&& self.buff.full() ==> self.last_price.is_some()
        &&& self.sma matches Some(m) ==> m.wf() && 1 < m.capacity <= u32::MAX && (self.value is None
            ==> m.samples.len() == 0)
        &&& self.stoch.wf()
    }

    /// Hands the index of the observable averages, once there is one, to the
    /// value and to both consumers: committing when `after`, provisionally
    /// otherwise.
    pub open spec fn propagate(self, after: bool) -> RsiModel {
        match self.buff.rsi() {
            Some(r) => RsiModel {
                value: Some(r),
                sma: match self.sma {
                    Some(m) => Some(
                        if after {
                            m.close(r)
                        } else {
                            m.provisional(r)
                        },
                    ),
                    None => None,
                },
                stoch: if after {
                    self.stoch.close(r)
                } else {
                    self.stoch.provisional(r)
                },
                ..self
            },
            None => self,
        }
    }

    /// Commits `bar`. The first bar of a series only gives the price that
    /// the first change is taken from.
    pub open spec fn close(self, bar: Price) -> RsiModel {
        match self.last_price {
            Some(prev) => RsiModel {
                buff: self.buff.push(bar.close - prev),
                last_price: Some(bar.close as int),
                ..self
            }.propagate(true),
            None => RsiModel { last_price: Some(bar.close as int), ..self },
        }
    }

    /// Estimates the index as if the forming bar closed as `bar`, from the
    /// committed averages and the last committed close. Ignored before the
    /// first bar has closed.
    pub open spec fn provisional(self, bar: Price) -> RsiModel {
        match self.last_price {
            Some(prev) => RsiModel {
                buff: self.buff.push_before_close(bar.close - prev),
                ..self
            }.propagate(false),
            None => self,
        }
    }

    /// The value reported.
    pub open spec fn last(self) -> Option<Value> {
        match self.value {
            Some(v) => Some(Value::RsiValue(v as i64)),
            None => None,
        }
    }

    /// The moving average over the index, once its window has filled.
    pub open spec fn sma_rsi(self) -> Option<int> {
        match self.sma {
            Some(m) => m.mean(),
            None => None,
        }
    }

    /// The moving average over the index has filled its window.
    pub open spec fn sma_ready(self) -> bool {
        match self.sma {
            Some(m) => m.ready(),
            None => false,
        }
    }

    /// The state right after construction, with the same parameters.
    pub open spec fn reset(self) -> RsiModel {
        RsiModel {
            buff: RsiBufferModel::init(self.periods()),
            last_price: None,
            value: None,
            sma: match self.sma {
                Some(m) => Some(MeanModel::init(m.capacity)),
                None => None,
            },
            stoch: self.stoch.reset(),
        }
    }

    /// Once there is an index, a provisional update shows the index that a
    /// finalized update with the same bar would commit.
    pub proof fn lemma_provisional_previews_the_commit(self, bar: Price)
        requires
            self.wf(),
            bar.in_range(),
            self.value.is_some(),
        ensures
            self.provisional(bar).last() == self.close(bar).last(),
    {
    }

    /// How many finalized updates are still lacking: one for the first
    /// close, and one for each change that the warm-up window still lacks.
    pub open spec fn remaining(self) -> nat {
        self.buff.gain.remaining() + if self.last_price is None {
            1nat
        } else {
            0nat
        }
    }

    /// The index is ready exactly when nothing is lacking: on the finalized
    /// update that brings the `periods`-th bar, never earlier and never
    /// later.
    pub proof fn lemma_ready_exactly_when_filled(self, bar: Price)
        requires
            self.wf(),
            bar.in_range(),
        ensures
            self.value.is_some() <==> self.remaining() == 0,
            self.close(bar).remaining() == if self.remaining() > 0 {
                self.remaining() - 1
            } else {
                0
            },
            self.provisional(bar).remaining() == self.remaining(),
            self.reset().remaining() == self.periods(),
    {
    }

    /// How many finalized updates the moving average over the index still
    /// lacks: those before the first index, which is itself the first value
    /// in the window of the average, and one for each further value that the
    /// window lacks.
    pub open spec fn sma_remaining(self) -> nat {
        match self.sma {
            Some(m) => if self.remaining() > 0 {
                (self.remaining() + m.remaining() - 1) as nat
            } else {
                m.remaining()
            },
            None => 0,
        }
    }

    /// The moving average over the index is ready exactly when it lacks
    /// nothing: on the finalized update that brings bar number
    /// `periods + smoothing_length - 1`.
    pub proof fn lemma_sma_ready_exactly_when_filled(self, bar: Price)
        requires
            self.wf(),
            bar.in_range(),
            self.sma.is_some(),
        ensures
            self.sma_ready() <==> self.sma_remaining() == 0,
            self.close(bar).sma_remaining() == if self.sma_remaining() > 0 {
                self.sma_remaining() - 1
            } else {
                0
            },
            self.provisional(bar).sma_remaining() == self.sma_remaining(),
            self.reset().sma_remaining() == self.periods() + self.sma->0.capacity - 1,
    {
        self.lemma_ready_exactly_when_filled(bar);
        self.lemma_steps(bar);
    }

    /// Handing the index on keeps a state well formed.
    pub proof fn lemma_propagate_wf(self, after: bool)
        requires
            self.buff.wf(),
            self.last_price matches Some(p) ==> is_price(p),
            self.value matches Some(v) ==> 0 <= v <= HUNDRED,
            self.value.is_some() ==> self.buff.full(),
            self.buff.full() ==> self.last_price.is_some(),
            self.sma matches Some(m) ==> m.wf() && 1 < m.capacity <= u32::MAX && (self.value is None
                ==> m.samples.len() == 0),
            self.stoch.wf(),
        ensures
            self.propagate(after).wf(),
    {
        self.buff.lemma_steps(0);
        if let Some(r) = self.buff.rsi() {
            self.stoch.lemma_close_wf(r);
            self.stoch.lemma_provisional_wf(r);
        }
    }

    /// Updates keep a state well formed.
    pub proof fn lemma_steps(self, bar: Price)
        requires
            self.wf(),
            bar.in_range(),
        ensures
            self.close(bar).wf(),
            self.provisional(bar).wf(),
            self.reset().wf(),
    {
        if let Some(prev) = self.last_price {
            let change = bar.close - prev;
            self.buff.lemma_steps(change);
            RsiModel {
                buff: self.buff.push(change),
                last_price: Some(bar.close as int),
                ..self
            }.lemma_propagate_wf(true);
            RsiModel { buff: self.buff.push_before_close(change), ..self }.lemma_propagate_wf(
                false,
            );
        }
    }

    /// A provisional bar supersedes the one before it, and a commit forgets
    /// every provisional bar.
    pub proof fn lemma_provisional_leaves_no_trace(self, a: Price, b: Price)
        requires
            self.wf(),
            a.in_range(),
            b.in_range(),
        ensures
            self.provisional(a).provisional(b) == self.provisional(b),
            self.provisional(a).close(b) == self.close(b),
    {
        if let Some(prev) = self.last_price {
            let pa = RsiModel { buff: self.buff.push_before_close(a.close - prev), ..self };
            if let Some(ra) = pa.buff.rsi() {
                let pb = RsiModel { buff: self.buff.push_before_close(b.close - prev), ..self };
                if let Some(rb) = pb.buff.rsi() {
                    self.stoch.lemma_provisional_leaves_no_trace(ra, rb);
                }
                let cb = RsiModel {
                    buff: self.buff.push(b.close - prev),
                    last_price: Some(b.close as int),
                    ..self
                };
                if let Some(rc) = cb.buff.rsi() {
                    self.stoch.lemma_provisional_leaves_no_trace(ra, rc);
                }
            }
        }
    }
}

/// The windowed sums of gains and losses, and their smoothed averages.
#[derive(Clone, Debug)]
pub struct RsiBuffer {
    gain: ExpMean,
    loss: ExpMean,
}

impl View for RsiBuffer {
    type V = RsiBufferModel;

    /// The mathematical state.
    closed spec fn view(&self) -> RsiBufferModel {
        RsiBufferModel { gain: self.gain@, loss: self.loss@ }
    }
}

impl RsiBuffer {
    /// The representation is consistent and stands for a well-formed state.
    pub closed spec fn wf(&self) -> bool {
        &&& self.gain.wf()
        &&& self.loss.wf()
        &&& self@.wf()
    }

    /// A well-formed value stands for a well-formed state.
    pub proof fn lemma_wf(&self)
        requires
            self.wf(),
        ensures
            self@.wf(),
    {
    }

    /// Windows of `periods - 1` changes, smoothed with divisor `periods`.
    pub fn new(periods: u32) -> (b: RsiBuffer)
        requires
            periods > 1,
        ensures
            b.wf(),
            b@ == RsiBufferModel::init(periods as nat),
    {
        RsiBuffer {
            gain: ExpMean::wilder_seeded(periods - 1, periods),
            loss: ExpMean::wilder_seeded(periods - 1, periods),
        }
    }

    /// Commits a change of price.
    pub fn push(&mut self, change: i64)
        requires
            old(self).wf(),
            is_sample(change as int),
        ensures
            final(self).wf(),
            final(self)@ == old(self)@.push(change as int),
    {
        proof {
            self@.lemma_steps(change as int);
        }
        if change > 0 {
            self.gain.update_after_close(change);
            self.loss.update_after_close(0);
        } else {
            self.gain.update_after_close(0);
            self.loss.update_after_close(-change);
        }
    }

    /// Takes the change of the forming bar.
    pub fn push_before_close(&mut self, change: i64)
        requires
            old(self).wf(),
            is_sample(change as int),
        ensures
            final(self).wf(),
            final(self)@ == old(self)@.push_before_close(change as int),
    {
        proof {
            self@.lemma_steps(change as int);
        }
        if change > 0 {
            self.gain.update_before_close(change);
            self.loss.update_before_close(0);
        } else {
            self.gain.update_before_close(0);
            self.loss.update_before_close(-change);
        }
    }

    /// The divisor of the smoothing: the `periods` of the index.
    pub fn period(&self) -> (p: u32)
        requires
            self.wf(),
        ensures
            p == self@.gain.denom,
    {
        self.gain.divisor()
    }

    /// The averages have been seeded.
    pub fn is_full(&self) -> (b: bool)
        requires
            self.wf(),
        ensures
            b == self@.full(),
    {
        self.gain.is_ready()
    }

    /// The index from the observable averages.
    pub fn rsi(&self) -> (r: Option<i64>)
        requires
            self.wf(),
        ensures
            opt_int(r) == self@.rsi(),
            r matches Some(v) ==> 0 <= v <= HUNDRED,
    {
        proof {
            self@.lemma_steps(0);
        }
        match (self.gain.get_last(), self.loss.get_last()) {
            (Some(avg_gain), Some(avg_loss)) => {
                if avg_loss == 0 {
                    Some(HUNDRED)
                } else {
                    let part: i128 = div_floor(
                        (HUNDRED as i128) * (avg_loss as i128),
                        avg_gain as i128 + avg_loss as i128,
                    );
                    Some((HUNDRED as i128 - part) as i64)
                }
            },
            _ => None,
        }
    }
}

/// Relative strength index over `periods` bars.
#[derive(Clone, Debug)]
pub struct Rsi {
    buff: RsiBuffer,
    last_price: Option<i64>,
    value: Option<i64>,
    sma: Option<Mean>,
    stoch: StochRsi,
}

impl Rsi {
    /// The state of the moving average over the index, if there is one.
    spec fn sma_model(&self) -> Option<MeanModel> {
        match self.sma {
            Some(m) => Some(m@),
            None => None,
        }
    }

    /// Every part is well formed.
    spec fn parts_wf(&self) -> bool {
        &&& self.buff.wf()
        &&& self.stoch.wf()
        &&& self.sma matches Some(m) ==> m.wf()
    }

    /// `periods` bars for the index, `stoch_length` values of it for the
    /// oscillator, smoothed over `k_smoothing` and `d_smoothing` values
    /// (three each where none is given), and, where `smoothing_length` is
    /// given, a moving average over that many values of the index.
    pub fn new(
        periods: u32,
        stoch_length: u32,
        k_smoothing: Option<u32>,
        d_smoothing: Option<u32>,
        smoothing_length: Option<u32>,
    ) -> (r: Rsi)
        requires
            periods > 1,
            stoch_length > 1,
            k_smoothing matches Some(k) ==> k > 0,
            d_smoothing matches Some(d) ==> d > 0,
            smoothing_length matches Some(n) ==> n > 1,
        ensures
            r.wf(),
            r.model() == RsiModel::init(
                periods as nat,
                stoch_length as nat,
                match k_smoothing {
                    Some(k) => k as nat,
                    None => 3,
                },
                match d_smoothing {
                    Some(d) => d as nat,
                    None => 3,
                },
                match smoothing_length {
                    Some(n) => Some(n as nat),
                    None => None,
                },
            ),
    {
        let sma: Option<Mean> = match smoothing_length {
            Some(n) => Some(Mean::new(n)),
            None => None,
        };
        let k: u32 = match k_smoothing {
            Some(k) => k,
            None => 3,
        };
        let d: u32 = match d_smoothing {
            Some(d) => d,
            None => 3,
        };
        let r = Rsi {
            buff: RsiBuffer::new(periods),
            last_price: None,
            value: None,
            sma,
            stoch: StochRsi::new(stoch_length, k, d),
        };
        proof {
            r.stoch.lemma_wf();
            if let Some(m) = &r.sma {
                m.lemma_wf();
            }
        }
        r
    }

    /// Works out the index from the observable averages and hands it to the
    /// value and to both consumers.
    fn calc_rsi(&mut self, after: bool) -> (r: Option<i64>)
        requires
            old(self).parts_wf(),
        ensures
            final(self).parts_wf(),
            final(self).model() == old(self).model().propagate(after),
            opt_int(r) == old(self).model().buff.rsi(),
    {
        let r: Option<i64> = self.buff.rsi();
        if let Some(rsi) = r {
            if after {
                self.stoch.update_after_close(rsi);
                match &mut self.sma {
                    Some(sma) => {
                        sma.update_after_close(rsi);
                    },
                    None => {},
                }
            } else {
                self.stoch.update_before_close(rsi);
                match &mut self.sma {
                    Some(sma) => {
                        sma.update_before_close(rsi);
                    },
                    None => {},
                }
            }
            self.value = Some(rsi);
        }
        r
    }

    /// The moving average over the index, once its window has filled.
    pub fn get_sma_rsi(&self) -> (v: Option<i64>)
        requires
            self.wf(),
        ensures
            opt_int(v) == self.model().sma_rsi(),
    {
        match &self.sma {
            Some(sma) => sma.get_last(),
            None => None,
        }
    }

    /// The moving average over the index has filled its window.
    pub fn sma_is_ready(&self) -> (b: bool)
        requires
            self.wf(),
        ensures
            b == self.model().sma_ready(),
    {
        match &self.sma {
            Some(sma) => sma.is_ready(),
            None => false,
        }
    }

    /// The oscillator over the index reports both %K and %D.
    pub fn stoch_is_ready(&self) -> (b: bool)
        requires
            self.wf(),
        ensures
            b == self.model().stoch.ready(),
    {
        self.stoch.is_ready()
    }

    /// Smoothed %K of the oscillator over the index.
    pub fn get_stoch_rsi(&self) -> (k: Option<i64>)
        requires
            self.wf(),
        ensures
            opt_int(k) == self.model().stoch.k(),
    {
        self.stoch.get_k()
    }

    /// %D of the oscillator over the index.
    pub fn get_stoch_signal(&self) -> (d: Option<i64>)
        requires
            self.wf(),
        ensures
            opt_int(d) == self.model().stoch.d(),
    {
        self.stoch.get_d()
    }
}

impl Indicator for Rsi {
    type Model = RsiModel;

    closed spec fn wf(&self) -> bool {
        &&& self.parts_wf()
        &&& self.model().wf()
    }

    closed spec fn model(&self) -> RsiModel {
        RsiModel {
            buff: self.buff@,
            last_price: opt_int(self.last_price),
            value: opt_int(self.value),
            sma: self.sma_model(),
            stoch: self.stoch@,
        }
    }

    open spec fn model_wf(m: RsiModel) -> bool {
        m.wf()
    }

    open spec fn model_reset(m: RsiModel) -> RsiModel {
        m.reset()
    }

    open spec fn model_close(m: RsiModel, bar: Price) -> RsiModel {
        m.close(bar)
    }

    open spec fn model_provisional(m: RsiModel, bar: Price) -> RsiModel {
        m.provisional(bar)
    }

    open spec fn model_ready(m: RsiModel) -> bool {
        m.buff.full() && m.value.is_some()
    }

    open spec fn model_last(m: RsiModel) -> Option<Value> {
        m.last()
    }

    open spec fn model_period(m: RsiModel) -> u32 {
        m.periods() as u32
    }

    proof fn lemma_model_wf(&self) {
    }

    proof fn lemma_model_steps(m: RsiModel, bar: Price) {
        m.lemma_steps(bar);
    }

    proof fn lemma_provisional_leaves_no_trace(m: RsiModel, a: Price, b: Price) {
        m.lemma_provisional_leaves_no_trace(a, b);
    }

    proof fn lemma_ready_iff_value(m: RsiModel) {
    }

    proof fn lemma_replay_unfold(m: RsiModel, bars: Seq<Price>) {
    }

    proof fn lemma_reset_forgets(m: RsiModel, bar: Price) {
    }

    fn update_after_close(&mut self, last_price: Price) {
        proof {
            self.model().lemma_steps(last_price);
        }
        let close: i64 = last_price.close;
        match self.last_price {
            Some(prev_price) => {
                self.buff.push(close - prev_price);
                self.last_price = Some(close);
                self.calc_rsi(true);
            },
            None => {
                self.last_price = Some(close);
            },
        }
    }

    fn update_before_close(&mut self, last_price: Price) {
        proof {
            self.model().lemma_steps(last_price);
        }
        match self.last_price {
            Some(prev_price) => {
                self.buff.push_before_close(last_price.close - prev_price);
                self.calc_rsi(false);
            },
            None => {},
        }
    }

    fn load(&mut self, price_data: &[Price]) {
        let mut i: usize = 0;
        while i < price_data.len()
            invariant
                0 <= i <= price_data@.len(),
                self.wf(),
                all_in_range(price_data@),
                self.model() == Self::replay(old(self).model(), price_data@.take(i as int)),
            decreases price_data@.len() - i,
        {
            proof {
                assert(price_data@.take(i + 1).drop_last() =~= price_data@.take(i as int));
            }
            self.update_after_close(price_data[i]);
            i = i + 1;
        }
        proof {
            assert(price_data@.take(i as int) =~= price_data@);
        }
    }

    fn is_ready(&self) -> (b: bool) {
        self.buff.is_full() && self.value.is_some()
    }

    fn get_last(&self) -> (v: Option<Value>) {
        match self.value {
            Some(val) => Some(Value::RsiValue(val)),
            None => None,
        }
    }

    fn reset(&mut self) {
        proof {
            self.model().lemma_steps(Price {
                open: 0,
                high: 0,
                low: 0,
                close: 0,
                open_time: 0,
                close_time: 0,
                vlm: 0,
            });
            self.buff.lemma_wf();
        }
        let periods: u32 = self.period();
        self.buff = RsiBuffer::new(periods);
        self.last_price = None;
        self.value = None;
        match &mut self.sma {
            Some(sma) => {
                sma.reset();
            },
            None => {},
        }
        self.stoch.reset();
    }

    fn period(&self) -> (p: u32) {
        self.buff.period()
    }
}

impl Default for Rsi {
    /// Fourteen bars, an oscillator over fourteen values smoothed over three
    /// and three, and a moving average over ten.
    fn default() -> (r: Rsi)
        ensures
            r.wf(),
            r.model() == RsiModel::init(14, 14, 3, 3, Some(10nat)),
    {
        Rsi::new(14, 14, None, None, Some(10))
    }
}

/// Moving average over the relative strength index.
#[derive(Clone, Debug)]
pub struct SmaRsi {
    rsi: Rsi,
}

impl SmaRsi {
    /// An index over `periods` bars, averaged over `smoothing` of its values.
    pub fn new(periods: u32, smoothing: u32) -> (s: SmaRsi)
        requires
            periods > 1,
            smoothing > 1,
        ensures
            s.wf(),
            s.model() == RsiModel::init(periods as nat, 4, 3, 3, Some(smoothing as nat)),
    {
        SmaRsi { rsi: Rsi::new(periods, 4, None, None, Some(smoothing)) }
    }
}

impl Indicator for SmaRsi {
    type Model = RsiModel;

    closed spec fn wf(&self) -> bool {
        self.rsi.wf()
    }

    closed spec fn model(&self) -> RsiModel {
        self.rsi.model()
    }

    open spec fn model_wf(m: RsiModel) -> bool {
        m.wf()
    }

    open spec fn model_reset(m: RsiModel) -> RsiModel {
        m.reset()
    }

    open spec fn model_close(m: RsiModel, bar: Price) -> RsiModel {
        m.close(bar)
    }

    open spec fn model_provisional(m: RsiModel, bar: Price) -> RsiModel {
        m.provisional(bar)
    }

    open spec fn model_ready(m: RsiModel) -> bool {
        m.sma_ready()
    }

    open spec fn model_last(m: RsiModel) -> Option<Value> {
        match m.sma_rsi() {
            Some(v) => Some(Value::SmaRsiValue(v as i64)),
            None => None,
        }
    }

    open spec fn model_period(m: RsiModel) -> u32 {
        m.periods() as u32
    }

    proof fn lemma_model_wf(&self) {
    }

    proof fn lemma_model_steps(m: RsiModel, bar: Price) {
        m.lemma_steps(bar);
    }

    proof fn lemma_provisional_leaves_no_trace(m: RsiModel, a: Price, b: Price) {
        m.lemma_provisional_leaves_no_trace(a, b);
    }

    proof fn lemma_ready_iff_value(m: RsiModel) {
    }

    proof fn lemma_replay_unfold(m: RsiModel, bars: Seq<Price>) {
    }

    proof fn lemma_reset_forgets(m: RsiModel, bar: Price) {
    }

    fn update_after_close(&mut self, last_price: Price) {
        self.rsi.update_after_close(last_price);
    }

    fn update_before_close(&mut self, last_price: Price) {
        self.rsi.update_before_close(last_price);
    }

    fn load(&mut self, price_data: &[Price]) {
        let mut i: usize = 0;
        while i < price_data.len()
            invariant
                0 <= i <= price_data@.len(),
                self.wf(),
                all_in_range(price_data@),
                self.model() == Self::replay(old(self).model(), price_data@.take(i as int)),
            decreases price_data@.len() - i,
        {
            proof {
                assert(price_data@.take(i + 1).drop_last() =~= price_data@.take(i as int));
            }
            self.update_after_close(price_data[i]);
            i = i + 1;
        }
        proof {
            assert(price_data@.take(i as int) =~= price_data@);
        }
    }

    fn is_ready(&self) -> (b: bool) {
        self.rsi.sma_is_ready()
    }

    fn get_last(&self) -> (v: Option<Value>) {
        match self.rsi.get_sma_rsi() {
            Some(val) => Some(Value::SmaRsiValue(val)),
            None => None,
        }
    }

    fn reset(&mut self) {
        self.rsi.reset();
    }

    fn period(&self) -> (p: u32) {
        self.rsi.period()
    }
}

/// The closes of `bars` rise strictly.
pub open spec fn strictly_rising(bars: Seq<Price>) -> bool {
    forall|i: int, j: int| 0 <= i < j < bars.len() ==> bars[i].close < bars[j].close
}

/// On a path of strictly rising closes no change is a loss, so from a fresh
/// state the index is exactly 100 from the bar that fills the window on, and
/// there is none before.
pub proof fn lemma_rising_path_gives_hundred(fresh: RsiModel, bars: Seq<Price>)
    requires
        fresh.wf(),
        fresh.reset() == fresh,
        all_in_range(bars),
        strictly_rising(bars),
    ensures
        Rsi::replay(fresh, bars).wf(),
        Rsi::replay(fresh, bars).buff.loss.between(0, 0),
        Rsi::replay(fresh, bars).periods() == fresh.periods(),
        Rsi::replay(fresh, bars).remaining() == if bars.len() <= fresh.periods() {
            fresh.periods() - bars.len()
        } else {
            0
        },
        Rsi::replay(fresh, bars).last_price == if bars.len() > 0 {
            Some(bars.last().close as int)
        } else {
            None
        },
        Rsi::replay(fresh, bars).value == if bars.len() >= fresh.periods() {
            Some(HUNDRED as int)
        } else {
            None
        },
    decreases bars.len(),
{
    Rsi::lemma_replay_unfold(fresh, bars);
    if bars.len() > 0 {
        let before = bars.drop_last();
        let bar = bars.last();
        assert(bars[bars.len() - 1].in_range());
        assert forall|i: int, j: int| 0 <= i < j < before.len() implies before[i].close
            < before[j].close by {
            assert(before[i] == bars[i] && before[j] == bars[j]);
        }
        lemma_rising_path_gives_hundred(fresh, before);
        let m = Rsi::replay(fresh, before);
        m.lemma_steps(bar);
        m.lemma_ready_exactly_when_filled(bar);
        if let Some(prev) = m.last_price {
            assert(before.last() == bars[bars.len() - 2]);
            let change = bar.close - prev;
            assert(change > 0);
            m.buff.lemma_steps(change);
            m.buff.loss.lemma_between(loss_of(change), 0, 0);
        }
    }
}

} // verus!
