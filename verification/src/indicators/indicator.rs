//! The contract that every indicator meets, and the value it reports.
use vstd::prelude::*;
use crate::indicators::types::{all_in_range, Price};

verus! {

/// What an indicator reports: one variant per kind of indicator.
#[derive(PartialEq, Eq, Structural, Copy, Clone, Debug)]
pub enum Value {
    RsiValue(i64),
    StochRsiValue { k: i64, d: i64 },
    EmaValue(i64),
    EmaCrossValue { short: i64, long: i64, trend: bool },
    SmaValue(i64),
    SmaRsiValue(i64),
    AdxValue(i64),
    AtrValue(i64),
    VolumeMaValue(i64),
    StdDevValue(i64),
    MeanValue(i64),
    HistVolatilityValue(i64),
}

/// An indicator over a stream of price bars.
///
/// The state of an indicator is described by a mathematical model, and each
/// operation by a function on models. A finalized update commits a bar; a
/// provisional update only refreshes what is observed.
pub trait Indicator {
    /// The mathematical state.
    type Model;

    /// The representation is consistent.
    spec fn wf(&self) -> bool;

    /// The mathematical state of this indicator.
    spec fn model(&self) -> Self::Model;

    /// The model is one that a well-formed indicator can have.
    spec fn model_wf(m: Self::Model) -> bool;

    /// The state right after construction, for the parameters of `m`.
    spec fn model_reset(m: Self::Model) -> Self::Model;

    /// The state after a finalized update with `bar`.
    spec fn model_close(m: Self::Model, bar: Price) -> Self::Model;

    /// The state after a provisional update with `bar`.
    spec fn model_provisional(m: Self::Model, bar: Price) -> Self::Model;

    /// Whether a value is reported.
    spec fn model_ready(m: Self::Model) -> bool;

    /// The value reported.
    spec fn model_last(m: Self::Model) -> Option<Value>;

    /// The primary window length.
    spec fn model_period(m: Self::Model) -> u32;

    /// The state after a finalized update for each bar of `bars`, in order.
    open spec fn replay(m: Self::Model, bars: Seq<Price>) -> Self::Model {
        bars.fold_left(m, |acc: Self::Model, bar: Price| Self::model_close(acc, bar))
    }

    /// A well-formed indicator has a well-formed model.
    proof fn lemma_model_wf(&self)
        requires
            self.wf(),
        ensures
            Self::model_wf(self.model()),
    ;

    /// Updates keep a model well formed.
    proof fn lemma_model_steps(m: Self::Model, bar: Price)
        requires
            Self::model_wf(m),
            bar.in_range(),
        ensures
            Self::model_wf(Self::model_close(m, bar)),
            Self::model_wf(Self::model_provisional(m, bar)),
            Self::model_wf(Self::model_reset(m)),
    ;

    /// A provisional update supersedes the one before it, and a finalized
    /// update forgets every provisional update since the last commit: what
    /// follows depends on the committed state alone.
    proof fn lemma_provisional_leaves_no_trace(m: Self::Model, a: Price, b: Price)
        requires
            Self::model_wf(m),
            a.in_range(),
            b.in_range(),
        ensures
            Self::model_provisional(Self::model_provisional(m, a), b) == Self::model_provisional(
                m,
                b,
            ),
            Self::model_close(Self::model_provisional(m, a), b) == Self::model_close(m, b),
    ;

    /// A replay is one finalized update after another.
    proof fn lemma_replay_unfold(m: Self::Model, bars: Seq<Price>)
        ensures
            bars.len() == 0 ==> Self::replay(m, bars) == m,
            bars.len() > 0 ==> Self::replay(m, bars) == Self::model_close(
                Self::replay(m, bars.drop_last()),
                bars.last(),
            ),
    ;

    /// No update changes what a reset leads to: the state after a reset
    /// depends on the parameters alone, and a reset of it changes nothing.
    proof fn lemma_reset_forgets(m: Self::Model, bar: Price)
        requires
            Self::model_wf(m),
            bar.in_range(),
        ensures
            Self::model_reset(Self::model_close(m, bar)) == Self::model_reset(m),
            Self::model_reset(Self::model_provisional(m, bar)) == Self::model_reset(m),
            Self::model_reset(Self::model_reset(m)) == Self::model_reset(m),
    ;

    /// A value is reported exactly when the indicator is ready.
    proof fn lemma_ready_iff_value(m: Self::Model)
        requires
            Self::model_wf(m),
        ensures
            Self::model_ready(m) == Self::model_last(m).is_some(),
    ;

    /// Finalized update: commits `last_price`.
    fn update_after_close(&mut self, last_price: Price)
        requires
            old(self).wf(),
            last_price.in_range(),
        ensures
            final(self).wf(),
            final(self).model() == Self::model_close(old(self).model(), last_price),
    ;

    /// Provisional update: refreshes the observed value for the bar that is
    /// still forming, and commits nothing.
    fn update_before_close(&mut self, last_price: Price)
        requires
            old(self).wf(),
            last_price.in_range(),
        ensures
            final(self).wf(),
            final(self).model() == Self::model_provisional(old(self).model(), last_price),
    ;

    /// Applies a finalized update for each bar of `price_data`, in order.
    fn load(&mut self, price_data: &[Price])
        requires
            old(self).wf(),
            all_in_range(price_data@),
        ensures
            final(self).wf(),
            final(self).model() == Self::replay(old(self).model(), price_data@),
    ;

    /// Whether a value is reported.
    fn is_ready(&self) -> (b: bool)
        requires
            self.wf(),
        ensures
            b == Self::model_ready(self.model()),
    ;

    /// The value observed: that of the last update, of either kind.
    fn get_last(&self) -> (v: Option<Value>)
        requires
            self.wf(),
        ensures
            v == Self::model_last(self.model()),
    ;

    /// Back to the state right after construction.
    fn reset(&mut self)
        requires
            old(self).wf(),
        ensures
            final(self).wf(),
            final(self).model() == Self::model_reset(old(self).model()),
    ;

    /// The primary window length.
    fn period(&self) -> (p: u32)
        requires
            self.wf(),
        ensures
            p == Self::model_period(self.model()),
    ;
}

/// One update: a bar, and whether the update is a finalized one.
pub struct Step {
    pub bar: Price,
    pub finalized: bool,
}

/// Every bar of `steps` is in range.
pub open spec fn steps_in_range(steps: Seq<Step>) -> bool {
    forall|i: int| 0 <= i < steps.len() ==> (#[trigger] steps[i]).bar.in_range()
}

/// The state after the updates of `steps`, in order.
pub open spec fn run<I: Indicator>(m: I::Model, steps: Seq<Step>) -> I::Model
    decreases steps.len(),
{
    if steps.len() == 0 {
        m
    } else if steps.last().finalized {
        I::model_close(run::<I>(m, steps.drop_last()), steps.last().bar)
    } else {
        I::model_provisional(run::<I>(m, steps.drop_last()), steps.last().bar)
    }
}

/// Updates keep a model well formed.
pub proof fn lemma_run_wf<I: Indicator>(m: I::Model, steps: Seq<Step>)
    requires
        I::model_wf(m),
        steps_in_range(steps),
    ensures
        I::model_wf(run::<I>(m, steps)),
    decreases steps.len(),
{
    if steps.len() > 0 {
        lemma_run_wf::<I>(m, steps.drop_last());
        assert(steps[steps.len() - 1].bar.in_range());
        I::lemma_model_steps(run::<I>(m, steps.drop_last()), steps.last().bar);
    }
}

/// However many provisional updates follow one another, only the last one
/// shows, and a finalized update after them gives the state that it gives
/// without them: with it the readiness and the value.
pub proof fn lemma_provisional_updates_leave_no_trace<I: Indicator>(
    m: I::Model,
    steps: Seq<Step>,
    bar: Price,
)
    requires
        I::model_wf(m),
        steps_in_range(steps),
        forall|i: int| 0 <= i < steps.len() ==> !(#[trigger] steps[i]).finalized,
        bar.in_range(),
    ensures
        steps.len() > 0 ==> run::<I>(m, steps) == I::model_provisional(m, steps.last().bar),
        I::model_close(run::<I>(m, steps), bar) == I::model_close(m, bar),
        I::model_provisional(run::<I>(m, steps), bar) == I::model_provisional(m, bar),
    decreases steps.len(),
{
    if steps.len() > 0 {
        let before = steps.drop_last();
        let last = steps[steps.len() - 1];
        assert(last.bar.in_range() && !last.finalized);
        lemma_provisional_updates_leave_no_trace::<I>(m, before, last.bar);
        if before.len() > 0 {
            let prev = before[before.len() - 1];
            assert(prev == steps[steps.len() - 2]);
            I::lemma_provisional_leaves_no_trace(m, prev.bar, last.bar);
        }
        I::lemma_provisional_leaves_no_trace(m, last.bar, bar);
    }
}

/// A reset after any history of updates gives back the state right after
/// construction, so replaying a sequence of bars after the reset gives the
/// state, and with it the readiness and the value, that replaying it on a
/// freshly constructed indicator gives.
pub proof fn lemma_reset_then_replay<I: Indicator>(
    fresh: I::Model,
    history: Seq<Step>,
    bars: Seq<Price>,
)
    requires
        I::model_wf(fresh),
        I::model_reset(fresh) == fresh,
        steps_in_range(history),
    ensures
        I::model_reset(run::<I>(fresh, history)) == fresh,
        I::replay(I::model_reset(run::<I>(fresh, history)), bars) == I::replay(fresh, bars),
    decreases history.len(),
{
    if history.len() > 0 {
        let before = history.drop_last();
        lemma_reset_then_replay::<I>(fresh, before, bars);
        lemma_run_wf::<I>(fresh, before);
        assert(history[history.len() - 1].bar.in_range());
        I::lemma_reset_forgets(run::<I>(fresh, before), history.last().bar);
    }
}

} // verus!
