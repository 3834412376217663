//! Technical indicators over a stream of price bars, in fixed-point arithmetic.
//!
//! Every indicator takes two kinds of update. A finalized update, when a bar
//! closes, commits the bar. A provisional update, for the bar that is still
//! forming, refreshes what is observed and commits nothing: it may be repeated
//! any number of times, each one superseding the one before, and the next
//! finalized update starts from the committed state as if none had been made.
//!
//! Each type comes with a mathematical model of its state, and the contract of
//! each operation says which model it leads to. What holds of every indicator
//! is stated over the models, in [`indicators::indicator`].
//!
//! - [`scalar`]: the fixed-point scalars, their limits and their arithmetic.
//! - [`series`]: sums and extremes of sequences of scalars.
//! - [`window`]: a fixed-capacity window kept as a circular array.
//! - [`primitives`]: sliding-window aggregate, recursive smoother, standard
//!   deviation.
//! - [`indicators`]: the named indicators.
pub mod indicators;
pub mod primitives;
pub mod scalar;
pub mod series;
pub mod window;
