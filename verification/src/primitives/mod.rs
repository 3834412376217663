//! The building blocks that the named indicators are made of.
pub mod exp_mean;
pub mod mean;
pub mod range;
pub mod stddev;
