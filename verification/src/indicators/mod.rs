//! The named indicators and the contract they share.
pub mod adx;
pub mod atr;
pub mod ema;
pub mod hist_vol;
pub mod indicator;
pub mod rsi;
pub mod sma;
pub mod stoch_rsi;
pub mod types;
pub mod volume_ma;

pub use adx::Adx;
pub use atr::Atr;
pub use ema::Ema;
pub use ema::EmaCross;
pub use hist_vol::HistVolatility;
pub use indicator::{Indicator, Value};
pub use rsi::{Rsi, SmaRsi};
pub use sma::Sma;
pub use stoch_rsi::StochasticRsi;
pub use types::Price;
pub use volume_ma::VolumeMa;
