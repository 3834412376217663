//! The price bar that every indicator reads.
use vstd::prelude::*;
use crate::scalar::{is_price, PRICE_LIMIT};

verus! {

/// One bar of a price series. Prices and volume are fixed-point scalars; the
/// times are whatever the feed uses and are not read by any indicator.
#[derive(Debug, Clone, Copy, PartialEq, Eq, Structural)]
pub struct Price {
    pub open: i64,
    pub high: i64,
    pub low: i64,
    pub close: i64,
    pub open_time: u64,
    pub close_time: u64,
    pub vlm: i64,
}

impl Price {
    /// Every scalar of the bar is within the magnitude that the indicators
    /// can take without overflow.
    pub open spec fn in_range(&self) -> bool {
        &&& is_price(self.open as int)
        &&& is_price(self.high as int)
        &&& is_price(self.low as int)
        &&& is_price(self.close as int)
        &&& is_price(self.vlm as int)
    }

    /// Tests [`Price::in_range`].
    pub fn is_valid(&self) -> (b: bool)
        ensures
            b == self.in_range(),
    {
        -PRICE_LIMIT <= self.open && self.open <= PRICE_LIMIT && -PRICE_LIMIT <= self.high
            && self.high <= PRICE_LIMIT && -PRICE_LIMIT <= self.low && self.low <= PRICE_LIMIT
            && -PRICE_LIMIT <= self.close && self.close <= PRICE_LIMIT && -PRICE_LIMIT <= self.vlm
            && self.vlm <= PRICE_LIMIT
    }
}

/// Every bar of `bars` is in range.
pub open spec fn all_in_range(bars: Seq<Price>) -> bool {
    forall|i: int| 0 <= i < bars.len() ==> (#[trigger] bars[i]).in_range()
}

} // verus!
