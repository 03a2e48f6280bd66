//! A bounded ring buffer that keeps the most recent values pushed into it,
//! with laws relating its pushes and pops, and the fixed-length trail of
//! past positions that simulated agents leave behind them.
pub mod laws;
pub mod ring;
pub mod trail;

pub use ring::Ring;
pub use trail::shift_trail;
