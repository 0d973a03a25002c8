//! A scheduler that multiplexes tasks onto one driving thread through a pool of reusable
//! root-stack slots, and a ledger that polices shared and exclusive access to byte ranges.

pub mod channel;
pub mod convert;
pub mod error;
pub mod handle;
pub mod ledger;
pub mod output;
pub mod pool;
pub mod runtime;
pub mod tracking;
