//! Logs for reversible game state: each log keeps the present value together with the past and
//! future values that traversing the log backward and forward swaps in and out.
use vstd::prelude::*;

pub mod frame;
pub mod hook;
pub mod log;
pub mod meta;
