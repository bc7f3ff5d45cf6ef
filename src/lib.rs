//! Fixed-point arithmetic for a lending market and the processor of a
//! flash-loan repayment instruction.

pub mod math;
pub mod processor;
pub mod token;
