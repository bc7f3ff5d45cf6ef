//! Scaled fixed-point values: every value is an integer count of 10^-18 units.

pub mod common;
pub mod decimal;
pub mod rate;
pub mod u192;
