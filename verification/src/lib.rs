//! A home-purchase calculator: a step-by-step input wizard, a fixed-point
//! amortization engine that projects monthly costs over the life of a loan,
//! and a CSV exporter for the resulting schedule.
//!
//! All money amounts and rates are held in fixed-point micro-units
//! (1_000_000 units per dollar, or per 100% for rates), so that every
//! computation is exact integer arithmetic with stated rounding.

pub mod codec;
pub mod engine;
pub mod export;
pub mod field;
pub mod wizard;
pub mod fixed;

pub use fixed::SCALE;
