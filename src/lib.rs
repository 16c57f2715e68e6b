//! Converting a distance counted in one unit into the best-fitting count of
//! another unit, by exact rational interval arithmetic.

pub mod fraction;
pub mod interval;
pub mod rounding;
pub mod unit;
pub mod approximation;
pub mod overlap;
pub mod search;
pub mod catalog;
pub mod text;
