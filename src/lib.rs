//! Signed whole-month differences between calendar dates.

pub mod calendar;
pub mod month_delta;
