//! Frame planning for a 5x5 LED FizzBuzz display.
//!
//! Given a number and a time budget, the planner decides which patterns to
//! show and for how long: animated patterns for multiples of 3 and 5, and a
//! proportional split over the decimal digits otherwise, with short blank
//! separators between consecutive identical digits.

pub mod digits;
pub mod planner;
pub mod laws;
