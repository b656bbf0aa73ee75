//! Round-robin allocation of fixed eight-hour work shifts.
//!
//! A request names an amount of work in hours and a roster of workers. The
//! allocator covers the work with whole shifts, handing them out in roster
//! order and moving on to the next calendar day after each pass through the
//! roster. Days and instants are plain integers here (Julian day numbers and
//! Unix timestamps); the `time` crate does the calendar arithmetic.

pub mod calendar;
pub mod schedule;
