//! A work-stealing task pool, stated as verified sequential logic.
//!
//! Each worker owns a double-ended queue of tasks. A worker takes the newest
//! task from its own queue; when that queue is empty it scans its peers in
//! registry order and takes the oldest task of the first peer that has one;
//! when nobody has work it parks.

pub mod history;
pub mod queue;
pub mod scheduler;
pub mod worker;
