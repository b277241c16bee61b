//! A personal reminder scheduler: recurring rules (title, message, time of
//! day, weekday mask), the next-occurrence algorithm, and the live schedule
//! that reconciles against a store and fires due items.

pub mod calendar;
pub mod day;
pub mod error;
pub mod instant;
pub mod notification;
pub mod schedule;
