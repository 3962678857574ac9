//! Collection schedules for an address: reading the council's page,
//! merging same-day collections, and writing them out as a calendar.
//!
//! The way through the library is `extract` (the rows of the page), `merge`
//! (one collection for each day), and then `synthesize` (the calendar
//! document) or `project` (the next collection in words). `read_schedule`
//! does the first two in one step.
//!
//! Everything here is verified but the calls into other crates. Those stand
//! in small functions of their own, each marked as trusted in its comment:
//! the HTML parser and selector engine of `scraper` in `extract`, the date
//! parser of `chrono` in `date`, the name-based UUID of `uuid` in
//! `calendar`, and `str::to_lowercase` in `text`. The contracts speak of
//! what these calls return by name, and say nothing more of it.

pub mod bag;
pub mod calendar;
pub mod date;
pub mod extract;
pub mod page;
pub mod schedule;
pub mod summary;
pub mod text;
