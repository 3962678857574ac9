//! The next collection in a few words.
//!
//! The first collection of the schedule is taken for the next one. The
//! page may list days that are over; such a day is not skipped, and the
//! number of days is then negative.

use crate::bag::join_phrase;
use crate::date::{iso_date, CivilDate, Date};
use crate::schedule::{CollectionView, Schedule};
use crate::text::{append_signed_decimal, signed_decimal};
use vstd::prelude::*;

verus! {

/// The first collection of a schedule, in words.
#[derive(Debug, PartialEq, Eq)]
pub struct Summary {
    /// The kinds of waste, as in `black & blue`.
    pub bag_type: String,
    /// The day, as in `2024-06-03`.
    pub date: String,
    /// The time until the day, as in `1 day` or `4 days`.
    pub time_until: String,
}

/// The schedule holds no collection to summarise.
#[derive(Clone, Copy, Debug, PartialEq, Eq)]
pub struct EmptyScheduleError;

/// A number of days in words: `1 day`, and `days` after every other number.
pub open spec fn time_until_text(days: int) -> Seq<char> {
    if days == 1 {
        "1 day"@
    } else {
        signed_decimal(days) + " days"@
    }
}

/// The number of days from `today` to `date`.
pub open spec fn days_until(date: CivilDate, today: CivilDate) -> int {
    date.day_number() - today.day_number()
}

/// The summary of `day` on the day `today`.
pub open spec fn describes(summary: Summary, day: CollectionView, today: CivilDate) -> bool {
    &&& summary.bag_type@ == join_phrase(day.bags)
    &&& summary.date@ == iso_date(day.date)
    &&& summary.time_until@ == time_until_text(days_until(day.date, today))
}

/// A number of days in words.
pub fn time_until(days: i64) -> (text: String)
    ensures
        text@ == time_until_text(days as int),
{
    if days == 1 {
        "1 day".to_owned()
    } else {
        let mut text = String::new();
        append_signed_decimal(&mut text, days);
        text.append(" days");
        assert(text@ =~= time_until_text(days as int));
        text
    }
}

/// The first collection of the schedule in words, with the number of days
/// from `today` to it.
pub fn project(schedule: &Schedule, today: &Date) -> (summary: Result<Summary, EmptyScheduleError>)
    ensures
        match summary {
            Ok(s) => schedule@.len() > 0 && describes(s, schedule@[0], today@),
            Err(_) => schedule@.len() == 0,
        },
{
    match schedule.get(0) {
        None => Err(EmptyScheduleError),
        Some(day) => {
            let date = day.date();
            Ok(
                Summary {
                    bag_type: day.bag_types().join_phrase(),
                    date: date.to_iso(),
                    time_until: time_until(date.days_since(today) as i64),
                },
            )
        },
    }
}

} // verus!
