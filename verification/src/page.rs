//! From the markup of the page to the schedule, in one step.
//!
//! A page that cannot be read, or a row that cannot be understood, ends
//! the step with its error: there is no schedule of a part of the page.

use crate::extract::{extract, extraction, ExtractionError};
use crate::schedule::{ascending, merge, merge_result, CollectionEntry, ParseError, Schedule};
use vstd::prelude::*;

verus! {

/// Why there is no schedule for a page.
#[derive(Debug, PartialEq, Eq)]
pub enum PageError {
    /// The rows of the page could not be read.
    Extraction(ExtractionError),
    /// A row of the page could not be understood.
    Parse(ParseError),
}

/// The result of the merge as the result of the whole step.
pub open spec fn passed_on(merged: Result<Schedule, ParseError>) -> Result<Schedule, PageError> {
    match merged {
        Ok(schedule) => Ok(schedule),
        Err(error) => Err(PageError::Parse(error)),
    }
}

/// What `read_schedule` returns for `markup`: the error of `extract`, or
/// what `merge` returns for the entries that `extract` returns.
pub open spec fn page_result(markup: Seq<char>, result: Result<Schedule, PageError>) -> bool {
    ||| result matches Err(PageError::Extraction(error)) && extraction(markup, Err(error))
    ||| exists|entries: Vec<CollectionEntry>, merged: Result<Schedule, ParseError>|
        {
            &&& extraction(markup, Ok(entries))
            &&& #[trigger] merge_result(entries@, merged)
            &&& result == passed_on(merged)
        }
}

/// Reads the rows of the page and merges them into the schedule.
pub fn read_schedule(markup: &str) -> (result: Result<Schedule, PageError>)
    ensures
        page_result(markup@, result),
        result matches Ok(schedule) ==> ascending(schedule@),
{
    match extract(markup) {
        Err(error) => Err(PageError::Extraction(error)),
        Ok(entries) => {
            let merged = merge(&entries);
            assert(extraction(markup@, Ok(entries)) && merge_result(entries@, merged));
            match merged {
                Ok(schedule) => Ok(schedule),
                Err(error) => Err(PageError::Parse(error)),
            }
        },
    }
}

} // verus!
