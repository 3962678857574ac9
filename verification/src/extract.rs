//! Reading the rows of the council's page.
//!
//! The page is HTML. The `scraper` crate parses it and finds the elements
//! that match a CSS selector; what is done with them is decided here. The
//! first row that lacks a field ends the reading: the error names the row,
//! and no entries are returned.

use crate::schedule::CollectionEntry;
use crate::text::{contains, contains_phrase, lemma_contains_within};
use vstd::prelude::*;

verus! {

/// A parsed HTML document, as `scraper` holds it.
#[verifier::external_type_specification]
#[verifier::external_body]
pub struct ExHtml(scraper::Html);

/// A parsed CSS selector, as `scraper` holds it.
#[verifier::external_type_specification]
#[verifier::external_body]
pub struct ExSelector(scraper::Selector);

/// A reference to an element of a parsed document, as `scraper` holds it.
/// The contracts take an element for its place in its document: elements
/// are handed on to `scraper` and never compared with one another here.
#[verifier::external_type_specification]
#[verifier::external_body]
pub struct ExElementRef<'a>(scraper::ElementRef<'a>);

/// What the page says where the reference of the address is unknown. The page
/// is served as a success all the same, so this sentence is the only sign.
pub const INVALID_REFERENCE_PHRASE: &'static str =
    "Please select an address to view the upcoming collections.";

/// The most characters that a page may have. The parser keeps text in
/// buffers that hold up to `u32::MAX` bytes; a character takes up to four
/// bytes, and the parser may write three bytes where it read one. Twelve
/// times this number is within `u32::MAX`.
pub const PAGE_LIMIT: usize = 0x1555_5555;

/// The selector of the rows that each hold one collection. The collapsed
/// panel repeats the rows and is left out.
pub const ROW_PATTERN: &'static str = "div.row.collectionsrow:not(.panel-collapse)";

/// The selector, within a row, of the field that names the kind of waste.
pub const BAG_PATTERN: &'static str = "div.col-xs-4.col-sm-4";

/// The selector, within a row, of the field that holds the date.
pub const DATE_PATTERN: &'static str = "div.col-xs-6.col-sm-6";

/// Why a page could not be read.
#[derive(Clone, Copy, Debug, PartialEq, Eq)]
pub enum ExtractionError {
    /// The page says that the reference of the address is unknown.
    InvalidReference,
    /// The page has more than `PAGE_LIMIT` characters, which is more than
    /// the parser can be given.
    PageTooLong,
    /// The row at `index` lacks the field for the kind of waste or the
    /// field for the date, or the field holds no text.
    MalformedRow { index: usize },
    /// The selector engine does not take one of the three selectors.
    PatternRejected,
}

/// The document that `scraper::Html::parse_document` makes of `markup`.
pub uninterp spec fn parsed_document(markup: Seq<char>) -> scraper::Html;

/// The selector that `scraper::Selector::parse` makes of `pattern`, or
/// `None` where it returns an error.
pub uninterp spec fn parsed_selector(pattern: Seq<char>) -> Option<scraper::Selector>;

/// The elements that `scraper::Html::select` yields for `selector` in
/// `document`, in the order in which it yields them.
pub uninterp spec fn selected(document: scraper::Html, selector: scraper::Selector) -> Seq<
    scraper::ElementRef<'static>,
>;

/// The elements that `scraper::ElementRef::select` yields for `selector`
/// below `element`, in the order in which it yields them.
pub uninterp spec fn selected_within(
    element: scraper::ElementRef<'static>,
    selector: scraper::Selector,
) -> Seq<scraper::ElementRef<'static>>;

/// The text nodes that `scraper::ElementRef::text` yields below `element`,
/// in the order in which it yields them.
pub uninterp spec fn text_nodes(element: scraper::ElementRef<'static>) -> Seq<Seq<char>>;

/// The views of the strings.
pub open spec fn texts(strings: Seq<String>) -> Seq<Seq<char>> {
    strings.map_values(|s: String| s@)
}

/// Calls `scraper::Html::parse_document`, which returns a document for any
/// text that its buffers can hold; on a text too long for them it does not
/// return, so such a text is left out. Trusted: the document is
/// `parsed_document` of the markup, which says no more than that it depends
/// on the markup alone.
#[verifier::external_body]
fn parse_document(markup: &str) -> (document: scraper::Html)
    requires
        markup@.len() <= PAGE_LIMIT,
    ensures
        document == parsed_document(markup@),
{
    scraper::Html::parse_document(markup)
}

/// Calls `scraper::Selector::parse` and drops the error. Trusted: the
/// result is `parsed_selector` of the pattern, which says no more than that
/// it depends on the pattern alone.
#[verifier::external_body]
fn parse_selector(pattern: &str) -> (selector: Option<scraper::Selector>)
    ensures
        selector == parsed_selector(pattern@),
{
    scraper::Selector::parse(pattern).ok()
}

/// Calls `scraper::Html::select` and collects what it yields. Trusted: the
/// elements are `selected` of the document and the selector.
#[verifier::external_body]
fn select<'a>(document: &'a scraper::Html, selector: &scraper::Selector) -> (found: Vec<
    scraper::ElementRef<'a>,
>)
    ensures
        found@ == selected(*document, *selector),
{
    document.select(selector).collect()
}

/// Calls `scraper::ElementRef::select` and collects what it yields.
/// Trusted: the elements are `selected_within` of the element and the
/// selector.
#[verifier::external_body]
fn select_within<'a>(element: &scraper::ElementRef<'a>, selector: &scraper::Selector) -> (found:
    Vec<scraper::ElementRef<'a>>)
    ensures
        found@ == selected_within(*element, *selector),
{
    element.select(selector).collect()
}

/// Calls `scraper::ElementRef::text` and collects what it yields, each text
/// node as a string of its own. Trusted: the strings are `text_nodes` of the
/// element.
#[verifier::external_body]
fn text_nodes_of(element: &scraper::ElementRef) -> (nodes: Vec<String>)
    ensures
        texts(nodes@) == text_nodes(*element),
{
    element.text().map(String::from).collect()
}

/// The text of a field with these text nodes: the last of them. A field
/// that is missing, or that holds no text node, has no text.
pub open spec fn field_value(nodes: Option<Seq<Seq<char>>>) -> Option<Seq<char>> {
    match nodes {
        Some(nodes) => if nodes.len() > 0 {
            Some(nodes.last())
        } else {
            None
        },
        None => None,
    }
}

/// The label and the date text of a row whose two fields have these text
/// nodes, or `None` where one of the fields has no text.
pub open spec fn row_reading(
    bag_nodes: Option<Seq<Seq<char>>>,
    date_nodes: Option<Seq<Seq<char>>>,
) -> Option<(Seq<char>, Seq<char>)> {
    match (field_value(bag_nodes), field_value(date_nodes)) {
        (Some(label), Some(raw_date)) => Some((label, raw_date)),
        _ => None,
    }
}

/// The views of the text nodes of a field.
pub open spec fn nodes_view(nodes: Option<Vec<String>>) -> Option<Seq<Seq<char>>> {
    match nodes {
        Some(nodes) => Some(texts(nodes@)),
        None => None,
    }
}

fn last_text(nodes: &Option<Vec<String>>) -> (text: Option<String>)
    ensures
        match field_value(nodes_view(*nodes)) {
            Some(value) => text matches Some(t) && t@ == value,
            None => text is None,
        },
{
    match nodes {
        Some(nodes) => {
            if nodes.len() > 0 {
                Some(nodes[nodes.len() - 1].clone())
            } else {
                None
            }
        },
        None => None,
    }
}

/// The entry of the row at `index`, from the text nodes of its two fields
/// (`None` for a field that the row lacks): the last text node of each.
pub fn entry_from_nodes(
    index: usize,
    bag_nodes: &Option<Vec<String>>,
    date_nodes: &Option<Vec<String>>,
) -> (entry: Result<CollectionEntry, ExtractionError>)
    ensures
        match row_reading(nodes_view(*bag_nodes), nodes_view(*date_nodes)) {
            Some((label, raw_date)) => entry matches Ok(e) && e.label@ == label && e.raw_date@
                == raw_date,
            None => entry matches Err(ExtractionError::MalformedRow { index: i }) && i == index,
        },
{
    match last_text(bag_nodes) {
        Some(label) => match last_text(date_nodes) {
            Some(raw_date) => Ok(CollectionEntry { label, raw_date }),
            None => Err(ExtractionError::MalformedRow { index }),
        },
        None => Err(ExtractionError::MalformedRow { index }),
    }
}

/// The text nodes of the field of `row` that `selector` finds: those of
/// the first element that matches, or `None` where none matches.
pub open spec fn field_nodes(row: scraper::ElementRef<'static>, selector: scraper::Selector)
    -> Option<Seq<Seq<char>>> {
    let found = selected_within(row, selector);
    if found.len() > 0 {
        Some(text_nodes(found[0]))
    } else {
        None
    }
}

fn read_field(row: &scraper::ElementRef, selector: &scraper::Selector) -> (nodes: Option<
    Vec<String>,
>)
    ensures
        nodes_view(nodes) == field_nodes(*row, *selector),
{
    let found = select_within(row, selector);
    if found.len() > 0 {
        Some(text_nodes_of(&found[0]))
    } else {
        None
    }
}

/// What each row of the page gives, in the order of the rows: its label and
/// its date text, or `None` where the row lacks one of them.
pub open spec fn page_rows(
    markup: Seq<char>,
    row: scraper::Selector,
    bag: scraper::Selector,
    date: scraper::Selector,
) -> Seq<Option<(Seq<char>, Seq<char>)>> {
    let rows = selected(parsed_document(markup), row);
    Seq::new(
        rows.len(),
        |i: int| row_reading(field_nodes(rows[i], bag), field_nodes(rows[i], date)),
    )
}

/// What is returned for these rows: an entry for each row where every row
/// has both texts, else the error that names the first row that lacks one.
pub open spec fn rows_result(
    rows: Seq<Option<(Seq<char>, Seq<char>)>>,
    result: Result<Vec<CollectionEntry>, ExtractionError>,
) -> bool {
    match result {
        Ok(entries) => {
            &&& entries@.len() == rows.len()
            &&& forall|i: int|
                0 <= i < rows.len() ==> #[trigger] rows[i] == Some(
                    (entries@[i].label@, entries@[i].raw_date@),
                )
        },
        Err(ExtractionError::MalformedRow { index }) => {
            &&& index < rows.len()
            &&& rows[index as int] is None
            &&& forall|i: int| 0 <= i < index ==> (#[trigger] rows[i]) is Some
        },
        Err(_) => false,
    }
}

/// What `extract` returns for `markup`. The sentence of the unknown
/// reference is looked for first, then the length of the page, and only
/// then its rows.
pub open spec fn extraction(
    markup: Seq<char>,
    result: Result<Vec<CollectionEntry>, ExtractionError>,
) -> bool {
    if contains_phrase(markup, INVALID_REFERENCE_PHRASE@) {
        result matches Err(ExtractionError::InvalidReference)
    } else if markup.len() > PAGE_LIMIT {
        result matches Err(ExtractionError::PageTooLong)
    } else {
        match (
            parsed_selector(ROW_PATTERN@),
            parsed_selector(BAG_PATTERN@),
            parsed_selector(DATE_PATTERN@),
        ) {
            (Some(row), Some(bag), Some(date)) => rows_result(
                page_rows(markup, row, bag, date),
                result,
            ),
            _ => result matches Err(ExtractionError::PatternRejected),
        }
    }
}

/// A page that holds the sentence of the unknown reference is refused as an
/// invalid reference, whatever stands before and after the sentence, rows
/// and faulty rows too.
pub proof fn lemma_invalid_reference_first(
    before: Seq<char>,
    after: Seq<char>,
    result: Result<Vec<CollectionEntry>, ExtractionError>,
)
    requires
        extraction(before + INVALID_REFERENCE_PHRASE@ + after, result),
    ensures
        result matches Err(ExtractionError::InvalidReference),
{
    lemma_contains_within(before, INVALID_REFERENCE_PHRASE@, after);
}

/// Reads the rows of the page: for each row the label of the kind of waste
/// and the text of the date, in the order of the page. A page that says
/// that the reference is unknown is refused before it is parsed, and so is
/// a page that is too long for the parser.
pub fn extract(markup: &str) -> (result: Result<Vec<CollectionEntry>, ExtractionError>)
    ensures
        extraction(markup@, result),
{
    if contains(markup, INVALID_REFERENCE_PHRASE) {
        return Err(ExtractionError::InvalidReference);
    }
    if markup.unicode_len() > PAGE_LIMIT {
        return Err(ExtractionError::PageTooLong);
    }
    let row_selector = match parse_selector(ROW_PATTERN) {
        Some(selector) => selector,
        None => {
            return Err(ExtractionError::PatternRejected);
        },
    };
    let bag_selector = match parse_selector(BAG_PATTERN) {
        Some(selector) => selector,
        None => {
            return Err(ExtractionError::PatternRejected);
        },
    };
    let date_selector = match parse_selector(DATE_PATTERN) {
        Some(selector) => selector,
        None => {
            return Err(ExtractionError::PatternRejected);
        },
    };
    let document = parse_document(markup);
    let rows = select(&document, &row_selector);
    let ghost expected = page_rows(markup@, row_selector, bag_selector, date_selector);
    let mut entries: Vec<CollectionEntry> = Vec::new();
    let mut i: usize = 0;
    while i < rows.len()
        invariant
            i <= rows.len(),
            entries@.len() == i,
            rows@ == selected(parsed_document(markup@), row_selector),
            !contains_phrase(markup@, INVALID_REFERENCE_PHRASE@),
            markup@.len() <= PAGE_LIMIT,
            parsed_selector(ROW_PATTERN@) == Some(row_selector),
            parsed_selector(BAG_PATTERN@) == Some(bag_selector),
            parsed_selector(DATE_PATTERN@) == Some(date_selector),
            expected == page_rows(markup@, row_selector, bag_selector, date_selector),
            forall|j: int|
                0 <= j < i ==> #[trigger] expected[j] == Some(
                    (entries@[j].label@, entries@[j].raw_date@),
                ),
        decreases rows.len() - i,
    {
        let bag_nodes = read_field(&rows[i], &bag_selector);
        let date_nodes = read_field(&rows[i], &date_selector);
        match entry_from_nodes(i, &bag_nodes, &date_nodes) {
            Ok(entry) => {
                entries.push(entry);
            },
            Err(error) => {
                return Err(error);
            },
        }
        i = i + 1;
    }
    Ok(entries)
}

} // verus!
