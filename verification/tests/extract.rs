use bin_collections::extract::{
    entry_from_nodes, extract, ExtractionError, BAG_PATTERN, DATE_PATTERN,
    INVALID_REFERENCE_PHRASE, PAGE_LIMIT, ROW_PATTERN,
};
use bin_collections::schedule::CollectionEntry;

fn entry(label: &str, raw_date: &str) -> CollectionEntry {
    CollectionEntry { label: label.to_string(), raw_date: raw_date.to_string() }
}

fn row(classes: &str, bag: &str, date: &str) -> String {
    format!(
        "<div class=\"{}\"><div class=\"col-xs-2 col-sm-2\"><img src=\"bin.png\"></div><div class=\"col-xs-4 col-sm-4\">{}</div><div class=\"col-xs-6 col-sm-6\">{}</div></div>",
        classes, bag, date
    )
}

fn page(rows: &[String]) -> String {
    format!(
        "<!DOCTYPE html><html><head><title>Bin collections</title></head><body><h1>Your collections</h1>{}<p>Put your bins out by 6am.</p></body></html>",
        rows.concat()
    )
}

#[test]
fn reads_each_row_in_the_order_of_the_page() {
    let markup = page(&[
        row("row collectionsrow", "Black Bag", "Mon - 03 Jun 2024"),
        row("row collectionsrow", "Blue Bin", "Mon - 03 Jun 2024"),
        row("row collectionsrow", "Green or Brown Bin", "Mon - 10 Jun 2024"),
    ]);
    assert_eq!(
        extract(&markup),
        Ok(vec![
            entry("Black Bag", "Mon - 03 Jun 2024"),
            entry("Blue Bin", "Mon - 03 Jun 2024"),
            entry("Green or Brown Bin", "Mon - 10 Jun 2024"),
        ])
    );
}

#[test]
fn a_page_without_rows_has_no_entries() {
    assert_eq!(extract(""), Ok(vec![]));
    assert_eq!(extract(&page(&[])), Ok(vec![]));
    assert_eq!(extract("<div class=\"row\"><div class=\"col-xs-4 col-sm-4\">Black Bag</div></div>"), Ok(vec![]));
}

#[test]
fn leaves_out_the_collapsed_rows() {
    let markup = page(&[
        row("row collectionsrow panel-collapse", "Blue Bin", "Mon - 27 May 2024"),
        row("row collectionsrow", "Black Bag", "Mon - 03 Jun 2024"),
        row("panel-collapse row collectionsrow", "Green or Brown Bin", "Mon - 10 Jun 2024"),
    ]);
    assert_eq!(extract(&markup), Ok(vec![entry("Black Bag", "Mon - 03 Jun 2024")]));
}

#[test]
fn takes_rows_by_all_their_classes() {
    let markup = page(&[
        row("collectionsrow", "Blue Bin", "Mon - 27 May 2024"),
        row("row", "Blue Bin", "Mon - 27 May 2024"),
        row("row collectionsrow extra", "Black Bag", "Mon - 03 Jun 2024"),
    ]);
    assert_eq!(extract(&markup), Ok(vec![entry("Black Bag", "Mon - 03 Jun 2024")]));
}

#[test]
fn takes_the_text_as_it_stands() {
    let markup = page(&[row("row collectionsrow", "  Black Bag\n", " Mon - 03 Jun 2024 ")]);
    assert_eq!(extract(&markup), Ok(vec![entry("  Black Bag\n", " Mon - 03 Jun 2024 ")]));
}

#[test]
fn takes_the_last_text_node_of_a_field() {
    let markup = page(&[row(
        "row collectionsrow",
        "<strong>Next:</strong> Black Bag",
        "<span>was Fri - 31 May 2024</span><br>Mon - 03 Jun 2024",
    )]);
    assert_eq!(extract(&markup), Ok(vec![entry(" Black Bag", "Mon - 03 Jun 2024")]));
}

#[test]
fn takes_the_first_field_of_each_kind() {
    let markup = page(&["<div class=\"row collectionsrow\"><div class=\"col-xs-4 col-sm-4\">Black Bag</div><div class=\"col-xs-4 col-sm-4\">Blue Bin</div><div class=\"col-xs-6 col-sm-6\">Mon - 03 Jun 2024</div><div class=\"col-xs-6 col-sm-6\">Mon - 10 Jun 2024</div></div>".to_string()]);
    assert_eq!(extract(&markup), Ok(vec![entry("Black Bag", "Mon - 03 Jun 2024")]));
}

#[test]
fn finds_fields_that_lie_deeper_in_the_row() {
    let markup = page(&["<div class=\"row collectionsrow\"><div class=\"inner\"><div class=\"col-xs-4 col-sm-4\">Blue Bin</div></div><div><div><div class=\"col-sm-6 col-xs-6\">Mon - 10 Jun 2024</div></div></div></div>".to_string()]);
    assert_eq!(extract(&markup), Ok(vec![entry("Blue Bin", "Mon - 10 Jun 2024")]));
}

#[test]
fn a_row_without_a_bag_field_is_malformed() {
    let markup = page(&[
        row("row collectionsrow", "Black Bag", "Mon - 03 Jun 2024"),
        "<div class=\"row collectionsrow\"><div class=\"col-xs-6 col-sm-6\">Mon - 10 Jun 2024</div></div>".to_string(),
        row("row collectionsrow", "Blue Bin", "Mon - 17 Jun 2024"),
    ]);
    assert_eq!(extract(&markup), Err(ExtractionError::MalformedRow { index: 1 }));
}

#[test]
fn a_row_without_a_date_field_is_malformed() {
    let markup = page(&[
        "<div class=\"row collectionsrow\"><div class=\"col-xs-4 col-sm-4\">Black Bag</div></div>".to_string(),
        row("row collectionsrow", "Blue Bin", "Mon - 17 Jun 2024"),
    ]);
    assert_eq!(extract(&markup), Err(ExtractionError::MalformedRow { index: 0 }));
}

#[test]
fn a_field_without_text_is_malformed() {
    let markup = page(&[
        row("row collectionsrow", "Black Bag", "Mon - 03 Jun 2024"),
        row("row collectionsrow", "Blue Bin", "Mon - 03 Jun 2024"),
        row("row collectionsrow", "<img src=\"green.png\">", "Mon - 10 Jun 2024"),
    ]);
    assert_eq!(extract(&markup), Err(ExtractionError::MalformedRow { index: 2 }));
    let markup = page(&[row("row collectionsrow", "Black Bag", "")]);
    assert_eq!(extract(&markup), Err(ExtractionError::MalformedRow { index: 0 }));
}

#[test]
fn the_first_malformed_row_is_named() {
    let markup = page(&[
        row("row collectionsrow", "Black Bag", "Mon - 03 Jun 2024"),
        row("row collectionsrow", "", "Mon - 03 Jun 2024"),
        row("row collectionsrow", "Blue Bin", ""),
    ]);
    assert_eq!(extract(&markup), Err(ExtractionError::MalformedRow { index: 1 }));
}

#[test]
fn a_page_that_asks_for_an_address_is_an_invalid_reference() {
    let markup = "<html><body><p>Please select an address to view the upcoming collections.</p><select><option>1 High Street</option></select></body></html>";
    assert_eq!(extract(markup), Err(ExtractionError::InvalidReference));
    assert_eq!(extract(INVALID_REFERENCE_PHRASE), Err(ExtractionError::InvalidReference));
}

#[test]
fn an_invalid_reference_comes_before_the_rows() {
    let markup = page(&[
        row("row collectionsrow", "Black Bag", "Mon - 03 Jun 2024"),
        row("row collectionsrow", "", ""),
        "<p>Please select an address to view the upcoming collections.</p>".to_string(),
    ]);
    assert_eq!(extract(&markup), Err(ExtractionError::InvalidReference));
    let markup = format!("<div class=\"{}\"></div>", INVALID_REFERENCE_PHRASE);
    assert_eq!(extract(&markup), Err(ExtractionError::InvalidReference));
}

#[test]
fn the_sentence_must_stand_as_a_whole() {
    let markup = page(&[
        "<p>Please select an address to view the upcoming collections</p>".to_string(),
        "<p>please select an address to view the upcoming collections.</p>".to_string(),
        "<p>Please select an address to view the <b>upcoming</b> collections.</p>".to_string(),
        row("row collectionsrow", "Black Bag", "Mon - 03 Jun 2024"),
    ]);
    assert_eq!(extract(&markup), Ok(vec![entry("Black Bag", "Mon - 03 Jun 2024")]));
}

#[test]
fn the_patterns_are_selectors_that_the_engine_takes() {
    assert!(scraper::Selector::parse(ROW_PATTERN).is_ok());
    assert!(scraper::Selector::parse(BAG_PATTERN).is_ok());
    assert!(scraper::Selector::parse(DATE_PATTERN).is_ok());
    assert_ne!(extract("<p>nothing</p>"), Err(ExtractionError::PatternRejected));
}

#[test]
fn entry_from_nodes_takes_the_last_of_each() {
    let bag = Some(vec!["Next:".to_string(), "Black Bag".to_string()]);
    let date = Some(vec!["Mon - 03 Jun 2024".to_string()]);
    assert_eq!(entry_from_nodes(4, &bag, &date), Ok(entry("Black Bag", "Mon - 03 Jun 2024")));
}

#[test]
fn entry_from_nodes_names_the_row_that_lacks_a_text() {
    let some = Some(vec!["text".to_string()]);
    let empty: Option<Vec<String>> = Some(vec![]);
    assert_eq!(entry_from_nodes(0, &None, &some), Err(ExtractionError::MalformedRow { index: 0 }));
    assert_eq!(entry_from_nodes(1, &some, &None), Err(ExtractionError::MalformedRow { index: 1 }));
    assert_eq!(entry_from_nodes(2, &empty, &some), Err(ExtractionError::MalformedRow { index: 2 }));
    assert_eq!(entry_from_nodes(3, &some, &empty), Err(ExtractionError::MalformedRow { index: 3 }));
    assert_eq!(entry_from_nodes(9, &None, &None), Err(ExtractionError::MalformedRow { index: 9 }));
    assert_eq!(entry_from_nodes(5, &some, &some), Ok(entry("text", "text")));
}

#[test]
fn a_page_over_the_limit_is_too_long() {
    assert!(PAGE_LIMIT as u64 * 12 <= u32::MAX as u64);
    let mut markup = row("row collectionsrow", "Black Bag", "Mon - 03 Jun 2024");
    let padding = PAGE_LIMIT + 1 - markup.len();
    markup.push_str(&" ".repeat(padding));
    assert_eq!(markup.chars().count(), PAGE_LIMIT + 1);
    assert_eq!(extract(&markup), Err(ExtractionError::PageTooLong));
}

#[test]
fn an_invalid_reference_comes_before_the_length() {
    let mut markup = String::from(INVALID_REFERENCE_PHRASE);
    markup.push_str(&" ".repeat(PAGE_LIMIT));
    assert_eq!(extract(&markup), Err(ExtractionError::InvalidReference));
}

#[test]
fn a_long_page_within_the_limit_is_read() {
    let mut markup = row("row collectionsrow", "Black Bag", "Mon - 03 Jun 2024");
    markup.push_str(&"<p>Put your bins out by 6am.</p>\n".repeat(100_000));
    markup.push_str(&row("row collectionsrow", "Blue Bin", "Mon - 10 Jun 2024"));
    assert_eq!(
        extract(&markup),
        Ok(vec![entry("Black Bag", "Mon - 03 Jun 2024"), entry("Blue Bin", "Mon - 10 Jun 2024")])
    );
}
