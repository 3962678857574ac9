use bin_collections::bag::{BagType, BagTypeFlags};
use bin_collections::date::Date;
use bin_collections::schedule::{
    merge, merge_records, resolve_entry, CollectionDate, CollectionEntry, ParseError, Schedule,
};

fn entry(label: &str, raw_date: &str) -> CollectionEntry {
    CollectionEntry { label: label.to_string(), raw_date: raw_date.to_string() }
}

fn days(schedule: &Schedule) -> Vec<((u16, u8, u8), u8)> {
    schedule
        .collections()
        .iter()
        .map(|c| ((c.date().year(), c.date().month(), c.date().day()), c.bag_types().bits()))
        .collect()
}

#[test]
fn merge_of_nothing_is_empty() {
    let schedule = merge(&vec![]).unwrap();
    assert!(schedule.is_empty());
    assert_eq!(schedule.len(), 0);
    assert_eq!(schedule.get(0), None);
    assert_eq!(schedule, Schedule::new());
}

#[test]
fn merge_brings_the_rows_of_one_day_together() {
    let schedule = merge(&vec![
        entry("black bag", "Mon - 03 Jun 2024"),
        entry("blue bin", "Mon - 03 Jun 2024"),
    ])
    .unwrap();
    assert_eq!(schedule.len(), 1);
    let day = schedule.get(0).unwrap();
    assert_eq!(day.date(), Date::new(2024, 6, 3).unwrap());
    assert!(day.bag_types().contains(BagType::Black));
    assert!(day.bag_types().contains(BagType::Blue));
    assert!(!day.bag_types().contains(BagType::GreenOrBrown));
    assert_eq!(day.bag_types().bits(), 3);
}

#[test]
fn merge_puts_the_days_in_order() {
    let schedule = merge(&vec![
        entry("Blue Bin", "Mon - 17 Jun 2024"),
        entry("Black Bag", "Mon - 03 Jun 2024"),
        entry("Green or Brown Bin", "Mon - 10 Jun 2024"),
        entry("Black Bag", "Mon - 17 Jun 2024"),
        entry("Black Bag", "Mon - 27 May 2024"),
        entry("Black Bag", "Mon - 10 Jun 2024"),
        entry("Blue Bin", "Tue - 02 Jan 2024"),
        entry("Blue Bin", "Mon - 30 Dec 2024"),
    ])
    .unwrap();
    assert_eq!(
        days(&schedule),
        vec![
            ((2024, 1, 2), 2),
            ((2024, 5, 27), 1),
            ((2024, 6, 3), 1),
            ((2024, 6, 10), 5),
            ((2024, 6, 17), 3),
            ((2024, 12, 30), 2),
        ]
    );
    let all = schedule.collections();
    for i in 0..all.len() - 1 {
        assert!(all[i].date().is_before(&all[i + 1].date()));
    }
}

#[test]
fn merge_of_a_row_that_stands_twice_counts_it_once() {
    let schedule = merge(&vec![
        entry("Black Bag", "Mon - 03 Jun 2024"),
        entry("black bag", "Mon - 03 Jun 2024"),
    ])
    .unwrap();
    assert_eq!(days(&schedule), vec![((2024, 6, 3), 1)]);
}

#[test]
fn merging_again_gives_the_same_schedule() {
    let entries = vec![
        entry("Blue Bin", "Mon - 17 Jun 2024"),
        entry("Black Bag", "Mon - 03 Jun 2024"),
        entry("Green or Brown Bin", "Mon - 03 Jun 2024"),
    ];
    assert_eq!(merge(&entries), merge(&entries));
    let faulty = vec![entry("Blue Bin", "Mon - 17 Jun 2024"), entry("Tin", "Mon - 17 Jun 2024")];
    assert_eq!(merge(&faulty), merge(&faulty));
}

#[test]
fn merge_does_not_depend_on_the_order_of_the_rows() {
    let forward = vec![
        entry("Black Bag", "Mon - 03 Jun 2024"),
        entry("Blue Bin", "Mon - 03 Jun 2024"),
        entry("Green or Brown Bin", "Mon - 10 Jun 2024"),
    ];
    let backward: Vec<CollectionEntry> =
        forward.iter().rev().map(|e| entry(&e.label, &e.raw_date)).collect();
    assert_eq!(merge(&forward), merge(&backward));
}

#[test]
fn a_date_in_another_format_ends_the_merge() {
    let result = merge(&vec![
        entry("Black Bag", "Mon - 03 Jun 2024"),
        entry("Blue Bin", "03/06/2024"),
        entry("Green or Brown Bin", "Mon - 10 Jun 2024"),
    ]);
    assert_eq!(
        result,
        Err(ParseError::DateFormatError { index: 1, text: "03/06/2024".to_string() })
    );
}

#[test]
fn an_unknown_label_ends_the_merge() {
    let result = merge(&vec![
        entry("Black Bag", "Mon - 03 Jun 2024"),
        entry("Blue Bin", "Mon - 03 Jun 2024"),
        entry("Purple Sack", "Mon - 10 Jun 2024"),
    ]);
    assert_eq!(
        result,
        Err(ParseError::UnknownBagLabel { index: 2, label: "Purple Sack".to_string() })
    );
}

#[test]
fn the_first_entry_that_fails_is_named() {
    let result = merge(&vec![
        entry("Purple Sack", "Mon - 03 Jun 2024"),
        entry("Blue Bin", "never"),
    ]);
    assert_eq!(
        result,
        Err(ParseError::UnknownBagLabel { index: 0, label: "Purple Sack".to_string() })
    );
}

#[test]
fn the_date_of_an_entry_is_read_before_its_label() {
    let result = merge(&vec![entry("Purple Sack", "tomorrow")]);
    assert_eq!(result, Err(ParseError::DateFormatError { index: 0, text: "tomorrow".to_string() }));
}

#[test]
fn resolve_entry_understands_one_row() {
    assert_eq!(
        resolve_entry(0, &entry(" Blue Bin ", "Mon - 03 Jun 2024")),
        Ok(CollectionDate { bag_type: BagType::Blue, date: Date::new(2024, 6, 3).unwrap() })
    );
    assert_eq!(
        resolve_entry(7, &entry("Blue Bin", " Mon - 03 Jun 2024")),
        Err(ParseError::DateFormatError { index: 7, text: " Mon - 03 Jun 2024".to_string() })
    );
    assert_eq!(
        resolve_entry(8, &entry("Blue", "Mon - 03 Jun 2024")),
        Err(ParseError::UnknownBagLabel { index: 8, label: "Blue".to_string() })
    );
}

#[test]
fn merge_records_merges_what_is_understood_already() {
    let june3 = Date::new(2024, 6, 3).unwrap();
    let june10 = Date::new(2024, 6, 10).unwrap();
    let schedule = merge_records(&vec![
        CollectionDate { bag_type: BagType::GreenOrBrown, date: june10 },
        CollectionDate { bag_type: BagType::Blue, date: june3 },
        CollectionDate { bag_type: BagType::Black, date: june3 },
    ]);
    assert_eq!(days(&schedule), vec![((2024, 6, 3), 3), ((2024, 6, 10), 4)]);
    assert_eq!(
        schedule,
        merge(&vec![
            entry("Black Bag", "Mon - 03 Jun 2024"),
            entry("Blue Bin", "Mon - 03 Jun 2024"),
            entry("Green or Brown Bin", "Mon - 10 Jun 2024"),
        ])
        .unwrap()
    );
}

#[test]
fn absorbed_adds_to_a_day_or_makes_one() {
    let june3 = Date::new(2024, 6, 3).unwrap();
    let june10 = Date::new(2024, 6, 10).unwrap();
    let june17 = Date::new(2024, 6, 17).unwrap();
    let schedule = Schedule::new()
        .absorbed(june10, BagType::Black.flag())
        .absorbed(june17, BagType::Blue.flag())
        .absorbed(june3, BagType::GreenOrBrown.flag())
        .absorbed(june10, BagType::Blue.flag().union(BagType::GreenOrBrown.flag()))
        .absorbed(june17, BagTypeFlags::empty());
    assert_eq!(days(&schedule), vec![((2024, 6, 3), 4), ((2024, 6, 10), 7), ((2024, 6, 17), 2)]);
    assert_eq!(schedule.get(1).unwrap().date(), june10);
    assert_eq!(schedule.get(3), None);
}
