use bin_collections::bag::BagType;
use bin_collections::calendar::{
    append_escaped, calendar_events, event_uid, render_calendar, synthesize, uid_in_namespace,
    uuid_to_text, CalendarEvent, GenerationSequence, CALENDAR_FOOTER, CALENDAR_HEADER,
    SOURCE_ADDRESS, URL_NAMESPACE,
};
use bin_collections::date::{Date, Timestamp};
use bin_collections::schedule::{merge, CollectionEntry, Schedule};

fn entry(label: &str, raw_date: &str) -> CollectionEntry {
    CollectionEntry { label: label.to_string(), raw_date: raw_date.to_string() }
}

fn two_days() -> Schedule {
    merge(&vec![
        entry("Black Bag", "Mon - 03 Jun 2024"),
        entry("Blue Bin", "Mon - 03 Jun 2024"),
        entry("Green or Brown Bin", "Mon - 10 Jun 2024"),
    ])
    .unwrap()
}

fn stamp(hour: u8, minute: u8, second: u8) -> Timestamp {
    Timestamp::new(Date::new(2024, 5, 31).unwrap(), hour, minute, second).unwrap()
}

fn lines_with<'a>(document: &'a str, prefix: &str) -> Vec<&'a str> {
    document.split("\r\n").filter(|line| line.starts_with(prefix)).collect()
}

#[test]
fn the_document_of_two_days() {
    let mut sequence = GenerationSequence::new();
    let document = synthesize(&two_days(), &mut sequence, &stamp(6, 15, 0));
    let expected = [
        "BEGIN:VCALENDAR",
        "VERSION:2.0",
        "PRODID:-//bin_collections//Bin collection calendar//EN",
        "CALSCALE:GREGORIAN",
        "X-WR-CALNAME:Bin collections",
        "X-WR-TIMEZONE:Europe/London",
        "REFRESH-INTERVAL;VALUE=DURATION:PT12H",
        "X-PUBLISHED-TTL:PT12H",
        "BEGIN:VEVENT",
        "UID:50a65e49-332c-536a-a716-3dd66029c95c",
        "DTSTAMP:20240531T061500Z",
        "LAST-MODIFIED:20240531T061500Z",
        "SEQUENCE:0",
        "DTSTART;VALUE=DATE:20240603",
        "DTEND;VALUE=DATE:20240604",
        "SUMMARY:Bin collection - black & blue",
        "END:VEVENT",
        "BEGIN:VEVENT",
        "UID:df59e474-75ce-5300-9dab-79f24eb6b7e9",
        "DTSTAMP:20240531T061500Z",
        "LAST-MODIFIED:20240531T061500Z",
        "SEQUENCE:0",
        "DTSTART;VALUE=DATE:20240610",
        "DTEND;VALUE=DATE:20240611",
        "SUMMARY:Bin collection - green/brown",
        "END:VEVENT",
        "END:VCALENDAR",
        "",
    ]
    .join("\r\n");
    assert_eq!(document, expected);
    assert_eq!(sequence.current(), 1);
}

#[test]
fn the_document_of_no_days() {
    let mut sequence = GenerationSequence::resumed(41);
    let document = synthesize(&Schedule::new(), &mut sequence, &stamp(0, 0, 0));
    assert_eq!(document, format!("{}{}", CALENDAR_HEADER, CALENDAR_FOOTER));
    assert!(document.starts_with("BEGIN:VCALENDAR\r\n"));
    assert!(document.ends_with("END:VCALENDAR\r\n"));
    assert_eq!(sequence.current(), 42);
}

#[test]
fn each_document_takes_the_next_sequence_number() {
    let schedule = two_days();
    let mut sequence = GenerationSequence::new();
    assert_eq!(sequence.current(), 0);
    let first = synthesize(&schedule, &mut sequence, &stamp(6, 0, 0));
    assert_eq!(sequence.current(), 1);
    let second = synthesize(&schedule, &mut sequence, &stamp(18, 0, 0));
    assert_eq!(sequence.current(), 2);
    assert_eq!(lines_with(&first, "SEQUENCE:"), vec!["SEQUENCE:0", "SEQUENCE:0"]);
    assert_eq!(lines_with(&second, "SEQUENCE:"), vec!["SEQUENCE:1", "SEQUENCE:1"]);
    assert_eq!(lines_with(&first, "DTSTAMP:"), vec!["DTSTAMP:20240531T060000Z"; 2]);
    assert_eq!(lines_with(&second, "DTSTAMP:"), vec!["DTSTAMP:20240531T180000Z"; 2]);
    assert_eq!(lines_with(&second, "LAST-MODIFIED:"), vec!["LAST-MODIFIED:20240531T180000Z"; 2]);
}

#[test]
fn the_identity_of_a_day_stays_from_one_document_to_the_next() {
    let schedule = two_days();
    let mut sequence = GenerationSequence::new();
    let first = synthesize(&schedule, &mut sequence, &stamp(6, 0, 0));
    let mut later = GenerationSequence::resumed(1000);
    let second = synthesize(&schedule, &mut later, &stamp(7, 30, 0));
    assert_eq!(lines_with(&first, "UID:"), lines_with(&second, "UID:"));
    assert_eq!(lines_with(&first, "UID:").len(), 2);
    assert_ne!(lines_with(&first, "SEQUENCE:"), lines_with(&second, "SEQUENCE:"));
    assert_eq!(lines_with(&second, "SEQUENCE:"), vec!["SEQUENCE:1000"; 2]);
}

#[test]
fn the_identity_of_a_day_does_not_depend_on_its_bags() {
    let one = merge(&vec![entry("Black Bag", "Mon - 03 Jun 2024")]).unwrap();
    let other = merge(&vec![entry("Blue Bin", "Mon - 03 Jun 2024")]).unwrap();
    let at = stamp(6, 0, 0);
    let a = calendar_events(&one, 3, &at);
    let b = calendar_events(&other, 9, &at);
    assert_eq!(a[0].uid, b[0].uid);
    assert_eq!(a[0].sequence, 3);
    assert_eq!(b[0].sequence, 9);
    assert_ne!(a[0].summary, b[0].summary);
}

#[test]
fn identities_are_name_based_uuids_of_the_day() {
    assert_eq!(event_uid(&Date::new(2024, 6, 3).unwrap()), "50a65e49-332c-536a-a716-3dd66029c95c");
    assert_eq!(event_uid(&Date::new(2024, 6, 10).unwrap()), "df59e474-75ce-5300-9dab-79f24eb6b7e9");
    assert_eq!(event_uid(&Date::new(2024, 2, 29).unwrap()), "726296a3-e9b3-5cb3-91bc-58d1a9f0e0b2");
    assert_eq!(event_uid(&Date::new(1, 1, 1).unwrap()), "0da98e34-89fc-5398-b963-6ee0ed1b2717");
    assert_eq!(event_uid(&Date::new(9999, 12, 31).unwrap()), "09616207-873b-5eab-bb19-d084f4be8cd3");
}

#[test]
fn identities_agree_with_the_uuid_crate() {
    let namespace = uuid::Uuid::new_v5(&uuid::Uuid::NAMESPACE_URL, SOURCE_ADDRESS.as_bytes());
    assert_eq!(uuid::Uuid::NAMESPACE_URL.as_u128(), URL_NAMESPACE);
    for (year, month, day) in [(2024, 6, 3), (2025, 1, 1), (1999, 12, 31)] {
        let date = Date::new(year, month, day).unwrap();
        let expected = uuid::Uuid::new_v5(&namespace, date.to_compact().as_bytes());
        assert_eq!(event_uid(&date), expected.hyphenated().to_string());
        assert_eq!(uid_in_namespace(namespace.as_u128(), &date), expected.hyphenated().to_string());
    }
}

#[test]
fn a_uuid_is_written_in_five_groups() {
    assert_eq!(uuid_to_text(0), "00000000-0000-0000-0000-000000000000");
    assert_eq!(uuid_to_text(u128::MAX), "ffffffff-ffff-ffff-ffff-ffffffffffff");
    assert_eq!(
        uuid_to_text(0xa1a2a3a4_b1b2_c1c2_d1d2_d3d4d5d6d7d8),
        "a1a2a3a4-b1b2-c1c2-d1d2-d3d4d5d6d7d8"
    );
    assert_eq!(uuid_to_text(URL_NAMESPACE), "6ba7b811-9dad-11d1-80b4-00c04fd430c8");
    assert_eq!(
        uuid_to_text(0x0123_4567_89ab_cdef_0123_4567_89ab_cdef),
        uuid::Uuid::from_u128(0x0123_4567_89ab_cdef_0123_4567_89ab_cdef).hyphenated().to_string()
    );
}

#[test]
fn the_events_of_a_schedule() {
    let at = stamp(6, 15, 0);
    let events = calendar_events(&two_days(), 5, &at);
    assert_eq!(
        events,
        vec![
            CalendarEvent {
                uid: "50a65e49-332c-536a-a716-3dd66029c95c".to_string(),
                stamp: at,
                sequence: 5,
                start: Date::new(2024, 6, 3).unwrap(),
                summary: "Bin collection - black & blue".to_string(),
            },
            CalendarEvent {
                uid: "df59e474-75ce-5300-9dab-79f24eb6b7e9".to_string(),
                stamp: at,
                sequence: 5,
                start: Date::new(2024, 6, 10).unwrap(),
                summary: "Bin collection - green/brown".to_string(),
            },
        ]
    );
    let mut sequence = GenerationSequence::resumed(5);
    assert_eq!(render_calendar(&events), synthesize(&two_days(), &mut sequence, &at));
}

#[test]
fn an_event_ends_with_the_day_after_its_start() {
    let schedule = merge(&vec![
        entry("Black Bag", "Thu - 29 Feb 2024"),
        entry("Black Bag", "Tue - 31 Dec 2024"),
        entry("Blue Bin", "Sun - 30 Jun 2024"),
    ])
    .unwrap();
    let mut sequence = GenerationSequence::new();
    let document = synthesize(&schedule, &mut sequence, &stamp(1, 2, 3));
    assert_eq!(
        lines_with(&document, "DTSTART"),
        vec!["DTSTART;VALUE=DATE:20240229", "DTSTART;VALUE=DATE:20240630", "DTSTART;VALUE=DATE:20241231"]
    );
    assert_eq!(
        lines_with(&document, "DTEND"),
        vec!["DTEND;VALUE=DATE:20240301", "DTEND;VALUE=DATE:20240701", "DTEND;VALUE=DATE:20250101"]
    );
}

#[test]
fn the_last_day_of_all_ends_in_a_year_of_five_digits() {
    let last = Date::new(9999, 12, 31).unwrap();
    let schedule = Schedule::new().absorbed(last, BagType::Black.flag());
    let mut sequence = GenerationSequence::new();
    let document = synthesize(&schedule, &mut sequence, &stamp(0, 0, 0));
    assert_eq!(lines_with(&document, "DTSTART"), vec!["DTSTART;VALUE=DATE:99991231"]);
    assert_eq!(lines_with(&document, "DTEND"), vec!["DTEND;VALUE=DATE:100000101"]);
}

#[test]
fn the_summary_names_the_bags() {
    let schedule = merge(&vec![
        entry("Black Bag", "Mon - 03 Jun 2024"),
        entry("Blue Bin", "Mon - 03 Jun 2024"),
        entry("Green or Brown Bin", "Mon - 03 Jun 2024"),
        entry("Blue Bin", "Mon - 10 Jun 2024"),
    ])
    .unwrap();
    let mut sequence = GenerationSequence::new();
    let document = synthesize(&schedule, &mut sequence, &stamp(0, 0, 0));
    assert_eq!(
        lines_with(&document, "SUMMARY:"),
        vec!["SUMMARY:Bin collection - black\\, blue & green/brown", "SUMMARY:Bin collection - blue"]
    );
}

#[test]
fn a_counter_knows_when_it_is_exhausted() {
    assert!(!GenerationSequence::new().is_exhausted());
    assert!(!GenerationSequence::resumed(u64::MAX - 1).is_exhausted());
    assert!(GenerationSequence::resumed(u64::MAX).is_exhausted());
    let mut sequence = GenerationSequence::resumed(u64::MAX - 1);
    let document = synthesize(&two_days(), &mut sequence, &stamp(0, 0, 0));
    assert_eq!(lines_with(&document, "SEQUENCE:"), vec!["SEQUENCE:18446744073709551614"; 2]);
    assert!(sequence.is_exhausted());
}

#[test]
fn text_values_are_escaped() {
    for (text, expected) in [
        ("", ""),
        ("plain text & more/less", "plain text & more/less"),
        ("a,b", "a\\,b"),
        ("a;b", "a\\;b"),
        ("a\\b", "a\\\\b"),
        ("line one\nline two", "line one\\nline two"),
        ("line one\r\nline two", "line one\\nline two"),
        (",;\\\n\r", "\\,\\;\\\\\\n"),
        ("ends with a comma,", "ends with a comma\\,"),
        (",starts with one", "\\,starts with one"),
        ("grün, blau; süß", "grün\\, blau\\; süß"),
    ] {
        let mut out = String::from("X:");
        append_escaped(&mut out, text);
        assert_eq!(out, format!("X:{}", expected));
    }
}

#[test]
fn an_event_of_any_text_keeps_to_its_lines() {
    let event = CalendarEvent {
        uid: "one\r\ntwo".to_string(),
        stamp: stamp(1, 2, 3),
        sequence: 7,
        start: Date::new(2024, 6, 3).unwrap(),
        summary: "Bins, bags; and\nmore".to_string(),
    };
    let document = render_calendar(&vec![event]);
    let body = &document[CALENDAR_HEADER.len()..document.len() - CALENDAR_FOOTER.len()];
    assert_eq!(
        body,
        "BEGIN:VEVENT\r\nUID:one\\ntwo\r\nDTSTAMP:20240531T010203Z\r\nLAST-MODIFIED:20240531T010203Z\r\nSEQUENCE:7\r\nDTSTART;VALUE=DATE:20240603\r\nDTEND;VALUE=DATE:20240604\r\nSUMMARY:Bins\\, bags\\; and\\nmore\r\nEND:VEVENT\r\n"
    );
}

#[test]
fn the_header_names_the_calendar() {
    assert_eq!(
        CALENDAR_HEADER,
        "BEGIN:VCALENDAR\r\nVERSION:2.0\r\nPRODID:-//bin_collections//Bin collection calendar//EN\r\nCALSCALE:GREGORIAN\r\nX-WR-CALNAME:Bin collections\r\nX-WR-TIMEZONE:Europe/London\r\nREFRESH-INTERVAL;VALUE=DURATION:PT12H\r\nX-PUBLISHED-TTL:PT12H\r\n"
    );
    assert_eq!(CALENDAR_FOOTER, "END:VCALENDAR\r\n");
    assert_eq!(
        SOURCE_ADDRESS,
        "https://eastcambs-self.achieveservice.com/appshost/firmstep/self/apps/custompage/bincollections"
    );
}
