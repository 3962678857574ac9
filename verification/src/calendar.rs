//! The schedule as an iCalendar document.
//!
//! Each collection is an all-day event. Its identity is made from its day
//! alone, so a calendar that reads the document again takes an event of
//! the same day for the event it knows. All events of one document carry
//! the sequence number and the time of the generation that made it.

use crate::bag::{join_phrase, BagType};
use crate::date::{
    append_compact_date, compact_date, compact_instant, CivilDate, Date, Instant, Timestamp,
};
use crate::schedule::{views, Collection, CollectionView, Schedule};
use crate::text::{append_decimal, append_fixed_hex, chars_of, decimal, digit_char, fixed_digits};
use vstd::prelude::*;

verus! {

/// The namespace for names that are URLs, of RFC 9562.
pub const URL_NAMESPACE: u128 = 0x6ba7b811_9dad_11d1_80b4_00c04fd430c8;

/// The address of the page that the collections are read from. It names
/// the namespace of the events.
pub const SOURCE_ADDRESS: &'static str = "https://eastcambs-self.achieveservice.com/\
appshost/firmstep/self/apps/custompage/bincollections";

/// The lines that open the document. They are the same in every document:
/// the version of the format, the product that wrote the document, the
/// calendar scale, the name and the time zone to show, and how often to
/// read the document again.
pub const CALENDAR_HEADER: &'static str = "BEGIN:VCALENDAR\r\n\
VERSION:2.0\r\n\
PRODID:-//bin_collections//Bin collection calendar//EN\r\n\
CALSCALE:GREGORIAN\r\n\
X-WR-CALNAME:Bin collections\r\n\
X-WR-TIMEZONE:Europe/London\r\n\
REFRESH-INTERVAL;VALUE=DURATION:PT12H\r\n\
X-PUBLISHED-TTL:PT12H\r\n";

/// The line that closes the document.
pub const CALENDAR_FOOTER: &'static str = "END:VCALENDAR\r\n";

/// The version-5 UUID that `uuid::Uuid::new_v5` derives from the UUID
/// `namespace` and the UTF-8 bytes of `name`, as a 128-bit number.
pub uninterp spec fn uuid_v5(namespace: u128, name: Seq<char>) -> u128;

/// Calls `uuid::Uuid::new_v5` with the UUID of the number `namespace` and
/// the bytes of `name`, and takes the result as a number. Trusted: the
/// result is `uuid_v5` of the two arguments, which says no more than that
/// it depends on the namespace and the name alone.
#[verifier::external_body]
fn new_uuid_v5(namespace: u128, name: &str) -> (uuid: u128)
    ensures
        uuid == uuid_v5(namespace, name@),
{
    uuid::Uuid::new_v5(&uuid::Uuid::from_u128(namespace), name.as_bytes()).as_u128()
}

/// A UUID in its usual writing: 32 hexadecimal digits in lower case, in
/// groups of 8, 4, 4, 4 and 12 with hyphens between them.
pub open spec fn uuid_text(uuid: u128) -> Seq<char> {
    let first = fixed_digits((uuid / 0x1_0000_0000_0000_0000_0000_0000u128) as nat, 16, 8);
    let second = fixed_digits((uuid / 0x1_0000_0000_0000_0000_0000u128) as nat, 16, 4);
    let third = fixed_digits((uuid / 0x1_0000_0000_0000_0000u128) as nat, 16, 4);
    let fourth = fixed_digits((uuid / 0x1_0000_0000_0000u128) as nat, 16, 4);
    let fifth = fixed_digits(uuid as nat, 16, 12);
    first + seq!['-'] + second + seq!['-'] + third + seq!['-'] + fourth + seq!['-'] + fifth
}

/// The namespace of the events: the UUID of the address of the page.
pub open spec fn calendar_namespace() -> u128 {
    uuid_v5(URL_NAMESPACE, SOURCE_ADDRESS@)
}

/// The identity of the event of a day: the UUID of the eight digits of the
/// day in the namespace of the events.
pub open spec fn uid_of(date: CivilDate) -> Seq<char> {
    uuid_text(uuid_v5(calendar_namespace(), compact_date(date)))
}

/// What an event is called: the kinds of waste of the day in words.
pub open spec fn summary_of(bags: Set<BagType>) -> Seq<char> {
    "Bin collection - "@ + join_phrase(bags)
}

/// The character has no meaning of its own in a text value of the format
/// and is written as it is.
pub open spec fn is_plain(c: char) -> bool {
    c != '\\' && c != ';' && c != ',' && c != '\n' && c != '\r'
}

/// How a character is written in a text value: a backslash before a
/// backslash, a semicolon and a comma, a backslash and `n` for a line feed,
/// and nothing for a carriage return, which the format cannot hold.
pub open spec fn escaped_char(c: char) -> Seq<char> {
    if c == '\\' {
        seq!['\\', '\\']
    } else if c == ';' {
        seq!['\\', ';']
    } else if c == ',' {
        seq!['\\', ',']
    } else if c == '\n' {
        seq!['\\', 'n']
    } else if c == '\r' {
        Seq::empty()
    } else {
        seq![c]
    }
}

/// How a text is written as a text value: each character as `escaped_char`
/// writes it.
pub open spec fn escaped(text: Seq<char>) -> Seq<char>
    decreases text.len(),
{
    if text.len() == 0 {
        Seq::empty()
    } else {
        escaped(text.drop_last()) + escaped_char(text.last())
    }
}

/// A text of plain characters is written as it is.
pub proof fn lemma_plain_text_is_kept(text: Seq<char>)
    requires
        forall|i: int| 0 <= i < text.len() ==> is_plain(#[trigger] text[i]),
    ensures
        escaped(text) == text,
    decreases text.len(),
{
    if text.len() > 0 {
        let init = text.drop_last();
        assert forall|i: int| 0 <= i < init.len() implies is_plain(#[trigger] init[i]) by {
            assert(init[i] == text[i]);
        }
        lemma_plain_text_is_kept(init);
        assert(is_plain(text[text.len() - 1]));
        assert(escaped(text) =~= text);
    }
}

/// Digits are as many as asked for, and they are plain characters.
pub proof fn lemma_digits_are_plain(n: nat, base: nat, width: nat)
    requires
        1 <= base <= 16,
    ensures
        fixed_digits(n, base, width).len() == width,
        forall|i: int| 0 <= i < width ==> is_plain(#[trigger] fixed_digits(n, base, width)[i]),
    decreases width,
{
    if width > 0 {
        lemma_digits_are_plain(n / base, base, (width - 1) as nat);
        let init = fixed_digits(n / base, base, (width - 1) as nat);
        let last = digit_char((n % base) as int);
        assert(is_plain(last));
        assert forall|i: int| 0 <= i < width implies is_plain(
            #[trigger] fixed_digits(n, base, width)[i],
        ) by {
            if i < width - 1 {
                assert(fixed_digits(n, base, width)[i] == init[i]);
            }
        }
    }
}

/// A UUID is written in 36 plain characters, so it stands in the document
/// as it is.
pub proof fn lemma_uuid_text_is_plain(uuid: u128)
    ensures
        uuid_text(uuid).len() == 36,
        escaped(uuid_text(uuid)) == uuid_text(uuid),
{
    let first = fixed_digits((uuid / 0x1_0000_0000_0000_0000_0000_0000u128) as nat, 16, 8);
    let second = fixed_digits((uuid / 0x1_0000_0000_0000_0000_0000u128) as nat, 16, 4);
    let third = fixed_digits((uuid / 0x1_0000_0000_0000_0000u128) as nat, 16, 4);
    let fourth = fixed_digits((uuid / 0x1_0000_0000_0000u128) as nat, 16, 4);
    let fifth = fixed_digits(uuid as nat, 16, 12);
    lemma_digits_are_plain((uuid / 0x1_0000_0000_0000_0000_0000_0000u128) as nat, 16, 8);
    lemma_digits_are_plain((uuid / 0x1_0000_0000_0000_0000_0000u128) as nat, 16, 4);
    lemma_digits_are_plain((uuid / 0x1_0000_0000_0000_0000u128) as nat, 16, 4);
    lemma_digits_are_plain((uuid / 0x1_0000_0000_0000u128) as nat, 16, 4);
    lemma_digits_are_plain(uuid as nat, 16, 12);
    let text = uuid_text(uuid);
    assert forall|i: int| 0 <= i < text.len() implies is_plain(#[trigger] text[i]) by {
        if i < 8 {
            assert(text[i] == first[i]);
        } else if i == 8 {
        } else if i < 13 {
            assert(text[i] == second[i - 9]);
        } else if i == 13 {
        } else if i < 18 {
            assert(text[i] == third[i - 14]);
        } else if i == 18 {
        } else if i < 23 {
            assert(text[i] == fourth[i - 19]);
        } else if i == 23 {
        } else {
            assert(text[i] == fifth[i - 24]);
        }
    }
    lemma_plain_text_is_kept(text);
}

/// The model of an event.
pub struct EventView {
    pub uid: Seq<char>,
    pub stamp: Instant,
    pub sequence: nat,
    pub start: CivilDate,
    pub summary: Seq<char>,
}

/// An all-day event of the calendar. It ends with the day after `start`.
#[derive(Debug, PartialEq, Eq)]
pub struct CalendarEvent {
    /// The identity of the event.
    pub uid: String,
    /// When the document of the event was generated.
    pub stamp: Timestamp,
    /// The sequence number of the generation.
    pub sequence: u64,
    /// The day of the event.
    pub start: Date,
    /// What the event is called.
    pub summary: String,
}

impl View for CalendarEvent {
    type V = EventView;

    open spec fn view(&self) -> EventView {
        EventView {
            uid: self.uid@,
            stamp: self.stamp@,
            sequence: self.sequence as nat,
            start: self.start@,
            summary: self.summary@,
        }
    }
}

/// The event of a collection in the generation with this sequence number
/// and this time.
pub open spec fn event_of(day: CollectionView, sequence: nat, stamp: Instant) -> EventView {
    EventView {
        uid: uid_of(day.date),
        stamp,
        sequence,
        start: day.date,
        summary: summary_of(day.bags),
    }
}

/// The events of a schedule, one for each collection, in the order of the
/// days.
pub open spec fn events_of(days: Seq<CollectionView>, sequence: nat, stamp: Instant) -> Seq<
    EventView,
> {
    days.map_values(|day: CollectionView| event_of(day, sequence, stamp))
}

/// The lines of an event. The event starts with its day and ends with the
/// day after, which is not part of the event. The identity and the summary
/// are written as text values.
pub open spec fn event_text(event: EventView) -> Seq<char> {
    "BEGIN:VEVENT\r\nUID:"@ + escaped(event.uid) + "\r\nDTSTAMP:"@ + compact_instant(event.stamp)
        + "\r\nLAST-MODIFIED:"@ + compact_instant(event.stamp) + "\r\nSEQUENCE:"@ + decimal(
        event.sequence,
    ) + "\r\nDTSTART;VALUE=DATE:"@ + compact_date(event.start) + "\r\nDTEND;VALUE=DATE:"@
        + compact_date(event.start.next()) + "\r\nSUMMARY:"@ + escaped(event.summary)
        + "\r\nEND:VEVENT\r\n"@
}

/// The lines of the events, one event after the other.
pub open spec fn events_text(events: Seq<EventView>) -> Seq<char>
    decreases events.len(),
{
    if events.len() == 0 {
        Seq::empty()
    } else {
        events_text(events.drop_last()) + event_text(events.last())
    }
}

/// The document of the events.
pub open spec fn calendar_text(events: Seq<EventView>) -> Seq<char> {
    CALENDAR_HEADER@ + events_text(events) + CALENDAR_FOOTER@
}

/// The views of the events.
pub open spec fn event_views(events: Seq<CalendarEvent>) -> Seq<EventView> {
    events.map_values(|event: CalendarEvent| event@)
}

/// A UUID in its usual writing.
pub fn uuid_to_text(uuid: u128) -> (text: String)
    ensures
        text@ == uuid_text(uuid),
{
    proof {
        reveal_strlit("-");
        assert("-"@ =~= seq!['-']);
    }
    let mut text = String::new();
    append_fixed_hex(&mut text, uuid / 0x1_0000_0000_0000_0000_0000_0000u128, 8);
    text.append("-");
    append_fixed_hex(&mut text, uuid / 0x1_0000_0000_0000_0000_0000u128, 4);
    text.append("-");
    append_fixed_hex(&mut text, uuid / 0x1_0000_0000_0000_0000u128, 4);
    text.append("-");
    append_fixed_hex(&mut text, uuid / 0x1_0000_0000_0000u128, 4);
    text.append("-");
    append_fixed_hex(&mut text, uuid, 12);
    assert(text@ =~= uuid_text(uuid));
    text
}

/// The identity of the event of a day in a namespace.
pub fn uid_in_namespace(namespace: u128, date: &Date) -> (uid: String)
    ensures
        uid@ == uuid_text(uuid_v5(namespace, compact_date(date@))),
{
    let name = date.to_compact();
    uuid_to_text(new_uuid_v5(namespace, name.as_str()))
}

/// The identity of the event of a day. It is the same whenever it is asked
/// for.
pub fn event_uid(date: &Date) -> (uid: String)
    ensures
        uid@ == uid_of(date@),
{
    uid_in_namespace(new_uuid_v5(URL_NAMESPACE, SOURCE_ADDRESS), date)
}

/// The events of a schedule for the generation with this sequence number
/// and this time.
pub fn calendar_events(schedule: &Schedule, sequence: u64, generated_at: &Timestamp) -> (events:
    Vec<CalendarEvent>)
    ensures
        event_views(events@) == events_of(schedule@, sequence as nat, generated_at@),
{
    let namespace = new_uuid_v5(URL_NAMESPACE, SOURCE_ADDRESS);
    let days = schedule.collections();
    let mut events: Vec<CalendarEvent> = Vec::new();
    let mut i: usize = 0;
    while i < days.len()
        invariant
            i <= days.len(),
            events@.len() == i,
            namespace == calendar_namespace(),
            views(days@) == schedule@,
            forall|j: int|
                0 <= j < i ==> (#[trigger] events@[j])@ == event_of(
                    schedule@[j],
                    sequence as nat,
                    generated_at@,
                ),
        decreases days.len() - i,
    {
        let day: &Collection = &days[i];
        assert(day@ == schedule@[i as int]);
        let start = day.date();
        let mut summary = "Bin collection - ".to_owned();
        let phrase = day.bag_types().join_phrase();
        summary.append(phrase.as_str());
        events.push(
            CalendarEvent {
                uid: uid_in_namespace(namespace, &start),
                stamp: *generated_at,
                sequence,
                start,
                summary,
            },
        );
        i = i + 1;
    }
    assert(event_views(events@) =~= events_of(schedule@, sequence as nat, generated_at@));
    events
}

/// Appends `text` to `out` as a text value of the format.
pub fn append_escaped(out: &mut String, text: &str)
    ensures
        final(out)@ == old(out)@ + escaped(text@),
{
    let ghost before = out@;
    let chars = chars_of(text);
    let mut start: usize = 0;
    let mut i: usize = 0;
    proof {
        reveal_strlit("\\\\");
        reveal_strlit("\\;");
        reveal_strlit("\\,");
        reveal_strlit("\\n");
        assert(text@.subrange(0, 0) =~= Seq::<char>::empty());
        assert(out@ + text@.subrange(0, 0) =~= before + escaped(text@.subrange(0, 0)));
    }
    while i < chars.len()
        invariant
            start <= i <= chars.len(),
            chars@ == text@,
            "\\\\"@ =~= seq!['\\', '\\'],
            "\\;"@ =~= seq!['\\', ';'],
            "\\,"@ =~= seq!['\\', ','],
            "\\n"@ =~= seq!['\\', 'n'],
            out@ + text@.subrange(start as int, i as int) == before + escaped(
                text@.subrange(0, i as int),
            ),
        decreases chars.len() - i,
    {
        let c = chars[i];
        let ghost pending = text@.subrange(start as int, i as int);
        let ghost upto = text@.subrange(0, i + 1);
        proof {
            assert(upto.drop_last() =~= text@.subrange(0, i as int));
            assert(upto.last() == c);
        }
        if c == '\\' || c == ';' || c == ',' || c == '\n' || c == '\r' {
            out.append(text.substring_char(start, i));
            if c == '\\' {
                out.append("\\\\");
            } else if c == ';' {
                out.append("\\;");
            } else if c == ',' {
                out.append("\\,");
            } else if c == '\n' {
                out.append("\\n");
            }
            start = i + 1;
            proof {
                assert(text@.subrange(start as int, i + 1) =~= Seq::<char>::empty());
                assert(out@ + text@.subrange(start as int, i + 1) =~= before + escaped(upto));
            }
        } else {
            proof {
                assert(text@.subrange(start as int, i + 1) =~= pending.push(c));
                assert(escaped(upto) =~= escaped(text@.subrange(0, i as int)).push(c));
                assert(out@ + pending.push(c) =~= (out@ + pending).push(c));
                assert(out@ + text@.subrange(start as int, i + 1) =~= before + escaped(upto));
            }
        }
        i = i + 1;
    }
    out.append(text.substring_char(start, i));
    assert(text@.subrange(0, i as int) =~= text@);
}

fn append_event(out: &mut String, event: &CalendarEvent)
    ensures
        final(out)@ == old(out)@ + event_text(event@),
{
    let stamp = event.stamp.to_compact();
    let end = event.start.day_after();
    out.append("BEGIN:VEVENT\r\nUID:");
    append_escaped(out, event.uid.as_str());
    out.append("\r\nDTSTAMP:");
    out.append(stamp.as_str());
    out.append("\r\nLAST-MODIFIED:");
    out.append(stamp.as_str());
    out.append("\r\nSEQUENCE:");
    append_decimal(out, event.sequence);
    out.append("\r\nDTSTART;VALUE=DATE:");
    append_compact_date(out, event.start.year(), event.start.month(), event.start.day());
    out.append("\r\nDTEND;VALUE=DATE:");
    append_compact_date(out, end.0, end.1, end.2);
    out.append("\r\nSUMMARY:");
    append_escaped(out, event.summary.as_str());
    out.append("\r\nEND:VEVENT\r\n");
    assert(final(out)@ =~= old(out)@ + event_text(event@));
}

/// The document of the events.
pub fn render_calendar(events: &Vec<CalendarEvent>) -> (document: String)
    ensures
        document@ == calendar_text(event_views(events@)),
{
    let mut document = CALENDAR_HEADER.to_owned();
    let mut i: usize = 0;
    assert(event_views(events@).subrange(0, 0) =~= Seq::empty());
    while i < events.len()
        invariant
            i <= events.len(),
            document@ == CALENDAR_HEADER@ + events_text(event_views(events@).subrange(0, i as int)),
        decreases events.len() - i,
    {
        append_event(&mut document, &events[i]);
        proof {
            let upto = event_views(events@).subrange(0, i + 1);
            assert(upto.drop_last() =~= event_views(events@).subrange(0, i as int));
            assert(upto.last() == events@[i as int]@);
            assert(document@ =~= CALENDAR_HEADER@ + events_text(upto));
        }
        i = i + 1;
    }
    assert(event_views(events@).subrange(0, i as int) =~= event_views(events@));
    document.append(CALENDAR_FOOTER);
    document
}

/// The counter of the generations of one calendar. It starts at 0 and goes
/// up by one with each document.
#[derive(Debug)]
pub struct GenerationSequence {
    next: u64,
}

impl View for GenerationSequence {
    type V = nat;

    closed spec fn view(&self) -> nat {
        self.next as nat
    }
}

impl GenerationSequence {
    /// The counter before the first generation.
    pub fn new() -> (sequence: GenerationSequence)
        ensures
            sequence@ == 0,
    {
        GenerationSequence { next: 0 }
    }

    /// The counter that has made `generations` documents already.
    pub fn resumed(generations: u64) -> (sequence: GenerationSequence)
        ensures
            sequence@ == generations,
    {
        GenerationSequence { next: generations }
    }

    /// The sequence number that the next document gets.
    pub fn current(&self) -> (number: u64)
        ensures
            number == self@,
    {
        self.next
    }

    /// Whether the counter has come to the last number that it can hold,
    /// so that no further document can be made with it.
    pub fn is_exhausted(&self) -> (exhausted: bool)
        ensures
            exhausted == (self@ >= u64::MAX),
    {
        self.next == u64::MAX
    }
}

/// Writes the schedule as a calendar document: one all-day event for each
/// collection. Every event carries the number that `sequence` holds at the
/// call, and the time `generated_at`; the counter then goes up by one.
pub fn synthesize(schedule: &Schedule, sequence: &mut GenerationSequence, generated_at: &Timestamp)
    -> (document: String)
    requires
        old(sequence)@ < u64::MAX,
    ensures
        document@ == calendar_text(events_of(schedule@, old(sequence)@, generated_at@)),
        final(sequence)@ == old(sequence)@ + 1,
{
    let number = sequence.next;
    let events = calendar_events(schedule, number, generated_at);
    let document = render_calendar(&events);
    sequence.next = number + 1;
    document
}

/// Two generations of one schedule give each day the same identity, and
/// each event the sequence number of its own generation: the events differ
/// in that number where the generations do. The identity is written into
/// the document as it is.
pub proof fn lemma_uid_stable(
    days: Seq<CollectionView>,
    first: nat,
    first_at: Instant,
    second: nat,
    second_at: Instant,
    i: int,
)
    requires
        0 <= i < days.len(),
    ensures
        events_of(days, first, first_at).len() == days.len(),
        events_of(days, second, second_at).len() == days.len(),
        events_of(days, first, first_at)[i].uid == events_of(days, second, second_at)[i].uid,
        events_of(days, first, first_at)[i].uid == uid_of(days[i].date),
        escaped(uid_of(days[i].date)) == uid_of(days[i].date),
        events_of(days, first, first_at)[i].sequence == first,
        events_of(days, second, second_at)[i].sequence == second,
        first != second ==> events_of(days, first, first_at)[i].sequence != events_of(
            days,
            second,
            second_at,
        )[i].sequence,
{
    lemma_uuid_text_is_plain(uuid_v5(calendar_namespace(), compact_date(days[i].date)));
}

} // verus!
