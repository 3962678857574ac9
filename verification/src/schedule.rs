//! The schedule: one collection for each day, in the order of the days.
//!
//! The council's page lists each kind of waste in a row of its own, so a day
//! on which two kinds are collected stands there twice. Merging brings the
//! rows of one day together. An entry whose date or label cannot be read
//! ends the merge: the error names the entry, and no schedule is made.

use crate::bag::{bag_of_label, BagType, BagTypeFlags};
use crate::date::{date_of_text, parse_date, CivilDate, Date};
use vstd::prelude::*;

verus! {

/// One row of the page as it was read: the label of the kind of waste and
/// the text of the date.
#[derive(Debug, PartialEq, Eq)]
pub struct CollectionEntry {
    pub label: String,
    pub raw_date: String,
}

/// One row of the page once it is understood: a kind of waste and the day
/// on which it is collected.
#[derive(Clone, Copy, Debug, PartialEq, Eq, Structural)]
pub struct CollectionDate {
    pub bag_type: BagType,
    pub date: Date,
}

/// Why an entry could not be understood.
#[derive(Debug, PartialEq, Eq)]
pub enum ParseError {
    /// The date of the entry at `index` is not in the format of the page.
    DateFormatError { index: usize, text: String },
    /// The label of the entry at `index` names no kind of waste.
    UnknownBagLabel { index: usize, label: String },
}

/// The model of a collection: a day and the kinds collected on it.
pub struct CollectionView {
    pub date: CivilDate,
    pub bags: Set<BagType>,
}

/// A day and the kinds of waste collected on it.
#[derive(Clone, Copy, Debug, PartialEq, Eq, Structural)]
pub struct Collection {
    date: Date,
    bag_types: BagTypeFlags,
}

impl View for Collection {
    type V = CollectionView;

    closed spec fn view(&self) -> CollectionView {
        CollectionView { date: self.date@, bags: self.bag_types@ }
    }
}

impl Collection {
    /// The day.
    pub fn date(&self) -> (date: Date)
        ensures
            date@ == self@.date,
    {
        self.date
    }

    /// The kinds collected on the day.
    pub fn bag_types(&self) -> (bags: BagTypeFlags)
        ensures
            bags@ == self@.bags,
    {
        self.bag_types
    }
}

/// Each day comes before all the days after it.
pub open spec fn ascending(days: Seq<CollectionView>) -> bool {
    forall|i: int, j: int| 0 <= i < j < days.len() ==> (#[trigger] days[i]).date.precedes(
        (#[trigger] days[j]).date,
    )
}

/// How many days at the front of `days` come before `date`: the place of
/// `date` among ascending days.
pub open spec fn slot(days: Seq<CollectionView>, date: CivilDate) -> int
    decreases days.len(),
{
    if days.len() == 0 || !days[0].date.precedes(date) {
        0
    } else {
        1 + slot(days.drop_first(), date)
    }
}

/// `days` with `bags` collected on `date` as well: added to the collection
/// of that day where there is one, else as a collection of its own, at the
/// place of the date.
pub open spec fn absorb(days: Seq<CollectionView>, date: CivilDate, bags: Set<BagType>) -> Seq<
    CollectionView,
> {
    let at = slot(days, date);
    if at < days.len() && days[at].date == date {
        days.update(at, CollectionView { date, bags: days[at].bags.union(bags) })
    } else {
        days.insert(at, CollectionView { date, bags })
    }
}

/// The schedule of the records: each record absorbed in turn, from none.
pub open spec fn merged(records: Seq<(CivilDate, BagType)>) -> Seq<CollectionView>
    decreases records.len(),
{
    if records.len() == 0 {
        Seq::empty()
    } else {
        absorb(merged(records.drop_last()), records.last().0, set![records.last().1])
    }
}

/// `bag` is collected on `date` according to `days`.
pub open spec fn collected(days: Seq<CollectionView>, date: CivilDate, bag: BagType) -> bool {
    exists|i: int|
        0 <= i < days.len() && (#[trigger] days[i]).date == date && days[i].bags.contains(bag)
}

/// `days` holds a collection on `date`.
pub open spec fn has_day(days: Seq<CollectionView>, date: CivilDate) -> bool {
    exists|i: int| 0 <= i < days.len() && (#[trigger] days[i]).date == date
}

/// A run of days out of ascending days is ascending, and has no empty day
/// where the whole has none.
pub proof fn lemma_part_of_schedule(days: Seq<CollectionView>, from: int, to: int)
    requires
        0 <= from <= to <= days.len(),
    ensures
        ascending(days) ==> ascending(days.subrange(from, to)),
        no_empty_day(days) ==> no_empty_day(days.subrange(from, to)),
{
    let part = days.subrange(from, to);
    if ascending(days) {
        assert forall|i: int, j: int| 0 <= i < j < part.len() implies (#[trigger] part[i])
            .date.precedes((#[trigger] part[j]).date) by {
            assert(part[i] == days[from + i] && part[j] == days[from + j]);
        }
    }
    if no_empty_day(days) {
        assert forall|i: int| 0 <= i < part.len() implies holds_some((#[trigger] part[i]).bags) by {
            assert(part[i] == days[from + i]);
        }
    }
}

/// The place that `slot` gives is the one place with only earlier days
/// before it and no earlier day at it.
pub proof fn lemma_slot(days: Seq<CollectionView>, date: CivilDate)
    ensures
        0 <= slot(days, date) <= days.len(),
        forall|i: int| 0 <= i < slot(days, date) ==> (#[trigger] days[i]).date.precedes(date),
        slot(days, date) < days.len() ==> !days[slot(days, date)].date.precedes(date),
    decreases days.len(),
{
    if days.len() == 0 || !days[0].date.precedes(date) {
    } else {
        let rest = days.drop_first();
        lemma_slot(rest, date);
        assert forall|i: int| 0 <= i < slot(days, date) implies (#[trigger] days[i]).date.precedes(
            date,
        ) by {
            if i > 0 {
                assert(days[i] == rest[i - 1]);
            }
        }
        if slot(days, date) < days.len() {
            assert(days[slot(days, date)] == rest[slot(rest, date)]);
        }
    }
}

/// A place with only earlier days before it and no earlier day at it is the
/// place that `slot` gives.
pub proof fn lemma_slot_found(days: Seq<CollectionView>, date: CivilDate, at: int)
    requires
        0 <= at <= days.len(),
        forall|i: int| 0 <= i < at ==> (#[trigger] days[i]).date.precedes(date),
        at < days.len() ==> !days[at].date.precedes(date),
    ensures
        slot(days, date) == at,
    decreases at,
{
    if at > 0 {
        let rest = days.drop_first();
        assert(days[0].date.precedes(date));
        assert forall|i: int| 0 <= i < at - 1 implies (#[trigger] rest[i]).date.precedes(date) by {
            assert(rest[i] == days[i + 1]);
        }
        lemma_slot_found(rest, date, at - 1);
    }
}

/// Ascending days stay ascending when a collection is absorbed, so no day
/// comes to stand twice.
pub proof fn lemma_absorb_ascending(days: Seq<CollectionView>, date: CivilDate, bags: Set<BagType>)
    requires
        ascending(days),
    ensures
        ascending(absorb(days, date, bags)),
        absorb(days, date, bags).len() == days.len() + (if has_day(days, date) {
            0int
        } else {
            1
        }),
{
    lemma_slot(days, date);
    let at = slot(days, date);
    let after = absorb(days, date, bags);
    if at < days.len() && days[at].date == date {
        assert(has_day(days, date));
        assert forall|i: int, j: int| 0 <= i < j < after.len() implies (#[trigger] after[i])
            .date.precedes((#[trigger] after[j]).date) by {
            assert(after[i].date == days[i].date);
            assert(after[j].date == days[j].date);
        }
    } else {
        assert(!has_day(days, date)) by {
            if has_day(days, date) {
                let i = choose|i: int| 0 <= i < days.len() && (#[trigger] days[i]).date == date;
                if i < at {
                    assert(days[i].date.precedes(date));
                } else {
                    assert(at < days.len());
                    if i > at {
                        assert(days[at].date.precedes(days[i].date));
                    }
                }
            }
        }
        assert forall|i: int, j: int| 0 <= i < j < after.len() implies (#[trigger] after[i])
            .date.precedes((#[trigger] after[j]).date) by {
            if j < at {
                assert(after[i] == days[i] && after[j] == days[j]);
            } else if j == at {
                assert(after[i] == days[i]);
            } else if i == at {
                assert(after[j] == days[j - 1]);
                if j - 1 > at {
                    assert(days[at].date.precedes(days[j - 1].date));
                }
            } else if i < at {
                assert(after[i] == days[i] && after[j] == days[j - 1]);
            } else {
                assert(after[i] == days[i - 1] && after[j] == days[j - 1]);
            }
        }
    }
}

/// After absorbing, a kind is collected on a day where it was before, or
/// where it is the kind and the day that were absorbed.
pub proof fn lemma_absorb_collected(
    days: Seq<CollectionView>,
    date: CivilDate,
    bags: Set<BagType>,
    on: CivilDate,
    bag: BagType,
)
    ensures
        collected(absorb(days, date, bags), on, bag) <==> collected(days, on, bag) || (on == date
            && bags.contains(bag)),
{
    lemma_slot(days, date);
    let at = slot(days, date);
    let after = absorb(days, date, bags);
    if at < days.len() && days[at].date == date {
        if collected(after, on, bag) {
            let i = choose|i: int|
                0 <= i < after.len() && (#[trigger] after[i]).date == on && after[i].bags.contains(
                    bag,
                );
            if i != at {
                assert(days[i] == after[i]);
            } else if !bags.contains(bag) {
                assert(days[at].bags.contains(bag));
            }
        }
        if collected(days, on, bag) {
            let i = choose|i: int|
                0 <= i < days.len() && (#[trigger] days[i]).date == on && days[i].bags.contains(
                    bag,
                );
            assert(after[i].date == on && after[i].bags.contains(bag));
        }
        if on == date && bags.contains(bag) {
            assert(after[at].date == on && after[at].bags.contains(bag));
        }
    } else {
        if collected(after, on, bag) {
            let i = choose|i: int|
                0 <= i < after.len() && (#[trigger] after[i]).date == on && after[i].bags.contains(
                    bag,
                );
            if i < at {
                assert(days[i] == after[i]);
            } else if i > at {
                assert(days[i - 1] == after[i]);
            }
        }
        if collected(days, on, bag) {
            let i = choose|i: int|
                0 <= i < days.len() && (#[trigger] days[i]).date == on && days[i].bags.contains(
                    bag,
                );
            if i < at {
                assert(after[i] == days[i]);
            } else {
                assert(after[i + 1] == days[i]);
            }
        }
        if on == date && bags.contains(bag) {
            assert(after[at].date == on && after[at].bags.contains(bag));
        }
    }
}

/// A merged schedule is in the order of its days: each day comes before
/// the next, and so no day stands twice.
pub proof fn lemma_merged_ascending(records: Seq<(CivilDate, BagType)>)
    ensures
        ascending(merged(records)),
        forall|i: int|
            0 <= i < merged(records).len() - 1 ==> (#[trigger] merged(records)[i]).date.precedes(
                merged(records)[i + 1].date,
            ),
        forall|i: int, j: int|
            0 <= i < merged(records).len() && 0 <= j < merged(records).len() && i != j ==> (
            #[trigger] merged(records)[i]).date != (#[trigger] merged(records)[j]).date,
    decreases records.len(),
{
    if records.len() > 0 {
        lemma_merged_ascending(records.drop_last());
        lemma_absorb_ascending(
            merged(records.drop_last()),
            records.last().0,
            set![records.last().1],
        );
    }
    let days = merged(records);
    assert forall|i: int, j: int|
        0 <= i < days.len() && 0 <= j < days.len() && i != j implies (#[trigger] days[i]).date != (
    #[trigger] days[j]).date by {
        if i < j {
            assert(days[i].date.precedes(days[j].date));
        } else {
            assert(days[j].date.precedes(days[i].date));
        }
    }
}

/// A merged schedule says that a kind is collected on a day exactly where
/// one of the records says so: rows of one day are brought together and
/// nothing is lost or made up.
pub proof fn lemma_merged_collected(records: Seq<(CivilDate, BagType)>, on: CivilDate, bag: BagType)
    ensures
        collected(merged(records), on, bag) <==> records.contains((on, bag)),
    decreases records.len(),
{
    if records.len() > 0 {
        let init = records.drop_last();
        lemma_merged_collected(init, on, bag);
        lemma_absorb_collected(merged(init), records.last().0, set![records.last().1], on, bag);
        if records.contains((on, bag)) {
            let j = choose|j: int| 0 <= j < records.len() && records[j] == (on, bag);
            if j < records.len() - 1 {
                assert(init[j] == (on, bag));
            }
        }
        if init.contains((on, bag)) {
            let j = choose|j: int| 0 <= j < init.len() && init[j] == (on, bag);
            assert(records[j] == (on, bag));
        }
        if on == records.last().0 && bag == records.last().1 {
            assert(records[records.len() - 1] == (on, bag));
        }
    }
}

/// The set holds a kind.
pub open spec fn holds_some(bags: Set<BagType>) -> bool {
    bags.contains(BagType::Black) || bags.contains(BagType::Blue) || bags.contains(
        BagType::GreenOrBrown,
    )
}

/// A kind that the set holds, where it holds one.
pub open spec fn some_bag(bags: Set<BagType>) -> BagType {
    if bags.contains(BagType::Black) {
        BagType::Black
    } else if bags.contains(BagType::Blue) {
        BagType::Blue
    } else {
        BagType::GreenOrBrown
    }
}

/// On every day of `days` something is collected.
pub open spec fn no_empty_day(days: Seq<CollectionView>) -> bool {
    forall|i: int| 0 <= i < days.len() ==> holds_some((#[trigger] days[i]).bags)
}

/// A merged schedule has no day without a collection.
pub proof fn lemma_merged_no_empty_day(records: Seq<(CivilDate, BagType)>)
    ensures
        no_empty_day(merged(records)),
    decreases records.len(),
{
    if records.len() > 0 {
        let before = merged(records.drop_last());
        let date = records.last().0;
        let bags = set![records.last().1];
        lemma_merged_no_empty_day(records.drop_last());
        lemma_slot(before, date);
        let at = slot(before, date);
        let after = absorb(before, date, bags);
        assert(holds_some(bags));
        assert forall|i: int| 0 <= i < after.len() implies holds_some(
            (#[trigger] after[i]).bags,
        ) by {
            if at < before.len() && before[at].date == date {
                assert(holds_some(before[i].bags));
            } else if i < at {
                assert(after[i] == before[i]);
            } else if i > at {
                assert(after[i] == before[i - 1]);
            }
        }
    }
}

/// Ascending days without an empty day are determined by what is collected
/// on which day: two such schedules that agree on that are the same.
pub proof fn lemma_schedule_determined(a: Seq<CollectionView>, b: Seq<CollectionView>)
    requires
        ascending(a),
        ascending(b),
        no_empty_day(a),
        no_empty_day(b),
        forall|date: CivilDate, bag: BagType| collected(a, date, bag) <==> collected(b, date, bag),
    ensures
        a == b,
    decreases a.len(),
{
    if a.len() == 0 || b.len() == 0 {
        if a.len() > 0 {
            assert(holds_some(a[0].bags));
            assert(collected(a, a[0].date, some_bag(a[0].bags)));
            assert(collected(b, a[0].date, some_bag(a[0].bags)));
        }
        if b.len() > 0 {
            assert(holds_some(b[0].bags));
            assert(collected(b, b[0].date, some_bag(b[0].bags)));
            assert(collected(a, b[0].date, some_bag(b[0].bags)));
        }
        assert(a =~= b);
    } else {
        let end_a = a.len() - 1;
        let end_b = b.len() - 1;
        assert(holds_some(a[end_a].bags));
        assert(collected(a, a[end_a].date, some_bag(a[end_a].bags)));
        assert(collected(b, a[end_a].date, some_bag(a[end_a].bags)));
        let j = choose|j: int| 0 <= j < b.len() && (#[trigger] b[j]).date == a[end_a].date;
        assert(holds_some(b[end_b].bags));
        assert(collected(b, b[end_b].date, some_bag(b[end_b].bags)));
        assert(collected(a, b[end_b].date, some_bag(b[end_b].bags)));
        let i = choose|i: int| 0 <= i < a.len() && (#[trigger] a[i]).date == b[end_b].date;
        if j < end_b {
            assert(b[j].date.precedes(b[end_b].date));
        }
        if i < end_a {
            assert(a[i].date.precedes(a[end_a].date));
        }
        assert(a[end_a].date == b[end_b].date);
        let date = a[end_a].date;
        assert forall|bag: BagType| a[end_a].bags.contains(bag) <==> b[end_b].bags.contains(
            bag,
        ) by {
            if a[end_a].bags.contains(bag) {
                assert(collected(a, date, bag));
                assert(collected(b, date, bag));
                let k = choose|k: int|
                    0 <= k < b.len() && (#[trigger] b[k]).date == date && b[k].bags.contains(bag);
                if k < end_b {
                    assert(b[k].date.precedes(b[end_b].date));
                }
            }
            if b[end_b].bags.contains(bag) {
                assert(collected(b, date, bag));
                assert(collected(a, date, bag));
                let k = choose|k: int|
                    0 <= k < a.len() && (#[trigger] a[k]).date == date && a[k].bags.contains(bag);
                if k < end_a {
                    assert(a[k].date.precedes(a[end_a].date));
                }
            }
        }
        assert(a[end_a].bags =~= b[end_b].bags);
        let rest_a = a.drop_last();
        let rest_b = b.drop_last();
        assert forall|on: CivilDate, bag: BagType|
            collected(rest_a, on, bag) <==> collected(rest_b, on, bag) by {
            if collected(rest_a, on, bag) {
                let k = choose|k: int|
                    0 <= k < rest_a.len() && (#[trigger] rest_a[k]).date == on
                        && rest_a[k].bags.contains(bag);
                assert(a[k] == rest_a[k]);
                assert(a[k].date.precedes(a[end_a].date));
                assert(collected(a, on, bag));
                assert(collected(b, on, bag));
                let m = choose|m: int|
                    0 <= m < b.len() && (#[trigger] b[m]).date == on && b[m].bags.contains(bag);
                assert(m < end_b);
                assert(rest_b[m] == b[m]);
            }
            if collected(rest_b, on, bag) {
                let k = choose|k: int|
                    0 <= k < rest_b.len() && (#[trigger] rest_b[k]).date == on
                        && rest_b[k].bags.contains(bag);
                assert(b[k] == rest_b[k]);
                assert(b[k].date.precedes(b[end_b].date));
                assert(collected(b, on, bag));
                assert(collected(a, on, bag));
                let m = choose|m: int|
                    0 <= m < a.len() && (#[trigger] a[m]).date == on && a[m].bags.contains(bag);
                assert(m < end_a);
                assert(rest_a[m] == a[m]);
            }
        }
        lemma_part_of_schedule(a, 0, end_a);
        lemma_part_of_schedule(b, 0, end_b);
        lemma_schedule_determined(rest_a, rest_b);
        assert(a[end_a] == b[end_b]);
        assert(a =~= rest_a.push(a[end_a]));
        assert(b =~= rest_b.push(b[end_b]));
    }
}

/// The merged schedule does not depend on the order of the records, nor on
/// how often a record stands among them: records that say the same give the
/// same schedule.
pub proof fn lemma_merge_order_free(
    first: Seq<(CivilDate, BagType)>,
    second: Seq<(CivilDate, BagType)>,
)
    requires
        forall|record: (CivilDate, BagType)| first.contains(record) <==> second.contains(record),
    ensures
        merged(first) == merged(second),
{
    lemma_merged_ascending(first);
    lemma_merged_ascending(second);
    lemma_merged_no_empty_day(first);
    lemma_merged_no_empty_day(second);
    assert forall|date: CivilDate, bag: BagType|
        collected(merged(first), date, bag) <==> collected(merged(second), date, bag) by {
        lemma_merged_collected(first, date, bag);
        lemma_merged_collected(second, date, bag);
    }
    lemma_schedule_determined(merged(first), merged(second));
}

/// The views of the collections.
pub open spec fn views(days: Seq<Collection>) -> Seq<CollectionView> {
    days.map_values(|day: Collection| day@)
}

/// The collections at an address, one for each day, in the order of the
/// days.
#[derive(Debug, PartialEq, Eq)]
pub struct Schedule {
    days: Vec<Collection>,
}

impl View for Schedule {
    type V = Seq<CollectionView>;

    closed spec fn view(&self) -> Seq<CollectionView> {
        views(self.days@)
    }
}

impl Schedule {
    #[verifier::type_invariant]
    spec fn in_day_order(self) -> bool {
        ascending(self@)
    }

    /// The schedule of no collections.
    pub fn new() -> (schedule: Schedule)
        ensures
            schedule@ == Seq::<CollectionView>::empty(),
    {
        let schedule = Schedule { days: Vec::new() };
        assert(schedule@ =~= Seq::<CollectionView>::empty());
        schedule
    }

    /// The number of days with a collection.
    pub fn len(&self) -> (len: usize)
        ensures
            len == self@.len(),
    {
        self.days.len()
    }

    /// Whether there is no collection.
    pub fn is_empty(&self) -> (empty: bool)
        ensures
            empty == (self@.len() == 0),
    {
        self.days.len() == 0
    }

    /// The collections, in the order of their days.
    pub fn collections(&self) -> (days: &Vec<Collection>)
        ensures
            views(days@) == self@,
            ascending(self@),
    {
        proof {
            use_type_invariant(self);
        }
        &self.days
    }

    /// The collection at `index` in the order of the days, if there are
    /// that many.
    pub fn get(&self, index: usize) -> (day: Option<Collection>)
        ensures
            match day {
                Some(d) => index < self@.len() && d@ == self@[index as int],
                None => index >= self@.len(),
            },
    {
        if index < self.days.len() {
            Some(self.days[index])
        } else {
            None
        }
    }

    /// The schedule without the days before `first`. The page may still
    /// list days that are over; whether they count is for the caller to
    /// say, and this is how to leave them out.
    pub fn upcoming(&self, first: &Date) -> (schedule: Schedule)
        ensures
            schedule@ == self@.subrange(slot(self@, first@), self@.len() as int),
            forall|i: int|
                0 <= i < slot(self@, first@) ==> (#[trigger] self@[i]).date.precedes(first@),
            forall|i: int|
                0 <= i < schedule@.len() ==> !(#[trigger] schedule@[i]).date.precedes(first@),
    {
        proof {
            use_type_invariant(self);
            lemma_slot(self@, first@);
        }
        let mut at: usize = 0;
        while at < self.days.len() && self.days[at].date.is_before(first)
            invariant
                at <= self.days.len(),
                forall|i: int| 0 <= i < at ==> (#[trigger] self@[i]).date.precedes(first@),
            decreases self.days.len() - at,
        {
            at = at + 1;
        }
        proof {
            lemma_slot_found(self@, first@, at as int);
        }
        let mut days: Vec<Collection> = Vec::new();
        let mut i: usize = at;
        while i < self.days.len()
            invariant
                at <= i <= self.days.len(),
                days@ == self.days@.subrange(at as int, i as int),
            decreases self.days.len() - i,
        {
            days.push(self.days[i]);
            assert(days@ =~= self.days@.subrange(at as int, i + 1));
            i = i + 1;
        }
        let ghost rest = self@.subrange(at as int, self@.len() as int);
        assert(views(days@) =~= rest);
        proof {
            lemma_part_of_schedule(self@, at as int, self@.len() as int);
        }
        assert forall|i: int| 0 <= i < rest.len() implies !(#[trigger] rest[i]).date.precedes(
            first@,
        ) by {
            assert(rest[i] == self@[at + i]);
            if i > 0 {
                assert(self@[at as int].date.precedes(self@[at + i].date));
            }
        }
        Schedule { days }
    }

    /// The schedule with `bags` collected on `date` as well.
    pub fn absorbed(self, date: Date, bags: BagTypeFlags) -> (schedule: Schedule)
        ensures
            schedule@ == absorb(self@, date@, bags@),
    {
        proof {
            use_type_invariant(&self);
        }
        let ghost before = self@;
        let mut days = self.days;
        let mut at: usize = 0;
        while at < days.len() && days[at].date.is_before(&date)
            invariant
                at <= days.len(),
                views(days@) == before,
                forall|i: int| 0 <= i < at ==> (#[trigger] before[i]).date.precedes(date@),
            decreases days.len() - at,
        {
            at = at + 1;
        }
        proof {
            lemma_slot_found(before, date@, at as int);
            lemma_absorb_ascending(before, date@, bags@);
        }
        if at < days.len() && days[at].date.is_same_day(&date) {
            let both = days[at].bag_types.union(bags);
            days.set(at, Collection { date, bag_types: both });
        } else {
            days.insert(at, Collection { date, bag_types: bags });
        }
        assert(views(days@) =~= absorb(before, date@, bags@));
        Schedule { days }
    }
}

/// The day and kind of each record.
pub open spec fn records_of(records: Seq<CollectionDate>) -> Seq<(CivilDate, BagType)> {
    records.map_values(|record: CollectionDate| (record.date@, record.bag_type))
}

/// Merges rows that are understood already into a schedule.
pub fn merge_records(records: &Vec<CollectionDate>) -> (schedule: Schedule)
    ensures
        schedule@ == merged(records_of(records@)),
        ascending(schedule@),
        no_empty_day(schedule@),
        forall|date: CivilDate, bag: BagType|
            collected(schedule@, date, bag) <==> records_of(records@).contains((date, bag)),
{
    let mut schedule = Schedule::new();
    let mut i: usize = 0;
    assert(records_of(records@).subrange(0, 0) =~= Seq::empty());
    while i < records.len()
        invariant
            i <= records.len(),
            schedule@ == merged(records_of(records@).subrange(0, i as int)),
        decreases records.len() - i,
    {
        let record = records[i];
        schedule = schedule.absorbed(record.date, record.bag_type.flag());
        proof {
            let upto = records_of(records@).subrange(0, i + 1);
            assert(upto.drop_last() =~= records_of(records@).subrange(0, i as int));
            assert(upto.last() == (record.date@, record.bag_type));
        }
        i = i + 1;
    }
    proof {
        assert(records_of(records@).subrange(0, i as int) =~= records_of(records@));
        lemma_merged_ascending(records_of(records@));
        lemma_merged_no_empty_day(records_of(records@));
        assert forall|date: CivilDate, bag: BagType|
            collected(schedule@, date, bag) <==> records_of(records@).contains((date, bag)) by {
            lemma_merged_collected(records_of(records@), date, bag);
        }
    }
    schedule
}

/// What an entry comes to.
pub enum Reading {
    /// The entry says that `bag` is collected on `date`.
    Understood { date: CivilDate, bag: BagType },
    /// The text of the date is not a date in the format of the page.
    BadDate,
    /// The date is read, and the label names no kind of waste.
    BadLabel,
}

/// What an entry with this label and this date text comes to. The date is
/// read first.
pub open spec fn reading(label: Seq<char>, raw_date: Seq<char>) -> Reading {
    match date_of_text(raw_date) {
        None => Reading::BadDate,
        Some(date) => match bag_of_label(label) {
            None => Reading::BadLabel,
            Some(bag) => Reading::Understood { date, bag },
        },
    }
}

/// What the entry comes to.
pub open spec fn reading_of(entry: CollectionEntry) -> Reading {
    reading(entry.label@, entry.raw_date@)
}

/// Every entry is understood.
pub open spec fn all_understood(entries: Seq<CollectionEntry>) -> bool {
    forall|i: int| 0 <= i < entries.len() ==> (#[trigger] reading_of(entries[i])) is Understood
}

/// The day and kind that each entry gives, where every entry is understood.
pub open spec fn records_read(entries: Seq<CollectionEntry>) -> Seq<(CivilDate, BagType)> {
    Seq::new(
        entries.len(),
        |i: int| (reading_of(entries[i])->Understood_date, reading_of(entries[i])->Understood_bag),
    )
}

/// `index` is the first entry that is not understood.
pub open spec fn first_failure(entries: Seq<CollectionEntry>, index: int) -> bool {
    &&& 0 <= index < entries.len()
    &&& !(reading_of(entries[index]) is Understood)
    &&& forall|i: int| 0 <= i < index ==> (#[trigger] reading_of(entries[i])) is Understood
}

/// The row at `index` of the page, understood: its day and its kind of
/// waste, or the error that names the row and holds the text that was not
/// understood.
pub fn resolve_entry(index: usize, entry: &CollectionEntry) -> (record: Result<
    CollectionDate,
    ParseError,
>)
    ensures
        match reading_of(*entry) {
            Reading::Understood { date, bag } => record matches Ok(r) && r.date@ == date
                && r.bag_type == bag,
            Reading::BadDate => record matches Err(ParseError::DateFormatError { index: i, text })
                && i == index && text@ == entry.raw_date@,
            Reading::BadLabel => record matches Err(ParseError::UnknownBagLabel { index: i, label })
                && i == index && label@ == entry.label@,
        },
{
    match parse_date(entry.raw_date.as_str()) {
        None => Err(ParseError::DateFormatError { index, text: entry.raw_date.clone() }),
        Some(date) => match BagType::from_label(entry.label.as_str()) {
            None => Err(ParseError::UnknownBagLabel { index, label: entry.label.clone() }),
            Some(bag_type) => Ok(CollectionDate { bag_type, date }),
        },
    }
}

/// What `merge` returns for `entries`: the merged schedule where every entry
/// is understood, else the error of the first entry that is not.
pub open spec fn merge_result(
    entries: Seq<CollectionEntry>,
    result: Result<Schedule, ParseError>,
) -> bool {
    match result {
        Ok(schedule) => all_understood(entries) && schedule@ == merged(records_read(entries)),
        Err(ParseError::DateFormatError { index, text }) => {
            &&& first_failure(entries, index as int)
            &&& reading_of(entries[index as int]) is BadDate
            &&& text@ == entries[index as int].raw_date@
        },
        Err(ParseError::UnknownBagLabel { index, label }) => {
            &&& first_failure(entries, index as int)
            &&& reading_of(entries[index as int]) is BadLabel
            &&& label@ == entries[index as int].label@
        },
    }
}

/// Merges the rows of the page into a schedule: one collection for each
/// day, with all the kinds of that day, in the order of the days.
pub fn merge(entries: &Vec<CollectionEntry>) -> (result: Result<Schedule, ParseError>)
    ensures
        merge_result(entries@, result),
        result matches Ok(schedule) ==> {
            &&& ascending(schedule@)
            &&& no_empty_day(schedule@)
            &&& forall|date: CivilDate, bag: BagType|
                collected(schedule@, date, bag) <==> records_read(entries@).contains((date, bag))
        },
{
    let mut records: Vec<CollectionDate> = Vec::new();
    let mut i: usize = 0;
    while i < entries.len()
        invariant
            i <= entries.len(),
            records.len() == i,
            forall|j: int| 0 <= j < i ==> (#[trigger] reading_of(entries@[j])) is Understood,
            forall|j: int|
                0 <= j < i ==> (#[trigger] records@[j]).date@ == reading_of(
                    entries@[j],
                )->Understood_date,
            forall|j: int|
                0 <= j < i ==> (#[trigger] records@[j]).bag_type == reading_of(
                    entries@[j],
                )->Understood_bag,
        decreases entries.len() - i,
    {
        match resolve_entry(i, &entries[i]) {
            Ok(record) => {
                records.push(record);
            },
            Err(error) => {
                return Err(error);
            },
        }
        i = i + 1;
    }
    assert(records_of(records@) =~= records_read(entries@));
    Ok(merge_records(&records))
}

/// Merging the same entries again gives the same schedule, or the same
/// error at the same entry.
pub proof fn lemma_merge_repeats(
    entries: Seq<CollectionEntry>,
    first: Result<Schedule, ParseError>,
    second: Result<Schedule, ParseError>,
)
    requires
        merge_result(entries, first),
        merge_result(entries, second),
    ensures
        match first {
            Ok(schedule) => second matches Ok(again) && again@ == schedule@,
            Err(ParseError::DateFormatError { index, text }) => second matches Err(
                ParseError::DateFormatError { index: i, text: t },
            ) && i == index && t@ == text@,
            Err(ParseError::UnknownBagLabel { index, label }) => second matches Err(
                ParseError::UnknownBagLabel { index: i, label: l },
            ) && i == index && l@ == label@,
        },
{
    match first {
        Ok(_) => {
            match second {
                Ok(_) => {},
                Err(ParseError::DateFormatError { index, .. }) => {
                    assert(reading_of(entries[index as int]) is Understood);
                },
                Err(ParseError::UnknownBagLabel { index, .. }) => {
                    assert(reading_of(entries[index as int]) is Understood);
                },
            }
        },
        Err(ParseError::DateFormatError { index, .. }) => {
            lemma_first_failure_is_one(entries, index as int, second);
        },
        Err(ParseError::UnknownBagLabel { index, .. }) => {
            lemma_first_failure_is_one(entries, index as int, second);
        },
    }
}

proof fn lemma_first_failure_is_one(
    entries: Seq<CollectionEntry>,
    index: int,
    other: Result<Schedule, ParseError>,
)
    requires
        first_failure(entries, index),
        merge_result(entries, other),
    ensures
        match other {
            Ok(_) => false,
            Err(ParseError::DateFormatError { index: i, .. }) => i == index,
            Err(ParseError::UnknownBagLabel { index: i, .. }) => i == index,
        },
{
    match other {
        Ok(_) => {
            assert(reading_of(entries[index]) is Understood);
        },
        Err(ParseError::DateFormatError { index: i, .. }) => {
            if (i as int) < index {
                assert(reading_of(entries[i as int]) is Understood);
            } else if index < i as int {
                assert(reading_of(entries[index]) is Understood);
            }
        },
        Err(ParseError::UnknownBagLabel { index: i, .. }) => {
            if (i as int) < index {
                assert(reading_of(entries[i as int]) is Understood);
            } else if index < i as int {
                assert(reading_of(entries[index]) is Understood);
            }
        },
    }
}

} // verus!
