//! The kinds of waste that are collected, and sets of them.

use crate::text::{lowercased, same_text, to_lowercase, trim, trimmed};
use vstd::prelude::*;

verus! {

/// A kind of waste, named after the container it is put out in.
#[derive(Clone, Copy, Debug, PartialEq, Eq, Hash, Structural)]
pub enum BagType {
    Black,
    Blue,
    GreenOrBrown,
}

/// The bit that stands for the black bag in a set of kinds.
pub const BLACK: u8 = 1;

/// The bit that stands for the blue bin in a set of kinds.
pub const BLUE: u8 = 2;

/// The bit that stands for the green or brown bin in a set of kinds.
pub const GREEN_OR_BROWN: u8 = 4;

/// The kind that a label names, once the label is trimmed and in lower case.
pub open spec fn bag_of_canonical(label: Seq<char>) -> Option<BagType> {
    if label == "black bag"@ {
        Some(BagType::Black)
    } else if label == "blue bin"@ {
        Some(BagType::Blue)
    } else if label == "green or brown bin"@ {
        Some(BagType::GreenOrBrown)
    } else {
        None
    }
}

/// The kind that a label names, whatever its case and the white space
/// around it.
pub open spec fn bag_of_label(label: Seq<char>) -> Option<BagType> {
    bag_of_canonical(lowercased(trimmed(label)))
}

/// The word for a kind in a summary.
pub open spec fn bag_name(bag: BagType) -> Seq<char> {
    match bag {
        BagType::Black => "black"@,
        BagType::Blue => "blue"@,
        BagType::GreenOrBrown => "green/brown"@,
    }
}

/// The bit that stands for a kind.
pub open spec fn bit_of(bag: BagType) -> u8 {
    match bag {
        BagType::Black => BLACK,
        BagType::Blue => BLUE,
        BagType::GreenOrBrown => GREEN_OR_BROWN,
    }
}

impl BagType {
    /// The kind that a trimmed, lower-case label names.
    pub fn from_canonical_label(label: &str) -> (bag: Option<BagType>)
        ensures
            bag == bag_of_canonical(label@),
    {
        if same_text(label, "black bag") {
            Some(BagType::Black)
        } else if same_text(label, "blue bin") {
            Some(BagType::Blue)
        } else if same_text(label, "green or brown bin") {
            Some(BagType::GreenOrBrown)
        } else {
            None
        }
    }

    /// The kind that a label names, whatever its case and the white space
    /// around it.
    pub fn from_label(label: &str) -> (bag: Option<BagType>)
        ensures
            bag == bag_of_label(label@),
    {
        let canonical = to_lowercase(trim(label));
        BagType::from_canonical_label(canonical.as_str())
    }

    /// The word for this kind in a summary.
    pub fn name(self) -> (name: &'static str)
        ensures
            name@ == bag_name(self),
    {
        match self {
            BagType::Black => "black",
            BagType::Blue => "blue",
            BagType::GreenOrBrown => "green/brown",
        }
    }

    /// The bit that stands for this kind.
    pub fn bit(self) -> (bit: u8)
        ensures
            bit == bit_of(self),
    {
        match self {
            BagType::Black => BLACK,
            BagType::Blue => BLUE,
            BagType::GreenOrBrown => GREEN_OR_BROWN,
        }
    }

    /// The set that holds this kind alone.
    pub fn flag(self) -> (flags: BagTypeFlags)
        ensures
            flags@ == set![self],
    {
        BagTypeFlags::empty().with(self)
    }
}

/// A set of kinds of waste, kept as one bit for each kind.
#[derive(Clone, Copy, Debug, PartialEq, Eq, Hash, Structural)]
pub struct BagTypeFlags {
    bits: u8,
}

proof fn lemma_or_keeps_low_bits(a: u8, b: u8)
    by (bit_vector)
    requires
        a < 8,
        b < 8,
    ensures
        (a | b) < 8,
        (a | b) & 1 != 0 <==> a & 1 != 0 || b & 1 != 0,
        (a | b) & 2 != 0 <==> a & 2 != 0 || b & 2 != 0,
        (a | b) & 4 != 0 <==> a & 4 != 0 || b & 4 != 0,
{
}

proof fn lemma_low_bits(a: u8)
    by (bit_vector)
    ensures
        a & 7 < 8,
        (a & 7) & 1 != 0 <==> a & 1 != 0,
        (a & 7) & 2 != 0 <==> a & 2 != 0,
        (a & 7) & 4 != 0 <==> a & 4 != 0,
        0u8 & 1 == 0,
        0u8 & 2 == 0,
        0u8 & 4 == 0,
        1u8 & 1 != 0,
        1u8 & 2 == 0,
        1u8 & 4 == 0,
        2u8 & 1 == 0,
        2u8 & 2 != 0,
        2u8 & 4 == 0,
        4u8 & 1 == 0,
        4u8 & 2 == 0,
        4u8 & 4 != 0,
{
}

proof fn lemma_bits_from_members(a: u8, b: u8)
    by (bit_vector)
    requires
        a < 8,
        b < 8,
        a & 1 != 0 <==> b & 1 != 0,
        a & 2 != 0 <==> b & 2 != 0,
        a & 4 != 0 <==> b & 4 != 0,
    ensures
        a == b,
{
}

proof fn lemma_some_bit(a: u8)
    by (bit_vector)
    requires
        a < 8,
        a != 0,
    ensures
        a & 1 != 0 || a & 2 != 0 || a & 4 != 0,
{
}

impl View for BagTypeFlags {
    type V = Set<BagType>;

    closed spec fn view(&self) -> Set<BagType> {
        Set::new(|bag: BagType| self.bits & bit_of(bag) != 0)
    }
}

impl BagTypeFlags {
    #[verifier::type_invariant]
    spec fn only_known_bits(self) -> bool {
        self.bits < 8
    }

    /// The set of no kinds.
    pub fn empty() -> (flags: BagTypeFlags)
        ensures
            flags@ == Set::<BagType>::empty(),
    {
        let flags = BagTypeFlags { bits: 0 };
        proof {
            lemma_low_bits(0);
            assert(flags@ =~= Set::<BagType>::empty());
        }
        flags
    }

    /// The set whose bits are the three low bits of `bits`.
    pub fn from_bits(bits: u8) -> (flags: BagTypeFlags)
        ensures
            forall|bag: BagType| flags@.contains(bag) <==> bits & bit_of(bag) != 0,
    {
        proof {
            lemma_low_bits(bits);
        }
        BagTypeFlags { bits: bits & 7 }
    }

    /// The bits of the set: `BLACK`, `BLUE` and `GREEN_OR_BROWN`, each set
    /// where the set holds its kind.
    pub fn bits(&self) -> (bits: u8)
        ensures
            bits < 8,
            forall|bag: BagType| self@.contains(bag) <==> bits & bit_of(bag) != 0,
    {
        proof {
            use_type_invariant(self);
        }
        self.bits
    }

    /// Whether the set holds `bag`.
    pub fn contains(&self, bag: BagType) -> (held: bool)
        ensures
            held == self@.contains(bag),
    {
        self.bits & bag.bit() != 0
    }

    /// Whether the set holds no kind.
    pub fn is_empty(&self) -> (none: bool)
        ensures
            none == (self@ == Set::<BagType>::empty()),
    {
        proof {
            use_type_invariant(self);
            lemma_low_bits(self.bits);
            if self.bits == 0 {
                assert(self@ =~= Set::<BagType>::empty());
            } else {
                lemma_some_bit(self.bits);
                assert(self@.contains(BagType::Black) || self@.contains(BagType::Blue)
                    || self@.contains(BagType::GreenOrBrown));
            }
        }
        self.bits == 0
    }

    /// The set with `bag` added.
    pub fn with(self, bag: BagType) -> (flags: BagTypeFlags)
        ensures
            flags@ == self@.insert(bag),
    {
        proof {
            use_type_invariant(self);
            lemma_low_bits(self.bits);
            lemma_or_keeps_low_bits(self.bits, bit_of(bag));
        }
        let flags = BagTypeFlags { bits: self.bits | bag.bit() };
        proof {
            assert(flags@ =~= self@.insert(bag));
        }
        flags
    }

    /// The set of the kinds that either set holds.
    pub fn union(self, other: BagTypeFlags) -> (flags: BagTypeFlags)
        ensures
            flags@ == self@.union(other@),
    {
        proof {
            use_type_invariant(self);
            use_type_invariant(other);
            lemma_or_keeps_low_bits(self.bits, other.bits);
        }
        let flags = BagTypeFlags { bits: self.bits | other.bits };
        proof {
            assert(flags@ =~= self@.union(other@));
        }
        flags
    }

    /// Whether the two sets hold the same kinds.
    pub fn same_kinds(&self, other: &BagTypeFlags) -> (same: bool)
        ensures
            same == (self@ == other@),
    {
        proof {
            use_type_invariant(self);
            use_type_invariant(other);
            if self.bits == other.bits {
                assert(self@ =~= other@);
            }
            if self@ == other@ {
                assert(self@.contains(BagType::Black) == other@.contains(BagType::Black));
                assert(self@.contains(BagType::Blue) == other@.contains(BagType::Blue));
                assert(self@.contains(BagType::GreenOrBrown) == other@.contains(
                    BagType::GreenOrBrown,
                ));
                lemma_bits_from_members(self.bits, other.bits);
            }
        }
        self.bits == other.bits
    }

    /// The kinds of the set, in the order in which they are named.
    pub fn kinds(&self) -> (kinds: Vec<BagType>)
        ensures
            kinds@ == named_bags(self@),
    {
        let mut kinds: Vec<BagType> = Vec::new();
        if self.contains(BagType::Black) {
            kinds.push(BagType::Black);
        }
        if self.contains(BagType::Blue) {
            kinds.push(BagType::Blue);
        }
        if self.contains(BagType::GreenOrBrown) {
            kinds.push(BagType::GreenOrBrown);
        }
        assert(kinds@ =~= named_bags(self@));
        kinds
    }

    /// The kinds of the set in words: `none` for the empty set, else the
    /// words for its kinds, the last two joined by an ampersand and the
    /// others by commas.
    pub fn join_phrase(&self) -> (phrase: String)
        ensures
            phrase@ == join_phrase(self@),
    {
        let kinds = self.kinds();
        let mut names: Vec<&'static str> = Vec::new();
        let mut i: usize = 0;
        while i < kinds.len()
            invariant
                i <= kinds.len(),
                names@.len() == i,
                forall|j: int| 0 <= j < i ==> (#[trigger] names@[j])@ == bag_name(kinds@[j]),
            decreases kinds.len() - i,
        {
            names.push(kinds[i].name());
            i = i + 1;
        }
        assert(texts_of(names@) =~= kinds@.map_values(|bag: BagType| bag_name(bag)));
        join_names(&names)
    }
}

/// The kinds of a set in the order in which they are named.
pub open spec fn named_bags(bags: Set<BagType>) -> Seq<BagType> {
    (if bags.contains(BagType::Black) {
        seq![BagType::Black]
    } else {
        Seq::empty()
    }) + (if bags.contains(BagType::Blue) {
        seq![BagType::Blue]
    } else {
        Seq::empty()
    }) + (if bags.contains(BagType::GreenOrBrown) {
        seq![BagType::GreenOrBrown]
    } else {
        Seq::empty()
    })
}

/// The names with a comma and a space between each two.
pub open spec fn comma_list(names: Seq<Seq<char>>) -> Seq<char>
    decreases names.len(),
{
    if names.len() == 0 {
        Seq::empty()
    } else if names.len() == 1 {
        names[0]
    } else {
        comma_list(names.drop_last()) + ", "@ + names.last()
    }
}

/// The names as a phrase: `none` where there is no name, else the names
/// with an ampersand before the last and commas between the others.
pub open spec fn join_phrase_of(names: Seq<Seq<char>>) -> Seq<char> {
    if names.len() == 0 {
        "none"@
    } else if names.len() == 1 {
        names[0]
    } else {
        comma_list(names.drop_last()) + " & "@ + names.last()
    }
}

/// The kinds of a set as a phrase.
pub open spec fn join_phrase(bags: Set<BagType>) -> Seq<char> {
    join_phrase_of(named_bags(bags).map_values(|bag: BagType| bag_name(bag)))
}

/// The phrase of no kind is `none`, a kind alone is its own word, and the
/// ampersand stands before the last of several.
pub proof fn lemma_join_phrase_values()
    ensures
        join_phrase(Set::empty()) == "none"@,
        join_phrase(set![BagType::Black]) == "black"@,
        join_phrase(set![BagType::Black, BagType::Blue]) == "black & blue"@,
        join_phrase(set![BagType::Black, BagType::Blue, BagType::GreenOrBrown])
            == "black, blue & green/brown"@,
{
    reveal_strlit("none");
    reveal_strlit("black");
    reveal_strlit("blue");
    reveal_strlit("green/brown");
    reveal_strlit(", ");
    reveal_strlit(" & ");
    reveal_strlit("black & blue");
    reveal_strlit("black, blue & green/brown");
    reveal_with_fuel(comma_list, 3);
    let one = named_bags(set![BagType::Black]).map_values(|bag: BagType| bag_name(bag));
    assert(one =~= seq!["black"@]);
    let two = named_bags(set![BagType::Black, BagType::Blue]).map_values(
        |bag: BagType| bag_name(bag),
    );
    assert(two =~= seq!["black"@, "blue"@]);
    assert(two.drop_last() =~= seq!["black"@]);
    assert(join_phrase_of(two) =~= "black & blue"@);
    let three = named_bags(set![BagType::Black, BagType::Blue, BagType::GreenOrBrown]).map_values(
        |bag: BagType| bag_name(bag),
    );
    assert(three =~= seq!["black"@, "blue"@, "green/brown"@]);
    assert(three.drop_last() =~= seq!["black"@, "blue"@]);
    assert(three.drop_last().drop_last() =~= seq!["black"@]);
    assert(comma_list(three.drop_last()) =~= "black"@ + ", "@ + "blue"@);
    assert(join_phrase_of(three) =~= "black, blue & green/brown"@);
    let none = named_bags(Set::<BagType>::empty()).map_values(|bag: BagType| bag_name(bag));
    assert(none =~= Seq::<Seq<char>>::empty());
}

/// The views of the names.
pub open spec fn texts_of(names: Seq<&'static str>) -> Seq<Seq<char>> {
    names.map_values(|name: &'static str| name@)
}

/// Joins names into a phrase.
pub fn join_names(names: &Vec<&'static str>) -> (phrase: String)
    ensures
        phrase@ == join_phrase_of(texts_of(names@)),
{
    let ghost texts = texts_of(names@);
    if names.len() == 0 {
        return "none".to_owned();
    }
    let mut phrase = names[0].to_owned();
    if names.len() == 1 {
        return phrase;
    }
    let last: usize = names.len() - 1;
    let mut i: usize = 1;
    assert(texts.subrange(0, 1) =~= seq![texts[0]]);
    while i < last
        invariant
            1 <= i <= last,
            last + 1 == names.len(),
            texts == texts_of(names@),
            phrase@ == comma_list(texts.subrange(0, i as int)),
        decreases last - i,
    {
        phrase.append(", ");
        phrase.append(names[i]);
        proof {
            let upto = texts.subrange(0, i + 1);
            assert(upto.drop_last() =~= texts.subrange(0, i as int));
            assert(upto.last() == names@[i as int]@);
        }
        i = i + 1;
    }
    phrase.append(" & ");
    phrase.append(names[last]);
    proof {
        assert(texts.drop_last() =~= texts.subrange(0, last as int));
        assert(texts.last() == names@[last as int]@);
    }
    phrase
}

/// A label that names no kind of waste.
#[derive(Debug, PartialEq, Eq)]
pub struct UnknownBagLabel {
    /// The label as it was given.
    pub label: String,
}

/// The set that holds the one kind that `label` names.
pub fn classify(label: &str) -> (flags: Result<BagTypeFlags, UnknownBagLabel>)
    ensures
        match bag_of_label(label@) {
            Some(bag) => flags matches Ok(f) && f@ == set![bag],
            None => flags matches Err(e) && e.label@ == label@,
        },
{
    match BagType::from_label(label) {
        Some(bag) => Ok(bag.flag()),
        None => Err(UnknownBagLabel { label: label.to_owned() }),
    }
}

} // verus!
