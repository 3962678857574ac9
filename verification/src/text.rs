//! Text helpers shared by the other modules: phrase search, trimming of
//! white space, lower case, and numbers as digits.

use vstd::prelude::*;

verus! {

/// `phrase` stands in `text` with its first character at position `at`.
pub open spec fn occurs_at(text: Seq<char>, phrase: Seq<char>, at: int) -> bool {
    &&& 0 <= at
    &&& at + phrase.len() <= text.len()
    &&& text.subrange(at, at + phrase.len()) == phrase
}

/// `phrase` stands somewhere in `text`.
pub open spec fn contains_phrase(text: Seq<char>, phrase: Seq<char>) -> bool {
    exists|at: int| occurs_at(text, phrase, at)
}

/// A phrase that stands between two texts stands in the whole.
pub proof fn lemma_contains_within(before: Seq<char>, phrase: Seq<char>, after: Seq<char>)
    ensures
        contains_phrase(before + phrase + after, phrase),
{
    let whole = before + phrase + after;
    let at = before.len() as int;
    assert(whole.subrange(at, at + phrase.len()) =~= phrase);
    assert(occurs_at(whole, phrase, at));
}

/// The characters of a string, in order.
pub fn chars_of(text: &str) -> (chars: Vec<char>)
    ensures
        chars@ == text@,
{
    let mut chars: Vec<char> = Vec::new();
    for c in it: text.chars()
        invariant
            chars@ == text@.subrange(0, it.index() as int),
            it.seq() == text@,
    {
        chars.push(c);
    }
    chars
}

/// Whether two strings hold the same characters.
pub fn same_text(a: &str, b: &str) -> (same: bool)
    ensures
        same == (a@ == b@),
{
    a.to_owned() == b.to_owned()
}

fn matches_at(text: &Vec<char>, phrase: &Vec<char>, at: usize) -> (found: bool)
    requires
        at + phrase.len() <= text.len(),
    ensures
        found == occurs_at(text@, phrase@, at as int),
{
    let mut k: usize = 0;
    while k < phrase.len()
        invariant
            k <= phrase.len(),
            at + phrase.len() <= text.len(),
            forall|j: int| 0 <= j < k ==> text@[at + j] == phrase@[j],
        decreases phrase.len() - k,
    {
        if text[at + k] != phrase[k] {
            assert(text@.subrange(at as int, at + phrase.len())[k as int] == text@[at + k]);
            return false;
        }
        k = k + 1;
    }
    assert(text@.subrange(at as int, at + phrase.len()) =~= phrase@);
    true
}

/// Whether `phrase` stands somewhere in `text`.
pub fn contains(text: &str, phrase: &str) -> (found: bool)
    ensures
        found == contains_phrase(text@, phrase@),
{
    let t = chars_of(text);
    let p = chars_of(phrase);
    if p.len() > t.len() {
        return false;
    }
    let last: usize = t.len() - p.len();
    let mut at: usize = 0;
    while at < last
        invariant
            at <= last,
            last + p.len() == t.len(),
            t@ == text@,
            p@ == phrase@,
            forall|j: int| 0 <= j < at ==> !occurs_at(t@, p@, j),
        decreases last - at,
    {
        if matches_at(&t, &p, at) {
            return true;
        }
        at = at + 1;
    }
    matches_at(&t, &p, last)
}

/// Whether the character is white space: one of the 25 characters that
/// Unicode lists as `White_Space`.
pub open spec fn is_white_space(c: char) -> bool {
    let code = c as u32;
    {
        ||| 0x09 <= code <= 0x0d
        ||| code == 0x20
        ||| code == 0x85
        ||| code == 0xa0
        ||| code == 0x1680
        ||| 0x2000 <= code <= 0x200a
        ||| 0x2028 <= code <= 0x2029
        ||| code == 0x202f
        ||| code == 0x205f
        ||| code == 0x3000
    }
}

/// How many characters at the front of `text` are white space, up to the
/// first that is not.
pub open spec fn leading_space(text: Seq<char>) -> int
    decreases text.len(),
{
    if text.len() == 0 || !is_white_space(text[0]) {
        0
    } else {
        1 + leading_space(text.drop_first())
    }
}

/// How many characters at the end of `text` are white space, back to the
/// last that is not.
pub open spec fn trailing_space(text: Seq<char>) -> int
    decreases text.len(),
{
    if text.len() == 0 || !is_white_space(text.last()) {
        0
    } else {
        1 + trailing_space(text.drop_last())
    }
}

/// The text without the white space at its front and at its end.
pub open spec fn trimmed(text: Seq<char>) -> Seq<char> {
    let from = leading_space(text);
    let rest = text.subrange(from, text.len() as int);
    rest.subrange(0, rest.len() - trailing_space(rest))
}

/// White space up to a place, and none at the place, is the white space
/// at the front.
pub proof fn lemma_leading_space(text: Seq<char>, count: int)
    requires
        0 <= count <= text.len(),
        forall|i: int| 0 <= i < count ==> is_white_space(#[trigger] text[i]),
        count < text.len() ==> !is_white_space(text[count]),
    ensures
        leading_space(text) == count,
    decreases count,
{
    if count > 0 {
        let rest = text.drop_first();
        assert(is_white_space(text[0]));
        assert forall|i: int| 0 <= i < count - 1 implies is_white_space(#[trigger] rest[i]) by {
            assert(rest[i] == text[i + 1]);
        }
        lemma_leading_space(rest, count - 1);
    }
}

/// White space from a place on, and none before the place, is the white
/// space at the end.
pub proof fn lemma_trailing_space(text: Seq<char>, count: int)
    requires
        0 <= count <= text.len(),
        forall|i: int| text.len() - count <= i < text.len() ==> is_white_space(#[trigger] text[i]),
        count < text.len() ==> !is_white_space(text[text.len() - count - 1]),
    ensures
        trailing_space(text) == count,
    decreases count,
{
    if count > 0 {
        let rest = text.drop_last();
        assert(is_white_space(text[text.len() - 1]));
        assert forall|i: int| rest.len() - (count - 1) <= i < rest.len() implies is_white_space(
            #[trigger] rest[i],
        ) by {
            assert(rest[i] == text[i]);
        }
        lemma_trailing_space(rest, count - 1);
    }
}

/// Whether the character is white space.
pub fn is_space(c: char) -> (space: bool)
    ensures
        space == is_white_space(c),
{
    let code: u32 = c as u32;
    (0x09 <= code && code <= 0x0d) || code == 0x20 || code == 0x85 || code == 0xa0 || code
        == 0x1680 || (0x2000 <= code && code <= 0x200a) || (0x2028 <= code && code <= 0x2029)
        || code == 0x202f || code == 0x205f || code == 0x3000
}

/// The text without the white space at its front and at its end.
pub fn trim(text: &str) -> (kept: &str)
    ensures
        kept@ == trimmed(text@),
{
    let chars = chars_of(text);
    let mut from: usize = 0;
    while from < chars.len() && is_space(chars[from])
        invariant
            from <= chars.len(),
            forall|i: int| 0 <= i < from ==> is_white_space(#[trigger] chars@[i]),
        decreases chars.len() - from,
    {
        from = from + 1;
    }
    let mut to: usize = chars.len();
    while to > from && is_space(chars[to - 1])
        invariant
            from <= to <= chars.len(),
            forall|i: int| to <= i < chars.len() ==> is_white_space(#[trigger] chars@[i]),
        decreases to,
    {
        to = to - 1;
    }
    proof {
        lemma_leading_space(text@, from as int);
        let rest = text@.subrange(from as int, text@.len() as int);
        let count = chars.len() - to;
        assert forall|i: int| rest.len() - count <= i < rest.len() implies is_white_space(
            #[trigger] rest[i],
        ) by {
            assert(rest[i] == text@[from + i]);
        }
        if to > from {
            assert(rest[to - from - 1] == text@[to - 1]);
        }
        lemma_trailing_space(rest, chars.len() - to);
        assert(rest.subrange(0, to - from) =~= text@.subrange(from as int, to as int));
    }
    text.substring_char(from, to)
}

/// What `str::to_lowercase` returns for `text`: its lower-case form under
/// the standard library's Unicode case mapping.
pub uninterp spec fn lowercased(text: Seq<char>) -> Seq<char>;

/// Calls `str::to_lowercase`. Trusted: the result is `lowercased` of the
/// argument, which says no more than that the result depends on the text
/// alone.
#[verifier::external_body]
pub(crate) fn to_lowercase(text: &str) -> (r: String)
    ensures
        r@ == lowercased(text@),
{
    text.to_lowercase()
}

/// The character that writes the digit `d` in bases up to sixteen, in
/// lower case.
pub open spec fn digit_char(d: int) -> char {
    if d == 0 {
        '0'
    } else if d == 1 {
        '1'
    } else if d == 2 {
        '2'
    } else if d == 3 {
        '3'
    } else if d == 4 {
        '4'
    } else if d == 5 {
        '5'
    } else if d == 6 {
        '6'
    } else if d == 7 {
        '7'
    } else if d == 8 {
        '8'
    } else if d == 9 {
        '9'
    } else if d == 10 {
        'a'
    } else if d == 11 {
        'b'
    } else if d == 12 {
        'c'
    } else if d == 13 {
        'd'
    } else if d == 14 {
        'e'
    } else {
        'f'
    }
}

/// The last `width` digits of `n` in base `base`, most significant first,
/// with leading zeros where `n` has fewer.
pub open spec fn fixed_digits(n: nat, base: nat, width: nat) -> Seq<char>
    decreases width,
{
    if width == 0 || base == 0 {
        Seq::empty()
    } else {
        fixed_digits(n / base, base, (width - 1) as nat).push(digit_char((n % base) as int))
    }
}

/// `n` in decimal, without leading zeros.
pub open spec fn decimal(n: nat) -> Seq<char>
    decreases n,
{
    if n < 10 {
        seq![digit_char(n as int)]
    } else {
        decimal(n / 10).push(digit_char((n % 10) as int))
    }
}

/// `n` in decimal, with a minus sign in front where it is negative.
pub open spec fn signed_decimal(n: int) -> Seq<char> {
    if n < 0 {
        seq!['-'] + decimal((-n) as nat)
    } else {
        decimal(n as nat)
    }
}

fn digit_text(d: u8) -> (text: &'static str)
    requires
        d < 16,
    ensures
        text@ == seq![digit_char(d as int)],
{
    proof {
        reveal_strlit("0");
        reveal_strlit("1");
        reveal_strlit("2");
        reveal_strlit("3");
        reveal_strlit("4");
        reveal_strlit("5");
        reveal_strlit("6");
        reveal_strlit("7");
        reveal_strlit("8");
        reveal_strlit("9");
        reveal_strlit("a");
        reveal_strlit("b");
        reveal_strlit("c");
        reveal_strlit("d");
        reveal_strlit("e");
        reveal_strlit("f");
    }
    let text = if d == 0 {
        "0"
    } else if d == 1 {
        "1"
    } else if d == 2 {
        "2"
    } else if d == 3 {
        "3"
    } else if d == 4 {
        "4"
    } else if d == 5 {
        "5"
    } else if d == 6 {
        "6"
    } else if d == 7 {
        "7"
    } else if d == 8 {
        "8"
    } else if d == 9 {
        "9"
    } else if d == 10 {
        "a"
    } else if d == 11 {
        "b"
    } else if d == 12 {
        "c"
    } else if d == 13 {
        "d"
    } else if d == 14 {
        "e"
    } else {
        "f"
    };
    assert(text@ =~= seq![digit_char(d as int)]);
    text
}

/// The digits in the order in which they are written, where `low` holds
/// them from the least significant on.
pub open spec fn written_digits(low: Seq<u8>) -> Seq<char> {
    Seq::new(low.len(), |i: int| digit_char(low[low.len() - 1 - i] as int))
}

/// As many zeros as asked for.
pub open spec fn zeros(count: nat) -> Seq<char> {
    Seq::new(count, |i: int| '0')
}

/// The digits of nothing are zeros.
pub proof fn lemma_zero_digits(base: nat, width: nat)
    requires
        1 <= base,
    ensures
        fixed_digits(0, base, width) == zeros(width),
    decreases width,
{
    if width > 0 {
        lemma_zero_digits(base, (width - 1) as nat);
        assert(fixed_digits(0, base, width) =~= zeros(width));
    } else {
        assert(fixed_digits(0, base, width) =~= zeros(width));
    }
}

/// One more digit at the low end is written in front of the others.
proof fn lemma_written_digits_push(low: Seq<u8>, digit: u8)
    ensures
        written_digits(low.push(digit)) == seq![digit_char(digit as int)] + written_digits(low),
{
    assert(written_digits(low.push(digit)) =~= seq![digit_char(digit as int)] + written_digits(
        low,
    ));
}

fn append_written_digits(out: &mut String, low: &Vec<u8>)
    requires
        forall|i: int| 0 <= i < low@.len() ==> #[trigger] low@[i] < 16,
    ensures
        final(out)@ == old(out)@ + written_digits(low@),
{
    let ghost before = out@;
    let mut left: usize = low.len();
    assert(out@ =~= before + written_digits(low@).subrange(0, 0));
    while left > 0
        invariant
            left <= low.len(),
            forall|i: int| 0 <= i < low@.len() ==> #[trigger] low@[i] < 16,
            out@ == before + written_digits(low@).subrange(0, low.len() - left),
        decreases left,
    {
        left = left - 1;
        out.append(digit_text(low[left]));
        proof {
            let all = written_digits(low@);
            let done = low.len() - left;
            assert(all.subrange(0, done) =~= all.subrange(0, done - 1).push(
                digit_char(low@[left as int] as int),
            ));
            assert(out@ =~= before + all.subrange(0, done));
        }
    }
    assert(written_digits(low@).subrange(0, low.len() as int) =~= written_digits(low@));
}

fn append_zeros(out: &mut String, count: u32)
    ensures
        final(out)@ == old(out)@ + zeros(count as nat),
{
    let ghost before = out@;
    let mut done: u32 = 0;
    proof {
        reveal_strlit("0");
        assert(out@ =~= before + zeros(0));
    }
    while done < count
        invariant
            done <= count,
            "0"@ =~= seq!['0'],
            out@ == before + zeros(done as nat),
        decreases count - done,
    {
        out.append("0");
        done = done + 1;
        assert(out@ =~= before + zeros(done as nat));
    }
}

fn append_fixed(out: &mut String, n: u128, base: u128, width: u32)
    requires
        2 <= base <= 16,
    ensures
        final(out)@ == old(out)@ + fixed_digits(n as nat, base as nat, width as nat),
{
    let ghost all = fixed_digits(n as nat, base as nat, width as nat);
    let mut low: Vec<u8> = Vec::new();
    let mut rest: u128 = n;
    let mut taken: u32 = 0;
    assert(all =~= fixed_digits(rest as nat, base as nat, width as nat) + written_digits(low@));
    while taken < width && rest > 0
        invariant
            2 <= base <= 16,
            taken <= width,
            low@.len() == taken,
            forall|i: int| 0 <= i < low@.len() ==> #[trigger] low@[i] < 16,
            all == fixed_digits(rest as nat, base as nat, (width - taken) as nat) + written_digits(
                low@,
            ),
        decreases width - taken,
    {
        let digit: u8 = (rest % base) as u8;
        proof {
            lemma_written_digits_push(low@, digit);
            let more = fixed_digits((rest / base) as nat, base as nat, (width - taken - 1) as nat);
            assert(fixed_digits(rest as nat, base as nat, (width - taken) as nat) == more.push(
                digit_char(digit as int),
            ));
            assert(all =~= more + (seq![digit_char(digit as int)] + written_digits(low@)));
        }
        low.push(digit);
        rest = rest / base;
        taken = taken + 1;
    }
    proof {
        if rest == 0 {
            lemma_zero_digits(base as nat, (width - taken) as nat);
        } else {
            assert(fixed_digits(rest as nat, base as nat, 0) =~= zeros(0));
        }
    }
    let ghost before = out@;
    append_zeros(out, width - taken);
    append_written_digits(out, &low);
    assert(final(out)@ =~= before + all);
}

/// Appends the last `width` decimal digits of `n` to `out`.
pub fn append_fixed_decimal(out: &mut String, n: u64, width: u32)
    ensures
        final(out)@ == old(out)@ + fixed_digits(n as nat, 10, width as nat),
{
    append_fixed(out, n as u128, 10, width);
}

/// Appends the last `width` hexadecimal digits of `n` to `out`.
pub fn append_fixed_hex(out: &mut String, n: u128, width: u32)
    ensures
        final(out)@ == old(out)@ + fixed_digits(n as nat, 16, width as nat),
{
    append_fixed(out, n, 16, width);
}

/// Appends `n` in decimal to `out`.
pub fn append_decimal(out: &mut String, n: u64)
    ensures
        final(out)@ == old(out)@ + decimal(n as nat),
{
    let mut low: Vec<u8> = Vec::new();
    let mut rest: u64 = n;
    assert(decimal(n as nat) =~= decimal(rest as nat) + written_digits(low@));
    while rest >= 10
        invariant
            forall|i: int| 0 <= i < low@.len() ==> #[trigger] low@[i] < 16,
            decimal(n as nat) == decimal(rest as nat) + written_digits(low@),
        decreases rest,
    {
        let digit: u8 = (rest % 10) as u8;
        proof {
            lemma_written_digits_push(low@, digit);
            assert(decimal(n as nat) =~= decimal((rest / 10) as nat) + (seq![
                digit_char(digit as int),
            ] + written_digits(low@)));
        }
        low.push(digit);
        rest = rest / 10;
    }
    let ghost before = out@;
    out.append(digit_text(rest as u8));
    append_written_digits(out, &low);
    assert(final(out)@ =~= before + decimal(n as nat));
}

/// Appends `n` in decimal to `out`, with a minus sign where it is negative.
pub fn append_signed_decimal(out: &mut String, n: i64)
    ensures
        final(out)@ == old(out)@ + signed_decimal(n as int),
{
    if n < 0 {
        proof {
            reveal_strlit("-");
        }
        out.append("-");
        assert(out@ =~= old(out)@ + seq!['-']);
        let magnitude: u64 = if n == i64::MIN {
            9223372036854775808u64
        } else {
            (-n) as u64
        };
        append_decimal(out, magnitude);
        assert(final(out)@ =~= old(out)@ + signed_decimal(n as int));
    } else {
        append_decimal(out, n as u64);
    }
}

} // verus!
