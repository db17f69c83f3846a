//! Text as sequences of characters: joining parts, and numbers in decimal.

use vstd::prelude::*;
use vstd::string::*;

verus! {

/// `parts` one after another, with `separator` between each two of them.
pub open spec fn joined(parts: Seq<Seq<char>>, separator: Seq<char>) -> Seq<char>
    decreases parts.len(),
{
    if parts.len() == 0 {
        Seq::empty()
    } else {
        let head = joined(parts.drop_last(), separator);
        (if parts.len() == 1 {
            head
        } else {
            head + separator
        }) + parts.last()
    }
}

/// Extending a prefix of `parts` by one part appends the separator, where a
/// part stands before it, and then the part.
pub proof fn lemma_joined_step(parts: Seq<Seq<char>>, separator: Seq<char>, count: int)
    requires
        0 <= count < parts.len(),
    ensures
        joined(parts.take(count + 1), separator) == (if count == 0 {
            Seq::empty()
        } else {
            joined(parts.take(count), separator) + separator
        }) + parts[count],
{
    let longer = parts.take(count + 1);
    assert(longer.drop_last() =~= parts.take(count));
    assert(longer.last() == parts[count]);
    assert(joined(parts.take(0), separator) =~= Seq::<char>::empty());
}

/// What each of `strings` holds.
pub open spec fn string_views(strings: Seq<String>) -> Seq<Seq<char>> {
    Seq::new(strings.len(), |i: int| strings[i]@)
}

/// The characters of a text that may be absent.
pub open spec fn text_view(text: Option<String>) -> Option<Seq<char>> {
    match text {
        Some(text) => Some(text@),
        None => None,
    }
}

/// Says whether two texts that may be absent are equal.
pub fn texts_equal(left: &Option<String>, right: &Option<String>) -> (equal: bool)
    ensures
        equal == (text_view(*left) == text_view(*right)),
{
    match (left, right) {
        (Some(left), Some(right)) => *left == *right,
        (None, None) => true,
        _ => false,
    }
}

/// The decimal digit that stands for `value`.
pub open spec fn digit(value: nat) -> char {
    ('0' as nat + value) as char
}

/// `value` in decimal, without leading zeros.
pub open spec fn decimal(value: nat) -> Seq<char>
    decreases value,
{
    if value < 10 {
        seq![digit(value)]
    } else {
        decimal(value / 10).push(digit(value % 10))
    }
}

/// `value` in decimal, with a minus sign in front where it is negative.
pub open spec fn signed_decimal(value: int) -> Seq<char> {
    if value < 0 {
        "-"@ + decimal((-value) as nat)
    } else {
        decimal(value as nat)
    }
}

fn digit_text(value: u64) -> (text: &'static str)
    requires
        value < 10,
    ensures
        text@ == seq![digit(value as nat)],
{
    proof {
        reveal_strlit("0");
        reveal_strlit("1");
        reveal_strlit("2");
        reveal_strlit("3");
        reveal_strlit("4");
        reveal_strlit("5");
        reveal_strlit("6");
        reveal_strlit("7");
        reveal_strlit("8");
        reveal_strlit("9");
    }
    match value {
        0 => "0",
        1 => "1",
        2 => "2",
        3 => "3",
        4 => "4",
        5 => "5",
        6 => "6",
        7 => "7",
        8 => "8",
        _ => "9",
    }
}

/// Appends `value` in decimal to `text`.
pub fn append_decimal(text: &mut String, value: u64)
    ensures
        final(text)@ == old(text)@ + decimal(value as nat),
    decreases value,
{
    if value >= 10 {
        append_decimal(text, value / 10);
    }
    text.append(digit_text(value % 10));
}

/// Appends `value` in decimal to `text`, with its sign where it is negative.
pub fn append_signed_decimal(text: &mut String, value: i64)
    ensures
        final(text)@ == old(text)@ + signed_decimal(value as int),
{
    if value < 0 {
        text.append("-");
        append_decimal(text, (-(value as i128)) as u64);
    } else {
        append_decimal(text, value as u64);
    }
}

} // verus!
