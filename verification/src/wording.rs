//! What the errors say.

use vstd::prelude::*;

use crate::error::{Dimension, Error, FilterError, Rejection};

verus! {

/// The number that a text of decimal digits stands for.
pub open spec fn number_read(text: Seq<char>) -> int
    decreases text.len(),
{
    if text.len() == 0 {
        0
    } else {
        10 * number_read(text.drop_last()) + (text.last() as int - '0' as int)
    }
}

/// Whether `text` is a number in decimal digits, without leading zeros.
pub open spec fn is_decimal(text: Seq<char>, number: int) -> bool {
    &&& text.len() > 0
    &&& forall|i: int| 0 <= i < text.len() ==> '0' <= #[trigger] text[i] <= '9'
    &&& text.len() > 1 ==> text[0] != '0'
    &&& number_read(text) == number
}

/// A number in decimal reads back as itself, digit by digit, and has no leading
/// zeros.
pub proof fn law_a_number_reads_back(number: nat)
    ensures
        is_decimal(crate::text::decimal(number), number as int),
        number > 0 ==> crate::text::decimal(number)[0] != '0',
    decreases number,
{
    let text = crate::text::decimal(number);
    reveal_with_fuel(number_read, 2);
    if number < 10 {
        assert(text.drop_last() =~= Seq::<char>::empty());
        assert(text.last() == crate::text::digit(number));
    } else {
        let head = number / 10;
        law_a_number_reads_back(head);
        assert(text.drop_last() =~= crate::text::decimal(head));
        assert(text.last() == crate::text::digit(number % 10));
    }
}

/// A negative number has a minus sign in front of its digits, and no other has one.
pub proof fn law_a_signed_number_reads_back(number: int)
    ensures
        number >= 0 ==> is_decimal(crate::text::signed_decimal(number), number),
        number < 0 ==> crate::text::signed_decimal(number).len() > 0
            && crate::text::signed_decimal(number)[0] == '-' && is_decimal(
            crate::text::signed_decimal(number).skip(1),
            -number,
        ),
{
    reveal_strlit("-");
    if number < 0 {
        law_a_number_reads_back((-number) as nat);
        assert(crate::text::signed_decimal(number).skip(1) =~= crate::text::decimal(
            (-number) as nat,
        ));
    } else {
        law_a_number_reads_back(number as nat);
    }
}

/// The request field that a dimension is held in.
pub proof fn law_a_dimension_is_labelled_by_its_request_field(
    dimension: Dimension,
    label: &'static str,
)
    requires
        call_ensures(Dimension::label, (&dimension,), label),
    ensures
        dimension == Dimension::Filter ==> label@ == "filter"@,
        dimension == Dimension::OrderBy ==> label@ == "order_by"@,
        dimension == Dimension::Cursor ==> label@ == "page_token"@,
{
}

/// A noun behind a count.
pub open spec fn counted(noun: Seq<char>, count: usize) -> Seq<char> {
    if count == 1 {
        noun
    } else {
        noun + "s"@
    }
}

/// A number without its sign.
pub open spec fn magnitude(number: i64) -> int {
    if number < 0 {
        -(number as int)
    } else {
        number as int
    }
}

/// What an error says, where `path` stands for the path it is about. The numbers in
/// it are in decimal.
pub open spec fn says(error: Error, path: Seq<char>, text: Seq<char>) -> bool {
    match error {
        Error::UnknownField { dimension, .. } => text == (match dimension {
            Dimension::Filter => "filter"@,
            Dimension::OrderBy => "order_by"@,
            Dimension::Cursor => "page_token"@,
        }) + ": unknown field "@ + path,
        Error::CursorArity { fields, values } => exists|left: Seq<char>, right: Seq<char>|
            #![trigger is_decimal(left, values as int), is_decimal(right, fields as int)]
            {
                &&& is_decimal(left, values as int)
                &&& is_decimal(right, fields as int)
                &&& text == "page_token: cursor carries "@ + left + counted(" value"@, values)
                    + " for "@ + right + counted(" ordering field"@, fields)
                    + "; it was issued under a different order_by"@
            },
        Error::NullCursorValue { .. } => text == "page_token: ordering field "@ + path
            + " is null in the cursor; an ordering column must be NOT NULL"@,
        Error::CursorTimestamp { seconds, .. } => exists|digits: Seq<char>|
            {
                &&& #[trigger] is_decimal(digits, magnitude(seconds))
                &&& text == "page_token: ordering field "@ + path + ": the timestamp at "@ + (
                if seconds < 0 {
                    seq!['-']
                } else {
                    Seq::empty()
                }) + digits + "s is outside the representable range"@
            },
        Error::Filter(rejection) => text == "filter: "@ + rejection.message@,
    }
}

/// What each error says, with the form of its path given.
pub proof fn law_an_error_is_described(error: Error, path: &str, text: String)
    requires
        call_ensures(Error::describe, (&error, path), text),
    ensures
        says(error, path@, text@),
{
    lemma_says(error, path@, text@);
}

proof fn lemma_says(error: Error, path: Seq<char>, text: Seq<char>)
    requires
        text == error@.described(path),
    ensures
        says(error, path, text),
{
    match error {
        Error::CursorArity { fields, values } => {
            law_a_number_reads_back(values as nat);
            law_a_number_reads_back(fields as nat);
            let left = crate::text::decimal(values as nat);
            let right = crate::text::decimal(fields as nat);
            reveal_strlit("");
            assert(is_decimal(left, values as int) && is_decimal(right, fields as int));
            assert(text =~= "page_token: cursor carries "@ + left + counted(" value"@, values)
                + " for "@ + right + counted(" ordering field"@, fields)
                + "; it was issued under a different order_by"@);
        },
        Error::CursorTimestamp { path: _, seconds } => {
            let size = magnitude(seconds);
            law_a_number_reads_back(size as nat);
            let digits = crate::text::decimal(size as nat);
            reveal_strlit("-");
            assert(is_decimal(digits, size));
            assert(text =~= "page_token: ordering field "@ + path + ": the timestamp at "@ + (
            if seconds < 0 {
                seq!['-']
            } else {
                Seq::empty()
            }) + digits + "s is outside the representable range"@);
        },
        _ => {},
    }
}

/// Whether `error` is about `path`.
pub open spec fn is_about(error: Error, path: Seq<char>) -> bool {
    match error {
        Error::UnknownField { path: named, .. } => named@ == path,
        Error::NullCursorValue { path: named } => named@ == path,
        Error::CursorTimestamp { path: named, .. } => named@ == path,
        Error::CursorArity { .. } => false,
        Error::Filter(_) => false,
    }
}

/// An error's message names its path in double quotes, where the path holds nothing
/// but letters, digits, dots and underscores, and other printable characters that
/// are neither quotes nor backslashes. An error about no path says just itself.
pub proof fn law_a_message_quotes_its_path(error: Error, path: Seq<char>, text: String)
    requires
        call_ensures(Error::message, (&error,), text),
    ensures
        is_about(error, path) && (forall|i: int|
            0 <= i < path.len() ==> ' ' <= #[trigger] path[i] <= '~' && path[i] != '"' && path[i]
                != '\'' && path[i] != '\\') ==> says(error, seq!['"'] + path + seq!['"'], text@),
        is_about(error, path) ==> says(error, crate::error::debug_text(path), text@),
        error is CursorArity || error is Filter ==> says(error, path, text@),
{
    if is_about(error, path) {
        lemma_says(error, crate::error::debug_text(path), text@);
        if crate::error::plain(path) {
            lemma_says(error, crate::error::in_quotes(path), text@);
        }
    } else if error is CursorArity || error is Filter {
        lemma_says(error, Seq::empty(), text@);
    }
}

/// A filter's unmapped path becomes an unknown field of the filter, and every other
/// error of a filter is kept behind the rewrite's, where it can be had back.
pub proof fn law_a_filter_error_is_lifted_or_kept(
    error: FilterError,
    lifted: Error,
    source: Option<&Rejection>,
)
    requires
        call_ensures(<Error as From<FilterError>>::from, (error,), lifted),
        call_ensures(Error::source, (&lifted,), source),
    ensures
        match error {
            FilterError::UnknownField { path } => {
                &&& lifted matches Error::UnknownField { dimension, path: named } && dimension
                    == Dimension::Filter && named@ == path@
                &&& source is None
            },
            FilterError::Rejected(rejection) => {
                &&& lifted matches Error::Filter(kept) && kept.message@ == rejection.message@
                &&& source matches Some(kept) && kept.message@ == rejection.message@
            },
        },
{
}

/// An error has a source exactly where a filter was rejected.
pub proof fn law_a_rejection_alone_has_a_source(error: Error, source: Option<&Rejection>)
    requires
        call_ensures(Error::source, (&error,), source),
    ensures
        source is Some <==> error is Filter,
        error matches Error::Filter(rejection) ==> source->Some_0.message@ == rejection.message@,
{
}

} // verus!
