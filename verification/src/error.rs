//! Everything a rewrite can fail with.

use vstd::prelude::*;
use vstd::string::*;

use crate::text::{append_decimal, append_signed_decimal};

verus! {

/// Which of a `List` request's three query dimensions a path came from.
#[derive(Debug, Clone, Copy, PartialEq, Eq, Structural)]
pub enum Dimension {
    /// The AIP-160 `filter` expression.
    Filter,
    /// The AIP-132 `order_by` list.
    OrderBy,
    /// The key-set cursor carried by the AIP-158 `page_token`.
    Cursor,
}

impl Dimension {
    /// The request field that holds the dimension.
    pub open spec fn label_text(self) -> Seq<char> {
        match self {
            Dimension::Filter => "filter"@,
            Dimension::OrderBy => "order_by"@,
            Dimension::Cursor => "page_token"@,
        }
    }

    /// Names the request field that holds the dimension.
    pub fn label(&self) -> (label: &'static str)
        ensures
            label@ == self.label_text(),
    {
        match self {
            Dimension::Filter => "filter",
            Dimension::OrderBy => "order_by",
            Dimension::Cursor => "page_token",
        }
    }
}

/// Why a filter could not be transpiled, other than for an unmapped path.
#[derive(Debug, PartialEq, Eq)]
pub struct Rejection {
    /// What the transpiler said of it.
    pub message: String,
}

/// What a filter's transpiler can fail with.
#[derive(Debug, PartialEq, Eq)]
pub enum FilterError {
    /// The filter names a path that is not in the column map.
    UnknownField {
        /// The dotted path that was not found.
        path: String,
    },
    /// The filter is rejected for any other reason.
    Rejected(Rejection),
}

impl Clone for Rejection {
    fn clone(&self) -> (copy: Self)
        ensures
            copy == *self,
    {
        Rejection { message: self.message.clone() }
    }
}

impl Clone for FilterError {
    fn clone(&self) -> (copy: Self)
        ensures
            copy == *self,
    {
        match self {
            FilterError::UnknownField { path } => FilterError::UnknownField { path: path.clone() },
            FilterError::Rejected(rejection) => FilterError::Rejected(rejection.clone()),
        }
    }
}

/// Everything [`Query::rewrite`](crate::Query::rewrite) can fail with.
///
/// The variants are worth distinguishing because each says something different
/// about the caller. Every one but the first is an invalid argument of the
/// request; an unmapped path can also be a mistake in the column map.
#[derive(Debug, Clone, PartialEq, Eq)]
#[non_exhaustive]
pub enum Error {
    /// A path that is not in the column map, in any of the three dimensions.
    UnknownField {
        /// Where the path came from.
        dimension: Dimension,
        /// The dotted AIP path that was not found.
        path: String,
    },
    /// A cursor whose length does not match the number of ordering fields: its
    /// token was issued under a different `order_by`.
    CursorArity {
        /// How many ordering fields there are.
        fields: usize,
        /// How many values the cursor carries.
        values: usize,
    },
    /// A null in the cursor. Binding it would silently drop rows.
    NullCursorValue {
        /// The ordering path whose cursor value was null.
        path: String,
    },
    /// A cursor timestamp that the date-time backend cannot represent.
    CursorTimestamp {
        /// The ordering path whose cursor value was out of range.
        path: String,
        /// The seconds since the Unix epoch that could not be represented.
        seconds: i64,
    },
    /// The filter was rejected by its transpiler. An unmapped path is never
    /// held here: it is an [`Error::UnknownField`].
    Filter(Rejection),
}

/// What a [`FilterError`] holds, as a mathematical value.
pub enum FilterErrorView {
    /// Of [`FilterError::UnknownField`].
    UnknownField {
        /// The dotted path that was not found.
        path: Seq<char>,
    },
    /// Of [`FilterError::Rejected`].
    Rejected {
        /// What the transpiler said of it.
        message: Seq<char>,
    },
}

/// What an [`Error`] holds, as a mathematical value.
pub enum ErrorView {
    /// Of [`Error::UnknownField`].
    UnknownField {
        /// Where the path came from.
        dimension: Dimension,
        /// The dotted AIP path that was not found.
        path: Seq<char>,
    },
    /// Of [`Error::CursorArity`].
    CursorArity {
        /// How many ordering fields there are.
        fields: nat,
        /// How many values the cursor carries.
        values: nat,
    },
    /// Of [`Error::NullCursorValue`].
    NullCursorValue {
        /// The ordering path whose cursor value was null.
        path: Seq<char>,
    },
    /// Of [`Error::CursorTimestamp`].
    CursorTimestamp {
        /// The ordering path whose cursor value was out of range.
        path: Seq<char>,
        /// The seconds since the Unix epoch that could not be represented.
        seconds: i64,
    },
    /// Of [`Error::Filter`].
    Filter {
        /// What the transpiler said of the filter.
        message: Seq<char>,
    },
}

impl View for FilterError {
    type V = FilterErrorView;

    open spec fn view(&self) -> FilterErrorView {
        match *self {
            FilterError::UnknownField { path } => FilterErrorView::UnknownField { path: path@ },
            FilterError::Rejected(rejection) => FilterErrorView::Rejected {
                message: rejection.message@,
            },
        }
    }
}

impl View for Error {
    type V = ErrorView;

    open spec fn view(&self) -> ErrorView {
        match *self {
            Error::UnknownField { dimension, path } => ErrorView::UnknownField {
                dimension,
                path: path@,
            },
            Error::CursorArity { fields, values } => ErrorView::CursorArity {
                fields: fields as nat,
                values: values as nat,
            },
            Error::NullCursorValue { path } => ErrorView::NullCursorValue { path: path@ },
            Error::CursorTimestamp { path, seconds } => ErrorView::CursorTimestamp {
                path: path@,
                seconds,
            },
            Error::Filter(rejection) => ErrorView::Filter { message: rejection.message@ },
        }
    }
}

impl FilterErrorView {
    /// The error of the whole rewrite: an unmapped path is lifted out, and
    /// anything else is wrapped.
    pub open spec fn lifted(self) -> ErrorView {
        match self {
            FilterErrorView::UnknownField { path } => ErrorView::UnknownField {
                dimension: Dimension::Filter,
                path,
            },
            FilterErrorView::Rejected { message } => ErrorView::Filter { message },
        }
    }
}

impl From<FilterError> for Error {
    /// Lifts an unmapped path out into [`Error::UnknownField`], and wraps
    /// everything else.
    fn from(error: FilterError) -> (lifted: Error) {
        match error {
            FilterError::UnknownField { path } => Error::UnknownField {
                dimension: Dimension::Filter,
                path,
            },
            FilterError::Rejected(rejection) => Error::Filter(rejection),
        }
    }
}

impl vstd::std_specs::convert::FromSpecImpl<FilterError> for Error {
    open spec fn obeys_from_spec() -> bool {
        true
    }

    open spec fn from_spec(error: FilterError) -> Error {
        match error {
            FilterError::UnknownField { path } => Error::UnknownField {
                dimension: Dimension::Filter,
                path,
            },
            FilterError::Rejected(rejection) => Error::Filter(rejection),
        }
    }
}

/// What `str`'s `Debug` writes of `text`: the text in double quotes, with
/// escapes.
pub uninterp spec fn debug_text(text: Seq<char>) -> Seq<char>;

/// Whether `text` holds printable ASCII characters alone, and neither quotes nor
/// backslashes among them.
pub open spec fn plain(text: Seq<char>) -> bool {
    forall|i: int|
        0 <= i < text.len() ==> ' ' <= #[trigger] text[i] <= '~' && text[i] != '"' && text[i]
            != '\'' && text[i] != '\\'
}

/// `text` between double quotes.
pub open spec fn in_quotes(text: Seq<char>) -> Seq<char> {
    seq!['"'] + text + seq!['"']
}

/// `text` as the `Debug` of `str` writes it, by `format!` with `{:?}`.
///
/// Claimed of it: what is written depends on the text alone, and a plain text
/// is written as it is, between double quotes. How other characters are escaped
/// is left unsaid.
#[verifier::external_body]
fn quoted(text: &str) -> (written: String)
    ensures
        written@ == debug_text(text@),
        plain(text@) ==> written@ == in_quotes(text@),
{
    format!("{:?}", text)
}

/// The ending of a noun that stands behind `count`.
pub open spec fn plural_text(count: nat) -> Seq<char> {
    if count == 1 {
        ""@
    } else {
        "s"@
    }
}

fn plural(count: usize) -> (ending: &'static str)
    ensures
        ending@ == plural_text(count as nat),
{
    if count == 1 {
        ""
    } else {
        "s"
    }
}

impl ErrorView {
    /// The path that the error is about, where it is about one.
    pub open spec fn path(self) -> Option<Seq<char>> {
        match self {
            ErrorView::UnknownField { path, .. } => Some(path),
            ErrorView::CursorArity { .. } => None,
            ErrorView::NullCursorValue { path } => Some(path),
            ErrorView::CursorTimestamp { path, .. } => Some(path),
            ErrorView::Filter { .. } => None,
        }
    }

    /// The error in words, with `path` as the quoted form of the path it is
    /// about.
    pub open spec fn described(self, path: Seq<char>) -> Seq<char> {
        match self {
            ErrorView::UnknownField { dimension, .. } => dimension.label_text()
                + ": unknown field "@ + path,
            ErrorView::CursorArity { fields, values } => "page_token: cursor carries "@ + crate::text::decimal(
                values,
            ) + " value"@ + plural_text(values) + " for "@ + crate::text::decimal(fields)
                + " ordering field"@ + plural_text(fields)
                + "; it was issued under a different order_by"@,
            ErrorView::NullCursorValue { .. } => "page_token: ordering field "@ + path
                + " is null in the cursor; an ordering column must be NOT NULL"@,
            ErrorView::CursorTimestamp { seconds, .. } => "page_token: ordering field "@ + path
                + ": the timestamp at "@ + crate::text::signed_decimal(seconds as int)
                + "s is outside the representable range"@,
            ErrorView::Filter { message } => "filter: "@ + message,
        }
    }
}


impl Error {
    /// The transpiler's rejection behind the error, where there is one.
    pub fn source(&self) -> (source: Option<&Rejection>)
        ensures
            source == (match *self {
                Error::Filter(rejection) => Some(&rejection),
                _ => None,
            }),
    {
        match self {
            Error::Filter(rejection) => Some(rejection),
            _ => None,
        }
    }

    /// Says the error in words, with `path` for the quoted form of the path
    /// it is about.
    pub fn describe(&self, path: &str) -> (text: String)
        ensures
            text@ == self@.described(path@),
    {
        let mut text = String::new();
        match self {
            Error::UnknownField { dimension, .. } => {
                text.append(dimension.label());
                text.append(": unknown field ");
                text.append(path);
            },
            Error::CursorArity { fields, values } => {
                text.append("page_token: cursor carries ");
                append_decimal(&mut text, *values as u64);
                text.append(" value");
                text.append(plural(*values));
                text.append(" for ");
                append_decimal(&mut text, *fields as u64);
                text.append(" ordering field");
                text.append(plural(*fields));
                text.append("; it was issued under a different order_by");
            },
            Error::NullCursorValue { .. } => {
                text.append("page_token: ordering field ");
                text.append(path);
                text.append(" is null in the cursor; an ordering column must be NOT NULL");
            },
            Error::CursorTimestamp { seconds, .. } => {
                text.append("page_token: ordering field ");
                text.append(path);
                text.append(": the timestamp at ");
                append_signed_decimal(&mut text, *seconds);
                text.append("s is outside the representable range");
            },
            Error::Filter(rejection) => {
                text.append("filter: ");
                text.append(rejection.message.as_str());
            },
        }
        assert(text@ =~= self@.described(path@));
        text
    }

    /// Says the error in words, with the path it is about in quotes.
    pub fn message(&self) -> (text: String)
        ensures
            self@.path() matches Some(path) ==> plain(path) ==> text@ == self@.described(
                in_quotes(path),
            ),
            text@ == self@.described(
                match self@.path() {
                    Some(path) => debug_text(path),
                    None => Seq::empty(),
                },
            ),
    {
        match self {
            Error::UnknownField { path, .. } => self.describe(quoted(path.as_str()).as_str()),
            Error::NullCursorValue { path } => self.describe(quoted(path.as_str()).as_str()),
            Error::CursorTimestamp { path, .. } => self.describe(quoted(path.as_str()).as_str()),
            _ => {
                let none = String::new();
                self.describe(none.as_str())
            },
        }
    }
}

} // verus!
