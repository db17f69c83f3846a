//! The parsed dimensions of an AIP `List` request.

use vstd::prelude::*;

use crate::value::{bytes_equal, floats_equal};

verus! {

/// One term of an AIP-132 ordering.
#[derive(Debug, Clone, PartialEq, Eq)]
pub struct OrderByField {
    /// The dotted AIP path to sort by.
    pub path: String,
    /// Whether the path sorts in descending order.
    pub desc: bool,
}

/// What an [`OrderByField`] holds, as a mathematical value.
pub struct FieldView {
    /// The dotted AIP path to sort by.
    pub path: Seq<char>,
    /// Whether the path sorts in descending order.
    pub desc: bool,
}

impl View for OrderByField {
    type V = FieldView;

    open spec fn view(&self) -> FieldView {
        FieldView { path: self.path@, desc: self.desc }
    }
}

/// An AIP-132 ordering, from the most significant field on.
#[derive(Debug, Clone, PartialEq, Eq)]
pub struct OrderBy {
    /// The ordering's fields.
    pub fields: Vec<OrderByField>,
}

impl View for OrderBy {
    type V = Seq<FieldView>;

    open spec fn view(&self) -> Seq<FieldView> {
        Seq::new(self.fields@.len(), |i: int| self.fields@[i]@)
    }
}

impl OrderBy {
    /// Whether the ordering has no fields.
    pub fn is_empty(&self) -> (empty: bool)
        ensures
            empty == (self@.len() == 0),
    {
        self.fields.len() == 0
    }
}

impl Default for OrderBy {
    /// The ordering without fields.
    fn default() -> (order_by: Self)
        ensures
            order_by@ == Seq::<FieldView>::empty(),
    {
        OrderBy { fields: Vec::new() }
    }
}

/// One component of a key-set cursor: the value that one ordering field had on
/// the last row of the previous page.
#[derive(Debug, Clone)]
pub enum CursorValue {
    /// No value: the field was unset.
    Null,
    /// A boolean.
    Bool(bool),
    /// A string.
    String(String),
    /// A byte string.
    Bytes(Vec<u8>),
    /// A signed integer.
    Int(i64),
    /// An unsigned integer.
    Uint(u64),
    /// A double-precision number, by its IEEE 754 bit pattern.
    Float {
        /// What `f64::to_bits` gives of the number.
        bits: u64,
    },
    /// An instant. A token's author chooses both numbers freely.
    Timestamp {
        /// Whole seconds since the Unix epoch.
        seconds: i64,
        /// Nanoseconds after `seconds`.
        nanos: i32,
    },
    /// A signed span of time.
    Duration {
        /// The span in nanoseconds.
        nanos: i64,
    },
}

/// What a [`CursorValue`] holds, as a mathematical value.
pub enum CursorValueView {
    /// Of [`CursorValue::Null`].
    Null,
    /// Of [`CursorValue::Bool`].
    Bool(bool),
    /// Of [`CursorValue::String`].
    Text(Seq<char>),
    /// Of [`CursorValue::Bytes`].
    Bytes(Seq<u8>),
    /// Of [`CursorValue::Int`].
    Int(i64),
    /// Of [`CursorValue::Uint`].
    Uint(u64),
    /// Of [`CursorValue::Float`].
    Float(u64),
    /// Of [`CursorValue::Timestamp`].
    Timestamp {
        /// Whole seconds since the Unix epoch.
        seconds: i64,
        /// Nanoseconds after `seconds`.
        nanos: i32,
    },
    /// Of [`CursorValue::Duration`].
    Duration(i64),
}

impl View for CursorValue {
    type V = CursorValueView;

    open spec fn view(&self) -> CursorValueView {
        match *self {
            CursorValue::Null => CursorValueView::Null,
            CursorValue::Bool(value) => CursorValueView::Bool(value),
            CursorValue::String(value) => CursorValueView::Text(value@),
            CursorValue::Bytes(value) => CursorValueView::Bytes(value@),
            CursorValue::Int(value) => CursorValueView::Int(value),
            CursorValue::Uint(value) => CursorValueView::Uint(value),
            CursorValue::Float { bits } => CursorValueView::Float(bits),
            CursorValue::Timestamp { seconds, nanos } => CursorValueView::Timestamp {
                seconds,
                nanos,
            },
            CursorValue::Duration { nanos } => CursorValueView::Duration(nanos),
        }
    }
}

impl CursorValueView {
    /// Whether two cursor values are equal: of one kind, and with equal contents.
    pub open spec fn same(self, other: CursorValueView) -> bool {
        match (self, other) {
            (
                CursorValueView::Float(left),
                CursorValueView::Float(right),
            ) => crate::value::same_float(left, right),
            _ => self == other,
        }
    }
}

impl PartialEq for CursorValue {
    fn eq(&self, other: &CursorValue) -> (equal: bool) {
        match (self, other) {
            (CursorValue::Null, CursorValue::Null) => true,
            (CursorValue::Bool(left), CursorValue::Bool(right)) => *left == *right,
            (CursorValue::String(left), CursorValue::String(right)) => *left == *right,
            (CursorValue::Bytes(left), CursorValue::Bytes(right)) => bytes_equal(left, right),
            (CursorValue::Int(left), CursorValue::Int(right)) => *left == *right,
            (CursorValue::Uint(left), CursorValue::Uint(right)) => *left == *right,
            (CursorValue::Float { bits: left }, CursorValue::Float { bits: right }) => floats_equal(
                *left,
                *right,
            ),
            (
                CursorValue::Timestamp { seconds: left, nanos: left_nanos },
                CursorValue::Timestamp { seconds: right, nanos: right_nanos },
            ) => *left == *right && *left_nanos == *right_nanos,
            (CursorValue::Duration { nanos: left }, CursorValue::Duration { nanos: right }) => *left
                == *right,
            _ => false,
        }
    }
}

impl vstd::std_specs::cmp::PartialEqSpecImpl for CursorValue {
    open spec fn obeys_eq_spec() -> bool {
        true
    }

    open spec fn eq_spec(&self, other: &CursorValue) -> bool {
        self@.same(other@)
    }
}

/// What each component of `cursor` holds.
pub open spec fn cursor_views(cursor: Seq<CursorValue>) -> Seq<CursorValueView> {
    Seq::new(cursor.len(), |i: int| cursor[i]@)
}

/// A decoded AIP-158 page token.
#[derive(Debug, Clone, PartialEq)]
pub struct PageToken {
    /// The sort key of the previous page's last row; empty on the first page.
    pub cursor: Vec<CursorValue>,
    /// How many rows to skip. The caller's own `OFFSET` clause takes it.
    pub offset: i64,
}

impl Default for PageToken {
    /// The token of the first page.
    fn default() -> (page_token: Self)
        ensures
            page_token.cursor@ == Seq::<CursorValue>::empty(),
            page_token.offset == 0,
    {
        PageToken { cursor: Vec::new(), offset: 0 }
    }
}

} // verus!
