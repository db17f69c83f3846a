//! The values that a caller binds to a statement's placeholders.

use vstd::prelude::*;

verus! {

/// One bind value.
#[derive(Debug)]
pub enum Value {
    /// A boolean.
    Bool(bool),
    /// A string.
    Text(String),
    /// A byte string.
    Bytes(Vec<u8>),
    /// A signed integer.
    Int(i64),
    /// An unsigned integer.
    Uint(u64),
    /// A double-precision number, by its IEEE 754 bit pattern.
    Float {
        /// What `f64::to_bits` gives of the number.
        bits: u64,
    },
    /// An instant.
    Timestamp {
        /// Whole seconds since the Unix epoch.
        seconds: i64,
        /// Nanoseconds after `seconds`. A leap second carries a billion or
        /// more.
        nanos: u32,
    },
    /// A signed span of time, in microseconds.
    Duration(i64),
}

/// What a [`Value`] holds, as a mathematical value.
pub enum ValueView {
    /// Of [`Value::Bool`].
    Bool(bool),
    /// Of [`Value::Text`].
    Text(Seq<char>),
    /// Of [`Value::Bytes`].
    Bytes(Seq<u8>),
    /// Of [`Value::Int`].
    Int(i64),
    /// Of [`Value::Uint`].
    Uint(u64),
    /// Of [`Value::Float`].
    Float(u64),
    /// Of [`Value::Timestamp`].
    Timestamp {
        /// Whole seconds since the Unix epoch.
        seconds: i64,
        /// Nanoseconds after `seconds`.
        nanos: u32,
    },
    /// Of [`Value::Duration`].
    Duration(i64),
}

impl View for Value {
    type V = ValueView;

    open spec fn view(&self) -> ValueView {
        match *self {
            Value::Bool(value) => ValueView::Bool(value),
            Value::Text(value) => ValueView::Text(value@),
            Value::Bytes(value) => ValueView::Bytes(value@),
            Value::Int(value) => ValueView::Int(value),
            Value::Uint(value) => ValueView::Uint(value),
            Value::Float { bits } => ValueView::Float(bits),
            Value::Timestamp { seconds, nanos } => ValueView::Timestamp { seconds, nanos },
            Value::Duration(value) => ValueView::Duration(value),
        }
    }
}

/// What each of `values` holds.
pub open spec fn value_views(values: Seq<Value>) -> Seq<ValueView> {
    Seq::new(values.len(), |i: int| values[i]@)
}

/// A double's bit pattern without its sign.
pub open spec fn float_magnitude(bits: u64) -> int {
    bits as int % 0x8000_0000_0000_0000
}

/// Whether two bit patterns stand for equal numbers: not-a-number equals
/// nothing, and the two zeros equal each other.
pub open spec fn same_float(left: u64, right: u64) -> bool {
    &&& float_magnitude(left) <= 0x7ff0_0000_0000_0000
    &&& float_magnitude(right) <= 0x7ff0_0000_0000_0000
    &&& left == right || (float_magnitude(left) == 0 && float_magnitude(right) == 0)
}

/// Says whether two bit patterns stand for equal numbers.
pub fn floats_equal(left: u64, right: u64) -> (equal: bool)
    ensures
        equal == same_float(left, right),
{
    let left_magnitude: u64 = left % 0x8000_0000_0000_0000;
    let right_magnitude: u64 = right % 0x8000_0000_0000_0000;
    left_magnitude <= 0x7ff0_0000_0000_0000 && right_magnitude <= 0x7ff0_0000_0000_0000 && (left
        == right || (left_magnitude == 0 && right_magnitude == 0))
}

/// Says whether two byte strings are equal.
pub fn bytes_equal(left: &Vec<u8>, right: &Vec<u8>) -> (equal: bool)
    ensures
        equal == (left@ == right@),
{
    if left.len() != right.len() {
        return false;
    }
    for i in 0..left.len()
        invariant
            left@.len() == right@.len(),
            forall|j: int| 0 <= j < i ==> left@[j] == right@[j],
    {
        if left[i] != right[i] {
            return false;
        }
    }
    assert(left@ =~= right@);
    true
}

impl ValueView {
    /// Whether two values are equal: of one kind, and with equal contents.
    pub open spec fn same(self, other: ValueView) -> bool {
        match (self, other) {
            (ValueView::Float(left), ValueView::Float(right)) => same_float(left, right),
            _ => self == other,
        }
    }
}

impl PartialEq for Value {
    fn eq(&self, other: &Value) -> (equal: bool) {
        match (self, other) {
            (Value::Bool(left), Value::Bool(right)) => *left == *right,
            (Value::Text(left), Value::Text(right)) => *left == *right,
            (Value::Bytes(left), Value::Bytes(right)) => bytes_equal(left, right),
            (Value::Int(left), Value::Int(right)) => *left == *right,
            (Value::Uint(left), Value::Uint(right)) => *left == *right,
            (Value::Float { bits: left }, Value::Float { bits: right }) => floats_equal(
                *left,
                *right,
            ),
            (
                Value::Timestamp { seconds: left, nanos: left_nanos },
                Value::Timestamp { seconds: right, nanos: right_nanos },
            ) => *left == *right && *left_nanos == *right_nanos,
            (Value::Duration(left), Value::Duration(right)) => *left == *right,
            _ => false,
        }
    }
}

impl vstd::std_specs::cmp::PartialEqSpecImpl for Value {
    open spec fn obeys_eq_spec() -> bool {
        true
    }

    open spec fn eq_spec(&self, other: &Value) -> bool {
        self@.same(other@)
    }
}

/// Whether two lists of values are equal, one value for one.
pub open spec fn same_values(left: Seq<ValueView>, right: Seq<ValueView>) -> bool {
    &&& left.len() == right.len()
    &&& forall|i: int| 0 <= i < left.len() ==> (#[trigger] left[i]).same(right[i])
}

/// Says whether two lists of values are equal.
pub fn values_equal(left: &Vec<Value>, right: &Vec<Value>) -> (equal: bool)
    ensures
        equal == same_values(value_views(left@), value_views(right@)),
{
    let ghost left_views = value_views(left@);
    let ghost right_views = value_views(right@);
    if left.len() != right.len() {
        return false;
    }
    for i in 0..left.len()
        invariant
            left@.len() == right@.len(),
            left_views == value_views(left@),
            right_views == value_views(right@),
            forall|j: int| 0 <= j < i ==> (#[trigger] left_views[j]).same(right_views[j]),
    {
        if left[i] != right[i] {
            assert(!left_views[i as int].same(right_views[i as int]));
            return false;
        }
    }
    true
}

impl Clone for Value {
    fn clone(&self) -> (copy: Self)
        ensures
            copy@ == self@,
    {
        match self {
            Value::Bool(value) => Value::Bool(*value),
            Value::Text(value) => Value::Text(value.clone()),
            Value::Bytes(value) => Value::Bytes(copy_bytes(value)),
            Value::Int(value) => Value::Int(*value),
            Value::Uint(value) => Value::Uint(*value),
            Value::Float { bits } => Value::Float { bits: *bits },
            Value::Timestamp { seconds, nanos } => Value::Timestamp {
                seconds: *seconds,
                nanos: *nanos,
            },
            Value::Duration(value) => Value::Duration(*value),
        }
    }
}

/// A copy of `bytes`.
pub fn copy_bytes(bytes: &Vec<u8>) -> (copy: Vec<u8>)
    ensures
        copy@ == bytes@,
{
    let copy = bytes.clone();
    assert(copy@ =~= bytes@);
    copy
}

/// A copy of `values`.
pub fn copy_values(values: &Vec<Value>) -> (copy: Vec<Value>)
    ensures
        copy@.len() == values@.len(),
        value_views(copy@) == value_views(values@),
{
    let mut copy: Vec<Value> = Vec::new();
    for i in 0..values.len()
        invariant
            copy@.len() == i,
            forall|j: int| 0 <= j < i ==> (#[trigger] copy@[j])@ == values@[j]@,
    {
        copy.push(values[i].clone());
    }
    assert(value_views(copy@) =~= value_views(values@));
    copy
}

} // verus!
