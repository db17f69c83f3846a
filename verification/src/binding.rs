//! What becomes of a cursor's values, and when two values are the same.

use vstd::prelude::*;

use crate::cursor::{bind, bind_by, countable, is_positional, microseconds};
use crate::cursor::{timestamp, timestamp_by_time};
use crate::dialect::Dialect;
use crate::error::{Error, ErrorView, FilterError};
use crate::instant::Backend;
use crate::query::{FilterFragment, Query, QueryFragment};
use crate::request::{CursorValue, CursorValueView, FieldView, OrderBy, OrderByField};
use crate::value::{floats_equal, Value, ValueView};

verus! {

/// Binding keeps the value: a boolean, a string, a byte string, an integer and a
/// number are bound as they are, under every backend. A null is refused, with its
/// field's path.
pub proof fn law_a_value_is_bound_as_it_is(
    backend: Backend,
    field: OrderByField,
    value: CursorValue,
    key: Result<Value, Error>,
)
    requires
        call_ensures(bind_by, (backend, &field, &value), key),
    ensures
        match value {
            CursorValue::Null => key matches Err(Error::NullCursorValue { path }) && path@
                == field.path@,
            CursorValue::Bool(value) => key == Ok::<Value, Error>(Value::Bool(value)),
            CursorValue::String(value) => key matches Ok(Value::Text(key)) && key@ == value@,
            CursorValue::Bytes(value) => key matches Ok(Value::Bytes(key)) && key@ == value@,
            CursorValue::Int(value) => key == Ok::<Value, Error>(Value::Int(value)),
            CursorValue::Uint(value) => key == Ok::<Value, Error>(Value::Uint(value)),
            CursorValue::Float { bits } => key == Ok::<Value, Error>(Value::Float { bits }),
            CursorValue::Timestamp { .. } => key matches Ok(key) ==> key is Timestamp,
            CursorValue::Duration { .. } => key matches Ok(Value::Duration(_)),
        },
{
}

/// The same, of what is bound whenever a cursor value is: it is the value itself, so
/// that two values of one of these kinds are bound alike exactly where they are the
/// same, and a timestamp or a duration is bound as one.
pub proof fn law_binding_keeps_the_value(
    backend: Backend,
    path: Seq<char>,
    value: CursorValueView,
    key: ValueView,
)
    requires
        crate::cursor::bound(backend, path, value) == Ok::<ValueView, ErrorView>(key),
    ensures
        match value {
            CursorValueView::Null => false,
            CursorValueView::Bool(value) => key == ValueView::Bool(value),
            CursorValueView::Text(value) => key == ValueView::Text(value),
            CursorValueView::Bytes(value) => key == ValueView::Bytes(value),
            CursorValueView::Int(value) => key == ValueView::Int(value),
            CursorValueView::Uint(value) => key == ValueView::Uint(value),
            CursorValueView::Float(bits) => key == ValueView::Float(bits),
            CursorValueView::Timestamp { seconds, nanos } => {
                key matches ValueView::Timestamp { seconds: second, nanos: after } && second
                    * 1_000_000_000 + after == seconds * 1_000_000_000 + nanos
            },
            CursorValueView::Duration(nanos) => {
                key matches ValueView::Duration(micros) && -500 <= 1_000 * micros - nanos <= 500
            },
        },
{
}

/// A value that is neither a null nor a timestamp is always bound, and what cannot be
/// bound is refused under its own path.
pub proof fn law_a_refusal_names_its_path(
    backend: Backend,
    path: Seq<char>,
    value: CursorValueView,
    error: ErrorView,
)
    requires
        crate::cursor::bound(backend, path, value) == Err::<ValueView, ErrorView>(error),
    ensures
        match value {
            CursorValueView::Null => error == (ErrorView::NullCursorValue { path }),
            CursorValueView::Timestamp { seconds, .. } => error == (ErrorView::CursorTimestamp {
                path,
                seconds,
            }),
            _ => false,
        },
{
}

/// A cursor is seen with every value, in its order.
pub proof fn law_cursors_are_seen_whole(cursor: Seq<CursorValue>, index: int)
    ensures
        crate::request::cursor_views(cursor).len() == cursor.len(),
        0 <= index < cursor.len() ==> crate::request::cursor_views(cursor)[index]
            == cursor[index]@,
{
}

/// Whether a cursor value of a kind that is bound as it is holds what `key` does.
pub open spec fn holds_the_same(value: CursorValueView, key: ValueView) -> bool {
    match (value, key) {
        (CursorValueView::Bool(value), ValueView::Bool(key)) => value == key,
        (CursorValueView::Text(value), ValueView::Text(key)) => value == key,
        (CursorValueView::Bytes(value), ValueView::Bytes(key)) => value == key,
        (CursorValueView::Int(value), ValueView::Int(key)) => value == key,
        (CursorValueView::Uint(value), ValueView::Uint(key)) => value == key,
        (CursorValueView::Float(value), ValueView::Float(key)) => value == key,
        _ => false,
    }
}

/// A row's own values are its cursor: a cursor that holds, field by field, what the
/// row does is bound as the row's sort key. So a page that ends with the row is
/// followed by one that resumes behind it.
pub proof fn law_a_row_is_its_own_cursor(
    backend: Backend,
    fields: Seq<FieldView>,
    cursor: Seq<CursorValueView>,
    row: Seq<ValueView>,
)
    requires
        cursor.len() == row.len(),
        forall|i: int| 0 <= i < row.len() ==> holds_the_same(#[trigger] cursor[i], row[i]),
    ensures
        crate::cursor::bound_fields(backend, fields, cursor) == Ok::<Seq<ValueView>, ErrorView>(
            row,
        ),
{
    crate::reading::law_a_cursor_binds_value_by_value(backend, fields, cursor);
    match crate::cursor::bound_fields(backend, fields, cursor) {
        Ok(keys) => {
            assert forall|i: int| 0 <= i < row.len() implies keys[i] == row[i] by {
                assert(holds_the_same(cursor[i], row[i]));
                law_binding_keeps_the_value(backend, fields[i].path, cursor[i], keys[i]);
            }
            assert(keys =~= row);
        },
        Err(error) => {
            let i = choose|i: int|
                #[trigger] crate::reading::first_unbound(backend, fields, cursor, i)
                    && crate::cursor::bound(backend, fields[i].path, cursor[i]) == Err::<
                    ValueView,
                    ErrorView,
                >(error);
            assert(holds_the_same(cursor[i], row[i]));
            law_a_refusal_names_its_path(backend, fields[i].path, cursor[i], error);
        },
    }
}

/// A duration is bound as the nearest count of microseconds, and half a microsecond
/// goes away from zero.
pub proof fn law_a_duration_is_bound_in_microseconds(
    backend: Backend,
    field: OrderByField,
    nanos: i64,
    key: Result<Value, Error>,
    micros: i64,
)
    requires
        call_ensures(bind_by, (backend, &field, &CursorValue::Duration { nanos }), key),
        call_ensures(microseconds, (nanos,), micros),
    ensures
        key == Ok::<Value, Error>(Value::Duration(micros)),
        nanos >= 0 ==> -500 < 1_000 * micros - nanos <= 500,
        nanos <= 0 ==> -500 <= 1_000 * micros - nanos < 500,
{
}

/// A timestamp is bound as the instant it names, and refused, with its path and its
/// seconds, exactly where `chrono` has no such instant: before the year -262143,
/// after the year 262142, with negative nanoseconds or two billion of them, and in
/// a leap second that does not end a minute.
pub proof fn law_chrono_binds_the_instant_itself(
    field: OrderByField,
    seconds: i64,
    nanos: i32,
    instant: Result<Value, Error>,
    key: Result<Value, Error>,
)
    requires
        call_ensures(timestamp, (&field, seconds, nanos), instant),
        call_ensures(
            bind_by,
            (Backend::Chrono, &field, &CursorValue::Timestamp { seconds, nanos }),
            key,
        ),
    ensures
        ({
            let there = -8_334_601_228_800 <= seconds <= 8_210_266_876_799 && 0 <= nanos
                < 2_000_000_000 && (nanos >= 1_000_000_000 ==> seconds % 60 == 59);
            &&& there ==> binds_instant(instant, seconds as int, nanos as int) && binds_instant(
                key,
                seconds as int,
                nanos as int,
            )
            &&& !there ==> refuses_instant(instant, field, seconds) && refuses_instant(
                key,
                field,
                seconds,
            )
        }),
{
}

/// Whether `key` is the instant `nanos` nanoseconds after the second `seconds`.
pub open spec fn binds_instant(key: Result<Value, Error>, seconds: int, nanos: int) -> bool {
    key matches Ok(Value::Timestamp { seconds: second, nanos: after }) && second == seconds
        && after == nanos
}

/// Whether `key` refuses the timestamp of `field` at the second `seconds`.
pub open spec fn refuses_instant(
    key: Result<Value, Error>,
    field: OrderByField,
    seconds: i64,
) -> bool {
    key matches Err(Error::CursorTimestamp { path, seconds: second }) && path@ == field.path@
        && second == seconds
}

/// With `time`, a timestamp is bound as the instant it names, in whole seconds and
/// less than a billion nanoseconds after them, and refused, with its path and its
/// seconds, exactly where that instant is outside of the years -9999 to 9999 or its
/// nanoseconds are negative.
pub proof fn law_time_binds_the_instant_normalized(
    field: OrderByField,
    seconds: i64,
    nanos: i32,
    instant: Result<Value, Error>,
    key: Result<Value, Error>,
)
    requires
        call_ensures(timestamp_by_time, (&field, seconds, nanos), instant),
        call_ensures(
            bind_by,
            (Backend::Time, &field, &CursorValue::Timestamp { seconds, nanos }),
            key,
        ),
    ensures
        ({
            let carried = nanos as int / 1_000_000_000;
            let there = nanos >= 0 && -377_705_116_800 <= seconds + carried <= 253_402_300_799;
            let left = nanos - 1_000_000_000 * carried;
            &&& there ==> binds_instant(instant, seconds + carried, left) && binds_instant(
                key,
                seconds + carried,
                left,
            )
            &&& !there ==> refuses_instant(instant, field, seconds) && refuses_instant(
                key,
                field,
                seconds,
            )
        }),
{
    let since_epoch = seconds * 1_000_000_000 + nanos;
    let carried = nanos as int / 1_000_000_000;
    let left = nanos - 1_000_000_000 * carried;
    assert(since_epoch == 1_000_000_000 * (seconds + carried) + left);
    assert(since_epoch / 1_000_000_000 == seconds + carried);
    assert(since_epoch % 1_000_000_000 == left);
}

/// Without a backend named, a value is bound as with `chrono`.
pub proof fn law_values_are_bound_by_chrono(
    field: OrderByField,
    value: CursorValue,
    plain: Result<Value, Error>,
    by_chrono: Result<Value, Error>,
)
    requires
        call_ensures(bind, (&field, &value), plain),
        call_ensures(bind_by, (Backend::Chrono, &field, &value), by_chrono),
    ensures
        match (plain, by_chrono) {
            (Ok(left), Ok(right)) => same_value(left, right),
            (Err(left), Err(right)) => same_error(left, right),
            _ => false,
        },
{
    match (plain, by_chrono) {
        (Ok(left), Ok(right)) => {
            law_values_are_seen_whole(left, right);
        },
        (Err(left), Err(right)) => {
            law_errors_are_seen_whole(left, right);
        },
        _ => {},
    }
}

/// Whether two bind values are of one kind and hold the same.
pub open spec fn same_value(left: Value, right: Value) -> bool {
    match (left, right) {
        (Value::Bool(left), Value::Bool(right)) => left == right,
        (Value::Text(left), Value::Text(right)) => left@ == right@,
        (Value::Bytes(left), Value::Bytes(right)) => left@ == right@,
        (Value::Int(left), Value::Int(right)) => left == right,
        (Value::Uint(left), Value::Uint(right)) => left == right,
        (Value::Float { bits: left }, Value::Float { bits: right }) => left == right,
        (
            Value::Timestamp { seconds: left, nanos: left_nanos },
            Value::Timestamp { seconds: right, nanos: right_nanos },
        ) => left == right && left_nanos == right_nanos,
        (Value::Duration(left), Value::Duration(right)) => left == right,
        _ => false,
    }
}

/// A bind value's view holds all of it: two have one view exactly where they are of
/// one kind and hold the same.
pub proof fn law_values_are_seen_whole(left: Value, right: Value)
    ensures
        left@ == right@ <==> same_value(left, right),
{
}

/// Whether two cursor values are of one kind and hold the same.
pub open spec fn same_cursor_value(left: CursorValue, right: CursorValue) -> bool {
    match (left, right) {
        (CursorValue::Null, CursorValue::Null) => true,
        (CursorValue::Bool(left), CursorValue::Bool(right)) => left == right,
        (CursorValue::String(left), CursorValue::String(right)) => left@ == right@,
        (CursorValue::Bytes(left), CursorValue::Bytes(right)) => left@ == right@,
        (CursorValue::Int(left), CursorValue::Int(right)) => left == right,
        (CursorValue::Uint(left), CursorValue::Uint(right)) => left == right,
        (CursorValue::Float { bits: left }, CursorValue::Float { bits: right }) => left == right,
        (
            CursorValue::Timestamp { seconds: left, nanos: left_nanos },
            CursorValue::Timestamp { seconds: right, nanos: right_nanos },
        ) => left == right && left_nanos == right_nanos,
        (CursorValue::Duration { nanos: left }, CursorValue::Duration { nanos: right }) => left
            == right,
        _ => false,
    }
}

/// A cursor value's view holds all of it.
pub proof fn law_cursor_values_are_seen_whole(left: CursorValue, right: CursorValue)
    ensures
        left@ == right@ <==> same_cursor_value(left, right),
{
}

/// Whether two errors are of one kind and hold the same.
pub open spec fn same_error(left: Error, right: Error) -> bool {
    match (left, right) {
        (
            Error::UnknownField { dimension: left, path: left_path },
            Error::UnknownField { dimension: right, path: right_path },
        ) => left == right && left_path@ == right_path@,
        (
            Error::CursorArity { fields: left, values: left_values },
            Error::CursorArity { fields: right, values: right_values },
        ) => left == right && left_values == right_values,
        (
            Error::NullCursorValue { path: left },
            Error::NullCursorValue { path: right },
        ) => left@ == right@,
        (
            Error::CursorTimestamp { path: left, seconds: left_seconds },
            Error::CursorTimestamp { path: right, seconds: right_seconds },
        ) => left@ == right@ && left_seconds == right_seconds,
        (Error::Filter(left), Error::Filter(right)) => left.message@ == right.message@,
        _ => false,
    }
}

/// An error's view holds all of it.
pub proof fn law_errors_are_seen_whole(left: Error, right: Error)
    ensures
        left@ == right@ <==> same_error(left, right),
{
}

/// A filter's error is seen with its path, or with what the transpiler said.
pub proof fn law_filter_errors_are_seen_whole(left: FilterError, right: FilterError)
    ensures
        left@ == right@ <==> match (left, right) {
            (
                FilterError::UnknownField { path: left },
                FilterError::UnknownField { path: right },
            ) => left@ == right@,
            (FilterError::Rejected(left), FilterError::Rejected(right)) => left.message@
                == right.message@,
            _ => false,
        },
{
}

/// An ordering is seen with every field, in its order, and a field with its path
/// and its direction.
pub proof fn law_orderings_are_seen_whole(order_by: OrderBy, index: int, empty: bool)
    requires
        call_ensures(OrderBy::is_empty, (&order_by,), empty),
    ensures
        order_by@.len() == order_by.fields@.len(),
        0 <= index < order_by.fields@.len() ==> order_by@[index].path
            == order_by.fields@[index].path@ && order_by@[index].desc
            == order_by.fields@[index].desc,
        empty <==> order_by.fields@.len() == 0,
{
}

/// Whether two texts are both absent, or both there and the same.
pub open spec fn same_text(left: Option<String>, right: Option<String>) -> bool {
    match (left, right) {
        (Some(left), Some(right)) => left@ == right@,
        (None, None) => true,
        _ => false,
    }
}

/// Whether two lists hold the same values, one for one.
pub open spec fn same_list(left: Seq<Value>, right: Seq<Value>) -> bool {
    &&& left.len() == right.len()
    &&& forall|i: int| 0 <= i < left.len() ==> same_value(#[trigger] left[i], right[i])
}

/// A list's views are those of its values, one for one.
pub proof fn law_lists_are_seen_whole(left: Seq<Value>, right: Seq<Value>)
    ensures
        crate::value::value_views(left) == crate::value::value_views(right) <==> same_list(
            left,
            right,
        ),
{
    let left_views = crate::value::value_views(left);
    let right_views = crate::value::value_views(right);
    if left_views == right_views {
        assert(left_views.len() == left.len());
        assert(right_views.len() == right.len());
        assert forall|i: int| 0 <= i < left.len() implies same_value(
            #[trigger] left[i],
            right[i],
        ) by {
            assert(left_views[i] == right_views[i]);
            law_values_are_seen_whole(left[i], right[i]);
        }
    }
    if same_list(left, right) {
        assert forall|i: int| 0 <= i < left.len() implies left_views[i] == right_views[i] by {
            assert(same_value(left[i], right[i]));
            law_values_are_seen_whole(left[i], right[i]);
        }
        assert(left_views =~= right_views);
    }
}

/// Fragments are seen with both texts and with every bind value.
pub proof fn law_fragments_are_seen_whole(
    left: QueryFragment,
    right: QueryFragment,
    filter: FilterFragment,
    other: FilterFragment,
)
    ensures
        left@ == right@ <==> same_text(left.where_sql, right.where_sql) && same_text(
            left.order_sql,
            right.order_sql,
        ) && same_list(left.values@, right.values@),
        filter@ == other@ <==> filter.sql@ == other.sql@ && same_list(
            filter.values@,
            other.values@,
        ),
{
    law_lists_are_seen_whole(left.values@, right.values@);
    law_lists_are_seen_whole(filter.values@, other.values@);
}

/// Whether a bit pattern is not a number.
pub open spec fn not_a_number(bits: u64) -> bool {
    ||| 0x7ff0_0000_0000_0000 < bits < 0x8000_0000_0000_0000
    ||| bits > 0xfff0_0000_0000_0000
}

/// Whether a bit pattern is one of the two zeros.
pub open spec fn is_zero(bits: u64) -> bool {
    bits == 0 || bits == 0x8000_0000_0000_0000
}

/// Whether two bit patterns are equal numbers.
pub open spec fn equal_numbers(left: u64, right: u64) -> bool {
    &&& !not_a_number(left)
    &&& !not_a_number(right)
    &&& left == right || is_zero(left) && is_zero(right)
}

/// Numbers are equal as IEEE 754 has it: not-a-number equals nothing, the two zeros
/// equal each other, and any other number equals itself alone.
pub proof fn law_numbers_are_equal_as_numbers(left: u64, right: u64, equal: bool)
    requires
        call_ensures(floats_equal, (left, right), equal),
    ensures
        equal == equal_numbers(left, right),
{
    lemma_magnitude(left);
    lemma_magnitude(right);
}

proof fn lemma_magnitude(bits: u64)
    ensures
        crate::value::float_magnitude(bits) == (if bits < 0x8000_0000_0000_0000 {
            bits as int
        } else {
            bits - 0x8000_0000_0000_0000
        }),
{
}

/// Two bind values, and two cursor values, are equal where they are of one kind and
/// hold the same, with numbers compared as numbers. A copy of a bind value holds
/// the same.
pub proof fn law_values_are_equal_by_what_they_hold(
    left: Value,
    right: Value,
    equal: bool,
    left_cursor: CursorValue,
    right_cursor: CursorValue,
    equal_cursor: bool,
    copy: Value,
)
    requires
        call_ensures(Value::eq, (&left, &right), equal),
        call_ensures(CursorValue::eq, (&left_cursor, &right_cursor), equal_cursor),
        call_ensures(Value::clone, (&left,), copy),
    ensures
        equal == match (left, right) {
            (Value::Float { bits: left }, Value::Float { bits: right }) => equal_numbers(
                left,
                right,
            ),
            _ => same_value(left, right),
        },
        equal_cursor == match (left_cursor, right_cursor) {
            (
                CursorValue::Float { bits: left },
                CursorValue::Float { bits: right },
            ) => equal_numbers(left, right),
            _ => same_cursor_value(left_cursor, right_cursor),
        },
        same_value(copy, left),
{
    law_values_are_seen_whole(left, right);
    law_values_are_seen_whole(copy, left);
    law_cursor_values_are_seen_whole(left_cursor, right_cursor);
    match (left, right) {
        (Value::Float { bits: left }, Value::Float { bits: right }) => {
            lemma_magnitude(left);
            lemma_magnitude(right);
        },
        _ => {},
    }
    match (left_cursor, right_cursor) {
        (CursorValue::Float { bits: left }, CursorValue::Float { bits: right }) => {
            lemma_magnitude(left);
            lemma_magnitude(right);
        },
        _ => {},
    }
}

/// Fragments are equal where both texts are the same and their bind values are
/// equal, one for one.
pub proof fn law_fragments_are_equal_by_what_they_hold(
    left: QueryFragment,
    right: QueryFragment,
    equal: bool,
)
    requires
        call_ensures(QueryFragment::eq, (&left, &right), equal),
    ensures
        equal == (same_text(left.where_sql, right.where_sql) && same_text(
            left.order_sql,
            right.order_sql,
        ) && left.values@.len() == right.values@.len() && forall|i: int|
            0 <= i < left.values@.len() ==> match (#[trigger] left.values@[i], right.values@[i]) {
                (Value::Float { bits: left }, Value::Float { bits: right }) => equal_numbers(
                    left,
                    right,
                ),
                (left, right) => same_value(left, right),
            }),
{
    let left_views = crate::value::value_views(left.values@);
    let right_views = crate::value::value_views(right.values@);
    assert(left_views.len() == left.values@.len());
    assert(right_views.len() == right.values@.len());
    assert forall|i: int| 0 <= i < left.values@.len() && i < right.values@.len() implies (
    #[trigger] left_views[i]).same(right_views[i]) == match (left.values@[i], right.values@[i]) {
        (Value::Float { bits: left }, Value::Float { bits: right }) => equal_numbers(left, right),
        (left, right) => same_value(left, right),
    } by {
        law_values_are_seen_whole(left.values@[i], right.values@[i]);
        match (left.values@[i], right.values@[i]) {
            (Value::Float { bits: left }, Value::Float { bits: right }) => {
                lemma_magnitude(left);
                lemma_magnitude(right);
            },
            _ => {},
        }
    }
    if left.values@.len() == right.values@.len() {
        if crate::value::same_values(left_views, right_views) {
            assert forall|i: int| 0 <= i < left.values@.len() implies match (
                #[trigger] left.values@[i],
                right.values@[i],
            ) {
                (Value::Float { bits: left }, Value::Float { bits: right }) => equal_numbers(
                    left,
                    right,
                ),
                (left, right) => same_value(left, right),
            } by {
                assert(left_views[i].same(right_views[i]));
            }
        }
    }
}

/// A dialect is positional exactly where it writes its first two placeholders in
/// the same way.
pub proof fn law_a_positional_dialect_repeats_itself<D: Dialect>(
    dialect: D,
    first: String,
    second: String,
    positional: bool,
)
    requires
        call_ensures(D::placeholder, (&dialect, 1usize), first),
        call_ensures(D::placeholder, (&dialect, 2usize), second),
        call_ensures(is_positional::<D>, (&dialect,), positional),
    ensures
        positional <==> first@ == second@,
{
}

/// How many bind values a predicate over `fields` fields has.
pub open spec fn predicate_binds(fields: int, positional: bool) -> int {
    if positional {
        fields * (fields + 1) / 2
    } else {
        fields
    }
}

/// Nothing but the machine stands in the way of a rewrite: it can be counted, and
/// called, wherever the last ordinal of its bind values is a `usize`.
pub proof fn law_every_query_that_fits_can_be_rewritten<D: Dialect>(
    backend: Backend,
    query: Query<'_>,
    dialect: D,
    counts: bool,
)
    requires
        call_ensures(Query::countable::<D>, (&query, &dialect), counts),
    ensures
        ({
            let literals = crate::reading::filter_binds(query.filter).len();
            let fields = query.order_by.fields@.len() as int;
            let positional = dialect.placeholder_text(1) == dialect.placeholder_text(2);
            let predicate = if query.page_token.cursor@.len() == fields {
                predicate_binds(fields, positional)
            } else {
                0
            };
            &&& counts <==> literals < usize::MAX && literals + predicate <= usize::MAX
            &&& counts ==> call_requires(Query::rewrite::<D>, (&query, dialect))
            &&& counts ==> call_requires(Query::rewrite_by::<D>, (&query, backend, dialect))
        }),
{
    let views = crate::query::filter_literals(crate::query::filter_view(query.filter));
    assert(views.len() == crate::reading::filter_binds(query.filter).len());
    let fields = query.order_by.fields@.len();
    crate::keyset::lemma_comparisons(fields);
    if fields == 0 {
        assert(fields * (fields + 1) == 0) by (nonlinear_arith)
            requires
                fields == 0,
        ;
    }
}

/// The same of a predicate alone, whose first bind value is `offset`.
pub proof fn law_every_predicate_that_fits_can_be_rewritten<D: Dialect>(
    backend: Backend,
    order_by: OrderBy,
    cursor: &[CursorValue],
    columns: crate::columns::Columns<'_>,
    dialect: D,
    offset: usize,
    positional: bool,
    counts: bool,
)
    requires
        positional == (dialect.placeholder_text(1) == dialect.placeholder_text(2)),
        cursor@.len() <= usize::MAX,
        order_by.fields@.len() <= usize::MAX,
        call_ensures(
            countable,
            (order_by.fields@.len() as usize, cursor@.len() as usize, positional, offset),
            counts,
        ),
    ensures
        ({
            let fields = order_by.fields@.len() as int;
            &&& counts <==> cursor@.len() == 0 || cursor@.len() != fields || offset
                + predicate_binds(fields, positional) - 1 <= usize::MAX
            &&& counts ==> call_requires(
                crate::cursor::rewrite::<D>,
                (&order_by, cursor, columns, &dialect, offset),
            )
            &&& counts ==> call_requires(
                crate::cursor::rewrite_by::<D>,
                (backend, &order_by, cursor, columns, &dialect, offset),
            )
        }),
{
    crate::keyset::lemma_comparisons(order_by.fields@.len());
}

} // verus!
