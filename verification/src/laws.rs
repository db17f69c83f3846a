//! What holds of a rewrite as a whole.

use vstd::prelude::*;

use crate::dialect::Dialect;
use crate::error::{Dimension, ErrorView, FilterErrorView};
use crate::instant::Backend;
use crate::query::{FilterView, FragmentView, Query};
use crate::request::{CursorValueView, FieldView};
use crate::value::ValueView;

verus! {

/// The map is fail-closed: where a rewrite succeeds, it has a column for every
/// field of the ordering.
pub proof fn law_unmapped_paths_never_reach_sql<D: Dialect>(
    backend: Backend,
    filter: Option<Result<FilterView, FilterErrorView>>,
    fields: Seq<FieldView>,
    cursor: Seq<CursorValueView>,
    entries: Seq<(Seq<char>, Seq<char>)>,
    dialect: D,
    field: int,
)
    requires
        crate::query::outcome(backend, filter, fields, cursor, entries, dialect) is Ok,
        0 <= field < fields.len(),
    ensures
        crate::columns::lookup(entries, fields[field].path) is Some,
{
    lemma_mapped_field(entries, fields, Dimension::OrderBy, field);
}

/// Where all fields of an ordering are mapped, the columns come in its order.
proof fn lemma_mapped_field(
    entries: Seq<(Seq<char>, Seq<char>)>,
    fields: Seq<FieldView>,
    dimension: Dimension,
    field: int,
)
    requires
        crate::columns::mapped_fields(entries, fields, dimension) is Ok,
        0 <= field < fields.len(),
    ensures
        ({
            let columns = crate::columns::mapped_fields(entries, fields, dimension)->Ok_0;
            &&& columns.len() == fields.len()
            &&& crate::columns::lookup(entries, fields[field].path) == Some(columns[field])
        }),
    decreases fields.len(),
{
    reveal_with_fuel(crate::columns::mapped_fields, 2);
    let shorter = fields.drop_last();
    if shorter.len() > 0 {
        lemma_mapped_field(entries, shorter, dimension, 0);
        if field < shorter.len() {
            lemma_mapped_field(entries, shorter, dimension, field);
        }
    }
}

/// The map without entries rejects every ordering that has a field, and names
/// its first.
pub proof fn law_empty_map_rejects_every_ordering<D: Dialect>(
    fields: Seq<FieldView>,
    dialect: D,
)
    requires
        fields.len() > 0,
    ensures
        crate::order::outcome(fields, Seq::empty(), dialect) == Err::<Option<Seq<char>>, ErrorView>(
            ErrorView::UnknownField { dimension: Dimension::OrderBy, path: fields[0].path },
        ),
{
    let entries = Seq::<(Seq<char>, Seq<char>)>::empty();
    let first = fields.take(1);
    reveal_with_fuel(crate::columns::mapped_fields, 2);
    assert(first.drop_last() =~= Seq::<FieldView>::empty());
    assert(first.last() == fields[0]);
    assert(crate::columns::lookup(entries, fields[0].path) is None);
    crate::columns::lemma_mapped_prefix_error(entries, fields, Dimension::OrderBy, 1);
}

/// A path never becomes part of the SQL: two orderings whose paths map to the
/// same columns, in the same directions, give the same fragments.
pub proof fn law_sql_depends_on_columns_alone<D: Dialect>(
    backend: Backend,
    filter: Option<Result<FilterView, FilterErrorView>>,
    left: Seq<FieldView>,
    right: Seq<FieldView>,
    cursor: Seq<CursorValueView>,
    entries: Seq<(Seq<char>, Seq<char>)>,
    dialect: D,
)
    requires
        left.len() == right.len(),
        forall|i: int|
            #![trigger left[i]]
            0 <= i < left.len() ==> left[i].desc == right[i].desc && crate::columns::lookup(
                entries,
                left[i].path,
            ) == crate::columns::lookup(entries, right[i].path),
        crate::query::outcome(backend, filter, left, cursor, entries, dialect) is Ok,
    ensures
        crate::query::outcome(backend, filter, right, cursor, entries, dialect) == crate::query::outcome(
            backend,
            filter,
            left,
            cursor,
            entries,
            dialect,
        ),
{
    assert forall|i: int| 0 <= i < right.len() implies crate::columns::lookup(
        entries,
        (#[trigger] right[i]).path,
    ) is Some by {
        law_unmapped_paths_never_reach_sql(backend, filter, left, cursor, entries, dialect, i);
        assert(left[i].desc == right[i].desc);
    }
    lemma_same_columns(entries, left, right, Dimension::OrderBy);
    if cursor.len() > 0 {
        lemma_same_columns(entries, left, right, Dimension::Cursor);
        lemma_same_keys(backend, left, right, cursor);
    }
    let columns = crate::columns::mapped_fields(entries, left, Dimension::OrderBy)->Ok_0;
    assert(crate::order::term_texts(left, columns, dialect) =~= crate::order::term_texts(
        right,
        columns,
        dialect,
    ));
    assert(crate::cursor::directions(left) =~= crate::cursor::directions(right));
}

/// A cursor's values never become part of the SQL: two queries that differ in
/// them alone, with cursors of one length, say the same and bind as many values,
/// where both succeed.
pub proof fn law_cursor_values_never_reach_sql<D: Dialect>(
    backend: Backend,
    filter: Option<Result<FilterView, FilterErrorView>>,
    fields: Seq<FieldView>,
    left: Seq<CursorValueView>,
    right: Seq<CursorValueView>,
    entries: Seq<(Seq<char>, Seq<char>)>,
    dialect: D,
)
    requires
        left.len() == right.len(),
        crate::query::outcome(backend, filter, fields, left, entries, dialect) is Ok,
        crate::query::outcome(backend, filter, fields, right, entries, dialect) is Ok,
    ensures
        ({
            let left = crate::query::outcome(backend, filter, fields, left, entries, dialect)->Ok_0;
            let right = crate::query::outcome(
                backend,
                filter,
                fields,
                right,
                entries,
                dialect,
            )->Ok_0;
            &&& left.where_sql == right.where_sql
            &&& left.order_sql == right.order_sql
            &&& left.values.len() == right.values.len()
        }),
{
    if left.len() > 0 {
        let positional = crate::dialect::positional(dialect);
        crate::paging::lemma_bound_count(backend, fields, left);
        crate::paging::lemma_bound_count(backend, fields, right);
        crate::keyset::lemma_bind_count(
            crate::cursor::bound_fields(backend, fields, left)->Ok_0,
            positional,
        );
        crate::keyset::lemma_bind_count(
            crate::cursor::bound_fields(backend, fields, right)->Ok_0,
            positional,
        );
    }
}

proof fn lemma_same_columns(
    entries: Seq<(Seq<char>, Seq<char>)>,
    left: Seq<FieldView>,
    right: Seq<FieldView>,
    dimension: Dimension,
)
    requires
        left.len() == right.len(),
        forall|i: int|
            #![trigger left[i]]
            0 <= i < left.len() ==> crate::columns::lookup(entries, left[i].path)
                == crate::columns::lookup(entries, right[i].path),
        crate::columns::mapped_fields(entries, left, dimension) is Ok,
    ensures
        crate::columns::mapped_fields(entries, right, dimension) == crate::columns::mapped_fields(
            entries,
            left,
            dimension,
        ),
    decreases left.len(),
{
    if left.len() > 0 {
        let last = left.len() - 1;
        assert forall|i: int|
            #![trigger left.drop_last()[i]]
            0 <= i < last implies crate::columns::lookup(entries, left.drop_last()[i].path)
            == crate::columns::lookup(entries, right.drop_last()[i].path) by {
            assert(left[i] == left.drop_last()[i]);
        }
        lemma_same_columns(entries, left.drop_last(), right.drop_last(), dimension);
        assert(crate::columns::lookup(entries, left[last].path) == crate::columns::lookup(
            entries,
            right[last].path,
        ));
    }
}

proof fn lemma_same_keys(
    backend: Backend,
    left: Seq<FieldView>,
    right: Seq<FieldView>,
    cursor: Seq<CursorValueView>,
)
    requires
        crate::cursor::bound_fields(backend, left, cursor) is Ok,
    ensures
        crate::cursor::bound_fields(backend, right, cursor) == crate::cursor::bound_fields(
            backend,
            left,
            cursor,
        ),
    decreases cursor.len(),
{
    if cursor.len() > 0 {
        lemma_same_keys(backend, left, right, cursor.drop_last());
    }
}

/// A null in the cursor is never bound: the rewrite fails.
pub proof fn law_null_is_never_bound<D: Dialect>(
    backend: Backend,
    fields: Seq<FieldView>,
    cursor: Seq<CursorValueView>,
    entries: Seq<(Seq<char>, Seq<char>)>,
    dialect: D,
    offset: int,
    index: int,
)
    requires
        0 <= index < cursor.len(),
        cursor[index] is Null,
    ensures
        crate::cursor::outcome(backend, fields, cursor, entries, dialect, offset) is Err,
{
    let prefix = cursor.take(index + 1);
    assert(prefix.last() == cursor[index]);
    assert(crate::cursor::bound_fields(backend, fields, prefix) is Err);
    crate::cursor::lemma_bound_prefix_error(backend, fields, cursor, index + 1);
}

/// A cursor with another number of values than the ordering has fields is never
/// cut short or extended: the rewrite fails with both counts, unless the cursor
/// is empty.
pub proof fn law_arity_mismatch_is_rejected<D: Dialect>(
    backend: Backend,
    fields: Seq<FieldView>,
    cursor: Seq<CursorValueView>,
    entries: Seq<(Seq<char>, Seq<char>)>,
    dialect: D,
    offset: int,
)
    requires
        cursor.len() > 0,
        cursor.len() != fields.len(),
    ensures
        crate::cursor::outcome(backend, fields, cursor, entries, dialect, offset) == Err::<
            (Option<Seq<char>>, Seq<ValueView>),
            ErrorView,
        >(ErrorView::CursorArity { fields: fields.len(), values: cursor.len() }),
{
}

/// The first page needs no predicate, and a rewrite of it succeeds wherever the
/// ordering is mapped.
pub proof fn law_first_page_has_no_predicate<D: Dialect>(
    backend: Backend,
    fields: Seq<FieldView>,
    entries: Seq<(Seq<char>, Seq<char>)>,
    dialect: D,
)
    requires
        forall|i: int|
            0 <= i < fields.len() ==> crate::columns::lookup(
                entries,
                (#[trigger] fields[i]).path,
            ) is Some,
    ensures
        crate::query::outcome(backend, None, fields, Seq::empty(), entries, dialect) matches Ok(fragment)
            && fragment.where_sql is None && fragment.values.len() == 0,
{
    crate::columns::lemma_all_mapped(entries, fields, Dimension::OrderBy);
}

/// A fragment is absent exactly where it has nothing to say: the predicate
/// without a filter and a cursor, the ordering without fields.
pub proof fn law_fragments_are_absent_when_empty<D: Dialect>(
    backend: Backend,
    filter: Option<Result<FilterView, FilterErrorView>>,
    fields: Seq<FieldView>,
    cursor: Seq<CursorValueView>,
    entries: Seq<(Seq<char>, Seq<char>)>,
    dialect: D,
    fragment: FragmentView,
)
    requires
        crate::query::outcome(backend, filter, fields, cursor, entries, dialect) == Ok::<
            FragmentView,
            ErrorView,
        >(fragment),
    ensures
        fragment.where_sql is None <==> filter is None && cursor.len() == 0,
        fragment.order_sql is None <==> fields.len() == 0,
{
}

/// The filter's literals are bound first, and the cursor's values follow: every
/// placeholder of the predicate refers to a value behind them, and to the bind
/// value of its own field.
pub proof fn law_cursor_binds_follow_the_filters<D: Dialect>(
    backend: Backend,
    filter: FilterView,
    fields: Seq<FieldView>,
    cursor: Seq<CursorValueView>,
    entries: Seq<(Seq<char>, Seq<char>)>,
    dialect: D,
    fragment: FragmentView,
    clause: int,
    term: int,
)
    requires
        crate::query::outcome(backend, Some(Ok(filter)), fields, cursor, entries, dialect) == Ok::<
            FragmentView,
            ErrorView,
        >(fragment),
        0 <= term <= clause < cursor.len(),
    ensures
        ({
            let comparison = crate::keyset::predicate(
                crate::cursor::directions(fields),
                crate::dialect::positional(dialect),
                1int + filter.values.len(),
            )[clause][term];
            &&& fragment.values.take(filter.values.len() as int) == filter.values
            &&& filter.values.len() < comparison.slot <= fragment.values.len()
            &&& crate::cursor::bound(backend, fields[comparison.field].path, cursor[comparison.field])
                == Ok::<ValueView, ErrorView>(fragment.values[comparison.slot - 1])
        }),
{
    let keys = crate::cursor::bound_fields(backend, fields, cursor)->Ok_0;
    let positional = crate::dialect::positional(dialect);
    crate::paging::lemma_bound_count(backend, fields, cursor);
    crate::keyset::lemma_bind_count(keys, positional);
    crate::paging::law_placeholders_name_their_keys(
        crate::cursor::directions(fields),
        keys,
        positional,
        1int + filter.values.len(),
        clause,
        term,
    );
    lemma_bound_field(backend, fields, cursor, term);
    assert(fragment.values.take(filter.values.len() as int) =~= filter.values);
}

proof fn lemma_bound_field(
    backend: Backend,
    fields: Seq<FieldView>,
    cursor: Seq<CursorValueView>,
    field: int,
)
    requires
        crate::cursor::bound_fields(backend, fields, cursor) is Ok,
        0 <= field < cursor.len(),
    ensures
        crate::cursor::bound(backend, fields[field].path, cursor[field]) == Ok::<
            ValueView,
            ErrorView,
        >(crate::cursor::bound_fields(backend, fields, cursor)->Ok_0[field]),
    decreases cursor.len(),
{
    crate::paging::lemma_bound_count(backend, fields, cursor.drop_last());
    if field < cursor.len() - 1 {
        lemma_bound_field(backend, fields, cursor.drop_last(), field);
    }
}

/// The token's offset is not consulted: queries that differ in it alone rewrite
/// to the same.
pub proof fn law_offset_is_not_consulted<D: Dialect>(
    backend: Backend,
    left: Query<'_>,
    right: Query<'_>,
    dialect: D,
)
    requires
        left.filter == right.filter,
        left.order_by == right.order_by,
        left.page_token.cursor == right.page_token.cursor,
        left.columns == right.columns,
    ensures
        left.outcome(backend, dialect) == right.outcome(backend, dialect),
{
}

/// An unmapped path is one variant, whichever dimension it comes from: a
/// filter's is lifted, whatever else the query holds.
pub proof fn law_unmapped_filter_path_is_lifted<D: Dialect>(
    backend: Backend,
    path: Seq<char>,
    fields: Seq<FieldView>,
    cursor: Seq<CursorValueView>,
    entries: Seq<(Seq<char>, Seq<char>)>,
    dialect: D,
)
    ensures
        crate::query::outcome(
            backend,
            Some(Err(FilterErrorView::UnknownField { path })),
            fields,
            cursor,
            entries,
            dialect,
        ) == Err::<FragmentView, ErrorView>(
            ErrorView::UnknownField { dimension: Dimension::Filter, path },
        ),
{
}

/// Rounding a duration is off by half a microsecond at most, takes half a
/// microsecond away from zero, treats both signs alike, and never swaps the
/// order of two durations.
pub proof fn law_rounding_is_fair(left: int, right: int)
    ensures
        -500 <= 1_000 * crate::cursor::rounded_microseconds(left) - left <= 500,
        left >= 0 && left % 1_000 == 500 ==> 1_000 * crate::cursor::rounded_microseconds(left)
            == left + 500,
        crate::cursor::rounded_microseconds(-left) == -crate::cursor::rounded_microseconds(left),
        left <= right ==> crate::cursor::rounded_microseconds(left)
            <= crate::cursor::rounded_microseconds(right),
{
}

/// A duration's microseconds fit where its nanoseconds did.
pub proof fn law_microseconds_fit(nanos: i64)
    ensures
        i64::MIN <= crate::cursor::rounded_microseconds(nanos as int) <= i64::MAX,
{
}

/// The date-time backends agree on a normalized timestamp that both can
/// represent, and `chrono` can represent each that `time` can.
pub proof fn law_backends_agree(path: Seq<char>, seconds: i64, nanos: i32)
    requires
        0 <= nanos < 1_000_000_000,
        crate::cursor::bound_timestamp_by_time(path, seconds, nanos) is Ok,
    ensures
        crate::cursor::bound_timestamp(path, seconds, nanos)
            == crate::cursor::bound_timestamp_by_time(path, seconds, nanos),
{
}

} // verus!
