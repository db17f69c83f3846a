//! The compound key-set predicate that resumes a page.

use vstd::prelude::*;
use vstd::string::*;

use crate::columns::{column, Columns};
use crate::dialect::Dialect;
use crate::error::{Dimension, Error, ErrorView};
use crate::instant::{chrono_instant, time_instant, Backend};
use crate::request::{CursorValue, CursorValueView, FieldView, OrderBy, OrderByField};
use crate::value::{copy_bytes, Value, ValueView};

verus! {

/// `nanos` nanoseconds in microseconds, rounded to the nearest, and half a
/// microsecond away from zero.
pub open spec fn rounded_microseconds(nanos: int) -> int {
    let size = if nanos < 0 {
        -nanos
    } else {
        nanos
    };
    let micros = if size % 1_000 < 500 {
        size / 1_000
    } else {
        size / 1_000 + 1
    };
    if nanos < 0 {
        -micros
    } else {
        micros
    }
}

/// What a cursor timestamp compares as where `chrono` is the date-time backend:
/// the instant itself, or an error where there is no such instant.
pub open spec fn bound_timestamp(path: Seq<char>, seconds: i64, nanos: i32) -> Result<
    ValueView,
    ErrorView,
> {
    if crate::instant::chrono_represents(seconds as int, nanos as int) {
        Ok(ValueView::Timestamp { seconds, nanos: nanos as u32 })
    } else {
        Err(ErrorView::CursorTimestamp { path, seconds })
    }
}

/// What a cursor timestamp compares as where `time` is the date-time backend.
/// It has no leap seconds: a billion nanoseconds and more carry over.
pub open spec fn bound_timestamp_by_time(path: Seq<char>, seconds: i64, nanos: i32) -> Result<
    ValueView,
    ErrorView,
> {
    let since_epoch = seconds * 1_000_000_000 + nanos;
    if nanos >= 0 && crate::instant::time_represents(since_epoch) {
        Ok(
            ValueView::Timestamp {
                seconds: (since_epoch / 1_000_000_000) as i64,
                nanos: (since_epoch % 1_000_000_000) as u32,
            },
        )
    } else {
        Err(ErrorView::CursorTimestamp { path, seconds })
    }
}

/// The bind value that one cursor value compares as, or why there is none.
pub open spec fn bound(backend: Backend, path: Seq<char>, value: CursorValueView) -> Result<
    ValueView,
    ErrorView,
> {
    match value {
        CursorValueView::Null => Err(ErrorView::NullCursorValue { path }),
        CursorValueView::Bool(value) => Ok(ValueView::Bool(value)),
        CursorValueView::Text(value) => Ok(ValueView::Text(value)),
        CursorValueView::Bytes(value) => Ok(ValueView::Bytes(value)),
        CursorValueView::Int(value) => Ok(ValueView::Int(value)),
        CursorValueView::Uint(value) => Ok(ValueView::Uint(value)),
        CursorValueView::Float(bits) => Ok(ValueView::Float(bits)),
        CursorValueView::Timestamp { seconds, nanos } => match backend {
            Backend::Chrono => bound_timestamp(path, seconds, nanos),
            Backend::Time => bound_timestamp_by_time(path, seconds, nanos),
        },
        CursorValueView::Duration(nanos) => Ok(
            ValueView::Duration(rounded_microseconds(nanos as int) as i64),
        ),
    }
}

/// The bind values of a cursor, in the ordering's order, or the error for the
/// first of its values that has none.
pub open spec fn bound_fields(
    backend: Backend,
    fields: Seq<FieldView>,
    cursor: Seq<CursorValueView>,
) -> Result<Seq<ValueView>, ErrorView>
    decreases cursor.len(),
{
    if cursor.len() == 0 {
        Ok(Seq::empty())
    } else {
        let last = cursor.len() - 1;
        match bound_fields(backend, fields, cursor.drop_last()) {
            Err(error) => Err(error),
            Ok(keys) => match bound(backend, fields[last].path, cursor[last]) {
                Err(error) => Err(error),
                Ok(key) => Ok(keys.push(key)),
            },
        }
    }
}

/// Which of an ordering's fields sort in descending order.
pub open spec fn directions(fields: Seq<FieldView>) -> Seq<bool> {
    Seq::new(fields.len(), |i: int| fields[i].desc)
}

/// `columns` as identifiers of `dialect`.
pub open spec fn quoted_columns<D: Dialect>(columns: Seq<Seq<char>>, dialect: D) -> Seq<Seq<char>> {
    Seq::new(columns.len(), |i: int| dialect.quoted_text(columns[i]))
}

/// What [`rewrite_by`] gives: the predicate's text and its bind values.
///
/// There is neither for an empty cursor. Otherwise the cursor needs one value
/// for each field, every field needs a column, and every value a bind value; of
/// several errors the first in this order is reported.
pub open spec fn outcome<D: Dialect>(
    backend: Backend,
    fields: Seq<FieldView>,
    cursor: Seq<CursorValueView>,
    entries: Seq<(Seq<char>, Seq<char>)>,
    dialect: D,
    offset: int,
) -> Result<(Option<Seq<char>>, Seq<ValueView>), ErrorView> {
    if cursor.len() == 0 {
        Ok((None, Seq::empty()))
    } else if fields.len() != cursor.len() {
        Err(ErrorView::CursorArity { fields: fields.len(), values: cursor.len() })
    } else {
        match crate::columns::mapped_fields(entries, fields, Dimension::Cursor) {
            Err(error) => Err(error),
            Ok(columns) => match bound_fields(backend, fields, cursor) {
                Err(error) => Err(error),
                Ok(keys) => Ok(
                    (
                        Some(
                            crate::keyset::predicate_text(
                                crate::keyset::predicate(
                                    directions(fields),
                                    crate::dialect::positional(dialect),
                                    offset,
                                ),
                                quoted_columns(columns, dialect),
                                dialect,
                            ),
                        ),
                        crate::keyset::bind_values(keys, crate::dialect::positional(dialect)),
                    ),
                ),
            },
        }
    }
}

/// Whether the ordinals of the predicate's bind values fit in a `usize`, where
/// the first of them is `offset`.
pub open spec fn slots_fit(fields: nat, values: nat, positional: bool, offset: int) -> bool {
    0 < values && values == fields ==> offset + crate::keyset::bind_count(fields, positional) - 1
        <= usize::MAX
}

/// What a result of [`rewrite_by`] holds, as a mathematical value.
pub open spec fn outcome_view(rewritten: Result<(Option<String>, Vec<Value>), Error>) -> Result<
    (Option<Seq<char>>, Seq<ValueView>),
    ErrorView,
> {
    match rewritten {
        Ok((sql, values)) => Ok(
            (crate::text::text_view(sql), crate::value::value_views(values@)),
        ),
        Err(error) => Err(error@),
    }
}

/// An error over a prefix of the cursor is the error over all of it.
pub proof fn lemma_bound_prefix_error(
    backend: Backend,
    fields: Seq<FieldView>,
    cursor: Seq<CursorValueView>,
    count: int,
)
    requires
        0 <= count <= cursor.len(),
        bound_fields(backend, fields, cursor.take(count)) is Err,
    ensures
        bound_fields(backend, fields, cursor) == bound_fields(backend, fields, cursor.take(count)),
    decreases cursor.len(),
{
    if count == cursor.len() {
        assert(cursor.take(count) =~= cursor);
    } else {
        assert(cursor.drop_last().take(count) =~= cursor.take(count));
        lemma_bound_prefix_error(backend, fields, cursor.drop_last(), count);
    }
}

/// Resolves and quotes the column of every ordering field.
fn quote_fields<D: Dialect>(order_by: &OrderBy, columns: Columns<'_>, dialect: &D) -> (quoted:
    Result<Vec<String>, Error>)
    ensures
        match (
            quoted,
            crate::columns::mapped_fields(columns@, order_by@, Dimension::Cursor),
        ) {
            (Ok(quoted), Ok(columns)) => crate::text::string_views(quoted@) == quoted_columns(
                columns,
                *dialect,
            ) && quoted@.len() == order_by@.len(),
            (Err(error), Err(expected)) => error@ == expected,
            _ => false,
        },
{
    let ghost fields = order_by@;
    let mut quoted: Vec<String> = Vec::new();
    let ghost mut resolved: Seq<Seq<char>> = Seq::empty();
    let mut index: usize = 0;
    assert(fields.take(0) =~= Seq::<FieldView>::empty());
    while index < order_by.fields.len()
        invariant
            index <= order_by.fields@.len(),
            fields == order_by@,
            quoted@.len() == index,
            resolved.len() == index,
            crate::columns::mapped_fields(columns@, fields.take(index as int), Dimension::Cursor)
                == Ok::<Seq<Seq<char>>, ErrorView>(resolved),
            forall|i: int|
                0 <= i < index ==> (#[trigger] quoted@[i])@ == dialect.quoted_text(resolved[i]),
        decreases order_by.fields@.len() - index,
    {
        proof {
            assert(fields.take(index + 1).drop_last() =~= fields.take(index as int));
            assert(fields.take(index + 1).last() == fields[index as int]);
        }
        match column(columns, order_by.fields[index].path.as_str(), Dimension::Cursor) {
            Ok(column) => {
                quoted.push(dialect.quote_ident(column));
                proof {
                    resolved = resolved.push(column@);
                }
            },
            Err(error) => {
                proof {
                    crate::columns::lemma_mapped_prefix_error(
                        columns@,
                        fields,
                        Dimension::Cursor,
                        index + 1,
                    );
                }
                return Err(error);
            },
        }
        index += 1;
    }
    proof {
        assert(fields.take(index as int) =~= fields);
        assert(crate::text::string_views(quoted@) =~= quoted_columns(resolved, *dialect));
    }
    Ok(quoted)
}

/// Converts every cursor value into the bind value it compares as.
fn bind_fields(backend: Backend, order_by: &OrderBy, cursor: &[CursorValue]) -> (keys: Result<
    Vec<Value>,
    Error,
>)
    requires
        order_by@.len() == cursor@.len(),
    ensures
        bound_fields(backend, order_by@, crate::request::cursor_views(cursor@)) == (match keys {
            Ok(keys) => Ok(crate::value::value_views(keys@)),
            Err(error) => Err(error@),
        }),
        keys matches Ok(keys) ==> keys@.len() == cursor@.len(),
{
    let ghost fields = order_by@;
    let ghost views = crate::request::cursor_views(cursor@);
    let mut keys: Vec<Value> = Vec::new();
    let ghost mut bindings: Seq<ValueView> = Seq::empty();
    let mut index: usize = 0;
    assert(views.take(0) =~= Seq::<CursorValueView>::empty());
    while index < cursor.len()
        invariant
            index <= cursor@.len(),
            order_by@.len() == cursor@.len(),
            fields == order_by@,
            views == crate::request::cursor_views(cursor@),
            keys@.len() == index,
            bindings.len() == index,
            bound_fields(backend, fields, views.take(index as int)) == Ok::<
                Seq<ValueView>,
                ErrorView,
            >(bindings),
            forall|i: int| 0 <= i < index ==> (#[trigger] keys@[i])@ == bindings[i],
        decreases cursor@.len() - index,
    {
        proof {
            assert(views.take(index + 1).drop_last() =~= views.take(index as int));
            assert(views.take(index + 1)[index as int] == views[index as int]);
        }
        match bind_by(backend, &order_by.fields[index], &cursor[index]) {
            Ok(key) => {
                proof {
                    bindings = bindings.push(key@);
                }
                keys.push(key);
            },
            Err(error) => {
                proof {
                    lemma_bound_prefix_error(backend, fields, views, index + 1);
                }
                return Err(error);
            },
        }
        index += 1;
    }
    proof {
        assert(views.take(index as int) =~= views);
        assert(crate::value::value_views(keys@) =~= bindings);
    }
    Ok(keys)
}

/// Appends one comparison to `sql`.
fn append_comparison(sql: &mut String, column: &str, operator: &str, placeholder: &str)
    ensures
        final(sql)@ == old(sql)@ + (column@ + " "@ + operator@ + " "@ + placeholder@),
{
    sql.append(column);
    sql.append(" ");
    sql.append(operator);
    sql.append(" ");
    sql.append(placeholder);
    assert(sql@ =~= old(sql)@ + (column@ + " "@ + operator@ + " "@ + placeholder@));
}

/// Appends the `index`'th clause to `sql`, and, for a positional dialect, the
/// values that its placeholders take to `repeated`.
fn append_clause<D: Dialect>(
    sql: &mut String,
    repeated: &mut Vec<Value>,
    order_by: &OrderBy,
    quoted: &Vec<String>,
    keys: &Vec<Value>,
    dialect: &D,
    positional: bool,
    param_offset: usize,
    index: usize,
)
    requires
        index < order_by@.len(),
        quoted@.len() == order_by@.len(),
        keys@.len() == order_by@.len(),
        positional ==> crate::value::value_views(old(repeated)@) == crate::keyset::repeated(
            crate::value::value_views(keys@),
            index as nat,
        ),
        param_offset + crate::keyset::bind_count(order_by@.len(), positional) - 1 <= usize::MAX,
    ensures
        final(sql)@ == old(sql)@ + crate::keyset::clause_text(
            crate::keyset::clause(
                directions(order_by@),
                positional,
                param_offset as int,
                index as int,
            ),
            crate::text::string_views(quoted@),
            *dialect,
        ),
        positional ==> crate::value::value_views(final(repeated)@) == crate::keyset::repeated(
            crate::value::value_views(keys@),
            (index + 1) as nat,
        ),
{
    let ghost views = crate::value::value_views(keys@);
    let ghost comparisons = crate::keyset::clause(
        directions(order_by@),
        positional,
        param_offset as int,
        index as int,
    );
    let ghost texts = crate::keyset::comparison_texts(
        comparisons,
        crate::text::string_views(quoted@),
        *dialect,
    );
    let ghost before = crate::keyset::repeated(views, index as nat);
    proof {
        crate::keyset::lemma_repeated_count(views, index as nat);
        assert(texts.take(0) =~= Seq::<Seq<char>>::empty());
        assert(before + views.take(0) =~= before);
    }
    sql.append("(");
    let ghost start = sql@;
    let count: usize = order_by.fields.len();
    let mut term: usize = 0;
    while term <= index
        invariant
            term <= index + 1 <= count,
            index < order_by@.len(),
            quoted@.len() == order_by@.len(),
            keys@.len() == order_by@.len(),
            views == crate::value::value_views(keys@),
            comparisons == crate::keyset::clause(
                directions(order_by@),
                positional,
                param_offset as int,
                index as int,
            ),
            texts == crate::keyset::comparison_texts(
                comparisons,
                crate::text::string_views(quoted@),
                *dialect,
            ),
            before.len() == crate::keyset::comparisons(index as nat),
            param_offset + crate::keyset::bind_count(order_by@.len(), positional) - 1
                <= usize::MAX,
            positional ==> crate::value::value_views(repeated@) == before + views.take(
                term as int,
            ),
            sql@ == start + crate::text::joined(texts.take(term as int), " AND "@),
        decreases index + 1 - term,
    {
        proof {
            lemma_slot_fits(order_by@.len(), index as nat);
            crate::text::lemma_joined_step(texts, " AND "@, term as int);
        }
        if term > 0 {
            sql.append(" AND ");
        }
        let ghost prior = repeated@;
        let slot: usize = if positional {
            assert(repeated@.len() == crate::value::value_views(repeated@).len());
            repeated.push(keys[term].clone());
            proof {
                assert(crate::value::value_views(repeated@) =~= crate::value::value_views(
                    prior,
                ).push(views[term as int]));
                assert(views.take(term + 1) =~= views.take(term as int).push(views[term as int]));
                assert(before + views.take(term + 1) =~= (before + views.take(term as int)).push(
                    views[term as int],
                ));
            }
            param_offset + (repeated.len() - 1)
        } else {
            param_offset + term
        };
        let operator = if term < index {
            "="
        } else if order_by.fields[index].desc {
            "<"
        } else {
            ">"
        };
        let placeholder = dialect.placeholder(slot);
        append_comparison(sql, quoted[term].as_str(), operator, placeholder.as_str());
        assert(texts[term as int] == quoted@[term as int]@ + " "@ + operator@ + " "@
            + placeholder@);
        assert(sql@ =~= start + crate::text::joined(texts.take(term + 1), " AND "@));
        term += 1;
    }
    sql.append(")");
    proof {
        assert(texts.take(term as int) =~= texts);
        assert(views.take(term as int) =~= views.take(index + 1));
    }
}

/// The ordinals of a clause's comparisons are among those of the predicate's.
proof fn lemma_slot_fits(fields: nat, index: nat)
    requires
        index < fields,
    ensures
        crate::keyset::comparisons(index) + index + 1 <= crate::keyset::comparisons(fields),
    decreases fields,
{
    if index + 1 < fields {
        lemma_slot_fits((fields - 1) as nat, index);
    }
}

/// Says whether the ordinals of the predicate's bind values fit in a `usize`,
/// for an ordering of `fields` fields and a cursor of `values` values.
pub fn countable(fields: usize, values: usize, positional: bool, param_offset: usize) -> (countable:
    bool)
    ensures
        countable == slots_fit(fields as nat, values as nat, positional, param_offset as int),
{
    if values == 0 || values != fields {
        return true;
    }
    let count: u128 = fields as u128;
    proof {
        crate::keyset::lemma_comparisons(fields as nat);
        assert(0 <= count * (count + 1) <= u128::MAX) by (nonlinear_arith)
            requires
                0 <= count <= 0xffff_ffff_ffff_ffff,
        ;
    }
    let binds: u128 = if positional {
        count * (count + 1) / 2
    } else {
        count
    };
    param_offset as u128 + (binds - 1) <= usize::MAX as u128
}

/// Builds the compound key-set predicate that resumes a page, from an effective
/// ordering and the sort-key tuple of the previous page's last row.
///
/// The emitted predicate is the tuple comparison, expanded so that each column
/// can carry its own direction:
///
/// ```sql
/// (("title" > $1)
///   OR ("title" = $1 AND "id" > $2)
///   OR ("title" = $1 AND "id" = $2 AND "rank" < $3))
/// ```
///
/// `>` for an ascending field, `<` for a descending one. Placeholders start at
/// `param_offset` and run in ordering order. An empty cursor is the first page:
/// it emits nothing, binds nothing, and is not an error.
///
/// Every clause but the first pins the more significant columns to values that
/// an earlier clause already referenced. A numbered dialect says so, and each
/// value is bound once. A positional placeholder has no way to point backwards,
/// so each one consumes its own bind and the value list repeats.
pub fn rewrite_by<D: Dialect>(
    backend: Backend,
    order_by: &OrderBy,
    cursor: &[CursorValue],
    columns: Columns<'_>,
    dialect: &D,
    param_offset: usize,
) -> (rewritten: Result<(Option<String>, Vec<Value>), Error>)
    requires
        outcome(
            backend,
            order_by@,
            crate::request::cursor_views(cursor@),
            columns@,
            *dialect,
            param_offset as int,
        ) is Ok ==> slots_fit(
            order_by@.len(),
            cursor@.len(),
            crate::dialect::positional(*dialect),
            param_offset as int,
        ),
    ensures
        outcome_view(rewritten) == outcome(
            backend,
            order_by@,
            crate::request::cursor_views(cursor@),
            columns@,
            *dialect,
            param_offset as int,
        ),
{
    if cursor.len() == 0 {
        let none: Vec<Value> = Vec::new();
        assert(crate::value::value_views(none@) =~= Seq::<ValueView>::empty());
        return Ok((None, none));
    }
    if order_by.fields.len() != cursor.len() {
        return Err(
            Error::CursorArity { fields: order_by.fields.len(), values: cursor.len() },
        );
    }
    let quoted = match quote_fields(order_by, columns, dialect) {
        Ok(quoted) => quoted,
        Err(error) => return Err(error),
    };
    let keys = match bind_fields(backend, order_by, cursor) {
        Ok(keys) => keys,
        Err(error) => return Err(error),
    };
    let positional = is_positional(dialect);
    let mut repeated: Vec<Value> = Vec::new();
    let ghost views = crate::value::value_views(keys@);
    let ghost clauses = crate::keyset::predicate(
        directions(order_by@),
        positional,
        param_offset as int,
    );
    let ghost texts = crate::keyset::clause_texts(
        clauses,
        crate::text::string_views(quoted@),
        *dialect,
    );
    let mut sql = "(".to_owned();
    let mut index: usize = 0;
    proof {
        assert(texts.take(0) =~= Seq::<Seq<char>>::empty());
        assert(crate::value::value_views(repeated@) =~= Seq::<ValueView>::empty());
    }
    while index < order_by.fields.len()
        invariant
            index <= order_by.fields@.len(),
            quoted@.len() == order_by@.len(),
            keys@.len() == order_by@.len(),
            views == crate::value::value_views(keys@),
            param_offset + crate::keyset::bind_count(order_by@.len(), positional) - 1
                <= usize::MAX,
            clauses == crate::keyset::predicate(
                directions(order_by@),
                positional,
                param_offset as int,
            ),
            texts == crate::keyset::clause_texts(
                clauses,
                crate::text::string_views(quoted@),
                *dialect,
            ),
            positional ==> crate::value::value_views(repeated@) == crate::keyset::repeated(
                views,
                index as nat,
            ),
            sql@ == "("@ + crate::text::joined(texts.take(index as int), " OR "@),
        decreases order_by.fields@.len() - index,
    {
        proof {
            crate::text::lemma_joined_step(texts, " OR "@, index as int);
        }
        if index > 0 {
            sql.append(" OR ");
        }
        append_clause(
            &mut sql,
            &mut repeated,
            order_by,
            &quoted,
            &keys,
            dialect,
            positional,
            param_offset,
            index,
        );
        assert(sql@ =~= "("@ + crate::text::joined(texts.take(index + 1), " OR "@));
        index += 1;
    }
    sql.append(")");
    proof {
        assert(texts.take(index as int) =~= texts);
    }
    Ok((Some(sql), if positional {
        repeated
    } else {
        keys
    }))
}

/// Builds the key-set predicate as [`rewrite_by`] does, with `chrono` as the
/// date-time backend.
pub fn rewrite<D: Dialect>(
    order_by: &OrderBy,
    cursor: &[CursorValue],
    columns: Columns<'_>,
    dialect: &D,
    param_offset: usize,
) -> (rewritten: Result<(Option<String>, Vec<Value>), Error>)
    requires
        outcome(
            Backend::Chrono,
            order_by@,
            crate::request::cursor_views(cursor@),
            columns@,
            *dialect,
            param_offset as int,
        ) is Ok ==> slots_fit(
            order_by@.len(),
            cursor@.len(),
            crate::dialect::positional(*dialect),
            param_offset as int,
        ),
    ensures
        outcome_view(rewritten) == outcome(
            Backend::Chrono,
            order_by@,
            crate::request::cursor_views(cursor@),
            columns@,
            *dialect,
            param_offset as int,
        ),
{
    rewrite_by(Backend::Chrono, order_by, cursor, columns, dialect, param_offset)
}

/// Whether `dialect` renders every placeholder alike, so that a bind cannot be
/// referenced twice.
///
/// Decided by asking the dialect for two adjacent placeholders. One that writes
/// SQLite's numbered `?1` and `?2` renders the two differently, and is rightly
/// treated as numbered.
pub fn is_positional<D: Dialect>(dialect: &D) -> (positional: bool)
    ensures
        positional == crate::dialect::positional(*dialect),
{
    dialect.placeholder(1) == dialect.placeholder(2)
}

/// Converts one cursor value into the bind value it compares as.
///
/// Mechanical apart from the null, which is not bound: a comparison with a null
/// is never true, so the page would silently end early.
pub fn bind_by(backend: Backend, field: &OrderByField, value: &CursorValue) -> (key: Result<
    Value,
    Error,
>)
    ensures
        bound(backend, field@.path, value@) == (match key {
            Ok(key) => Ok(key@),
            Err(error) => Err(error@),
        }),
{
    match value {
        CursorValue::Null => Err(Error::NullCursorValue { path: field.path.clone() }),
        CursorValue::Bool(value) => Ok(Value::Bool(*value)),
        CursorValue::String(value) => Ok(Value::Text(value.clone())),
        CursorValue::Bytes(value) => Ok(Value::Bytes(copy_bytes(value))),
        CursorValue::Int(value) => Ok(Value::Int(*value)),
        CursorValue::Uint(value) => Ok(Value::Uint(*value)),
        CursorValue::Float { bits } => Ok(Value::Float { bits: *bits }),
        CursorValue::Timestamp { seconds, nanos } => match backend {
            Backend::Chrono => timestamp(field, *seconds, *nanos),
            Backend::Time => timestamp_by_time(field, *seconds, *nanos),
        },
        CursorValue::Duration { nanos } => Ok(Value::Duration(microseconds(*nanos))),
    }
}

/// Converts one cursor value as [`bind_by`] does, with `chrono` as the date-time
/// backend.
pub fn bind(field: &OrderByField, value: &CursorValue) -> (key: Result<Value, Error>)
    ensures
        bound(Backend::Chrono, field@.path, value@) == (match key {
            Ok(key) => Ok(key@),
            Err(error) => Err(error@),
        }),
{
    bind_by(Backend::Chrono, field, value)
}

/// Rounds a signed nanosecond count to microseconds, half away from zero.
pub fn microseconds(nanos: i64) -> (micros: i64)
    ensures
        micros == rounded_microseconds(nanos as int),
{
    let nanos: i128 = nanos as i128;
    let micros: i128 = if nanos >= 0 {
        (nanos + 500) / 1_000
    } else {
        -((500 - nanos) / 1_000)
    };
    micros as i64
}

/// Builds the instant a cursor timestamp compares as, with `chrono` as the
/// date-time backend.
///
/// A page token is client-supplied, so its nanoseconds can be negative.
pub fn timestamp(field: &OrderByField, seconds: i64, nanos: i32) -> (instant: Result<Value, Error>)
    ensures
        bound_timestamp(field@.path, seconds, nanos) == (match instant {
            Ok(instant) => Ok(instant@),
            Err(error) => Err(error@),
        }),
{
    if nanos >= 0 {
        if let Some((seconds, nanos)) = chrono_instant(seconds, nanos as u32) {
            return Ok(Value::Timestamp { seconds, nanos });
        }
    }
    Err(Error::CursorTimestamp { path: field.path.clone(), seconds })
}

/// Builds the instant a cursor timestamp compares as, with `time` as the
/// date-time backend.
pub fn timestamp_by_time(field: &OrderByField, seconds: i64, nanos: i32) -> (instant: Result<
    Value,
    Error,
>)
    ensures
        bound_timestamp_by_time(field@.path, seconds, nanos) == (match instant {
            Ok(instant) => Ok(instant@),
            Err(error) => Err(error@),
        }),
{
    if nanos >= 0 {
        let since_epoch: i128 = seconds as i128 * 1_000_000_000 + nanos as i128;
        if let Some((seconds, nanos)) = time_instant(since_epoch) {
            return Ok(Value::Timestamp { seconds, nanos });
        }
    }
    Err(Error::CursorTimestamp { path: field.path.clone(), seconds })
}

} // verus!
