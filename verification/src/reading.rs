//! What the calls of the library give, said from what they are given.

use vstd::prelude::*;

use crate::columns::{column, Columns};
use crate::cursor;
use crate::dialect::Dialect;
use crate::error::{Dimension, Error, ErrorView, FilterError};
use crate::instant::Backend;
use crate::order;
use crate::query::{FilterFragment, Query, QueryFragment};
use crate::request::{CursorValue, CursorValueView, FieldView, OrderBy};
use crate::sql::{Term, Test};
use crate::value::{Value, ValueView};

verus! {

/// Whether the `index`'th entry is the first for `path`, and gives `column`.
pub open spec fn first_entry(
    entries: Seq<(Seq<char>, Seq<char>)>,
    path: Seq<char>,
    column: Seq<char>,
    index: int,
) -> bool {
    &&& 0 <= index < entries.len()
    &&& entries[index] == (path, column)
    &&& forall|i: int| 0 <= i < index ==> (#[trigger] entries[i]).0 != path
}

/// A path has the column of the first entry for it, the whole path and nothing
/// less, and it has none exactly where there is no such entry.
pub proof fn law_a_path_has_the_column_of_its_first_entry(
    entries: Seq<(Seq<char>, Seq<char>)>,
    path: Seq<char>,
    column: Seq<char>,
)
    ensures
        crate::columns::lookup(entries, path) == Some(column) <==> exists|i: int|
            first_entry(entries, path, column, i),
        crate::columns::lookup(entries, path) is None <==> forall|i: int|
            0 <= i < entries.len() ==> (#[trigger] entries[i]).0 != path,
    decreases entries.len(),
{
    if entries.len() > 0 {
        let rest = entries.drop_first();
        law_a_path_has_the_column_of_its_first_entry(rest, path, column);
        assert forall|i: int| 0 <= i < rest.len() implies #[trigger] rest[i] == entries[i + 1] by {}
        if entries[0].0 == path {
            assert(entries[0] == (path, entries[0].1));
            if entries[0].1 == column {
                assert(first_entry(entries, path, column, 0));
            }
            assert forall|i: int| first_entry(entries, path, column, i) implies entries[0].1
                == column by {
                if i > 0 {
                    assert(entries[0].0 != path);
                }
            }
        } else {
            assert forall|i: int| first_entry(rest, path, column, i) implies first_entry(
                entries,
                path,
                column,
                i + 1,
            ) by {
                assert(rest[i] == entries[i + 1]);
                assert forall|j: int| 0 <= j < i + 1 implies (#[trigger] entries[j]).0 != path by {
                    if j > 0 {
                        assert(rest[j - 1] == entries[j]);
                    }
                }
            }
            assert forall|i: int| first_entry(entries, path, column, i) implies first_entry(
                rest,
                path,
                column,
                i - 1,
            ) by {
                assert(rest[i - 1] == entries[i]);
                assert forall|j: int| 0 <= j < i - 1 implies (#[trigger] rest[j]).0 != path by {
                    assert(rest[j] == entries[j + 1]);
                }
            }
            if exists|i: int| first_entry(rest, path, column, i) {
                let i = choose|i: int| first_entry(rest, path, column, i);
                assert(first_entry(entries, path, column, i + 1));
            }
            if exists|i: int| first_entry(entries, path, column, i) {
                let i = choose|i: int| first_entry(entries, path, column, i);
                assert(first_entry(rest, path, column, i - 1));
            }
            if crate::columns::lookup(entries, path) is None {
                assert forall|i: int| 0 <= i < entries.len() implies (#[trigger] entries[i]).0
                    != path by {
                    if i > 0 {
                        assert(rest[i - 1] == entries[i]);
                    }
                }
            }
        }
    } else {
        assert(crate::columns::lookup(entries, path) is None);
    }
}

/// A map made from entries gives a path the column of the first entry for it,
/// and nothing where there is none.
pub proof fn law_a_map_gives_what_it_was_made_from<'a>(
    entries: &'a [(&'a str, &'a str)],
    columns: Columns<'a>,
    path: &str,
    column: Option<&'a str>,
)
    requires
        call_ensures(Columns::new, (entries,), columns),
        call_ensures(Columns::get, (&columns, path), column),
    ensures
        column matches Some(column) ==> exists|i: int|
            {
                &&& 0 <= i < entries@.len()
                &&& (#[trigger] entries@[i]).0@ == path@
                &&& entries@[i].1@ == column@
                &&& forall|j: int| 0 <= j < i ==> (#[trigger] entries@[j]).0@ != path@
            },
        column is None ==> forall|i: int|
            0 <= i < entries@.len() ==> (#[trigger] entries@[i]).0@ != path@,
{
    let views = columns@;
    assert(views.len() == entries@.len());
    assert forall|i: int| 0 <= i < views.len() implies #[trigger] views[i] == (
        entries@[i].0@,
        entries@[i].1@,
    ) by {}
    let found = match column {
        Some(column) => column@,
        None => Seq::empty(),
    };
    law_a_path_has_the_column_of_its_first_entry(views, path@, found);
    if column is Some {
        let i = choose|i: int| first_entry(views, path@, found, i);
        assert(views[i] == (entries@[i].0@, entries@[i].1@));
        assert forall|j: int| 0 <= j < i implies (#[trigger] entries@[j]).0@ != path@ by {
            assert(views[j].0 != path@);
        }
    } else {
        assert forall|i: int| 0 <= i < entries@.len() implies (#[trigger] entries@[i]).0@
            != path@ by {
            assert(views[i].0 != path@);
        }
    }
}

/// Resolving a path gives its column, or an error that names the path and the
/// dimension it came from.
pub proof fn law_a_path_is_resolved_or_named<'a>(
    columns: Columns<'a>,
    path: &str,
    dimension: Dimension,
    found: Option<&'a str>,
    resolved: Result<&'a str, Error>,
)
    requires
        call_ensures(Columns::get, (&columns, path), found),
        call_ensures(column, (columns, path, dimension), resolved),
    ensures
        match (found, resolved) {
            (Some(found), Ok(column)) => found@ == column@,
            (None, Err(Error::UnknownField { dimension: from, path: named })) => from == dimension
                && named@ == path@,
            _ => false,
        },
{
}

/// Whether the `index`'th of `fields` is the first that `entries` have no column
/// for.
pub open spec fn first_unmapped(
    entries: Seq<(Seq<char>, Seq<char>)>,
    fields: Seq<FieldView>,
    index: int,
) -> bool {
    &&& 0 <= index < fields.len()
    &&& crate::columns::lookup(entries, fields[index].path) is None
    &&& forall|i: int|
        0 <= i < index ==> crate::columns::lookup(entries, (#[trigger] fields[i]).path) is Some
}

/// An ordering's columns are those of its paths, one for one and in its order, and
/// there are none exactly where a path has no column: the error is then that of
/// the first such path.
pub proof fn law_an_ordering_has_the_columns_of_its_paths(
    entries: Seq<(Seq<char>, Seq<char>)>,
    fields: Seq<FieldView>,
    dimension: Dimension,
)
    ensures
        match crate::columns::mapped_fields(entries, fields, dimension) {
            Ok(columns) => {
                &&& columns.len() == fields.len()
                &&& forall|i: int|
                    0 <= i < fields.len() ==> crate::columns::lookup(
                        entries,
                        (#[trigger] fields[i]).path,
                    ) == Some(columns[i])
            },
            Err(error) => exists|i: int|
                #[trigger] first_unmapped(entries, fields, i) && error == (
                ErrorView::UnknownField { dimension, path: fields[i].path }),
        },
    decreases fields.len(),
{
    if fields.len() > 0 {
        let shorter = fields.drop_last();
        let last = fields.len() - 1;
        law_an_ordering_has_the_columns_of_its_paths(entries, shorter, dimension);
        match crate::columns::mapped_fields(entries, shorter, dimension) {
            Ok(columns) => {
                assert forall|i: int| 0 <= i < last implies crate::columns::lookup(
                    entries,
                    (#[trigger] fields[i]).path,
                ) == Some(columns[i]) by {
                    assert(shorter[i] == fields[i]);
                }
                if crate::columns::lookup(entries, fields[last].path) is None {
                    assert(first_unmapped(entries, fields, last));
                }
            },
            Err(error) => {
                let i = choose|i: int|
                    #[trigger] first_unmapped(entries, shorter, i) && error == (
                    ErrorView::UnknownField { dimension, path: shorter[i].path });
                assert forall|j: int| 0 <= j < i implies crate::columns::lookup(
                    entries,
                    (#[trigger] fields[j]).path,
                ) is Some by {
                    assert(shorter[j] == fields[j]);
                }
                assert(first_unmapped(entries, fields, i));
            },
        }
    }
}

/// Whether `longer` is `shorter` with one more field behind its own.
pub open spec fn one_field_more(shorter: OrderBy, longer: OrderBy) -> bool {
    &&& longer.fields@.len() == shorter.fields@.len() + 1
    &&& forall|i: int|
        0 <= i < shorter.fields@.len() ==> {
            &&& (#[trigger] longer.fields@[i]).path@ == shorter.fields@[i].path@
            &&& longer.fields@[i].desc == shorter.fields@[i].desc
        }
}

/// An `ORDER BY` list reads term by term. One more field adds a comma, where terms
/// stand before, and then its own term: its column, quoted, with `DESC` behind it
/// where the field is descending, and `ASC` where it is not. A field without a
/// column is an error, unless one before it was.
pub proof fn law_an_ordering_reads_term_by_term<D: Dialect>(
    shorter: OrderBy,
    longer: OrderBy,
    columns: Columns<'_>,
    dialect: D,
    before: Result<Option<String>, Error>,
    after: Result<Option<String>, Error>,
)
    requires
        one_field_more(shorter, longer),
        call_ensures(order::rewrite::<D>, (&shorter, columns, &dialect), before),
        call_ensures(order::rewrite::<D>, (&longer, columns, &dialect), after),
    ensures
        ({
            let field = longer.fields@.last();
            match (before, crate::columns::lookup(columns@, field.path@)) {
                (Err(Error::UnknownField { dimension, path }), _) => {
                    after matches Err(Error::UnknownField { dimension: from, path: named }) && from
                        == dimension && named@ == path@
                },
                (Err(_), _) => false,
                (Ok(_), None) => {
                    after matches Err(Error::UnknownField { dimension: from, path: named }) && from
                        == Dimension::OrderBy && named@ == field.path@
                },
                (Ok(before), Some(column)) => {
                    &&& before is None <==> shorter.fields@.len() == 0
                    &&& after matches Ok(Some(after)) && after@ == (match before {
                        None => Seq::empty(),
                        Some(before) => before@ + ", "@,
                    }) + dialect.quoted_text(column) + (if field.desc {
                        " DESC"@
                    } else {
                        " ASC"@
                    })
                },
            }
        }),
{
    let fields = longer@;
    let last = fields.len() - 1;
    assert(fields.drop_last() =~= shorter@) by {
        assert forall|i: int| 0 <= i < last implies #[trigger] fields[i] == shorter@[i] by {
            assert(longer.fields@[i].path@ == shorter.fields@[i].path@);
        }
    }
    assert(fields.last().path == longer.fields@.last().path@);
    law_an_ordering_has_the_columns_of_its_paths(columns@, shorter@, Dimension::OrderBy);
    law_an_ordering_has_the_columns_of_its_paths(columns@, fields, Dimension::OrderBy);
    if crate::columns::mapped_fields(columns@, fields, Dimension::OrderBy) is Ok {
        let short = crate::columns::mapped_fields(columns@, shorter@, Dimension::OrderBy)->Ok_0;
        let long = crate::columns::mapped_fields(columns@, fields, Dimension::OrderBy)->Ok_0;
        let terms = crate::order::term_texts(fields, long, dialect);
        assert(terms.drop_last() =~= crate::order::term_texts(shorter@, short, dialect));
        assert(after->Ok_0->Some_0@ == crate::text::joined(terms, ", "@));
        if last == 0 {
            assert(crate::text::joined(terms.drop_last(), ", "@) =~= Seq::<char>::empty());
        }
        assert(after->Ok_0->Some_0@ =~= (match before->Ok_0 {
            None => Seq::empty(),
            Some(before) => before@ + ", "@,
        }) + dialect.quoted_text(long[last]) + (if longer.fields@.last().desc {
            " DESC"@
        } else {
            " ASC"@
        }));
    }
}

/// An ordering without fields has no `ORDER BY` list, and is no error.
pub proof fn law_no_fields_read_as_nothing<D: Dialect>(
    order_by: OrderBy,
    columns: Columns<'_>,
    dialect: D,
    rewritten: Result<Option<String>, Error>,
)
    requires
        order_by.fields@.len() == 0,
        call_ensures(order::rewrite::<D>, (&order_by, columns, &dialect), rewritten),
    ensures
        rewritten == Ok::<Option<String>, Error>(None),
{
}

/// Whether the `index`'th of a cursor's values is the first that cannot be bound.
pub open spec fn first_unbound(
    backend: Backend,
    fields: Seq<FieldView>,
    cursor: Seq<CursorValueView>,
    index: int,
) -> bool {
    &&& 0 <= index < cursor.len()
    &&& crate::cursor::bound(backend, fields[index].path, cursor[index]) is Err
    &&& forall|i: int|
        0 <= i < index ==> crate::cursor::bound(
            backend,
            fields[i].path,
            #[trigger] cursor[i],
        ) is Ok
}

/// A cursor's bind values are those of its values, one for one and in its order,
/// each under the path of its own field. There are none exactly where a value
/// cannot be bound: the error is then that of the first such value.
pub proof fn law_a_cursor_binds_value_by_value(
    backend: Backend,
    fields: Seq<FieldView>,
    cursor: Seq<CursorValueView>,
)
    ensures
        match crate::cursor::bound_fields(backend, fields, cursor) {
            Ok(keys) => {
                &&& keys.len() == cursor.len()
                &&& forall|i: int|
                    0 <= i < cursor.len() ==> crate::cursor::bound(
                        backend,
                        fields[i].path,
                        #[trigger] cursor[i],
                    ) == Ok::<ValueView, ErrorView>(keys[i])
            },
            Err(error) => exists|i: int|
                #[trigger] first_unbound(backend, fields, cursor, i) && crate::cursor::bound(
                    backend,
                    fields[i].path,
                    cursor[i],
                ) == Err::<ValueView, ErrorView>(error),
        },
    decreases cursor.len(),
{
    if cursor.len() > 0 {
        let shorter = cursor.drop_last();
        let last = cursor.len() - 1;
        law_a_cursor_binds_value_by_value(backend, fields, shorter);
        match crate::cursor::bound_fields(backend, fields, shorter) {
            Ok(keys) => {
                assert forall|i: int| 0 <= i < last implies crate::cursor::bound(
                    backend,
                    fields[i].path,
                    #[trigger] cursor[i],
                ) == Ok::<ValueView, ErrorView>(keys[i]) by {
                    assert(shorter[i] == cursor[i]);
                }
                if crate::cursor::bound(backend, fields[last].path, cursor[last]) is Err {
                    assert(first_unbound(backend, fields, cursor, last));
                }
            },
            Err(error) => {
                let i = choose|i: int|
                    #[trigger] first_unbound(backend, fields, shorter, i) && crate::cursor::bound(
                        backend,
                        fields[i].path,
                        shorter[i],
                    ) == Err::<ValueView, ErrorView>(error);
                assert(shorter[i] == cursor[i]);
                assert forall|j: int| 0 <= j < i implies crate::cursor::bound(
                    backend,
                    fields[j].path,
                    #[trigger] cursor[j],
                ) is Ok by {
                    assert(shorter[j] == cursor[j]);
                }
                assert(first_unbound(backend, fields, cursor, i));
            },
        }
    }
}

/// The first `count` fields of an ordering, each pinned to the bind value of its
/// cursor value, where the first of them is `first`: `"a" = $1 AND "b" = $2 AND `.
pub open spec fn pinned_text<D: Dialect>(
    order_by: OrderBy,
    entries: Seq<(Seq<char>, Seq<char>)>,
    dialect: D,
    first: int,
    count: nat,
) -> Seq<char>
    decreases count,
{
    if count == 0 {
        Seq::empty()
    } else {
        let field = count - 1;
        pinned_text(order_by, entries, dialect, first, field as nat) + dialect.quoted_text(
            crate::columns::lookup(entries, order_by.fields@[field].path@)->Some_0,
        ) + " = "@ + dialect.placeholder_text(first + field) + " AND "@
    }
}

/// A key-set predicate reads clause by clause. One more field adds one clause, in
/// front of the closing parenthesis: every field before it is pinned, and its own
/// column is compared with `<` where the field is descending and with `>` where it
/// is not. In a numbered dialect the clause refers to each field's one bind value,
/// and one is added; in a positional one the clause takes a bind value of its own
/// for every field it names.
pub proof fn law_a_predicate_reads_clause_by_clause<D: Dialect>(
    backend: Backend,
    shorter: OrderBy,
    longer: OrderBy,
    fewer: &[CursorValue],
    more: &[CursorValue],
    columns: Columns<'_>,
    dialect: D,
    offset: usize,
    before: Result<(Option<String>, Vec<Value>), Error>,
    after: Result<(Option<String>, Vec<Value>), Error>,
)
    requires
        one_field_more(shorter, longer),
        fewer@.len() == shorter.fields@.len(),
        more@.len() == fewer@.len() + 1,
        forall|i: int| 0 <= i < fewer@.len() ==> (#[trigger] more@[i])@ == fewer@[i]@,
        call_ensures(
            cursor::rewrite_by::<D>,
            (backend, &shorter, fewer, columns, &dialect, offset),
            before,
        ),
        call_ensures(
            cursor::rewrite_by::<D>,
            (backend, &longer, more, columns, &dialect, offset),
            after,
        ),
        after is Ok,
    ensures
        ({
            let count = fewer@.len() as int;
            let field = longer.fields@[count];
            let positional = dialect.placeholder_text(1) == dialect.placeholder_text(2);
            let first = if positional {
                offset + count * (count + 1) / 2
            } else {
                offset as int
            };
            &&& before is Ok
            &&& before->Ok_0.0 is None <==> count == 0
            &&& after->Ok_0.0 matches Some(sql) && sql@ == (match before->Ok_0.0 {
                None => "("@,
                Some(before) => before@.drop_last() + " OR "@,
            }) + "("@ + pinned_text(longer, columns@, dialect, first, count as nat)
                + dialect.quoted_text(crate::columns::lookup(columns@, field.path@)->Some_0) + (
            if field.desc {
                " < "@
            } else {
                " > "@
            }) + dialect.placeholder_text(first + count) + "))"@
            &&& adds_binds(
                backend,
                longer,
                more@,
                before->Ok_0.1@,
                after->Ok_0.1@,
                if positional {
                    0
                } else {
                    count
                },
            )
        }),
{
    let count = fewer@.len();
    let fields = longer@;
    let views = crate::request::cursor_views(more@);
    let positional = crate::dialect::positional(dialect);
    assert(fields.drop_last() =~= shorter@) by {
        assert forall|i: int| 0 <= i < count implies #[trigger] fields[i] == shorter@[i] by {
            assert(longer.fields@[i].path@ == shorter.fields@[i].path@);
        }
    }
    assert(views.drop_last() =~= crate::request::cursor_views(fewer@)) by {
        assert forall|i: int| 0 <= i < count implies views[i] == crate::request::cursor_views(
            fewer@,
        )[i] by {
            assert(more@[i]@ == fewer@[i]@);
        }
    }
    lemma_same_bounds(backend, fields, shorter@, views.drop_last());
    law_an_ordering_has_the_columns_of_its_paths(columns@, fields, Dimension::Cursor);
    law_an_ordering_has_the_columns_of_its_paths(columns@, shorter@, Dimension::Cursor);
    law_a_cursor_binds_value_by_value(backend, fields, views);
    let resolved = crate::columns::mapped_fields(columns@, fields, Dimension::Cursor)->Ok_0;
    let keys = crate::cursor::bound_fields(backend, fields, views)->Ok_0;
    assert(resolved.drop_last() == crate::columns::mapped_fields(
        columns@,
        shorter@,
        Dimension::Cursor,
    )->Ok_0);
    assert(keys.drop_last() == crate::cursor::bound_fields(
        backend,
        shorter@,
        views.drop_last(),
    )->Ok_0);
    crate::keyset::lemma_comparisons(count);
    lemma_predicate_grows(longer, columns@, resolved, dialect, positional, offset as int);
    let prior = before->Ok_0.1@;
    let values = after->Ok_0.1@;
    lemma_binds_grow(keys, positional);
    let short_views = crate::value::value_views(prior);
    let long_views = crate::value::value_views(values);
    let from = if positional {
        0
    } else {
        count as int
    };
    if count == 0 {
        assert(crate::keyset::bind_values(keys.drop_last(), positional) =~= short_views);
    }
    assert(long_views == short_views + keys.skip(from));
    assert forall|i: int| 0 <= i < prior.len() implies (#[trigger] values[i])@ == prior[i]@ by {
        assert(long_views[i] == short_views[i]);
    }
    assert forall|i: int| from <= i < more@.len() implies crate::cursor::bound(
        backend,
        longer.fields@[i].path@,
        (#[trigger] more@[i])@,
    ) == Ok::<ValueView, ErrorView>(values[prior.len() + i - from]@) by {
        assert(views[i] == more@[i]@);
        assert(long_views[prior.len() + i - from] == keys[i]);
    }
}

/// Whether `after` holds the bind values in `before` and behind them those of the
/// cursor's values from the `from`'th on.
pub open spec fn adds_binds(
    backend: Backend,
    order_by: OrderBy,
    cursor: Seq<CursorValue>,
    before: Seq<Value>,
    after: Seq<Value>,
    from: int,
) -> bool {
    &&& after.len() == before.len() + cursor.len() - from
    &&& forall|i: int| 0 <= i < before.len() ==> (#[trigger] after[i])@ == before[i]@
    &&& forall|i: int|
        from <= i < cursor.len() ==> crate::cursor::bound(
            backend,
            order_by.fields@[i].path@,
            (#[trigger] cursor[i])@,
        ) == Ok::<ValueView, ErrorView>(after[before.len() + i - from]@)
}

proof fn lemma_same_bounds(
    backend: Backend,
    left: Seq<FieldView>,
    right: Seq<FieldView>,
    cursor: Seq<CursorValueView>,
)
    requires
        cursor.len() <= left.len(),
        cursor.len() <= right.len(),
        forall|i: int| 0 <= i < cursor.len() ==> #[trigger] left[i] == right[i],
    ensures
        crate::cursor::bound_fields(backend, left, cursor) == crate::cursor::bound_fields(
            backend,
            right,
            cursor,
        ),
    decreases cursor.len(),
{
    if cursor.len() > 0 {
        lemma_same_bounds(backend, left, right, cursor.drop_last());
        assert(left[cursor.len() - 1] == right[cursor.len() - 1]);
    }
}

/// The clauses before the last are those of the ordering without its last field.
proof fn lemma_shorter_clauses<D: Dialect>(
    fields: Seq<FieldView>,
    columns: Seq<Seq<char>>,
    dialect: D,
    positional: bool,
    offset: int,
)
    requires
        fields.len() > 0,
        columns.len() == fields.len(),
    ensures
        crate::keyset::clause_texts(
            crate::keyset::predicate(
                crate::cursor::directions(fields.drop_last()),
                positional,
                offset,
            ),
            crate::cursor::quoted_columns(columns.drop_last(), dialect),
            dialect,
        ) == crate::keyset::clause_texts(
            crate::keyset::predicate(crate::cursor::directions(fields), positional, offset),
            crate::cursor::quoted_columns(columns, dialect),
            dialect,
        ).drop_last(),
{
    let short = crate::keyset::predicate(
        crate::cursor::directions(fields.drop_last()),
        positional,
        offset,
    );
    let long = crate::keyset::predicate(crate::cursor::directions(fields), positional, offset);
    let short_columns = crate::cursor::quoted_columns(columns.drop_last(), dialect);
    let long_columns = crate::cursor::quoted_columns(columns, dialect);
    assert forall|i: int| 0 <= i < short.len() implies crate::keyset::clause_text(
        #[trigger] short[i],
        short_columns,
        dialect,
    ) == crate::keyset::clause_text(long[i], long_columns, dialect) by {
        assert(short[i] =~= long[i]);
        assert(crate::keyset::comparison_texts(short[i], short_columns, dialect)
            =~= crate::keyset::comparison_texts(long[i], long_columns, dialect));
    }
    assert(crate::keyset::clause_texts(short, short_columns, dialect)
        =~= crate::keyset::clause_texts(long, long_columns, dialect).drop_last());
}

/// A predicate is that of the ordering without its last field, with the last
/// field's clause in front of the closing parenthesis.
proof fn lemma_predicate_grows<D: Dialect>(
    order_by: OrderBy,
    entries: Seq<(Seq<char>, Seq<char>)>,
    columns: Seq<Seq<char>>,
    dialect: D,
    positional: bool,
    offset: int,
)
    requires
        order_by.fields@.len() > 0,
        columns.len() == order_by.fields@.len(),
        forall|i: int|
            0 <= i < columns.len() ==> crate::columns::lookup(
                entries,
                (#[trigger] order_by@[i]).path,
            ) == Some(columns[i]),
    ensures
        ({
            let last = order_by.fields@.len() - 1;
            let first = if positional {
                offset + crate::keyset::comparisons(last as nat)
            } else {
                offset
            };
            crate::keyset::predicate_text(
                crate::keyset::predicate(
                    crate::cursor::directions(order_by@),
                    positional,
                    offset,
                ),
                crate::cursor::quoted_columns(columns, dialect),
                dialect,
            ) == (if last == 0 {
                "("@
            } else {
                crate::keyset::predicate_text(
                    crate::keyset::predicate(
                        crate::cursor::directions(order_by@.drop_last()),
                        positional,
                        offset,
                    ),
                    crate::cursor::quoted_columns(columns.drop_last(), dialect),
                    dialect,
                ).drop_last() + " OR "@
            }) + "("@ + pinned_text(order_by, entries, dialect, first, last as nat)
                + dialect.quoted_text(
                crate::columns::lookup(entries, order_by.fields@[last].path@)->Some_0,
            ) + (if order_by.fields@[last].desc {
                " < "@
            } else {
                " > "@
            }) + dialect.placeholder_text(first + last) + "))"@
        }),
{
    let last = order_by.fields@.len() - 1;
    let fields = order_by@;
    let clauses = crate::keyset::predicate(crate::cursor::directions(fields), positional, offset);
    let texts = crate::keyset::clause_texts(
        clauses,
        crate::cursor::quoted_columns(columns, dialect),
        dialect,
    );
    lemma_shorter_clauses(fields, columns, dialect, positional, offset);
    lemma_clause_reads(order_by, entries, columns, dialect, positional, offset);
    assert(texts.last() == crate::keyset::clause_text(
        clauses[last],
        crate::cursor::quoted_columns(columns, dialect),
        dialect,
    ));
    let head = crate::text::joined(texts.drop_last(), " OR "@);
    if last == 0 {
        assert(head =~= Seq::<char>::empty());
    }
    let first = if positional {
        offset + crate::keyset::comparisons(last as nat)
    } else {
        offset
    };
    lemma_closing_parentheses(
        head,
        if last == 0 {
            Seq::empty()
        } else {
            " OR "@
        },
        pinned_text(order_by, entries, dialect, first, last as nat),
        dialect.quoted_text(
            crate::columns::lookup(entries, order_by.fields@[last].path@)->Some_0,
        ),
        if order_by.fields@[last].desc {
            " < "@
        } else {
            " > "@
        },
        dialect.placeholder_text(first + last),
    );
    if last == 0 {
        assert("("@ + head + Seq::<char>::empty() =~= "("@);
        assert(crate::text::joined(texts, " OR "@) =~= head + Seq::<char>::empty()
            + texts.last());
    }
}

/// The closing parenthesis of what stands before moves behind a new clause.
proof fn lemma_closing_parentheses(
    head: Seq<char>,
    separator: Seq<char>,
    pinned: Seq<char>,
    column: Seq<char>,
    sign: Seq<char>,
    placeholder: Seq<char>,
)
    ensures
        ("("@ + head + ")"@).drop_last() == "("@ + head,
        "("@ + (head + separator + ("("@ + (pinned + column + sign + placeholder) + ")"@)) + ")"@
            == "("@ + head + separator + "("@ + pinned + column + sign + placeholder + "))"@,
{
    reveal_strlit(")");
    reveal_strlit("))");
    assert(("("@ + head + ")"@).drop_last() =~= "("@ + head);
    assert(")"@ + ")"@ =~= "))"@);
    assert("("@ + (head + separator + ("("@ + (pinned + column + sign + placeholder) + ")"@))
        + ")"@ =~= "("@ + head + separator + "("@ + pinned + column + sign + placeholder + (")"@
        + ")"@));
}

/// The bind values are those without the last key, and behind them the last key,
/// or in a positional dialect all keys.
proof fn lemma_binds_grow(keys: Seq<ValueView>, positional: bool)
    requires
        keys.len() > 0,
    ensures
        crate::keyset::bind_values(keys, positional) == crate::keyset::bind_values(
            keys.drop_last(),
            positional,
        ) + keys.skip(
            if positional {
                0
            } else {
                keys.len() - 1
            },
        ),
{
    let shorter = keys.drop_last();
    assert(keys.take(shorter.len() as int) =~= shorter.take(shorter.len() as int));
    lemma_repeated_prefix(keys, shorter, shorter.len());
    assert(keys.take(keys.len() as int) =~= keys.skip(0));
    assert(keys =~= shorter + keys.skip(keys.len() - 1));
}

/// How the last clause of a predicate reads.
proof fn lemma_clause_reads<D: Dialect>(
    order_by: OrderBy,
    entries: Seq<(Seq<char>, Seq<char>)>,
    columns: Seq<Seq<char>>,
    dialect: D,
    positional: bool,
    offset: int,
)
    requires
        order_by.fields@.len() > 0,
        columns.len() == order_by.fields@.len(),
        forall|i: int|
            0 <= i < columns.len() ==> crate::columns::lookup(
                entries,
                (#[trigger] order_by@[i]).path,
            ) == Some(columns[i]),
    ensures
        ({
            let last = order_by.fields@.len() - 1;
            let first = if positional {
                offset + crate::keyset::comparisons(last as nat)
            } else {
                offset
            };
            crate::keyset::clause_text(
                crate::keyset::clause(
                    crate::cursor::directions(order_by@),
                    positional,
                    offset,
                    last,
                ),
                crate::cursor::quoted_columns(columns, dialect),
                dialect,
            ) == "("@ + (pinned_text(order_by, entries, dialect, first, last as nat)
                + dialect.quoted_text(
                crate::columns::lookup(entries, order_by.fields@[last].path@)->Some_0,
            ) + (if order_by.fields@[last].desc {
                " < "@
            } else {
                " > "@
            }) + dialect.placeholder_text(first + last)) + ")"@
        }),
{
    let last = order_by.fields@.len() - 1;
    let first = if positional {
        offset + crate::keyset::comparisons(last as nat)
    } else {
        offset
    };
    let comparisons = crate::keyset::clause(
        crate::cursor::directions(order_by@),
        positional,
        offset,
        last,
    );
    let quoted = crate::cursor::quoted_columns(columns, dialect);
    let texts = crate::keyset::comparison_texts(comparisons, quoted, dialect);
    lemma_pins_read(order_by, entries, columns, dialect, positional, offset, last as nat);
    crate::text::lemma_joined_step(texts, " AND "@, last);
    assert(texts.take(last + 1) =~= texts);
    assert(order_by@[last].path == order_by.fields@[last].path@);
    assert(order_by@[last].desc == order_by.fields@[last].desc);
    reveal_strlit(" ");
    reveal_strlit("<");
    reveal_strlit(">");
    reveal_strlit(" < ");
    reveal_strlit(" > ");
    assert(" "@ + "<"@ + " "@ =~= " < "@);
    assert(" "@ + ">"@ + " "@ =~= " > "@);
    let sign = if order_by.fields@[last].desc {
        " < "@
    } else {
        " > "@
    };
    assert(texts[last] =~= quoted[last] + sign + dialect.placeholder_text(first + last));
    assert(crate::text::joined(texts, " AND "@) =~= pinned_text(
        order_by,
        entries,
        dialect,
        first,
        last as nat,
    ) + quoted[last] + sign + dialect.placeholder_text(first + last));
}

proof fn lemma_pins_read<D: Dialect>(
    order_by: OrderBy,
    entries: Seq<(Seq<char>, Seq<char>)>,
    columns: Seq<Seq<char>>,
    dialect: D,
    positional: bool,
    offset: int,
    count: nat,
)
    requires
        count < order_by.fields@.len(),
        columns.len() == order_by.fields@.len(),
        forall|i: int|
            0 <= i < columns.len() ==> crate::columns::lookup(
                entries,
                (#[trigger] order_by@[i]).path,
            ) == Some(columns[i]),
    ensures
        ({
            let last = order_by.fields@.len() - 1;
            let first = if positional {
                offset + crate::keyset::comparisons(last as nat)
            } else {
                offset
            };
            let texts = crate::keyset::comparison_texts(
                crate::keyset::clause(
                    crate::cursor::directions(order_by@),
                    positional,
                    offset,
                    last,
                ),
                crate::cursor::quoted_columns(columns, dialect),
                dialect,
            );
            pinned_text(order_by, entries, dialect, first, count) == (if count == 0 {
                Seq::empty()
            } else {
                crate::text::joined(texts.take(count as int), " AND "@) + " AND "@
            })
        }),
    decreases count,
{
    if count > 0 {
        let field = count - 1;
        let last = order_by.fields@.len() - 1;
        let first = if positional {
            offset + crate::keyset::comparisons(last as nat)
        } else {
            offset
        };
        let quoted = crate::cursor::quoted_columns(columns, dialect);
        let texts = crate::keyset::comparison_texts(
            crate::keyset::clause(crate::cursor::directions(order_by@), positional, offset, last),
            quoted,
            dialect,
        );
        lemma_pins_read(order_by, entries, columns, dialect, positional, offset, field as nat);
        crate::text::lemma_joined_step(texts, " AND "@, field);
        assert(order_by@[field].path == order_by.fields@[field].path@);
        reveal_strlit(" ");
        reveal_strlit("=");
        reveal_strlit(" = ");
        assert(" "@ + "="@ + " "@ =~= " = "@);
        assert(texts[field] =~= quoted[field] + " = "@ + dialect.placeholder_text(first + field));
        assert(pinned_text(order_by, entries, dialect, first, count) =~= crate::text::joined(
            texts.take(count as int),
            " AND "@,
        ) + " AND "@);
    }
}

proof fn lemma_repeated_prefix(left: Seq<ValueView>, right: Seq<ValueView>, count: nat)
    requires
        count <= left.len(),
        count <= right.len(),
        left.take(count as int) == right.take(count as int),
    ensures
        crate::keyset::repeated(left, count) == crate::keyset::repeated(right, count),
    decreases count,
{
    if count > 0 {
        let fewer = (count - 1) as nat;
        assert(left.take(fewer as int) =~= left.take(count as int).take(fewer as int));
        assert(right.take(fewer as int) =~= right.take(count as int).take(fewer as int));
        lemma_repeated_prefix(left, right, fewer);
    }
}

/// A cursor is rewritten exactly where it has a value for each field, every field
/// has a column and every value can be bound, or where it is empty, and then there
/// is nothing to say. Otherwise the error is, in this order, that of the two
/// counts, of the first field without a column, and of the first value that cannot
/// be bound.
pub proof fn law_a_cursor_is_rewritten_or_refused<D: Dialect>(
    backend: Backend,
    order_by: OrderBy,
    cursor: &[CursorValue],
    columns: Columns<'_>,
    dialect: D,
    offset: usize,
    rewritten: Result<(Option<String>, Vec<Value>), Error>,
)
    requires
        call_ensures(
            cursor::rewrite_by::<D>,
            (backend, &order_by, cursor, columns, &dialect, offset),
            rewritten,
        ),
    ensures
        ({
            let fields = order_by@;
            let views = crate::request::cursor_views(cursor@);
            let counted = cursor@.len() == order_by.fields@.len();
            let mapped = forall|i: int|
                0 <= i < fields.len() ==> crate::columns::lookup(
                    columns@,
                    (#[trigger] fields[i]).path,
                ) is Some;
            match rewritten {
                Ok((sql, values)) => if cursor@.len() == 0 {
                    sql is None && values@.len() == 0
                } else {
                    &&& sql is Some
                    &&& counted
                    &&& mapped
                    &&& forall|i: int|
                        0 <= i < views.len() ==> crate::cursor::bound(
                            backend,
                            fields[i].path,
                            #[trigger] views[i],
                        ) is Ok
                },
                Err(Error::CursorArity { fields: expected, values }) => {
                    &&& cursor@.len() > 0
                    &&& !counted
                    &&& expected == order_by.fields@.len()
                    &&& values == cursor@.len()
                },
                Err(Error::UnknownField { dimension, path }) => {
                    &&& cursor@.len() > 0
                    &&& counted
                    &&& dimension == Dimension::Cursor
                    &&& exists|i: int|
                        #[trigger] first_unmapped(columns@, fields, i) && path@ == fields[i].path
                },
                Err(Error::Filter(_)) => false,
                Err(error) => {
                    &&& counted
                    &&& mapped
                    &&& exists|i: int|
                        #[trigger] first_unbound(backend, fields, views, i) && crate::cursor::bound(
                            backend,
                            fields[i].path,
                            views[i],
                        ) == Err::<ValueView, ErrorView>(error@)
                },
            }
        }),
{
    law_an_ordering_has_the_columns_of_its_paths(columns@, order_by@, Dimension::Cursor);
    law_a_cursor_binds_value_by_value(
        backend,
        order_by@,
        crate::request::cursor_views(cursor@),
    );
}

/// What a transpiled filter says, where there is one.
pub open spec fn filter_sql(filter: Option<Result<FilterFragment, FilterError>>) -> Option<
    Seq<char>,
> {
    match filter {
        Some(Ok(fragment)) => Some(fragment.sql@),
        _ => None,
    }
}

/// What a transpiled filter binds.
pub open spec fn filter_binds(filter: Option<Result<FilterFragment, FilterError>>) -> Seq<Value> {
    match filter {
        Some(Ok(fragment)) => fragment.values@,
        _ => Seq::empty(),
    }
}

/// How a query's fragments come from those of its parts. A filter that was not
/// transpiled is its error. Otherwise the cursor is rewritten behind the filter's
/// bind values, and its error comes before the ordering's. The `WHERE` clause is
/// the filter in parentheses, `AND` and the predicate, whatever the two look like,
/// or the one of them that there is; the bind values are the filter's and then the
/// predicate's; the `ORDER BY` list is the ordering's.
pub proof fn law_a_query_is_put_together_from_its_parts<D: Dialect>(
    backend: Backend,
    query: Query<'_>,
    dialect: D,
    cursor: &[CursorValue],
    offset: usize,
    by_cursor: Result<(Option<String>, Vec<Value>), Error>,
    by_order: Result<Option<String>, Error>,
    rewritten: Result<QueryFragment, Error>,
)
    requires
        cursor@ == query.page_token.cursor@,
        offset == 1 + filter_binds(query.filter).len(),
        call_ensures(
            cursor::rewrite_by::<D>,
            (backend, &query.order_by, cursor, query.columns, &dialect, offset),
            by_cursor,
        ),
        call_ensures(
            order::rewrite::<D>,
            (&query.order_by, query.columns, &dialect),
            by_order,
        ),
        call_ensures(Query::rewrite_by::<D>, (&query, backend, dialect), rewritten),
    ensures
        match (query.filter, by_cursor, by_order) {
            (Some(Err(FilterError::UnknownField { path })), _, _) => {
                rewritten matches Err(Error::UnknownField { dimension, path: named }) && dimension
                    == Dimension::Filter && named@ == path@
            },
            (Some(Err(FilterError::Rejected(rejection))), _, _) => {
                rewritten matches Err(Error::Filter(wrapped)) && wrapped.message@
                    == rejection.message@
            },
            (_, Err(error), _) => rewritten matches Err(reported) && reported@ == error@,
            (_, _, Err(error)) => rewritten matches Err(reported) && reported@ == error@,
            (filter, Ok((predicate, values)), Ok(ordering)) => {
                &&& rewritten is Ok
                &&& match (filter_sql(filter), predicate) {
                    (Some(filter), Some(predicate)) => {
                        rewritten->Ok_0.where_sql matches Some(sql) && sql@ == "("@ + filter
                            + ")"@ + " AND "@ + predicate@
                    },
                    (Some(filter), None) => {
                        rewritten->Ok_0.where_sql matches Some(sql) && sql@ == filter
                    },
                    (None, Some(predicate)) => {
                        rewritten->Ok_0.where_sql matches Some(sql) && sql@ == predicate@
                    },
                    (None, None) => rewritten->Ok_0.where_sql is None,
                }
                &&& match ordering {
                    Some(ordering) => {
                        rewritten->Ok_0.order_sql matches Some(sql) && sql@ == ordering@
                    },
                    None => rewritten->Ok_0.order_sql is None,
                }
                &&& one_behind_another(
                    filter_binds(query.filter),
                    values@,
                    rewritten->Ok_0.values@,
                )
            },
        },
{
    let literals = crate::query::filter_literals(crate::query::filter_view(query.filter));
    assert(literals =~= crate::value::value_views(filter_binds(query.filter)));
    assert(crate::request::cursor_views(cursor@) == crate::request::cursor_views(
        query.page_token.cursor@,
    ));
    reveal_strlit(")");
    reveal_strlit(" AND ");
    reveal_strlit(") AND ");
    assert(")"@ + " AND "@ =~= ") AND "@);
    if !(query.filter matches Some(Err(_))) && by_cursor is Ok && by_order is Ok {
        let values = by_cursor->Ok_0.1@;
        let all = rewritten->Ok_0.values@;
        let views = crate::value::value_views(all);
        assert(views == literals + crate::value::value_views(values));
        assert forall|i: int| 0 <= i < filter_binds(query.filter).len() implies (
        #[trigger] filter_binds(query.filter)[i])@ == all[i]@ by {
            assert(views[i] == literals[i]);
        }
        assert forall|i: int| 0 <= i < values.len() implies (#[trigger] values[i])@ == all[
            filter_binds(query.filter).len() + i
        ]@ by {
            assert(views[literals.len() + i] == crate::value::value_views(values)[i]);
        }
        match (filter_sql(query.filter), by_cursor->Ok_0.0) {
            (Some(filter), Some(predicate)) => {
                assert("("@ + filter + ")"@ + " AND "@ + predicate@ =~= "("@ + filter + (")"@
                    + " AND "@) + predicate@);
            },
            _ => {},
        }
    }
}

/// Whether `whole` holds the values in `first` and then those in `second`.
pub open spec fn one_behind_another(
    first: Seq<Value>,
    second: Seq<Value>,
    whole: Seq<Value>,
) -> bool {
    &&& whole.len() == first.len() + second.len()
    &&& forall|i: int| 0 <= i < first.len() ==> (#[trigger] first[i])@ == whole[i]@
    &&& forall|i: int| 0 <= i < second.len() ==> (#[trigger] second[i])@ == whole[first.len() + i]@
}

/// Without a backend named, `chrono` is it.
pub proof fn law_chrono_is_the_default<D: Dialect>(
    query: Query<'_>,
    dialect: D,
    cursor: &[CursorValue],
    offset: usize,
    plain: Result<QueryFragment, Error>,
    by_chrono: Result<QueryFragment, Error>,
    plain_cursor: Result<(Option<String>, Vec<Value>), Error>,
    cursor_by_chrono: Result<(Option<String>, Vec<Value>), Error>,
)
    requires
        call_ensures(Query::rewrite::<D>, (&query, dialect), plain),
        call_ensures(Query::rewrite_by::<D>, (&query, Backend::Chrono, dialect), by_chrono),
        call_ensures(
            cursor::rewrite::<D>,
            (&query.order_by, cursor, query.columns, &dialect, offset),
            plain_cursor,
        ),
        call_ensures(
            cursor::rewrite_by::<D>,
            (Backend::Chrono, &query.order_by, cursor, query.columns, &dialect, offset),
            cursor_by_chrono,
        ),
    ensures
        match (plain, by_chrono) {
            (Ok(left), Ok(right)) => left@ == right@,
            (Err(left), Err(right)) => left@ == right@,
            _ => false,
        },
        match (plain_cursor, cursor_by_chrono) {
            (Ok((left, values)), Ok((right, others))) => crate::text::text_view(left)
                == crate::text::text_view(right) && crate::value::value_views(values@)
                == crate::value::value_views(others@),
            (Err(left), Err(right)) => left@ == right@,
            _ => false,
        },
{
}

/// The alternatives that put a row behind a cursor's: all fields before one are
/// equal to the cursor's, and that one is greater, or less where it is descending.
/// The first bind value is `offset`; a positional dialect has one for every test.
pub open spec fn resumption(descending: Seq<bool>, positional: bool, offset: int) -> Seq<
    Seq<Test>,
> {
    Seq::new(
        descending.len(),
        |i: int|
            Seq::new(
                (i + 1) as nat,
                |t: int|
                    Test {
                        field: t,
                        sign: if t < i {
                            '='
                        } else if descending[i] {
                            '<'
                        } else {
                            '>'
                        },
                        slot: if positional {
                            offset + i * (i + 1) / 2 + t
                        } else {
                            offset + t
                        },
                    },
            ),
    )
}

/// The terms that sort by an ordering's fields, one after another.
pub open spec fn ordering_terms(descending: Seq<bool>) -> Seq<Term> {
    Seq::new(
        descending.len(),
        |i: int|
            Term {
                field: i,
                keyword: if descending[i] {
                    "DESC"@
                } else {
                    "ASC"@
                },
            },
    )
}

/// Whether `quoted` are the columns of an ordering's fields, as `dialect` quotes
/// them.
pub open spec fn quotes_columns<D: Dialect>(
    quoted: Seq<Seq<char>>,
    order_by: OrderBy,
    entries: Seq<(Seq<char>, Seq<char>)>,
    dialect: D,
) -> bool {
    &&& quoted.len() == order_by.fields@.len()
    &&& forall|i: int|
        0 <= i < quoted.len() ==> {
            let column = crate::columns::lookup(entries, order_by.fields@[i].path@);
            column is Some && #[trigger] quoted[i] == dialect.quoted_text(column->Some_0)
        }
}

/// Whether `keys` are the bind values of a cursor's values.
pub open spec fn binds_cursor(
    backend: Backend,
    keys: Seq<ValueView>,
    order_by: OrderBy,
    cursor: Seq<CursorValue>,
) -> bool {
    &&& keys.len() == cursor.len()
    &&& forall|i: int|
        0 <= i < keys.len() ==> crate::cursor::bound(
            backend,
            order_by.fields@[i].path@,
            cursor[i]@,
        ) == Ok::<ValueView, ErrorView>(#[trigger] keys[i])
}

/// What a rewritten query's SQL says is what it does. Read with its bind values,
/// the `WHERE` clause is true of a row exactly where the filter is and the ordering
/// puts the row behind the cursor's; and the `ORDER BY` list puts one row behind
/// another exactly where the ordering does.
pub proof fn law_fragments_mean_what_the_request_asks<D: Dialect>(
    backend: Backend,
    query: Query<'_>,
    dialect: D,
    fragment: QueryFragment,
    quoted: Seq<Seq<char>>,
    keys: Seq<ValueView>,
    matches_filter: bool,
    row: Seq<ValueView>,
    earlier: Seq<ValueView>,
    before: spec_fn(int, ValueView, ValueView) -> bool,
)
    requires
        call_ensures(
            Query::rewrite_by::<D>,
            (&query, backend, dialect),
            Ok::<QueryFragment, Error>(fragment),
        ),
        quotes_columns(quoted, query.order_by, query.columns@, dialect),
        binds_cursor(backend, keys, query.order_by, query.page_token.cursor@),
    ensures
        ({
            let fields = query.order_by.fields@;
            let descending = Seq::new(fields.len(), |i: int| fields[i].desc);
            let alternatives = resumption(
                descending,
                dialect.placeholder_text(1) == dialect.placeholder_text(2),
                1int + filter_binds(query.filter).len(),
            );
            let binds = crate::value::value_views(fragment.values@);
            let terms = ordering_terms(descending);
            &&& query.page_token.cursor@.len() > 0 ==> {
                &&& fragment.where_sql matches Some(sql) && sql@ == crate::sql::where_text(
                    filter_sql(query.filter),
                    alternatives,
                    quoted,
                    dialect,
                )
                &&& crate::sql::where_holds(matches_filter, alternatives, row, binds, before) == (
                matches_filter && crate::paging::comes_after(descending, row, keys, before, 0))
            }
            &&& fields.len() > 0 ==> {
                fragment.order_sql matches Some(sql) && sql@ == crate::sql::terms_text(
                    terms,
                    quoted,
                )
            }
            &&& crate::sql::terms_sort_behind(terms, row, earlier, before)
                == crate::paging::comes_after(descending, row, earlier, before, 0)
        }),
{
    let fields = query.order_by@;
    let descending = Seq::new(
        query.order_by.fields@.len(),
        |i: int| query.order_by.fields@[i].desc,
    );
    assert(descending =~= crate::cursor::directions(fields));
    let entries = query.columns@;
    law_an_ordering_has_the_columns_of_its_paths(entries, fields, Dimension::OrderBy);
    let columns = crate::columns::mapped_fields(entries, fields, Dimension::OrderBy)->Ok_0;
    assert forall|i: int| 0 <= i < columns.len() implies #[trigger] quoted[i]
        == dialect.quoted_text(columns[i]) by {
        assert(fields[i].path == query.order_by.fields@[i].path@);
    }
    lemma_terms_read(fields, columns, quoted, dialect);
    lemma_terms_sort(descending, row, earlier, before, 0);
    assert(ordering_terms(descending).skip(0) =~= ordering_terms(descending));
    let views = crate::request::cursor_views(query.page_token.cursor@);
    if views.len() > 0 {
        let positional = crate::dialect::positional(dialect);
        let literals = crate::query::filter_literals(crate::query::filter_view(query.filter));
        let offset = 1int + literals.len();
        assert(literals.len() == filter_binds(query.filter).len());
        crate::columns::lemma_columns_agree(
            entries,
            fields,
            Dimension::OrderBy,
            Dimension::Cursor,
        );
        law_a_cursor_binds_value_by_value(backend, fields, views);
        assert(crate::cursor::bound_fields(backend, fields, views)->Ok_0 =~= keys) by {
            assert forall|i: int| 0 <= i < keys.len() implies crate::cursor::bound_fields(
                backend,
                fields,
                views,
            )->Ok_0[i] == keys[i] by {
                assert(views[i] == query.page_token.cursor@[i]@);
                assert(fields[i].path == query.order_by.fields@[i].path@);
            }
        }
        assert(crate::cursor::quoted_columns(columns, dialect) =~= quoted);
        lemma_resumption_reads(descending, positional, offset, quoted, dialect);
        lemma_where_reads(
            filter_sql(query.filter),
            resumption(descending, positional, offset),
            quoted,
            dialect,
        );
        crate::keyset::lemma_bind_count(keys, positional);
        let binds = crate::value::value_views(fragment.values@);
        crate::paging::law_predicate_is_the_tuple_comparison(
            descending,
            row,
            keys,
            binds,
            before,
            positional,
            offset,
        );
        lemma_resumption_holds(descending, positional, offset, row, binds, before);
    }
}

/// Joining from the front: the first part, and the rest behind a separator.
proof fn lemma_joined_front(parts: Seq<Seq<char>>, separator: Seq<char>)
    requires
        parts.len() > 1,
    ensures
        crate::text::joined(parts, separator) == parts[0] + separator + crate::text::joined(
            parts.drop_first(),
            separator,
        ),
    decreases parts.len(),
{
    reveal_with_fuel(crate::text::joined, 3);
    let rest = parts.drop_first();
    assert(rest.last() == parts.last());
    if parts.len() == 2 {
        assert(parts.drop_last().drop_last() =~= Seq::<Seq<char>>::empty());
        assert(rest.drop_last() =~= Seq::<Seq<char>>::empty());
        assert(crate::text::joined(parts, separator) =~= parts[0] + separator
            + crate::text::joined(rest, separator));
    } else {
        lemma_joined_front(parts.drop_last(), separator);
        assert(parts.drop_last().drop_first() =~= rest.drop_last());
        assert(crate::text::joined(parts, separator) =~= parts[0] + separator
            + crate::text::joined(rest, separator));
    }
}

proof fn lemma_terms_read<D: Dialect>(
    fields: Seq<FieldView>,
    columns: Seq<Seq<char>>,
    quoted: Seq<Seq<char>>,
    dialect: D,
)
    requires
        columns.len() == fields.len(),
        quoted.len() == fields.len(),
        forall|i: int|
            0 <= i < fields.len() ==> #[trigger] quoted[i] == dialect.quoted_text(columns[i]),
    ensures
        crate::text::joined(crate::order::term_texts(fields, columns, dialect), ", "@)
            == crate::sql::terms_text(ordering_terms(crate::cursor::directions(fields)), quoted),
{
    let texts = crate::order::term_texts(fields, columns, dialect);
    let terms = ordering_terms(crate::cursor::directions(fields));
    reveal_strlit(" ");
    reveal_strlit("ASC");
    reveal_strlit("DESC");
    reveal_strlit(" ASC");
    reveal_strlit(" DESC");
    assert(" "@ + "ASC"@ =~= " ASC"@);
    assert(" "@ + "DESC"@ =~= " DESC"@);
    assert forall|i: int| 0 <= i < terms.len() implies #[trigger] texts[i]
        == quoted[terms[i].field] + " "@ + terms[i].keyword by {
        assert(texts[i] =~= quoted[i] + " "@ + terms[i].keyword);
    }
    lemma_terms_text(terms, texts, quoted);
}

proof fn lemma_terms_text(terms: Seq<Term>, texts: Seq<Seq<char>>, quoted: Seq<Seq<char>>)
    requires
        terms.len() == texts.len(),
        forall|i: int|
            0 <= i < terms.len() ==> #[trigger] texts[i] == quoted[terms[i].field] + " "@
                + terms[i].keyword,
    ensures
        crate::sql::terms_text(terms, quoted) == crate::text::joined(texts, ", "@),
    decreases terms.len(),
{
    if terms.len() > 1 {
        let rest = texts.drop_first();
        assert forall|i: int| 0 <= i < rest.len() implies #[trigger] rest[i]
            == quoted[terms.drop_first()[i].field] + " "@ + terms.drop_first()[i].keyword by {
            assert(rest[i] == texts[i + 1]);
        }
        lemma_terms_text(terms.drop_first(), rest, quoted);
        lemma_joined_front(texts, ", "@);
    } else if terms.len() == 1 {
        assert(crate::text::joined(texts.drop_last(), ", "@) =~= Seq::<char>::empty());
        assert(crate::text::joined(texts, ", "@) =~= texts[0]);
    }
}

proof fn lemma_terms_sort(
    descending: Seq<bool>,
    later: Seq<ValueView>,
    earlier: Seq<ValueView>,
    before: spec_fn(int, ValueView, ValueView) -> bool,
    from: nat,
)
    requires
        from <= descending.len(),
    ensures
        crate::sql::terms_sort_behind(
            ordering_terms(descending).skip(from as int),
            later,
            earlier,
            before,
        ) == crate::paging::comes_after(descending, later, earlier, before, from),
    decreases descending.len() - from,
{
    reveal_strlit("ASC");
    reveal_strlit("DESC");
    assert("ASC"@.len() != "DESC"@.len());
    let terms = ordering_terms(descending).skip(from as int);
    if from < descending.len() {
        lemma_terms_sort(descending, later, earlier, before, from + 1);
        assert(terms.drop_first() =~= ordering_terms(descending).skip((from + 1) as int));
        assert(terms[0] == ordering_terms(descending)[from as int]);
    }
}

proof fn lemma_all_text<D: Dialect>(
    tests: Seq<Test>,
    texts: Seq<Seq<char>>,
    columns: Seq<Seq<char>>,
    dialect: D,
)
    requires
        tests.len() == texts.len(),
        forall|i: int|
            0 <= i < tests.len() ==> #[trigger] texts[i] == crate::sql::test_text(
                tests[i],
                columns,
                dialect,
            ),
    ensures
        crate::sql::all_text(tests, columns, dialect) == crate::text::joined(texts, " AND "@),
    decreases tests.len(),
{
    if tests.len() > 1 {
        let rest = texts.drop_first();
        assert forall|i: int| 0 <= i < rest.len() implies #[trigger] rest[i]
            == crate::sql::test_text(tests.drop_first()[i], columns, dialect) by {
            assert(rest[i] == texts[i + 1]);
        }
        lemma_all_text(tests.drop_first(), rest, columns, dialect);
        lemma_joined_front(texts, " AND "@);
    } else if tests.len() == 1 {
        assert(crate::text::joined(texts.drop_last(), " AND "@) =~= Seq::<char>::empty());
        assert(crate::text::joined(texts, " AND "@) =~= texts[0]);
    }
}

proof fn lemma_any_text<D: Dialect>(
    alternatives: Seq<Seq<Test>>,
    texts: Seq<Seq<char>>,
    columns: Seq<Seq<char>>,
    dialect: D,
)
    requires
        alternatives.len() == texts.len(),
        forall|i: int|
            0 <= i < alternatives.len() ==> #[trigger] texts[i] == "("@ + crate::sql::all_text(
                alternatives[i],
                columns,
                dialect,
            ) + ")"@,
    ensures
        crate::sql::any_text(alternatives, columns, dialect) == crate::text::joined(
            texts,
            " OR "@,
        ),
    decreases alternatives.len(),
{
    if alternatives.len() > 1 {
        let rest = texts.drop_first();
        assert forall|i: int| 0 <= i < rest.len() implies #[trigger] rest[i] == "("@
            + crate::sql::all_text(alternatives.drop_first()[i], columns, dialect) + ")"@ by {
            assert(rest[i] == texts[i + 1]);
        }
        lemma_any_text(alternatives.drop_first(), rest, columns, dialect);
        lemma_joined_front(texts, " OR "@);
    } else if alternatives.len() == 1 {
        assert(crate::text::joined(texts.drop_last(), " OR "@) =~= Seq::<char>::empty());
        assert(crate::text::joined(texts, " OR "@) =~= texts[0]);
    }
}

/// The alternatives read as the predicate does.
proof fn lemma_resumption_reads<D: Dialect>(
    descending: Seq<bool>,
    positional: bool,
    offset: int,
    columns: Seq<Seq<char>>,
    dialect: D,
)
    ensures
        crate::keyset::predicate_text(
            crate::keyset::predicate(descending, positional, offset),
            columns,
            dialect,
        ) == "("@ + crate::sql::any_text(
            resumption(descending, positional, offset),
            columns,
            dialect,
        ) + ")"@,
{
    let clauses = crate::keyset::predicate(descending, positional, offset);
    let texts = crate::keyset::clause_texts(clauses, columns, dialect);
    let alternatives = resumption(descending, positional, offset);
    assert forall|i: int| 0 <= i < alternatives.len() implies #[trigger] texts[i] == "("@
        + crate::sql::all_text(alternatives[i], columns, dialect) + ")"@ by {
        let tests = alternatives[i];
        let comparisons = crate::keyset::comparison_texts(clauses[i], columns, dialect);
        crate::keyset::lemma_comparisons(i as nat);
        reveal_strlit(" ");
        reveal_strlit("=");
        reveal_strlit("<");
        reveal_strlit(">");
        assert forall|t: int| 0 <= t < tests.len() implies #[trigger] comparisons[t]
            == crate::sql::test_text(tests[t], columns, dialect) by {
            assert(comparisons[t] =~= crate::sql::test_text(tests[t], columns, dialect));
        }
        lemma_all_text(tests, comparisons, columns, dialect);
    }
    lemma_any_text(alternatives, texts, columns, dialect);
}

proof fn lemma_where_reads<D: Dialect>(
    filter: Option<Seq<char>>,
    alternatives: Seq<Seq<Test>>,
    columns: Seq<Seq<char>>,
    dialect: D,
)
    ensures
        crate::query::joined_predicates(
            filter,
            Some("("@ + crate::sql::any_text(alternatives, columns, dialect) + ")"@),
        ) == Some(crate::sql::where_text(filter, alternatives, columns, dialect)),
{
    reveal_strlit(")");
    reveal_strlit(" AND ");
    reveal_strlit(") AND ");
    assert(")"@ + " AND "@ =~= ") AND "@);
    let predicate = "("@ + crate::sql::any_text(alternatives, columns, dialect) + ")"@;
    if let Some(filter) = filter {
        assert("("@ + filter + ")"@ + " AND "@ + predicate =~= "("@ + filter + (")"@ + " AND "@)
            + predicate);
    }
}

/// The alternatives are true where the predicate is.
proof fn lemma_resumption_holds(
    descending: Seq<bool>,
    positional: bool,
    offset: int,
    row: Seq<ValueView>,
    binds: Seq<ValueView>,
    before: spec_fn(int, ValueView, ValueView) -> bool,
)
    ensures
        crate::sql::any_holds(resumption(descending, positional, offset), row, binds, before)
            == crate::paging::predicate_holds(
            crate::keyset::predicate(descending, positional, offset),
            row,
            binds,
            before,
        ),
{
    let clauses = crate::keyset::predicate(descending, positional, offset);
    let alternatives = resumption(descending, positional, offset);
    assert forall|i: int| 0 <= i < clauses.len() implies crate::sql::all_hold(
        #[trigger] alternatives[i],
        row,
        binds,
        before,
    ) == crate::paging::clause_holds(clauses[i], row, binds, before) by {
        crate::keyset::lemma_comparisons(i as nat);
        let tests = alternatives[i];
        assert forall|t: int| 0 <= t < tests.len() implies crate::sql::test_holds(
            #[trigger] tests[t],
            row,
            binds,
            before,
        ) == crate::paging::comparison_holds(clauses[i][t], row, binds, before) by {}
        if crate::sql::all_hold(tests, row, binds, before) {
            assert forall|t: int|
                0 <= t < clauses[i].len() implies crate::paging::comparison_holds(
                #[trigger] clauses[i][t],
                row,
                binds,
                before,
            ) by {
                assert(crate::sql::test_holds(tests[t], row, binds, before));
            }
        }
    }
    if crate::paging::predicate_holds(clauses, row, binds, before) {
        let i = choose|i: int|
            0 <= i < clauses.len() && crate::paging::clause_holds(
                #[trigger] clauses[i],
                row,
                binds,
                before,
            );
        assert(crate::sql::all_hold(alternatives[i], row, binds, before));
    }
    if crate::sql::any_holds(alternatives, row, binds, before) {
        let i = choose|i: int|
            0 <= i < alternatives.len() && crate::sql::all_hold(
                #[trigger] alternatives[i],
                row,
                binds,
                before,
            );
        assert(crate::paging::clause_holds(clauses[i], row, binds, before));
    }
}

} // verus!
