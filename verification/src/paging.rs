//! What the key-set predicate means: it selects the rows that come after the
//! cursor, so that following cursors from page to page serves every row once.

use vstd::prelude::*;

use crate::dialect::Dialect;
use crate::error::{ErrorView, FilterErrorView};
use crate::instant::Backend;
use crate::keyset::{Comparison, Operator};
use crate::query::{FilterView, FragmentView};
use crate::request::{CursorValueView, FieldView};
use crate::value::ValueView;

verus! {

/// Whether two values of a field's column are tied: neither sorts before the
/// other. `before(field, a, b)` says that the database sorts `a` before `b` in
/// the column of `field`.
pub open spec fn tied(
    before: spec_fn(int, ValueView, ValueView) -> bool,
    field: int,
    left: ValueView,
    right: ValueView,
) -> bool {
    !before(field, left, right) && !before(field, right, left)
}

/// Whether a comparison is true of a row with the sort key `row`, in a
/// statement with the bind values `binds`.
pub open spec fn comparison_holds(
    comparison: Comparison,
    row: Seq<ValueView>,
    binds: Seq<ValueView>,
    before: spec_fn(int, ValueView, ValueView) -> bool,
) -> bool {
    let value = row[comparison.field];
    let bind = binds[comparison.slot - 1];
    match comparison.operator {
        Operator::Equal => tied(before, comparison.field, value, bind),
        Operator::Less => before(comparison.field, value, bind),
        Operator::Greater => before(comparison.field, bind, value),
    }
}

/// Whether all comparisons of a clause are true of a row.
pub open spec fn clause_holds(
    clause: Seq<Comparison>,
    row: Seq<ValueView>,
    binds: Seq<ValueView>,
    before: spec_fn(int, ValueView, ValueView) -> bool,
) -> bool {
    forall|term: int|
        0 <= term < clause.len() ==> comparison_holds(#[trigger] clause[term], row, binds, before)
}

/// Whether one of a predicate's clauses is true of a row.
pub open spec fn predicate_holds(
    clauses: Seq<Seq<Comparison>>,
    row: Seq<ValueView>,
    binds: Seq<ValueView>,
    before: spec_fn(int, ValueView, ValueView) -> bool,
) -> bool {
    exists|i: int|
        0 <= i < clauses.len() && clause_holds(#[trigger] clauses[i], row, binds, before)
}

/// Whether an `ORDER BY` over the fields from `from` on puts a row with the
/// sort key `later` strictly behind one with the sort key `earlier`: the first
/// field that does not tie them decides, in its own direction.
pub open spec fn comes_after(
    descending: Seq<bool>,
    later: Seq<ValueView>,
    earlier: Seq<ValueView>,
    before: spec_fn(int, ValueView, ValueView) -> bool,
    from: nat,
) -> bool
    decreases descending.len() - from,
{
    let field = from as int;
    if from >= descending.len() {
        false
    } else if tied(before, field, later[field], earlier[field]) {
        comes_after(descending, later, earlier, before, from + 1)
    } else if descending[field] {
        before(field, later[field], earlier[field])
    } else {
        before(field, earlier[field], later[field])
    }
}

/// Whether `binds` carry the bind values of the predicate over `keys`, the
/// first of them as the `offset`'th.
pub open spec fn carries(
    binds: Seq<ValueView>,
    keys: Seq<ValueView>,
    positional: bool,
    offset: int,
) -> bool {
    forall|i: int|
        0 <= i < crate::keyset::bind_count(keys.len(), positional) ==> #[trigger] binds[offset - 1
            + i] == crate::keyset::bind_values(keys, positional)[i]
}

/// Every placeholder refers to a bind value of the predicate, and that value is
/// the cursor value of the field it is compared with.
pub proof fn law_placeholders_name_their_keys(
    descending: Seq<bool>,
    keys: Seq<ValueView>,
    positional: bool,
    offset: int,
    clause: int,
    term: int,
)
    requires
        keys.len() == descending.len(),
        0 <= term <= clause < descending.len(),
    ensures
        ({
            let comparison = crate::keyset::predicate(descending, positional, offset)[clause][term];
            &&& offset <= comparison.slot < offset + crate::keyset::bind_count(
                keys.len(),
                positional,
            )
            &&& crate::keyset::bind_values(keys, positional)[comparison.slot - offset]
                == keys[comparison.field]
        }),
{
    crate::keyset::lemma_repeated_index(keys, keys.len(), clause, term);
}

/// How many placeholders stand before the `clause`'th clause of a predicate.
pub open spec fn placeholders_before(clauses: Seq<Seq<Comparison>>, clause: nat) -> nat
    decreases clause,
{
    if clause == 0 {
        0
    } else {
        placeholders_before(clauses, (clause - 1) as nat) + clauses[clause - 1].len()
    }
}

/// In a positional dialect every placeholder takes the next bind value: the
/// ordinal it refers to is its own among the predicate's placeholders, and there
/// are as many values as placeholders.
pub proof fn law_positional_placeholders_run_in_order(
    descending: Seq<bool>,
    keys: Seq<ValueView>,
    offset: int,
    clause: int,
    term: int,
)
    requires
        keys.len() == descending.len(),
        0 <= term <= clause < descending.len(),
    ensures
        ({
            let clauses = crate::keyset::predicate(descending, true, offset);
            &&& clauses[clause][term].slot == offset + placeholders_before(clauses, clause as nat)
                + term
            &&& crate::keyset::bind_values(keys, true).len() == placeholders_before(
                clauses,
                clauses.len(),
            )
        }),
{
    crate::keyset::lemma_bind_count(keys, true);
    lemma_placeholders_before(descending, true, offset, clause as nat);
    lemma_placeholders_before(descending, true, offset, descending.len());
}

proof fn lemma_placeholders_before(
    descending: Seq<bool>,
    positional: bool,
    offset: int,
    clause: nat,
)
    requires
        clause <= descending.len(),
    ensures
        placeholders_before(crate::keyset::predicate(descending, positional, offset), clause)
            == crate::keyset::comparisons(clause),
    decreases clause,
{
    if clause > 0 {
        lemma_placeholders_before(descending, positional, offset, (clause - 1) as nat);
    }
}

/// A cursor of `fields` values binds that many values in a numbered dialect,
/// and `fields * (fields + 1) / 2` in a positional one.
pub proof fn law_bind_counts(keys: Seq<ValueView>)
    ensures
        crate::keyset::bind_values(keys, false).len() == keys.len(),
        crate::keyset::bind_values(keys, true).len() == keys.len() * (keys.len() + 1) / 2,
{
    crate::keyset::lemma_bind_count(keys, true);
    crate::keyset::lemma_comparisons(keys.len());
}

/// The predicate is the tuple comparison: it is true of a row exactly where the
/// ordering puts the row strictly behind the cursor's.
pub proof fn law_predicate_is_the_tuple_comparison(
    descending: Seq<bool>,
    row: Seq<ValueView>,
    keys: Seq<ValueView>,
    binds: Seq<ValueView>,
    before: spec_fn(int, ValueView, ValueView) -> bool,
    positional: bool,
    offset: int,
)
    requires
        keys.len() == descending.len(),
        carries(binds, keys, positional, offset),
    ensures
        predicate_holds(
            crate::keyset::predicate(descending, positional, offset),
            row,
            binds,
            before,
        ) == comes_after(descending, row, keys, before, 0),
{
    lemma_tuple_comparison_from(descending, row, keys, binds, before, positional, offset, 0);
}

/// The clauses from `from` on compare the tuples, where all fields before are
/// tied.
proof fn lemma_tuple_comparison_from(
    descending: Seq<bool>,
    row: Seq<ValueView>,
    keys: Seq<ValueView>,
    binds: Seq<ValueView>,
    before: spec_fn(int, ValueView, ValueView) -> bool,
    positional: bool,
    offset: int,
    from: nat,
)
    requires
        from <= descending.len(),
        keys.len() == descending.len(),
        carries(binds, keys, positional, offset),
        forall|i: int| 0 <= i < from ==> tied(before, i, #[trigger] row[i], keys[i]),
    ensures
        predicate_holds(
            crate::keyset::predicate(descending, positional, offset),
            row,
            binds,
            before,
        ) == comes_after(descending, row, keys, before, from),
    decreases descending.len() - from,
{
    let clauses = crate::keyset::predicate(descending, positional, offset);
    assert forall|clause: int, term: int| 0 <= term <= clause < descending.len() implies binds[(
    #[trigger] clauses[clause][term]).slot - 1] == keys[term] by {
        law_placeholders_name_their_keys(descending, keys, positional, offset, clause, term);
        let slot = clauses[clause][term].slot;
        assert(binds[offset - 1 + (slot - offset)] == keys[term]);
    }
    if from == descending.len() {
        assert forall|i: int| 0 <= i < clauses.len() implies !clause_holds(
            #[trigger] clauses[i],
            row,
            binds,
            before,
        ) by {
            assert(!comparison_holds(clauses[i][i], row, binds, before)) by {
                assert(tied(before, i, row[i], keys[i]));
            }
        }
    } else {
        let field = from as int;
        if tied(before, field, row[field], keys[field]) {
            lemma_tuple_comparison_from(
                descending,
                row,
                keys,
                binds,
                before,
                positional,
                offset,
                from + 1,
            );
        } else {
            // The clauses before have a tied last field, and those behind need
            // this field tied, so this field's clause alone can be true.
            assert forall|i: int| 0 <= i < clauses.len() && i != field implies !clause_holds(
                #[trigger] clauses[i],
                row,
                binds,
                before,
            ) by {
                if i < field {
                    assert(tied(before, i, row[i], keys[i]));
                    assert(!comparison_holds(clauses[i][i], row, binds, before));
                } else {
                    assert(!comparison_holds(clauses[i][field], row, binds, before));
                }
            }
            let own = clauses[field];
            assert(clause_holds(own, row, binds, before) == comparison_holds(
                own[field],
                row,
                binds,
                before,
            )) by {
                assert forall|term: int| 0 <= term < field implies comparison_holds(
                    #[trigger] own[term],
                    row,
                    binds,
                    before,
                ) by {
                    assert(tied(before, term, row[term], keys[term]));
                }
            }
        }
    }
}

/// Whether no two values sort before each other both ways.
pub open spec fn asymmetric(before: spec_fn(int, ValueView, ValueView) -> bool) -> bool {
    forall|field: int, left: ValueView, right: ValueView|
        #[trigger] before(field, left, right) ==> !before(field, right, left)
}

/// Whether `rows`, each by its sort key, stand in the ordering's order and no
/// two of them share a sort key: an ordering that ends in a unique column sorts
/// every table into such a sequence.
pub open spec fn strictly_ordered(
    rows: Seq<Seq<ValueView>>,
    descending: Seq<bool>,
    before: spec_fn(int, ValueView, ValueView) -> bool,
) -> bool {
    forall|i: int, j: int|
        0 <= i < j < rows.len() ==> comes_after(
            descending,
            #[trigger] rows[j],
            #[trigger] rows[i],
            before,
            0,
        )
}

/// No row comes after itself, and no two rows come after each other.
pub proof fn law_order_is_asymmetric(
    descending: Seq<bool>,
    left: Seq<ValueView>,
    right: Seq<ValueView>,
    before: spec_fn(int, ValueView, ValueView) -> bool,
    from: nat,
)
    requires
        asymmetric(before),
    ensures
        !(comes_after(descending, left, right, before, from) && comes_after(
            descending,
            right,
            left,
            before,
            from,
        )),
    decreases descending.len() - from,
{
    if from < descending.len() {
        let field = from as int;
        if tied(before, field, left[field], right[field]) {
            law_order_is_asymmetric(descending, left, right, before, from + 1);
        }
    }
}

/// Whether a page that resumes from `cursor` may serve a row: any row on the
/// first page, and then those that the predicate is true of, in a statement
/// that binds `literals` before the predicate's values.
pub open spec fn selected(
    backend: Backend,
    row: Seq<ValueView>,
    fields: Seq<FieldView>,
    cursor: Seq<CursorValueView>,
    literals: Seq<ValueView>,
    positional: bool,
    before: spec_fn(int, ValueView, ValueView) -> bool,
) -> bool {
    cursor.len() == 0 || match crate::cursor::bound_fields(backend, fields, cursor) {
        Err(_) => false,
        Ok(keys) => predicate_holds(
            crate::keyset::predicate(
                crate::cursor::directions(fields),
                positional,
                1int + literals.len(),
            ),
            row,
            literals + crate::keyset::bind_values(keys, positional),
            before,
        ),
    }
}

/// A page that resumes from the cursor of a row serves exactly the rows behind
/// it.
pub proof fn law_a_page_resumes_behind_its_cursor(
    backend: Backend,
    rows: Seq<Seq<ValueView>>,
    fields: Seq<FieldView>,
    cursor: Seq<CursorValueView>,
    literals: Seq<ValueView>,
    positional: bool,
    before: spec_fn(int, ValueView, ValueView) -> bool,
    last: int,
    index: int,
)
    requires
        asymmetric(before),
        strictly_ordered(rows, crate::cursor::directions(fields), before),
        0 <= last < rows.len(),
        0 <= index < rows.len(),
        cursor.len() == fields.len(),
        cursor.len() > 0,
        crate::cursor::bound_fields(backend, fields, cursor) == Ok::<Seq<ValueView>, ErrorView>(
            rows[last],
        ),
    ensures
        selected(backend, rows[index], fields, cursor, literals, positional, before) == (index
            > last),
{
    let descending = crate::cursor::directions(fields);
    let keys = rows[last];
    lemma_bound_count(backend, fields, cursor);
    crate::keyset::lemma_bind_count(keys, positional);
    law_predicate_is_the_tuple_comparison(
        descending,
        rows[index],
        keys,
        literals + crate::keyset::bind_values(keys, positional),
        before,
        positional,
        1int + literals.len(),
    );
    law_order_is_asymmetric(descending, rows[index], keys, before, 0);
    if index < last {
        assert(comes_after(descending, rows[last], rows[index], before, 0));
    }
}

/// A cursor that can be bound has one key for each of its values.
pub proof fn lemma_bound_count(
    backend: Backend,
    fields: Seq<FieldView>,
    cursor: Seq<CursorValueView>,
)
    ensures
        crate::cursor::bound_fields(backend, fields, cursor) matches Ok(keys) ==> keys.len()
            == cursor.len(),
    decreases cursor.len(),
{
    if cursor.len() > 0 {
        lemma_bound_count(backend, fields, cursor.drop_last());
    }
}

/// The page that resumes from `cursor`: the first `size` of the rows that it
/// may serve.
pub open spec fn page(
    backend: Backend,
    rows: Seq<Seq<ValueView>>,
    fields: Seq<FieldView>,
    cursor: Seq<CursorValueView>,
    literals: Seq<ValueView>,
    positional: bool,
    before: spec_fn(int, ValueView, ValueView) -> bool,
    size: nat,
) -> Seq<Seq<ValueView>> {
    let remaining = rows.filter(
        |row: Seq<ValueView>| selected(backend, row, fields, cursor, literals, positional, before),
    );
    if remaining.len() <= size {
        remaining
    } else {
        remaining.take(size as int)
    }
}

/// The cursor that the page behind `served` resumes from, where `cursor_of` gives
/// a row's cursor: that of the last row served, and none on the first page.
pub open spec fn resume_from(
    served: Seq<Seq<ValueView>>,
    cursor_of: spec_fn(Seq<ValueView>) -> Seq<CursorValueView>,
) -> Seq<CursorValueView> {
    if served.len() == 0 {
        Seq::empty()
    } else {
        cursor_of(served.last())
    }
}

/// The rows that the first `pages` pages serve, one after another, where
/// `cursor_of` gives the cursor of the last row that was served.
pub open spec fn walk(
    backend: Backend,
    rows: Seq<Seq<ValueView>>,
    fields: Seq<FieldView>,
    cursor_of: spec_fn(Seq<ValueView>) -> Seq<CursorValueView>,
    literals: Seq<ValueView>,
    positional: bool,
    before: spec_fn(int, ValueView, ValueView) -> bool,
    size: nat,
    pages: nat,
) -> Seq<Seq<ValueView>>
    decreases pages,
{
    if pages == 0 {
        Seq::empty()
    } else {
        let served = walk(
            backend,
            rows,
            fields,
            cursor_of,
            literals,
            positional,
            before,
            size,
            (pages - 1) as nat,
        );
        let cursor = resume_from(served, cursor_of);
        served + page(backend, rows, fields, cursor, literals, positional, before, size)
    }
}

/// Whether `cursor_of` gives each of `rows` a cursor that stands for it.
pub open spec fn cursors_match(
    backend: Backend,
    rows: Seq<Seq<ValueView>>,
    fields: Seq<FieldView>,
    cursor_of: spec_fn(Seq<ValueView>) -> Seq<CursorValueView>,
) -> bool {
    forall|i: int|
        #![trigger rows[i]]
        0 <= i < rows.len() ==> cursor_of(rows[i]).len() == fields.len()
            && crate::cursor::bound_fields(backend, fields, cursor_of(rows[i])) == Ok::<
            Seq<ValueView>,
            ErrorView,
        >(rows[i])
}

/// Following cursors from page to page serves every row once and in order: the
/// first `pages` pages of `size` rows serve the first `pages * size` rows, or
/// all of them where there are fewer. It holds in numbered and in positional
/// dialects, and in every mix of directions.
pub proof fn law_pages_serve_every_row_once(
    backend: Backend,
    rows: Seq<Seq<ValueView>>,
    fields: Seq<FieldView>,
    cursor_of: spec_fn(Seq<ValueView>) -> Seq<CursorValueView>,
    literals: Seq<ValueView>,
    positional: bool,
    before: spec_fn(int, ValueView, ValueView) -> bool,
    size: nat,
    pages: nat,
)
    requires
        asymmetric(before),
        strictly_ordered(rows, crate::cursor::directions(fields), before),
        cursors_match(backend, rows, fields, cursor_of),
        fields.len() > 0,
    ensures
        walk(backend, rows, fields, cursor_of, literals, positional, before, size, pages) == (
        if pages * size <= rows.len() {
            rows.take((pages * size) as int)
        } else {
            rows
        }),
    decreases pages,
{
    if pages == 0 {
        assert(pages * size == 0) by (nonlinear_arith)
            requires
                pages == 0,
        ;
        assert(rows.take(0) =~= Seq::<Seq<ValueView>>::empty());
    } else {
        let fewer = (pages - 1) as nat;
        law_pages_serve_every_row_once(
            backend,
            rows,
            fields,
            cursor_of,
            literals,
            positional,
            before,
            size,
            fewer,
        );
        assert(pages * size == fewer * size + size) by (nonlinear_arith)
            requires
                pages == fewer + 1,
        ;
        let served = walk(
            backend,
            rows,
            fields,
            cursor_of,
            literals,
            positional,
            before,
            size,
            fewer,
        );
        let count = served.len() as int;
        assert(served =~= rows.take(count));
        lemma_next_page(
            backend,
            rows,
            fields,
            cursor_of,
            literals,
            positional,
            before,
            size,
            count,
        );
        if count + size <= rows.len() {
            assert(rows.take(count) + rows.subrange(count, count + size) =~= rows.take(
                count + size,
            ));
        } else {
            assert(rows.take(count) + rows.skip(count) =~= rows);
        }
    }
}

/// The page behind the first `count` rows serves those that follow them.
proof fn lemma_next_page(
    backend: Backend,
    rows: Seq<Seq<ValueView>>,
    fields: Seq<FieldView>,
    cursor_of: spec_fn(Seq<ValueView>) -> Seq<CursorValueView>,
    literals: Seq<ValueView>,
    positional: bool,
    before: spec_fn(int, ValueView, ValueView) -> bool,
    size: nat,
    count: int,
)
    requires
        asymmetric(before),
        strictly_ordered(rows, crate::cursor::directions(fields), before),
        cursors_match(backend, rows, fields, cursor_of),
        fields.len() > 0,
        0 <= count <= rows.len(),
    ensures
        page(
            backend,
            rows,
            fields,
            resume_from(rows.take(count), cursor_of),
            literals,
            positional,
            before,
            size,
        ) == (if count + size <= rows.len() {
            rows.subrange(count, count + size)
        } else {
            rows.skip(count)
        }),
{
    let served = rows.take(count);
    let cursor = resume_from(served, cursor_of);
    let select = |row: Seq<ValueView>|
        selected(backend, row, fields, cursor, literals, positional, before);
    assert forall|i: int| 0 <= i < rows.len() implies select(#[trigger] rows[i]) == (i
        >= count) by {
        if count > 0 {
            assert(served.last() == rows[count - 1]);
            law_a_page_resumes_behind_its_cursor(
                backend,
                rows,
                fields,
                cursor,
                literals,
                positional,
                before,
                count - 1,
                i,
            );
        }
    }
    lemma_filter_keeps_tail(rows, select, count);
    if count + size < rows.len() {
        assert(rows.skip(count).take(size as int) =~= rows.subrange(count, count + size));
    } else if count + size == rows.len() {
        assert(rows.skip(count) =~= rows.subrange(count, count + size));
    }
}

/// Filtering by what is true from an index on keeps the tail from there.
proof fn lemma_filter_keeps_tail(
    rows: Seq<Seq<ValueView>>,
    select: spec_fn(Seq<ValueView>) -> bool,
    first: int,
)
    requires
        0 <= first <= rows.len(),
        forall|i: int| 0 <= i < rows.len() ==> select(#[trigger] rows[i]) == (i >= first),
    ensures
        rows.filter(select) == rows.skip(first),
    decreases rows.len(),
{
    reveal(Seq::filter);
    if rows.len() > 0 {
        let shorter = rows.drop_last();
        let last = rows.len() - 1;
        assert(select(rows[last]) == (last >= first));
        if first <= last {
            assert forall|i: int| 0 <= i < shorter.len() implies select(#[trigger] shorter[i]) == (i
                >= first) by {
                assert(shorter[i] == rows[i]);
            }
            lemma_filter_keeps_tail(shorter, select, first);
            assert(rows.skip(first) =~= shorter.skip(first).push(rows[last]));
        } else {
            assert forall|i: int| 0 <= i < shorter.len() implies select(#[trigger] shorter[i]) == (i
                >= shorter.len()) by {
                assert(shorter[i] == rows[i]);
            }
            lemma_filter_keeps_tail(shorter, select, shorter.len() as int);
            assert(rows.filter(select) =~= Seq::<Seq<ValueView>>::empty());
        }
    } else {
        assert(rows.filter(select) =~= rows.skip(first));
    }
}

/// What a rewritten query says and binds: its `WHERE` clause joins the filter
/// to the predicate, and under its bind values the predicate is true of a row
/// exactly where the ordering puts the row behind the cursor's. So the rows that
/// it serves are those of [`selected`].
pub proof fn law_where_clause_resumes_behind_the_cursor<D: Dialect>(
    backend: Backend,
    filter: Option<Result<FilterView, FilterErrorView>>,
    fields: Seq<FieldView>,
    cursor: Seq<CursorValueView>,
    entries: Seq<(Seq<char>, Seq<char>)>,
    dialect: D,
    fragment: FragmentView,
    row: Seq<ValueView>,
    before: spec_fn(int, ValueView, ValueView) -> bool,
)
    requires
        cursor.len() > 0,
        crate::query::outcome(backend, filter, fields, cursor, entries, dialect) == Ok::<
            FragmentView,
            ErrorView,
        >(fragment),
    ensures
        ({
            let descending = crate::cursor::directions(fields);
            let clauses = crate::keyset::predicate(
                descending,
                crate::dialect::positional(dialect),
                1int + crate::query::filter_literals(filter).len(),
            );
            let columns = crate::columns::mapped_fields(
                entries,
                fields,
                crate::error::Dimension::Cursor,
            )->Ok_0;
            let keys = crate::cursor::bound_fields(backend, fields, cursor)->Ok_0;
            &&& fragment.where_sql == crate::query::joined_predicates(
                match filter {
                    Some(Ok(filter)) => Some(filter.sql),
                    _ => None,
                },
                Some(
                    crate::keyset::predicate_text(
                        clauses,
                        crate::cursor::quoted_columns(columns, dialect),
                        dialect,
                    ),
                ),
            )
            &&& predicate_holds(clauses, row, fragment.values, before) == comes_after(
                descending,
                row,
                keys,
                before,
                0,
            )
            &&& predicate_holds(clauses, row, fragment.values, before) == selected(
                backend,
                row,
                fields,
                cursor,
                crate::query::filter_literals(filter),
                crate::dialect::positional(dialect),
                before,
            )
        }),
{
    let positional = crate::dialect::positional(dialect);
    let keys = crate::cursor::bound_fields(backend, fields, cursor)->Ok_0;
    lemma_bound_count(backend, fields, cursor);
    crate::keyset::lemma_bind_count(keys, positional);
    law_predicate_is_the_tuple_comparison(
        crate::cursor::directions(fields),
        row,
        keys,
        fragment.values,
        before,
        positional,
        1int + crate::query::filter_literals(filter).len(),
    );
}

/// Whether a rewritten query serves a row that its filter matches. Without a
/// cursor it does. With one, its `WHERE` clause has to be the filter joined to
/// the key-set predicate, and the predicate has to be true of the row under the
/// query's bind values.
pub open spec fn fragment_selects<D: Dialect>(
    fragment: FragmentView,
    filter: Option<Result<FilterView, FilterErrorView>>,
    fields: Seq<FieldView>,
    cursor: Seq<CursorValueView>,
    entries: Seq<(Seq<char>, Seq<char>)>,
    dialect: D,
    row: Seq<ValueView>,
    before: spec_fn(int, ValueView, ValueView) -> bool,
) -> bool {
    let clauses = crate::keyset::predicate(
        crate::cursor::directions(fields),
        crate::dialect::positional(dialect),
        1int + crate::query::filter_literals(filter).len(),
    );
    let columns = crate::columns::mapped_fields(
        entries,
        fields,
        crate::error::Dimension::Cursor,
    )->Ok_0;
    cursor.len() == 0 || {
        &&& fragment.where_sql == crate::query::joined_predicates(
            match filter {
                Some(Ok(filter)) => Some(filter.sql),
                _ => None,
            },
            Some(
                crate::keyset::predicate_text(
                    clauses,
                    crate::cursor::quoted_columns(columns, dialect),
                    dialect,
                ),
            ),
        )
        &&& predicate_holds(clauses, row, fragment.values, before)
    }
}

/// The page that a query with `cursor` in its token serves of `rows`, the rows
/// that its filter matches: the first `size` that its fragments select, and none
/// where it cannot be rewritten.
pub open spec fn fragment_page<D: Dialect>(
    backend: Backend,
    rows: Seq<Seq<ValueView>>,
    filter: Option<Result<FilterView, FilterErrorView>>,
    fields: Seq<FieldView>,
    cursor: Seq<CursorValueView>,
    entries: Seq<(Seq<char>, Seq<char>)>,
    dialect: D,
    before: spec_fn(int, ValueView, ValueView) -> bool,
    size: nat,
) -> Seq<Seq<ValueView>> {
    match crate::query::outcome(backend, filter, fields, cursor, entries, dialect) {
        Err(_) => Seq::empty(),
        Ok(fragment) => {
            let remaining = rows.filter(
                |row: Seq<ValueView>|
                    fragment_selects(
                        fragment,
                        filter,
                        fields,
                        cursor,
                        entries,
                        dialect,
                        row,
                        before,
                    ),
            );
            if remaining.len() <= size {
                remaining
            } else {
                remaining.take(size as int)
            }
        },
    }
}

/// The rows that the first `pages` queries of a walk serve, one after another,
/// where each query's token carries the cursor of the last row served.
pub open spec fn fragment_walk<D: Dialect>(
    backend: Backend,
    rows: Seq<Seq<ValueView>>,
    filter: Option<Result<FilterView, FilterErrorView>>,
    fields: Seq<FieldView>,
    cursor_of: spec_fn(Seq<ValueView>) -> Seq<CursorValueView>,
    entries: Seq<(Seq<char>, Seq<char>)>,
    dialect: D,
    before: spec_fn(int, ValueView, ValueView) -> bool,
    size: nat,
    pages: nat,
) -> Seq<Seq<ValueView>>
    decreases pages,
{
    if pages == 0 {
        Seq::empty()
    } else {
        let served = fragment_walk(
            backend,
            rows,
            filter,
            fields,
            cursor_of,
            entries,
            dialect,
            before,
            size,
            (pages - 1) as nat,
        );
        served + fragment_page(
            backend,
            rows,
            filter,
            fields,
            resume_from(served, cursor_of),
            entries,
            dialect,
            before,
            size,
        )
    }
}

/// Whether a query over `fields` can be rewritten, as far as its token does not
/// decide: its filter is transpiled, and all its fields are mapped.
pub open spec fn rewritable(
    filter: Option<Result<FilterView, FilterErrorView>>,
    fields: Seq<FieldView>,
    entries: Seq<(Seq<char>, Seq<char>)>,
) -> bool {
    &&& !(filter matches Some(Err(_)))
    &&& forall|i: int|
        0 <= i < fields.len() ==> crate::columns::lookup(
            entries,
            (#[trigger] fields[i]).path,
        ) is Some
}

/// Rewriting a query, serving the rows that its fragments select, and going on
/// from the last of them serves every row once and in order. Every query of the
/// walk is rewritten, and each orders by the ordering's own terms, over the columns
/// that its predicate compares. The first `pages` pages serve the first
/// `pages * size` rows, or all of them where there are fewer. The page behind them
/// is empty exactly where all rows are served, so a walk up to an empty page serves
/// them all.
pub proof fn law_fragments_serve_every_row_once<D: Dialect>(
    backend: Backend,
    rows: Seq<Seq<ValueView>>,
    filter: Option<Result<FilterView, FilterErrorView>>,
    fields: Seq<FieldView>,
    cursor_of: spec_fn(Seq<ValueView>) -> Seq<CursorValueView>,
    entries: Seq<(Seq<char>, Seq<char>)>,
    dialect: D,
    before: spec_fn(int, ValueView, ValueView) -> bool,
    size: nat,
    pages: nat,
)
    requires
        asymmetric(before),
        strictly_ordered(rows, crate::cursor::directions(fields), before),
        cursors_match(backend, rows, fields, cursor_of),
        rewritable(filter, fields, entries),
        fields.len() > 0,
        size > 0,
    ensures
        ({
            let served = fragment_walk(
                backend,
                rows,
                filter,
                fields,
                cursor_of,
                entries,
                dialect,
                before,
                size,
                pages,
            );
            let cursor = resume_from(served, cursor_of);
            let next = fragment_page(
                backend,
                rows,
                filter,
                fields,
                cursor,
                entries,
                dialect,
                before,
                size,
            );
            let columns = crate::columns::mapped_fields(
                entries,
                fields,
                crate::error::Dimension::OrderBy,
            )->Ok_0;
            &&& crate::query::outcome(
                backend,
                filter,
                fields,
                cursor,
                entries,
                dialect,
            ) matches Ok(fragment)
            &&& fragment.order_sql == Some(
                crate::text::joined(
                    crate::order::term_texts(fields, columns, dialect),
                    ", "@,
                ),
            )
            &&& crate::columns::mapped_fields(
                entries,
                fields,
                crate::error::Dimension::Cursor,
            ) == Ok::<Seq<Seq<char>>, ErrorView>(columns)
            &&& served == (if pages * size <= rows.len() {
                rows.take((pages * size) as int)
            } else {
                rows
            })
            &&& next.len() == 0 <==> pages * size >= rows.len()
            &&& next.len() == 0 ==> served == rows
        }),
{
    let literals = crate::query::filter_literals(filter);
    let positional = crate::dialect::positional(dialect);
    lemma_fragments_walk(
        backend,
        rows,
        filter,
        fields,
        cursor_of,
        entries,
        dialect,
        before,
        size,
        pages,
    );
    lemma_last_page_is_empty(
        backend,
        rows,
        fields,
        cursor_of,
        literals,
        positional,
        before,
        size,
        pages,
    );
    let served = walk(backend, rows, fields, cursor_of, literals, positional, before, size, pages);
    lemma_rewritten_ordering(
        backend,
        filter,
        fields,
        resume_from(served, cursor_of),
        entries,
        dialect,
    );
}

/// The page behind a walk is empty exactly where the walk has served every row.
proof fn lemma_last_page_is_empty(
    backend: Backend,
    rows: Seq<Seq<ValueView>>,
    fields: Seq<FieldView>,
    cursor_of: spec_fn(Seq<ValueView>) -> Seq<CursorValueView>,
    literals: Seq<ValueView>,
    positional: bool,
    before: spec_fn(int, ValueView, ValueView) -> bool,
    size: nat,
    pages: nat,
)
    requires
        asymmetric(before),
        strictly_ordered(rows, crate::cursor::directions(fields), before),
        cursors_match(backend, rows, fields, cursor_of),
        fields.len() > 0,
        size > 0,
    ensures
        ({
            let served = walk(
                backend,
                rows,
                fields,
                cursor_of,
                literals,
                positional,
                before,
                size,
                pages,
            );
            let next = page(
                backend,
                rows,
                fields,
                resume_from(served, cursor_of),
                literals,
                positional,
                before,
                size,
            );
            &&& served == (if pages * size <= rows.len() {
                rows.take((pages * size) as int)
            } else {
                rows
            })
            &&& next.len() == 0 <==> pages * size >= rows.len()
            &&& next.len() == 0 ==> served == rows
        }),
{
    law_pages_serve_every_row_once(
        backend,
        rows,
        fields,
        cursor_of,
        literals,
        positional,
        before,
        size,
        pages,
    );
    law_pages_serve_every_row_once(
        backend,
        rows,
        fields,
        cursor_of,
        literals,
        positional,
        before,
        size,
        pages + 1,
    );
    assert((pages + 1) * size == pages * size + size) by (nonlinear_arith);
    let served = walk(backend, rows, fields, cursor_of, literals, positional, before, size, pages);
    let next = page(
        backend,
        rows,
        fields,
        resume_from(served, cursor_of),
        literals,
        positional,
        before,
        size,
    );
    let longer = walk(
        backend,
        rows,
        fields,
        cursor_of,
        literals,
        positional,
        before,
        size,
        pages + 1,
    );
    assert(longer == served + next);
    assert(longer.len() == served.len() + next.len());
    if pages * size == rows.len() {
        assert(rows.take(rows.len() as int) =~= rows);
    }
}

/// A rewritten query orders by the columns that its predicate compares.
proof fn lemma_rewritten_ordering<D: Dialect>(
    backend: Backend,
    filter: Option<Result<FilterView, FilterErrorView>>,
    fields: Seq<FieldView>,
    cursor: Seq<CursorValueView>,
    entries: Seq<(Seq<char>, Seq<char>)>,
    dialect: D,
)
    requires
        rewritable(filter, fields, entries),
        fields.len() > 0,
        crate::query::outcome(backend, filter, fields, cursor, entries, dialect) is Ok,
    ensures
        ({
            let columns = crate::columns::mapped_fields(
                entries,
                fields,
                crate::error::Dimension::OrderBy,
            )->Ok_0;
            &&& crate::query::outcome(
                backend,
                filter,
                fields,
                cursor,
                entries,
                dialect,
            )->Ok_0.order_sql == Some(
                crate::text::joined(
                    crate::order::term_texts(fields, columns, dialect),
                    ", "@,
                ),
            )
            &&& crate::columns::mapped_fields(
                entries,
                fields,
                crate::error::Dimension::Cursor,
            ) == Ok::<Seq<Seq<char>>, ErrorView>(columns)
        }),
{
    crate::columns::lemma_all_mapped(entries, fields, crate::error::Dimension::OrderBy);
    crate::columns::lemma_columns_agree(
        entries,
        fields,
        crate::error::Dimension::OrderBy,
        crate::error::Dimension::Cursor,
    );
}

/// A walk by fragments is a walk by what their predicates select.
proof fn lemma_fragments_walk<D: Dialect>(
    backend: Backend,
    rows: Seq<Seq<ValueView>>,
    filter: Option<Result<FilterView, FilterErrorView>>,
    fields: Seq<FieldView>,
    cursor_of: spec_fn(Seq<ValueView>) -> Seq<CursorValueView>,
    entries: Seq<(Seq<char>, Seq<char>)>,
    dialect: D,
    before: spec_fn(int, ValueView, ValueView) -> bool,
    size: nat,
    pages: nat,
)
    requires
        asymmetric(before),
        strictly_ordered(rows, crate::cursor::directions(fields), before),
        cursors_match(backend, rows, fields, cursor_of),
        rewritable(filter, fields, entries),
        fields.len() > 0,
    ensures
        ({
            let literals = crate::query::filter_literals(filter);
            let positional = crate::dialect::positional(dialect);
            let served = walk(
                backend,
                rows,
                fields,
                cursor_of,
                literals,
                positional,
                before,
                size,
                pages,
            );
            let cursor = resume_from(served, cursor_of);
            &&& crate::query::outcome(backend, filter, fields, cursor, entries, dialect) is Ok
            &&& fragment_walk(
                backend,
                rows,
                filter,
                fields,
                cursor_of,
                entries,
                dialect,
                before,
                size,
                pages,
            ) == served
            &&& fragment_page(
                backend,
                rows,
                filter,
                fields,
                cursor,
                entries,
                dialect,
                before,
                size,
            ) == page(backend, rows, fields, cursor, literals, positional, before, size)
        }),
    decreases pages,
{
    let literals = crate::query::filter_literals(filter);
    let positional = crate::dialect::positional(dialect);
    if pages > 0 {
        lemma_fragments_walk(
            backend,
            rows,
            filter,
            fields,
            cursor_of,
            entries,
            dialect,
            before,
            size,
            (pages - 1) as nat,
        );
    }
    law_pages_serve_every_row_once(
        backend,
        rows,
        fields,
        cursor_of,
        literals,
        positional,
        before,
        size,
        pages,
    );
    let served = walk(backend, rows, fields, cursor_of, literals, positional, before, size, pages);
    let cursor = resume_from(served, cursor_of);
    crate::columns::lemma_all_mapped(entries, fields, crate::error::Dimension::Cursor);
    crate::columns::lemma_all_mapped(entries, fields, crate::error::Dimension::OrderBy);
    if served.len() > 0 {
        let last = served.len() - 1;
        assert(served[last] == rows[last]);
    }
    let outcome = crate::query::outcome(backend, filter, fields, cursor, entries, dialect);
    assert(outcome is Ok);
    let fragment = outcome->Ok_0;
    let by_fragment = |row: Seq<ValueView>|
        fragment_selects(fragment, filter, fields, cursor, entries, dialect, row, before);
    let by_predicate = |row: Seq<ValueView>|
        selected(backend, row, fields, cursor, literals, positional, before);
    assert forall|row: Seq<ValueView>| #[trigger] by_fragment(row) == by_predicate(row) by {
        if cursor.len() > 0 {
            law_where_clause_resumes_behind_the_cursor(
                backend,
                filter,
                fields,
                cursor,
                entries,
                dialect,
                fragment,
                row,
                before,
            );
        }
    }
    assert(by_fragment =~= by_predicate);
}

} // verus!
