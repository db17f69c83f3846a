//! How the SQL of a fragment reads, and when it is true of a row.
//!
//! Each piece of SQL is written down once, with its text and its truth side by
//! side, so that what a fragment says can be held against what it does.

use vstd::prelude::*;

use crate::dialect::Dialect;
use crate::value::ValueView;

verus! {

/// A test of one column of a row: the column, a sign, and a placeholder.
pub struct Test {
    /// Which of the row's columns is tested, from zero.
    pub field: int,
    /// The sign between the column and the placeholder.
    pub sign: char,
    /// Which bind value the placeholder stands for, from one over the whole
    /// statement.
    pub slot: int,
}

/// How a test reads, where `columns` are the columns as the dialect quotes them.
pub open spec fn test_text<D: Dialect>(test: Test, columns: Seq<Seq<char>>, dialect: D) -> Seq<
    char,
> {
    columns[test.field] + seq![' ', test.sign, ' '] + dialect.placeholder_text(test.slot)
}

/// When a test is true of `row`: `<` where the database sorts the column's value
/// before the bind value, `>` where it sorts it behind, and `=` where it does
/// neither. `before(field, a, b)` says that `a` sorts before `b` in the column of
/// `field`.
pub open spec fn test_holds(
    test: Test,
    row: Seq<ValueView>,
    binds: Seq<ValueView>,
    before: spec_fn(int, ValueView, ValueView) -> bool,
) -> bool {
    let less = before(test.field, row[test.field], binds[test.slot - 1]);
    let greater = before(test.field, binds[test.slot - 1], row[test.field]);
    ||| test.sign == '<' && less
    ||| test.sign == '>' && greater
    ||| test.sign == '=' && !less && !greater
}

/// How tests read that must all be true.
pub open spec fn all_text<D: Dialect>(
    tests: Seq<Test>,
    columns: Seq<Seq<char>>,
    dialect: D,
) -> Seq<char>
    decreases tests.len(),
{
    if tests.len() == 0 {
        Seq::empty()
    } else if tests.len() == 1 {
        test_text(tests[0], columns, dialect)
    } else {
        test_text(tests[0], columns, dialect) + " AND "@ + all_text(
            tests.drop_first(),
            columns,
            dialect,
        )
    }
}

/// When all of `tests` are true of `row`.
pub open spec fn all_hold(
    tests: Seq<Test>,
    row: Seq<ValueView>,
    binds: Seq<ValueView>,
    before: spec_fn(int, ValueView, ValueView) -> bool,
) -> bool {
    forall|i: int| 0 <= i < tests.len() ==> test_holds(#[trigger] tests[i], row, binds, before)
}

/// How alternatives read of which one must be true, each in parentheses.
pub open spec fn any_text<D: Dialect>(
    alternatives: Seq<Seq<Test>>,
    columns: Seq<Seq<char>>,
    dialect: D,
) -> Seq<char>
    decreases alternatives.len(),
{
    if alternatives.len() == 0 {
        Seq::empty()
    } else {
        let first = "("@ + all_text(alternatives[0], columns, dialect) + ")"@;
        if alternatives.len() == 1 {
            first
        } else {
            first + " OR "@ + any_text(alternatives.drop_first(), columns, dialect)
        }
    }
}

/// When one of `alternatives` is true of `row`.
pub open spec fn any_holds(
    alternatives: Seq<Seq<Test>>,
    row: Seq<ValueView>,
    binds: Seq<ValueView>,
    before: spec_fn(int, ValueView, ValueView) -> bool,
) -> bool {
    exists|i: int|
        0 <= i < alternatives.len() && all_hold(#[trigger] alternatives[i], row, binds, before)
}

/// How a `WHERE` clause reads that asks for a filter, where there is one, and for
/// one of `alternatives`.
pub open spec fn where_text<D: Dialect>(
    filter: Option<Seq<char>>,
    alternatives: Seq<Seq<Test>>,
    columns: Seq<Seq<char>>,
    dialect: D,
) -> Seq<char> {
    let predicate = "("@ + any_text(alternatives, columns, dialect) + ")"@;
    match filter {
        Some(filter) => "("@ + filter + ")"@ + " AND "@ + predicate,
        None => predicate,
    }
}

/// When such a `WHERE` clause is true of `row`, where `matches_filter` says
/// whether the filter is.
pub open spec fn where_holds(
    matches_filter: bool,
    alternatives: Seq<Seq<Test>>,
    row: Seq<ValueView>,
    binds: Seq<ValueView>,
    before: spec_fn(int, ValueView, ValueView) -> bool,
) -> bool {
    matches_filter && any_holds(alternatives, row, binds, before)
}

/// A term of an `ORDER BY` list: a column, and the keyword behind it.
pub struct Term {
    /// Which of the row's columns is sorted by, from zero.
    pub field: int,
    /// The keyword.
    pub keyword: Seq<char>,
}

/// How an `ORDER BY` list reads, where `columns` are the columns as the dialect
/// quotes them.
pub open spec fn terms_text(terms: Seq<Term>, columns: Seq<Seq<char>>) -> Seq<char>
    decreases terms.len(),
{
    if terms.len() == 0 {
        Seq::empty()
    } else {
        let first = columns[terms[0].field] + " "@ + terms[0].keyword;
        if terms.len() == 1 {
            first
        } else {
            first + ", "@ + terms_text(terms.drop_first(), columns)
        }
    }
}

/// When an `ORDER BY` list puts `later` strictly behind `earlier`: the first term
/// that tells the two apart decides, upwards for `ASC` and downwards for `DESC`.
pub open spec fn terms_sort_behind(
    terms: Seq<Term>,
    later: Seq<ValueView>,
    earlier: Seq<ValueView>,
    before: spec_fn(int, ValueView, ValueView) -> bool,
) -> bool
    decreases terms.len(),
{
    if terms.len() == 0 {
        false
    } else {
        let field = terms[0].field;
        let upwards = before(field, earlier[field], later[field]);
        let downwards = before(field, later[field], earlier[field]);
        if !upwards && !downwards {
            terms_sort_behind(terms.drop_first(), later, earlier, before)
        } else {
            ||| terms[0].keyword == "ASC"@ && upwards
            ||| terms[0].keyword == "DESC"@ && downwards
        }
    }
}

} // verus!
