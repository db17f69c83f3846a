//! A whole `List` request, and the SQL fragments it rewrites to.

use vstd::prelude::*;
use vstd::string::*;

use crate::columns::Columns;
use crate::dialect::Dialect;
use crate::error::{Dimension, Error, ErrorView, FilterError, FilterErrorView};
use crate::instant::Backend;
use crate::request::{CursorValueView, FieldView, OrderBy, PageToken};
use crate::text::texts_equal;
use crate::value::{copy_values, values_equal, Value, ValueView};
use crate::{cursor, order};

verus! {

/// What a transpiler makes of a filter: a predicate, numbered from the first
/// placeholder on, and its bind values.
#[derive(Debug, Clone, PartialEq)]
pub struct FilterFragment {
    /// The predicate.
    pub sql: String,
    /// The literals of the filter, in the order they must be bound.
    pub values: Vec<Value>,
}

/// What a [`FilterFragment`] holds, as a mathematical value.
pub struct FilterView {
    /// The predicate.
    pub sql: Seq<char>,
    /// The literals of the filter, in the order they must be bound.
    pub values: Seq<ValueView>,
}

impl View for FilterFragment {
    type V = FilterView;

    open spec fn view(&self) -> FilterView {
        FilterView { sql: self.sql@, values: crate::value::value_views(self.values@) }
    }
}

/// The parsed query dimensions of a `List` request, plus the column map that
/// resolves their paths.
///
/// `order_by` is the *effective* ordering: whatever the client asked for, plus
/// the unique tiebreaker that the caller appends. Without one, rows that share
/// the leading sort key have no defined order between pages.
#[derive(Debug)]
pub struct Query<'a> {
    /// What the transpiler made of the AIP-160 `filter`, for the dialect that
    /// the query is rewritten to, or [`None`] when the request carried none.
    pub filter: Option<Result<FilterFragment, FilterError>>,
    /// The effective AIP-132 ordering.
    pub order_by: OrderBy,
    /// The decoded AIP-158 page token. Only its cursor is read.
    pub page_token: PageToken,
    /// The fail-closed map from AIP paths to database columns.
    pub columns: Columns<'a>,
}

/// The SQL fragments and bind values a [`Query`] rewrites to.
#[derive(Debug, Clone)]
pub struct QueryFragment {
    /// The `WHERE` predicate: the filter, the cursor, or the two `AND`ed,
    /// without the `WHERE` keyword. [`None`] when there is neither.
    pub where_sql: Option<String>,
    /// The comma-separated ordering terms, without the `ORDER BY` prefix.
    /// [`None`] when the ordering has no fields.
    pub order_sql: Option<String>,
    /// The bind values, in the order they must be bound: the filter's literals
    /// first, then the cursor's. The caller's own follow them.
    pub values: Vec<Value>,
}

/// What a [`QueryFragment`] holds, as a mathematical value.
pub struct FragmentView {
    /// The `WHERE` predicate.
    pub where_sql: Option<Seq<char>>,
    /// The ordering terms.
    pub order_sql: Option<Seq<char>>,
    /// The bind values.
    pub values: Seq<ValueView>,
}

impl View for QueryFragment {
    type V = FragmentView;

    open spec fn view(&self) -> FragmentView {
        FragmentView {
            where_sql: crate::text::text_view(self.where_sql),
            order_sql: crate::text::text_view(self.order_sql),
            values: crate::value::value_views(self.values@),
        }
    }
}

impl PartialEq for QueryFragment {
    fn eq(&self, other: &QueryFragment) -> (equal: bool) {
        texts_equal(&self.where_sql, &other.where_sql) && texts_equal(
            &self.order_sql,
            &other.order_sql,
        ) && values_equal(&self.values, &other.values)
    }
}

impl vstd::std_specs::cmp::PartialEqSpecImpl for QueryFragment {
    open spec fn obeys_eq_spec() -> bool {
        true
    }

    open spec fn eq_spec(&self, other: &QueryFragment) -> bool {
        &&& self@.where_sql == other@.where_sql
        &&& self@.order_sql == other@.order_sql
        &&& crate::value::same_values(self@.values, other@.values)
    }
}

/// A filter and a cursor predicate as one. The filter is parenthesised where
/// the two are joined, because it may be a bare `OR`.
pub open spec fn joined_predicates(filter: Option<Seq<char>>, cursor: Option<Seq<char>>) -> Option<
    Seq<char>,
> {
    match (filter, cursor) {
        (Some(filter), Some(cursor)) => Some("("@ + filter + ") AND "@ + cursor),
        (Some(filter), None) => Some(filter),
        (None, cursor) => cursor,
    }
}

/// What [`Query::rewrite_by`] gives once the filter is transpiled: its bind values
/// come first, and the cursor's are numbered after them.
pub open spec fn outcome_with<D: Dialect>(
    backend: Backend,
    filter_sql: Option<Seq<char>>,
    filter_values: Seq<ValueView>,
    fields: Seq<FieldView>,
    cursor: Seq<CursorValueView>,
    entries: Seq<(Seq<char>, Seq<char>)>,
    dialect: D,
) -> Result<FragmentView, ErrorView> {
    match crate::cursor::outcome(
        backend,
        fields,
        cursor,
        entries,
        dialect,
        1int + filter_values.len(),
    ) {
        Err(error) => Err(error),
        Ok((cursor_sql, cursor_values)) => match crate::order::outcome(fields, entries, dialect) {
            Err(error) => Err(error),
            Ok(order_sql) => Ok(
                FragmentView {
                    where_sql: joined_predicates(filter_sql, cursor_sql),
                    order_sql,
                    values: filter_values + cursor_values,
                },
            ),
        },
    }
}

/// What [`Query::rewrite_by`] gives. An error of the filter comes before any of
/// the cursor, and one of the cursor before any of the ordering.
pub open spec fn outcome<D: Dialect>(
    backend: Backend,
    filter: Option<Result<FilterView, FilterErrorView>>,
    fields: Seq<FieldView>,
    cursor: Seq<CursorValueView>,
    entries: Seq<(Seq<char>, Seq<char>)>,
    dialect: D,
) -> Result<FragmentView, ErrorView> {
    match filter {
        Some(Err(error)) => Err(error.lifted()),
        Some(Ok(filter)) => outcome_with(
            backend,
            Some(filter.sql),
            filter.values,
            fields,
            cursor,
            entries,
            dialect,
        ),
        None => outcome_with(backend, None, Seq::empty(), fields, cursor, entries, dialect),
    }
}

/// What a transpiled filter holds, as a mathematical value.
pub open spec fn filter_view(filter: Option<Result<FilterFragment, FilterError>>) -> Option<
    Result<FilterView, FilterErrorView>,
> {
    match filter {
        Some(Ok(fragment)) => Some(Ok(fragment@)),
        Some(Err(error)) => Some(Err(error@)),
        None => None,
    }
}

/// What a result of [`Query::rewrite_by`] holds, as a mathematical value.
pub open spec fn outcome_view(rewritten: Result<QueryFragment, Error>) -> Result<
    FragmentView,
    ErrorView,
> {
    match rewritten {
        Ok(fragment) => Ok(fragment@),
        Err(error) => Err(error@),
    }
}

/// The bind values of a filter.
pub open spec fn filter_literals(filter: Option<Result<FilterView, FilterErrorView>>) -> Seq<
    ValueView,
> {
    match filter {
        Some(Ok(filter)) => filter.values,
        _ => Seq::empty(),
    }
}

impl<'a> Query<'a> {
    /// Whether the bind values can be counted: the ordinals of the filter's and
    /// the cursor's fit in a `usize`.
    pub open spec fn binds_fit(&self, positional: bool) -> bool {
        let filter = filter_literals(filter_view(self.filter)).len();
        &&& filter < usize::MAX
        &&& crate::cursor::slots_fit(
            self.order_by@.len(),
            self.page_token.cursor@.len(),
            positional,
            1int + filter,
        )
    }

    /// Says whether the bind values can be counted. They cannot only where the
    /// statement would need more of them than a `usize` holds.
    pub fn countable<D: Dialect>(&self, dialect: &D) -> (countable: bool)
        ensures
            countable == self.binds_fit(crate::dialect::positional(*dialect)),
    {
        let filter: usize = match &self.filter {
            Some(Ok(fragment)) => fragment.values.len(),
            _ => 0,
        };
        filter < usize::MAX && cursor::countable(
            self.order_by.fields.len(),
            self.page_token.cursor.len(),
            cursor::is_positional(dialect),
            1 + filter,
        )
    }

    /// What [`rewrite_by`](Query::rewrite_by) gives.
    pub open spec fn outcome<D: Dialect>(&self, backend: Backend, dialect: D) -> Result<
        FragmentView,
        ErrorView,
    > {
        outcome(
            backend,
            filter_view(self.filter),
            self.order_by@,
            crate::request::cursor_views(self.page_token.cursor@),
            self.columns@,
            dialect,
        )
    }

    /// Whether machine limits let the query be rewritten: there is an ordinal
    /// after the filter's literals, and where the rewrite succeeds, its bind values
    /// can be counted.
    pub open spec fn within_limits<D: Dialect>(&self, backend: Backend, dialect: D) -> bool {
        &&& filter_literals(filter_view(self.filter)).len() < usize::MAX
        &&& self.outcome(backend, dialect) is Ok ==> self.binds_fit(
            crate::dialect::positional(dialect),
        )
    }

    /// Rewrites the query into SQL fragments in `dialect`'s flavour, with
    /// `chrono` as the date-time backend.
    pub fn rewrite<D: Dialect>(&self, dialect: D) -> (rewritten: Result<QueryFragment, Error>)
        requires
            self.within_limits(Backend::Chrono, dialect),
        ensures
            outcome_view(rewritten) == self.outcome(Backend::Chrono, dialect),
    {
        self.rewrite_by(Backend::Chrono, dialect)
    }

    /// Rewrites the query into SQL fragments in `dialect`'s flavour.
    ///
    /// The composition order is fixed, because the bind order depends on it: the
    /// filter comes first, the cursor predicate is numbered after the filter's
    /// literals, and the value vectors are concatenated to match.
    pub fn rewrite_by<D: Dialect>(&self, backend: Backend, dialect: D) -> (rewritten: Result<
        QueryFragment,
        Error,
    >)
        requires
            self.within_limits(backend, dialect),
        ensures
            outcome_view(rewritten) == self.outcome(backend, dialect),
    {
        let (filter_sql, mut values): (Option<String>, Vec<Value>) = match &self.filter {
            Some(Ok(fragment)) => (Some(fragment.sql.clone()), copy_values(&fragment.values)),
            Some(Err(error)) => {
                return Err(Error::from(error.clone()));
            },
            None => (None, Vec::new()),
        };
        let ghost filter_values = crate::value::value_views(values@);
        let ghost filter_text = crate::text::text_view(filter_sql);
        proof {
            if self.filter is None {
                assert(filter_values =~= Seq::<ValueView>::empty());
            }
            assert(filter_values.len() == values@.len());
        }
        proof {
            let columns = crate::columns::mapped_fields(
                self.columns@,
                self.order_by@,
                Dimension::Cursor,
            );
            if columns is Ok {
                crate::columns::lemma_columns_agree(
                    self.columns@,
                    self.order_by@,
                    Dimension::Cursor,
                    Dimension::OrderBy,
                );
            }
        }
        let (cursor_sql, mut cursor_values) = match cursor::rewrite_by(
            backend,
            &self.order_by,
            self.page_token.cursor.as_slice(),
            self.columns,
            &dialect,
            1 + values.len(),
        ) {
            Ok(rewritten) => rewritten,
            Err(error) => {
                return Err(error);
            },
        };
        let ghost cursor_view = crate::value::value_views(cursor_values@);
        values.append(&mut cursor_values);
        assert(crate::value::value_views(values@) =~= filter_values + cursor_view);
        let order_sql = match order::rewrite(&self.order_by, self.columns, &dialect) {
            Ok(order_sql) => order_sql,
            Err(error) => {
                return Err(error);
            },
        };
        let where_sql = match (filter_sql, cursor_sql) {
            (Some(filter), Some(cursor)) => {
                let mut sql = "(".to_owned();
                sql.append(filter.as_str());
                sql.append(") AND ");
                sql.append(cursor.as_str());
                Some(sql)
            },
            (Some(filter), None) => Some(filter),
            (None, Some(cursor)) => Some(cursor),
            (None, None) => None,
        };
        Ok(QueryFragment { where_sql, order_sql, values })
    }
}

} // verus!
