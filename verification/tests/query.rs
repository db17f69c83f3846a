//! Whole queries.

use sqlx_aip::{
    Backend, Columns, CursorValue, Dialect, Dimension, Error, FilterError, FilterFragment, OrderBy,
    OrderByField, PageToken, Query, Rejection, Value,
};

struct Postgres;

impl Dialect for Postgres {
    fn placeholder(&self, index: usize) -> String {
        format!("${index}")
    }
    fn quote_ident(&self, column: &str) -> String {
        quote(column, '"')
    }
}

struct Sqlite;

impl Dialect for Sqlite {
    fn placeholder(&self, _index: usize) -> String {
        "?".to_owned()
    }
    fn quote_ident(&self, column: &str) -> String {
        quote(column, '"')
    }
}

/// Quotes each segment of a dotted column name.
fn quote(column: &str, mark: char) -> String {
    column
        .split('.')
        .map(|segment| format!("{mark}{segment}{mark}"))
        .collect::<Vec<String>>()
        .join(".")
}

/// Reads an ordering such as `title, create_time desc`.
fn order_by(spec: &str) -> OrderBy {
    OrderBy {
        fields: spec
            .split(',')
            .map(str::trim)
            .filter(|term| !term.is_empty())
            .map(|term| OrderByField {
                path: term.split(' ').next().unwrap().to_owned(),
                desc: term.ends_with(" desc"),
            })
            .collect(),
    }
}

const ENTRIES: &[(&str, &str)] = &[
    ("title", "volumes.title"),
    ("read_count", "volumes.read_count"),
    ("name", "volumes.id"),
];

fn transpiled(sql: &str, values: Vec<Value>) -> Option<Result<FilterFragment, FilterError>> {
    Some(Ok(FilterFragment {
        sql: sql.to_owned(),
        values,
    }))
}

fn query(
    filter: Option<Result<FilterFragment, FilterError>>,
    spec: &str,
    cursor: Vec<CursorValue>,
) -> Query<'static> {
    Query {
        filter,
        order_by: order_by(spec),
        page_token: PageToken {
            cursor,
            ..PageToken::default()
        },
        columns: Columns::new(ENTRIES),
    }
}

#[test]
fn no_filter_and_no_cursor_is_no_where_clause() {
    let fragment = query(None, "title", Vec::new()).rewrite(Postgres).unwrap();
    assert_eq!(fragment.where_sql, None);
    assert_eq!(
        fragment.order_sql.as_deref(),
        Some(r#""volumes"."title" ASC"#)
    );
    assert_eq!(fragment.values, Vec::new());
}

#[test]
fn a_filter_alone_is_not_parenthesised() {
    // read_count > 3
    let filter = transpiled(r#""volumes"."read_count" > $1"#, vec![Value::Int(3)]);
    let fragment = query(filter, "", Vec::new()).rewrite(Postgres).unwrap();
    assert_eq!(
        fragment.where_sql.as_deref(),
        Some(r#""volumes"."read_count" > $1"#),
    );
    assert_eq!(fragment.order_sql, None);
    assert_eq!(fragment.values, vec![Value::Int(3)]);
}

/// The reason for the parentheses: a top-level `OR` would otherwise bind looser
/// than the `AND` joining it to the cursor, and widen the page to rows before
/// it.
#[test]
fn a_filter_is_parenthesised_before_the_cursor_is_anded_on() {
    // read_count > 3 || title == "Dune"
    let filter = transpiled(
        r#"("volumes"."read_count" > $1 OR "volumes"."title" = $2)"#,
        vec![Value::Int(3), Value::Text("Dune".to_owned())],
    );
    let fragment = query(filter, "name", vec![CursorValue::Int(7)])
        .rewrite(Postgres)
        .unwrap();
    let expected = [
        r#"(("volumes"."read_count" > $1 OR "volumes"."title" = $2))"#,
        r#" AND (("volumes"."id" > $3))"#,
    ]
    .join("");
    assert_eq!(fragment.where_sql, Some(expected));
}

/// The composition order is the contract: the filter's literals are bound first
/// and the cursor's follow, in exactly that order in `values`.
#[test]
fn the_cursors_placeholders_follow_the_filters() {
    // read_count > 3 && title != "Dune"
    let filter = transpiled(
        r#"("volumes"."read_count" > $1 AND "volumes"."title" != $2)"#,
        vec![Value::Int(3), Value::Text("Dune".to_owned())],
    );
    let fragment = query(
        filter,
        "title, name",
        vec![CursorValue::String("Emma".to_owned()), CursorValue::Int(7)],
    )
    .rewrite(Postgres)
    .unwrap();
    let expected = [
        r#"(("volumes"."read_count" > $1 AND "volumes"."title" != $2))"#,
        r#" AND (("volumes"."title" > $3)"#,
        r#" OR ("volumes"."title" = $3 AND "volumes"."id" > $4))"#,
    ]
    .join("");
    assert_eq!(fragment.where_sql, Some(expected));
    assert_eq!(
        fragment.values,
        vec![
            Value::Int(3),
            Value::Text("Dune".to_owned()),
            Value::Text("Emma".to_owned()),
            Value::Int(7),
        ],
    );
}

/// The same query on a positional dialect: identical value *order*, but the
/// cursor's repeat because a `?` cannot point back at an earlier bind.
#[test]
fn a_positional_dialect_keeps_bind_order_and_repeats_what_it_must() {
    // read_count > 3 && title != "Dune"
    let filter = transpiled(
        r#"("volumes"."read_count" > ? AND "volumes"."title" != ?)"#,
        vec![Value::Int(3), Value::Text("Dune".to_owned())],
    );
    let fragment = query(
        filter,
        "title, name",
        vec![CursorValue::String("Emma".to_owned()), CursorValue::Int(7)],
    )
    .rewrite(Sqlite)
    .unwrap();
    let expected = [
        r#"(("volumes"."read_count" > ? AND "volumes"."title" != ?))"#,
        r#" AND (("volumes"."title" > ?)"#,
        r#" OR ("volumes"."title" = ? AND "volumes"."id" > ?))"#,
    ]
    .join("");
    assert_eq!(fragment.where_sql, Some(expected));
    assert_eq!(
        fragment.values,
        vec![
            Value::Int(3),
            Value::Text("Dune".to_owned()),
            Value::Text("Emma".to_owned()),
            Value::Text("Emma".to_owned()),
            Value::Int(7),
        ],
    );
}

#[test]
fn a_cursor_alone_is_the_whole_where_clause() {
    let fragment = query(None, "name", vec![CursorValue::Int(7)])
        .rewrite(Postgres)
        .unwrap();
    assert_eq!(
        fragment.where_sql.as_deref(),
        Some(r#"(("volumes"."id" > $1))"#),
    );
    assert_eq!(fragment.values, vec![Value::Int(7)]);
}

/// The column map governs the filter too, and its miss is the same variant the
/// ordering's is.
#[test]
fn an_unmapped_filter_path_never_reaches_sql() {
    // internal_notes == "secret"
    let filter = Some(Err(FilterError::UnknownField {
        path: "internal_notes".to_owned(),
    }));
    let error = query(filter, "", Vec::new()).rewrite(Postgres).unwrap_err();
    assert_eq!(
        error,
        Error::UnknownField {
            dimension: Dimension::Filter,
            path: "internal_notes".to_owned(),
        },
    );
}

/// Anything else that the transpiler rejects arrives wrapped, source intact.
#[test]
fn an_untranslatable_filter_is_wrapped() {
    // read_count + 1 > 3
    let rejection = Rejection {
        message: "unsupported operator: +".to_owned(),
    };
    let filter = Some(Err(FilterError::Rejected(rejection.clone())));
    let error = query(filter, "", Vec::new()).rewrite(Postgres).unwrap_err();
    assert!(matches!(error, Error::Filter(_)), "{error:?}");
    assert_eq!(error.source(), Some(&rejection));
}

/// The offset belongs to the caller's `OFFSET` clause, and must not leak into
/// the predicate or the values.
#[test]
fn the_tokens_offset_is_not_consulted() {
    let mut query = query(None, "name", Vec::new());
    query.page_token.offset = 250;
    let fragment = query.rewrite(Postgres).unwrap();
    assert_eq!(fragment.where_sql, None);
    assert_eq!(fragment.values, Vec::new());
}

#[test]
fn a_cursor_issued_under_a_different_ordering_is_rejected() {
    let error = query(None, "title, name", vec![CursorValue::Int(7)])
        .rewrite(Postgres)
        .unwrap_err();
    assert_eq!(
        error,
        Error::CursorArity {
            fields: 2,
            values: 1
        },
    );
}

/// An empty ordering is legitimate on its own, but there is nothing for a
/// cursor to resume from.
#[test]
fn an_empty_ordering_cannot_carry_a_cursor() {
    let error = query(None, "", vec![CursorValue::Int(7)])
        .rewrite(Postgres)
        .unwrap_err();
    assert_eq!(
        error,
        Error::CursorArity {
            fields: 0,
            values: 1
        },
    );
}

/// An empty map rejects everything, which is what fail-closed means.
#[test]
fn an_empty_column_map_rejects_every_ordering() {
    let query = Query {
        filter: None,
        order_by: order_by("title"),
        page_token: PageToken::default(),
        columns: Columns::default(),
    };
    assert!(query.rewrite(Postgres).is_err());
}

/// The filter's error comes before the cursor's, and the cursor's before the
/// ordering's.
#[test]
fn errors_come_in_composition_order() {
    let rejection = Rejection {
        message: "no".to_owned(),
    };
    assert_eq!(
        query(
            Some(Err(FilterError::Rejected(rejection.clone()))),
            "shoe_size",
            vec![CursorValue::Null, CursorValue::Null],
        )
        .rewrite(Postgres),
        Err(Error::Filter(rejection)),
    );
    assert_eq!(
        query(None, "shoe_size", vec![CursorValue::Int(1)]).rewrite(Postgres),
        Err(Error::UnknownField {
            dimension: Dimension::Cursor,
            path: "shoe_size".to_owned(),
        }),
    );
    assert_eq!(
        query(None, "shoe_size", Vec::new()).rewrite(Postgres),
        Err(Error::UnknownField {
            dimension: Dimension::OrderBy,
            path: "shoe_size".to_owned(),
        }),
    );
}

/// An ordering ending in the primary key, the values it documents.
#[test]
fn an_ordering_ends_in_its_tiebreaker() {
    let filter = transpiled(r#""volumes"."read_count" > $1"#, vec![Value::Int(3)]);
    let fragment = query(filter, "title, name", Vec::new())
        .rewrite(Postgres)
        .unwrap();
    assert_eq!(
        fragment.where_sql.as_deref(),
        Some(r#""volumes"."read_count" > $1"#)
    );
    assert_eq!(
        fragment.order_sql.as_deref(),
        Some(r#""volumes"."title" ASC, "volumes"."id" ASC"#),
    );
}

/// Any query of ordinary size can be rewritten.
#[test]
fn an_ordinary_query_is_countable() {
    let filter = transpiled(r#""volumes"."read_count" > ?"#, vec![Value::Int(3)]);
    let query = query(
        filter,
        "title, name",
        vec![CursorValue::String("Emma".to_owned()), CursorValue::Int(7)],
    );
    assert!(query.countable(&Postgres));
    assert!(query.countable(&Sqlite));
}

/// Paths that map to the same columns rewrite to the same fragments.
#[test]
fn fragments_depend_on_columns_alone() {
    let entries = [("title", "t"), ("display_name", "t")];
    let fragments = ["title desc", "display_name desc"].map(|spec| {
        Query {
            filter: None,
            order_by: order_by(spec),
            page_token: PageToken {
                cursor: vec![CursorValue::Uint(9)],
                offset: 0,
            },
            columns: Columns::new(&entries),
        }
        .rewrite(Postgres)
    });
    assert_eq!(fragments[0], fragments[1]);
    let fragment = fragments[0].clone().unwrap();
    assert_eq!(fragment.where_sql.as_deref(), Some(r#"(("t" < $1))"#));
    assert_eq!(fragment.order_sql.as_deref(), Some(r#""t" DESC"#));
    assert_eq!(fragment.values, vec![Value::Uint(9)]);
}

/// The whole rewrite follows the backend.
#[test]
fn a_query_is_rewritten_by_its_backend() {
    let entries = [("create_time", "created_at")];
    let query = Query {
        filter: None,
        order_by: order_by("create_time"),
        page_token: PageToken {
            cursor: vec![CursorValue::Timestamp {
                seconds: 253_402_300_800,
                nanos: 0,
            }],
            offset: 0,
        },
        columns: Columns::new(&entries),
    };
    assert_eq!(
        query.rewrite_by(Backend::Time, Postgres),
        Err(Error::CursorTimestamp {
            path: "create_time".to_owned(),
            seconds: 253_402_300_800,
        }),
    );
    assert_eq!(
        query.rewrite_by(Backend::Chrono, Postgres),
        query.rewrite(Postgres),
    );
    assert!(query.rewrite(Postgres).is_ok());
}

/// Cursors of one length give the same text and as many values.
#[test]
fn fragments_hold_no_cursor_values() {
    let fragments = ["Dune", "'; DROP TABLE volumes"].map(|title| {
        let cursor = vec![CursorValue::String(title.to_owned()), CursorValue::Int(7)];
        query(None, "title, name", cursor).rewrite(Sqlite).unwrap()
    });
    assert_eq!(fragments[0].where_sql, fragments[1].where_sql);
    assert_eq!(fragments[0].order_sql, fragments[1].order_sql);
    assert_eq!(fragments[0].values.len(), fragments[1].values.len());
    assert_ne!(fragments[0], fragments[1]);
}

/// Fragments are equal where their texts and values are.
#[test]
fn fragments_compare_by_what_they_hold() {
    let fragment = |bits| {
        query(None, "name", vec![CursorValue::Float { bits }])
            .rewrite(Postgres)
            .unwrap()
    };
    assert_eq!(fragment(0.0f64.to_bits()), fragment((-0.0f64).to_bits()));
    assert_ne!(fragment(0.0f64.to_bits()), fragment(1.0f64.to_bits()));
    assert_ne!(fragment(f64::NAN.to_bits()), fragment(f64::NAN.to_bits()));
    let mut other = fragment(0);
    other.order_sql = None;
    assert_ne!(fragment(0), other);
}
