//! The `ORDER BY` list and the column map.

use sqlx_aip::order::rewrite;
use sqlx_aip::{Columns, Dialect, Dimension, Error, OrderBy, OrderByField};

struct Postgres;

impl Dialect for Postgres {
    fn placeholder(&self, index: usize) -> String {
        format!("${index}")
    }
    fn quote_ident(&self, column: &str) -> String {
        quote(column, '"')
    }
}

/// Quotes each segment of a dotted column name.
fn quote(column: &str, mark: char) -> String {
    column
        .split('.')
        .map(|segment| format!("{mark}{segment}{mark}"))
        .collect::<Vec<String>>()
        .join(".")
}

/// Reads an ordering such as `title, create_time desc`.
fn order_by(spec: &str) -> OrderBy {
    OrderBy {
        fields: spec
            .split(',')
            .map(str::trim)
            .filter(|term| !term.is_empty())
            .map(|term| OrderByField {
                path: term.split(' ').next().unwrap().to_owned(),
                desc: term.ends_with(" desc"),
            })
            .collect(),
    }
}

const ENTRIES: &[(&str, &str)] = &[
    ("title", "volumes.title"),
    ("create_time", "volumes.created_at"),
    ("rank", "rank"),
];

fn sql(spec: &str) -> Option<String> {
    rewrite(&order_by(spec), Columns::new(ENTRIES), &Postgres).unwrap()
}

#[test]
fn maps_paths_to_columns_and_directions() {
    assert_eq!(
        sql("title, create_time desc").as_deref(),
        Some(r#""volumes"."title" ASC, "volumes"."created_at" DESC"#),
    );
}

/// `asc` is the default and is emitted explicitly, so the term reads the same
/// whether or not the client wrote it.
#[test]
fn an_unwritten_direction_is_still_ascending() {
    assert_eq!(sql("rank").as_deref(), Some(r#""rank" ASC"#));
    assert_eq!(sql("rank asc").as_deref(), Some(r#""rank" ASC"#));
}

/// The empty ordering is the server's choice, not an error -- the caller omits
/// the `ORDER BY` keyword.
#[test]
fn no_fields_is_no_clause() {
    assert_eq!(sql(""), None);
}

#[test]
fn a_path_outside_the_column_map_fails() {
    assert_eq!(
        rewrite(&order_by("shoe_size"), Columns::new(ENTRIES), &Postgres).unwrap_err(),
        Error::UnknownField {
            dimension: Dimension::OrderBy,
            path: "shoe_size".to_owned(),
        },
    );
}

#[test]
fn the_first_unmapped_path_is_reported() {
    assert_eq!(
        rewrite(
            &order_by("rank, hat_size, shoe_size"),
            Columns::new(ENTRIES),
            &Postgres
        ),
        Err(Error::UnknownField {
            dimension: Dimension::OrderBy,
            path: "hat_size".to_owned(),
        }),
    );
}

/// Paths that map to the same column give the same text.
#[test]
fn the_text_depends_on_columns_alone() {
    let entries = [("title", "t"), ("display_name", "t")];
    let columns = Columns::new(&entries);
    assert_eq!(
        rewrite(&order_by("title desc"), columns, &Postgres),
        rewrite(&order_by("display_name desc"), columns, &Postgres),
    );
}

#[test]
fn the_map_gives_the_column_of_the_whole_path() {
    let columns = Columns::new(ENTRIES);
    assert_eq!(columns.get("title"), Some("volumes.title"));
    assert_eq!(columns.get("rank"), Some("rank"));
    assert_eq!(columns.get("Title"), None);
    assert_eq!(columns.get("titl"), None);
    assert_eq!(columns.get("titles"), None);
    assert_eq!(columns.get("volumes.title"), None);
    assert_eq!(columns.get(""), None);
    assert_eq!(Columns::default().get("title"), None);
}

#[test]
fn the_first_of_two_entries_counts() {
    let entries = [("a", "first"), ("b", "other"), ("a", "second")];
    assert_eq!(Columns::new(&entries).get("a"), Some("first"));
}

#[test]
fn a_path_resolves_in_the_dimension_it_came_from() {
    let columns = Columns::new(ENTRIES);
    assert_eq!(sqlx_aip::columns::column(columns, "rank", Dimension::Cursor), Ok("rank"));
    assert_eq!(
        sqlx_aip::columns::column(columns, "notes", Dimension::Filter),
        Err(Error::UnknownField {
            dimension: Dimension::Filter,
            path: "notes".to_owned(),
        }),
    );
}
