//! Walks over a small table, page by page, with the predicates evaluated.

use sqlx_aip::{
    Columns, CursorValue, Dialect, OrderBy, OrderByField, PageToken, Query, QueryFragment, Value,
};

struct Postgres;

impl Dialect for Postgres {
    fn placeholder(&self, index: usize) -> String {
        format!("${index}")
    }
    fn quote_ident(&self, column: &str) -> String {
        quote(column, '"')
    }
}

struct Sqlite;

impl Dialect for Sqlite {
    fn placeholder(&self, _index: usize) -> String {
        "?".to_owned()
    }
    fn quote_ident(&self, column: &str) -> String {
        quote(column, '"')
    }
}

/// Quotes each segment of a dotted column name.
fn quote(column: &str, mark: char) -> String {
    column
        .split('.')
        .map(|segment| format!("{mark}{segment}{mark}"))
        .collect::<Vec<String>>()
        .join(".")
}

/// Reads an ordering such as `title, create_time desc`.
fn order_by(spec: &str) -> OrderBy {
    OrderBy {
        fields: spec
            .split(',')
            .map(str::trim)
            .filter(|term| !term.is_empty())
            .map(|term| OrderByField {
                path: term.split(' ').next().unwrap().to_owned(),
                desc: term.ends_with(" desc"),
            })
            .collect(),
    }
}

const ENTRIES: &[(&str, &str)] = &[("name", "id"), ("title", "title")];

/// Eight rows over three distinct titles. The duplicates are the point: an
/// ordering of `title` alone cannot page these, and `title, name` can.
const ROWS: [(i64, &str); 8] = [
    (1, "Dune"),
    (2, "Dune"),
    (3, "Dune"),
    (4, "Emma"),
    (5, "Emma"),
    (6, "Ubik"),
    (7, "Ubik"),
    (8, "Ubik"),
];

fn column(row: &(i64, &str), name: &str) -> Value {
    match name {
        r#""id""# => Value::Int(row.0),
        r#""title""# => Value::Text(row.1.to_owned()),
        other => panic!("unexpected column {other}"),
    }
}

fn less(left: &Value, right: &Value) -> bool {
    match (left, right) {
        (Value::Int(left), Value::Int(right)) => left < right,
        (Value::Text(left), Value::Text(right)) => left < right,
        other => panic!("not comparable: {other:?}"),
    }
}

/// Evaluates a key-set predicate: `((a > $1) OR (a = $1 AND b > $2))`.
fn holds(sql: &str, values: &[Value], row: &(i64, &str)) -> bool {
    let inner = sql.strip_prefix("((").unwrap().strip_suffix("))").unwrap();
    let mut next = 0;
    let mut any = false;
    for clause in inner.split(") OR (") {
        let mut all = true;
        for comparison in clause.split(" AND ") {
            let parts: Vec<&str> = comparison.split(' ').collect();
            let bind = match parts[2].strip_prefix('$') {
                Some(number) => number.parse::<usize>().unwrap() - 1,
                None => next,
            };
            next += 1;
            let (left, right) = (column(row, parts[0]), &values[bind]);
            all &= match parts[1] {
                "=" => left == *right,
                "<" => less(&left, right),
                ">" => less(right, &left),
                other => panic!("unexpected operator {other}"),
            };
        }
        any |= all;
    }
    any
}

/// The table in the order that an `ORDER BY` list asks for.
fn sorted(order_sql: &str) -> Vec<(i64, &'static str)> {
    let mut rows = ROWS.to_vec();
    rows.sort_by(|left, right| {
        for term in order_sql.split(", ") {
            let (name, direction) = term.split_once(' ').unwrap();
            let (left, right) = (column(left, name), column(right, name));
            if left != right {
                return if less(&left, &right) == (direction == "ASC") {
                    std::cmp::Ordering::Less
                } else {
                    std::cmp::Ordering::Greater
                };
            }
        }
        std::cmp::Ordering::Equal
    });
    rows
}

fn page(fragment: QueryFragment, page_size: usize) -> Vec<(i64, &'static str)> {
    sorted(&fragment.order_sql.unwrap())
        .into_iter()
        .filter(|row| match &fragment.where_sql {
            Some(sql) => holds(sql, &fragment.values, row),
            None => true,
        })
        .take(page_size)
        .collect()
}

/// Walks every page and returns the ids in the order they were served.
fn walk(spec: &str, positional: bool, page_size: usize) -> Vec<i64> {
    let mut page_token = PageToken::default();
    let mut seen = Vec::new();
    loop {
        let query = Query {
            filter: None,
            order_by: order_by(spec),
            page_token: page_token.clone(),
            columns: Columns::new(ENTRIES),
        };
        let fragment = if positional {
            query.rewrite(Sqlite)
        } else {
            query.rewrite(Postgres)
        };
        let rows = page(fragment.unwrap(), page_size);
        let Some(last) = rows.last() else {
            return seen;
        };
        page_token.cursor = order_by(spec)
            .fields
            .iter()
            .map(|field| match field.path.as_str() {
                "name" => CursorValue::Int(last.0),
                _ => CursorValue::String(last.1.to_owned()),
            })
            .collect();
        seen.extend(rows.iter().map(|row| row.0));
    }
}

#[test]
fn a_walk_over_a_non_unique_column_serves_every_row_once() {
    for page_size in 1..10 {
        for positional in [false, true] {
            assert_eq!(
                walk("title, name", positional, page_size),
                vec![1, 2, 3, 4, 5, 6, 7, 8],
            );
        }
    }
}

#[test]
fn a_walk_over_a_descending_column_serves_every_row_once() {
    for page_size in 1..10 {
        for positional in [false, true] {
            assert_eq!(
                walk("title desc, name", positional, page_size),
                vec![6, 7, 8, 4, 5, 1, 2, 3],
            );
            assert_eq!(
                walk("title desc, name desc", positional, page_size),
                vec![8, 7, 6, 5, 4, 3, 2, 1],
            );
        }
    }
}

/// Each page is ordered by the same terms, wherever its cursor stands.
#[test]
fn every_page_is_ordered_alike() {
    for cursor in [
        Vec::new(),
        vec![
            CursorValue::String("Dune".to_owned()),
            CursorValue::Int(3),
        ],
        vec![
            CursorValue::String("Ubik".to_owned()),
            CursorValue::Int(8),
        ],
    ] {
        let query = Query {
            filter: None,
            order_by: order_by("title desc, name"),
            page_token: PageToken { cursor, offset: 0 },
            columns: Columns::new(ENTRIES),
        };
        assert_eq!(
            query.rewrite(Postgres).unwrap().order_sql.as_deref(),
            Some(r#""title" DESC, "id" ASC"#),
        );
    }
}
