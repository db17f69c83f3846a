//! The key-set predicate, its bind values and its errors.

use sqlx_aip::cursor::{
    bind, bind_by, countable, is_positional, microseconds, rewrite, rewrite_by, timestamp,
    timestamp_by_time,
};
use sqlx_aip::{
    Backend, Columns, CursorValue, Dialect, Dimension, Error, OrderBy, OrderByField, Value,
};

struct Postgres;

impl Dialect for Postgres {
    fn placeholder(&self, index: usize) -> String {
        format!("${index}")
    }
    fn quote_ident(&self, column: &str) -> String {
        quote(column, '"')
    }
}

struct Sqlite;

impl Dialect for Sqlite {
    fn placeholder(&self, _index: usize) -> String {
        "?".to_owned()
    }
    fn quote_ident(&self, column: &str) -> String {
        quote(column, '"')
    }
}

struct MySql;

impl Dialect for MySql {
    fn placeholder(&self, _index: usize) -> String {
        "?".to_owned()
    }
    fn quote_ident(&self, column: &str) -> String {
        quote(column, '`')
    }
}

/// SQLite's *other* placeholder form. `?1` is positional in syntax but still
/// addressable, so a bind can be referenced twice and the values must not
/// repeat -- the case a "does it look like `?`" test would get wrong.
struct NumberedSqlite;

impl Dialect for NumberedSqlite {
    fn placeholder(&self, index: usize) -> String {
        format!("?{index}")
    }
    fn quote_ident(&self, column: &str) -> String {
        quote(column, '"')
    }
}

/// Quotes each segment of a dotted column name.
fn quote(column: &str, mark: char) -> String {
    column
        .split('.')
        .map(|segment| format!("{mark}{segment}{mark}"))
        .collect::<Vec<String>>()
        .join(".")
}

/// Reads an ordering such as `title, create_time desc`.
fn order_by(spec: &str) -> OrderBy {
    OrderBy {
        fields: spec
            .split(',')
            .map(str::trim)
            .filter(|term| !term.is_empty())
            .map(|term| OrderByField {
                path: term.split(' ').next().unwrap().to_owned(),
                desc: term.ends_with(" desc"),
            })
            .collect(),
    }
}

const ENTRIES: &[(&str, &str)] = &[
    ("title", "volumes.title"),
    ("create_time", "volumes.created_at"),
    ("id", "volumes.id"),
];

fn field(path: &str) -> OrderByField {
    OrderByField {
        path: path.to_owned(),
        desc: false,
    }
}

/// The one-field case keeps both sets of parentheses -- the per-clause pair and
/// the wrapper around the `OR` chain.
#[test]
fn a_single_ascending_field_is_one_comparison() {
    let (sql, values) = rewrite(
        &order_by("id"),
        &[CursorValue::Int(7)],
        Columns::new(ENTRIES),
        &Postgres,
        1,
    )
    .unwrap();
    assert_eq!(sql.as_deref(), Some(r#"(("volumes"."id" > $1))"#));
    assert_eq!(values, vec![Value::Int(7)]);
}

/// An equality prefix per clause, and an operator that follows each field's own
/// direction.
#[test]
fn each_field_carries_its_own_direction() {
    let (sql, values) = rewrite(
        &order_by("title, create_time desc, id"),
        &[
            CursorValue::String("Dune".to_owned()),
            CursorValue::Timestamp {
                seconds: 1_700_000_000,
                nanos: 0,
            },
            CursorValue::Int(7),
        ],
        Columns::new(ENTRIES),
        &Postgres,
        1,
    )
    .unwrap();
    let expected = [
        r#"(("volumes"."title" > $1)"#,
        r#" OR ("volumes"."title" = $1 AND "volumes"."created_at" < $2)"#,
        r#" OR ("volumes"."title" = $1 AND "volumes"."created_at" = $2"#,
        r#" AND "volumes"."id" > $3))"#,
    ]
    .join("");
    assert_eq!(sql, Some(expected));
    assert_eq!(values.len(), 3);
    assert_eq!(values[0], Value::Text("Dune".to_owned()));
}

/// A positional dialect cannot point back at an earlier bind, so every `?` gets
/// its own.
#[test]
fn a_positional_dialect_repeats_the_values_its_placeholders_cannot_share() {
    let cursor = [CursorValue::String("Dune".to_owned()), CursorValue::Int(7)];
    let (sql, values) = rewrite(
        &order_by("title, id"),
        &cursor,
        Columns::new(ENTRIES),
        &Sqlite,
        1,
    )
    .unwrap();
    let expected = [
        r#"(("volumes"."title" > ?)"#,
        r#" OR ("volumes"."title" = ? AND "volumes"."id" > ?))"#,
    ]
    .join("");
    assert_eq!(sql, Some(expected));
    // Three placeholders, so three values -- the title twice, in the order the
    // `?`s consume them.
    assert_eq!(
        values,
        vec![
            Value::Text("Dune".to_owned()),
            Value::Text("Dune".to_owned()),
            Value::Int(7),
        ],
    );

    // MySQL is positional too, and differs only in how it quotes.
    let (sql, mysql_values) = rewrite(
        &order_by("title, id"),
        &cursor,
        Columns::new(ENTRIES),
        &MySql,
        1,
    )
    .unwrap();
    assert_eq!(
        sql.as_deref(),
        Some("((`volumes`.`title` > ?) OR (`volumes`.`title` = ? AND `volumes`.`id` > ?))"),
    );
    assert_eq!(mysql_values, values);
}

/// A dialect can be positional in syntax and still addressable.
#[test]
fn a_numbered_dialect_is_not_treated_as_positional_just_for_using_a_question_mark() {
    let (sql, values) = rewrite(
        &order_by("title, id"),
        &[CursorValue::String("Dune".to_owned()), CursorValue::Int(7)],
        Columns::new(ENTRIES),
        &NumberedSqlite,
        1,
    )
    .unwrap();
    let expected = [
        r#"(("volumes"."title" > ?1)"#,
        r#" OR ("volumes"."title" = ?1 AND "volumes"."id" > ?2))"#,
    ]
    .join("");
    assert_eq!(sql, Some(expected));
    // Two, not three: `?1` names the same bind in both clauses.
    assert_eq!(values, vec![Value::Text("Dune".to_owned()), Value::Int(7)]);
}

#[test]
fn placeholders_are_classified_by_how_they_are_written() {
    assert!(is_positional(&Sqlite));
    assert!(is_positional(&MySql));
    assert!(!is_positional(&Postgres));
    assert!(!is_positional(&NumberedSqlite));
}

/// The filter's literals are bound first, so the cursor's placeholders start
/// after them.
#[test]
fn placeholders_start_at_the_offset() {
    let (sql, _) = rewrite(
        &order_by("title, id"),
        &[CursorValue::String("Dune".to_owned()), CursorValue::Int(7)],
        Columns::new(ENTRIES),
        &Postgres,
        4,
    )
    .unwrap();
    let expected = [
        r#"(("volumes"."title" > $4)"#,
        r#" OR ("volumes"."title" = $4 AND "volumes"."id" > $5))"#,
    ]
    .join("");
    assert_eq!(sql, Some(expected));
}

#[test]
fn an_empty_cursor_is_the_first_page() {
    assert_eq!(
        rewrite(
            &order_by("title"),
            &[],
            Columns::new(ENTRIES),
            &Postgres,
            1
        )
        .unwrap(),
        (None, Vec::new()),
    );
    // Even with no ordering at all: nothing to resume from is not a mismatch.
    assert_eq!(
        rewrite(
            &OrderBy::default(),
            &[],
            Columns::new(ENTRIES),
            &Postgres,
            1
        )
        .unwrap(),
        (None, Vec::new()),
    );
}

/// The first page does not even look at the ordering's paths.
#[test]
fn an_empty_cursor_accepts_an_unmapped_ordering() {
    assert_eq!(
        rewrite(
            &order_by("shoe_size"),
            &[],
            Columns::default(),
            &Postgres,
            1
        ),
        Ok((None, Vec::new())),
    );
}

#[test]
fn a_cursor_of_the_wrong_length_is_rejected() {
    for (spec, cursor, fields, values) in [
        ("title, id", vec![CursorValue::Int(7)], 2, 1),
        (
            "title",
            vec![CursorValue::Int(7), CursorValue::Int(8)],
            1,
            2,
        ),
        ("", vec![CursorValue::Int(7)], 0, 1),
    ] {
        assert_eq!(
            rewrite(
                &order_by(spec),
                &cursor,
                Columns::new(ENTRIES),
                &Postgres,
                1
            )
            .unwrap_err(),
            Error::CursorArity { fields, values },
            "for order_by {spec:?}",
        );
    }
}

#[test]
fn a_null_cursor_value_is_rejected_rather_than_bound() {
    assert_eq!(
        rewrite(
            &order_by("title, id"),
            &[CursorValue::String("Dune".to_owned()), CursorValue::Null],
            Columns::new(ENTRIES),
            &Postgres,
            1,
        )
        .unwrap_err(),
        Error::NullCursorValue {
            path: "id".to_owned()
        },
    );
}

#[test]
fn a_path_outside_the_column_map_fails_as_the_cursor_dimension() {
    assert_eq!(
        rewrite(
            &order_by("shoe_size"),
            &[CursorValue::Int(7)],
            Columns::new(ENTRIES),
            &Postgres,
            1,
        )
        .unwrap_err(),
        Error::UnknownField {
            dimension: Dimension::Cursor,
            path: "shoe_size".to_owned(),
        },
    );
}

/// The arity comes before the paths, the paths before the values, and among
/// each the first in the ordering.
#[test]
fn the_first_error_is_reported() {
    let columns = Columns::new(ENTRIES);
    assert_eq!(
        rewrite(
            &order_by("shoe_size, id"),
            &[CursorValue::Null],
            columns,
            &Postgres,
            1
        ),
        Err(Error::CursorArity {
            fields: 2,
            values: 1
        }),
    );
    assert_eq!(
        rewrite(
            &order_by("id, hat_size, shoe_size"),
            &[CursorValue::Null, CursorValue::Null, CursorValue::Null],
            columns,
            &Postgres,
            1
        ),
        Err(Error::UnknownField {
            dimension: Dimension::Cursor,
            path: "hat_size".to_owned(),
        }),
    );
    assert_eq!(
        rewrite(
            &order_by("title, create_time, id"),
            &[
                CursorValue::Int(1),
                CursorValue::Timestamp {
                    seconds: 5,
                    nanos: -1
                },
                CursorValue::Null
            ],
            columns,
            &Postgres,
            1
        ),
        Err(Error::CursorTimestamp {
            path: "create_time".to_owned(),
            seconds: 5,
        }),
    );
}

/// Signed, and rounded half away from zero.
#[test]
fn a_duration_narrows_to_signed_microseconds() {
    assert_eq!(microseconds(1_500), 2);
    assert_eq!(microseconds(-1_500), -2);
    assert_eq!(microseconds(1_499), 1);
    assert_eq!(microseconds(-1_499), -1);
    assert_eq!(microseconds(0), 0);
    assert_eq!(microseconds(-90 * 60 * 1_000_000_000), -90 * 60 * 1_000_000);
    // The widening is what keeps the extremes from overflowing.
    assert_eq!(microseconds(i64::MAX), (i64::MAX / 1_000) + 1);
    assert_eq!(microseconds(i64::MIN), (i64::MIN / 1_000) - 1);
}

#[test]
fn every_non_null_variant_maps_to_a_value() {
    let cursor = vec![
        CursorValue::Bool(true),
        CursorValue::String("Dune".to_owned()),
        CursorValue::Bytes(vec![1, 2, 3]),
        CursorValue::Int(-7),
        CursorValue::Uint(7),
        CursorValue::Float {
            bits: 1.5f64.to_bits(),
        },
        CursorValue::Timestamp {
            seconds: 1_700_000_000,
            nanos: 500,
        },
        CursorValue::Duration { nanos: -1_500 },
    ];
    let entries = [
        ("a", "a"),
        ("b", "b"),
        ("c", "c"),
        ("d", "d"),
        ("e", "e"),
        ("f", "f"),
        ("g", "g"),
        ("h", "h"),
    ];
    let (_, values) = rewrite(
        &order_by("a, b, c, d, e, f, g, h"),
        &cursor,
        Columns::new(&entries),
        &Postgres,
        1,
    )
    .unwrap();

    assert_eq!(values[0], Value::Bool(true));
    assert_eq!(values[1], Value::Text("Dune".to_owned()));
    assert_eq!(values[2], Value::Bytes(vec![1, 2, 3]));
    assert_eq!(values[3], Value::Int(-7));
    assert_eq!(values[4], Value::Uint(7));
    assert_eq!(
        values[5],
        Value::Float {
            bits: 1.5f64.to_bits()
        }
    );
    assert_eq!(
        values[6],
        Value::Timestamp {
            seconds: 1_700_000_000,
            nanos: 500
        }
    );
    assert_eq!(values[7], Value::Duration(-2));
}

/// Page tokens are client-supplied, so an absurd timestamp is reachable and
/// must not panic.
#[test]
fn a_timestamp_outside_the_backend_range_is_an_error() {
    let error = rewrite(
        &order_by("create_time"),
        &[CursorValue::Timestamp {
            seconds: i64::MAX,
            nanos: 0,
        }],
        Columns::new(ENTRIES),
        &Postgres,
        1,
    )
    .unwrap_err();
    assert_eq!(
        error,
        Error::CursorTimestamp {
            path: "create_time".to_owned(),
            seconds: i64::MAX,
        },
    );
}

#[test]
fn a_null_has_no_bind_value() {
    assert_eq!(
        bind(&field("rank"), &CursorValue::Null),
        Err(Error::NullCursorValue {
            path: "rank".to_owned()
        }),
    );
}

/// The first and the last second of `chrono`'s range, and one beyond each.
#[test]
fn a_chrono_timestamp_is_bounded() {
    let field = field("t");
    for seconds in [-8_334_601_228_800, 0, 8_210_266_876_799] {
        assert_eq!(
            timestamp(&field, seconds, 999_999_999),
            Ok(Value::Timestamp {
                seconds,
                nanos: 999_999_999
            }),
        );
    }
    for seconds in [i64::MIN, -8_334_601_228_801, 8_210_266_876_800, i64::MAX] {
        assert_eq!(
            timestamp(&field, seconds, 0),
            Err(Error::CursorTimestamp {
                path: "t".to_owned(),
                seconds
            }),
        );
    }
}

/// A billion nanoseconds and more are a leap second, at the end of a minute.
#[test]
fn a_chrono_timestamp_can_be_a_leap_second() {
    let field = field("t");
    for seconds in [59, -1, -61, 8_210_266_876_799] {
        assert_eq!(
            timestamp(&field, seconds, 1_999_999_999),
            Ok(Value::Timestamp {
                seconds,
                nanos: 1_999_999_999
            }),
        );
    }
    for (seconds, nanos) in [
        (58, 1_000_000_000),
        (-2, 1_000_000_000),
        (59, 2_000_000_000),
        (0, -1),
        (59, i32::MIN),
    ] {
        assert_eq!(
            timestamp(&field, seconds, nanos),
            Err(Error::CursorTimestamp {
                path: "t".to_owned(),
                seconds
            }),
        );
    }
}

/// The first and the last second of `time`'s range, and one beyond each.
#[test]
fn a_time_timestamp_is_bounded() {
    let field = field("t");
    for seconds in [-377_705_116_800, -1, 0, 253_402_300_799] {
        assert_eq!(
            timestamp_by_time(&field, seconds, 999_999_999),
            Ok(Value::Timestamp {
                seconds,
                nanos: 999_999_999
            }),
        );
    }
    for (seconds, nanos) in [
        (i64::MIN, 0),
        (-377_705_116_801, 0),
        (253_402_300_800, 0),
        (253_402_300_799, 1_000_000_000),
        (i64::MAX, i32::MAX),
        (0, -1),
    ] {
        assert_eq!(
            timestamp_by_time(&field, seconds, nanos),
            Err(Error::CursorTimestamp {
                path: "t".to_owned(),
                seconds
            }),
        );
    }
    // Nanoseconds carry over into the seconds.
    assert_eq!(
        timestamp_by_time(&field, -377_705_116_801, 1_500_000_000),
        Ok(Value::Timestamp {
            seconds: -377_705_116_800,
            nanos: 500_000_000
        }),
    );
}

/// Where both backends have the instant, they agree.
#[test]
fn the_backends_agree_on_a_normalized_timestamp() {
    let field = field("t");
    for (seconds, nanos) in [(1_700_000_000, 500), (-1, 999_999_999), (0, 0)] {
        assert_eq!(
            timestamp(&field, seconds, nanos),
            timestamp_by_time(&field, seconds, nanos),
        );
    }
}

/// Numbered dialects bind one value for each field; positional ones bind the
/// first again for each clause, the second for each but one, and so on.
#[test]
fn bind_counts_depend_on_the_dialect() {
    let entries = [("a", "a"), ("b", "b"), ("c", "c"), ("d", "d")];
    for (spec, positional) in [("a", 1), ("a, b", 3), ("a, b, c", 6), ("a, b, c, d", 10)] {
        let order_by = order_by(spec);
        let cursor: Vec<CursorValue> = (0..order_by.fields.len() as i64)
            .map(CursorValue::Int)
            .collect();
        let columns = Columns::new(&entries);
        let (_, values) = rewrite(&order_by, &cursor, columns, &Postgres, 1).unwrap();
        assert_eq!(values.len(), cursor.len());
        let (sql, values) = rewrite(&order_by, &cursor, columns, &Sqlite, 1).unwrap();
        assert_eq!(values.len(), positional);
        assert_eq!(sql.unwrap().matches('?').count(), positional);
    }
}

/// The last ordinal of the predicate's bind values has to fit.
#[test]
fn bind_values_are_countable_up_to_the_last_ordinal() {
    assert!(countable(2, 2, false, usize::MAX - 1));
    assert!(!countable(2, 2, false, usize::MAX));
    assert!(countable(2, 2, true, usize::MAX - 2));
    assert!(!countable(2, 2, true, usize::MAX - 1));
    assert!(!countable(usize::MAX, usize::MAX, true, 0));
    // Where no predicate is built, there is nothing to count.
    assert!(countable(0, 0, true, usize::MAX));
    assert!(countable(2, 1, true, usize::MAX));

    let (sql, _) = rewrite(
        &order_by("title, id"),
        &[CursorValue::Int(1), CursorValue::Int(2)],
        Columns::new(ENTRIES),
        &Postgres,
        usize::MAX - 1,
    )
    .unwrap();
    let expected = [
        r#"(("volumes"."title" > $18446744073709551614)"#,
        r#" OR ("volumes"."title" = $18446744073709551614"#,
        r#" AND "volumes"."id" > $18446744073709551615))"#,
    ]
    .join("");
    assert_eq!(sql, Some(expected));
}

/// Rounding treats both signs alike and keeps the order of two durations.
#[test]
fn rounding_is_symmetric_and_monotone() {
    let mut previous = microseconds(-2_600);
    for nanos in -2_599..2_600 {
        let micros = microseconds(nanos);
        assert!(previous <= micros);
        assert_eq!(microseconds(-nanos), -micros);
        assert!((1_000 * micros - nanos).abs() <= 500);
        previous = micros;
    }
}

/// The first second of the year 10000: `chrono` has it, `time` does not.
#[test]
fn the_backend_decides_which_instants_there_are() {
    let value = CursorValue::Timestamp {
        seconds: 253_402_300_800,
        nanos: 0,
    };
    let instant = Ok(Value::Timestamp {
        seconds: 253_402_300_800,
        nanos: 0,
    });
    let error = Err(Error::CursorTimestamp {
        path: "create_time".to_owned(),
        seconds: 253_402_300_800,
    });
    let field = field("create_time");
    assert_eq!(bind(&field, &value), instant);
    assert_eq!(bind_by(Backend::Chrono, &field, &value), instant);
    assert_eq!(bind_by(Backend::Time, &field, &value), error);
    assert_eq!(
        rewrite_by(
            Backend::Time,
            &order_by("create_time"),
            &[value],
            Columns::new(ENTRIES),
            &Postgres,
            1,
        ),
        Err(Error::CursorTimestamp {
            path: "create_time".to_owned(),
            seconds: 253_402_300_800,
        }),
    );
}

/// A billion nanoseconds and more: a leap second to `chrono`, the next second
/// to `time`.
#[test]
fn the_backend_decides_what_a_billion_nanoseconds_are() {
    let columns = Columns::new(ENTRIES);
    let order_by = order_by("create_time");
    let cursor = [CursorValue::Timestamp {
        seconds: 60,
        nanos: 1_500_000_000,
    }];
    assert_eq!(
        rewrite_by(Backend::Time, &order_by, &cursor, columns, &Postgres, 1),
        Ok((
            Some(r#"(("volumes"."created_at" > $1))"#.to_owned()),
            vec![Value::Timestamp {
                seconds: 61,
                nanos: 500_000_000
            }],
        )),
    );
    assert_eq!(
        rewrite_by(Backend::Chrono, &order_by, &cursor, columns, &Postgres, 1),
        Err(Error::CursorTimestamp {
            path: "create_time".to_owned(),
            seconds: 60,
        }),
    );
}

/// What is no timestamp binds alike in both backends.
#[test]
fn the_backend_decides_nothing_else() {
    let field = field("rank");
    for value in [
        CursorValue::Null,
        CursorValue::Bool(true),
        CursorValue::String("Dune".to_owned()),
        CursorValue::Bytes(vec![1]),
        CursorValue::Int(-1),
        CursorValue::Uint(1),
        CursorValue::Float {
            bits: 0.5f64.to_bits(),
        },
        CursorValue::Duration { nanos: 1_499 },
    ] {
        assert_eq!(
            bind_by(Backend::Chrono, &field, &value),
            bind_by(Backend::Time, &field, &value),
        );
    }
}

/// Equality is that of the numbers: the zeros are equal, and not-a-number equals
/// nothing.
#[test]
fn floats_compare_as_numbers() {
    let numbers = [
        0.0,
        -0.0,
        1.5,
        -1.5,
        f64::MIN_POSITIVE,
        f64::MAX,
        f64::INFINITY,
        f64::NEG_INFINITY,
        f64::NAN,
        -f64::NAN,
        f64::from_bits(1),
        f64::from_bits(0x7ff0_0000_0000_0001),
    ];
    for left in numbers {
        for right in numbers {
            let (left_bits, right_bits) = (left.to_bits(), right.to_bits());
            assert_eq!(
                Value::Float { bits: left_bits } == Value::Float { bits: right_bits },
                left == right,
            );
            assert_eq!(
                CursorValue::Float { bits: left_bits } == CursorValue::Float { bits: right_bits },
                left == right,
            );
        }
    }
}

#[test]
fn values_of_different_kinds_differ() {
    let values = [
        Value::Bool(true),
        Value::Text("1".to_owned()),
        Value::Bytes(vec![1]),
        Value::Int(1),
        Value::Uint(1),
        Value::Float {
            bits: 1.0f64.to_bits(),
        },
        Value::Timestamp {
            seconds: 1,
            nanos: 0,
        },
        Value::Duration(1),
    ];
    for (i, left) in values.iter().enumerate() {
        for (j, right) in values.iter().enumerate() {
            assert_eq!(left == right, i == j);
        }
    }
    assert_ne!(Value::Bytes(vec![1, 2]), Value::Bytes(vec![1, 3]));
    assert_ne!(Value::Bytes(vec![1, 2]), Value::Bytes(vec![1]));
    assert_ne!(CursorValue::Null, CursorValue::Bool(false));
    assert_eq!(CursorValue::Null, CursorValue::Null);
}

/// Half a microsecond goes away from zero, to odd and to even counts alike.
#[test]
fn half_a_microsecond_rounds_away_from_zero() {
    for micros in 0..6 {
        let half = 1_000 * micros + 500;
        assert_eq!(microseconds(half), micros + 1);
        assert_eq!(microseconds(-half), -(micros + 1));
        assert_eq!(microseconds(half - 1), micros);
    }
}
