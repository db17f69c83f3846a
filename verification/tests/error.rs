//! The errors, and what they say.

use sqlx_aip::{Dimension, Error, FilterError, Rejection};

fn rejection() -> Rejection {
    Rejection {
        message: "the right-hand side of `in` is not a list".to_owned(),
    }
}

#[test]
fn an_unmapped_path_names_the_dimension_it_came_from() {
    for (dimension, expected) in [
        (Dimension::Filter, r#"filter: unknown field "notes""#),
        (Dimension::OrderBy, r#"order_by: unknown field "notes""#),
        (Dimension::Cursor, r#"page_token: unknown field "notes""#),
    ] {
        let error = Error::UnknownField {
            dimension,
            path: "notes".to_owned(),
        };
        assert_eq!(error.message(), expected);
    }
}

#[test]
fn an_arity_mismatch_reports_both_counts() {
    assert_eq!(
        Error::CursorArity {
            fields: 2,
            values: 1
        }
        .message(),
        "page_token: cursor carries 1 value for 2 ordering fields; \
         it was issued under a different order_by",
    );
}

#[test]
fn each_count_has_its_own_plural() {
    for (fields, values, expected) in [
        (1, 0, "0 values for 1 ordering field;"),
        (0, 1, "1 value for 0 ordering fields;"),
        (1, 10, "10 values for 1 ordering field;"),
        (usize::MAX, 907, "907 values for 18446744073709551615 ordering fields;"),
    ] {
        let message = Error::CursorArity { fields, values }.message();
        assert!(message.contains(expected), "{message}");
    }
}

#[test]
fn a_null_cursor_value_points_at_the_fix() {
    let error = Error::NullCursorValue {
        path: "create_time".to_owned(),
    };
    assert!(error.message().contains("NOT NULL"), "{error:?}");
    assert!(error.message().contains("create_time"), "{error:?}");
}

#[test]
fn a_null_cursor_value_names_its_field() {
    assert_eq!(
        Error::NullCursorValue {
            path: "create_time".to_owned()
        }
        .message(),
        "page_token: ordering field \"create_time\" is null in the cursor; \
         an ordering column must be NOT NULL",
    );
}

#[test]
fn a_timestamp_out_of_range_names_its_seconds() {
    for (seconds, digits) in [
        (i64::MIN, "-9223372036854775808"),
        (-1, "-1"),
        (0, "0"),
        (i64::MAX, "9223372036854775807"),
    ] {
        assert_eq!(
            Error::CursorTimestamp {
                path: "t".to_owned(),
                seconds
            }
            .message(),
            format!(
                "page_token: ordering field \"t\": the timestamp at {digits}s \
                 is outside the representable range"
            ),
        );
    }
}

/// A path is quoted with its escapes.
#[test]
fn a_path_is_quoted_with_escapes() {
    let error = Error::UnknownField {
        dimension: Dimension::OrderBy,
        path: "a\"b\n".to_owned(),
    };
    assert_eq!(error.message(), r#"order_by: unknown field "a\"b\n""#);
    assert_eq!(error.describe("<path>"), "order_by: unknown field <path>");
}

/// The filter's unmapped path is the same variant the ordering's is, so a
/// caller matching on it does not have to know which dimension failed.
#[test]
fn an_unmapped_filter_path_is_lifted_out_of_the_wrapper() {
    let error = Error::from(FilterError::UnknownField {
        path: "notes".to_owned(),
    });
    assert_eq!(
        error,
        Error::UnknownField {
            dimension: Dimension::Filter,
            path: "notes".to_owned(),
        },
    );
    assert!(error.source().is_none());
}

#[test]
fn anything_else_from_sqlx_cel_keeps_its_source() {
    let error = Error::from(FilterError::Rejected(rejection()));
    assert_eq!(error.message(), format!("filter: {}", rejection().message));
    assert!(error.source().is_some());
    assert_eq!(error.source(), Some(&rejection()));
}

#[test]
fn only_a_rejected_filter_has_a_source() {
    for error in [
        Error::CursorArity {
            fields: 1,
            values: 2,
        },
        Error::NullCursorValue {
            path: "id".to_owned(),
        },
        Error::CursorTimestamp {
            path: "id".to_owned(),
            seconds: 1,
        },
    ] {
        assert!(error.source().is_none());
    }
}

#[test]
fn a_dimension_is_named_after_its_request_field() {
    assert_eq!(Dimension::Filter.label(), "filter");
    assert_eq!(Dimension::OrderBy.label(), "order_by");
    assert_eq!(Dimension::Cursor.label(), "page_token");
}

/// A plain path is written between quotes as it is, and so is an apostrophe.
#[test]
fn a_plain_path_is_only_quoted() {
    for path in ["read_count", "author.name", "a b-c~", "it's", ""] {
        let error = Error::UnknownField {
            dimension: Dimension::OrderBy,
            path: path.to_owned(),
        };
        assert_eq!(
            error.message(),
            format!("order_by: unknown field \"{path}\""),
        );
    }
}
