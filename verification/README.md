# sqlx-aip

Rewrites the query dimensions of a [Google AIP](https://google.aip.dev) `List`
request (`filter`, `order_by` and `page_token`) into SQL fragments, with the
rewrite verified by [Verus](https://github.com/verus-lang/verus).

- `src/` is the verified library. Every path goes through a fail-closed column
  map, the `ORDER BY` list and the compound key-set predicate are stated
  character by character, and the bind values are stated in bind order, for
  numbered and for positional placeholders.
- `src/paging.rs` says what the predicate means: it is true of exactly the rows
  that the ordering puts behind the cursor, so that following cursors from page
  to page serves every row once, provided that the ordering ends in a unique
  column.
- `app/` puts the library behind the types of `aip`, and has filters transpiled
  by `sqlx-cel`.
- `tests/` runs the library.

Cursor timestamps are checked against `chrono`, or against `time` where the
caller asks for it (`rewrite_by` and `bind_by` take the backend).

What is not proved is small and stands in three places: the range of instants
that `chrono` and `time` represent (`src/instant.rs`), what the `Debug` of `str`
depends on and that it only adds quotes to a plain text (`src/error.rs`), and that
a caller's `Dialect` answers alike when asked alike (`src/dialect.rs`).
