//! Rewrites the `filter`, `order_by` and `page_token` of an AIP `List` request
//! into SQL fragments, and proves what they select.
//!
//! A [`Query`] holds the three dimensions, already parsed, and the column map
//! that resolves their paths. [`Query::rewrite`] returns a [`QueryFragment`]: a
//! `WHERE` predicate, an `ORDER BY` list and the bind values, which the caller
//! splices into a statement it wrote by hand. Each fragment is [`None`] when it
//! has nothing to say. The crate does not build a `SELECT` and does not talk to
//! a database, and the filter reaches it as its transpiler left it.
//!
//! # Dialects
//!
//! A [`Dialect`] quotes columns and writes placeholders. A numbered placeholder
//! can be referenced from several places and bound once; a positional `?`
//! cannot, and the key-set predicate pins each more significant column in every
//! clause after the first. So the same ordering binds a different number of
//! values: three fields bind three values in a numbered dialect, and six in a
//! positional one. The values are always in bind order.
//!
//! # Stability is the caller's job
//!
//! **A key-set cursor is only stable if the ordering ends in a unique column.**
//! Append the primary key to the ordering before rewriting, and make sure the
//! cursor carries a matching trailing value. Without a unique tiebreaker, rows
//! that share the leading sort key have no defined order between pages, so a
//! page can repeat rows it already served and skip ones it never did. With one,
//! [`paging::law_fragments_serve_every_row_once`] says that it does neither.
//!
//! # Ordering columns must be `NOT NULL`
//!
//! A [`CursorValue::Null`] is rejected rather than bound: a comparison with a
//! null is never true, so the rows behind it would silently be dropped.
//!
//! # Date-time backends
//!
//! A cursor timestamp is checked against `chrono`, unless the caller asks for
//! [`Backend::Time`] with [`Query::rewrite_by`]. The two differ in the range of
//! instants they have, and in what a billion nanoseconds and more stand for.
//!
//! # Layout
//!
//! [`cursor`], [`order`] and [`query`] hold the rewrites, each with a spec
//! function `outcome` that says what it gives. [`keyset`] says what the
//! predicate is, [`paging`] what it means, and [`laws`] what holds of a rewrite
//! as a whole.
//!
//! Three modules say of the calls themselves what they give: [`reading`] how the
//! fragments read and what they mean, in the words of [`sql`], [`binding`] what
//! becomes of the values, and [`wording`] what the errors say.

pub mod binding;
pub mod columns;
pub mod cursor;
pub mod dialect;
pub mod error;
pub mod instant;
pub mod keyset;
pub mod laws;
pub mod order;
pub mod paging;
pub mod query;
pub mod reading;
pub mod request;
pub mod sql;
pub mod text;
pub mod value;
pub mod wording;

pub use columns::Columns;
pub use dialect::Dialect;
pub use error::{Dimension, Error, FilterError, Rejection};
pub use instant::Backend;
pub use query::{FilterFragment, Query, QueryFragment};
pub use request::{CursorValue, OrderBy, OrderByField, PageToken};
pub use value::Value;
