//! What varies between the databases that a fragment can be rendered for.

use vstd::prelude::*;

verus! {

/// One database's flavour of SQL.
///
/// A caller implements this for the database it queries. Both methods answer by
/// the dialect and their arguments alone: asked the same thing twice, a dialect
/// gives the same text. The two spec functions name those answers. A dialect
/// must define both for its texts to be known: for one that does not, each is
/// some function of the dialect and the argument, of which nothing else is said,
/// and what is proved of a rewrite holds as far as the dialect does answer alike.
pub trait Dialect: Sized {
    /// What [`placeholder`](Dialect::placeholder) gives.
    open spec fn placeholder_text(&self, index: int) -> Seq<char> {
        arbitrary::<spec_fn(Self, int) -> Seq<char>>()(*self, index)
    }

    /// What [`quote_ident`](Dialect::quote_ident) gives.
    open spec fn quoted_text(&self, column: Seq<char>) -> Seq<char> {
        arbitrary::<spec_fn(Self, Seq<char>) -> Seq<char>>()(*self, column)
    }

    /// The placeholder for the `index`'th bind value, counted from one.
    fn placeholder(&self, index: usize) -> (text: String)
        ensures
            text@ == self.placeholder_text(index as int),
    ;

    /// `column` as a quoted identifier.
    fn quote_ident(&self, column: &str) -> (text: String)
        ensures
            text@ == self.quoted_text(column@),
    ;
}

/// Whether `dialect` renders every placeholder alike, so that a bind cannot be
/// referenced twice: it then writes the first two in the same way.
pub open spec fn positional<D: Dialect>(dialect: D) -> bool {
    dialect.placeholder_text(1) == dialect.placeholder_text(2)
}

} // verus!
