//! The key-set predicate: its comparisons, and the text they are written as.

use vstd::prelude::*;

use crate::dialect::Dialect;
use crate::value::ValueView;

verus! {

/// How a comparison relates a column to a bind value.
pub enum Operator {
    /// `=`
    Equal,
    /// `<`
    Less,
    /// `>`
    Greater,
}

/// One comparison of a row's column with a bind value.
pub struct Comparison {
    /// Which of the ordering's fields the column belongs to, from zero.
    pub field: int,
    /// How the column compares.
    pub operator: Operator,
    /// Which bind value it compares with, from one over the whole statement.
    pub slot: int,
}

/// How many comparisons the first `clauses` clauses hold: the first has one,
/// and each further one has one more than the clause before it.
pub open spec fn comparisons(clauses: nat) -> nat
    decreases clauses,
{
    if clauses == 0 {
        0
    } else {
        comparisons((clauses - 1) as nat) + clauses
    }
}

/// The bind value that the `term`'th comparison of the `clause`'th clause
/// refers to, where the first bind value of the predicate is `offset`.
///
/// A positional placeholder takes the next value, so it is the ordinal of the
/// comparison among all of them. A numbered one names its field's value.
pub open spec fn slot(positional: bool, offset: int, clause: int, term: int) -> int {
    if positional {
        offset + comparisons(clause as nat) + term
    } else {
        offset + term
    }
}

/// The `clause`'th clause: every more significant field is tied with its cursor
/// value, and the clause's own field comes after it, in its own direction.
pub open spec fn clause(
    descending: Seq<bool>,
    positional: bool,
    offset: int,
    clause: int,
) -> Seq<Comparison> {
    Seq::new(
        (clause + 1) as nat,
        |term: int|
            Comparison {
                field: term,
                operator: if term < clause {
                    Operator::Equal
                } else if descending[clause] {
                    Operator::Less
                } else {
                    Operator::Greater
                },
                slot: slot(positional, offset, clause, term),
            },
    )
}

/// The whole predicate, one clause for each field of the ordering. It is true
/// of a row where one of the clauses is.
pub open spec fn predicate(descending: Seq<bool>, positional: bool, offset: int) -> Seq<
    Seq<Comparison>,
> {
    Seq::new(descending.len(), |i: int| clause(descending, positional, offset, i))
}

/// The text of an operator.
pub open spec fn operator_text(operator: Operator) -> Seq<char> {
    match operator {
        Operator::Equal => "="@,
        Operator::Less => "<"@,
        Operator::Greater => ">"@,
    }
}

/// The text of a comparison, where `columns` are the quoted columns of the
/// ordering's fields.
pub open spec fn comparison_text<D: Dialect>(
    comparison: Comparison,
    columns: Seq<Seq<char>>,
    dialect: D,
) -> Seq<char> {
    columns[comparison.field] + " "@ + operator_text(comparison.operator) + " "@
        + dialect.placeholder_text(comparison.slot)
}

/// The texts of a clause's comparisons.
pub open spec fn comparison_texts<D: Dialect>(
    clause: Seq<Comparison>,
    columns: Seq<Seq<char>>,
    dialect: D,
) -> Seq<Seq<char>> {
    Seq::new(clause.len(), |i: int| comparison_text(clause[i], columns, dialect))
}

/// The text of a clause.
pub open spec fn clause_text<D: Dialect>(
    clause: Seq<Comparison>,
    columns: Seq<Seq<char>>,
    dialect: D,
) -> Seq<char> {
    "("@ + crate::text::joined(comparison_texts(clause, columns, dialect), " AND "@) + ")"@
}

/// The texts of a predicate's clauses.
pub open spec fn clause_texts<D: Dialect>(
    clauses: Seq<Seq<Comparison>>,
    columns: Seq<Seq<char>>,
    dialect: D,
) -> Seq<Seq<char>> {
    Seq::new(clauses.len(), |i: int| clause_text(clauses[i], columns, dialect))
}

/// The text of a predicate. The outer parentheses let a filter be joined to it
/// whatever its shape.
pub open spec fn predicate_text<D: Dialect>(
    clauses: Seq<Seq<Comparison>>,
    columns: Seq<Seq<char>>,
    dialect: D,
) -> Seq<char> {
    "("@ + crate::text::joined(clause_texts(clauses, columns, dialect), " OR "@) + ")"@
}

/// The values that the placeholders of the first `clauses` clauses take one
/// after another, where each placeholder takes one: the `i`'th clause takes the
/// first `i` keys.
pub open spec fn repeated(keys: Seq<ValueView>, clauses: nat) -> Seq<ValueView>
    decreases clauses,
{
    if clauses == 0 {
        Seq::empty()
    } else {
        repeated(keys, (clauses - 1) as nat) + keys.take(clauses as int)
    }
}

/// The bind values of the predicate over `keys`.
pub open spec fn bind_values(keys: Seq<ValueView>, positional: bool) -> Seq<ValueView> {
    if positional {
        repeated(keys, keys.len())
    } else {
        keys
    }
}

/// How many bind values the predicate over `keys` keys has.
pub open spec fn bind_count(keys: nat, positional: bool) -> nat {
    if positional {
        comparisons(keys)
    } else {
        keys
    }
}

/// The clauses hold `clauses * (clauses + 1) / 2` comparisons in all.
pub proof fn lemma_comparisons(clauses: nat)
    ensures
        2 * comparisons(clauses) == clauses * (clauses + 1),
    decreases clauses,
{
    if clauses == 0 {
        assert(clauses * (clauses + 1) == 0) by (nonlinear_arith)
            requires
                clauses == 0,
        ;
    } else {
        let fewer = (clauses - 1) as nat;
        lemma_comparisons(fewer);
        assert(clauses * (clauses + 1) == fewer * (fewer + 1) + 2 * clauses) by (nonlinear_arith)
            requires
                fewer == clauses - 1,
        ;
    }
}

/// A predicate has as many bind values as [`bind_count`] says.
pub proof fn lemma_bind_count(keys: Seq<ValueView>, positional: bool)
    ensures
        bind_values(keys, positional).len() == bind_count(keys.len(), positional),
{
    lemma_repeated_count(keys, keys.len());
}

/// Repeating over `clauses` clauses gives one value for each comparison.
pub proof fn lemma_repeated_count(keys: Seq<ValueView>, clauses: nat)
    requires
        clauses <= keys.len(),
    ensures
        repeated(keys, clauses).len() == comparisons(clauses),
    decreases clauses,
{
    if clauses > 0 {
        lemma_repeated_count(keys, (clauses - 1) as nat);
    }
}

/// The values of a clause stand behind those of the clauses before it.
pub proof fn lemma_repeated_index(keys: Seq<ValueView>, clauses: nat, clause: int, term: int)
    requires
        0 <= term <= clause < clauses <= keys.len(),
    ensures
        0 <= comparisons(clause as nat) + term < comparisons(clauses),
        repeated(keys, clauses)[comparisons(clause as nat) + term] == keys[term],
    decreases clauses,
{
    let before = (clauses - 1) as nat;
    lemma_repeated_count(keys, before);
    lemma_repeated_count(keys, clauses);
    if clause < before {
        lemma_repeated_index(keys, before, clause, term);
    }
}

} // verus!
