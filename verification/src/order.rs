//! The `ORDER BY` list.

use vstd::prelude::*;
use vstd::string::*;

use crate::columns::{column, Columns};
use crate::dialect::Dialect;
use crate::error::{Dimension, Error, ErrorView};
use crate::request::{FieldView, OrderBy};

verus! {

/// The keyword of a direction.
pub open spec fn direction_text(desc: bool) -> Seq<char> {
    if desc {
        " DESC"@
    } else {
        " ASC"@
    }
}

/// The ordering's terms, where `columns` are the columns of its fields.
pub open spec fn term_texts<D: Dialect>(
    fields: Seq<FieldView>,
    columns: Seq<Seq<char>>,
    dialect: D,
) -> Seq<Seq<char>> {
    Seq::new(
        fields.len(),
        |i: int| dialect.quoted_text(columns[i]) + direction_text(fields[i].desc),
    )
}

/// What [`rewrite`] gives: the ordering's terms with a comma between each two,
/// nothing where there are no terms, or the error for the first field that is
/// not in the map.
pub open spec fn outcome<D: Dialect>(
    fields: Seq<FieldView>,
    entries: Seq<(Seq<char>, Seq<char>)>,
    dialect: D,
) -> Result<Option<Seq<char>>, ErrorView> {
    match crate::columns::mapped_fields(entries, fields, Dimension::OrderBy) {
        Err(error) => Err(error),
        Ok(columns) => if fields.len() == 0 {
            Ok(None)
        } else {
            Ok(Some(crate::text::joined(term_texts(fields, columns, dialect), ", "@)))
        },
    }
}

/// What a result of [`rewrite`] holds, as a mathematical value.
pub open spec fn outcome_view(rewritten: Result<Option<String>, Error>) -> Result<
    Option<Seq<char>>,
    ErrorView,
> {
    match rewritten {
        Ok(Some(sql)) => Ok(Some(sql@)),
        Ok(None) => Ok(None),
        Err(error) => Err(error@),
    }
}

/// Rewrites an AIP-132 ordering into a comma-separated list of `"col" ASC` and
/// `"col" DESC` terms, without the `ORDER BY` prefix.
///
/// There is none where there are no fields. That is the server's choice of
/// order, not an error. No `NULLS FIRST` or `NULLS LAST` is emitted: the
/// key-set predicate rejects nulls, so the two agree.
pub fn rewrite<D: Dialect>(order_by: &OrderBy, columns: Columns<'_>, dialect: &D) -> (rewritten:
    Result<Option<String>, Error>)
    ensures
        outcome_view(rewritten) == outcome(order_by@, columns@, *dialect),
{
    if order_by.is_empty() {
        return Ok(None);
    }
    let ghost fields = order_by@;
    let ghost mut resolved: Seq<Seq<char>> = Seq::empty();
    let mut sql = String::new();
    let mut index: usize = 0;
    proof {
        assert(fields.take(0) =~= Seq::<FieldView>::empty());
        assert(term_texts(fields.take(0), resolved, *dialect) =~= Seq::<Seq<char>>::empty());
    }
    while index < order_by.fields.len()
        invariant
            index <= order_by.fields@.len(),
            fields == order_by@,
            resolved.len() == index,
            crate::columns::mapped_fields(columns@, fields.take(index as int), Dimension::OrderBy)
                == Ok::<Seq<Seq<char>>, ErrorView>(resolved),
            sql@ == crate::text::joined(
                term_texts(fields.take(index as int), resolved, *dialect),
                ", "@,
            ),
        decreases order_by.fields@.len() - index,
    {
        proof {
            assert(fields.take(index + 1).drop_last() =~= fields.take(index as int));
            assert(fields.take(index + 1).last() == fields[index as int]);
        }
        let ghost before = term_texts(fields.take(index as int), resolved, *dialect);
        if index > 0 {
            sql.append(", ");
        }
        match column(columns, order_by.fields[index].path.as_str(), Dimension::OrderBy) {
            Ok(column) => {
                let quoted = dialect.quote_ident(column);
                sql.append(quoted.as_str());
                sql.append(
                    if order_by.fields[index].desc {
                        " DESC"
                    } else {
                        " ASC"
                    },
                );
                proof {
                    resolved = resolved.push(column@);
                    let after = term_texts(fields.take(index + 1), resolved, *dialect);
                    assert(after.drop_last() =~= before);
                    assert(sql@ =~= crate::text::joined(after, ", "@));
                }
            },
            Err(error) => {
                proof {
                    crate::columns::lemma_mapped_prefix_error(
                        columns@,
                        fields,
                        Dimension::OrderBy,
                        index + 1,
                    );
                }
                return Err(error);
            },
        }
        index += 1;
    }
    proof {
        assert(fields.take(index as int) =~= fields);
    }
    Ok(Some(sql))
}

} // verus!
