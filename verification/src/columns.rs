//! The fail-closed map from AIP paths to database columns.

use vstd::prelude::*;

use crate::error::{Dimension, Error, ErrorView};
use crate::request::FieldView;

verus! {

/// The AIP-path to database-column allow-list.
///
/// This is the security boundary: a path that is not in it never reaches SQL,
/// whichever dimension of the request names it. Of two entries for one path the
/// first counts.
#[derive(Debug, Clone, Copy)]
pub struct Columns<'a> {
    entries: &'a [(&'a str, &'a str)],
}

impl<'a> View for Columns<'a> {
    type V = Seq<(Seq<char>, Seq<char>)>;

    closed spec fn view(&self) -> Self::V {
        entry_views(self.entries@)
    }
}

/// The paths and columns that `entries` hold.
pub open spec fn entry_views(entries: Seq<(&str, &str)>) -> Seq<(Seq<char>, Seq<char>)> {
    Seq::new(entries.len(), |i: int| (entries[i].0@, entries[i].1@))
}

/// The column that `entries` give for `path`: that of the first entry for it.
pub open spec fn lookup(entries: Seq<(Seq<char>, Seq<char>)>, path: Seq<char>) -> Option<Seq<char>>
    decreases entries.len(),
{
    if entries.len() == 0 {
        None
    } else if entries[0].0 == path {
        Some(entries[0].1)
    } else {
        lookup(entries.drop_first(), path)
    }
}

impl<'a> Columns<'a> {
    /// The map with the given `(path, column)` entries.
    pub fn new(entries: &'a [(&'a str, &'a str)]) -> (columns: Self)
        ensures
            columns@ == entry_views(entries@),
    {
        Columns { entries }
    }

    /// The column that `path` maps to, where the map has one.
    pub fn get(&self, path: &str) -> (column: Option<&'a str>)
        ensures
            lookup(self@, path@) == (match column {
                Some(column) => Some(column@),
                None => None,
            }),
    {
        let wanted: String = path.to_owned();
        let mut index: usize = 0;
        assert(self@.skip(0) =~= self@);
        while index < self.entries.len()
            invariant
                index <= self.entries@.len(),
                wanted@ == path@,
                self@ == entry_views(self.entries@),
                lookup(self@, path@) == lookup(self@.skip(index as int), path@),
            decreases self.entries@.len() - index,
        {
            assert(self@.skip(index as int).drop_first() =~= self@.skip(index + 1));
            let (key, column) = self.entries[index];
            if key.to_owned() == wanted {
                return Some(column);
            }
            index += 1;
        }
        None
    }
}

impl<'a> Default for Columns<'a> {
    /// The map without entries, which rejects every path.
    fn default() -> (columns: Self)
        ensures
            columns@ == Seq::<(Seq<char>, Seq<char>)>::empty(),
    {
        Columns { entries: &[] }
    }
}

/// What a rewrite makes of one path of `dimension`.
pub open spec fn mapped(
    entries: Seq<(Seq<char>, Seq<char>)>,
    path: Seq<char>,
    dimension: Dimension,
) -> Result<Seq<char>, ErrorView> {
    match lookup(entries, path) {
        Some(column) => Ok(column),
        None => Err(ErrorView::UnknownField { dimension, path }),
    }
}

/// The columns of an ordering's fields, in its order, or the error for the
/// first field that is not in the map.
pub open spec fn mapped_fields(
    entries: Seq<(Seq<char>, Seq<char>)>,
    fields: Seq<FieldView>,
    dimension: Dimension,
) -> Result<Seq<Seq<char>>, ErrorView>
    decreases fields.len(),
{
    if fields.len() == 0 {
        Ok(Seq::empty())
    } else {
        match mapped_fields(entries, fields.drop_last(), dimension) {
            Err(error) => Err(error),
            Ok(columns) => match mapped(entries, fields.last().path, dimension) {
                Err(error) => Err(error),
                Ok(column) => Ok(columns.push(column)),
            },
        }
    }
}

/// An error over a prefix of the fields is the error over all of them.
pub proof fn lemma_mapped_prefix_error(
    entries: Seq<(Seq<char>, Seq<char>)>,
    fields: Seq<FieldView>,
    dimension: Dimension,
    count: int,
)
    requires
        0 <= count <= fields.len(),
        mapped_fields(entries, fields.take(count), dimension) is Err,
    ensures
        mapped_fields(entries, fields, dimension)
            == mapped_fields(entries, fields.take(count), dimension),
    decreases fields.len(),
{
    if count == fields.len() {
        assert(fields.take(count) =~= fields);
    } else {
        assert(fields.drop_last().take(count) =~= fields.take(count));
        lemma_mapped_prefix_error(entries, fields.drop_last(), dimension, count);
    }
}

/// An ordering of which every field is mapped is resolved.
pub proof fn lemma_all_mapped(
    entries: Seq<(Seq<char>, Seq<char>)>,
    fields: Seq<FieldView>,
    dimension: Dimension,
)
    requires
        forall|i: int|
            0 <= i < fields.len() ==> lookup(
                entries,
                (#[trigger] fields[i]).path,
            ) is Some,
    ensures
        mapped_fields(entries, fields, dimension) is Ok,
    decreases fields.len(),
{
    if fields.len() > 0 {
        let shorter = fields.drop_last();
        assert forall|i: int| 0 <= i < shorter.len() implies lookup(
            entries,
            (#[trigger] shorter[i]).path,
        ) is Some by {
            assert(shorter[i] == fields[i]);
        }
        lemma_all_mapped(entries, shorter, dimension);
        assert(lookup(entries, fields[fields.len() - 1].path) is Some);
    }
}

/// Fields that are mapped in one dimension have the same columns in another.
pub proof fn lemma_columns_agree(
    entries: Seq<(Seq<char>, Seq<char>)>,
    fields: Seq<FieldView>,
    left: Dimension,
    right: Dimension,
)
    requires
        mapped_fields(entries, fields, left) is Ok,
    ensures
        mapped_fields(entries, fields, right) == mapped_fields(entries, fields, left),
    decreases fields.len(),
{
    if fields.len() > 0 {
        lemma_columns_agree(entries, fields.drop_last(), left, right);
    }
}

/// Resolves one AIP path through the column map, fail-closed.
pub fn column<'a>(columns: Columns<'a>, path: &str, dimension: Dimension) -> (column: Result<
    &'a str,
    Error,
>)
    ensures
        mapped(columns@, path@, dimension) == (match column {
            Ok(column) => Ok(column@),
            Err(error) => Err(error@),
        }),
{
    match columns.get(path) {
        Some(column) => Ok(column),
        None => Err(Error::UnknownField { dimension, path: path.to_owned() }),
    }
}

} // verus!
