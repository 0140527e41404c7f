//! BSON values as rows that a projection reshapes.

use vstd::prelude::*;

use crate::mongodb::bson::{Bson, BsonView, Document};

verus! {

impl Bson {
    /// The entries of a document, or the value itself where it is none.
    pub fn into_object(self) -> (r: Result<Vec<(String, Bson)>, Bson>)
        ensures
            match r {
                Ok(entries) => self@ == BsonView::Document(
                    crate::mongodb::bson::entry_views(entries@),
                ),
                Err(value) => value == self && !(self is Document),
            },
    {
        match self {
            Bson::Document(document) => Ok(document.entries),
            other => Err(other),
        }
    }

    /// The document of `entries`, of which a later one replaces an earlier one
    /// with its key.
    pub fn from_object(entries: Vec<(String, Bson)>) -> (r: Bson)
        ensures
            r@ == BsonView::Document(
                crate::mongodb::bson::with_entries(
                    Seq::empty(),
                    crate::mongodb::bson::entry_views(entries@),
                ),
            ),
    {
        let mut document = Document::new();
        let more = Document { entries };
        document.extend(more);
        Bson::Document(document)
    }

    /// A string that holds JSON.
    pub fn from_json_string(json: String) -> (r: Bson)
        ensures
            r@ == BsonView::String(json@),
    {
        Bson::String(json)
    }
}

/// The document that a projected row is, without entries where it is none.
pub fn project_bson_document(row: Bson) -> (r: Document)
    ensures
        r@ == (match row@ {
            BsonView::Document(entries) => entries,
            _ => Seq::empty(),
        }),
{
    match row {
        Bson::Document(document) => document,
        _ => Document::new(),
    }
}

/// A document taken apart and put together again is the same document, where no
/// key occurs twice.
pub proof fn taking_apart_and_putting_together(entries: Seq<(Seq<char>, BsonView)>)
    requires
        forall|i: int, j: int|
            0 <= i < j < entries.len() ==> (#[trigger] entries[i]).0 != (#[trigger] entries[j]).0,
    ensures
        crate::mongodb::bson::with_entries(Seq::empty(), entries) == entries,
    decreases entries.len(),
{
    if entries.len() > 0 {
        let rest = entries.drop_last();
        assert forall|i: int, j: int| 0 <= i < j < rest.len() implies (#[trigger] rest[i]).0 != (
        #[trigger] rest[j]).0 by {
            assert(entries[i].0 != entries[j].0);
        }
        taking_apart_and_putting_together(rest);
        crate::mongodb::bson::key_position_is_first(rest, entries.last().0);
        assert forall|k: int| 0 <= k < rest.len() implies (#[trigger] rest[k]).0
            != entries.last().0 by {
            assert(entries[k].0 != entries[entries.len() - 1].0);
        }
        assert(rest.push(entries.last()) =~= entries);
    } else {
        assert(entries =~= Seq::empty());
    }
}

} // verus!
