//! BSON values and query documents.

use vstd::prelude::*;

use crate::text::same;

verus! {

/// A regular expression and its options.
#[derive(Debug)]
pub struct Regex {
    pub pattern: String,
    pub options: String,
}

/// A BSON value.
#[derive(Debug)]
pub enum Bson {
    /// A double, by its IEEE 754 bits.
    Double(u64),
    String(String),
    Array(Vec<Bson>),
    Document(Document),
    Boolean(bool),
    Null,
    RegularExpression(Regex),
    Int32(i32),
    Int64(i64),
    Timestamp { time: u32, increment: u32 },
    Binary(Vec<u8>),
    ObjectId([u8; 12]),
    /// Milliseconds since the epoch.
    DateTime(i64),
    Symbol(String),
    /// A value of any other type, by the alias `$type` knows it by.
    Other(String),
}

/// Keys and values, in the order in which they were first inserted.
#[derive(Debug)]
pub struct Document {
    pub entries: Vec<(String, Bson)>,
}

/// What a [`Bson`] holds.
#[verifier::ext_equal]
pub enum BsonView {
    Double(u64),
    String(Seq<char>),
    Array(Seq<BsonView>),
    Document(Seq<(Seq<char>, BsonView)>),
    Boolean(bool),
    Null,
    RegularExpression(Seq<char>, Seq<char>),
    Int32(i32),
    Int64(i64),
    Timestamp { time: u32, increment: u32 },
    Binary(Seq<u8>),
    ObjectId(Seq<u8>),
    DateTime(i64),
    Symbol(Seq<char>),
    Other(Seq<char>),
}

/// What each of `values` holds.
pub open spec fn value_views(values: Seq<Bson>) -> Seq<BsonView>
    decreases values,
{
    Seq::new(
        values.len(),
        |i: int| if 0 <= i < values.len() {
            values[i].view()
        } else {
            arbitrary()
        },
    )
}

/// What each of `entries` holds.
pub open spec fn entry_views(entries: Seq<(String, Bson)>) -> Seq<(Seq<char>, BsonView)>
    decreases entries,
{
    Seq::new(
        entries.len(),
        |i: int| if 0 <= i < entries.len() {
            (entries[i].0@, entries[i].1.view())
        } else {
            arbitrary()
        },
    )
}

/// What each of `documents` holds.
pub open spec fn document_views(documents: Seq<Document>) -> Seq<Seq<(Seq<char>, BsonView)>> {
    Seq::new(documents.len(), |i: int| documents[i]@)
}

impl Bson {
    pub open spec fn view(&self) -> BsonView
        decreases self,
    {
        match *self {
            Bson::Double(bits) => BsonView::Double(bits),
            Bson::String(s) => BsonView::String(s@),
            Bson::Array(values) => BsonView::Array(value_views(values@)),
            Bson::Document(document) => BsonView::Document(document.view()),
            Bson::Boolean(b) => BsonView::Boolean(b),
            Bson::Null => BsonView::Null,
            Bson::RegularExpression(regex) => BsonView::RegularExpression(
                regex.pattern@,
                regex.options@,
            ),
            Bson::Int32(v) => BsonView::Int32(v),
            Bson::Int64(v) => BsonView::Int64(v),
            Bson::Timestamp { time, increment } => BsonView::Timestamp { time, increment },
            Bson::Binary(bytes) => BsonView::Binary(bytes@),
            Bson::ObjectId(bytes) => BsonView::ObjectId(bytes@),
            Bson::DateTime(v) => BsonView::DateTime(v),
            Bson::Symbol(s) => BsonView::Symbol(s@),
            Bson::Other(alias) => BsonView::Other(alias@),
        }
    }

    /// A string value.
    pub fn text(s: &str) -> (r: Bson)
        ensures
            r@ == BsonView::String(s@),
    {
        Bson::String(s.to_owned())
    }
}

/// The position of `key` among `entries`.
pub open spec fn key_position(entries: Seq<(Seq<char>, BsonView)>, key: Seq<char>) -> Option<int>
    decreases entries.len(),
{
    if entries.len() == 0 {
        None
    } else {
        match key_position(entries.drop_last(), key) {
            Some(i) => Some(i),
            None => if entries.last().0 == key {
                Some(entries.len() - 1)
            } else {
                None
            },
        }
    }
}

/// `entries` with `key` set to `value`: in its place where the key is there,
/// behind the others where it is not.
pub open spec fn with_entry(
    entries: Seq<(Seq<char>, BsonView)>,
    key: Seq<char>,
    value: BsonView,
) -> Seq<(Seq<char>, BsonView)> {
    match key_position(entries, key) {
        Some(i) => entries.update(i, (key, value)),
        None => entries.push((key, value)),
    }
}

/// `entries` with each of `more` set in turn.
pub open spec fn with_entries(
    entries: Seq<(Seq<char>, BsonView)>,
    more: Seq<(Seq<char>, BsonView)>,
) -> Seq<(Seq<char>, BsonView)>
    decreases more.len(),
{
    if more.len() == 0 {
        entries
    } else {
        with_entry(with_entries(entries, more.drop_last()), more.last().0, more.last().1)
    }
}

pub proof fn key_position_is_first(entries: Seq<(Seq<char>, BsonView)>, key: Seq<char>)
    ensures
        match key_position(entries, key) {
            Some(i) => 0 <= i < entries.len() && entries[i].0 == key && forall|k: int|
                0 <= k < i ==> (#[trigger] entries[k]).0 != key,
            None => forall|k: int| 0 <= k < entries.len() ==> (#[trigger] entries[k]).0 != key,
        },
    decreases entries.len(),
{
    if entries.len() > 0 {
        key_position_is_first(entries.drop_last(), key);
        assert forall|k: int| 0 <= k < entries.len() - 1 implies #[trigger] entries[k]
            == entries.drop_last()[k] by {}
    }
}

impl Document {
    pub open spec fn view(&self) -> Seq<(Seq<char>, BsonView)>
        decreases self,
    {
        entry_views(self.entries@)
    }

    /// A document without entries.
    pub fn new() -> (r: Document)
        ensures
            r@ == Seq::<(Seq<char>, BsonView)>::empty(),
    {
        let r = Document { entries: Vec::new() };
        assert(r@ =~= Seq::<(Seq<char>, BsonView)>::empty());
        r
    }

    /// A document of one entry.
    pub fn of(key: &str, value: Bson) -> (r: Document)
        ensures
            r@ == seq![(key@, value@)],
    {
        let mut r = Document { entries: Vec::new() };
        r.entries.push((key.to_owned(), value));
        assert(r@ =~= seq![(key@, value@)]);
        r
    }

    /// The position of `key`.
    fn position(&self, key: &str) -> (r: Option<usize>)
        ensures
            match r {
                Some(i) => key_position(self@, key@) == Some(i as int),
                None => key_position(self@, key@) is None,
            },
            r matches Some(i) ==> i < self.entries.len(),
    {
        let mut i: usize = 0;
        while i < self.entries.len()
            invariant
                i <= self.entries.len(),
                forall|k: int| 0 <= k < i ==> (#[trigger] self@[k]).0 != key@,
            decreases self.entries.len() - i,
        {
            assert(self@[i as int].0 == self.entries@[i as int].0@);
            if same(self.entries[i].0.as_str(), key) {
                proof {
                    key_position_is_first(self@, key@);
                }
                return Some(i);
            }
            i += 1;
        }
        proof {
            key_position_is_first(self@, key@);
        }
        None
    }

    /// Whether the document has an entry for `key`.
    pub fn contains_key(&self, key: &str) -> (r: bool)
        ensures
            r == (key_position(self@, key@) is Some),
    {
        self.position(key).is_some()
    }

    /// Sets `key` to `value`: in its place where the key is there, behind the
    /// others where it is not.
    pub fn insert(&mut self, key: &str, value: Bson)
        ensures
            final(self)@ == with_entry(old(self)@, key@, value@),
    {
        let ghost before = self@;
        match self.position(key) {
            Some(i) => {
                self.entries.set(i, (key.to_owned(), value));
                assert(self@ =~= before.update(i as int, (key@, value@)));
            },
            None => {
                self.entries.push((key.to_owned(), value));
                assert(self@ =~= before.push((key@, value@)));
            },
        }
    }

    /// Sets each entry of `more` in turn.
    pub fn extend(&mut self, more: Document)
        ensures
            final(self)@ == with_entries(old(self)@, more@),
    {
        let ghost before = self@;
        let ghost all = more@;
        let mut rest = more.entries;
        let mut reversed: Vec<(String, Bson)> = Vec::new();
        while rest.len() > 0
            invariant
                rest.len() + reversed.len() == all.len(),
                forall|k: int| 0 <= k < rest.len() ==> entry_views(rest@)[k] == all[k],
                forall|k: int|
                    0 <= k < reversed.len() ==> entry_views(reversed@)[k] == all[all.len() - 1 - k],
            decreases rest.len(),
        {
            let ghost was = rest@;
            let ghost rev = reversed@;
            match rest.pop() {
                Some(entry) => {
                    assert(entry_views(was)[was.len() - 1] == all[was.len() - 1]);
                    reversed.push(entry);
                    assert forall|k: int| 0 <= k < rest.len() implies entry_views(rest@)[k]
                        == all[k] by {
                        assert(entry_views(was)[k] == all[k]);
                    }
                    assert forall|k: int| 0 <= k < reversed.len() implies entry_views(reversed@)[k]
                        == all[all.len() - 1 - k] by {
                        if k < rev.len() {
                            assert(entry_views(rev)[k] == all[all.len() - 1 - k]);
                        }
                    }
                },
                None => {},
            }
        }
        let ghost mut done: int = 0;
        assert(all.take(0) =~= Seq::<(Seq<char>, BsonView)>::empty());
        while reversed.len() > 0
            invariant
                0 <= done <= all.len(),
                reversed.len() == all.len() - done,
                forall|k: int|
                    0 <= k < reversed.len() ==> entry_views(reversed@)[k] == all[all.len() - 1 - k],
                self@ == with_entries(before, all.take(done)),
            decreases reversed.len(),
        {
            let ghost was = reversed@;
            match reversed.pop() {
                Some((key, value)) => {
                    proof {
                        assert(entry_views(was)[was.len() - 1] == all[done]);
                        assert(all.take(done + 1).drop_last() =~= all.take(done));
                        assert(all.take(done + 1).last() == all[done]);
                    }
                    self.insert(key.as_str(), value);
                    proof {
                        done = done + 1;
                        assert forall|k: int| 0 <= k < reversed.len() implies entry_views(
                            reversed@,
                        )[k] == all[all.len() - 1 - k] by {
                            assert(entry_views(was)[k] == all[all.len() - 1 - k]);
                        }
                    }
                },
                None => {},
            }
        }
        assert(all.take(done) =~= all);
    }
}

/// The values of an array, one for each of `texts`.
pub fn text_array(texts: &Vec<String>) -> (r: Vec<Bson>)
    ensures
        value_views(r@) == crate::text::texts(texts@).map_values(
            |s: Seq<char>| BsonView::String(s),
        ),
{
    let mut r: Vec<Bson> = Vec::new();
    let mut i: usize = 0;
    while i < texts.len()
        invariant
            i <= texts.len(),
            r.len() == i,
            forall|k: int| 0 <= k < i ==> (#[trigger] r@[k])@ == BsonView::String(texts@[k]@),
        decreases texts.len() - i,
    {
        r.push(Bson::text(texts[i].as_str()));
        i += 1;
    }
    assert(value_views(r@) =~= crate::text::texts(texts@).map_values(
        |s: Seq<char>| BsonView::String(s),
    ));
    r
}

/// A key that is set holds its value, at the first place of the key where it was
/// there and behind the others where it was not. Every other entry stays.
pub proof fn a_set_key_holds_its_value(
    entries: Seq<(Seq<char>, BsonView)>,
    key: Seq<char>,
    value: BsonView,
)
    ensures
        with_entry(entries, key, value).contains((key, value)),
        with_entry(entries, key, value).len() >= entries.len(),
        forall|k: int|
            0 <= k < entries.len() && (#[trigger] entries[k]).0 != key ==> with_entry(
                entries,
                key,
                value,
            )[k] == entries[k],
        forall|i: int|
            0 <= i < entries.len() && (#[trigger] entries[i]).0 == key && (forall|k: int|
                0 <= k < i ==> (#[trigger] entries[k]).0 != key) ==> with_entry(
                entries,
                key,
                value,
            ) == entries.update(i, (key, value)),
        (forall|k: int| 0 <= k < entries.len() ==> (#[trigger] entries[k]).0 != key) ==> with_entry(
            entries,
            key,
            value,
        ) == entries.push((key, value)),
{
    key_position_is_first(entries, key);
    let after = with_entry(entries, key, value);
    match key_position(entries, key) {
        Some(i) => {
            assert(after[i] == (key, value));
        },
        None => {
            assert(after[entries.len() as int] == (key, value));
        },
    }
}

/// Of the entries that are set, the last of a key is kept, and an entry whose key
/// is not among them stays as it was.
pub proof fn the_last_value_of_a_key_is_kept(
    entries: Seq<(Seq<char>, BsonView)>,
    more: Seq<(Seq<char>, BsonView)>,
)
    ensures
        with_entries(entries, more).len() >= entries.len(),
        forall|i: int|
            0 <= i < more.len() && (forall|j: int|
                i < j < more.len() ==> (#[trigger] more[j]).0 != more[i].0) ==> with_entries(
                entries,
                more,
            ).contains(#[trigger] more[i]),
        forall|k: int|
            0 <= k < entries.len() && (forall|j: int|
                0 <= j < more.len() ==> (#[trigger] more[j]).0 != entries[k].0) ==> with_entries(
                entries,
                more,
            )[k] == #[trigger] entries[k],
    decreases more.len(),
{
    if more.len() > 0 {
        let rest = more.drop_last();
        let (key, value) = more.last();
        let before = with_entries(entries, rest);
        let after = with_entries(entries, more);
        the_last_value_of_a_key_is_kept(entries, rest);
        a_set_key_holds_its_value(before, key, value);
        assert(more[more.len() - 1] == (key, value));
        assert forall|i: int|
            0 <= i < more.len() && (forall|j: int|
                i < j < more.len() ==> (#[trigger] more[j]).0 != more[i].0) implies after.contains(
            #[trigger] more[i]) by {
            if i < rest.len() {
                assert(more[more.len() - 1].0 != more[i].0);
                assert(rest[i] == more[i]);
                assert forall|j: int| i < j < rest.len() implies (#[trigger] rest[j]).0
                    != rest[i].0 by {
                    assert(more[j].0 != more[i].0);
                }
                assert(before.contains(rest[i]));
                let at = choose|at: int| 0 <= at < before.len() && before[at] == rest[i];
                assert(after[at] == before[at]);
            }
        }
        assert forall|k: int|
            0 <= k < entries.len() && (forall|j: int|
                0 <= j < more.len() ==> (#[trigger] more[j]).0 != entries[k].0) implies after[k]
            == #[trigger] entries[k] by {
            assert(more[more.len() - 1].0 != entries[k].0);
            assert forall|j: int| 0 <= j < rest.len() implies (#[trigger] rest[j]).0
                != entries[k].0 by {
                assert(more[j].0 != entries[k].0);
            }
            assert(before[k] == entries[k]);
        }
    }
}

} // verus!
