//! Translation of filter expressions into MongoDB query documents.
//!
//! A pushed-down filter has to select exactly the documents whose row satisfies
//! the SQL predicate, or, when it is reported inexact, a superset of them that
//! is then filtered again. MongoDB matches documents differently from how SQL
//! evaluates the converted rows, so a literal operator-for-operator translation
//! selects the wrong documents:
//!
//! * `$ne`, `$nin`, `$not` and `$nor` match a document whose field is null or
//!   missing, where SQL's three-valued logic makes the predicate NULL.
//! * Comparisons are bracketed by BSON type (`{f: {$gt: "6"}}` never matches the
//!   number 7), while the conversion renders a non-string value into a string
//!   column: an `ObjectId` as its hex string, a document as JSON.
//! * A comparison matches an array when any element matches, while the
//!   conversion turns an array in a scalar column into NULL.
//! * Numeric comparisons cross `int`, `long` and `double`, while the conversion
//!   keeps only the BSON types the column's type accepts.
//! * NaN compares false against every number, while rows order it above them
//!   (or, with the sign bit set, below them); `-0.0` equals `0.0`, while rows
//!   order it below.
//!
//! So each comparison is guarded by the BSON types its column accepts, arrays
//! are excluded wherever the conversion nulls them, and a negation is pushed
//! down to the comparisons instead of being wrapped in `$nor` or `$not`.

use vstd::prelude::*;

use crate::arith::{saturating_product, saturating_sum};
use crate::logical::{Expr, Operator, ScalarValue};
use crate::mongodb::bson::{Bson, BsonView, Document};
use crate::mongodb::field::{instant_millis, literal, numeric, resolve, string, Field, FieldModel, FilterScope, Kind, Numeric, NumericView};
use crate::mongodb::filter::{all_of, and, any_of, either, none_of, nothing, or, Doc, FilterView, MongoFilter};
use crate::mongodb::float::{double_of, integer_float_set, is_beyond_exact, is_nan, is_zero, EXACT_INTEGERS, NAN};
use crate::mongodb::intset::{Cmp, IntSet};
use crate::mongodb::like::like_regex;
use crate::text::char_vec;
use crate::types::Schema;

verus! {

/// The milliseconds of a day.
pub const MILLIS_PER_DAY: i128 = 86_400_000;

/// The first millisecond of the dates that `chrono` represents.
pub const FIRST_MILLI: i64 = -8_334_601_228_800_000;

/// The last millisecond of the dates that `chrono` represents.
pub const LAST_MILLI: i64 = 8_210_266_876_799_999;

/// `DateTime::<Utc>::MIN_UTC.timestamp_millis()`: the first instant `chrono`
/// represents is the start of January 1, 262144 BCE.
#[verifier::external_body]
fn min_utc_millis() -> (r: i64)
    ensures
        r == FIRST_MILLI,
{
    chrono::DateTime::<chrono::Utc>::MIN_UTC.timestamp_millis()
}

/// `DateTime::<Utc>::MAX_UTC.timestamp_millis()`: the last instant `chrono`
/// represents is the end of December 31, 262142 CE.
#[verifier::external_body]
fn max_utc_millis() -> (r: i64)
    ensures
        r == LAST_MILLI,
{
    chrono::DateTime::<chrono::Utc>::MAX_UTC.timestamp_millis()
}

/// The value of a hexadecimal digit, in either case.
pub open spec fn hex_value(c: char) -> Option<int> {
    if '0' <= c <= '9' {
        Some(c as int - 48)
    } else if 'a' <= c <= 'f' {
        Some(c as int - 87)
    } else if 'A' <= c <= 'F' {
        Some(c as int - 55)
    } else {
        None
    }
}

/// The bytes that hexadecimal digits spell, two digits a byte.
pub open spec fn hex_bytes(s: Seq<char>) -> Seq<u8> {
    Seq::new(
        (s.len() / 2) as nat,
        |i: int| (hex_value(s[2 * i])->0 * 16 + hex_value(s[2 * i + 1])->0) as u8,
    )
}

/// Whether `s` is twenty-four hexadecimal digits.
pub open spec fn is_object_id(s: Seq<char>) -> bool {
    s.len() == 24 && forall|i: int| 0 <= i < 24 ==> hex_value(#[trigger] s[i]) is Some
}

/// `ObjectId::parse_str` and `ObjectId::bytes`: twenty-four hexadecimal digits,
/// in either case, name the twelve bytes they spell; no other string names an
/// `ObjectId`.
#[verifier::external_body]
fn parse_object_id(s: &str) -> (r: Option<[u8; 12]>)
    ensures
        r is Some == is_object_id(s@),
        r matches Some(bytes) ==> bytes@ == hex_bytes(s@),
{
    mongodb::bson::oid::ObjectId::parse_str(s).ok().map(|id| id.bytes())
}

/// The `ObjectId` whose hex rendering is `s`.
pub open spec fn object_id_of(s: Seq<char>) -> Option<Seq<u8>> {
    if s.len() == 24 && forall|i: int|
        0 <= i < 24 ==> ('0' <= #[trigger] s[i] <= '9' || 'a' <= s[i] <= 'f') {
        Some(hex_bytes(s))
    } else {
        None
    }
}

/// The `ObjectId` whose hex rendering is `s`. The conversion renders lowercase
/// hex, so an uppercase spelling names no row.
pub fn object_id(s: &str) -> (r: Option<[u8; 12]>)
    ensures
        match r {
            Some(bytes) => object_id_of(s@) == Some(bytes@),
            None => object_id_of(s@) is None,
        },
{
    let cs = char_vec(s);
    if cs.len() != 24 {
        return None;
    }
    let mut i: usize = 0;
    while i < 24
        invariant
            i <= 24,
            cs.len() == 24,
            cs@ == s@,
            forall|k: int| 0 <= k < i ==> ('0' <= #[trigger] s@[k] <= '9' || 'a' <= s@[k] <= 'f'),
        decreases 24 - i,
    {
        let c: char = cs[i];
        if !(('0' <= c && c <= '9') || ('a' <= c && c <= 'f')) {
            assert(!('0' <= s@[i as int] <= '9' || 'a' <= s@[i as int] <= 'f'));
            return None;
        }
        i += 1;
    }
    assert(is_object_id(s@));
    parse_object_id(s)
}

/// `v` moved into the range of `i64`.
pub open spec fn clamped64(v: int) -> i64 {
    if v < i64::MIN {
        i64::MIN
    } else if v > i64::MAX {
        i64::MAX
    } else {
        v as i64
    }
}

/// An integer as BSON: an `int` where it fits one, else a `long`.
pub open spec fn integer_bson(v: int) -> BsonView {
    if i32::MIN <= v <= i32::MAX {
        BsonView::Int32(v as i32)
    } else {
        BsonView::Int64(clamped64(v))
    }
}

fn clamp64(v: i128) -> (r: i64)
    ensures
        r == clamped64(v as int),
{
    if v < i64::MIN as i128 {
        i64::MIN
    } else if v > i64::MAX as i128 {
        i64::MAX
    } else {
        v as i64
    }
}

/// An integer as BSON: an `int` where it fits one, else a `long`.
pub fn integer(v: i128) -> (r: Bson)
    ensures
        r@ == integer_bson(v as int),
{
    if i32::MIN as i128 <= v && v <= i32::MAX as i128 {
        Bson::Int32(v as i32)
    } else {
        // Every bound this is given lies within the column's range, which is
        // within the range of `i64`.
        Bson::Int64(clamp64(v))
    }
}

/// Milliseconds as a BSON `date`.
pub fn millis(v: i128) -> (r: Bson)
    ensures
        r@ == BsonView::DateTime(clamped64(v as int)),
{
    Bson::DateTime(clamp64(v))
}

/// Seconds as a BSON `timestamp`.
pub open spec fn timestamp_bson(seconds: int, increment: u32) -> BsonView {
    BsonView::Timestamp {
        time: if seconds < 0 {
            0
        } else if seconds > u32::MAX {
            u32::MAX
        } else {
            seconds as u32
        },
        increment,
    }
}

/// Seconds as a BSON `timestamp`.
pub fn timestamp(seconds: i128, increment: u32) -> (r: Bson)
    ensures
        r@ == timestamp_bson(seconds as int, increment),
{
    let time: u32 = if seconds < 0 {
        0
    } else if seconds > u32::MAX as i128 {
        u32::MAX
    } else {
        seconds as u32
    };
    Bson::Timestamp { time, increment }
}

/// The operand of `$type` for a list of type aliases.
pub open spec fn type_operand(aliases: Seq<Seq<char>>) -> BsonView {
    if aliases.len() == 1 {
        BsonView::String(aliases[0])
    } else {
        BsonView::Array(aliases.map_values(|s: Seq<char>| BsonView::String(s)))
    }
}

/// The operand of `$type` for a list of type aliases.
pub fn types(aliases: &Vec<String>) -> (r: Bson)
    ensures
        r@ == type_operand(crate::text::texts(aliases@)),
{
    if aliases.len() == 1 {
        Bson::text(aliases[0].as_str())
    } else {
        Bson::Array(crate::mongodb::bson::text_array(aliases))
    }
}

/// The aliases of the types an integer column accepts.
pub open spec fn integer_aliases(wide: bool) -> Seq<Seq<char>> {
    if wide {
        seq!["int"@, "long"@]
    } else {
        seq!["int"@]
    }
}

/// The aliases of the numbers.
pub open spec fn number_aliases() -> Seq<Seq<char>> {
    seq!["double"@, "int"@, "long"@]
}

/// The aliases of the instants.
pub open spec fn instant_aliases() -> Seq<Seq<char>> {
    seq!["date"@, "timestamp"@]
}

/// The aliases of every type that renders into a string column, other than a
/// string itself: without embedded documents when they are flattened away, and
/// without `ObjectId`s when they are accounted for.
pub open spec fn rendered_aliases(flattened: bool, object_ids_handled: bool) -> Seq<Seq<char>> {
    seq!["double"@] + (if flattened {
        Seq::empty()
    } else {
        seq!["object"@]
    }) + seq!["array"@, "binData"@, "undefined"@] + (if object_ids_handled {
        Seq::empty()
    } else {
        seq!["objectId"@]
    }) + seq![
        "bool"@,
        "date"@,
        "regex"@,
        "dbPointer"@,
        "javascript"@,
        "symbol"@,
        "javascriptWithScope"@,
        "int"@,
        "timestamp"@,
        "long"@,
        "decimal"@,
        "minKey"@,
        "maxKey"@,
    ]
}

fn one_alias(alias: &str) -> (r: Vec<String>)
    ensures
        crate::text::texts(r@) == seq![alias@],
{
    let mut r: Vec<String> = Vec::new();
    r.push(alias.to_owned());
    assert(crate::text::texts(r@) =~= seq![alias@]);
    r
}

fn add_alias(aliases: &mut Vec<String>, alias: &str)
    ensures
        crate::text::texts(final(aliases)@) == crate::text::texts(old(aliases)@).push(alias@),
{
    let ghost before = aliases@;
    aliases.push(alias.to_owned());
    assert(crate::text::texts(aliases@) =~= crate::text::texts(before).push(alias@));
}

fn integer_types(wide: bool) -> (r: Vec<String>)
    ensures
        crate::text::texts(r@) == integer_aliases(wide),
{
    let mut r = one_alias("int");
    if wide {
        add_alias(&mut r, "long");
        assert(crate::text::texts(r@) =~= integer_aliases(true));
    }
    r
}

fn number_types() -> (r: Vec<String>)
    ensures
        crate::text::texts(r@) == number_aliases(),
{
    let mut r = one_alias("double");
    add_alias(&mut r, "int");
    add_alias(&mut r, "long");
    assert(crate::text::texts(r@) =~= number_aliases());
    r
}

fn instant_types() -> (r: Vec<String>)
    ensures
        crate::text::texts(r@) == instant_aliases(),
{
    let mut r = one_alias("date");
    add_alias(&mut r, "timestamp");
    assert(crate::text::texts(r@) =~= instant_aliases());
    r
}

fn rendered_types(flattened: bool, object_ids_handled: bool) -> (r: Vec<String>)
    ensures
        crate::text::texts(r@) == rendered_aliases(flattened, object_ids_handled),
{
    let mut r = one_alias("double");
    if !flattened {
        add_alias(&mut r, "object");
    }
    add_alias(&mut r, "array");
    add_alias(&mut r, "binData");
    add_alias(&mut r, "undefined");
    if !object_ids_handled {
        add_alias(&mut r, "objectId");
    }
    add_alias(&mut r, "bool");
    add_alias(&mut r, "date");
    add_alias(&mut r, "regex");
    add_alias(&mut r, "dbPointer");
    add_alias(&mut r, "javascript");
    add_alias(&mut r, "symbol");
    add_alias(&mut r, "javascriptWithScope");
    add_alias(&mut r, "int");
    add_alias(&mut r, "timestamp");
    add_alias(&mut r, "long");
    add_alias(&mut r, "decimal");
    add_alias(&mut r, "minKey");
    add_alias(&mut r, "maxKey");
    assert(crate::text::texts(r@) =~= rendered_aliases(flattened, object_ids_handled));
    r
}

/// The condition that a value is no array.
pub open spec fn not_array() -> BsonView {
    BsonView::Document(crate::mongodb::filter::entry("$type"@, BsonView::String("array"@)))
}

/// The guard that the parent `parent` is no array.
pub open spec fn guard_doc(parent: Seq<char>) -> Doc {
    crate::mongodb::filter::entry(
        parent,
        BsonView::Document(crate::mongodb::filter::entry("$not"@, not_array())),
    )
}

/// `condition` applied to `path`, requiring each parent along it to be a
/// document rather than an array.
pub open spec fn at_doc(path: Seq<char>, condition: BsonView) -> Doc {
    let parents = crate::mongodb::field::parents_of(path);
    let leaf = crate::mongodb::filter::entry(path, condition);
    if parents.len() == 0 {
        leaf
    } else {
        crate::mongodb::filter::combined(
            "$and"@,
            parents.map_values(|p: Seq<char>| guard_doc(p)).push(leaf),
        )
    }
}

/// A value of one of `accepted`, not an array, meeting `conditions`.
pub open spec fn scalar_doc(path: Seq<char>, accepted: Seq<Seq<char>>, conditions: Doc) -> Doc {
    at_doc(
        path,
        BsonView::Document(
            crate::mongodb::bson::with_entry(
                crate::mongodb::bson::with_entries(
                    crate::mongodb::filter::entry("$type"@, type_operand(accepted)),
                    conditions,
                ),
                "$not"@,
                not_array(),
            ),
        ),
    )
}

/// `condition` applied to `path`, requiring each parent along it to be a
/// document rather than an array.
pub fn at(field: &Field<'_>, condition: Bson) -> (r: Document)
    ensures
        r@ == at_doc(field.path@, condition@),
{
    let leaf = Document::of(field.path, condition);
    let parents = field.parents();
    if parents.len() == 0 {
        assert(crate::text::texts(parents@).len() == 0);
        return leaf;
    }
    let mut guards: Vec<Document> = Vec::new();
    let mut i: usize = 0;
    while i < parents.len()
        invariant
            i <= parents.len(),
            guards.len() == i,
            forall|k: int| 0 <= k < i ==> (#[trigger] guards@[k])@ == guard_doc(parents@[k]@),
        decreases parents.len() - i,
    {
        let array = Document::of("$type", Bson::text("array"));
        let refused = Document::of("$not", Bson::Document(array));
        guards.push(Document::of(parents[i].as_str(), Bson::Document(refused)));
        i += 1;
    }
    guards.push(leaf);
    proof {
        let paths = crate::mongodb::field::parents_of(field.path@);
        assert(paths == crate::text::texts(parents@));
        assert(crate::mongodb::bson::document_views(guards@) =~= paths.map_values(
            |p: Seq<char>| guard_doc(p),
        ).push(leaf@));
    }
    all_of(guards)
}

/// A value of one of `accepted`, not an array, meeting `conditions`.
pub fn scalar(field: &Field<'_>, accepted: &Vec<String>, conditions: Document) -> (r: Document)
    ensures
        r@ == scalar_doc(field.path@, crate::text::texts(accepted@), conditions@),
{
    let mut condition = Document::of("$type", types(accepted));
    condition.extend(conditions);
    let array = Document::of("$type", Bson::text("array"));
    condition.insert("$not", Bson::Document(array));
    at(field, Bson::Document(condition))
}

/// The least integer that the types an integer column accepts can hold.
pub open spec fn natural_min(wide: bool) -> int {
    if wide {
        i64::MIN as int
    } else {
        i32::MIN as int
    }
}

/// The greatest integer that the types an integer column accepts can hold.
pub open spec fn natural_max(wide: bool) -> int {
    if wide {
        i64::MAX as int
    } else {
        i32::MAX as int
    }
}

fn least_natural(wide: bool) -> (r: i128)
    ensures
        r == natural_min(wide),
{
    if wide {
        i64::MIN as i128
    } else {
        i32::MIN as i128
    }
}

fn greatest_natural(wide: bool) -> (r: i128)
    ensures
        r == natural_max(wide),
{
    if wide {
        i64::MAX as i128
    } else {
        i32::MAX as i128
    }
}

/// `conditions`, bounded to `min..=max` where the accepted types reach further.
pub open spec fn bounded_to(conditions: Doc, wide: bool, min: int, max: int) -> Doc {
    let lower = if min > natural_min(wide) {
        crate::mongodb::bson::with_entry(conditions, "$gte"@, integer_bson(min))
    } else {
        conditions
    };
    if max < natural_max(wide) {
        crate::mongodb::bson::with_entry(lower, "$lte"@, integer_bson(max))
    } else {
        lower
    }
}

fn bound(conditions: &mut Document, wide: bool, min: i128, max: i128)
    ensures
        final(conditions)@ == bounded_to(old(conditions)@, wide, min as int, max as int),
{
    if min > least_natural(wide) {
        conditions.insert("$gte", integer(min));
    }
    if max < greatest_natural(wide) {
        conditions.insert("$lte", integer(max));
    }
}

/// Integers in `set`, which lies within the column's range.
pub open spec fn integers_doc(path: Seq<char>, wide: bool, set: IntSet) -> Doc {
    let none = Seq::<(Seq<char>, BsonView)>::empty();
    match set {
        IntSet::Empty => crate::mongodb::filter::nothing_doc(),
        IntSet::Range(lo, hi) => scalar_doc(
            path,
            integer_aliases(wide),
            if lo == hi {
                crate::mongodb::bson::with_entry(none, "$eq"@, integer_bson(lo as int))
            } else {
                bounded_to(none, wide, lo as int, hi as int)
            },
        ),
        IntSet::RangeBut(lo, hi, k) => scalar_doc(
            path,
            integer_aliases(wide),
            bounded_to(
                crate::mongodb::bson::with_entry(none, "$ne"@, integer_bson(k as int)),
                wide,
                lo as int,
                hi as int,
            ),
        ),
    }
}

/// Integers in `set`, which lies within the column's range.
pub fn integers(field: &Field<'_>, wide: bool, set: IntSet) -> (r: Document)
    ensures
        r@ == integers_doc(field.path@, wide, set),
{
    let mut conditions = Document::new();
    match set {
        IntSet::Empty => {
            return nothing();
        },
        IntSet::Range(lo, hi) => {
            if lo == hi {
                conditions.insert("$eq", integer(lo));
            } else {
                bound(&mut conditions, wide, lo, hi);
            }
        },
        IntSet::RangeBut(lo, hi, k) => {
            conditions.insert("$ne", integer(k));
            bound(&mut conditions, wide, lo, hi);
        },
    }
    scalar(field, &integer_types(wide), conditions)
}

/// `conditions` with the bounds on a `date` that are tighter than what it holds.
pub open spec fn between_dates(
    conditions: Seq<(Seq<char>, BsonView)>,
    lo: int,
    hi: int,
) -> Seq<(Seq<char>, BsonView)> {
    let lower = if i64::MIN < lo {
        crate::mongodb::bson::with_entry(conditions, "$gte"@, BsonView::DateTime(clamped64(lo)))
    } else {
        conditions
    };
    if i64::MAX > hi {
        crate::mongodb::bson::with_entry(lower, "$lte"@, BsonView::DateTime(clamped64(hi)))
    } else {
        lower
    }
}

/// `date`s whose milliseconds lie in `set`, omitting a bound the type already
/// implies. `None` when the set is empty.
pub open spec fn dates_doc(path: Seq<char>, set: IntSet) -> Option<Doc> {
    let none = Seq::<(Seq<char>, BsonView)>::empty();
    match set {
        IntSet::Empty => None,
        IntSet::Range(lo, hi) => Some(
            scalar_doc(
                path,
                seq!["date"@],
                if lo == hi {
                    crate::mongodb::bson::with_entry(
                        none,
                        "$eq"@,
                        BsonView::DateTime(clamped64(lo as int)),
                    )
                } else {
                    between_dates(none, lo as int, hi as int)
                },
            ),
        ),
        IntSet::RangeBut(lo, hi, k) => Some(
            scalar_doc(
                path,
                seq!["date"@],
                between_dates(
                    crate::mongodb::bson::with_entry(
                        none,
                        "$ne"@,
                        BsonView::DateTime(clamped64(k as int)),
                    ),
                    lo as int,
                    hi as int,
                ),
            ),
        ),
    }
}

/// `date`s whose milliseconds lie in `set`, omitting a bound the type already
/// implies. `None` when the set is empty.
pub fn bounded(field: &Field<'_>, set: IntSet) -> (r: Option<Document>)
    ensures
        match r {
            Some(document) => dates_doc(field.path@, set) == Some(document@),
            None => dates_doc(field.path@, set) is None,
        },
{
    let mut conditions = Document::new();
    match set {
        IntSet::Empty => {
            return None;
        },
        IntSet::Range(lo, hi) => {
            if lo == hi {
                conditions.insert("$eq", millis(lo));
            } else {
                if lo > i64::MIN as i128 {
                    conditions.insert("$gte", millis(lo));
                }
                if hi < i64::MAX as i128 {
                    conditions.insert("$lte", millis(hi));
                }
            }
        },
        IntSet::RangeBut(lo, hi, k) => {
            conditions.insert("$ne", millis(k));
            if lo > i64::MIN as i128 {
                conditions.insert("$gte", millis(lo));
            }
            if hi < i64::MAX as i128 {
                conditions.insert("$lte", millis(hi));
            }
        },
    }
    Some(scalar(field, &one_alias("date"), conditions))
}

/// The document, if there is one, as a list of alternatives.
pub open spec fn alternative(document: Option<Doc>) -> Seq<Doc> {
    match document {
        Some(d) => seq![d],
        None => Seq::empty(),
    }
}

/// The alternatives joined, or what matches nothing where there are none.
pub open spec fn any_or_nothing(branches: Seq<Doc>) -> Doc {
    if branches.len() == 0 {
        crate::mongodb::filter::nothing_doc()
    } else {
        crate::mongodb::filter::combined("$or"@, branches)
    }
}

fn add_branch(branches: &mut Vec<Document>, branch: Option<Document>)
    ensures
        crate::mongodb::bson::document_views(final(branches)@)
            == crate::mongodb::bson::document_views(old(branches)@) + alternative(
            match branch {
                Some(document) => Some(document@),
                None => None,
            },
        ),
{
    let ghost before = crate::mongodb::bson::document_views(branches@);
    match branch {
        Some(document) => {
            branches.push(document);
            assert(crate::mongodb::bson::document_views(branches@) =~= before + seq![document@]);
        },
        None => {
            assert(crate::mongodb::bson::document_views(branches@) =~= before + Seq::<Doc>::empty());
        },
    }
}

fn any_branch(branches: Vec<Document>) -> (r: Document)
    ensures
        r@ == any_or_nothing(crate::mongodb::bson::document_views(branches@)),
{
    if branches.len() == 0 {
        nothing()
    } else {
        any_of(branches)
    }
}

/// The alternatives that select the `date`s of `set`: those on either side of the
/// one that a bounded set leaves out.
pub open spec fn date_branches(path: Seq<char>, set: IntSet) -> Seq<Doc> {
    match set {
        IntSet::RangeBut(lo, hi, k) => if lo > i64::MIN || hi < i64::MAX {
            alternative(dates_doc(path, IntSet::from_to(lo as int, k - 1, None))) + alternative(
                dates_doc(path, IntSet::from_to(k + 1, hi as int, None)),
            )
        } else {
            alternative(dates_doc(path, set))
        },
        _ => alternative(dates_doc(path, set)),
    }
}

/// The document that selects the BSON `timestamp`s whose seconds lie in `set`.
pub open spec fn timestamps_doc(path: Seq<char>, set: IntSet) -> Option<Doc> {
    let none = Seq::<(Seq<char>, BsonView)>::empty();
    match set {
        IntSet::Empty => None,
        IntSet::Range(lo, hi) => {
            let lower = if lo > 0 {
                crate::mongodb::bson::with_entry(none, "$gte"@, timestamp_bson(lo as int, 0))
            } else {
                none
            };
            let conditions = if hi < u32::MAX {
                crate::mongodb::bson::with_entry(
                    lower,
                    "$lte"@,
                    timestamp_bson(hi as int, u32::MAX),
                )
            } else {
                lower
            };
            Some(scalar_doc(path, seq!["timestamp"@], conditions))
        },
        IntSet::RangeBut(lo, hi, second) => {
            let lower = if lo > 0 {
                crate::mongodb::bson::with_entry(none, "$gte"@, timestamp_bson(lo as int, 0))
            } else {
                none
            };
            let before = crate::mongodb::bson::with_entry(
                lower,
                "$lt"@,
                timestamp_bson(second as int, 0),
            );
            let above = crate::mongodb::bson::with_entry(
                none,
                "$gt"@,
                timestamp_bson(second as int, u32::MAX),
            );
            let after = if hi < u32::MAX {
                crate::mongodb::bson::with_entry(
                    above,
                    "$lte"@,
                    timestamp_bson(hi as int, u32::MAX),
                )
            } else {
                above
            };
            Some(
                crate::mongodb::filter::combined(
                    "$or"@,
                    seq![
                        scalar_doc(path, seq!["timestamp"@], before),
                        scalar_doc(path, seq!["timestamp"@], after),
                    ],
                ),
            )
        },
    }
}

fn timestamps(field: &Field<'_>, set: IntSet) -> (r: Option<Document>)
    ensures
        match r {
            Some(document) => timestamps_doc(field.path@, set) == Some(document@),
            None => timestamps_doc(field.path@, set) is None,
        },
{
    match set {
        IntSet::Empty => None,
        IntSet::Range(lo, hi) => {
            let mut conditions = Document::new();
            if lo > 0 {
                conditions.insert("$gte", timestamp(lo, 0));
            }
            if hi < u32::MAX as i128 {
                conditions.insert("$lte", timestamp(hi, u32::MAX));
            }
            Some(scalar(field, &one_alias("timestamp"), conditions))
        },
        IntSet::RangeBut(lo, hi, second) => {
            let mut before = Document::new();
            if lo > 0 {
                before.insert("$gte", timestamp(lo, 0));
            }
            before.insert("$lt", timestamp(second, 0));
            let mut after = Document::new();
            after.insert("$gt", timestamp(second, u32::MAX));
            if hi < u32::MAX as i128 {
                after.insert("$lte", timestamp(hi, u32::MAX));
            }
            let aliases = one_alias("timestamp");
            Some(either(scalar(field, &aliases, before), scalar(field, &aliases, after)))
        },
    }
}

/// Instants whose milliseconds lie in `set` and in `min..=max`, the range the
/// column's unit represents: a `date` by its milliseconds, a BSON `timestamp`
/// by the milliseconds of its seconds.
pub open spec fn instants_doc(path: Seq<char>, set: IntSet, min: int, max: int) -> Doc {
    let set = set.limited(min as i128, max as i128);
    any_or_nothing(
        date_branches(path, set) + alternative(
            timestamps_doc(path, set.coarsened(1_000).limited(0, u32::MAX as i128)),
        ),
    )
}

/// Instants whose milliseconds lie in `set` and in `min..=max`, the range the
/// column's unit represents: a `date` by its milliseconds, a BSON `timestamp`
/// by the milliseconds of its seconds.
pub fn instants(field: &Field<'_>, set: IntSet, min: i128, max: i128) -> (r: Document)
    requires
        i64::MIN <= min <= max <= i64::MAX,
    ensures
        r@ == instants_doc(field.path@, set, min as int, max as int),
{
    let set = set.within(min, max);
    let mut branches: Vec<Document> = Vec::new();
    assert(crate::mongodb::bson::document_views(branches@) =~= Seq::<Doc>::empty());
    match set {
        IntSet::RangeBut(lo, hi, k) => {
            if lo > i64::MIN as i128 || hi < i64::MAX as i128 {
                assert(min <= lo <= k <= hi <= max);
                add_branch(&mut branches, bounded(field, IntSet::between(lo, k - 1, None)));
                add_branch(&mut branches, bounded(field, IntSet::between(k + 1, hi, None)));
            } else {
                add_branch(&mut branches, bounded(field, set));
            }
        },
        _ => {
            add_branch(&mut branches, bounded(field, set));
        },
    }
    assert(crate::mongodb::bson::document_views(branches@) =~= date_branches(field.path@, set));
    let seconds = set.scaled_down(1_000).within(0, u32::MAX as i128);
    add_branch(&mut branches, timestamps(field, seconds));
    any_branch(branches)
}

/// The milliseconds of the days from `lo` to `hi`.
pub open spec fn days_to_millis(lo: int, hi: int) -> IntSet {
    IntSet::Range(
        crate::arith::clamped(lo * MILLIS_PER_DAY),
        crate::arith::clamped(
            crate::arith::clamped(
                crate::arith::clamped(hi + 1) * MILLIS_PER_DAY,
            ) - 1,
        ),
    )
}

/// The milliseconds of the days of `set`, among the dates `chrono` represents.
pub open spec fn millis_of_days(set: IntSet) -> IntSet {
    (match set {
        IntSet::Empty => IntSet::Empty,
        IntSet::Range(lo, hi) => days_to_millis(lo as int, hi as int),
        IntSet::RangeBut(lo, hi, _) => days_to_millis(lo as int, hi as int),
    }).limited(FIRST_MILLI as i128, LAST_MILLI as i128)
}

/// `date`s whose UTC day lies in `set`.
pub open spec fn days_doc(path: Seq<char>, set: IntSet) -> Doc {
    match set {
        IntSet::RangeBut(lo, hi, day) => any_or_nothing(
            alternative(
                dates_doc(path, millis_of_days(IntSet::Range(lo, (day - 1) as i128))),
            ) + alternative(
                dates_doc(path, millis_of_days(IntSet::Range((day + 1) as i128, hi))),
            ),
        ),
        _ => match dates_doc(path, millis_of_days(set)) {
            Some(document) => document,
            None => crate::mongodb::filter::nothing_doc(),
        },
    }
}

fn day_millis(set: IntSet) -> (r: IntSet)
    ensures
        r == millis_of_days(set),
{
    let min: i128 = min_utc_millis() as i128;
    let max: i128 = max_utc_millis() as i128;
    let all = match set {
        IntSet::Empty => IntSet::Empty,
        IntSet::Range(lo, hi) | IntSet::RangeBut(lo, hi, _) => IntSet::Range(
            saturating_product(lo, MILLIS_PER_DAY),
            saturating_sum(saturating_product(saturating_sum(hi, 1), MILLIS_PER_DAY), -1),
        ),
    };
    all.within(min, max)
}

/// `date`s whose UTC day lies in `set`. The conversion nulls a `date` `chrono`
/// cannot represent, so those are excluded too.
pub fn days(field: &Field<'_>, set: IntSet) -> (r: Document)
    requires
        set matches IntSet::RangeBut(_, _, day) ==> i128::MIN < day < i128::MAX,
    ensures
        r@ == days_doc(field.path@, set),
{
    match set {
        IntSet::RangeBut(lo, hi, day) => {
            let before = day_millis(IntSet::Range(lo, day - 1));
            let after = day_millis(IntSet::Range(day + 1, hi));
            let mut branches: Vec<Document> = Vec::new();
            assert(crate::mongodb::bson::document_views(branches@) =~= Seq::<Doc>::empty());
            add_branch(&mut branches, bounded(field, before));
            add_branch(&mut branches, bounded(field, after));
            assert(crate::mongodb::bson::document_views(branches@) =~= alternative(
                dates_doc(field.path@, before),
            ) + alternative(dates_doc(field.path@, after)));
            any_branch(branches)
        },
        _ => match bounded(field, day_millis(set)) {
            Some(document) => document,
            None => nothing(),
        },
    }
}

/// A document without entries.
pub open spec fn no_conditions() -> Doc {
    Seq::empty()
}

/// The rows whose column is not NULL.
pub open spec fn not_null_doc(f: FieldModel) -> Doc {
    match f.kind {
        Kind::Utf8 => crate::mongodb::filter::combined(
            "$or"@,
            seq![
                at_doc(
                    f.path,
                    BsonView::Document(
                        crate::mongodb::filter::entry("$type"@, BsonView::String("array"@)),
                    ),
                ),
                at_doc(
                    f.path,
                    BsonView::Document(
                        crate::mongodb::bson::with_entry(
                            crate::mongodb::filter::entry("$exists"@, BsonView::Boolean(true)),
                            "$not"@,
                            BsonView::Document(
                                crate::mongodb::filter::entry(
                                    "$type"@,
                                    type_operand(
                                        if f.flattened {
                                            seq!["null"@, "object"@]
                                        } else {
                                            seq!["null"@]
                                        },
                                    ),
                                ),
                            ),
                        ),
                    ),
                ),
            ],
        ),
        Kind::Boolean => scalar_doc(f.path, seq!["bool"@], no_conditions()),
        Kind::Integer { wide, min, max } => integers_doc(
            f.path,
            wide,
            IntSet::Range(i128::MIN, i128::MAX).limited(min, max),
        ),
        Kind::Float64 => scalar_doc(f.path, number_aliases(), no_conditions()),
        Kind::Instant { min, max } => if min <= i64::MIN && max >= i64::MAX {
            scalar_doc(f.path, instant_aliases(), no_conditions())
        } else {
            instants_doc(f.path, IntSet::Range(i128::MIN, i128::MAX), min as int, max as int)
        },
        Kind::Date32 => days_doc(f.path, IntSet::Range(i128::MIN, i128::MAX)),
        Kind::Binary => scalar_doc(f.path, seq!["binData"@], no_conditions()),
        Kind::List => at_doc(
            f.path,
            BsonView::Document(
                crate::mongodb::filter::entry("$type"@, BsonView::String("array"@)),
            ),
        ),
    }
}

/// The rows whose column is not NULL.
pub fn not_null(field: &Field<'_>) -> (r: Document)
    requires
        field.kind.wf(),
    ensures
        r@ == not_null_doc(field@),
{
    match field.kind {
        Kind::Utf8 => {
            // Every value but null renders, arrays of nulls included; an
            // embedded document does not when unnesting flattens it away.
            let mut absent = one_alias("null");
            if field.documents_flattened {
                add_alias(&mut absent, "object");
                assert(crate::text::texts(absent@) =~= seq!["null"@, "object"@]);
            }
            let array = Document::of("$type", Bson::text("array"));
            let mut present = Document::of("$exists", Bson::Boolean(true));
            let refused = Document::of("$type", types(&absent));
            present.insert("$not", Bson::Document(refused));
            either(at(field, Bson::Document(array)), at(field, Bson::Document(present)))
        },
        Kind::Boolean => scalar(field, &one_alias("bool"), Document::new()),
        Kind::Integer { wide, min, max } => integers(
            field,
            wide,
            IntSet::all().within(min, max),
        ),
        Kind::Float64 => scalar(field, &number_types(), Document::new()),
        Kind::Instant { min, max } => {
            if min <= i64::MIN as i128 && max >= i64::MAX as i128 {
                scalar(field, &instant_types(), Document::new())
            } else {
                instants(field, IntSet::all(), min, max)
            }
        },
        Kind::Date32 => days(field, IntSet::all()),
        Kind::Binary => scalar(field, &one_alias("binData"), Document::new()),
        Kind::List => {
            let array = Document::of("$type", Bson::text("array"));
            at(field, Bson::Document(array))
        },
    }
}

/// The rows whose column is NULL.
pub open spec fn is_null_doc(f: FieldModel) -> Doc {
    crate::mongodb::filter::none_of_doc(not_null_doc(f))
}

/// The rows whose column is NULL.
pub fn is_null(field: &Field<'_>) -> (r: Document)
    requires
        field.kind.wf(),
    ensures
        r@ == is_null_doc(field@),
{
    // `not_null` is exact and never NULL itself, so its complement is too.
    none_of(not_null(field))
}

/// The filter of a comparison with a boolean: `false` orders before `true`.
pub open spec fn boolean_filter(f: FieldModel, c: Cmp, value: ScalarValue) -> Option<FilterView> {
    match value {
        ScalarValue::Boolean(Some(b)) => {
            let keeps_false = c.holds(
                if b {
                    -1
                } else {
                    0
                },
            );
            let keeps_true = c.holds(
                if b {
                    0
                } else {
                    1
                },
            );
            Some(
                crate::mongodb::filter::exactly(
                    if keeps_false && keeps_true {
                        scalar_doc(f.path, seq!["bool"@], no_conditions())
                    } else if keeps_false || keeps_true {
                        scalar_doc(
                            f.path,
                            seq!["bool"@],
                            crate::mongodb::filter::entry("$eq"@, BsonView::Boolean(keeps_true)),
                        )
                    } else {
                        crate::mongodb::filter::nothing_doc()
                    },
                ),
            )
        },
        _ => None,
    }
}

fn boolean_is(field: &Field<'_>, value: bool) -> (r: Document)
    ensures
        r@ == scalar_doc(
            field.path@,
            seq!["bool"@],
            crate::mongodb::filter::entry("$eq"@, BsonView::Boolean(value)),
        ),
{
    scalar(field, &one_alias("bool"), Document::of("$eq", Bson::Boolean(value)))
}

/// The filter of a comparison with a boolean: `false` orders before `true`.
pub fn compare_boolean(field: &Field<'_>, c: Cmp, value: &ScalarValue) -> (r: Option<MongoFilter>)
    ensures
        crate::mongodb::filter::filter_view(r) == boolean_filter(field@, c, *value),
{
    let b: bool = match value {
        ScalarValue::Boolean(Some(b)) => *b,
        _ => {
            return None;
        },
    };
    let document = match (c, b) {
        (Cmp::Eq, v) => boolean_is(field, v),
        (Cmp::NotEq, v) => boolean_is(field, !v),
        (Cmp::Gt, false) | (Cmp::GtEq, true) => boolean_is(field, true),
        (Cmp::Lt, true) | (Cmp::LtEq, false) => boolean_is(field, false),
        (Cmp::GtEq, false) | (Cmp::LtEq, true) => scalar(
            field,
            &one_alias("bool"),
            Document::new(),
        ),
        (Cmp::Gt, true) | (Cmp::Lt, false) => nothing(),
    };
    Some(MongoFilter::exact(document))
}

/// The numbers that compare as `c` asks with the double `bits`.
pub open spec fn number_doc(path: Seq<char>, c: Cmp, bits: u64) -> Doc {
    scalar_doc(
        path,
        number_aliases(),
        crate::mongodb::filter::entry(c.key(), BsonView::Double(bits)),
    )
}

/// What `document` selects, and every NaN.
pub open spec fn or_nan_doc(path: Seq<char>, document: Doc) -> Doc {
    crate::mongodb::filter::combined(
        "$or"@,
        seq![
            document,
            scalar_doc(
                path,
                seq!["double"@],
                crate::mongodb::filter::entry("$eq"@, BsonView::Double(NAN)),
            ),
        ],
    )
}

/// The filter of a comparison of doubles.
pub open spec fn float_filter(f: FieldModel, c: Cmp, value: ScalarValue) -> Option<FilterView> {
    let x = match crate::mongodb::field::numeric_of(value) {
        Some(NumericView::Float(bits)) => Some(bits),
        Some(NumericView::Int(k)) => if -EXACT_INTEGERS <= k <= EXACT_INTEGERS {
            Some(crate::mongodb::float::double_bits(k as int))
        } else {
            None
        },
        None => None,
    };
    match x {
        Some(bits) => if crate::mongodb::float::nan(bits) {
            Some(crate::mongodb::filter::roughly(not_null_doc(f)))
        } else if crate::mongodb::float::beyond_exact(bits) {
            None
        } else if crate::mongodb::float::zero(bits) {
            Some(
                crate::mongodb::filter::roughly(
                    match c {
                        Cmp::Eq => number_doc(f.path, Cmp::Eq, bits),
                        Cmp::NotEq => not_null_doc(f),
                        Cmp::Lt | Cmp::LtEq => or_nan_doc(
                            f.path,
                            number_doc(f.path, Cmp::LtEq, bits),
                        ),
                        Cmp::Gt | Cmp::GtEq => or_nan_doc(
                            f.path,
                            number_doc(f.path, Cmp::GtEq, bits),
                        ),
                    },
                ),
            )
        } else if c == Cmp::Eq || c == Cmp::NotEq {
            Some(crate::mongodb::filter::exactly(number_doc(f.path, c, bits)))
        } else {
            Some(crate::mongodb::filter::roughly(or_nan_doc(f.path, number_doc(f.path, c, bits))))
        },
        None => None,
    }
}

fn number(field: &Field<'_>, c: Cmp, bits: u64) -> (r: Document)
    ensures
        r@ == number_doc(field.path@, c, bits),
{
    scalar(field, &number_types(), Document::of(c.operator(), Bson::Double(bits)))
}

fn or_nan(field: &Field<'_>, document: Document) -> (r: MongoFilter)
    ensures
        r@ == crate::mongodb::filter::roughly(or_nan_doc(field.path@, document@)),
{
    let nan = scalar(field, &one_alias("double"), Document::of("$eq", Bson::Double(NAN)));
    MongoFilter::inexact(either(document, nan))
}

/// The filter of a comparison of doubles.
pub fn compare_float(field: &Field<'_>, c: Cmp, value: &ScalarValue) -> (r: Option<MongoFilter>)
    requires
        field.kind == Kind::Float64,
    ensures
        crate::mongodb::filter::filter_view(r) == float_filter(field@, c, *value),
{
    let bits: u64 = match numeric(value) {
        Some(Numeric::Float(x)) => x.bits,
        Some(Numeric::Int(k)) => {
            if -EXACT_INTEGERS <= k && k <= EXACT_INTEGERS {
                double_of(k)
            } else {
                return None;
            }
        },
        None => {
            return None;
        },
    };
    if is_nan(bits) {
        // Rows order NaNs by sign and payload, which MongoDB cannot tell
        // apart, so only the NULL rows can be ruled out.
        return Some(MongoFilter::inexact(not_null(field)));
    }
    // An `int` or `long` beyond two to the fifty-third rounds on conversion, so
    // comparing it with a literal that large can disagree with MongoDB's exact
    // compare.
    if is_beyond_exact(bits) {
        return None;
    }
    if is_zero(bits) {
        // MongoDB holds -0.0 equal to 0.0, which rows order apart. A zero bound
        // is widened to take in both zeros.
        return Some(
            match c {
                Cmp::Eq => MongoFilter::inexact(number(field, Cmp::Eq, bits)),
                Cmp::NotEq => MongoFilter::inexact(not_null(field)),
                Cmp::Lt | Cmp::LtEq => or_nan(field, number(field, Cmp::LtEq, bits)),
                Cmp::Gt | Cmp::GtEq => or_nan(field, number(field, Cmp::GtEq, bits)),
            },
        );
    }
    // MongoDB's ordered comparisons never match NaN, which rows order above
    // every number, or with its sign bit set, below them.
    Some(
        match c {
            Cmp::Eq | Cmp::NotEq => MongoFilter::exact(number(field, c, bits)),
            _ => or_nan(field, number(field, c, bits)),
        },
    )
}

/// Values a string column renders from a type other than a string.
pub open spec fn rendered_doc(f: FieldModel, object_ids_handled: bool) -> Doc {
    at_doc(
        f.path,
        BsonView::Document(
            crate::mongodb::filter::entry(
                "$type"@,
                type_operand(rendered_aliases(f.flattened, object_ids_handled)),
            ),
        ),
    )
}

/// Values a string column renders from a type other than a string, which a
/// string comparison cannot select, leaving out `ObjectId`s when the caller has
/// accounted for them.
pub fn rendered(field: &Field<'_>, object_ids_handled: bool) -> (r: Document)
    ensures
        r@ == rendered_doc(field@, object_ids_handled),
{
    let aliases = rendered_types(field.documents_flattened, object_ids_handled);
    at(field, Bson::Document(Document::of("$type", types(&aliases))))
}

/// The strings of `values`, as BSON.
pub open spec fn string_members(values: Seq<Seq<char>>) -> Seq<BsonView> {
    values.map_values(|s: Seq<char>| BsonView::String(s))
}

/// The `ObjectId`s that strings of `values` name, as BSON.
pub open spec fn id_members(values: Seq<Seq<char>>) -> Seq<BsonView>
    decreases values.len(),
{
    if values.len() == 0 {
        Seq::empty()
    } else {
        match object_id_of(values.last()) {
            Some(bytes) => id_members(values.drop_last()).push(BsonView::ObjectId(bytes)),
            None => id_members(values.drop_last()),
        }
    }
}

/// What a string column equal to one of `values` can be stored as.
pub open spec fn stored_members(values: Seq<Seq<char>>) -> Seq<BsonView> {
    string_members(values) + id_members(values)
}

/// The characters of each of `values`.
pub open spec fn str_texts(values: Seq<&str>) -> Seq<Seq<char>> {
    Seq::new(values.len(), |i: int| values[i]@)
}

fn members(values: &Vec<&str>) -> (r: Vec<Bson>)
    ensures
        crate::mongodb::bson::value_views(r@) == stored_members(str_texts(values@)),
{
    let ghost all = str_texts(values@);
    let mut r: Vec<Bson> = Vec::new();
    let mut i: usize = 0;
    while i < values.len()
        invariant
            i <= values.len(),
            all == str_texts(values@),
            crate::mongodb::bson::value_views(r@) == string_members(all.take(i as int)),
        decreases values.len() - i,
    {
        let ghost before = r@;
        r.push(Bson::text(values[i]));
        proof {
            assert(crate::mongodb::bson::value_views(r@)
                =~= crate::mongodb::bson::value_views(before).push(
                BsonView::String(values@[i as int]@),
            ));
            assert(all.take(i as int + 1) =~= all.take(i as int).push(all[i as int]));
        }
        i += 1;
        assert(crate::mongodb::bson::value_views(r@) =~= string_members(all.take(i as int)));
    }
    assert(all.take(all.len() as int) =~= all);
    let mut j: usize = 0;
    assert(id_members(all.take(0)) =~= Seq::<BsonView>::empty());
    assert(crate::mongodb::bson::value_views(r@) =~= string_members(all) + id_members(all.take(0)));
    while j < values.len()
        invariant
            j <= values.len(),
            all == str_texts(values@),
            crate::mongodb::bson::value_views(r@) == string_members(all) + id_members(
                all.take(j as int),
            ),
        decreases values.len() - j,
    {
        let ghost before = r@;
        proof {
            assert(all.take(j as int + 1).drop_last() =~= all.take(j as int));
            assert(all.take(j as int + 1).last() == values@[j as int]@);
        }
        match object_id(values[j]) {
            Some(bytes) => {
                r.push(Bson::ObjectId(bytes));
                assert(crate::mongodb::bson::value_views(r@)
                    =~= crate::mongodb::bson::value_views(before).push(BsonView::ObjectId(bytes@)));
            },
            None => {},
        }
        j += 1;
        assert(crate::mongodb::bson::value_views(r@) =~= string_members(all) + id_members(
            all.take(j as int),
        ));
    }
    assert(all.take(all.len() as int) =~= all);
    r
}

/// A superset of the rows of a string column equal to one of `values`.
pub open spec fn utf8_among_doc(f: FieldModel, values: Seq<Seq<char>>) -> Doc {
    crate::mongodb::filter::combined(
        "$or"@,
        seq![
            at_doc(
                f.path,
                BsonView::Document(
                    crate::mongodb::filter::entry("$in"@, BsonView::Array(stored_members(values))),
                ),
            ),
            rendered_doc(f, true),
        ],
    )
}

fn utf8_among(field: &Field<'_>, values: &Vec<&str>) -> (r: Document)
    ensures
        r@ == utf8_among_doc(field@, str_texts(values@)),
{
    // An `ObjectId` renders as hex, so it equals a string only when that names
    // it, and then `$in` selects it.
    let listed = Document::of("$in", Bson::Array(members(values)));
    either(at(field, Bson::Document(listed)), rendered(field, true))
}

/// A superset of the rows of a string column not equal to any of `values`.
pub open spec fn utf8_excluding_doc(f: FieldModel, values: Seq<Seq<char>>) -> Doc {
    crate::mongodb::filter::combined(
        "$or"@,
        seq![
            at_doc(
                f.path,
                BsonView::Document(
                    crate::mongodb::filter::entry(
                        "$nin"@,
                        BsonView::Array(stored_members(values).push(BsonView::Null)),
                    ),
                ),
            ),
            rendered_doc(f, true),
        ],
    )
}

/// A superset of the rows of a string column not equal to any of `values`.
pub fn utf8_excluding(field: &Field<'_>, values: &Vec<&str>) -> (r: Document)
    ensures
        r@ == utf8_excluding_doc(field@, str_texts(values@)),
{
    let mut excluded = members(values);
    let ghost before = excluded@;
    excluded.push(Bson::Null);
    assert(crate::mongodb::bson::value_views(excluded@)
        =~= crate::mongodb::bson::value_views(before).push(BsonView::Null));
    let listed = Document::of("$nin", Bson::Array(excluded));
    // `$nin` also rules out a symbol spelled like an excluded string, and an
    // array holding an excluded value, each of which the conversion renders as
    // a string that equals none of them.
    either(at(field, Bson::Document(listed)), rendered(field, true))
}

/// The filter of a comparison of strings.
pub open spec fn utf8_filter(f: FieldModel, c: Cmp, s: Seq<char>, code_points: bool) -> Option<
    FilterView,
> {
    if c != Cmp::Eq && !code_points {
        None
    } else {
        Some(
            crate::mongodb::filter::roughly(
                match c {
                    Cmp::Eq => utf8_among_doc(f, seq![s]),
                    Cmp::NotEq => utf8_excluding_doc(f, seq![s]),
                    _ => crate::mongodb::filter::combined(
                        "$or"@,
                        seq![
                            at_doc(
                                f.path,
                                BsonView::Document(
                                    crate::mongodb::filter::entry(c.key(), BsonView::String(s)),
                                ),
                            ),
                        ] + (match object_id_of(s) {
                            Some(id) => seq![
                                at_doc(
                                    f.path,
                                    BsonView::Document(
                                        crate::mongodb::filter::entry(
                                            c.key(),
                                            BsonView::ObjectId(id),
                                        ),
                                    ),
                                ),
                            ],
                            None => Seq::empty(),
                        }) + seq![rendered_doc(f, object_id_of(s) is Some)],
                    ),
                },
            ),
        )
    }
}

/// The filter of a comparison of strings.
pub fn compare_utf8(field: &Field<'_>, c: Cmp, s: &str, code_points: bool) -> (r: Option<
    MongoFilter,
>)
    ensures
        crate::mongodb::filter::filter_view(r) == utf8_filter(field@, c, s@, code_points),
{
    // A collation can only widen `$in`, which is why equality survives one.
    if c != Cmp::Eq && !code_points {
        return None;
    }
    let mut values: Vec<&str> = Vec::new();
    values.push(s);
    assert(str_texts(values@) =~= seq![s@]);
    let document = match c {
        Cmp::Eq => utf8_among(field, &values),
        Cmp::NotEq => utf8_excluding(field, &values),
        _ => {
            let mut branches: Vec<Document> = Vec::new();
            let ghost none = Seq::<Doc>::empty();
            assert(crate::mongodb::bson::document_views(branches@) =~= none);
            let strings = Document::of(c.operator(), Bson::text(s));
            add_branch(&mut branches, Some(at(field, Bson::Document(strings))));
            let handled = match object_id(s) {
                Some(id) => {
                    let ids = Document::of(c.operator(), Bson::ObjectId(id));
                    add_branch(&mut branches, Some(at(field, Bson::Document(ids))));
                    true
                },
                None => {
                    add_branch(&mut branches, None);
                    false
                },
            };
            add_branch(&mut branches, Some(rendered(field, handled)));
            proof {
                assert(none + seq![
                    at_doc(
                        field.path@,
                        BsonView::Document(
                            crate::mongodb::filter::entry(c.key(), BsonView::String(s@)),
                        ),
                    ),
                ] =~= seq![
                    at_doc(
                        field.path@,
                        BsonView::Document(
                            crate::mongodb::filter::entry(c.key(), BsonView::String(s@)),
                        ),
                    ),
                ]);
            }
            any_of(branches)
        },
    };
    Some(MongoFilter::inexact(document))
}

/// The filter of a comparison of a column with a literal.
pub open spec fn compared(f: FieldModel, c: Cmp, value: ScalarValue, code_points: bool) -> Option<
    FilterView,
> {
    if value.null() {
        None
    } else {
        match f.kind {
            Kind::Utf8 => match crate::mongodb::field::string_value(value) {
                Some(s) => utf8_filter(f, c, s, code_points),
                None => None,
            },
            Kind::Boolean => boolean_filter(f, c, value),
            Kind::Integer { wide, min, max } => match crate::mongodb::field::numeric_of(value) {
                Some(NumericView::Int(k)) => Some(
                    crate::mongodb::filter::exactly(
                        integers_doc(
                            f.path,
                            wide,
                            IntSet::comparing(c, k).limited(min, max),
                        ),
                    ),
                ),
                Some(NumericView::Float(bits)) => if crate::mongodb::float::beyond_exact(bits) && (
                min < -EXACT_INTEGERS || max > EXACT_INTEGERS) {
                    None
                } else {
                    Some(
                        crate::mongodb::filter::exactly(
                            integers_doc(
                                f.path,
                                wide,
                                crate::mongodb::float::float_set(c, bits).limited(min, max),
                            ),
                        ),
                    )
                },
                None => None,
            },
            Kind::Float64 => float_filter(f, c, value),
            Kind::Instant { min, max } => match crate::mongodb::field::millis_of(value) {
                Some((num, den)) => Some(
                    crate::mongodb::filter::exactly(
                        instants_doc(
                            f.path,
                            IntSet::comparing_ratio(c, num, den),
                            min as int,
                            max as int,
                        ),
                    ),
                ),
                None => None,
            },
            Kind::Date32 => match value {
                ScalarValue::Date32(Some(day)) => Some(
                    crate::mongodb::filter::exactly(
                        days_doc(f.path, IntSet::comparing(c, day as i128)),
                    ),
                ),
                _ => None,
            },
            Kind::Binary | Kind::List => None,
        }
    }
}

/// The filter of a comparison of a column with a literal.
pub fn compare(field: &Field<'_>, c: Cmp, value: &ScalarValue, code_points: bool) -> (r: Option<
    MongoFilter,
>)
    requires
        field.kind.wf(),
    ensures
        crate::mongodb::filter::filter_view(r) == compared(field@, c, *value, code_points),
{
    if value.is_null() {
        return None;
    }
    match field.kind {
        Kind::Utf8 => match string(value) {
            Some(s) => compare_utf8(field, c, s, code_points),
            None => None,
        },
        Kind::Boolean => compare_boolean(field, c, value),
        Kind::Integer { wide, min, max } => {
            let set = match numeric(value) {
                Some(Numeric::Int(k)) => IntSet::compare(c, k),
                Some(Numeric::Float(x)) => {
                    if is_beyond_exact(x.bits) && (min < -EXACT_INTEGERS || max > EXACT_INTEGERS) {
                        return None;
                    }
                    integer_float_set(c, x)
                },
                None => {
                    return None;
                },
            };
            Some(MongoFilter::exact(integers(field, wide, set.within(min, max))))
        },
        Kind::Float64 => compare_float(field, c, value),
        Kind::Instant { min, max } => match instant_millis(value) {
            Some((num, den)) => {
                let set = IntSet::compare_ratio(c, num, den);
                Some(MongoFilter::exact(instants(field, set, min, max)))
            },
            None => None,
        },
        Kind::Date32 => match value {
            ScalarValue::Date32(Some(day)) => Some(
                MongoFilter::exact(days(field, IntSet::compare(c, *day as i128))),
            ),
            _ => None,
        },
        Kind::Binary | Kind::List => None,
    }
}

/// What a list of literals holds, for an integer column of `min..=max`.
pub enum Members {
    /// Integers alone: those in range, as BSON.
    Integers(Seq<BsonView>),
    /// Integers, then a double.
    Doubles,
    /// Integers, then a value that is no number.
    Others,
}

/// What a list of literals holds, for an integer column of `min..=max`.
pub open spec fn integer_members(values: Seq<ScalarValue>, min: int, max: int) -> Members
    decreases values.len(),
{
    if values.len() == 0 {
        Members::Integers(Seq::empty())
    } else {
        match integer_members(values.drop_last(), min, max) {
            Members::Integers(members) => match crate::mongodb::field::numeric_of(values.last()) {
                Some(NumericView::Int(k)) => if min <= k <= max {
                    Members::Integers(members.push(integer_bson(k as int)))
                } else {
                    Members::Integers(members)
                },
                Some(NumericView::Float(_)) => Members::Doubles,
                None => Members::Others,
            },
            stopped => stopped,
        }
    }
}

proof fn integer_members_stop(values: Seq<ScalarValue>, min: int, max: int, n: int)
    requires
        0 <= n <= values.len(),
        !(integer_members(values.take(n), min, max) is Integers),
    ensures
        integer_members(values, min, max) == integer_members(values.take(n), min, max),
    decreases values.len() - n,
{
    if n < values.len() {
        assert(values.take(n + 1).drop_last() =~= values.take(n));
        integer_members_stop(values, min, max, n + 1);
    } else {
        assert(values.take(n) =~= values);
    }
}

/// The integers of a list of literals, as far as it holds integers alone.
enum Listed {
    Integers(Vec<Bson>),
    Doubles,
    Others,
}

/// The literals of a list.
pub open spec fn values_of(values: Seq<&ScalarValue>) -> Seq<ScalarValue> {
    Seq::new(values.len(), |i: int| *values[i])
}

fn list_integers(values: &Vec<&ScalarValue>, min: i128, max: i128) -> (r: Listed)
    ensures
        match r {
            Listed::Integers(members) => integer_members(
                values_of(values@),
                min as int,
                max as int,
            ) == Members::Integers(crate::mongodb::bson::value_views(members@)),
            Listed::Doubles => integer_members(values_of(values@), min as int, max as int)
                is Doubles,
            Listed::Others => integer_members(values_of(values@), min as int, max as int)
                is Others,
        },
{
    let ghost all = values_of(values@);
    let mut members: Vec<Bson> = Vec::new();
    let mut i: usize = 0;
    assert(all.take(0) =~= Seq::<ScalarValue>::empty());
    assert(crate::mongodb::bson::value_views(members@) =~= Seq::<BsonView>::empty());
    while i < values.len()
        invariant
            i <= values.len(),
            all == values_of(values@),
            integer_members(all.take(i as int), min as int, max as int) == Members::Integers(
                crate::mongodb::bson::value_views(members@),
            ),
        decreases values.len() - i,
    {
        let ghost before = members@;
        proof {
            assert(all.take(i as int + 1).drop_last() =~= all.take(i as int));
            assert(all.take(i as int + 1).last() == *values@[i as int]);
        }
        match numeric(values[i]) {
            Some(Numeric::Int(k)) => {
                if min <= k && k <= max {
                    members.push(integer(k));
                    assert(crate::mongodb::bson::value_views(members@)
                        =~= crate::mongodb::bson::value_views(before).push(
                        integer_bson(k as int),
                    ));
                }
            },
            Some(Numeric::Float(_)) => {
                proof {
                    integer_members_stop(all, min as int, max as int, i as int + 1);
                }
                return Listed::Doubles;
            },
            None => {
                proof {
                    integer_members_stop(all, min as int, max as int, i as int + 1);
                }
                return Listed::Others;
            },
        }
        i += 1;
    }
    assert(all.take(all.len() as int) =~= all);
    Listed::Integers(members)
}

/// The strings of a list of literals, if each is one.
pub open spec fn all_strings(values: Seq<ScalarValue>) -> Option<Seq<Seq<char>>>
    decreases values.len(),
{
    if values.len() == 0 {
        Some(Seq::empty())
    } else {
        match (
            all_strings(values.drop_last()),
            crate::mongodb::field::string_value(values.last()),
        ) {
            (Some(strings), Some(s)) => Some(strings.push(s)),
            _ => None,
        }
    }
}

proof fn all_strings_stop(values: Seq<ScalarValue>, n: int)
    requires
        0 <= n <= values.len(),
        all_strings(values.take(n)) is None,
    ensures
        all_strings(values) is None,
    decreases values.len() - n,
{
    if n < values.len() {
        assert(values.take(n + 1).drop_last() =~= values.take(n));
        all_strings_stop(values, n + 1);
    } else {
        assert(values.take(n) =~= values);
    }
}

fn list_strings<'v>(values: &Vec<&'v ScalarValue>) -> (r: Option<Vec<&'v str>>)
    ensures
        match r {
            Some(strings) => all_strings(values_of(values@)) == Some(str_texts(strings@)),
            None => all_strings(values_of(values@)) is None,
        },
{
    let ghost all = values_of(values@);
    let mut strings: Vec<&'v str> = Vec::new();
    let mut i: usize = 0;
    assert(all.take(0) =~= Seq::<ScalarValue>::empty());
    assert(str_texts(strings@) =~= Seq::<Seq<char>>::empty());
    while i < values.len()
        invariant
            i <= values.len(),
            all == values_of(values@),
            all_strings(all.take(i as int)) == Some(str_texts(strings@)),
        decreases values.len() - i,
    {
        let ghost before = strings@;
        proof {
            assert(all.take(i as int + 1).drop_last() =~= all.take(i as int));
            assert(all.take(i as int + 1).last() == *values@[i as int]);
        }
        match string(values[i]) {
            Some(s) => {
                strings.push(s);
                assert(str_texts(strings@) =~= str_texts(before).push(s@));
            },
            None => {
                proof {
                    all_strings_stop(all, i as int + 1);
                }
                return None;
            },
        }
        i += 1;
    }
    assert(all.take(all.len() as int) =~= all);
    Some(strings)
}

/// The disjunction of the equalities with each of `values`.
pub open spec fn any_equal(f: FieldModel, values: Seq<ScalarValue>, code_points: bool) -> Option<
    FilterView,
>
    decreases values.len(),
{
    if values.len() == 0 {
        None
    } else if values.len() == 1 {
        compared(f, Cmp::Eq, values[0], code_points)
    } else {
        crate::mongodb::filter::or_filter(
            any_equal(f, values.drop_last(), code_points),
            compared(f, Cmp::Eq, values.last(), code_points),
        )
    }
}

/// The conjunction of the inequalities with each of `values`.
pub open spec fn none_equal(f: FieldModel, values: Seq<ScalarValue>, code_points: bool) -> Option<
    FilterView,
>
    decreases values.len(),
{
    if values.len() == 0 {
        None
    } else if values.len() == 1 {
        compared(f, Cmp::NotEq, values[0], code_points)
    } else {
        crate::mongodb::filter::and_filter(
            none_equal(f, values.drop_last(), code_points),
            compared(f, Cmp::NotEq, values.last(), code_points),
        )
    }
}

/// The disjunction of the equalities with each of `values`.
pub fn in_list_by_comparison(
    field: &Field<'_>,
    values: &Vec<&ScalarValue>,
    code_points: bool,
) -> (r: Option<MongoFilter>)
    requires
        field.kind.wf(),
    ensures
        crate::mongodb::filter::filter_view(r) == any_equal(
            field@,
            values_of(values@),
            code_points,
        ),
{
    if values.len() == 0 {
        return None;
    }
    let ghost all = values_of(values@);
    let mut filter = compare(field, Cmp::Eq, values[0], code_points);
    let mut i: usize = 1;
    assert(all.take(1)[0] == *values@[0]);
    while i < values.len()
        invariant
            1 <= i <= values.len(),
            field.kind.wf(),
            all == values_of(values@),
            crate::mongodb::filter::filter_view(filter) == any_equal(
                field@,
                all.take(i as int),
                code_points,
            ),
        decreases values.len() - i,
    {
        proof {
            assert(all.take(i as int + 1).drop_last() =~= all.take(i as int));
            assert(all.take(i as int + 1).last() == *values@[i as int]);
        }
        filter = or(filter, compare(field, Cmp::Eq, values[i], code_points));
        i += 1;
    }
    assert(all.take(all.len() as int) =~= all);
    filter
}

/// The conjunction of the inequalities with each of `values`.
pub fn not_in_list_by_comparison(
    field: &Field<'_>,
    values: &Vec<&ScalarValue>,
    code_points: bool,
) -> (r: Option<MongoFilter>)
    requires
        field.kind.wf(),
    ensures
        crate::mongodb::filter::filter_view(r) == none_equal(
            field@,
            values_of(values@),
            code_points,
        ),
{
    if values.len() == 0 {
        return None;
    }
    let ghost all = values_of(values@);
    let mut filter = compare(field, Cmp::NotEq, values[0], code_points);
    let mut i: usize = 1;
    assert(all.take(1)[0] == *values@[0]);
    while i < values.len()
        invariant
            1 <= i <= values.len(),
            field.kind.wf(),
            all == values_of(values@),
            crate::mongodb::filter::filter_view(filter) == none_equal(
                field@,
                all.take(i as int),
                code_points,
            ),
        decreases values.len() - i,
    {
        proof {
            assert(all.take(i as int + 1).drop_last() =~= all.take(i as int));
            assert(all.take(i as int + 1).last() == *values@[i as int]);
        }
        filter = and(filter, compare(field, Cmp::NotEq, values[i], code_points));
        i += 1;
    }
    assert(all.take(all.len() as int) =~= all);
    filter
}

/// The filter of membership in a list without NULLs.
pub open spec fn in_list_filter(f: FieldModel, values: Seq<ScalarValue>, code_points: bool) -> Option<
    FilterView,
> {
    match f.kind {
        Kind::Utf8 => match all_strings(values) {
            Some(strings) => Some(crate::mongodb::filter::roughly(utf8_among_doc(f, strings))),
            None => None,
        },
        Kind::Integer { wide, min, max } => match integer_members(values, min as int, max as int) {
            Members::Integers(members) => Some(
                crate::mongodb::filter::exactly(
                    if members.len() == 0 {
                        crate::mongodb::filter::nothing_doc()
                    } else {
                        scalar_doc(
                            f.path,
                            integer_aliases(wide),
                            crate::mongodb::filter::entry("$in"@, BsonView::Array(members)),
                        )
                    },
                ),
            ),
            Members::Doubles => any_equal(f, values, code_points),
            Members::Others => None,
        },
        _ => any_equal(f, values, code_points),
    }
}

/// The filter of membership in a list without NULLs.
pub fn in_list(field: &Field<'_>, values: &Vec<&ScalarValue>, code_points: bool) -> (r: Option<
    MongoFilter,
>)
    requires
        field.kind.wf(),
    ensures
        crate::mongodb::filter::filter_view(r) == in_list_filter(
            field@,
            values_of(values@),
            code_points,
        ),
{
    match field.kind {
        Kind::Utf8 => match list_strings(values) {
            Some(strings) => Some(MongoFilter::inexact(utf8_among(field, &strings))),
            None => None,
        },
        Kind::Integer { wide, min, max } => match list_integers(values, min, max) {
            Listed::Integers(members) => {
                if members.len() == 0 {
                    return Some(MongoFilter::exact(nothing()));
                }
                let listed = Document::of("$in", Bson::Array(members));
                Some(MongoFilter::exact(scalar(field, &integer_types(wide), listed)))
            },
            Listed::Doubles => in_list_by_comparison(field, values, code_points),
            Listed::Others => None,
        },
        _ => in_list_by_comparison(field, values, code_points),
    }
}

/// The filter of absence from a list without NULLs.
pub open spec fn not_in_list_filter(
    f: FieldModel,
    values: Seq<ScalarValue>,
    code_points: bool,
) -> Option<FilterView> {
    match f.kind {
        Kind::Utf8 => if !code_points {
            None
        } else {
            match all_strings(values) {
                Some(strings) => Some(
                    crate::mongodb::filter::roughly(utf8_excluding_doc(f, strings)),
                ),
                None => None,
            }
        },
        Kind::Integer { wide, min, max } => match integer_members(values, min as int, max as int) {
            Members::Integers(members) => Some(
                crate::mongodb::filter::exactly(
                    scalar_doc(
                        f.path,
                        integer_aliases(wide),
                        bounded_to(
                            crate::mongodb::filter::entry("$nin"@, BsonView::Array(members)),
                            wide,
                            min as int,
                            max as int,
                        ),
                    ),
                ),
            ),
            Members::Doubles => none_equal(f, values, code_points),
            Members::Others => None,
        },
        _ => none_equal(f, values, code_points),
    }
}

/// The filter of absence from a list without NULLs.
pub fn not_in_list(field: &Field<'_>, values: &Vec<&ScalarValue>, code_points: bool) -> (r: Option<
    MongoFilter,
>)
    requires
        field.kind.wf(),
    ensures
        crate::mongodb::filter::filter_view(r) == not_in_list_filter(
            field@,
            values_of(values@),
            code_points,
        ),
{
    match field.kind {
        Kind::Utf8 => {
            if !code_points {
                return None;
            }
            match list_strings(values) {
                Some(strings) => Some(MongoFilter::inexact(utf8_excluding(field, &strings))),
                None => None,
            }
        },
        Kind::Integer { wide, min, max } => match list_integers(values, min, max) {
            Listed::Integers(members) => {
                let mut conditions = Document::of("$nin", Bson::Array(members));
                bound(&mut conditions, wide, min, max);
                Some(MongoFilter::exact(scalar(field, &integer_types(wide), conditions)))
            },
            Listed::Doubles => not_in_list_by_comparison(field, values, code_points),
            Listed::Others => None,
        },
        _ => not_in_list_by_comparison(field, values, code_points),
    }
}

/// The filter of a LIKE, whose negations cancel out when `keeps`.
pub open spec fn like_filter(
    f: FieldModel,
    pattern: ScalarValue,
    case_insensitive: bool,
    keeps: bool,
) -> Option<FilterView> {
    match crate::mongodb::field::string_value(pattern) {
        Some(s) => if crate::mongodb::like::all_writable(
            crate::mongodb::like::tokens(s),
            case_insensitive,
        ) {
            let regex = BsonView::RegularExpression(
                crate::mongodb::like::pattern_regex(s, case_insensitive),
                "s"@,
            );
            Some(
                crate::mongodb::filter::roughly(
                    crate::mongodb::filter::combined(
                        "$or"@,
                        seq![
                            at_doc(
                                f.path,
                                if keeps {
                                    regex
                                } else {
                                    BsonView::Document(
                                        crate::mongodb::bson::with_entry(
                                            crate::mongodb::filter::entry(
                                                "$type"@,
                                                BsonView::String("string"@),
                                            ),
                                            "$not"@,
                                            regex,
                                        ),
                                    )
                                },
                            ),
                            rendered_doc(f, false),
                        ],
                    ),
                ),
            )
        } else {
            None
        },
        None => None,
    }
}

/// The filter of a LIKE, whose negations cancel out when `keeps`.
pub fn like(field: &Field<'_>, pattern: &ScalarValue, case_insensitive: bool, keeps: bool) -> (r:
    Option<MongoFilter>)
    ensures
        crate::mongodb::filter::filter_view(r) == like_filter(
            field@,
            *pattern,
            case_insensitive,
            keeps,
        ),
{
    let s = match string(pattern) {
        Some(s) => s,
        None => {
            return None;
        },
    };
    let regex = match like_regex(s, case_insensitive) {
        Some(regex) => Bson::RegularExpression(regex),
        None => {
            return None;
        },
    };
    let strings = if keeps {
        at(field, regex)
    } else {
        let mut condition = Document::of("$type", Bson::text("string"));
        condition.insert("$not", regex);
        at(field, Bson::Document(condition))
    };
    Some(MongoFilter::inexact(either(strings, rendered(field, false))))
}

/// The filter of `IS` a truth value, from the filter of the rows where the
/// inner predicate has it.
pub open spec fn truth_filter(holds: Option<FilterView>, negated: bool) -> Option<FilterView> {
    match holds {
        Some(filter) => if !negated {
            Some(filter)
        } else if filter.exact {
            Some(
                crate::mongodb::filter::exactly(
                    crate::mongodb::filter::none_of_doc(filter.document),
                ),
            )
        } else {
            None
        },
        None => None,
    }
}

/// The filter of `IS` a truth value, from the filter of the rows where the
/// inner predicate has it.
pub fn truth(holds: Option<MongoFilter>, negated: bool) -> (r: Option<MongoFilter>)
    ensures
        crate::mongodb::filter::filter_view(r) == truth_filter(
            crate::mongodb::filter::filter_view(holds),
            negated,
        ),
{
    match holds {
        Some(filter) => {
            if !negated {
                Some(filter)
            } else if filter.exact {
                Some(MongoFilter::exact(none_of(filter.document)))
            } else {
                None
            }
        },
        None => None,
    }
}

/// The filter of `IS [NOT] DISTINCT FROM` a literal.
pub open spec fn distinct_filter(
    f: FieldModel,
    value: ScalarValue,
    distinct: bool,
    code_points: bool,
) -> Option<FilterView> {
    if value.null() {
        Some(
            crate::mongodb::filter::exactly(
                if distinct {
                    not_null_doc(f)
                } else {
                    is_null_doc(f)
                },
            ),
        )
    } else {
        match compared(f, Cmp::Eq, value, code_points) {
            Some(equal) => if !distinct {
                Some(equal)
            } else if equal.exact {
                Some(
                    crate::mongodb::filter::exactly(
                        crate::mongodb::filter::none_of_doc(equal.document),
                    ),
                )
            } else {
                match compared(f, Cmp::NotEq, value, code_points) {
                    Some(unequal) => Some(
                        crate::mongodb::filter::roughly(
                            crate::mongodb::filter::combined(
                                "$or"@,
                                seq![unequal.document, is_null_doc(f)],
                            ),
                        ),
                    ),
                    None => None,
                }
            },
            None => None,
        }
    }
}

/// The filter of `IS [NOT] DISTINCT FROM` a literal.
pub fn distinct(field: &Field<'_>, value: &ScalarValue, apart: bool, code_points: bool) -> (r:
    Option<MongoFilter>)
    requires
        field.kind.wf(),
    ensures
        crate::mongodb::filter::filter_view(r) == distinct_filter(
            field@,
            *value,
            apart,
            code_points,
        ),
{
    if value.is_null() {
        return Some(
            MongoFilter::exact(
                if apart {
                    not_null(field)
                } else {
                    is_null(field)
                },
            ),
        );
    }
    // Not distinct from a value is equal to it: NULL is not.
    let equal = match compare(field, Cmp::Eq, value, code_points) {
        Some(equal) => equal,
        None => {
            return None;
        },
    };
    if !apart {
        return Some(equal);
    }
    if equal.exact {
        return Some(MongoFilter::exact(none_of(equal.document)));
    }
    match compare(field, Cmp::NotEq, value, code_points) {
        Some(unequal) => Some(MongoFilter::inexact(either(unequal.document, is_null(field)))),
        None => None,
    }
}

/// The one of two operands that is a field, the literal that the other is, and
/// whether the field is on the right.
pub open spec fn sides(
    left: Expr,
    right: Expr,
    schema: Seq<crate::types::FieldView>,
    scope: FilterScope,
) -> Option<(FieldModel, ScalarValue, bool)> {
    match (
        crate::mongodb::field::field_of(left, schema, scope),
        crate::mongodb::field::field_of(right, schema, scope),
    ) {
        (Some(field), None) => match crate::mongodb::field::literal_of(right) {
            Some(value) => Some((field, value, false)),
            None => None,
        },
        (None, Some(field)) => match crate::mongodb::field::literal_of(left) {
            Some(value) => Some((field, value, true)),
            None => None,
        },
        _ => None,
    }
}

/// The literals of a list, if each operand is one.
pub open spec fn list_literals(list: Seq<Expr>) -> Option<Seq<ScalarValue>>
    decreases list.len(),
{
    if list.len() == 0 {
        Some(Seq::empty())
    } else {
        match (
            list_literals(list.drop_last()),
            crate::mongodb::field::literal_of(list.last()),
        ) {
            (Some(values), Some(value)) => Some(values.push(value)),
            _ => None,
        }
    }
}

/// The values that are not NULL.
pub open spec fn without_nulls(values: Seq<ScalarValue>) -> Seq<ScalarValue>
    decreases values.len(),
{
    if values.len() == 0 {
        Seq::empty()
    } else if values.last().null() {
        without_nulls(values.drop_last())
    } else {
        without_nulls(values.drop_last()).push(values.last())
    }
}

/// The filter of a membership test.
pub open spec fn membership_filter(
    f: FieldModel,
    values: Seq<ScalarValue>,
    excludes: bool,
    code_points: bool,
) -> Option<FilterView> {
    let present = without_nulls(values);
    if values.len() == 0 {
        None
    } else if !excludes {
        if present.len() == 0 {
            Some(crate::mongodb::filter::exactly(crate::mongodb::filter::nothing_doc()))
        } else {
            in_list_filter(f, present, code_points)
        }
    } else if present.len() < values.len() {
        None
    } else {
        not_in_list_filter(f, values, code_points)
    }
}

/// The filter of the rows for which `expr` is true, or, when `negated`, false.
pub open spec fn translated(
    expr: Expr,
    negated: bool,
    schema: Seq<crate::types::FieldView>,
    scope: FilterScope,
) -> Option<FilterView>
    decreases expr,
{
    let code_points = scope.code_point_strings;
    match expr {
        Expr::Not(inner) => translated(*inner, !negated, schema, scope),
        Expr::BinaryExpr { left, op, right } => match op {
            Operator::And | Operator::Or => {
                let l = translated(*left, negated, schema, scope);
                let r = translated(*right, negated, schema, scope);
                if (op == Operator::And) != negated {
                    crate::mongodb::filter::and_filter(l, r)
                } else {
                    crate::mongodb::filter::or_filter(l, r)
                }
            },
            Operator::IsDistinctFrom | Operator::IsNotDistinctFrom => match sides(
                *left,
                *right,
                schema,
                scope,
            ) {
                Some((field, value, _)) => distinct_filter(
                    field,
                    value,
                    (op == Operator::IsDistinctFrom) != negated,
                    code_points,
                ),
                None => None,
            },
            _ => match (Cmp::of_operator(op), sides(*left, *right, schema, scope)) {
                (Some(c), Some((field, value, on_the_right))) => {
                    let c = if on_the_right {
                        c.swap()
                    } else {
                        c
                    };
                    compared(
                        field,
                        if negated {
                            c.negate()
                        } else {
                            c
                        },
                        value,
                        code_points,
                    )
                },
                _ => None,
            },
        },
        Expr::Column(_) | Expr::Cast { .. } => match crate::mongodb::field::field_of(
            expr,
            schema,
            scope,
        ) {
            Some(field) => if field.kind == Kind::Boolean {
                boolean_filter(field, Cmp::Eq, ScalarValue::Boolean(Some(!negated)))
            } else {
                None
            },
            None => None,
        },
        Expr::IsNull(inner) => match crate::mongodb::field::field_of(*inner, schema, scope) {
            Some(field) => Some(
                crate::mongodb::filter::exactly(
                    if negated {
                        not_null_doc(field)
                    } else {
                        is_null_doc(field)
                    },
                ),
            ),
            None => None,
        },
        Expr::IsNotNull(inner) => match crate::mongodb::field::field_of(*inner, schema, scope) {
            Some(field) => Some(
                crate::mongodb::filter::exactly(
                    if negated {
                        is_null_doc(field)
                    } else {
                        not_null_doc(field)
                    },
                ),
            ),
            None => None,
        },
        Expr::IsTrue(inner) => truth_filter(translated(*inner, false, schema, scope), negated),
        Expr::IsFalse(inner) => truth_filter(translated(*inner, true, schema, scope), negated),
        Expr::IsNotTrue(inner) => truth_filter(translated(*inner, false, schema, scope), !negated),
        Expr::IsNotFalse(inner) => truth_filter(translated(*inner, true, schema, scope), !negated),
        Expr::Between { expr, negated: outside, low, high } => match (
            crate::mongodb::field::field_of(*expr, schema, scope),
            crate::mongodb::field::literal_of(*low),
            crate::mongodb::field::literal_of(*high),
        ) {
            (Some(field), Some(low), Some(high)) => if low.null() || high.null() {
                None
            } else if outside == negated {
                crate::mongodb::filter::and_filter(
                    compared(field, Cmp::GtEq, low, code_points),
                    compared(field, Cmp::LtEq, high, code_points),
                )
            } else {
                crate::mongodb::filter::or_filter(
                    compared(field, Cmp::Lt, low, code_points),
                    compared(field, Cmp::Gt, high, code_points),
                )
            },
            _ => None,
        },
        Expr::InList { expr, list, negated: excluded } => match (
            crate::mongodb::field::field_of(*expr, schema, scope),
            list_literals(list@),
        ) {
            (Some(field), Some(values)) => membership_filter(
                field,
                values,
                excluded != negated,
                code_points,
            ),
            _ => None,
        },
        Expr::Like { negated: unlike, expr, pattern, escape_char, case_insensitive } => match (
            crate::mongodb::field::field_of(*expr, schema, scope),
            crate::mongodb::field::literal_of(*pattern),
        ) {
            (Some(field), Some(pattern)) => if field.kind != Kind::Utf8 || (escape_char matches Some(
                c,
            ) && c != '\\') {
                None
            } else {
                like_filter(field, pattern, case_insensitive, unlike == negated)
            },
            _ => None,
        },
        Expr::Literal(ScalarValue::Boolean(None)) | Expr::Literal(ScalarValue::Null) => Some(
            crate::mongodb::filter::exactly(crate::mongodb::filter::nothing_doc()),
        ),
        _ => None,
    }
}

proof fn list_literals_stop(list: Seq<Expr>, n: int)
    requires
        0 <= n <= list.len(),
        list_literals(list.take(n)) is None,
    ensures
        list_literals(list) is None,
    decreases list.len() - n,
{
    if n < list.len() {
        assert(list.take(n + 1).drop_last() =~= list.take(n));
        list_literals_stop(list, n + 1);
    } else {
        assert(list.take(n) =~= list);
    }
}

fn literals<'e>(list: &'e Vec<Expr>) -> (r: Option<Vec<&'e ScalarValue>>)
    ensures
        match r {
            Some(values) => list_literals(list@) == Some(values_of(values@)),
            None => list_literals(list@) is None,
        },
{
    let mut values: Vec<&'e ScalarValue> = Vec::new();
    let mut i: usize = 0;
    assert(list@.take(0) =~= Seq::<Expr>::empty());
    assert(values_of(values@) =~= Seq::<ScalarValue>::empty());
    while i < list.len()
        invariant
            i <= list.len(),
            list_literals(list@.take(i as int)) == Some(values_of(values@)),
        decreases list.len() - i,
    {
        let ghost before = values@;
        proof {
            assert(list@.take(i as int + 1).drop_last() =~= list@.take(i as int));
            assert(list@.take(i as int + 1).last() == list@[i as int]);
        }
        match literal(&list[i]) {
            Some(value) => {
                values.push(value);
                assert(values_of(values@) =~= values_of(before).push(*value));
            },
            None => {
                proof {
                    list_literals_stop(list@, i as int + 1);
                }
                return None;
            },
        }
        i += 1;
    }
    assert(list@.take(list@.len() as int) =~= list@);
    Some(values)
}

proof fn without_nulls_len(values: Seq<ScalarValue>)
    ensures
        without_nulls(values).len() <= values.len(),
    decreases values.len(),
{
    if values.len() > 0 {
        without_nulls_len(values.drop_last());
    }
}

fn drop_nulls<'v>(values: &Vec<&'v ScalarValue>) -> (r: Vec<&'v ScalarValue>)
    ensures
        values_of(r@) == without_nulls(values_of(values@)),
{
    let ghost all = values_of(values@);
    let mut r: Vec<&'v ScalarValue> = Vec::new();
    let mut i: usize = 0;
    assert(all.take(0) =~= Seq::<ScalarValue>::empty());
    assert(values_of(r@) =~= Seq::<ScalarValue>::empty());
    while i < values.len()
        invariant
            i <= values.len(),
            all == values_of(values@),
            values_of(r@) == without_nulls(all.take(i as int)),
        decreases values.len() - i,
    {
        let ghost before = r@;
        proof {
            assert(all.take(i as int + 1).drop_last() =~= all.take(i as int));
            assert(all.take(i as int + 1).last() == *values@[i as int]);
        }
        if !values[i].is_null() {
            r.push(values[i]);
            assert(values_of(r@) =~= values_of(before).push(*values@[i as int]));
        }
        i += 1;
    }
    assert(all.take(all.len() as int) =~= all);
    r
}

/// Translates filters over the columns of one collection.
pub struct Translator<'a> {
    pub schema: &'a Schema,
    pub scope: &'a FilterScope,
}

impl<'a> Translator<'a> {
    /// The one of two operands that is a field, the literal that the other is,
    /// and whether the field is on the right.
    fn operands<'e>(&self, left: &'e Expr, right: &'e Expr) -> (r: Option<
        (Field<'e>, &'e ScalarValue, bool),
    >)
        ensures
            match r {
                Some((field, value, swapped)) => field.kind.wf() && sides(
                    *left,
                    *right,
                    self.schema@,
                    *self.scope,
                ) == Some((field@, *value, swapped)),
                None => sides(*left, *right, self.schema@, *self.scope) is None,
            },
    {
        match (
            resolve(left, self.schema, self.scope),
            resolve(right, self.schema, self.scope),
        ) {
            (Some(field), None) => match literal(right) {
                Some(value) => Some((field, value, false)),
                None => None,
            },
            (None, Some(field)) => match literal(left) {
                Some(value) => Some((field, value, true)),
                None => None,
            },
            _ => None,
        }
    }

    /// The filter of a membership test.
    fn membership(&self, field: &Field<'_>, values: &Vec<&ScalarValue>, excludes: bool) -> (r:
        Option<MongoFilter>)
        requires
            field.kind.wf(),
        ensures
            crate::mongodb::filter::filter_view(r) == membership_filter(
                field@,
                values_of(values@),
                excludes,
                self.scope.code_point_strings,
            ),
    {
        proof {
            without_nulls_len(values_of(values@));
        }
        if values.len() == 0 {
            return None;
        }
        let present = drop_nulls(values);
        assert(values_of(present@).len() == present.len());
        if !excludes {
            // A NULL element can make the membership NULL, never true.
            if present.len() == 0 {
                return Some(MongoFilter::exact(nothing()));
            }
            in_list(field, &present, self.scope.code_point_strings)
        } else {
            // With a NULL element, NOT IN is never true.
            if present.len() < values.len() {
                return None;
            }
            not_in_list(field, values, self.scope.code_point_strings)
        }
    }

    /// The rows for which `expr` is true, or, when `negated`, false.
    pub fn translate(&self, expr: &Expr, negated: bool) -> (r: Option<MongoFilter>)
        ensures
            crate::mongodb::filter::filter_view(r) == translated(
                *expr,
                negated,
                self.schema@,
                *self.scope,
            ),
        decreases expr,
    {
        let code_points = self.scope.code_point_strings;
        match expr {
            Expr::Not(inner) => self.translate(inner, !negated),
            Expr::BinaryExpr { left, op, right } => match *op {
                Operator::And | Operator::Or => {
                    let l = self.translate(left, negated);
                    let r = self.translate(right, negated);
                    // De Morgan: a negated conjunction is a disjunction of the
                    // negations, which holds in three-valued logic too.
                    if (*op == Operator::And) != negated {
                        and(l, r)
                    } else {
                        or(l, r)
                    }
                },
                Operator::IsDistinctFrom | Operator::IsNotDistinctFrom => match self.operands(
                    left,
                    right,
                ) {
                    Some((field, value, _)) => distinct(
                        &field,
                        value,
                        (*op == Operator::IsDistinctFrom) != negated,
                        code_points,
                    ),
                    None => None,
                },
                _ => match (Cmp::from_operator(*op), self.operands(left, right)) {
                    (Some(c), Some((field, value, on_the_right))) => {
                        let c = if on_the_right {
                            c.swapped()
                        } else {
                            c
                        };
                        let c = if negated {
                            c.negated()
                        } else {
                            c
                        };
                        compare(&field, c, value, code_points)
                    },
                    _ => None,
                },
            },
            // A boolean column used as a predicate is true exactly when it
            // holds `true`.
            Expr::Column(_) | Expr::Cast { .. } => match resolve(expr, self.schema, self.scope) {
                Some(field) => {
                    if field.kind == Kind::Boolean {
                        compare_boolean(&field, Cmp::Eq, &ScalarValue::Boolean(Some(!negated)))
                    } else {
                        None
                    }
                },
                None => None,
            },
            Expr::IsNull(inner) => match resolve(inner, self.schema, self.scope) {
                Some(field) => Some(
                    MongoFilter::exact(
                        if negated {
                            not_null(&field)
                        } else {
                            is_null(&field)
                        },
                    ),
                ),
                None => None,
            },
            Expr::IsNotNull(inner) => match resolve(inner, self.schema, self.scope) {
                Some(field) => Some(
                    MongoFilter::exact(
                        if negated {
                            is_null(&field)
                        } else {
                            not_null(&field)
                        },
                    ),
                ),
                None => None,
            },
            Expr::IsTrue(inner) => truth(self.translate(inner, false), negated),
            Expr::IsFalse(inner) => truth(self.translate(inner, true), negated),
            Expr::IsNotTrue(inner) => truth(self.translate(inner, false), !negated),
            Expr::IsNotFalse(inner) => truth(self.translate(inner, true), !negated),
            Expr::Between { expr, negated: outside, low, high } => match (
                resolve(expr, self.schema, self.scope),
                literal(low),
                literal(high),
            ) {
                (Some(field), Some(low), Some(high)) => {
                    if low.is_null() || high.is_null() {
                        return None;
                    }
                    if *outside == negated {
                        and(
                            compare(&field, Cmp::GtEq, low, code_points),
                            compare(&field, Cmp::LtEq, high, code_points),
                        )
                    } else {
                        or(
                            compare(&field, Cmp::Lt, low, code_points),
                            compare(&field, Cmp::Gt, high, code_points),
                        )
                    }
                },
                _ => None,
            },
            Expr::InList { expr, list, negated: excluded } => match (
                resolve(expr, self.schema, self.scope),
                literals(list),
            ) {
                (Some(field), Some(values)) => self.membership(
                    &field,
                    &values,
                    *excluded != negated,
                ),
                _ => None,
            },
            Expr::Like { negated: unlike, expr, pattern, escape_char, case_insensitive } => match (
                resolve(expr, self.schema, self.scope),
                literal(pattern),
            ) {
                (Some(field), Some(pattern)) => {
                    if field.kind != Kind::Utf8 {
                        return None;
                    }
                    // LIKE is evaluated with `\` as the escape, and any other
                    // is refused.
                    match escape_char {
                        Some(c) => {
                            if *c != '\\' {
                                return None;
                            }
                        },
                        None => {},
                    }
                    like(&field, pattern, *case_insensitive, *unlike == negated)
                },
                _ => None,
            },
            // A NULL used as a predicate, which is what simplification leaves of
            // `x = NULL` in `x IN (1, NULL)`, is neither true nor false, so it
            // keeps no row either way.
            Expr::Literal(ScalarValue::Boolean(None)) | Expr::Literal(ScalarValue::Null) => Some(
                MongoFilter::exact(nothing()),
            ),
            _ => None,
        }
    }
}

/// Translates a filter over a collection whose rows have `schema`, or returns
/// `None` when it cannot be expressed as a MongoDB query.
pub fn translate_filter(expr: &Expr, schema: &Schema, scope: &FilterScope) -> (r: Option<
    MongoFilter,
>)
    ensures
        crate::mongodb::filter::filter_view(r) == translated(*expr, false, schema@, *scope),
{
    let translator = Translator { schema, scope };
    translator.translate(expr, false)
}

} // verus!
