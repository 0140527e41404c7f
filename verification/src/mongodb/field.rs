//! Columns as the MongoDB fields they are read from.

use vstd::prelude::*;

use crate::logical::{Expr, Float, ScalarValue};
use crate::text::{char_vec, same, string_of};
use crate::types::{DataType, Schema, TimeUnit};

verus! {

/// What a collection's columns are, beyond their types.
#[derive(Debug)]
pub struct FilterScope {
    /// Columns that are not a MongoDB field of the same name, such as a JSON
    /// nesting catch-all.
    pub unpushable_columns: Vec<String>,
    /// How many levels of embedded documents are flattened into dotted
    /// columns, or `None` when the flattening is not depth based.
    pub unnest_depth: Option<usize>,
    /// Whether rows are read from whole documents rather than from a
    /// projection of the columns. Unnesting a whole document reads a field
    /// whose name contains a dot into the dotted column of that name, and no
    /// query path addresses such a field, so a dotted column is then not
    /// pushed down.
    pub whole_documents: bool,
    /// Whether the query can compare strings by code point, as SQL does: the
    /// collection has no collation, or one the query replaces with the simple
    /// collation. A collation can hold unequal strings equal and order them
    /// differently, which narrows `$nin` and the range operators, so without
    /// this only the string predicates a collation cannot narrow are pushed
    /// down.
    pub code_point_strings: bool,
}

impl FilterScope {
    /// Whether the column `name` is no MongoDB field.
    pub open spec fn unpushable(&self, name: Seq<char>) -> bool {
        crate::text::texts(self.unpushable_columns@).contains(name)
    }
}

/// How a column's rows are produced from its field's BSON values, which
/// decides the MongoDB conditions that select a given SQL value.
#[derive(Clone, Copy, Debug, PartialEq, Eq, Structural)]
pub enum Kind {
    /// A string as itself, an `ObjectId` as its hex string, an embedded
    /// document as JSON, and anything else as its display string.
    Utf8,
    Boolean,
    /// An integer column: the value of a BSON `int`, or when `wide` also of a
    /// `long`, from `min` to `max`.
    Integer { wide: bool, min: i128, max: i128 },
    /// `double`, `int` and `long` values, as doubles.
    Float64,
    /// A timestamp in milliseconds or finer, or a date in milliseconds: a
    /// `date` as its milliseconds, a BSON `timestamp` as its seconds, each only
    /// within the milliseconds from `min` to `max` the unit can represent.
    Instant { min: i128, max: i128 },
    /// The UTC day of a `date`.
    Date32,
    Binary,
    /// An array, whatever its elements.
    List,
}

/// The milliseconds whose count in a unit `per_milli` times finer fits `i64`.
pub open spec fn per_milli_kind(per_milli: int) -> Kind {
    Kind::Instant {
        min: (-(0x8000_0000_0000_0000int / per_milli)) as i128,
        max: (0x7fff_ffff_ffff_ffffint / per_milli) as i128,
    }
}

impl Kind {
    /// The bounds of a kind lie within the range of `i64`.
    pub open spec fn wf(self) -> bool {
        match self {
            Kind::Integer { wide, min, max } => i64::MIN <= min <= max <= i64::MAX && (!wide
                ==> i32::MIN <= min <= max <= i32::MAX),
            Kind::Instant { min, max } => i64::MIN <= min <= 0 && 0 <= max <= i64::MAX,
            _ => true,
        }
    }

    /// The kind of a column of the given type, if it can be queried.
    pub open spec fn kind_of(data_type: crate::types::DataTypeView) -> Option<Kind> {
        match data_type {
            crate::types::DataTypeView::Utf8 | crate::types::DataTypeView::LargeUtf8 => Some(
                Kind::Utf8,
            ),
            crate::types::DataTypeView::Boolean => Some(Kind::Boolean),
            crate::types::DataTypeView::Int8 => Some(
                Kind::Integer { wide: false, min: i8::MIN as i128, max: i8::MAX as i128 },
            ),
            crate::types::DataTypeView::Int16 => Some(
                Kind::Integer { wide: false, min: i16::MIN as i128, max: i16::MAX as i128 },
            ),
            crate::types::DataTypeView::Int32 => Some(
                Kind::Integer { wide: true, min: i32::MIN as i128, max: i32::MAX as i128 },
            ),
            crate::types::DataTypeView::Int64 => Some(
                Kind::Integer { wide: true, min: i64::MIN as i128, max: i64::MAX as i128 },
            ),
            crate::types::DataTypeView::UInt8 => Some(
                Kind::Integer { wide: false, min: 0, max: u8::MAX as i128 },
            ),
            crate::types::DataTypeView::UInt16 => Some(
                Kind::Integer { wide: false, min: 0, max: u16::MAX as i128 },
            ),
            crate::types::DataTypeView::UInt32 => Some(
                Kind::Integer { wide: true, min: 0, max: u32::MAX as i128 },
            ),
            crate::types::DataTypeView::UInt64 => Some(
                Kind::Integer { wide: true, min: 0, max: i64::MAX as i128 },
            ),
            crate::types::DataTypeView::Float64 => Some(Kind::Float64),
            crate::types::DataTypeView::Timestamp(TimeUnit::Millisecond, _)
            | crate::types::DataTypeView::Date64 => Some(
                Kind::Instant { min: i64::MIN as i128, max: i64::MAX as i128 },
            ),
            crate::types::DataTypeView::Timestamp(TimeUnit::Microsecond, _) => Some(
                per_milli_kind(1_000),
            ),
            crate::types::DataTypeView::Timestamp(TimeUnit::Nanosecond, _) => Some(
                per_milli_kind(1_000_000),
            ),
            crate::types::DataTypeView::Date32 => Some(Kind::Date32),
            crate::types::DataTypeView::Binary | crate::types::DataTypeView::LargeBinary => Some(
                Kind::Binary,
            ),
            crate::types::DataTypeView::List(_) => Some(Kind::List),
            _ => None,
        }
    }

    /// The kind of a column of the given type, if it can be queried.
    pub fn of(data_type: &DataType) -> (r: Option<Kind>)
        ensures
            r == Kind::kind_of(data_type@),
            r matches Some(k) ==> k.wf(),
    {
        match data_type {
            DataType::Utf8 | DataType::LargeUtf8 => Some(Kind::Utf8),
            DataType::Boolean => Some(Kind::Boolean),
            DataType::Int8 => Some(Kind::Integer { wide: false, min: -128, max: 127 }),
            DataType::Int16 => Some(Kind::Integer { wide: false, min: -32768, max: 32767 }),
            DataType::Int32 => Some(
                Kind::Integer { wide: true, min: i32::MIN as i128, max: i32::MAX as i128 },
            ),
            DataType::Int64 => Some(
                Kind::Integer { wide: true, min: i64::MIN as i128, max: i64::MAX as i128 },
            ),
            DataType::UInt8 => Some(Kind::Integer { wide: false, min: 0, max: 255 }),
            DataType::UInt16 => Some(Kind::Integer { wide: false, min: 0, max: 65535 }),
            DataType::UInt32 => Some(Kind::Integer { wide: true, min: 0, max: u32::MAX as i128 }),
            DataType::UInt64 => Some(Kind::Integer { wide: true, min: 0, max: i64::MAX as i128 }),
            DataType::Float64 => Some(Kind::Float64),
            DataType::Timestamp(TimeUnit::Millisecond, _) | DataType::Date64 => Some(
                Kind::Instant { min: i64::MIN as i128, max: i64::MAX as i128 },
            ),
            // The conversion nulls a `date` whose milliseconds overflow the unit.
            DataType::Timestamp(TimeUnit::Microsecond, _) => Some(Kind::instant_per_milli(1_000)),
            DataType::Timestamp(TimeUnit::Nanosecond, _) => Some(
                Kind::instant_per_milli(1_000_000),
            ),
            DataType::Date32 => Some(Kind::Date32),
            DataType::Binary | DataType::LargeBinary => Some(Kind::Binary),
            DataType::List(_) => Some(Kind::List),
            _ => None,
        }
    }

    /// An instant in a unit `per_milli` times finer than a millisecond, whose
    /// `i64` holds only the milliseconds that do not overflow once scaled.
    pub fn instant_per_milli(per_milli: i64) -> (r: Kind)
        requires
            per_milli > 0,
        ensures
            r == per_milli_kind(per_milli as int),
            r.wf(),
    {
        let p: i128 = per_milli as i128;
        proof {
            let least: int = 0x8000_0000_0000_0000;
            let most: int = 0x7fff_ffff_ffff_ffff;
            assert(0 <= least / (p as int) <= least) by (nonlinear_arith)
                requires
                    p >= 1,
                    least >= 0,
            ;
            assert(0 <= most / (p as int) <= most) by (nonlinear_arith)
                requires
                    p >= 1,
                    most >= 0,
            ;
        }
        Kind::Instant {
            min: -(0x8000_0000_0000_0000i128 / p),
            max: 0x7fff_ffff_ffff_ffffi128 / p,
        }
    }
}

/// The milliseconds from `min` to `max` of an instant kind are exactly those
/// whose count in the finer unit fits `i64`.
pub proof fn an_instant_kind_holds_what_fits(per_milli: int, millis: int)
    requires
        0 < per_milli <= i64::MAX,
    ensures
        per_milli_kind(per_milli) matches Kind::Instant { min, max } && ((min <= millis <= max) == (
        i64::MIN <= millis * per_milli <= i64::MAX)),
{
    let least: int = 0x8000_0000_0000_0000;
    let most: int = 0x7fff_ffff_ffff_ffff;
    vstd::arithmetic::div_mod::lemma_fundamental_div_mod(least, per_milli);
    vstd::arithmetic::div_mod::lemma_fundamental_div_mod(most, per_milli);
    vstd::arithmetic::div_mod::lemma_mod_bound(least, per_milli);
    vstd::arithmetic::div_mod::lemma_mod_bound(most, per_milli);
    let a = least / per_milli;
    let b = most / per_milli;
    assert(0 <= a <= least && 0 <= b <= most) by (nonlinear_arith)
        requires
            per_milli >= 1,
            least >= 0,
            most >= 0,
            a == least / per_milli,
            b == most / per_milli,
    ;
    assert((millis <= b) == (millis * per_milli <= most)) by (nonlinear_arith)
        requires
            most == per_milli * b + most % per_milli,
            0 <= most % per_milli < per_milli,
    ;
    assert((-a <= millis) == (-least <= millis * per_milli)) by (nonlinear_arith)
        requires
            least == per_milli * a + least % per_milli,
            0 <= least % per_milli < per_milli,
    ;
}

/// A column resolved to the MongoDB field it is read from.
pub struct Field<'a> {
    pub path: &'a str,
    pub kind: Kind,
    /// Whether an embedded document at `path` is flattened away by unnesting,
    /// which leaves the column NULL, rather than rendered into it.
    pub documents_flattened: bool,
}

/// What a [`Field`] says.
#[verifier::ext_equal]
pub struct FieldModel {
    pub path: Seq<char>,
    pub kind: Kind,
    pub flattened: bool,
}

/// The parts of the first `n` characters of `path` that end before a dot.
pub open spec fn prefixes(path: Seq<char>, n: int) -> Seq<Seq<char>>
    decreases n,
{
    if n <= 0 {
        Seq::empty()
    } else if path[n - 1] == '.' {
        prefixes(path, n - 1).push(path.take(n - 1))
    } else {
        prefixes(path, n - 1)
    }
}

/// The proper prefixes of a dotted path.
pub open spec fn parents_of(path: Seq<char>) -> Seq<Seq<char>> {
    prefixes(path, path.len() as int)
}

/// What an optional field says.
pub open spec fn field_model(field: Option<Field<'_>>) -> Option<FieldModel> {
    match field {
        Some(f) => Some(f@),
        None => None,
    }
}

impl<'a> Field<'a> {
    pub open spec fn view(&self) -> FieldModel {
        FieldModel { path: self.path@, kind: self.kind, flattened: self.documents_flattened }
    }

    /// The proper prefixes of a dotted path. Each must hold a document rather
    /// than an array for the path to reach the value the flattened row holds:
    /// MongoDB traverses arrays along a path, unnesting does not.
    pub fn parents(&self) -> (r: Vec<String>)
        ensures
            crate::text::texts(r@) == parents_of(self.path@),
    {
        let cs = char_vec(self.path);
        let mut prefix: Vec<char> = Vec::new();
        let mut r: Vec<String> = Vec::new();
        let mut i: usize = 0;
        assert(crate::text::texts(r@) =~= prefixes(cs@, 0));
        while i < cs.len()
            invariant
                i <= cs.len(),
                prefix@ == cs@.take(i as int),
                crate::text::texts(r@) == prefixes(cs@, i as int),
            decreases cs.len() - i,
        {
            let c: char = cs[i];
            if c == '.' {
                let ghost before = r@;
                r.push(string_of(&prefix));
                assert(crate::text::texts(r@) =~= crate::text::texts(before).push(
                    cs@.take(i as int),
                ));
            }
            prefix.push(c);
            i += 1;
            assert(prefix@ =~= cs@.take(i as int));
        }
        r
    }
}

/// How many dots are among the first `n` characters of `path`.
pub open spec fn dots(path: Seq<char>, n: int) -> nat
    decreases n,
{
    if n <= 0 {
        0
    } else {
        dots(path, n - 1) + (if path[n - 1] == '.' {
            1nat
        } else {
            0nat
        })
    }
}

/// A path has one parent for each of its dots.
pub proof fn a_parent_for_each_dot(path: Seq<char>, n: int)
    requires
        0 <= n <= path.len(),
    ensures
        prefixes(path, n).len() == dots(path, n),
    decreases n,
{
    if n > 0 {
        a_parent_for_each_dot(path, n - 1);
    }
}

fn count_dots(path: &str) -> (r: usize)
    ensures
        r == dots(path@, path@.len() as int),
{
    let cs = char_vec(path);
    let mut r: usize = 0;
    let mut i: usize = 0;
    while i < cs.len()
        invariant
            i <= cs.len(),
            r <= i,
            r == dots(cs@, i as int),
        decreases cs.len() - i,
    {
        if cs[i] == '.' {
            r += 1;
        }
        i += 1;
    }
    r
}

/// Whether `name` can be addressed as a field path in a query document: no NUL,
/// which cannot be encoded, no empty segment, and no segment that begins with
/// `$`, which would be read as an operator.
pub open spec fn addressable(name: Seq<char>) -> bool {
    &&& name.len() > 0
    &&& forall|i: int| 0 <= i < name.len() ==> #[trigger] name[i] != '\0'
    &&& name[0] != '.' && name[0] != '$'
    &&& name.last() != '.'
    &&& forall|i: int|
        0 <= i < name.len() - 1 && #[trigger] name[i] == '.' ==> name[i + 1] != '.' && name[i + 1]
            != '$'
}

/// Whether `name` can be addressed as a field path in a query document.
pub fn is_addressable(name: &str) -> (r: bool)
    ensures
        r == addressable(name@),
{
    let cs = char_vec(name);
    if cs.len() == 0 {
        return false;
    }
    let mut at_start = true;
    let mut i: usize = 0;
    while i < cs.len()
        invariant
            i <= cs.len(),
            cs@ == name@,
            cs.len() > 0,
            at_start == (i == 0 || cs@[i - 1] == '.'),
            forall|k: int| 0 <= k < i ==> #[trigger] cs@[k] != '\0',
            i > 0 ==> cs@[0] != '.' && cs@[0] != '$',
            forall|k: int|
                0 <= k < i - 1 && #[trigger] cs@[k] == '.' ==> cs@[k + 1] != '.' && cs@[k + 1]
                    != '$',
        decreases cs.len() - i,
    {
        let c: char = cs[i];
        if c == '\0' {
            assert(name@[i as int] == '\0');
            return false;
        }
        if at_start && (c == '.' || c == '$') {
            if i > 0 {
                assert(name@[i - 1] == '.');
            }
            return false;
        }
        at_start = c == '.';
        i += 1;
    }
    !at_start
}

/// Whether casting a column from one type to another keeps every value that is
/// not null afterwards: see [`read_kind`] for the values that are.
pub open spec fn keeps_values(
    from: crate::types::DataTypeView,
    to: crate::types::DataTypeView,
) -> bool {
    match (from, to) {
        (crate::types::DataTypeView::Utf8, crate::types::DataTypeView::Utf8)
        | (crate::types::DataTypeView::Utf8, crate::types::DataTypeView::LargeUtf8)
        | (crate::types::DataTypeView::Utf8, crate::types::DataTypeView::Utf8View)
        | (crate::types::DataTypeView::LargeUtf8, crate::types::DataTypeView::Utf8)
        | (crate::types::DataTypeView::LargeUtf8, crate::types::DataTypeView::LargeUtf8)
        | (crate::types::DataTypeView::LargeUtf8, crate::types::DataTypeView::Utf8View) => true,
        (
            crate::types::DataTypeView::Timestamp(from_unit, from_zone),
            crate::types::DataTypeView::Timestamp(to_unit, to_zone),
        ) => from_unit == to_unit && (from_zone is Some || to_zone is None || utc(to_zone->0)),
        _ => from == to || match (integer_width(from), integer_width(to)) {
            (Some(f), Some(t)) => (f.0 == t.0 && f.1 <= t.1) || (!f.0 && t.0 && f.1 < t.1),
            (Some(_), None) => to is Float64,
            _ => false,
        },
    }
}

/// Whether an integer type is signed, and its width in bits.
pub open spec fn integer_width(t: crate::types::DataTypeView) -> Option<(bool, int)> {
    match t {
        crate::types::DataTypeView::Int8 => Some((true, 8)),
        crate::types::DataTypeView::Int16 => Some((true, 16)),
        crate::types::DataTypeView::Int32 => Some((true, 32)),
        crate::types::DataTypeView::Int64 => Some((true, 64)),
        crate::types::DataTypeView::UInt8 => Some((false, 8)),
        crate::types::DataTypeView::UInt16 => Some((false, 16)),
        crate::types::DataTypeView::UInt32 => Some((false, 32)),
        crate::types::DataTypeView::UInt64 => Some((false, 64)),
        _ => None,
    }
}

/// Whether `zone` names UTC, where wall-clock time is the instant itself.
pub open spec fn utc(zone: Seq<char>) -> bool {
    zone == "UTC"@ || zone == "+00:00"@
}

fn integer_width_of(t: &DataType) -> (r: Option<(bool, u8)>)
    ensures
        match r {
            Some((signed, width)) => integer_width(t@) == Some((signed, width as int)),
            None => integer_width(t@) is None,
        },
{
    match t {
        DataType::Int8 => Some((true, 8)),
        DataType::Int16 => Some((true, 16)),
        DataType::Int32 => Some((true, 32)),
        DataType::Int64 => Some((true, 64)),
        DataType::UInt8 => Some((false, 8)),
        DataType::UInt16 => Some((false, 16)),
        DataType::UInt32 => Some((false, 32)),
        DataType::UInt64 => Some((false, 64)),
        _ => None,
    }
}

/// Whether casting a column from `from` to `to` keeps every value, so that
/// comparing the cast value is comparing the stored one. An integer of 64 bits
/// rounds beyond two to the fifty-third on its way to a double, which the
/// comparison of such a cast accounts for.
///
/// A finer unit overflows for a distant instant, which a cast turns into an
/// error and `TRY_CAST` into NULL, and a coarser one truncates. A zone added to
/// a timestamp without one reads it as wall-clock time there, which moves the
/// instant unless the zone is UTC. It is read through `chrono`, whose range is
/// narrower than a BSON date's, so even UTC can make it NULL. Otherwise only the
/// zone it displays in changes.
pub fn preserves_values(from: &DataType, to: &DataType) -> (r: bool)
    ensures
        r == keeps_values(from@, to@),
{
    match (from, to) {
        (DataType::Utf8, DataType::Utf8) | (DataType::Utf8, DataType::LargeUtf8) | (
            DataType::Utf8,
            DataType::Utf8View,
        ) | (DataType::LargeUtf8, DataType::Utf8) | (DataType::LargeUtf8, DataType::LargeUtf8) | (
            DataType::LargeUtf8,
            DataType::Utf8View,
        ) => true,
        (DataType::Timestamp(from_unit, from_zone), DataType::Timestamp(to_unit, to_zone)) => {
            if *from_unit != *to_unit {
                return false;
            }
            match (from_zone, to_zone) {
                (None, Some(zone)) => same(zone.as_str(), "UTC") || same(zone.as_str(), "+00:00"),
                _ => true,
            }
        },
        _ => {
            if from.same(to) {
                return true;
            }
            match (integer_width_of(from), integer_width_of(to)) {
                (Some((from_signed, from_width)), Some((to_signed, to_width))) => {
                    if from_signed == to_signed {
                        from_width <= to_width
                    } else {
                        to_signed && from_width < to_width
                    }
                },
                (Some(_), None) => matches!(to, DataType::Float64),
                _ => false,
            }
        },
    }
}

/// The value of a literal operand, folding a cast of one.
pub open spec fn literal_of(expr: Expr) -> Option<ScalarValue> {
    match expr {
        Expr::Literal(value) => Some(value),
        Expr::Cast { expr, folded, .. } => if *expr is Literal {
            folded
        } else {
            None
        },
        Expr::TryCast { expr, folded, .. } => if *expr is Literal {
            folded
        } else {
            None
        },
        _ => None,
    }
}

/// The value of a literal operand, or what a cast of one is folded to: see
/// [`Expr::cast`].
pub fn literal<'e>(expr: &'e Expr) -> (r: Option<&'e ScalarValue>)
    ensures
        match r {
            Some(value) => literal_of(*expr) == Some(*value),
            None => literal_of(*expr) is None,
        },
{
    match expr {
        Expr::Literal(value) => Some(value),
        Expr::Cast { expr, folded, .. } => match &**expr {
            Expr::Literal(_) => folded.as_ref(),
            _ => None,
        },
        Expr::TryCast { expr, folded, .. } => match &**expr {
            Expr::Literal(_) => folded.as_ref(),
            _ => None,
        },
        _ => None,
    }
}

/// The column that `expr` is, or is a cast of, and the type it is cast to.
pub open spec fn column_of(expr: Expr) -> Option<
    (Seq<char>, Option<crate::types::DataTypeView>),
> {
    match expr {
        Expr::Column(column) => Some((column.name@, None)),
        Expr::Cast { expr, data_type, .. } => match *expr {
            Expr::Column(column) => Some((column.name@, Some(data_type@))),
            _ => None,
        },
        Expr::TryCast { expr, data_type, .. } => match *expr {
            Expr::Column(column) => Some((column.name@, Some(data_type@))),
            _ => None,
        },
        _ => None,
    }
}

/// Whether a cast adds a time zone to a timestamp without one.
pub open spec fn gains_zone(
    from: crate::types::DataTypeView,
    to: crate::types::DataTypeView,
) -> bool {
    match (from, to) {
        (
            crate::types::DataTypeView::Timestamp(_, None),
            crate::types::DataTypeView::Timestamp(_, Some(_)),
        ) => true,
        _ => false,
    }
}

/// The kind of a column of the type `stored`, or of a cast of it. A time zone is
/// added through `chrono`, whose range is narrower than a date's: beyond it the
/// cast is NULL.
pub open spec fn read_kind(
    stored: crate::types::DataTypeView,
    cast: Option<crate::types::DataTypeView>,
) -> Option<Kind> {
    match (Kind::kind_of(stored), cast) {
        (Some(Kind::Instant { min, max }), Some(to)) => if gains_zone(stored, to) {
            Some(
                Kind::Instant {
                    min: if min < crate::mongodb::expression::FIRST_MILLI {
                        crate::mongodb::expression::FIRST_MILLI as i128
                    } else {
                        min
                    },
                    max: if max > crate::mongodb::expression::LAST_MILLI {
                        crate::mongodb::expression::LAST_MILLI as i128
                    } else {
                        max
                    },
                },
            )
        } else {
            Some(Kind::Instant { min, max })
        },
        (kind, _) => kind,
    }
}

fn kind_read(stored: &DataType, cast: Option<&DataType>) -> (r: Option<Kind>)
    ensures
        r == read_kind(
            stored@,
            match cast {
                Some(to) => Some(to@),
                None => None,
            },
        ),
        r matches Some(k) ==> k.wf(),
{
    let gains = match (stored, cast) {
        (DataType::Timestamp(_, None), Some(DataType::Timestamp(_, Some(_)))) => true,
        _ => false,
    };
    match Kind::of(stored) {
        Some(Kind::Instant { min, max }) => if gains {
            let first = crate::mongodb::expression::FIRST_MILLI as i128;
            let last = crate::mongodb::expression::LAST_MILLI as i128;
            Some(
                Kind::Instant {
                    min: if min < first {
                        first
                    } else {
                        min
                    },
                    max: if max > last {
                        last
                    } else {
                        max
                    },
                },
            )
        } else {
            Some(Kind::Instant { min, max })
        },
        kind => kind,
    }
}

/// The field that `expr` reads, if it is a column, or a cast of one that keeps
/// its values, that a query can address.
pub open spec fn field_of(
    expr: Expr,
    schema: Seq<crate::types::FieldView>,
    scope: FilterScope,
) -> Option<FieldModel> {
    match column_of(expr) {
        Some((path, cast)) => match crate::types::field_position(schema, path) {
            Some(i) => {
                let stored = schema[i].data_type;
                let depth = dots(path, path.len() as int);
                if (cast matches Some(to) && !keeps_values(stored, to)) || scope.unpushable(path)
                    || !addressable(path) {
                    None
                } else {
                    match scope.unnest_depth {
                        Some(most) => if depth > most || (depth > 0 && scope.whole_documents) {
                            None
                        } else {
                            match read_kind(stored, cast) {
                                Some(kind) => Some(
                                    FieldModel { path, kind, flattened: depth < most },
                                ),
                                None => None,
                            }
                        },
                        None => None,
                    }
                }
            },
            None => None,
        },
        None => None,
    }
}

fn contains_name(names: &Vec<String>, name: &str) -> (r: bool)
    ensures
        r == crate::text::texts(names@).contains(name@),
{
    let mut i: usize = 0;
    while i < names.len()
        invariant
            i <= names.len(),
            forall|k: int| 0 <= k < i ==> #[trigger] crate::text::texts(names@)[k] != name@,
        decreases names.len() - i,
    {
        assert(crate::text::texts(names@)[i as int] == names@[i as int]@);
        if same(names[i].as_str(), name) {
            return true;
        }
        i += 1;
    }
    false
}

/// Resolves a column, or a cast of one that keeps its values.
pub fn resolve<'e>(expr: &'e Expr, schema: &Schema, scope: &FilterScope) -> (r: Option<Field<'e>>)
    ensures
        field_model(r) == field_of(*expr, schema@, *scope),
        r matches Some(f) ==> f.kind.wf(),
{
    let (column, cast): (&crate::logical::Column, Option<&DataType>) = match expr {
        Expr::Column(column) => (column, None),
        Expr::Cast { expr, data_type, .. } => match &**expr {
            Expr::Column(column) => (column, Some(data_type)),
            _ => {
                return None;
            },
        },
        Expr::TryCast { expr, data_type, .. } => match &**expr {
            Expr::Column(column) => (column, Some(data_type)),
            _ => {
                return None;
            },
        },
        _ => {
            return None;
        },
    };
    let path = column.name.as_str();
    let stored = match schema.field_with_name(path) {
        Some(field) => &field.data_type,
        None => {
            return None;
        },
    };
    match cast {
        Some(to) => {
            if !preserves_values(stored, to) {
                return None;
            }
        },
        None => {},
    }
    if contains_name(&scope.unpushable_columns, path) || !is_addressable(path) {
        return None;
    }
    // With depth-based unnesting a dotted column is a flattened path; without
    // it, a field whose name has a dot, which a query path cannot address.
    let unnest_depth: usize = match scope.unnest_depth {
        Some(depth) => depth,
        None => {
            return None;
        },
    };
    let depth: usize = count_dots(path);
    if depth > unnest_depth || (depth > 0 && scope.whole_documents) {
        return None;
    }
    match kind_read(stored, cast) {
        Some(kind) => Some(Field { path, kind, documents_flattened: depth < unnest_depth }),
        None => None,
    }
}

/// A number that a literal is.
pub enum Numeric<'a> {
    Int(i128),
    Float(&'a Float),
}

/// What a [`Numeric`] is: an integer, or the bits of a double.
pub enum NumericView {
    Int(i128),
    Float(u64),
}

/// The number that a literal is.
pub open spec fn numeric_of(value: ScalarValue) -> Option<NumericView> {
    match value {
        ScalarValue::Int8(Some(v)) => Some(NumericView::Int(v as i128)),
        ScalarValue::Int16(Some(v)) => Some(NumericView::Int(v as i128)),
        ScalarValue::Int32(Some(v)) => Some(NumericView::Int(v as i128)),
        ScalarValue::Int64(Some(v)) => Some(NumericView::Int(v as i128)),
        ScalarValue::UInt8(Some(v)) => Some(NumericView::Int(v as i128)),
        ScalarValue::UInt16(Some(v)) => Some(NumericView::Int(v as i128)),
        ScalarValue::UInt32(Some(v)) => Some(NumericView::Int(v as i128)),
        ScalarValue::UInt64(Some(v)) => Some(NumericView::Int(v as i128)),
        ScalarValue::Float32(Some(v)) => Some(NumericView::Float(v.bits)),
        ScalarValue::Float64(Some(v)) => Some(NumericView::Float(v.bits)),
        _ => None,
    }
}

/// The number that a literal is.
pub fn numeric<'v>(value: &'v ScalarValue) -> (r: Option<Numeric<'v>>)
    ensures
        match r {
            Some(Numeric::Int(k)) => numeric_of(*value) == Some(NumericView::Int(k))
                && -0x8000_0000_0000_0000 <= k <= 0xffff_ffff_ffff_ffff,
            Some(Numeric::Float(x)) => numeric_of(*value) == Some(NumericView::Float(x.bits)),
            None => numeric_of(*value) is None,
        },
{
    match value {
        ScalarValue::Int8(Some(v)) => Some(Numeric::Int(*v as i128)),
        ScalarValue::Int16(Some(v)) => Some(Numeric::Int(*v as i128)),
        ScalarValue::Int32(Some(v)) => Some(Numeric::Int(*v as i128)),
        ScalarValue::Int64(Some(v)) => Some(Numeric::Int(*v as i128)),
        ScalarValue::UInt8(Some(v)) => Some(Numeric::Int(*v as i128)),
        ScalarValue::UInt16(Some(v)) => Some(Numeric::Int(*v as i128)),
        ScalarValue::UInt32(Some(v)) => Some(Numeric::Int(*v as i128)),
        ScalarValue::UInt64(Some(v)) => Some(Numeric::Int(*v as i128)),
        ScalarValue::Float32(Some(v)) => Some(Numeric::Float(v)),
        ScalarValue::Float64(Some(v)) => Some(Numeric::Float(v)),
        _ => None,
    }
}

/// An instant literal as an exact fraction of milliseconds since the epoch.
pub open spec fn millis_of(value: ScalarValue) -> Option<(int, int)> {
    match value {
        ScalarValue::TimestampSecond(Some(v), _) => Some((v * 1_000, 1)),
        ScalarValue::TimestampMillisecond(Some(v), _) => Some((v.value as int, 1)),
        ScalarValue::Date64(Some(v)) => Some((v as int, 1)),
        ScalarValue::TimestampMicrosecond(Some(v), _) => Some((v.value as int, 1_000)),
        ScalarValue::TimestampNanosecond(Some(v), _) => Some((v.value as int, 1_000_000)),
        ScalarValue::Date32(Some(days)) => Some((days * 86_400_000, 1)),
        _ => None,
    }
}

/// An instant literal as an exact fraction of milliseconds since the epoch.
pub fn instant_millis(value: &ScalarValue) -> (r: Option<(i128, i128)>)
    ensures
        match r {
            Some((num, den)) => den > 0 && millis_of(*value) == Some((num as int, den as int)),
            None => millis_of(*value) is None,
        },
{
    match value {
        ScalarValue::TimestampSecond(Some(v), _) => Some((*v as i128 * 1_000, 1)),
        ScalarValue::TimestampMillisecond(Some(v), _) => Some((v.value as i128, 1)),
        ScalarValue::Date64(Some(v)) => Some((*v as i128, 1)),
        ScalarValue::TimestampMicrosecond(Some(v), _) => Some((v.value as i128, 1_000)),
        ScalarValue::TimestampNanosecond(Some(v), _) => Some((v.value as i128, 1_000_000)),
        ScalarValue::Date32(Some(days)) => Some((*days as i128 * 86_400_000, 1)),
        _ => None,
    }
}

/// The string that a literal is.
pub open spec fn string_value(value: ScalarValue) -> Option<Seq<char>> {
    match value {
        ScalarValue::Utf8(Some(s)) | ScalarValue::LargeUtf8(Some(s)) | ScalarValue::Utf8View(
            Some(s),
        ) => Some(s@),
        _ => None,
    }
}

/// The string that a literal is.
pub fn string<'v>(value: &'v ScalarValue) -> (r: Option<&'v str>)
    ensures
        match r {
            Some(s) => string_value(*value) == Some(s@),
            None => string_value(*value) is None,
        },
{
    match value {
        ScalarValue::Utf8(Some(s)) => Some(s.as_str()),
        ScalarValue::LargeUtf8(Some(s)) => Some(s.as_str()),
        ScalarValue::Utf8View(Some(s)) => Some(s.as_str()),
        _ => None,
    }
}

} // verus!
