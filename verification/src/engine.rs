//! Columns' types as the engine holds them.

use vstd::prelude::*;

use crate::types::{DataType, DataTypeView, Field, FieldView, TimeUnit, UnionMode};

verus! {

/// A list of fields: `Fields` of `arrow_schema`.
#[verifier::external_body]
pub struct HeldFields {
    pub(crate) fields: arrow_schema::Fields,
}

/// The fields that a list holds, by their names, types and nullability.
pub uninterp spec fn fields_of(fields: HeldFields) -> Seq<FieldView>;

/// `ArrayData` of `arrow_data`: the values of a column.
#[verifier::external_type_specification]
#[verifier::external_body]
pub struct ExArrayData(arrow_data::ArrayData);

/// Of each row of a column, whether it holds a value.
pub uninterp spec fn validity_of(data: arrow_data::ArrayData) -> Seq<bool>;

/// `ArrayData::is_valid` of `arrow_data`, for each row that `ArrayData::len`
/// counts: whether the row holds a value.
#[verifier::external_body]
pub(crate) fn valid_rows(data: &arrow_data::ArrayData) -> (r: Vec<bool>)
    ensures
        r@ == validity_of(*data),
{
    (0..data.len()).map(|row| data.is_valid(row)).collect()
}

/// Whether the engine has arrays of a type: no size is negative, runs end at
/// signed integers of at least 16 bits, and each member of a union has an id of
/// its own.
pub open spec fn sane(t: DataTypeView) -> bool
    decreases t,
{
    match t {
        DataTypeView::FixedSizeBinary(n) => n >= 0,
        DataTypeView::List(f)
        | DataTypeView::ListView(f)
        | DataTypeView::LargeList(f)
        | DataTypeView::LargeListView(f)
        | DataTypeView::MapOf(f, _) => sane(f.data_type),
        DataTypeView::FixedSizeList(f, n) => n >= 0 && sane(f.data_type),
        DataTypeView::Struct(members) => all_members_sane(members),
        DataTypeView::Dictionary(k, v) => sane(*k) && sane(*v),
        DataTypeView::Union(ids, members, _) => {
            &&& told_apart(ids)
            &&& ids.len() == members.len()
            &&& all_members_sane(members)
        },
        DataTypeView::RunEndEncoded(ends, values) => (ends.data_type is Int16 || ends.data_type
            is Int32 || ends.data_type is Int64) && sane(values.data_type),
        _ => true,
    }
}

/// Whether the engine has arrays of the types of all `members`.
pub open spec fn all_members_sane(members: Seq<FieldView>) -> bool
    decreases members,
{
    forall|i: int| 0 <= i < members.len() ==> sane((#[trigger] members[i]).data_type)
}

/// Whether the ids of a union's members differ, and none is negative.
pub open spec fn told_apart(ids: Seq<i8>) -> bool {
    &&& forall|i: int| 0 <= i < ids.len() ==> 0 <= #[trigger] ids[i]
    &&& forall|i: int, j: int|
        0 <= i < j < ids.len() ==> #[trigger] ids[i] != #[trigger] ids[j]
}

fn are_told_apart(ids: &Vec<i8>) -> (r: bool)
    ensures
        r == told_apart(ids@),
{
    let mut j: usize = 0;
    while j < ids.len()
        invariant
            j <= ids.len(),
            forall|i: int| 0 <= i < j ==> 0 <= #[trigger] ids@[i],
            forall|i: int, k: int|
                0 <= i < k < j ==> #[trigger] ids@[i] != #[trigger] ids@[k],
        decreases ids.len() - j,
    {
        if ids[j] < 0 {
            return false;
        }
        let mut i: usize = 0;
        while i < j
            invariant
                i <= j < ids.len(),
                forall|k: int| 0 <= k < i ==> #[trigger] ids@[k] != ids@[j as int],
            decreases j - i,
        {
            if ids[i] == ids[j] {
                return false;
            }
            i += 1;
        }
        j += 1;
    }
    true
}

fn all_sane(fields: &Vec<Field>) -> (r: bool)
    ensures
        r == all_members_sane(crate::types::field_views(fields@)),
    decreases fields@,
{
    let ghost views = crate::types::field_views(fields@);
    let mut i: usize = 0;
    while i < fields.len()
        invariant
            i <= fields.len(),
            views == crate::types::field_views(fields@),
            forall|k: int| 0 <= k < i ==> sane((#[trigger] views[k]).data_type),
        decreases fields.len() - i,
    {
        assert(views[i as int] == fields@[i as int]@);
        assert(decreases_to!(fields@ => fields@[i as int]));
        if !is_sane(&fields[i].data_type) {
            assert(!sane(views[i as int].data_type));
            return false;
        }
        i += 1;
    }
    true
}

/// Whether the engine has arrays of a type: see [`sane`].
pub fn is_sane(data_type: &DataType) -> (r: bool)
    ensures
        r == sane(data_type@),
    decreases data_type,
{
    proof {
        reveal_with_fuel(DataType::view, 3);
        reveal_with_fuel(Field::view, 3);
    }
    match data_type {
        DataType::FixedSizeBinary(n) => *n >= 0,
        DataType::List(f) => is_sane(&f.data_type),
        DataType::ListView(f) => is_sane(&f.data_type),
        DataType::LargeList(f) => is_sane(&f.data_type),
        DataType::LargeListView(f) => is_sane(&f.data_type),
        DataType::MapOf(f, _) => is_sane(&f.data_type),
        DataType::FixedSizeList(f, n) => *n >= 0 && is_sane(&f.data_type),
        DataType::Struct(members) => {
            let r = all_sane(members);
            assert(r == all_members_sane(data_type@->Struct_0));
            r
        },
        DataType::Dictionary(k, v) => is_sane(k) && is_sane(v),
        DataType::Union(ids, members, _) => {
            let r = all_sane(members);
            assert(r == all_members_sane(data_type@->Union_1));
            are_told_apart(ids) && ids.len() == members.len() && r
        },
        DataType::RunEndEncoded(ends, values) => {
            let integral = match ends.data_type {
                DataType::Int16 | DataType::Int32 | DataType::Int64 => true,
                _ => false,
            };
            integral && is_sane(&values.data_type)
        },
        _ => true,
    }
}

/// The field of these parts.
pub open spec fn field_view(name: Seq<char>, data_type: DataTypeView, nullable: bool) -> FieldView {
    FieldView { name, data_type, nullable }
}

/// Whether a type is an integer or boolean, or has no values.
pub open spec fn counts(t: DataTypeView) -> bool {
    t is Null || t is Boolean || t is Int8 || t is Int16 || t is Int32 || t is Int64 || t is UInt8
        || t is UInt16 || t is UInt32 || t is UInt64
}

/// `Field::new` of `arrow_schema`, and a list of that one field: an integer type
/// is the one of its name.
#[verifier::external_body]
fn count_field(name: &str, data_type: &DataType, nullable: bool) -> (r: HeldFields)
    requires
        counts(data_type@),
    ensures
        fields_of(r) == seq![field_view(name@, data_type@, nullable)],
{
    let held = match data_type {
        DataType::Boolean => arrow_schema::DataType::Boolean,
        DataType::Int8 => arrow_schema::DataType::Int8,
        DataType::Int16 => arrow_schema::DataType::Int16,
        DataType::Int32 => arrow_schema::DataType::Int32,
        DataType::Int64 => arrow_schema::DataType::Int64,
        DataType::UInt8 => arrow_schema::DataType::UInt8,
        DataType::UInt16 => arrow_schema::DataType::UInt16,
        DataType::UInt32 => arrow_schema::DataType::UInt32,
        DataType::UInt64 => arrow_schema::DataType::UInt64,
        _ => arrow_schema::DataType::Null,
    };
    HeldFields { fields: vec![arrow_schema::Field::new(name, held, nullable)].into() }
}

/// Whether a type holds floating-point numbers, days, bytes or text.
pub open spec fn plain(t: DataTypeView) -> bool {
    t is Float16 || t is Float32 || t is Float64 || t is Date32 || t is Date64 || t is Binary || t
        is LargeBinary || t is BinaryView || t is Utf8 || t is LargeUtf8 || t is Utf8View
}

/// `Field::new` of `arrow_schema`, and a list of that one field: such a type is
/// the one of its name.
#[verifier::external_body]
fn plain_field(name: &str, data_type: &DataType, nullable: bool) -> (r: HeldFields)
    requires
        plain(data_type@),
    ensures
        fields_of(r) == seq![field_view(name@, data_type@, nullable)],
{
    let held = match data_type {
        DataType::Float16 => arrow_schema::DataType::Float16,
        DataType::Float32 => arrow_schema::DataType::Float32,
        DataType::Float64 => arrow_schema::DataType::Float64,
        DataType::Date32 => arrow_schema::DataType::Date32,
        DataType::Date64 => arrow_schema::DataType::Date64,
        DataType::Binary => arrow_schema::DataType::Binary,
        DataType::LargeBinary => arrow_schema::DataType::LargeBinary,
        DataType::BinaryView => arrow_schema::DataType::BinaryView,
        DataType::Utf8 => arrow_schema::DataType::Utf8,
        DataType::LargeUtf8 => arrow_schema::DataType::LargeUtf8,
        _ => arrow_schema::DataType::Utf8View,
    };
    HeldFields { fields: vec![arrow_schema::Field::new(name, held, nullable)].into() }
}

/// Whether a type has a size, or a precision and a scale.
pub open spec fn sized(t: DataTypeView) -> bool {
    t is FixedSizeBinary || t is Decimal32 || t is Decimal64 || t is Decimal128 || t is Decimal256
}

/// `Field::new` of `arrow_schema`, and a list of that one field: such a type is
/// the one of its name, with the same size, or precision and scale.
#[verifier::external_body]
fn sized_field(name: &str, data_type: &DataType, nullable: bool) -> (r: HeldFields)
    requires
        sized(data_type@),
    ensures
        fields_of(r) == seq![field_view(name@, data_type@, nullable)],
{
    let held = match data_type {
        DataType::FixedSizeBinary(n) => arrow_schema::DataType::FixedSizeBinary(*n),
        DataType::Decimal32(p, s) => arrow_schema::DataType::Decimal32(*p, *s),
        DataType::Decimal64(p, s) => arrow_schema::DataType::Decimal64(*p, *s),
        DataType::Decimal128(p, s) => arrow_schema::DataType::Decimal128(*p, *s),
        DataType::Decimal256(p, s) => arrow_schema::DataType::Decimal256(*p, *s),
        _ => arrow_schema::DataType::Null,
    };
    HeldFields { fields: vec![arrow_schema::Field::new(name, held, nullable)].into() }
}

/// `Field::new` of `arrow_schema`, and a list of that one field: an interval of
/// the unit of its name.
#[verifier::external_body]
fn interval_field(name: &str, unit: crate::types::IntervalUnit, nullable: bool) -> (r:
    HeldFields)
    ensures
        fields_of(r) == seq![field_view(name@, DataTypeView::Interval(unit), nullable)],
{
    let unit = match unit {
        crate::types::IntervalUnit::YearMonth => arrow_schema::IntervalUnit::YearMonth,
        crate::types::IntervalUnit::DayTime => arrow_schema::IntervalUnit::DayTime,
        crate::types::IntervalUnit::MonthDayNano => arrow_schema::IntervalUnit::MonthDayNano,
    };
    let held = arrow_schema::DataType::Interval(unit);
    HeldFields { fields: vec![arrow_schema::Field::new(name, held, nullable)].into() }
}

/// The unit of a type that has one.
pub open spec fn unit_of(t: DataTypeView) -> Option<TimeUnit> {
    match t {
        DataTypeView::Timestamp(unit, _)
        | DataTypeView::Time32(unit)
        | DataTypeView::Time64(unit)
        | DataTypeView::Duration(unit) => Some(unit),
        _ => None,
    }
}

/// `Field::new` of `arrow_schema`, and a list of that one field: such a type is
/// the one of its name, with the unit of the same name and the same time zone.
#[verifier::external_body]
fn timed_field(name: &str, data_type: &DataType, unit: TimeUnit, nullable: bool) -> (r:
    HeldFields)
    requires
        unit_of(data_type@) == Some(unit),
    ensures
        fields_of(r) == seq![field_view(name@, data_type@, nullable)],
{
    let unit = match unit {
        TimeUnit::Second => arrow_schema::TimeUnit::Second,
        TimeUnit::Millisecond => arrow_schema::TimeUnit::Millisecond,
        TimeUnit::Microsecond => arrow_schema::TimeUnit::Microsecond,
        TimeUnit::Nanosecond => arrow_schema::TimeUnit::Nanosecond,
    };
    let held = match data_type {
        DataType::Timestamp(_, zone) => arrow_schema::DataType::Timestamp(unit, zone.as_deref().map(Into::into)),
        DataType::Time32(_) => arrow_schema::DataType::Time32(unit),
        DataType::Time64(_) => arrow_schema::DataType::Time64(unit),
        _ => arrow_schema::DataType::Duration(unit),
    };
    HeldFields { fields: vec![arrow_schema::Field::new(name, held, nullable)].into() }
}

/// The field of the items of a type that has items.
pub open spec fn item_of(t: DataTypeView) -> Option<FieldView> {
    match t {
        DataTypeView::List(f)
        | DataTypeView::ListView(f)
        | DataTypeView::LargeList(f)
        | DataTypeView::LargeListView(f)
        | DataTypeView::FixedSizeList(f, _)
        | DataTypeView::MapOf(f, _) => Some(*f),
        _ => None,
    }
}

/// `Field::new` of `arrow_schema`, and a list of that one field: such a type is
/// the one of its name, with the field of its items.
#[verifier::external_body]
fn nested_field(name: &str, data_type: &DataType, item: &HeldFields, nullable: bool) -> (r:
    HeldFields)
    requires
        item_of(data_type@) is Some,
        fields_of(*item) == seq![item_of(data_type@)->0],
    ensures
        fields_of(r) == seq![field_view(name@, data_type@, nullable)],
{
    let item = item.fields[0].clone();
    let held = match data_type {
        DataType::List(_) => arrow_schema::DataType::List(item),
        DataType::ListView(_) => arrow_schema::DataType::ListView(item),
        DataType::LargeList(_) => arrow_schema::DataType::LargeList(item),
        DataType::LargeListView(_) => arrow_schema::DataType::LargeListView(item),
        DataType::FixedSizeList(_, n) => arrow_schema::DataType::FixedSizeList(item, *n),
        DataType::MapOf(_, sorted) => arrow_schema::DataType::Map(item, *sorted),
        _ => arrow_schema::DataType::Null,
    };
    HeldFields { fields: vec![arrow_schema::Field::new(name, held, nullable)].into() }
}

/// `Field::new` of `arrow_schema`, and a list of that one field: a struct of the
/// members.
#[verifier::external_body]
fn struct_field(name: &str, members: HeldFields, nullable: bool) -> (r:
    HeldFields)
    ensures
        fields_of(r) == seq![field_view(name@, DataTypeView::Struct(fields_of(members)), nullable)],
{
    let held = arrow_schema::DataType::Struct(members.fields);
    HeldFields { fields: vec![arrow_schema::Field::new(name, held, nullable)].into() }
}

/// `UnionFields::try_new` of `arrow_schema`, which refuses ids that are negative,
/// not told apart or not as many as the members, and a list of one field with
/// that union.
#[verifier::external_body]
fn union_field(
    name: &str,
    ids: &Vec<i8>,
    members: &HeldFields,
    mode: UnionMode,
    nullable: bool,
) -> (r: HeldFields)
    requires
        told_apart(ids@),
        ids@.len() == fields_of(*members).len(),
    ensures
        fields_of(r) == seq![
            field_view(name@, DataTypeView::Union(ids@, fields_of(*members), mode), nullable),
        ],
{
    let mode = match mode {
        UnionMode::Sparse => arrow_schema::UnionMode::Sparse,
        UnionMode::Dense => arrow_schema::UnionMode::Dense,
    };
    let members = arrow_schema::UnionFields::try_new(ids.clone(), members.fields.iter().cloned());
    let held = arrow_schema::DataType::Union(members.unwrap(), mode);
    HeldFields { fields: vec![arrow_schema::Field::new(name, held, nullable)].into() }
}

/// `Field::new` of `arrow_schema`, and a list of that one field: a dictionary of
/// the types of the two fields.
#[verifier::external_body]
fn dictionary_field(
    name: &str,
    key: &HeldFields,
    value: &HeldFields,
    nullable: bool,
) -> (r: HeldFields)
    requires
        fields_of(*key).len() == 1,
        fields_of(*value).len() == 1,
    ensures
        fields_of(r) == seq![
            field_view(
                name@,
                DataTypeView::Dictionary(
                    Box::new(fields_of(*key)[0].data_type),
                    Box::new(fields_of(*value)[0].data_type),
                ),
                nullable,
            ),
        ],
{
    let key = Box::new(key.fields[0].data_type().clone());
    let held = arrow_schema::DataType::Dictionary(key, Box::new(value.fields[0].data_type().clone()));
    HeldFields { fields: vec![arrow_schema::Field::new(name, held, nullable)].into() }
}

/// `Field::new` of `arrow_schema`, and a list of that one field: runs of values.
#[verifier::external_body]
fn run_field(
    name: &str,
    ends: &HeldFields,
    values: &HeldFields,
    nullable: bool,
) -> (r: HeldFields)
    requires
        fields_of(*ends).len() == 1,
        fields_of(*values).len() == 1,
    ensures
        fields_of(r) == seq![
            field_view(
                name@,
                DataTypeView::RunEndEncoded(
                    Box::new(fields_of(*ends)[0]),
                    Box::new(fields_of(*values)[0]),
                ),
                nullable,
            ),
        ],
{
    let held = arrow_schema::DataType::RunEndEncoded(ends.fields[0].clone(), values.fields[0].clone());
    HeldFields { fields: vec![arrow_schema::Field::new(name, held, nullable)].into() }
}

/// `Fields` of `arrow_schema` from the fields of several lists of one field each.
#[verifier::external_body]
fn gathered(parts: &Vec<HeldFields>) -> (r: HeldFields)
    requires
        forall|i: int| 0 <= i < parts.len() ==> fields_of(#[trigger] parts@[i]).len() == 1,
    ensures
        fields_of(r) == Seq::new(parts@.len(), |i: int| fields_of(parts@[i])[0]),
{
    HeldFields { fields: parts.iter().map(|part| part.fields[0].clone()).collect() }
}

/// The engine's fields of `fields`.
pub(crate) fn members_as_held(fields: &Vec<Field>) -> (r: HeldFields)
    requires
        all_members_sane(crate::types::field_views(fields@)),
    ensures
        fields_of(r) == crate::types::field_views(fields@),
    decreases fields@,
{
    let ghost views = crate::types::field_views(fields@);
    let mut parts: Vec<HeldFields> = Vec::new();
    let mut i: usize = 0;
    while i < fields.len()
        invariant
            i <= fields.len(),
            parts.len() == i,
            views == crate::types::field_views(fields@),
            forall|k: int| 0 <= k < views.len() ==> sane((#[trigger] views[k]).data_type),
            forall|k: int| 0 <= k < i ==> fields_of(#[trigger] parts@[k]) == seq![views[k]],
        decreases fields.len() - i,
    {
        assert(views[i as int] == fields@[i as int]@);
        assert(sane(views[i as int].data_type));
        assert(decreases_to!(fields@ => fields@[i as int]));
        parts.push(as_held(&fields[i]));
        i += 1;
    }
    let r = gathered(&parts);
    assert(fields_of(r) =~= views);
    r
}

/// The engine's field of a type that has arrays.
fn typed_as_held(name: &str, data_type: &DataType, nullable: bool) -> (r: HeldFields)
    requires
        sane(data_type@),
    ensures
        fields_of(r) == seq![field_view(name@, data_type@, nullable)],
    decreases data_type,
{
    match data_type {
        DataType::FixedSizeBinary(_)
        | DataType::Decimal32(_, _)
        | DataType::Decimal64(_, _)
        | DataType::Decimal128(_, _)
        | DataType::Decimal256(_, _) => sized_field(name, data_type, nullable),
        DataType::Interval(unit) => interval_field(name, *unit, nullable),
        DataType::Timestamp(unit, _) => timed_field(name, data_type, *unit, nullable),
        DataType::Time32(unit) => timed_field(name, data_type, *unit, nullable),
        DataType::Time64(unit) => timed_field(name, data_type, *unit, nullable),
        DataType::Duration(unit) => timed_field(name, data_type, *unit, nullable),
        DataType::List(f)
        | DataType::ListView(f)
        | DataType::LargeList(f)
        | DataType::LargeListView(f)
        | DataType::MapOf(f, _)
        | DataType::FixedSizeList(f, _) => {
            let item = as_held(f);
            nested_field(name, data_type, &item, nullable)
        },
        DataType::Struct(members) => {
            assert(data_type@->Struct_0 == crate::types::field_views(members@));
            struct_field(name, members_as_held(members), nullable)
        },
        DataType::Union(ids, members, mode) => {
            assert(data_type@->Union_1 == crate::types::field_views(members@));
            let held = members_as_held(members);
            union_field(name, ids, &held, *mode, nullable)
        },
        DataType::Dictionary(k, v) => {
            let key = typed_as_held("key", k, false);
            let value = typed_as_held("value", v, true);
            dictionary_field(name, &key, &value, nullable)
        },
        DataType::RunEndEncoded(ends, values) => {
            let ends = as_held(ends);
            let values = as_held(values);
            run_field(name, &ends, &values, nullable)
        },
        DataType::Null
        | DataType::Boolean
        | DataType::Int8
        | DataType::Int16
        | DataType::Int32
        | DataType::Int64
        | DataType::UInt8
        | DataType::UInt16
        | DataType::UInt32
        | DataType::UInt64 => count_field(name, data_type, nullable),
        _ => plain_field(name, data_type, nullable),
    }
}

/// The engine's field of `field`, in a list of its own.
pub(crate) fn as_held(field: &Field) -> (r: HeldFields)
    requires
        sane(field@.data_type),
    ensures
        fields_of(r) == seq![field@],
    decreases field,
{
    typed_as_held(field.name.as_str(), &field.data_type, field.nullable)
}

/// The engine has arrays of every type that holds no other types, but for bytes of a
/// negative length, and of one that does where it has arrays of those.
pub proof fn arrays_of_arrays_are_there(t: DataTypeView)
    ensures
        !sane(t) ==> t is FixedSizeBinary || t is List || t is ListView || t is LargeList
            || t is LargeListView || t is MapOf || t is FixedSizeList || t is Struct
            || t is Dictionary || t is Union || t is RunEndEncoded,
        t matches DataTypeView::FixedSizeBinary(n) ==> sane(t) == (n >= 0),
        t matches DataTypeView::List(f) ==> sane(t) == sane(f.data_type),
        t matches DataTypeView::LargeList(f) ==> sane(t) == sane(f.data_type),
        t matches DataTypeView::MapOf(f, _) ==> sane(t) == sane(f.data_type),
        t matches DataTypeView::FixedSizeList(f, n) ==> sane(t) == (n >= 0 && sane(f.data_type)),
        t matches DataTypeView::Dictionary(k, v) ==> sane(t) == (sane(*k) && sane(*v)),
        t matches DataTypeView::Struct(members) ==> sane(t) == (forall|i: int|
            0 <= i < members.len() ==> sane((#[trigger] members[i]).data_type)),
{
    if let DataTypeView::Struct(members) = t {
        assert(sane(t) == all_members_sane(members));
        assert(all_members_sane(members) == (forall|i: int|
            0 <= i < members.len() ==> sane((#[trigger] members[i]).data_type)));
    }
}

} // verus!
