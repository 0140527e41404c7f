//! Column types and schemas as plain values.

use vstd::prelude::*;

use crate::text::same;

verus! {

/// The unit of a time, timestamp or duration.
#[derive(Clone, Copy, Debug, PartialEq, Eq, Structural)]
pub enum TimeUnit {
    Second,
    Millisecond,
    Microsecond,
    Nanosecond,
}

/// Whether the members of a union share its rows or are packed.
#[derive(Clone, Copy, Debug, PartialEq, Eq, Structural)]
pub enum UnionMode {
    Sparse,
    Dense,
}

/// The unit of an interval.
#[derive(Clone, Copy, Debug, PartialEq, Eq, Structural)]
pub enum IntervalUnit {
    YearMonth,
    DayTime,
    MonthDayNano,
}

/// A named column, or a named part of a nested type.
#[derive(Debug)]
pub struct Field {
    pub name: String,
    pub data_type: DataType,
    pub nullable: bool,
}

/// The type of a column.
#[derive(Debug)]
pub enum DataType {
    Null,
    Boolean,
    Int8,
    Int16,
    Int32,
    Int64,
    UInt8,
    UInt16,
    UInt32,
    UInt64,
    Float16,
    Float32,
    Float64,
    Date32,
    Date64,
    Binary,
    LargeBinary,
    BinaryView,
    Utf8,
    LargeUtf8,
    Utf8View,
    Timestamp(TimeUnit, Option<String>),
    Time32(TimeUnit),
    Time64(TimeUnit),
    Duration(TimeUnit),
    Interval(IntervalUnit),
    FixedSizeBinary(i32),
    List(Box<Field>),
    ListView(Box<Field>),
    LargeList(Box<Field>),
    LargeListView(Box<Field>),
    FixedSizeList(Box<Field>, i32),
    Struct(Vec<Field>),
    Dictionary(Box<DataType>, Box<DataType>),
    Decimal32(u8, i8),
    Decimal64(u8, i8),
    Decimal128(u8, i8),
    Decimal256(u8, i8),
    MapOf(Box<Field>, bool),
    /// A union: the ids of its members, and the members.
    Union(Vec<i8>, Vec<Field>, UnionMode),
    RunEndEncoded(Box<Field>, Box<Field>),
}

/// What a [`Field`] says.
#[verifier::ext_equal]
pub struct FieldView {
    pub name: Seq<char>,
    pub data_type: DataTypeView,
    pub nullable: bool,
}

/// What a [`DataType`] says.
#[verifier::ext_equal]
pub enum DataTypeView {
    Null,
    Boolean,
    Int8,
    Int16,
    Int32,
    Int64,
    UInt8,
    UInt16,
    UInt32,
    UInt64,
    Float16,
    Float32,
    Float64,
    Date32,
    Date64,
    Binary,
    LargeBinary,
    BinaryView,
    Utf8,
    LargeUtf8,
    Utf8View,
    Timestamp(TimeUnit, Option<Seq<char>>),
    Time32(TimeUnit),
    Time64(TimeUnit),
    Duration(TimeUnit),
    Interval(IntervalUnit),
    FixedSizeBinary(i32),
    List(Box<FieldView>),
    ListView(Box<FieldView>),
    LargeList(Box<FieldView>),
    LargeListView(Box<FieldView>),
    FixedSizeList(Box<FieldView>, i32),
    Struct(Seq<FieldView>),
    Dictionary(Box<DataTypeView>, Box<DataTypeView>),
    Decimal32(u8, i8),
    Decimal64(u8, i8),
    Decimal128(u8, i8),
    Decimal256(u8, i8),
    MapOf(Box<FieldView>, bool),
    Union(Seq<i8>, Seq<FieldView>, UnionMode),
    RunEndEncoded(Box<FieldView>, Box<FieldView>),
}

/// The characters of a string, when there is one.
pub open spec fn text_of(s: Option<String>) -> Option<Seq<char>> {
    match s {
        Some(s) => Some(s@),
        None => None,
    }
}

impl Field {
    pub open spec fn view(&self) -> FieldView
        decreases self,
    {
        FieldView { name: self.name@, data_type: self.data_type.view(), nullable: self.nullable }
    }

    /// A nullable field.
    pub fn nullable(name: &str, data_type: DataType) -> (r: Field)
        ensures
            r@ == (FieldView { name: name@, data_type: data_type@, nullable: true }),
            r.name@ == name@,
            r.data_type == data_type,
            r.nullable,
    {
        Field { name: name.to_owned(), data_type, nullable: true }
    }

    /// Whether the two fields say the same.
    pub fn same(&self, other: &Field) -> (r: bool)
        ensures
            r == (self@ == other@),
        decreases self,
    {
        same(self.name.as_str(), other.name.as_str()) && self.nullable == other.nullable
            && self.data_type.same(&other.data_type)
    }

    /// A field that says the same.
    pub fn duplicate(&self) -> (r: Field)
        ensures
            r@ == self@,
        decreases self,
    {
        Field {
            name: self.name.clone(),
            data_type: self.data_type.duplicate(),
            nullable: self.nullable,
        }
    }
}

/// What each of `fields` says.
pub open spec fn field_views(fields: Seq<Field>) -> Seq<FieldView>
    decreases fields,
{
    Seq::new(
        fields.len(),
        |i: int| if 0 <= i < fields.len() {
            fields[i].view()
        } else {
            arbitrary()
        },
    )
}

/// Whether the two optional strings hold the same characters.
fn same_zone(a: &Option<String>, b: &Option<String>) -> (r: bool)
    ensures
        r == (text_of(*a) == text_of(*b)),
{
    match (a, b) {
        (Some(a), Some(b)) => same(a.as_str(), b.as_str()),
        (None, None) => true,
        _ => false,
    }
}

/// Whether the two lists hold the same ids.
fn same_ids(a: &Vec<i8>, b: &Vec<i8>) -> (r: bool)
    ensures
        r == (a@ == b@),
{
    if a.len() != b.len() {
        return false;
    }
    let mut i: usize = 0;
    while i < a.len()
        invariant
            i <= a.len() == b.len(),
            forall|k: int| 0 <= k < i ==> a@[k] == b@[k],
        decreases a.len() - i,
    {
        if a[i] != b[i] {
            return false;
        }
        i += 1;
    }
    assert(a@ =~= b@);
    true
}

/// A list of the same ids.
fn copied_ids(ids: &Vec<i8>) -> (r: Vec<i8>)
    ensures
        r@ == ids@,
{
    let mut r: Vec<i8> = Vec::new();
    let mut i: usize = 0;
    while i < ids.len()
        invariant
            i <= ids.len(),
            r@ == ids@.take(i as int),
        decreases ids.len() - i,
    {
        r.push(ids[i]);
        assert(r@ =~= ids@.take(i as int + 1));
        i += 1;
    }
    assert(r@ =~= ids@);
    r
}

impl DataType {
    pub open spec fn view(&self) -> DataTypeView
        decreases self,
    {
        match *self {
            DataType::Null => DataTypeView::Null,
            DataType::Boolean => DataTypeView::Boolean,
            DataType::Int8 => DataTypeView::Int8,
            DataType::Int16 => DataTypeView::Int16,
            DataType::Int32 => DataTypeView::Int32,
            DataType::Int64 => DataTypeView::Int64,
            DataType::UInt8 => DataTypeView::UInt8,
            DataType::UInt16 => DataTypeView::UInt16,
            DataType::UInt32 => DataTypeView::UInt32,
            DataType::UInt64 => DataTypeView::UInt64,
            DataType::Float16 => DataTypeView::Float16,
            DataType::Float32 => DataTypeView::Float32,
            DataType::Float64 => DataTypeView::Float64,
            DataType::Date32 => DataTypeView::Date32,
            DataType::Date64 => DataTypeView::Date64,
            DataType::Binary => DataTypeView::Binary,
            DataType::LargeBinary => DataTypeView::LargeBinary,
            DataType::BinaryView => DataTypeView::BinaryView,
            DataType::Utf8 => DataTypeView::Utf8,
            DataType::LargeUtf8 => DataTypeView::LargeUtf8,
            DataType::Utf8View => DataTypeView::Utf8View,
            DataType::Timestamp(unit, zone) => DataTypeView::Timestamp(unit, text_of(zone)),
            DataType::Time32(unit) => DataTypeView::Time32(unit),
            DataType::Time64(unit) => DataTypeView::Time64(unit),
            DataType::Duration(unit) => DataTypeView::Duration(unit),
            DataType::Interval(unit) => DataTypeView::Interval(unit),
            DataType::FixedSizeBinary(n) => DataTypeView::FixedSizeBinary(n),
            DataType::List(f) => DataTypeView::List(Box::new(f.view())),
            DataType::ListView(f) => DataTypeView::ListView(Box::new(f.view())),
            DataType::LargeList(f) => DataTypeView::LargeList(Box::new(f.view())),
            DataType::LargeListView(f) => DataTypeView::LargeListView(Box::new(f.view())),
            DataType::FixedSizeList(f, n) => DataTypeView::FixedSizeList(Box::new(f.view()), n),
            DataType::Struct(fields) => DataTypeView::Struct(field_views(fields@)),
            DataType::Dictionary(k, v) => DataTypeView::Dictionary(Box::new(k.view()), Box::new(v.view())),
            DataType::Decimal32(p, s) => DataTypeView::Decimal32(p, s),
            DataType::Decimal64(p, s) => DataTypeView::Decimal64(p, s),
            DataType::Decimal128(p, s) => DataTypeView::Decimal128(p, s),
            DataType::Decimal256(p, s) => DataTypeView::Decimal256(p, s),
            DataType::MapOf(f, sorted) => DataTypeView::MapOf(Box::new(f.view()), sorted),
            DataType::Union(ids, members, mode) => DataTypeView::Union(
                ids@,
                field_views(members@),
                mode,
            ),
            DataType::RunEndEncoded(r, v) => DataTypeView::RunEndEncoded(Box::new(r.view()), Box::new(v.view())),
        }
    }

    /// Whether the two types say the same.
    pub fn same(&self, other: &DataType) -> (r: bool)
        ensures
            r == (self@ == other@),
        decreases self,
    {
        match (self, other) {
            (DataType::Null, DataType::Null) => true,
            (DataType::Boolean, DataType::Boolean) => true,
            (DataType::Int8, DataType::Int8) => true,
            (DataType::Int16, DataType::Int16) => true,
            (DataType::Int32, DataType::Int32) => true,
            (DataType::Int64, DataType::Int64) => true,
            (DataType::UInt8, DataType::UInt8) => true,
            (DataType::UInt16, DataType::UInt16) => true,
            (DataType::UInt32, DataType::UInt32) => true,
            (DataType::UInt64, DataType::UInt64) => true,
            (DataType::Float16, DataType::Float16) => true,
            (DataType::Float32, DataType::Float32) => true,
            (DataType::Float64, DataType::Float64) => true,
            (DataType::Date32, DataType::Date32) => true,
            (DataType::Date64, DataType::Date64) => true,
            (DataType::Binary, DataType::Binary) => true,
            (DataType::LargeBinary, DataType::LargeBinary) => true,
            (DataType::BinaryView, DataType::BinaryView) => true,
            (DataType::Utf8, DataType::Utf8) => true,
            (DataType::LargeUtf8, DataType::LargeUtf8) => true,
            (DataType::Utf8View, DataType::Utf8View) => true,
            (DataType::Timestamp(u, z), DataType::Timestamp(v, y)) => *u == *v && same_zone(z, y),
            (DataType::Time32(u), DataType::Time32(v)) => *u == *v,
            (DataType::Time64(u), DataType::Time64(v)) => *u == *v,
            (DataType::Duration(u), DataType::Duration(v)) => *u == *v,
            (DataType::Interval(u), DataType::Interval(v)) => *u == *v,
            (DataType::FixedSizeBinary(n), DataType::FixedSizeBinary(m)) => *n == *m,
            (DataType::List(f), DataType::List(g)) => f.same(g),
            (DataType::ListView(f), DataType::ListView(g)) => f.same(g),
            (DataType::LargeList(f), DataType::LargeList(g)) => f.same(g),
            (DataType::LargeListView(f), DataType::LargeListView(g)) => f.same(g),
            (DataType::FixedSizeList(f, n), DataType::FixedSizeList(g, m)) => *n == *m && f.same(g),
            (DataType::Struct(fs), DataType::Struct(gs)) => {
                if fs.len() != gs.len() {
                    assert(field_views(fs@).len() != field_views(gs@).len());
                    return false;
                }
                let mut i: usize = 0;
                while i < fs.len()
                    invariant
                        i <= fs.len() == gs.len(),
                        *self == DataType::Struct(*fs),
                        *other == DataType::Struct(*gs),
                        self@ == DataTypeView::Struct(field_views(fs@)),
                        other@ == DataTypeView::Struct(field_views(gs@)),
                        forall|k: int| 0 <= k < i ==> field_views(fs@)[k] == field_views(gs@)[k],
                    decreases fs.len() - i,
                {
                    assert(decreases_to!(fs@ => fs@[i as int]));
                    if !fs[i].same(&gs[i]) {
                        assert(field_views(fs@)[i as int] != field_views(gs@)[i as int]);
                        return false;
                    }
                    i += 1;
                }
                assert(field_views(fs@) =~= field_views(gs@));
                true
            },
            (DataType::Dictionary(k, v), DataType::Dictionary(l, w)) => k.same(l) && v.same(w),
            (DataType::Decimal32(p, s), DataType::Decimal32(q, t)) => *p == *q && *s == *t,
            (DataType::Decimal64(p, s), DataType::Decimal64(q, t)) => *p == *q && *s == *t,
            (DataType::Decimal128(p, s), DataType::Decimal128(q, t)) => *p == *q && *s == *t,
            (DataType::Decimal256(p, s), DataType::Decimal256(q, t)) => *p == *q && *s == *t,
            (DataType::MapOf(f, s), DataType::MapOf(g, t)) => *s == *t && f.same(g),
            (DataType::Union(is, fs, m), DataType::Union(js, gs, n)) => {
                if *m != *n || !same_ids(is, js) {
                    return false;
                }
                if fs.len() != gs.len() {
                    assert(field_views(fs@).len() != field_views(gs@).len());
                    return false;
                }
                let mut i: usize = 0;
                while i < fs.len()
                    invariant
                        i <= fs.len() == gs.len(),
                        *self == DataType::Union(*is, *fs, *m),
                        *other == DataType::Union(*js, *gs, *n),
                        self@ == DataTypeView::Union(is@, field_views(fs@), *m),
                        other@ == DataTypeView::Union(js@, field_views(gs@), *n),
                        forall|k: int| 0 <= k < i ==> field_views(fs@)[k] == field_views(gs@)[k],
                    decreases fs.len() - i,
                {
                    assert(decreases_to!(fs@ => fs@[i as int]));
                    if !fs[i].same(&gs[i]) {
                        assert(field_views(fs@)[i as int] != field_views(gs@)[i as int]);
                        return false;
                    }
                    i += 1;
                }
                assert(field_views(fs@) =~= field_views(gs@));
                true
            },
            (DataType::RunEndEncoded(r, v), DataType::RunEndEncoded(q, w)) => r.same(q) && v.same(w),
            _ => false,
        }
    }

    /// A type that says the same.
    pub fn duplicate(&self) -> (r: DataType)
        ensures
            r@ == self@,
        decreases self,
    {
        match self {
            DataType::Null => DataType::Null,
            DataType::Boolean => DataType::Boolean,
            DataType::Int8 => DataType::Int8,
            DataType::Int16 => DataType::Int16,
            DataType::Int32 => DataType::Int32,
            DataType::Int64 => DataType::Int64,
            DataType::UInt8 => DataType::UInt8,
            DataType::UInt16 => DataType::UInt16,
            DataType::UInt32 => DataType::UInt32,
            DataType::UInt64 => DataType::UInt64,
            DataType::Float16 => DataType::Float16,
            DataType::Float32 => DataType::Float32,
            DataType::Float64 => DataType::Float64,
            DataType::Date32 => DataType::Date32,
            DataType::Date64 => DataType::Date64,
            DataType::Binary => DataType::Binary,
            DataType::LargeBinary => DataType::LargeBinary,
            DataType::BinaryView => DataType::BinaryView,
            DataType::Utf8 => DataType::Utf8,
            DataType::LargeUtf8 => DataType::LargeUtf8,
            DataType::Utf8View => DataType::Utf8View,
            DataType::Timestamp(unit, zone) => DataType::Timestamp(*unit, match zone { Some(z) => Some(z.clone()), None => None }),
            DataType::Time32(unit) => DataType::Time32(*unit),
            DataType::Time64(unit) => DataType::Time64(*unit),
            DataType::Duration(unit) => DataType::Duration(*unit),
            DataType::Interval(unit) => DataType::Interval(*unit),
            DataType::FixedSizeBinary(n) => DataType::FixedSizeBinary(*n),
            DataType::List(f) => DataType::List(Box::new(f.duplicate())),
            DataType::ListView(f) => DataType::ListView(Box::new(f.duplicate())),
            DataType::LargeList(f) => DataType::LargeList(Box::new(f.duplicate())),
            DataType::LargeListView(f) => DataType::LargeListView(Box::new(f.duplicate())),
            DataType::FixedSizeList(f, n) => DataType::FixedSizeList(Box::new(f.duplicate()), *n),
            DataType::Struct(fields) => {
                let mut copies: Vec<Field> = Vec::new();
                let mut i: usize = 0;
                while i < fields.len()
                    invariant
                        i <= fields.len(),
                        copies.len() == i,
                        *self == DataType::Struct(*fields),
                        decreases_to!(self => fields@),
                        forall|k: int| 0 <= k < i ==> (#[trigger] copies@[k])@ == fields@[k]@,
                    decreases fields.len() - i,
                {
                    assert(decreases_to!(fields@ => fields@[i as int]));
                    copies.push(fields[i].duplicate());
                    i += 1;
                }
                assert(field_views(copies@) =~= field_views(fields@));
                DataType::Struct(copies)
            },
            DataType::Dictionary(k, v) => DataType::Dictionary(Box::new(k.duplicate()), Box::new(v.duplicate())),
            DataType::Decimal32(p, s) => DataType::Decimal32(*p, *s),
            DataType::Decimal64(p, s) => DataType::Decimal64(*p, *s),
            DataType::Decimal128(p, s) => DataType::Decimal128(*p, *s),
            DataType::Decimal256(p, s) => DataType::Decimal256(*p, *s),
            DataType::MapOf(f, sorted) => DataType::MapOf(Box::new(f.duplicate()), *sorted),
            DataType::Union(ids, fields, mode) => {
                let mut copies: Vec<Field> = Vec::new();
                let mut i: usize = 0;
                while i < fields.len()
                    invariant
                        i <= fields.len(),
                        copies.len() == i,
                        *self == DataType::Union(*ids, *fields, *mode),
                        decreases_to!(self => fields@),
                        forall|k: int| 0 <= k < i ==> (#[trigger] copies@[k])@ == fields@[k]@,
                    decreases fields.len() - i,
                {
                    assert(decreases_to!(fields@ => fields@[i as int]));
                    copies.push(fields[i].duplicate());
                    i += 1;
                }
                assert(field_views(copies@) =~= field_views(fields@));
                DataType::Union(copied_ids(ids), copies, *mode)
            },
            DataType::RunEndEncoded(r, v) => DataType::RunEndEncoded(Box::new(r.duplicate()), Box::new(v.duplicate())),
        }
    }
}

/// The columns of a table, in order.
#[derive(Debug)]
pub struct Schema {
    pub fields: Vec<Field>,
}

/// The position of the first of `fields` named `name`.
pub open spec fn field_position(fields: Seq<FieldView>, name: Seq<char>) -> Option<int>
    decreases fields.len(),
{
    if fields.len() == 0 {
        None
    } else {
        match field_position(fields.drop_last(), name) {
            Some(i) => Some(i),
            None => if fields.last().name == name {
                Some(fields.len() - 1)
            } else {
                None
            },
        }
    }
}

proof fn field_position_in_range(fields: Seq<FieldView>, name: Seq<char>)
    ensures
        match field_position(fields, name) {
            Some(i) => 0 <= i < fields.len() && fields[i].name == name,
            None => forall|k: int| 0 <= k < fields.len() ==> (#[trigger] fields[k]).name != name,
        },
    decreases fields.len(),
{
    if fields.len() > 0 {
        field_position_in_range(fields.drop_last(), name);
        assert forall|k: int|
            0 <= k < fields.len() && field_position(fields, name) is None implies (
        #[trigger] fields[k]).name != name by {
            if k < fields.len() - 1 {
                assert(fields[k] == fields.drop_last()[k]);
            }
        }
    }
}

proof fn field_position_extends(fields: Seq<FieldView>, name: Seq<char>, n: int)
    requires
        0 <= n <= fields.len(),
        field_position(fields.take(n), name) is Some,
    ensures
        field_position(fields, name) == field_position(fields.take(n), name),
    decreases fields.len() - n,
{
    if n < fields.len() {
        assert(fields.take(n + 1).drop_last() =~= fields.take(n));
        field_position_extends(fields, name, n + 1);
    } else {
        assert(fields.take(n) =~= fields);
    }
}

impl Schema {
    pub open spec fn view(&self) -> Seq<FieldView> {
        field_views(self.fields@)
    }

    /// The field named `name`, the first of them where several are.
    pub fn field_with_name(&self, name: &str) -> (r: Option<&Field>)
        ensures
            match r {
                Some(f) => field_position(self@, name@) is Some && f@ == self@[field_position(
                    self@,
                    name@,
                )->0],
                None => field_position(self@, name@) is None,
            },
    {
        let mut i: usize = 0;
        while i < self.fields.len()
            invariant
                i <= self.fields.len(),
                field_position(self@.take(i as int), name@) is None,
            decreases self.fields.len() - i,
        {
            proof {
                assert(self@.take(i as int + 1).drop_last() =~= self@.take(i as int));
                assert(self@.take(i as int + 1).last() == self.fields@[i as int]@);
            }
            if same(self.fields[i].name.as_str(), name) {
                proof {
                    field_position_extends(self@, name@, i as int + 1);
                }
                return Some(&self.fields[i]);
            }
            i += 1;
        }
        assert(self@.take(self@.len() as int) =~= self@);
        None
    }
}

/// A field is found by its name, and it is the first of that name.
pub proof fn the_first_field_of_a_name_is_found(fields: Seq<FieldView>, name: Seq<char>)
    ensures
        match field_position(fields, name) {
            Some(i) => 0 <= i < fields.len() && fields[i].name == name && forall|k: int|
                0 <= k < i ==> (#[trigger] fields[k]).name != name,
            None => forall|k: int| 0 <= k < fields.len() ==> (#[trigger] fields[k]).name != name,
        },
    decreases fields.len(),
{
    field_position_in_range(fields, name);
    if fields.len() > 0 {
        let front = fields.drop_last();
        the_first_field_of_a_name_is_found(front, name);
        if let Some(i) = field_position(fields, name) {
            assert forall|k: int| 0 <= k < i implies (#[trigger] fields[k]).name != name by {
                assert(front[k] == fields[k]);
            }
        }
    }
}

pub(crate) proof fn field_position_is_first(fields: Seq<FieldView>, name: Seq<char>, i: int)
    requires
        0 <= i < fields.len(),
        fields[i].name == name,
        forall|k: int| 0 <= k < i ==> (#[trigger] fields[k]).name != name,
    ensures
        field_position(fields, name) == Some(i),
{
    the_first_field_of_a_name_is_found(fields, name);
}

} // verus!
