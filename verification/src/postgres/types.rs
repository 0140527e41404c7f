//! PostgreSQL column types and the types they are read as.

use vstd::prelude::*;

use crate::text::same;
use crate::types::{DataType, DataTypeView, Field, FieldView, IntervalUnit, Schema, TimeUnit};

verus! {

/// The type of a result column.
#[derive(Debug)]
pub enum PgType {
    Int2,
    Int4,
    Int8,
    Money,
    Oid,
    Xid,
    Float4,
    Float8,
    Char,
    Text,
    Varchar,
    Bpchar,
    Uuid,
    Name,
    Bytea,
    Bool,
    Json,
    Jsonb,
    Numeric,
    Timestamptz,
    Timestamp,
    Date,
    Time,
    Interval,
    Point,
    PgNodeTree,
    Int2Array,
    Int4Array,
    Int8Array,
    OidArray,
    Float4Array,
    Float8Array,
    TextArray,
    BoolArray,
    ByteaArray,
    NumericArray,
    /// A type that is none of the above: its bare name, the name it is shown
    /// under, and what it is made of.
    Other { name: String, shown: String, kind: PgKind },
}

/// What a type is made of.
#[derive(Debug)]
pub enum PgKind {
    Composite(Vec<PgField>),
    Enum,
    Array(Box<PgType>),
    Simple,
}

/// A field of a composite type.
#[derive(Debug)]
pub struct PgField {
    pub name: String,
    pub type_: PgType,
}

/// A type that no column can have.
#[verifier::ext_equal]
pub struct UnsupportedView {
    pub data_type: Seq<char>,
    pub field_name: Seq<char>,
}

/// A type that no column can have, and the field that has it.
#[derive(Debug)]
pub struct Unsupported {
    pub data_type: String,
    pub field_name: String,
}

impl Unsupported {
    pub open spec fn view(&self) -> UnsupportedView {
        UnsupportedView { data_type: self.data_type@, field_name: self.field_name@ }
    }
}

impl PgType {
    /// The name that a type is shown under.
    pub open spec fn shown(self) -> Seq<char> {
        match self {
            PgType::Int2 => "int2"@,
            PgType::Int4 => "int4"@,
            PgType::Int8 => "int8"@,
            PgType::Money => "money"@,
            PgType::Oid => "oid"@,
            PgType::Xid => "xid"@,
            PgType::Float4 => "float4"@,
            PgType::Float8 => "float8"@,
            PgType::Char => "char"@,
            PgType::Text => "text"@,
            PgType::Varchar => "varchar"@,
            PgType::Bpchar => "bpchar"@,
            PgType::Uuid => "uuid"@,
            PgType::Name => "name"@,
            PgType::Bytea => "bytea"@,
            PgType::Bool => "bool"@,
            PgType::Json => "json"@,
            PgType::Jsonb => "jsonb"@,
            PgType::Numeric => "numeric"@,
            PgType::Timestamptz => "timestamptz"@,
            PgType::Timestamp => "timestamp"@,
            PgType::Date => "date"@,
            PgType::Time => "time"@,
            PgType::Interval => "interval"@,
            PgType::Point => "point"@,
            PgType::PgNodeTree => "pg_node_tree"@,
            PgType::Int2Array => "_int2"@,
            PgType::Int4Array => "_int4"@,
            PgType::Int8Array => "_int8"@,
            PgType::OidArray => "_oid"@,
            PgType::Float4Array => "_float4"@,
            PgType::Float8Array => "_float8"@,
            PgType::TextArray => "_text"@,
            PgType::BoolArray => "_bool"@,
            PgType::ByteaArray => "_bytea"@,
            PgType::NumericArray => "_numeric"@,
            PgType::Other { name, shown, kind } => shown@,
        }
    }

    /// The name that a type is shown under.
    pub fn text(&self) -> (r: String)
        ensures
            r@ == self.shown(),
    {
        match self {
            PgType::Int2 => "int2".to_owned(),
            PgType::Int4 => "int4".to_owned(),
            PgType::Int8 => "int8".to_owned(),
            PgType::Money => "money".to_owned(),
            PgType::Oid => "oid".to_owned(),
            PgType::Xid => "xid".to_owned(),
            PgType::Float4 => "float4".to_owned(),
            PgType::Float8 => "float8".to_owned(),
            PgType::Char => "char".to_owned(),
            PgType::Text => "text".to_owned(),
            PgType::Varchar => "varchar".to_owned(),
            PgType::Bpchar => "bpchar".to_owned(),
            PgType::Uuid => "uuid".to_owned(),
            PgType::Name => "name".to_owned(),
            PgType::Bytea => "bytea".to_owned(),
            PgType::Bool => "bool".to_owned(),
            PgType::Json => "json".to_owned(),
            PgType::Jsonb => "jsonb".to_owned(),
            PgType::Numeric => "numeric".to_owned(),
            PgType::Timestamptz => "timestamptz".to_owned(),
            PgType::Timestamp => "timestamp".to_owned(),
            PgType::Date => "date".to_owned(),
            PgType::Time => "time".to_owned(),
            PgType::Interval => "interval".to_owned(),
            PgType::Point => "point".to_owned(),
            PgType::PgNodeTree => "pg_node_tree".to_owned(),
            PgType::Int2Array => "_int2".to_owned(),
            PgType::Int4Array => "_int4".to_owned(),
            PgType::Int8Array => "_int8".to_owned(),
            PgType::OidArray => "_oid".to_owned(),
            PgType::Float4Array => "_float4".to_owned(),
            PgType::Float8Array => "_float8".to_owned(),
            PgType::TextArray => "_text".to_owned(),
            PgType::BoolArray => "_bool".to_owned(),
            PgType::ByteaArray => "_bytea".to_owned(),
            PgType::NumericArray => "_numeric".to_owned(),
            PgType::Other { name, shown, kind } => shown.clone(),
        }
    }

    /// Whether this is a type beyond those built in, of the bare name `name`.
    pub open spec fn is_named(self, name: Seq<char>) -> bool {
        self matches PgType::Other { name: own, .. } && own@ == name
    }

    /// Whether this is a type beyond those built in, of the bare name `name`.
    pub fn named(&self, name: &str) -> (r: bool)
        ensures
            r == self.is_named(name@),
    {
        match self {
            PgType::Other { name: own, shown, kind } => same(own.as_str(), name),
            _ => false,
        }
    }

    /// Whether this is a composite type.
    pub open spec fn is_composite(self) -> bool {
        self matches PgType::Other { kind: PgKind::Composite(fields), .. }
    }

    /// Whether values of the type are geometries, as bytes.
    pub open spec fn is_geometry(self) -> bool {
        self.is_named("geometry"@) || self.is_named("geography"@)
    }

    /// Whether values of the type are lists of geometries.
    pub open spec fn is_geometry_array(self) -> bool {
        self.is_named("_geometry"@) || self.is_named("_geography"@)
    }

    pub fn geometry(&self) -> (r: bool)
        ensures
            r == self.is_geometry(),
    {
        self.named("geometry") || self.named("geography")
    }

    pub fn geometry_array(&self) -> (r: bool)
        ensures
            r == self.is_geometry_array(),
    {
        self.named("_geometry") || self.named("_geography")
    }
}

/// A list of nullable items.
pub open spec fn list_of(item: DataTypeView) -> DataTypeView {
    DataTypeView::List(
        Box::new(FieldView { name: "item"@, data_type: item, nullable: true }),
    )
}

fn list(item: DataType) -> (r: DataType)
    ensures
        r@ == list_of(item@),
        r matches DataType::List(field) && field.nullable && field.data_type == item,
{
    DataType::List(Box::new(Field::nullable("item", item)))
}

/// The type that a column is read as. It is open for a decimal and an array of
/// them: their scale is not part of the type.
///
/// A type beyond those built in is known by its name, or else by what it is made
/// of: a composite is a struct of its fields, an enumeration a dictionary of
/// labels, an array of a composite a list of structs.
pub open spec fn mapped(t: PgType, field_name: Seq<char>) -> Result<
    Option<DataTypeView>,
    UnsupportedView,
>
    decreases t, 0nat,
{
    match t {
        PgType::Int2 => Ok(Some(DataTypeView::Int16)),
        PgType::Int4 => Ok(Some(DataTypeView::Int32)),
        PgType::Int8 => Ok(Some(DataTypeView::Int64)),
        PgType::Money => Ok(Some(DataTypeView::Int64)),
        PgType::Oid => Ok(Some(DataTypeView::UInt32)),
        PgType::Xid => Ok(Some(DataTypeView::UInt32)),
        PgType::Float4 => Ok(Some(DataTypeView::Float32)),
        PgType::Float8 => Ok(Some(DataTypeView::Float64)),
        PgType::Char => Ok(Some(DataTypeView::Int8)),
        PgType::Text => Ok(Some(DataTypeView::Utf8)),
        PgType::Varchar => Ok(Some(DataTypeView::Utf8)),
        PgType::Bpchar => Ok(Some(DataTypeView::Utf8)),
        PgType::Uuid => Ok(Some(DataTypeView::Utf8)),
        PgType::Name => Ok(Some(DataTypeView::Utf8)),
        PgType::Bytea => Ok(Some(DataTypeView::Binary)),
        PgType::Bool => Ok(Some(DataTypeView::Boolean)),
        PgType::Json => Ok(Some(DataTypeView::Utf8)),
        PgType::Jsonb => Ok(Some(DataTypeView::Utf8)),
        PgType::Date => Ok(Some(DataTypeView::Date32)),
        PgType::PgNodeTree => Ok(Some(DataTypeView::Utf8)),
        PgType::Numeric => Ok(None),
        PgType::NumericArray => Ok(None),
        PgType::Timestamptz => Ok(
            Some(DataTypeView::Timestamp(TimeUnit::Nanosecond, Some("UTC"@))),
        ),
        PgType::Timestamp => Ok(Some(DataTypeView::Timestamp(TimeUnit::Nanosecond, None))),
        PgType::Time => Ok(Some(DataTypeView::Time64(TimeUnit::Nanosecond))),
        PgType::Interval => Ok(Some(DataTypeView::Interval(IntervalUnit::MonthDayNano))),
        PgType::Point => Ok(
            Some(
                DataTypeView::FixedSizeList(
                    Box::new(
                        FieldView {
                            name: "item"@,
                            data_type: DataTypeView::Float64,
                            nullable: true,
                        },
                    ),
                    2,
                ),
            ),
        ),
        PgType::Int2Array => Ok(Some(list_of(DataTypeView::Int16))),
        PgType::Int4Array => Ok(Some(list_of(DataTypeView::Int32))),
        PgType::Int8Array => Ok(Some(list_of(DataTypeView::Int64))),
        PgType::OidArray => Ok(Some(list_of(DataTypeView::UInt32))),
        PgType::Float4Array => Ok(Some(list_of(DataTypeView::Float32))),
        PgType::Float8Array => Ok(Some(list_of(DataTypeView::Float64))),
        PgType::TextArray => Ok(Some(list_of(DataTypeView::Utf8))),
        PgType::BoolArray => Ok(Some(list_of(DataTypeView::Boolean))),
        PgType::ByteaArray => Ok(Some(list_of(DataTypeView::Binary))),
        PgType::Other { name, shown, kind } => if name@ == "geometry"@ || name@ == "geography"@ {
            Ok(Some(DataTypeView::Binary))
        } else if name@ == "_geometry"@ || name@ == "_geography"@ {
            Ok(Some(list_of(DataTypeView::Binary)))
        } else if name@ == "super"@ {
            Ok(Some(DataTypeView::Utf8))
        } else {
            match kind {
                PgKind::Composite(fields) => match mapped_fields(fields@, fields@.len()) {
                    Ok(fields) => Ok(Some(DataTypeView::Struct(fields))),
                    Err(error) => Err(error),
                },
                PgKind::Enum => Ok(
                    Some(
                        DataTypeView::Dictionary(
                            Box::new(DataTypeView::Int8),
                            Box::new(DataTypeView::Utf8),
                        ),
                    ),
                ),
                PgKind::Array(element) => if element.is_composite() {
                    match mapped(*element, field_name) {
                        Ok(Some(item)) => Ok(Some(list_of(item))),
                        Ok(None) => Err(
                            UnsupportedView { data_type: element.shown(), field_name },
                        ),
                        Err(error) => Err(error),
                    }
                } else {
                    Err(UnsupportedView { data_type: shown@, field_name })
                },
                PgKind::Simple => Err(UnsupportedView { data_type: shown@, field_name }),
            }
        },
    }
}

/// The fields that the first `n` fields of a composite type are read as.
pub open spec fn mapped_fields(fields: Seq<PgField>, n: nat) -> Result<
    Seq<FieldView>,
    UnsupportedView,
>
    decreases fields, n,
{
    if n == 0 || n > fields.len() {
        Ok(Seq::empty())
    } else {
        match mapped_fields(fields, (n - 1) as nat) {
            Err(error) => Err(error),
            Ok(before) => {
                let field = fields[n - 1];
                match mapped(field.type_, field.name@) {
                    Err(error) => Err(error),
                    Ok(None) => Err(
                        UnsupportedView {
                            data_type: field.type_.shown(),
                            field_name: field.name@,
                        },
                    ),
                    Ok(Some(data_type)) => Ok(
                        before.push(
                            FieldView { name: field.name@, data_type, nullable: true },
                        ),
                    ),
                }
            },
        }
    }
}

proof fn mapped_fields_stop(fields: Seq<PgField>, m: nat, n: nat)
    requires
        m <= n <= fields.len(),
        mapped_fields(fields, m) is Err,
    ensures
        mapped_fields(fields, n) == mapped_fields(fields, m),
    decreases n,
{
    if m < n {
        mapped_fields_stop(fields, m, (n - 1) as nat);
    }
}

/// What [`map_column_type_to_data_type`] gives.
pub open spec fn mapping(r: Result<Option<DataType>, Unsupported>) -> Result<
    Option<DataTypeView>,
    UnsupportedView,
> {
    match r {
        Ok(Some(data_type)) => Ok(Some(data_type@)),
        Ok(None) => Ok(None),
        Err(error) => Err(error@),
    }
}

/// The type that a column is read as: see [`mapped`].
pub fn map_column_type_to_data_type(column_type: &PgType, field_name: &str) -> (r: Result<
    Option<DataType>,
    Unsupported,
>)
    ensures
        mapping(r) == mapped(*column_type, field_name@),
        *column_type is Int2 ==> (r matches Ok(Some(DataType::Int16))),
        *column_type is Int4 ==> (r matches Ok(Some(DataType::Int32))),
        *column_type is Int8 ==> (r matches Ok(Some(DataType::Int64))),
        *column_type is Money ==> (r matches Ok(Some(DataType::Int64))),
        *column_type is Oid ==> (r matches Ok(Some(DataType::UInt32))),
        *column_type is Xid ==> (r matches Ok(Some(DataType::UInt32))),
        *column_type is Float4 ==> (r matches Ok(Some(DataType::Float32))),
        *column_type is Float8 ==> (r matches Ok(Some(DataType::Float64))),
        *column_type is Char ==> (r matches Ok(Some(DataType::Int8))),
        *column_type is Text ==> (r matches Ok(Some(DataType::Utf8))),
        *column_type is Varchar ==> (r matches Ok(Some(DataType::Utf8))),
        *column_type is Bpchar ==> (r matches Ok(Some(DataType::Utf8))),
        *column_type is Uuid ==> (r matches Ok(Some(DataType::Utf8))),
        *column_type is Name ==> (r matches Ok(Some(DataType::Utf8))),
        *column_type is Bytea ==> (r matches Ok(Some(DataType::Binary))),
        *column_type is Bool ==> (r matches Ok(Some(DataType::Boolean))),
        *column_type is Json ==> (r matches Ok(Some(DataType::Utf8))),
        *column_type is Jsonb ==> (r matches Ok(Some(DataType::Utf8))),
        *column_type is Date ==> (r matches Ok(Some(DataType::Date32))),
        *column_type is PgNodeTree ==> (r matches Ok(Some(DataType::Utf8))),
        *column_type is Int2Array ==> (r matches Ok(Some(DataType::List(item))) && item.nullable
            && item.data_type is Int16),
        *column_type is Int4Array ==> (r matches Ok(Some(DataType::List(item))) && item.nullable
            && item.data_type is Int32),
        *column_type is Int8Array ==> (r matches Ok(Some(DataType::List(item))) && item.nullable
            && item.data_type is Int64),
        *column_type is OidArray ==> (r matches Ok(Some(DataType::List(item))) && item.nullable
            && item.data_type is UInt32),
        *column_type is Float4Array ==> (r matches Ok(Some(DataType::List(item))) && item.nullable
            && item.data_type is Float32),
        *column_type is Float8Array ==> (r matches Ok(Some(DataType::List(item))) && item.nullable
            && item.data_type is Float64),
        *column_type is TextArray ==> (r matches Ok(Some(DataType::List(item))) && item.nullable
            && item.data_type is Utf8),
        *column_type is BoolArray ==> (r matches Ok(Some(DataType::List(item))) && item.nullable
            && item.data_type is Boolean),
        *column_type is ByteaArray ==> (r matches Ok(Some(DataType::List(item))) && item.nullable
            && item.data_type is Binary),
        *column_type is Numeric || *column_type is NumericArray ==> (r matches Ok(None)),
        *column_type is Timestamptz ==> (r matches Ok(
            Some(DataType::Timestamp(TimeUnit::Nanosecond, Some(zone))),
        ) && zone@ == "UTC"@),
        *column_type is Timestamp ==> (r matches Ok(
            Some(DataType::Timestamp(TimeUnit::Nanosecond, None)),
        )),
        *column_type is Time ==> (r matches Ok(Some(DataType::Time64(TimeUnit::Nanosecond)))),
        *column_type is Interval ==> (r matches Ok(
            Some(DataType::Interval(IntervalUnit::MonthDayNano)),
        )),
        *column_type is Point ==> (r matches Ok(Some(DataType::FixedSizeList(item, n))) && n == 2
            && item.nullable && item.data_type is Float64),
    decreases column_type, 1nat,
{
    proof {
        reveal_with_fuel(DataType::view, 3);
        reveal_with_fuel(Field::view, 3);
    }
    match column_type {
        PgType::Int2 => Ok(Some(DataType::Int16)),
        PgType::Int4 => Ok(Some(DataType::Int32)),
        PgType::Int8 => Ok(Some(DataType::Int64)),
        PgType::Money => Ok(Some(DataType::Int64)),
        PgType::Oid => Ok(Some(DataType::UInt32)),
        PgType::Xid => Ok(Some(DataType::UInt32)),
        PgType::Float4 => Ok(Some(DataType::Float32)),
        PgType::Float8 => Ok(Some(DataType::Float64)),
        PgType::Char => Ok(Some(DataType::Int8)),
        PgType::Text => Ok(Some(DataType::Utf8)),
        PgType::Varchar => Ok(Some(DataType::Utf8)),
        PgType::Bpchar => Ok(Some(DataType::Utf8)),
        PgType::Uuid => Ok(Some(DataType::Utf8)),
        PgType::Name => Ok(Some(DataType::Utf8)),
        PgType::Bytea => Ok(Some(DataType::Binary)),
        PgType::Bool => Ok(Some(DataType::Boolean)),
        PgType::Json => Ok(Some(DataType::Utf8)),
        PgType::Jsonb => Ok(Some(DataType::Utf8)),
        PgType::Date => Ok(Some(DataType::Date32)),
        PgType::PgNodeTree => Ok(Some(DataType::Utf8)),
        PgType::Numeric => Ok(None),
        PgType::NumericArray => Ok(None),
        PgType::Timestamptz => Ok(
            Some(DataType::Timestamp(TimeUnit::Nanosecond, Some("UTC".to_owned()))),
        ),
        PgType::Timestamp => Ok(Some(DataType::Timestamp(TimeUnit::Nanosecond, None))),
        PgType::Time => Ok(Some(DataType::Time64(TimeUnit::Nanosecond))),
        PgType::Interval => Ok(Some(DataType::Interval(IntervalUnit::MonthDayNano))),
        PgType::Point => Ok(
            Some(
                DataType::FixedSizeList(Box::new(Field::nullable("item", DataType::Float64)), 2),
            ),
        ),
        PgType::Int2Array => Ok(Some(list(DataType::Int16))),
        PgType::Int4Array => Ok(Some(list(DataType::Int32))),
        PgType::Int8Array => Ok(Some(list(DataType::Int64))),
        PgType::OidArray => Ok(Some(list(DataType::UInt32))),
        PgType::Float4Array => Ok(Some(list(DataType::Float32))),
        PgType::Float8Array => Ok(Some(list(DataType::Float64))),
        PgType::TextArray => Ok(Some(list(DataType::Utf8))),
        PgType::BoolArray => Ok(Some(list(DataType::Boolean))),
        PgType::ByteaArray => Ok(Some(list(DataType::Binary))),
        PgType::Other { name, shown, kind } => {
            if column_type.geometry() {
                return Ok(Some(DataType::Binary));
            }
            if column_type.geometry_array() {
                return Ok(Some(list(DataType::Binary)));
            }
            if column_type.named("super") {
                return Ok(Some(DataType::Utf8));
            }
            match kind {
                PgKind::Composite(fields) => match map_fields(fields) {
                    Ok(fields) => Ok(Some(DataType::Struct(fields))),
                    Err(error) => Err(error),
                },
                PgKind::Enum => Ok(
                    Some(DataType::Dictionary(Box::new(DataType::Int8), Box::new(DataType::Utf8))),
                ),
                PgKind::Array(element) => {
                    if is_composite(element) {
                        match map_column_type_to_data_type(element, field_name) {
                            Ok(Some(item)) => Ok(Some(list(item))),
                            Ok(None) => Err(
                                Unsupported {
                                    data_type: element.text(),
                                    field_name: field_name.to_owned(),
                                },
                            ),
                            Err(error) => Err(error),
                        }
                    } else {
                        Err(
                            Unsupported {
                                data_type: shown.clone(),
                                field_name: field_name.to_owned(),
                            },
                        )
                    }
                },
                PgKind::Simple => Err(
                    Unsupported { data_type: shown.clone(), field_name: field_name.to_owned() },
                ),
            }
        },
    }
}

/// Whether a type is a composite one.
pub(crate) fn is_composite(t: &PgType) -> (r: bool)
    ensures
        r == t.is_composite(),
{
    match t {
        PgType::Other { name, shown, kind } => match kind {
            PgKind::Composite(_) => true,
            _ => false,
        },
        _ => false,
    }
}

fn map_fields(fields: &Vec<PgField>) -> (r: Result<Vec<Field>, Unsupported>)
    ensures
        match r {
            Ok(mapped) => mapped_fields(fields@, fields@.len()) == Ok::<
                Seq<FieldView>,
                UnsupportedView,
            >(crate::types::field_views(mapped@)),
            Err(error) => mapped_fields(fields@, fields@.len()) == Err::<
                Seq<FieldView>,
                UnsupportedView,
            >(error@),
        },
    decreases fields, 0nat,
{
    let mut r: Vec<Field> = Vec::new();
    let mut i: usize = 0;
    assert(crate::types::field_views(r@) =~= Seq::<FieldView>::empty());
    while i < fields.len()
        invariant
            i <= fields.len(),
            mapped_fields(fields@, i as nat) == Ok::<Seq<FieldView>, UnsupportedView>(
                crate::types::field_views(r@),
            ),
        decreases fields.len() - i,
    {
        let field = &fields[i];
        assert(decreases_to!(fields => fields@));
        assert(decreases_to!(fields@ => fields@[i as int]));
        let ghost before = crate::types::field_views(r@);
        match map_column_type_to_data_type(&field.type_, field.name.as_str()) {
            Ok(Some(data_type)) => {
                r.push(Field::nullable(field.name.as_str(), data_type));
                assert(crate::types::field_views(r@) =~= before.push(r@.last()@));
            },
            Ok(None) => {
                proof {
                    mapped_fields_stop(fields@, (i + 1) as nat, fields@.len());
                }
                return Err(
                    Unsupported { data_type: field.type_.text(), field_name: field.name.clone() },
                );
            },
            Err(error) => {
                proof {
                    mapped_fields_stop(fields@, (i + 1) as nat, fields@.len());
                }
                return Err(error);
            },
        }
        i += 1;
    }
    Ok(r)
}

/// The name of the composite type that a struct column of a table is made with.
pub fn get_postgres_composite_type_name(table_name: &str, field_name: &str) -> (r: String)
    ensures
        r@ == "struct_"@ + table_name@ + "_"@ + field_name@,
{
    let mut r: String = "struct_".to_owned();
    r.append(table_name);
    r.append("_");
    r.append(field_name);
    r
}

/// The type that a table's column is made with.
#[derive(Debug)]
pub enum ColumnType {
    /// A type that goes by its own name.
    Custom(String),
    /// The type that the generic mapping of column types gives.
    Mapped,
}

/// The type that a table's column is made with: a struct has a composite type of
/// its own, any other type is mapped as in every database.
pub fn map_data_type_to_column_type_postgres(
    data_type: &DataType,
    table_name: &str,
    field_name: &str,
) -> (r: ColumnType)
    ensures
        match r {
            ColumnType::Custom(name) => data_type@ is Struct && name@ == "struct_"@ + table_name@
                + "_"@ + field_name@,
            ColumnType::Mapped => !(data_type@ is Struct),
        },
{
    match data_type {
        DataType::Struct(_) => ColumnType::Custom(
            get_postgres_composite_type_name(table_name, field_name),
        ),
        _ => ColumnType::Mapped,
    }
}

/// Whether values of the type arrive as text.
pub open spec fn is_text_like(t: PgType) -> bool {
    t is Json || t is Jsonb || t is Text || t is Varchar || t is Bpchar || t is Name
        || t.is_named("super"@)
}

/// Whether a type holds other values.
pub open spec fn is_complex(t: DataTypeView) -> bool {
    t is List || t is LargeList || t is Struct || t is MapOf
}

/// What a schema says of the column `name`: its first field of that name.
pub open spec fn projected_field(schema: Option<Seq<FieldView>>, name: Seq<char>) -> Option<
    FieldView,
> {
    match schema {
        Some(fields) => match crate::types::field_position(fields, name) {
            Some(i) => Some(fields[i]),
            None => None,
        },
        None => None,
    }
}

/// The field that the values of a text column are decoded into as JSON: the one
/// of its name, where that has a complex type.
pub open spec fn json_field(
    schema: Option<Seq<FieldView>>,
    column_name: Seq<char>,
    column_type: PgType,
) -> Option<FieldView> {
    match projected_field(schema, column_name) {
        Some(field) => if is_text_like(column_type) && is_complex(field.data_type) {
            Some(field)
        } else {
            None
        },
        None => None,
    }
}

/// The field that the values of a `NUMERIC` column are read into.
pub open spec fn numeric_field(
    schema: Option<Seq<FieldView>>,
    column_name: Seq<char>,
    column_index: int,
    column_count: int,
) -> Option<FieldView> {
    match schema {
        Some(fields) => if fields.len() == column_count {
            if column_index < fields.len() {
                Some(fields[column_index])
            } else {
                None
            }
        } else {
            projected_field(schema, column_name)
        },
        None => None,
    }
}

/// What an optional schema says.
pub open spec fn schema_view(schema: Option<&Schema>) -> Option<Seq<FieldView>> {
    match schema {
        Some(schema) => Some(schema@),
        None => None,
    }
}

/// What an optional field says.
pub open spec fn field_view(field: Option<&Field>) -> Option<FieldView> {
    match field {
        Some(field) => Some(field@),
        None => None,
    }
}

/// The field of a schema that goes by the name of a column.
pub(crate) fn field_named<'a>(schema: Option<&'a Schema>, name: &str) -> (r: Option<&'a Field>)
    ensures
        field_view(r) == projected_field(schema_view(schema), name@),
{
    match schema {
        Some(schema) => schema.field_with_name(name),
        None => None,
    }
}

/// Identifies columns whose values arrive as a JSON text serialization of a
/// complex type and should be decoded after collection rather than read as a
/// scalar: those of a text type that the projection gives a complex type.
pub fn projected_json_complex_field<'a>(
    projected_schema: Option<&'a Schema>,
    column_name: &str,
    column_type: &PgType,
) -> (r: Option<&'a Field>)
    ensures
        field_view(r) == json_field(schema_view(projected_schema), column_name@, *column_type),
{
    let text_like = match column_type {
        PgType::Json | PgType::Jsonb | PgType::Text | PgType::Varchar | PgType::Bpchar
        | PgType::Name => true,
        _ => column_type.named("super"),
    };
    if !text_like {
        return None;
    }
    match field_named(projected_schema, column_name) {
        Some(field) => match &field.data_type {
            DataType::List(_) | DataType::LargeList(_) | DataType::Struct(_) | DataType::MapOf(
                _,
                _,
            ) => Some(field),
            _ => None,
        },
        None => None,
    }
}

/// The projected field a `NUMERIC` result column is read into: by position when
/// the projection has exactly one field per result column, and by name
/// otherwise.
///
/// When the widths agree the columns line up one to one. Names do not: a bare
/// call is named `avg` in the result where the plan names it
/// `avg(hits.UserID)`, and two aggregates over the same function, or an alias
/// that happens to spell a bare function name, collide on it.
pub fn numeric_destination_field<'a>(
    projected_schema: Option<&'a Schema>,
    column_name: &str,
    column_index: usize,
    column_count: usize,
) -> (r: Option<&'a Field>)
    ensures
        field_view(r) == numeric_field(
            schema_view(projected_schema),
            column_name@,
            column_index as int,
            column_count as int,
        ),
{
    match projected_schema {
        Some(schema) => {
            if schema.fields.len() == column_count {
                if column_index < schema.fields.len() {
                    Some(&schema.fields[column_index])
                } else {
                    None
                }
            } else {
                field_named(projected_schema, column_name)
            }
        },
        None => None,
    }
}

/// The precision and scale of the items of a decimal array.
pub open spec fn decimal_item(t: DataTypeView) -> Option<(u8, i8)> {
    match t {
        DataTypeView::List(item) => match item.data_type {
            DataTypeView::Decimal128(precision, scale) => Some((precision, scale)),
            _ => None,
        },
        DataTypeView::LargeList(item) => match item.data_type {
            DataTypeView::Decimal128(precision, scale) => Some((precision, scale)),
            _ => None,
        },
        _ => None,
    }
}

/// The precision and scale of the items of a decimal array column, where its
/// schema declares them.
pub fn get_decimal_array_column_precision_and_scale(
    column_name: &str,
    projected_schema: &Schema,
) -> (r: Option<(u8, i8)>)
    ensures
        r == (match projected_field(Some(projected_schema@), column_name@) {
            Some(field) => decimal_item(field.data_type),
            None => None,
        }),
{
    proof {
        reveal_with_fuel(DataType::view, 3);
        reveal_with_fuel(Field::view, 3);
    }
    match projected_schema.field_with_name(column_name) {
        Some(field) => match &field.data_type {
            DataType::List(item) | DataType::LargeList(item) => match &item.data_type {
                DataType::Decimal128(precision, scale) => Some((*precision, *scale)),
                _ => None,
            },
            _ => None,
        },
        None => None,
    }
}

/// The fields of a composite type become the fields of a struct, in their order and
/// under their names, each nullable and of the type that a column of its own would
/// have; a field that no column can have the type of refuses the whole.
proof fn fields_are_mapped(fields: Seq<PgField>, n: nat)
    requires
        n <= fields.len(),
    ensures
        match mapped_fields(fields, n) {
            Ok(views) => views.len() == n && forall|i: int|
                0 <= i < n ==> (#[trigger] views[i]).name == fields[i].name@ && views[i].nullable
                    && mapped(fields[i].type_, fields[i].name@) == Ok::<
                    Option<DataTypeView>,
                    UnsupportedView,
                >(Some(views[i].data_type)),
            Err(_) => exists|i: int|
                0 <= i < n && !(mapped((#[trigger] fields[i]).type_, fields[i].name@) matches Ok(
                    Some(_),
                )),
        },
    decreases n,
{
    if n > 0 {
        fields_are_mapped(fields, (n - 1) as nat);
        match mapped_fields(fields, (n - 1) as nat) {
            Ok(before) => {
                if let Ok(Some(t)) = mapped(fields[n - 1].type_, fields[n - 1].name@) {
                    let views = mapped_fields(fields, n)->Ok_0;
                    assert forall|i: int| 0 <= i < n implies (#[trigger] views[i]).name
                        == fields[i].name@ && views[i].nullable && mapped(
                        fields[i].type_,
                        fields[i].name@,
                    ) == Ok::<Option<DataTypeView>, UnsupportedView>(Some(views[i].data_type)) by {
                        if i < n - 1 {
                            assert(views[i] == before[i]);
                        }
                    }
                } else {
                    assert(fields[n - 1] == fields[n - 1]);
                }
            },
            Err(_) => {
                let i = choose|i: int|
                    0 <= i < n - 1 && !(mapped(
                        (#[trigger] fields[i]).type_,
                        fields[i].name@,
                    ) matches Ok(Some(_)));
                assert(!(mapped(fields[i].type_, fields[i].name@) matches Ok(Some(_))));
            },
        }
    }
}

/// A type beyond those built in is read by its name, or by what it is made of: a
/// geometry is bytes, a list of them a list, `super` text, an enumeration a
/// dictionary of its labels, a composite a struct of its fields, and an array of a
/// composite a list of such structs. No column can have any other.
pub proof fn a_type_is_read_by_what_it_is(t: PgType, name: String, shown: String, kind: PgKind, field_name: Seq<char>)
    requires
        t == (PgType::Other { name, shown, kind }),
    ensures
        ({
            let read = mapped(t, field_name);
            let refused = Err::<Option<DataTypeView>, UnsupportedView>(
                UnsupportedView { data_type: shown@, field_name },
            );
            if name@ == "geometry"@ || name@ == "geography"@ {
                read matches Ok(Some(DataTypeView::Binary))
            } else if name@ == "_geometry"@ || name@ == "_geography"@ {
                read matches Ok(Some(DataTypeView::List(item))) && item.nullable && item.data_type
                    is Binary
            } else if name@ == "super"@ {
                read matches Ok(Some(DataTypeView::Utf8))
            } else {
                match kind {
                    PgKind::Enum => read matches Ok(Some(DataTypeView::Dictionary(keys, values)))
                        && *keys is Int8 && *values is Utf8,
                    PgKind::Simple => read == refused,
                    PgKind::Composite(fields) => match read {
                        Ok(view) => view matches Some(DataTypeView::Struct(views)) && views.len()
                            == fields@.len() && forall|i: int|
                            0 <= i < views.len() ==> (#[trigger] views[i]).name == fields@[i].name@
                                && views[i].nullable && mapped(fields@[i].type_, fields@[i].name@)
                                == Ok::<Option<DataTypeView>, UnsupportedView>(
                                Some(views[i].data_type),
                            ),
                        Err(_) => exists|i: int|
                            0 <= i < fields@.len() && !(mapped(
                                (#[trigger] fields@[i]).type_,
                                fields@[i].name@,
                            ) matches Ok(Some(_))),
                    },
                    PgKind::Array(element) => if *element matches PgType::Other {
                        kind: PgKind::Composite(_),
                        ..
                    } {
                        mapped(*element, field_name) matches Ok(Some(inner)) ==> (read matches Ok(
                            Some(DataTypeView::List(item)),
                        ) && item.nullable && item.data_type == inner)
                    } else {
                        read == refused
                    },
                }
            }
        }),
{
    if let PgKind::Composite(fields) = kind {
        fields_are_mapped(fields@, fields@.len());
    }
}

/// A column of text holds JSON exactly where the first field of its name in the
/// projection has a type that holds others: a list, a struct or a map. A `NUMERIC`
/// column is read into the field in its place where there are as many fields as
/// columns, and else into the first of its name.
pub proof fn a_column_goes_by_its_field(
    fields: Seq<FieldView>,
    name: Seq<char>,
    t: PgType,
    index: int,
    count: int,
    i: int,
)
    requires
        0 <= i < fields.len(),
        fields[i].name == name,
        forall|k: int| 0 <= k < i ==> (#[trigger] fields[k]).name != name,
        0 <= index < count,
    ensures
        projected_field(Some(fields), name) == Some(fields[i]),
        ({
            let text = t is Json || t is Jsonb || t is Text || t is Varchar || t is Bpchar || t
                is Name || (t matches PgType::Other { name: own, .. } && own@ == "super"@);
            let complex = fields[i].data_type is List || fields[i].data_type is LargeList
                || fields[i].data_type is Struct || fields[i].data_type is MapOf;
            json_field(Some(fields), name, t) == (if text && complex {
                Some(fields[i])
            } else {
                None
            })
        }),
        numeric_field(Some(fields), name, index, count) == Some(
            if fields.len() == count {
                fields[index]
            } else {
                fields[i]
            },
        ),
        numeric_field(None, name, index, count) is None,
        json_field(None, name, t) is None,
        projected_field(None, name) is None,
{
    crate::types::field_position_is_first(fields, name, i);
}

/// A list, large or not, of decimals declares their precision and scale, and nothing
/// else declares any.
pub proof fn a_list_of_decimals_declares_its_scale(
    item: FieldView,
    precision: u8,
    scale: i8,
    other: DataTypeView,
)
    requires
        item.data_type == DataTypeView::Decimal128(precision, scale),
    ensures
        decimal_item(DataTypeView::List(Box::new(item))) == Some((precision, scale)),
        decimal_item(DataTypeView::LargeList(Box::new(item))) == Some((precision, scale)),
        decimal_item(other) matches Some((p, s)) ==> (other matches DataTypeView::List(held)
            && held.data_type == DataTypeView::Decimal128(p, s)) || (
        other matches DataTypeView::LargeList(held) && held.data_type == DataTypeView::Decimal128(
            p,
            s,
        )),
{
}

} // verus!
