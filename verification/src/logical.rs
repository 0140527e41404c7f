//! Filter expressions and query plans as plain values.

use vstd::prelude::*;

use crate::text::same;
use crate::types::{DataType, Field, FieldView};

verus! {

/// A table's name, with the schema and catalog it is written with.
#[derive(Debug)]
pub enum TableReference {
    Bare { table: String },
    Partial { schema: String, table: String },
    Full { catalog: String, schema: String, table: String },
}

impl TableReference {
    /// The parts of the name, outermost first.
    pub open spec fn parts(&self) -> Seq<Seq<char>> {
        match *self {
            TableReference::Bare { table } => seq![table@],
            TableReference::Partial { schema, table } => seq![schema@, table@],
            TableReference::Full { catalog, schema, table } => seq![catalog@, schema@, table@],
        }
    }

    /// Whether the two names are written alike.
    pub fn same(&self, other: &TableReference) -> (r: bool)
        ensures
            r == (self.parts() == other.parts()),
    {
        match (self, other) {
            (TableReference::Bare { table }, TableReference::Bare { table: t }) => {
                let r = same(table.as_str(), t.as_str());
                assert(r ==> self.parts() =~= other.parts());
                assert(self.parts()[0] == table@ && other.parts()[0] == t@);
                r
            },
            (
                TableReference::Partial { schema, table },
                TableReference::Partial { schema: s, table: t },
            ) => {
                let r = same(schema.as_str(), s.as_str()) && same(table.as_str(), t.as_str());
                assert(r ==> self.parts() =~= other.parts());
                assert(self.parts()[0] == schema@ && other.parts()[0] == s@);
                assert(self.parts()[1] == table@ && other.parts()[1] == t@);
                r
            },
            (
                TableReference::Full { catalog, schema, table },
                TableReference::Full { catalog: c, schema: s, table: t },
            ) => {
                let r = same(catalog.as_str(), c.as_str()) && same(schema.as_str(), s.as_str())
                    && same(table.as_str(), t.as_str());
                assert(r ==> self.parts() =~= other.parts());
                assert(self.parts()[0] == catalog@ && other.parts()[0] == c@);
                assert(self.parts()[1] == schema@ && other.parts()[1] == s@);
                assert(self.parts()[2] == table@ && other.parts()[2] == t@);
                r
            },
            _ => {
                assert(self.parts().len() != other.parts().len());
                false
            },
        }
    }
}

/// A column's name, with the table it is qualified by, if any.
#[derive(Debug)]
pub struct Column {
    pub relation: Option<TableReference>,
    pub name: String,
}

/// A floating-point number: the bits of its IEEE 754 double, and the shortest
/// decimal text that reads back as the number.
#[derive(Debug)]
pub struct Float {
    pub bits: u64,
    pub text: String,
}

/// A count of units since the epoch, and the text of that count in seconds as a
/// floating-point number.
#[derive(Debug)]
pub struct Instant {
    pub value: i64,
    pub seconds: String,
}

/// A literal value. `None` is the NULL of the type.
#[derive(Debug)]
pub enum ScalarValue {
    Null,
    Boolean(Option<bool>),
    Int8(Option<i8>),
    Int16(Option<i16>),
    Int32(Option<i32>),
    Int64(Option<i64>),
    UInt8(Option<u8>),
    UInt16(Option<u16>),
    UInt32(Option<u32>),
    UInt64(Option<u64>),
    /// A single-precision number, its bits widened to a double.
    Float32(Option<Float>),
    Float64(Option<Float>),
    /// An unscaled value, its precision and its scale.
    Decimal128(Option<i128>, u8, i8),
    Utf8(Option<String>),
    LargeUtf8(Option<String>),
    Utf8View(Option<String>),
    /// Days since the epoch.
    Date32(Option<i32>),
    /// Milliseconds since the epoch.
    Date64(Option<i64>),
    TimestampSecond(Option<i64>, Option<String>),
    TimestampMillisecond(Option<Instant>, Option<String>),
    TimestampMicrosecond(Option<Instant>, Option<String>),
    TimestampNanosecond(Option<Instant>, Option<String>),
    /// A value of any other type.
    Other { null: bool },
}

impl ScalarValue {
    /// Whether the value is NULL.
    pub open spec fn null(&self) -> bool {
        match *self {
            ScalarValue::Null => true,
            ScalarValue::Boolean(v) => v is None,
            ScalarValue::Int8(v) => v is None,
            ScalarValue::Int16(v) => v is None,
            ScalarValue::Int32(v) => v is None,
            ScalarValue::Int64(v) => v is None,
            ScalarValue::UInt8(v) => v is None,
            ScalarValue::UInt16(v) => v is None,
            ScalarValue::UInt32(v) => v is None,
            ScalarValue::UInt64(v) => v is None,
            ScalarValue::Float32(v) => v is None,
            ScalarValue::Float64(v) => v is None,
            ScalarValue::Decimal128(v, _, _) => v is None,
            ScalarValue::Utf8(v) => v is None,
            ScalarValue::LargeUtf8(v) => v is None,
            ScalarValue::Utf8View(v) => v is None,
            ScalarValue::Date32(v) => v is None,
            ScalarValue::Date64(v) => v is None,
            ScalarValue::TimestampSecond(v, _) => v is None,
            ScalarValue::TimestampMillisecond(v, _) => v is None,
            ScalarValue::TimestampMicrosecond(v, _) => v is None,
            ScalarValue::TimestampNanosecond(v, _) => v is None,
            ScalarValue::Other { null } => null,
        }
    }

    /// Whether the value is NULL.
    pub fn is_null(&self) -> (r: bool)
        ensures
            r == self.null(),
    {
        match self {
            ScalarValue::Null => true,
            ScalarValue::Boolean(v) => v.is_none(),
            ScalarValue::Int8(v) => v.is_none(),
            ScalarValue::Int16(v) => v.is_none(),
            ScalarValue::Int32(v) => v.is_none(),
            ScalarValue::Int64(v) => v.is_none(),
            ScalarValue::UInt8(v) => v.is_none(),
            ScalarValue::UInt16(v) => v.is_none(),
            ScalarValue::UInt32(v) => v.is_none(),
            ScalarValue::UInt64(v) => v.is_none(),
            ScalarValue::Float32(v) => v.is_none(),
            ScalarValue::Float64(v) => v.is_none(),
            ScalarValue::Decimal128(v, _, _) => v.is_none(),
            ScalarValue::Utf8(v) => v.is_none(),
            ScalarValue::LargeUtf8(v) => v.is_none(),
            ScalarValue::Utf8View(v) => v.is_none(),
            ScalarValue::Date32(v) => v.is_none(),
            ScalarValue::Date64(v) => v.is_none(),
            ScalarValue::TimestampSecond(v, _) => v.is_none(),
            ScalarValue::TimestampMillisecond(v, _) => v.is_none(),
            ScalarValue::TimestampMicrosecond(v, _) => v.is_none(),
            ScalarValue::TimestampNanosecond(v, _) => v.is_none(),
            ScalarValue::Other { null } => *null,
        }
    }
}

/// A binary operator.
#[derive(Clone, Copy, Debug, PartialEq, Eq, Structural)]
pub enum Operator {
    Eq,
    NotEq,
    Lt,
    LtEq,
    Gt,
    GtEq,
    Plus,
    Minus,
    Multiply,
    Divide,
    Modulo,
    And,
    Or,
    IsDistinctFrom,
    IsNotDistinctFrom,
    RegexMatch,
    RegexIMatch,
    RegexNotMatch,
    RegexNotIMatch,
    LikeMatch,
    ILikeMatch,
    NotLikeMatch,
    NotILikeMatch,
    BitwiseAnd,
    BitwiseOr,
    BitwiseXor,
    BitwiseShiftRight,
    BitwiseShiftLeft,
    StringConcat,
    AtArrow,
    ArrowAt,
    Arrow,
    LongArrow,
    HashArrow,
    HashLongArrow,
    AtAt,
    IntegerDivide,
    HashMinus,
    AtQuestion,
    Question,
    QuestionAnd,
    QuestionPipe,
    Colon,
}

/// An expression over a table's columns.
#[derive(Debug)]
pub enum Expr {
    Column(Column),
    Literal(ScalarValue),
    BinaryExpr { left: Box<Expr>, op: Operator, right: Box<Expr> },
    Not(Box<Expr>),
    IsNull(Box<Expr>),
    IsNotNull(Box<Expr>),
    IsTrue(Box<Expr>),
    IsFalse(Box<Expr>),
    IsNotTrue(Box<Expr>),
    IsNotFalse(Box<Expr>),
    Between { expr: Box<Expr>, negated: bool, low: Box<Expr>, high: Box<Expr> },
    InList { expr: Box<Expr>, list: Vec<Expr>, negated: bool },
    Like {
        negated: bool,
        expr: Box<Expr>,
        pattern: Box<Expr>,
        escape_char: Option<char>,
        case_insensitive: bool,
    },
    /// A cast. `folded` is the value that casting a literal gives, `None` where
    /// the operand is no literal or does not cast: [`Expr::cast`] folds it.
    Cast { expr: Box<Expr>, data_type: DataType, folded: Option<ScalarValue> },
    /// A cast that gives NULL where [`Expr::Cast`] fails.
    TryCast { expr: Box<Expr>, data_type: DataType, folded: Option<ScalarValue> },
    ScalarFunction(ScalarFunction),
    AggregateFunction(AggregateFunction),
    WindowFunction(WindowFunction),
    ScalarSubquery(Box<LogicalPlan>),
    InSubquery { expr: Box<Expr>, subquery: Box<LogicalPlan>, negated: bool },
    Exists { subquery: Box<LogicalPlan>, negated: bool },
    /// A comparison with any or all of the rows of a subquery.
    SetComparison { expr: Box<Expr>, subquery: Box<LogicalPlan> },
    OuterReferenceColumn(Column),
    /// Any other expression: its printed form and its operands.
    Other { text: String, operands: Vec<Expr> },
}

/// A call of a scalar function.
#[derive(Debug)]
pub struct ScalarFunction {
    pub name: String,
    pub args: Vec<Expr>,
}

/// A call of an aggregate.
#[derive(Debug)]
pub struct AggregateFunction {
    pub name: String,
    pub args: Vec<Expr>,
    pub distinct: bool,
    pub filter: Option<Box<Expr>>,
    pub order_by: Vec<Expr>,
}

/// A call of an aggregate or of a window function over a window.
#[derive(Debug)]
pub struct WindowFunction {
    pub name: String,
    /// Whether `name` is an aggregate's.
    pub aggregate: bool,
    pub args: Vec<Expr>,
    pub partition_by: Vec<Expr>,
    pub order_by: Vec<Expr>,
    pub filter: Option<Box<Expr>>,
    pub distinct: bool,
}

/// One node of a query plan.
#[derive(Debug)]
pub struct LogicalPlan {
    /// The expressions that the node evaluates.
    pub expressions: Vec<Expr>,
    /// The nodes that it reads from.
    pub inputs: Vec<LogicalPlan>,
    /// The columns that it produces.
    pub schema: DFSchema,
}

/// A column of a plan's schema, with the table it is qualified by, if any.
#[derive(Debug)]
pub struct DFField {
    pub relation: Option<TableReference>,
    pub field: Field,
}

/// The columns that a plan produces.
#[derive(Debug)]
pub struct DFSchema {
    pub fields: Vec<DFField>,
}

/// What a [`DFField`] says.
#[verifier::ext_equal]
pub struct DFFieldView {
    pub relation: Option<Seq<Seq<char>>>,
    pub field: FieldView,
}

/// The parts of a table's name, when there is one.
pub open spec fn relation_parts(relation: Option<TableReference>) -> Option<Seq<Seq<char>>> {
    match relation {
        Some(table) => Some(table.parts()),
        None => None,
    }
}

impl TableReference {
    /// A name written alike.
    pub fn duplicate(&self) -> (r: TableReference)
        ensures
            r.parts() == self.parts(),
    {
        match self {
            TableReference::Bare { table } => TableReference::Bare { table: table.clone() },
            TableReference::Partial { schema, table } => TableReference::Partial {
                schema: schema.clone(),
                table: table.clone(),
            },
            TableReference::Full { catalog, schema, table } => TableReference::Full {
                catalog: catalog.clone(),
                schema: schema.clone(),
                table: table.clone(),
            },
        }
    }
}

impl DFField {
    pub open spec fn view(&self) -> DFFieldView {
        DFFieldView { relation: relation_parts(self.relation), field: self.field@ }
    }

    /// A field that says the same.
    pub fn duplicate(&self) -> (r: DFField)
        ensures
            r@ == self@,
    {
        DFField {
            relation: match &self.relation {
                Some(table) => Some(table.duplicate()),
                None => None,
            },
            field: self.field.duplicate(),
        }
    }
}

/// Whether a reference to one of the two fields could mean the other: they have
/// one name, and the same table or, for one of them, none.
pub open spec fn ambiguous(a: DFFieldView, b: DFFieldView) -> bool {
    a.field.name == b.field.name && (a.relation == b.relation || a.relation is None
        || b.relation is None)
}

/// Whether a reference to any of `fields` can mean that one alone.
pub open spec fn unambiguous(fields: Seq<DFFieldView>) -> bool {
    forall|i: int, j: int|
        0 <= i < j < fields.len() ==> !ambiguous(#[trigger] fields[i], #[trigger] fields[j])
}

fn is_ambiguous(a: &DFField, b: &DFField) -> (r: bool)
    ensures
        r == ambiguous(a@, b@),
{
    same(a.field.name.as_str(), b.field.name.as_str()) && match (&a.relation, &b.relation) {
        (Some(x), Some(y)) => x.same(y),
        _ => true,
    }
}

impl DFSchema {
    pub open spec fn view(&self) -> Seq<DFFieldView> {
        Seq::new(self.fields@.len(), |i: int| self.fields@[i]@)
    }

    /// A schema without columns.
    pub fn empty() -> (r: DFSchema)
        ensures
            r@ == Seq::<DFFieldView>::empty(),
    {
        let r = DFSchema { fields: Vec::new() };
        assert(r@ =~= Seq::<DFFieldView>::empty());
        r
    }

    /// A schema that says the same.
    pub fn duplicate(&self) -> (r: DFSchema)
        ensures
            r@ == self@,
    {
        let mut fields: Vec<DFField> = Vec::new();
        let mut i: usize = 0;
        while i < self.fields.len()
            invariant
                i <= self.fields.len(),
                fields.len() == i,
                forall|k: int| 0 <= k < i ==> (#[trigger] fields@[k])@ == self.fields@[k]@,
            decreases self.fields.len() - i,
        {
            fields.push(self.fields[i].duplicate());
            i += 1;
        }
        let r = DFSchema { fields };
        assert(r@ =~= self@);
        r
    }

    /// The columns of this schema and then those of `other`, or `None` where a
    /// reference to one of them could mean another.
    pub fn join(&self, other: &DFSchema) -> (r: Option<DFSchema>)
        ensures
            match r {
                Some(joined) => unambiguous(self@ + other@) && joined@ == self@ + other@,
                None => !unambiguous(self@ + other@),
            },
    {
        let mut joined = self.duplicate();
        let mut more = other.duplicate();
        joined.fields.append(&mut more.fields);
        assert(joined@ =~= self@ + other@);
        let mut i: usize = 0;
        while i < joined.fields.len()
            invariant
                i <= joined.fields.len(),
                joined@ == self@ + other@,
                forall|k: int, j: int|
                    0 <= k < i && k < j < joined@.len() ==> !ambiguous(
                        #[trigger] joined@[k],
                        #[trigger] joined@[j],
                    ),
            decreases joined.fields.len() - i,
        {
            let mut j: usize = i + 1;
            while j < joined.fields.len()
                invariant
                    i < j <= joined.fields.len(),
                    joined@ == self@ + other@,
                    forall|k: int|
                        i < k < j ==> !ambiguous(joined@[i as int], #[trigger] joined@[k]),
                decreases joined.fields.len() - j,
            {
                assert(joined@[i as int] == joined.fields@[i as int]@);
                assert(joined@[j as int] == joined.fields@[j as int]@);
                if is_ambiguous(&joined.fields[i], &joined.fields[j]) {
                    return None;
                }
                j += 1;
            }
            i += 1;
        }
        Some(joined)
    }
}

} // verus!
