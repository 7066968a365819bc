use vstd::prelude::*;

verus! {

/// Logical type of a schema field.
#[derive(Clone, Copy, Debug, PartialEq, Eq, Structural)]
pub enum DataType {
    Null,
    Boolean,
    Int8,
    Int16,
    Int32,
    Int64,
    UInt8,
    UInt16,
    UInt32,
    UInt64,
    Float16,
    Float32,
    Float64,
    Date32,
    Date64,
    Decimal128(u8, i8),
    Utf8,
    Binary,
    /// Any other type; none has a fixed-width encoding.
    Other,
}

/// One field of a schema: its logical type and whether it may hold nulls.
#[derive(Clone, Copy, Debug, PartialEq, Eq, Structural)]
pub struct Field {
    pub data_type: DataType,
    pub nullable: bool,
}

/// An ordered list of fields.
#[derive(Clone, Debug)]
pub struct Schema {
    pub fields: Vec<Field>,
}

/// Errors reported by the checked batch entry points and by the constructors.
#[derive(Clone, Copy, Debug, PartialEq, Eq, Structural)]
pub enum RowError {
    /// The schema has more fields than a layout is planned for.
    TooManyFields,
    /// A field's logical type has no fixed-width row encoding.
    UnsupportedType { field: usize },
    /// A column's values do not have the type its field declares.
    TypeMismatch { field: usize },
    /// The batch does not have one column per schema field.
    ColumnCountMismatch,
    /// Columns (or a column and its validity) differ in length.
    LengthMismatch,
    /// The output buffer cannot hold every encoded row.
    OutputTooSmall,
}

/// The values of a column, one per row. Floating-point columns carry the
/// IEEE-754 bit pattern of each value.
#[derive(Clone, Debug)]
pub enum ColumnValues {
    Boolean(Vec<bool>),
    Int8(Vec<i8>),
    Int16(Vec<i16>),
    Int32(Vec<i32>),
    Int64(Vec<i64>),
    UInt8(Vec<u8>),
    UInt16(Vec<u16>),
    UInt32(Vec<u32>),
    UInt64(Vec<u64>),
    Float32(Vec<u32>),
    Float64(Vec<u64>),
    Date32(Vec<i32>),
    Date64(Vec<i64>),
    Decimal128(Vec<i128>),
}

/// Byte width of a field of the given type in the fixed part of a row;
/// zero for the types that have no fixed-width encoding.
pub open spec fn type_width(t: DataType) -> nat {
    match t {
        DataType::Boolean | DataType::Int8 | DataType::UInt8 => 1,
        DataType::Int16 | DataType::UInt16 => 2,
        DataType::Int32 | DataType::UInt32 | DataType::Float32 | DataType::Date32 => 4,
        DataType::Int64 | DataType::UInt64 | DataType::Float64 | DataType::Date64 => 8,
        DataType::Decimal128(_, _) => 16,
        _ => 0,
    }
}

/// The types the row format can place at a fixed offset.
pub open spec fn is_supported(t: DataType) -> bool {
    type_width(t) > 0
}

/// Whether a column's values have the given logical type. A decimal column
/// matches every precision and scale.
pub open spec fn values_match(t: DataType, v: ColumnValues) -> bool {
    match (t, v) {
        (DataType::Boolean, ColumnValues::Boolean(_)) => true,
        (DataType::Int8, ColumnValues::Int8(_)) => true,
        (DataType::Int16, ColumnValues::Int16(_)) => true,
        (DataType::Int32, ColumnValues::Int32(_)) => true,
        (DataType::Int64, ColumnValues::Int64(_)) => true,
        (DataType::UInt8, ColumnValues::UInt8(_)) => true,
        (DataType::UInt16, ColumnValues::UInt16(_)) => true,
        (DataType::UInt32, ColumnValues::UInt32(_)) => true,
        (DataType::UInt64, ColumnValues::UInt64(_)) => true,
        (DataType::Float32, ColumnValues::Float32(_)) => true,
        (DataType::Float64, ColumnValues::Float64(_)) => true,
        (DataType::Date32, ColumnValues::Date32(_)) => true,
        (DataType::Date64, ColumnValues::Date64(_)) => true,
        (DataType::Decimal128(_, _), ColumnValues::Decimal128(_)) => true,
        _ => false,
    }
}

/// Number of values held.
pub open spec fn values_len(v: ColumnValues) -> nat {
    match v {
        ColumnValues::Boolean(x) => x@.len(),
        ColumnValues::Int8(x) => x@.len(),
        ColumnValues::Int16(x) => x@.len(),
        ColumnValues::Int32(x) => x@.len(),
        ColumnValues::Int64(x) => x@.len(),
        ColumnValues::UInt8(x) => x@.len(),
        ColumnValues::UInt16(x) => x@.len(),
        ColumnValues::UInt32(x) => x@.len(),
        ColumnValues::UInt64(x) => x@.len(),
        ColumnValues::Float32(x) => x@.len(),
        ColumnValues::Float64(x) => x@.len(),
        ColumnValues::Date32(x) => x@.len(),
        ColumnValues::Date64(x) => x@.len(),
        ColumnValues::Decimal128(x) => x@.len(),
    }
}

/// Byte width of one value of the column.
pub open spec fn values_width(v: ColumnValues) -> nat {
    match v {
        ColumnValues::Boolean(_) | ColumnValues::Int8(_) | ColumnValues::UInt8(_) => 1,
        ColumnValues::Int16(_) | ColumnValues::UInt16(_) => 2,
        ColumnValues::Int32(_) | ColumnValues::UInt32(_) | ColumnValues::Float32(_)
        | ColumnValues::Date32(_) => 4,
        ColumnValues::Int64(_) | ColumnValues::UInt64(_) | ColumnValues::Float64(_)
        | ColumnValues::Date64(_) => 8,
        ColumnValues::Decimal128(_) => 16,
    }
}

/// The unsigned integer whose little-endian bytes encode the value at row `r`:
/// the value itself reinterpreted as unsigned of the same width (two's
/// complement for signed types, 0 or 1 for booleans).
pub open spec fn value_bits(v: ColumnValues, r: int) -> nat {
    match v {
        ColumnValues::Boolean(x) => if x@[r] { 1 } else { 0 },
        ColumnValues::Int8(x) => (x@[r] as u8) as nat,
        ColumnValues::Int16(x) => (x@[r] as u16) as nat,
        ColumnValues::Int32(x) => (x@[r] as u32) as nat,
        ColumnValues::Int64(x) => (x@[r] as u64) as nat,
        ColumnValues::UInt8(x) => x@[r] as nat,
        ColumnValues::UInt16(x) => x@[r] as nat,
        ColumnValues::UInt32(x) => x@[r] as nat,
        ColumnValues::UInt64(x) => x@[r] as nat,
        ColumnValues::Float32(x) => x@[r] as nat,
        ColumnValues::Float64(x) => x@[r] as nat,
        ColumnValues::Date32(x) => (x@[r] as u32) as nat,
        ColumnValues::Date64(x) => (x@[r] as u64) as nat,
        ColumnValues::Decimal128(x) => (x@[r] as u128) as nat,
    }
}

/// The logical types of the fields, in order.
pub open spec fn schema_types(fields: Seq<Field>) -> Seq<DataType> {
    fields.map_values(|f: Field| f.data_type)
}

pub proof fn lemma_match_width(t: DataType, v: ColumnValues)
    requires
        values_match(t, v),
    ensures
        type_width(t) == values_width(v),
        is_supported(t),
{
}

/// A column: its values and, optionally, a validity flag per row
/// (`true` for a present value, `false` for null).
#[derive(Debug)]
pub struct Column {
    values: ColumnValues,
    validity: Option<Vec<bool>>,
}

impl Column {
    #[verifier::type_invariant]
    spec fn inv(&self) -> bool {
        match self.validity {
            Some(m) => m.len() == values_len(self.values),
            None => true,
        }
    }

    pub closed spec fn spec_values(&self) -> ColumnValues {
        self.values
    }

    pub closed spec fn spec_validity(&self) -> Option<Seq<bool>> {
        match self.validity {
            Some(m) => Some(m@),
            None => None,
        }
    }

    pub open spec fn spec_len(&self) -> nat {
        values_len(self.spec_values())
    }

    /// Whether row `r` holds a null.
    pub open spec fn spec_is_null(&self, r: int) -> bool {
        match self.spec_validity() {
            Some(m) => !m[r],
            None => false,
        }
    }

    /// A column with the given values and validity flags; fails when the
    /// flags are not one per value.
    pub fn new(values: ColumnValues, validity: Option<Vec<bool>>) -> (r: Result<Column, RowError>)
        ensures
            match validity {
                Some(m) => m.len() != values_len(values),
                None => false,
            } <==> r == Err::<Column, RowError>(RowError::LengthMismatch),
            r is Ok || r == Err::<Column, RowError>(RowError::LengthMismatch),
            r.is_ok() ==> r.unwrap().spec_values() == values,
            r.is_ok() ==> r.unwrap().spec_validity() == match validity {
                Some(m) => Some(m@),
                None => None::<Seq<bool>>,
            },
    {
        let n = values_count(&values);
        match validity {
            Some(m) => {
                if m.len() != n {
                    Err(RowError::LengthMismatch)
                } else {
                    Ok(Column { values, validity: Some(m) })
                }
            },
            None => Ok(Column { values, validity: None }),
        }
    }

    /// A column without nulls.
    pub fn non_null(values: ColumnValues) -> (r: Column)
        ensures
            r.spec_values() == values,
            r.spec_validity() == None::<Seq<bool>>,
    {
        Column { values, validity: None }
    }

    pub fn values(&self) -> (r: &ColumnValues)
        ensures
            *r == self.spec_values(),
    {
        &self.values
    }

    pub fn len(&self) -> (r: usize)
        ensures
            r == self.spec_len(),
    {
        values_count(&self.values)
    }

    /// Whether row `r` holds a null.
    pub fn is_null(&self, r: usize) -> (b: bool)
        requires
            r < self.spec_len(),
        ensures
            b == self.spec_is_null(r as int),
    {
        proof {
            use_type_invariant(self);
        }
        match &self.validity {
            Some(m) => !m[r],
            None => false,
        }
    }
}

/// Equal-length columns, one value of each per row.
#[derive(Debug)]
pub struct RecordBatch {
    columns: Vec<Column>,
    num_rows: usize,
}

impl RecordBatch {
    #[verifier::type_invariant]
    spec fn inv(&self) -> bool {
        forall|i: int| 0 <= i < self.columns@.len() ==> #[trigger] self.columns@[i].spec_len() == self.num_rows
    }

    pub closed spec fn spec_columns(&self) -> Seq<Column> {
        self.columns@
    }

    pub closed spec fn spec_num_rows(&self) -> nat {
        self.num_rows as nat
    }

    /// A batch of the given columns, whose number of rows is the length of the
    /// first; fails when the columns differ in length.
    pub fn try_new(columns: Vec<Column>) -> (r: Result<RecordBatch, RowError>)
        ensures
            (exists|i: int, j: int| 0 <= i < columns@.len() && 0 <= j < columns@.len()
                && #[trigger] columns@[i].spec_len() != #[trigger] columns@[j].spec_len())
                <==> r == Err::<RecordBatch, RowError>(RowError::LengthMismatch),
            r is Ok || r == Err::<RecordBatch, RowError>(RowError::LengthMismatch),
            r.is_ok() ==> r.unwrap().spec_columns() == columns@,
            r.is_ok() ==> r.unwrap().spec_num_rows() == if columns@.len() == 0 { 0 } else {
                columns@[0].spec_len()
            },
    {
        if columns.len() == 0 {
            return Ok(RecordBatch { columns, num_rows: 0 });
        }
        let n = columns[0].len();
        let mut i: usize = 1;
        while i < columns.len()
            invariant
                1 <= i <= columns@.len(),
                n == columns@[0].spec_len(),
                forall|k: int| 0 <= k < i ==> #[trigger] columns@[k].spec_len() == n,
            decreases columns@.len() - i,
        {
            if columns[i].len() != n {
                proof {
                    assert(columns@[0].spec_len() != columns@[i as int].spec_len());
                }
                return Err(RowError::LengthMismatch);
            }
            i += 1;
        }
        Ok(RecordBatch { columns, num_rows: n })
    }

    pub fn columns(&self) -> (r: &Vec<Column>)
        ensures
            r@ == self.spec_columns(),
            forall|i: int| 0 <= i < r@.len() ==> #[trigger] r@[i].spec_len() == self.spec_num_rows(),
    {
        proof {
            use_type_invariant(self);
        }
        &self.columns
    }

    pub fn num_rows(&self) -> (r: usize)
        ensures
            r == self.spec_num_rows(),
    {
        self.num_rows
    }
}

/// Number of values held.
pub fn values_count(v: &ColumnValues) -> (r: usize)
    ensures
        r == values_len(*v),
{
    match v {
        ColumnValues::Boolean(x) => x.len(),
        ColumnValues::Int8(x) => x.len(),
        ColumnValues::Int16(x) => x.len(),
        ColumnValues::Int32(x) => x.len(),
        ColumnValues::Int64(x) => x.len(),
        ColumnValues::UInt8(x) => x.len(),
        ColumnValues::UInt16(x) => x.len(),
        ColumnValues::UInt32(x) => x.len(),
        ColumnValues::UInt64(x) => x.len(),
        ColumnValues::Float32(x) => x.len(),
        ColumnValues::Float64(x) => x.len(),
        ColumnValues::Date32(x) => x.len(),
        ColumnValues::Date64(x) => x.len(),
        ColumnValues::Decimal128(x) => x.len(),
    }
}

/// Whether the type has a fixed-width row encoding.
pub fn supported(t: DataType) -> (r: bool)
    ensures
        r == is_supported(t),
{
    match t {
        DataType::Boolean | DataType::Int8 | DataType::Int16 | DataType::Int32
        | DataType::Int64 | DataType::UInt8 | DataType::UInt16 | DataType::UInt32
        | DataType::UInt64 | DataType::Float32 | DataType::Float64 | DataType::Date32
        | DataType::Date64 | DataType::Decimal128(_, _) => true,
        _ => false,
    }
}

/// Byte width of a field of the given type.
pub fn field_width(t: DataType) -> (r: usize)
    ensures
        r == type_width(t),
{
    match t {
        DataType::Boolean | DataType::Int8 | DataType::UInt8 => 1,
        DataType::Int16 | DataType::UInt16 => 2,
        DataType::Int32 | DataType::UInt32 | DataType::Float32 | DataType::Date32 => 4,
        DataType::Int64 | DataType::UInt64 | DataType::Float64 | DataType::Date64 => 8,
        DataType::Decimal128(_, _) => 16,
        _ => 0,
    }
}

/// Whether the column's values have the given type.
pub fn matches_type(t: DataType, v: &ColumnValues) -> (r: bool)
    ensures
        r == values_match(t, *v),
{
    match (t, v) {
        (DataType::Boolean, ColumnValues::Boolean(_)) => true,
        (DataType::Int8, ColumnValues::Int8(_)) => true,
        (DataType::Int16, ColumnValues::Int16(_)) => true,
        (DataType::Int32, ColumnValues::Int32(_)) => true,
        (DataType::Int64, ColumnValues::Int64(_)) => true,
        (DataType::UInt8, ColumnValues::UInt8(_)) => true,
        (DataType::UInt16, ColumnValues::UInt16(_)) => true,
        (DataType::UInt32, ColumnValues::UInt32(_)) => true,
        (DataType::UInt64, ColumnValues::UInt64(_)) => true,
        (DataType::Float32, ColumnValues::Float32(_)) => true,
        (DataType::Float64, ColumnValues::Float64(_)) => true,
        (DataType::Date32, ColumnValues::Date32(_)) => true,
        (DataType::Date64, ColumnValues::Date64(_)) => true,
        (DataType::Decimal128(_, _), ColumnValues::Decimal128(_)) => true,
        _ => false,
    }
}

} // verus!
