use vstd::prelude::*;
use crate::bytes::{le_byte, lemma_div_step, lemma_pow256_widths, pow256, put_le, with_bit, zeros};
use crate::layout::{fits, lemma_round8, plan, LayoutView, RowLayout, MAX_FIELDS};
use crate::types::{
    is_supported, lemma_match_width, schema_types, value_bits, values_match, values_width,
    Column, ColumnValues, Schema,
};

verus! {

/// `bytes` after field `i` of row `r` of the columns is written: the value's
/// little-endian bytes at the field's offset, and, unless the layout is
/// null-free, the field's bitmap bit (set when present; cleared, with the
/// value left out, when null).
pub open spec fn put_field(bytes: Seq<u8>, l: LayoutView, cols: Seq<Column>, r: int, i: int) -> Seq<u8> {
    let v = cols[i].spec_values();
    let off = l.offsets[i] as int;
    if l.null_free {
        put_le(bytes, off, value_bits(v, r), values_width(v))
    } else if cols[i].spec_is_null(r) {
        with_bit(bytes, i as nat, false)
    } else {
        put_le(with_bit(bytes, i as nat, true), off, value_bits(v, r), values_width(v))
    }
}

/// `start` after the first `n` fields of row `r` are written onto it in order.
pub open spec fn encode_fields(start: Seq<u8>, l: LayoutView, cols: Seq<Column>, r: int, n: nat) -> Seq<u8>
    decreases n,
{
    if n == 0 {
        start
    } else {
        put_field(encode_fields(start, l, cols, r, (n - 1) as nat), l, cols, r, n - 1)
    }
}

/// The encoding of row `r`: every field written onto a zeroed row.
pub open spec fn encode_row(l: LayoutView, cols: Seq<Column>, r: int) -> Seq<u8> {
    encode_fields(zeros(l.width), l, cols, r, cols.len())
}

/// The columns can be encoded at row `r` under the layout: one column per
/// field, each of its field's type and holding row `r`.
pub open spec fn row_input_ok(l: LayoutView, fields: Seq<crate::types::Field>, cols: Seq<Column>, r: int) -> bool {
    &&& fits(l, schema_types(fields))
    &&& cols.len() == fields.len()
    &&& forall|i: int| 0 <= i < cols.len() ==> values_match(fields[i].data_type, #[trigger] cols[i].spec_values())
    &&& forall|i: int| 0 <= i < cols.len() ==> 0 <= r < #[trigger] cols[i].spec_len()
}

/// Reusable buffer holding the fixed-width bytes of one row at a time.
#[derive(Debug)]
pub struct RowWriter {
    layout: RowLayout,
    data: Vec<u8>,
    row_width: usize,
}

impl View for RowWriter {
    type V = Seq<u8>;

    closed spec fn view(&self) -> Seq<u8> {
        self.data@
    }
}

impl RowWriter {
    pub closed spec fn spec_layout(&self) -> LayoutView {
        self.layout@
    }

    pub closed spec fn spec_field_count(&self) -> nat {
        self.layout.field_count as nat
    }

    pub closed spec fn spec_row_width(&self) -> nat {
        self.row_width as nat
    }

    pub closed spec fn wf(&self) -> bool {
        &&& self.layout.wf()
        &&& self.data@.len() == self.layout.spec_fixed_part_width()
        &&& self.row_width == self.data@.len()
    }

    pub proof fn lemma_wf(&self)
        requires
            self.wf(),
        ensures
            self@.len() == self.spec_layout().width,
            self.spec_row_width() == self.spec_layout().width,
            self.spec_layout().offsets.len() == self.spec_field_count(),
            self.spec_layout().width <= usize::MAX,
    {
    }

    /// A zeroed buffer for rows of the schema, under the layout planned for it.
    pub fn new(schema: &Schema) -> (w: RowWriter)
        requires
            schema.fields@.len() <= MAX_FIELDS,
            forall|i: int|
                0 <= i < schema.fields@.len() ==> is_supported(#[trigger] schema.fields@[i].data_type),
        ensures
            w.wf(),
            w.spec_layout() == plan(schema.fields@),
            fits(w.spec_layout(), schema_types(schema.fields@)),
            w@ == zeros(w.spec_layout().width),
    {
        let layout = RowLayout::new(schema);
        let init_capacity = layout.fixed_part_width();
        let data = zero_bytes(init_capacity);
        RowWriter { layout, data, row_width: init_capacity }
    }

    /// Zeroes the buffer for the next row.
    pub fn reset(&mut self)
        requires
            old(self).wf(),
        ensures
            final(self).wf(),
            final(self).spec_layout() == old(self).spec_layout(),
            final(self).spec_field_count() == old(self).spec_field_count(),
            final(self)@ == zeros(old(self).spec_layout().width),
    {
        let n = self.data.len();
        let mut i: usize = 0;
        while i < n
            invariant
                n == self.data@.len() == self.layout.spec_fixed_part_width(),
                self.layout == old(self).layout,
                self.layout.wf(),
                i <= n,
                forall|p: int| 0 <= p < i ==> self.data@[p] == 0u8,
            decreases n - i,
        {
            self.data.set(i, 0u8);
            i += 1;
        }
        self.row_width = self.layout.fixed_part_width();
        proof {
            assert(self.data@ =~= zeros(n as nat));
        }
    }

    /// The bytes of the current row.
    pub fn get_row(&self) -> (r: &[u8])
        requires
            self.wf(),
        ensures
            r@ == self@,
            r@.len() == self.spec_row_width(),
    {
        self.data.as_slice()
    }

    fn null_free(&self) -> (r: bool)
        ensures
            r == self.spec_layout().null_free,
    {
        self.layout.null_free
    }

    fn set_bit(&mut self, idx: usize, on: bool)
        requires
            old(self).wf(),
            idx / 8 < old(self)@.len(),
        ensures
            final(self).wf(),
            final(self).spec_layout() == old(self).spec_layout(),
            final(self).spec_field_count() == old(self).spec_field_count(),
            final(self)@ == with_bit(old(self)@, idx as nat, on),
    {
        let k = idx / 8;
        let b = self.data[k];
        let m: u8 = 1u8 << ((idx % 8) as u8);
        if on {
            self.data.set(k, b | m);
        } else {
            self.data.set(k, b & !m);
        }
    }

    /// Clears the bitmap bit of field `idx`.
    pub fn set_null_at(&mut self, idx: usize)
        requires
            old(self).wf(),
            !old(self).spec_layout().null_free,
            idx < 8 * old(self).spec_layout().null_width,
        ensures
            final(self).wf(),
            final(self).spec_layout() == old(self).spec_layout(),
            final(self).spec_field_count() == old(self).spec_field_count(),
            final(self)@ == with_bit(old(self)@, idx as nat, false),
    {
        proof {
            lemma_round8((self.layout.null_width + self.layout.values_width) as nat);
        }
        self.set_bit(idx, false);
    }

    /// Sets the bitmap bit of field `idx`.
    pub fn set_non_null_at(&mut self, idx: usize)
        requires
            old(self).wf(),
            !old(self).spec_layout().null_free,
            idx < 8 * old(self).spec_layout().null_width,
        ensures
            final(self).wf(),
            final(self).spec_layout() == old(self).spec_layout(),
            final(self).spec_field_count() == old(self).spec_field_count(),
            final(self)@ == with_bit(old(self)@, idx as nat, true),
    {
        proof {
            lemma_round8((self.layout.null_width + self.layout.values_width) as nat);
        }
        self.set_bit(idx, true);
    }

    /// Writes a `bool` into field `idx`.
    fn set_bool(&mut self, idx: usize, value: bool)
        requires
            old(self).wf(),
            idx < old(self).spec_field_count(),
            old(self).spec_layout().offsets[idx as int] + 1 <= old(self)@.len(),
        ensures
            final(self).wf(),
            final(self).spec_layout() == old(self).spec_layout(),
            final(self).spec_field_count() == old(self).spec_field_count(),
            final(self)@ == put_le(old(self)@, old(self).spec_layout().offsets[idx as int] as int, (if value { 1nat } else { 0nat }), 1),
    {
        proof {
            lemma_pow256_widths();
        }
        self.set_le(idx, if value { 1u128 } else { 0u128 }, 1);
    }

    /// Writes a `u8` into field `idx`.
    fn set_u8(&mut self, idx: usize, value: u8)
        requires
            old(self).wf(),
            idx < old(self).spec_field_count(),
            old(self).spec_layout().offsets[idx as int] + 1 <= old(self)@.len(),
        ensures
            final(self).wf(),
            final(self).spec_layout() == old(self).spec_layout(),
            final(self).spec_field_count() == old(self).spec_field_count(),
            final(self)@ == put_le(old(self)@, old(self).spec_layout().offsets[idx as int] as int, value as nat, 1),
    {
        proof {
            lemma_pow256_widths();
        }
        self.set_le(idx, value as u128, 1);
    }

    /// Writes a `u16` into field `idx`.
    fn set_u16(&mut self, idx: usize, value: u16)
        requires
            old(self).wf(),
            idx < old(self).spec_field_count(),
            old(self).spec_layout().offsets[idx as int] + 2 <= old(self)@.len(),
        ensures
            final(self).wf(),
            final(self).spec_layout() == old(self).spec_layout(),
            final(self).spec_field_count() == old(self).spec_field_count(),
            final(self)@ == put_le(old(self)@, old(self).spec_layout().offsets[idx as int] as int, value as nat, 2),
    {
        proof {
            lemma_pow256_widths();
        }
        self.set_le(idx, value as u128, 2);
    }

    /// Writes a `u32` into field `idx`.
    fn set_u32(&mut self, idx: usize, value: u32)
        requires
            old(self).wf(),
            idx < old(self).spec_field_count(),
            old(self).spec_layout().offsets[idx as int] + 4 <= old(self)@.len(),
        ensures
            final(self).wf(),
            final(self).spec_layout() == old(self).spec_layout(),
            final(self).spec_field_count() == old(self).spec_field_count(),
            final(self)@ == put_le(old(self)@, old(self).spec_layout().offsets[idx as int] as int, value as nat, 4),
    {
        proof {
            lemma_pow256_widths();
        }
        self.set_le(idx, value as u128, 4);
    }

    /// Writes a `u64` into field `idx`.
    fn set_u64(&mut self, idx: usize, value: u64)
        requires
            old(self).wf(),
            idx < old(self).spec_field_count(),
            old(self).spec_layout().offsets[idx as int] + 8 <= old(self)@.len(),
        ensures
            final(self).wf(),
            final(self).spec_layout() == old(self).spec_layout(),
            final(self).spec_field_count() == old(self).spec_field_count(),
            final(self)@ == put_le(old(self)@, old(self).spec_layout().offsets[idx as int] as int, value as nat, 8),
    {
        proof {
            lemma_pow256_widths();
        }
        self.set_le(idx, value as u128, 8);
    }

    /// Writes a `i8` into field `idx`.
    fn set_i8(&mut self, idx: usize, value: i8)
        requires
            old(self).wf(),
            idx < old(self).spec_field_count(),
            old(self).spec_layout().offsets[idx as int] + 1 <= old(self)@.len(),
        ensures
            final(self).wf(),
            final(self).spec_layout() == old(self).spec_layout(),
            final(self).spec_field_count() == old(self).spec_field_count(),
            final(self)@ == put_le(old(self)@, old(self).spec_layout().offsets[idx as int] as int, (value as u8) as nat, 1),
    {
        proof {
            lemma_pow256_widths();
        }
        self.set_le(idx, (value as u8) as u128, 1);
    }

    /// Writes a `i16` into field `idx`.
    fn set_i16(&mut self, idx: usize, value: i16)
        requires
            old(self).wf(),
            idx < old(self).spec_field_count(),
            old(self).spec_layout().offsets[idx as int] + 2 <= old(self)@.len(),
        ensures
            final(self).wf(),
            final(self).spec_layout() == old(self).spec_layout(),
            final(self).spec_field_count() == old(self).spec_field_count(),
            final(self)@ == put_le(old(self)@, old(self).spec_layout().offsets[idx as int] as int, (value as u16) as nat, 2),
    {
        proof {
            lemma_pow256_widths();
        }
        self.set_le(idx, (value as u16) as u128, 2);
    }

    /// Writes a `i32` into field `idx`.
    fn set_i32(&mut self, idx: usize, value: i32)
        requires
            old(self).wf(),
            idx < old(self).spec_field_count(),
            old(self).spec_layout().offsets[idx as int] + 4 <= old(self)@.len(),
        ensures
            final(self).wf(),
            final(self).spec_layout() == old(self).spec_layout(),
            final(self).spec_field_count() == old(self).spec_field_count(),
            final(self)@ == put_le(old(self)@, old(self).spec_layout().offsets[idx as int] as int, (value as u32) as nat, 4),
    {
        proof {
            lemma_pow256_widths();
        }
        self.set_le(idx, (value as u32) as u128, 4);
    }

    /// Writes a `i64` into field `idx`.
    fn set_i64(&mut self, idx: usize, value: i64)
        requires
            old(self).wf(),
            idx < old(self).spec_field_count(),
            old(self).spec_layout().offsets[idx as int] + 8 <= old(self)@.len(),
        ensures
            final(self).wf(),
            final(self).spec_layout() == old(self).spec_layout(),
            final(self).spec_field_count() == old(self).spec_field_count(),
            final(self)@ == put_le(old(self)@, old(self).spec_layout().offsets[idx as int] as int, (value as u64) as nat, 8),
    {
        proof {
            lemma_pow256_widths();
        }
        self.set_le(idx, (value as u64) as u128, 8);
    }

    /// Writes a `f32` (IEEE-754 bit pattern) into field `idx`.
    fn set_f32(&mut self, idx: usize, value: u32)
        requires
            old(self).wf(),
            idx < old(self).spec_field_count(),
            old(self).spec_layout().offsets[idx as int] + 4 <= old(self)@.len(),
        ensures
            final(self).wf(),
            final(self).spec_layout() == old(self).spec_layout(),
            final(self).spec_field_count() == old(self).spec_field_count(),
            final(self)@ == put_le(old(self)@, old(self).spec_layout().offsets[idx as int] as int, value as nat, 4),
    {
        proof {
            lemma_pow256_widths();
        }
        self.set_le(idx, value as u128, 4);
    }

    /// Writes a `f64` (IEEE-754 bit pattern) into field `idx`.
    fn set_f64(&mut self, idx: usize, value: u64)
        requires
            old(self).wf(),
            idx < old(self).spec_field_count(),
            old(self).spec_layout().offsets[idx as int] + 8 <= old(self)@.len(),
        ensures
            final(self).wf(),
            final(self).spec_layout() == old(self).spec_layout(),
            final(self).spec_field_count() == old(self).spec_field_count(),
            final(self)@ == put_le(old(self)@, old(self).spec_layout().offsets[idx as int] as int, value as nat, 8),
    {
        proof {
            lemma_pow256_widths();
        }
        self.set_le(idx, value as u128, 8);
    }

    /// Writes a `date32` (days since the epoch) into field `idx`.
    fn set_date32(&mut self, idx: usize, value: i32)
        requires
            old(self).wf(),
            idx < old(self).spec_field_count(),
            old(self).spec_layout().offsets[idx as int] + 4 <= old(self)@.len(),
        ensures
            final(self).wf(),
            final(self).spec_layout() == old(self).spec_layout(),
            final(self).spec_field_count() == old(self).spec_field_count(),
            final(self)@ == put_le(old(self)@, old(self).spec_layout().offsets[idx as int] as int, (value as u32) as nat, 4),
    {
        proof {
            lemma_pow256_widths();
        }
        self.set_le(idx, (value as u32) as u128, 4);
    }

    /// Writes a `date64` (milliseconds since the epoch) into field `idx`.
    fn set_date64(&mut self, idx: usize, value: i64)
        requires
            old(self).wf(),
            idx < old(self).spec_field_count(),
            old(self).spec_layout().offsets[idx as int] + 8 <= old(self)@.len(),
        ensures
            final(self).wf(),
            final(self).spec_layout() == old(self).spec_layout(),
            final(self).spec_field_count() == old(self).spec_field_count(),
            final(self)@ == put_le(old(self)@, old(self).spec_layout().offsets[idx as int] as int, (value as u64) as nat, 8),
    {
        proof {
            lemma_pow256_widths();
        }
        self.set_le(idx, (value as u64) as u128, 8);
    }

    /// Writes a `decimal128` (unscaled value) into field `idx`.
    fn set_decimal128(&mut self, idx: usize, value: i128)
        requires
            old(self).wf(),
            idx < old(self).spec_field_count(),
            old(self).spec_layout().offsets[idx as int] + 16 <= old(self)@.len(),
        ensures
            final(self).wf(),
            final(self).spec_layout() == old(self).spec_layout(),
            final(self).spec_field_count() == old(self).spec_field_count(),
            final(self)@ == put_le(old(self)@, old(self).spec_layout().offsets[idx as int] as int, (value as u128) as nat, 16),
    {
        proof {
            lemma_pow256_widths();
        }
        self.set_le(idx, value as u128, 16);
    }

    /// Writes the `width` little-endian bytes of `bits` at the offset of field `idx`.
    fn set_le(&mut self, idx: usize, bits: u128, width: usize)
        requires
            old(self).wf(),
            idx < old(self).spec_field_count(),
            old(self).spec_layout().offsets[idx as int] + width <= old(self)@.len(),
            bits < pow256(width as nat),
        ensures
            final(self).wf(),
            final(self).spec_layout() == old(self).spec_layout(),
            final(self).spec_field_count() == old(self).spec_field_count(),
            final(self)@ == put_le(old(self)@, old(self).spec_layout().offsets[idx as int] as int, bits as nat, width as nat),
    {
        let offset = self.layout.field_offsets[idx];
        let ghost start = self.data@;
        let mut b: u128 = bits;
        let mut k: usize = 0;
        assert(pow256(0) == 1);
        while k < width
            invariant
                self.wf(),
                idx < self.spec_field_count(),
                self.layout == old(self).layout,
                offset == self.spec_layout().offsets[idx as int],
                offset + width <= self.data@.len() == start.len(),
                k <= width,
                b as nat == bits as nat / pow256(k as nat),
                forall|p: int|
                    0 <= p < start.len() ==> #[trigger] self.data@[p] == if offset <= p < offset + k {
                        le_byte(bits as nat, (p - offset) as nat)
                    } else {
                        start[p]
                    },
            decreases width - k,
        {
            proof {
                lemma_div_step(bits as nat, k as nat);
            }
            self.data.set(offset + k, (b % 256) as u8);
            b = b / 256;
            k += 1;
        }
        proof {
            assert(self.data@ =~= put_le(start, offset as int, bits as nat, width as nat));
        }
    }
}

/// Writes the value at `row_idx` of `col` into field `col_idx` of the row, as
/// the little-endian bytes of its type's width.
fn write_field(col_idx: usize, row_idx: usize, col: &Column, row: &mut RowWriter)
    requires
        old(row).wf(),
        col_idx < old(row).spec_field_count(),
        old(row).spec_layout().offsets[col_idx as int] + values_width(col.spec_values()) <= old(row)@.len(),
        row_idx < col.spec_len(),
    ensures
        final(row).wf(),
        final(row).spec_layout() == old(row).spec_layout(),
        final(row).spec_field_count() == old(row).spec_field_count(),
        final(row)@ == put_le(
            old(row)@,
            old(row).spec_layout().offsets[col_idx as int] as int,
            value_bits(col.spec_values(), row_idx as int),
            values_width(col.spec_values()),
        ),
{
    match col.values() {
        ColumnValues::Boolean(x) => row.set_bool(col_idx, x[row_idx]),
        ColumnValues::Int8(x) => row.set_i8(col_idx, x[row_idx]),
        ColumnValues::Int16(x) => row.set_i16(col_idx, x[row_idx]),
        ColumnValues::Int32(x) => row.set_i32(col_idx, x[row_idx]),
        ColumnValues::Int64(x) => row.set_i64(col_idx, x[row_idx]),
        ColumnValues::UInt8(x) => row.set_u8(col_idx, x[row_idx]),
        ColumnValues::UInt16(x) => row.set_u16(col_idx, x[row_idx]),
        ColumnValues::UInt32(x) => row.set_u32(col_idx, x[row_idx]),
        ColumnValues::UInt64(x) => row.set_u64(col_idx, x[row_idx]),
        ColumnValues::Float32(x) => row.set_f32(col_idx, x[row_idx]),
        ColumnValues::Float64(x) => row.set_f64(col_idx, x[row_idx]),
        ColumnValues::Date32(x) => row.set_date32(col_idx, x[row_idx]),
        ColumnValues::Date64(x) => row.set_date64(col_idx, x[row_idx]),
        ColumnValues::Decimal128(x) => row.set_decimal128(col_idx, x[row_idx]),
    }
}

/// Writes row `row_idx` of the columns into the row buffer, which is expected
/// to be freshly reset, and returns the row's width in bytes. Under a
/// null-free layout every value is written as it is; otherwise a null field
/// only has its bitmap bit cleared, and a present one has it set.
pub fn write_row(row_writer: &mut RowWriter, row_idx: usize, schema: &Schema, columns: &Vec<Column>) -> (w: usize)
    requires
        old(row_writer).wf(),
        row_input_ok(old(row_writer).spec_layout(), schema.fields@, columns@, row_idx as int),
    ensures
        final(row_writer).wf(),
        final(row_writer).spec_layout() == old(row_writer).spec_layout(),
        final(row_writer).spec_field_count() == old(row_writer).spec_field_count(),
        final(row_writer)@ == encode_fields(
            old(row_writer)@,
            old(row_writer).spec_layout(),
            columns@,
            row_idx as int,
            columns@.len(),
        ),
        w == final(row_writer)@.len(),
        w == old(row_writer).spec_layout().width,
{
    let ghost l = row_writer.spec_layout();
    let ghost start = row_writer@;
    let ghost types = schema_types(schema.fields@);
    proof {
        row_writer.lemma_wf();
    }
    let n = columns.len();
    let null_free = row_writer.null_free();
    let mut i: usize = 0;
    while i < n
        invariant
            n == columns@.len() == schema.fields@.len(),
            i <= n,
            row_writer.wf(),
            row_writer.spec_layout() == l,
            row_writer.spec_field_count() == old(row_writer).spec_field_count() == n,
            l == old(row_writer).spec_layout(),
            null_free == l.null_free,
            row_input_ok(l, schema.fields@, columns@, row_idx as int),
            types == schema_types(schema.fields@),
            row_writer@.len() == l.width,
            row_writer@ == encode_fields(start, l, columns@, row_idx as int, i as nat),
        decreases n - i,
    {
        let col = &columns[i];
        proof {
            assert(types[i as int] == schema.fields@[i as int].data_type);
            lemma_match_width(types[i as int], col.spec_values());
        }
        if null_free {
            write_field(i, row_idx, col, row_writer);
        } else if !col.is_null(row_idx) {
            row_writer.set_non_null_at(i);
            write_field(i, row_idx, col, row_writer);
        } else {
            row_writer.set_null_at(i);
        }
        i += 1;
    }
    proof {
        row_writer.lemma_wf();
    }
    row_writer.row_width
}

/// `n` zero bytes.
fn zero_bytes(n: usize) -> (v: Vec<u8>)
    ensures
        v@ == zeros(n as nat),
{
    let mut v: Vec<u8> = Vec::new();
    let mut i: usize = 0;
    while i < n
        invariant
            i <= n,
            v@ == zeros(i as nat),
        decreases n - i,
    {
        v.push(0u8);
        i += 1;
        proof {
            assert(v@ =~= zeros(i as nat));
        }
    }
    v
}

} // verus!
