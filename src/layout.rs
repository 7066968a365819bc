use vstd::prelude::*;
use crate::types::{is_supported, schema_types, type_width, field_width, DataType, Field, Schema};

verus! {

/// Largest number of fields a layout is planned for: it keeps every offset and
/// the row width within a 32-bit `usize`.
pub const MAX_FIELDS: usize = 0x0100_0000;

/// Where each field of a schema lives in the fixed part of a row.
#[derive(Clone, Debug)]
pub struct RowLayout {
    /// No field can be null, so rows carry no null bitmap.
    pub null_free: bool,
    /// Bytes of the null bitmap at the start of each row.
    pub null_width: usize,
    /// Bytes taken by the field values.
    pub values_width: usize,
    pub field_count: usize,
    /// Byte offset of each field's value within the row.
    pub field_offsets: Vec<usize>,
}

/// What a layout says of a row: whether it has a bitmap, the bitmap's width,
/// each field's offset and the row's total width.
pub struct LayoutView {
    pub null_free: bool,
    pub null_width: nat,
    pub offsets: Seq<nat>,
    pub width: nat,
}

/// `x` rounded up to a multiple of eight.
pub open spec fn round8(x: nat) -> nat {
    ((x + 7) / 8 * 8) as nat
}

/// Total width of the first `i` types.
pub open spec fn prefix_width(types: Seq<DataType>, i: nat) -> nat
    decreases i,
{
    if i == 0 {
        0
    } else {
        prefix_width(types, (i - 1) as nat) + type_width(types[i - 1])
    }
}

/// The layout that is planned for a schema: a bitmap of one bit per field
/// unless no field is nullable, then the fields in order, each right after the
/// previous one, and the row rounded up to whole 8-byte words.
pub open spec fn plan(fields: Seq<Field>) -> LayoutView {
    let types = schema_types(fields);
    let null_free = forall|i: int| 0 <= i < fields.len() ==> !#[trigger] fields[i].nullable;
    let null_width: nat = if null_free { 0 } else { ((fields.len() + 7) / 8) as nat };
    LayoutView {
        null_free,
        null_width,
        offsets: Seq::new(fields.len(), |i: int| null_width + prefix_width(types, i as nat)),
        width: round8(null_width + prefix_width(types, fields.len())),
    }
}

/// The layout places fields of the given types: one offset per field, each
/// value after the bitmap and inside the row, no two values overlapping, and
/// one bitmap bit per field unless the layout is null-free.
pub open spec fn fits(l: LayoutView, types: Seq<DataType>) -> bool {
    &&& l.offsets.len() == types.len()
    &&& l.null_free ==> l.null_width == 0
    &&& !l.null_free ==> types.len() <= 8 * l.null_width
    &&& l.null_width <= l.width
    &&& forall|i: int| 0 <= i < types.len() ==> is_supported(#[trigger] types[i])
    &&& forall|i: int|
        0 <= i < types.len() ==> l.null_width <= #[trigger] l.offsets[i] && l.offsets[i]
            + type_width(types[i]) <= l.width
    &&& forall|i: int, j: int|
        0 <= i < j < types.len() ==> #[trigger] l.offsets[i] + type_width(types[i])
            <= #[trigger] l.offsets[j]
}

pub proof fn lemma_round8(x: nat)
    ensures
        x <= round8(x) <= x + 7,
        round8(x) % 8 == 0,
{
    assert((x + 7) / 8 * 8 >= x && (x + 7) / 8 * 8 <= x + 7 && ((x + 7) / 8 * 8) % 8 == 0)
        by (nonlinear_arith);
}

impl RowLayout {
    /// Bytes per row: bitmap and values, rounded up to a whole number of 8-byte words.
    pub open spec fn spec_fixed_part_width(&self) -> nat {
        round8((self.null_width + self.values_width) as nat)
    }

    pub open spec fn view(&self) -> LayoutView {
        LayoutView {
            null_free: self.null_free,
            null_width: self.null_width as nat,
            offsets: self.field_offsets@.map_values(|o: usize| o as nat),
            width: self.spec_fixed_part_width(),
        }
    }

    /// The fields agree in number with the offsets, and the row width fits in `usize`.
    pub open spec fn wf(&self) -> bool {
        &&& self.field_offsets@.len() == self.field_count
        &&& self.null_width + self.values_width + 7 <= usize::MAX
    }

    /// Plans the layout of a schema: a bitmap of one bit per field (omitted
    /// when no field is nullable), then the fields in order, each at the end
    /// of the previous one.
    pub fn new(schema: &Schema) -> (r: RowLayout)
        requires
            schema.fields@.len() <= MAX_FIELDS,
            forall|i: int|
                0 <= i < schema.fields@.len() ==> is_supported(#[trigger] schema.fields@[i].data_type),
        ensures
            r@ == plan(schema.fields@),
            r.wf(),
            r.field_count == schema.fields@.len(),
            fits(r@, schema_types(schema.fields@)),
    {
        let ghost types = schema_types(schema.fields@);
        let n = schema.fields.len();
        let mut null_free = true;
        let mut i: usize = 0;
        while i < n
            invariant
                i <= n == schema.fields@.len(),
                null_free == forall|k: int| 0 <= k < i ==> !#[trigger] schema.fields@[k].nullable,
            decreases n - i,
        {
            if schema.fields[i].nullable {
                null_free = false;
            }
            i += 1;
        }
        let null_width: usize = if null_free { 0 } else { (n + 7) / 8 };
        let mut offsets: Vec<usize> = Vec::new();
        let mut offset: usize = null_width;
        let mut i: usize = 0;
        while i < n
            invariant
                i <= n == schema.fields@.len() <= MAX_FIELDS,
                types == schema_types(schema.fields@),
                null_width <= (n + 7) / 8,
                forall|k: int| 0 <= k < n ==> is_supported(#[trigger] schema.fields@[k].data_type),
                offsets@.len() == i,
                offset == null_width + prefix_width(types, i as nat),
                prefix_width(types, i as nat) <= 16 * i,
                forall|k: int| 0 <= k < i ==> #[trigger] offsets@[k] == null_width + prefix_width(types, k as nat),
            decreases n - i,
        {
            assert(types[i as int] == schema.fields@[i as int].data_type);
            offsets.push(offset);
            offset = offset + field_width(schema.fields[i].data_type);
            i += 1;
        }
        let values_width = offset - null_width;
        let r = RowLayout { null_free, null_width, values_width, field_count: n, field_offsets: offsets };
        proof {
            let pl = plan(schema.fields@);
            lemma_round8((null_width + values_width) as nat);
            assert(r@.offsets =~= pl.offsets);
            assert forall|k: int| 0 <= k < types.len() implies is_supported(#[trigger] types[k]) by {
                assert(types[k] == schema.fields@[k].data_type);
            }
            assert forall|k: int| 0 <= k < types.len() implies null_width <= #[trigger] r@.offsets[k]
                && r@.offsets[k] + type_width(types[k]) <= r@.width by {
                lemma_prefix_mono(types, (k + 1) as nat, n as nat);
            }
            assert forall|a: int, b: int| 0 <= a < b < types.len() implies
                #[trigger] r@.offsets[a] + type_width(types[a]) <= #[trigger] r@.offsets[b] by {
                lemma_prefix_mono(types, (a + 1) as nat, b as nat);
            }
        }
        r
    }

    /// Bytes per row.
    pub fn fixed_part_width(&self) -> (r: usize)
        requires
            self.null_width + self.values_width + 7 <= usize::MAX,
        ensures
            r == self.spec_fixed_part_width(),
    {
        (self.null_width + self.values_width + 7) / 8 * 8
    }
}

pub proof fn lemma_prefix_mono(types: Seq<DataType>, a: nat, b: nat)
    requires
        a <= b,
    ensures
        prefix_width(types, a) <= prefix_width(types, b),
    decreases b - a,
{
    if a < b {
        lemma_prefix_mono(types, a, (b - 1) as nat);
    }
}

} // verus!
